use olea_core::recording::wav_bytes;

#[test]
fn a_recording_is_a_wave_file() {
    let file = wav_bytes(&[1, -1, i16::MAX, i16::MIN]);
    assert_eq!(file.len(), 44 + 8);
    assert_eq!(&file[0..4], b"RIFF");
    assert_eq!(u32::from_le_bytes([file[4], file[5], file[6], file[7]]), 36 + 8);
    assert_eq!(&file[8..16], b"WAVEfmt ");
    assert_eq!(&file[16..20], &16u32.to_le_bytes());
    assert_eq!(&file[20..24], &[1, 0, 2, 0]);
    assert_eq!(&file[24..28], &48_000u32.to_le_bytes());
    assert_eq!(&file[28..32], &192_000u32.to_le_bytes());
    assert_eq!(&file[32..36], &[4, 0, 16, 0]);
    assert_eq!(&file[36..40], b"data");
    assert_eq!(u32::from_le_bytes([file[40], file[41], file[42], file[43]]), 8);
    let samples: Vec<i16> =
        file[44..].chunks(2).map(|b| i16::from_le_bytes([b[0], b[1]])).collect();
    assert_eq!(samples, vec![1, -1, i16::MAX, i16::MIN]);
    assert_eq!(wav_bytes(&[]).len(), 44);
}
