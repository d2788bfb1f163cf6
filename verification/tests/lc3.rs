use olea_core::lc3::{check_frame_bytes, lc3_frame_samples, Decoder, Encoder, Lc3Error};

#[test]
fn frame_lengths_match_the_specification() {
    let encoder = Encoder::new(2, 10_000, 48_000).unwrap();
    assert_eq!(encoder.samples_per_frame(), 480);
    assert_eq!(encoder.channels(), 2);

    let encoder = Encoder::new(1, 7_500, 48_000).unwrap();
    assert_eq!(encoder.samples_per_frame(), 360);
}

#[test]
fn a_rate_lc3_does_not_define_is_refused_rather_than_guessed() {
    // 44.1 kHz is not an LC3 rate at all. 3 ms is not one of the four
    // frame durations liblc3 accepts - 2.5, 5, 7.5 and 10 ms are, which is
    // wider than the two Bluetooth actually negotiates.
    assert!(Encoder::new(1, 10_000, 44_100).is_err());
    assert!(Encoder::new(1, 3_000, 48_000).is_err());
    assert!(Encoder::new(1, 5_000, 48_000).is_ok());
}

#[test]
fn a_lost_packet_is_concealed_rather_than_refused() {
    let decoder = Decoder::new(10_000, 32_000).unwrap();
    let out = vec![0i16; decoder.samples_per_frame()];
    decoder
        .check(0, out.len())
        .expect("empty payload must run concealment");
}

/// The frame lengths that the codec's C library has as constants.
#[test]
fn specification_constants_come_back_from_the_c_library() {
    assert_eq!(lc3_frame_samples(10_000, 48_000), 480);
    assert_eq!(lc3_frame_samples(7_500, 48_000), 360);
    assert_eq!(lc3_frame_samples(10_000, 16_000), 160);
}

#[test]
fn frames_of_the_wrong_shape_are_refused() {
    let encoder = Encoder::new(2, 10_000, 48_000).unwrap();
    assert_eq!(encoder.check(1, 480, 100), Ok(100));
    assert_eq!(
        encoder.check(0, 479, 100),
        Err(Lc3Error::WrongFrameLength { got: 479, expected: 480 })
    );
    assert_eq!(encoder.check(2, 480, 100), Err(Lc3Error::Rejected));
    assert_eq!(encoder.check(0, 480, 19), Err(Lc3Error::FrameSizeOutOfRange(19)));
    assert_eq!(Encoder::new(0, 10_000, 48_000).unwrap().channels(), 1);
    let decoder = Decoder::new(10_000, 32_000).unwrap();
    assert_eq!(decoder.check(401, 320), Err(Lc3Error::FrameSizeOutOfRange(401)));
    assert_eq!(
        decoder.check(40, 10),
        Err(Lc3Error::WrongFrameLength { got: 10, expected: 320 })
    );
    assert_eq!(check_frame_bytes(400), Ok(400));
    assert!(Decoder::new(10_000, 44_100).is_err());
}

#[test]
fn return_codes_and_errors_have_a_meaning() {
    assert_eq!(Encoder::encoded(0), Ok(()));
    assert_eq!(Encoder::encoded(-1), Err(Lc3Error::Rejected));
    assert_eq!(Decoder::decoded(1), Ok(()));
    assert_eq!(Decoder::decoded(-1), Err(Lc3Error::Rejected));
    assert_eq!(lc3_frame_samples(3_000, 48_000), -1);
    let error = Encoder::new(1, 3_000, 48_000).unwrap_err();
    assert_eq!(error.to_string(), "liblc3 rejected the configuration: 3000 us at 48000 Hz");
    assert_eq!(
        Lc3Error::WrongFrameLength { got: 1, expected: 2 }.to_string(),
        "frame must be exactly 2 samples, got 1"
    );
    assert_eq!(
        Lc3Error::FrameSizeOutOfRange(5).to_string(),
        "frame size 5 bytes is outside what LC3 can carry"
    );
    assert_eq!(Lc3Error::Rejected.to_string(), "liblc3 rejected the frame");
}
