use olea_core::audio::resample::pull_resampled;
use olea_core::audio::{
    check_mirrored, describe_render, find_cable_device, find_cable_render_device,
    find_capture_device, format_is_float, integer_bytes, integer_samples, mean_sample, mix_to_mono,
    render_bytes, render_plan, sample_kind, source_index, timer_due, AudioCapture, AudioDevice,
    AudioError, EndpointFormat, RenderPlan, SampleKind,
};

use std::collections::VecDeque;

/// The samples that the pulled points stand for, blended the way a player does.
fn resampled(
    source: &mut VecDeque<i16>,
    phase: &mut u64,
    source_rate: u32,
    output_rate: u32,
    channels: usize,
    frames: usize,
) -> Option<Vec<i16>> {
    let points = pull_resampled(source, phase, source_rate, output_rate, channels, frames)?;
    Some(
        points
            .iter()
            .map(|p| {
                let fraction = p.part as f32 / output_rate as f32;
                if fraction == 0.0 {
                    p.a
                } else {
                    (p.a as f32 + (p.b as f32 - p.a as f32) * fraction) as i16
                }
            })
            .collect(),
    )
}


#[test]
fn cable_devices_are_recognised_by_name() {
    let cable = AudioDevice {
        name: "CABLE Output (VB-Audio Virtual Cable)".into(),
        id: String::new(),
    };
    assert!(cable.is_virtual_cable());

    let microphone = AudioDevice {
        name: "Microphone (Realtek High Definition Audio)".into(),
        id: String::new(),
    };
    assert!(!microphone.is_virtual_cable());
}

#[test]
fn the_plain_cable_wins_over_a_multichannel_one() {
    let sixteen = AudioDevice {
        id: "a".into(),
        name: "CABLE Out 16ch (VB-Audio Virtual Cable)".into(),
    };
    let plain = AudioDevice {
        id: "b".into(),
        name: "CABLE Output (VB-Audio Virtual Cable)".into(),
    };

    assert!(sixteen.is_virtual_cable() && plain.is_virtual_cable());
    assert!(sixteen.is_multichannel_cable());
    assert!(!plain.is_multichannel_cable(), "the stereo cable is the right one");
}

#[test]
fn deinterleave_splits_the_stereo_pair() {
    // L R L R L R
    let frame = vec![1i16, -1, 2, -2, 3, -3];
    let (left, right) = AudioCapture::deinterleave(&frame);

    assert_eq!(left, vec![1, 2, 3]);
    assert_eq!(right, vec![-1, -2, -3]);
}

#[test]
fn resampling_keeps_the_channels_apart() {
    let mut source: VecDeque<i16> = (0..8i16).flat_map(|n| [n * 100, -n * 100]).collect();
    let out = resampled(&mut source, &mut 0, 48000, 24000, 2, 4).unwrap();
    assert_eq!(out, vec![0, 0, 200, -200, 400, -400, 600, -600]);
}

#[test]
fn fractional_resampling_has_no_cumulative_rounding_drift() {
    // Linear interpolation needs one look-ahead frame, retained for the
    // next block. This is fixed headroom, not extra consumption per block.
    let mut source = VecDeque::from(vec![100i16; 132301 * 2]);
    let mut phase = 0;
    for _ in 0..400 {
        assert_eq!(resampled(&mut source, &mut phase, 44100, 48000, 2, 360)
            .expect("three seconds of source must supply three seconds of output").len(), 720);
    }
    assert_eq!(source.len(), 2, "only the look-ahead stereo frame remains");
    assert_eq!(phase, 0);
}

#[test]
fn resampling_is_continuous_across_arbitrary_frame_boundaries() {
    for (input_rate, output_rate) in [(44100, 48000), (48000, 44100), (48000, 16000)] {
        let mut source: VecDeque<i16> = (0..20000).flat_map(|i| {
            let value = ((i as f32 * 0.037).sin() * 20000.0) as i16;
            [value, -value]
        }).collect();
        let mut blocks = source.clone();
        let expected = resampled(&mut source, &mut 0, input_rate, output_rate, 2, 1440).unwrap();
        let mut phase = 0;
        let mut actual = Vec::new();
        for size in [137, 223, 360, 719, 1] {
            actual.extend(resampled(&mut blocks, &mut phase, input_rate, output_rate, 2, size).unwrap());
        }
        assert_eq!(actual, expected);
        assert_eq!(source, blocks);
    }
}

#[test]
fn resampling_underrun_preserves_samples_and_phase() {
    let mut source = VecDeque::from(vec![100, -100, 200, -200]);
    let before = source.clone();
    let mut phase = 123;
    assert!(resampled(&mut source, &mut phase, 44100, 48000, 2, 360).is_none());
    assert_eq!(source, before);
    assert_eq!(phase, 123);
}

#[test]
fn equal_rates_preserve_every_sample_and_stereo_position() {
    let expected = vec![i16::MIN, i16::MAX, -1234, 5678, 1, -2];
    let mut source = VecDeque::from(expected.clone());
    assert_eq!(resampled(&mut source, &mut 0, 48000, 48000, 2, 3).unwrap(), expected);
    assert!(source.is_empty());
}

#[test]
fn empty_resampling_does_not_panic_or_consume_input() {
    let mut source = VecDeque::new();
    assert!(resampled(&mut source, &mut 0, 48000, 24000, 2, 1).is_none());
    assert_eq!(resampled(&mut source, &mut 0, 48000, 24000, 2, 0), Some(vec![]));
    assert!(resampled(&mut source, &mut 0, 48000, 0, 2, 4).is_none());
}

#[test]
fn odd_length_frame_does_not_panic() {
    // A truncated buffer must drop the stray sample, not index past the end.
    let frame = vec![1i16, -1, 2];
    let (left, right) = AudioCapture::deinterleave(&frame);

    assert_eq!(left, vec![1]);
    assert_eq!(right, vec![-1]);
}

fn named(name: &str) -> AudioDevice {
    AudioDevice { id: format!("id-{name}"), name: name.into() }
}

const STEREO: EndpointFormat =
    EndpointFormat { sample_rate: 48_000, channels: 2, bits_per_sample: 16 };

#[test]
fn written_samples_read_back() {
    let samples = [0i16, 1, -1, 256, i16::MAX, i16::MIN];
    for kind in [SampleKind::Integer16, SampleKind::Integer24, SampleKind::Integer32] {
        let bytes = render_bytes(&samples, 6, 1, kind);
        assert_eq!(integer_samples(&bytes, kind), samples.to_vec());
    }
    assert_eq!(integer_bytes(-2, SampleKind::Integer16), vec![0xFE, 0xFF]);
    assert_eq!(integer_bytes(0x1234, SampleKind::Integer24), vec![0, 0x34, 0x12]);
    assert_eq!(integer_bytes(0x1234, SampleKind::Integer32), vec![0, 0, 0x34, 0x12]);
    assert_eq!(integer_samples(&[1, 0, 9], SampleKind::Integer16), vec![1]);
    // Every output frame repeats its source sample on every channel.
    let twice = render_bytes(&[5, 7], 4, 2, SampleKind::Integer16);
    assert_eq!(integer_samples(&twice, SampleKind::Integer16), vec![5, 5, 5, 5, 7, 7, 7, 7]);
    assert_eq!(source_index(3, 2, 4), 1);
}

#[test]
fn a_frame_is_written_dropped_or_nothing() {
    assert_eq!(render_plan(0, 16_000, 48_000, 480, 0), RenderPlan::Nothing);
    assert_eq!(render_plan(160, 0, 48_000, 480, 0), RenderPlan::Nothing);
    assert_eq!(render_plan(160, 16_000, 48_000, 480, 0), RenderPlan::Write(480));
    assert_eq!(render_plan(160, 16_000, 48_000, 480, 1), RenderPlan::Dropped);
    assert_eq!(render_plan(1, 48_000, 8_000, 480, 900), RenderPlan::Dropped);
    assert_eq!(render_plan(1, 48_000, 8_000, 480, 0), RenderPlan::Write(1));
}

#[test]
fn widths_that_cannot_be_converted_are_refused() {
    assert_eq!(sample_kind(true, 32).unwrap(), SampleKind::Float32);
    assert_eq!(sample_kind(false, 24).unwrap(), SampleKind::Integer24);
    assert_eq!(
        sample_kind(false, 8).unwrap_err().to_string(),
        "device delivers 8-bit samples, which this stack cannot convert - set the cable to 16 or 24 bit"
    );
    assert!(sample_kind(true, 64).is_err());
    assert!(format_is_float(3, 0, None));
    assert!(format_is_float(0xFFFE, 22, Some(0x00000003_0000_0010_8000_00aa00389b71)));
    assert!(!format_is_float(0xFFFE, 21, Some(0x00000003_0000_0010_8000_00aa00389b71)));
    assert!(!format_is_float(1, 22, None));
}

#[test]
fn a_capture_needs_stereo_but_not_the_rate() {
    let mono = EndpointFormat { channels: 1, ..STEREO };
    assert_eq!(
        AudioCapture::open(mono, false, Some(32_000), true).err().unwrap().to_string(),
        "device delivers 1 channels at 48000 Hz; the stream needs stereo (a rate other than 32000 Hz is converted, a channel count is not)"
    );
    assert!(AudioCapture::open(mono, false, None, false).is_ok());
    let capture = AudioCapture::open(STEREO, false, Some(32_000), true).ok().unwrap();
    assert_eq!(capture.describe(), "48000 Hz -> 32000 Hz, 2 channels, 16-bit integer");
    assert_eq!(capture.sample_rate(), 48_000);
    let direct = EndpointFormat { bits_per_sample: 32, ..STEREO };
    let capture = AudioCapture::open(direct, true, None, true).ok().unwrap();
    assert_eq!(capture.describe(), "48000 Hz, 2 channels, 32 bit float");
    assert_eq!(STEREO.describe(), "48000 Hz, 2 channels, 16 bit");
    assert_eq!(describe_render(STEREO, false), "48000 Hz, 2 channels, 16-bit integer");
}

#[test]
fn a_gap_in_the_capture_drops_what_came_before() {
    let mut capture = AudioCapture::open(STEREO, false, Some(48_000), true).ok().unwrap();
    capture.push_packet(&[1, 2, 3, 4], false);
    assert!(capture.next_frame(3).is_none(), "a short frame is no frame");
    assert_eq!(capture.backlog(), 4);
    let frame = capture.next_frame(1).unwrap();
    assert_eq!(frame.iter().map(|p| (p.a, p.part)).collect::<Vec<_>>(), vec![(1, 0), (2, 0)]);
    capture.push_packet(&[9, 8], true);
    assert_eq!(capture.backlog(), 2);
    capture.flush();
    assert_eq!(capture.backlog(), 0);
}

#[test]
fn a_packet_is_taken_as_the_device_delivered_it() {
    let mut capture = AudioCapture::open(STEREO, false, Some(48_000), true).ok().unwrap();
    assert!(capture.take_packet(0, 1, &[0x01, 0x00, 0xFF, 0xFF], &[]).is_ok());
    let frame = capture.next_frame(1).unwrap();
    assert_eq!(frame.iter().map(|p| p.a).collect::<Vec<_>>(), vec![1, -1]);

    // What a silent packet holds is not read.
    assert!(capture.take_packet(2, 3, &[0x55; 12], &[]).is_ok());
    assert_eq!(capture.backlog(), 6);
    assert_eq!(capture.next_frame(3).unwrap().iter().map(|p| p.a).max(), Some(0));

    // A gap ends what came before it.
    assert!(capture.take_packet(0, 1, &[1, 0, 2, 0], &[]).is_ok());
    assert!(capture.take_packet(1, 1, &[3, 0, 4, 0], &[]).is_ok());
    assert_eq!(capture.backlog(), 2);

    let float = EndpointFormat { bits_per_sample: 32, ..STEREO };
    let mut capture = AudioCapture::open(float, true, None, true).ok().unwrap();
    assert!(capture.take_packet(0, 1, &[], &[7, 8]).is_ok());
    assert_eq!(capture.backlog(), 2);

    let odd = EndpointFormat { bits_per_sample: 20, ..STEREO };
    let mut capture = AudioCapture::open(odd, false, None, true).ok().unwrap();
    assert!(matches!(
        capture.take_packet(0, 1, &[0; 6], &[]),
        Err(AudioError::UnsupportedSampleFormat(20))
    ));
    assert_eq!(capture.backlog(), 0);
}

#[test]
fn mixing_down_takes_the_mean() {
    assert_eq!(mean_sample(&[3, 5]), 4);
    assert_eq!(mix_to_mono(&[1, 3, i16::MIN, i16::MIN, 7], 2), vec![2, i16::MIN]);
    assert_eq!(mix_to_mono(&[1, 2, 3], 1), vec![1, 2, 3]);
}

#[test]
fn devices_are_found_by_rule_or_by_name() {
    let devices = [
        named("CABLE In 16ch (VB-Audio)"),
        named("Microphone"),
        named("CABLE Output (VB-Audio Virtual Cable)"),
    ];
    assert_eq!(find_cable_device(&devices, None).unwrap().name, devices[2].name);
    assert_eq!(find_cable_device(&devices, Some("micro")).unwrap().name, "Microphone");
    assert_eq!(find_capture_device(&devices, "default").unwrap().name, "Microphone");
    assert_eq!(
        find_cable_device(&devices[1..2], None).err().unwrap().to_string(),
        "no capture device matching \"CABLE Output / VB-Audio / VoiceMeeter Output\" - install VB-Audio Cable, or name the device explicitly"
    );
    assert!(find_cable_render_device(&[], None).is_err());
}

#[test]
fn the_volume_of_a_cable_is_never_mirrored() {
    assert!(check_mirrored(None).is_ok());
    assert!(check_mirrored(Some(&named("Speakers"))).is_ok());
    let refused = check_mirrored(Some(&named("CABLE Input (VB-Audio Virtual Cable)")));
    assert!(matches!(refused, Err(AudioError::Com(_))));
    assert!(refused
        .unwrap_err()
        .to_string()
        .starts_with("COM initialisation failed: the default playback device is the virtual cable"));
    assert_eq!(AudioError::Client("x".into()).to_string(), "audio client error: x");
}

#[test]
fn timers_count_in_hundreds_of_nanoseconds() {
    assert_eq!(timer_due(99), None);
    assert_eq!(timer_due(100), Some(-1));
    assert_eq!(timer_due(7_500_000), Some(-75_000));
}

#[test]
fn the_preferred_cable_wins_wherever_it_is_listed() {
    let devices = [
        named("CABLE Out 16ch (VB-Audio)"),
        named("VoiceMeeter Output"),
        named("Line 1 (VB-Audio)"),
        named("CABLE Output"),
    ];
    for (count, expected) in [(4, 3), (3, 2), (2, 1), (1, 0)] {
        assert_eq!(
            find_cable_device(&devices[..count], None).unwrap().name,
            devices[expected].name
        );
    }
    let render = [
        named("VoiceMeeter Input"),
        named("CABLE In 16ch (VB-Audio)"),
        named("Speakers (VB-Audio)"),
        named("CABLE Input"),
    ];
    for (count, expected) in [(4, 3), (3, 2), (2, 0), (1, 0)] {
        assert_eq!(
            find_cable_render_device(&render[..count], None).unwrap().name,
            render[expected].name
        );
    }
    assert!(find_cable_render_device(&render[1..2], None).is_err());
}
