use olea_core::audio::AudioDevice;
use olea_core::bap::{CodecCapabilities, PacRecord, SamplingFrequency};
use olea_core::panel::{
    codec_envelope, monitor_options, playback_options, record_offer, Choice, Envelope, Offer,
};

fn device(id: &str, name: &str) -> AudioDevice {
    AudioDevice { id: id.into(), name: name.into() }
}

fn choice(value: &str, label: &str) -> Choice {
    Choice { value: value.into(), label: label.into() }
}

#[test]
fn cables_can_be_played_from_but_not_monitored() {
    let devices = [device("a", "CABLE Output (VB-Audio)"), device("b", "Microphone")];
    assert_eq!(
        playback_options(&devices),
        vec![choice("a", "CABLE Output (VB-Audio)"), choice("b", "Microphone")]
    );
    let default = choice("default", "Windows default microphone");
    assert_eq!(monitor_options(&[], false), vec![choice("default", "Windows default microphone")]);
    assert_eq!(
        monitor_options(&devices, true),
        vec![
            default,
            choice("b", "Microphone"),
            choice("headset", "Headset microphone (LE Audio)"),
        ]
    );
}

fn record(coding_format: u8, codes: &[u8], channels: &[u8], octets: Option<(u16, u16)>) -> PacRecord {
    PacRecord {
        coding_format,
        company_id: 0,
        vendor_codec_id: 0,
        capabilities: CodecCapabilities {
            sampling_frequencies: codes.iter().map(|c| SamplingFrequency(*c)).collect(),
            supports_7_5ms: octets.is_some(),
            supports_10ms: true,
            channel_counts: channels.to_vec(),
            min_octets_per_frame: octets.map(|o| o.0),
            max_octets_per_frame: octets.map(|o| o.1),
            max_frames_per_sdu: channels.len() as u8,
        },
        raw: vec![],
    }
}

#[test]
fn records_are_flattened_into_one_shape() {
    let records = [
        record(0x06, &[0x08, 0x03], &[2], Some((40, 155))),
        record(0x06, &[0x03, 0x05, 0x77], &[1, 2], Some((26, 120))),
        record(0xFF, &[0x0C], &[8], Some((1, 400))),
        record(0x06, &[], &[], None),
    ];
    assert_eq!(
        codec_envelope(&records),
        Envelope {
            rates: vec![16_000, 24_000, 48_000],
            channels: vec![1, 2],
            frames_us: vec![7_500, 10_000],
            octets_min: Some(26),
            octets_max: Some(155),
            max_frames_per_sdu: 2,
        }
    );
    let nothing = codec_envelope(&[]);
    assert!(nothing.rates.is_empty() && nothing.frames_us.is_empty());
    assert_eq!((nothing.octets_min, nothing.max_frames_per_sdu), (None, 0));
}

#[test]
fn a_record_offers_what_it_lists() {
    let offer = record_offer(&record(0x06, &[0x08, 0x77, 0x03], &[1, 2], Some((26, 120))));
    assert_eq!(
        offer,
        Some(Offer {
            rates: vec![48_000, 16_000],
            frames_us: vec![7_500, 10_000],
            channels: vec![1, 2],
            octets_min: Some(26),
            octets_max: Some(120),
            max_frames_per_sdu: 2,
        })
    );
    assert_eq!(record_offer(&record(0x00, &[], &[], None)), None);
}
