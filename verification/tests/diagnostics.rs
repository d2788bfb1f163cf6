use olea_core::bap::{CodecCapabilities, SamplingFrequency};
use olea_core::diagnostics::{
    bitrate_lines, cable_report, describe, endpoint_line, hex_line, is_bluetooth, rate_to_try,
    Opened, TransferKind,
};

#[test]
fn packets_are_shown_as_pairs() {
    assert_eq!(hex_line(&[]), "");
    assert_eq!(hex_line(&[0x0E, 0x04, 0xAB]), "0E 04 AB");
    let long = [0xFFu8; 40];
    assert_eq!(hex_line(&long).len(), 32 * 3 - 1);
}

#[test]
fn events_are_described() {
    assert_eq!(describe(&[0x0E]), vec!["(cannot parse as an HCI event)"]);
    assert_eq!(
        describe(&[0x0E, 0x04, 0x01, 0x03, 0x0C, 0x00]),
        vec!["Command Complete pro 0x0c03, status 0x00 (uspech)"]
    );
    assert_eq!(
        describe(&[0x0E, 0x03, 0x01, 0x03, 0x0C]),
        vec!["Command Complete pro 0x0c03, status 0xff (chyba)"]
    );
    assert_eq!(
        describe(&[0x0E, 0x0C, 0x01, 0x01, 0x10, 0x00, 14, 0, 0, 14, 0x0F, 0x00, 0, 0]),
        vec![
            "Command Complete pro 0x1001, status 0x00 (uspech)",
            "Bluetooth 6.0, LMP 14, vyrobce 0x000f",
        ]
    );
    assert!(describe(&[0x0E, 0x01, 0x01]).is_empty());
    assert_eq!(describe(&[0x0F, 0x00]), vec!["Command Status"]);
    assert_eq!(describe(&[0x3E, 0x00]), vec!["event 0x3e"]);
}

#[test]
fn adapters_are_told_by_their_class() {
    assert!(is_bluetooth(0xE0, &[]));
    assert!(is_bluetooth(0xEF, &[(0x03, 0x01), (0xE0, 0x01)]));
    assert!(!is_bluetooth(0xEF, &[(0xE0, 0x02)]));
    assert!(!is_bluetooth(0x00, &[]));
}

#[test]
fn endpoints_line_up() {
    assert_eq!(
        endpoint_line(0x81, TransferKind::Interrupt, 16),
        "0x81  IN   interrupt    max 16 B"
    );
    assert_eq!(
        endpoint_line(0x03, TransferKind::Isochronous, 255),
        "0x03  OUT  ISOCHRONOUS  max 255 B"
    );
    assert_eq!(endpoint_line(0x02, TransferKind::Bulk, 64), "0x02  OUT  bulk         max 64 B");
    assert_eq!(
        endpoint_line(0x80, TransferKind::Control, 64),
        "0x80  IN   control      max 64 B"
    );
}

#[test]
fn bitrates_are_listed_per_rate_and_frame() {
    let mut caps = CodecCapabilities {
        sampling_frequencies: vec![SamplingFrequency(0x01), SamplingFrequency(0x77), SamplingFrequency(0x08)],
        supports_7_5ms: true,
        supports_10ms: true,
        min_octets_per_frame: Some(26),
        max_octets_per_frame: Some(155),
        ..Default::default()
    };
    assert_eq!(
        bitrate_lines(&caps),
        vec![
            "      8000 Hz, 7.5 ms: 26-155 B/ramec = 27-165 kbps/kanal",
            "      8000 Hz,  10 ms: 26-155 B/ramec = 20-124 kbps/kanal",
            "     48000 Hz, 7.5 ms: 26-155 B/ramec = 27-165 kbps/kanal",
            "     48000 Hz,  10 ms: 26-155 B/ramec = 20-124 kbps/kanal",
        ]
    );
    caps.supports_7_5ms = false;
    assert_eq!(bitrate_lines(&caps).len(), 2);
    caps.max_octets_per_frame = None;
    assert!(bitrate_lines(&caps).is_empty());
}

#[test]
fn a_cable_is_asked_until_it_tells_its_rate() {
    let tried: Vec<u32> = (0..).map_while(rate_to_try).collect();
    assert_eq!(tried, vec![48_000, 44_100, 32_000, 24_000, 16_000]);
    assert_eq!(cable_report(Opened::Failed), None);
    assert_eq!(
        cable_report(Opened::At(48_000)).unwrap(),
        vec!["            runs at 48000 Hz - matches LC3 directly"]
    );
    let wrong = cable_report(Opened::Mismatch { actual: 44_100, channels: 2 }).unwrap();
    assert_eq!(wrong[0], "            runs at 44100 Hz, 2 channel(s)");
    assert_eq!(wrong.len(), 3);
    assert_eq!(cable_report(Opened::Mismatch { actual: 48_000, channels: 8 }).unwrap().len(), 1);
}
