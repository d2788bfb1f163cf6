use olea_core::bap::ascs;
use olea_core::bap::ase::{
    STATE_CODEC_CONFIGURED, STATE_ENABLING, STATE_STREAMING, parse_configured_codec,
    parse_control_point_response, parse_preferred_qos, parse_state, state_name,
};
use olea_core::bap::ase;
use olea_core::bap::{
    CodecConfiguration, ConfigRejection, FrameDuration, LOCATION_FRONT_RIGHT, Ltv, PacRecord,
    Preset, QosConfiguration, SamplingFrequency,
};

/// The read-back that would have shown the request and the stream differing.
#[test]
fn the_configuration_the_device_applied_is_read_back() {

    let mut value = vec![0x01, STATE_CODEC_CONFIGURED, 0x00, 0x02, 0x0D, 0x4B, 0x00];
    value.extend_from_slice(&[0x40, 0x9C, 0x00]); // delay min 40000
    value.extend_from_slice(&[0x40, 0x9C, 0x00]); // delay max
    value.extend_from_slice(&[0x40, 0x9C, 0x00]); // preferred min
    value.extend_from_slice(&[0x40, 0x9C, 0x00]); // preferred max
    value.extend_from_slice(&[0x06, 0x00, 0x00, 0x00, 0x00]); // LC3

    // The device says it applied 48 kHz, 7.5 ms, right ear, 90 octets.
    let ltvs: Vec<u8> = vec![
        0x02, 0x01, 0x08,
        0x02, 0x02, 0x00,
        0x05, 0x03, 0x02, 0x00, 0x00, 0x00,
        0x03, 0x04, 0x5A, 0x00,
    ];
    value.push(ltvs.len() as u8);
    value.extend_from_slice(&ltvs);

    let applied = parse_configured_codec(&value).unwrap();

    assert_eq!(applied.sampling_frequency, SamplingFrequency(SamplingFrequency::HZ_48000));
    assert_eq!(applied.frame_duration, FrameDuration::Ms7_5);
    assert_eq!(applied.channel_allocation, LOCATION_FRONT_RIGHT);
    assert_eq!(applied.octets_per_frame, 90);
}

#[test]
fn stereo_control_operations_are_batched_atomically() {
    let config = Preset::WindowsDefault.codec(false);
    let left = ascs::config_codec(1, ascs::LATENCY_BALANCED, &config);
    let right = ascs::config_codec(2, ascs::LATENCY_BALANCED, &config);
    let batched = ascs::batch(&[left.clone(), right.clone()]);

    assert_eq!(batched[0], ascs::OP_CONFIG_CODEC);
    assert_eq!(batched[1], 2);
    assert_eq!(batched.len(), left.len() + right.len() - 2);
    assert_eq!(batched[2], 1, "first ASE");
    assert_eq!(batched[2 + left.len() - 2], 2, "second ASE");
}

#[test]
fn a_state_without_a_configuration_reads_back_as_nothing() {

    assert_eq!(parse_configured_codec(&[0x01, STATE_STREAMING, 0x00]), None);
    assert_eq!(parse_configured_codec(&[0x01, STATE_CODEC_CONFIGURED, 0x00]), None);
}

#[test]
fn the_devices_preferred_qos_is_read_from_the_codec_configured_state() {

    // ASE 1, Codec Configured, unframed, 2M, RTN 2, latency 100 ms,
    // presentation delay 20000-40000 us, preferred 30000-30000 us.
    let mut value = vec![0x01, STATE_CODEC_CONFIGURED, 0x00, 0x02, 0x02, 0x64, 0x00];
    value.extend_from_slice(&[0x20, 0x4E, 0x00]); // 20000
    value.extend_from_slice(&[0x40, 0x9C, 0x00]); // 40000
    value.extend_from_slice(&[0x30, 0x75, 0x00]); // 30000
    value.extend_from_slice(&[0x30, 0x75, 0x00]); // 30000

    let qos = parse_preferred_qos(&value).unwrap();

    assert_eq!(qos.max_transport_latency_ms, 100);
    assert_eq!(qos.presentation_delay_min_us, 20_000);
    assert_eq!(qos.presentation_delay_max_us, 40_000);
    assert_eq!(qos.preferred_delay_min_us, 30_000);

    // Our 40 ms is inside the range, but the device stated a preference.
    assert_eq!(qos.choose_presentation_delay(40_000), 30_000);
}

#[test]
fn without_a_preference_our_value_is_clamped_into_range() {

    let mut value = vec![0x01, STATE_CODEC_CONFIGURED, 0x00, 0x02, 0x02, 0x64, 0x00];
    value.extend_from_slice(&[0x20, 0x4E, 0x00]); // min 20000
    value.extend_from_slice(&[0xB8, 0x88, 0x00]); // max 35000
    value.extend_from_slice(&[0x00, 0x00, 0x00]); // no preference
    value.extend_from_slice(&[0x00, 0x00, 0x00]);

    let qos = parse_preferred_qos(&value).unwrap();

    assert_eq!(qos.choose_presentation_delay(40_000), 35_000, "clamped down");
    assert_eq!(qos.choose_presentation_delay(10_000), 20_000, "clamped up");
    assert_eq!(qos.choose_presentation_delay(30_000), 30_000, "left alone");
}

#[test]
fn a_state_that_is_not_codec_configured_carries_no_qos() {

    assert_eq!(parse_preferred_qos(&[0x01, STATE_STREAMING, 0x00]), None);
    assert_eq!(parse_preferred_qos(&[0x01, STATE_CODEC_CONFIGURED]), None);
}

/// Locks the preset to the values read out of the Windows driver's own
/// trace. If someone changes them, the test says what they were and where
/// they came from, rather than leaving the next person to rediscover it.
#[test]
fn the_windows_preset_matches_the_captured_windows_driver() {
    let codec = Preset::WindowsDefault.codec(false);
    let qos = Preset::WindowsDefault.qos(&codec);

    assert_eq!(codec.sampling_frequency, SamplingFrequency(SamplingFrequency::HZ_48000));
    assert_eq!(codec.frame_duration, FrameDuration::Ms7_5);
    assert_eq!(codec.octets_per_frame, 90);

    // SDU interval 0x00001D4C in the trace.
    assert_eq!(qos.sdu_interval_us, 7_500);
    // Max Transport Latency 0x004B, Max Retransmission 13.
    assert_eq!(qos.max_transport_latency_ms, 75);
    assert_eq!(qos.retransmission_number, 13);
    assert_eq!(qos.phy, 0x02, "2M, as the trace shows");
    assert_eq!(qos.framing, 0, "unframed");
}

#[test]
fn a_typed_in_rate_maps_to_its_code_or_to_nothing() {
    assert_eq!(SamplingFrequency::from_hz(48_000), Some(SamplingFrequency(SamplingFrequency::HZ_48000)));
    assert_eq!(SamplingFrequency::from_hz(16_000), Some(SamplingFrequency(SamplingFrequency::HZ_16000)));

    // Round trip through the pair, for every rate a person might enter.
    for hz in [8_000, 16_000, 24_000, 32_000, 44_100, 48_000] {
        assert_eq!(SamplingFrequency::from_hz(hz).unwrap().hz(), Some(hz));
    }

    // Not a rate BAP defines: no code exists, so no code is invented.
    assert_eq!(SamplingFrequency::from_hz(37_000), None);
}

/// A rejection names the parameter the device objected to: reason 0x05 is the
/// PHY, not one of the types inside the codec configuration.
#[test]
fn a_rejection_names_the_parameter_ascs_actually_means() {

    // Config Codec, one ASE, rejected. Response 0x08 is "Rejected
    // Configuration Parameter Value", so the reason byte is read against
    // the configuration table, where 0x05 is the PHY.
    let (opcode, responses) =
        parse_control_point_response(&[0x01, 0x01, 0x02, 0x08, 0x05]).unwrap();

    assert_eq!(opcode, 0x01);
    assert_eq!(responses.len(), 1);
    assert_eq!(responses[0].ase_id, 0x02);
    assert!(!responses[0].accepted());
    assert_eq!(responses[0].explain(), "rejected parameter value (PHY)");
}

#[test]
fn an_accepted_operation_says_so_plainly() {

    let (_, responses) =
        parse_control_point_response(&[0x03, 0x02, 0x01, 0x00, 0x00, 0x02, 0x00, 0x00]).unwrap();

    assert_eq!(responses.len(), 2);
    assert!(responses.iter().all(|r| r.accepted()));
    assert_eq!(responses[0].explain(), "accepted");
}

#[test]
fn ase_states_are_read_and_named() {

    let state = parse_state(&[0x01, STATE_STREAMING, 0xAA, 0xBB]).unwrap();

    assert_eq!(state.ase_id, 1);
    assert_eq!(state_name(state.state), "Streaming");
    assert_eq!(state_name(STATE_ENABLING), "Enabling");
    assert_eq!(parse_state(&[0x01]), None);
}

/// Sink PAC as a headset typically reports it: LC3, 16-48 kHz, both frame
/// durations, stereo capable, 26-155 octets.
fn sample_sink_pac() -> Vec<u8> {
    let caps = Ltv::encode(&[
        Ltv::new(0x01, 0x00E4u16.to_le_bytes().to_vec()), // 16, 24, 32, 48 kHz
        Ltv::new(0x02, vec![0x03]),                       // 7.5 and 10 ms
        Ltv::new(0x03, vec![0x03]),                       // 1 or 2 channels
        Ltv::new(0x04, [26u16.to_le_bytes(), 155u16.to_le_bytes()].concat()),
        Ltv::new(0x05, vec![2]),
    ]);

    let mut record = vec![1u8]; // one record
    record.extend_from_slice(&[0x06, 0x00, 0x00, 0x00, 0x00]); // LC3
    record.push(caps.len() as u8);
    record.extend_from_slice(&caps);
    record.push(0); // no metadata
    record
}

#[test]
fn pac_record_decodes_to_capabilities() {
    let records = PacRecord::parse_characteristic(&sample_sink_pac());
    assert_eq!(records.len(), 1);

    let record = &records[0];
    assert!(record.is_lc3());

    let caps = &record.capabilities;
    assert!(caps.sampling_frequencies.contains(&SamplingFrequency(SamplingFrequency::HZ_48000)));
    assert!(caps.sampling_frequencies.contains(&SamplingFrequency(SamplingFrequency::HZ_16000)));
    assert!(caps.supports_7_5ms && caps.supports_10ms);
    assert_eq!(caps.min_octets_per_frame, Some(26));
    assert_eq!(caps.max_octets_per_frame, Some(155));
    assert!(caps.supports_stereo_in_one_stream(), "one CIS should be possible");
}

#[test]
fn bitrate_matches_the_named_presets() {
    // What Windows actually sends: 90 octets at 7.5 ms is 96 kbps. It is
    // not one of the named BAP presets, which is itself worth knowing.
    let config = Preset::WindowsDefault.codec(false);
    assert_eq!(config.bitrate_per_channel(), 96_000);

    // 48_1: 75 octets at 7.5 ms is also 80 kbps, but shorter frames.
    let low = Preset::LowLatency.codec(false);
    assert_eq!(low.bitrate_per_channel(), 80_000);
    assert_eq!(low.preset_name(), Some("48_1"));

    // 48_6: the LC3 ceiling.
    let high = Preset::HighQuality.codec(false);
    assert_eq!(high.bitrate_per_channel(), 124_000);
    assert_eq!(high.preset_name(), Some("48_6"));
}

#[test]
fn capabilities_reject_configurations_the_device_cannot_do() {
    let caps = PacRecord::parse_characteristic(&sample_sink_pac())
        .remove(0)
        .capabilities;

    assert!(caps.accepts(&Preset::WindowsDefault.codec(false)).is_ok());
    assert!(caps.accepts(&Preset::HighQuality.codec(false)).is_ok());

    // Above the advertised maximum.
    let mut greedy = Preset::HighQuality.codec(false);
    greedy.octets_per_frame = 200;
    assert_eq!(
        caps.accepts(&greedy),
        Err(ConfigRejection::OctetsOutOfRange { min: 26, max: 155 })
    );

    // A rate the device never advertised.
    let mut exotic = Preset::WindowsDefault.codec(false);
    exotic.sampling_frequency = SamplingFrequency(0x0A); // 96 kHz
    assert_eq!(caps.accepts(&exotic), Err(ConfigRejection::SamplingFrequency));
}

#[test]
fn stereo_on_one_stream_doubles_the_sdu() {
    let mono = Preset::WindowsDefault.codec(false);
    let stereo = Preset::WindowsDefault.codec(true);

    assert_eq!(mono.sdu_size(), 90);
    // One block containing two channels; channels must not be counted twice.
    assert_eq!(stereo.channel_count(), 2);
    assert_eq!(stereo.sdu_size(), 180);
}

#[test]
fn config_codec_carries_the_octet_count() {
    let config = Preset::HighQuality.codec(false);
    let pdu = ascs::config_codec(0x01, ascs::LATENCY_BALANCED, &config);

    assert_eq!(pdu[0], ascs::OP_CONFIG_CODEC);
    assert_eq!(pdu[1], 0x01); // one ASE
    assert_eq!(pdu[2], 0x01); // ASE id
    assert_eq!(pdu[5], 0x06); // LC3

    // The configuration LTVs must round-trip.
    let specific_len = pdu[10] as usize;
    let decoded = Ltv::decode(&pdu[11..11 + specific_len]);

    let octets = decoded.iter().find(|l| l.kind == 0x04).expect("octets LTV present");
    assert_eq!(u16::from_le_bytes([octets.value[0], octets.value[1]]), 155);

    let frequency = decoded.iter().find(|l| l.kind == 0x01).unwrap();
    assert_eq!(frequency.value[0], SamplingFrequency::HZ_48000);
}

#[test]
fn qos_encodes_24_bit_fields_correctly() {
    let codec = Preset::LowLatency.codec(false);
    let qos = Preset::LowLatency.qos(&codec);
    let pdu = ascs::config_qos(0x01, 0x00, 0x00, &qos);

    assert_eq!(pdu[0], ascs::OP_CONFIG_QOS);
    // SDU interval is 7500 us across three bytes.
    let interval = u32::from_le_bytes([pdu[5], pdu[6], pdu[7], 0]);
    assert_eq!(interval, 7_500);

    assert_eq!(pdu[9], 0x02); // 2M PHY
    assert_eq!(u16::from_le_bytes([pdu[10], pdu[11]]), 75); // max SDU
    assert_eq!(pdu[12], 2); // retransmissions

    // Presentation delay, also 24-bit.
    let delay = u32::from_le_bytes([pdu[15], pdu[16], pdu[17], 0]);
    assert_eq!(delay, 20_000);
}

#[test]
fn latency_estimate_stays_under_the_target() {
    let codec = Preset::LowLatency.codec(false);
    let qos = Preset::LowLatency.qos(&codec);

    // 7.5 ms frame + 8 ms transport + 20 ms presentation.
    let latency = qos.estimated_latency_ms(&codec);
    assert_eq!(latency, 35);
    assert!(latency < 50, "low latency preset must stay well under 50 ms");
}

#[test]
fn truncated_pac_does_not_panic() {
    assert!(PacRecord::parse_characteristic(&[]).is_empty());
    assert!(PacRecord::parse_characteristic(&[0x01]).is_empty());
    // Claims two records, carries one.
    let mut truncated = sample_sink_pac();
    truncated[0] = 2;
    assert_eq!(PacRecord::parse_characteristic(&truncated).len(), 1);
}

#[test]
fn ltv_round_trips() {
    let items = vec![Ltv::new(0x01, vec![0x08]), Ltv::new(0x04, vec![0x64, 0x00])];
    let encoded = Ltv::encode(&items);
    assert_eq!(Ltv::decode(&encoded), items);

    // A length byte claiming more than the buffer holds stops the walk.
    assert!(Ltv::decode(&[0x20, 0x01, 0x02]).is_empty());
}

fn a_codec_configuration() -> CodecConfiguration {
    CodecConfiguration {
        sampling_frequency: SamplingFrequency(0x08), // 48 kHz
        frame_duration: FrameDuration::Ms7_5,
        channel_allocation: 0x0000_0001,
        octets_per_frame: 90,
        frames_per_sdu: 1,
    }
}

#[test]
fn config_codec_lays_out_its_header_the_way_android_does() {
    let pdu = ascs::config_codec(1, ascs::LATENCY_BALANCED, &a_codec_configuration());

    // PrepareAseCtpCodecConfig writes: opcode, number of ASEs, then per ASE
    // the id, target latency, target PHY, and a five byte Codec ID made of
    // the coding format plus two 16-bit vendor fields. LC3 is coding format
    // 0x06 with both vendor fields zero.
    assert_eq!(pdu[0], ascs::OP_CONFIG_CODEC);
    assert_eq!(pdu[1], 1, "number of ASEs");
    assert_eq!(pdu[2], 1, "ASE id");
    assert_eq!(pdu[3], ascs::LATENCY_BALANCED);
    assert_eq!(pdu[4], 0x02, "target PHY: 2M");
    assert_eq!(&pdu[5..10], &[0x06, 0x00, 0x00, 0x00, 0x00], "Codec ID");

    // Then a length byte covering exactly the codec specific configuration.
    let length = pdu[10] as usize;
    assert_eq!(pdu.len(), 11 + length, "length byte must cover the remainder");
}

#[test]
fn config_qos_lays_out_its_fields_the_way_android_does() {
    let qos = QosConfiguration {
        sdu_interval_us: 7_500,
        framing: 0,
        phy: 0x02,
        max_sdu: 90,
        retransmission_number: 13,
        max_transport_latency_ms: 75,
        presentation_delay_us: 40_000,
    };

    let pdu = ascs::config_qos(1, 0, 0, &qos);

    // PrepareAseCtpConfigQos: ase_id, cig, cis, sdu_interval (3), framing,
    // phy, max_sdu (2), retrans_nb, max_transport_latency (2),
    // pres_delay (3) - sixteen bytes per ASE, with opcode and count in
    // front of them.
    assert_eq!(pdu.len(), 2 + 16);
    assert_eq!(pdu[0], ascs::OP_CONFIG_QOS);
    assert_eq!(&pdu[2..5], &[1, 0, 0], "ASE id, CIG, CIS");
    assert_eq!(&pdu[5..8], &7_500u32.to_le_bytes()[..3], "SDU interval");
    assert_eq!(pdu[8], 0, "framing");
    assert_eq!(pdu[9], 0x02, "PHY");
    assert_eq!(&pdu[10..12], &90u16.to_le_bytes(), "max SDU");
    assert_eq!(pdu[12], 13, "retransmission number");
    assert_eq!(&pdu[13..15], &75u16.to_le_bytes(), "max transport latency");
    assert_eq!(&pdu[15..18], &40_000u32.to_le_bytes()[..3], "presentation delay");
}

#[test]
fn enable_and_receiver_start_ready_match_android() {
    let pdu = ascs::enable(1, ascs::CONTEXT_MEDIA);
    // PrepareAseCtpEnable: opcode, count, then ase_id, metadata length,
    // metadata.
    assert_eq!(pdu[0], ascs::OP_ENABLE);
    assert_eq!(pdu[1], 1);
    assert_eq!(pdu[2], 1, "ASE id");
    assert_eq!(pdu[3] as usize, pdu.len() - 4, "metadata length");

    // PrepareAseCtpAudioReceiverStartReady: opcode, count, ids.
    assert_eq!(ascs::receiver_start_ready(5), vec![0x04, 0x01, 5]);
}

#[test]
fn a_rejected_sdu_interval_is_named_as_one() {
    // Response code 0x07 is "Unsupported Configuration Parameter Value" and
    // reason 0x03 is the SDU interval, not the sample rate, which is set
    // somewhere else entirely.
    let response = ase::AseResponse {
        ase_id: 1,
        response_code: 0x07,
        reason: 0x03,
    };
    let explained = response.explain();
    assert!(explained.contains("SDU interval"), "got: {explained}");
    assert!(!explained.contains("sample rate"), "got: {explained}");
}

#[test]
fn the_reason_byte_is_read_against_the_right_table() {
    // Same reason value, two response codes, two different meanings.
    let configuration = ase::AseResponse {
        ase_id: 1,
        response_code: 0x08, // Rejected Configuration Parameter Value
        reason: 0x02,
    };
    assert!(configuration.explain().contains("codec specific configuration"));

    let metadata = ase::AseResponse {
        ase_id: 1,
        response_code: 0x0B, // Rejected Metadata
        reason: 0x02,
    };
    assert!(metadata.explain().contains("streaming audio contexts"));

    // A response code that does not use the reason byte must not invent a
    // parameter for it.
    let transition = ase::AseResponse {
        ase_id: 1,
        response_code: 0x04, // Invalid ASE State Machine Transition
        reason: 0x02,
    };
    assert_eq!(transition.explain(), "invalid state transition");
}

#[test]
fn the_qos_the_device_applied_is_read_back() {
    let mut value = vec![1u8, ase::STATE_QOS_CONFIGURED];
    value.extend_from_slice(&[0x00, 0x01]); // CIG 0, CIS 1
    value.extend_from_slice(&7_500u32.to_le_bytes()[..3]);
    value.push(0x00); // framing
    value.push(0x02); // PHY
    value.extend_from_slice(&90u16.to_le_bytes());
    value.push(13);
    value.extend_from_slice(&75u16.to_le_bytes());
    value.extend_from_slice(&40_000u32.to_le_bytes()[..3]);

    let parsed = ase::parse_qos_configured(&value).expect("well formed QoS state");
    assert_eq!(parsed.cis_id, 1);
    assert_eq!(parsed.sdu_interval_us, 7_500);
    assert_eq!(parsed.max_sdu, 90);
    assert_eq!(parsed.presentation_delay_us, 40_000);

    // Android rejects a length that does not match, and so does this.
    value.push(0xFF);
    assert!(ase::parse_qos_configured(&value).is_none());
}

#[test]
fn a_streaming_notification_names_its_cis() {
    let value = vec![
        2,
        ase::STATE_STREAMING,
        0x00, // CIG
        0x01, // CIS
        0x04, // metadata length
        0x03,
        0x02,
        0x04,
        0x00,
    ];

    let parsed = ase::parse_transient(&value).expect("well formed streaming state");
    assert_eq!(parsed.cig_id, 0);
    assert_eq!(parsed.cis_id, 1);
    assert_eq!(parsed.metadata, vec![0x03, 0x02, 0x04, 0x00]);
}

#[test]
fn truncated_metadata_is_refused_rather_than_half_read() {
    // The length byte claims four bytes and only two follow. Reading what
    // fits would hand the caller a metadata block that parses cleanly and
    // means something else.
    let value = vec![2, ase::STATE_ENABLING, 0x00, 0x01, 0x04, 0x03, 0x02];
    assert!(ase::parse_transient(&value).is_none());
}
