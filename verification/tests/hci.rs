use olea_core::hci::op;
use olea_core::hci::command;
use olea_core::hci::{
    disconnect, disconnect_reason, le_create_cis, le_read_iso_link_quality, le_remove_cig,
    le_set_cig_parameters, le_setup_iso_data_path, parse_cis_established,
    parse_disconnection_complete, parse_iso_link_quality, read_rssi, CisParams, ISO_PATH_INPUT,
    PACKING_INTERLEAVED, BdAddr, Event, ISO_PATH_BOTH, LocalVersion, clamp_supervision,
    iso_data_packet, le_extended_create_connection, le_remove_iso_data_path,
    le_set_extended_scan_enable, le_set_extended_scan_parameters, le_set_phy,
    le_set_scan_parameters, link_update_summary, parse_encryption_change, parse_encryption_result,
    parse_iso_data_packet, parse_number_of_completed_packets, remote_parameter_reply, reset,
};

#[test]
fn a_supervision_timeout_stays_inside_what_the_specification_allows() {
    assert_eq!(clamp_supervision(0), 0x000A, "100 ms floor");
    assert_eq!(clamp_supervision(0xFFFF), 0x0C80, "32 s ceiling");
    assert_eq!(clamp_supervision(0x03E8), 0x03E8, "10 s passes through");
}

#[test]
fn complete_iso_packet_round_trips_through_parser() {
    let packet = iso_data_packet(0x0042, 17, &[1, 2, 3, 4]);
    let parsed = parse_iso_data_packet(&packet).expect("valid complete SDU");
    assert_eq!(parsed.handle, 0x0042);
    assert_eq!(parsed.sequence_number, 17);
    assert_eq!(parsed.payload, &[1, 2, 3, 4]);
}

#[test]
fn invalid_or_fragmented_iso_is_not_decoded() {
    let mut invalid = iso_data_packet(0x0042, 1, &[1, 2]);
    invalid[7] |= 0x40; // packet status != valid
    assert!(parse_iso_data_packet(&invalid).is_none());

    let mut fragment = iso_data_packet(0x0042, 1, &[1, 2]);
    fragment[1] &= 0x0f; // PB 00: first fragment, not a complete SDU
    assert!(parse_iso_data_packet(&fragment).is_none());
}

#[test]
fn completion_reports_are_read_per_connection() {
    // Two connections in one event: handle 0x0017 sent 3, 0x0018 sent 1.
    let event = Event {
        code: 0x13,
        params: vec![0x02, 0x17, 0x00, 0x18, 0x00, 0x03, 0x00, 0x01, 0x00],
    };

    assert_eq!(
        parse_number_of_completed_packets(&event),
        vec![(0x0017, 3), (0x0018, 1)]
    );
}

#[test]
fn other_events_report_no_completions() {
    let event = Event { code: 0x05, params: vec![0x00, 0x0C, 0x00, 0x13] };
    assert!(parse_number_of_completed_packets(&event).is_empty());
}

#[test]
fn opcodes_match_the_specification() {
    assert_eq!(op::RESET, 0x0C03);
    assert_eq!(op::READ_LOCAL_VERSION, 0x1001);
    assert_eq!(op::LE_SET_SCAN_ENABLE, 0x200C);
    assert_eq!(op::LE_SET_CIG_PARAMETERS, 0x2062);
    assert_eq!(op::LE_CREATE_CIS, 0x2064);
    assert_eq!(op::LE_SET_EXTENDED_SCAN_PARAMETERS, 0x2041);
    assert_eq!(op::LE_SET_EXTENDED_SCAN_ENABLE, 0x2042);
    assert_eq!(op::LE_EXTENDED_CREATE_CONNECTION, 0x2043);
}

/// Checked against a USBPcap capture of the Windows driver driving this
/// exact adapter, so these are the bytes known-good hardware accepts rather
/// than a reading of the specification that might be subtly off.
#[test]
fn extended_commands_match_the_windows_driver_capture() {
    // 0x2041 with a 640 ms interval and an 11.25 ms window.
    assert_eq!(
        le_set_extended_scan_parameters(0x0400, 0x0012),
        vec![0x41, 0x20, 0x08, 0x00, 0x00, 0x01, 0x00, 0x00, 0x04, 0x12, 0x00]
    );

    assert_eq!(
        le_set_extended_scan_enable(true, false),
        vec![0x42, 0x20, 0x06, 0x01, 0x00, 0x00, 0x00, 0x00, 0x00]
    );
    assert_eq!(
        le_set_extended_scan_enable(false, false),
        vec![0x42, 0x20, 0x06, 0x00, 0x00, 0x00, 0x00, 0x00, 0x00]
    );

    // 0x2043 to 7C:FE:62:72:B4:9A, public address.
    let peer = BdAddr([0x9A, 0xB4, 0x72, 0x62, 0xFE, 0x7C]);
    assert_eq!(
        le_extended_create_connection(peer, 0x00, 0x01F4),
        vec![
            0x43, 0x20, 0x1A, 0x00, 0x00, 0x00, 0x9A, 0xB4, 0x72, 0x62, 0xFE, 0x7C, 0x01,
            0x24, 0x00, 0x12, 0x00, 0x18, 0x00, 0x18, 0x00, 0x00, 0x00, 0xF4, 0x01, 0x00,
            0x00, 0x00, 0x00
        ]
    );
}

#[test]
fn reset_encodes_to_three_bytes() {
    assert_eq!(reset(), vec![0x03, 0x0C, 0x00]);
}

#[test]
fn scan_parameters_encode_little_endian() {
    // 0x0010 interval, 0x0010 window
    let packet = le_set_scan_parameters(0x0010, 0x0010);
    assert_eq!(packet[0..2], [0x0B, 0x20]); // opcode
    assert_eq!(packet[2], 7); // parameter length
    assert_eq!(packet[3], 0x00); // passive
    assert_eq!(packet[4..6], [0x10, 0x00]);
    assert_eq!(packet[6..8], [0x10, 0x00]);
}

#[test]
fn address_round_trips_through_display_form() {
    let address = BdAddr::parse("7C:FE:62:72:B4:9A").unwrap();
    // Wire order is reversed relative to display order.
    assert_eq!(address.0, [0x9A, 0xB4, 0x72, 0x62, 0xFE, 0x7C]);
    assert_eq!(address.to_string(), "7C:FE:62:72:B4:9A");
}

#[test]
fn command_complete_reports_its_opcode() {
    // Command Complete for Reset: code, len, num_packets, status
    let raw = [0x0E, 0x04, 0x01, 0x03, 0x0C, 0x00];
    let event = Event::parse(&raw).unwrap();

    let (opcode, params) = event.command_complete().unwrap();
    assert_eq!(opcode, op::RESET);
    assert_eq!(params, &[0x00]);
}

#[test]
fn local_version_maps_lmp_to_core_version() {
    // status, hci_ver=14, hci_rev, lmp_ver=14, manufacturer, lmp_subver
    let params = [0x00, 14, 0x00, 0x00, 14, 0x0F, 0x00, 0x00, 0x00];
    let version = LocalVersion::parse(&params).unwrap();

    assert_eq!(version.lmp_version, 14);
    assert_eq!(version.bluetooth_version(), "6.0");
    assert!(version.supports_le_audio());
}

#[test]
fn pre_5_2_controllers_are_rejected_for_le_audio() {
    let params = [0x00, 9, 0x00, 0x00, 9, 0x0F, 0x00, 0x00, 0x00];
    let version = LocalVersion::parse(&params).unwrap();

    assert_eq!(version.bluetooth_version(), "5.0");
    assert!(!version.supports_le_audio());
}

#[test]
fn truncated_events_are_rejected() {
    assert!(Event::parse(&[0x0E]).is_none());
    assert!(Event::parse(&[0x0E, 0x04, 0x01]).is_none());
}

#[test]
fn enhanced_connection_complete_yields_handle_and_address() {
    let mut raw = vec![0x3E, 0x1F, 0x0A, 0x00, 0x40, 0x00, 0x00, 0x00];
    raw.extend_from_slice(&[0x9A, 0xB4, 0x72, 0x62, 0xFE, 0x7C]);
    raw.extend_from_slice(&[0u8; 19]);

    let event = Event::parse(&raw).unwrap();
    let (handle, address) = event.connection_complete().unwrap();

    assert_eq!(handle, 0x0040);
    assert_eq!(address.to_string(), "7C:FE:62:72:B4:9A");
}
#[test]
fn a_data_path_is_removed_in_both_directions_at_once() {
    let command = le_remove_iso_data_path(0x0017, ISO_PATH_BOTH);

    // opcode (2), parameter length (1), handle (2), direction bitfield (1)
    assert_eq!(command.len(), 6, "three parameter bytes and a header");
    assert_eq!(
        u16::from_le_bytes([command[0], command[1]]),
        op::LE_REMOVE_ISO_DATA_PATH
    );
    assert_eq!(command[2], 3, "parameter length");
    assert_eq!(u16::from_le_bytes([command[3], command[4]]), 0x0017);

    // A bitfield, not the direction number Setup takes. Sending 0x01 here
    // would leave the outgoing path in place, which is the one that keeps
    // the group alive.
    assert_eq!(command[5], 0x03, "input and output together");
}
#[test]
fn encryption_failure_is_not_discarded_as_an_unrelated_event() {
    let event = Event { code: 0x08, params: vec![0x06, 0x17, 0, 0] };
    assert_eq!(parse_encryption_result(&event), Some((0x17, 0x06, false)));
    assert_eq!(parse_encryption_change(&event), None);
    let short = Event { code: 0x08, params: vec![0, 0x17] };
    assert_eq!(parse_encryption_result(&short), None);
    let success = Event { code: 0x08, params: vec![0, 0x17, 0, 1] };
    assert_eq!(parse_encryption_result(&success), Some((0x17, 0, true)));
}
#[test]
fn remote_request_is_accepted_only_with_valid_timing() {
    let mut event = Event { code: 0x3e, params: vec![6,1,0,24,0,24,0,0,0,10,0] };
    let reply = remote_parameter_reply(&event).unwrap();
    assert_eq!(&reply[..3], &[0x20,0x20,14]);
    assert_eq!(&reply[11..13], &[10,0], "100 ms must not silently become 1 second");
    event.params[7] = 10;
    assert_eq!(remote_parameter_reply(&event).unwrap(), vec![0x21,0x20,3,1,0,0x3b]);
    event.params.pop();
    assert!(remote_parameter_reply(&event).is_none());
}
#[test]
fn acl_phy_and_result_are_separate_from_audio_phy() {
    assert_eq!(le_set_phy(0x123,3), vec![0x32,0x20,7,0x23,1,0,3,3,0,0]);
    let event = Event { code: 0x3e, params: vec![0x0c,0,0x23,1,1,2] };
    let text = link_update_summary(&event).unwrap();
    assert!(text.contains("TX 1, RX 2"));
    assert!(link_update_summary(&Event { code: 0x3e, params: vec![0x0c] }).is_none());
}

#[test]
fn isochronous_groups_are_laid_out_byte_by_byte() {
    let cis = CisParams {
        cis_id: 1,
        max_sdu_c_to_p: 0x0078,
        max_sdu_p_to_c: 0,
        phy_c_to_p: 2,
        phy_p_to_c: 2,
        rtn_c_to_p: 13,
        rtn_p_to_c: 0,
    };
    assert_eq!(
        le_set_cig_parameters(3, 10_000, 10_000, 0, 95, 95, PACKING_INTERLEAVED, &[cis]),
        vec![
            0x62, 0x20, 24, 3, 0x10, 0x27, 0, 0x10, 0x27, 0, 0, 1, 0, 95, 0, 95, 0, 1, 1, 0x78, 0,
            0, 0, 2, 2, 13, 0,
        ]
    );
    assert_eq!(
        le_create_cis(&[(0x60, 0x40), (0x61, 0x40)]),
        vec![0x64, 0x20, 9, 2, 0x60, 0, 0x40, 0, 0x61, 0, 0x40, 0]
    );
    assert_eq!(
        le_setup_iso_data_path(0x60, ISO_PATH_INPUT, 0x010203),
        vec![0x6E, 0x20, 13, 0x60, 0, 0, 0, 3, 0, 0, 0, 0, 3, 2, 1, 0]
    );
    assert_eq!(le_remove_cig(3), vec![0x65, 0x20, 1, 3]);
    assert_eq!(disconnect(0x40, 0x13), vec![0x06, 0x04, 3, 0x40, 0, 0x13]);
    assert_eq!(read_rssi(0x40), vec![0x05, 0x14, 2, 0x40, 0]);
    assert_eq!(le_read_iso_link_quality(0x60), vec![0x75, 0x20, 2, 0x60, 0]);
}

#[test]
fn link_quality_counts_what_was_not_heard() {
    let mut params = vec![0u8, 0x60, 0x00];
    for counter in 1..=7u32 {
        params.extend_from_slice(&counter.to_le_bytes());
    }
    let quality = parse_iso_link_quality(&params).unwrap();
    assert_eq!(quality.handle, 0x60);
    assert_eq!((quality.tx_unacked_packets, quality.tx_flushed_packets), (1, 2));
    assert_eq!((quality.tx_last_subevent_packets, quality.retransmitted_packets), (3, 4));
    assert_eq!(quality.lost_packets(), 3);
    params[0] = 2;
    assert!(parse_iso_link_quality(&params).is_none());
    assert!(parse_iso_link_quality(&[0; 30]).is_none());
}

#[test]
fn the_end_of_a_link_has_a_reason() {
    let event = Event { code: 0x05, params: vec![0, 0x40, 0, 0x08] };
    assert_eq!(parse_disconnection_complete(&event), Some((0x40, 0x08)));
    assert_eq!(disconnect_reason(0x08), "spojeni vyprselo (supervision timeout)");
    assert_eq!(disconnect_reason(0x99), "viz Core spec Part D");
    let established = Event { code: 0x3E, params: vec![0x19, 0x00, 0x60, 0x00] };
    assert_eq!(parse_cis_established(&established), Some((0x00, 0x60)));
    assert_eq!(parse_cis_established(&event), None);
}

#[test]
fn a_length_that_does_not_fit_keeps_its_low_byte() {
    let packet = command(0x0C03, &[7; 300]);
    assert_eq!(packet[..4], [0x03, 0x0C, 44, 7]);
    assert_eq!(packet.len(), 303);
    let packet = le_create_cis(&[(1, 2); 64]);
    assert_eq!(packet[2..8], [1, 64, 1, 0, 2, 0]);
}
