use olea_core::att::att_op;
use olea_core::att::cid;
use olea_core::att::{
    check_error, exchange_mtu_request, read_blob_request, read_by_group_type_request,
    read_by_type_request, read_request, write_request, ATT_DEFAULT_MTU, ATT_PREFERRED_MTU,
    AclReassembler, AttError, Uuid, absent_local_attribute_response, build_acl_packets,
    error_name, exchange_mtu_response, parse_characteristics, parse_mtu_response,
    parse_read_response, parse_service_ranges,
};

#[test]
fn small_payload_becomes_one_acl_packet() {
    let packets = build_acl_packets(0x0040, cid::ATT, &[0x02, 0x05, 0x02], 27);
    assert_eq!(packets.len(), 1);

    let packet = &packets[0];
    // handle 0x0040 with PB_FIRST in the top bits
    assert_eq!(u16::from_le_bytes([packet[0], packet[1]]) & 0x0FFF, 0x0040);
    assert_eq!(u16::from_le_bytes([packet[2], packet[3]]), 7); // 4 L2CAP + 3 payload
    assert_eq!(u16::from_le_bytes([packet[4], packet[5]]), 3); // L2CAP length
    assert_eq!(u16::from_le_bytes([packet[6], packet[7]]), cid::ATT);
}

#[test]
fn large_payload_is_fragmented_and_reassembled() {
    // A realistic PAC record: bigger than one ACL packet at the default size.
    let payload: Vec<u8> = (0..100u8).collect();
    let packets = build_acl_packets(0x0040, cid::ATT, &payload, 27);
    assert!(packets.len() > 1, "payload should need several fragments");

    let mut reassembler = AclReassembler::new();
    let mut frame = None;
    for packet in &packets {
        if let Some(f) = reassembler.push(packet).unwrap() {
            frame = Some(f);
        }
    }

    let frame = frame.expect("fragments should reassemble into one frame");
    assert_eq!(frame.cid, cid::ATT);
    assert_eq!(frame.payload, payload);
}

/// Replies from the peer carry the controller-to-host boundary flag, and must
/// not be discarded for it.
#[test]
fn frames_arriving_from_the_controller_are_reassembled() {
    // Handle 0x000C, PB 0b10, one ATT PDU of three bytes.
    let incoming = [
        0x0C, 0x20, // handle 0x000C, boundary 0b10
        0x07, 0x00, // ACL data length
        0x03, 0x00, // L2CAP payload length
        0x04, 0x00, // channel: ATT
        0x03, 0x17, 0x00, // Exchange MTU Response, MTU 23
    ];

    let mut reassembler = AclReassembler::new();
    let frame = reassembler
        .push(&incoming)
        .unwrap()
        .expect("a controller-to-host frame must reassemble");

    assert_eq!(frame.cid, cid::ATT);
    assert_eq!(frame.payload, vec![0x03, 0x17, 0x00]);
}

#[test]
fn a_complete_pdu_in_one_packet_is_accepted() {
    // Same frame, but flagged as a complete PDU rather than a first fragment.
    let incoming = [
        0x0C, 0x30, // handle 0x000C, boundary 0b11
        0x07, 0x00, 0x03, 0x00, 0x06, 0x00, // channel: SMP
        0x02, 0x03, 0x00,
    ];

    let mut reassembler = AclReassembler::new();
    let frame = reassembler.push(&incoming).unwrap().expect("must reassemble");
    assert_eq!(frame.cid, cid::SMP);
}

#[test]
fn continuation_without_a_start_is_dropped() {
    let mut reassembler = AclReassembler::new();
    // PB_CONTINUING with no preceding start.
    let packet = [0x40, 0x10, 0x02, 0x00, 0xAA, 0xBB];
    assert_eq!(reassembler.push(&packet).unwrap(), None);
}

#[test]
fn truncated_acl_is_rejected() {
    let mut reassembler = AclReassembler::new();
    assert!(reassembler.push(&[0x40, 0x00]).is_err());
    // Header claims 10 bytes, packet carries 2.
    assert!(reassembler.push(&[0x40, 0x00, 0x0A, 0x00, 0x01, 0x02]).is_err());
}

#[test]
fn error_response_is_surfaced_with_its_code() {
    // Error on Read Request, handle 0x0025, insufficient encryption.
    let pdu = [att_op::ERROR_RESPONSE, att_op::READ_REQUEST, 0x25, 0x00, 0x0F];
    let error = parse_read_response(&pdu).unwrap_err();

    match error {
        AttError::Protocol { code, handle } => {
            assert_eq!(code, 0x0F);
            assert_eq!(handle, 0x0025);
            assert_eq!(error_name(code), "insufficient encryption");
        }
        other => panic!("expected a protocol error, got {other:?}"),
    }
}

#[test]
fn service_discovery_parses_short_uuids() {
    // opcode, entry_len=6, then two services
    let pdu = [
        att_op::READ_BY_GROUP_TYPE_RESPONSE,
        0x06,
        0x01, 0x00, 0x09, 0x00, 0x50, 0x18, // 0x0001-0x0009, PACS
        0x0A, 0x00, 0x20, 0x00, 0x4E, 0x18, // 0x000A-0x0020, ASCS
    ];

    let services = parse_service_ranges(&pdu).unwrap();
    assert_eq!(services.len(), 2);
    assert_eq!(services[0].uuid.as_short(), Some(0x1850));
    assert_eq!(services[0].start_handle, 0x0001);
    assert_eq!(services[1].uuid.as_short(), Some(0x184E));
}

#[test]
fn characteristic_discovery_reports_properties() {
    // Sink PAC characteristic 0x2BC9, readable and notifiable.
    let pdu = [
        att_op::READ_BY_TYPE_RESPONSE,
        0x07,
        0x02, 0x00,       // declaration handle
        0x12,             // properties: read | notify
        0x03, 0x00,       // value handle
        0xC9, 0x2B,       // UUID 0x2BC9
    ];

    let characteristics = parse_characteristics(&pdu).unwrap();
    assert_eq!(characteristics.len(), 1);

    let sink_pac = &characteristics[0];
    assert_eq!(sink_pac.uuid.as_short(), Some(0x2BC9));
    assert_eq!(sink_pac.value_handle, 0x0003);
    assert!(sink_pac.is_readable());
    assert!(sink_pac.supports_notify());
    assert!(!sink_pac.is_writable());
}

#[test]
fn long_form_of_a_sig_uuid_is_recognised() {
    // 128-bit form of 0x1850, little-endian on the wire.
    let long = Uuid::Long([
        0xFB, 0x34, 0x9B, 0x5F, 0x80, 0x00, 0x00, 0x80,
        0x00, 0x10, 0x00, 0x00, 0x50, 0x18, 0x00, 0x00,
    ]);
    assert_eq!(long.as_short(), Some(0x1850));

    // A vendor UUID must not be mistaken for a SIG one.
    let vendor = Uuid::Long([0xAA; 16]);
    assert_eq!(vendor.as_short(), None);
}

#[test]
fn mtu_negotiation_takes_the_smaller_value() {
    let response = [att_op::EXCHANGE_MTU_RESPONSE, 0x40, 0x00]; // peer offers 64
    assert_eq!(parse_mtu_response(&response, ATT_PREFERRED_MTU).unwrap(), 64);

    // Never below the protocol default, whatever the peer claims.
    let tiny = [att_op::EXCHANGE_MTU_RESPONSE, 0x05, 0x00];
    assert_eq!(parse_mtu_response(&tiny, ATT_PREFERRED_MTU).unwrap(), ATT_DEFAULT_MTU);
}

#[test]
fn a_peer_database_hash_probe_gets_attribute_not_found() {
    // Read By Type 0x0001..0xFFFF, UUID 0x2B2A (Database Hash).
    let request = [att_op::READ_BY_TYPE_REQUEST, 0x01, 0x00, 0xFF, 0xFF, 0x2A, 0x2B];
    assert_eq!(
        absent_local_attribute_response(&request),
        Some(vec![att_op::ERROR_RESPONSE, att_op::READ_BY_TYPE_REQUEST, 0x01, 0x00, 0x0A])
    );
}

#[test]
fn responses_are_never_mistaken_for_peer_requests() {
    assert_eq!(
        absent_local_attribute_response(&[att_op::READ_BY_TYPE_RESPONSE, 0x07]),
        None
    );
    assert_eq!(
        absent_local_attribute_response(&[att_op::EXCHANGE_MTU_RESPONSE, 0x00, 0x02]),
        None
    );
}

#[test]
fn a_peer_mtu_request_can_be_answered() {
    assert_eq!(exchange_mtu_response(ATT_PREFERRED_MTU), [0x03, 0x05, 0x02]);
}

#[test]
fn requests_are_laid_out_little_endian() {
    assert_eq!(exchange_mtu_request(517), [0x02, 0x05, 0x02]);
    assert_eq!(read_by_group_type_request(1, 0xFFFF, 0x2800), [0x10, 1, 0, 0xFF, 0xFF, 0, 0x28]);
    assert_eq!(read_by_type_request(1, 0x0102, 0x2803), [0x08, 1, 0, 2, 1, 3, 0x28]);
    assert_eq!(read_request(0x0304), [0x0A, 4, 3]);
    assert_eq!(read_blob_request(0x0304, 0x0506), [0x0C, 4, 3, 6, 5]);
    assert_eq!(write_request(0x0304, &[9, 8]), [0x12, 4, 3, 9, 8]);
}

#[test]
fn every_error_says_what_went_wrong() {
    let error = check_error(&[0x01, 0x0A, 0x25, 0x00, 0x0F]).unwrap_err();
    assert_eq!(error.to_string(), "ATT error on handle 0x0025: insufficient encryption (0x0f)");
    let error = check_error(&[0x01, 0x0A]).unwrap_err();
    assert_eq!(error.to_string(), "malformed ATT error packet");
    let error = parse_read_response(&[0x13]).unwrap_err();
    assert_eq!(error.to_string(), "unexpected ATT response 0x13, expected 0x0b");
    assert!(check_error(&[]).is_ok());
}

#[test]
fn fragments_reassemble_at_every_limit() {
    let payload: Vec<u8> = (0..50u8).collect();
    for limit in [4usize, 5, 7, 27, 53, 54, 55, 251] {
        let mut reassembler = AclReassembler::new();
        let mut frames = Vec::new();
        for packet in build_acl_packets(0x0FFF, cid::ATT, &payload, limit) {
            if let Some(frame) = reassembler.push(&packet).unwrap() {
                frames.push(frame);
            }
        }
        assert_eq!(frames.len(), 1, "limit {limit}");
        assert_eq!(frames[0].payload, payload);
    }
}

#[test]
fn a_frame_that_overshoots_is_dropped_whole() {
    let mut reassembler = AclReassembler::new();
    // A length of one, with two bytes behind it.
    let packet = [0x40, 0x20, 0x06, 0x00, 0x01, 0x00, 0x04, 0x00, 0xAA, 0xBB];
    assert!(reassembler.push(&packet).is_err());
    assert_eq!(reassembler.push(&[0x40, 0x10, 0x01, 0x00, 0xCC]).unwrap(), None);
    reassembler.reset();
    assert!(build_acl_packets(1, cid::ATT, &[], 0).len() == 4, "one byte to a packet");
}

#[test]
fn an_empty_host_answers_every_request() {
    assert_eq!(
        absent_local_attribute_response(&[0x0A, 0x25, 0x01]),
        Some(vec![0x01, 0x0A, 0x25, 0x01, 0x01])
    );
    assert_eq!(absent_local_attribute_response(&[0x18]), Some(vec![0x01, 0x18, 0, 0, 0x06]));
    assert_eq!(absent_local_attribute_response(&[0x0A, 0x25]), None);
    assert_eq!(absent_local_attribute_response(&[]), None);
}

#[test]
fn lists_with_an_impossible_entry_are_refused() {
    assert!(parse_service_ranges(&[0x11, 0x05, 1, 2, 3, 4, 5]).is_err());
    assert!(parse_service_ranges(&[0x11, 0x07, 1, 2, 3, 4, 5, 6, 7]).is_err());
    // An entry that is not whole is left out, whatever it would have held.
    assert_eq!(parse_service_ranges(&[0x11, 0x07, 1, 2, 3]).unwrap(), vec![]);
    assert!(parse_characteristics(&[0x09, 0x06, 1, 2, 3, 4, 5, 6]).is_err());
    assert_eq!(parse_characteristics(&[0x09, 0x07]).unwrap(), vec![]);
    assert!(parse_mtu_response(&[0x03, 0x40], 517).is_err());
    // Whichever side proposes which.
    assert_eq!(parse_mtu_response(&[0x03, 0x05, 0x02], 64).unwrap(), 64);
}

#[test]
fn only_the_base_uuid_has_a_short_form() {
    let mut long = [
        0xFB, 0x34, 0x9B, 0x5F, 0x80, 0x00, 0x00, 0x80, 0x00, 0x10, 0x00, 0x00, 0x50, 0x18, 0x00,
        0x00,
    ];
    assert_eq!(Uuid::Long(long).as_short(), Some(0x1850));
    long[14] = 0x01;
    assert_eq!(Uuid::Long(long).as_short(), None);
    long[14] = 0x00;
    long[15] = 0x01;
    assert_eq!(Uuid::Long(long).as_short(), None);
    long[15] = 0x00;
    long[0] = 0xFA;
    assert_eq!(Uuid::Long(long).as_short(), None);
}

#[test]
fn a_frame_comes_with_its_last_fragment_whatever_the_first_flag() {
    let payload: Vec<u8> = (0..60).collect();
    for flag in [0u8, 2, 3] {
        let mut packets = build_acl_packets(0x0040, cid::ATT, &payload, 27);
        packets[0][1] |= flag << 4;
        let mut reassembler = AclReassembler::new();
        let last = packets.pop().unwrap();
        for packet in &packets {
            assert!(reassembler.push(packet).unwrap().is_none());
        }
        assert_eq!(reassembler.push(&last).unwrap().unwrap().payload, payload);
    }
}
