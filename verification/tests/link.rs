use olea_core::att::{build_acl_packets, cid, Characteristic, L2capFrame, ServiceRange, Uuid};
use olea_core::bap::Preset;
use olea_core::hci::Event;
use olea_core::link::pacs_uuid;
use olea_core::att::AttError;
use olea_core::link::{
    answer_signalling, ascs_subscriptions, ase_reads, battery_handles, find_service, pacs_reads,
    parse_battery_level, parse_context_pair, volume_handles, wanted_state, AudioCapabilities,
    CccdSearch, CccdStep, CharacteristicWalk, DiscoveredService, EventQueue, GattCache, Link,
    LinkError, LongRead, Progress, ReadOutcome, ReadStep, ReaderState, Received, ServiceWalk,
    WritePolicy, GIVE_UP_AFTER,
};
use olea_core::media::Server;

/// Draining the held queue and handing it back must leave it unchanged and,
/// above all, must terminate.
#[test]
fn inspecting_held_events_terminates_and_preserves_order() {
    let mut held = EventQueue::new();
    for code in [0x05u8, 0x0E, 0x13] {
        held.push(Event { code, params: vec![code] });
    }

    // The same drain-then-restore shape the ACL wait uses.
    let mut inspected = Vec::new();
    while let Some(event) = held.try_recv_event() {
        inspected.push(event);
    }
    held.put_back_events(inspected);

    let mut codes: Vec<u8> = Vec::new();
    while let Some(event) = held.try_recv_event() {
        codes.push(event.code);
    }
    assert_eq!(codes, vec![0x05, 0x0E, 0x13], "order must survive a round trip");
}

#[test]
fn capabilities_default_to_empty() {
    let caps = AudioCapabilities::default();
    assert!(caps.sink_records.is_empty());
    assert!(caps.sink_ase_ids.is_empty());
}

#[test]
fn service_lookup_matches_by_short_uuid() {
    let service = DiscoveredService {
        range: ServiceRange {
            start_handle: 0x0001,
            end_handle: 0x0010,
            uuid: Uuid::Short(pacs_uuid::SERVICE_PACS),
        },
        characteristics: vec![Characteristic {
            declaration_handle: 0x0002,
            properties: 0x12,
            value_handle: 0x0003,
            uuid: Uuid::Short(pacs_uuid::SINK_PAC),
        }],
    };

    assert!(service.characteristic(pacs_uuid::SINK_PAC).is_some());
    assert!(service.characteristic(pacs_uuid::SOURCE_PAC).is_none());
    assert_eq!(
        service.characteristic(pacs_uuid::SINK_PAC).unwrap().value_handle,
        0x0003
    );
}

#[test]
fn two_ase_ids_mean_two_cis_are_possible() {
    // A device exposing two sink ASEs is the layout that makes Windows set up
    // two CIS. Knowing the count is what lets us choose one stream instead.
    let mut caps = AudioCapabilities::default();
    caps.sink_ase_ids = vec![1, 2];

    assert_eq!(caps.sink_ase_ids.len(), 2);

    // With stereo-in-one-stream support we only need the first.
    let config = Preset::WindowsDefault.codec(true);
    assert_eq!(config.channel_count(), 2);
}

fn characteristic(uuid: u16, value_handle: u16, properties: u8) -> Characteristic {
    Characteristic {
        declaration_handle: value_handle - 1,
        properties,
        value_handle,
        uuid: Uuid::Short(uuid),
    }
}

#[test]
fn contexts_and_batteries_are_read_as_far_as_they_go() {
    assert_eq!(parse_context_pair(&[]), (None, None));
    assert_eq!(parse_context_pair(&[4, 0, 9]), (Some(4), None));
    assert_eq!(parse_context_pair(&[4, 0, 9, 1]), (Some(4), Some(0x0109)));
    assert_eq!(parse_battery_level(&[100]), Some(100));
    assert_eq!(parse_battery_level(&[101]), None);
    assert_eq!(parse_battery_level(&[]), None);
}

#[test]
fn link_errors_say_what_went_wrong() {
    let cases = [
        (LinkError::AscsRejected("x".into()), "ASCS rejected: x"),
        (LinkError::Att(AttError::Malformed("ACL")), "malformed ACL packet"),
        (LinkError::Timeout(0), "no response within 0ns"),
        (LinkError::Timeout(700), "no response within 700ms"),
        (LinkError::Timeout(3_000), "no response within 3s"),
        (LinkError::Timeout(3_250), "no response within 3.25s"),
        (LinkError::Closed, "link closed"),
        (LinkError::Transport("usb".into()), "transport error: usb"),
        (LinkError::ServiceMissing(0x184E), "service 0x184e not found on this device"),
        (LinkError::CharacteristicMissing(0x2BC6), "characteristic 0x2bc6 not found"),
    ];
    for (error, text) in cases {
        assert_eq!(error.to_string(), text);
    }
    let lost = LinkError::Disconnected { reason: 0x08 };
    assert!(lost.to_string().ends_with(" (kod 0x08)"));
}

#[test]
fn a_reader_gives_up_only_after_many_failures_in_a_row() {
    let mut state = ReaderState::new();
    for _ in 0..GIVE_UP_AFTER - 1 {
        assert_eq!(state.step(ReadOutcome::Failed, false), ReadStep::Recover);
    }
    assert_eq!(state.step(ReadOutcome::TimedOut, false), ReadStep::Again);
    assert_eq!(state.step(ReadOutcome::Failed, true), ReadStep::End);
    assert_eq!(state.failures, 0);
    state.failures = GIVE_UP_AFTER - 1;
    assert_eq!(state.step(ReadOutcome::Failed, false), ReadStep::End);
    let mut state = ReaderState::new();
    assert_eq!(state.step(ReadOutcome::Packet, false), ReadStep::Deliver);
    assert_eq!(state.step(ReadOutcome::DeviceGone, false), ReadStep::End);
}

fn lost(handle: u8, reason: u8) -> Event {
    Event { code: 0x05, params: vec![0x00, handle, 0x00, reason] }
}

#[test]
fn a_loss_is_taken_out_of_the_queue_and_nothing_else() {
    let mut queue = EventQueue::new();
    queue.push(Event { code: 0x13, params: vec![0] });
    queue.push(lost(0x0C, 0x08));
    queue.push(lost(0x0D, 0x13));
    queue.push(lost(0x0C, 0x16));
    assert_eq!(queue.take_loss(0x0E), None);
    assert_eq!(queue.take_loss(0x0C), Some(0x08));
    assert_eq!(queue.take_all_losses(0x0C), Some(0x16));
    assert_eq!(queue.try_recv_event().unwrap().code, 0x13);
    assert_eq!(queue.try_recv_event().unwrap().params[1], 0x0D);
    assert!(queue.try_recv_event().is_none());
    queue.push(lost(1, 1));
    queue.clear();
    assert!(queue.try_recv_event().is_none());
}

#[test]
fn a_parameter_request_is_answered_and_carried_out() {
    let frame = L2capFrame {
        cid: cid::LE_SIGNALING,
        payload: vec![0x12, 0x07, 0x08, 0x00, 0x30, 0x00, 0x30, 0x00, 0x00, 0x00, 0xF4, 0x01],
    };
    match answer_signalling(0x0040, &frame) {
        Received::Signalling { response, update } => {
            assert_eq!(response, vec![0x13, 0x07, 2, 0, 0, 0]);
            let update = update.expect("acceptable timing is carried out");
            assert_eq!(&update[..5], &[0x13, 0x20, 14, 0x40, 0x00]);
        }
        other => panic!("{other:?}"),
    }
    let mut bad = frame.clone();
    bad.payload[4] = 0x31; // the shortest interval above the longest
    match answer_signalling(0x0040, &bad) {
        Received::Signalling { response, update } => {
            assert_eq!(response[4], 1);
            assert!(update.is_none());
        }
        other => panic!("{other:?}"),
    }
    let other = L2capFrame { cid: cid::ATT, payload: frame.payload };
    assert!(matches!(answer_signalling(0x0040, &other), Received::Nothing));
}

fn packet(channel: u16, payload: &[u8]) -> Vec<u8> {
    build_acl_packets(0x0040, channel, payload, 251).remove(0)
}

#[test]
fn a_waiting_client_tells_answers_from_everything_else() {
    let mut link = Link::new(0x0040);
    let mut server = Server::default();
    assert_eq!(link.mtu(), 23);
    match link.receive(&packet(cid::ATT, &[0x0B, 1, 2]), &mut server, false) {
        Received::Answer { payload, .. } => assert_eq!(payload, vec![0x0B, 1, 2]),
        other => panic!("{other:?}"),
    }
    let notification = packet(cid::ATT, &[0x1B, 0x10, 0x00, 7]);
    assert!(matches!(link.receive(&notification, &mut server, false), Received::Nothing));
    let indication = packet(cid::ATT, &[0x1D, 0x11, 0x00, 8]);
    match link.receive(&indication, &mut server, false) {
        Received::Reply(pdu) => assert_eq!(pdu, vec![0x1E]),
        other => panic!("{other:?}"),
    }
    assert_eq!(link.take_notifications(), vec![(0x10, vec![7]), (0x11, vec![8])]);
    match link.receive(&packet(cid::ATT, &[0x02, 0x40, 0x00]), &mut server, false) {
        Received::Reply(pdu) => assert_eq!(pdu, vec![0x03, 0x05, 0x02]),
        other => panic!("{other:?}"),
    }
    assert_eq!(link.mtu(), 64);
    assert!(matches!(
        link.receive(&packet(cid::SMP, &[0x0B, 1]), &mut server, false),
        Received::Nothing
    ));
    match link.receive_smp(&packet(cid::SMP, &[0x0B, 1])) {
        Received::Answer { payload, pdus } => {
            assert_eq!(payload, vec![0x0B, 1]);
            assert!(pdus.is_empty());
        }
        other => panic!("{other:?}"),
    }
    assert_eq!(link.take_mtu(&[0x03, 0x20, 0x00]).unwrap(), 32);
    assert_eq!(link.mtu(), 32);
    assert_eq!(link.packets(cid::ATT, &[1]), vec![packet(cid::ATT, &[1])]);
}

#[test]
fn a_watched_link_notices_its_end() {
    let mut link = Link::new(0x0C);
    let mut queue = EventQueue::new();
    assert_eq!(link.watch(&mut queue), None);
    queue.push(lost(0x0C, 0x08));
    assert_eq!(link.watch(&mut queue), Some(0x08));
    assert_eq!(link.disconnected_reason(), Some(0x08));
}

#[test]
fn a_rejected_operation_is_reported_once() {
    let mut link = Link::new(0x0040);
    let mut server = Server::default();
    link.set_control_point(0x20);
    link.begin_ascs_operation(0x01);
    assert!(link.check_ascs_errors().is_ok());
    let rejected = packet(cid::ATT, &[0x1B, 0x20, 0x00, 0x01, 0x01, 0x02, 0x08, 0x05]);
    link.receive(&rejected, &mut server, false);
    let (heard, _) = link.collect(&packet(cid::ATT, &[0x1B, 0x30, 0x00, 9]), &mut server, false);
    assert!(matches!(heard, Received::Nothing));
    let error = link.check_ascs_errors().unwrap_err();
    assert_eq!(
        error.to_string(),
        "ASCS rejected: operation 0x01, ASE 2: rejected parameter value (PHY) (response 0x08, reason 0x05)"
    );
    assert!(link.check_ascs_errors().is_ok());
    assert_eq!(link.take_notifications(), vec![(0x30, vec![9])]);
}

#[test]
fn known_endpoints_are_remembered() {
    let mut link = Link::new(1);
    link.note_ase(1, 0x30);
    link.note_ase(2, 0x33);
    assert!(link.knows_all(&[1, 2]) && !link.knows_all(&[1, 3]));
    assert_eq!(link.known_ases(&[2, 7]), vec![(2, 0x33)]);
    assert_eq!(wanted_state(&[2, 4], &[1, 2]).unwrap().state, 4);
    assert!(wanted_state(&[3, 4], &[1, 2]).is_none());
    assert!(wanted_state(&[3], &[3]).is_none());
}

#[test]
fn services_are_walked_to_their_end() {
    let mut walk = ServiceWalk::new();
    assert_eq!(walk.request(), vec![0x10, 1, 0, 0xFF, 0xFF, 0x00, 0x28]);
    let page = [0x11, 6, 0x01, 0x00, 0x09, 0x00, 0x50, 0x18];
    assert!(matches!(walk.absorb(&page), Ok(Progress::More)));
    assert_eq!(walk.request(), vec![0x10, 10, 0, 0xFF, 0xFF, 0x00, 0x28]);
    let end = [0x01, 0x10, 0x0A, 0x00, 0x0A];
    assert!(matches!(walk.absorb(&end), Ok(Progress::Done)));
    assert_eq!(walk.services.len(), 1);
    let mut walk = ServiceWalk::new();
    assert!(walk.absorb(&[0x01, 0x10, 0x0A, 0x00, 0x0F]).is_err());
}

#[test]
fn characteristics_are_walked_inside_their_service() {
    let service = ServiceRange { start_handle: 1, end_handle: 9, uuid: Uuid::Short(0x1850) };
    let mut walk = CharacteristicWalk::new(&service);
    assert_eq!(walk.request().unwrap(), vec![0x08, 1, 0, 9, 0, 0x03, 0x28]);
    let page = [0x09, 7, 0x02, 0x00, 0x12, 0x03, 0x00, 0xC9, 0x2B];
    assert!(matches!(walk.absorb(&page), Ok(Progress::More)));
    assert!(matches!(walk.absorb(&[0x01, 0x08, 4, 0, 0x0A]), Ok(Progress::Done)));
    assert_eq!(walk.characteristics.len(), 1);
    let mut cache = GattCache::new();
    assert!(cache.characteristics_of(&service).is_none());
    cache.characteristics.push((1, 9, walk.characteristics));
    assert_eq!(cache.characteristics_of(&service).unwrap().len(), 1);
}

#[test]
fn a_long_value_is_read_in_pieces() {
    let mut read = LongRead::new(0x10, 23);
    assert_eq!(read.request(), vec![0x0A, 0x10, 0x00]);
    let mut full = vec![0x0B];
    full.extend(0..22u8);
    assert!(matches!(read.absorb(&full), Ok(Progress::More)));
    assert_eq!(read.request(), vec![0x0C, 0x10, 0x00, 22, 0]);
    assert!(matches!(read.absorb(&[0x0D, 22, 23]), Ok(Progress::Done)));
    assert_eq!(read.value, (0..24u8).collect::<Vec<_>>());
}

/// Reads a value from a device that answers from it.
fn read_from(held: &[u8], mtu: u16, refuses_end: bool) -> Vec<u8> {
    let mut read = LongRead::new(0x10, mtu);
    loop {
        let request = read.request();
        let from = if request[0] == 0x0A {
            0
        } else {
            u16::from_le_bytes([request[3], request[4]]) as usize
        };
        let response = if request[0] == 0x0C && from == held.len() && refuses_end {
            vec![0x01, 0x0C, 0x10, 0x00, 0x07]
        } else {
            let end = held.len().min(from + mtu as usize - 1);
            [&[request[0] + 1], &held[from..end]].concat()
        };
        match read.absorb(&response) {
            Ok(Progress::More) => {}
            Ok(Progress::Done) => return read.value,
            Err(error) => panic!("{error:?}"),
        }
    }
}

#[test]
fn a_value_of_any_length_is_read_whole() {
    let held: Vec<u8> = (0..512).map(|i| i as u8).collect();
    for length in [0, 1, 21, 22, 23, 43, 44, 45, 66, 67, 511, 512] {
        for refuses_end in [false, true] {
            assert_eq!(read_from(&held[..length], 23, refuses_end), &held[..length]);
        }
    }
    assert_eq!(read_from(&held, 2, false), held);
    assert_eq!(read_from(&held, 517, false), held);
}

#[test]
fn handles_are_picked_by_their_uuid() {
    let volume = [characteristic(0x2B7D, 0x10, 0x12), characteristic(0x2B7E, 0x13, 0x08)];
    let handles = volume_handles(&volume, 0x2B7D, 0x2B7E).unwrap();
    assert_eq!((handles.state, handles.state_cccd, handles.control_point), (0x10, 0x11, 0x13));
    assert!(volume_handles(&volume[..1], 0x2B7D, 0x2B7E).is_none());
    let battery = battery_handles(&[characteristic(0x2A19, 0x20, 0x12)]).unwrap();
    assert_eq!((battery.level, battery.level_cccd, battery.notifies), (0x20, 0x21, true));
    assert!(battery_handles(&volume).is_none());
    let services = [ServiceRange { start_handle: 1, end_handle: 2, uuid: Uuid::Short(0x1850) }];
    assert!(find_service(&services, 0x1850).is_ok());
    assert!(matches!(find_service(&services, 0x184E), Err(LinkError::ServiceMissing(0x184E))));
}

#[test]
fn a_descriptor_is_looked_for_behind_its_value() {
    let characteristics = [characteristic(0x2BC6, 0x10, 0x18), characteristic(0x2BC4, 0x20, 0x12)];
    let mut search = CccdSearch::new(&characteristics, 0x10, 0x30).unwrap();
    assert_eq!(search.request().unwrap(), vec![0x04, 0x11, 0x00, 0x1E, 0x00]);
    assert!(matches!(
        search.absorb(&[0x05, 0x01, 0x11, 0x00, 0x02, 0x29]),
        CccdStep::Found(0x11)
    ));
    let mut search = CccdSearch::new(&characteristics, 0x10, 0x30).unwrap();
    assert!(matches!(search.absorb(&[0x05, 0x01, 0x11, 0x00, 0x01, 0x29]), CccdStep::More));
    assert!(matches!(search.absorb(&[0x01, 0x04, 0x12, 0x00, 0x0A]), CccdStep::Missing));
}

#[test]
fn capabilities_are_gathered_from_what_is_readable() {
    let pacs = [
        characteristic(0x2BC9, 0x10, 0x02),
        characteristic(0x2BCD, 0x14, 0x02),
        characteristic(0x2BCA, 0x18, 0x00),
        characteristic(0x1234, 0x1C, 0x02),
    ];
    assert!(pacs_reads(&pacs).contains(&(0x2BCD, 0x14)));
    assert!(!pacs_reads(&pacs).iter().any(|r| r.0 == 0x1234));
    let ascs = [characteristic(0x2BC4, 0x30, 0x12), characteristic(0x2BC6, 0x33, 0x18)];
    assert_eq!(ase_reads(&ascs), vec![(0x2BC4, 0x30)]);
    assert!(!ascs_subscriptions(&ascs).is_empty());

    let mut caps = AudioCapabilities::default();
    caps.absorb(0x2BCD, 0x14, &[4, 0, 2, 0]);
    caps.absorb(0x2BC4, 0x30, &[1, 0]);
    assert_eq!(caps.available_contexts, Some(4));
    assert_eq!(caps.available_source_contexts, Some(2));
    assert_eq!(caps.sink_ase_ids, vec![1]);
    assert_eq!(caps.clone().available_contexts, Some(4));
}

#[test]
fn only_what_discovery_approved_is_written() {
    let mut policy = WritePolicy::new();
    assert_eq!(
        policy.write(0x0021, &[1]).unwrap_err().to_string(),
        "writing to handle 0x0021 was not approved by discovery"
    );
    policy.allow_writes_to(0x0021);
    assert_eq!(policy.write(0x0021, &[1, 2]).unwrap(), vec![0x12, 0x21, 0x00, 1, 2]);
    assert!(policy.write(0x0022, &[1]).is_err());
    assert_eq!(policy.subscribe(0x0022), vec![0x12, 0x22, 0x00, 0x01, 0x00]);
    assert!(policy.write(0x0022, &[0, 0]).is_ok());
}
