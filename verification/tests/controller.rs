use olea_core::controller::{
    answers_connection, answers_encryption, apply_advertising_data, checked_opcode, command_answer,
    connection_outcome, devices_in, encryption_outcome, is_bulk_event, parse_advertising_reports,
    parse_extended_advertising_reports, status_name, Controller, ControllerError,
    DiscoveredDevice, EventWait,
};
use olea_core::hci::BdAddr;
use olea_core::link::LinkError;
use olea_core::hci::subevt;

#[test]
fn advertising_report_yields_name_and_services() {
    // subevent, num_reports, event_type, addr_type, address, data_len, data, rssi
    let mut params = vec![0x02, 0x01, 0x00, 0x00];
    params.extend_from_slice(&[0x9A, 0xB4, 0x72, 0x62, 0xFE, 0x7C]);

    let mut ad = Vec::new();
    ad.extend_from_slice(&[0x05, 0x09, b'J', b'B', b'L', b'!']); // name "JBL!"
    ad.extend_from_slice(&[0x03, 0x03, 0x50, 0x18]); // service 0x1850 (PACS)

    params.push(ad.len() as u8);
    params.extend_from_slice(&ad);
    params.push(0xC0u8); // rssi -64

    let devices = parse_advertising_reports(&params);
    assert_eq!(devices.len(), 1);

    let device = &devices[0];
    assert_eq!(device.address.to_string(), "7C:FE:62:72:B4:9A");
    assert_eq!(device.name.as_deref(), Some("JBL!"));
    assert_eq!(device.service_uuids, vec![0x1850]);
    assert_eq!(device.rssi, -64);
    assert!(device.is_le_audio(), "PACS in advertisement means LE Audio");
}

#[test]
fn plain_ble_device_is_not_flagged_as_le_audio() {
    let device = DiscoveredDevice {
        address: BdAddr([0; 6]),
        address_type: 0,
        rssi: -50,
        name: Some("Xbox Wireless Controller".into()),
        appearance: None,
        service_uuids: vec![0x1812], // HID over GATT
    };

    assert!(!device.is_le_audio());
}

#[test]
fn truncated_report_does_not_panic() {
    assert!(parse_advertising_reports(&[0x02]).is_empty());
    assert!(parse_advertising_reports(&[0x02, 0x01, 0x00]).is_empty());
    // Claims two reports but carries one.
    let mut params = vec![0x02, 0x02, 0x00, 0x00];
    params.extend_from_slice(&[0; 6]);
    params.push(0x00);
    params.push(0xC0);
    assert_eq!(parse_advertising_reports(&params).len(), 1);
}

/// Builds one extended report: the 24-byte header, then advertising data.
fn extended_report(address: [u8; 6], rssi: i8, data: &[u8]) -> Vec<u8> {
    let mut params = vec![subevt::EXTENDED_ADVERTISING_REPORT, 0x01];
    params.extend_from_slice(&[0x00, 0x00]); // event type
    params.push(0x00); // address type: public
    params.extend_from_slice(&address);
    params.extend_from_slice(&[0x01, 0x00, 0xFF, 0x7F]); // phys, sid, tx power
    params.push(rssi as u8);
    params.extend_from_slice(&[0x00, 0x00]); // periodic interval
    params.push(0x00); // direct address type
    params.extend_from_slice(&[0; 6]); // direct address
    params.push(data.len() as u8);
    params.extend_from_slice(data);
    params
}

#[test]
fn extended_report_yields_the_same_device_as_a_legacy_one() {
    // Complete local name "JBL", then the PACS service UUID.
    let data = [0x04, 0x09, b'J', b'B', b'L', 0x03, 0x03, 0x50, 0x18];
    let address = [0x9A, 0xB4, 0x72, 0x62, 0xFE, 0x7C];

    let devices = parse_extended_advertising_reports(&extended_report(address, -63, &data));

    assert_eq!(devices.len(), 1);
    assert_eq!(devices[0].address, BdAddr(address));
    assert_eq!(devices[0].rssi, -63);
    assert_eq!(devices[0].name.as_deref(), Some("JBL"));
    assert!(devices[0].is_le_audio());
}

#[test]
fn truncated_extended_report_does_not_panic() {
    assert!(parse_extended_advertising_reports(&[0x0D]).is_empty());
    assert!(parse_extended_advertising_reports(&[0x0D, 0x01, 0x00]).is_empty());

    // Header claims more advertising data than the buffer holds.
    let mut params = extended_report([0; 6], 0, &[]);
    *params.last_mut().unwrap() = 0x20;
    assert!(parse_extended_advertising_reports(&params).is_empty());
}

#[test]
fn malformed_advertising_data_stops_cleanly() {
    let mut device = DiscoveredDevice {
        address: BdAddr([0; 6]),
        address_type: 0,
        rssi: 0,
        name: None,
        appearance: None,
        service_uuids: Vec::new(),
    };

    // Length byte claims more than the buffer holds.
    apply_advertising_data(&mut device, &[0x20, 0x09, b'x']);
    assert!(device.name.is_none());
}

#[test]
fn status_names_cover_the_common_failures() {
    assert_eq!(status_name(0x00), "success");
    assert_eq!(status_name(0x42), "unacceptable connection parameters");
}

fn event(code: u8, params: &[u8]) -> olea_core::hci::Event {
    olea_core::hci::Event { code, params: params.to_vec() }
}

#[test]
fn a_command_is_answered_by_its_own_events_only() {
    let complete = event(0x0E, &[1, 0x03, 0x0C, 0x00, 0x2A]);
    assert_eq!(command_answer(&complete, 0x0C03).unwrap().unwrap(), vec![0x00, 0x2A]);
    assert!(command_answer(&complete, 0x1001).is_none());
    let failed = event(0x0E, &[1, 0x03, 0x0C, 0x0C]);
    assert_eq!(
        command_answer(&failed, 0x0C03).unwrap().unwrap_err().to_string(),
        "controller rejected command 0x0c03 with status 0x0c (command disallowed)"
    );
    let accepted = event(0x0F, &[0x00, 1, 0x0D, 0x20]);
    assert_eq!(command_answer(&accepted, 0x200D).unwrap().unwrap(), Vec::<u8>::new());
    let refused = event(0x0F, &[0x12, 1, 0x0D, 0x20]);
    assert!(command_answer(&refused, 0x200D).unwrap().is_err());
}

#[test]
fn waiting_loses_no_disconnection() {
    let mut controller = Controller::new();
    controller.hold_event(event(0x0F, &[0, 1, 2, 3]));
    let mut wait = EventWait::new();
    wait.pass(event(0x3E, &[subevt::ADVERTISING_REPORT, 0]));
    wait.pass(event(0x13, &[1, 0x40, 0, 1, 0]));
    wait.pass(event(0x05, &[0, 0x40, 0, 0x13]));
    assert!(is_bulk_event(&event(0x3E, &[subevt::EXTENDED_ADVERTISING_REPORT])));
    assert!(!is_bulk_event(&event(0x05, &[0, 0x40, 0, 0x13])));
    controller.finish_wait(wait);
    let mut arrived = olea_core::link::EventQueue::new();
    assert_eq!(controller.take_disconnection_reason(&mut arrived, 0x41), None);
    assert_eq!(controller.take_disconnection_reason(&mut arrived, 0x40), Some(0x13));
    assert_eq!(controller.next_queued(true).unwrap().unwrap().code, 0x0F);
    assert!(controller.next_queued(true).unwrap().is_none());
    assert!(matches!(controller.next_queued(false), Err(ControllerError::ReaderStopped)));
}

#[test]
fn initialisation_confirms_le_audio() {
    assert_eq!(Controller::init_packet(0), vec![0x03, 0x0C, 0]);
    assert_eq!(Controller::init_packet(6), vec![0x74, 0x20, 2, 32, 1]);
    let mut controller = Controller::new();
    assert!(matches!(controller.take_init(1, &[0]), Err(ControllerError::MalformedEvent)));
    let old = controller.take_init(1, &[0, 10, 0, 0, 10, 0x0F, 0, 0, 0]).unwrap_err();
    assert_eq!(
        old.to_string(),
        "controller reports Bluetooth 5.1, but LE Audio needs 5.2 or newer"
    );
    assert!(controller.take_init(1, &[0, 14, 0, 0, 14, 0x0F, 0, 0, 0]).is_ok());
    assert_eq!(controller.local_version.unwrap().bluetooth_version(), "6.0");
    assert!(controller.take_init(2, &[0, 1, 2, 3, 4, 5, 6]).is_ok());
    assert_eq!(controller.local_address.unwrap().to_string(), "06:05:04:03:02:01");
}

#[test]
fn a_connection_is_requested_the_way_it_was_scanned_for() {
    let mut controller = Controller::new();
    let peer = BdAddr([1, 2, 3, 4, 5, 6]);
    assert_eq!(controller.connection_request(peer, 0)[..2], [0x0D, 0x20]);
    assert_eq!(controller.scan_stop()[..2], [0x0C, 0x20]);
    controller.set_extended_scan(true);
    assert!(controller.used_extended_scan());
    assert_eq!(controller.connection_request(peer, 0)[..2], [0x43, 0x20]);
    assert_eq!(controller.scan_stop()[..2], [0x42, 0x20]);
    let (parameters, enable) = Controller::scan_start(false);
    assert_eq!((parameters[0], enable[0]), (0x0B, 0x0C));
    controller.set_extended_scan(false);
    controller.set_supervision_timeout(50);
    let floor = controller.connection_request(peer, 0);
    controller.set_supervision_timeout(100);
    assert_eq!(floor, controller.connection_request(peer, 0), "100 ms is the least");
    controller.set_supervision_timeout(2_000);
    assert_ne!(floor, controller.connection_request(peer, 0));
}

#[test]
fn outcomes_are_read_from_their_events() {
    let mut params = vec![0x01, 0x00, 0x40, 0x00, 0x00, 0x00, 1, 2, 3, 4, 5, 6];
    params.extend_from_slice(&[0; 7]);
    let connected = event(0x3E, &params);
    assert!(answers_connection(&connected, &BdAddr([1, 2, 3, 4, 5, 6])));
    assert!(!answers_connection(&connected, &BdAddr([9; 6])));
    assert_eq!(connection_outcome(Some(&connected)).unwrap(), Some(0x40));
    assert_eq!(connection_outcome(None).unwrap(), None);
    params[1] = 0x3E;
    assert_eq!(
        connection_outcome(Some(&event(0x3E, &params))).unwrap_err().to_string(),
        "controller rejected command 0x2043 with status 0x3e (connection failed to be established)"
    );

    let encrypted = event(0x08, &[0x00, 0x40, 0x00, 0x01]);
    assert!(answers_encryption(&encrypted, 0x40) && !answers_encryption(&encrypted, 0x41));
    assert!(encryption_outcome(Some(&encrypted)).unwrap());
    assert_eq!(
        encryption_outcome(Some(&event(0x08, &[0x06, 0x40, 0x00, 0x00]))).unwrap_err().to_string(),
        "encryption failed with status 0x06"
    );
    let gone = event(0x05, &[0, 0x40, 0, 0x08]);
    assert!(answers_encryption(&gone, 0x40));
    assert_eq!(
        encryption_outcome(Some(&gone)).unwrap_err().to_string(),
        "connection ended during encryption (reason 0x08)"
    );
    assert!(matches!(encryption_outcome(None), Err(ControllerError::EventTimeout)));
    assert!(matches!(
        encryption_outcome(Some(&event(0x0E, &[]))),
        Err(ControllerError::MalformedEvent)
    ));
}

#[test]
fn every_failure_has_a_line() {

    assert_eq!(ControllerError::Transport("t".into()).to_string(), "t");
    assert_eq!(ControllerError::Unsafe("u".into()).to_string(), "u");
    assert_eq!(ControllerError::NoResponse(0x1001).to_string(), "no response to command 0x1001");
    assert_eq!(ControllerError::MalformedEvent.to_string(), "malformed event from controller");
    assert_eq!(
        Controller::receive_failure(&LinkError::Closed, true).to_string(),
        "USB event reader has stopped"
    );
    let timeout = LinkError::Timeout(5_000);
    assert_eq!(
        Controller::receive_failure(&timeout, true).to_string(),
        "controller did not send anything in time - is firmware loaded?"
    );
    assert_eq!(
        Controller::receive_failure(&timeout, false).to_string(),
        "USB event reader has stopped"
    );
}

#[test]
fn names_that_are_no_text_are_left_out() {
    let mut params = vec![0x02, 0x01, 0x00, 0x00, 1, 2, 3, 4, 5, 6];
    params.extend_from_slice(&[4, 3, 0x09, 0xFF, 0xFE, 0xC0]);
    let devices = devices_in(&event(0x3E, &params));
    assert_eq!(devices.len(), 1);
    assert_eq!(devices[0].name, None);
    assert_eq!(devices[0].display_name(), "06:05:04:03:02:01");
    assert!(devices_in(&event(0x0E, &params)).is_empty());
}

#[test]
fn a_vendor_command_never_reaches_the_controller() {
    assert_eq!(checked_opcode(&[0x03, 0x0C, 0x00]).unwrap(), 0x0C03);
    assert_eq!(checked_opcode(&[0xFF, 0xFB, 0x00]).unwrap(), 0xFBFF);
    assert_eq!(
        checked_opcode(&[0x01, 0xFC, 0x00]).unwrap_err().to_string(),
        "vendor-specific command 0xfc01 is blocked"
    );
    assert!(matches!(checked_opcode(&[0x03]), Err(ControllerError::MalformedEvent)));
}
