//! Controller session: the decisions of the command/event loop every other layer
//! sits on.
//!
//! Which event answers a command, which events are kept while another is waited
//! for, what a scan reports, and what a connection attempt came to. The code
//! that owns the adapter sends the packets and measures the time.

use crate::bap::{ltv_items, Ltv};
use crate::bytes::{copy_bytes, le16, lemma_u16_round_trip, range, read_u16, tail, u16_at};
use crate::hci;
use crate::hci::{
    command_packet, completed_packets, connection_result_of, disconnection_of, evt, flag,
    full_mask, op, parse_disconnection_complete, parse_encryption_result,
    parse_number_of_completed_packets, permitted_supervision, read_address, subevent_of, subevt,
    BdAddr, Event, LocalVersion,
};
use crate::link::{
    event_view, event_views, is_loss, last_loss, loss_place, loss_reason, without_losses,
    EventQueue, LinkError,
};
use crate::text::{decode_text, hex, push_hex};
use vstd::prelude::*;
use vstd::string::*;
use vstd::utf8::{decode_utf8, valid_utf8};

verus! {

/// How long to wait for a controller to answer a command, in milliseconds.
///
/// A controller that is powered but has no firmware loaded enumerates fine and
/// then says nothing at all, so every read needs a deadline. Without one the
/// stack hangs instead of reporting the problem.
pub const COMMAND_TIMEOUT: u64 = 5_000;

/// The host feature bit for connected isochronous streams.
pub const CONNECTED_ISOCHRONOUS_STREAMS: u8 = 32;

/// Why a step with the controller failed.
#[derive(Debug)]
pub enum ControllerError {
    Transport(String),
    CommandFailed { opcode: u16, status: u8 },
    NoResponse(u16),
    LeAudioUnsupported { version: &'static str },
    MalformedEvent,
    Unsafe(String),
    EventTimeout,
    ReaderStopped,
    EncryptionRejected { status: u8 },
    Disconnected { reason: u8 },
}

/// The text that reports a `ControllerError`.
pub open spec fn controller_error_text(error: ControllerError) -> Seq<char> {
    match error {
        ControllerError::Transport(what) => what@,
        ControllerError::CommandFailed { opcode, status } => "controller rejected command 0x"@
            + hex(opcode as nat, 4) + " with status 0x"@ + hex(status as nat, 2) + " ("@
            + status_text(status) + ")"@,
        ControllerError::NoResponse(opcode) => "no response to command 0x"@ + hex(opcode as nat, 4),
        ControllerError::LeAudioUnsupported { version } => "controller reports Bluetooth "@
            + version@ + ", but LE Audio needs 5.2 or newer"@,
        ControllerError::MalformedEvent => "malformed event from controller"@,
        ControllerError::Unsafe(what) => what@,
        ControllerError::EventTimeout =>
            "controller did not send anything in time - is firmware loaded?"@,
        ControllerError::ReaderStopped => "USB event reader has stopped"@,
        ControllerError::EncryptionRejected { status } => "encryption failed with status 0x"@ + hex(
            status as nat,
            2,
        ),
        ControllerError::Disconnected { reason } =>
            "connection ended during encryption (reason 0x"@ + hex(reason as nat, 2) + ")"@,
    }
}

impl ControllerError {
    /// One line that says what went wrong.
    pub fn to_string(&self) -> (text: String)
        ensures
            text@ == controller_error_text(*self),
    {
        match self {
            ControllerError::Transport(what) => what.clone(),
            ControllerError::CommandFailed { opcode, status } => {
                let mut text = String::from_str("controller rejected command 0x");
                push_hex(&mut text, *opcode as u64, 4);
                text.append(" with status 0x");
                push_hex(&mut text, *status as u64, 2);
                text.append(" (");
                text.append(status_name(*status));
                text.append(")");
                text
            },
            ControllerError::NoResponse(opcode) => {
                let mut text = String::from_str("no response to command 0x");
                push_hex(&mut text, *opcode as u64, 4);
                text
            },
            ControllerError::LeAudioUnsupported { version } => {
                let mut text = String::from_str("controller reports Bluetooth ");
                text.append(version);
                text.append(", but LE Audio needs 5.2 or newer");
                text
            },
            ControllerError::MalformedEvent => String::from_str("malformed event from controller"),
            ControllerError::Unsafe(what) => what.clone(),
            ControllerError::EventTimeout => String::from_str(
                "controller did not send anything in time - is firmware loaded?",
            ),
            ControllerError::ReaderStopped => String::from_str("USB event reader has stopped"),
            ControllerError::EncryptionRejected { status } => {
                let mut text = String::from_str("encryption failed with status 0x");
                push_hex(&mut text, *status as u64, 2);
                text
            },
            ControllerError::Disconnected { reason } => {
                let mut text = String::from_str("connection ended during encryption (reason 0x");
                push_hex(&mut text, *reason as u64, 2);
                text.append(")");
                text
            },
        }
    }
}

/// The name of an HCI error code.
pub open spec fn status_text(status: u8) -> Seq<char> {
    match status {
        0x00 => "success"@,
        0x01 => "unknown command"@,
        0x02 => "unknown connection identifier"@,
        0x0C => "command disallowed"@,
        0x11 => "unsupported feature or parameter"@,
        0x12 => "invalid command parameters"@,
        0x1F => "unspecified error"@,
        0x3E => "connection failed to be established"@,
        0x42 => "unacceptable connection parameters"@,
        _ => "see Core spec Part D"@,
    }
}

/// Human-readable name for the common HCI error codes.
pub fn status_name(status: u8) -> (name: &'static str)
    ensures
        name@ == status_text(status),
{
    match status {
        0x00 => "success",
        0x01 => "unknown command",
        0x02 => "unknown connection identifier",
        0x0C => "command disallowed",
        0x11 => "unsupported feature or parameter",
        0x12 => "invalid command parameters",
        0x1F => "unspecified error",
        0x3E => "connection failed to be established",
        0x42 => "unacceptable connection parameters",
        _ => "see Core spec Part D",
    }
}

// ---- Advertisements ----

/// One device seen while scanning.
#[derive(Debug)]
pub struct DiscoveredDevice {
    pub address: BdAddr,
    pub address_type: u8,
    pub rssi: i8,
    pub name: Option<String>,
    pub appearance: Option<u16>,
    pub service_uuids: Vec<u16>,
}

/// What a device said about itself.
#[verifier::ext_equal]
pub struct Advertised {
    pub address: Seq<u8>,
    pub address_type: u8,
    pub rssi: i8,
    pub name: Option<Seq<char>>,
    pub appearance: Option<u16>,
    pub services: Seq<u16>,
}

impl View for DiscoveredDevice {
    type V = Advertised;

    open spec fn view(&self) -> Advertised {
        Advertised {
            address: self.address.0@,
            address_type: self.address_type,
            rssi: self.rssi,
            name: match self.name {
                Some(name) => Some(name@),
                None => None,
            },
            appearance: self.appearance,
            services: self.service_uuids@,
        }
    }
}

/// What several devices said about themselves.
pub open spec fn device_views(devices: Seq<DiscoveredDevice>) -> Seq<Advertised> {
    Seq::new(devices.len(), |i: int| devices[i]@)
}

/// Whether a 16-bit service belongs to LE Audio: PACS, ASCS, CAS or TMAS.
pub open spec fn is_audio_service(uuid: u16) -> bool {
    uuid == 0x1850 || uuid == 0x184E || uuid == 0x1853 || uuid == 0x1855
}

impl Clone for DiscoveredDevice {
    fn clone(&self) -> (copy: Self)
        ensures
            copy@ == self@,
    {
        let mut service_uuids: Vec<u16> = Vec::new();
        let mut i: usize = 0;
        while i < self.service_uuids.len()
            invariant
                i <= self.service_uuids@.len(),
                service_uuids@ =~= self.service_uuids@.take(i as int),
            decreases self.service_uuids@.len() - i,
        {
            service_uuids.push(self.service_uuids[i]);
            i = i + 1;
        }
        assert(service_uuids@ =~= self.service_uuids@);
        DiscoveredDevice {
            address: self.address,
            address_type: self.address_type,
            rssi: self.rssi,
            name: match &self.name {
                Some(name) => Some(name.clone()),
                None => None,
            },
            appearance: self.appearance,
            service_uuids,
        }
    }
}

impl DiscoveredDevice {
    /// A name to show a person, falling back to the address.
    ///
    /// Plenty of devices never put a name in their advertisement, and a blank
    /// row in a device list is worse than a hexadecimal one.
    pub fn display_name(&self) -> (name: String)
        ensures
            name@ == match self@.name {
                Some(own) => own,
                None => hci::address_text(self@.address),
            },
    {
        match &self.name {
            Some(name) => name.clone(),
            None => self.address.to_string(),
        }
    }

    /// True when the advertisement carries an LE Audio service, which is how a
    /// device announces it can do BAP rather than plain BLE.
    pub fn is_le_audio(&self) -> (yes: bool)
        ensures
            yes == exists|i: int|
                0 <= i < self@.services.len() && is_audio_service(#[trigger] self@.services[i]),
    {
        let mut i: usize = 0;
        while i < self.service_uuids.len()
            invariant
                i <= self.service_uuids@.len(),
                forall|j: int| 0 <= j < i ==> !is_audio_service(#[trigger] self.service_uuids@[j]),
            decreases self.service_uuids@.len() - i,
        {
            let uuid = self.service_uuids[i];
            if uuid == 0x1850 || uuid == 0x184E || uuid == 0x1853 || uuid == 0x1855 {
                assert(is_audio_service(self@.services[i as int]));
                return true;
            }
            i = i + 1;
        }
        false
    }
}

/// The 16-bit values in a list, one after the other. A trailing byte is left out.
pub open spec fn short_uuids(value: Seq<u8>) -> Seq<u16>
    decreases value.len(),
{
    if value.len() < 2 {
        Seq::empty()
    } else {
        seq![u16_at(value, 0)] + short_uuids(value.skip(2))
    }
}

/// The device after one structure of its advertising data.
pub open spec fn with_structure(device: Advertised, item: (u8, Seq<u8>)) -> Advertised {
    let (kind, value) = item;
    if (kind == 0x08 || kind == 0x09) && valid_utf8(value) {
        Advertised { name: Some(decode_utf8(value)), ..device }
    } else if kind == 0x02 || kind == 0x03 {
        Advertised { services: device.services + short_uuids(value), ..device }
    } else if kind == 0x19 && value.len() >= 2 {
        Advertised { appearance: Some(u16_at(value, 0)), ..device }
    } else {
        device
    }
}

/// The device after several structures.
pub open spec fn with_structures(device: Advertised, items: Seq<(u8, Seq<u8>)>) -> Advertised
    decreases items.len(),
{
    if items.len() == 0 {
        device
    } else {
        with_structure(with_structures(device, items.drop_last()), items.last())
    }
}

/// Walks the length-type-value structures inside advertising data.
pub fn apply_advertising_data(device: &mut DiscoveredDevice, data: &[u8])
    ensures
        final(device)@ == with_structures(old(device)@, ltv_items(data@)),
{
    let items = Ltv::decode(data);
    let ghost all = Ltv::items(items@);
    let ghost before = device@;
    let mut i: usize = 0;
    assert(all.take(0) =~= Seq::<(u8, Seq<u8>)>::empty());
    while i < items.len()
        invariant
            i <= items@.len(),
            all == Ltv::items(items@),
            device@ == with_structures(before, all.take(i as int)),
        decreases items@.len() - i,
    {
        let item = &items[i];
        let ghost now = device@;
        proof {
            assert(all.take(i + 1).drop_last() =~= all.take(i as int));
            assert(all.take(i + 1).last() == (item.kind, item.value@));
        }
        if item.kind == 0x08 || item.kind == 0x09 {
            // Complete or shortened local name.
            if let Some(name) = decode_text(&item.value) {
                device.name = Some(name);
            }
        } else if item.kind == 0x02 || item.kind == 0x03 {
            // Incomplete or complete list of 16-bit service UUIDs.
            push_uuids(&mut device.service_uuids, &item.value);
        } else if item.kind == 0x19 {
            if item.value.len() >= 2 {
                device.appearance = Some(read_u16(&item.value, 0));
            }
        }
        assert(device@ =~= with_structure(now, (item.kind, item.value@)));
        i = i + 1;
    }
    assert(all.take(i as int) =~= all);
}

fn push_uuids(uuids: &mut Vec<u16>, value: &[u8])
    ensures
        final(uuids)@ == old(uuids)@ + short_uuids(value@),
{
    let mut at: usize = 0;
    let ghost before = uuids@;
    assert(value@.skip(0) =~= value@);
    assert(before + short_uuids(value@) =~= uuids@ + short_uuids(value@.skip(0)));
    while value.len() - at >= 2
        invariant
            at <= value@.len(),
            uuids@ + short_uuids(value@.skip(at as int)) == before + short_uuids(value@),
        decreases value@.len() - at,
    {
        let uuid = read_u16(value, at);
        proof {
            let rest = value@.skip(at as int);
            assert(rest.skip(2) =~= value@.skip(at + 2));
            assert(u16_at(rest, 0) == uuid);
            assert(uuids@.push(uuid) + short_uuids(value@.skip(at + 2)) =~= uuids@ + short_uuids(
                rest,
            ));
        }
        uuids.push(uuid);
        at = at + 2;
    }
    assert(uuids@ =~= before + short_uuids(value@));
}

/// A byte as a signed number.
pub open spec fn signed_byte(byte: u8) -> i8 {
    if byte < 128 {
        byte as i8
    } else {
        (byte - 256) as i8
    }
}

fn to_signed(byte: u8) -> (value: i8)
    ensures
        value == signed_byte(byte),
{
    if byte < 128 {
        byte as i8
    } else {
        (byte as i16 - 256) as i8
    }
}

/// A device of which only the address and the signal strength are known.
pub open spec fn unnamed(address: Seq<u8>, address_type: u8, rssi: i8) -> Advertised {
    Advertised {
        address,
        address_type,
        rssi,
        name: None,
        appearance: None,
        services: Seq::empty(),
    }
}

fn unnamed_device(address: BdAddr, address_type: u8, rssi: i8) -> (device: DiscoveredDevice)
    ensures
        device@ == unnamed(address.0@, address_type, rssi),
{
    let device = DiscoveredDevice {
        address,
        address_type,
        rssi,
        name: None,
        appearance: None,
        service_uuids: Vec::new(),
    };
    assert(device@ =~= unnamed(address.0@, address_type, rssi));
    device
}

/// At most `count` legacy reports at the start of `rest`: event type, address
/// type, address, data length, data, signal strength. A report that is not all
/// there ends the list.
pub open spec fn legacy_reports(rest: Seq<u8>, count: nat) -> Seq<Advertised>
    decreases count,
{
    if count == 0 || rest.len() < 9 || rest.len() < 10 + rest[8] {
        Seq::empty()
    } else {
        seq![
            with_structures(
                unnamed(rest.subrange(2, 8), rest[1], signed_byte(rest[9 + rest[8]])),
                ltv_items(rest.subrange(9, 9 + rest[8])),
            ),
        ] + legacy_reports(rest.skip(10 + rest[8]), (count - 1) as nat)
    }
}

/// At most `count` extended reports at the start of `rest`: a header of 24 bytes
/// that ends with the data length, and the data.
pub open spec fn extended_reports(rest: Seq<u8>, count: nat) -> Seq<Advertised>
    decreases count,
{
    if count == 0 || rest.len() < 24 || rest.len() < 24 + rest[23] {
        Seq::empty()
    } else {
        seq![
            with_structures(
                unnamed(rest.subrange(3, 9), rest[2], signed_byte(rest[13])),
                ltv_items(rest.subrange(24, 24 + rest[23])),
            ),
        ] + extended_reports(rest.skip(24 + rest[23]), (count - 1) as nat)
    }
}

/// Parses an LE Extended Advertising Report.
///
/// Same information as the legacy report, but each entry carries a fixed
/// 24-byte header before its data instead of 9, and the RSSI sits inside that
/// header rather than after the payload. Devices using extended advertising
/// appear here and nowhere else.
pub fn parse_extended_advertising_reports(params: &[u8]) -> (devices: Vec<DiscoveredDevice>)
    ensures
        device_views(devices@) == if params@.len() < 2 {
            Seq::empty()
        } else {
            extended_reports(params@.skip(2), params@[1] as nat)
        },
{
    let mut devices: Vec<DiscoveredDevice> = Vec::new();
    assert(device_views(devices@) =~= Seq::<Advertised>::empty());
    if params.len() < 2 {
        return devices;
    }
    let mut left = params[1];
    let mut rest = tail(params, 2);
    let ghost all = extended_reports(params@.skip(2), params@[1] as nat);
    assert(device_views(devices@) + extended_reports(rest@, left as nat) =~= all);
    while left > 0 && rest.len() >= 24 && rest.len() - 24 >= rest[23] as usize
        invariant
            device_views(devices@) + extended_reports(rest@, left as nat) == all,
        decreases left,
    {
        let data_len = rest[23] as usize;
        let mut device = unnamed_device(read_address(rest, 3), rest[2], to_signed(rest[13]));
        apply_advertising_data(&mut device, range(rest, 24, 24 + data_len));
        let ghost held = device_views(devices@);
        let ghost shown = device@;
        devices.push(device);
        let next = tail(rest, 24 + data_len);
        proof {
            assert(device_views(devices@) =~= held.push(shown));
            assert(rest@.subrange(24, 24 + data_len as int) =~= rest@.subrange(24, 24 + rest@[23]));
            assert(held.push(shown) + extended_reports(next@, (left - 1) as nat) =~= held
                + extended_reports(rest@, left as nat));
        }
        rest = next;
        left = left - 1;
    }
    assert(extended_reports(rest@, left as nat) =~= Seq::<Advertised>::empty());
    assert(device_views(devices@) =~= all);
    devices
}

/// Parses an LE Advertising Report, which can carry several devices at once.
pub fn parse_advertising_reports(params: &[u8]) -> (devices: Vec<DiscoveredDevice>)
    ensures
        device_views(devices@) == if params@.len() < 2 {
            Seq::empty()
        } else {
            legacy_reports(params@.skip(2), params@[1] as nat)
        },
{
    let mut devices: Vec<DiscoveredDevice> = Vec::new();
    assert(device_views(devices@) =~= Seq::<Advertised>::empty());
    if params.len() < 2 {
        return devices;
    }
    let mut left = params[1];
    let mut rest = tail(params, 2);
    let ghost all = legacy_reports(params@.skip(2), params@[1] as nat);
    assert(device_views(devices@) + legacy_reports(rest@, left as nat) =~= all);
    while left > 0 && rest.len() >= 10 && rest.len() - 10 >= rest[8] as usize
        invariant
            device_views(devices@) + legacy_reports(rest@, left as nat) == all,
        decreases left,
    {
        let data_len = rest[8] as usize;
        let mut device = unnamed_device(
            read_address(rest, 2),
            rest[1],
            to_signed(rest[9 + data_len]),
        );
        apply_advertising_data(&mut device, range(rest, 9, 9 + data_len));
        let ghost held = device_views(devices@);
        let ghost shown = device@;
        devices.push(device);
        let next = tail(rest, 10 + data_len);
        proof {
            assert(device_views(devices@) =~= held.push(shown));
            assert(rest@.subrange(9, 9 + data_len as int) =~= rest@.subrange(9, 9 + rest@[8]));
            assert(held.push(shown) + legacy_reports(next@, (left - 1) as nat) =~= held
                + legacy_reports(rest@, left as nat));
        }
        rest = next;
        left = left - 1;
    }
    assert(legacy_reports(rest@, left as nat) =~= Seq::<Advertised>::empty());
    assert(device_views(devices@) =~= all);
    devices
}

/// The devices an event reports: none unless it is an advertising report.
pub open spec fn reported_devices(code: u8, params: Seq<u8>) -> Seq<Advertised> {
    if params.len() < 2 {
        Seq::empty()
    } else if subevent_of(code, params) == Some(subevt::ADVERTISING_REPORT) {
        legacy_reports(params.skip(2), params[1] as nat)
    } else if subevent_of(code, params) == Some(subevt::EXTENDED_ADVERTISING_REPORT) {
        extended_reports(params.skip(2), params[1] as nat)
    } else {
        Seq::empty()
    }
}

/// The devices an event reports.
pub fn devices_in(event: &Event) -> (devices: Vec<DiscoveredDevice>)
    ensures
        device_views(devices@) == reported_devices(event.code, event.params@),
{
    match event.subevent() {
        Some(code) => {
            if code == subevt::ADVERTISING_REPORT {
                return parse_advertising_reports(&event.params);
            }
            if code == subevt::EXTENDED_ADVERTISING_REPORT {
                return parse_extended_advertising_reports(&event.params);
            }
        },
        None => {},
    }
    let devices: Vec<DiscoveredDevice> = Vec::new();
    assert(device_views(devices@) =~= Seq::<Advertised>::empty());
    devices
}

/// Extended advertising carries the same information as the legacy form: one
/// report each of the same address, strength and data yields the same device.
pub proof fn both_forms_report_the_same_device(
    address: Seq<u8>,
    address_type: u8,
    rssi: u8,
    data: Seq<u8>,
    legacy_type: u8,
    extended_type: Seq<u8>,
    phys: Seq<u8>,
    periodic: Seq<u8>,
)
    requires
        address.len() == 6,
        data.len() < 256,
        extended_type.len() == 2,
        phys.len() == 4,
        periodic.len() == 9,
    ensures
        legacy_reports(
            seq![legacy_type, address_type] + address + seq![data.len() as u8] + data + seq![rssi],
            1,
        ) == extended_reports(
            extended_type + seq![address_type] + address + phys + seq![rssi] + periodic
                + seq![data.len() as u8] + data,
            1,
        ),
{
    let legacy = seq![legacy_type, address_type] + address + seq![data.len() as u8] + data
        + seq![rssi];
    let extended = extended_type + seq![address_type] + address + phys + seq![rssi] + periodic
        + seq![data.len() as u8] + data;
    let n = data.len() as int;
    assert(legacy[8] == n);
    assert(legacy[9 + n] == rssi);
    assert(legacy.subrange(2, 8) =~= address);
    assert(legacy.subrange(9, 9 + n) =~= data);
    assert(extended[2] == address_type);
    assert(extended[13] == rssi);
    assert(extended[23] == n);
    assert(extended.subrange(3, 9) =~= address);
    assert(extended.subrange(24, 24 + n) =~= data);
    assert(legacy_reports(legacy.skip(10 + n), 0) =~= Seq::<Advertised>::empty());
    assert(extended_reports(extended.skip(24 + n), 0) =~= Seq::<Advertised>::empty());
    reveal_with_fuel(legacy_reports, 2);
    reveal_with_fuel(extended_reports, 2);
    assert(legacy_reports(legacy, 1) =~= extended_reports(extended, 1));
}

// ---- Commands and events ----

/// What an event says about the command `opcode`: nothing, or its return
/// parameters, or the status it failed with.
pub enum Answer {
    Silent,
    Done(Seq<u8>),
    Failed(u8),
}

/// Whether an opcode belongs to the group that vendors define for themselves.
pub open spec fn is_vendor_specific(opcode: u16) -> bool {
    opcode / 1024 == 0x3F
}

/// The opcode of a command that may be sent.
///
/// Vendor-specific opcodes are where firmware flashing lives, and nothing in
/// this stack has a reason to send one, so they are refused before they reach
/// the controller.
pub fn checked_opcode(packet: &[u8]) -> (opcode: Result<u16, ControllerError>)
    ensures
        if packet@.len() < 2 {
            opcode == Err::<u16, ControllerError>(ControllerError::MalformedEvent)
        } else if is_vendor_specific(u16_at(packet@, 0)) {
            opcode matches Err(ControllerError::Unsafe(text)) && text@
                == "vendor-specific command 0x"@ + hex(u16_at(packet@, 0) as nat, 4)
                + " is blocked"@
        } else {
            opcode == Ok::<u16, ControllerError>(u16_at(packet@, 0))
        },
{
    if packet.len() < 2 {
        return Err(ControllerError::MalformedEvent);
    }
    let opcode = read_u16(packet, 0);
    if opcode / 1024 == 0x3F {
        let mut text = String::from_str("vendor-specific command 0x");
        push_hex(&mut text, opcode as u64, 4);
        text.append(" is blocked");
        return Err(ControllerError::Unsafe(text));
    }
    Ok(opcode)
}

/// Of the commands that can be built, those of the vendors' group are blocked
/// and no others, whatever their parameters are.
pub proof fn only_vendor_commands_are_blocked(ogf: u16, ocf: u16, params: Seq<u8>)
    requires
        ogf < 64,
        ocf < 1024,
    ensures
        is_vendor_specific(
            u16_at(command_packet(hci::opcode_value(ogf, ocf), params), 0),
        ) == (ogf == 0x3F),
{
    let opcode = hci::opcode_value(ogf, ocf);
    let packet = command_packet(opcode, params);
    assert(packet[0] == le16(opcode)[0] && packet[1] == le16(opcode)[1]);
    lemma_u16_round_trip(opcode);
    assert(u16_at(packet, 0) == opcode);
}

/// What an event says about the command `opcode`.
pub open spec fn answer_of(code: u8, params: Seq<u8>, opcode: u16) -> Answer {
    if code == evt::COMMAND_COMPLETE && params.len() >= 3 && u16_at(params, 1) == opcode {
        if params.len() == 3 || params[3] == 0x00 {
            Answer::Done(params.skip(3))
        } else {
            Answer::Failed(params[3])
        }
    } else if code == evt::COMMAND_STATUS && params.len() >= 4 && u16_at(params, 2) == opcode {
        if params[0] == 0x00 {
            Answer::Done(Seq::empty())
        } else {
            Answer::Failed(params[0])
        }
    } else {
        Answer::Silent
    }
}

/// Whether an event acknowledges the command `opcode`, and with what.
pub fn command_answer(event: &Event, opcode: u16) -> (answer: Option<
    Result<Vec<u8>, ControllerError>,
>)
    ensures
        match answer_of(event.code, event.params@, opcode) {
            Answer::Silent => answer is None,
            Answer::Done(params) => answer matches Some(Ok(p)) && p@ == params,
            Answer::Failed(status) => answer == Some::<Result<Vec<u8>, ControllerError>>(
                Err(ControllerError::CommandFailed { opcode, status }),
            ),
        },
{
    if let Some((completed, params)) = event.command_complete() {
        if completed == opcode {
            if params.len() == 0 || params[0] == 0x00 {
                return Some(Ok(copy_bytes(params)));
            }
            return Some(Err(ControllerError::CommandFailed { opcode, status: params[0] }));
        }
    }
    if let Some((status, pending)) = event.command_status() {
        if pending == opcode {
            if status == 0x00 {
                return Some(Ok(Vec::new()));
            }
            return Some(Err(ControllerError::CommandFailed { opcode, status }));
        }
    }
    None
}

/// Whether an event is one of those that arrive continuously and carry nothing
/// worth keeping.
pub open spec fn is_bulk(event: (u8, Seq<u8>)) -> bool {
    ||| completed_packets(event.0, event.1).len() > 0
    ||| subevent_of(event.0, event.1) == Some(subevt::ADVERTISING_REPORT)
    ||| subevent_of(event.0, event.1) == Some(subevt::EXTENDED_ADVERTISING_REPORT)
}

/// Events that arrive continuously and carry nothing worth keeping.
///
/// Advertising reports appear by the hundred while scanning and every one of
/// them is stale a moment later. Completed-packet counts are produced by every
/// packet the host sends. Queueing either would grow without bound.
pub fn is_bulk_event(event: &Event) -> (yes: bool)
    ensures
        yes == is_bulk(event_view(*event)),
{
    let reports = parse_number_of_completed_packets(event);
    if reports.len() > 0 {
        return true;
    }
    match event.subevent() {
        Some(code) => code == subevt::ADVERTISING_REPORT || code
            == subevt::EXTENDED_ADVERTISING_REPORT,
        None => false,
    }
}

/// What is kept once an event has gone by: the event too, unless it is bulk.
pub open spec fn passed(kept: Seq<(u8, Seq<u8>)>, event: (u8, Seq<u8>)) -> Seq<(u8, Seq<u8>)> {
    if is_bulk(event) {
        kept
    } else {
        kept.push(event)
    }
}

/// What is kept of the events that go by during one wait, in order.
pub open spec fn kept_events(events: Seq<(u8, Seq<u8>)>) -> Seq<(u8, Seq<u8>)>
    decreases events.len(),
{
    if events.len() == 0 {
        Seq::empty()
    } else {
        passed(kept_events(events.drop_last()), events.last())
    }
}

/// The events that went by while another was waited for.
///
/// Events that do not match are kept, except the two kinds that arrive in bulk
/// and mean nothing later. The one that matters most is Disconnection Complete:
/// waiting for an isochronous channel that never comes up is exactly when the
/// peer is most likely to drop the ACL link.
pub struct EventWait {
    keep: Vec<Event>,
}

impl View for EventWait {
    type V = Seq<(u8, Seq<u8>)>;

    closed spec fn view(&self) -> Seq<(u8, Seq<u8>)> {
        event_views(self.keep@)
    }
}

impl EventWait {
    pub fn new() -> (wait: Self)
        ensures
            wait@ == Seq::<(u8, Seq<u8>)>::empty(),
    {
        let wait = EventWait { keep: Vec::new() };
        assert(wait@ =~= Seq::<(u8, Seq<u8>)>::empty());
        wait
    }

    /// Notes an event that was not the one waited for.
    pub fn pass(&mut self, event: Event)
        ensures
            final(self)@ == passed(old(self)@, event_view(event)),
    {
        if !is_bulk_event(&event) {
            let ghost held = self@;
            let ghost shown = event_view(event);
            self.keep.push(event);
            assert(self@ =~= held.push(shown));
        }
    }

    /// Puts what was kept back in front of what has arrived since, whether the
    /// wait ended with its event, with an error or with neither.
    pub fn finish(self, queue: &mut EventQueue)
        ensures
            final(queue)@ == self@ + old(queue)@,
    {
        queue.put_back_events(self.keep);
    }
}

/// Waiting loses no event worth keeping: one that is not bulk stays among those
/// kept, whatever comes after it.
pub proof fn waiting_keeps_what_matters(events: Seq<(u8, Seq<u8>)>, i: int)
    requires
        0 <= i < events.len(),
        !is_bulk(events[i]),
    ensures
        kept_events(events).contains(events[i]),
    decreases events.len(),
{
    let rest = events.drop_last();
    let before = kept_events(rest);
    if i == events.len() - 1 {
        assert(kept_events(events) == before.push(events.last()));
        assert(before.push(events.last())[before.len() as int] == events[i]);
    } else {
        waiting_keeps_what_matters(rest, i);
        assert(rest[i] == events[i]);
        let at = choose|k: int| 0 <= k < before.len() && before[k] == events[i];
        if !is_bulk(events.last()) {
            assert(kept_events(events)[at] == before[at]);
        }
    }
}

/// A disconnection is never bulk, so no wait can lose the notice that a link
/// has ended.
pub proof fn a_disconnection_is_never_bulk(event: (u8, Seq<u8>), handle: u16)
    requires
        is_loss(event, handle),
    ensures
        !is_bulk(event),
{
}

/// What the controller session remembers.
#[verifier::ext_equal]
pub struct Session {
    pub queued: Seq<(u8, Seq<u8>)>,
    pub version: Option<LocalVersion>,
    pub address: Option<Seq<u8>>,
    pub extended_scan: bool,
    /// In units of 10 ms.
    pub supervision_timeout: u16,
}

impl Session {
    /// The request for a connection, in the generation used for scanning.
    pub open spec fn request_for(self, peer: Seq<u8>, address_type: u8) -> Seq<u8> {
        if self.extended_scan {
            hci::extended_connection_packet(peer, address_type, self.supervision_timeout)
        } else {
            hci::connection_packet(peer, address_type, self.supervision_timeout)
        }
    }
}

/// A number of milliseconds as a supervision timeout.
pub open spec fn patience(timeout_ms: u64) -> u16 {
    permitted_supervision(
        if timeout_ms / 10 < 1 {
            1
        } else if timeout_ms / 10 > 0xFFFF {
            0xFFFF
        } else {
            (timeout_ms / 10) as u16
        },
    )
}

/// How often initialisation asks the controller something.
pub const INIT_STEPS: u8 = 7;

/// The command of each step of initialisation.
pub open spec fn init_command(step: u8) -> Seq<u8> {
    if step == 0 {
        command_packet(op::RESET, Seq::empty())
    } else if step == 1 {
        command_packet(op::READ_LOCAL_VERSION, Seq::empty())
    } else if step == 2 {
        command_packet(op::READ_BD_ADDR, Seq::empty())
    } else if step == 3 {
        command_packet(op::SET_EVENT_MASK, full_mask())
    } else if step == 4 {
        command_packet(op::LE_SET_EVENT_MASK, full_mask())
    } else if step == 5 {
        command_packet(op::WRITE_LE_HOST_SUPPORTED, seq![0x01u8, 0x00u8])
    } else {
        command_packet(op::LE_SET_HOST_FEATURE, seq![CONNECTED_ISOCHRONOUS_STREAMS, flag(true)])
    }
}

/// The decisions of one controller session.
pub struct Controller {
    queued_events: EventQueue,
    pub local_version: Option<LocalVersion>,
    pub local_address: Option<BdAddr>,
    /// Whether the last scan used the extended commands, which decides how a
    /// connection must be requested afterwards.
    extended_scan: bool,
    /// How long the link may go unheard before the controller declares it lost,
    /// in units of 10 ms.
    supervision_timeout: u16,
}

impl View for Controller {
    type V = Session;

    closed spec fn view(&self) -> Session {
        Session {
            queued: self.queued_events@,
            version: self.local_version,
            address: match self.local_address {
                Some(address) => Some(address.0@),
                None => None,
            },
            extended_scan: self.extended_scan,
            supervision_timeout: self.supervision_timeout,
        }
    }
}

impl Controller {
    pub fn new() -> (controller: Self)
        ensures
            controller@ == (Session {
                queued: Seq::empty(),
                version: None,
                address: None,
                extended_scan: false,
                supervision_timeout: 0x03E8,
            }),
    {
        Controller {
            queued_events: EventQueue::new(),
            local_version: None,
            local_address: None,
            extended_scan: false,
            supervision_timeout: 0x03E8,  // 10 s
        }
    }

    /// The command of one step of initialisation.
    ///
    /// The adapter was already initialised by its previous driver, so this is a
    /// clean reset rather than a firmware load. CIS cannot be created until the
    /// host feature bit is set.
    pub fn init_packet(step: u8) -> (packet: Vec<u8>)
        requires
            step < INIT_STEPS,
        ensures
            packet@ == init_command(step),
    {
        if step == 0 {
            hci::reset()
        } else if step == 1 {
            hci::read_local_version()
        } else if step == 2 {
            hci::read_bd_addr()
        } else if step == 3 {
            hci::set_event_mask()
        } else if step == 4 {
            hci::le_set_event_mask()
        } else if step == 5 {
            hci::write_le_host_supported()
        } else {
            hci::le_set_host_feature(CONNECTED_ISOCHRONOUS_STREAMS, true)
        }
    }

    /// Takes what the controller returned for one step, and confirms with it
    /// that it can do LE Audio. An error ends initialisation.
    pub fn take_init(&mut self, step: u8, params: &[u8]) -> (taken: Result<(), ControllerError>)
        requires
            step < INIT_STEPS,
        ensures
            if step == 1 {
                match LocalVersion::read(params@) {
                    None => taken == Err::<(), ControllerError>(ControllerError::MalformedEvent)
                        && final(self)@ == old(self)@,
                    Some(version) => if !version.has_channels() {
                        &&& taken matches Err(ControllerError::LeAudioUnsupported { version: name })
                        &&& name@ == hci::core_version(version.lmp_version)
                        &&& final(self)@ == old(self)@
                    } else {
                        taken is Ok && final(self)@ == (Session {
                            version: Some(version),
                            ..old(self)@
                        })
                    },
                }
            } else if step == 2 && params@.len() >= 7 {
                taken is Ok && final(self)@ == (Session {
                    address: Some(params@.subrange(1, 7)),
                    ..old(self)@
                })
            } else {
                taken is Ok && final(self)@ == old(self)@
            },
    {
        if step == 1 {
            let version = match LocalVersion::parse(params) {
                Some(version) => version,
                None => return Err(ControllerError::MalformedEvent),
            };
            if !version.supports_le_audio() {
                return Err(
                    ControllerError::LeAudioUnsupported { version: version.bluetooth_version() },
                );
            }
            self.local_version = Some(version);
        } else if step == 2 && params.len() >= 7 {
            self.local_address = Some(read_address(params, 1));
        }
        Ok(())
    }

    /// Keeps an event that did not answer the command in flight, so that an
    /// advertising report arriving mid-command is not thrown away.
    pub fn hold_event(&mut self, event: Event)
        ensures
            final(self)@ == (Session {
                queued: old(self)@.queued.push(event_view(event)),
                ..old(self)@
            }),
    {
        self.queued_events.push(event);
    }

    /// Find a pending ACL disconnect without consuming other connections' events.
    ///
    /// Those queued while a command was in flight come first; only when none of
    /// them reports the end are those that `arrived` since looked at.
    pub fn take_disconnection_reason(&mut self, arrived: &mut EventQueue, handle: u16) -> (reason:
        Option<u8>)
        ensures
            ({
                let at = loss_place(old(self)@.queued, handle);
                if at < old(self)@.queued.len() {
                    &&& reason == Some(loss_reason(old(self)@.queued[at]))
                    &&& final(self)@ == (Session {
                        queued: old(self)@.queued.remove(at),
                        ..old(self)@
                    })
                    &&& final(arrived)@ == old(arrived)@
                } else {
                    &&& reason == last_loss(old(arrived)@, handle)
                    &&& final(self)@ == old(self)@
                    &&& final(arrived)@ == without_losses(old(arrived)@, handle)
                }
            }),
    {
        let queued = self.queued_events.take_loss(handle);
        if queued.is_some() {
            return queued;
        }
        arrived.take_all_losses(handle)
    }

    /// Next event, preferring ones queued while a command was in flight. `None`
    /// means that one has to be waited for.
    pub fn next_queued(&mut self, alive: bool) -> (event: Result<Option<Event>, ControllerError>)
        ensures
            if !alive {
                event == Err::<Option<Event>, ControllerError>(ControllerError::ReaderStopped)
                    && final(self)@ == old(self)@
            } else if old(self)@.queued.len() == 0 {
                event == Ok::<Option<Event>, ControllerError>(None) && final(self)@ == old(self)@
            } else {
                &&& event matches Ok(Some(e))
                &&& event_view(e) == old(self)@.queued[0]
                &&& final(self)@ == (Session { queued: old(self)@.queued.skip(1), ..old(self)@ })
            },
    {
        if !alive {
            return Err(ControllerError::ReaderStopped);
        }
        Ok(self.queued_events.try_recv_event())
    }

    /// What it means that no event could be had.
    pub fn receive_failure(error: &LinkError, alive: bool) -> (failure: ControllerError)
        ensures
            failure == if error is Closed || !alive {
                ControllerError::ReaderStopped
            } else {
                ControllerError::EventTimeout
            },
    {
        match error {
            LinkError::Closed => ControllerError::ReaderStopped,
            _ => if !alive {
                ControllerError::ReaderStopped
            } else {
                ControllerError::EventTimeout
            },
        }
    }

    /// Puts the events that a wait kept back in front of the queue.
    pub fn finish_wait(&mut self, wait: EventWait)
        ensures
            final(self)@ == (Session { queued: wait@ + old(self)@.queued, ..old(self)@ }),
    {
        wait.finish(&mut self.queued_events);
    }

    /// Notes whether the extended scan commands were accepted.
    pub fn set_extended_scan(&mut self, accepted: bool)
        ensures
            final(self)@ == (Session { extended_scan: accepted, ..old(self)@ }),
    {
        self.extended_scan = accepted;
    }

    /// True when the last scan used the extended commands.
    pub fn used_extended_scan(&self) -> (yes: bool)
        ensures
            yes == self@.extended_scan,
    {
        self.extended_scan
    }

    /// The two commands that start a scan: 10 ms interval, 10 ms window.
    ///
    /// Extended scanning first. A device advertising in the extended form
    /// produces no legacy report whatsoever, so a legacy-only scan simply does
    /// not see it. Older controllers reject the extended commands, so the legacy
    /// pair remains as a fallback rather than a preference.
    pub fn scan_start(extended: bool) -> (packets: (Vec<u8>, Vec<u8>))
        ensures
            packets.0@ == scan_parameters(extended),
            packets.1@ == scan_switch(extended, true),
    {
        if extended {
            (
                hci::le_set_extended_scan_parameters(0x0010, 0x0010),
                hci::le_set_extended_scan_enable(true, false),
            )
        } else {
            (
                hci::le_set_scan_parameters(0x0010, 0x0010),
                hci::le_set_scan_enable(true, false),
            )
        }
    }

    /// The command that ends the scan, in the form it was started in.
    pub fn scan_stop(&self) -> (packet: Vec<u8>)
        ensures
            packet@ == scan_switch(self@.extended_scan, false),
    {
        if self.extended_scan {
            hci::le_set_extended_scan_enable(false, false)
        } else {
            hci::le_set_scan_enable(false, false)
        }
    }

    /// Sets the link supervision timeout used by the next connection attempt,
    /// in milliseconds.
    pub fn set_supervision_timeout(&mut self, timeout_ms: u64)
        ensures
            final(self)@ == (Session {
                supervision_timeout: patience(timeout_ms),
                ..old(self)@
            }),
    {
        let tens = timeout_ms / 10;
        let units: u16 = if tens < 1 {
            1
        } else if tens > 0xFFFF {
            0xFFFF
        } else {
            tens as u16
        };
        self.supervision_timeout = hci::clamp_supervision(units);
    }

    /// The request for a connection, in the generation used for scanning. A
    /// controller is entitled to refuse a legacy connection request after
    /// extended scanning.
    pub fn connection_request(&self, peer: BdAddr, address_type: u8) -> (packet: Vec<u8>)
        ensures
            packet@ == self@.request_for(peer.0@, address_type),
    {
        if self.extended_scan {
            hci::le_extended_create_connection(peer, address_type, self.supervision_timeout)
        } else {
            hci::le_create_connection(peer, address_type, self.supervision_timeout)
        }
    }

    /// Drains queued events, used when a caller wants a clean slate.
    pub fn clear_queued_events(&mut self)
        ensures
            final(self)@ == (Session { queued: Seq::empty(), ..old(self)@ }),
    {
        self.queued_events.clear();
    }
}

/// The scan parameters: continuous, in one generation or the other.
pub open spec fn scan_parameters(extended: bool) -> Seq<u8> {
    if extended {
        hci::extended_scan_parameters_packet(0x0010, 0x0010)
    } else {
        hci::scan_parameters_packet(0x0010, 0x0010)
    }
}

/// The command that switches scanning on or off.
pub open spec fn scan_switch(extended: bool, on: bool) -> Seq<u8> {
    if extended {
        hci::extended_scan_enable_packet(on, false)
    } else {
        hci::scan_enable_packet(on, false)
    }
}

/// Whether an event reports how the attempt to connect to `peer` went.
pub open spec fn is_about_peer(code: u8, params: Seq<u8>, peer: Seq<u8>) -> bool {
    connection_result_of(code, params) matches Some((_, _, address)) && address == peer
}

/// Whether an event reports how the attempt to connect to `peer` went. A
/// connection completing for some other device does not count.
pub fn answers_connection(event: &Event, peer: &BdAddr) -> (yes: bool)
    ensures
        yes == is_about_peer(event.code, event.params@, peer.0@),
{
    match event.connection_result() {
        Some((_, _, address)) => address.same(peer),
        None => false,
    }
}

/// What an event tells, where there is one.
pub open spec fn told(event: Option<&Event>) -> Option<(u8, Seq<u8>)> {
    match event {
        Some(e) => Some((e.code, e.params@)),
        None => None,
    }
}

/// What an attempt to connect came to.
pub open spec fn connected_by(event: Option<(u8, Seq<u8>)>) -> Result<
    Option<u16>,
    ControllerError,
> {
    match event {
        Some((code, params)) => match connection_result_of(code, params) {
            Some((status, handle, _)) => if status == 0x00 {
                Ok(Some(handle))
            } else {
                Err(
                    ControllerError::CommandFailed {
                        opcode: op::LE_EXTENDED_CREATE_CONNECTION,
                        status,
                    },
                )
            },
            None => Ok(None),
        },
        None => Ok(None),
    }
}

/// What an attempt to connect came to. `None` means that nothing arrived in
/// time: the controller is still trying, and has to be told to stop.
pub fn connection_outcome(event: Option<&Event>) -> (outcome: Result<Option<u16>, ControllerError>)
    ensures
        outcome == connected_by(told(event)),
{
    match event {
        Some(event) => match event.connection_result() {
            Some((status, handle, _)) => if status == 0x00 {
                Ok(Some(handle))
            } else {
                // The controller said why. Passing that on is the difference
                // between a fixable report and "did not complete".
                Err(
                    ControllerError::CommandFailed {
                        opcode: op::LE_EXTENDED_CREATE_CONNECTION,
                        status,
                    },
                )
            },
            None => Ok(None),
        },
        None => Ok(None),
    }
}

/// Whether an event ends the wait for encryption on `handle`.
pub open spec fn ends_encrypting(code: u8, params: Seq<u8>, handle: u16) -> bool {
    (hci::encryption_of(code, params) matches Some((h, _, _)) && h == handle) || is_loss(
        (code, params),
        handle,
    )
}

/// Whether an event ends the wait for encryption on `handle`: it reports either
/// the encryption or the end of the connection.
pub fn answers_encryption(event: &Event, handle: u16) -> (yes: bool)
    ensures
        yes == ends_encrypting(event.code, event.params@, handle),
{
    let encrypted = match parse_encryption_result(event) {
        Some((h, _, _)) => h == handle,
        None => false,
    };
    let ended = match parse_disconnection_complete(event) {
        Some((h, _)) => h == handle,
        None => false,
    };
    encrypted || ended
}

/// What the attempt to encrypt came to.
pub open spec fn encrypted_by(event: Option<(u8, Seq<u8>)>) -> Result<bool, ControllerError> {
    match event {
        None => Err(ControllerError::EventTimeout),
        Some((code, params)) => match disconnection_of(code, params) {
            Some((_, reason)) => Err(ControllerError::Disconnected { reason }),
            None => match hci::encryption_of(code, params) {
                None => Err(ControllerError::MalformedEvent),
                Some((_, status, enabled)) => if status != 0 {
                    Err(ControllerError::EncryptionRejected { status })
                } else {
                    Ok(enabled)
                },
            },
        },
    }
}

/// What the attempt to encrypt came to.
pub fn encryption_outcome(event: Option<&Event>) -> (outcome: Result<bool, ControllerError>)
    ensures
        outcome == encrypted_by(told(event)),
{
    let event = match event {
        Some(event) => event,
        None => return Err(ControllerError::EventTimeout),
    };
    if let Some((_, reason)) = parse_disconnection_complete(event) {
        return Err(ControllerError::Disconnected { reason });
    }
    match parse_encryption_result(event) {
        None => Err(ControllerError::MalformedEvent),
        Some((_, status, enabled)) => if status != 0 {
            Err(ControllerError::EncryptionRejected { status })
        } else {
            Ok(enabled)
        },
    }
}

// ---- What a scan and an answer say ----

proof fn lemma_structures_keep(device: Advertised, items: Seq<(u8, Seq<u8>)>)
    ensures
        ({
            let end = with_structures(device, items);
            &&& end.address == device.address
            &&& end.address_type == device.address_type
            &&& end.rssi == device.rssi
        }),
    decreases items.len(),
{
    if items.len() > 0 {
        lemma_structures_keep(device, items.drop_last());
    }
}

/// The device that the report in front of others describes has that report's own
/// address, kind of address and signal strength, for every kind and whatever the
/// data hold, and the next report starts where its data end. This is so in the
/// legacy form, where the strength stands behind the data.
#[verifier::rlimit(60)]
pub proof fn a_legacy_report_names_its_own_device(
    event_type: u8,
    address_type: u8,
    address: Seq<u8>,
    data: Seq<u8>,
    rssi: u8,
    rest: Seq<u8>,
    count: nat,
)
    requires
        address.len() == 6,
        data.len() < 256,
        count > 0,
    ensures
        ({
            let list = legacy_reports(
                seq![event_type, address_type] + address + seq![data.len() as u8] + data
                    + seq![rssi] + rest,
                count,
            );
            &&& list.len() > 0
            &&& list[0].address == address
            &&& list[0].address_type == address_type
            &&& list[0].rssi == if rssi < 128 {
                rssi as int
            } else {
                rssi - 256
            }
            &&& list[0].name == advertised_in(data).name
            &&& list[0].appearance == advertised_in(data).appearance
            &&& list[0].services == advertised_in(data).services
            &&& list.skip(1) == legacy_reports(rest, (count - 1) as nat)
        }),
{
    let all = seq![event_type, address_type] + address + seq![data.len() as u8] + data + seq![rssi]
        + rest;
    let n = data.len() as int;
    assert(all[1] == address_type);
    assert(all.subrange(2, 8) =~= address);
    assert(all[8] == n);
    assert(all.subrange(9, 9 + n) =~= data);
    assert(all[9 + n] == rssi);
    assert(all.skip(10 + n) =~= rest);
    let list = legacy_reports(all, count);
    assert(list.skip(1) =~= legacy_reports(rest, (count - 1) as nat));
    lemma_structures_keep(unnamed(address, address_type, signed_byte(rssi)), ltv_items(data));
    lemma_structures_of(unnamed(address, address_type, signed_byte(rssi)), ltv_items(data));
}

/// The same in the extended form, where the strength stands among two bytes of
/// event type, the address, four of radio details before it and nine behind it.
#[verifier::rlimit(60)]
pub proof fn an_extended_report_names_its_own_device(
    event_type: Seq<u8>,
    address_type: u8,
    address: Seq<u8>,
    radio: Seq<u8>,
    rssi: u8,
    more: Seq<u8>,
    data: Seq<u8>,
    rest: Seq<u8>,
    count: nat,
)
    requires
        event_type.len() == 2,
        address.len() == 6,
        radio.len() == 4,
        more.len() == 9,
        data.len() < 256,
        count > 0,
    ensures
        ({
            let list = extended_reports(
                event_type + seq![address_type] + address + radio + seq![rssi] + more
                    + seq![data.len() as u8] + data + rest,
                count,
            );
            &&& list.len() > 0
            &&& list[0].address == address
            &&& list[0].address_type == address_type
            &&& list[0].rssi == if rssi < 128 {
                rssi as int
            } else {
                rssi - 256
            }
            &&& list[0].name == advertised_in(data).name
            &&& list[0].appearance == advertised_in(data).appearance
            &&& list[0].services == advertised_in(data).services
            &&& list.skip(1) == extended_reports(rest, (count - 1) as nat)
        }),
{
    let all = event_type + seq![address_type] + address + radio + seq![rssi] + more
        + seq![data.len() as u8] + data + rest;
    let n = data.len() as int;
    assert(all[2] == address_type);
    assert(all.subrange(3, 9) =~= address);
    assert(all[13] == rssi);
    assert(all[23] == n);
    assert(all.subrange(24, 24 + n) =~= data);
    assert(all.skip(24 + n) =~= rest);
    let list = extended_reports(all, count);
    assert(list.skip(1) =~= extended_reports(rest, (count - 1) as nat));
    lemma_structures_keep(unnamed(address, address_type, signed_byte(rssi)), ltv_items(data));
    lemma_structures_of(unnamed(address, address_type, signed_byte(rssi)), ltv_items(data));
}

/// What advertising data alone say of a device.
pub open spec fn advertised_in(data: Seq<u8>) -> Advertised {
    with_structures(unnamed(Seq::empty(), 0, 0), ltv_items(data))
}

proof fn lemma_structures_of(device: Advertised, items: Seq<(u8, Seq<u8>)>)
    requires
        device.name is None,
        device.appearance is None,
        device.services == Seq::<u16>::empty(),
    ensures
        ({
            let end = with_structures(device, items);
            let bare = with_structures(unnamed(Seq::empty(), 0, 0), items);
            &&& end.name == bare.name
            &&& end.appearance == bare.appearance
            &&& end.services == bare.services
        }),
    decreases items.len(),
{
    if items.len() > 0 {
        lemma_structures_of(device, items.drop_last());
    }
}

proof fn lemma_short_uuids(value: Seq<u8>, i: int)
    requires
        0 <= 2 * i,
        2 * i + 1 < value.len(),
    ensures
        short_uuids(value).len() == value.len() / 2,
        short_uuids(value)[i] == value[2 * i] + 256 * value[2 * i + 1],
    decreases value.len(),
{
    let rest = value.skip(2);
    reveal_with_fuel(short_uuids, 2);
    if i > 0 {
        lemma_short_uuids(rest, i - 1);
    } else if rest.len() >= 2 {
        lemma_short_uuids(rest, 0);
    }
}

/// What a structure of advertising data says, whatever came before it: kinds 8
/// and 9 hold the name, kinds 2 and 3 a list of little-endian services that is
/// added to those known, kind 25 the appearance. Any other kind changes nothing.
pub proof fn every_structure_says_one_thing(
    device: Advertised,
    before: Seq<(u8, Seq<u8>)>,
    kind: u8,
    value: Seq<u8>,
)
    ensures
        ({
            let was = with_structures(device, before);
            let now = with_structures(device, before.push((kind, value)));
            &&& now.name == if (kind == 8 || kind == 9) && valid_utf8(value) {
                Some(decode_utf8(value))
            } else {
                was.name
            }
            &&& now.appearance == if kind == 25 && value.len() >= 2 {
                Some((value[0] + 256 * value[1]) as u16)
            } else {
                was.appearance
            }
            &&& now.services.take(was.services.len() as int) == was.services
            &&& now.services.len() == was.services.len() + if kind == 2 || kind == 3 {
                value.len() / 2
            } else {
                0
            }
            &&& (kind == 2 || kind == 3) ==> forall|i: int|
                0 <= i < value.len() / 2 ==> #[trigger] now.services[was.services.len() + i]
                    == value[2 * i] + 256 * value[2 * i + 1]
        }),
{
    let was = with_structures(device, before);
    let now = with_structures(device, before.push((kind, value)));
    assert(before.push((kind, value)).drop_last() =~= before);
    assert(now.services.take(was.services.len() as int) =~= was.services);
    if kind == 2 || kind == 3 {
        if value.len() >= 2 {
            lemma_short_uuids(value, 0);
        }
        assert forall|i: int| 0 <= i < value.len() / 2 implies #[trigger] now.services[
            was.services.len() + i] == value[2 * i] + 256 * value[2 * i + 1] by {
            lemma_short_uuids(value, i);
        }
    }
}

/// Reports come as LE Meta events, kind 2 in the legacy form and kind 13 in the
/// extended one, with the number of reports behind the kind; no other event
/// reports a device.
pub proof fn only_reports_report_devices(code: u8, kind: u8, count: u8, rest: Seq<u8>)
    ensures
        ({
            let devices = reported_devices(code, seq![kind, count] + rest);
            &&& code == 0x3E && kind == 0x02 ==> devices == legacy_reports(rest, count as nat)
            &&& code == 0x3E && kind == 0x0D ==> devices == extended_reports(rest, count as nat)
            &&& code != 0x3E || (kind != 0x02 && kind != 0x0D) ==> devices.len() == 0
        }),
{
    let params = seq![kind, count] + rest;
    assert(params.skip(2) =~= rest);
    assert(params[0] == kind);
    assert(params[1] == count);
}

/// A command is answered by Command Complete, whose own count stands before the
/// opcode and whose return parameters start with the status, or by Command
/// Status, which starts with it. A status of zero is success, any other is the
/// reason for the failure, and an answer to another command is no answer.
#[verifier::rlimit(60)]
pub proof fn a_command_hears_its_own_answer(
    slots: u8,
    opcode: u16,
    other: u16,
    status: u8,
    more: Seq<u8>,
)
    ensures
        ({
            let op = seq![(opcode % 256) as u8, (opcode / 256) as u8];
            let complete = seq![slots] + op + seq![status] + more;
            let noted = seq![status, slots] + op;
            &&& status == 0 ==> answer_of(0x0E, complete, opcode) == Answer::Done(
                seq![status] + more,
            )
            &&& status != 0 ==> answer_of(0x0E, complete, opcode) == Answer::Failed(status)
            &&& status == 0 ==> answer_of(0x0F, noted, opcode) == Answer::Done(Seq::<u8>::empty())
            &&& status != 0 ==> answer_of(0x0F, noted, opcode) == Answer::Failed(status)
            &&& other != opcode ==> answer_of(0x0E, complete, other) is Silent && answer_of(
                0x0F,
                noted,
                other,
            ) is Silent
        }),
        forall|code: u8, params: Seq<u8>|
            code != 0x0E && code != 0x0F ==> #[trigger] answer_of(code, params, opcode) is Silent,
{
    let op = seq![(opcode % 256) as u8, (opcode / 256) as u8];
    let complete = seq![slots] + op + seq![status] + more;
    let noted = seq![status, slots] + op;
    assert(complete[1] == op[0] && complete[2] == op[1] && complete[3] == status);
    assert(u16_at(complete, 1) == opcode);
    assert(complete.skip(3) =~= seq![status] + more);
    assert(noted[2] == op[0] && noted[3] == op[1] && noted[0] == status);
    assert(u16_at(noted, 2) == opcode);
}

/// What is thrown away while waiting: advertising reports of both forms, and
/// completed-packet counts that name at least one handle. Nothing else is.
pub proof fn only_reports_and_counts_are_thrown_away(event: (u8, Seq<u8>))
    ensures
        is_bulk(event) ==> (event.0 == 0x3E && event.1.len() > 0 && (event.1[0] == 0x02
            || event.1[0] == 0x0D)) || event.0 == 0x13,
        event.0 == 0x3E && event.1.len() > 0 && (event.1[0] == 0x02 || event.1[0] == 0x0D)
            ==> is_bulk(event),
{
}

/// Initialisation, byte for byte: reset, read the version, read the address, let
/// every event through, let every LE event through, say that the host does LE,
/// and say that it does isochronous channels.
#[verifier::rlimit(60)]
pub proof fn initialisation_on_the_wire(step: u8)
    requires
        step < INIT_STEPS,
    ensures
        INIT_STEPS == 7,
        init_command(0) == seq![0x03u8, 0x0C, 0],
        init_command(1) == seq![0x01u8, 0x10, 0],
        init_command(2) == seq![0x09u8, 0x10, 0],
        init_command(3).take(3) == seq![0x01u8, 0x0C, 8],
        init_command(4).take(3) == seq![0x01u8, 0x20, 8],
        init_command(5) == seq![0x6Du8, 0x0C, 2, 1, 0],
        init_command(6) == seq![0x74u8, 0x20, 2, 32, 1],
        step == 3 || step == 4 ==> init_command(step).len() == 11 && forall|i: int|
            3 <= i < 11 ==> #[trigger] init_command(step)[i] == 0xFF,
{
    assert(init_command(0) =~= seq![0x03u8, 0x0C, 0]);
    assert(init_command(1) =~= seq![0x01u8, 0x10, 0]);
    assert(init_command(2) =~= seq![0x09u8, 0x10, 0]);
    assert(init_command(3).take(3) =~= seq![0x01u8, 0x0C, 8]);
    assert(init_command(4).take(3) =~= seq![0x01u8, 0x20, 8]);
    assert(init_command(5) =~= seq![0x6Du8, 0x0C, 2, 1, 0]);
    assert(init_command(6) =~= seq![0x74u8, 0x20, 2, 32, 1]);
}

/// A connection attempt ends with the handle of its own peer, or with the reason the
/// controller gave; an event about something else ends nothing.
#[verifier::rlimit(60)]
pub proof fn an_attempt_ends_with_its_own_peer(
    kind: u8,
    status: u8,
    handle: u16,
    role: u8,
    peer_type: u8,
    peer: Seq<u8>,
    other: Seq<u8>,
    more: Seq<u8>,
)
    requires
        kind == 0x01 || kind == 0x0A,
        handle < 4096,
        peer.len() == 6,
    ensures
        ({
            let params = seq![
                kind,
                status,
                (handle % 256) as u8,
                (handle / 256) as u8,
                role,
                peer_type,
            ] + peer + more;
            &&& is_about_peer(0x3E, params, other) <==> other == peer
            &&& status == 0 ==> connected_by(Some((0x3Eu8, params))) == Ok::<
                Option<u16>,
                ControllerError,
            >(Some(handle))
            &&& status != 0 ==> connected_by(Some((0x3Eu8, params))) == Err::<
                Option<u16>,
                ControllerError,
            >(ControllerError::CommandFailed { opcode: 0x2043, status })
        }),
        connected_by(None) == Ok::<Option<u16>, ControllerError>(None),
{
    hci::a_connection_is_told_by_its_event(
        kind,
        status,
        handle,
        0,
        role,
        peer_type,
        peer,
        more,
    );
}

/// Encryption is on only when the controller says so for this very link; a link that
/// ends meanwhile is an end and not a refusal, and silence is neither.
pub proof fn encryption_is_believed_only_when_told(
    status: u8,
    handle: u16,
    other: u16,
    last: u8,
    more: Seq<u8>,
)
    requires
        handle < 4096,
    ensures
        ({
            let params = seq![status, (handle % 256) as u8, (handle / 256) as u8, last] + more;
            &&& ends_encrypting(0x08, params, other) <==> other == handle
            &&& status == 0 ==> (ends_encrypting(0x05, params, other) <==> other == handle)
            &&& encrypted_by(Some((0x08u8, params))) == if status != 0 {
                Err::<bool, ControllerError>(ControllerError::EncryptionRejected { status })
            } else {
                Ok::<bool, ControllerError>(last != 0)
            }
            &&& status == 0 ==> encrypted_by(Some((0x05u8, params))) == Err::<
                bool,
                ControllerError,
            >(ControllerError::Disconnected { reason: last })
        }),
        encrypted_by(None) == Err::<bool, ControllerError>(ControllerError::EventTimeout),
{
    hci::encryption_and_loss_are_told_by_their_events(status, handle, 0, last, more);
}

/// A connection is asked for in the generation that was scanned in, for the peer and
/// the kind of address given, with the patience that was set.
pub proof fn a_connection_is_asked_for_as_it_was_scanned(s: Session, peer: Seq<u8>, kind: u8)
    requires
        peer.len() == 6,
    ensures
        ({
            let packet = s.request_for(peer, kind);
            &&& s.extended_scan ==> packet.take(3) == seq![0x43u8, 0x20, 26] && packet[5] == kind
                && packet.subrange(6, 12) == peer
            &&& !s.extended_scan ==> packet.take(3) == seq![0x0Du8, 0x20, 25] && packet[8] == kind
                && packet.subrange(9, 15) == peer
        }),
{
    let packet = s.request_for(peer, kind);
    if s.extended_scan {
        assert(packet.take(3) =~= seq![0x43u8, 0x20, 26]);
        assert(packet.subrange(6, 12) =~= peer);
    } else {
        assert(packet.take(3) =~= seq![0x0Du8, 0x20, 25]);
        assert(packet.subrange(9, 15) =~= peer);
    }
}

/// Patience is counted in hundredths of a second, from a tenth of a second to 32.
pub proof fn patience_is_counted_in_hundredths(timeout_ms: u64)
    ensures
        10 <= patience(timeout_ms) <= 3200,
        100 <= timeout_ms <= 32_000 ==> patience(timeout_ms) == timeout_ms / 10,
        timeout_ms < 100 ==> patience(timeout_ms) == 10,
        timeout_ms > 32_000 ==> patience(timeout_ms) == 3200,
{
}

/// A scan listens all the time, both ways of asking for it, and is switched off the
/// way it was switched on; no report is filtered out.
#[verifier::rlimit(60)]
pub proof fn a_scan_listens_all_the_time(extended: bool, on: bool)
    ensures
        extended ==> scan_parameters(extended) == seq![
            0x41u8,
            0x20,
            8,
            0,
            0,
            1,
            0,
            16,
            0,
            16,
            0,
        ],
        !extended ==> scan_parameters(extended) == seq![0x0Bu8, 0x20, 7, 0, 16, 0, 16, 0, 0, 0],
        scan_switch(extended, on).take(2) == if extended {
            seq![0x42u8, 0x20]
        } else {
            seq![0x0Cu8, 0x20]
        },
        scan_switch(extended, on)[3] == if on {
            1u8
        } else {
            0u8
        },
        scan_switch(extended, on)[4] == 0,
{
    hci::a_scan_on_the_wire(16, 16, on, false);
    if extended {
        assert(scan_switch(extended, on).take(2) =~= seq![0x42u8, 0x20]);
    } else {
        assert(scan_switch(extended, on).take(2) =~= seq![0x0Cu8, 0x20]);
    }
}

} // verus!
