//! HCI command and event layer.
//!
//! Everything the stack does to the controller goes through here: reset, scanning,
//! connecting, and later the CIG/CIS setup that carries LC3 audio. Commands are
//! built into byte buffers the transport hands straight to USB.

pub mod evt;
pub mod ogf;
pub mod op;
pub mod subevt;

use crate::bytes::{
    copy_bytes, le16, le24, lemma_u16_round_trip, push_bytes, push_u16, push_u24, range,
    read_u16, read_u32, same_bytes, tail, u16_at, u32_at,
};
use crate::l2cap::{parameter_bytes, parameters_at, ConnectionParameters};
use crate::text::{
    all_digits, char_views, decimal, digit_value, digits_value, hex, lemma_split_last,
    lemma_split_whole, number, parse_number, push_decimal, push_hex, push_upper_hex, split_chars,
    split_on, to_chars, unsigned_part, upper_digit, upper_hex,
};
use vstd::prelude::*;
use vstd::string::*;

verus! {

/// The number of a command: its group in the upper six bits, its command field
/// in the lower ten.
pub open spec fn opcode_value(ogf: u16, ocf: u16) -> u16 {
    (1024 * ogf + ocf) as u16
}

/// Builds an opcode from its Opcode Group Field and Opcode Command Field.
pub fn opcode(ogf: u16, ocf: u16) -> (value: u16)
    ensures
        value == (ogf << 10) | ocf,
        ogf < 64 && ocf < 1024 ==> value == opcode_value(ogf, ocf),
{
    assert(ogf < 64 && ocf < 1024 ==> ((ogf << 10u16) | ocf) == 1024 * ogf + ocf) by (bit_vector);
    (ogf << 10) | ocf
}

/// Every opcode the stack issues is its group and command field put together.
pub proof fn opcodes_are_built_from_their_fields()
    ensures
        op::RESET == opcode_value(ogf::CONTROLLER, 0x0003),
        op::SET_EVENT_MASK == opcode_value(ogf::CONTROLLER, 0x0001),
        op::WRITE_LE_HOST_SUPPORTED == opcode_value(ogf::CONTROLLER, 0x006D),
        op::READ_LOCAL_VERSION == opcode_value(ogf::INFORMATIONAL, 0x0001),
        op::READ_BD_ADDR == opcode_value(ogf::INFORMATIONAL, 0x0009),
        op::DISCONNECT == opcode_value(ogf::LINK_CONTROL, 0x0006),
        op::READ_RSSI == opcode_value(ogf::STATUS, 0x0005),
        op::LE_SET_EVENT_MASK == opcode_value(ogf::LE_CONTROLLER, 0x0001),
        op::LE_SET_HOST_FEATURE == opcode_value(ogf::LE_CONTROLLER, 0x0074),
        op::LE_READ_BUFFER_SIZE_V2 == opcode_value(ogf::LE_CONTROLLER, 0x0060),
        op::LE_READ_LOCAL_FEATURES == opcode_value(ogf::LE_CONTROLLER, 0x0003),
        op::LE_SET_SCAN_PARAMETERS == opcode_value(ogf::LE_CONTROLLER, 0x000B),
        op::LE_SET_SCAN_ENABLE == opcode_value(ogf::LE_CONTROLLER, 0x000C),
        op::LE_CREATE_CONNECTION == opcode_value(ogf::LE_CONTROLLER, 0x000D),
        op::LE_CONNECTION_UPDATE == opcode_value(ogf::LE_CONTROLLER, 0x0013),
        op::LE_SET_PHY == opcode_value(ogf::LE_CONTROLLER, 0x0032),
        op::LE_READ_PHY == opcode_value(ogf::LE_CONTROLLER, 0x0030),
        op::LE_CREATE_CONNECTION_CANCEL == opcode_value(ogf::LE_CONTROLLER, 0x000E),
        op::LE_SET_EXTENDED_SCAN_PARAMETERS == opcode_value(ogf::LE_CONTROLLER, 0x0041),
        op::LE_SET_EXTENDED_SCAN_ENABLE == opcode_value(ogf::LE_CONTROLLER, 0x0042),
        op::LE_EXTENDED_CREATE_CONNECTION == opcode_value(ogf::LE_CONTROLLER, 0x0043),
        op::LE_ENABLE_ENCRYPTION == opcode_value(ogf::LE_CONTROLLER, 0x0019),
        op::LE_LTK_REQUEST_REPLY == opcode_value(ogf::LE_CONTROLLER, 0x001A),
        op::LE_SET_CIG_PARAMETERS == opcode_value(ogf::LE_CONTROLLER, 0x0062),
        op::LE_CREATE_CIS == opcode_value(ogf::LE_CONTROLLER, 0x0064),
        op::LE_REMOVE_CIG == opcode_value(ogf::LE_CONTROLLER, 0x0065),
        op::LE_SETUP_ISO_DATA_PATH == opcode_value(ogf::LE_CONTROLLER, 0x006E),
        op::LE_REMOVE_ISO_DATA_PATH == opcode_value(ogf::LE_CONTROLLER, 0x006F),
        op::LE_READ_ISO_LINK_QUALITY == opcode_value(ogf::LE_CONTROLLER, 0x0075),
{
}

/// A 48-bit Bluetooth device address, stored in transmission order.
#[derive(Debug, Clone, Copy, PartialEq, Eq, Hash)]
pub struct BdAddr(pub [u8; 6]);

/// The display form of the address whose bytes in transmission order are
/// `bytes`: six pairs of digits, most significant byte first.
pub open spec fn address_text(bytes: Seq<u8>) -> Seq<char> {
    upper_hex(bytes[5] as nat, 2).push(':') + upper_hex(bytes[4] as nat, 2).push(':') + upper_hex(
        bytes[3] as nat,
        2,
    ).push(':') + upper_hex(bytes[2] as nat, 2).push(':') + upper_hex(bytes[1] as nat, 2).push(':')
        + upper_hex(bytes[0] as nat, 2)
}

/// The address that `text` displays: six numbers in base sixteen between
/// colons, most significant byte first.
pub open spec fn address_of(text: Seq<char>) -> Option<Seq<u8>> {
    let parts = split_on(text, ':');
    if parts.len() == 6 && forall|i: int|
        0 <= i < 6 ==> number(#[trigger] parts[i], 16, 255) is Some {
        Some(Seq::new(6, |i: int| number(parts[5 - i], 16, 255)->0 as u8))
    } else {
        None
    }
}

impl BdAddr {
    /// Parses the usual display form, most significant byte first.
    pub fn parse(text: &str) -> (address: Option<Self>)
        ensures
            match address_of(text@) {
                Some(bytes) => address matches Some(a) && a.0@ == bytes,
                None => address is None,
            },
    {
        let chars = to_chars(text);
        BdAddr::parse_chars(&chars)
    }

    /// Parses the usual display form, given as characters.
    pub fn parse_chars(text: &[char]) -> (address: Option<Self>)
        ensures
            match address_of(text@) {
                Some(bytes) => address matches Some(a) && a.0@ == bytes,
                None => address is None,
            },
    {
        let parts = split_chars(text, ':');
        let ghost pieces = split_on(text@, ':');
        assert(pieces.len() == parts@.len());
        if parts.len() != 6 {
            return None;
        }
        let mut bytes: [u8; 6] = [0u8; 6];
        let mut i: usize = 0;
        while i < 6
            invariant
                i <= 6,
                parts@.len() == 6,
                pieces == split_on(text@, ':'),
                pieces == char_views(parts@),
                forall|j: int|
                    0 <= j < i ==> {
                        &&& number(#[trigger] pieces[j], 16, 255) is Some
                        &&& bytes@[5 - j] == number(pieces[j], 16, 255)->0
                    },
            decreases 6 - i,
        {
            assert(pieces[i as int] == parts@[i as int]@);
            match parse_number(&parts[i], 16, 255) {
                Some(value) => {
                    // Display order is reversed relative to the wire.
                    bytes[5 - i] = value as u8;
                },
                None => {
                    return None;
                },
            }
            i = i + 1;
        }
        proof {
            let found = address_of(text@)->0;
            assert forall|k: int| 0 <= k < 6 implies bytes@[k] == found[k] by {
                assert(number(pieces[5 - k], 16, 255) is Some);
            }
            assert(bytes@ =~= found);
        }
        Some(BdAddr(bytes))
    }

    /// The usual display form, most significant byte first.
    pub fn to_string(&self) -> (text: String)
        ensures
            text@ == address_text(self.0@),
    {
        let mut text = String::new();
        push_upper_hex(&mut text, self.0[5] as u64, 2);
        text.push(':');
        push_upper_hex(&mut text, self.0[4] as u64, 2);
        text.push(':');
        push_upper_hex(&mut text, self.0[3] as u64, 2);
        text.push(':');
        push_upper_hex(&mut text, self.0[2] as u64, 2);
        text.push(':');
        push_upper_hex(&mut text, self.0[1] as u64, 2);
        text.push(':');
        push_upper_hex(&mut text, self.0[0] as u64, 2);
        assert(text@ =~= address_text(self.0@));
        text
    }

    /// Whether two addresses are the same.
    pub fn same(&self, other: &BdAddr) -> (yes: bool)
        ensures
            yes == (self.0@ == other.0@),
    {
        same_bytes(&self.0, &other.0)
    }
}

/// A byte is read back from its two hexadecimal digits.
pub proof fn lemma_two_hex_digits(value: u8)
    ensures
        upper_hex(value as nat, 2) == seq![
            upper_digit((value / 16) as nat),
            upper_digit((value % 16) as nat),
        ],
        !upper_hex(value as nat, 2).contains(':'),
        number(upper_hex(value as nat, 2), 16, 255) == Some(value as nat),
{
    let text = upper_hex(value as nat, 2);
    let high = upper_digit((value / 16) as nat);
    let low = upper_digit((value % 16) as nat);
    reveal_with_fuel(upper_hex, 3);
    assert(text =~= seq![high, low]);
    assert(digit_value(high) == value / 16);
    assert(digit_value(low) == value % 16);
    assert(unsigned_part(text) == text);
    assert(all_digits(text, 16));
    assert(text.drop_last() =~= seq![high]);
    assert(seq![high].drop_last() =~= Seq::<char>::empty());
    reveal_with_fuel(digits_value, 3);
    assert(digits_value(seq![high], 16) == value / 16);
    assert(digits_value(text, 16) == value / 16 * 16 + value % 16);
    if text.contains(':') {
        let j = choose|j: int| 0 <= j < text.len() && text[j] == ':';
        assert(false);
    }
}

/// An address is read back from its display form.
pub proof fn address_text_reads_back(bytes: Seq<u8>)
    requires
        bytes.len() == 6,
    ensures
        address_of(address_text(bytes)) == Some(bytes),
{
    let p5 = upper_hex(bytes[5] as nat, 2);
    let p4 = upper_hex(bytes[4] as nat, 2);
    let p3 = upper_hex(bytes[3] as nat, 2);
    let p2 = upper_hex(bytes[2] as nat, 2);
    let p1 = upper_hex(bytes[1] as nat, 2);
    let p0 = upper_hex(bytes[0] as nat, 2);
    lemma_two_hex_digits(bytes[5]);
    lemma_two_hex_digits(bytes[4]);
    lemma_two_hex_digits(bytes[3]);
    lemma_two_hex_digits(bytes[2]);
    lemma_two_hex_digits(bytes[1]);
    lemma_two_hex_digits(bytes[0]);
    let t4 = p5.push(':') + p4;
    let t3 = t4.push(':') + p3;
    let t2 = t3.push(':') + p2;
    let t1 = t2.push(':') + p1;
    let t0 = t1.push(':') + p0;
    assert(t0 =~= address_text(bytes));
    lemma_split_whole(p5, ':');
    lemma_split_last(p5, ':', p4);
    lemma_split_last(t4, ':', p3);
    lemma_split_last(t3, ':', p2);
    lemma_split_last(t2, ':', p1);
    lemma_split_last(t1, ':', p0);
    let parts = split_on(address_text(bytes), ':');
    assert(parts =~= seq![p5, p4, p3, p2, p1, p0]);
    assert(address_of(address_text(bytes))->0 =~= bytes);
}

/// An HCI command packet: opcode, parameter length, parameters. The length field
/// holds the low byte of the parameters' length.
pub open spec fn command_packet(opcode: u16, params: Seq<u8>) -> Seq<u8> {
    le16(opcode) + seq![(params.len() % 256) as u8] + params
}

/// Builds an HCI command packet: opcode, parameter length, parameters.
pub fn command(opcode: u16, params: &[u8]) -> (packet: Vec<u8>)
    ensures
        packet@ == command_packet(opcode, params@),
{
    let mut packet: Vec<u8> = Vec::new();
    push_u16(&mut packet, opcode);
    packet.push((params.len() % 256) as u8);
    push_bytes(&mut packet, params);
    assert(packet@ =~= command_packet(opcode, params@));
    packet
}

/// A parsed HCI event.
#[derive(Debug)]
pub struct Event {
    pub code: u8,
    pub params: Vec<u8>,
}

impl Clone for Event {
    fn clone(&self) -> (copy: Self)
        ensures
            copy.code == self.code,
            copy.params@ == self.params@,
    {
        Event { code: self.code, params: copy_bytes(&self.params) }
    }
}

/// The code and the parameters of the event in a buffer, if all of it is there.
pub open spec fn event_of(buffer: Seq<u8>) -> Option<(u8, Seq<u8>)> {
    if Event::is_whole(buffer) {
        Some((buffer[0], buffer.subrange(2, 2 + buffer[1])))
    } else {
        None
    }
}

/// The subevent code of an event, for LE meta events.
pub open spec fn subevent_of(code: u8, params: Seq<u8>) -> Option<u8> {
    if code == evt::LE_META && params.len() > 0 {
        Some(params[0])
    } else {
        None
    }
}

/// Status, handle and peer address of a connection event, legacy or enhanced.
pub open spec fn connection_result_of(code: u8, params: Seq<u8>) -> Option<(u8, u16, Seq<u8>)> {
    if (subevent_of(code, params) == Some(subevt::ENHANCED_CONNECTION_COMPLETE) || subevent_of(
        code,
        params,
    ) == Some(subevt::CONNECTION_COMPLETE)) && params.len() >= 12 {
        Some((params[1], (u16_at(params, 2) % 4096) as u16, params.subrange(6, 12)))
    } else {
        None
    }
}

/// Reads six bytes as an address.
pub fn read_address(data: &[u8], at: usize) -> (address: BdAddr)
    requires
        at + 6 <= data@.len(),
    ensures
        address.0@ == data@.subrange(at as int, at + 6),
{
    let mut bytes: [u8; 6] = [0u8; 6];
    let field = tail(data, at);
    let mut i: usize = 0;
    while i < 6
        invariant
            i <= 6,
            6 <= field@.len(),
            forall|j: int| 0 <= j < i ==> bytes@[j] == field@[j],
        decreases 6 - i,
    {
        bytes[i] = field[i];
        i = i + 1;
    }
    assert(bytes@ =~= data@.subrange(at as int, at + 6));
    BdAddr(bytes)
}

impl Event {
    /// The bytes of a whole event: code, parameter length, parameters. Anything
    /// after them is ignored.
    pub open spec fn is_whole(buffer: Seq<u8>) -> bool {
        buffer.len() >= 2 && buffer.len() >= 2 + buffer[1]
    }

    pub fn parse(buffer: &[u8]) -> (event: Option<Self>)
        ensures
            match event_of(buffer@) {
                Some((code, params)) => event matches Some(e) && e.code == code && e.params@
                    == params,
                None => event is None,
            },
    {
        if buffer.len() < 2 {
            return None;
        }
        let length = buffer[1] as usize;
        if buffer.len() < 2 + length {
            return None;
        }
        Some(Event { code: buffer[0], params: copy_bytes(range(buffer, 2, 2 + length)) })
    }

    /// Subevent code, for LE meta events.
    pub fn subevent(&self) -> (code: Option<u8>)
        ensures
            code == subevent_of(self.code, self.params@),
    {
        if self.code == evt::LE_META && self.params.len() > 0 {
            Some(self.params[0])
        } else {
            None
        }
    }

    /// For Command Complete: the opcode being acknowledged and its return parameters.
    pub fn command_complete(&self) -> (answer: Option<(u16, &[u8])>)
        ensures
            answer is Some <==> self.code == evt::COMMAND_COMPLETE && self.params@.len() >= 3,
            answer matches Some(a) ==> a.0 == u16_at(self.params@, 1) && a.1@ == self.params@.skip(
                3,
            ),
    {
        if self.code != evt::COMMAND_COMPLETE || self.params.len() < 3 {
            return None;
        }
        Some((read_u16(&self.params, 1), tail(&self.params, 3)))
    }

    /// For Command Status: the status byte and the opcode it refers to.
    pub fn command_status(&self) -> (answer: Option<(u8, u16)>)
        ensures
            answer is Some <==> self.code == evt::COMMAND_STATUS && self.params@.len() >= 4,
            answer matches Some(a) ==> a.0 == self.params@[0] && a.1 == u16_at(self.params@, 2),
    {
        if self.code != evt::COMMAND_STATUS || self.params.len() < 4 {
            return None;
        }
        Some((self.params[0], read_u16(&self.params, 2)))
    }

    /// For LE Enhanced Connection Complete: the handle and peer address.
    pub fn connection_complete(&self) -> (connection: Option<(u16, BdAddr)>)
        ensures
            match connection_result_of(self.code, self.params@) {
                Some((0x00, handle, address)) => connection matches Some(c) && c.0 == handle
                    && c.1.0@ == address,
                _ => connection is None,
            },
    {
        match self.connection_result() {
            Some((status, handle, address)) => if status == 0x00 {
                Some((handle, address))
            } else {
                None
            },
            None => None,
        }
    }

    /// The same event including a failed one, so the caller can say why.
    ///
    /// Both the legacy and enhanced forms put status, handle, role and peer
    /// address in the same places, which is all that is read here. Discarding a
    /// failure silently leaves nothing to report but "did not complete".
    pub fn connection_result(&self) -> (result: Option<(u8, u16, BdAddr)>)
        ensures
            match connection_result_of(self.code, self.params@) {
                Some((status, handle, address)) => result matches Some(r) && r.0 == status && r.1
                    == handle && r.2.0@ == address,
                None => result is None,
            },
    {
        match self.subevent() {
            Some(code) => if code != subevt::ENHANCED_CONNECTION_COMPLETE && code
                != subevt::CONNECTION_COMPLETE {
                return None;
            },
            None => return None,
        }
        if self.params.len() < 12 {
            return None;
        }
        let status = self.params[1];
        let handle = read_u16(&self.params, 2) % 4096;
        Some((status, handle, read_address(&self.params, 6)))
    }
}

/// Controller identity, from Read Local Version Information.
#[derive(Debug, Clone, Copy, PartialEq, Eq, Structural)]
pub struct LocalVersion {
    pub hci_version: u8,
    pub manufacturer: u16,
    pub lmp_version: u8,
}

/// The Core specification version that an LMP number denotes.
pub open spec fn core_version(lmp_version: u8) -> Seq<char> {
    match lmp_version {
        9 => "5.0"@,
        10 => "5.1"@,
        11 => "5.2"@,
        12 => "5.3"@,
        13 => "5.4"@,
        14 => "6.0"@,
        15 => "6.1"@,
        _ => "unknown"@,
    }
}

impl LocalVersion {
    /// Whether the controller can have isochronous channels.
    pub open spec fn has_channels(self) -> bool {
        self.lmp_version >= 11
    }

    /// The identity in the return parameters, when the command succeeded.
    pub open spec fn read(return_params: Seq<u8>) -> Option<LocalVersion> {
        if return_params.len() < 9 || return_params[0] != 0x00 {
            None
        } else {
            Some(
                LocalVersion {
                    hci_version: return_params[1],
                    manufacturer: u16_at(return_params, 5),
                    lmp_version: return_params[4],
                },
            )
        }
    }

    pub fn parse(return_params: &[u8]) -> (version: Option<Self>)
        ensures
            version == LocalVersion::read(return_params@),
    {
        // status(1) hci_version(1) hci_revision(2) lmp_version(1) manufacturer(2) lmp_subversion(2)
        if return_params.len() < 9 || return_params[0] != 0x00 {
            return None;
        }
        Some(
            LocalVersion {
                hci_version: return_params[1],
                manufacturer: read_u16(return_params, 5),
                lmp_version: return_params[4],
            },
        )
    }

    /// Marketing name for the Core specification version this LMP number denotes.
    pub fn bluetooth_version(&self) -> (name: &'static str)
        ensures
            name@ == core_version(self.lmp_version),
    {
        match self.lmp_version {
            9 => "5.0",
            10 => "5.1",
            11 => "5.2",
            12 => "5.3",
            13 => "5.4",
            14 => "6.0",
            15 => "6.1",
            _ => "unknown",
        }
    }

    /// LE Audio needs isochronous channels, which arrived in Core 5.2.
    pub fn supports_le_audio(&self) -> (yes: bool)
        ensures
            yes == self.has_channels(),
    {
        self.lmp_version >= 11
    }
}

// ---- Command builders ----

pub fn reset() -> (packet: Vec<u8>)
    ensures
        packet@ == command_packet(op::RESET, seq![]),
{
    let none: [u8; 0] = [];
    assert(none@ =~= seq![]);
    command(op::RESET, &none)
}

pub fn read_local_version() -> (packet: Vec<u8>)
    ensures
        packet@ == command_packet(op::READ_LOCAL_VERSION, seq![]),
{
    let none: [u8; 0] = [];
    assert(none@ =~= seq![]);
    command(op::READ_LOCAL_VERSION, &none)
}

pub fn read_bd_addr() -> (packet: Vec<u8>)
    ensures
        packet@ == command_packet(op::READ_BD_ADDR, seq![]),
{
    let none: [u8; 0] = [];
    assert(none@ =~= seq![]);
    command(op::READ_BD_ADDR, &none)
}

/// A command whose only parameter is a handle.
fn handle_command(opcode: u16, handle: u16) -> (packet: Vec<u8>)
    ensures
        packet@ == command_packet(opcode, le16(handle)),
{
    let mut params: Vec<u8> = Vec::new();
    push_u16(&mut params, handle);
    assert(params@ =~= le16(handle));
    command(opcode, &params)
}

pub fn read_rssi(handle: u16) -> (packet: Vec<u8>)
    ensures
        packet@ == command_packet(op::READ_RSSI, le16(handle)),
{
    handle_command(op::READ_RSSI, handle)
}

/// Asks the controller how one isochronous channel is actually doing.
///
/// This is the only honest source of packet loss on a CIS. Counting our own
/// failed USB submissions says whether the audio left this PC, which it almost
/// always did; it says nothing at all about whether the headphones heard it.
/// Everything that happens on the air - a packet that needed retransmitting, a
/// subevent that went unacknowledged, one flushed because its deadline passed -
/// is visible here and nowhere else.
pub fn le_read_iso_link_quality(cis_handle: u16) -> (packet: Vec<u8>)
    ensures
        packet@ == command_packet(op::LE_READ_ISO_LINK_QUALITY, le16(cis_handle)),
{
    handle_command(op::LE_READ_ISO_LINK_QUALITY, cis_handle)
}

/// What the controller knows about one isochronous channel.
///
/// Counters are cumulative since the channel was established, so a rate is the
/// difference between two readings rather than any single one of them.
#[derive(Debug, Clone, Copy, PartialEq, Eq, Structural)]
pub struct IsoLinkQuality {
    pub handle: u16,
    /// Packets sent whose acknowledgement never arrived. On a stream flowing
    /// from here to the headphones, this is the count that means "not heard".
    pub tx_unacked_packets: u32,
    /// Packets dropped because their transport latency deadline passed before
    /// they could be sent. Audio that was never given a chance to arrive.
    pub tx_flushed_packets: u32,
    /// Packets that had to be sent more than once. Not loss - this is the
    /// retransmission budget doing its job - but a rising number is the early
    /// warning that the budget is about to run out.
    pub retransmitted_packets: u32,
    pub tx_last_subevent_packets: u32,
    /// Received packets that failed their CRC, on the microphone direction.
    pub crc_error_packets: u32,
    /// Receive slots where nothing arrived at all.
    pub rx_unreceived_packets: u32,
    pub duplicate_packets: u32,
}

impl Default for IsoLinkQuality {
    fn default() -> (quality: Self)
        ensures
            quality == (IsoLinkQuality {
                handle: 0,
                tx_unacked_packets: 0,
                tx_flushed_packets: 0,
                retransmitted_packets: 0,
                tx_last_subevent_packets: 0,
                crc_error_packets: 0,
                rx_unreceived_packets: 0,
                duplicate_packets: 0,
            }),
    {
        IsoLinkQuality {
            handle: 0,
            tx_unacked_packets: 0,
            tx_flushed_packets: 0,
            retransmitted_packets: 0,
            tx_last_subevent_packets: 0,
            crc_error_packets: 0,
            rx_unreceived_packets: 0,
            duplicate_packets: 0,
        }
    }
}

impl IsoLinkQuality {
    /// Packets the headphones can be assumed not to have played.
    pub fn lost_packets(&self) -> (lost: u64)
        ensures
            lost == self.tx_unacked_packets + self.tx_flushed_packets,
    {
        self.tx_unacked_packets as u64 + self.tx_flushed_packets as u64
    }
}

/// What the return parameters of LE Read ISO Link Quality say.
pub open spec fn quality_of(params: Seq<u8>) -> Option<IsoLinkQuality> {
    if params.len() < 31 || params[0] != 0x00 {
        None
    } else {
        Some(
            IsoLinkQuality {
                handle: u16_at(params, 1),
                tx_unacked_packets: u32_at(params, 3),
                tx_flushed_packets: u32_at(params, 7),
                tx_last_subevent_packets: u32_at(params, 11),
                retransmitted_packets: u32_at(params, 15),
                crc_error_packets: u32_at(params, 19),
                rx_unreceived_packets: u32_at(params, 23),
                duplicate_packets: u32_at(params, 27),
            },
        )
    }
}

/// Reads the return parameters of LE Read ISO Link Quality.
///
/// Layout: status(1) connection_handle(2) and then seven 32-bit counters.
pub fn parse_iso_link_quality(params: &[u8]) -> (quality: Option<IsoLinkQuality>)
    ensures
        quality == quality_of(params@),
{
    if params.len() < 31 || params[0] != 0x00 {
        return None;
    }
    Some(
        IsoLinkQuality {
            handle: read_u16(params, 1),
            tx_unacked_packets: read_u32(params, 3),
            tx_flushed_packets: read_u32(params, 7),
            tx_last_subevent_packets: read_u32(params, 11),
            retransmitted_packets: read_u32(params, 15),
            crc_error_packets: read_u32(params, 19),
            rx_unreceived_packets: read_u32(params, 23),
            duplicate_packets: read_u32(params, 27),
        },
    )
}

/// Eight bytes with every bit set.
pub open spec fn full_mask() -> Seq<u8> {
    seq![0xFF, 0xFF, 0xFF, 0xFF, 0xFF, 0xFF, 0xFF, 0xFF]
}

/// Unmasks every event the controller can raise, so nothing is missed.
pub fn set_event_mask() -> (packet: Vec<u8>)
    ensures
        packet@ == command_packet(op::SET_EVENT_MASK, full_mask()),
{
    let mask: [u8; 8] = [0xFF; 8];
    assert(mask@ =~= full_mask());
    command(op::SET_EVENT_MASK, &mask)
}

/// Tells the controller the host supports LE, and that it may not assume
/// classic-only behaviour.
pub fn write_le_host_supported() -> (packet: Vec<u8>)
    ensures
        packet@ == command_packet(op::WRITE_LE_HOST_SUPPORTED, seq![0x01, 0x00]),
{
    // Second byte is a reserved "simultaneous" flag that must be zero.
    let params: [u8; 2] = [0x01, 0x00];
    assert(params@ =~= seq![0x01, 0x00]);
    command(op::WRITE_LE_HOST_SUPPORTED, &params)
}

/// A truth value as a parameter byte.
pub open spec fn flag(value: bool) -> u8 {
    if value {
        1
    } else {
        0
    }
}

fn flag_byte(value: bool) -> (byte: u8)
    ensures
        byte == flag(value),
{
    if value {
        1
    } else {
        0
    }
}

/// Turns on a host-side LE feature bit.
///
/// Bit 32 is Connected Isochronous Streams, which a controller need not offer
/// until the host says it can handle them - and no CIS can be created without
/// it. The Windows driver sets this during initialisation on this same adapter.
pub fn le_set_host_feature(bit: u8, enable: bool) -> (packet: Vec<u8>)
    ensures
        packet@ == command_packet(op::LE_SET_HOST_FEATURE, seq![bit, flag(enable)]),
{
    let params: [u8; 2] = [bit, flag_byte(enable)];
    assert(params@ =~= seq![bit, flag(enable)]);
    command(op::LE_SET_HOST_FEATURE, &params)
}

/// Unmasks the LE events the stack relies on, the CIS ones among them.
pub fn le_set_event_mask() -> (packet: Vec<u8>)
    ensures
        packet@ == command_packet(op::LE_SET_EVENT_MASK, full_mask()),
{
    let mask: [u8; 8] = [0xFF; 8];
    assert(mask@ =~= full_mask());
    command(op::LE_SET_EVENT_MASK, &mask)
}

pub fn le_read_local_features() -> (packet: Vec<u8>)
    ensures
        packet@ == command_packet(op::LE_READ_LOCAL_FEATURES, seq![]),
{
    let none: [u8; 0] = [];
    assert(none@ =~= seq![]);
    command(op::LE_READ_LOCAL_FEATURES, &none)
}

/// The command that sets passive scanning up.
pub open spec fn scan_parameters_packet(interval: u16, window: u16) -> Seq<u8> {
    command_packet(
        op::LE_SET_SCAN_PARAMETERS,
        seq![0x00] + le16(interval) + le16(window) + seq![0x00, 0x00],
    )
}

/// The command that switches scanning on or off.
pub open spec fn scan_enable_packet(enable: bool, filter_duplicates: bool) -> Seq<u8> {
    command_packet(op::LE_SET_SCAN_ENABLE, seq![flag(enable), flag(filter_duplicates)])
}

/// The command that sets passive extended scanning up.
pub open spec fn extended_scan_parameters_packet(interval: u16, window: u16) -> Seq<u8> {
    command_packet(
        op::LE_SET_EXTENDED_SCAN_PARAMETERS,
        seq![0x00, 0x00, 0x01, 0x00] + le16(interval) + le16(window),
    )
}

/// The command that switches extended scanning on or off.
pub open spec fn extended_scan_enable_packet(enable: bool, filter_duplicates: bool) -> Seq<u8> {
    command_packet(
        op::LE_SET_EXTENDED_SCAN_ENABLE,
        seq![flag(enable), flag(filter_duplicates)] + le16(0) + le16(0),
    )
}

/// Passive scan. Interval and window are in 0.625 ms units.
pub fn le_set_scan_parameters(interval: u16, window: u16) -> (packet: Vec<u8>)
    ensures
        packet@ == scan_parameters_packet(interval, window),
{
    let mut params: Vec<u8> = Vec::new();
    params.push(0x00);  // passive scanning
    push_u16(&mut params, interval);
    push_u16(&mut params, window);
    params.push(0x00);  // public own address
    params.push(0x00);  // accept all advertisements
    assert(params@ =~= seq![0x00] + le16(interval) + le16(window) + seq![0x00, 0x00]);
    command(op::LE_SET_SCAN_PARAMETERS, &params)
}

pub fn le_set_scan_enable(enable: bool, filter_duplicates: bool) -> (packet: Vec<u8>)
    ensures
        packet@ == scan_enable_packet(enable, filter_duplicates),
{
    let params: [u8; 2] = [flag_byte(enable), flag_byte(filter_duplicates)];
    assert(params@ =~= seq![flag(enable), flag(filter_duplicates)]);
    command(op::LE_SET_SCAN_ENABLE, &params)
}

/// Passive extended scan on the 1M PHY. Interval and window are 0.625 ms units.
///
/// A device that advertises with extended advertising is invisible to the
/// legacy scan above - it produces no legacy report at all - and LE Audio
/// headphones commonly do exactly that. The layout here matches what the
/// Windows driver was captured sending to this same adapter.
pub fn le_set_extended_scan_parameters(interval: u16, window: u16) -> (packet: Vec<u8>)
    ensures
        packet@ == extended_scan_parameters_packet(interval, window),
{
    let mut params: Vec<u8> = Vec::new();
    params.push(0x00);  // own address: public
    params.push(0x00);  // accept all advertisements
    params.push(0x01);  // scanning PHYs: LE 1M
    params.push(0x00);  // passive scanning
    push_u16(&mut params, interval);
    push_u16(&mut params, window);
    assert(params@ =~= seq![0x00, 0x00, 0x01, 0x00] + le16(interval) + le16(window));
    command(op::LE_SET_EXTENDED_SCAN_PARAMETERS, &params)
}

/// Duration and period are left at zero, meaning scan until told to stop.
pub fn le_set_extended_scan_enable(enable: bool, filter_duplicates: bool) -> (packet: Vec<u8>)
    ensures
        packet@ == extended_scan_enable_packet(enable, filter_duplicates),
{
    let mut params: Vec<u8> = Vec::new();
    params.push(flag_byte(enable));
    params.push(flag_byte(filter_duplicates));
    push_u16(&mut params, 0);  // duration: until stopped
    push_u16(&mut params, 0);  // period: no repetition
    assert(params@ =~= seq![flag(enable), flag(filter_duplicates)] + le16(0) + le16(0));
    command(op::LE_SET_EXTENDED_SCAN_ENABLE, &params)
}

// ---- Connection setup ----

/// A supervision timeout brought into what the specification allows.
pub open spec fn permitted_supervision(timeout: u16) -> u16 {
    if timeout < 0x000A {
        0x000A
    } else if timeout > 0x0C80 {
        0x0C80
    } else {
        timeout
    }
}

/// Keeps a supervision timeout inside what the specification allows.
///
/// Units of 10 ms, from 100 ms to 32 s. Also enforced against the connection
/// interval: the timeout must exceed twice the maximum interval, and a
/// controller answers an impossible pair with "invalid HCI parameters" rather
/// than with anything that names the offending number.
pub fn clamp_supervision(timeout: u16) -> (clamped: u16)
    ensures
        clamped == permitted_supervision(timeout),
{
    if timeout < 0x000A {
        0x000A
    } else if timeout > 0x0C80 {
        0x0C80
    } else {
        timeout
    }
}

/// A clamped timeout is always permitted, clamping it again changes nothing,
/// and a permitted one is left alone.
pub proof fn clamping_supervision_settles(timeout: u16)
    ensures
        0x000A <= permitted_supervision(timeout) <= 0x0C80,
        permitted_supervision(permitted_supervision(timeout)) == permitted_supervision(timeout),
        0x000A <= timeout <= 0x0C80 ==> permitted_supervision(timeout) == timeout,
{
}

/// The command that asks for a connection with `peer`.
pub open spec fn connection_packet(
    peer: Seq<u8>,
    peer_address_type: u8,
    supervision_timeout: u16,
) -> Seq<u8> {
    command_packet(
        op::LE_CREATE_CONNECTION,
        le16(0x0060) + le16(0x0030) + seq![0x00, peer_address_type] + peer + seq![0x00] + le16(
            0x0018,
        ) + le16(0x0028) + le16(0) + le16(permitted_supervision(supervision_timeout)) + le16(0)
            + le16(0),
    )
}

/// The command that asks for a connection with `peer` in the extended form.
pub open spec fn extended_connection_packet(
    peer: Seq<u8>,
    peer_address_type: u8,
    supervision_timeout: u16,
) -> Seq<u8> {
    command_packet(
        op::LE_EXTENDED_CREATE_CONNECTION,
        seq![0x00, 0x00, peer_address_type] + peer + seq![0x01] + le16(0x0024) + le16(0x0012)
            + le16(0x0018) + le16(0x0018) + le16(0) + le16(
            permitted_supervision(supervision_timeout),
        ) + le16(0) + le16(0),
    )
}

/// Builds LE Create Connection.
///
/// The connection interval asked for here is only an opening position; the
/// peripheral usually proposes its own preference straight afterwards, and for
/// audio the interval that matters is the CIG one anyway.
pub fn le_create_connection(
    peer: BdAddr,
    peer_address_type: u8,
    supervision_timeout: u16,
) -> (packet: Vec<u8>)
    ensures
        packet@ == connection_packet(peer.0@, peer_address_type, supervision_timeout),
{
    let mut params: Vec<u8> = Vec::new();
    push_u16(&mut params, 0x0060);  // scan interval 60 ms
    push_u16(&mut params, 0x0030);  // scan window 30 ms
    params.push(0x00);  // no accept list, use peer address
    params.push(peer_address_type);
    push_bytes(&mut params, &peer.0);
    params.push(0x00);  // own address: public
    push_u16(&mut params, 0x0018);  // interval min 30 ms
    push_u16(&mut params, 0x0028);  // interval max 50 ms
    push_u16(&mut params, 0x0000);  // latency
    push_u16(&mut params, clamp_supervision(supervision_timeout));
    push_u16(&mut params, 0x0000);  // min CE length
    push_u16(&mut params, 0x0000);  // max CE length
    assert(params@ =~= le16(0x0060) + le16(0x0030) + seq![0x00, peer_address_type] + peer.0@
        + seq![0x00] + le16(0x0018) + le16(0x0028) + le16(0) + le16(
        permitted_supervision(supervision_timeout),
    ) + le16(0) + le16(0));
    command(op::LE_CREATE_CONNECTION, &params)
}

/// The parameters of LE Connection Update, and of the reply that accepts a
/// peer's request: handle, the four values with the timeout clamped, and no
/// preference for the event lengths.
pub open spec fn connection_update_params(
    handle: u16,
    interval_min: u16,
    interval_max: u16,
    latency: u16,
    supervision_timeout: u16,
) -> Seq<u8> {
    le16(handle) + le16(interval_min) + le16(interval_max) + le16(latency) + le16(
        permitted_supervision(supervision_timeout),
    ) + le16(0) + le16(0)
}

/// Builds LE Connection Update: new interval, peripheral latency and timeout.
///
/// Audio does not travel on the ACL - it has its own isochronous channels - so
/// once the stream is configured the ACL carries almost nothing: a volume
/// notification when somebody touches the earcup, a battery level now and again.
/// It still costs both radios a connection event every interval, and peripheral
/// latency is the specification's own answer: the headphones may skip up to that
/// many events when they have nothing to say, and wake for the next one when
/// they do. Nothing is lost, because anything we send still arrives at the very
/// next event.
///
/// The supervision timeout has to stay longer than `2 * interval_max * (latency + 1)`
/// or the link declares itself dead in normal operation; the caller is expected
/// to have clamped it.
pub fn le_connection_update(
    handle: u16,
    interval_min: u16,
    interval_max: u16,
    latency: u16,
    supervision_timeout: u16,
) -> (packet: Vec<u8>)
    ensures
        packet@ == command_packet(
            op::LE_CONNECTION_UPDATE,
            connection_update_params(
                handle,
                interval_min,
                interval_max,
                latency,
                supervision_timeout,
            ),
        ),
{
    let params = update_params(handle, interval_min, interval_max, latency, supervision_timeout);
    command(op::LE_CONNECTION_UPDATE, &params)
}

fn update_params(
    handle: u16,
    interval_min: u16,
    interval_max: u16,
    latency: u16,
    supervision_timeout: u16,
) -> (params: Vec<u8>)
    ensures
        params@ == connection_update_params(
            handle,
            interval_min,
            interval_max,
            latency,
            supervision_timeout,
        ),
        params@.len() == 14,
{
    let mut params: Vec<u8> = Vec::new();
    push_u16(&mut params, handle);
    push_u16(&mut params, interval_min);
    push_u16(&mut params, interval_max);
    push_u16(&mut params, latency);
    push_u16(&mut params, clamp_supervision(supervision_timeout));
    push_u16(&mut params, 0x0000);  // min CE length
    push_u16(&mut params, 0x0000);  // max CE length
    assert(params@ =~= connection_update_params(
        handle,
        interval_min,
        interval_max,
        latency,
        supervision_timeout,
    ));
    params
}

/// The command that states a PHY preference.
pub open spec fn phy_packet(handle: u16, preference: u8) -> Seq<u8> {
    command_packet(op::LE_SET_PHY, le16(handle) + seq![0, preference, preference, 0, 0])
}

/// Preference bits for ACL only; CIS PHY is negotiated with the audio group.
pub fn le_set_phy(handle: u16, preference: u8) -> (packet: Vec<u8>)
    ensures
        packet@ == phy_packet(handle, preference),
{
    let mut params: Vec<u8> = Vec::new();
    push_u16(&mut params, handle);
    params.push(0);
    params.push(preference);
    params.push(preference);
    params.push(0);
    params.push(0);
    assert(params@ =~= le16(handle) + seq![0, preference, preference, 0, 0]);
    command(op::LE_SET_PHY, &params)
}

/// A connection interval in milliseconds with two decimals; one unit is 1.25 ms.
pub open spec fn interval_text(units: u16) -> Seq<char> {
    let quarters = units * 5;
    decimal((quarters / 4) as nat) + "."@ + (if quarters % 4 == 0 {
        "00"@
    } else if quarters % 4 == 1 {
        "25"@
    } else if quarters % 4 == 2 {
        "50"@
    } else {
        "75"@
    })
}

fn push_interval(text: &mut String, units: u16)
    ensures
        final(text)@ == old(text)@ + interval_text(units),
{
    let quarters: u32 = units as u32 * 5;
    push_decimal(text, (quarters / 4) as u64);
    text.append(".");
    let rest = quarters % 4;
    text.append(
        if rest == 0 {
            "00"
        } else if rest == 1 {
            "25"
        } else if rest == 2 {
            "50"
        } else {
            "75"
        },
    );
    assert(text@ =~= old(text)@ + interval_text(units));
}

/// What an event has to say about a change to the link, if anything: a failed
/// reply to a remote request, a rejected procedure, or the outcome of a
/// parameter or PHY update.
pub open spec fn link_update_text(code: u8, p: Seq<u8>) -> Option<Seq<char>> {
    if code == evt::COMMAND_COMPLETE && p.len() >= 4 && (u16_at(p, 1) == 0x2020 || u16_at(p, 1)
        == 0x2021) && p[3] != 0 {
        Some(
            "remote link parameter reply 0x"@ + hex(u16_at(p, 1) as nat, 4) + " failed: status 0x"@
                + hex(p[3] as nat, 2),
        )
    } else if code == evt::COMMAND_STATUS && p.len() >= 4 && (u16_at(p, 2)
        == op::LE_CONNECTION_UPDATE || u16_at(p, 2) == op::LE_SET_PHY) && p[0] != 0 {
        Some(
            "link procedure 0x"@ + hex(u16_at(p, 2) as nat, 4) + " rejected: status 0x"@ + hex(
                p[0] as nat,
                2,
            ),
        )
    } else if subevent_of(code, p) == Some(0x03u8) && p.len() >= 10 {
        Some(
            "ACL 0x"@ + hex(u16_at(p, 2) as nat, 4) + " parameter update: status 0x"@ + hex(
                p[1] as nat,
                2,
            ) + ", interval "@ + interval_text(u16_at(p, 4)) + " ms, latency "@ + decimal(
                u16_at(p, 6) as nat,
            ) + ", timeout "@ + decimal((u16_at(p, 8) * 10) as nat) + " ms"@,
        )
    } else if subevent_of(code, p) == Some(0x0cu8) && p.len() >= 6 {
        Some(
            "ACL 0x"@ + hex(u16_at(p, 2) as nat, 4) + " PHY update: status 0x"@ + hex(
                p[1] as nat,
                2,
            ) + ", TX "@ + decimal(p[4] as nat) + ", RX "@ + decimal(p[5] as nat)
                + " (1=1M, 2=2M, 3=Coded)"@,
        )
    } else {
        None
    }
}

/// One line about a change to the link that an event reports.
pub fn link_update_summary(event: &Event) -> (summary: Option<String>)
    ensures
        match link_update_text(event.code, event.params@) {
            Some(text) => summary matches Some(s) && s@ == text,
            None => summary is None,
        },
{
    if let Some((opcode, params)) = event.command_complete() {
        if (opcode == 0x2020 || opcode == 0x2021) && params.len() > 0 && params[0] != 0 {
            let mut text = String::new();
            text.append("remote link parameter reply 0x");
            push_hex(&mut text, opcode as u64, 4);
            text.append(" failed: status 0x");
            push_hex(&mut text, params[0] as u64, 2);
            assert(text@ =~= link_update_text(event.code, event.params@)->0);
            return Some(text);
        }
    }
    if let Some((status, opcode)) = event.command_status() {
        if (opcode == op::LE_CONNECTION_UPDATE || opcode == op::LE_SET_PHY) && status != 0 {
            let mut text = String::new();
            text.append("link procedure 0x");
            push_hex(&mut text, opcode as u64, 4);
            text.append(" rejected: status 0x");
            push_hex(&mut text, status as u64, 2);
            assert(text@ =~= link_update_text(event.code, event.params@)->0);
            return Some(text);
        }
    }
    let p: &[u8] = &event.params;
    match event.subevent() {
        Some(subevent) => {
            if subevent == 0x03 && p.len() >= 10 {
                let mut text = String::new();
                text.append("ACL 0x");
                push_hex(&mut text, read_u16(p, 2) as u64, 4);
                text.append(" parameter update: status 0x");
                push_hex(&mut text, p[1] as u64, 2);
                text.append(", interval ");
                push_interval(&mut text, read_u16(p, 4));
                text.append(" ms, latency ");
                push_decimal(&mut text, read_u16(p, 6) as u64);
                text.append(", timeout ");
                push_decimal(&mut text, read_u16(p, 8) as u64 * 10);
                text.append(" ms");
                assert(text@ =~= link_update_text(event.code, event.params@)->0);
                Some(text)
            } else if subevent == 0x0c && p.len() >= 6 {
                let mut text = String::new();
                text.append("ACL 0x");
                push_hex(&mut text, read_u16(p, 2) as u64, 4);
                text.append(" PHY update: status 0x");
                push_hex(&mut text, p[1] as u64, 2);
                text.append(", TX ");
                push_decimal(&mut text, p[4] as u64);
                text.append(", RX ");
                push_decimal(&mut text, p[5] as u64);
                text.append(" (1=1M, 2=2M, 3=Coded)");
                assert(text@ =~= link_update_text(event.code, event.params@)->0);
                Some(text)
            } else {
                None
            }
        },
        None => None,
    }
}

/// The host's answer to a Remote Connection Parameter Request: an acceptance
/// that repeats permitted parameters, a refusal of any others.
pub open spec fn remote_parameter_answer(code: u8, p: Seq<u8>) -> Option<Seq<u8>> {
    if subevent_of(code, p) != Some(0x06u8) || p.len() != 11 {
        None
    } else {
        let asked = parameters_at(p, 3);
        if asked.permitted() {
            Some(
                command_packet(
                    0x2020,
                    connection_update_params(
                        u16_at(p, 1),
                        asked.interval_min,
                        asked.interval_max,
                        asked.latency,
                        asked.supervision_timeout,
                    ),
                ),
            )
        } else {
            Some(command_packet(0x2021, le16(u16_at(p, 1)) + seq![0x3b]))
        }
    }
}

/// LL parameter requests also require a host reply, independently of L2CAP.
pub fn remote_parameter_reply(event: &Event) -> (reply: Option<Vec<u8>>)
    ensures
        match remote_parameter_answer(event.code, event.params@) {
            Some(bytes) => reply matches Some(packet) && packet@ == bytes,
            None => reply is None,
        },
{
    let asked_for = match event.subevent() {
        Some(code) => code == 0x06,
        None => false,
    };
    if !asked_for || event.params.len() != 11 {
        return None;
    }
    let p: &[u8] = &event.params;
    let handle = read_u16(p, 1);
    let parameters = ConnectionParameters {
        interval_min: read_u16(p, 3),
        interval_max: read_u16(p, 5),
        latency: read_u16(p, 7),
        supervision_timeout: read_u16(p, 9),
    };
    if parameters.valid() {
        let params = update_params(
            handle,
            parameters.interval_min,
            parameters.interval_max,
            parameters.latency,
            parameters.supervision_timeout,
        );
        Some(command(0x2020, &params))
    } else {
        let mut params: Vec<u8> = Vec::new();
        push_u16(&mut params, handle);
        params.push(0x3b);
        assert(params@ =~= le16(handle) + seq![0x3b]);
        Some(command(0x2021, &params))
    }
}

/// A host that accepts a peer's parameters never alters them: the clamp leaves
/// every permitted timeout as it was asked for.
pub proof fn accepted_parameters_are_the_ones_asked_for(handle: u16, asked: ConnectionParameters)
    requires
        asked.permitted(),
    ensures
        connection_update_params(
            handle,
            asked.interval_min,
            asked.interval_max,
            asked.latency,
            asked.supervision_timeout,
        ) == le16(handle) + parameter_bytes(asked) + le16(0) + le16(0),
{
    assert(connection_update_params(
        handle,
        asked.interval_min,
        asked.interval_max,
        asked.latency,
        asked.supervision_timeout,
    ) =~= le16(handle) + parameter_bytes(asked) + le16(0) + le16(0));
}

/// Builds LE Extended Create Connection on the 1M PHY.
///
/// The extended form is what a controller expects once extended scanning has
/// been used; mixing the two generations is what the specification allows a
/// controller to refuse outright. Parameters follow the Windows driver capture:
/// a 30 ms connection interval and a 5 s supervision timeout.
pub fn le_extended_create_connection(
    peer: BdAddr,
    peer_address_type: u8,
    supervision_timeout: u16,
) -> (packet: Vec<u8>)
    ensures
        packet@ == extended_connection_packet(peer.0@, peer_address_type, supervision_timeout),
{
    let mut params: Vec<u8> = Vec::new();
    params.push(0x00);  // no accept list, use the peer address below
    params.push(0x00);  // own address: public
    params.push(peer_address_type);
    push_bytes(&mut params, &peer.0);
    params.push(0x01);  // initiating PHYs: LE 1M

    // One set of parameters per PHY named above.
    push_u16(&mut params, 0x0024);  // scan interval 22.5 ms
    push_u16(&mut params, 0x0012);  // scan window 11.25 ms
    push_u16(&mut params, 0x0018);  // interval min 30 ms
    push_u16(&mut params, 0x0018);  // interval max 30 ms
    push_u16(&mut params, 0x0000);  // latency
    push_u16(&mut params, clamp_supervision(supervision_timeout));
    push_u16(&mut params, 0x0000);  // min CE length
    push_u16(&mut params, 0x0000);  // max CE length
    assert(params@ =~= seq![0x00, 0x00, peer_address_type] + peer.0@ + seq![0x01] + le16(0x0024)
        + le16(0x0012) + le16(0x0018) + le16(0x0018) + le16(0) + le16(
        permitted_supervision(supervision_timeout),
    ) + le16(0) + le16(0));
    command(op::LE_EXTENDED_CREATE_CONNECTION, &params)
}

/// Cancels a connection attempt that is taking too long.
pub fn le_create_connection_cancel() -> (packet: Vec<u8>)
    ensures
        packet@ == command_packet(op::LE_CREATE_CONNECTION_CANCEL, seq![]),
{
    let none: [u8; 0] = [];
    assert(none@ =~= seq![]);
    command(op::LE_CREATE_CONNECTION_CANCEL, &none)
}

/// The command that starts encryption with a key.
pub open spec fn encryption_packet(handle: u16, long_term_key: Seq<u8>) -> Seq<u8> {
    command_packet(
        op::LE_ENABLE_ENCRYPTION,
        le16(handle) + Seq::new(10, |i: int| 0u8) + long_term_key,
    )
}

/// Builds LE Enable Encryption, which starts encryption using a known key.
///
/// With LE Secure Connections the diversifier and random number are zero - the
/// long term key came from the pairing exchange, not from a legacy lookup.
pub fn le_enable_encryption(handle: u16, long_term_key: &[u8; 16]) -> (packet: Vec<u8>)
    ensures
        packet@ == encryption_packet(handle, long_term_key@),
{
    let zeros: [u8; 10] = [0u8; 10];  // random number, then encrypted diversifier
    let mut params: Vec<u8> = Vec::new();
    push_u16(&mut params, handle);
    push_bytes(&mut params, &zeros);
    push_bytes(&mut params, long_term_key);
    assert(params@ =~= le16(handle) + Seq::new(10, |i: int| 0u8) + long_term_key@);
    command(op::LE_ENABLE_ENCRYPTION, &params)
}

/// Event code of Encryption Change.
pub const EVT_ENCRYPTION_CHANGE: u8 = 0x08;

/// Event code of Number Of Completed Packets.
pub const EVT_NUMBER_OF_COMPLETED_PACKETS: u8 = 0x13;

/// Event 0x08: Encryption Change. Returns the handle and whether encryption is on.
pub fn parse_encryption_change(event: &Event) -> (change: Option<(u16, bool)>)
    ensures
        change == if event.code == EVT_ENCRYPTION_CHANGE && event.params@.len() >= 4
            && event.params@[0] == 0x00 {
            Some(((u16_at(event.params@, 1) % 4096) as u16, event.params@[3] != 0x00))
        } else {
            None
        },
{
    if event.code != EVT_ENCRYPTION_CHANGE || event.params.len() < 4 {
        return None;
    }
    if event.params[0] != 0x00 {
        return None;  // failed
    }
    Some((read_u16(&event.params, 1) % 4096, event.params[3] != 0x00))
}

/// The handle, the status and the new state that an encryption change reports.
pub open spec fn encryption_of(code: u8, params: Seq<u8>) -> Option<(u16, u8, bool)> {
    if code == EVT_ENCRYPTION_CHANGE && params.len() >= 4 {
        Some(((u16_at(params, 1) % 4096) as u16, params[0], params[3] != 0x00))
    } else {
        None
    }
}

/// Encryption Change with the controller-reported status, a failure too.
pub fn parse_encryption_result(event: &Event) -> (change: Option<(u16, u8, bool)>)
    ensures
        change == encryption_of(event.code, event.params@),
{
    if event.code != EVT_ENCRYPTION_CHANGE || event.params.len() < 4 {
        return None;
    }
    Some((read_u16(&event.params, 1) % 4096, event.params[0], event.params[3] != 0x00))
}

/// The handle and reason of a completed disconnection.
pub open spec fn disconnection_of(code: u8, params: Seq<u8>) -> Option<(u16, u8)> {
    if code == evt::DISCONNECTION_COMPLETE && params.len() >= 4 && params[0] == 0x00 {
        Some(((u16_at(params, 1) % 4096) as u16, params[3]))
    } else {
        None
    }
}

/// Parses Disconnection Complete, returning the handle and the reason code.
///
/// Worth watching during any wait for data: once the link is gone nothing will
/// ever answer, and without this the stack sits out the full timeout and only
/// blames the peer for staying silent.
pub fn parse_disconnection_complete(event: &Event) -> (ended: Option<(u16, u8)>)
    ensures
        ended == disconnection_of(event.code, event.params@),
{
    if event.code != evt::DISCONNECTION_COMPLETE || event.params.len() < 4 {
        return None;
    }
    if event.params[0] != 0x00 {
        return None;  // the disconnection command itself failed
    }
    Some((read_u16(&event.params, 1) % 4096, event.params[3]))
}

/// The status and the handle that LE CIS Established reports.
pub open spec fn established_of(code: u8, params: Seq<u8>) -> Option<(u8, u16)> {
    if subevent_of(code, params) == Some(subevt::CIS_ESTABLISHED) && params.len() >= 4 {
        Some((params[1], (u16_at(params, 2) % 4096) as u16))
    } else {
        None
    }
}

/// Parses LE CIS Established, returning the status and CIS handle.
///
/// This is the only real proof that an isochronous channel exists. The Command
/// Status answering LE Create CIS says the controller accepted the request, not
/// that the channel came up - and on this hardware the second channel is
/// exactly the one that sometimes never does.
pub fn parse_cis_established(event: &Event) -> (established: Option<(u8, u16)>)
    ensures
        established == established_of(event.code, event.params@),
{
    match event.subevent() {
        Some(code) => if code != subevt::CIS_ESTABLISHED || event.params.len() < 4 {
            None
        } else {
            Some((event.params[1], read_u16(&event.params, 2) % 4096))
        },
        None => None,
    }
}

/// How many of the reports an event announces are all there: the handles come
/// first, the packet counts after them.
pub open spec fn complete_reports(params: Seq<u8>) -> nat {
    let count = params[0] as int;
    let present = (params.len() - 1 - 2 * count) / 2;
    if present < 0 {
        0
    } else if present < count {
        present as nat
    } else {
        count as nat
    }
}

/// The handle and packet count of each report in a Number Of Completed Packets
/// event.
pub open spec fn completed_packets(code: u8, params: Seq<u8>) -> Seq<(u16, u16)> {
    if code != EVT_NUMBER_OF_COMPLETED_PACKETS || params.len() == 0 {
        Seq::empty()
    } else {
        Seq::new(
            complete_reports(params),
            |i: int| (u16_at(params, 1 + 2 * i), u16_at(params, 1 + 2 * params[0] + 2 * i)),
        )
    }
}

/// How many packets the controller has finished sending, per connection.
///
/// The only proof from the controller that a stream is actually going out. Two
/// isochronous channels that both accept writes look identical from the host;
/// the difference shows up here, when one of them stops reporting completions
/// and the other keeps going.
pub fn parse_number_of_completed_packets(event: &Event) -> (reports: Vec<(u16, u16)>)
    ensures
        reports@ == completed_packets(event.code, event.params@),
{
    if event.code != EVT_NUMBER_OF_COMPLETED_PACKETS || event.params.len() == 0 {
        let none: Vec<(u16, u16)> = Vec::new();
        assert(none@ =~= completed_packets(event.code, event.params@));
        return none;
    }
    let count = event.params[0] as usize;
    let mut reports: Vec<(u16, u16)> = Vec::new();
    let mut index: usize = 0;
    while index < count && 1 + count * 2 + index * 2 + 2 <= event.params.len()
        invariant
            index <= count <= 255,
            count == event.params@[0],
            event.params@.len() > 0,
            index <= complete_reports(event.params@),
            reports@ =~= Seq::new(
                index as nat,
                |i: int|
                    (
                        u16_at(event.params@, 1 + 2 * i),
                        u16_at(event.params@, 1 + 2 * event.params@[0] + 2 * i),
                    ),
            ),
        decreases count - index,
    {
        let handle_at: usize = 1 + index * 2;
        let packets_at: usize = 1 + count * 2 + index * 2;
        reports.push((read_u16(&event.params, handle_at), read_u16(&event.params, packets_at)));
        index = index + 1;
    }
    assert(reports@ =~= completed_packets(event.code, event.params@));
    reports
}

/// The name of each reason a link went away for.
pub open spec fn reason_text(reason: u8) -> Seq<char> {
    match reason {
        0x08 => "spojeni vyprselo (supervision timeout)"@,
        0x13 => "protejsek spojeni ukoncil"@,
        0x14 => "protejsek ukoncil spojeni kvuli nizke baterii"@,
        0x15 => "protejsek se vypina"@,
        0x16 => "spojeni ukoncil hostitel"@,
        0x1A => "protejsek nepodporuje pozadovanou funkci"@,
        0x22 => "vyprsel LMP/LL timeout"@,
        0x28 => "vyprsel instant"@,
        0x3B => "nepovolene parametry spojeni"@,
        0x3D => "spojeni ukonceno kvuli chybam MIC"@,
        0x3E => "spojeni se nepodarilo navazat"@,
        _ => "viz Core spec Part D"@,
    }
}

/// Plain-language name for why a link went away.
pub fn disconnect_reason(reason: u8) -> (name: &'static str)
    ensures
        name@ == reason_text(reason),
{
    match reason {
        0x08 => "spojeni vyprselo (supervision timeout)",
        0x13 => "protejsek spojeni ukoncil",
        0x14 => "protejsek ukoncil spojeni kvuli nizke baterii",
        0x15 => "protejsek se vypina",
        0x16 => "spojeni ukoncil hostitel",
        0x1A => "protejsek nepodporuje pozadovanou funkci",
        0x22 => "vyprsel LMP/LL timeout",
        0x28 => "vyprsel instant",
        0x3B => "nepovolene parametry spojeni",
        0x3D => "spojeni ukonceno kvuli chybam MIC",
        0x3E => "spojeni se nepodarilo navazat",
        _ => "viz Core spec Part D",
    }
}

// ---- Isochronous channel setup ----

/// One CIS inside a CIG.
#[derive(Debug, Clone, Copy, PartialEq, Eq, Structural)]
pub struct CisParams {
    pub cis_id: u8,
    /// Central to peripheral: what we send. Zero for a direction we do not use.
    pub max_sdu_c_to_p: u16,
    pub max_sdu_p_to_c: u16,
    pub phy_c_to_p: u8,
    pub phy_p_to_c: u8,
    pub rtn_c_to_p: u8,
    pub rtn_p_to_c: u8,
}

/// The controller puts one channel's subevents after the other's.
pub const PACKING_SEQUENTIAL: u8 = 0x00;

/// The controller alternates the channels' subevents.
///
/// For two channels going to the same pair of earpieces, interleaved spreads
/// each channel's retransmission opportunities across the whole interval
/// instead of bunching them, which is the difference between a second channel
/// that comes up and one that reports "connection failed to be established"
/// while the first is fine.
pub const PACKING_INTERLEAVED: u8 = 0x01;

/// The nine bytes that describe one CIS.
pub open spec fn cis_bytes(cis: CisParams) -> Seq<u8> {
    seq![cis.cis_id] + le16(cis.max_sdu_c_to_p) + le16(cis.max_sdu_p_to_c) + seq![
        cis.phy_c_to_p,
        cis.phy_p_to_c,
        cis.rtn_c_to_p,
        cis.rtn_p_to_c,
    ]
}

/// The descriptions of several CISes, one after the other.
pub open spec fn all_cis_bytes(cis: Seq<CisParams>) -> Seq<u8>
    decreases cis.len(),
{
    if cis.len() == 0 {
        Seq::empty()
    } else {
        all_cis_bytes(cis.drop_last()) + cis_bytes(cis.last())
    }
}

/// The command that sets a group of channels up.
pub open spec fn cig_packet(
    cig_id: u8,
    sdu_interval_c_to_p_us: u32,
    sdu_interval_p_to_c_us: u32,
    framing: u8,
    max_transport_latency_c_to_p_ms: u16,
    max_transport_latency_p_to_c_ms: u16,
    packing: u8,
    cis: Seq<CisParams>,
) -> Seq<u8> {
    command_packet(
        op::LE_SET_CIG_PARAMETERS,
        seq![cig_id] + le24(sdu_interval_c_to_p_us) + le24(sdu_interval_p_to_c_us) + seq![
            0x00,
            packing,
            framing,
        ] + le16(max_transport_latency_c_to_p_ms) + le16(max_transport_latency_p_to_c_ms) + seq![
            (cis.len() % 256) as u8,
        ] + all_cis_bytes(cis),
    )
}

/// Builds LE Set CIG Parameters.
///
/// One CIS carrying stereo is preferred over two carrying a channel each: fewer
/// links to establish means fewer ways for setup to fail. At most 26 channels
/// fit in one command; the count field holds the low byte of how many there are.
pub fn le_set_cig_parameters(
    cig_id: u8,
    sdu_interval_c_to_p_us: u32,
    sdu_interval_p_to_c_us: u32,
    framing: u8,
    max_transport_latency_c_to_p_ms: u16,
    max_transport_latency_p_to_c_ms: u16,
    packing: u8,
    cis: &[CisParams],
) -> (packet: Vec<u8>)
    ensures
        packet@ == cig_packet(
            cig_id,
            sdu_interval_c_to_p_us,
            sdu_interval_p_to_c_us,
            framing,
            max_transport_latency_c_to_p_ms,
            max_transport_latency_p_to_c_ms,
            packing,
            cis@,
        ),
{
    let mut params: Vec<u8> = Vec::new();
    params.push(cig_id);
    push_u24(&mut params, sdu_interval_c_to_p_us);
    push_u24(&mut params, sdu_interval_p_to_c_us);
    params.push(0x00);  // worst case sleep clock accuracy: unknown
    params.push(packing);
    params.push(framing);
    push_u16(&mut params, max_transport_latency_c_to_p_ms);
    push_u16(&mut params, max_transport_latency_p_to_c_ms);
    params.push((cis.len() % 256) as u8);
    let ghost head = seq![cig_id] + le24(sdu_interval_c_to_p_us) + le24(sdu_interval_p_to_c_us)
        + seq![0x00, packing, framing] + le16(max_transport_latency_c_to_p_ms) + le16(
        max_transport_latency_p_to_c_ms,
    ) + seq![(cis@.len() % 256) as u8];
    assert(params@ =~= head);
    let mut i: usize = 0;
    assert(cis@.take(0) =~= Seq::<CisParams>::empty());
    assert(params@ =~= head + all_cis_bytes(cis@.take(0)));
    while i < cis.len()
        invariant
            i <= cis@.len(),
            params@ == head + all_cis_bytes(cis@.take(i as int)),
        decreases cis@.len() - i,
    {
        let entry = cis[i];
        params.push(entry.cis_id);
        push_u16(&mut params, entry.max_sdu_c_to_p);
        push_u16(&mut params, entry.max_sdu_p_to_c);
        params.push(entry.phy_c_to_p);
        params.push(entry.phy_p_to_c);
        params.push(entry.rtn_c_to_p);
        params.push(entry.rtn_p_to_c);
        proof {
            assert(cis@.take(i + 1).drop_last() =~= cis@.take(i as int));
            assert(params@ =~= head + (all_cis_bytes(cis@.take(i as int)) + cis_bytes(entry)));
        }
        i = i + 1;
    }
    assert(cis@.take(i as int) =~= cis@);
    command(op::LE_SET_CIG_PARAMETERS, &params)
}

/// CIS and ACL handle pairs, one after the other.
pub open spec fn pair_bytes(pairs: Seq<(u16, u16)>) -> Seq<u8>
    decreases pairs.len(),
{
    if pairs.len() == 0 {
        Seq::empty()
    } else {
        pair_bytes(pairs.drop_last()) + le16(pairs.last().0) + le16(pairs.last().1)
    }
}

/// Builds LE Create CIS, pairing each isochronous stream with its ACL link. At
/// most 63 pairs fit in one command; the count field holds the low byte of how
/// many there are.
pub fn le_create_cis(pairs: &[(u16, u16)]) -> (packet: Vec<u8>)
    ensures
        packet@ == command_packet(
            op::LE_CREATE_CIS,
            seq![(pairs@.len() % 256) as u8] + pair_bytes(pairs@),
        ),
{
    let mut params: Vec<u8> = Vec::new();
    params.push((pairs.len() % 256) as u8);
    let ghost head = seq![(pairs@.len() % 256) as u8];
    let mut i: usize = 0;
    assert(pairs@.take(0) =~= Seq::<(u16, u16)>::empty());
    assert(params@ =~= head + pair_bytes(pairs@.take(0)));
    while i < pairs.len()
        invariant
            i <= pairs@.len(),
            params@ == head + pair_bytes(pairs@.take(i as int)),
        decreases pairs@.len() - i,
    {
        let pair = pairs[i];
        push_u16(&mut params, pair.0);
        push_u16(&mut params, pair.1);
        proof {
            assert(pairs@.take(i + 1).drop_last() =~= pairs@.take(i as int));
            assert(params@ =~= head + (pair_bytes(pairs@.take(i as int)) + le16(pair.0) + le16(
                pair.1,
            )));
        }
        i = i + 1;
    }
    assert(pairs@.take(i as int) =~= pairs@);
    command(op::LE_CREATE_CIS, &params)
}

/// Data path direction for Setup ISO Data Path: host to controller, our audio
/// going out.
pub const ISO_PATH_INPUT: u8 = 0x00;

pub const ISO_PATH_OUTPUT: u8 = 0x01;

/// The command that sets a data path up.
pub open spec fn iso_path_packet(
    cis_handle: u16,
    direction: u8,
    controller_delay_us: u32,
) -> Seq<u8> {
    command_packet(
        op::LE_SETUP_ISO_DATA_PATH,
        le16(cis_handle) + seq![direction, 0x00] + seq![0x03, 0x00, 0x00, 0x00, 0x00] + le24(
            controller_delay_us,
        ) + seq![0x00],
    )
}

/// The command that takes a data path down.
pub open spec fn iso_path_removal(cis_handle: u16, directions: u8) -> Seq<u8> {
    command_packet(op::LE_REMOVE_ISO_DATA_PATH, le16(cis_handle).push(directions))
}

/// Builds LE Setup ISO Data Path in transparent mode.
///
/// Transparent means the controller does not touch the payload - we hand it
/// finished LC3 frames. That is the whole point: the encoder is ours, so the
/// bitrate is ours too.
pub fn le_setup_iso_data_path(
    cis_handle: u16,
    direction: u8,
    controller_delay_us: u32,
) -> (packet: Vec<u8>)
    ensures
        packet@ == iso_path_packet(cis_handle, direction, controller_delay_us),
{
    let mut params: Vec<u8> = Vec::new();
    push_u16(&mut params, cis_handle);
    params.push(direction);
    params.push(0x00);  // data path id: HCI
    params.push(0x03);  // transparent codec
    params.push(0x00);
    params.push(0x00);
    params.push(0x00);
    params.push(0x00);
    push_u24(&mut params, controller_delay_us);
    params.push(0x00);  // no codec configuration
    assert(params@ =~= le16(cis_handle) + seq![direction, 0x00] + seq![
        0x03,
        0x00,
        0x00,
        0x00,
        0x00,
    ] + le24(controller_delay_us) + seq![0x00]);
    command(op::LE_SETUP_ISO_DATA_PATH, &params)
}

/// Both directions at once, for Remove ISO Data Path.
///
/// A bitfield there, not the direction number Setup takes: one call can undo
/// both. Asking to remove a path that was never set up is answered with an
/// error and nothing else, which is why removing both unconditionally is safe.
pub const ISO_PATH_BOTH: u8 = 0x03;

/// Tears down the data path set up for a channel.
///
/// A data path is a standing arrangement between the controller and the host
/// for one channel, and it outlives the audio: while it exists the controller
/// considers the channel in use, so `LE Remove CIG` fails, the group survives
/// its own teardown, and the next `LE Set CIG Parameters` is refused with
/// "command disallowed" - a group that cannot be removed and cannot be replaced.
pub fn le_remove_iso_data_path(cis_handle: u16, directions: u8) -> (packet: Vec<u8>)
    ensures
        packet@ == iso_path_removal(cis_handle, directions),
{
    let mut params: Vec<u8> = Vec::new();
    push_u16(&mut params, cis_handle);
    params.push(directions);
    assert(params@ =~= le16(cis_handle).push(directions));
    command(op::LE_REMOVE_ISO_DATA_PATH, &params)
}

/// The command that ends a connection.
pub open spec fn disconnect_packet(handle: u16, reason: u8) -> Seq<u8> {
    command_packet(op::DISCONNECT, le16(handle).push(reason))
}

/// Ends a connection, telling the peer why.
///
/// Not optional housekeeping. Letting the handle go without this leaves the
/// controller believing the connection is still up, and the next attempt to
/// reach the same peer is refused - "connection attempt did not complete", or
/// an unknown connection identifier - because one already exists.
pub fn disconnect(handle: u16, reason: u8) -> (packet: Vec<u8>)
    ensures
        packet@ == disconnect_packet(handle, reason),
{
    let mut params: Vec<u8> = Vec::new();
    push_u16(&mut params, handle);
    params.push(reason);
    assert(params@ =~= le16(handle).push(reason));
    command(op::DISCONNECT, &params)
}

/// The reason a host gives when the user asked for the disconnection.
pub const REASON_REMOTE_USER_TERMINATED: u8 = 0x13;

pub fn le_remove_cig(cig_id: u8) -> (packet: Vec<u8>)
    ensures
        packet@ == command_packet(op::LE_REMOVE_CIG, seq![cig_id]),
{
    let params: [u8; 1] = [cig_id];
    assert(params@ =~= seq![cig_id]);
    command(op::LE_REMOVE_CIG, &params)
}

// ---- Isochronous data ----

/// An HCI ISO data packet around one payload: handle with the flag for a
/// complete SDU, load length, sequence number, SDU length, payload. The length
/// fields hold the low 16 bits of what they count.
pub open spec fn iso_packet(cis_handle: u16, sequence_number: u16, payload: Seq<u8>) -> Seq<u8> {
    le16((cis_handle % 4096 + 0x2000) as u16) + le16(((4 + payload.len()) % 0x1_0000) as u16)
        + le16(sequence_number) + le16((payload.len() % 0x1_0000) as u16) + payload
}

/// Builds an HCI ISO data packet header around one already-encoded payload.
///
/// The timestamp is omitted and the packet status is "valid data"; sequence
/// numbers must increase by one per SDU or the controller drops the stream.
pub fn iso_data_packet(cis_handle: u16, sequence_number: u16, payload: &[u8]) -> (packet: Vec<u8>)
    ensures
        packet@ == iso_packet(cis_handle, sequence_number, payload@),
{
    let mut packet: Vec<u8> = Vec::new();
    // Handle with PB flag 0b10 (complete SDU) and no timestamp.
    push_u16(&mut packet, cis_handle % 4096 + 0x2000);
    let length: usize = payload.len() % 0x1_0000;
    push_u16(&mut packet, ((4 + length) % 0x1_0000) as u16);
    push_u16(&mut packet, sequence_number);
    // SDU length with packet status flag 0b00 in the top bits.
    push_u16(&mut packet, length as u16);
    push_bytes(&mut packet, payload);
    assert((4 + length) % 0x1_0000 == (4 + payload@.len()) % 0x1_0000);
    assert(packet@ =~= iso_packet(cis_handle, sequence_number, payload@));
    packet
}

#[derive(Debug, Clone, Copy, PartialEq, Eq)]
pub struct IsoData<'a> {
    pub handle: u16,
    pub sequence_number: u16,
    pub payload: &'a [u8],
}

/// Where the SDU header of an ISO packet starts: behind the timestamp, if the
/// header says there is one.
pub open spec fn sdu_header_at(packet: Seq<u8>) -> int {
    if u16_at(packet, 0) / 0x4000 % 2 == 1 {
        8
    } else {
        4
    }
}

/// Where the load of an ISO packet ends.
pub open spec fn load_end(packet: Seq<u8>) -> int {
    4 + u16_at(packet, 2)
}

/// An ISO packet that carries one complete SDU with valid data, all of it.
pub open spec fn carries_whole_sdu(packet: Seq<u8>) -> bool {
    let at = sdu_header_at(packet);
    &&& packet.len() >= 8
    &&& u16_at(packet, 0) / 4096 % 4 == 2
    &&& load_end(packet) <= packet.len()
    &&& at + 4 <= load_end(packet)
    // Packet status in the two bits above the SDU length.
    &&& u16_at(packet, at + 2) < 0x4000
    &&& at + 4 + u16_at(packet, at + 2) <= load_end(packet)
}

/// The SDU of an ISO packet.
pub open spec fn sdu_of(packet: Seq<u8>) -> Seq<u8> {
    let at = sdu_header_at(packet);
    packet.subrange(at + 4, at + 4 + u16_at(packet, at + 2))
}

/// Parses one complete, valid HCI ISO SDU received from the controller.
/// Fragmented and invalid SDUs are ignored instead of being fed to LC3 as
/// decoder garbage; the next complete frame can be decoded independently.
pub fn parse_iso_data_packet(packet: &[u8]) -> (data: Option<IsoData<'_>>)
    ensures
        data is Some <==> carries_whole_sdu(packet@),
        data matches Some(d) ==> {
            &&& d.handle == u16_at(packet@, 0) % 4096
            &&& d.sequence_number == u16_at(packet@, sdu_header_at(packet@))
            &&& d.payload@ == sdu_of(packet@)
        },
{
    if packet.len() < 8 {
        return None;
    }
    let header = read_u16(packet, 0);
    let handle = header % 4096;
    let pb = header / 4096 % 4;
    let timestamp_present = header / 0x4000 % 2 == 1;
    if pb != 2 {
        return None;
    }
    let end: usize = 4 + read_u16(packet, 2) as usize;
    if packet.len() < end {
        return None;
    }
    let at: usize = if timestamp_present { 8 } else { 4 };
    if at + 4 > end {
        return None;
    }
    let sequence_number = read_u16(packet, at);
    let sdu = read_u16(packet, at + 2);
    let start: usize = at + 4;
    if sdu >= 0x4000 || start + sdu as usize > end {
        return None;
    }
    Some(IsoData { handle, sequence_number, payload: range(packet, start, start + sdu as usize) })
}

/// A packet built around an SDU that fits its 14-bit length field is read back
/// as the same SDU on the same channel with the same sequence number.
pub proof fn iso_packet_reads_back(cis_handle: u16, sequence_number: u16, payload: Seq<u8>)
    requires
        payload.len() <= 0x3FFF,
    ensures
        carries_whole_sdu(iso_packet(cis_handle, sequence_number, payload)),
        u16_at(iso_packet(cis_handle, sequence_number, payload), 0) % 4096 == cis_handle % 4096,
        sdu_header_at(iso_packet(cis_handle, sequence_number, payload)) == 4,
        u16_at(iso_packet(cis_handle, sequence_number, payload), 4) == sequence_number,
        sdu_of(iso_packet(cis_handle, sequence_number, payload)) == payload,
{
    let packet = iso_packet(cis_handle, sequence_number, payload);
    let header = (cis_handle % 4096 + 0x2000) as u16;
    let load = (4 + payload.len()) as u16;
    let length = payload.len() as u16;
    lemma_u16_round_trip(header);
    lemma_u16_round_trip(load);
    lemma_u16_round_trip(sequence_number);
    lemma_u16_round_trip(length);
    assert(packet[0] == le16(header)[0] && packet[1] == le16(header)[1]);
    assert(packet[2] == le16(load)[0] && packet[3] == le16(load)[1]);
    assert(packet[4] == le16(sequence_number)[0] && packet[5] == le16(sequence_number)[1]);
    assert(packet[6] == le16(length)[0] && packet[7] == le16(length)[1]);
    assert(u16_at(packet, 0) == header);
    assert(u16_at(packet, 2) == load);
    assert(u16_at(packet, 6) == length);
    assert(sdu_of(packet) =~= payload);
}

// ---- On the wire ----

/// The low byte of a 16-bit field.
pub open spec fn low(value: u16) -> u8 {
    (value % 256) as u8
}

/// The high byte of a 16-bit field.
pub open spec fn high(value: u16) -> u8 {
    (value / 256) as u8
}

/// A command is its opcode, low byte first, the number of its parameter bytes and
/// the parameters.
pub proof fn a_command_on_the_wire(opcode: u16, params: Seq<u8>)
    requires
        params.len() < 256,
    ensures
        command_packet(opcode, params) == seq![low(opcode), high(opcode), params.len() as u8]
            + params,
{
    assert(command_packet(opcode, params) =~= seq![
        low(opcode),
        high(opcode),
        params.len() as u8,
    ] + params);
}

/// A scan of either generation is passive, from a public address and accepts every
/// advertisement; the extended one runs on the 1M PHY and until it is stopped. The
/// interval stands before the window.
#[verifier::rlimit(60)]
pub proof fn a_scan_on_the_wire(interval: u16, window: u16, enable: bool, filter: bool)
    ensures
        scan_parameters_packet(interval, window) == seq![
            0x0Bu8,
            0x20,
            7,
            0,
            low(interval),
            high(interval),
            low(window),
            high(window),
            0,
            0,
        ],
        extended_scan_parameters_packet(interval, window) == seq![
            0x41u8,
            0x20,
            8,
            0,
            0,
            1,
            0,
            low(interval),
            high(interval),
            low(window),
            high(window),
        ],
        ({
            let (on, unique): (u8, u8) = (
                if enable {
                    1
                } else {
                    0
                },
                if filter {
                    1
                } else {
                    0
                },
            );
            &&& scan_enable_packet(enable, filter) == seq![0x0Cu8, 0x20, 2, on, unique]
            &&& extended_scan_enable_packet(enable, filter) == seq![
                0x42u8,
                0x20,
                6,
                on,
                unique,
                0,
                0,
                0,
                0,
            ]
        }),
{
    assert(scan_parameters_packet(interval, window) =~= seq![
        0x0Bu8,
        0x20,
        7,
        0,
        low(interval),
        high(interval),
        low(window),
        high(window),
        0,
        0,
    ]);
    assert(extended_scan_parameters_packet(interval, window) =~= seq![
        0x41u8,
        0x20,
        8,
        0,
        0,
        1,
        0,
        low(interval),
        high(interval),
        low(window),
        high(window),
    ]);
    let (on, unique): (u8, u8) = (
        if enable {
            1
        } else {
            0
        },
        if filter {
            1
        } else {
            0
        },
    );
    assert(scan_enable_packet(enable, filter) =~= seq![0x0Cu8, 0x20, 2, on, unique]);
    assert(extended_scan_enable_packet(enable, filter) =~= seq![
        0x42u8,
        0x20,
        6,
        on,
        unique,
        0,
        0,
        0,
        0,
    ]);
}

/// A request for a connection names the peer and its kind of address, in either
/// generation, asks for an interval of 30 ms and carries the timeout that was
/// chosen, brought into the permitted range.
#[verifier::rlimit(60)]
pub proof fn a_connection_request_on_the_wire(
    peer: Seq<u8>,
    kind: u8,
    chosen: u16,
    timeout: u16,
)
    requires
        peer.len() == 6,
        10 <= timeout <= 3200,
        timeout == chosen || (timeout == 10 && chosen < 10) || (timeout == 3200 && chosen > 3200),
    ensures
        connection_packet(peer, kind, chosen) == seq![
            0x0Du8,
            0x20,
            25,
            0x60,
            0,
            0x30,
            0,
            0,
            kind,
        ] + peer + seq![0u8, 24, 0, 40, 0, 0, 0, low(timeout), high(timeout), 0, 0, 0, 0],
        extended_connection_packet(peer, kind, chosen) == seq![0x43u8, 0x20, 26, 0, 0, kind] + peer
            + seq![
            1u8,
            0x24,
            0,
            0x12,
            0,
            24,
            0,
            24,
            0,
            0,
            0,
            low(timeout),
            high(timeout),
            0,
            0,
            0,
            0,
        ],
{
    assert(connection_packet(peer, kind, chosen) =~= seq![
        0x0Du8,
        0x20,
        25,
        0x60,
        0,
        0x30,
        0,
        0,
        kind,
    ] + peer + seq![0u8, 24, 0, 40, 0, 0, 0, low(timeout), high(timeout), 0, 0, 0, 0]);
    assert(extended_connection_packet(peer, kind, chosen) =~= seq![
        0x43u8,
        0x20,
        26,
        0,
        0,
        kind,
    ] + peer + seq![
        1u8,
        0x24,
        0,
        0x12,
        0,
        24,
        0,
        24,
        0,
        0,
        0,
        low(timeout),
        high(timeout),
        0,
        0,
        0,
        0,
    ]);
}

/// An update names the connection, the shortest and the longest interval, the
/// latency and the timeout, in this order.
#[verifier::rlimit(60)]
pub proof fn an_update_on_the_wire(
    handle: u16,
    shortest: u16,
    longest: u16,
    latency: u16,
    timeout: u16,
)
    requires
        10 <= timeout <= 3200,
    ensures
        connection_update_params(handle, shortest, longest, latency, timeout) == seq![
            low(handle),
            high(handle),
            low(shortest),
            high(shortest),
            low(longest),
            high(longest),
            low(latency),
            high(latency),
            low(timeout),
            high(timeout),
            0,
            0,
            0,
            0,
        ],
{
    assert(connection_update_params(handle, shortest, longest, latency, timeout) =~= seq![
        low(handle),
        high(handle),
        low(shortest),
        high(shortest),
        low(longest),
        high(longest),
        low(latency),
        high(latency),
        low(timeout),
        high(timeout),
        0,
        0,
        0,
        0,
    ]);
}

/// A completed connection is told by either form of the event, with its status,
/// its handle without the flag bits and the peer's address; no other event tells
/// one.
pub proof fn a_connection_is_told_by_its_event(
    kind: u8,
    status: u8,
    handle: u16,
    flags: u16,
    role: u8,
    peer_type: u8,
    peer: Seq<u8>,
    more: Seq<u8>,
)
    requires
        handle < 4096,
        flags < 16,
        peer.len() == 6,
    ensures
        ({
            let field = (handle + 4096 * flags) as u16;
            let params = seq![kind, status, low(field), high(field), role, peer_type] + peer + more;
            &&& kind == 0x01 || kind == 0x0A ==> connection_result_of(0x3E, params) == Some(
                (status, handle, peer),
            )
            &&& kind != 0x01 && kind != 0x0A ==> connection_result_of(0x3E, params) is None
        }),
        forall|code: u8, params: Seq<u8>|
            code != 0x3E ==> #[trigger] connection_result_of(code, params) is None,
{
    let field = (handle + 4096 * flags) as u16;
    let params = seq![kind, status, low(field), high(field), role, peer_type] + peer + more;
    assert(params[2] == low(field) && params[3] == high(field));
    assert(u16_at(params, 2) == field);
    assert(params.subrange(6, 12) =~= peer);
    assert(params[0] == kind && params[1] == status);
}

/// A change of encryption and the end of a connection are told by their events:
/// status first, then the handle without its flag bits, then whether encryption is
/// on, or the reason. A disconnection that failed ended nothing.
pub proof fn encryption_and_loss_are_told_by_their_events(
    status: u8,
    handle: u16,
    flags: u16,
    last: u8,
    more: Seq<u8>,
)
    requires
        handle < 4096,
        flags < 16,
    ensures
        ({
            let field = (handle + 4096 * flags) as u16;
            let params = seq![status, low(field), high(field), last] + more;
            &&& encryption_of(0x08, params) == Some((handle, status, last != 0))
            &&& status == 0 ==> disconnection_of(0x05, params) == Some((handle, last))
            &&& status != 0 ==> disconnection_of(0x05, params) is None
        }),
        forall|code: u8, params: Seq<u8>|
            code != 0x08 ==> #[trigger] encryption_of(code, params) is None,
        forall|code: u8, params: Seq<u8>|
            code != 0x05 ==> #[trigger] disconnection_of(code, params) is None,
{
    let field = (handle + 4096 * flags) as u16;
    let params = seq![status, low(field), high(field), last] + more;
    assert(params[0] == status && params[3] == last);
    assert(params[1] == low(field) && params[2] == high(field));
    assert(u16_at(params, 1) == field);
}

/// The controller's identity: status, HCI version and revision, link manager
/// version, manufacturer, subversion. A failed command names no controller.
#[verifier::rlimit(60)]
pub proof fn a_version_reads_back(
    status: u8,
    hci_version: u8,
    revision: u16,
    lmp_version: u8,
    manufacturer: u16,
    subversion: u16,
    more: Seq<u8>,
)
    ensures
        ({
            let params = seq![
                status,
                hci_version,
                low(revision),
                high(revision),
                lmp_version,
                low(manufacturer),
                high(manufacturer),
                low(subversion),
                high(subversion),
            ] + more;
            LocalVersion::read(params) == if status == 0 {
                Some(LocalVersion { hci_version, manufacturer, lmp_version })
            } else {
                None
            }
        }),
{
    let params = seq![
        status,
        hci_version,
        low(revision),
        high(revision),
        lmp_version,
        low(manufacturer),
        high(manufacturer),
        low(subversion),
        high(subversion),
    ] + more;
    assert(params[0] == status && params[1] == hci_version && params[4] == lmp_version);
    assert(params[5] == low(manufacturer) && params[6] == high(manufacturer));
    assert(u16_at(params, 5) == manufacturer);
}

/// Completed packets come as all handles and then all counts. Each handle gets the
/// count at its own place, and a report that is cut short loses its last entries
/// only.
pub proof fn every_handle_gets_its_own_count(params: Seq<u8>, i: int)
    requires
        params.len() > 0,
        0 <= i < params[0],
        1 + 2 * params[0] + 2 * i + 2 <= params.len(),
    ensures
        i < completed_packets(0x13, params).len() <= params[0],
        completed_packets(0x13, params)[i].0 == params[1 + 2 * i] + 256 * params[2 + 2 * i],
        completed_packets(0x13, params)[i].1 == params[1 + 2 * params[0] + 2 * i] + 256 * params[2
            + 2 * params[0] + 2 * i],
        params.len() == 1 + 4 * params[0] ==> completed_packets(0x13, params).len() == params[0],
        forall|code: u8| code != 0x13 ==> #[trigger] completed_packets(code, params).len() == 0,
{
}

/// Channels are described one after the other in nine bytes each: number, the two
/// SDU sizes, the two PHYs and the two retransmission counts, each time our own
/// direction first. Channels are paired with their link one after the other too,
/// the channel first.
#[verifier::rlimit(60)]
pub proof fn channels_on_the_wire(cis: Seq<CisParams>, pairs: Seq<(u16, u16)>, i: int)
    ensures
        all_cis_bytes(cis).len() == 9 * cis.len(),
        pair_bytes(pairs).len() == 4 * pairs.len(),
        0 <= i < cis.len() ==> all_cis_bytes(cis).subrange(9 * i, 9 * i + 9) == seq![
            cis[i].cis_id,
            low(cis[i].max_sdu_c_to_p),
            high(cis[i].max_sdu_c_to_p),
            low(cis[i].max_sdu_p_to_c),
            high(cis[i].max_sdu_p_to_c),
            cis[i].phy_c_to_p,
            cis[i].phy_p_to_c,
            cis[i].rtn_c_to_p,
            cis[i].rtn_p_to_c,
        ],
        0 <= i < pairs.len() ==> pair_bytes(pairs).subrange(4 * i, 4 * i + 4) == seq![
            low(pairs[i].0),
            high(pairs[i].0),
            low(pairs[i].1),
            high(pairs[i].1),
        ],
    decreases cis.len() + pairs.len(),
{
    if cis.len() > 0 {
        let rest = cis.drop_last();
        channels_on_the_wire(rest, Seq::empty(), i);
        if 0 <= i < cis.len() {
            let all = all_cis_bytes(cis);
            let want = seq![
                cis[i].cis_id,
                low(cis[i].max_sdu_c_to_p),
                high(cis[i].max_sdu_c_to_p),
                low(cis[i].max_sdu_p_to_c),
                high(cis[i].max_sdu_p_to_c),
                cis[i].phy_c_to_p,
                cis[i].phy_p_to_c,
                cis[i].rtn_c_to_p,
                cis[i].rtn_p_to_c,
            ];
            if i < rest.len() {
                assert(all.subrange(9 * i, 9 * i + 9) =~= all_cis_bytes(rest).subrange(
                    9 * i,
                    9 * i + 9,
                ));
            } else {
                assert(all.subrange(9 * i, 9 * i + 9) =~= want);
            }
        }
    }
    if pairs.len() > 0 {
        let rest = pairs.drop_last();
        channels_on_the_wire(Seq::empty(), rest, i);
        if 0 <= i < pairs.len() {
            let all = pair_bytes(pairs);
            let want = seq![
                low(pairs[i].0),
                high(pairs[i].0),
                low(pairs[i].1),
                high(pairs[i].1),
            ];
            if i < rest.len() {
                assert(all.subrange(4 * i, 4 * i + 4) =~= pair_bytes(rest).subrange(
                    4 * i,
                    4 * i + 4,
                ));
            } else {
                assert(all.subrange(4 * i, 4 * i + 4) =~= want);
            }
        }
    }
}

/// A group is set up with its number, our frame interval, the peer's, packing and
/// framing, our transport latency, the peer's, and its channels.
#[verifier::rlimit(60)]
pub proof fn a_group_on_the_wire(
    cig_id: u8,
    ours_us: u32,
    theirs_us: u32,
    framing: u8,
    our_latency: u16,
    their_latency: u16,
    packing: u8,
    cis: Seq<CisParams>,
)
    requires
        cis.len() <= 26,
        ours_us < 0x100_0000,
        theirs_us < 0x100_0000,
    ensures
        cig_packet(
            cig_id,
            ours_us,
            theirs_us,
            framing,
            our_latency,
            their_latency,
            packing,
            cis,
        ) == seq![
            0x62u8,
            0x20,
            (15 + 9 * cis.len()) as u8,
            cig_id,
            (ours_us % 256) as u8,
            (ours_us / 256 % 256) as u8,
            (ours_us / 65536) as u8,
            (theirs_us % 256) as u8,
            (theirs_us / 256 % 256) as u8,
            (theirs_us / 65536) as u8,
            0,
            packing,
            framing,
            low(our_latency),
            high(our_latency),
            low(their_latency),
            high(their_latency),
            cis.len() as u8,
        ] + all_cis_bytes(cis),
{
    channels_on_the_wire(cis, Seq::empty(), 0);
    assert(cig_packet(
        cig_id,
        ours_us,
        theirs_us,
        framing,
        our_latency,
        their_latency,
        packing,
        cis,
    ) =~= seq![
        0x62u8,
        0x20,
        (15 + 9 * cis.len()) as u8,
        cig_id,
        (ours_us % 256) as u8,
        (ours_us / 256 % 256) as u8,
        (ours_us / 65536) as u8,
        (theirs_us % 256) as u8,
        (theirs_us / 256 % 256) as u8,
        (theirs_us / 65536) as u8,
        0,
        packing,
        framing,
        low(our_latency),
        high(our_latency),
        low(their_latency),
        high(their_latency),
        cis.len() as u8,
    ] + all_cis_bytes(cis));
}

/// Audio goes out as it is: the data path is the controller's own, in the
/// direction asked for, with the transparent codec and no configuration, and is
/// taken down in the directions asked for.
#[verifier::rlimit(60)]
pub proof fn a_data_path_on_the_wire(handle: u16, direction: u8, delay_us: u32)
    requires
        delay_us < 0x100_0000,
    ensures
        iso_path_packet(handle, direction, delay_us) == seq![
            0x6Eu8,
            0x20,
            13,
            low(handle),
            high(handle),
            direction,
            0,
            3,
            0,
            0,
            0,
            0,
            (delay_us % 256) as u8,
            (delay_us / 256 % 256) as u8,
            (delay_us / 65536) as u8,
            0,
        ],
        iso_path_removal(handle, direction) == seq![
            0x6Fu8,
            0x20,
            3,
            low(handle),
            high(handle),
            direction,
        ],
        ISO_PATH_INPUT == 0 && ISO_PATH_OUTPUT == 1 && ISO_PATH_BOTH == 3,
{
    assert(iso_path_packet(handle, direction, delay_us) =~= seq![
        0x6Eu8,
        0x20,
        13,
        low(handle),
        high(handle),
        direction,
        0,
        3,
        0,
        0,
        0,
        0,
        (delay_us % 256) as u8,
        (delay_us / 256 % 256) as u8,
        (delay_us / 65536) as u8,
        0,
    ]);
    assert(iso_path_removal(handle, direction) =~= seq![
        0x6Fu8,
        0x20,
        3,
        low(handle),
        high(handle),
        direction,
    ]);
}

/// Encryption starts on the connection named with the key given and neither a
/// random number nor a diversifier; a PHY preference counts both ways; a
/// disconnection says why.
#[verifier::rlimit(60)]
pub proof fn link_commands_on_the_wire(handle: u16, byte: u8, key: Seq<u8>)
    requires
        key.len() == 16,
    ensures
        encryption_packet(handle, key) == seq![
            0x19u8,
            0x20,
            28,
            low(handle),
            high(handle),
            0,
            0,
            0,
            0,
            0,
            0,
            0,
            0,
            0,
            0,
        ] + key,
        phy_packet(handle, byte) == seq![
            0x32u8,
            0x20,
            7,
            low(handle),
            high(handle),
            0,
            byte,
            byte,
            0,
            0,
        ],
        disconnect_packet(handle, byte) == seq![0x06u8, 0x04, 3, low(handle), high(handle), byte],
        REASON_REMOTE_USER_TERMINATED == 0x13,
{
    assert(encryption_packet(handle, key) =~= seq![
        0x19u8,
        0x20,
        28,
        low(handle),
        high(handle),
        0,
        0,
        0,
        0,
        0,
        0,
        0,
        0,
        0,
        0,
    ] + key);
    assert(phy_packet(handle, byte) =~= seq![
        0x32u8,
        0x20,
        7,
        low(handle),
        high(handle),
        0,
        byte,
        byte,
        0,
        0,
    ]);
    assert(disconnect_packet(handle, byte) =~= seq![
        0x06u8,
        0x04,
        3,
        low(handle),
        high(handle),
        byte,
    ]);
}

/// A frame goes out as one complete SDU without a timestamp: the handle with the
/// mark for a complete SDU, the load, the sequence number, the length and the
/// frame.
#[verifier::rlimit(60)]
pub proof fn a_frame_on_the_wire(handle: u16, sequence: u16, payload: Seq<u8>)
    requires
        handle < 4096,
        payload.len() <= 0x3FFF,
    ensures
        iso_packet(handle, sequence, payload) == seq![
            low(handle),
            (handle / 256 + 0x20) as u8,
            low((payload.len() + 4) as u16),
            high((payload.len() + 4) as u16),
            low(sequence),
            high(sequence),
            low(payload.len() as u16),
            high(payload.len() as u16),
        ] + payload,
{
    let n = payload.len() as u16;
    let load = (payload.len() + 4) as u16;
    let header = (handle % 4096 + 0x2000) as u16;
    assert(handle % 4096 == handle);
    assert(header == handle + 0x2000);
    assert(header % 256 == handle % 256 && header / 256 == handle / 256 + 0x20);
    assert((4 + payload.len()) % 0x1_0000 == load && payload.len() % 0x1_0000 == n);
    lemma_joined_fields(le16(header), le16(load), le16(sequence), le16(n), payload);
}

proof fn lemma_joined_fields(a: Seq<u8>, b: Seq<u8>, c: Seq<u8>, d: Seq<u8>, rest: Seq<u8>)
    requires
        a.len() == 2,
        b.len() == 2,
        c.len() == 2,
        d.len() == 2,
    ensures
        a + b + c + d + rest == seq![a[0], a[1], b[0], b[1], c[0], c[1], d[0], d[1]] + rest,
{
    assert(a + b + c + d + rest =~= seq![a[0], a[1], b[0], b[1], c[0], c[1], d[0], d[1]] + rest);
}

/// A frame that arrives is read the same with a timestamp in front of it and
/// without one, and only when it is a complete SDU that is marked valid.
#[verifier::rlimit(60)]
pub proof fn an_arriving_frame_is_read_with_or_without_its_time(
    handle: u16,
    boundary: u16,
    time: Seq<u8>,
    sequence: u16,
    status: u16,
    payload: Seq<u8>,
)
    requires
        handle < 4096,
        boundary < 4,
        time.len() == 0 || time.len() == 4,
        status < 4,
        payload.len() <= 0xFFF,
    ensures
        ({
            let mark: u16 = if time.len() == 4 {
                0x4000
            } else {
                0
            };
            let header = (handle + 4096 * boundary + mark) as u16;
            let load = (time.len() + 4 + payload.len()) as u16;
            let length = (payload.len() + 0x4000 * status) as u16;
            let packet = seq![low(header), high(header), low(load), high(load)] + time + seq![
                low(sequence),
                high(sequence),
                low(length),
                high(length),
            ] + payload;
            &&& carries_whole_sdu(packet) <==> boundary == 2 && status == 0
            &&& status == 0 ==> sdu_of(packet) == payload
            &&& u16_at(packet, 0) % 4096 == handle
            &&& u16_at(packet, sdu_header_at(packet)) == sequence
        }),
{
    let mark: u16 = if time.len() == 4 {
        0x4000
    } else {
        0
    };
    let header = (handle + 4096 * boundary + mark) as u16;
    let load = (time.len() + 4 + payload.len()) as u16;
    let length = (payload.len() + 0x4000 * status) as u16;
    let packet = seq![low(header), high(header), low(load), high(load)] + time + seq![
        low(sequence),
        high(sequence),
        low(length),
        high(length),
    ] + payload;
    let at = 4 + time.len() as int;
    assert(packet[0] == low(header) && packet[1] == high(header));
    assert(packet[2] == low(load) && packet[3] == high(load));
    assert(packet[at] == low(sequence) && packet[at + 1] == high(sequence));
    assert(packet[at + 2] == low(length) && packet[at + 3] == high(length));
    assert(u16_at(packet, 0) == header);
    assert(u16_at(packet, 2) == load);
    assert(u16_at(packet, at) == sequence);
    assert(u16_at(packet, at + 2) == length);
    assert(sdu_header_at(packet) == at);
    if status == 0 {
        assert(sdu_of(packet) =~= payload);
    }
}

/// A peer that asks for other parameters is always answered: what is permitted is
/// accepted as it was asked for, and anything else refused as unacceptable.
#[verifier::rlimit(60)]
pub proof fn a_parameter_request_is_answered(
    handle: u16,
    shortest: u16,
    longest: u16,
    latency: u16,
    timeout: u16,
)
    ensures
        ({
            let params = seq![
                6u8,
                low(handle),
                high(handle),
                low(shortest),
                high(shortest),
                low(longest),
                high(longest),
                low(latency),
                high(latency),
                low(timeout),
                high(timeout),
            ];
            let asked = ConnectionParameters {
                interval_min: shortest,
                interval_max: longest,
                latency,
                supervision_timeout: timeout,
            };
            remote_parameter_answer(0x3E, params) == Some(
                if asked.permitted() {
                    seq![0x20u8, 0x20, 14] + params.skip(1) + seq![0u8, 0, 0, 0]
                } else {
                    seq![0x21u8, 0x20, 3, low(handle), high(handle), 0x3B]
                },
            )
        }),
{
    let params = seq![
        6u8,
        low(handle),
        high(handle),
        low(shortest),
        high(shortest),
        low(longest),
        high(longest),
        low(latency),
        high(latency),
        low(timeout),
        high(timeout),
    ];
    let asked = ConnectionParameters {
        interval_min: shortest,
        interval_max: longest,
        latency,
        supervision_timeout: timeout,
    };
    assert(u16_at(params, 1) == handle);
    assert(parameters_at(params, 3) == asked);
    let answer = remote_parameter_answer(0x3E, params)->0;
    if asked.permitted() {
        assert(answer =~= seq![0x20u8, 0x20, 14] + params.skip(1) + seq![0u8, 0, 0, 0]);
    } else {
        assert(answer =~= seq![0x21u8, 0x20, 3, low(handle), high(handle), 0x3B]);
    }
}

/// The counters of a channel stand in one order: unacknowledged, flushed, last
/// subevent, retransmitted, failed checks, unreceived, duplicates. A failed
/// command counts nothing.
pub proof fn link_quality_reads_back(params: Seq<u8>)
    requires
        params.len() >= 31,
    ensures
        params[0] != 0 ==> quality_of(params) is None,
        params[0] == 0 ==> (quality_of(params) matches Some(q) && {
            &&& q.handle == params[1] + 256 * params[2]
            &&& q.tx_unacked_packets == u32_at(params.skip(3), 0)
            &&& q.tx_flushed_packets == u32_at(params.skip(7), 0)
            &&& q.tx_last_subevent_packets == u32_at(params.skip(11), 0)
            &&& q.retransmitted_packets == u32_at(params.skip(15), 0)
            &&& q.crc_error_packets == u32_at(params.skip(19), 0)
            &&& q.rx_unreceived_packets == u32_at(params.skip(23), 0)
            &&& q.duplicate_packets == u32_at(params.skip(27), 0)
        }),
{
}

/// A channel that came up, or did not, is told by its own event: the status and
/// the handle without its flag bits.
pub proof fn a_channel_is_told_by_its_event(
    kind: u8,
    status: u8,
    handle: u16,
    flags: u16,
    more: Seq<u8>,
)
    requires
        handle < 4096,
        flags < 16,
    ensures
        ({
            let field = (handle + 4096 * flags) as u16;
            let params = seq![kind, status, low(field), high(field)] + more;
            &&& kind == 0x19 ==> established_of(0x3E, params) == Some((status, handle))
            &&& kind != 0x19 ==> established_of(0x3E, params) is None
        }),
{
    let field = (handle + 4096 * flags) as u16;
    let params = seq![kind, status, low(field), high(field)] + more;
    assert(params[0] == kind && params[1] == status);
    assert(params[2] == low(field) && params[3] == high(field));
    assert(u16_at(params, 2) == field);
}

/// An address is shown with its last byte on the air first, two digits a byte and
/// colons between.
#[verifier::rlimit(60)]
pub proof fn an_address_is_shown_last_byte_first(bytes: Seq<u8>, i: int)
    requires
        bytes.len() == 6,
        0 <= i < 6,
    ensures
        address_text(bytes).len() == 17,
        address_text(bytes).subrange(3 * i, 3 * i + 2) == upper_hex(bytes[5 - i] as nat, 2),
        i < 5 ==> address_text(bytes)[3 * i + 2] == ':',
{
    lemma_two_hex_digits(bytes[0]);
    lemma_two_hex_digits(bytes[1]);
    lemma_two_hex_digits(bytes[2]);
    lemma_two_hex_digits(bytes[3]);
    lemma_two_hex_digits(bytes[4]);
    lemma_two_hex_digits(bytes[5]);
    assert(address_text(bytes).subrange(3 * i, 3 * i + 2) =~= upper_hex(bytes[5 - i] as nat, 2));
}

/// The versions count up from 5.0 at nine, and channels came with 5.2.
pub proof fn channels_came_with_5_2(version: LocalVersion)
    ensures
        core_version(9) == "5.0"@ && core_version(10) == "5.1"@ && core_version(11) == "5.2"@
            && core_version(12) == "5.3"@ && core_version(13) == "5.4"@ && core_version(14)
            == "6.0"@ && core_version(15) == "6.1"@,
        version.lmp_version < 9 || version.lmp_version > 15 ==> core_version(version.lmp_version)
            == "unknown"@,
        version.has_channels() <==> version.lmp_version != 10 && version.lmp_version != 9
            && version.lmp_version > 8,
{
}

/// An event is its code, the number of its parameter bytes and the parameters;
/// whatever follows is not part of it, and one that is cut short is none.
pub proof fn an_event_reads_back(code: u8, params: Seq<u8>, more: Seq<u8>, kept: int)
    requires
        params.len() < 256,
        0 <= kept < 2 + params.len(),
    ensures
        event_of(seq![code, params.len() as u8] + params + more) == Some((code, params)),
        event_of((seq![code, params.len() as u8] + params).take(kept)) is None,
{
    let whole = seq![code, params.len() as u8] + params + more;
    assert(whole[0] == code && whole[1] == params.len());
    assert(whole.subrange(2, 2 + params.len() as int) =~= params);
    let cut = (seq![code, params.len() as u8] + params).take(kept);
    if kept >= 2 {
        assert(cut[1] == params.len());
    }
}

} // verus!
