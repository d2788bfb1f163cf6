//! What the diagnostic tools print.

use crate::bap::{code_hz, Capabilities, CodecCapabilities, SamplingFrequency};
use crate::hci::{core_version, evt, op, Event, LocalVersion};
use crate::options::kbps;
use crate::text::{
    decimal, hex, push_decimal, push_hex, push_upper_hex, text_views, upper_hex,
};
use crate::bytes::u16_at;
use vstd::prelude::*;
use vstd::string::*;

verus! {

// ---- Packets ----

/// Bytes as pairs of digits with a space between them.
pub open spec fn pairs(bytes: Seq<u8>) -> Seq<char>
    decreases bytes.len(),
{
    if bytes.len() == 0 {
        Seq::empty()
    } else if bytes.len() == 1 {
        upper_hex(bytes[0] as nat, 2)
    } else {
        pairs(bytes.drop_last()) + " "@ + upper_hex(bytes.last() as nat, 2)
    }
}

/// How many bytes of a packet are shown.
pub const SHOWN_BYTES: usize = 32;

/// The first bytes of a packet, at most thirty-two of them.
pub open spec fn shown(bytes: Seq<u8>) -> Seq<u8> {
    if bytes.len() <= SHOWN_BYTES {
        bytes
    } else {
        bytes.take(SHOWN_BYTES as int)
    }
}

/// Shows the first bytes of a packet.
pub fn hex_line(bytes: &[u8]) -> (line: String)
    ensures
        line@ == pairs(shown(bytes@)),
{
    let mut line = String::new();
    let count = if bytes.len() <= SHOWN_BYTES {
        bytes.len()
    } else {
        SHOWN_BYTES
    };
    let ghost seen = shown(bytes@);
    let mut i: usize = 0;
    assert(seen.take(0) =~= Seq::<u8>::empty());
    assert(line@ =~= pairs(seen.take(0)));
    while i < count
        invariant
            i <= count,
            count == seen.len(),
            count <= bytes@.len(),
            seen == shown(bytes@),
            line@ == pairs(seen.take(i as int)),
        decreases count - i,
    {
        assert(seen.take(i + 1).drop_last() =~= seen.take(i as int));
        assert(seen[i as int] == bytes@[i as int]);
        if i > 0 {
            line.append(" ");
        }
        push_upper_hex(&mut line, bytes[i] as u64, 2);
        assert(line@ =~= pairs(seen.take(i + 1)));
        i = i + 1;
    }
    assert(seen.take(i as int) =~= seen);
    line
}

/// Whether a packet is a whole HCI event.
pub open spec fn is_event(raw: Seq<u8>) -> bool {
    raw.len() >= 2 && raw.len() >= 2 + raw[1]
}

/// What a Command Complete event acknowledges, and how it went.
pub open spec fn completion_line(opcode: u16, status: u8) -> Seq<char> {
    "Command Complete pro 0x"@ + hex(opcode as nat, 4) + ", status 0x"@ + hex(status as nat, 2)
        + if status == 0 {
        " (uspech)"@
    } else {
        " (chyba)"@
    }
}

/// What a controller says of itself.
pub open spec fn version_line(version: LocalVersion) -> Seq<char> {
    "Bluetooth "@ + core_version(version.lmp_version) + ", LMP "@ + decimal(
        version.lmp_version as nat,
    ) + ", vyrobce 0x"@ + hex(version.manufacturer as nat, 4)
}

/// The lines that describe a packet from the controller.
pub open spec fn event_lines(raw: Seq<u8>) -> Seq<Seq<char>> {
    if !is_event(raw) {
        seq!["(cannot parse as an HCI event)"@]
    } else {
        let params = raw.subrange(2, 2 + raw[1]);
        if raw[0] == evt::COMMAND_COMPLETE {
            if params.len() < 3 {
                Seq::empty()
            } else {
                let answer = params.skip(3);
                let status = if answer.len() > 0 {
                    answer[0]
                } else {
                    0xFF
                };
                let first = seq![completion_line(u16_at(params, 1), status)];
                if u16_at(params, 1) == op::READ_LOCAL_VERSION && LocalVersion::read(
                    answer,
                ) is Some {
                    first.push(version_line(LocalVersion::read(answer)->0))
                } else {
                    first
                }
            }
        } else if raw[0] == evt::COMMAND_STATUS {
            seq!["Command Status"@]
        } else {
            seq!["event 0x"@ + hex(raw[0] as nat, 2)]
        }
    }
}

fn completion(opcode: u16, status: u8) -> (line: String)
    ensures
        line@ == completion_line(opcode, status),
{
    let mut line = String::from_str("Command Complete pro 0x");
    push_hex(&mut line, opcode as u64, 4);
    line.append(", status 0x");
    push_hex(&mut line, status as u64, 2);
    line.append(
        if status == 0 {
            " (uspech)"
        } else {
            " (chyba)"
        },
    );
    line
}

fn version_text(version: &LocalVersion) -> (line: String)
    ensures
        line@ == version_line(*version),
{
    let mut line = String::from_str("Bluetooth ");
    line.append(version.bluetooth_version());
    line.append(", LMP ");
    push_decimal(&mut line, version.lmp_version as u64);
    line.append(", vyrobce 0x");
    push_hex(&mut line, version.manufacturer as u64, 4);
    line
}

/// Describes a packet from the controller, one line per fact.
pub fn describe(raw: &[u8]) -> (lines: Vec<String>)
    ensures
        text_views(lines@) == event_lines(raw@),
{
    let mut lines: Vec<String> = Vec::new();
    let event = match Event::parse(raw) {
        Some(event) => event,
        None => {
            lines.push(String::from_str("(cannot parse as an HCI event)"));
            assert(text_views(lines@) =~= event_lines(raw@));
            return lines;
        },
    };
    if event.code == evt::COMMAND_COMPLETE {
        if let Some((opcode, params)) = event.command_complete() {
            let status = if params.len() > 0 {
                params[0]
            } else {
                0xFF
            };
            lines.push(completion(opcode, status));
            if opcode == op::READ_LOCAL_VERSION {
                if let Some(version) = LocalVersion::parse(params) {
                    lines.push(version_text(&version));
                }
            }
        }
    } else if event.code == evt::COMMAND_STATUS {
        lines.push(String::from_str("Command Status"));
    } else {
        let mut line = String::from_str("event 0x");
        push_hex(&mut line, event.code as u64, 2);
        lines.push(line);
    }
    assert(text_views(lines@) =~= event_lines(raw@));
    lines
}

// ---- USB ----

/// The USB class of wireless controllers.
pub const WIRELESS_CLASS: u8 = 0xE0;

/// The subclass of radio controllers.
pub const RADIO_SUBCLASS: u8 = 0x01;

/// Whether a device is a Bluetooth adapter: by its own class, or by that of one
/// of its interfaces. An interface counts by its class and subclass.
pub fn is_bluetooth(class: u8, interfaces: &[(u8, u8)]) -> (yes: bool)
    ensures
        yes == (class == WIRELESS_CLASS || interfaces@.contains((WIRELESS_CLASS, RADIO_SUBCLASS))),
{
    if class == WIRELESS_CLASS {
        return true;
    }
    let mut i: usize = 0;
    while i < interfaces.len()
        invariant
            i <= interfaces@.len(),
            forall|j: int|
                0 <= j < i ==> interfaces@[j] != (WIRELESS_CLASS, RADIO_SUBCLASS),
        decreases interfaces@.len() - i,
    {
        let (own, sub) = interfaces[i];
        if own == WIRELESS_CLASS && sub == RADIO_SUBCLASS {
            assert(interfaces@[i as int] == (WIRELESS_CLASS, RADIO_SUBCLASS));
            return true;
        }
        i = i + 1;
    }
    false
}

/// Whether an endpoint address is one that data comes in from.
pub open spec fn is_inbound(address: u8) -> bool {
    address >= 0x80
}

/// What kind of transfer an endpoint does.
#[derive(Debug, Clone, Copy, PartialEq, Eq, Structural)]
pub enum TransferKind {
    Control,
    Isochronous,
    Bulk,
    Interrupt,
}

/// The name of a kind of transfer, padded to the width of its column.
pub open spec fn kind_column(kind: TransferKind) -> Seq<char> {
    match kind {
        TransferKind::Control => "control     "@,
        TransferKind::Isochronous => "ISOCHRONOUS "@,
        TransferKind::Bulk => "bulk        "@,
        TransferKind::Interrupt => "interrupt   "@,
    }
}

/// One line on an endpoint: its address, direction, kind and packet size.
pub fn endpoint_line(address: u8, kind: TransferKind, max_packet: usize) -> (line: String)
    ensures
        line@ == "0x"@ + hex(address as nat, 2) + (if is_inbound(address) {
            "  IN   "@
        } else {
            "  OUT  "@
        }) + kind_column(kind) + " max "@ + decimal(max_packet as nat) + " B"@,
{
    let mut line = String::from_str("0x");
    push_hex(&mut line, address as u64, 2);
    line.append(
        if address >= 0x80 {
            "  IN   "
        } else {
            "  OUT  "
        },
    );
    line.append(
        match kind {
            TransferKind::Control => "control     ",
            TransferKind::Isochronous => "ISOCHRONOUS ",
            TransferKind::Bulk => "bulk        ",
            TransferKind::Interrupt => "interrupt   ",
        },
    );
    line.append(" max ");
    push_decimal(&mut line, max_packet as u64);
    line.append(" B");
    line
}

// ---- Bitrates ----

/// A whole number, right-aligned in six columns.
pub open spec fn column(value: nat) -> Seq<char> {
    (if value < 10 {
        "     "@
    } else if value < 100 {
        "    "@
    } else if value < 1_000 {
        "   "@
    } else if value < 10_000 {
        "  "@
    } else if value < 100_000 {
        " "@
    } else {
        ""@
    }) + decimal(value)
}

/// The bitrate of one channel in kbit/s.
pub open spec fn channel_kbps(octets: u16, frame_us: int) -> nat {
    (octets * 8_000_000 / frame_us / 1000) as nat
}

/// One line on what a rate and a frame length allow.
pub open spec fn bitrate_line(hz: u32, short: bool, min: u16, max: u16) -> Seq<char> {
    let frame_us = if short {
        7_500int
    } else {
        10_000
    };
    "    "@ + column(hz as nat) + " Hz, "@ + (if short {
        "7.5 ms"@
    } else {
        " 10 ms"@
    }) + ": "@ + decimal(min as nat) + "-"@ + decimal(max as nat) + " B/ramec = "@ + decimal(
        channel_kbps(min, frame_us),
    ) + "-"@ + decimal(channel_kbps(max, frame_us)) + " kbps/kanal"@
}

/// A line for every rate and frame length of some frequencies, in order.
pub open spec fn rate_lines(
    frequencies: Seq<SamplingFrequency>,
    short: bool,
    long: bool,
    min: u16,
    max: u16,
) -> Seq<Seq<char>>
    decreases frequencies.len(),
{
    if frequencies.len() == 0 {
        Seq::empty()
    } else {
        let before = rate_lines(frequencies.drop_last(), short, long, min, max);
        match code_hz(frequencies.last().0) {
            None => before,
            Some(hz) => {
                let first = if short {
                    before.push(bitrate_line(hz, true, min, max))
                } else {
                    before
                };
                if long {
                    first.push(bitrate_line(hz, false, min, max))
                } else {
                    first
                }
            },
        }
    }
}

/// The lines on what bitrates some capabilities allow. There are none when the
/// device does not say how many octets it takes.
pub open spec fn capability_lines(caps: Capabilities) -> Seq<Seq<char>> {
    match (caps.min_octets_per_frame, caps.max_octets_per_frame) {
        (Some(min), Some(max)) => rate_lines(
            caps.sampling_frequencies,
            caps.supports_7_5ms,
            caps.supports_10ms,
            min,
            max,
        ),
        _ => Seq::empty(),
    }
}

fn push_column(line: &mut String, value: u32)
    ensures
        final(line)@ == old(line)@ + column(value as nat),
{
    line.append(
        if value < 10 {
            "     "
        } else if value < 100 {
            "    "
        } else if value < 1_000 {
            "   "
        } else if value < 10_000 {
            "  "
        } else if value < 100_000 {
            " "
        } else {
            ""
        },
    );
    push_decimal(line, value as u64);
    assert(line@ =~= old(line)@ + column(value as nat));
}

fn bitrate_text(hz: u32, short: bool, min: u16, max: u16) -> (line: String)
    ensures
        line@ == bitrate_line(hz, short, min, max),
{
    let frame_us: u32 = if short {
        7_500
    } else {
        10_000
    };
    let mut line = String::from_str("    ");
    push_column(&mut line, hz);
    line.append(" Hz, ");
    line.append(
        if short {
            "7.5 ms"
        } else {
            " 10 ms"
        },
    );
    line.append(": ");
    push_decimal(&mut line, min as u64);
    line.append("-");
    push_decimal(&mut line, max as u64);
    line.append(" B/ramec = ");
    push_decimal(&mut line, kbps(min, frame_us) as u64);
    line.append("-");
    push_decimal(&mut line, kbps(max, frame_us) as u64);
    line.append(" kbps/kanal");
    line
}

/// Lists what bitrates a device's capabilities allow, for every rate and frame
/// length it takes.
pub fn bitrate_lines(caps: &CodecCapabilities) -> (lines: Vec<String>)
    ensures
        text_views(lines@) == capability_lines(caps@),
{
    let mut lines: Vec<String> = Vec::new();
    let (min, max) = match (caps.min_octets_per_frame, caps.max_octets_per_frame) {
        (Some(min), Some(max)) => (min, max),
        _ => {
            assert(text_views(lines@) =~= capability_lines(caps@));
            return lines;
        },
    };
    let ghost frequencies = caps.sampling_frequencies@;
    let short = caps.supports_7_5ms;
    let long = caps.supports_10ms;
    let mut i: usize = 0;
    assert(text_views(lines@) =~= rate_lines(frequencies.take(0), short, long, min, max));
    while i < caps.sampling_frequencies.len()
        invariant
            i <= frequencies.len(),
            frequencies == caps.sampling_frequencies@,
            text_views(lines@) == rate_lines(frequencies.take(i as int), short, long, min, max),
        decreases frequencies.len() - i,
    {
        assert(frequencies.take(i + 1).drop_last() =~= frequencies.take(i as int));
        if let Some(hz) = caps.sampling_frequencies[i].hz() {
            let ghost before = lines@;
            if short {
                lines.push(bitrate_text(hz, true, min, max));
                assert(text_views(lines@) =~= text_views(before).push(
                    bitrate_line(hz, true, min, max),
                ));
            }
            let ghost between = lines@;
            if long {
                lines.push(bitrate_text(hz, false, min, max));
                assert(text_views(lines@) =~= text_views(between).push(
                    bitrate_line(hz, false, min, max),
                ));
            }
        }
        i = i + 1;
    }
    assert(frequencies.take(i as int) =~= frequencies);
    lines
}

// ---- The format of a cable ----

/// The rates a cable is tried at, most useful first.
pub open spec fn tried_rates() -> Seq<u32> {
    seq![48_000, 44_100, 32_000, 24_000, 16_000]
}

/// The rate to try next, after so many that told nothing.
pub fn rate_to_try(told_nothing: usize) -> (rate: Option<u32>)
    ensures
        rate == if told_nothing < tried_rates().len() {
            Some(tried_rates()[told_nothing as int])
        } else {
            None
        },
{
    match told_nothing {
        0 => Some(48_000),
        1 => Some(44_100),
        2 => Some(32_000),
        3 => Some(24_000),
        4 => Some(16_000),
        _ => None,
    }
}

/// How opening a cable at one rate ended.
#[derive(Debug, Clone, Copy, PartialEq, Eq, Structural)]
pub enum Opened {
    /// It runs at that rate.
    At(u32),
    /// It runs at another rate, with so many channels.
    Mismatch { actual: u32, channels: u16 },
    /// It told nothing.
    Failed,
}

/// The lines that one attempt settles the question with.
pub open spec fn settled(opened: Opened) -> Option<Seq<Seq<char>>> {
    match opened {
        Opened::At(rate) => Some(
            seq!["            runs at "@ + decimal(rate as nat) + " Hz - matches LC3 directly"@],
        ),
        Opened::Mismatch { actual, channels } => {
            let first = seq![
                "            runs at "@ + decimal(actual as nat) + " Hz, "@ + decimal(
                    channels as nat,
                ) + " channel(s)"@,
            ];
            Some(
                if actual != 48_000 {
                    first.push(
                        "            set it to 48000 Hz in Sound Control Panel -> Advanced,"@,
                    ).push("            or the stack has to resample and add latency"@)
                } else {
                    first
                },
            )
        },
        Opened::Failed => None,
    }
}

/// The lines on a cable, once an attempt to open it told anything. `None` asks
/// for another attempt.
pub fn cable_report(opened: Opened) -> (lines: Option<Vec<String>>)
    ensures
        match lines {
            Some(own) => settled(opened) == Some(text_views(own@)),
            None => settled(opened) is None,
        },
{
    let mut lines: Vec<String> = Vec::new();
    match opened {
        Opened::At(rate) => {
            let mut line = String::from_str("            runs at ");
            push_decimal(&mut line, rate as u64);
            line.append(" Hz - matches LC3 directly");
            lines.push(line);
        },
        Opened::Mismatch { actual, channels } => {
            let mut line = String::from_str("            runs at ");
            push_decimal(&mut line, actual as u64);
            line.append(" Hz, ");
            push_decimal(&mut line, channels as u64);
            line.append(" channel(s)");
            lines.push(line);
            if actual != 48_000 {
                lines.push(
                    String::from_str(
                        "            set it to 48000 Hz in Sound Control Panel -> Advanced,",
                    ),
                );
                lines.push(
                    String::from_str("            or the stack has to resample and add latency"),
                );
            }
        },
        Opened::Failed => {
            return None;
        },
    }
    assert(text_views(lines@) =~= settled(opened)->0);
    Some(lines)
}

// ---- What is shown of a device ----

/// The rates that are tried fall from the one the codec wants, and each is one of the
/// codec's.
pub proof fn rates_are_tried_from_the_best(i: int, j: int)
    requires
        0 <= i < j < tried_rates().len(),
    ensures
        tried_rates()[i] > tried_rates()[j],
        tried_rates()[0] == 48_000,
        tried_rates().len() == 5,
        crate::bap::is_lc3_rate(tried_rates()[j]),
{
}

/// An endpoint is inbound by the top bit of its address, and an adapter is known by
/// the wireless class, or by a radio among its interfaces.
pub proof fn usb_numbers(address: u8)
    ensures
        is_inbound(address) <==> address / 128 == 1,
        WIRELESS_CLASS == 0xE0,
        RADIO_SUBCLASS == 0x01,
        SHOWN_BYTES == 32,
{
}

/// A bitrate is what a hundred frames a second carry, or 133 and a third of 7.5 ms.
pub proof fn a_bitrate_counts_the_frames(octets: u16)
    ensures
        channel_kbps(octets, 10_000) == octets * 8 / 10,
        channel_kbps(octets, 7_500) == octets * 16 / 15,
{
}

/// Numbers stand under each other: every number of up to six digits fills its column.
pub proof fn a_number_fills_its_column(value: nat)
    requires
        value < 1_000_000,
    ensures
        column(value).len() == 6,
{
    reveal_strlit("     ");
    reveal_strlit("    ");
    reveal_strlit("   ");
    reveal_strlit("  ");
    reveal_strlit(" ");
    reveal_strlit("");
    reveal_with_fuel(decimal, 7);
}

/// What is shown of a packet is its beginning, each byte as two digits.
pub proof fn a_packet_is_shown_from_its_start(bytes: Seq<u8>)
    ensures
        shown(bytes).len() <= 32,
        shown(bytes) == bytes.take(shown(bytes).len() as int),
        bytes.len() <= 32 ==> shown(bytes) == bytes,
        bytes.len() > 32 ==> shown(bytes).len() == 32,
        pairs(bytes).len() == if bytes.len() == 0 {
            0
        } else {
            3 * bytes.len() - 1
        },
    decreases bytes.len(),
{
    assert(shown(bytes) =~= bytes.take(shown(bytes).len() as int));
    reveal_strlit(" ");
    if bytes.len() > 0 {
        crate::text::hexadecimal_reads_back(bytes[0] as nat, 2);
        crate::text::hexadecimal_reads_back(bytes.last() as nat, 2);
        if bytes.len() > 1 {
            a_packet_is_shown_from_its_start(bytes.drop_last());
        }
    }
}

} // verus!
