//! What a session reports while it works, as it is passed on to the app.

use crate::hci::{disconnect_reason, reason_text, IsoLinkQuality};
use crate::radio::Power;
use crate::text::{decimal, hex, push_decimal, push_hex, push_signed, signed_decimal};
use vstd::prelude::*;
use vstd::string::*;

verus! {

/// What the stream has counted since it began.
#[derive(Debug, Clone, Copy, PartialEq, Eq, Structural)]
pub struct Counters {
    pub frames: u64,
    pub backlog: u64,
    pub failed: u64,
    pub sent: u64,
    pub underruns: u64,
    pub backpressure_frames: u64,
    pub rssi: Option<i8>,
}

/// How loud the stream is, in tenths of a decibel; nothing where there is
/// nothing to measure.
#[derive(Debug, Clone, Copy, PartialEq, Eq, Structural)]
pub struct Levels {
    pub left: Option<i32>,
    pub right: Option<i32>,
    pub bass: Option<i32>,
    pub mid: Option<i32>,
    pub treble: Option<i32>,
}

/// The same as the console shows it: in whole decibels, or that it is silent.
#[derive(Debug)]
pub struct LevelTexts {
    pub left: String,
    pub right: String,
    pub bass: String,
    pub mid: String,
    pub treble: String,
}

/// What a session reports.
#[derive(Debug)]
#[allow(inconsistent_fields)]
pub enum Progress {
    RadioPower(Power),
    AdapterReady { version: String, address: String },
    Connected { handle: u16 },
    CapabilitiesRead { summary: String },
    StreamPlanned { summary: String },
    /// `completed` counts the frames that each channel delivered.
    Streaming {
        counters: Counters,
        levels: Levels,
        texts: LevelTexts,
        completed: Vec<u64>,
        quality: Vec<IsoLinkQuality>,
    },
    /// In percent.
    Battery { levels: Vec<u8> },
    BatteryAsked { reason: String },
    CaptureReady { device: String, format: String },
    /// After so many seconds of silence.
    Idle { after: u64 },
    Yielded,
    Resumed,
    LinkState { summary: String },
    Disconnected { reason: u8 },
    FrameRefused { total: u64 },
    Stopped { reason: String },
    DeviceFound { name: String, address: String, rssi: i8, le_audio: bool },
}

/// What the controller has counted on one channel, as the app shows it.
///
/// Cumulative counters, straight from the controller. The app turns them into a
/// rate; sending a rate from here would mean deciding the window on its behalf,
/// and the window is a display choice.
#[derive(Debug, Clone, Copy, PartialEq, Eq, Structural)]
pub struct RadioRow {
    pub handle: u16,
    /// What the headphones can be assumed not to have played.
    pub lost: u64,
    pub unacked: u32,
    pub flushed: u32,
    pub retransmitted: u32,
    pub crc_errors: u32,
    pub unreceived: u32,
}

/// How a report reaches the app.
#[derive(Debug, PartialEq, Eq)]
pub enum Report {
    /// As a line of the log.
    Line(String),
    /// Not at all: the app hears of it in another way.
    Nothing,
    Power(Power),
    Streaming { counters: Counters, levels: Levels, completed: Vec<u64>, radio: Vec<RadioRow> },
    Battery { levels: Vec<u8> },
}

/// How a report reaches the app.
pub enum Shown {
    Line(Seq<char>),
    Nothing,
    Power(Power),
    Streaming { counters: Counters, levels: Levels, completed: Seq<u64>, radio: Seq<RadioRow> },
    Battery { levels: Seq<u8> },
}

impl View for Report {
    type V = Shown;

    open spec fn view(&self) -> Shown {
        match *self {
            Report::Line(line) => Shown::Line(line@),
            Report::Nothing => Shown::Nothing,
            Report::Power(power) => Shown::Power(power),
            Report::Streaming { counters, levels, completed, radio } => Shown::Streaming {
                counters,
                levels,
                completed: completed@,
                radio: radio@,
            },
            Report::Battery { levels } => Shown::Battery { levels: levels@ },
        }
    }
}

/// What the app shows of one channel.
pub open spec fn row_of(quality: IsoLinkQuality) -> RadioRow {
    RadioRow {
        handle: quality.handle,
        lost: (quality.tx_unacked_packets + quality.tx_flushed_packets) as u64,
        unacked: quality.tx_unacked_packets,
        flushed: quality.tx_flushed_packets,
        retransmitted: quality.retransmitted_packets,
        crc_errors: quality.crc_error_packets,
        unreceived: quality.rx_unreceived_packets,
    }
}

/// How a report reaches the app. A report that is no line of text has none; the
/// capabilities arrive again a moment later as an event of their own, and two
/// identical paragraphs would look like a retry.
pub open spec fn shown(progress: Progress) -> Shown {
    match progress {
        Progress::RadioPower(power) => Shown::Power(power),
        Progress::CapabilitiesRead { .. } => Shown::Nothing,
        Progress::DeviceFound { .. } => Shown::Nothing,
        Progress::Streaming { counters, levels, completed, quality, .. } => Shown::Streaming {
            counters,
            levels,
            completed: completed@,
            radio: Seq::new(quality@.len(), |i: int| row_of(quality@[i])),
        },
        Progress::Battery { levels } => Shown::Battery { levels: levels@ },
        _ => Shown::Line(progress_text(progress)),
    }
}

/// The line that a report is shown as, for one that is.
pub open spec fn progress_text(progress: Progress) -> Seq<char> {
    match progress {
        Progress::AdapterReady { version, address } => "adapter "@ + version@ + ", "@ + address@,
        Progress::Connected { handle } => "connected, handle 0x"@ + hex(handle as nat, 4),
        Progress::StreamPlanned { summary } => summary@,
        Progress::BatteryAsked { reason } => "battery level requested from the headphones ("@
            + reason@ + ")"@,
        Progress::CaptureReady { device, format } => "zdroj zvuku: "@ + device@ + " - "@ + format@,
        Progress::Idle { after } => "silent for "@ + decimal(after as nat)
            + " s, transmission paused"@,
        Progress::Yielded => "the headphones requested release; this may be a multipoint handover"@,
        Progress::Resumed => "audio resumed"@,
        Progress::LinkState { summary } => summary@,
        Progress::Disconnected { reason } => "peer disconnected: "@ + reason_text(reason)
            + " (code 0x"@ + hex(reason as nat, 2) + ")"@,
        Progress::FrameRefused { total } => "captured frame looked like noise and was silenced ("@
            + decimal(total as nat) + " so far)"@,
        Progress::Stopped { reason } => reason@,
        _ => Seq::empty(),
    }
}

fn rows(quality: &Vec<IsoLinkQuality>) -> (radio: Vec<RadioRow>)
    ensures
        radio@ == Seq::new(quality@.len(), |i: int| row_of(quality@[i])),
{
    let mut radio: Vec<RadioRow> = Vec::new();
    let mut i: usize = 0;
    while i < quality.len()
        invariant
            i <= quality@.len(),
            radio@ == Seq::new(i as nat, |k: int| row_of(quality@[k])),
        decreases quality@.len() - i,
    {
        let q = &quality[i];
        radio.push(
            RadioRow {
                handle: q.handle,
                lost: q.lost_packets(),
                unacked: q.tx_unacked_packets,
                flushed: q.tx_flushed_packets,
                retransmitted: q.retransmitted_packets,
                crc_errors: q.crc_error_packets,
                unreceived: q.rx_unreceived_packets,
            },
        );
        i = i + 1;
        assert(radio@ =~= Seq::new(i as nat, |k: int| row_of(quality@[k])));
    }
    radio
}

/// How a report reaches the app.
pub fn report(progress: &Progress) -> (report: Report)
    ensures
        report@ == shown(*progress),
{
    let line = match progress {
        Progress::RadioPower(power) => {
            return Report::Power(*power);
        },
        Progress::CapabilitiesRead { .. } => {
            return Report::Nothing;
        },
        Progress::DeviceFound { .. } => {
            return Report::Nothing;
        },
        Progress::Streaming { counters, levels, completed, quality, .. } => {
            return Report::Streaming {
                counters: *counters,
                levels: *levels,
                completed: completed.clone(),
                radio: rows(quality),
            };
        },
        Progress::Battery { levels } => {
            return Report::Battery { levels: levels.clone() };
        },
        Progress::AdapterReady { version, address } => {
            let mut line = String::from_str("adapter ");
            line.append(version.as_str());
            line.append(", ");
            line.append(address.as_str());
            line
        },
        Progress::Connected { handle } => {
            let mut line = String::from_str("connected, handle 0x");
            push_hex(&mut line, *handle as u64, 4);
            line
        },
        Progress::StreamPlanned { summary } => summary.clone(),
        Progress::BatteryAsked { reason } => {
            let mut line = String::from_str("battery level requested from the headphones (");
            line.append(reason.as_str());
            line.append(")");
            line
        },
        Progress::CaptureReady { device, format } => {
            let mut line = String::from_str("zdroj zvuku: ");
            line.append(device.as_str());
            line.append(" - ");
            line.append(format.as_str());
            line
        },
        Progress::Idle { after } => {
            let mut line = String::from_str("silent for ");
            push_decimal(&mut line, *after);
            line.append(" s, transmission paused");
            line
        },
        Progress::Yielded => String::from_str(
            "the headphones requested release; this may be a multipoint handover",
        ),
        Progress::Resumed => String::from_str("audio resumed"),
        Progress::LinkState { summary } => summary.clone(),
        Progress::Disconnected { reason } => {
            let mut line = String::from_str("peer disconnected: ");
            line.append(disconnect_reason(*reason));
            line.append(" (code 0x");
            push_hex(&mut line, *reason as u64, 2);
            line.append(")");
            line
        },
        Progress::FrameRefused { total } => {
            let mut line = String::from_str("captured frame looked like noise and was silenced (");
            push_decimal(&mut line, *total);
            line.append(" so far)");
            line
        },
        Progress::Stopped { reason } => reason.clone(),
    };
    Report::Line(line)
}

// ---- What the console shows ----

/// A text, filled up with blanks to a width.
pub open spec fn padded(text: Seq<char>, width: nat) -> Seq<char> {
    text + Seq::new(
        if text.len() < width {
            (width - text.len()) as nat
        } else {
            0
        },
        |i: int| ' ',
    )
}

/// Percentages, one behind the other.
pub open spec fn percentages(levels: Seq<u8>) -> Seq<char>
    decreases levels.len(),
{
    if levels.len() == 0 {
        Seq::empty()
    } else if levels.len() == 1 {
        decimal(levels[0] as nat) + " %"@
    } else {
        percentages(levels.drop_last()) + ", "@ + decimal(levels.last() as nat) + " %"@
    }
}

/// Whether everything a stream sent went out.
pub open spec fn health_text(failed: u64, sent: u64) -> Seq<char> {
    if failed == 0 {
        "vse odeslano"@
    } else {
        "SELHALO "@ + decimal(failed as nat) + " z "@ + decimal(sent as nat) + " prenosu"@
    }
}

/// A number that may be missing.
pub open spec fn option_text(value: Option<i8>) -> Seq<char> {
    match value {
        Some(own) => "Some("@ + signed_decimal(own as int) + ")"@,
        None => "None"@,
    }
}

/// What is known about the transmit power of a link, field by field.
pub open spec fn power_text(power: Power) -> Seq<char> {
    "Power { phy: "@ + decimal(power.phy as nat) + ", min: "@ + option_text(power.min)
        + ", adapter_max: "@ + option_text(power.adapter_max) + ", current: "@ + option_text(
        power.current,
    ) + ", connection_max: "@ + option_text(power.connection_max) + ", available: "@ + (
    if power.available {
        "true"@
    } else {
        "false"@
    }) + " }"@
}

/// Numbers, one behind the other.
pub open spec fn numbers_text(numbers: Seq<u64>) -> Seq<char>
    decreases numbers.len(),
{
    if numbers.len() == 0 {
        Seq::empty()
    } else if numbers.len() == 1 {
        decimal(numbers[0] as nat)
    } else {
        numbers_text(numbers.drop_last()) + ", "@ + decimal(numbers.last() as nat)
    }
}

/// The lines on a stream that plays: how loud it is and whether everything went
/// out, what each channel delivered, and the signal where it is known.
pub open spec fn playing_text(counters: Counters, texts: LevelTexts, completed: Seq<u64>) -> Seq<
    char,
> {
    "  hraje: "@ + decimal(counters.frames as nat) + " ramcu, L "@ + texts.left@ + " / R "@
        + texts.right@ + ", basy "@ + texts.bass@ + " / stredy "@ + texts.mid@ + " / vysky "@
        + texts.treble@ + ", "@ + health_text(counters.failed, counters.sent)
        + "\n    doruceno po kanalech: ["@ + numbers_text(completed) + "]"@ + match counters.rssi {
        Some(rssi) => "\n    signal: "@ + signed_decimal(rssi as int) + " dBm"@,
        None => Seq::empty(),
    }
}

/// What the console shows for a report. What was read of a device is printed in
/// full elsewhere.
pub open spec fn console_text(progress: Progress) -> Option<Seq<char>> {
    match progress {
        Progress::RadioPower(power) => Some("Radio TX: "@ + power_text(power)),
        Progress::Streaming { counters, texts, completed, .. } => Some(
            playing_text(counters, texts, completed@),
        ),
        Progress::CapabilitiesRead { .. } => None,
        Progress::StreamPlanned { .. } => None,
        Progress::AdapterReady { version, address } => Some(
            "  "@ + version@ + ", adresa "@ + address@,
        ),
        Progress::LinkState { summary } => Some(summary@),
        Progress::DeviceFound { name, address, rssi, le_audio } => Some(
            (if le_audio {
                "  LE Audio  "@
            } else {
                "            "@
            }) + padded(name@, 28) + " "@ + address@ + "  "@ + signed_decimal(rssi as int)
                + " dBm"@,
        ),
        Progress::Connected { handle } => Some("  pripojeno, handle 0x"@ + hex(handle as nat, 4)),
        Progress::CaptureReady { device, format } => Some(
            "  zdroj zvuku: "@ + device@ + " - "@ + format@,
        ),
        Progress::Idle { after } => Some(
            "  silent for "@ + decimal(after as nat)
                + " s; transmission paused and headphones remain connected"@,
        ),
        Progress::Resumed => Some("  zvuk se vratil"@),
        Progress::Disconnected { reason } => Some(
            "  spojeni se ztratilo: "@ + reason_text(reason) + " (kod 0x"@ + hex(reason as nat, 2)
                + ")"@,
        ),
        Progress::Stopped { reason } => Some("  zastaveno: "@ + reason@),
        Progress::FrameRefused { total } => Some(
            "  ramec vypadal jako sum a byl ztlumen ("@ + decimal(total as nat) + " celkem)"@,
        ),
        Progress::Yielded => Some("  sluchatka si rekla o uvolneni pro jine zarizeni"@),
        Progress::BatteryAsked { reason } => Some(
            "  baterie: dotaz odeslan ("@ + reason@ + ")"@,
        ),
        Progress::Battery { levels } => Some("  baterie: "@ + percentages(levels@)),
    }
}

fn push_padded(line: &mut String, text: &str, width: usize)
    ensures
        final(line)@ == old(line)@ + padded(text@, width as nat),
{
    let ghost before = line@;
    line.append(text);
    let length: usize = text.unicode_len();
    let mut at: usize = length;
    while at < width
        invariant
            length == text@.len(),
            length <= at,
            at <= width || at == length,
            line@ == before + text@ + Seq::new((at - length) as nat, |i: int| ' '),
        decreases width - at,
    {
        line.push(' ');
        at = at + 1;
        assert(line@ =~= before + text@ + Seq::new((at - length) as nat, |i: int| ' '));
    }
    assert(line@ =~= before + padded(text@, width as nat));
}

fn push_percentages(line: &mut String, levels: &Vec<u8>)
    ensures
        final(line)@ == old(line)@ + percentages(levels@),
{
    let ghost before = line@;
    let mut i: usize = 0;
    assert(before =~= before + percentages(levels@.take(0)));
    while i < levels.len()
        invariant
            i <= levels@.len(),
            line@ == before + percentages(levels@.take(i as int)),
        decreases levels@.len() - i,
    {
        assert(levels@.take(i + 1).drop_last() =~= levels@.take(i as int));
        if i > 0 {
            line.append(", ");
        }
        push_decimal(line, levels[i] as u64);
        line.append(" %");
        i = i + 1;
        assert(line@ =~= before + percentages(levels@.take(i as int)));
    }
    assert(levels@.take(i as int) =~= levels@);
}

fn push_option(line: &mut String, value: Option<i8>)
    ensures
        final(line)@ == old(line)@ + option_text(value),
{
    let ghost before = line@;
    match value {
        Some(own) => {
            line.append("Some(");
            push_signed(line, own as i64);
            line.append(")");
        },
        None => line.append("None"),
    }
    assert(line@ =~= before + option_text(value));
}

fn push_power(line: &mut String, power: &Power)
    ensures
        final(line)@ == old(line)@ + power_text(*power),
{
    let ghost before = line@;
    line.append("Power { phy: ");
    push_decimal(line, power.phy as u64);
    line.append(", min: ");
    push_option(line, power.min);
    line.append(", adapter_max: ");
    push_option(line, power.adapter_max);
    line.append(", current: ");
    push_option(line, power.current);
    line.append(", connection_max: ");
    push_option(line, power.connection_max);
    line.append(", available: ");
    line.append(
        if power.available {
            "true"
        } else {
            "false"
        },
    );
    line.append(" }");
    assert(line@ =~= before + power_text(*power));
}

fn push_numbers(line: &mut String, numbers: &Vec<u64>)
    ensures
        final(line)@ == old(line)@ + numbers_text(numbers@),
{
    let ghost before = line@;
    let mut i: usize = 0;
    assert(before =~= before + numbers_text(numbers@.take(0)));
    while i < numbers.len()
        invariant
            i <= numbers@.len(),
            line@ == before + numbers_text(numbers@.take(i as int)),
        decreases numbers@.len() - i,
    {
        assert(numbers@.take(i + 1).drop_last() =~= numbers@.take(i as int));
        if i > 0 {
            line.append(", ");
        }
        push_decimal(line, numbers[i]);
        i = i + 1;
        assert(line@ =~= before + numbers_text(numbers@.take(i as int)));
    }
    assert(numbers@.take(i as int) =~= numbers@);
}

fn playing(counters: &Counters, texts: &LevelTexts, completed: &Vec<u64>) -> (text: String)
    ensures
        text@ == playing_text(*counters, *texts, completed@),
{
    let mut text = String::from_str("  hraje: ");
    push_decimal(&mut text, counters.frames);
    text.append(" ramcu, L ");
    text.append(texts.left.as_str());
    text.append(" / R ");
    text.append(texts.right.as_str());
    text.append(", basy ");
    text.append(texts.bass.as_str());
    text.append(" / stredy ");
    text.append(texts.mid.as_str());
    text.append(" / vysky ");
    text.append(texts.treble.as_str());
    text.append(", ");
    text.append(health(counters.failed, counters.sent).as_str());
    text.append("\n    doruceno po kanalech: [");
    push_numbers(&mut text, completed);
    text.append("]");
    if let Some(rssi) = counters.rssi {
        text.append("\n    signal: ");
        push_signed(&mut text, rssi as i64);
        text.append(" dBm");
    }
    assert(text@ =~= playing_text(*counters, *texts, completed@));
    text
}

/// Whether everything a stream sent went out.
pub fn health(failed: u64, sent: u64) -> (text: String)
    ensures
        text@ == health_text(failed, sent),
{
    if failed == 0 {
        return String::from_str("vse odeslano");
    }
    let mut text = String::from_str("SELHALO ");
    push_decimal(&mut text, failed);
    text.append(" z ");
    push_decimal(&mut text, sent);
    text.append(" prenosu");
    text
}

/// What the console shows for a report.
pub fn console_line(progress: &Progress) -> (line: Option<String>)
    ensures
        match console_text(*progress) {
            Some(text) => line matches Some(own) && own@ == text,
            None => line is None,
        },
{
    let line = match progress {
        Progress::RadioPower(power) => {
            let mut line = String::from_str("Radio TX: ");
            push_power(&mut line, power);
            line
        },
        Progress::Streaming { counters, texts, completed, .. } => playing(
            counters,
            texts,
            completed,
        ),
        Progress::CapabilitiesRead { .. } => {
            return None;
        },
        Progress::StreamPlanned { .. } => {
            return None;
        },
        Progress::AdapterReady { version, address } => {
            let mut line = String::from_str("  ");
            line.append(version.as_str());
            line.append(", adresa ");
            line.append(address.as_str());
            line
        },
        Progress::LinkState { summary } => summary.clone(),
        Progress::DeviceFound { name, address, rssi, le_audio } => {
            let mut line = String::from_str(
                if *le_audio {
                    "  LE Audio  "
                } else {
                    "            "
                },
            );
            push_padded(&mut line, name.as_str(), 28);
            line.append(" ");
            line.append(address.as_str());
            line.append("  ");
            push_signed(&mut line, *rssi as i64);
            line.append(" dBm");
            line
        },
        Progress::Connected { handle } => {
            let mut line = String::from_str("  pripojeno, handle 0x");
            push_hex(&mut line, *handle as u64, 4);
            line
        },
        Progress::CaptureReady { device, format } => {
            let mut line = String::from_str("  zdroj zvuku: ");
            line.append(device.as_str());
            line.append(" - ");
            line.append(format.as_str());
            line
        },
        Progress::Idle { after } => {
            let mut line = String::from_str("  silent for ");
            push_decimal(&mut line, *after);
            line.append(" s; transmission paused and headphones remain connected");
            line
        },
        Progress::Resumed => String::from_str("  zvuk se vratil"),
        Progress::Disconnected { reason } => {
            let mut line = String::from_str("  spojeni se ztratilo: ");
            line.append(disconnect_reason(*reason));
            line.append(" (kod 0x");
            push_hex(&mut line, *reason as u64, 2);
            line.append(")");
            line
        },
        Progress::Stopped { reason } => {
            let mut line = String::from_str("  zastaveno: ");
            line.append(reason.as_str());
            line
        },
        Progress::FrameRefused { total } => {
            let mut line = String::from_str("  ramec vypadal jako sum a byl ztlumen (");
            push_decimal(&mut line, *total);
            line.append(" celkem)");
            line
        },
        Progress::Yielded => String::from_str("  sluchatka si rekla o uvolneni pro jine zarizeni"),
        Progress::BatteryAsked { reason } => {
            let mut line = String::from_str("  baterie: dotaz odeslan (");
            line.append(reason.as_str());
            line.append(")");
            line
        },
        Progress::Battery { levels } => {
            let mut line = String::from_str("  baterie: ");
            push_percentages(&mut line, levels);
            line
        },
    };
    Some(line)
}

// ---- What a report says ----

/// Every counter of a channel is reported under its own name, and what is lost is
/// what was never acknowledged and what was thrown away, together.
pub proof fn every_counter_has_its_name(quality: IsoLinkQuality)
    ensures
        ({
            let row = row_of(quality);
            &&& row.handle == quality.handle
            &&& row.unacked == quality.tx_unacked_packets
            &&& row.flushed == quality.tx_flushed_packets
            &&& row.lost == row.unacked + row.flushed
            &&& row.retransmitted == quality.retransmitted_packets
            &&& row.crc_errors == quality.crc_error_packets
            &&& row.unreceived == quality.rx_unreceived_packets
        }),
{
}

/// Numbers reach the app as numbers, one row for every channel; what the app shows
/// elsewhere is not repeated; everything else is a line.
pub proof fn numbers_stay_numbers(progress: Progress)
    ensures
        progress is Streaming <==> shown(progress) is Streaming,
        progress is Battery <==> shown(progress) is Battery,
        progress is RadioPower <==> shown(progress) is Power,
        progress is CapabilitiesRead || progress is DeviceFound <==> shown(progress) is Nothing,
        match (progress, shown(progress)) {
            (
                Progress::Streaming { counters, levels, completed, quality, .. },
                Shown::Streaming { counters: told, levels: heard, completed: done, radio },
            ) => told == counters && heard == levels && done == completed@ && radio.len()
                == quality@.len() && forall|i: int|
                0 <= i < radio.len() ==> #[trigger] radio[i] == row_of(quality@[i]),
            (Progress::Battery { levels }, Shown::Battery { levels: told }) => told == levels@,
            (Progress::RadioPower(power), Shown::Power(told)) => told == power,
            _ => true,
        },
{
}

/// A stream is healthy only while nothing has failed.
pub proof fn a_failure_is_never_called_healthy(failed: u64, sent: u64)
    ensures
        health_text(failed, sent) == "vse odeslano"@ <==> failed == 0,
{
    reveal_strlit("vse odeslano");
    reveal_strlit("SELHALO ");
    assert("vse odeslano"@[0] == 'v' && "SELHALO "@[0] == 'S');
    if failed > 0 {
        assert(health_text(failed, sent)[0] == 'S');
    }
}

/// A column is as wide as asked, and what does not fit is not cut.
pub proof fn a_column_is_filled(text: Seq<char>, width: nat)
    ensures
        padded(text, width).len() >= width,
        padded(text, width).len() == width || padded(text, width) == text,
        padded(text, width).take(text.len() as int) == text,
        forall|i: int| text.len() <= i < width ==> #[trigger] padded(text, width)[i] == ' ',
{
    assert(padded(text, width).take(text.len() as int) =~= text);
    if text.len() >= width {
        assert(padded(text, width) =~= text);
    }
}

} // verus!
