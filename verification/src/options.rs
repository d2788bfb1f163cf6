//! The command line of the connection tool, and the order of what it does.
//!
//! Safe by default. Without `--stream` the tool connects, reads what the
//! headphones can do and stops - it writes nothing to their configuration.

use crate::bap::{
    rejection_of, CodecConfiguration, ConfigRejection, FrameDuration, PacRecord, Preset,
    SamplingFrequency, LOCATION_STEREO,
};
use crate::google::Chosen;
use crate::preflight::{rate_code, StreamPlan};
use crate::text::{
    decimal, number, parse_number, push_decimal, same_text, text_views, to_chars,
};
use vstd::prelude::*;
use vstd::string::*;

verus! {

/// Where a flag stands, or the number of arguments.
pub open spec fn flag_place(args: Seq<Seq<char>>, flag: Seq<char>) -> int
    decreases args.len(),
{
    if args.len() == 0 || args[0] == flag {
        0
    } else {
        1 + flag_place(args.skip(1), flag)
    }
}

/// What stands behind a flag.
pub open spec fn value_after(args: Seq<Seq<char>>, flag: Seq<char>) -> Option<Seq<char>> {
    if flag_place(args, flag) + 1 < args.len() {
        Some(args[flag_place(args, flag) + 1])
    } else {
        None
    }
}

fn place(args: &[String], flag: &str) -> (at: usize)
    ensures
        at == flag_place(text_views(args@), flag@),
        at <= args@.len(),
{
    let ghost views = text_views(args@);
    let mut i: usize = 0;
    assert(views.skip(0) =~= views);
    while i < args.len()
        invariant
            i <= args@.len(),
            views == text_views(args@),
            flag_place(views, flag@) == i + flag_place(views.skip(i as int), flag@),
        decreases args@.len() - i,
    {
        assert(views.skip(i as int).skip(1) =~= views.skip(i + 1));
        if same_text(args[i].as_str(), flag) {
            return i;
        }
        i = i + 1;
    }
    i
}

/// Whether a flag was given.
pub fn has_flag(args: &[String], flag: &str) -> (yes: bool)
    ensures
        yes == (flag_place(text_views(args@), flag@) < args@.len()),
{
    place(args, flag) < args.len()
}

/// What stands behind a flag.
pub fn value_of<'a>(args: &'a [String], flag: &str) -> (value: Option<&'a str>)
    ensures
        match value {
            Some(text) => value_after(text_views(args@), flag@) == Some(text@),
            None => value_after(text_views(args@), flag@) is None,
        },
{
    let at = place(args, flag);
    if at < args.len() && at + 1 < args.len() {
        Some(args[at + 1].as_str())
    } else {
        None
    }
}

/// The preset that a name stands for.
pub open spec fn preset_called(name: Option<Seq<char>>) -> Preset {
    match name {
        Some(own) => if own == "low-latency"@ {
            Preset::LowLatency
        } else if own == "high-quality"@ {
            Preset::HighQuality
        } else if own == "robust"@ {
            Preset::Robust
        } else {
            Preset::WindowsDefault
        },
        None => Preset::WindowsDefault,
    }
}

/// The preset that was asked for.
pub fn parse_preset(args: &[String]) -> (preset: Preset)
    ensures
        preset == preset_called(value_after(text_views(args@), "--preset"@)),
{
    match value_of(args, "--preset") {
        Some(name) => if same_text(name, "low-latency") {
            Preset::LowLatency
        } else if same_text(name, "high-quality") {
            Preset::HighQuality
        } else if same_text(name, "robust") {
            Preset::Robust
        } else {
            Preset::WindowsDefault
        },
        None => Preset::WindowsDefault,
    }
}

/// The codec that was typed, if a rate LC3 uses and an octet count were.
pub open spec fn typed(args: Seq<Seq<char>>) -> Option<CodecConfiguration> {
    match (value_after(args, "--rate"@), value_after(args, "--octets"@)) {
        (Some(rate), Some(octets)) => match (
            number(rate, 10, u32::MAX as nat),
            number(octets, 10, u16::MAX as nat),
        ) {
            (Some(hz), Some(count)) => if crate::bap::is_lc3_rate(hz as u32) {
                Some(
                    CodecConfiguration {
                        sampling_frequency: SamplingFrequency(rate_code(hz as u32)),
                        frame_duration: if value_after(args, "--frame"@) == Some("7.5"@) {
                            FrameDuration::Ms7_5
                        } else {
                            FrameDuration::Ms10
                        },
                        channel_allocation: LOCATION_STEREO,
                        octets_per_frame: count as u16,
                        frames_per_sdu: 2,
                    },
                )
            } else {
                None
            },
            _ => None,
        },
        _ => None,
    }
}

/// A configuration straight from the command line.
pub fn custom_codec(args: &[String]) -> (codec: Option<CodecConfiguration>)
    ensures
        codec == typed(text_views(args@)),
{
    let rate = match value_of(args, "--rate") {
        Some(text) => parse_number(&to_chars(text), 10, u32::MAX as u64),
        None => return None,
    };
    let octets = match value_of(args, "--octets") {
        Some(text) => parse_number(&to_chars(text), 10, u16::MAX as u64),
        None => return None,
    };
    let (hz, count) = match (rate, octets) {
        (Some(hz), Some(count)) => (hz, count),
        _ => return None,
    };
    let short = match value_of(args, "--frame") {
        Some(text) => same_text(text, "7.5"),
        None => false,
    };
    let code: u8 = match hz {
        8_000 => SamplingFrequency::HZ_8000,
        16_000 => SamplingFrequency::HZ_16000,
        24_000 => SamplingFrequency::HZ_24000,
        32_000 => SamplingFrequency::HZ_32000,
        44_100 => SamplingFrequency::HZ_44100,
        48_000 => SamplingFrequency::HZ_48000,
        _ => return None,
    };
    Some(
        CodecConfiguration {
            sampling_frequency: SamplingFrequency(code),
            frame_duration: if short {
                FrameDuration::Ms7_5
            } else {
                FrameDuration::Ms10
            },
            channel_allocation: LOCATION_STEREO,
            octets_per_frame: count as u16,
            frames_per_sdu: 2,
        },
    )
}

/// Where the plan of a stream comes from.
#[derive(Debug, Clone, Copy, PartialEq, Eq, Structural)]
pub enum PlanSource {
    /// The codec that was typed.
    Typed { codec: CodecConfiguration, single: bool },
    /// The preset that was named.
    Named { preset: Preset, single: bool },
    /// Android's list.
    Android { single: bool },
}

/// Where the plan of a stream comes from: a codec that was typed wins over a
/// preset that was named, and without either it is Android's list. One channel
/// carries both ears where that can be had, unless two are asked for.
pub open spec fn source_of(args: Seq<Seq<char>>) -> PlanSource {
    let single = flag_place(args, "--dual-cis"@) >= args.len();
    match typed(args) {
        Some(codec) => PlanSource::Typed { codec, single },
        None => if flag_place(args, "--preset"@) < args.len() {
            PlanSource::Named { preset: preset_called(value_after(args, "--preset"@)), single }
        } else {
            PlanSource::Android { single }
        },
    }
}

/// Where the plan of a stream comes from.
///
/// What Android would do is only one of the questions worth asking, so whatever
/// was typed wins.
pub fn plan_source(args: &[String]) -> (source: PlanSource)
    ensures
        source == source_of(text_views(args@)),
{
    let single = !has_flag(args, "--dual-cis");
    match custom_codec(args) {
        Some(codec) => PlanSource::Typed { codec, single },
        None => if has_flag(args, "--preset") {
            PlanSource::Named { preset: parse_preset(args), single }
        } else {
            PlanSource::Android { single }
        },
    }
}

impl PlanSource {
    /// What is said of a plan that does not come from Android's list.
    pub fn announcement(&self) -> (line: Option<&'static str>)
        ensures
            match *self {
                PlanSource::Typed { .. } => line matches Some(text) && text@
                    == "  vlastni konfigurace ze prikazove radky"@,
                PlanSource::Named { .. } => line matches Some(text) && text@
                    == "  preset zvoleny rucne, Androidi poradi se nepouzije"@,
                PlanSource::Android { .. } => line is None,
            },
    {
        match *self {
            PlanSource::Typed { .. } => Some("  vlastni konfigurace ze prikazove radky"),
            PlanSource::Named { .. } => Some(
                "  preset zvoleny rucne, Androidi poradi se nepouzije",
            ),
            PlanSource::Android { .. } => None,
        }
    }
}

/// A codec that was typed is never passed over, and Android's list is used only
/// where nothing was typed and no preset was named.
pub proof fn what_was_typed_wins(args: Seq<Seq<char>>)
    ensures
        typed(args) is Some <==> source_of(args) is Typed,
        source_of(args) is Typed ==> typed(args) == Some(source_of(args)->Typed_codec),
        source_of(args) is Android <==> typed(args) is None && flag_place(args, "--preset"@)
            >= args.len(),
{
}

/// The first LC3 record, or the number of records.
pub open spec fn lc3_place(records: Seq<PacRecord>) -> int
    decreases records.len(),
{
    if records.len() == 0 || records[0].coding_format == 0x06 {
        0
    } else {
        1 + lc3_place(records.skip(1))
    }
}

/// Why a hand-written configuration is not used.
#[derive(Debug, Clone, Copy, PartialEq, Eq, Structural)]
pub enum Unusable {
    /// The device has no LC3 sink at all.
    NoSink,
    /// It did not advertise this.
    Rejected(ConfigRejection),
}

/// Refuses anything the device did not advertise, rather than sending it and
/// hoping.
pub fn check_custom(records: &[PacRecord], codec: &CodecConfiguration) -> (verdict: Result<
    (),
    Unusable,
>)
    ensures
        ({
            let at = lc3_place(records@);
            if at >= records@.len() {
                verdict == Err::<(), Unusable>(Unusable::NoSink)
            } else {
                match rejection_of(records@[at].capabilities@, *codec) {
                    Some(why) => verdict == Err::<(), Unusable>(Unusable::Rejected(why)),
                    None => verdict is Ok,
                }
            }
        }),
{
    let mut i: usize = 0;
    assert(records@.skip(0) =~= records@);
    while i < records.len()
        invariant
            i <= records@.len(),
            lc3_place(records@) == i + lc3_place(records@.skip(i as int)),
        decreases records@.len() - i,
    {
        assert(records@.skip(i as int).skip(1) =~= records@.skip(i + 1));
        if records[i].is_lc3() {
            return match records[i].capabilities.accepts(codec) {
                Ok(()) => Ok(()),
                Err(why) => Err(Unusable::Rejected(why)),
            };
        }
        i = i + 1;
    }
    Err(Unusable::NoSink)
}

/// Puts a hand-written configuration in place of the planned one, with the SDU
/// size and interval that belong to it. Everything else of the plan stands.
pub fn with_codec(plan: StreamPlan, codec: CodecConfiguration) -> (custom: StreamPlan)
    requires
        codec.sdu_octets() <= 0xFFFF,
    ensures
        custom.codec == codec,
        custom.qos.max_sdu == codec.sdu_octets(),
        custom.qos.sdu_interval_us == codec.frame_duration.us(),
        custom == (StreamPlan {
            codec,
            qos: crate::bap::QosConfiguration {
                max_sdu: custom.qos.max_sdu,
                sdu_interval_us: custom.qos.sdu_interval_us,
                ..plan.qos
            },
            ..plan
        }),
{
    let mut custom = plan;
    custom.qos.max_sdu = codec.sdu_size();
    custom.qos.sdu_interval_us = codec.frame_duration.microseconds();
    custom.codec = codec;
    custom
}

/// The bitrate of one channel in kbit/s, for so many octets in every frame.
pub fn kbps(octets: u16, frame_us: u32) -> (rate: u32)
    requires
        frame_us > 0,
    ensures
        rate == octets * 8_000_000 / (frame_us as int) / 1000,
{
    let bits: u64 = octets as u64 * 8_000_000;
    let per_second: u64 = bits / (frame_us as u64);
    proof {
        vstd::arithmetic::div_mod::lemma_div_is_ordered_by_denominator(
            bits as int,
            1,
            frame_us as int,
        );
        vstd::arithmetic::div_mod::lemma_div_basics(bits as int);
    }
    (per_second / 1000) as u32
}

// ---- The order of the steps ----

/// How often the connection itself is tried.
///
/// A peripheral advertises in bursts, so a single attempt can simply miss the
/// window - especially after a pause.
pub const ATTEMPTS: u32 = 3;

/// What the tool is doing.
#[derive(Debug, Clone, Copy, PartialEq, Eq, Structural)]
pub enum Phase {
    OpeningAdapter,
    Scanning,
    Connecting { attempt: u32 },
    Pairing,
    ReadingCapabilities,
    Planning,
    Configuring,
    Playing,
}

/// What follows.
#[derive(Debug, Clone, Copy, PartialEq, Eq, Structural)]
pub enum Follows {
    Do(Phase),
    /// Wait a second, then try again.
    Again(Phase),
    Done,
    Fail,
}

/// What follows a phase.
pub open spec fn follows(phase: Phase, ok: bool, stream: bool) -> Follows {
    match phase {
        Phase::OpeningAdapter => if ok {
            Follows::Do(Phase::Scanning)
        } else {
            Follows::Fail
        },
        Phase::Scanning => if ok {
            Follows::Do(Phase::Connecting { attempt: 1 })
        } else {
            Follows::Fail
        },
        Phase::Connecting { attempt } => if ok {
            Follows::Do(Phase::Pairing)
        } else if attempt < ATTEMPTS {
            Follows::Again(Phase::Connecting { attempt: (attempt + 1) as u32 })
        } else {
            Follows::Fail
        },
        // Some devices allow reading their capabilities without pairing.
        Phase::Pairing => Follows::Do(Phase::ReadingCapabilities),
        Phase::ReadingCapabilities => if ok {
            Follows::Do(Phase::Planning)
        } else {
            Follows::Fail
        },
        Phase::Planning => if !ok {
            Follows::Fail
        } else if stream {
            Follows::Do(Phase::Configuring)
        } else {
            Follows::Done
        },
        Phase::Configuring => if ok {
            Follows::Do(Phase::Playing)
        } else {
            Follows::Fail
        },
        Phase::Playing => if ok {
            Follows::Done
        } else {
            Follows::Fail
        },
    }
}

/// Decides what follows a phase.
pub fn after_phase(phase: Phase, ok: bool, stream: bool) -> (next: Follows)
    ensures
        next == follows(phase, ok, stream),
{
    match phase {
        Phase::Connecting { attempt } => if ok {
            Follows::Do(Phase::Pairing)
        } else if attempt < ATTEMPTS {
            Follows::Again(Phase::Connecting { attempt: attempt + 1 })
        } else {
            Follows::Fail
        },
        Phase::Pairing => Follows::Do(Phase::ReadingCapabilities),
        _ => if !ok {
            Follows::Fail
        } else {
            match phase {
                Phase::OpeningAdapter => Follows::Do(Phase::Scanning),
                Phase::Scanning => Follows::Do(Phase::Connecting { attempt: 1 }),
                Phase::ReadingCapabilities => Follows::Do(Phase::Planning),
                Phase::Planning => if stream {
                    Follows::Do(Phase::Configuring)
                } else {
                    Follows::Done
                },
                Phase::Configuring => Follows::Do(Phase::Playing),
                _ => Follows::Done,
            }
        },
    }
}

/// What the walk over Android's list settled on, in one line. How far down the
/// list it landed is worth saying: the first entry is what a phone would have
/// asked for, and any other means that the headphones turned that down.
pub open spec fn choice_text(chosen: Option<&Chosen>) -> Seq<char> {
    match chosen {
        None => "  zadna z Androidich konfiguraci sluchatkum nesedi"@,
        Some(c) => "  Google/Android: LC3 "@ + c.setting.name@ + " ("@ + decimal(
            (c.setting.octets_per_frame * 8_000_000 / c.setting.frame_duration.us() as int
                / 1000) as nat,
        ) + " kbps/kanal) - "@ + if c.rank == 0 {
            "prvni volba, stejne jako telefon"@
        } else {
            decimal((c.rank + 1) as nat) + ". volba - prvni "@ + decimal(c.rank as nat)
                + " sluchatka odmitla"@
        },
    }
}

/// Describes what the walk over Android's list settled on.
pub fn describe_choice(chosen: Option<&Chosen>) -> (line: String)
    requires
        chosen matches Some(c) ==> c.rank < usize::MAX && c.setting.octets_per_frame <= 536,
    ensures
        line@ == choice_text(chosen),
{
    let c = match chosen {
        Some(c) => c,
        None => {
            return String::from_str("  zadna z Androidich konfiguraci sluchatkum nesedi");
        },
    };
    let mut line = String::from_str("  Google/Android: LC3 ");
    line.append(c.setting.name);
    line.append(" (");
    push_decimal(&mut line, (c.setting.bitrate() / 1000) as u64);
    line.append(" kbps/kanal) - ");
    if c.rank == 0 {
        line.append("prvni volba, stejne jako telefon");
    } else {
        push_decimal(&mut line, (c.rank + 1) as u64);
        line.append(". volba - prvni ");
        push_decimal(&mut line, c.rank as u64);
        line.append(" sluchatka odmitla");
    }
    assert(line@ =~= choice_text(chosen));
    line
}

/// Without `--stream` nothing is ever written to the headphones' configuration:
/// no phase leads to one that does.
pub proof fn nothing_is_written_unasked(phase: Phase, ok: bool)
    requires
        !(phase is Configuring),
    ensures
        follows(phase, ok, false) != Follows::Do(Phase::Configuring),
        follows(phase, ok, false) != Follows::Do(Phase::Playing),
{
}


/// The tool goes through its steps in turn: it opens the adapter, scans, connects, at
/// most three times, pairs, which it can do without, reads, plans, and only where a
/// stream was asked for configures and plays. A step that fails otherwise is the end.
pub proof fn the_tool_goes_in_turn(phase: Phase, ok: bool, stream: bool)
    ensures
        ({
            let next = follows(phase, ok, stream);
            &&& phase is OpeningAdapter && ok ==> next == Follows::Do(Phase::Scanning)
            &&& phase is Scanning && ok ==> next == Follows::Do(Phase::Connecting { attempt: 1 })
            &&& phase is Connecting && ok ==> next == Follows::Do(Phase::Pairing)
            &&& phase is Pairing ==> next == Follows::Do(Phase::ReadingCapabilities)
            &&& phase is ReadingCapabilities && ok ==> next == Follows::Do(Phase::Planning)
            &&& phase is Planning && ok && stream ==> next == Follows::Do(Phase::Configuring)
            &&& phase is Planning && ok && !stream ==> next == Follows::Done
            &&& phase is Configuring && ok ==> next == Follows::Do(Phase::Playing)
            &&& phase is Playing && ok ==> next == Follows::Done
            &&& !ok && !(phase is Pairing) && !(phase is Connecting) ==> next == Follows::Fail
            &&& !ok ==> (phase matches Phase::Connecting { attempt } ==> next == if attempt < 3 {
                Follows::Again(Phase::Connecting { attempt: (attempt + 1) as u32 })
            } else {
                Follows::Fail
            })
        }),
{
}

/// What was typed is what is asked for: the rate, the octets, a short frame only for
/// the word that says so, both ears in one stream.
pub proof fn a_typed_codec_is_what_was_typed(args: Seq<Seq<char>>)
    ensures
        typed(args) matches Some(codec) ==> {
            &&& value_after(args, "--rate"@) is Some && value_after(args, "--octets"@) is Some
            &&& crate::bap::code_hz(codec.sampling_frequency.0) is Some && number(
                value_after(args, "--rate"@)->0,
                10,
                u32::MAX as nat,
            ) == Some(crate::bap::code_hz(codec.sampling_frequency.0)->0 as nat)
            &&& number(value_after(args, "--octets"@)->0, 10, u16::MAX as nat) == Some(
                codec.octets_per_frame as nat,
            )
            &&& codec.frame_duration.us() == if value_after(args, "--frame"@) == Some("7.5"@) {
                7_500u32
            } else {
                10_000u32
            }
            &&& codec.channel_allocation == 3 && codec.frames_per_sdu == 2
        },
{
    if typed(args) is Some {
        let hz = number(value_after(args, "--rate"@)->0, 10, u32::MAX as nat)->0;
        crate::preflight::a_typed_rate_is_the_one_configured(hz as u32);
    }
}

proof fn lemma_flag_place(args: Seq<Seq<char>>, flag: Seq<char>)
    ensures
        0 <= flag_place(args, flag) <= args.len(),
        flag_place(args, flag) < args.len() ==> args[flag_place(args, flag)] == flag,
        forall|i: int| 0 <= i < flag_place(args, flag) ==> #[trigger] args[i] != flag,
    decreases args.len(),
{
    if args.len() > 0 && args[0] != flag {
        let rest = args.skip(1);
        lemma_flag_place(rest, flag);
        assert forall|i: int| 0 <= i < flag_place(args, flag) implies #[trigger] args[i]
            != flag by {
            if i > 0 {
                assert(args[i] == rest[i - 1]);
            }
        }
    }
}

/// A flag is found where it first stands, and its value is what stands right behind
/// it.
pub proof fn a_value_stands_right_behind_its_flag(args: Seq<Seq<char>>, flag: Seq<char>, at: int)
    requires
        0 <= at < args.len(),
        args[at] == flag,
        forall|i: int| 0 <= i < at ==> #[trigger] args[i] != flag,
    ensures
        flag_place(args, flag) == at,
        value_after(args, flag) == if at + 1 < args.len() {
            Some(args[at + 1])
        } else {
            None
        },
{
    lemma_flag_place(args, flag);
    let found = flag_place(args, flag);
    if found < at {
        assert(args[found] == flag);
    }
    if found > at {
        assert(args[at] != flag);
    }
}

/// Each preset answers to its own name, and any other name is the default.
pub proof fn a_preset_answers_to_its_name(name: Seq<char>)
    ensures
        name == "low-latency"@ ==> preset_called(Some(name)) == Preset::LowLatency,
        preset_called(Some(name)) == Preset::LowLatency ==> name == "low-latency"@,
        preset_called(Some(name)) == Preset::HighQuality ==> name == "high-quality"@,
        preset_called(Some(name)) == Preset::Robust ==> name == "robust"@,
        preset_called(Some(name)) == Preset::WindowsDefault ==> name != "low-latency"@ && name
            != "high-quality"@ && name != "robust"@,
        preset_called(None) == Preset::WindowsDefault,
{
}

/// What was typed is held against the first LC3 record of the device.
pub proof fn the_first_lc3_record_counts(records: Seq<PacRecord>)
    ensures
        0 <= lc3_place(records) <= records.len(),
        lc3_place(records) < records.len() ==> records[lc3_place(records)].coding_format == 6,
        forall|i: int| 0 <= i < lc3_place(records) ==> (#[trigger] records[i]).coding_format != 6,
    decreases records.len(),
{
    if records.len() > 0 && records[0].coding_format != 6 {
        let rest = records.skip(1);
        the_first_lc3_record_counts(rest);
        assert forall|i: int| 0 <= i < lc3_place(records) implies (
        #[trigger] records[i]).coding_format != 6 by {
            if i > 0 {
                assert(records[i] == rest[i - 1]);
            }
        }
    }
}

/// One channel is preferred unless two were asked for, whatever the plan comes from.
pub proof fn one_channel_unless_two_are_asked_for(args: Seq<Seq<char>>)
    ensures
        ({
            let two = args.contains("--dual-cis"@);
            match source_of(args) {
                PlanSource::Typed { single, .. } => single == !two,
                PlanSource::Named { single, preset } => single == !two && preset == preset_called(
                    value_after(args, "--preset"@),
                ),
                PlanSource::Android { single } => single == !two,
            }
        }),
        source_of(args) is Android ==> !args.contains("--preset"@),
        source_of(args) is Named ==> args.contains("--preset"@),
{
    lemma_flag_place(args, "--dual-cis"@);
    lemma_flag_place(args, "--preset"@);
    let dual = flag_place(args, "--dual-cis"@);
    let preset = flag_place(args, "--preset"@);
    if dual < args.len() {
        assert(args[dual] == "--dual-cis"@);
    }
    if preset < args.len() {
        assert(args[preset] == "--preset"@);
    }
    if args.contains("--dual-cis"@) {
        let i = choose|i: int| 0 <= i < args.len() && args[i] == "--dual-cis"@;
        assert(!(i < dual));
    }
    if args.contains("--preset"@) {
        let i = choose|i: int| 0 <= i < args.len() && args[i] == "--preset"@;
        assert(!(i < preset));
    }
}

} // verus!
