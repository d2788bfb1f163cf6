//! One planning path for both preflight and real setup. No radio I/O here.
//!
//! What the user chose becomes a stream: which context it is for, which codec
//! and radio values it asks for, and what it is called on screen. How a stream
//! is laid out over endpoints is decided by the code that knows the device's
//! endpoints; what it built is finished and checked here.

use crate::bap::ascs::{CONTEXT_GAME, CONTEXT_MEDIA, LATENCY_HIGH_RELIABILITY, LATENCY_LOW};
use crate::bap::{
    code_hz, is_lc3_rate, CodecConfiguration, FrameDuration, QosConfiguration, SamplingFrequency,
    LOCATION_FRONT_LEFT,
};
use crate::google::Chosen;
use crate::settings::{setting, Settings};
use crate::text::{decimal, hex, push_decimal, push_hex, same_text};
use vstd::prelude::*;
use vstd::string::*;

verus! {

/// How good the headset's microphone has to sound.
#[derive(Debug, Clone, Copy, PartialEq, Eq, Structural)]
pub enum MicrophoneQuality {
    Voice,
    Balanced,
    High,
}

/// The microphone half of a stream.
#[derive(Debug, Clone, Copy, PartialEq, Eq, Structural)]
pub struct MicrophonePlan {
    pub ase_id: u8,
    pub cis_id: u8,
    pub codec: CodecConfiguration,
    pub qos: QosConfiguration,
}

/// What a stream asks for.
#[derive(Debug, Clone, Copy, PartialEq, Eq, Structural)]
pub struct StreamPlan {
    pub codec: CodecConfiguration,
    pub qos: QosConfiguration,
    pub context: u16,
    pub target_latency: u8,
    pub microphone: Option<MicrophonePlan>,
}

/// The numbers of a custom stream, as far as the user typed them.
#[derive(Debug, Clone, Copy, PartialEq, Eq, Structural)]
pub struct CustomNumbers {
    pub rate_hz: Option<u32>,
    /// Whether the frame is nearer to 7.5 ms than to 10 ms.
    pub short_frame: bool,
    pub octets: Option<u16>,
    pub retransmissions: Option<u8>,
    pub max_latency_ms: Option<u16>,
    pub presentation_delay_us: Option<u32>,
}

/// A value the user may have left out.
pub open spec fn or_default<T>(value: Option<T>, default: T) -> T {
    match value {
        Some(v) => v,
        None => default,
    }
}

/// The codec configuration the user typed in, with the defaults filled in.
pub open spec fn typed_codec(numbers: CustomNumbers) -> CodecConfiguration {
    CodecConfiguration {
        sampling_frequency: SamplingFrequency(rate_code(or_default(numbers.rate_hz, 48_000))),
        frame_duration: if numbers.short_frame {
            FrameDuration::Ms7_5
        } else {
            FrameDuration::Ms10
        },
        channel_allocation: LOCATION_FRONT_LEFT,
        octets_per_frame: or_default(numbers.octets, 100),
        frames_per_sdu: 1,
    }
}

/// The code of a rate that LC3 streams may have; that of 48 kHz for any other.
pub open spec fn rate_code(hz: u32) -> u8 {
    if hz == 8_000 {
        SamplingFrequency::HZ_8000
    } else if hz == 16_000 {
        SamplingFrequency::HZ_16000
    } else if hz == 24_000 {
        SamplingFrequency::HZ_24000
    } else if hz == 32_000 {
        SamplingFrequency::HZ_32000
    } else if hz == 44_100 {
        SamplingFrequency::HZ_44100
    } else {
        SamplingFrequency::HZ_48000
    }
}

/// The code stands for the rate it was made from.
pub proof fn a_typed_rate_is_the_one_configured(hz: u32)
    requires
        is_lc3_rate(hz),
    ensures
        code_hz(rate_code(hz)) == Some(hz),
{
}

/// The transport configuration the user typed in, with the defaults filled in.
pub open spec fn typed_qos(
    settings: Map<Seq<char>, Seq<char>>,
    numbers: CustomNumbers,
) -> QosConfiguration {
    let codec = typed_codec(numbers);
    QosConfiguration {
        sdu_interval_us: codec.frame_duration.us(),
        framing: 0,
        phy: if setting(settings, "phy"@) == Some("1M"@) {
            0x01
        } else {
            0x02
        },
        max_sdu: codec.octets_per_frame,
        retransmission_number: or_default(numbers.retransmissions, 2),
        max_transport_latency_ms: or_default(numbers.max_latency_ms, 20),
        presentation_delay_us: or_default(numbers.presentation_delay_us, 40_000),
    }
}

/// The codec configuration the user typed in, with the defaults filled in.
pub fn custom_codec(numbers: &CustomNumbers) -> (codec: CodecConfiguration)
    ensures
        codec == typed_codec(*numbers),
{
    let rate = match numbers.rate_hz {
        Some(rate) => rate,
        None => 48_000,
    };
    let code = if rate == 8_000 {
        SamplingFrequency::HZ_8000
    } else if rate == 16_000 {
        SamplingFrequency::HZ_16000
    } else if rate == 24_000 {
        SamplingFrequency::HZ_24000
    } else if rate == 32_000 {
        SamplingFrequency::HZ_32000
    } else if rate == 44_100 {
        SamplingFrequency::HZ_44100
    } else {
        SamplingFrequency::HZ_48000
    };
    CodecConfiguration {
        sampling_frequency: SamplingFrequency(code),
        frame_duration: if numbers.short_frame {
            FrameDuration::Ms7_5
        } else {
            FrameDuration::Ms10
        },
        channel_allocation: LOCATION_FRONT_LEFT,
        octets_per_frame: match numbers.octets {
            Some(octets) => octets,
            None => 100,
        },
        frames_per_sdu: 1,
    }
}

/// The transport configuration the user typed in, with the defaults filled in.
pub fn custom_qos(settings: &Settings, numbers: &CustomNumbers) -> (qos: QosConfiguration)
    ensures
        qos == typed_qos(settings@, *numbers),
{
    let codec = custom_codec(numbers);
    QosConfiguration {
        sdu_interval_us: codec.frame_duration.microseconds(),
        framing: 0,
        // 1M takes more airtime; actual range depends on both radios.
        phy: if settings.is("phy", "1M") {
            0x01
        } else {
            0x02
        },
        max_sdu: codec.octets_per_frame,
        retransmission_number: match numbers.retransmissions {
            Some(count) => count,
            None => 2,
        },
        max_transport_latency_ms: match numbers.max_latency_ms {
            Some(latency) => latency,
            None => 20,
        },
        presentation_delay_us: match numbers.presentation_delay_us {
            Some(delay) => delay,
            None => 40_000,
        },
    }
}

/// What the user chose, as far as a plan depends on it.
#[derive(Debug, Clone, Copy, PartialEq, Eq, Structural)]
pub struct Choices {
    pub gaming: bool,
    pub custom: bool,
    pub mono: bool,
    pub microphone: Option<MicrophoneQuality>,
}

/// What the user chose. Anything that is not "custom" means Android's list, so a
/// preset that no longer exists lands there too.
pub open spec fn chosen_by(settings: Map<Seq<char>, Seq<char>>) -> Choices {
    Choices {
        gaming: setting(settings, "audio_context"@) == Some("game"@),
        custom: setting(settings, "preset"@) == Some("custom"@),
        mono: setting(settings, "audio_mode"@) == Some("mono"@),
        microphone: if setting(settings, "microphone_mode"@) == Some("on"@) {
            Some(
                if setting(settings, "microphone_quality"@) == Some("voice"@) {
                    MicrophoneQuality::Voice
                } else if setting(settings, "microphone_quality"@) == Some("high"@) {
                    MicrophoneQuality::High
                } else {
                    MicrophoneQuality::Balanced
                },
            )
        } else {
            None
        },
    }
}

impl Choices {
    /// The context the stream is for.
    pub open spec fn context(self) -> u16 {
        if self.gaming {
            CONTEXT_GAME
        } else {
            CONTEXT_MEDIA
        }
    }

    pub fn read(settings: &Settings) -> (choices: Self)
        ensures
            choices == chosen_by(settings@),
    {
        Choices {
            gaming: settings.is("audio_context", "game"),
            custom: settings.is("preset", "custom"),
            mono: settings.is("audio_mode", "mono"),
            microphone: if settings.is("microphone_mode", "on") {
                Some(
                    if settings.is("microphone_quality", "voice") {
                        MicrophoneQuality::Voice
                    } else if settings.is("microphone_quality", "high") {
                        MicrophoneQuality::High
                    } else {
                        MicrophoneQuality::Balanced
                    },
                )
            } else {
                None
            },
        }
    }
}

/// How a context that the headphones do not support is refused.
pub open spec fn context_refusal(gaming: bool, supported: u16) -> Seq<char> {
    "selected "@ + (if gaming {
        "gaming"@
    } else {
        "media"@
    }) + " mode is not supported by these headphones (supported contexts 0x"@ + hex(
        supported as nat,
        4,
    ) + ")"@
}

/// Whether the headphones say that they do not support a context.
pub open spec fn refuses_context(supported: Option<u16>, context: u16) -> bool {
    supported matches Some(contexts) && contexts & context == 0
}

/// The context for what the user chose, unless the headphones do not support it.
pub fn requested_context(gaming: bool, supported: Option<u16>) -> (context: Result<u16, String>)
    ensures
        ({
            let wanted = if gaming {
                CONTEXT_GAME
            } else {
                CONTEXT_MEDIA
            };
            if refuses_context(supported, wanted) {
                context matches Err(text) && text@ == context_refusal(gaming, supported->0)
            } else {
                context == Ok::<u16, String>(wanted)
            }
        }),
{
    let wanted = if gaming {
        CONTEXT_GAME
    } else {
        CONTEXT_MEDIA
    };
    if let Some(contexts) = supported {
        if contexts & wanted == 0 {
            let mut text = String::from_str("selected ");
            if gaming {
                text.append("gaming");
            } else {
                text.append("media");
            }
            text.append(" mode is not supported by these headphones (supported contexts 0x");
            push_hex(&mut text, contexts as u64, 4);
            text.append(")");
            return Err(text);
        }
    }
    Ok(wanted)
}

/// What a stream is called on screen.
pub open spec fn plan_label(choices: Choices, chosen: Option<(Seq<char>, nat)>) -> Seq<char> {
    if choices.custom {
        "custom / "@ + if choices.gaming {
            "gaming"@
        } else {
            "media"@
        }
    } else {
        let scenario = "Google/Android "@ + if choices.gaming {
            "Gaming"@
        } else {
            "Media"@
        };
        match chosen {
            None => scenario,
            Some((name, rank)) => if rank == 0 {
                scenario + " - LC3 "@ + name
            } else {
                scenario + " - LC3 "@ + name + " ("@ + decimal(rank + 1) + ". volba)"@
            },
        }
    }
}

/// Name and rank of what a walk over a list settled on.
pub open spec fn choice_view(chosen: Option<&Chosen>) -> Option<(Seq<char>, nat)> {
    match chosen {
        Some(c) => Some((c.setting.name@, c.rank as nat)),
        None => None,
    }
}

/// What a stream is called on screen.
pub fn label(choices: &Choices, chosen: Option<&Chosen>) -> (text: String)
    requires
        chosen matches Some(c) ==> c.rank < usize::MAX,
    ensures
        text@ == plan_label(*choices, choice_view(chosen)),
{
    if choices.custom {
        let mut text = String::from_str("custom / ");
        if choices.gaming {
            text.append("gaming");
        } else {
            text.append("media");
        }
        return text;
    }
    let mut text = String::from_str("Google/Android ");
    if choices.gaming {
        text.append("Gaming");
    } else {
        text.append("Media");
    }
    if let Some(chosen) = chosen {
        text.append(" - LC3 ");
        text.append(chosen.setting.name);
        if chosen.rank != 0 {
            text.append(" (");
            push_decimal(&mut text, (chosen.rank + 1) as u64);
            text.append(". volba)");
        }
    }
    assert(text@ =~= plan_label(*choices, choice_view(chosen)));
    text
}

/// A plan with what only a custom stream brings along: its context and target
/// latency, the PHY the user chose, and the retransmissions they typed. A plan
/// of the automatic path carries values that were measured, not guessed, and a
/// stale saved value must not override them.
pub open spec fn with_choices(
    plan: StreamPlan,
    choices: Choices,
    settings: Map<Seq<char>, Seq<char>>,
    numbers: CustomNumbers,
) -> StreamPlan {
    if choices.custom {
        StreamPlan {
            context: choices.context(),
            target_latency: if choices.gaming {
                LATENCY_LOW
            } else {
                LATENCY_HIGH_RELIABILITY
            },
            qos: QosConfiguration {
                phy: match setting(settings, "phy"@) {
                    Some(phy) => if phy == "1M"@ {
                        0x01
                    } else {
                        0x02
                    },
                    None => plan.qos.phy,
                },
                retransmission_number: or_default(
                    numbers.retransmissions,
                    plan.qos.retransmission_number,
                ),
                ..plan.qos
            },
            ..plan
        }
    } else {
        plan
    }
}

/// How the layout of a stream over a device's endpoints is built.
#[derive(Debug, Clone, Copy, PartialEq, Eq, Structural)]
pub enum Builder {
    /// From the numbers the user typed.
    Custom { codec: CodecConfiguration, qos: QosConfiguration },
    /// From Android's list for games.
    Game,
    /// From Android's list for media.
    Media,
}

/// How the layout of a stream is built.
pub open spec fn builder_of(
    settings: Map<Seq<char>, Seq<char>>,
    numbers: CustomNumbers,
) -> Builder {
    if chosen_by(settings).custom {
        Builder::Custom { codec: typed_codec(numbers), qos: typed_qos(settings, numbers) }
    } else if chosen_by(settings).gaming {
        Builder::Game
    } else {
        Builder::Media
    }
}

/// Decides how the layout of a stream is built.
///
/// Everything that is not a configuration the user typed comes from Android's
/// list. There is no preset to fall back to, on purpose: mixing the two would
/// make it impossible to tell from a log which of them produced a stream.
pub fn builder(settings: &Settings, numbers: &CustomNumbers) -> (builder: Builder)
    ensures
        builder == builder_of(settings@, *numbers),
{
    let choices = Choices::read(settings);
    if choices.custom {
        Builder::Custom { codec: custom_codec(numbers), qos: custom_qos(settings, numbers) }
    } else if choices.gaming {
        Builder::Game
    } else {
        Builder::Media
    }
}

/// How a plan that could not be built is reported.
pub open spec fn build_refusal(custom: bool, error: Seq<char>) -> Seq<char> {
    if custom {
        "device rejected the custom configuration: "@ + error
    } else {
        "stream could not be scheduled: "@ + error
    }
}

/// Turns what was built for a device into the plan, with its name on screen.
///
/// `built` is the layout over the device's endpoints for these choices, and
/// `chosen` what the walk over Android's list settled on.
pub fn plan(
    settings: &Settings,
    supported_contexts: Option<u16>,
    numbers: &CustomNumbers,
    built: Result<StreamPlan, String>,
    chosen: Option<&Chosen>,
) -> (planned: Result<(StreamPlan, String), String>)
    requires
        chosen matches Some(c) ==> c.rank < usize::MAX,
    ensures
        ({
            let choices = chosen_by(settings@);
            if refuses_context(supported_contexts, choices.context()) {
                planned matches Err(text) && text@ == context_refusal(
                    choices.gaming,
                    supported_contexts->0,
                )
            } else {
                match built {
                    Err(error) => planned matches Err(text) && text@ == build_refusal(
                        choices.custom,
                        error@,
                    ),
                    Ok(base) => planned matches Ok(p) && p.0 == with_choices(
                        base,
                        choices,
                        settings@,
                        *numbers,
                    ) && p.1@ == plan_label(choices, choice_view(chosen)),
                }
            }
        }),
{
    let choices = Choices::read(settings);
    let context = requested_context(choices.gaming, supported_contexts)?;
    let base = match built {
        Ok(base) => base,
        Err(error) => {
            let mut text = if choices.custom {
                String::from_str("device rejected the custom configuration: ")
            } else {
                String::from_str("stream could not be scheduled: ")
            };
            text.append(error.as_str());
            return Err(text);
        },
    };
    let mut plan = base;
    if choices.custom {
        plan.context = context;
        plan.target_latency = if choices.gaming {
            LATENCY_LOW
        } else {
            LATENCY_HIGH_RELIABILITY
        };
        if let Some(phy) = settings.get("phy") {
            plan.qos.phy = if same_text(phy, "1M") {
                0x01
            } else {
                0x02
            };
        }
        if let Some(count) = numbers.retransmissions {
            plan.qos.retransmission_number = count;
        }
    }
    Ok((plan, label(&choices, chosen)))
}

/// Adds what was built for the headset's microphone, when it was asked for.
pub fn with_microphone(plan: StreamPlan, built: Result<MicrophonePlan, String>) -> (planned: Result<
    StreamPlan,
    String,
>)
    ensures
        match built {
            Ok(microphone) => planned == Ok::<StreamPlan, String>(
                StreamPlan { microphone: Some(microphone), ..plan },
            ),
            Err(error) => planned matches Err(text) && text@
                == "headset microphone could not be configured: "@ + error@,
        },
{
    match built {
        Ok(microphone) => {
            let mut with = plan;
            with.microphone = Some(microphone);
            Ok(with)
        },
        Err(error) => {
            let mut text = String::from_str("headset microphone could not be configured: ");
            text.append(error.as_str());
            Err(text)
        },
    }
}

/// What a plan became, or why there is none.
pub open spec fn planned_view(planned: Result<StreamPlan, String>) -> Result<
    StreamPlan,
    Seq<char>,
> {
    match planned {
        Ok(plan) => Ok(plan),
        Err(text) => Err(text@),
    }
}

/// What was built for a microphone, or why nothing was.
pub open spec fn microphone_view(built: Result<MicrophonePlan, String>) -> Result<
    MicrophonePlan,
    Seq<char>,
> {
    match built {
        Ok(microphone) => Ok(microphone),
        Err(text) => Err(text@),
    }
}

/// A plan in the shape the user chose.
pub open spec fn shaped_to(
    choices: Choices,
    plan: StreamPlan,
    mono: StreamPlan,
    microphone: Result<MicrophonePlan, Seq<char>>,
) -> Result<StreamPlan, Seq<char>> {
    let base = if choices.mono {
        mono
    } else {
        plan
    };
    match (choices.microphone, microphone) {
        (None, _) => Ok(base),
        (Some(_), Ok(own)) => Ok(StreamPlan { microphone: Some(own), ..base }),
        (Some(_), Err(error)) => Err("headset microphone could not be configured: "@ + error),
    }
}

/// Gives a plan the shape the user chose. `mono` is the same plan over a single
/// channel, and `microphone` what was built for the headset's microphone; each
/// counts only when it was asked for.
///
/// Mono is a choice, not only a fallback: two isochronous channels are where
/// headphones are unreliable, and one that always works can be worth more than
/// stereo that sometimes does.
pub fn shape(
    choices: &Choices,
    plan: StreamPlan,
    mono: StreamPlan,
    microphone: Result<MicrophonePlan, String>,
) -> (shaped: Result<StreamPlan, String>)
    ensures
        planned_view(shaped) == shaped_to(*choices, plan, mono, microphone_view(microphone)),
{
    let base = if choices.mono {
        mono
    } else {
        plan
    };
    match choices.microphone {
        Some(_) => with_microphone(base, microphone),
        None => Ok(base),
    }
}

/// What is wrong with one direction of a stream, beyond the safety limits.
pub open spec fn half_refusal(codec: CodecConfiguration, qos: QosConfiguration) -> Option<
    Seq<char>,
> {
    if qos.phy != 1 && qos.phy != 2 {
        Some("only 1M and 2M are supported"@)
    } else if qos.max_sdu != codec.sdu_octets() {
        Some("SDU size does not match the selected codec"@)
    } else if qos.presentation_delay_us > 0xff_ffff {
        Some("presentation delay is outside the protocol range"@)
    } else {
        None
    }
}

/// Which of two complaints counts: the first there is.
pub open spec fn first_of(a: Option<Seq<char>>, b: Option<Seq<char>>) -> Option<Seq<char>> {
    if a is Some {
        a
    } else {
        b
    }
}

/// A complaint as the text it is.
pub open spec fn said(complaint: Option<&str>) -> Option<Seq<char>> {
    match complaint {
        Some(text) => Some(text@),
        None => None,
    }
}

/// What is wrong with a plan. `sink` and `microphone` are what the safety limits
/// say of each direction, and `writes` what the write policy says of the
/// operations the plan would send.
pub open spec fn plan_refusal(
    plan: StreamPlan,
    sink: Option<Seq<char>>,
    microphone: Option<Seq<char>>,
    writes: Option<Seq<char>>,
) -> Option<Seq<char>> {
    first_of(
        first_of(sink, half_refusal(plan.codec, plan.qos)),
        first_of(
            match plan.microphone {
                Some(mic) => first_of(microphone, half_refusal(mic.codec, mic.qos)),
                None => None,
            },
            writes,
        ),
    )
}

fn check_half(codec: &CodecConfiguration, qos: &QosConfiguration, limits: Option<&str>) -> (checked:
    Result<(), String>)
    requires
        codec.sdu_octets() <= 0xFFFF,
    ensures
        match first_of(said(limits), half_refusal(*codec, *qos)) {
            Some(text) => checked matches Err(message) && message@ == text,
            None => checked is Ok,
        },
{
    if let Some(text) = limits {
        return Err(String::from_str(text));
    }
    if qos.phy != 1 && qos.phy != 2 {
        return Err(String::from_str("only 1M and 2M are supported"));
    }
    if qos.max_sdu != codec.sdu_size() {
        return Err(String::from_str("SDU size does not match the selected codec"));
    }
    if qos.presentation_delay_us > 0xff_ffff {
        return Err(String::from_str("presentation delay is outside the protocol range"));
    }
    Ok(())
}

/// Checks a plan before anything is sent: both directions against the safety
/// limits and the protocol, and the operations against the write policy.
pub fn validate(
    plan: &StreamPlan,
    sink_limits: Option<&str>,
    microphone_limits: Option<&str>,
    write_policy: Option<&str>,
) -> (checked: Result<(), String>)
    requires
        plan.codec.sdu_octets() <= 0xFFFF,
        plan.microphone matches Some(mic) ==> mic.codec.sdu_octets() <= 0xFFFF,
    ensures
        match plan_refusal(
            *plan,
            said(sink_limits),
            said(microphone_limits),
            said(write_policy),
        ) {
            Some(text) => checked matches Err(message) && message@ == text,
            None => checked is Ok,
        },
{
    check_half(&plan.codec, &plan.qos, sink_limits)?;
    if let Some(mic) = &plan.microphone {
        check_half(&mic.codec, &mic.qos, microphone_limits)?;
    }
    if let Some(text) = write_policy {
        return Err(String::from_str(text));
    }
    Ok(())
}

/// A plan that passed has, in both directions, a PHY the radio knows, an SDU of
/// exactly the codec's size, and a presentation delay that fits its field.
pub proof fn a_valid_plan_fits_the_protocol(
    plan: StreamPlan,
    sink: Option<Seq<char>>,
    microphone: Option<Seq<char>>,
    writes: Option<Seq<char>>,
)
    requires
        plan_refusal(plan, sink, microphone, writes) is None,
    ensures
        half_refusal(plan.codec, plan.qos) is None,
        plan.microphone matches Some(mic) ==> half_refusal(mic.codec, mic.qos) is None,
        plan.qos.max_sdu == plan.codec.sdu_octets(),
{
}

// ---- What is known of a device before it is connected ----

/// The QoS bounds a device published for one combination of codec and radio.
#[derive(Debug, Clone, Copy, PartialEq, Eq, Structural)]
pub struct CachedQos {
    pub codec: CodecConfiguration,
    pub phy: u8,
    pub target_latency: u8,
    pub context: u16,
    pub min_delay: u32,
    pub max_delay: u32,
    pub max_transport: Option<u16>,
}

/// How many combinations are remembered for one device.
pub const CACHED_COMBINATIONS: usize = 64;

/// Whether an entry is about the combination a plan asks for.
pub open spec fn is_about(entry: CachedQos, plan: StreamPlan) -> bool {
    entry.codec == plan.codec && entry.phy == plan.qos.phy && entry.target_latency
        == plan.target_latency && entry.context == plan.context
}

/// The entries that are not about a combination, in order.
pub open spec fn about_others(entries: Seq<CachedQos>, plan: StreamPlan) -> Seq<CachedQos>
    decreases entries.len(),
{
    if entries.len() == 0 {
        Seq::empty()
    } else {
        let before = about_others(entries.drop_last(), plan);
        if is_about(entries.last(), plan) {
            before
        } else {
            before.push(entries.last())
        }
    }
}

/// The first entry about a combination.
pub open spec fn entry_about(entries: Seq<CachedQos>, plan: StreamPlan) -> Option<CachedQos>
    decreases entries.len(),
{
    if entries.len() == 0 {
        None
    } else if is_about(entries[0], plan) {
        Some(entries[0])
    } else {
        entry_about(entries.skip(1), plan)
    }
}

fn about(entry: &CachedQos, plan: &StreamPlan) -> (yes: bool)
    ensures
        yes == is_about(*entry, *plan),
{
    entry.codec == plan.codec && entry.phy == plan.qos.phy && entry.target_latency
        == plan.target_latency && entry.context == plan.context
}

/// The entries after `entry` was learned: it replaces what was known of its
/// combination, and the oldest goes when there are too many.
pub open spec fn remembered(entries: Seq<CachedQos>, plan: StreamPlan, entry: CachedQos) -> Seq<
    CachedQos,
> {
    let all = about_others(entries, plan).push(entry);
    if all.len() > CACHED_COMBINATIONS {
        all.skip(1)
    } else {
        all
    }
}

/// Remembers the bounds a device published for the combination of `plan`.
pub fn remember_qos(
    entries: &Vec<CachedQos>,
    plan: &StreamPlan,
    min_delay: u32,
    max_delay: u32,
    max_transport: Option<u16>,
) -> (kept: Vec<CachedQos>)
    ensures
        kept@ == remembered(
            entries@,
            *plan,
            CachedQos {
                codec: plan.codec,
                phy: plan.qos.phy,
                target_latency: plan.target_latency,
                context: plan.context,
                min_delay,
                max_delay,
                max_transport,
            },
        ),
{
    let mut kept: Vec<CachedQos> = Vec::new();
    let mut i: usize = 0;
    assert(entries@.take(0) =~= Seq::<CachedQos>::empty());
    assert(kept@ =~= about_others(entries@.take(0), *plan));
    while i < entries.len()
        invariant
            i <= entries@.len(),
            kept@ == about_others(entries@.take(i as int), *plan),
        decreases entries@.len() - i,
    {
        assert(entries@.take(i + 1).drop_last() =~= entries@.take(i as int));
        if !about(&entries[i], plan) {
            kept.push(entries[i]);
        }
        i = i + 1;
    }
    assert(entries@.take(i as int) =~= entries@);
    kept.push(
        CachedQos {
            codec: plan.codec,
            phy: plan.qos.phy,
            target_latency: plan.target_latency,
            context: plan.context,
            min_delay,
            max_delay,
            max_transport,
        },
    );
    if kept.len() > CACHED_COMBINATIONS {
        let ghost all = kept@;
        kept.remove(0);
        assert(kept@ =~= all.skip(1));
    }
    kept
}

/// What was just learned is what is known: the entry that is found for the
/// combination is the newest, and at most one entry more is kept than before.
pub proof fn the_newest_bounds_are_known(
    entries: Seq<CachedQos>,
    plan: StreamPlan,
    entry: CachedQos,
)
    requires
        is_about(entry, plan),
    ensures
        entry_about(remembered(entries, plan, entry), plan) == Some(entry),
        remembered(entries, plan, entry).len() <= entries.len() + 1,
{
    let others = about_others(entries, plan);
    lemma_others_are_others(entries, plan);
    let all = others.push(entry);
    let kept = remembered(entries, plan, entry);
    assert(kept.last() == entry);
    assert forall|i: int| 0 <= i < kept.len() - 1 implies !is_about(#[trigger] kept[i], plan) by {
        if all.len() > CACHED_COMBINATIONS {
            assert(kept[i] == others[i + 1]);
        } else {
            assert(kept[i] == others[i]);
        }
    }
    lemma_last_is_found(kept, plan);
}

proof fn lemma_others_are_others(entries: Seq<CachedQos>, plan: StreamPlan)
    ensures
        about_others(entries, plan).len() <= entries.len(),
        forall|i: int|
            0 <= i < about_others(entries, plan).len() ==> !is_about(
                #[trigger] about_others(entries, plan)[i],
                plan,
            ),
    decreases entries.len(),
{
    if entries.len() > 0 {
        lemma_others_are_others(entries.drop_last(), plan);
    }
}

proof fn lemma_last_is_found(entries: Seq<CachedQos>, plan: StreamPlan)
    requires
        entries.len() > 0,
        is_about(entries.last(), plan),
        forall|i: int| 0 <= i < entries.len() - 1 ==> !is_about(#[trigger] entries[i], plan),
    ensures
        entry_about(entries, plan) == Some(entries.last()),
    decreases entries.len(),
{
    if entries.len() > 1 {
        let rest = entries.skip(1);
        assert(!is_about(entries[0], plan));
        assert forall|i: int| 0 <= i < rest.len() - 1 implies !is_about(
            #[trigger] rest[i],
            plan,
        ) by {
            assert(rest[i] == entries[i + 1]);
        }
        lemma_last_is_found(rest, plan);
    }
}

/// A number of microseconds in milliseconds, without trailing zeros.
pub open spec fn milliseconds_text(us: u32) -> Seq<char> {
    let rest = us % 1000;
    let whole = decimal((us / 1000) as nat);
    if rest == 0 {
        whole
    } else if rest % 100 == 0 {
        whole + "."@ + decimal((rest / 100) as nat)
    } else if rest % 10 == 0 {
        whole + "."@ + decimal((rest / 100) as nat) + decimal((rest / 10 % 10) as nat)
    } else {
        whole + "."@ + decimal((rest / 100) as nat) + decimal((rest / 10 % 10) as nat) + decimal(
            (rest % 10) as nat,
        )
    }
}

/// Writes a number of microseconds in milliseconds.
pub fn push_milliseconds(text: &mut String, us: u32)
    ensures
        final(text)@ == old(text)@ + milliseconds_text(us),
{
    push_decimal(text, (us / 1000) as u64);
    let rest = us % 1000;
    if rest != 0 {
        text.append(".");
        push_decimal(text, (rest / 100) as u64);
        if rest % 100 != 0 {
            push_decimal(text, (rest / 10 % 10) as u64);
            if rest % 10 != 0 {
                push_decimal(text, (rest % 10) as u64);
            }
        }
    }
    assert(text@ =~= old(text)@ + milliseconds_text(us));
}

/// What is known of a plan against the bounds a device published before.
pub open spec fn known_verdict(plan: StreamPlan, known: Option<CachedQos>) -> (bool, Seq<char>) {
    match known {
        Some(q) => if !(q.min_delay <= plan.qos.presentation_delay_us <= q.max_delay) {
            (
                false,
                "Presentation delay: selected "@ + milliseconds_text(
                    plan.qos.presentation_delay_us,
                ) + " ms; headset permits "@ + milliseconds_text(q.min_delay) + "–"@
                    + milliseconds_text(q.max_delay) + " ms for this codec and PHY"@,
            )
        } else if q.max_transport matches Some(limit) && plan.qos.max_transport_latency_ms > limit {
            (
                false,
                "Transport latency exceeds the headset limit of "@ + decimal(
                    q.max_transport->0 as nat,
                ) + " ms"@,
            )
        } else {
            (
                true,
                "Codec, channel layout, safety limits and known QoS bounds passed. Controller scheduling and headset acceptance still require negotiation."@,
            )
        },
        None => (
            true,
            "Codec, channel layout and safety limits passed. QoS for this combination still requires negotiation."@,
        ),
    }
}

/// The entry that counts for a plan: only a custom stream is held to the bounds.
pub open spec fn known_for(entries: Seq<CachedQos>, plan: StreamPlan, custom: bool) -> Option<
    CachedQos,
> {
    if custom {
        entry_about(entries, plan)
    } else {
        None
    }
}

fn find_about(entries: &Vec<CachedQos>, plan: &StreamPlan) -> (found: Option<CachedQos>)
    ensures
        found == entry_about(entries@, *plan),
{
    let mut i: usize = 0;
    assert(entries@.skip(0) =~= entries@);
    while i < entries.len()
        invariant
            i <= entries@.len(),
            entry_about(entries@, *plan) == entry_about(entries@.skip(i as int), *plan),
        decreases entries@.len() - i,
    {
        assert(entries@.skip(i as int).skip(1) =~= entries@.skip(i + 1));
        if about(&entries[i], plan) {
            return Some(entries[i]);
        }
        i = i + 1;
    }
    None
}

/// What can be said of a plan before the device is connected. `None` for the
/// entries means that the device's capabilities are not known yet, and an error
/// is one of the plan itself.
pub fn preflight_verdict(
    known: Option<&Vec<CachedQos>>,
    planned: Result<StreamPlan, String>,
    custom: bool,
) -> (verdict: Result<String, String>)
    ensures
        match known {
            None => verdict matches Ok(text) && text@
                == "Device capabilities are not known yet; they must be checked after connection."@,
            Some(entries) => match planned {
                Err(error) => verdict matches Err(text) && text@ == error@,
                Ok(plan) => {
                    let (valid, words) = known_verdict(plan, known_for(entries@, plan, custom));
                    if valid {
                        verdict matches Ok(text) && text@ == words
                    } else {
                        verdict matches Err(text) && text@ == words
                    }
                },
            },
        },
{
    let entries = match known {
        Some(entries) => entries,
        None => {
            return Ok(
                String::from_str(
                    "Device capabilities are not known yet; they must be checked after connection.",
                ),
            );
        },
    };
    let plan = match planned {
        Ok(plan) => plan,
        Err(error) => return Err(error),
    };
    if custom {
        if let Some(q) = find_about(entries, &plan) {
            if plan.qos.presentation_delay_us < q.min_delay || plan.qos.presentation_delay_us
                > q.max_delay {
                let mut text = String::from_str("Presentation delay: selected ");
                push_milliseconds(&mut text, plan.qos.presentation_delay_us);
                text.append(" ms; headset permits ");
                push_milliseconds(&mut text, q.min_delay);
                text.append("–");
                push_milliseconds(&mut text, q.max_delay);
                text.append(" ms for this codec and PHY");
                return Err(text);
            }
            if let Some(limit) = q.max_transport {
                if plan.qos.max_transport_latency_ms > limit {
                    let mut text = String::from_str(
                        "Transport latency exceeds the headset limit of ",
                    );
                    push_decimal(&mut text, limit as u64);
                    text.append(" ms");
                    return Err(text);
                }
            }
            return Ok(
                String::from_str(
                    "Codec, channel layout, safety limits and known QoS bounds passed. Controller scheduling and headset acceptance still require negotiation.",
                ),
            );
        }
    }
    Ok(
        String::from_str(
            "Codec, channel layout and safety limits passed. QoS for this combination still requires negotiation.",
        ),
    )
}

// ---- What checking ahead is for ----

/// A stream is refused for its context exactly when the device says what it supports
/// and that is not in it: games are the fourth bit, media the third.
pub proof fn only_an_unsupported_context_is_refused(supported: u16, choices: Choices)
    ensures
        !refuses_context(None, choices.context()),
        choices.gaming ==> refuses_context(Some(supported), choices.context()) == (supported / 8 % 2
            == 0),
        !choices.gaming ==> refuses_context(Some(supported), choices.context()) == (supported / 4
            % 2 == 0),
{
    assert((supported & 8 == 0) == (supported / 8 % 2 == 0) && (supported & 4 == 0) == (supported
        / 4 % 2 == 0)) by (bit_vector);
}

/// What checking ahead refuses is never tried again: a context the device does not
/// do, a stream that cannot be built, a microphone that cannot be configured.
#[verifier::rlimit(60)]
pub proof fn what_is_refused_ahead_is_not_retried(
    gaming: bool,
    supported: u16,
    custom: bool,
    error: Seq<char>,
)
    ensures
        crate::reconnect::is_deterministic(context_refusal(gaming, supported)),
        crate::reconnect::is_deterministic(build_refusal(custom, error)),
        crate::reconnect::is_deterministic(
            "headset microphone could not be configured: "@ + error,
        ),
{
    reveal_strlit("selected ");
    reveal_strlit("gaming");
    reveal_strlit("media");
    reveal_strlit(" mode is not supported by these headphones (supported contexts 0x");
    reveal_strlit("selected gaming mode is not supported");
    reveal_strlit("selected media mode is not supported");
    reveal_strlit("device rejected the custom configuration: ");
    reveal_strlit("device rejected the custom configuration:");
    reveal_strlit("stream could not be scheduled: ");
    reveal_strlit("stream could not be scheduled:");
    reveal_strlit("headset microphone could not be configured: ");
    reveal_strlit("headset microphone could not be configured:");
    let context = context_refusal(gaming, supported);
    if gaming {
        assert(context.take("selected gaming mode is not supported"@.len() as int)
            =~= "selected gaming mode is not supported"@);
    } else {
        assert(context.take("selected media mode is not supported"@.len() as int)
            =~= "selected media mode is not supported"@);
    }
    let build = build_refusal(custom, error);
    if custom {
        assert(build.take("device rejected the custom configuration:"@.len() as int)
            =~= "device rejected the custom configuration:"@);
    } else {
        assert(build.take("stream could not be scheduled:"@.len() as int)
            =~= "stream could not be scheduled:"@);
    }
    let mic = "headset microphone could not be configured: "@ + error;
    assert(mic.take("headset microphone could not be configured:"@.len() as int)
        =~= "headset microphone could not be configured:"@);
}

/// What the user typed is what is asked for: the rate, the frame, the octets, the
/// retransmissions, the latency and the delay. What was not typed is 48 kHz, 100
/// octets, two retransmissions, 20 ms and 40 ms. The stream carries one channel and
/// one frame per SDU, unframed, and its SDU is its frame.
pub proof fn what_was_typed_is_asked_for(
    settings: Map<Seq<char>, Seq<char>>,
    numbers: CustomNumbers,
)
    ensures
        ({
            let codec = typed_codec(numbers);
            let qos = typed_qos(settings, numbers);
            &&& numbers.rate_hz is Some && is_lc3_rate(numbers.rate_hz->0) ==> code_hz(
                codec.sampling_frequency.0,
            ) == numbers.rate_hz
            &&& numbers.rate_hz is None ==> code_hz(codec.sampling_frequency.0) == Some(48_000u32)
            &&& codec.frame_duration.us() == if numbers.short_frame {
                7_500u32
            } else {
                10_000u32
            }
            &&& numbers.octets is Some ==> codec.octets_per_frame == numbers.octets->0
            &&& numbers.octets is None ==> codec.octets_per_frame == 100
            &&& codec.frames_per_sdu == 1 && codec.channel_allocation == 1
            &&& qos.sdu_interval_us == codec.frame_duration.us() && qos.framing == 0 && qos.max_sdu
                == codec.octets_per_frame && qos.max_sdu == codec.sdu_octets()
            &&& qos.phy == if setting(settings, "phy"@) == Some("1M"@) {
                1u8
            } else {
                2u8
            }
            &&& numbers.retransmissions is Some ==> qos.retransmission_number
                == numbers.retransmissions->0
            &&& numbers.retransmissions is None ==> qos.retransmission_number == 2
            &&& numbers.max_latency_ms is Some ==> qos.max_transport_latency_ms
                == numbers.max_latency_ms->0
            &&& numbers.max_latency_ms is None ==> qos.max_transport_latency_ms == 20
            &&& numbers.presentation_delay_us is Some ==> qos.presentation_delay_us
                == numbers.presentation_delay_us->0
            &&& numbers.presentation_delay_us is None ==> qos.presentation_delay_us == 40_000
        }),
{
    let codec = typed_codec(numbers);
    crate::bap::an_sdu_holds_every_frame(codec);
    assert(codec.octets_per_frame * 1 == codec.octets_per_frame);
}

/// The user's choices are read from their own settings, and what is not chosen is
/// media over Android's list, in stereo and without a microphone.
pub proof fn choices_are_read_from_their_settings(settings: Map<Seq<char>, Seq<char>>)
    ensures
        ({
            let choices = chosen_by(settings);
            &&& choices.gaming <==> setting(settings, "audio_context"@) == Some("game"@)
            &&& choices.custom <==> setting(settings, "preset"@) == Some("custom"@)
            &&& choices.mono <==> setting(settings, "audio_mode"@) == Some("mono"@)
            &&& choices.microphone is Some <==> setting(settings, "microphone_mode"@) == Some(
                "on"@,
            )
            &&& choices.microphone == Some(MicrophoneQuality::Voice) ==> setting(
                settings,
                "microphone_quality"@,
            ) == Some("voice"@)
            &&& choices.microphone == Some(MicrophoneQuality::High) ==> setting(
                settings,
                "microphone_quality"@,
            ) == Some("high"@)
            &&& choices.microphone == Some(MicrophoneQuality::Balanced) ==> setting(
                settings,
                "microphone_quality"@,
            ) != Some("voice"@) && setting(settings, "microphone_quality"@) != Some("high"@)
            &&& choices.context() == if choices.gaming {
                0x0008u16
            } else {
                0x0004u16
            }
        }),
{
}

/// A plan of the automatic path is left as it was built, whatever is saved; a custom
/// one gets its context, the latency to aim at, the PHY and the retransmissions that
/// were chosen, and nothing else of it changes.
pub proof fn only_a_custom_plan_takes_the_choices(
    plan: StreamPlan,
    choices: Choices,
    settings: Map<Seq<char>, Seq<char>>,
    numbers: CustomNumbers,
)
    ensures
        ({
            let own = with_choices(plan, choices, settings, numbers);
            &&& !choices.custom ==> own == plan
            &&& choices.custom ==> {
                &&& own.context == if choices.gaming {
                    0x0008u16
                } else {
                    0x0004u16
                }
                &&& own.target_latency == if choices.gaming {
                    1u8
                } else {
                    3u8
                }
                &&& setting(settings, "phy"@) is None ==> own.qos.phy == plan.qos.phy
                &&& setting(settings, "phy"@) is Some ==> own.qos.phy == if setting(
                    settings,
                    "phy"@,
                ) == Some("1M"@) {
                    1u8
                } else {
                    2u8
                }
                &&& numbers.retransmissions is Some ==> own.qos.retransmission_number
                    == numbers.retransmissions->0
                &&& numbers.retransmissions is None ==> own.qos.retransmission_number
                    == plan.qos.retransmission_number
                &&& own.codec == plan.codec && own.microphone == plan.microphone
                    && own.qos.max_sdu == plan.qos.max_sdu && own.qos.presentation_delay_us
                    == plan.qos.presentation_delay_us && own.qos.max_transport_latency_ms
                    == plan.qos.max_transport_latency_ms && own.qos.sdu_interval_us
                    == plan.qos.sdu_interval_us && own.qos.framing == plan.qos.framing
            }
        }),
{
}

/// A half of a stream is sound when its PHY is 1M or 2M, its SDU is what its codec
/// makes and its delay fits three bytes; a plan is when both halves are and nobody
/// else objects, and otherwise the first objection is the one reported.
pub proof fn a_plan_is_sound_when_both_halves_are(
    plan: StreamPlan,
    sink: Option<Seq<char>>,
    microphone: Option<Seq<char>>,
    writes: Option<Seq<char>>,
)
    ensures
        half_refusal(plan.codec, plan.qos) is None <==> (plan.qos.phy == 1 || plan.qos.phy == 2)
            && plan.qos.max_sdu == plan.codec.sdu_octets() && plan.qos.presentation_delay_us
            < 0x100_0000,
        plan_refusal(plan, sink, microphone, writes) is None <==> sink is None && half_refusal(
            plan.codec,
            plan.qos,
        ) is None && writes is None && (plan.microphone is Some ==> microphone is None
            && half_refusal(plan.microphone->0.codec, plan.microphone->0.qos) is None),
        sink is Some ==> plan_refusal(plan, sink, microphone, writes) == sink,
        plan_refusal(plan, None, None, None) is None ==> plan_refusal(plan, None, None, writes)
            == writes,
{
}

/// What is known of a device is about one codec, PHY, latency and context; the newest
/// sixty-four are kept, and knowing more of one forgets nothing of another.
pub proof fn bounds_are_kept_for_each_combination(
    entries: Seq<CachedQos>,
    plan: StreamPlan,
    entry: CachedQos,
    other: CachedQos,
)
    requires
        is_about(entry, plan),
    ensures
        remembered(entries, plan, entry).contains(entry),
        is_about(other, plan) <==> other.codec == plan.codec && other.phy == plan.qos.phy
            && other.target_latency == plan.target_latency && other.context == plan.context,
        entries.len() < 64 ==> (remembered(entries, plan, entry).contains(other) <==> other == entry
            || (entries.contains(other) && !is_about(other, plan))),
        entries.len() <= 64 ==> remembered(entries, plan, entry).len() <= 64,
{
    let kept = about_others(entries, plan);
    let all = kept.push(entry);
    lemma_others_are_others(entries, plan);
    lemma_others_contain(entries, plan, other);
    let after = remembered(entries, plan, entry);
    assert(after.last() == entry);
    assert(after[after.len() - 1] == entry);
    if entries.len() < 64 {
        assert(after == all);
        if kept.contains(other) {
            let i = choose|i: int| 0 <= i < kept.len() && kept[i] == other;
            assert(all[i] == other);
        }
        if all.contains(other) && other != entry {
            let i = choose|i: int| 0 <= i < all.len() && all[i] == other;
            assert(kept[i] == other);
        }
    }
}

proof fn lemma_others_contain(entries: Seq<CachedQos>, plan: StreamPlan, other: CachedQos)
    ensures
        about_others(entries, plan).contains(other) <==> entries.contains(other) && !is_about(
            other,
            plan,
        ),
    decreases entries.len(),
{
    if entries.len() > 0 {
        let rest = entries.drop_last();
        let last = entries.last();
        lemma_others_contain(rest, plan, other);
        let before = about_others(rest, plan);
        if rest.contains(other) {
            let i = choose|i: int| 0 <= i < rest.len() && rest[i] == other;
            assert(entries[i] == other);
        }
        if entries.contains(other) && other != last {
            let i = choose|i: int| 0 <= i < entries.len() && entries[i] == other;
            assert(rest[i] == other);
        }
        assert(entries[entries.len() - 1] == last);
        if before.contains(other) {
            let i = choose|i: int| 0 <= i < before.len() && before[i] == other;
            assert(before.push(last)[i] == other);
        }
        if before.push(last).contains(other) && other != last {
            let i = choose|i: int|
                0 <= i < before.push(last).len() && before.push(last)[i] == other;
            assert(before[i] == other);
        }
        assert(before.push(last)[before.len() as int] == last);
    }
}

/// A plan passes ahead of time unless known bounds speak against it: a delay outside
/// them or a latency above them. Only a custom plan is held to them.
pub proof fn a_plan_passes_within_the_known_bounds(
    plan: StreamPlan,
    entries: Seq<CachedQos>,
    known: CachedQos,
)
    ensures
        known_verdict(plan, None).0,
        known_verdict(plan, Some(known)).0 <==> known.min_delay <= plan.qos.presentation_delay_us
            <= known.max_delay && (known.max_transport is None || plan.qos.max_transport_latency_ms
            <= known.max_transport->0),
        known_for(entries, plan, false) is None,
        known_for(entries, plan, true) is Some ==> is_about(
            known_for(entries, plan, true)->0,
            plan,
        ) && entries.contains(known_for(entries, plan, true)->0),
{
    lemma_entry_about(entries, plan);
}

proof fn lemma_entry_about(entries: Seq<CachedQos>, plan: StreamPlan)
    ensures
        entry_about(entries, plan) matches Some(entry) ==> is_about(entry, plan)
            && entries.contains(entry),
        entry_about(entries, plan) is None ==> forall|i: int|
            0 <= i < entries.len() ==> !is_about(#[trigger] entries[i], plan),
    decreases entries.len(),
{
    if entries.len() > 0 {
        if is_about(entries[0], plan) {
            assert(entries.contains(entries[0]));
        } else {
            let rest = entries.skip(1);
            lemma_entry_about(rest, plan);
            if entry_about(rest, plan) is Some {
                let i = choose|i: int| 0 <= i < rest.len() && rest[i] == entry_about(rest, plan)->0;
                assert(entries[i + 1] == rest[i]);
            }
            assert forall|i: int|
                0 <= i < entries.len() && entry_about(entries, plan) is None implies !is_about(
                #[trigger] entries[i],
                plan,
            ) by {
                if i > 0 {
                    assert(entries[i] == rest[i - 1]);
                }
            }
        }
    }
}

/// A stream is built from what was typed exactly when the user chose that, and
/// otherwise from the list of its own scenario.
pub proof fn a_stream_is_built_from_what_was_chosen(
    settings: Map<Seq<char>, Seq<char>>,
    numbers: CustomNumbers,
)
    ensures
        builder_of(settings, numbers) is Custom <==> setting(settings, "preset"@) == Some(
            "custom"@,
        ),
        builder_of(settings, numbers) is Game <==> setting(settings, "preset"@) != Some("custom"@)
            && setting(settings, "audio_context"@) == Some("game"@),
        builder_of(settings, numbers) is Media <==> setting(settings, "preset"@) != Some("custom"@)
            && setting(settings, "audio_context"@) != Some("game"@),
        builder_of(settings, numbers) matches Builder::Custom { codec, qos } ==> codec
            == typed_codec(numbers) && qos == typed_qos(settings, numbers),
{
}

/// A microphone is part of the stream exactly when it was asked for, and a stream
/// that cannot have the one asked for is not built without it. Mono and stereo are
/// each used where they were chosen.
pub proof fn a_plan_has_the_shape_asked_for(
    choices: Choices,
    plan: StreamPlan,
    mono: StreamPlan,
    microphone: MicrophonePlan,
    error: Seq<char>,
)
    ensures
        ({
            let base = if choices.mono {
                mono
            } else {
                plan
            };
            &&& choices.microphone is None ==> shaped_to(choices, plan, mono, Ok(microphone)) == Ok::<
                StreamPlan,
                Seq<char>,
            >(base) && shaped_to(choices, plan, mono, Err(error)) == Ok::<StreamPlan, Seq<char>>(
                base,
            )
            &&& choices.microphone is Some ==> shaped_to(choices, plan, mono, Err(error)) is Err && (
            shaped_to(choices, plan, mono, Ok(microphone)) matches Ok(own) && own.microphone == Some(
                microphone,
            ) && own.codec == base.codec && own.qos == base.qos && own.context == base.context
                && own.target_latency == base.target_latency)
        }),
{
}

} // verus!
