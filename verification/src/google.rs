//! Portable LC3 playback subset of AOSP android-16.0.0_r4.
//! Source: system/bta/le_audio/audio_set_scenarios.json in packages/modules/Bluetooth.
//! OEM overrides and duplex/telephony configurations are not implied by these lists.
//!
//! Everything else in this stack decides the stream configuration first and
//! then checks the headphones will accept it. Android works the other way
//! round: it holds an ordered list of complete configurations and walks it,
//! taking the first one the device's published capabilities allow. The list
//! lives in `audio_set_configurations.json` and `audio_set_scenarios.json`
//! inside `packages/modules/Bluetooth`, and the lists below keep that order.
//!
//! This matters beyond tidiness. The preset this program shipped with was read
//! out of a WPP trace of the *Windows* LE Audio driver, which asks for 48 kHz
//! at 7.5 ms with 90 octets - the setting BAP calls 48_3. Android asks for
//! 48_4 first: 48 kHz at 10 ms with 120 octets. Both carry 96 kbps, so the
//! difference is not bandwidth. A 10 ms frame gives the codec 480 samples to
//! work with instead of 360, which is finer frequency resolution for the same
//! bits - and 48_3 is only Android's fifth choice, not its first.
//!
//! That is the concrete reason the same headphones sound different from a
//! phone. Not the codec, which measures clean across the whole band: the
//! configuration asked for.

use crate::bap::ascs::{LATENCY_BALANCED, LATENCY_HIGH_RELIABILITY, LATENCY_LOW};
use crate::bap::ase::PreferredQos;
use crate::bap::{
    rejection_of, CodecConfiguration, FrameDuration, Pac, pac_views, PacRecord, QosConfiguration,
    SamplingFrequency, LOCATION_FRONT_LEFT, LOCATION_STEREO,
};
use vstd::prelude::*;

verus! {

/// One of the codec settings BAP defines in its Table 3.5.
///
/// Named the way BAP and Android name them, so a configuration seen in a log
/// can be found here by its name.
#[derive(Debug, Clone, Copy, PartialEq, Eq)]
pub struct BapSetting {
    pub name: &'static str,
    pub sampling_frequency: SamplingFrequency,
    pub frame_duration: FrameDuration,
    pub octets_per_frame: u16,
}

/// A setting by its name, frequency code, frame duration and octets.
pub open spec fn named(
    name: &'static str,
    code: u8,
    frame_duration: FrameDuration,
    octets_per_frame: u16,
) -> BapSetting {
    BapSetting {
        name,
        sampling_frequency: SamplingFrequency(code),
        frame_duration,
        octets_per_frame,
    }
}

impl BapSetting {
    #[allow(non_snake_case)]
    pub fn LC3_16_1() -> (setting: BapSetting)
        ensures
            setting == named("16_1", 0x03, FrameDuration::Ms7_5, 30),
    {
        BapSetting {
            name: "16_1",
            sampling_frequency: SamplingFrequency(0x03),
            frame_duration: FrameDuration::Ms7_5,
            octets_per_frame: 30,
        }
    }

    #[allow(non_snake_case)]
    pub fn LC3_16_2() -> (setting: BapSetting)
        ensures
            setting == named("16_2", 0x03, FrameDuration::Ms10, 40),
    {
        BapSetting {
            name: "16_2",
            sampling_frequency: SamplingFrequency(0x03),
            frame_duration: FrameDuration::Ms10,
            octets_per_frame: 40,
        }
    }

    #[allow(non_snake_case)]
    pub fn LC3_24_2() -> (setting: BapSetting)
        ensures
            setting == named("24_2", 0x05, FrameDuration::Ms10, 60),
    {
        BapSetting {
            name: "24_2",
            sampling_frequency: SamplingFrequency(0x05),
            frame_duration: FrameDuration::Ms10,
            octets_per_frame: 60,
        }
    }

    #[allow(non_snake_case)]
    pub fn LC3_32_2() -> (setting: BapSetting)
        ensures
            setting == named("32_2", 0x06, FrameDuration::Ms10, 80),
    {
        BapSetting {
            name: "32_2",
            sampling_frequency: SamplingFrequency(0x06),
            frame_duration: FrameDuration::Ms10,
            octets_per_frame: 80,
        }
    }

    #[allow(non_snake_case)]
    pub fn LC3_48_1() -> (setting: BapSetting)
        ensures
            setting == named("48_1", 0x08, FrameDuration::Ms7_5, 75),
    {
        BapSetting {
            name: "48_1",
            sampling_frequency: SamplingFrequency(0x08),
            frame_duration: FrameDuration::Ms7_5,
            octets_per_frame: 75,
        }
    }

    #[allow(non_snake_case)]
    pub fn LC3_48_2() -> (setting: BapSetting)
        ensures
            setting == named("48_2", 0x08, FrameDuration::Ms10, 100),
    {
        BapSetting {
            name: "48_2",
            sampling_frequency: SamplingFrequency(0x08),
            frame_duration: FrameDuration::Ms10,
            octets_per_frame: 100,
        }
    }

    #[allow(non_snake_case)]
    pub fn LC3_48_3() -> (setting: BapSetting)
        ensures
            setting == named("48_3", 0x08, FrameDuration::Ms7_5, 90),
    {
        BapSetting {
            name: "48_3",
            sampling_frequency: SamplingFrequency(0x08),
            frame_duration: FrameDuration::Ms7_5,
            octets_per_frame: 90,
        }
    }

    #[allow(non_snake_case)]
    pub fn LC3_48_4() -> (setting: BapSetting)
        ensures
            setting == named("48_4", 0x08, FrameDuration::Ms10, 120),
    {
        BapSetting {
            name: "48_4",
            sampling_frequency: SamplingFrequency(0x08),
            frame_duration: FrameDuration::Ms10,
            octets_per_frame: 120,
        }
    }

    #[allow(non_snake_case)]
    pub fn LC3_48_5() -> (setting: BapSetting)
        ensures
            setting == named("48_5", 0x08, FrameDuration::Ms7_5, 117),
    {
        BapSetting {
            name: "48_5",
            sampling_frequency: SamplingFrequency(0x08),
            frame_duration: FrameDuration::Ms7_5,
            octets_per_frame: 117,
        }
    }

    #[allow(non_snake_case)]
    pub fn LC3_48_6() -> (setting: BapSetting)
        ensures
            setting == named("48_6", 0x08, FrameDuration::Ms10, 155),
    {
        BapSetting {
            name: "48_6",
            sampling_frequency: SamplingFrequency(0x08),
            frame_duration: FrameDuration::Ms10,
            octets_per_frame: 155,
        }
    }

    /// Bits per second for one channel at this setting. More than 536 octets per
    /// frame would not fit the computation; LC3 stops at 400.
    pub fn bitrate(&self) -> (bitrate: u32)
        requires
            self.octets_per_frame <= 536,
        ensures
            bitrate == self.octets_per_frame * 8_000_000 / self.frame_duration.us() as int,
    {
        self.octets_per_frame as u32 * 8_000_000 / self.frame_duration.microseconds()
    }
}

/// How Android asks for the transport half of the configuration.
///
/// The three named profiles carry a target latency and nothing else: Android
/// writes zero for the retransmission count and the transport latency, and
/// fills them in afterwards from what the device published in its Codec
/// Configured state. So does this - see [`QosProfile::resolve`].
#[derive(Debug, Clone, Copy, PartialEq, Eq, Structural)]
pub enum QosProfile {
    LowLatency,
    BalancedReliability,
    HighReliability,
    /// A profile that names its own numbers, as Android's `QoS_Config_*_2`
    /// entries do.
    Explicit { retransmission_number: u8, max_transport_latency_ms: u16 },
}

/// A profile that names its own numbers.
pub open spec fn explicit(retransmission_number: u8, max_transport_latency_ms: u16) -> QosProfile {
    QosProfile::Explicit { retransmission_number, max_transport_latency_ms }
}

/// Retransmissions asked for when neither profile nor device names a number.
pub const FALLBACK_RETRANSMISSIONS: u8 = 13;

/// Transport latency asked for when neither profile nor device names one.
pub const FALLBACK_LATENCY_MS: u16 = 95;

/// Presentation delay asked for when the device has no preference.
pub const FALLBACK_PRESENTATION_DELAY_US: u32 = 40_000;

/// What a device published, where it published anything.
pub open spec fn published(preferred: Option<&PreferredQos>) -> Option<PreferredQos> {
    match preferred {
        Some(own) => Some(*own),
        None => None,
    }
}

impl QosProfile {
    /// The retransmission count and transport latency a profile resolves to: its
    /// own where it names them, else the device's, else the fallbacks.
    pub open spec fn numbers(self, preferred: Option<PreferredQos>) -> (u8, u16) {
        match self {
            QosProfile::Explicit { retransmission_number, max_transport_latency_ms } => (
                retransmission_number,
                max_transport_latency_ms,
            ),
            _ => match preferred {
                Some(qos) => if qos.retransmission_preference > 0 {
                    (
                        qos.retransmission_preference,
                        if qos.max_transport_latency_ms > 0 {
                            qos.max_transport_latency_ms
                        } else {
                            FALLBACK_LATENCY_MS
                        },
                    )
                } else {
                    (FALLBACK_RETRANSMISSIONS, FALLBACK_LATENCY_MS)
                },
                None => (FALLBACK_RETRANSMISSIONS, FALLBACK_LATENCY_MS),
            },
        }
    }

    /// The presentation delay a device gets: the one it prefers, else the
    /// fallback brought into its range.
    pub open spec fn delay(preferred: Option<PreferredQos>) -> u32 {
        match preferred {
            None => FALLBACK_PRESENTATION_DELAY_US,
            Some(qos) => if qos.preferred_delay_min_us > 0 {
                qos.preferred_delay_min_us
            } else if FALLBACK_PRESENTATION_DELAY_US < qos.presentation_delay_min_us {
                qos.presentation_delay_min_us
            } else if FALLBACK_PRESENTATION_DELAY_US > qos.presentation_delay_max_us {
                qos.presentation_delay_max_us
            } else {
                FALLBACK_PRESENTATION_DELAY_US
            },
        }
    }

    /// The latency that is aimed at.
    pub open spec fn aims_at(self) -> u8 {
        match self {
            QosProfile::LowLatency => LATENCY_LOW,
            QosProfile::BalancedReliability => LATENCY_BALANCED,
            QosProfile::HighReliability => LATENCY_HIGH_RELIABILITY,
            QosProfile::Explicit { .. } => LATENCY_BALANCED,
        }
    }

    /// The transport of a codec under this profile.
    pub open spec fn resolved(
        self,
        codec: CodecConfiguration,
        preferred: Option<PreferredQos>,
    ) -> QosConfiguration {
        QosConfiguration {
            sdu_interval_us: codec.frame_duration.us(),
            framing: 0x00,
            phy: 0x02,
            max_sdu: codec.sdu_octets() as u16,
            retransmission_number: self.numbers(preferred).0,
            max_transport_latency_ms: self.numbers(preferred).1,
            presentation_delay_us: QosProfile::delay(preferred),
        }
    }

    /// The Target_Latency byte sent with Config Codec.
    pub fn target_latency(&self) -> (target: u8)
        ensures
            target == self.aims_at(),
    {
        match self {
            QosProfile::LowLatency => LATENCY_LOW,
            QosProfile::BalancedReliability => LATENCY_BALANCED,
            QosProfile::HighReliability => LATENCY_HIGH_RELIABILITY,
            // An explicit profile is still a reliability-flavoured one; Android
            // pairs these with the balanced target latency.
            QosProfile::Explicit { .. } => LATENCY_BALANCED,
        }
    }

    /// Turns the profile into the numbers Config QoS carries.
    ///
    /// `preferred` is what the device published when it answered Config Codec.
    /// Taking its values rather than imposing ours is the whole point of the
    /// named profiles: the device knows what its own radio can hold, and a host
    /// that overrides that is guessing against the firmware. When the device
    /// said nothing, fall back to numbers that are known to work rather than to
    /// zero, which no controller will schedule.
    pub fn resolve(
        &self,
        codec: &CodecConfiguration,
        preferred: Option<&PreferredQos>,
    ) -> (qos: QosConfiguration)
        requires
            codec.sdu_octets() <= 0xFFFF,
            preferred matches Some(p) ==> p.preferred_delay_min_us == 0
                ==> p.presentation_delay_min_us <= p.presentation_delay_max_us,
        ensures
            qos == self.resolved(*codec, published(preferred)),
    {
        let (retransmission_number, max_transport_latency_ms) = match self {
            QosProfile::Explicit { retransmission_number, max_transport_latency_ms } => (
                *retransmission_number,
                *max_transport_latency_ms,
            ),
            _ => match preferred {
                Some(qos) => if qos.retransmission_preference > 0 {
                    (
                        qos.retransmission_preference,
                        if qos.max_transport_latency_ms > 0 {
                            qos.max_transport_latency_ms
                        } else {
                            FALLBACK_LATENCY_MS
                        },
                    )
                } else {
                    (FALLBACK_RETRANSMISSIONS, FALLBACK_LATENCY_MS)
                },
                None => (FALLBACK_RETRANSMISSIONS, FALLBACK_LATENCY_MS),
            },
        };
        let presentation_delay_us = match preferred {
            Some(qos) => qos.choose_presentation_delay(FALLBACK_PRESENTATION_DELAY_US),
            None => FALLBACK_PRESENTATION_DELAY_US,
        };
        QosConfiguration {
            sdu_interval_us: codec.frame_duration.microseconds(),
            framing: 0x00,  // unframed
            phy: 0x02,  // 2M
            max_sdu: codec.sdu_size(),
            retransmission_number,
            max_transport_latency_ms,
            presentation_delay_us,
        }
    }
}

/// Whatever a device publishes or leaves out, a named profile never puts zero
/// retransmissions or a zero latency budget on the wire, which no controller
/// would schedule.
pub proof fn named_profiles_are_schedulable(profile: QosProfile, preferred: Option<PreferredQos>)
    requires
        !(profile is Explicit),
    ensures
        profile.numbers(preferred).0 > 0,
        profile.numbers(preferred).1 > 0,
{
}

/// An explicit profile is explicit: the device's answer does not change it.
pub proof fn explicit_profiles_override(
    retransmission_number: u8,
    max_transport_latency_ms: u16,
    preferred: Option<PreferredQos>,
)
    ensures
        explicit(retransmission_number, max_transport_latency_ms).numbers(preferred) == (
            retransmission_number,
            max_transport_latency_ms,
        ),
{
}

/// One entry of a scenario's priority list.
#[derive(Debug, Clone, Copy, PartialEq, Eq)]
pub struct Candidate {
    pub setting: BapSetting,
    pub qos: QosProfile,
}

fn candidate(setting: BapSetting, qos: QosProfile) -> (entry: Candidate)
    ensures
        entry == (Candidate { setting, qos }),
{
    Candidate { setting, qos }
}

/// The entries of the Media scenario.
pub open spec fn media_candidates() -> Seq<Candidate> {
    seq![
        Candidate {
            setting: named("48_4", 0x08, FrameDuration::Ms10, 120),
            qos: QosProfile::HighReliability,
        },
        Candidate { setting: named("48_4", 0x08, FrameDuration::Ms10, 120), qos: explicit(13, 100) },
        Candidate {
            setting: named("48_2", 0x08, FrameDuration::Ms10, 100),
            qos: QosProfile::HighReliability,
        },
        Candidate { setting: named("48_2", 0x08, FrameDuration::Ms10, 100), qos: explicit(13, 95) },
        Candidate {
            setting: named("48_3", 0x08, FrameDuration::Ms7_5, 90),
            qos: QosProfile::HighReliability,
        },
        Candidate { setting: named("48_3", 0x08, FrameDuration::Ms7_5, 90), qos: explicit(13, 75) },
        Candidate {
            setting: named("48_1", 0x08, FrameDuration::Ms7_5, 75),
            qos: QosProfile::HighReliability,
        },
        Candidate { setting: named("48_1", 0x08, FrameDuration::Ms7_5, 75), qos: explicit(13, 75) },
        Candidate {
            setting: named("24_2", 0x05, FrameDuration::Ms10, 60),
            qos: QosProfile::BalancedReliability,
        },
        Candidate { setting: named("24_2", 0x05, FrameDuration::Ms10, 60), qos: explicit(13, 95) },
        Candidate {
            setting: named("16_2", 0x03, FrameDuration::Ms10, 40),
            qos: QosProfile::BalancedReliability,
        },
        Candidate { setting: named("16_2", 0x03, FrameDuration::Ms10, 40), qos: explicit(13, 95) },
        Candidate {
            setting: named("16_1", 0x03, FrameDuration::Ms7_5, 30),
            qos: QosProfile::BalancedReliability,
        },
        Candidate { setting: named("16_1", 0x03, FrameDuration::Ms7_5, 30), qos: explicit(13, 75) },
    ]
}

/// The entries of the Game scenario.
pub open spec fn game_candidates() -> Seq<Candidate> {
    seq![
        Candidate {
            setting: named("48_2", 0x08, FrameDuration::Ms10, 100),
            qos: QosProfile::LowLatency,
        },
        Candidate {
            setting: named("48_3", 0x08, FrameDuration::Ms7_5, 90),
            qos: QosProfile::LowLatency,
        },
        Candidate {
            setting: named("48_1", 0x08, FrameDuration::Ms7_5, 75),
            qos: QosProfile::LowLatency,
        },
        Candidate {
            setting: named("32_2", 0x06, FrameDuration::Ms10, 80),
            qos: QosProfile::LowLatency,
        },
        Candidate {
            setting: named("32_1", 0x06, FrameDuration::Ms7_5, 60),
            qos: QosProfile::LowLatency,
        },
        Candidate {
            setting: named("24_2", 0x05, FrameDuration::Ms10, 60),
            qos: QosProfile::LowLatency,
        },
        Candidate {
            setting: named("24_1", 0x05, FrameDuration::Ms7_5, 45),
            qos: QosProfile::LowLatency,
        },
        Candidate {
            setting: named("16_2", 0x03, FrameDuration::Ms10, 40),
            qos: QosProfile::LowLatency,
        },
        Candidate {
            setting: named("16_1", 0x03, FrameDuration::Ms7_5, 30),
            qos: QosProfile::LowLatency,
        },
    ]
}

/// The Media scenario, in Android's order.
///
/// The two-ASE sink entries of `audio_set_scenarios.json` - one channel per endpoint, which is the stereo layout this stack
/// uses. The pattern repeats per setting: the reliability-profile entry first,
/// and after it the variant with explicit numbers.
#[allow(non_snake_case)]
pub fn MEDIA_ORDER() -> (order: Vec<Candidate>)
    ensures
        order@ == media_candidates(),
{
    let mut order: Vec<Candidate> = Vec::new();
    order.push(candidate(BapSetting::LC3_48_4(), QosProfile::HighReliability));
    order.push(
        candidate(
            BapSetting::LC3_48_4(),
            QosProfile::Explicit { retransmission_number: 13, max_transport_latency_ms: 100 },
        ),
    );
    order.push(candidate(BapSetting::LC3_48_2(), QosProfile::HighReliability));
    order.push(
        candidate(
            BapSetting::LC3_48_2(),
            QosProfile::Explicit { retransmission_number: 13, max_transport_latency_ms: 95 },
        ),
    );
    order.push(candidate(BapSetting::LC3_48_3(), QosProfile::HighReliability));
    order.push(
        candidate(
            BapSetting::LC3_48_3(),
            QosProfile::Explicit { retransmission_number: 13, max_transport_latency_ms: 75 },
        ),
    );
    order.push(candidate(BapSetting::LC3_48_1(), QosProfile::HighReliability));
    order.push(
        candidate(
            BapSetting::LC3_48_1(),
            QosProfile::Explicit { retransmission_number: 13, max_transport_latency_ms: 75 },
        ),
    );
    order.push(candidate(BapSetting::LC3_24_2(), QosProfile::BalancedReliability));
    order.push(
        candidate(
            BapSetting::LC3_24_2(),
            QosProfile::Explicit { retransmission_number: 13, max_transport_latency_ms: 95 },
        ),
    );
    order.push(candidate(BapSetting::LC3_16_2(), QosProfile::BalancedReliability));
    order.push(
        candidate(
            BapSetting::LC3_16_2(),
            QosProfile::Explicit { retransmission_number: 13, max_transport_latency_ms: 95 },
        ),
    );
    order.push(candidate(BapSetting::LC3_16_1(), QosProfile::BalancedReliability));
    order.push(
        candidate(
            BapSetting::LC3_16_1(),
            QosProfile::Explicit { retransmission_number: 13, max_transport_latency_ms: 75 },
        ),
    );
    assert(order@ =~= media_candidates());
    order
}

/// The Game scenario. Shorter frames, because latency is the thing being
/// bought and quality is what pays for it.
#[allow(non_snake_case)]
pub fn GAME_ORDER() -> (order: Vec<Candidate>)
    ensures
        order@ == game_candidates(),
{
    let mut order: Vec<Candidate> = Vec::new();
    order.push(candidate(BapSetting::LC3_48_2(), QosProfile::LowLatency));
    order.push(candidate(BapSetting::LC3_48_3(), QosProfile::LowLatency));
    order.push(candidate(BapSetting::LC3_48_1(), QosProfile::LowLatency));
    order.push(candidate(BapSetting::LC3_32_2(), QosProfile::LowLatency));
    order.push(
        candidate(
            BapSetting {
                name: "32_1",
                sampling_frequency: SamplingFrequency(0x06),
                frame_duration: FrameDuration::Ms7_5,
                octets_per_frame: 60,
            },
            QosProfile::LowLatency,
        ),
    );
    order.push(candidate(BapSetting::LC3_24_2(), QosProfile::LowLatency));
    order.push(
        candidate(
            BapSetting {
                name: "24_1",
                sampling_frequency: SamplingFrequency(0x05),
                frame_duration: FrameDuration::Ms7_5,
                octets_per_frame: 45,
            },
            QosProfile::LowLatency,
        ),
    );
    order.push(candidate(BapSetting::LC3_16_2(), QosProfile::LowLatency));
    order.push(candidate(BapSetting::LC3_16_1(), QosProfile::LowLatency));
    assert(order@ =~= game_candidates());
    order
}

/// What the walk over a priority list settled on.
#[derive(Debug, Clone, Copy, PartialEq, Eq)]
pub struct Chosen {
    pub setting: BapSetting,
    pub qos: QosProfile,
    pub codec: CodecConfiguration,
    /// How far down the list this was found. Zero is Android's first choice;
    /// anything else is worth saying out loud, because it means the headphones
    /// turned down what a phone would have asked for.
    pub rank: usize,
}

/// The codec configuration a setting asks for: one frame per SDU, both channels
/// in one stream or the left one alone.
pub open spec fn codec_for(setting: BapSetting, stereo_in_one_stream: bool) -> CodecConfiguration {
    CodecConfiguration {
        sampling_frequency: setting.sampling_frequency,
        frame_duration: setting.frame_duration,
        channel_allocation: if stereo_in_one_stream {
            LOCATION_STEREO
        } else {
            LOCATION_FRONT_LEFT
        },
        octets_per_frame: setting.octets_per_frame,
        frames_per_sdu: 1,
    }
}

/// Whether any of the LC3 records allows a configuration.
pub open spec fn allowed(records: Seq<Pac>, codec: CodecConfiguration) -> bool {
    exists|i: int|
        0 <= i < records.len() && (#[trigger] records[i]).coding_format == 0x06 && rejection_of(
            records[i].capabilities,
            codec,
        ) is None
}

/// Whether any of the LC3 records allows a configuration.
pub fn any_allows(records: &[PacRecord], codec: &CodecConfiguration) -> (yes: bool)
    ensures
        yes == allowed(pac_views(records@), *codec),
{
    let mut i: usize = 0;
    while i < records.len()
        invariant
            i <= records@.len(),
            forall|j: int|
                0 <= j < i ==> !((#[trigger] pac_views(records@)[j]).coding_format == 0x06
                    && rejection_of(pac_views(records@)[j].capabilities, *codec) is None),
        decreases records@.len() - i,
    {
        let record = &records[i];
        assert(pac_views(records@)[i as int] == record@);
        if record.is_lc3() && record.capabilities.accepts(codec).is_ok() {
            return true;
        }
        i = i + 1;
    }
    false
}

/// Whether a walk over a list settles on `chosen`: the first entry that the
/// records allow, or nothing where they allow none.
pub open spec fn settles_on(
    order: Seq<Candidate>,
    records: Seq<Pac>,
    stereo_in_one_stream: bool,
    chosen: Option<Chosen>,
) -> bool {
    match chosen {
        Some(c) => {
            &&& c.rank < order.len()
            &&& c.setting == order[c.rank as int].setting
            &&& c.qos == order[c.rank as int].qos
            &&& c.codec == codec_for(c.setting, stereo_in_one_stream)
            &&& allowed(records, c.codec)
            &&& forall|j: int|
                0 <= j < c.rank ==> !allowed(
                    records,
                    codec_for((#[trigger] order[j]).setting, stereo_in_one_stream),
                )
        },
        None => forall|j: int|
            0 <= j < order.len() ==> !allowed(
                records,
                codec_for((#[trigger] order[j]).setting, stereo_in_one_stream),
            ),
    }
}

/// Walks a priority list and returns the first configuration the device allows.
///
/// This is Android's algorithm, and it is the opposite of deciding first and
/// validating afterwards. A device that cannot do 48 kHz is not an error here;
/// it simply falls through to the 24 and 16 kHz entries, which is why this
/// works on headphones nobody has tested against.
pub fn choose_setting(
    order: &[Candidate],
    sink_records: &[PacRecord],
    stereo_in_one_stream: bool,
) -> (chosen: Option<Chosen>)
    ensures
        settles_on(order@, pac_views(sink_records@), stereo_in_one_stream, chosen),
{
    let mut rank: usize = 0;
    while rank < order.len()
        invariant
            rank <= order@.len(),
            forall|j: int|
                0 <= j < rank ==> !allowed(
                    pac_views(sink_records@),
                    codec_for((#[trigger] order@[j]).setting, stereo_in_one_stream),
                ),
        decreases order@.len() - rank,
    {
        let entry = order[rank];
        let codec = CodecConfiguration {
            sampling_frequency: entry.setting.sampling_frequency,
            frame_duration: entry.setting.frame_duration,
            channel_allocation: if stereo_in_one_stream {
                LOCATION_STEREO
            } else {
                LOCATION_FRONT_LEFT
            },
            octets_per_frame: entry.setting.octets_per_frame,
            frames_per_sdu: 1,
        };
        if any_allows(sink_records, &codec) {
            return Some(Chosen { setting: entry.setting, qos: entry.qos, codec, rank });
        }
        rank = rank + 1;
    }
    None
}

// ---- What the lists are for ----

/// Whether a setting is worth at least as much as another: a higher rate comes
/// first, then the longer frame, which gives the codec finer resolution for the
/// same bits, then more octets.
pub open spec fn is_at_least(a: BapSetting, b: BapSetting) -> bool {
    let (hz_a, hz_b) = (a.sampling_frequency.0, b.sampling_frequency.0);
    let (us_a, us_b) = (a.frame_duration.us(), b.frame_duration.us());
    ||| hz_a > hz_b
    ||| hz_a == hz_b && us_a > us_b
    ||| hz_a == hz_b && us_a == us_b && a.octets_per_frame >= b.octets_per_frame
}

/// Both lists run from the best setting to the most modest one: no entry is
/// worth more than one above it. The media list starts at 48 kHz, 10 ms and 120
/// octets and the gaming list at 48 kHz, 10 ms and 100 octets, and both end at
/// 16 kHz.
#[verifier::rlimit(60)]
pub proof fn quality_comes_first(i: int, j: int)
    requires
        0 <= i <= j,
    ensures
        j < media_candidates().len() ==> is_at_least(
            media_candidates()[i].setting,
            media_candidates()[j].setting,
        ),
        j < game_candidates().len() ==> is_at_least(
            game_candidates()[i].setting,
            game_candidates()[j].setting,
        ),
        media_candidates().len() == 14,
        game_candidates().len() == 9,
        ({
            let (first, last) = (media_candidates()[0].setting, media_candidates().last().setting);
            &&& crate::bap::code_hz(first.sampling_frequency.0) == Some(48_000u32)
            &&& first.frame_duration.us() == 10_000 && first.octets_per_frame == 120
            &&& crate::bap::code_hz(last.sampling_frequency.0) == Some(16_000u32)
        }),
        ({
            let (first, last) = (game_candidates()[0].setting, game_candidates().last().setting);
            &&& crate::bap::code_hz(first.sampling_frequency.0) == Some(48_000u32)
            &&& first.frame_duration.us() == 10_000 && first.octets_per_frame == 100
            &&& crate::bap::code_hz(last.sampling_frequency.0) == Some(16_000u32)
        }),
{
}

/// Whether one channel of a setting carries this many bits a second: a hundred
/// frames a second of ten milliseconds, or four hundred every three seconds.
pub open spec fn carries(setting: BapSetting, bits: int) -> bool {
    if setting.frame_duration.us() == 10_000 {
        setting.octets_per_frame * 8 * 100 == bits
    } else {
        setting.octets_per_frame * 8 * 400 == bits * 3
    }
}

/// Whether a setting is one that BAP defines for playback: two bits a sample at
/// 16, 24 and 32 kHz, and 80 or 96 kbit/s at 48 kHz.
pub open spec fn is_balanced(setting: BapSetting) -> bool {
    let hz = crate::bap::code_hz(setting.sampling_frequency.0);
    ||| hz == Some(48_000u32) && (carries(setting, 80_000) || carries(setting, 96_000))
    ||| (hz == Some(16_000u32) || hz == Some(24_000u32) || hz == Some(32_000u32)) && carries(
        setting,
        2 * hz->0,
    )
}

/// Every entry of either list spends the bits its rate is worth.
#[verifier::rlimit(60)]
pub proof fn every_entry_is_balanced(i: int)
    ensures
        0 <= i < media_candidates().len() ==> is_balanced(media_candidates()[i].setting),
        0 <= i < game_candidates().len() ==> is_balanced(game_candidates()[i].setting),
{
}

/// Gaming buys latency throughout, and each of its settings stands in the list
/// once.
pub proof fn gaming_is_low_latency_throughout(i: int, j: int)
    requires
        0 <= i < game_candidates().len(),
        0 <= j < game_candidates().len(),
    ensures
        game_candidates()[i].qos == QosProfile::LowLatency,
        i != j ==> game_candidates()[i].setting != game_candidates()[j].setting,
{
}

/// The media list names every setting twice: first with a profile that leaves
/// the numbers to the device, reliable at 48 kHz and balanced below, and right
/// after it with thirteen retransmissions and a transport latency of its own,
/// which for a 7.5 ms frame is 75 ms.
#[verifier::rlimit(60)]
pub proof fn media_tries_the_profile_before_the_numbers(i: int)
    requires
        0 <= 2 * i < media_candidates().len(),
    ensures
        2 * i + 1 < media_candidates().len(),
        ({
            let (profiled, numbered) = (media_candidates()[2 * i], media_candidates()[2 * i + 1]);
            &&& profiled.setting == numbered.setting
            &&& profiled.qos == if crate::bap::code_hz(profiled.setting.sampling_frequency.0)
                == Some(48_000u32) {
                QosProfile::HighReliability
            } else {
                QosProfile::BalancedReliability
            }
            &&& numbered.qos matches QosProfile::Explicit {
                retransmission_number,
                max_transport_latency_ms,
            } && retransmission_number == 13 && if profiled.setting.frame_duration.us() == 7_500 {
                max_transport_latency_ms == 75
            } else if profiled.setting.octets_per_frame > 100 {
                max_transport_latency_ms == 100
            } else {
                max_transport_latency_ms == 95
            }
        }),
{
}

/// Whether a record offers a setting to one stream of one or two channels: it is
/// an LC3 record that names the rate, the frame duration and the number of
/// channels, and whose octets, where it states them, span the setting's.
pub open spec fn offers(record: Pac, setting: BapSetting, stereo_in_one_stream: bool) -> bool {
    let caps = record.capabilities;
    &&& record.coding_format == 6
    &&& caps.sampling_frequencies.contains(setting.sampling_frequency)
    &&& if setting.frame_duration.us() == 10_000 {
        caps.supports_10ms
    } else {
        caps.supports_7_5ms
    }
    &&& (caps.min_octets_per_frame is Some && caps.max_octets_per_frame is Some
        ==> caps.min_octets_per_frame->0 <= setting.octets_per_frame
        <= caps.max_octets_per_frame->0)
    &&& caps.channel_counts.contains(
        if stereo_in_one_stream {
            2
        } else {
            1
        },
    )
}

proof fn lemma_allowed_is_offered(
    records: Seq<Pac>,
    setting: BapSetting,
    stereo_in_one_stream: bool,
)
    ensures
        allowed(records, codec_for(setting, stereo_in_one_stream)) <==> exists|k: int|
            0 <= k < records.len() && offers(#[trigger] records[k], setting, stereo_in_one_stream),
{
    let codec = codec_for(setting, stereo_in_one_stream);
    reveal_with_fuel(crate::bap::ones, 4);
    assert(crate::bap::ones(3) == 2);
    assert(crate::bap::ones(1) == 1);
    assert forall|k: int| 0 <= k < records.len() implies (#[trigger] offers(
        records[k],
        setting,
        stereo_in_one_stream,
    ) <==> records[k].coding_format == 0x06 && rejection_of(records[k].capabilities, codec)
        is None) by {
    }
}

/// What a walk settles on is something the device offers, and nothing that it
/// offers and the list puts higher is passed over: whichever entry a record
/// offers, the choice stands no further down, and on either of Android's lists is
/// worth at least as much. What goes to the device is exactly that setting, one
/// frame per SDU, for the left ear or for both.
#[verifier::rlimit(60)]
pub proof fn the_best_offered_setting_is_chosen(
    order: Seq<Candidate>,
    records: Seq<Pac>,
    stereo_in_one_stream: bool,
    chosen: Option<Chosen>,
)
    requires
        settles_on(order, records, stereo_in_one_stream, chosen),
    ensures
        chosen matches Some(c) ==> {
            &&& exists|k: int|
                0 <= k < records.len() && offers(
                    #[trigger] records[k],
                    c.setting,
                    stereo_in_one_stream,
                )
            &&& c.rank < order.len() && c.setting == order[c.rank as int].setting && c.qos
                == order[c.rank as int].qos
            &&& c.codec.sampling_frequency == c.setting.sampling_frequency
            &&& c.codec.frame_duration == c.setting.frame_duration
            &&& c.codec.octets_per_frame == c.setting.octets_per_frame
            &&& c.codec.frames_per_sdu == 1
            &&& c.codec.channel_allocation == if stereo_in_one_stream {
                3u32
            } else {
                1u32
            }
        },
        forall|j: int, k: int|
            0 <= j < order.len() && 0 <= k < records.len() && #[trigger] offers(
                records[k],
                #[trigger] order[j].setting,
                stereo_in_one_stream,
            ) ==> chosen is Some && chosen->0.rank <= j && (order == media_candidates() || order
                == game_candidates() ==> is_at_least(chosen->0.setting, order[j].setting)),
{
    if chosen is Some {
        lemma_allowed_is_offered(records, chosen->0.setting, stereo_in_one_stream);
    }
    assert forall|j: int, k: int|
        0 <= j < order.len() && 0 <= k < records.len() && #[trigger] offers(
            records[k],
            #[trigger] order[j].setting,
            stereo_in_one_stream,
        ) implies chosen is Some && chosen->0.rank <= j && (order == media_candidates() || order
        == game_candidates() ==> is_at_least(chosen->0.setting, order[j].setting)) by {
        lemma_allowed_is_offered(records, order[j].setting, stereo_in_one_stream);
        let r = chosen->0.rank as int;
        if chosen is Some && r <= j {
            quality_comes_first(r, j);
        }
    }
}

/// A device that allows any 48 kHz entry of a list is given 48 kHz.
pub proof fn a_full_band_device_gets_the_full_band(
    order: Seq<Candidate>,
    records: Seq<Pac>,
    stereo_in_one_stream: bool,
    chosen: Option<Chosen>,
    j: int,
    k: int,
)
    requires
        order == media_candidates() || order == game_candidates(),
        settles_on(order, records, stereo_in_one_stream, chosen),
        0 <= j < order.len(),
        0 <= k < records.len(),
        offers(records[k], order[j].setting, stereo_in_one_stream),
        crate::bap::code_hz(order[j].setting.sampling_frequency.0) == Some(48_000u32),
    ensures
        chosen matches Some(c) && crate::bap::code_hz(c.codec.sampling_frequency.0) == Some(
            48_000u32,
        ),
{
    the_best_offered_setting_is_chosen(order, records, stereo_in_one_stream, chosen);
    every_entry_is_balanced(chosen->0.rank as int);
}

/// What the headphones publish is what they get: a named profile takes their
/// retransmissions whenever they state any, and with them their latency where
/// they state one; without a statement thirteen retransmissions and 95 ms. The
/// delay they prefer is taken as it is, and otherwise 40 ms is brought into the
/// range they can do.
pub proof fn a_named_profile_follows_the_device(profile: QosProfile, device: PreferredQos)
    requires
        !(profile is Explicit),
    ensures
        profile.numbers(None) == (13u8, 95u16),
        QosProfile::delay(None) == 40_000,
        device.retransmission_preference > 0 ==> profile.numbers(Some(device)).0
            == device.retransmission_preference,
        device.retransmission_preference > 0 && device.max_transport_latency_ms > 0
            ==> profile.numbers(Some(device)).1 == device.max_transport_latency_ms,
        device.retransmission_preference > 0 && device.max_transport_latency_ms == 0
            ==> profile.numbers(Some(device)).1 == 95,
        device.retransmission_preference == 0 ==> profile.numbers(Some(device)) == (13u8, 95u16),
        device.preferred_delay_min_us > 0 ==> QosProfile::delay(Some(device))
            == device.preferred_delay_min_us,
        device.preferred_delay_min_us == 0 && device.presentation_delay_min_us
            <= device.presentation_delay_max_us ==> ({
            let delay = QosProfile::delay(Some(device));
            &&& device.presentation_delay_min_us <= delay <= device.presentation_delay_max_us
            &&& device.presentation_delay_min_us <= 40_000 <= device.presentation_delay_max_us
                ==> delay == 40_000
            &&& 40_000 < device.presentation_delay_min_us ==> delay
                == device.presentation_delay_min_us
            &&& 40_000 > device.presentation_delay_max_us ==> delay
                == device.presentation_delay_max_us
        }),
{
}


/// The digit that a character is.
pub open spec fn digit_at(name: &str, at: int) -> int {
    name@[at] as int - '0' as int
}

/// Whether a setting is called what it is: its rate in kilohertz, and behind the line
/// an odd number for the short frame and an even one for the long.
pub open spec fn is_well_named(setting: BapSetting) -> bool {
    let hz = crate::bap::code_hz(setting.sampling_frequency.0);
    &&& setting.name@.len() == 4 && setting.name@[2] == '_'
    &&& hz is Some && hz->0 == 1000 * (10 * digit_at(setting.name, 0) + digit_at(setting.name, 1))
    &&& setting.frame_duration.us() == if digit_at(setting.name, 3) % 2 == 1 {
        7_500u32
    } else {
        10_000u32
    }
}

/// Every entry of either list is called what it is.
#[verifier::rlimit(60)]
pub proof fn every_entry_is_well_named(i: int)
    ensures
        0 <= i < media_candidates().len() ==> is_well_named(media_candidates()[i].setting),
        0 <= i < game_candidates().len() ==> is_well_named(game_candidates()[i].setting),
{
    reveal_strlit("48_1");
    reveal_strlit("48_2");
    reveal_strlit("48_3");
    reveal_strlit("48_4");
    reveal_strlit("32_1");
    reveal_strlit("32_2");
    reveal_strlit("24_1");
    reveal_strlit("24_2");
    reveal_strlit("16_1");
    reveal_strlit("16_2");
}

/// A stream's transport carries its codec, unframed and over 2M, and aims at the
/// latency of its profile: low for games, high reliability only where that was asked
/// for, and balanced otherwise.
pub proof fn a_profile_carries_its_codec(
    profile: QosProfile,
    codec: CodecConfiguration,
    preferred: Option<PreferredQos>,
)
    requires
        0 <= codec.sdu_octets() <= 0xFFFF,
    ensures
        ({
            let qos = profile.resolved(codec, preferred);
            &&& qos.sdu_interval_us == codec.frame_duration.us()
            &&& qos.max_sdu == codec.sdu_octets()
            &&& qos.framing == 0 && qos.phy == 2
            &&& (qos.retransmission_number, qos.max_transport_latency_ms) == profile.numbers(
                preferred,
            )
            &&& qos.presentation_delay_us == QosProfile::delay(preferred)
        }),
        profile.aims_at() == 1 <==> profile == QosProfile::LowLatency,
        profile.aims_at() == 3 <==> profile == QosProfile::HighReliability,
        1 <= profile.aims_at() <= 3,
{
}

} // verus!
