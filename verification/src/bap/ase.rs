//! What the device says back about an ASE.
//!
//! The control point is a write, and a write response only means the bytes
//! arrived - not that the device accepted what was in them. The device's actual
//! answer arrives later, as a notification, and a stack that never subscribes to
//! those is configuring blind: a rejected parameter looks exactly like a
//! successful one.

use crate::bap::ascs::config_qos_pdu;
use crate::bap::{
    lemma_items_of_encoding, ltv_items, CodecConfiguration, FrameDuration, Ltv, QosConfiguration,
    SamplingFrequency,
};
use crate::bytes::{
    copy_bytes, le16, le24, lemma_u16_round_trip, lemma_u24_round_trip, lemma_u32_round_trip, range,
    read_u16, read_u24, read_u32, tail, u16_at, u24_at, u32_at,
};
use vstd::prelude::*;
use vstd::string::*;

verus! {

/// ASE states, in the order the state machine walks them.
pub const STATE_IDLE: u8 = 0x00;

pub const STATE_CODEC_CONFIGURED: u8 = 0x01;

pub const STATE_QOS_CONFIGURED: u8 = 0x02;

pub const STATE_ENABLING: u8 = 0x03;

pub const STATE_STREAMING: u8 = 0x04;

pub const STATE_DISABLING: u8 = 0x05;

pub const STATE_RELEASING: u8 = 0x06;

/// The name of each ASE state.
pub open spec fn state_text(state: u8) -> Seq<char> {
    match state {
        0x00 => "Idle"@,
        0x01 => "Codec Configured"@,
        0x02 => "QoS Configured"@,
        0x03 => "Enabling"@,
        0x04 => "Streaming"@,
        0x05 => "Disabling"@,
        0x06 => "Releasing"@,
        _ => "unknown state"@,
    }
}

pub fn state_name(state: u8) -> (name: &'static str)
    ensures
        name@ == state_text(state),
{
    match state {
        0x00 => "Idle",
        0x01 => "Codec Configured",
        0x02 => "QoS Configured",
        0x03 => "Enabling",
        0x04 => "Streaming",
        0x05 => "Disabling",
        0x06 => "Releasing",
        _ => "unknown state",
    }
}

/// One ASE's reported state.
#[derive(Debug, Clone, Copy, PartialEq, Eq, Structural)]
pub struct AseState {
    pub ase_id: u8,
    pub state: u8,
}

/// What the device says it wants, sent with the Codec Configured state.
///
/// The device answers Config Codec by publishing the QoS it prefers - the
/// presentation delay range it can actually work in among it - and a host that
/// never reads it is left guessing values that may simply be outside what the
/// device supports. The device accepts the configuration all the same and never
/// starts the stream, which looks like a routing fault rather than a parameter
/// the headphones quietly could not meet.
#[derive(Debug, Clone, Copy, PartialEq, Eq, Structural)]
pub struct PreferredQos {
    pub framing: u8,
    pub phy_preference: u8,
    pub retransmission_preference: u8,
    pub max_transport_latency_ms: u16,
    pub presentation_delay_min_us: u32,
    pub presentation_delay_max_us: u32,
    /// Zero when the device states no preference inside the supported range.
    pub preferred_delay_min_us: u32,
    pub preferred_delay_max_us: u32,
}

impl PreferredQos {
    /// A presentation delay the device will accept, preferring its own.
    pub fn choose_presentation_delay(&self, wanted_us: u32) -> (delay: u32)
        requires
            self.preferred_delay_min_us == 0 ==> self.presentation_delay_min_us
                <= self.presentation_delay_max_us,
        ensures
            self.preferred_delay_min_us > 0 ==> delay == self.preferred_delay_min_us,
            self.preferred_delay_min_us == 0 ==> delay == if wanted_us
                < self.presentation_delay_min_us {
                self.presentation_delay_min_us
            } else if wanted_us > self.presentation_delay_max_us {
                self.presentation_delay_max_us
            } else {
                wanted_us
            },
    {
        // The device's own preference wins when it states one: it is the
        // value its firmware was tuned around.
        if self.preferred_delay_min_us > 0 {
            return self.preferred_delay_min_us;
        }
        if wanted_us < self.presentation_delay_min_us {
            self.presentation_delay_min_us
        } else if wanted_us > self.presentation_delay_max_us {
            self.presentation_delay_max_us
        } else {
            wanted_us
        }
    }
}

/// The preferences in a Codec Configured state. Layout after ASE_ID and State:
/// Framing, PHY, RTN, Max_Transport_Latency (2), Presentation_Delay_Min (3),
/// Presentation_Delay_Max (3), Preferred_Presentation_Delay_Min (3),
/// Preferred_Presentation_Delay_Max (3).
pub open spec fn preferred_qos_of(value: Seq<u8>) -> Option<PreferredQos> {
    if value.len() < 19 || value[1] != STATE_CODEC_CONFIGURED {
        None
    } else {
        Some(
            PreferredQos {
                framing: value[2],
                phy_preference: value[3],
                retransmission_preference: value[4],
                max_transport_latency_ms: u16_at(value, 5),
                presentation_delay_min_us: u24_at(value, 7),
                presentation_delay_max_us: u24_at(value, 10),
                preferred_delay_min_us: u24_at(value, 13),
                preferred_delay_max_us: u24_at(value, 16),
            },
        )
    }
}

/// Reads the parameters carried by a Codec Configured state notification.
pub fn parse_preferred_qos(value: &[u8]) -> (qos: Option<PreferredQos>)
    ensures
        qos == preferred_qos_of(value@),
{
    // Framing, PHY, RTN, latency (2), and four three-byte delays: 17 bytes.
    if value.len() < 19 || value[1] != STATE_CODEC_CONFIGURED {
        return None;
    }
    Some(
        PreferredQos {
            framing: value[2],
            phy_preference: value[3],
            retransmission_preference: value[4],
            max_transport_latency_ms: read_u16(value, 5),
            presentation_delay_min_us: read_u24(value, 7),
            presentation_delay_max_us: read_u24(value, 10),
            preferred_delay_min_us: read_u24(value, 13),
            preferred_delay_max_us: read_u24(value, 16),
        },
    )
}

/// The configuration a device starts from before it reads any LTV.
pub open spec fn blank_configuration() -> CodecConfiguration {
    CodecConfiguration {
        sampling_frequency: SamplingFrequency(0),
        frame_duration: FrameDuration::Ms10,
        channel_allocation: 0,
        octets_per_frame: 0,
        frames_per_sdu: 1,
    }
}

/// `config` after one LTV: its kind says which field the value sets. An LTV of
/// another kind, or one that is too short, sets nothing.
pub open spec fn with_item(config: CodecConfiguration, item: (u8, Seq<u8>)) -> CodecConfiguration {
    let (kind, value) = item;
    if kind == 0x01 && value.len() >= 1 {
        CodecConfiguration { sampling_frequency: SamplingFrequency(value[0]), ..config }
    } else if kind == 0x02 && value.len() >= 1 {
        CodecConfiguration {
            frame_duration: if value[0] == 0x00 {
                FrameDuration::Ms7_5
            } else {
                FrameDuration::Ms10
            },
            ..config
        }
    } else if kind == 0x03 && value.len() >= 4 {
        CodecConfiguration { channel_allocation: u32_at(value, 0), ..config }
    } else if kind == 0x04 && value.len() >= 2 {
        CodecConfiguration { octets_per_frame: u16_at(value, 0), ..config }
    } else if kind == 0x05 && value.len() >= 1 {
        CodecConfiguration { frames_per_sdu: value[0], ..config }
    } else {
        config
    }
}

/// `config` after several LTVs, first to last.
pub open spec fn with_items(
    config: CodecConfiguration,
    items: Seq<(u8, Seq<u8>)>,
) -> CodecConfiguration
    decreases items.len(),
{
    if items.len() == 0 {
        config
    } else {
        with_item(with_items(config, items.drop_last()), items.last())
    }
}

/// The codec configuration in a Codec Configured state. It sits after the QoS
/// preferences: Codec_ID (5), configuration length (1), LTVs.
pub open spec fn configured_codec_of(value: Seq<u8>) -> Option<CodecConfiguration> {
    if value.len() < 25 || value[1] != STATE_CODEC_CONFIGURED || value.len() < 25 + value[24] {
        None
    } else {
        Some(with_items(blank_configuration(), ltv_items(value.subrange(25, 25 + value[24]))))
    }
}

/// The codec configuration the device actually applied.
///
/// Read back rather than assumed. A device answers Config Codec by
/// publishing what it settled on, and it does not have to be what was
/// asked for - it may clamp a value, ignore one, or keep a previous
/// configuration. Nothing else in the stack can tell the difference, which
/// is why changing the frame length or the bitrate can leave the sound
/// identical: the request changed and the stream did not.
pub fn parse_configured_codec(value: &[u8]) -> (codec: Option<CodecConfiguration>)
    ensures
        codec == configured_codec_of(value@),
{
    if value.len() < 25 || value[1] != STATE_CODEC_CONFIGURED {
        return None;
    }
    let length = value[24] as usize;
    if value.len() < 25 + length {
        return None;
    }
    let items = Ltv::decode(range(value, 25, 25 + length));
    let mut config = CodecConfiguration {
        sampling_frequency: SamplingFrequency(0),
        frame_duration: FrameDuration::Ms10,
        channel_allocation: 0,
        octets_per_frame: 0,
        frames_per_sdu: 1,
    };
    let ghost all = Ltv::items(items@);
    let mut i: usize = 0;
    assert(all.take(0) =~= Seq::<(u8, Seq<u8>)>::empty());
    while i < items.len()
        invariant
            i <= items@.len(),
            all == Ltv::items(items@),
            config == with_items(blank_configuration(), all.take(i as int)),
        decreases items@.len() - i,
    {
        let ltv = &items[i];
        proof {
            assert(all.take(i + 1).drop_last() =~= all.take(i as int));
            assert(all.take(i + 1).last() == (ltv.kind, ltv.value@));
        }
        if ltv.kind == 0x01 {
            if ltv.value.len() >= 1 {
                config.sampling_frequency = SamplingFrequency(ltv.value[0]);
            }
        } else if ltv.kind == 0x02 {
            if ltv.value.len() >= 1 {
                config.frame_duration = if ltv.value[0] == 0x00 {
                    FrameDuration::Ms7_5
                } else {
                    FrameDuration::Ms10
                };
            }
        } else if ltv.kind == 0x03 {
            if ltv.value.len() >= 4 {
                config.channel_allocation = read_u32(&ltv.value, 0);
            }
        } else if ltv.kind == 0x04 {
            if ltv.value.len() >= 2 {
                config.octets_per_frame = read_u16(&ltv.value, 0);
            }
        } else if ltv.kind == 0x05 {
            if ltv.value.len() >= 1 {
                config.frames_per_sdu = ltv.value[0];
            }
        }
        i = i + 1;
    }
    assert(all.take(i as int) =~= all);
    Some(config)
}

/// A device that applies what Config Codec asked for is read back as exactly
/// that: the configuration survives its LTV encoding.
pub proof fn an_applied_configuration_reads_back(
    ase_id: u8,
    preferences: Seq<u8>,
    codec_id: Seq<u8>,
    config: CodecConfiguration,
)
    requires
        preferences.len() == 17,
        codec_id.len() == 5,
        config.frames_per_sdu >= 1,
    ensures
        configured_codec_of(
            seq![ase_id, STATE_CODEC_CONFIGURED] + preferences + codec_id + seq![
                config.encoding().len() as u8,
            ] + config.encoding(),
        ) == Some(config),
{
    let value = seq![ase_id, STATE_CODEC_CONFIGURED] + preferences + codec_id + seq![
        config.encoding().len() as u8,
    ] + config.encoding();
    config.lemma_encoding_len();
    assert(value[24] == config.encoding().len());
    assert(value.subrange(25, 25 + value[24]) =~= config.encoding());
    lemma_items_of_encoding(config);
    let items = config.items();
    lemma_u32_round_trip(config.channel_allocation);
    lemma_u16_round_trip(config.octets_per_frame);
    let first = items.take(1);
    let second = items.take(2);
    let third = items.take(3);
    let fourth = items.take(4);
    assert(first.drop_last() =~= Seq::<(u8, Seq<u8>)>::empty());
    assert(second.drop_last() =~= first);
    assert(third.drop_last() =~= second);
    assert(fourth.drop_last() =~= third);
    let blank = blank_configuration();
    assert(with_items(blank, first.drop_last()) == blank);
    assert(with_items(blank, first).sampling_frequency == config.sampling_frequency);
    assert(with_items(blank, second).frame_duration == config.frame_duration);
    assert(with_items(blank, third).channel_allocation == config.channel_allocation);
    assert(with_items(blank, fourth).octets_per_frame == config.octets_per_frame);
    if config.frames_per_sdu > 1 {
        assert(items.drop_last() =~= fourth);
    } else {
        assert(items =~= fourth);
    }
}

/// Reads a Sink ASE characteristic value or notification.
pub fn parse_state(value: &[u8]) -> (state: Option<AseState>)
    ensures
        state == if value@.len() < 2 {
            None
        } else {
            Some(AseState { ase_id: value@[0], state: value@[1] })
        },
{
    if value.len() < 2 {
        return None;
    }
    Some(AseState { ase_id: value[0], state: value[1] })
}

/// How the device answered one operation on the control point.
#[derive(Debug, Clone, Copy, PartialEq, Eq, Structural)]
pub struct AseResponse {
    pub ase_id: u8,
    pub response_code: u8,
    pub reason: u8,
}

/// The name of each response code.
pub open spec fn response_text(code: u8) -> Seq<char> {
    match code {
        0x01 => "unsupported opcode"@,
        0x02 => "invalid length"@,
        0x03 => "invalid ASE ID"@,
        0x04 => "invalid state transition"@,
        0x05 => "invalid ASE direction"@,
        0x06 => "unsupported codec capability"@,
        0x07 => "unsupported parameter value"@,
        0x08 => "rejected parameter value"@,
        0x09 => "invalid parameter value"@,
        0x0A => "unsupported metadata"@,
        0x0B => "rejected metadata"@,
        0x0C => "invalid metadata"@,
        0x0D => "insufficient resources"@,
        0x0E => "unspecified error"@,
        _ => "unknown response"@,
    }
}

/// The configuration parameter each reason byte names.
pub open spec fn configuration_reason_text(reason: u8) -> Seq<char> {
    match reason {
        0x01 => " (Codec ID)"@,
        0x02 => " (codec specific configuration)"@,
        0x03 => " (SDU interval)"@,
        0x04 => " (framing)"@,
        0x05 => " (PHY)"@,
        0x06 => " (maximum SDU size)"@,
        0x07 => " (retransmission number)"@,
        0x08 => " (max transport latency)"@,
        0x09 => " (presentation delay)"@,
        0x0A => " (invalid ASE CIS mapping)"@,
        _ => ""@,
    }
}

/// The metadata field each reason byte names.
pub open spec fn metadata_reason_text(reason: u8) -> Seq<char> {
    match reason {
        0x01 => " (preferred audio contexts)"@,
        0x02 => " (streaming audio contexts)"@,
        0x03 => " (program info)"@,
        0x04 => " (language)"@,
        0x05 => " (CCID list)"@,
        0x06 => " (parental rating)"@,
        0x07 => " (program info URI)"@,
        0xFE => " (extended metadata)"@,
        0xFF => " (vendor specific)"@,
        _ => ""@,
    }
}

/// What a response says in words. ASCS reuses the Reason byte for two different
/// tables, and the response code decides which one applies; every other code
/// leaves Reason unused, so no parameter is named there.
pub open spec fn response_explanation(response: AseResponse) -> Seq<char> {
    let code = response.response_code;
    if code == 0x00 {
        "accepted"@
    } else if 0x07 <= code <= 0x09 {
        response_text(code) + configuration_reason_text(response.reason)
    } else if 0x0A <= code <= 0x0C {
        response_text(code) + metadata_reason_text(response.reason)
    } else {
        response_text(code)
    }
}

fn configuration_reason(reason: u8) -> (name: &'static str)
    ensures
        name@ == configuration_reason_text(reason),
{
    match reason {
        0x01 => " (Codec ID)",
        0x02 => " (codec specific configuration)",
        0x03 => " (SDU interval)",
        0x04 => " (framing)",
        0x05 => " (PHY)",
        0x06 => " (maximum SDU size)",
        0x07 => " (retransmission number)",
        0x08 => " (max transport latency)",
        0x09 => " (presentation delay)",
        0x0A => " (invalid ASE CIS mapping)",
        _ => "",
    }
}

fn metadata_reason(reason: u8) -> (name: &'static str)
    ensures
        name@ == metadata_reason_text(reason),
{
    match reason {
        0x01 => " (preferred audio contexts)",
        0x02 => " (streaming audio contexts)",
        0x03 => " (program info)",
        0x04 => " (language)",
        0x05 => " (CCID list)",
        0x06 => " (parental rating)",
        0x07 => " (program info URI)",
        0xFE => " (extended metadata)",
        0xFF => " (vendor specific)",
        _ => "",
    }
}

impl AseResponse {
    pub fn accepted(&self) -> (yes: bool)
        ensures
            yes == (self.response_code == 0x00),
    {
        self.response_code == 0x00
    }

    /// What went wrong, in words, with the parameter that was at fault.
    ///
    /// The reason names the offending parameter, which is the difference
    /// between "it said no" and knowing what to change - so getting this
    /// table wrong is worse than having none at all.
    pub fn explain(&self) -> (text: String)
        ensures
            text@ == response_explanation(*self),
    {
        if self.accepted() {
            return String::from_str("accepted");
        }
        let what = match self.response_code {
            0x01 => "unsupported opcode",
            0x02 => "invalid length",
            0x03 => "invalid ASE ID",
            0x04 => "invalid state transition",
            0x05 => "invalid ASE direction",
            0x06 => "unsupported codec capability",
            0x07 => "unsupported parameter value",
            0x08 => "rejected parameter value",
            0x09 => "invalid parameter value",
            0x0A => "unsupported metadata",
            0x0B => "rejected metadata",
            0x0C => "invalid metadata",
            0x0D => "insufficient resources",
            0x0E => "unspecified error",
            _ => "unknown response",
        };
        let mut text = String::from_str(what);
        if self.response_code >= 0x07 && self.response_code <= 0x09 {
            text.append(configuration_reason(self.reason));
        } else if self.response_code >= 0x0A && self.response_code <= 0x0C {
            text.append(metadata_reason(self.reason));
        }
        text
    }
}

/// The QoS the device confirms it applied, reported with the QoS
/// Configured state.
///
/// Worth reading rather than assuming. Config QoS is a request, and the
/// answer carries the values the device settled on - which CIS it bound the
/// endpoint to among them. A host that never reads this cannot tell a
/// configuration that was applied from one that was quietly clamped, and it
/// cannot tell which earpiece is on which CIS except by guessing.
#[derive(Debug, Clone, Copy, PartialEq, Eq, Structural)]
pub struct QosConfiguredState {
    pub cig_id: u8,
    pub cis_id: u8,
    pub sdu_interval_us: u32,
    pub framing: u8,
    pub phy: u8,
    pub max_sdu: u16,
    pub retransmission_number: u8,
    pub max_transport_latency_ms: u16,
    pub presentation_delay_us: u32,
}

/// The values of a QoS Configured state, which is exactly 17 bytes long: ASE,
/// state, CIG, CIS, SDU interval (3), framing, PHY, max SDU (2), RTN, latency
/// (2), presentation delay (3).
pub open spec fn qos_configured_of(value: Seq<u8>) -> Option<QosConfiguredState> {
    if value.len() != 17 || value[1] != STATE_QOS_CONFIGURED {
        None
    } else {
        Some(
            QosConfiguredState {
                cig_id: value[2],
                cis_id: value[3],
                sdu_interval_us: u24_at(value, 4),
                framing: value[7],
                phy: value[8],
                max_sdu: u16_at(value, 9),
                retransmission_number: value[11],
                max_transport_latency_ms: u16_at(value, 12),
                presentation_delay_us: u24_at(value, 14),
            },
        )
    }
}

/// Field order and lengths follow Android's
/// `ParseAseStatusQosConfiguredStateParams`.
pub fn parse_qos_configured(value: &[u8]) -> (state: Option<QosConfiguredState>)
    ensures
        state == qos_configured_of(value@),
{
    if value.len() != 17 || value[1] != STATE_QOS_CONFIGURED {
        return None;
    }
    Some(
        QosConfiguredState {
            cig_id: value[2],
            cis_id: value[3],
            sdu_interval_us: read_u24(value, 4),
            framing: value[7],
            phy: value[8],
            max_sdu: read_u16(value, 9),
            retransmission_number: value[11],
            max_transport_latency_ms: read_u16(value, 12),
            presentation_delay_us: read_u24(value, 14),
        },
    )
}

/// A device that applies what Config QoS asked for is read back as exactly
/// that, as long as the two 24-bit fields hold their values.
pub proof fn an_applied_qos_reads_back(ase_id: u8, cig_id: u8, cis_id: u8, qos: QosConfiguration)
    requires
        qos.sdu_interval_us < 0x100_0000,
        qos.presentation_delay_us < 0x100_0000,
    ensures
        qos_configured_of(
            seq![ase_id, STATE_QOS_CONFIGURED] + config_qos_pdu(
                ase_id,
                cig_id,
                cis_id,
                qos,
            ).skip(3),
        ) == Some(
            QosConfiguredState {
                cig_id,
                cis_id,
                sdu_interval_us: qos.sdu_interval_us,
                framing: qos.framing,
                phy: qos.phy,
                max_sdu: qos.max_sdu,
                retransmission_number: qos.retransmission_number,
                max_transport_latency_ms: qos.max_transport_latency_ms,
                presentation_delay_us: qos.presentation_delay_us,
            },
        ),
{
    let pdu = config_qos_pdu(ase_id, cig_id, cis_id, qos);
    let value = seq![ase_id, STATE_QOS_CONFIGURED] + pdu.skip(3);
    lemma_u24_round_trip(qos.sdu_interval_us);
    lemma_u24_round_trip(qos.presentation_delay_us);
    lemma_u16_round_trip(qos.max_sdu);
    lemma_u16_round_trip(qos.max_transport_latency_ms);
    assert(pdu.len() == 18);
    assert(u24_at(value, 4) == u24_at(le24(qos.sdu_interval_us), 0));
    assert(u16_at(value, 9) == u16_at(le16(qos.max_sdu), 0));
    assert(u16_at(value, 12) == u16_at(le16(qos.max_transport_latency_ms), 0));
    assert(u24_at(value, 14) == u24_at(le24(qos.presentation_delay_us), 0));
}

/// What Enabling, Streaming and Disabling carry.
///
/// The CIS identifier here is the device's own answer to which stream feeds
/// which endpoint. With two CIS in play that is the only readable statement
/// of the left/right mapping; everything else is inference.
#[derive(Debug, PartialEq, Eq)]
pub struct TransientState {
    pub cig_id: u8,
    pub cis_id: u8,
    pub metadata: Vec<u8>,
}

impl Clone for TransientState {
    fn clone(&self) -> (copy: Self)
        ensures
            copy.cig_id == self.cig_id,
            copy.cis_id == self.cis_id,
            copy.metadata@ == self.metadata@,
    {
        TransientState {
            cig_id: self.cig_id,
            cis_id: self.cis_id,
            metadata: copy_bytes(&self.metadata),
        }
    }
}

/// A whole Enabling, Streaming or Disabling state: ASE, state, CIG, CIS,
/// metadata length and exactly that much metadata.
pub open spec fn is_transient(value: Seq<u8>) -> bool {
    &&& value.len() >= 5
    &&& value[1] == STATE_ENABLING || value[1] == STATE_STREAMING || value[1] == STATE_DISABLING
    &&& value.len() == 5 + value[4]
}

/// Field order and lengths follow Android's
/// `ParseAseStatusTransientStateParams`.
///
/// A metadata length that does not match is rejected rather than taking what
/// fits: a mismatch means the notification was truncated, and truncated metadata
/// read as if complete is how a stream ends up configured for the wrong audio
/// context.
pub fn parse_transient(value: &[u8]) -> (state: Option<TransientState>)
    ensures
        state is Some <==> is_transient(value@),
        state matches Some(s) ==> {
            &&& s.cig_id == value@[2]
            &&& s.cis_id == value@[3]
            &&& s.metadata@ == value@.skip(5)
        },
{
    if value.len() < 5 {
        return None;
    }
    if value[1] != STATE_ENABLING && value[1] != STATE_STREAMING && value[1] != STATE_DISABLING {
        return None;
    }
    if value.len() - 5 != value[4] as usize {
        return None;
    }
    Some(
        TransientState { cig_id: value[2], cis_id: value[3], metadata: copy_bytes(tail(value, 5)) },
    )
}

/// The answers in a control point notification: as many as it announces, or as
/// many as are all there.
pub open spec fn control_point_answers(value: Seq<u8>) -> Seq<AseResponse> {
    let present = (value.len() - 2) / 3;
    let count = if present < value[1] { present } else { value[1] as int };
    Seq::new(
        count as nat,
        |i: int|
            AseResponse {
                ase_id: value[2 + 3 * i],
                response_code: value[3 + 3 * i],
                reason: value[4 + 3 * i],
            },
    )
}

/// Reads a notification from the ASE Control Point.
pub fn parse_control_point_response(value: &[u8]) -> (parsed: Option<(u8, Vec<AseResponse>)>)
    ensures
        parsed is Some <==> value@.len() >= 2,
        parsed matches Some(p) ==> p.0 == value@[0] && p.1@ == control_point_answers(value@),
{
    if value.len() < 2 {
        return None;
    }
    let mut responses: Vec<AseResponse> = Vec::new();
    let count = value[1] as usize;
    let mut index: usize = 0;
    while index < count && (value.len() - 2) / 3 > index
        invariant
            index <= count <= 255,
            count == value@[1],
            value@.len() >= 2,
            3 * index <= value@.len() - 2,
            responses@ =~= Seq::new(
                index as nat,
                |i: int|
                    AseResponse {
                        ase_id: value@[2 + 3 * i],
                        response_code: value@[3 + 3 * i],
                        reason: value@[4 + 3 * i],
                    },
            ),
        decreases count - index,
    {
        responses.push(
            AseResponse {
                ase_id: value[2 + 3 * index],
                response_code: value[3 + 3 * index],
                reason: value[4 + 3 * index],
            },
        );
        index = index + 1;
    }
    assert(responses@ =~= control_point_answers(value@));
    Some((value[0], responses))
}

/// The states of an endpoint are numbered in the order it goes through them.
pub proof fn states_are_numbered_in_order()
    ensures
        STATE_IDLE == 0,
        STATE_CODEC_CONFIGURED == 1,
        STATE_QOS_CONFIGURED == 2,
        STATE_ENABLING == 3,
        STATE_STREAMING == 4,
        STATE_DISABLING == 5,
        STATE_RELEASING == 6,
{
}

/// Three bytes of a number, low byte first.
pub open spec fn three(value: u32) -> Seq<u8> {
    seq![(value % 256) as u8, (value / 256 % 256) as u8, (value / 65536) as u8]
}

/// What a device prefers is read field by field: framing, PHYs, retransmissions,
/// transport latency, and the four delays, shortest and longest possible and then
/// shortest and longest preferred. It is stated in the Codec Configured state and
/// in no other.
#[verifier::rlimit(60)]
pub proof fn preferences_read_back(ase_id: u8, state: u8, wish: PreferredQos, more: Seq<u8>)
    requires
        wish.presentation_delay_min_us < 0x100_0000,
        wish.presentation_delay_max_us < 0x100_0000,
        wish.preferred_delay_min_us < 0x100_0000,
        wish.preferred_delay_max_us < 0x100_0000,
    ensures
        preferred_qos_of(
            seq![
                ase_id,
                state,
                wish.framing,
                wish.phy_preference,
                wish.retransmission_preference,
                (wish.max_transport_latency_ms % 256) as u8,
                (wish.max_transport_latency_ms / 256) as u8,
            ] + three(wish.presentation_delay_min_us) + three(wish.presentation_delay_max_us)
                + three(wish.preferred_delay_min_us) + three(wish.preferred_delay_max_us) + more,
        ) == if state == 1 {
            Some(wish)
        } else {
            None
        },
{
    let value = seq![
        ase_id,
        state,
        wish.framing,
        wish.phy_preference,
        wish.retransmission_preference,
        (wish.max_transport_latency_ms % 256) as u8,
        (wish.max_transport_latency_ms / 256) as u8,
    ] + three(wish.presentation_delay_min_us) + three(wish.presentation_delay_max_us) + three(
        wish.preferred_delay_min_us,
    ) + three(wish.preferred_delay_max_us) + more;
    assert(value[1] == state && value[2] == wish.framing && value[3] == wish.phy_preference);
    assert(value[4] == wish.retransmission_preference);
    assert(value[5] == (wish.max_transport_latency_ms % 256) as u8);
    assert(value[6] == (wish.max_transport_latency_ms / 256) as u8);
    assert(forall|i: int|
        0 <= i < 3 ==> #[trigger] three(wish.presentation_delay_min_us)[i] == value[7 + i]);
    assert(value[7] == three(wish.presentation_delay_min_us)[0]);
    assert(value[8] == three(wish.presentation_delay_min_us)[1]);
    assert(value[9] == three(wish.presentation_delay_min_us)[2]);
    assert(value[10] == three(wish.presentation_delay_max_us)[0]);
    assert(value[11] == three(wish.presentation_delay_max_us)[1]);
    assert(value[12] == three(wish.presentation_delay_max_us)[2]);
    assert(value[13] == three(wish.preferred_delay_min_us)[0]);
    assert(value[14] == three(wish.preferred_delay_min_us)[1]);
    assert(value[15] == three(wish.preferred_delay_min_us)[2]);
    assert(value[16] == three(wish.preferred_delay_max_us)[0]);
    assert(value[17] == three(wish.preferred_delay_max_us)[1]);
    assert(value[18] == three(wish.preferred_delay_max_us)[2]);
    assert(u16_at(value, 5) == wish.max_transport_latency_ms);
    assert(u24_at(value, 7) == wish.presentation_delay_min_us);
    assert(u24_at(value, 10) == wish.presentation_delay_max_us);
    assert(u24_at(value, 13) == wish.preferred_delay_min_us);
    assert(u24_at(value, 16) == wish.preferred_delay_max_us);
}

/// A confirmed QoS is read field by field: group, channel, interval, framing, PHY,
/// SDU, retransmissions, transport latency and presentation delay.
#[verifier::rlimit(60)]
pub proof fn a_confirmed_qos_reads_back(ase_id: u8, state: u8, held: QosConfiguredState)
    requires
        held.sdu_interval_us < 0x100_0000,
        held.presentation_delay_us < 0x100_0000,
    ensures
        qos_configured_of(
            seq![ase_id, state, held.cig_id, held.cis_id] + three(held.sdu_interval_us) + seq![
                held.framing,
                held.phy,
                (held.max_sdu % 256) as u8,
                (held.max_sdu / 256) as u8,
                held.retransmission_number,
                (held.max_transport_latency_ms % 256) as u8,
                (held.max_transport_latency_ms / 256) as u8,
            ] + three(held.presentation_delay_us),
        ) == if state == 2 {
            Some(held)
        } else {
            None
        },
{
    let value = seq![ase_id, state, held.cig_id, held.cis_id] + three(held.sdu_interval_us) + seq![
        held.framing,
        held.phy,
        (held.max_sdu % 256) as u8,
        (held.max_sdu / 256) as u8,
        held.retransmission_number,
        (held.max_transport_latency_ms % 256) as u8,
        (held.max_transport_latency_ms / 256) as u8,
    ] + three(held.presentation_delay_us);
    assert(value.len() == 17);
    assert(value[1] == state && value[2] == held.cig_id && value[3] == held.cis_id);
    assert(value[4] == three(held.sdu_interval_us)[0]);
    assert(value[5] == three(held.sdu_interval_us)[1]);
    assert(value[6] == three(held.sdu_interval_us)[2]);
    assert(value[7] == held.framing && value[8] == held.phy);
    assert(value[9] == (held.max_sdu % 256) as u8 && value[10] == (held.max_sdu / 256) as u8);
    assert(value[11] == held.retransmission_number);
    assert(value[12] == (held.max_transport_latency_ms % 256) as u8);
    assert(value[13] == (held.max_transport_latency_ms / 256) as u8);
    assert(value[14] == three(held.presentation_delay_us)[0]);
    assert(value[15] == three(held.presentation_delay_us)[1]);
    assert(value[16] == three(held.presentation_delay_us)[2]);
    assert(u24_at(value, 4) == held.sdu_interval_us);
    assert(u16_at(value, 9) == held.max_sdu);
    assert(u16_at(value, 12) == held.max_transport_latency_ms);
    assert(u24_at(value, 14) == held.presentation_delay_us);
}

/// An endpoint that is on its way is told by its state, from Enabling to Disabling,
/// and by metadata that are as long as they say.
pub proof fn a_transient_state_is_whole(
    ase_id: u8,
    state: u8,
    cig: u8,
    cis: u8,
    length: u8,
    metadata: Seq<u8>,
)
    ensures
        is_transient(seq![ase_id, state, cig, cis, length] + metadata) <==> (state == 3 || state
            == 4 || state == 5) && metadata.len() == length,
{
    let value = seq![ase_id, state, cig, cis, length] + metadata;
    assert(value[1] == state && value[4] == length);
}

/// The control point answers for each endpoint in three bytes: which one, the
/// verdict, the reason. Those that are not all there are left out.
pub proof fn every_endpoint_is_answered_for(opcode: u8, count: u8, data: Seq<u8>, i: int)
    requires
        0 <= i < count,
        3 * i + 3 <= data.len(),
    ensures
        ({
            let answers = control_point_answers(seq![opcode, count] + data);
            &&& i < answers.len() <= count
            &&& answers[i].ase_id == data[3 * i]
            &&& answers[i].response_code == data[3 * i + 1]
            &&& answers[i].reason == data[3 * i + 2]
            &&& data.len() >= 3 * count ==> answers.len() == count
        }),
{
    let value = seq![opcode, count] + data;
    assert(value[1] == count);
    assert(value[2 + 3 * i] == data[3 * i]);
    assert(value[3 + 3 * i] == data[3 * i + 1]);
    assert(value[4 + 3 * i] == data[3 * i + 2]);
}

/// What an endpoint applied is read from the elements it repeats, the last of each
/// kind: the rate, the frame duration, the ears, the octets and the frames per SDU.
/// A duration of zero is 7.5 ms. What it does not repeat is 10 ms, no rate, no
/// ear, no octets and one frame.
pub proof fn an_element_sets_one_field(
    before: Seq<(u8, Seq<u8>)>,
    kind: u8,
    value: Seq<u8>,
    config: CodecConfiguration,
)
    ensures
        ({
            let was = with_items(config, before);
            let now = with_items(config, before.push((kind, value)));
            &&& now.sampling_frequency == if kind == 1 && value.len() >= 1 {
                SamplingFrequency(value[0])
            } else {
                was.sampling_frequency
            }
            &&& now.frame_duration.us() == if kind == 2 && value.len() >= 1 {
                if value[0] == 0 {
                    7_500u32
                } else {
                    10_000u32
                }
            } else {
                was.frame_duration.us()
            }
            &&& now.channel_allocation == if kind == 3 && value.len() >= 4 {
                (value[0] + 256 * value[1] + 65536 * value[2] + 16777216 * value[3]) as u32
            } else {
                was.channel_allocation
            }
            &&& now.octets_per_frame == if kind == 4 && value.len() >= 2 {
                (value[0] + 256 * value[1]) as u16
            } else {
                was.octets_per_frame
            }
            &&& now.frames_per_sdu == if kind == 5 && value.len() >= 1 {
                value[0]
            } else {
                was.frames_per_sdu
            }
        }),
        with_items(config, Seq::empty()) == config,
        blank_configuration().frame_duration.us() == 10_000,
        blank_configuration().frames_per_sdu == 1,
        blank_configuration().sampling_frequency.0 == 0,
        blank_configuration().octets_per_frame == 0,
        blank_configuration().channel_allocation == 0,
{
    assert(before.push((kind, value)).drop_last() =~= before);
}

/// A codec is read only from the Codec Configured state, and only where all of the
/// configuration that its length announces is there.
pub proof fn a_codec_that_is_cut_short_is_not_read(value: Seq<u8>)
    ensures
        configured_codec_of(value) is Some <==> value.len() > 24 && value[1] == 1 && value.len()
            >= 25 + value[24],
        configured_codec_of(value) matches Some(codec) ==> codec == with_items(
            blank_configuration(),
            ltv_items(value.skip(25).take(value[24] as int)),
        ),
{
    if configured_codec_of(value) is Some {
        assert(value.skip(25).take(value[24] as int) =~= value.subrange(25, 25 + value[24]));
    }
}

} // verus!
