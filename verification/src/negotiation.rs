//! Read-back validation for the ASCS transaction shared by automatic and custom audio.

use crate::bap::ase::{
    configured_codec_of, is_transient, parse_configured_codec, parse_preferred_qos,
    parse_qos_configured, parse_transient, preferred_qos_of, qos_configured_of, PreferredQos,
    QosConfiguredState, STATE_STREAMING,
};
use crate::bap::{CodecConfiguration, FrameDuration, QosConfiguration};
use crate::bytes::{range, same_bytes};
use crate::text::{decimal, push_decimal};
use vstd::prelude::*;
use vstd::string::*;

verus! {

/// A frame duration as a log shows it.
pub open spec fn duration_text(duration: FrameDuration) -> Seq<char> {
    match duration {
        FrameDuration::Ms7_5 => "Ms7_5"@,
        FrameDuration::Ms10 => "Ms10"@,
    }
}

/// A codec configuration as a log shows it.
pub open spec fn codec_text(codec: CodecConfiguration) -> Seq<char> {
    "CodecConfiguration { sampling_frequency: SamplingFrequency("@ + decimal(
        codec.sampling_frequency.0 as nat,
    ) + "), frame_duration: "@ + duration_text(codec.frame_duration) + ", channel_allocation: "@
        + decimal(codec.channel_allocation as nat) + ", octets_per_frame: "@ + decimal(
        codec.octets_per_frame as nat,
    ) + ", frames_per_sdu: "@ + decimal(codec.frames_per_sdu as nat) + " }"@
}

/// A confirmed QoS as a log shows it.
pub open spec fn qos_text(state: QosConfiguredState) -> Seq<char> {
    "QosConfiguredState { cig_id: "@ + decimal(state.cig_id as nat) + ", cis_id: "@ + decimal(
        state.cis_id as nat,
    ) + ", sdu_interval_us: "@ + decimal(state.sdu_interval_us as nat) + ", framing: "@ + decimal(
        state.framing as nat,
    ) + ", phy: "@ + decimal(state.phy as nat) + ", max_sdu: "@ + decimal(state.max_sdu as nat)
        + ", retransmission_number: "@ + decimal(state.retransmission_number as nat)
        + ", max_transport_latency_ms: "@ + decimal(state.max_transport_latency_ms as nat)
        + ", presentation_delay_us: "@ + decimal(state.presentation_delay_us as nat) + " }"@
}

fn push_codec(text: &mut String, codec: &CodecConfiguration)
    ensures
        final(text)@ == old(text)@ + codec_text(*codec),
{
    text.append("CodecConfiguration { sampling_frequency: SamplingFrequency(");
    push_decimal(text, codec.sampling_frequency.0 as u64);
    text.append("), frame_duration: ");
    match codec.frame_duration {
        FrameDuration::Ms7_5 => text.append("Ms7_5"),
        FrameDuration::Ms10 => text.append("Ms10"),
    }
    text.append(", channel_allocation: ");
    push_decimal(text, codec.channel_allocation as u64);
    text.append(", octets_per_frame: ");
    push_decimal(text, codec.octets_per_frame as u64);
    text.append(", frames_per_sdu: ");
    push_decimal(text, codec.frames_per_sdu as u64);
    text.append(" }");
    assert(text@ =~= old(text)@ + codec_text(*codec));
}

fn push_qos(text: &mut String, state: &QosConfiguredState)
    ensures
        final(text)@ == old(text)@ + qos_text(*state),
{
    text.append("QosConfiguredState { cig_id: ");
    push_decimal(text, state.cig_id as u64);
    text.append(", cis_id: ");
    push_decimal(text, state.cis_id as u64);
    text.append(", sdu_interval_us: ");
    push_decimal(text, state.sdu_interval_us as u64);
    text.append(", framing: ");
    push_decimal(text, state.framing as u64);
    text.append(", phy: ");
    push_decimal(text, state.phy as u64);
    text.append(", max_sdu: ");
    push_decimal(text, state.max_sdu as u64);
    text.append(", retransmission_number: ");
    push_decimal(text, state.retransmission_number as u64);
    text.append(", max_transport_latency_ms: ");
    push_decimal(text, state.max_transport_latency_ms as u64);
    text.append(", presentation_delay_us: ");
    push_decimal(text, state.presentation_delay_us as u64);
    text.append(" }");
    assert(text@ =~= old(text)@ + qos_text(*state));
}

/// "ASE n" and what is the matter with it.
pub open spec fn ase_complaint(id: u8, what: Seq<char>) -> Seq<char> {
    "ASE "@ + decimal(id as nat) + what
}

/// "ASE n" and what is the matter with it.
pub fn complaint(id: u8, what: &str) -> (text: String)
    ensures
        text@ == ase_complaint(id, what@),
{
    let mut text = String::from_str("ASE ");
    push_decimal(&mut text, id as u64);
    text.append(what);
    text
}

/// The codec identifier of LC3, without vendor fields.
pub open spec fn lc3_id() -> Seq<u8> {
    seq![6, 0, 0, 0, 0]
}

/// What is wrong with an endpoint's answer to Config Codec, if anything.
pub open spec fn codec_complaint(id: u8, expected: CodecConfiguration, value: Seq<u8>) -> Option<
    Seq<char>,
> {
    if value.len() == 0 || value[0] != id {
        Some(ase_complaint(id, ": response belongs to another endpoint"@))
    } else if configured_codec_of(value) is None {
        Some(ase_complaint(id, ": Codec Configured has not been confirmed"@))
    } else if value.subrange(19, 24) != lc3_id() || configured_codec_of(value) != Some(expected) {
        Some(
            ase_complaint(id, ": codec differs from request; requested "@) + codec_text(expected)
                + ", received "@ + codec_text(configured_codec_of(value)->0),
        )
    } else if preferred_qos_of(value)->0.presentation_delay_min_us > preferred_qos_of(
        value,
    )->0.presentation_delay_max_us {
        Some(ase_complaint(id, ": invalid presentation delay range"@))
    } else {
        None
    }
}

/// Accepts an endpoint's answer to Config Codec only when it is the right
/// endpoint, it applied LC3 exactly as asked, and its delay range is one. What
/// is accepted is the QoS the endpoint prefers.
pub fn codec_response(id: u8, expected: &CodecConfiguration, value: &[u8]) -> (outcome: Result<
    PreferredQos,
    String,
>)
    ensures
        match codec_complaint(id, *expected, value@) {
            Some(text) => outcome matches Err(message) && message@ == text,
            None => outcome == Ok::<PreferredQos, String>(preferred_qos_of(value@)->0),
        },
{
    if value.len() == 0 || value[0] != id {
        return Err(complaint(id, ": response belongs to another endpoint"));
    }
    let actual = match parse_configured_codec(value) {
        Some(actual) => actual,
        None => return Err(complaint(id, ": Codec Configured has not been confirmed")),
    };
    // Only LC3 with the standard codec identifier is supported by our encoder.
    let lc3: [u8; 5] = [6, 0, 0, 0, 0];
    assert(lc3@ =~= lc3_id());
    if !same_bytes(range(value, 19, 24), &lc3) || actual != *expected {
        let mut text = complaint(id, ": codec differs from request; requested ");
        push_codec(&mut text, expected);
        text.append(", received ");
        push_codec(&mut text, &actual);
        assert(text@ =~= codec_complaint(id, *expected, value@)->0);
        return Err(text);
    }
    let qos = match parse_preferred_qos(value) {
        Some(qos) => qos,
        None => return Err(complaint(id, ": missing QoS preferences")),
    };
    if qos.presentation_delay_min_us > qos.presentation_delay_max_us {
        return Err(complaint(id, ": invalid presentation delay range"));
    }
    Ok(qos)
}

/// The confirmation that Config QoS should bring.
pub open spec fn expected_state(cig: u8, cis: u8, qos: QosConfiguration) -> QosConfiguredState {
    QosConfiguredState {
        cig_id: cig,
        cis_id: cis,
        sdu_interval_us: qos.sdu_interval_us,
        framing: qos.framing,
        phy: qos.phy,
        max_sdu: qos.max_sdu,
        retransmission_number: qos.retransmission_number,
        max_transport_latency_ms: qos.max_transport_latency_ms,
        presentation_delay_us: qos.presentation_delay_us,
    }
}

/// Whether an endpoint confirms the QoS that was asked for.
pub open spec fn confirms_qos(
    id: u8,
    cig: u8,
    cis: u8,
    expected: QosConfiguration,
    value: Seq<u8>,
) -> bool {
    value[0] == id && qos_configured_of(value) == Some(expected_state(cig, cis, expected))
}

/// Accepts an endpoint's answer to Config QoS only when it is the right
/// endpoint, bound to the right CIS, with every value as asked.
pub fn qos_response(
    id: u8,
    cig: u8,
    cis: u8,
    expected: &QosConfiguration,
    value: &[u8],
) -> (outcome: Result<(), String>)
    ensures
        match qos_configured_of(value@) {
            None => outcome matches Err(message) && message@ == ase_complaint(
                id,
                ": QoS Configured has not been confirmed"@,
            ),
            Some(actual) => if confirms_qos(id, cig, cis, *expected, value@) {
                outcome is Ok
            } else {
                outcome matches Err(message) && message@ == ase_complaint(
                    id,
                    ": QoS/CIS mapping differs; requested "@,
                ) + qos_text(expected_state(cig, cis, *expected)) + ", received "@ + qos_text(
                    actual,
                )
            },
        },
{
    let actual = match parse_qos_configured(value) {
        Some(actual) => actual,
        None => return Err(complaint(id, ": QoS Configured has not been confirmed")),
    };
    let wanted = QosConfiguredState {
        cig_id: cig,
        cis_id: cis,
        sdu_interval_us: expected.sdu_interval_us,
        framing: expected.framing,
        phy: expected.phy,
        max_sdu: expected.max_sdu,
        retransmission_number: expected.retransmission_number,
        max_transport_latency_ms: expected.max_transport_latency_ms,
        presentation_delay_us: expected.presentation_delay_us,
    };
    if value[0] != id || actual != wanted {
        let mut text = complaint(id, ": QoS/CIS mapping differs; requested ");
        push_qos(&mut text, &wanted);
        text.append(", received ");
        push_qos(&mut text, &actual);
        return Err(text);
    }
    Ok(())
}

/// Whether a notification confirms that an endpoint streams on a given CIS.
pub open spec fn confirms_streaming(id: u8, cig: u8, cis: u8, value: Seq<u8>) -> bool {
    value[0] == id && value[1] == STATE_STREAMING && value[2] == cig && value[3] == cis
}

/// Accepts only a whole Streaming notification of the right endpoint on the
/// right CIS.
pub fn streaming_response(id: u8, cig: u8, cis: u8, value: &[u8]) -> (outcome: Result<(), String>)
    ensures
        if !is_transient(value@) {
            outcome matches Err(message) && message@ == ase_complaint(
                id,
                ": no complete Streaming confirmation"@,
            )
        } else if !confirms_streaming(id, cig, cis, value@) {
            outcome matches Err(message) && message@ == ase_complaint(
                id,
                ": not Streaming on CIG "@,
            ) + decimal(cig as nat) + ", CIS "@ + decimal(cis as nat)
        } else {
            outcome is Ok
        },
{
    let actual = match parse_transient(value) {
        Some(actual) => actual,
        None => return Err(complaint(id, ": no complete Streaming confirmation")),
    };
    if value[0] != id || value[1] != STATE_STREAMING || actual.cig_id != cig || actual.cis_id
        != cis {
        let mut text = complaint(id, ": not Streaming on CIG ");
        push_decimal(&mut text, cig as u64);
        text.append(", CIS ");
        push_decimal(&mut text, cis as u64);
        return Err(text);
    }
    Ok(())
}

/// The smaller of two values.
pub open spec fn least(a: u32, b: u32) -> u32 {
    if a <= b {
        a
    } else {
        b
    }
}

/// The larger of two values.
pub open spec fn greatest(a: u32, b: u32) -> u32 {
    if a >= b {
        a
    } else {
        b
    }
}

/// `value` brought into the range from `min` to `max`.
pub open spec fn clamped(value: u32, min: u32, max: u32) -> u32 {
    if value < min {
        min
    } else if value > max {
        max
    } else {
        value
    }
}

/// The shortest delay that every endpoint supports.
pub open spec fn common_min(preferences: Seq<PreferredQos>) -> u32
    decreases preferences.len(),
{
    if preferences.len() == 0 {
        0
    } else {
        greatest(
            common_min(preferences.drop_last()),
            preferences.last().presentation_delay_min_us,
        )
    }
}

/// The longest delay that every endpoint supports.
pub open spec fn common_max(preferences: Seq<PreferredQos>) -> u32
    decreases preferences.len(),
{
    if preferences.len() == 0 {
        u32::MAX
    } else {
        least(common_max(preferences.drop_last()), preferences.last().presentation_delay_max_us)
    }
}

/// A preferred delay that says something: neither absent nor all ones.
pub open spec fn is_stated(delay: u32) -> bool {
    delay != 0 && delay != 0xFF_FFFF
}

/// `floor`, raised to the shortest delay that any endpoint prefers.
pub open spec fn preferred_min(preferences: Seq<PreferredQos>, floor: u32) -> u32
    decreases preferences.len(),
{
    if preferences.len() == 0 {
        floor
    } else {
        let before = preferred_min(preferences.drop_last(), floor);
        let own = preferences.last().preferred_delay_min_us;
        if is_stated(own) {
            greatest(before, own)
        } else {
            before
        }
    }
}

/// `ceiling`, lowered to the longest delay that any endpoint prefers.
pub open spec fn preferred_max(preferences: Seq<PreferredQos>, ceiling: u32) -> u32
    decreases preferences.len(),
{
    if preferences.len() == 0 {
        ceiling
    } else {
        let before = preferred_max(preferences.drop_last(), ceiling);
        let own = preferences.last().preferred_delay_max_us;
        if is_stated(own) {
            least(before, own)
        } else {
            before
        }
    }
}

/// The delay all endpoints get: the wanted one brought into what they all
/// prefer, if that is asked for and exists, else into what they all support.
pub open spec fn agreed_delay(
    preferences: Seq<PreferredQos>,
    wanted: u32,
    prefer_device: bool,
) -> u32 {
    let min = common_min(preferences);
    let max = common_max(preferences);
    let low = preferred_min(preferences, min);
    let high = preferred_max(preferences, max);
    if prefer_device && low <= high {
        clamped(wanted, low, high)
    } else {
        clamped(wanted, min, max)
    }
}

/// The shortest and the longest delay that every endpoint supports.
pub fn common_range(preferences: &[PreferredQos]) -> (limits: (u32, u32))
    ensures
        limits == (common_min(preferences@), common_max(preferences@)),
{
    let mut min: u32 = 0;
    let mut max: u32 = u32::MAX;
    let mut i: usize = 0;
    assert(preferences@.take(0) =~= Seq::<PreferredQos>::empty());
    while i < preferences.len()
        invariant
            i <= preferences@.len(),
            min == common_min(preferences@.take(i as int)),
            max == common_max(preferences@.take(i as int)),
        decreases preferences@.len() - i,
    {
        let p = preferences[i];
        assert(preferences@.take(i + 1).drop_last() =~= preferences@.take(i as int));
        if p.presentation_delay_min_us > min {
            min = p.presentation_delay_min_us;
        }
        if p.presentation_delay_max_us < max {
            max = p.presentation_delay_max_us;
        }
        i = i + 1;
    }
    assert(preferences@.take(i as int) =~= preferences@);
    (min, max)
}

/// All endpoints must accept the same presentation delay. Max(per-endpoint
/// clamp) is insufficient: it can exceed another endpoint's upper bound.
pub fn presentation_delay(
    preferences: &[PreferredQos],
    wanted: u32,
    prefer_device: bool,
) -> (outcome: Result<u32, String>)
    ensures
        if preferences@.len() == 0 {
            outcome matches Err(message) && message@ == "no confirmed ASE preferences"@
        } else if common_min(preferences@) > common_max(preferences@) {
            outcome matches Err(message) && message@
                == "the channels have no common presentation delay"@
        } else {
            outcome == Ok::<u32, String>(agreed_delay(preferences@, wanted, prefer_device))
        },
{
    if preferences.len() == 0 {
        return Err(String::from_str("no confirmed ASE preferences"));
    }
    let (min, max) = common_range(preferences);
    if min > max {
        return Err(String::from_str("the channels have no common presentation delay"));
    }
    let mut low = min;
    let mut high = max;
    let mut i: usize = 0;
    assert(preferences@.take(0) =~= Seq::<PreferredQos>::empty());
    while i < preferences.len()
        invariant
            i <= preferences@.len(),
            low == preferred_min(preferences@.take(i as int), min),
            high == preferred_max(preferences@.take(i as int), max),
        decreases preferences@.len() - i,
    {
        let p = preferences[i];
        assert(preferences@.take(i + 1).drop_last() =~= preferences@.take(i as int));
        if p.preferred_delay_min_us != 0 && p.preferred_delay_min_us != 0xFF_FFFF {
            if p.preferred_delay_min_us > low {
                low = p.preferred_delay_min_us;
            }
        }
        if p.preferred_delay_max_us != 0 && p.preferred_delay_max_us != 0xFF_FFFF {
            if p.preferred_delay_max_us < high {
                high = p.preferred_delay_max_us;
            }
        }
        i = i + 1;
    }
    assert(preferences@.take(i as int) =~= preferences@);
    let (from, to) = if prefer_device && low <= high {
        (low, high)
    } else {
        (min, max)
    };
    Ok(
        if wanted < from {
            from
        } else if wanted > to {
            to
        } else {
            wanted
        },
    )
}

proof fn lemma_common_range(preferences: Seq<PreferredQos>, i: int)
    requires
        0 <= i < preferences.len(),
    ensures
        preferences[i].presentation_delay_min_us <= common_min(preferences),
        common_max(preferences) <= preferences[i].presentation_delay_max_us,
    decreases preferences.len(),
{
    if i < preferences.len() - 1 {
        lemma_common_range(preferences.drop_last(), i);
    }
}

proof fn lemma_preferred_range(preferences: Seq<PreferredQos>, floor: u32, ceiling: u32)
    ensures
        floor <= preferred_min(preferences, floor),
        preferred_max(preferences, ceiling) <= ceiling,
    decreases preferences.len(),
{
    if preferences.len() > 0 {
        lemma_preferred_range(preferences.drop_last(), floor, ceiling);
    }
}

/// Every endpoint can meet the delay that is agreed on, whenever there is one
/// that all of them support.
pub proof fn every_endpoint_can_meet_the_delay(
    preferences: Seq<PreferredQos>,
    wanted: u32,
    prefer_device: bool,
    i: int,
)
    requires
        0 <= i < preferences.len(),
        common_min(preferences) <= common_max(preferences),
    ensures
        preferences[i].presentation_delay_min_us <= agreed_delay(
            preferences,
            wanted,
            prefer_device,
        ) <= preferences[i].presentation_delay_max_us,
{
    lemma_common_range(preferences, i);
    lemma_preferred_range(preferences, common_min(preferences), common_max(preferences));
}

/// A custom choice that every endpoint supports is kept as it is.
pub proof fn a_valid_custom_delay_is_kept(preferences: Seq<PreferredQos>, wanted: u32)
    requires
        common_min(preferences) <= wanted <= common_max(preferences),
    ensures
        agreed_delay(preferences, wanted, false) == wanted,
{
}

/// A read-back is believed only when it is the endpoint's own, in the Codec
/// Configured state, LC3, with exactly the configuration that was asked for and a
/// delay range that is not empty.
pub proof fn a_codec_is_believed_when_it_is_the_one_asked_for(
    id: u8,
    expected: CodecConfiguration,
    value: Seq<u8>,
)
    ensures
        codec_complaint(id, expected, value) is None <==> {
            &&& value.len() >= 25
            &&& value[0] == id
            &&& value[1] == 1
            &&& value.len() >= 25 + value[24]
            &&& value[19] == 6 && value[20] == 0 && value[21] == 0 && value[22] == 0 && value[23]
                == 0
            &&& configured_codec_of(value) == Some(expected)
            &&& value[7] + 256 * value[8] + 65536 * value[9] <= value[10] + 256 * value[11] + 65536
                * value[12]
        },
{
    if value.len() >= 25 {
        let named = value.subrange(19, 24);
        assert(named[0] == value[19] && named[1] == value[20] && named[2] == value[21] && named[3]
            == value[22] && named[4] == value[23]);
        if named[0] == 6 && named[1] == 0 && named[2] == 0 && named[3] == 0 && named[4] == 0 {
            assert(named =~= lc3_id());
        }
    }
}

proof fn lemma_bytes_of(low: u8, middle: u8, high: u8, value: u32)
    requires
        low + 256 * middle + 65536 * high == value,
    ensures
        low == (value % 256) as u8,
        middle == (value / 256 % 256) as u8,
        high == (value / 65536) as u8,
        high == 0 ==> middle == (value / 256) as u8,
{
}

/// A QoS read-back is believed exactly when it repeats, byte for byte, what was
/// written to the endpoint.
#[verifier::rlimit(60)]
pub proof fn a_qos_is_believed_when_it_repeats_the_write(
    id: u8,
    cig: u8,
    cis: u8,
    expected: QosConfiguration,
    value: Seq<u8>,
)
    requires
        expected.sdu_interval_us < 0x100_0000,
        expected.presentation_delay_us < 0x100_0000,
    ensures
        confirms_qos(id, cig, cis, expected, value) <==> value == seq![id, 2u8]
            + crate::bap::ascs::config_qos_pdu(id, cig, cis, expected).skip(3),
{
    let pdu = crate::bap::ascs::config_qos_pdu(id, cig, cis, expected);
    let written = seq![id, 2u8] + pdu.skip(3);
    crate::bap::ascs::operations_on_the_wire(
        id,
        0,
        0,
        crate::bap::ase::blank_configuration(),
        cig,
        cis,
        expected,
        0,
    );
    crate::bap::ase::an_applied_qos_reads_back(id, cig, cis, expected);
    if confirms_qos(id, cig, cis, expected, value) {
        assert(value.len() == 17);
        assert(written.len() == 17);
        lemma_bytes_of(value[4], value[5], value[6], expected.sdu_interval_us);
        lemma_bytes_of(value[9], value[10], 0, expected.max_sdu as u32);
        lemma_bytes_of(value[12], value[13], 0, expected.max_transport_latency_ms as u32);
        lemma_bytes_of(value[14], value[15], value[16], expected.presentation_delay_us);
        assert(value =~= written);
    }
}

/// Streaming is confirmed by the endpoint itself, in the Streaming state, on the
/// group and the channel it was given, with its metadata whole.
pub proof fn streaming_is_confirmed_on_its_own_channel(
    id: u8,
    cig: u8,
    cis: u8,
    shown: Seq<u8>,
    metadata: Seq<u8>,
)
    requires
        shown.len() == 4,
        metadata.len() < 256,
    ensures
        ({
            let value = shown + seq![metadata.len() as u8] + metadata;
            is_transient(value) && confirms_streaming(id, cig, cis, value) <==> shown == seq![
                id,
                4u8,
                cig,
                cis,
            ]
        }),
{
    let value = shown + seq![metadata.len() as u8] + metadata;
    assert(value[0] == shown[0] && value[1] == shown[1] && value[2] == shown[2] && value[3]
        == shown[3]);
    assert(value[4] == metadata.len());
    if shown[0] == id && shown[1] == 4 && shown[2] == cig && shown[3] == cis {
        assert(shown =~= seq![id, 4u8, cig, cis]);
    }
}

/// Whether every endpoint can work with a delay.
pub open spec fn works_for_all(preferences: Seq<PreferredQos>, delay: u32) -> bool {
    forall|i: int|
        0 <= i < preferences.len() ==> (#[trigger] preferences[i]).presentation_delay_min_us
            <= delay <= preferences[i].presentation_delay_max_us
}

/// Whether a delay suits every endpoint that states a preference. Zero and all ones
/// state none.
pub open spec fn suits_all(preferences: Seq<PreferredQos>, delay: u32) -> bool {
    forall|i: int|
        0 <= i < preferences.len() ==> {
            let wish = #[trigger] preferences[i];
            &&& wish.preferred_delay_min_us != 0 && wish.preferred_delay_min_us != 16_777_215
                ==> wish.preferred_delay_min_us <= delay
            &&& wish.preferred_delay_max_us != 0 && wish.preferred_delay_max_us != 16_777_215
                ==> delay <= wish.preferred_delay_max_us
        }
}

/// How far a delay is from another.
pub open spec fn distance(a: u32, b: u32) -> int {
    if a >= b {
        a - b
    } else {
        b - a
    }
}

proof fn lemma_ranges_meet(preferences: Seq<PreferredQos>, delay: u32)
    ensures
        works_for_all(preferences, delay) <==> common_min(preferences) <= delay <= common_max(
            preferences,
        ),
    decreases preferences.len(),
{
    if preferences.len() > 0 {
        let rest = preferences.drop_last();
        lemma_ranges_meet(rest, delay);
        if works_for_all(preferences, delay) {
            assert forall|i: int| 0 <= i < rest.len() implies (
            #[trigger] rest[i]).presentation_delay_min_us <= delay
                <= rest[i].presentation_delay_max_us by {
                assert(rest[i] == preferences[i]);
            }
            assert(preferences[preferences.len() - 1] == preferences.last());
        }
        if works_for_all(rest, delay) && preferences.last().presentation_delay_min_us <= delay
            <= preferences.last().presentation_delay_max_us {
            assert forall|i: int| 0 <= i < preferences.len() implies (
            #[trigger] preferences[i]).presentation_delay_min_us <= delay
                <= preferences[i].presentation_delay_max_us by {
                if i < rest.len() {
                    assert(rest[i] == preferences[i]);
                }
            }
        }
    }
}

proof fn lemma_wishes_meet(
    preferences: Seq<PreferredQos>,
    floor: u32,
    ceiling: u32,
    delay: u32,
)
    ensures
        suits_all(preferences, delay) && floor <= delay <= ceiling <==> preferred_min(
            preferences,
            floor,
        ) <= delay <= preferred_max(preferences, ceiling),
    decreases preferences.len(),
{
    if preferences.len() > 0 {
        let rest = preferences.drop_last();
        lemma_wishes_meet(rest, floor, ceiling, delay);
        let last = preferences.last();
        assert(preferences[preferences.len() - 1] == last);
        assert(forall|i: int| 0 <= i < rest.len() ==> #[trigger] rest[i] == preferences[i]);
        if suits_all(preferences, delay) {
            assert(suits_all(rest, delay));
        }
        if suits_all(rest, delay) && (is_stated(last.preferred_delay_min_us)
            ==> last.preferred_delay_min_us <= delay) && (is_stated(last.preferred_delay_max_us)
            ==> delay <= last.preferred_delay_max_us) {
            assert forall|i: int| 0 <= i < preferences.len() implies {
                let wish = #[trigger] preferences[i];
                &&& wish.preferred_delay_min_us != 0 && wish.preferred_delay_min_us != 16_777_215
                    ==> wish.preferred_delay_min_us <= delay
                &&& wish.preferred_delay_max_us != 0 && wish.preferred_delay_max_us != 16_777_215
                    ==> delay <= wish.preferred_delay_max_us
            } by {
                if i < rest.len() {
                    assert(rest[i] == preferences[i]);
                }
            }
        }
    }
}

/// The delay that is agreed on is the nearest to the one wanted that every endpoint
/// can work with. Where the devices' preferences count and can all be met, it meets
/// them too, and is the nearest that does.
#[verifier::rlimit(60)]
pub proof fn the_agreed_delay_is_the_nearest_possible(
    preferences: Seq<PreferredQos>,
    wanted: u32,
    prefer_device: bool,
    other: u32,
)
    requires
        works_for_all(preferences, other),
    ensures
        ({
            let delay = agreed_delay(preferences, wanted, prefer_device);
            &&& works_for_all(preferences, delay)
            &&& !prefer_device ==> distance(delay, wanted) <= distance(other, wanted)
            &&& prefer_device && suits_all(preferences, other) ==> suits_all(preferences, delay)
                && distance(delay, wanted) <= distance(other, wanted)
            &&& prefer_device && !suits_all(preferences, delay) ==> distance(delay, wanted)
                <= distance(other, wanted)
        }),
{
    let min = common_min(preferences);
    let max = common_max(preferences);
    let delay = agreed_delay(preferences, wanted, prefer_device);
    lemma_ranges_meet(preferences, other);
    lemma_preferred_range(preferences, min, max);
    lemma_ranges_meet(preferences, delay);
    lemma_wishes_meet(preferences, min, max, other);
    lemma_wishes_meet(preferences, min, max, delay);
}

} // verus!
