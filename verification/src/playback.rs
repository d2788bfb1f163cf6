//! Setting a stream up, playing it, and deciding what follows when it ends.
//!
//! The radio work is done elsewhere. What the headphones answer is weighed
//! here, the order of the steps is kept here, and so is the question whether a
//! stream that ended is built again.

use crate::bap::ase::{
    parse_state, PreferredQos, STATE_CODEC_CONFIGURED, STATE_IDLE,
};
use crate::bap::{
    code_hz, CodecConfiguration, LOCATION_FRONT_LEFT, LOCATION_FRONT_RIGHT, LOCATION_MONO,
    LOCATION_STEREO,
};
use crate::negotiation::{
    agreed_delay, ase_complaint, codec_complaint, codec_response, common_max, common_min,
    common_range, complaint, presentation_delay,
};
use crate::preflight::{milliseconds_text, push_milliseconds, MicrophonePlan, StreamPlan};
use crate::session::{
    adapter_failed, audio_lost, is_adapter_failure, is_audio_loss, SessionError,
};
use crate::text::{decimal, hex, push_decimal, push_hex, text_views};
use vstd::prelude::*;
use vstd::string::*;

verus! {

// ---- Endpoints ----

/// One Sink endpoint of a stream, in the order of the isochronous channels.
#[derive(Debug, Clone, Copy, PartialEq, Eq, Structural)]
pub struct Endpoint {
    pub ase_id: u8,
    /// Which ear, or both.
    pub allocation: u32,
}

/// What a channel allocation is called.
pub open spec fn side_text(allocation: u32) -> Seq<char> {
    if allocation == LOCATION_FRONT_LEFT {
        "left"@
    } else if allocation == LOCATION_FRONT_RIGHT {
        "right"@
    } else if allocation == LOCATION_STEREO {
        "stereo"@
    } else if allocation == LOCATION_MONO {
        "mono"@
    } else {
        "0x"@ + hex(allocation as nat, 8)
    }
}

/// What a channel allocation is called. One that has no name is shown as a
/// number rather than refused: it only describes what is about to be sent.
pub fn side_name(allocation: u32) -> (name: String)
    ensures
        name@ == side_text(allocation),
{
    if allocation == LOCATION_FRONT_LEFT {
        String::from_str("left")
    } else if allocation == LOCATION_FRONT_RIGHT {
        String::from_str("right")
    } else if allocation == LOCATION_STEREO {
        String::from_str("stereo")
    } else if allocation == LOCATION_MONO {
        String::from_str("mono")
    } else {
        let mut name = String::from_str("0x");
        push_hex(&mut name, allocation as u64, 8);
        name
    }
}

/// Where the endpoint with this identifier stands, or the number of endpoints.
pub open spec fn endpoint_place(endpoints: Seq<Endpoint>, ase_id: u8) -> int
    decreases endpoints.len(),
{
    if endpoints.len() == 0 || endpoints[0].ase_id == ase_id {
        0
    } else {
        1 + endpoint_place(endpoints.skip(1), ase_id)
    }
}

/// What an endpoint is expected to have applied: the codec of the stream, for
/// the ear this endpoint plays.
pub open spec fn expected_of(
    codec: CodecConfiguration,
    endpoints: Seq<Endpoint>,
    ase_id: u8,
) -> Option<CodecConfiguration> {
    let at = endpoint_place(endpoints, ase_id);
    if at < endpoints.len() {
        Some(CodecConfiguration { channel_allocation: endpoints[at].allocation, ..codec })
    } else {
        None
    }
}

/// What an endpoint is expected to have applied, if it is one of the stream's.
pub fn expected_codec(codec: &CodecConfiguration, endpoints: &[Endpoint], ase_id: u8) -> (expected:
    Option<CodecConfiguration>)
    ensures
        expected == expected_of(*codec, endpoints@, ase_id),
{
    let mut i: usize = 0;
    assert(endpoints@.skip(0) =~= endpoints@);
    while i < endpoints.len()
        invariant
            i <= endpoints@.len(),
            endpoint_place(endpoints@, ase_id) == i + endpoint_place(
                endpoints@.skip(i as int),
                ase_id,
            ),
        decreases endpoints@.len() - i,
    {
        assert(endpoints@.skip(i as int).skip(1) =~= endpoints@.skip(i + 1));
        if endpoints[i].ase_id == ase_id {
            return Some(
                CodecConfiguration { channel_allocation: endpoints[i].allocation, ..*codec },
            );
        }
        i = i + 1;
    }
    None
}

/// Accepts what an endpoint published after Config Codec.
pub fn endpoint_preference(
    codec: &CodecConfiguration,
    endpoints: &[Endpoint],
    ase_id: u8,
    value: &[u8],
) -> (outcome: Result<PreferredQos, String>)
    ensures
        match expected_of(*codec, endpoints@, ase_id) {
            Some(expected) => match codec_complaint(ase_id, expected, value@) {
                Some(text) => outcome matches Err(message) && message@ == text,
                None => outcome == Ok::<PreferredQos, String>(
                    crate::bap::ase::preferred_qos_of(value@)->0,
                ),
            },
            None => outcome matches Err(message) && message@ == "unexpected Sink ASE"@,
        },
{
    match expected_codec(codec, endpoints, ase_id) {
        Some(expected) => codec_response(ase_id, &expected, value),
        None => Err(String::from_str("unexpected Sink ASE")),
    }
}

/// Where a readable endpoint with this identifier stands, or the number of them.
pub open spec fn handle_place(handles: Seq<(u8, u16)>, ase_id: u8) -> int
    decreases handles.len(),
{
    if handles.len() == 0 || handles[0].0 == ase_id {
        0
    } else {
        1 + handle_place(handles.skip(1), ase_id)
    }
}

/// The handle an endpoint is read at, if it can be read.
pub fn handle_of(handles: &[(u8, u16)], ase_id: u8) -> (handle: Option<u16>)
    ensures
        handle == if handle_place(handles@, ase_id) < handles@.len() {
            Some(handles@[handle_place(handles@, ase_id)].1)
        } else {
            None
        },
{
    let mut i: usize = 0;
    assert(handles@.skip(0) =~= handles@);
    while i < handles.len()
        invariant
            i <= handles@.len(),
            handle_place(handles@, ase_id) == i + handle_place(handles@.skip(i as int), ase_id),
        decreases handles@.len() - i,
    {
        assert(handles@.skip(i as int).skip(1) =~= handles@.skip(i + 1));
        if handles[i].0 == ase_id {
            return Some(handles[i].1);
        }
        i = i + 1;
    }
    None
}

/// The readable endpoints that belong to a stream, in order.
pub open spec fn readable(handles: Seq<(u8, u16)>, endpoints: Seq<Endpoint>) -> Seq<(u8, u16)>
    decreases handles.len(),
{
    if handles.len() == 0 {
        Seq::empty()
    } else {
        let before = readable(handles.drop_last(), endpoints);
        if endpoint_place(endpoints, handles.last().0) < endpoints.len() {
            before.push(handles.last())
        } else {
            before
        }
    }
}

/// Keeps the readable endpoints that belong to a stream.
pub fn selected_handles(handles: &[(u8, u16)], endpoints: &[Endpoint]) -> (kept: Vec<(u8, u16)>)
    ensures
        kept@ == readable(handles@, endpoints@),
{
    let mut kept: Vec<(u8, u16)> = Vec::new();
    let mut i: usize = 0;
    assert(handles@.take(0) =~= Seq::<(u8, u16)>::empty());
    while i < handles.len()
        invariant
            i <= handles@.len(),
            kept@ == readable(handles@.take(i as int), endpoints@),
        decreases handles@.len() - i,
    {
        assert(handles@.take(i + 1).drop_last() =~= handles@.take(i as int));
        if has_endpoint(endpoints, handles[i].0) {
            kept.push(handles[i]);
        }
        i = i + 1;
    }
    assert(handles@.take(i as int) =~= handles@);
    kept
}

fn has_endpoint(endpoints: &[Endpoint], ase_id: u8) -> (yes: bool)
    ensures
        yes == (endpoint_place(endpoints@, ase_id) < endpoints@.len()),
{
    let mut i: usize = 0;
    assert(endpoints@.skip(0) =~= endpoints@);
    while i < endpoints.len()
        invariant
            i <= endpoints@.len(),
            endpoint_place(endpoints@, ase_id) == i + endpoint_place(
                endpoints@.skip(i as int),
                ase_id,
            ),
        decreases endpoints@.len() - i,
    {
        assert(endpoints@.skip(i as int).skip(1) =~= endpoints@.skip(i + 1));
        if endpoints[i].ase_id == ase_id {
            return true;
        }
        i = i + 1;
    }
    false
}

/// The handle a Sink endpoint confirms at, or what is said when it has none.
pub fn sink_handle(handles: &[(u8, u16)], ase_id: u8) -> (handle: Result<u16, String>)
    ensures
        if handle_place(handles@, ase_id) < handles@.len() {
            handle == Ok::<u16, String>(handles@[handle_place(handles@, ase_id)].1)
        } else {
            handle matches Err(text) && text@ == ase_complaint(
                ase_id,
                ": missing readable characteristic"@,
            )
        },
{
    match handle_of(handles, ase_id) {
        Some(handle) => Ok(handle),
        None => Err(complaint(ase_id, ": missing readable characteristic")),
    }
}

/// Whether an endpoint has let go of its previous stream.
pub open spec fn is_released(ase_id: u8, value: Seq<u8>) -> bool {
    value.len() >= 2 && value[0] == ase_id && (value[1] == STATE_IDLE || value[1]
        == STATE_CODEC_CONFIGURED)
}

/// Accepts an endpoint once it has let go of its previous stream.
///
/// Release may finish in Idle or in Codec Configured, when the codec is cached.
/// An endpoint that is still releasing or streaming is never reconfigured.
pub fn previous_released(ase_id: u8, value: &[u8]) -> (outcome: Result<(), String>)
    ensures
        if is_released(ase_id, value@) {
            outcome is Ok
        } else {
            outcome matches Err(message) && message@ == ase_complaint(
                ase_id,
                ": previous stream has not been released"@,
            )
        },
{
    match parse_state(value) {
        Some(state) => if state.ase_id == ase_id && (state.state == STATE_IDLE || state.state
            == STATE_CODEC_CONFIGURED) {
            Ok(())
        } else {
            Err(complaint(ase_id, ": previous stream has not been released"))
        },
        None => Err(complaint(ase_id, ": previous stream has not been released")),
    }
}

/// What one look at an endpoint comes to.
#[derive(Debug)]
pub enum Look<T> {
    Accepted(T),
    Refused(String),
    /// Look again in a moment.
    Again,
}

/// Decides one look at an endpoint: what is not acceptable yet may become so
/// until the time is up.
pub fn look<T>(verified: Result<T, String>, expired: bool) -> (step: Look<T>)
    ensures
        step == match verified {
            Ok(value) => Look::Accepted(value),
            Err(error) => if expired {
                Look::Refused(error)
            } else {
                Look::Again
            },
        },
{
    match verified {
        Ok(value) => Look::Accepted(value),
        Err(error) => if expired {
            Look::Refused(error)
        } else {
            Look::Again
        },
    }
}

/// What is said when an endpoint cannot even be read.
pub fn read_failure(ase_id: u8, error: &str) -> (text: String)
    ensures
        text@ == ase_complaint(ase_id, ": read failed; connection must be rebuilt: "@) + error@,
{
    let mut text = complaint(ase_id, ": read failed; connection must be rebuilt: ");
    text.append(error);
    text
}

// ---- What the headphones prefer ----

/// What the headphones published about the stream they have just configured.
///
/// Every field is what the device asked for, never what was hoped for.
#[derive(Debug, Clone, Copy, PartialEq, Eq, Structural)]
pub struct DevicePreference {
    pub min_delay_us: u32,
    pub max_delay_us: u32,
    pub presentation_delay_us: u32,
    /// The retransmission count the server recommends.
    pub retransmissions: Option<u8>,
    /// The longest transport latency the server supports. Ours must not exceed it.
    pub max_transport_latency_ms: Option<u16>,
    /// Bit 0 is 1M, bit 1 is 2M.
    pub phy_preference: Option<u8>,
}

/// The highest retransmission count that any endpoint recommends. Zero
/// recommends nothing.
pub open spec fn recommended(answers: Seq<PreferredQos>) -> Option<u8>
    decreases answers.len(),
{
    if answers.len() == 0 {
        None
    } else {
        let before = recommended(answers.drop_last());
        let own = answers.last().retransmission_preference;
        if own == 0 {
            before
        } else {
            match before {
                Some(count) => if count >= own {
                    Some(count)
                } else {
                    Some(own)
                },
                None => Some(own),
            }
        }
    }
}

/// The lowest transport latency that any endpoint states. Zero states none.
pub open spec fn ceiling(answers: Seq<PreferredQos>) -> Option<u16>
    decreases answers.len(),
{
    if answers.len() == 0 {
        None
    } else {
        let before = ceiling(answers.drop_last());
        let own = answers.last().max_transport_latency_ms;
        if own == 0 {
            before
        } else {
            match before {
                Some(limit) => if limit <= own {
                    Some(limit)
                } else {
                    Some(own)
                },
                None => Some(own),
            }
        }
    }
}

/// The PHYs that every endpoint with a preference prefers.
pub open spec fn common_phy(answers: Seq<PreferredQos>) -> Option<u8>
    decreases answers.len(),
{
    if answers.len() == 0 {
        None
    } else {
        let before = common_phy(answers.drop_last());
        let own = answers.last().phy_preference;
        if own == 0 {
            before
        } else {
            match before {
                Some(bits) => Some(bits & own),
                None => Some(own),
            }
        }
    }
}

/// What endpoints with these answers prefer together.
pub open spec fn preference_of(
    answers: Seq<PreferredQos>,
    wanted: u32,
    prefer_device: bool,
) -> DevicePreference {
    DevicePreference {
        min_delay_us: common_min(answers),
        max_delay_us: common_max(answers),
        presentation_delay_us: agreed_delay(answers, wanted, prefer_device),
        retransmissions: recommended(answers),
        max_transport_latency_ms: ceiling(answers),
        phy_preference: common_phy(answers),
    }
}

/// The answers of a stream's endpoints to Config Codec, as they come in.
#[derive(Debug)]
pub struct Question {
    answers: Vec<PreferredQos>,
}

impl View for Question {
    type V = Seq<PreferredQos>;

    closed spec fn view(&self) -> Seq<PreferredQos> {
        self.answers@
    }
}

impl Question {
    /// Starts asking, if every endpoint of the stream can be read.
    pub fn new(readable: usize, selected: usize) -> (question: Result<Self, &'static str>)
        ensures
            if readable == selected {
                question matches Ok(q) && q@ == Seq::<PreferredQos>::empty()
            } else {
                question matches Err(text) && text@ == "cannot verify every selected Sink ASE"@
            },
    {
        if readable != selected {
            return Err("cannot verify every selected Sink ASE");
        }
        Ok(Question { answers: Vec::new() })
    }

    /// Takes one endpoint's answer. Framed transport is not supported.
    pub fn note(&mut self, ase_id: u8, answer: PreferredQos) -> (outcome: Result<(), String>)
        ensures
            if answer.framing == 0 {
                &&& outcome is Ok
                &&& final(self)@ == old(self)@.push(answer)
            } else {
                &&& outcome matches Err(message) && message@ == ase_complaint(
                    ase_id,
                    " requires framed ISO, which is not supported"@,
                )
                &&& final(self)@ == old(self)@
            },
    {
        if answer.framing != 0 {
            return Err(complaint(ase_id, " requires framed ISO, which is not supported"));
        }
        self.answers.push(answer);
        Ok(())
    }

    /// What all of them prefer together.
    ///
    /// The retransmission count is a recommendation, so the highest any endpoint
    /// asks for is the one that keeps them all happy. Transport latency is a
    /// ceiling, so the lowest is the only one every endpoint can meet.
    pub fn settle(&self, wanted: u32, prefer_device: bool) -> (outcome: Result<
        DevicePreference,
        String,
    >)
        ensures
            if self@.len() == 0 {
                outcome matches Err(message) && message@ == "no confirmed ASE preferences"@
            } else if common_min(self@) > common_max(self@) {
                outcome matches Err(message) && message@
                    == "the channels have no common presentation delay"@
            } else {
                outcome == Ok::<DevicePreference, String>(
                    preference_of(self@, wanted, prefer_device),
                )
            },
    {
        let presentation_delay_us = match presentation_delay(&self.answers, wanted, prefer_device) {
            Ok(delay) => delay,
            Err(error) => return Err(error),
        };
        let (min_delay_us, max_delay_us) = common_range(&self.answers);
        let mut retransmissions: Option<u8> = None;
        let mut max_transport_latency_ms: Option<u16> = None;
        let mut phy_preference: Option<u8> = None;
        let mut i: usize = 0;
        let ghost answers = self.answers@;
        assert(answers.take(0) =~= Seq::<PreferredQos>::empty());
        while i < self.answers.len()
            invariant
                i <= answers.len(),
                answers == self.answers@,
                retransmissions == recommended(answers.take(i as int)),
                max_transport_latency_ms == ceiling(answers.take(i as int)),
                phy_preference == common_phy(answers.take(i as int)),
            decreases answers.len() - i,
        {
            let answer = self.answers[i];
            assert(answers.take(i + 1).drop_last() =~= answers.take(i as int));
            let rtn = answer.retransmission_preference;
            if rtn != 0 {
                retransmissions = match retransmissions {
                    Some(count) => if count >= rtn {
                        Some(count)
                    } else {
                        Some(rtn)
                    },
                    None => Some(rtn),
                };
            }
            let latency = answer.max_transport_latency_ms;
            if latency != 0 {
                max_transport_latency_ms = match max_transport_latency_ms {
                    Some(limit) => if limit <= latency {
                        Some(limit)
                    } else {
                        Some(latency)
                    },
                    None => Some(latency),
                };
            }
            let phy = answer.phy_preference;
            if phy != 0 {
                phy_preference = match phy_preference {
                    Some(bits) => Some(bits & phy),
                    None => Some(phy),
                };
            }
            i = i + 1;
        }
        assert(answers.take(i as int) =~= answers);
        Ok(
            DevicePreference {
                min_delay_us,
                max_delay_us,
                presentation_delay_us,
                retransmissions,
                max_transport_latency_ms,
                phy_preference,
            },
        )
    }
}

/// No endpoint is asked for less retransmission than it recommends, nor for
/// more transport latency than it supports.
pub proof fn every_endpoint_is_heard(answers: Seq<PreferredQos>, i: int)
    requires
        0 <= i < answers.len(),
    ensures
        answers[i].retransmission_preference > 0 ==> (recommended(answers) matches Some(count)
            && count >= answers[i].retransmission_preference),
        answers[i].max_transport_latency_ms > 0 ==> (ceiling(answers) matches Some(limit)
            && limit <= answers[i].max_transport_latency_ms),
    decreases answers.len(),
{
    if i < answers.len() - 1 {
        every_endpoint_is_heard(answers.drop_last(), i);
    }
}

/// The presentation delay that is asked for.
pub open spec fn delay_asked(plan: StreamPlan, gaming: bool, custom: bool) -> u32 {
    if gaming && !custom {
        0
    } else {
        plan.qos.presentation_delay_us
    }
}

/// The presentation delay that is asked for: the shortest the device supports
/// for an automatic gaming stream, else what the plan says.
pub fn desired_delay(plan: &StreamPlan, gaming: bool, custom: bool) -> (delay: u32)
    ensures
        delay == delay_asked(*plan, gaming, custom),
{
    if gaming && !custom {
        0
    } else {
        plan.qos.presentation_delay_us
    }
}

/// A plan brought to what the headphones prefer, or why that cannot be done.
pub open spec fn adapted(plan: StreamPlan, wanted: DevicePreference, custom: bool) -> Result<
    StreamPlan,
    Seq<char>,
> {
    let asked = plan.qos.presentation_delay_us;
    let asked_latency = plan.qos.max_transport_latency_ms;
    if custom && !(wanted.min_delay_us <= asked <= wanted.max_delay_us) {
        Err(
            "device rejected the custom configuration: presentation delay must be "@
                + milliseconds_text(wanted.min_delay_us) + "–"@ + milliseconds_text(
                wanted.max_delay_us,
            ) + " ms"@,
        )
    } else if custom && exceeds(asked_latency, wanted.max_transport_latency_ms) {
        Err(
            "custom transport latency exceeds headset limit of "@ + decimal(
                wanted.max_transport_latency_ms->0 as nat,
            ) + " ms"@,
        )
    } else {
        Ok(
            StreamPlan {
                qos: crate::bap::QosConfiguration {
                    presentation_delay_us: wanted.presentation_delay_us,
                    retransmission_number: match wanted.retransmissions {
                        Some(count) => if custom {
                            plan.qos.retransmission_number
                        } else {
                            count
                        },
                        None => plan.qos.retransmission_number,
                    },
                    max_transport_latency_ms: if exceeds(
                        asked_latency,
                        wanted.max_transport_latency_ms,
                    ) {
                        wanted.max_transport_latency_ms->0
                    } else {
                        asked_latency
                    },
                    ..plan.qos
                },
                ..plan
            },
        )
    }
}

/// Whether a latency is longer than a limit allows.
pub open spec fn exceeds(latency: u16, limit: Option<u16>) -> bool {
    limit matches Some(most) && latency > most
}

/// What a plan became, or why there is none.
pub open spec fn plan_view(outcome: Result<StreamPlan, String>) -> Result<StreamPlan, Seq<char>> {
    match outcome {
        Ok(plan) => Ok(plan),
        Err(text) => Err(text@),
    }
}

/// Brings a plan to what the headphones prefer.
///
/// The radio numbers are taken from the device for the same reason as the delay:
/// they are what its firmware was tuned around. Not so for a custom stream.
/// There the user is driving, and a control that silently overrides itself is
/// worse than no control; what the device cannot do is refused instead. The
/// transport latency is a ceiling, not a preference: asking for longer than the
/// server supports is a configuration it can only refuse.
pub fn apply_preferences(plan: &StreamPlan, wanted: &DevicePreference, custom: bool) -> (outcome:
    Result<StreamPlan, String>)
    ensures
        plan_view(outcome) == adapted(*plan, *wanted, custom),
{
    let asked = plan.qos.presentation_delay_us;
    let mut plan = *plan;
    if custom && (asked < wanted.min_delay_us || asked > wanted.max_delay_us) {
        let mut text = String::from_str(
            "device rejected the custom configuration: presentation delay must be ",
        );
        push_milliseconds(&mut text, wanted.min_delay_us);
        text.append("–");
        push_milliseconds(&mut text, wanted.max_delay_us);
        text.append(" ms");
        return Err(text);
    }
    plan.qos.presentation_delay_us = wanted.presentation_delay_us;
    if !custom {
        if let Some(count) = wanted.retransmissions {
            plan.qos.retransmission_number = count;
        }
    }
    if let Some(limit) = wanted.max_transport_latency_ms {
        if plan.qos.max_transport_latency_ms > limit {
            if custom {
                let mut text = String::from_str(
                    "custom transport latency exceeds headset limit of ",
                );
                push_decimal(&mut text, limit as u64);
                text.append(" ms");
                return Err(text);
            }
            plan.qos.max_transport_latency_ms = limit;
        }
    }
    Ok(plan)
}

/// What the user typed is either sent as it is or refused, never changed behind
/// their back.
pub proof fn a_custom_plan_is_never_changed(plan: StreamPlan, answers: Seq<PreferredQos>)
    requires
        adapted(
            plan,
            preference_of(answers, plan.qos.presentation_delay_us, false),
            true,
        ) is Ok,
    ensures
        adapted(plan, preference_of(answers, plan.qos.presentation_delay_us, false), true) == Ok::<
            StreamPlan,
            Seq<char>,
        >(plan),
{
    crate::negotiation::a_valid_custom_delay_is_kept(answers, plan.qos.presentation_delay_us);
}

/// A plan is never sent with more latency than the headphones support.
pub proof fn the_ceiling_is_respected(
    plan: StreamPlan,
    wanted: DevicePreference,
    custom: bool,
)
    requires
        adapted(plan, wanted, custom) is Ok,
    ensures
        wanted.max_transport_latency_ms matches Some(limit) ==> adapted(
            plan,
            wanted,
            custom,
        )->Ok_0.qos.max_transport_latency_ms <= limit,
{
}

/// The microphone's half of a stream brought to what its endpoint prefers, or
/// why that cannot be done.
pub open spec fn adapted_microphone(mic: MicrophonePlan, preferred: PreferredQos) -> Result<
    MicrophonePlan,
    Seq<char>,
> {
    if preferred.presentation_delay_min_us > preferred.presentation_delay_max_us {
        Err("the channels have no common presentation delay"@)
    } else if preferred.framing != 0 {
        Err("microphone requires framed ISO, which is not supported"@)
    } else {
        let limit = preferred.max_transport_latency_ms;
        Ok(
            MicrophonePlan {
                qos: crate::bap::QosConfiguration {
                    presentation_delay_us: agreed_delay(
                        seq![preferred],
                        mic.qos.presentation_delay_us,
                        true,
                    ),
                    max_transport_latency_ms: if 0 < limit < mic.qos.max_transport_latency_ms {
                        limit
                    } else {
                        mic.qos.max_transport_latency_ms
                    },
                    ..mic.qos
                },
                ..mic
            },
        )
    }
}

/// What the microphone's half became, or why there is none.
pub open spec fn microphone_view(outcome: Result<MicrophonePlan, String>) -> Result<
    MicrophonePlan,
    Seq<char>,
> {
    match outcome {
        Ok(mic) => Ok(mic),
        Err(text) => Err(text@),
    }
}

/// Brings the microphone's half of a stream to what its endpoint prefers.
pub fn apply_microphone_preference(mic: &MicrophonePlan, preferred: &PreferredQos) -> (outcome:
    Result<MicrophonePlan, String>)
    ensures
        microphone_view(outcome) == adapted_microphone(*mic, *preferred),
{
    let answers: [PreferredQos; 1] = [*preferred];
    proof {
        assert(answers@ =~= seq![*preferred]);
        assert(answers@.drop_last() =~= Seq::<PreferredQos>::empty());
        reveal_with_fuel(common_min, 2);
        reveal_with_fuel(common_max, 2);
    }
    let delay = match presentation_delay(&answers, mic.qos.presentation_delay_us, true) {
        Ok(delay) => delay,
        Err(error) => return Err(error),
    };
    if preferred.framing != 0 {
        return Err(String::from_str("microphone requires framed ISO, which is not supported"));
    }
    let mut mic = *mic;
    mic.qos.presentation_delay_us = delay;
    let limit = preferred.max_transport_latency_ms;
    if limit > 0 && limit < mic.qos.max_transport_latency_ms {
        mic.qos.max_transport_latency_ms = limit;
    }
    Ok(mic)
}

// ---- The order of the steps ----

/// Where the building of a stream stands: the step that is under way.
#[derive(Debug, Clone, Copy, PartialEq, Eq, Structural)]
pub enum Step {
    /// Listening for the control point's responses.
    Subscribing,
    /// Handing back whatever endpoints an earlier host left configured. Those
    /// hold isochronous budget the streams actually wanted are then short of.
    ReleasingOld,
    ConfiguringCodec,
    /// The device answers by publishing the QoS it prefers.
    AskingForQos,
    AskingMicrophone,
    Validating,
    /// The controller accepts the group.
    PreparingGroup,
    WritingQos,
    /// Every endpoint confirms what was written.
    ConfirmingQos,
    Enabling,
    Establishing,
    /// Every endpoint can be read.
    CountingEndpoints,
    /// A Source endpoint waits for the client to confirm that its path is ready.
    StartingReceiver,
    /// Every endpoint reaches Streaming. With one still Enabling, some headphones
    /// render the surviving channel into both ears.
    ConfirmingStreaming,
    Playing,
    Ended,
}

/// How a step ended.
#[derive(Debug)]
pub enum StepEnd {
    Done,
    /// Only some of the channels came up, described by this text.
    Partial(String),
    Failed(String),
}

/// How a step ended.
pub enum StepEnded {
    Done,
    Partial(Seq<char>),
    Failed(Seq<char>),
}

impl View for StepEnd {
    type V = StepEnded;

    open spec fn view(&self) -> StepEnded {
        match *self {
            StepEnd::Done => StepEnded::Done,
            StepEnd::Partial(text) => StepEnded::Partial(text@),
            StepEnd::Failed(text) => StepEnded::Failed(text@),
        }
    }
}

/// What follows a step.
#[derive(Debug)]
pub enum StepOrder {
    Go(Step),
    /// Give back what was taken, as far as it was taken, and report the text.
    /// The group that was prepared on the controller is given back on every stop.
    Stop { release_endpoints: bool, release_channels: bool, release_group: bool, text: String },
}

/// What follows a step.
pub enum StepOrdered {
    Go(Step),
    Stop { release_endpoints: bool, release_channels: bool, release_group: bool, text: Seq<char> },
}

impl View for StepOrder {
    type V = StepOrdered;

    open spec fn view(&self) -> StepOrdered {
        match *self {
            StepOrder::Go(step) => StepOrdered::Go(step),
            StepOrder::Stop { release_endpoints, release_channels, release_group, text } => {
                StepOrdered::Stop {
                    release_endpoints,
                    release_channels,
                    release_group,
                    text: text@,
                }
            },
        }
    }
}

/// Building one stream.
#[derive(Debug, Clone, Copy, PartialEq, Eq, Structural)]
pub struct StreamSetup {
    pub step: Step,
    /// Whether the stream has a microphone half.
    pub microphone: bool,
}

/// The step after a step that went well.
pub open spec fn step_after(step: Step, microphone: bool) -> Step {
    match step {
        Step::Subscribing => Step::ReleasingOld,
        Step::ReleasingOld => Step::ConfiguringCodec,
        Step::ConfiguringCodec => Step::AskingForQos,
        Step::AskingForQos => if microphone {
            Step::AskingMicrophone
        } else {
            Step::Validating
        },
        Step::AskingMicrophone => Step::Validating,
        Step::Validating => Step::PreparingGroup,
        Step::PreparingGroup => Step::WritingQos,
        Step::WritingQos => Step::ConfirmingQos,
        Step::ConfirmingQos => Step::Enabling,
        Step::Enabling => Step::Establishing,
        Step::Establishing => Step::CountingEndpoints,
        Step::CountingEndpoints => if microphone {
            Step::StartingReceiver
        } else {
            Step::ConfirmingStreaming
        },
        Step::StartingReceiver => Step::ConfirmingStreaming,
        Step::ConfirmingStreaming => Step::Playing,
        Step::Playing => Step::Ended,
        Step::Ended => Step::Ended,
    }
}

/// The text of an error under the step it came from.
pub open spec fn step_failure(step: Step, error: Seq<char>) -> Seq<char> {
    match step {
        Step::Subscribing => "ASCS response subscription failed: "@ + error,
        Step::ConfiguringCodec => "konfigurace kodeku selhala: "@ + error,
        Step::Validating => "device rejected the custom configuration: "@ + error,
        Step::PreparingGroup => "stream could not be scheduled: "@ + error,
        Step::WritingQos => "QoS write failed: "@ + error,
        Step::Enabling => "Enable failed: "@ + error,
        Step::Establishing => "isochronous channels could not be established: "@ + error,
        _ => error,
    }
}

/// The text of a group of which only some channels came up.
pub open spec fn partial_failure(summary: Seq<char>) -> Seq<char> {
    "headphones did not establish every channel ("@ + summary + "); retrying the connection"@
}

impl StreamSetup {
    /// What follows the end of a step.
    pub open spec fn next(self, ended: StepEnded) -> (StreamSetup, StepOrdered) {
        let stop = |text: Seq<char>|
            (
                StreamSetup { step: Step::Ended, ..self },
                StepOrdered::Stop {
                    release_endpoints: !(self.step is Subscribing),
                    release_channels: self.step is Establishing,
                    release_group: true,
                    text,
                },
            );
        match ended {
            StepEnded::Done => (
                StreamSetup { step: step_after(self.step, self.microphone), ..self },
                StepOrdered::Go(step_after(self.step, self.microphone)),
            ),
            StepEnded::Partial(summary) => stop(partial_failure(summary)),
            StepEnded::Failed(text) => stop(step_failure(self.step, text)),
        }
    }

    pub fn new(microphone: bool) -> (setup: Self)
        ensures
            setup == (StreamSetup { step: Step::Subscribing, microphone }),
    {
        StreamSetup { step: Step::Subscribing, microphone }
    }

    fn stop(&mut self, text: String) -> (order: StepOrder)
        ensures
            *final(self) == (StreamSetup { step: Step::Ended, ..*old(self) }),
            order@ == (StepOrdered::Stop {
                release_endpoints: !(old(self).step is Subscribing),
                release_channels: old(self).step is Establishing,
                release_group: true,
                text: text@,
            }),
    {
        let release_endpoints = match self.step {
            Step::Subscribing => false,
            _ => true,
        };
        let release_channels = match self.step {
            Step::Establishing => true,
            _ => false,
        };
        self.step = Step::Ended;
        StepOrder::Stop { release_endpoints, release_channels, release_group: true, text }
    }

    fn explain(&self, error: &str) -> (text: String)
        ensures
            text@ == step_failure(self.step, error@),
    {
        let prefix = match self.step {
            Step::Subscribing => "ASCS response subscription failed: ",
            Step::ConfiguringCodec => "konfigurace kodeku selhala: ",
            Step::Validating => "device rejected the custom configuration: ",
            Step::PreparingGroup => "stream could not be scheduled: ",
            Step::WritingQos => "QoS write failed: ",
            Step::Enabling => "Enable failed: ",
            Step::Establishing => "isochronous channels could not be established: ",
            _ => return String::from_str(error),
        };
        let mut text = String::from_str(prefix);
        text.append(error);
        text
    }

    /// Decides what follows the end of a step.
    ///
    /// The controller accepts the group, then the server confirms QoS, then
    /// Enable and the channels: one transaction in both modes, one shape, driven
    /// by what this device published and nothing else. A device that refuses it
    /// is telling something real. Retrying the whole connection cleanly is both
    /// faster and honest; guessing at parameters is not.
    pub fn advance(&mut self, ending: StepEnd) -> (order: StepOrder)
        ensures
            (*final(self), order@) == old(self).next(ending@),
    {
        match ending {
            StepEnd::Done => {
                self.step = match self.step {
                    Step::Subscribing => Step::ReleasingOld,
                    Step::ReleasingOld => Step::ConfiguringCodec,
                    Step::ConfiguringCodec => Step::AskingForQos,
                    Step::AskingForQos => if self.microphone {
                        Step::AskingMicrophone
                    } else {
                        Step::Validating
                    },
                    Step::AskingMicrophone => Step::Validating,
                    Step::Validating => Step::PreparingGroup,
                    Step::PreparingGroup => Step::WritingQos,
                    Step::WritingQos => Step::ConfirmingQos,
                    Step::ConfirmingQos => Step::Enabling,
                    Step::Enabling => Step::Establishing,
                    Step::Establishing => Step::CountingEndpoints,
                    Step::CountingEndpoints => if self.microphone {
                        Step::StartingReceiver
                    } else {
                        Step::ConfirmingStreaming
                    },
                    Step::StartingReceiver => Step::ConfirmingStreaming,
                    Step::ConfirmingStreaming => Step::Playing,
                    Step::Playing | Step::Ended => Step::Ended,
                };
                StepOrder::Go(self.step)
            },
            StepEnd::Partial(summary) => {
                let mut text = String::from_str("headphones did not establish every channel (");
                text.append(summary.as_str());
                text.append("); retrying the connection");
                self.stop(text)
            },
            StepEnd::Failed(error) => {
                let text = self.explain(error.as_str());
                self.stop(text)
            },
        }
    }
}

/// Nothing is enabled before every endpoint has confirmed its QoS, no QoS is
/// written before the controller has accepted the group, and no audio is sent
/// before every endpoint has reached Streaming.
pub proof fn every_step_waits_for_the_one_before(setup: StreamSetup, ended: StepEnded)
    ensures
        setup.next(ended).1 == StepOrdered::Go(Step::WritingQos) ==> setup.step
            is PreparingGroup && ended is Done,
        setup.next(ended).1 == StepOrdered::Go(Step::Enabling) ==> setup.step is ConfirmingQos
            && ended is Done,
        setup.next(ended).1 == StepOrdered::Go(Step::Playing) ==> setup.step
            is ConfirmingStreaming && ended is Done,
{
}

/// Whatever goes wrong after the endpoints were touched, they are handed back.
pub proof fn a_failed_stream_is_handed_back(setup: StreamSetup, ended: StepEnded)
    requires
        !(setup.step is Subscribing),
        !(ended is Done),
    ensures
        setup.next(ended).1 is Stop,
        setup.next(ended).1->release_endpoints,
{
}

/// Every stop gives the prepared group back, whichever step it came from, so that
/// the next attempt starts from nothing. Only a failure stops a stream.
pub proof fn every_stop_gives_the_group_back(setup: StreamSetup, ended: StepEnded)
    ensures
        setup.next(ended).1 is Stop <==> !(ended is Done),
        setup.next(ended).1 is Stop ==> setup.next(ended).1->release_group,
{
}

/// What is given back after an attempt at a stream.
#[derive(Debug)]
pub struct HandedBack {
    /// The endpoints to release, and the control point to release them through.
    pub endpoints: Option<(u16, Vec<u8>)>,
    /// Whether the group prepared on the controller is removed.
    pub group: bool,
}

/// Decides what is given back after an attempt at a stream, and forgets the
/// endpoints that were configured.
///
/// After a failed attempt the prepared group always goes, for as long as there
/// is an adapter to ask; the endpoints go too where the control point is known.
/// An attempt that ended well has given back what it took by itself.
pub fn hand_back(
    failed: bool,
    adapter_on: bool,
    control_point: Option<u16>,
    configured: &mut Vec<u8>,
) -> (back: HandedBack)
    ensures
        back.group == (failed && adapter_on),
        match back.endpoints {
            Some((point, ases)) => failed && adapter_on && control_point == Some(point) && ases@
                == old(configured)@,
            None => !(failed && adapter_on && control_point is Some),
        },
        final(configured)@ == if failed && adapter_on {
            Seq::<u8>::empty()
        } else {
            old(configured)@
        },
{
    if !failed || !adapter_on {
        return HandedBack { endpoints: None, group: false };
    }
    let mut taken: Vec<u8> = Vec::new();
    std::mem::swap(&mut taken, configured);
    let endpoints = match control_point {
        Some(point) => Some((point, taken)),
        None => None,
    };
    HandedBack { endpoints, group: true }
}

/// A plan that the stack itself refuses, or that the controller cannot
/// schedule, is not tried again: reconnecting cannot make it fit.
pub proof fn an_impossible_plan_is_not_retried(error: Seq<char>)
    ensures
        crate::reconnect::is_deterministic(step_failure(Step::Validating, error)),
        crate::reconnect::is_deterministic(step_failure(Step::PreparingGroup, error)),
{
    reveal_strlit("device rejected the custom configuration:");
    reveal_strlit("device rejected the custom configuration: ");
    reveal_strlit("stream could not be scheduled:");
    reveal_strlit("stream could not be scheduled: ");
    let refused = step_failure(Step::Validating, error);
    assert(refused.take("device rejected the custom configuration:"@.len() as int)
        =~= "device rejected the custom configuration:"@);
    let unscheduled = step_failure(Step::PreparingGroup, error);
    assert(unscheduled.take("stream could not be scheduled:"@.len() as int)
        =~= "stream could not be scheduled:"@);
}

/// Checks that every Sink endpoint of a stream can be read.
pub fn count_endpoints(readable: usize, selected: usize) -> (outcome: Result<(), String>)
    ensures
        if readable == selected {
            outcome is Ok
        } else {
            outcome matches Err(message) && message@ == "stereo stream cannot be verified: found "@
                + decimal(readable as nat) + " of "@ + decimal(selected as nat)
                + " Sink ASE characteristics"@
        },
{
    if readable == selected {
        return Ok(());
    }
    let mut text = String::from_str("stereo stream cannot be verified: found ");
    push_decimal(&mut text, readable as u64);
    text.append(" of ");
    push_decimal(&mut text, selected as u64);
    text.append(" Sink ASE characteristics");
    Err(text)
}

/// What is said of a microphone whose state cannot be read.
pub fn unreadable_microphone(ase_id: u8) -> (text: String)
    ensures
        text@ == "microphone cannot be verified: Source ASE "@ + decimal(ase_id as nat)
            + " has no readable state characteristic"@,
{
    let mut text = String::from_str("microphone cannot be verified: Source ASE ");
    push_decimal(&mut text, ase_id as u64);
    text.append(" has no readable state characteristic");
    text
}

/// The rate of a codec, with a fallback for a code that has none.
pub open spec fn rate_of(codec: CodecConfiguration, fallback: u32) -> u32 {
    match code_hz(codec.sampling_frequency.0) {
        Some(hz) => hz,
        None => fallback,
    }
}

/// The one-line description of a running stream.
pub open spec fn stream_text(plan: StreamPlan, channels: nat) -> Seq<char> {
    decimal(rate_of(plan.codec, 0) as nat) + " Hz · "@ + milliseconds_text(
        plan.qos.sdu_interval_us,
    ) + " ms · "@ + decimal(plan.codec.octets_per_frame as nat) + " B/channel · "@ + decimal(
        channels,
    ) + " CIS · PHY "@ + decimal(plan.qos.phy as nat) + "M · RTN "@ + decimal(
        plan.qos.retransmission_number as nat,
    ) + " · transport ≤"@ + decimal(plan.qos.max_transport_latency_ms as nat)
        + " ms · presentation "@ + milliseconds_text(plan.qos.presentation_delay_us) + " ms"@
}

/// Describes a running stream in one line.
pub fn describe_stream(plan: &StreamPlan, channels: usize) -> (text: String)
    ensures
        text@ == stream_text(*plan, channels as nat),
{
    let mut text = String::new();
    let hz = match plan.codec.sampling_frequency.hz() {
        Some(hz) => hz,
        None => 0,
    };
    push_decimal(&mut text, hz as u64);
    text.append(" Hz · ");
    push_milliseconds(&mut text, plan.qos.sdu_interval_us);
    text.append(" ms · ");
    push_decimal(&mut text, plan.codec.octets_per_frame as u64);
    text.append(" B/channel · ");
    push_decimal(&mut text, channels as u64);
    text.append(" CIS · PHY ");
    push_decimal(&mut text, plan.qos.phy as u64);
    text.append("M · RTN ");
    push_decimal(&mut text, plan.qos.retransmission_number as u64);
    text.append(" · transport ≤");
    push_decimal(&mut text, plan.qos.max_transport_latency_ms as u64);
    text.append(" ms · presentation ");
    push_milliseconds(&mut text, plan.qos.presentation_delay_us);
    text.append(" ms");
    assert(text@ =~= stream_text(*plan, channels as nat));
    text
}

/// What an endpoint asked for, in one line.
pub open spec fn wish_text(ase_id: u8, answer: PreferredQos) -> Seq<char> {
    "  ASE "@ + decimal(ase_id as nat) + " requests "@ + decimal(
        answer.presentation_delay_min_us as nat,
    ) + "-"@ + decimal(answer.presentation_delay_max_us as nat) + " µs delay, prefers "@ + decimal(
        answer.preferred_delay_min_us as nat,
    ) + " µs, RTN "@ + decimal(answer.retransmission_preference as nat) + ", latency "@ + decimal(
        answer.max_transport_latency_ms as nat,
    ) + " ms"@
}

/// Describes what an endpoint asked for in one line.
pub fn describe_wish(ase_id: u8, answer: &PreferredQos) -> (text: String)
    ensures
        text@ == wish_text(ase_id, *answer),
{
    let mut text = String::from_str("  ASE ");
    push_decimal(&mut text, ase_id as u64);
    text.append(" requests ");
    push_decimal(&mut text, answer.presentation_delay_min_us as u64);
    text.append("-");
    push_decimal(&mut text, answer.presentation_delay_max_us as u64);
    text.append(" µs delay, prefers ");
    push_decimal(&mut text, answer.preferred_delay_min_us as u64);
    text.append(" µs, RTN ");
    push_decimal(&mut text, answer.retransmission_preference as u64);
    text.append(", latency ");
    push_decimal(&mut text, answer.max_transport_latency_ms as u64);
    text.append(" ms");
    text
}

/// The codec an endpoint confirmed, in one line.
pub open spec fn verified_text(ase_id: u8, codec: CodecConfiguration) -> Seq<char> {
    "  ASE "@ + decimal(ase_id as nat) + " codec verified: "@ + decimal(rate_of(codec, 0) as nat)
        + " Hz, "@ + decimal(codec.frame_duration.us() as nat) + " us, "@ + decimal(
        codec.octets_per_frame as nat,
    ) + " octets, allocation 0x"@ + hex(codec.channel_allocation as nat, 8)
}

/// Describes the codec an endpoint confirmed in one line.
pub fn describe_verified(ase_id: u8, codec: &CodecConfiguration) -> (text: String)
    ensures
        text@ == verified_text(ase_id, *codec),
{
    let hz = match codec.sampling_frequency.hz() {
        Some(hz) => hz,
        None => 0,
    };
    let mut text = String::from_str("  ASE ");
    push_decimal(&mut text, ase_id as u64);
    text.append(" codec verified: ");
    push_decimal(&mut text, hz as u64);
    text.append(" Hz, ");
    push_decimal(&mut text, codec.frame_duration.microseconds() as u64);
    text.append(" us, ");
    push_decimal(&mut text, codec.octets_per_frame as u64);
    text.append(" octets, allocation 0x");
    push_hex(&mut text, codec.channel_allocation as u64, 8);
    text
}

/// The combination that published limits are about.
pub open spec fn combination_text(plan: StreamPlan) -> Seq<char> {
    decimal(rate_of(plan.codec, 0) as nat) + " Hz / "@ + milliseconds_text(
        plan.codec.frame_duration.us(),
    ) + " ms / "@ + decimal(plan.codec.octets_per_frame as nat) + " B / "@ + decimal(
        plan.qos.phy as nat,
    ) + "M"@
}

/// Describes the combination that published limits are about.
pub fn describe_combination(plan: &StreamPlan) -> (text: String)
    ensures
        text@ == combination_text(*plan),
{
    let hz = match plan.codec.sampling_frequency.hz() {
        Some(hz) => hz,
        None => 0,
    };
    let mut text = String::new();
    push_decimal(&mut text, hz as u64);
    text.append(" Hz / ");
    push_milliseconds(&mut text, plan.codec.frame_duration.microseconds());
    text.append(" ms / ");
    push_decimal(&mut text, plan.codec.octets_per_frame as u64);
    text.append(" B / ");
    push_decimal(&mut text, plan.qos.phy as u64);
    text.append("M");
    assert(text@ =~= combination_text(*plan));
    text
}

/// Where the audio of an endpoint goes, in one line.
pub open spec fn side_line(endpoint: Endpoint) -> Seq<char> {
    "  ASE "@ + decimal(endpoint.ase_id as nat) + " → "@ + side_text(endpoint.allocation) + " (0x"@
        + hex(endpoint.allocation as nat, 8) + ")"@
}

/// Describes in one line where the audio of an endpoint goes. Which ear each
/// stream claims is the one thing that cannot be checked by listening: getting it
/// wrong sounds like a codec fault rather than a routing one.
pub fn describe_side(endpoint: &Endpoint) -> (text: String)
    ensures
        text@ == side_line(*endpoint),
{
    let mut text = String::from_str("  ASE ");
    push_decimal(&mut text, endpoint.ase_id as u64);
    text.append(" → ");
    text.append(side_name(endpoint.allocation).as_str());
    text.append(" (0x");
    push_hex(&mut text, endpoint.allocation as u64, 8);
    text.append(")");
    text
}

/// Says through which handle a stream is set up, and from which preset.
pub fn describe_start(control_point: u16, label: &str) -> (text: String)
    ensures
        text@ == "ASE control point 0x"@ + hex(control_point as nat, 4) + ", preset "@ + label@,
{
    let mut text = String::from_str("ASE control point 0x");
    push_hex(&mut text, control_point as u64, 4);
    text.append(", preset ");
    text.append(label);
    text
}

/// Says which microphones a stream uses: the headset's, and the computer's.
pub fn describe_microphones(headset: bool, monitor: bool) -> (lines: (&'static str, &'static str))
    ensures
        lines.0@ == if headset {
            "headset microphone enabled"@
        } else {
            "headset microphone disabled"@
        },
        lines.1@ == if monitor {
            "monitoring enabled according to settings"@
        } else {
            "monitoring disabled; no PC microphone is opened"@
        },
{
    (
        if headset {
            "headset microphone enabled"
        } else {
            "headset microphone disabled"
        },
        if monitor {
            "monitoring enabled according to settings"
        } else {
            "monitoring disabled; no PC microphone is opened"
        },
    )
}

/// Said of a delay that the headphones chose instead of the plan's.
pub open spec fn delay_line(own: u32, asked: u32) -> Seq<char> {
    "headphones request "@ + decimal((own / 1000) as nat) + " ms delay instead of "@ + decimal(
        (asked / 1000) as nat,
    ) + " ms; using their value"@
}

/// Said of a number of retransmissions that the headphones recommend instead of
/// the plan's.
pub open spec fn retransmissions_line(own: u8, asked: u8) -> Seq<char> {
    "headphones recommend "@ + decimal(own as nat) + " retransmissions instead of "@ + decimal(
        asked as nat,
    ) + "; using theirs"@
}

/// Said of a transport latency that is longer than the headphones support.
pub open spec fn latency_line(limit: u16, asked: u16) -> Seq<char> {
    "headphones support at most "@ + decimal(limit as nat) + " ms transport latency, not "@
        + decimal(asked as nat) + "; using theirs"@
}

/// A line, where there is something to say.
pub open spec fn line_if(said: bool, line: Seq<char>) -> Seq<Seq<char>> {
    if said {
        seq![line]
    } else {
        Seq::empty()
    }
}

/// What is said of the values taken from the headphones in place of the plan's.
/// Nothing is said of a custom stream whose delay they refuse, and of any custom
/// stream nothing but the delay.
pub open spec fn adopted_lines(plan: StreamPlan, wanted: DevicePreference, custom: bool) -> Seq<
    Seq<char>,
> {
    let asked = plan.qos.presentation_delay_us;
    let refused = custom && !(wanted.min_delay_us <= asked <= wanted.max_delay_us);
    let count = plan.qos.retransmission_number;
    let latency = plan.qos.max_transport_latency_ms;
    line_if(
        !refused && wanted.presentation_delay_us != asked,
        delay_line(wanted.presentation_delay_us, asked),
    ) + line_if(
        !custom && wanted.retransmissions is Some && wanted.retransmissions->0 != count,
        retransmissions_line(wanted.retransmissions->0, count),
    ) + line_if(
        !custom && exceeds(latency, wanted.max_transport_latency_ms),
        latency_line(wanted.max_transport_latency_ms->0, latency),
    )
}

/// Says which values are taken from the headphones in place of the plan's.
pub fn describe_adopted(plan: &StreamPlan, wanted: &DevicePreference, custom: bool) -> (lines: Vec<
    String,
>)
    ensures
        text_views(lines@) == adopted_lines(*plan, *wanted, custom),
{
    let mut lines: Vec<String> = Vec::new();
    let asked = plan.qos.presentation_delay_us;
    let refused = custom && (asked < wanted.min_delay_us || asked > wanted.max_delay_us);
    if !refused && wanted.presentation_delay_us != asked {
        let mut text = String::from_str("headphones request ");
        push_decimal(&mut text, (wanted.presentation_delay_us / 1000) as u64);
        text.append(" ms delay instead of ");
        push_decimal(&mut text, (asked / 1000) as u64);
        text.append(" ms; using their value");
        lines.push(text);
    }
    let ghost first = line_if(
        !refused && wanted.presentation_delay_us != asked,
        delay_line(wanted.presentation_delay_us, asked),
    );
    assert(text_views(lines@) =~= first);
    let count = plan.qos.retransmission_number;
    if !custom {
        if let Some(own) = wanted.retransmissions {
            if own != count {
                let mut text = String::from_str("headphones recommend ");
                push_decimal(&mut text, own as u64);
                text.append(" retransmissions instead of ");
                push_decimal(&mut text, count as u64);
                text.append("; using theirs");
                lines.push(text);
            }
        }
    }
    let ghost second = line_if(
        !custom && wanted.retransmissions is Some && wanted.retransmissions->0 != count,
        retransmissions_line(wanted.retransmissions->0, count),
    );
    assert(text_views(lines@) =~= first + second);
    let latency = plan.qos.max_transport_latency_ms;
    if !custom {
        if let Some(limit) = wanted.max_transport_latency_ms {
            if latency > limit {
                let mut text = String::from_str("headphones support at most ");
                push_decimal(&mut text, limit as u64);
                text.append(" ms transport latency, not ");
                push_decimal(&mut text, latency as u64);
                text.append("; using theirs");
                lines.push(text);
            }
        }
    }
    assert(text_views(lines@) =~= adopted_lines(*plan, *wanted, custom));
    lines
}

/// Nothing of an automatic plan's timing changes without being said: where no
/// line is written, the plan goes out as it was.
pub proof fn no_value_is_adopted_in_silence(plan: StreamPlan, wanted: DevicePreference)
    ensures
        adapted(plan, wanted, false) == Ok::<StreamPlan, Seq<char>>(plan) <==> adopted_lines(
            plan,
            wanted,
            false,
        ).len() == 0,
{
    let qos = adapted(plan, wanted, false)->Ok_0.qos;
    if adopted_lines(plan, wanted, false).len() == 0 {
        assert(qos == plan.qos);
    }
}

/// The values that every endpoint confirmed, in one line.
pub open spec fn confirmed_text(plan: StreamPlan) -> Seq<char> {
    "QoS confirmed on every ASE: "@ + decimal(rate_of(plan.codec, 0) as nat) + " Hz, "@ + decimal(
        plan.qos.sdu_interval_us as nat,
    ) + " us frames, "@ + decimal(plan.codec.octets_per_frame as nat) + " B/channel, PHY "@
        + decimal(plan.qos.phy as nat) + ", RTN "@ + decimal(plan.qos.retransmission_number as nat)
        + ", transport ceiling "@ + decimal(plan.qos.max_transport_latency_ms as nat)
        + " ms, presentation "@ + decimal(plan.qos.presentation_delay_us as nat) + " us"@
}

/// Describes the values that every endpoint confirmed in one line.
pub fn describe_confirmed(plan: &StreamPlan) -> (text: String)
    ensures
        text@ == confirmed_text(*plan),
{
    let hz = match plan.codec.sampling_frequency.hz() {
        Some(hz) => hz,
        None => 0,
    };
    let mut text = String::from_str("QoS confirmed on every ASE: ");
    push_decimal(&mut text, hz as u64);
    text.append(" Hz, ");
    push_decimal(&mut text, plan.qos.sdu_interval_us as u64);
    text.append(" us frames, ");
    push_decimal(&mut text, plan.codec.octets_per_frame as u64);
    text.append(" B/channel, PHY ");
    push_decimal(&mut text, plan.qos.phy as u64);
    text.append(", RTN ");
    push_decimal(&mut text, plan.qos.retransmission_number as u64);
    text.append(", transport ceiling ");
    push_decimal(&mut text, plan.qos.max_transport_latency_ms as u64);
    text.append(" ms, presentation ");
    push_decimal(&mut text, plan.qos.presentation_delay_us as u64);
    text.append(" us");
    text
}

/// Says that every channel came up. `summary` describes the channels.
pub fn describe_established(summary: &str) -> (text: String)
    ensures
        text@ == "radio channels established: "@ + summary@
            + "; checking headphone Streaming state next"@,
{
    let mut text = String::from_str("radio channels established: ");
    text.append(summary);
    text.append("; checking headphone Streaming state next");
    text
}

/// The channel that an endpoint streams over, in one line.
pub open spec fn streaming_text(endpoint: Endpoint, cig: u8, cis: nat, handle: u16) -> Seq<char> {
    "ASE "@ + decimal(endpoint.ase_id as nat) + ": Streaming confirmed, CIG "@ + decimal(cig as nat)
        + ", CIS "@ + decimal(cis) + ", handle 0x"@ + hex(handle as nat, 4) + ", allocation 0x"@
        + hex(endpoint.allocation as nat, 8)
}

/// Describes the channel that an endpoint streams over in one line.
pub fn describe_streaming(endpoint: &Endpoint, cig: u8, cis: usize, handle: u16) -> (text: String)
    ensures
        text@ == streaming_text(*endpoint, cig, cis as nat, handle),
{
    let mut text = String::from_str("ASE ");
    push_decimal(&mut text, endpoint.ase_id as u64);
    text.append(": Streaming confirmed, CIG ");
    push_decimal(&mut text, cig as u64);
    text.append(", CIS ");
    push_decimal(&mut text, cis as u64);
    text.append(", handle 0x");
    push_hex(&mut text, handle as u64, 4);
    text.append(", allocation 0x");
    push_hex(&mut text, endpoint.allocation as u64, 8);
    text
}

/// A microphone that is streaming, in one line.
pub open spec fn microphone_text(microphone: MicrophonePlan) -> Seq<char> {
    "microphone Source ASE "@ + decimal(microphone.ase_id as nat) + " active: "@ + decimal(
        rate_of(microphone.codec, 0) as nat,
    ) + " Hz, "@ + decimal(microphone.codec.octets_per_frame as nat) + " octets per frame"@
}

/// Describes a microphone that is streaming in one line.
pub fn describe_microphone(microphone: &MicrophonePlan) -> (text: String)
    ensures
        text@ == microphone_text(*microphone),
{
    let hz = match microphone.codec.sampling_frequency.hz() {
        Some(hz) => hz,
        None => 0,
    };
    let mut text = String::from_str("microphone Source ASE ");
    push_decimal(&mut text, microphone.ase_id as u64);
    text.append(" active: ");
    push_decimal(&mut text, hz as u64);
    text.append(" Hz, ");
    push_decimal(&mut text, microphone.codec.octets_per_frame as u64);
    text.append(" octets per frame");
    text
}

// ---- What a stream needs before it can be built ----

/// What is there when a stream is about to be built.
#[derive(Debug, Clone, Copy, PartialEq, Eq, Structural)]
pub struct Prerequisites {
    /// Whether a device is connected.
    pub device: bool,
    /// Whether its link is open.
    pub link: bool,
    /// Whether the user has asked to stop meanwhile.
    pub interrupted: bool,
    /// Whether the device's capabilities have been read.
    pub capabilities: bool,
    /// The handle of the control point, where it is known.
    pub control_point: Option<u16>,
    /// Whether the adapter is on.
    pub adapter: bool,
}

/// Looks for what a stream needs, in the order in which it is missed. The answer
/// is the control point to set it up through, or `None` when the user has asked
/// to stop.
pub fn check_prerequisites(there: &Prerequisites) -> (outcome: Result<Option<u16>, &'static str>)
    ensures
        if !there.device {
            outcome matches Err(text) && text@ == "no device is connected"@
        } else if !there.link {
            outcome matches Err(text) && text@ == "connection is not open"@
        } else if there.interrupted {
            outcome matches Ok(point) && point is None
        } else if !there.capabilities {
            outcome matches Err(text) && text@ == "device capabilities have not been loaded"@
        } else if there.control_point is None {
            outcome matches Err(text) && text@ == "ASE control point is unknown"@
        } else if !there.adapter {
            outcome matches Err(text) && text@ == "adapter is off"@
        } else {
            outcome matches Ok(point) && point == there.control_point
        },
{
    if !there.device {
        return Err("no device is connected");
    }
    if !there.link {
        return Err("connection is not open");
    }
    if there.interrupted {
        return Ok(None);
    }
    if !there.capabilities {
        return Err("device capabilities have not been loaded");
    }
    if there.control_point.is_none() {
        return Err("ASE control point is unknown");
    }
    if !there.adapter {
        return Err("adapter is off");
    }
    Ok(there.control_point)
}

/// The handle a microphone's state is read at, or what is said when it has none:
/// while it is being configured, or once it should be streaming.
pub fn microphone_handle(handles: &[(u8, u16)], ase_id: u8, streaming: bool) -> (handle: Result<
    u16,
    &'static str,
>)
    ensures
        if handle_place(handles@, ase_id) < handles@.len() {
            handle == Ok::<u16, &'static str>(handles@[handle_place(handles@, ase_id)].1)
        } else if streaming {
            handle matches Err(text) && text@ == "microphone state is unavailable"@
        } else {
            handle matches Err(text) && text@ == "microphone state characteristic missing"@
        },
{
    match handle_of(handles, ase_id) {
        Some(handle) => Ok(handle),
        None => if streaming {
            Err("microphone state is unavailable")
        } else {
            Err("microphone state characteristic missing")
        },
    }
}

// ---- When the audio ends ----

/// How much audio counts as stable, in microseconds.
pub const STABLE_AUDIO: u64 = 30_000_000;

/// Whether frames of a length in microseconds make up enough audio.
pub open spec fn has_settled(frames: int, interval_us: int) -> bool {
    frames * interval_us >= STABLE_AUDIO
}

/// Whether a stream has played for half a minute.
pub fn is_stable(frames: u64, interval_us: u32) -> (yes: bool)
    ensures
        yes == has_settled(frames as int, interval_us as int),
{
    assert(frames * interval_us <= u64::MAX * u32::MAX) by (nonlinear_arith)
        requires
            0 <= frames <= u64::MAX,
            0 <= interval_us <= u32::MAX,
    ;
    let played: u128 = (frames as u128) * (interval_us as u128);
    played >= STABLE_AUDIO as u128
}

/// How playing ended.
#[derive(Debug)]
pub struct AudioEnd {
    /// The error and its text, if there was one.
    pub error: Option<(SessionError, String)>,
    /// The reason, when the connection itself has gone.
    pub lost: Option<u8>,
    /// Whether the headphones asked to be released.
    pub yielded: bool,
    /// Whether endpoints are configured.
    pub configured: bool,
}

/// What follows the end of playing.
#[derive(Debug)]
pub struct AfterAudio {
    /// Hand the endpoints back.
    pub release_endpoints: bool,
    /// Forget the connection; it has gone.
    pub forget: bool,
    /// The headphones were handed back on request: the rate and the frame length
    /// to listen for sound with.
    pub handed_back: Option<(u32, u32)>,
    /// Tell the app that playback stopped, in these words.
    pub complaint: Option<String>,
    /// Whether the audio is built again over the same connection, or what went
    /// wrong.
    pub rebuild: Result<bool, String>,
}

/// Whether the audio is built again, or what went wrong.
pub open spec fn rebuilds(end: AudioEnd) -> Result<bool, Seq<char>> {
    match end.error {
        None => Ok(false),
        Some(error) => if end.lost is Some {
            Err("playback ended: "@ + error.1@)
        } else if is_adapter_failure(error.0) {
            Err("adapter/transport failure: "@ + error.1@)
        } else {
            Ok(is_audio_loss(error.0))
        },
    }
}

/// What the app is told of an end that is neither a loss nor recoverable.
pub open spec fn complains(end: AudioEnd) -> Option<Seq<char>> {
    match end.error {
        None => None,
        Some(error) => if end.lost is Some || is_adapter_failure(error.0) || is_audio_loss(error.0) {
            None
        } else {
            Some("Playback stopped: "@ + error.1@)
        },
    }
}

/// Whether the endpoints are handed back at the end of playing.
pub open spec fn gives_endpoints_back(end: AudioEnd) -> bool {
    end.configured && end.lost is None
}

/// The rate and the frame length to listen for sound with, once the headphones were
/// handed back.
pub open spec fn listens_with(end: AudioEnd, plan: StreamPlan) -> Option<(u32, u32)> {
    if end.yielded {
        Some((rate_of(plan.codec, 48_000), plan.qos.sdu_interval_us))
    } else {
        None
    }
}

/// Decides what follows the end of playing.
///
/// The endpoints are handed back however the stream ended - a headset that keeps
/// them in Streaming refuses the next configuration - unless the link is already
/// gone, in which case there is nobody to write to. A runtime audio error is no
/// evidence of a lost connection: losing an isochronous channel only requires
/// building the audio again.
pub fn after_audio(end: &AudioEnd, plan: &StreamPlan) -> (after: AfterAudio)
    ensures
        after.release_endpoints == gives_endpoints_back(*end),
        after.forget == (end.lost is Some),
        after.handed_back == listens_with(*end, *plan),
        match complains(*end) {
            Some(text) => after.complaint matches Some(own) && own@ == text,
            None => after.complaint is None,
        },
        match rebuilds(*end) {
            Ok(again) => after.rebuild == Ok::<bool, String>(again),
            Err(text) => after.rebuild matches Err(own) && own@ == text,
        },
{
    let lost = end.lost.is_some();
    let mut complaint: Option<String> = None;
    let rebuild: Result<bool, String> = match &end.error {
        None => Ok(false),
        Some(error) => if lost {
            let mut text = String::from_str("playback ended: ");
            text.append(error.1.as_str());
            Err(text)
        } else if adapter_failed(&error.0) {
            let mut text = String::from_str("adapter/transport failure: ");
            text.append(error.1.as_str());
            Err(text)
        } else {
            let again = audio_lost(&error.0);
            if !again {
                let mut text = String::from_str("Playback stopped: ");
                text.append(error.1.as_str());
                complaint = Some(text);
            }
            Ok(again)
        },
    };
    let handed_back = if end.yielded {
        let hz = match plan.codec.sampling_frequency.hz() {
            Some(hz) => hz,
            None => 48_000,
        };
        Some((hz, plan.qos.sdu_interval_us))
    } else {
        None
    };
    AfterAudio {
        release_endpoints: end.configured && !lost,
        forget: lost,
        handed_back,
        complaint,
        rebuild,
    }
}

// ---- The loop around it ----

/// How one stream ended.
#[derive(Debug, Clone, Copy, PartialEq, Eq, Structural)]
pub struct Round {
    /// Whether it ended with an error.
    pub failed: bool,
    /// Whether its audio is to be built again over the same connection.
    pub rebuild: bool,
    /// Whether it had played for a while.
    pub stable: bool,
    /// Whether the connection is still held.
    pub connected: bool,
    /// The reason, when the controller reported meanwhile that it has gone.
    pub lost: Option<u8>,
    /// Whether the headphones were handed back on request.
    pub yielded: bool,
}

/// What follows a stream.
#[derive(Debug, Clone, Copy, PartialEq, Eq, Structural)]
pub enum AfterRound {
    /// The connection has gone.
    Lost(u8),
    /// Report the error.
    Failed,
    /// Playback is over.
    Finished,
    /// Wait for the headphones, counting from this moment, and build the stream
    /// again.
    Recover { since: u64 },
    /// Wait until there is something to play, then build the stream again.
    WaitForSound,
}

/// Playing over one connection.
#[derive(Debug, Clone, Copy, PartialEq, Eq, Structural)]
pub struct PlayLoop {
    /// When the audio was lost that is being recovered, in milliseconds of the
    /// caller's clock.
    pub recovering_since: Option<u64>,
}

impl PlayLoop {
    /// What follows a stream, and the loop afterwards.
    pub open spec fn next(self, round: Round, now: u64) -> (PlayLoop, AfterRound) {
        if round.connected && round.lost is Some {
            (self, AfterRound::Lost(round.lost->0))
        } else if round.failed && self.recovering_since is None {
            (self, AfterRound::Failed)
        } else {
            let since = if !round.failed && round.stable {
                None
            } else {
                self.recovering_since
            };
            if (round.failed || round.rebuild) && round.connected {
                let start = match since {
                    Some(moment) => moment,
                    None => now,
                };
                (
                    PlayLoop { recovering_since: Some(start) },
                    AfterRound::Recover { since: start },
                )
            } else if round.yielded && round.connected {
                (PlayLoop { recovering_since: since }, AfterRound::WaitForSound)
            } else {
                (PlayLoop { recovering_since: since }, AfterRound::Finished)
            }
        }
    }

    pub fn new() -> (state: Self)
        ensures
            state.recovering_since is None,
    {
        PlayLoop { recovering_since: None }
    }

    /// Decides what follows a stream.
    ///
    /// A connection that was lost meanwhile comes first: it can be reported
    /// during teardown, after the audio has stopped reading events. An error
    /// ends playback, unless audio is being recovered: then it is one more
    /// attempt. Anything but a deliberate hand-back is the end of playback.
    pub fn after_round(&mut self, round: &Round, now: u64) -> (after: AfterRound)
        ensures
            (*final(self), after) == old(self).next(*round, now),
    {
        if round.connected {
            if let Some(reason) = round.lost {
                return AfterRound::Lost(reason);
            }
        }
        if round.failed && self.recovering_since.is_none() {
            return AfterRound::Failed;
        }
        if !round.failed && round.stable {
            self.recovering_since = None;
        }
        if (round.failed || round.rebuild) && round.connected {
            let since = match self.recovering_since {
                Some(moment) => moment,
                None => now,
            };
            self.recovering_since = Some(since);
            return AfterRound::Recover { since };
        }
        if round.yielded && round.connected {
            AfterRound::WaitForSound
        } else {
            AfterRound::Finished
        }
    }
}

/// While audio is being recovered over a connection that is still there, a
/// failed attempt is never the end, and the clock keeps running from the moment
/// the audio was first lost.
pub proof fn recovery_survives_failures(state: PlayLoop, round: Round, now: u64)
    requires
        state.recovering_since is Some,
        round.failed,
        round.connected,
        round.lost is None,
    ensures
        state.next(round, now) == (
            state,
            AfterRound::Recover { since: state.recovering_since->0 },
        ),
{
}

/// Only stable audio starts the recovery clock anew: audio that comes back for a
/// moment and is lost again does not.
pub proof fn a_flicker_does_not_restart_the_clock(state: PlayLoop, round: Round, now: u64)
    requires
        state.recovering_since is Some,
        round.rebuild,
        round.connected,
        round.lost is None,
        !round.stable,
    ensures
        state.next(round, now).1 == (AfterRound::Recover { since: state.recovering_since->0 }),
{
}

// ---- What building a stream is for ----

/// The ears have their own names and numbers.
pub proof fn every_ear_has_its_name()
    ensures
        side_text(1) == "left"@,
        side_text(2) == "right"@,
        side_text(3) == "stereo"@,
        side_text(0) == "mono"@,
{
}

/// An endpoint is expected to have applied the codec of the stream, with its own ear
/// and nothing else changed; one that is not of the stream is expected to have
/// applied nothing.
pub proof fn an_endpoint_differs_by_its_ear(
    codec: CodecConfiguration,
    endpoints: Seq<Endpoint>,
    ase_id: u8,
)
    ensures
        match expected_of(codec, endpoints, ase_id) {
            Some(own) => {
                &&& own == (CodecConfiguration {
                    channel_allocation: own.channel_allocation,
                    ..codec
                })
                &&& exists|i: int|
                    0 <= i < endpoints.len() && (#[trigger] endpoints[i]).ase_id == ase_id
                        && endpoints[i].allocation == own.channel_allocation
            },
            None => forall|i: int|
                0 <= i < endpoints.len() ==> (#[trigger] endpoints[i]).ase_id != ase_id,
        },
    decreases endpoints.len(),
{
    lemma_endpoint_place(endpoints, ase_id);
}

proof fn lemma_endpoint_place(endpoints: Seq<Endpoint>, ase_id: u8)
    ensures
        ({
            let at = endpoint_place(endpoints, ase_id);
            &&& 0 <= at <= endpoints.len()
            &&& at < endpoints.len() ==> endpoints[at].ase_id == ase_id
            &&& forall|i: int| 0 <= i < at ==> (#[trigger] endpoints[i]).ase_id != ase_id
        }),
    decreases endpoints.len(),
{
    if endpoints.len() > 0 && endpoints[0].ase_id != ase_id {
        let rest = endpoints.skip(1);
        lemma_endpoint_place(rest, ase_id);
        let at = endpoint_place(endpoints, ase_id);
        assert forall|i: int| 0 <= i < at implies (#[trigger] endpoints[i]).ase_id != ase_id by {
            if i > 0 {
                assert(endpoints[i] == rest[i - 1]);
            }
        }
    }
}

/// The handles that are watched are those of the stream's own endpoints, and all of
/// them.
pub proof fn only_the_streams_endpoints_are_watched(
    handles: Seq<(u8, u16)>,
    endpoints: Seq<Endpoint>,
    own: (u8, u16),
)
    ensures
        readable(handles, endpoints).contains(own) <==> handles.contains(own) && exists|i: int|
            0 <= i < endpoints.len() && (#[trigger] endpoints[i]).ase_id == own.0,
    decreases handles.len(),
{
    lemma_endpoint_place(endpoints, own.0);
    if endpoint_place(endpoints, own.0) < endpoints.len() {
        assert(endpoints[endpoint_place(endpoints, own.0)].ase_id == own.0);
    }
    if handles.len() > 0 {
        let rest = handles.drop_last();
        let last = handles.last();
        only_the_streams_endpoints_are_watched(rest, endpoints, own);
        let before = readable(rest, endpoints);
        assert(rest.push(last) =~= handles);
        if rest.contains(own) {
            let i = choose|i: int| 0 <= i < rest.len() && rest[i] == own;
            assert(handles[i] == own);
        }
        if handles.contains(own) && own != last {
            let i = choose|i: int| 0 <= i < handles.len() && handles[i] == own;
            assert(rest[i] == own);
        }
        if own == last {
            assert(handles[handles.len() - 1] == own);
        }
        if before.contains(own) {
            let i = choose|i: int| 0 <= i < before.len() && before[i] == own;
            assert(before.push(last)[i] == own);
        }
        if before.push(last).contains(own) && own != last {
            let i = choose|i: int| 0 <= i < before.push(last).len() && before.push(last)[i] == own;
            assert(before[i] == own);
        }
        assert(before.push(last)[before.len() as int] == last);
    }
}

/// An endpoint is free once it is idle, or has only a codec left, and says so itself.
pub proof fn a_free_endpoint_says_so_itself(ase_id: u8, shown: u8, state: u8, more: Seq<u8>)
    ensures
        is_released(ase_id, seq![shown, state] + more) <==> shown == ase_id && (state == 0 || state
            == 1),
{
    let value = seq![shown, state] + more;
    assert(value[0] == shown && value[1] == state);
}

/// What all endpoints prefer together is what one of them asked for: the most
/// retransmissions and the lowest latency that any states, and none where none does.
pub proof fn what_is_preferred_was_asked_for(answers: Seq<PreferredQos>)
    ensures
        match recommended(answers) {
            Some(count) => count > 0 && exists|i: int|
                0 <= i < answers.len() && (#[trigger] answers[i]).retransmission_preference
                    == count,
            None => forall|i: int|
                0 <= i < answers.len() ==> (#[trigger] answers[i]).retransmission_preference == 0,
        },
        match ceiling(answers) {
            Some(limit) => limit > 0 && exists|i: int|
                0 <= i < answers.len() && (#[trigger] answers[i]).max_transport_latency_ms
                    == limit,
            None => forall|i: int|
                0 <= i < answers.len() ==> (#[trigger] answers[i]).max_transport_latency_ms == 0,
        },
    decreases answers.len(),
{
    if answers.len() > 0 {
        let rest = answers.drop_last();
        what_is_preferred_was_asked_for(rest);
        assert(forall|i: int| 0 <= i < rest.len() ==> #[trigger] rest[i] == answers[i]);
        assert(answers[answers.len() - 1] == answers.last());
        if recommended(rest) is Some && recommended(answers) == recommended(rest) {
            let i = choose|i: int|
                0 <= i < rest.len() && (#[trigger] rest[i]).retransmission_preference
                    == recommended(rest)->0;
            assert(answers[i].retransmission_preference == recommended(answers)->0);
        }
        if ceiling(rest) is Some && ceiling(answers) == ceiling(rest) {
            let i = choose|i: int|
                0 <= i < rest.len() && (#[trigger] rest[i]).max_transport_latency_ms == ceiling(
                    rest,
                )->0;
            assert(answers[i].max_transport_latency_ms == ceiling(answers)->0);
        }
        if recommended(answers) is None {
            assert forall|i: int| 0 <= i < answers.len() implies (
            #[trigger] answers[i]).retransmission_preference == 0 by {
                if i < rest.len() {
                    assert(rest[i] == answers[i]);
                }
            }
        }
        if ceiling(answers) is None {
            assert forall|i: int| 0 <= i < answers.len() implies (
            #[trigger] answers[i]).max_transport_latency_ms == 0 by {
                if i < rest.len() {
                    assert(rest[i] == answers[i]);
                }
            }
        }
    }
}

/// A PHY is common exactly when every endpoint that states any states it.
#[verifier::rlimit(60)]
pub proof fn a_common_phy_suits_everyone(answers: Seq<PreferredQos>, bit: u8)
    requires
        bit == 1 || bit == 2 || bit == 4,
    ensures
        common_phy(answers) is None <==> forall|i: int|
            0 <= i < answers.len() ==> (#[trigger] answers[i]).phy_preference == 0,
        common_phy(answers) matches Some(bits) ==> ((bits & bit != 0) <==> forall|i: int|
            0 <= i < answers.len() && (#[trigger] answers[i]).phy_preference != 0
                ==> answers[i].phy_preference & bit != 0),
    decreases answers.len(),
{
    if answers.len() > 0 {
        let rest = answers.drop_last();
        let own = answers.last().phy_preference;
        a_common_phy_suits_everyone(rest, bit);
        assert(forall|i: int| 0 <= i < rest.len() ==> #[trigger] rest[i] == answers[i]);
        assert(answers[answers.len() - 1] == answers.last());
        if common_phy(rest) is Some {
            let bits = common_phy(rest)->0;
            assert(((bits & own) & bit != 0) <==> (bits & bit != 0) && (own & bit != 0))
                by (bit_vector)
                requires
                    bit == 1u8 || bit == 2u8 || bit == 4u8,
            ;
        }
        assert forall|i: int| 0 <= i < answers.len() implies (#[trigger] answers[i]) == if i
            < rest.len() {
            rest[i]
        } else {
            answers.last()
        } by {}
        let all_zero = forall|i: int|
            0 <= i < rest.len() ==> (#[trigger] rest[i]).phy_preference == 0;
        assert((forall|i: int| 0 <= i < answers.len() ==> (#[trigger] answers[i]).phy_preference
            == 0) <==> all_zero && own == 0) by {
            if all_zero && own == 0 {
                assert forall|i: int| 0 <= i < answers.len() implies (
                #[trigger] answers[i]).phy_preference == 0 by {
                    if i < rest.len() {
                        assert(rest[i] == answers[i]);
                    }
                }
            }
            if forall|i: int|
                0 <= i < answers.len() ==> (#[trigger] answers[i]).phy_preference == 0 {
                assert forall|i: int| 0 <= i < rest.len() implies (
                #[trigger] rest[i]).phy_preference == 0 by {
                    assert(answers[i].phy_preference == 0);
                }
            }
        }
        let all_rest = forall|i: int|
            0 <= i < rest.len() && (#[trigger] rest[i]).phy_preference != 0
                ==> rest[i].phy_preference & bit != 0;
        assert((forall|i: int|
            0 <= i < answers.len() && (#[trigger] answers[i]).phy_preference != 0
                ==> answers[i].phy_preference & bit != 0) <==> all_rest && (own != 0 ==> own & bit
            != 0)) by {
            if all_rest && (own != 0 ==> own & bit != 0) {
                assert forall|i: int|
                    0 <= i < answers.len() && (
                    #[trigger] answers[i]).phy_preference != 0 implies answers[i].phy_preference
                    & bit != 0 by {
                    if i < rest.len() {
                        assert(rest[i] == answers[i]);
                    }
                }
            }
            if forall|i: int|
                0 <= i < answers.len() && (#[trigger] answers[i]).phy_preference != 0
                    ==> answers[i].phy_preference & bit != 0 {
                assert forall|i: int|
                    0 <= i < rest.len() && (
                    #[trigger] rest[i]).phy_preference != 0 implies rest[i].phy_preference & bit
                    != 0 by {
                    assert(answers[i].phy_preference & bit != 0);
                }
            }
        }
        if common_phy(rest) is None && own != 0 {
            assert(all_zero);
            assert(all_rest);
        }
    }
}

/// An automatic plan takes the device's delay, its retransmissions where it states
/// them and its latency where the plan's is longer, and nothing else of it changes.
/// A custom plan keeps its own numbers, or is refused.
pub proof fn only_the_preferred_numbers_change(
    plan: StreamPlan,
    wanted: DevicePreference,
    custom: bool,
)
    ensures
        !custom ==> adapted(plan, wanted, custom) is Ok,
        adapted(plan, wanted, custom) matches Ok(own) ==> {
            &&& own.codec == plan.codec && own.context == plan.context && own.target_latency
                == plan.target_latency && own.microphone == plan.microphone
            &&& own.qos.sdu_interval_us == plan.qos.sdu_interval_us && own.qos.framing
                == plan.qos.framing && own.qos.phy == plan.qos.phy && own.qos.max_sdu
                == plan.qos.max_sdu
            &&& own.qos.presentation_delay_us == wanted.presentation_delay_us
            &&& custom || wanted.retransmissions is None ==> own.qos.retransmission_number
                == plan.qos.retransmission_number
            &&& !custom && wanted.retransmissions is Some ==> own.qos.retransmission_number
                == wanted.retransmissions->0
            &&& own.qos.max_transport_latency_ms <= plan.qos.max_transport_latency_ms
            &&& own.qos.max_transport_latency_ms == plan.qos.max_transport_latency_ms
                || wanted.max_transport_latency_ms == Some(own.qos.max_transport_latency_ms)
            &&& custom ==> own.qos.max_transport_latency_ms == plan.qos.max_transport_latency_ms
        },
        custom ==> (adapted(plan, wanted, custom) is Ok <==> wanted.min_delay_us
            <= plan.qos.presentation_delay_us <= wanted.max_delay_us && (
        wanted.max_transport_latency_ms is None || plan.qos.max_transport_latency_ms
            <= wanted.max_transport_latency_ms->0)),
{
}

/// What the stack refuses of a custom plan is not tried again.
pub proof fn a_refused_custom_plan_is_not_retried(plan: StreamPlan, wanted: DevicePreference)
    ensures
        adapted(plan, wanted, true) matches Err(text) ==> crate::reconnect::is_deterministic(text),
{
    if adapted(plan, wanted, true) is Err {
        let text = adapted(plan, wanted, true)->Err_0;
        reveal_strlit("device rejected the custom configuration:");
        reveal_strlit("device rejected the custom configuration: presentation delay must be ");
        reveal_strlit("custom transport latency exceeds headset limit");
        reveal_strlit("custom transport latency exceeds headset limit of ");
        let asked = plan.qos.presentation_delay_us;
        if !(wanted.min_delay_us <= asked <= wanted.max_delay_us) {
            assert(text.take("device rejected the custom configuration:"@.len() as int)
                =~= "device rejected the custom configuration:"@);
        } else {
            assert(text.take("custom transport latency exceeds headset limit"@.len() as int)
                =~= "custom transport latency exceeds headset limit"@);
        }
    }
}

/// A microphone takes a delay its endpoint can work with and the lower of the two
/// latencies, and keeps everything else; one that wants framing is refused.
pub proof fn a_microphone_keeps_to_its_endpoint(mic: MicrophonePlan, preferred: PreferredQos)
    ensures
        adapted_microphone(mic, preferred) is Ok <==> preferred.framing == 0
            && preferred.presentation_delay_min_us <= preferred.presentation_delay_max_us,
        adapted_microphone(mic, preferred) matches Ok(own) ==> {
            &&& preferred.presentation_delay_min_us <= own.qos.presentation_delay_us
                <= preferred.presentation_delay_max_us
            &&& own.qos.max_transport_latency_ms <= mic.qos.max_transport_latency_ms
            &&& preferred.max_transport_latency_ms > 0 ==> own.qos.max_transport_latency_ms
                <= preferred.max_transport_latency_ms
            &&& own.qos.max_transport_latency_ms == mic.qos.max_transport_latency_ms
                || own.qos.max_transport_latency_ms == preferred.max_transport_latency_ms
            &&& own.ase_id == mic.ase_id && own.cis_id == mic.cis_id && own.codec == mic.codec
            &&& own.qos.sdu_interval_us == mic.qos.sdu_interval_us && own.qos.framing
                == mic.qos.framing && own.qos.phy == mic.qos.phy && own.qos.max_sdu
                == mic.qos.max_sdu && own.qos.retransmission_number
                == mic.qos.retransmission_number
        },
{
    if preferred.presentation_delay_min_us <= preferred.presentation_delay_max_us {
        let one = seq![preferred];
        assert(one.drop_last() =~= Seq::<PreferredQos>::empty());
        reveal_with_fuel(common_min, 2);
        reveal_with_fuel(common_max, 2);
        assert(one.last() == preferred);
        crate::negotiation::every_endpoint_can_meet_the_delay(
            one,
            mic.qos.presentation_delay_us,
            true,
            0,
        );
    }
}

/// Where a step stands among the others.
pub open spec fn turn_of(step: Step) -> int {
    match step {
        Step::Subscribing => 0,
        Step::ReleasingOld => 1,
        Step::ConfiguringCodec => 2,
        Step::AskingForQos => 3,
        Step::AskingMicrophone => 4,
        Step::Validating => 5,
        Step::PreparingGroup => 6,
        Step::WritingQos => 7,
        Step::ConfirmingQos => 8,
        Step::Enabling => 9,
        Step::Establishing => 10,
        Step::CountingEndpoints => 11,
        Step::StartingReceiver => 12,
        Step::ConfirmingStreaming => 13,
        Step::Playing => 14,
        Step::Ended => 15,
    }
}

/// A stream is built one step at a time and in one order. Only what is done for a
/// microphone is left out where there is none, and a step that did not go well is the
/// last.
pub proof fn a_stream_is_built_in_turn(setup: StreamSetup, ended: StepEnded)
    requires
        !(setup.step is Ended),
    ensures
        ({
            let (next, order) = setup.next(ended);
            let skipped = !setup.microphone && (setup.step is AskingForQos || setup.step
                is CountingEndpoints);
            &&& ended is Done ==> order == StepOrdered::Go(next.step) && turn_of(next.step)
                == turn_of(setup.step) + if skipped {
                2int
            } else {
                1int
            }
            &&& !(ended is Done) ==> next.step is Ended && order is Stop
            &&& next.microphone == setup.microphone
        }),
{
}

/// What is given back after a failure: the channels where their coming up failed, the
/// endpoints once they were touched.
pub proof fn a_failure_gives_back_what_was_taken(setup: StreamSetup, ended: StepEnded)
    requires
        !(ended is Done),
    ensures
        ({
            let order = setup.next(ended).1;
            &&& order is Stop
            &&& order->release_channels <==> turn_of(setup.step) == 10
            &&& order->release_endpoints <==> turn_of(setup.step) > 0
            &&& order->release_group
        }),
{
}

/// What playing ended with, where it ended with an error.
pub open spec fn cause(end: AudioEnd) -> SessionError {
    match end.error {
        Some((error, _)) => error,
        None => SessionError::Other,
    }
}

/// How the end of playing is understood. A link that has gone or an adapter that
/// failed is an error; lost audio is built again; anything else is only told to the
/// user.
pub proof fn an_end_is_understood(end: AudioEnd)
    ensures
        rebuilds(end) is Err <==> end.error is Some && (end.lost is Some || is_adapter_failure(cause(end))),
        rebuilds(end) == Ok::<bool, Seq<char>>(true) <==> end.error is Some && end.lost is None
            && is_audio_loss(cause(end)),
        complains(end) is Some <==> end.error is Some && end.lost is None && !is_adapter_failure(cause(end)) && !is_audio_loss(cause(end)),
{
}

/// What follows a stream. A link that was lost meanwhile comes first; an error ends
/// playback unless audio is being recovered; lost audio over a link that is held is
/// recovered, counting from its first loss; and headphones that were given back are
/// waited for. Half a minute of audio ends a recovery.
pub proof fn what_follows_a_stream(state: PlayLoop, round: Round, now: u64)
    ensures
        ({
            let (after, next) = state.next(round, now);
            let again = round.failed || round.rebuild;
            let over = round.connected && round.lost is Some;
            let fatal = !over && round.failed && state.recovering_since is None;
            let held = if !round.failed && round.stable {
                None
            } else {
                state.recovering_since
            };
            &&& over ==> next == AfterRound::Lost(round.lost->0)
            &&& fatal ==> next == AfterRound::Failed
            &&& !over && !fatal && again && round.connected ==> next == (AfterRound::Recover {
                since: if held is Some {
                    held->0
                } else {
                    now
                },
            }) && after.recovering_since == Some(
                if held is Some {
                    held->0
                } else {
                    now
                },
            )
            &&& !over && !fatal && !(again && round.connected) ==> after.recovering_since == held
                && next == if round.yielded && round.connected {
                AfterRound::WaitForSound
            } else {
                AfterRound::Finished
            }
        }),
        STABLE_AUDIO == 30_000_000,
{
}

/// A game asks for the shortest delay there is, unless the user typed another; every
/// other stream asks for its own.
pub proof fn a_game_asks_for_the_shortest_delay(plan: StreamPlan, gaming: bool, custom: bool)
    ensures
        delay_asked(plan, true, false) == 0,
        custom ==> delay_asked(plan, gaming, custom) == plan.qos.presentation_delay_us,
        !gaming ==> delay_asked(plan, gaming, custom) == plan.qos.presentation_delay_us,
{
}

/// Endpoints are handed back over a link that is still there, however playing ended,
/// and sound is listened for only when the headphones asked to be released.
pub proof fn endpoints_are_handed_back_while_there_is_a_link(end: AudioEnd, plan: StreamPlan)
    ensures
        end.lost is Some ==> !gives_endpoints_back(end),
        end.lost is None && end.configured ==> gives_endpoints_back(end),
        !end.configured ==> !gives_endpoints_back(end),
        listens_with(end, plan) is Some <==> end.yielded,
        end.yielded && code_hz(plan.codec.sampling_frequency.0) is Some ==> listens_with(end, plan)
            == Some((code_hz(plan.codec.sampling_frequency.0)->0, plan.qos.sdu_interval_us)),
{
}

/// Half a minute of audio has settled a stream, however long its frames are.
pub proof fn half_a_minute_settles_a_stream(frames: int)
    ensures
        has_settled(frames, 10_000) <==> frames >= 3_000,
        has_settled(frames, 7_500) <==> frames >= 4_000,
{
}

/// An endpoint is read at its own handle, the first that bears its number.
pub proof fn an_endpoint_is_read_at_its_own_handle(handles: Seq<(u8, u16)>, ase_id: u8)
    ensures
        ({
            let at = handle_place(handles, ase_id);
            &&& 0 <= at <= handles.len()
            &&& at < handles.len() ==> handles[at].0 == ase_id
            &&& forall|i: int| 0 <= i < at ==> (#[trigger] handles[i]).0 != ase_id
        }),
    decreases handles.len(),
{
    if handles.len() > 0 && handles[0].0 != ase_id {
        let rest = handles.skip(1);
        an_endpoint_is_read_at_its_own_handle(rest, ase_id);
        assert forall|i: int| 0 <= i < handle_place(handles, ase_id) implies (
        #[trigger] handles[i]).0 != ase_id by {
            if i > 0 {
                assert(handles[i] == rest[i - 1]);
            }
        }
    }
}

/// Of a custom stream only a delay is ever announced, and only where the headphones
/// can do the one that was typed.
pub proof fn little_is_announced_of_a_custom_stream(plan: StreamPlan, wanted: DevicePreference)
    ensures
        adopted_lines(plan, wanted, true).len() <= 1,
        adopted_lines(plan, wanted, true).len() == 1 <==> wanted.min_delay_us
            <= plan.qos.presentation_delay_us <= wanted.max_delay_us && wanted.presentation_delay_us
            != plan.qos.presentation_delay_us,
{
}

} // verus!
