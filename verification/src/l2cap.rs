//! L2CAP signalling on the LE channel.
//!
//! Only one exchange matters here, but ignoring it is fatal. A peripheral asks
//! the central to slow the connection down so it can save power, and the
//! specification gives that request a response timer (Vol 3 Part A, 6.2.1) whose
//! maximum is 60 seconds. A central that never answers gets the link torn down
//! exactly one minute later, with a reason code - "remote user terminated" -
//! that points at the peer rather than at the silence which caused it.

pub mod code;

use crate::bytes::{le16, lemma_u16_round_trip, push_u16, read_u16, u16_at};
use vstd::prelude::*;

verus! {

pub const RESULT_ACCEPTED: u16 = 0x0000;

pub const RESULT_REJECTED: u16 = 0x0001;

/// Connection parameters a peripheral has asked for, in raw HCI units.
#[derive(Debug, Clone, Copy, PartialEq, Eq, Structural)]
pub struct ConnectionParameters {
    pub interval_min: u16,
    pub interval_max: u16,
    pub latency: u16,
    pub supervision_timeout: u16,
}

impl ConnectionParameters {
    /// The limits of the specification: intervals of 7.5 ms to 4 s in order, at
    /// most 499 skipped events, a timeout of 100 ms to 32 s that is longer than
    /// two of the longest gaps between events the peripheral may leave.
    pub open spec fn permitted(self) -> bool {
        &&& 6 <= self.interval_min <= self.interval_max <= 3200
        &&& self.latency <= 499
        &&& 10 <= self.supervision_timeout <= 3200
        // Timeout in units of 10 ms, interval in units of 1.25 ms.
        &&& self.supervision_timeout * 4 > self.interval_max * (self.latency + 1)
    }

    /// Whether the specification permits these parameters.
    pub fn valid(&self) -> (yes: bool)
        ensures
            yes == self.permitted(),
    {
        if !(6 <= self.interval_min && self.interval_min <= self.interval_max && self.interval_max
            <= 3200 && self.latency <= 499 && 10 <= self.supervision_timeout
            && self.supervision_timeout <= 3200) {
            return false;
        }
        assert(self.interval_max * (self.latency + 1) <= 3200 * 500) by (nonlinear_arith)
            requires
                self.interval_max <= 3200,
                self.latency <= 499,
        ;
        self.supervision_timeout as u32 * 4 > self.interval_max as u32 * (self.latency as u32 + 1)
    }

    /// The connection interval range in microseconds, for reporting.
    pub fn interval_us(&self) -> (range: (u32, u32))
        ensures
            range.0 == self.interval_min * 1250,
            range.1 == self.interval_max * 1250,
    {
        (self.interval_min as u32 * 1250, self.interval_max as u32 * 1250)
    }
}

/// A signalling PDU we recognise.
#[derive(Debug, Clone, Copy, PartialEq, Eq, Structural)]
pub enum Signal {
    ParameterUpdateRequest { identifier: u8, parameters: ConnectionParameters },
}

/// The parameters laid out in eight bytes from `at`.
pub open spec fn parameters_at(data: Seq<u8>, at: int) -> ConnectionParameters {
    ConnectionParameters {
        interval_min: u16_at(data, at),
        interval_max: u16_at(data, at + 2),
        latency: u16_at(data, at + 4),
        supervision_timeout: u16_at(data, at + 6),
    }
}

/// The eight bytes that carry connection parameters.
pub open spec fn parameter_bytes(parameters: ConnectionParameters) -> Seq<u8> {
    le16(parameters.interval_min) + le16(parameters.interval_max) + le16(parameters.latency)
        + le16(parameters.supervision_timeout)
}

/// The signal a payload carries: a parameter update request whose stated length
/// is eight bytes that are all there. Nothing else is acted on.
pub open spec fn signal_of(payload: Seq<u8>) -> Option<Signal> {
    if payload.len() >= 12 && payload[0] == code::CONNECTION_PARAMETER_UPDATE_REQUEST && u16_at(
        payload,
        2,
    ) == 8 {
        Some(
            Signal::ParameterUpdateRequest {
                identifier: payload[1],
                parameters: parameters_at(payload, 4),
            },
        )
    } else {
        None
    }
}

/// Reads a signalling PDU, returning `None` for anything we do not act on.
pub fn parse(payload: &[u8]) -> (signal: Option<Signal>)
    ensures
        signal == signal_of(payload@),
{
    if payload.len() < 4 {
        return None;
    }
    let length = read_u16(payload, 2) as usize;
    if payload.len() - 4 < length {
        return None;
    }
    if payload[0] != code::CONNECTION_PARAMETER_UPDATE_REQUEST || length != 8 {
        return None;
    }
    Some(
        Signal::ParameterUpdateRequest {
            identifier: payload[1],
            parameters: ConnectionParameters {
                interval_min: read_u16(payload, 4),
                interval_max: read_u16(payload, 6),
                latency: read_u16(payload, 8),
                supervision_timeout: read_u16(payload, 10),
            },
        },
    )
}

/// Builds the response that stops the peer's one-minute timer.
pub fn parameter_update_response(identifier: u8, result: u16) -> (pdu: Vec<u8>)
    ensures
        pdu@ == seq![code::CONNECTION_PARAMETER_UPDATE_RESPONSE, identifier] + le16(2) + le16(
            result,
        ),
{
    let mut pdu: Vec<u8> = vec![code::CONNECTION_PARAMETER_UPDATE_RESPONSE, identifier];
    push_u16(&mut pdu, 2);
    push_u16(&mut pdu, result);
    pdu
}

/// A request is understood whatever parameters it asks for: the PDU that
/// carries them reads back as the request with the same identifier.
pub proof fn every_request_is_understood(identifier: u8, parameters: ConnectionParameters)
    ensures
        signal_of(
            seq![code::CONNECTION_PARAMETER_UPDATE_REQUEST, identifier] + le16(8)
                + parameter_bytes(parameters),
        ) == Some(Signal::ParameterUpdateRequest { identifier, parameters }),
{
    let payload = seq![code::CONNECTION_PARAMETER_UPDATE_REQUEST, identifier] + le16(8)
        + parameter_bytes(parameters);
    lemma_u16_round_trip(8);
    lemma_u16_round_trip(parameters.interval_min);
    lemma_u16_round_trip(parameters.interval_max);
    lemma_u16_round_trip(parameters.latency);
    lemma_u16_round_trip(parameters.supervision_timeout);
    assert(payload.len() == 12);
    assert(u16_at(payload, 2) == u16_at(le16(8), 0));
    assert(u16_at(payload, 4) == u16_at(le16(parameters.interval_min), 0));
    assert(u16_at(payload, 6) == u16_at(le16(parameters.interval_max), 0));
    assert(u16_at(payload, 8) == u16_at(le16(parameters.latency), 0));
    assert(u16_at(payload, 10) == u16_at(le16(parameters.supervision_timeout), 0));
}

/// What the specification permits, in its own units: connection intervals from 7.5
/// ms to 4 s with the shortest no longer than the longest, at most 499 skipped
/// events, and a timeout from 100 ms to 32 s that outlasts two of the longest
/// silences the peripheral may keep.
pub proof fn permitted_parameters_keep_the_link_alive(asked: ConnectionParameters)
    ensures
        asked.permitted() <==> {
            let shortest_us = asked.interval_min * 1250;
            let longest_us = asked.interval_max * 1250;
            let timeout_ms = asked.supervision_timeout * 10;
            &&& 7_500 <= shortest_us <= longest_us <= 4_000_000
            &&& asked.latency < 500
            &&& 100 <= timeout_ms <= 32_000
            &&& timeout_ms * 1000 > 2 * (longest_us * (asked.latency + 1))
        },
{
    let gaps = asked.latency + 1;
    assert((asked.interval_max * 1250) * gaps == 1250 * (asked.interval_max * gaps))
        by (nonlinear_arith);
}

/// The request on the wire: its code, an identifier, a length of eight and the
/// shortest interval, the longest, the latency and the timeout.
pub proof fn a_request_on_the_wire(identifier: u8, asked: ConnectionParameters, more: Seq<u8>)
    ensures
        ({
            let lo = |value: u16| (value % 256) as u8;
            let hi = |value: u16| (value / 256) as u8;
            signal_of(
                seq![
                    0x12u8,
                    identifier,
                    8,
                    0,
                    lo(asked.interval_min),
                    hi(asked.interval_min),
                    lo(asked.interval_max),
                    hi(asked.interval_max),
                    lo(asked.latency),
                    hi(asked.latency),
                    lo(asked.supervision_timeout),
                    hi(asked.supervision_timeout),
                ] + more,
            ) == Some(Signal::ParameterUpdateRequest { identifier, parameters: asked })
        }),
        forall|payload: Seq<u8>|
            payload.len() == 0 || payload[0] != 0x12 ==> #[trigger] signal_of(payload) is None,
{
    let lo = |value: u16| (value % 256) as u8;
    let hi = |value: u16| (value / 256) as u8;
    let payload = seq![
        0x12u8,
        identifier,
        8,
        0,
        lo(asked.interval_min),
        hi(asked.interval_min),
        lo(asked.interval_max),
        hi(asked.interval_max),
        lo(asked.latency),
        hi(asked.latency),
        lo(asked.supervision_timeout),
        hi(asked.supervision_timeout),
    ] + more;
    assert(payload[0] == 0x12 && payload[1] == identifier && payload[2] == 8 && payload[3] == 0);
    assert(payload[4] == lo(asked.interval_min) && payload[5] == hi(asked.interval_min));
    assert(payload[6] == lo(asked.interval_max) && payload[7] == hi(asked.interval_max));
    assert(payload[8] == lo(asked.latency) && payload[9] == hi(asked.latency));
    assert(payload[10] == lo(asked.supervision_timeout) && payload[11] == hi(
        asked.supervision_timeout,
    ));
    assert(u16_at(payload, 2) == 8);
    assert(parameters_at(payload, 4) == asked);
}

} // verus!
