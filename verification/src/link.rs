//! GATT over an established LE connection.
//!
//! Everything a client decides between two packets stands here: what an ACL
//! packet means for the request that is waiting, what to send back, which
//! request comes next in a discovery, and what the values that were read say.
//! The code that owns the adapter moves the packets.

pub mod battery_uuid;
pub mod pacs_uuid;

use crate::att::{
    absorb, acl_packets, att_op, build_acl_packets, cid, describes_characteristic,
    describes_service, exchange_mtu_response, l2cap_frame, list_entries, list_error,
    parse_characteristics, parse_mtu_response, parse_read_response, parse_service_ranges,
    read_blob_request, read_by_group_type_request, read_by_type_request, read_request,
    write_request, Absorbed, AclReassembler, AttError, Characteristic, L2capFrame, ServiceRange, ATT_DEFAULT_MTU,
    ATT_PREFERRED_MTU, PB_FIRST,
};
use crate::bap::ase::{
    control_point_answers, parse_control_point_response, parse_state, response_explanation,
    AseResponse, AseState,
};
use crate::bap::{pac_records, pac_views, Pac, PacRecord};
use crate::bytes::{
    copy_bytes, le16, lemma_u16_round_trip, push_bytes, push_u16, range, read_u16, read_u32,
    records, tail, u16_at, u32_at, views,
};
use crate::hci::{
    command_packet, connection_update_params, disconnection_of, le_connection_update, op,
    parse_disconnection_complete, reason_text, disconnect_reason, Event,
};
use crate::l2cap::{
    parameter_update_response, signal_of, Signal, RESULT_ACCEPTED, RESULT_REJECTED,
};
use crate::media::{serving, well_formed, Media, Server};
use crate::text::{decimal, hex, push_decimal, push_hex};
use std::collections::VecDeque;
use vstd::prelude::*;
use vstd::string::*;

verus! {

/// How long any single ATT exchange may take before we give up on it, in
/// milliseconds.
pub const ATT_TIMEOUT: u64 = 5_000;

/// The largest ACL payload the controllers in use accept.
pub const MAX_ACL_PAYLOAD: usize = 27;

/// Where one battery lives on the device.
#[derive(Debug, Clone, Copy, PartialEq, Eq, Structural)]
pub struct BatteryHandles {
    pub level: u16,
    pub level_cccd: u16,
    /// Whether the device will tell us when the level changes, or whether it
    /// has to be asked. Asking costs a round trip and some airtime, so it is
    /// worth knowing which of the two this is.
    pub notifies: bool,
}

/// Where volume lives on a device that has a Volume Control Service.
#[derive(Debug, Clone, Copy, PartialEq, Eq, Structural)]
pub struct VolumeControlHandles {
    pub state: u16,
    pub state_cccd: u16,
    pub control_point: u16,
}

/// The 16-bit field at `at`, if the value reaches that far.
pub open spec fn context_at(value: Seq<u8>, at: int) -> Option<u16> {
    if value.len() >= at + 2 {
        Some(u16_at(value, at))
    } else {
        None
    }
}

/// Splits an Audio Contexts value into its sink and source halves.
///
/// Both Available and Supported Audio Contexts use the same layout: a 16-bit
/// context bitmap for streams towards the device, and after it one for streams
/// from it.
pub fn parse_context_pair(value: &[u8]) -> (pair: (Option<u16>, Option<u16>))
    ensures
        pair == (context_at(value@, 0), context_at(value@, 2)),
{
    let sink = if value.len() >= 2 {
        Some(read_u16(value, 0))
    } else {
        None
    };
    let source = if value.len() >= 4 {
        Some(read_u16(value, 2))
    } else {
        None
    };
    (sink, source)
}

/// The level that a battery publishes, where it is one.
pub open spec fn level_of(value: Seq<u8>) -> Option<u8> {
    if value.len() > 0 && value[0] <= 100 {
        Some(value[0])
    } else {
        None
    }
}

/// A Battery Level value: one byte, 0 to 100 per cent.
///
/// Values above 100 are rejected rather than clamped. A device sending 255 is
/// not reporting a very full battery, it is reporting that it does not know,
/// and showing that as full is worse than showing nothing.
pub fn parse_battery_level(value: &[u8]) -> (level: Option<u8>)
    ensures
        level == level_of(value@),
{
    if value.len() > 0 && value[0] <= 100 {
        Some(value[0])
    } else {
        None
    }
}

/// Why a step on a link failed.
#[derive(Debug)]
pub enum LinkError {
    AscsRejected(String),
    Att(AttError),
    /// No response within so many milliseconds.
    Timeout(u64),
    Closed,
    Transport(String),
    ServiceMissing(u16),
    CharacteristicMissing(u16),
    /// A write that is not allowed, and why.
    Unsafe(String),
    Disconnected { reason: u8 },
}

/// Three decimals of a second without trailing zeros, with the point before
/// them; nothing when all are zero.
pub open spec fn fraction_text(milliseconds: u64) -> Seq<char> {
    let rest = milliseconds % 1000;
    if rest == 0 {
        ""@
    } else if rest % 100 == 0 {
        "."@ + decimal((rest / 100) as nat)
    } else if rest % 10 == 0 {
        "."@ + decimal((rest / 100) as nat) + decimal((rest / 10 % 10) as nat)
    } else {
        "."@ + decimal((rest / 100) as nat) + decimal((rest / 10 % 10) as nat) + decimal(
            (rest % 10) as nat,
        )
    }
}

/// A duration as a log shows it.
pub open spec fn duration_text(milliseconds: u64) -> Seq<char> {
    if milliseconds == 0 {
        "0ns"@
    } else if milliseconds < 1000 {
        decimal(milliseconds as nat) + "ms"@
    } else {
        decimal((milliseconds / 1000) as nat) + fraction_text(milliseconds) + "s"@
    }
}

/// The text that reports a `LinkError`.
pub open spec fn link_error_text(error: LinkError) -> Seq<char> {
    match error {
        LinkError::AscsRejected(what) => "ASCS rejected: "@ + what@,
        LinkError::Att(inner) => crate::att::att_error_text(inner),
        LinkError::Timeout(milliseconds) => "no response within "@ + duration_text(milliseconds),
        LinkError::Closed => "link closed"@,
        LinkError::Transport(what) => "transport error: "@ + what@,
        LinkError::ServiceMissing(uuid) => "service 0x"@ + hex(uuid as nat, 4)
            + " not found on this device"@,
        LinkError::CharacteristicMissing(uuid) => "characteristic 0x"@ + hex(uuid as nat, 4)
            + " not found"@,
        LinkError::Unsafe(what) => what@,
        LinkError::Disconnected { reason } => "protejsek spojeni ukoncil: "@ + reason_text(reason)
            + " (kod 0x"@ + hex(reason as nat, 2) + ")"@,
    }
}

fn push_duration(text: &mut String, milliseconds: u64)
    ensures
        final(text)@ == old(text)@ + duration_text(milliseconds),
{
    if milliseconds == 0 {
        text.append("0ns");
        return;
    }
    if milliseconds < 1000 {
        push_decimal(text, milliseconds);
        text.append("ms");
        assert(text@ =~= old(text)@ + duration_text(milliseconds));
        return;
    }
    push_decimal(text, milliseconds / 1000);
    let rest = milliseconds % 1000;
    let ghost whole = text@;
    if rest == 0 {
        text.append("");
    } else {
        text.append(".");
        push_decimal(text, rest / 100);
        if rest % 100 != 0 {
            push_decimal(text, rest / 10 % 10);
            if rest % 10 != 0 {
                push_decimal(text, rest % 10);
            }
        }
    }
    assert(text@ =~= whole + fraction_text(milliseconds));
    text.append("s");
    assert(text@ =~= old(text)@ + duration_text(milliseconds));
}

impl LinkError {
    /// One line that says what went wrong.
    pub fn to_string(&self) -> (text: String)
        ensures
            text@ == link_error_text(*self),
    {
        match self {
            LinkError::AscsRejected(what) => {
                let mut text = String::from_str("ASCS rejected: ");
                text.append(what.as_str());
                text
            },
            LinkError::Att(inner) => inner.to_string(),
            LinkError::Timeout(milliseconds) => {
                let mut text = String::from_str("no response within ");
                push_duration(&mut text, *milliseconds);
                text
            },
            LinkError::Closed => String::from_str("link closed"),
            LinkError::Transport(what) => {
                let mut text = String::from_str("transport error: ");
                text.append(what.as_str());
                text
            },
            LinkError::ServiceMissing(uuid) => {
                let mut text = String::from_str("service 0x");
                push_hex(&mut text, *uuid as u64, 4);
                text.append(" not found on this device");
                text
            },
            LinkError::CharacteristicMissing(uuid) => {
                let mut text = String::from_str("characteristic 0x");
                push_hex(&mut text, *uuid as u64, 4);
                text.append(" not found");
                text
            },
            LinkError::Unsafe(what) => what.clone(),
            LinkError::Disconnected { reason } => {
                let mut text = String::from_str("protejsek spojeni ukoncil: ");
                text.append(disconnect_reason(*reason));
                text.append(" (kod 0x");
                push_hex(&mut text, *reason as u64, 2);
                text.append(")");
                text
            },
        }
    }
}

// ---- Reading the pipes ----

/// How many reads in a row have to fail before the adapter counts as gone.
///
/// A single failure never does: a pipe can stall, a transfer can be aborted, a
/// read can time out under load. At ten milliseconds apart this is about two
/// seconds of nothing but failures, which no working adapter produces and no
/// unplugged one survives.
pub const GIVE_UP_AFTER: u32 = 200;

/// What one read of a pipe came to.
#[derive(Debug, Clone, Copy, PartialEq, Eq, Structural)]
pub enum ReadOutcome {
    Packet,
    DeviceGone,
    TimedOut,
    Failed,
}

/// What the reader does next.
#[derive(Debug, Clone, Copy, PartialEq, Eq, Structural)]
pub enum ReadStep {
    /// Hand the packet on and read again.
    Deliver,
    /// Read again at once.
    Again,
    /// Clear the pipe, pause, and read again.
    Recover,
    /// End: the adapter is gone, or the reader was told to stop.
    End,
}

/// Counts the failures of one reader.
#[derive(Debug, Clone, Copy, PartialEq, Eq, Structural)]
pub struct ReaderState {
    pub failures: u32,
}

impl ReaderState {
    /// What follows one read, and the count afterwards.
    pub open spec fn next(self, outcome: ReadOutcome, stopped: bool) -> (ReaderState, ReadStep) {
        match outcome {
            ReadOutcome::Packet => (ReaderState { failures: 0 }, ReadStep::Deliver),
            ReadOutcome::DeviceGone => (self, ReadStep::End),
            ReadOutcome::TimedOut => (ReaderState { failures: 0 }, ReadStep::Again),
            ReadOutcome::Failed => if stopped {
                (self, ReadStep::End)
            } else {
                (
                    ReaderState { failures: (self.failures + 1) as u32 },
                    if self.failures + 1 >= GIVE_UP_AFTER {
                        ReadStep::End
                    } else {
                        ReadStep::Recover
                    },
                )
            },
        }
    }

    pub fn new() -> (state: Self)
        ensures
            state.failures == 0,
    {
        ReaderState { failures: 0 }
    }

    /// Decides what follows one read. Anything but a failure starts the count
    /// again.
    pub fn step(&mut self, outcome: ReadOutcome, stopped: bool) -> (step: ReadStep)
        requires
            old(self).failures < GIVE_UP_AFTER,
        ensures
            (*final(self), step) == old(self).next(outcome, stopped),
            step != ReadStep::End ==> final(self).failures < GIVE_UP_AFTER,
    {
        match outcome {
            ReadOutcome::Packet => {
                self.failures = 0;
                ReadStep::Deliver
            },
            ReadOutcome::DeviceGone => ReadStep::End,
            ReadOutcome::TimedOut => {
                self.failures = 0;
                ReadStep::Again
            },
            ReadOutcome::Failed => {
                if stopped {
                    return ReadStep::End;
                }
                self.failures = self.failures + 1;
                if self.failures >= GIVE_UP_AFTER {
                    ReadStep::End
                } else {
                    ReadStep::Recover
                }
            },
        }
    }
}

/// What an event says.
pub open spec fn event_view(event: Event) -> (u8, Seq<u8>) {
    (event.code, event.params@)
}

/// What several events say.
pub open spec fn event_views(events: Seq<Event>) -> Seq<(u8, Seq<u8>)> {
    Seq::new(events.len(), |i: int| event_view(events[i]))
}

/// The first place with a completed disconnection of `handle`; the length when
/// there is none.
pub open spec fn loss_place(events: Seq<(u8, Seq<u8>)>, handle: u16) -> int
    decreases events.len(),
{
    if events.len() == 0 {
        0
    } else if is_loss(events[0], handle) {
        0
    } else {
        1 + loss_place(events.skip(1), handle)
    }
}

/// Whether an event is a completed disconnection of `handle`.
pub open spec fn is_loss(event: (u8, Seq<u8>), handle: u16) -> bool {
    disconnection_of(event.0, event.1) matches Some((ended, _)) && ended == handle
}

/// Why the connection that an event reports ended.
pub open spec fn loss_reason(event: (u8, Seq<u8>)) -> u8 {
    match disconnection_of(event.0, event.1) {
        Some((_, reason)) => reason,
        None => 0,
    }
}

proof fn lemma_loss_place(events: Seq<(u8, Seq<u8>)>, handle: u16)
    ensures
        0 <= loss_place(events, handle) <= events.len(),
        loss_place(events, handle) < events.len() ==> is_loss(
            events[loss_place(events, handle)],
            handle,
        ),
        forall|i: int|
            0 <= i < loss_place(events, handle) ==> !is_loss(#[trigger] events[i], handle),
    decreases events.len(),
{
    if events.len() > 0 && !is_loss(events[0], handle) {
        let rest = events.skip(1);
        lemma_loss_place(rest, handle);
        assert forall|i: int| 0 <= i < loss_place(events, handle) implies !is_loss(
            #[trigger] events[i],
            handle,
        ) by {
            if i > 0 {
                assert(events[i] == rest[i - 1]);
            }
        }
    }
}

proof fn lemma_loss_place_is(events: Seq<(u8, Seq<u8>)>, handle: u16, at: int)
    requires
        0 <= at <= events.len(),
        at < events.len() ==> is_loss(events[at], handle),
        forall|i: int| 0 <= i < at ==> !is_loss(#[trigger] events[i], handle),
    ensures
        loss_place(events, handle) == at,
{
    lemma_loss_place(events, handle);
    let p = loss_place(events, handle);
    if p < at {
        assert(!is_loss(events[p], handle));
    }
    if at < p {
        assert(!is_loss(events[at], handle));
    }
}

/// Events that arrived and that nobody has taken yet, oldest first.
///
/// Events looked at by one layer are handed back for another to consume.
/// Peeking for a dropped link must not destroy what a later step awaits.
pub struct EventQueue {
    held: VecDeque<Event>,
}

impl View for EventQueue {
    type V = Seq<(u8, Seq<u8>)>;

    closed spec fn view(&self) -> Seq<(u8, Seq<u8>)> {
        event_views(self.held@)
    }
}

impl EventQueue {
    pub fn new() -> (queue: Self)
        ensures
            queue@ == Seq::<(u8, Seq<u8>)>::empty(),
    {
        let queue = EventQueue { held: VecDeque::new() };
        assert(queue@ =~= Seq::<(u8, Seq<u8>)>::empty());
        queue
    }

    /// Adds the newest event.
    pub fn push(&mut self, event: Event)
        ensures
            final(self)@ == old(self)@.push(event_view(event)),
    {
        let ghost before = self@;
        let ghost added = event_view(event);
        self.held.push_back(event);
        assert(self@ =~= before.push(added));
    }

    /// Takes the oldest event, if there is one.
    pub fn try_recv_event(&mut self) -> (event: Option<Event>)
        ensures
            match event {
                Some(e) => old(self)@.len() > 0 && event_view(e) == old(self)@[0] && final(self)@
                    == old(self)@.skip(1),
                None => old(self)@.len() == 0 && final(self)@ == old(self)@,
            },
    {
        let ghost before = self@;
        let event = self.held.pop_front();
        proof {
            if event is Some {
                assert(self@ =~= before.skip(1));
            }
        }
        event
    }

    /// Returns events to the queue for whoever actually wants them.
    ///
    /// They go to the front, in order, so a caller that looked at the queue and
    /// handed it back leaves it exactly as it found it.
    pub fn put_back_events(&mut self, events: Vec<Event>)
        ensures
            final(self)@ == event_views(events@) + old(self)@,
    {
        let ghost all = event_views(events@);
        let ghost before = self@;
        let mut left = events;
        assert(all.take(all.len() as int) =~= all);
        assert(all.skip(all.len() as int) + before =~= before);
        while left.len() > 0
            invariant
                left@.len() <= all.len(),
                event_views(left@) == all.take(left@.len() as int),
                self@ == all.skip(left@.len() as int) + before,
            decreases left@.len(),
        {
            let ghost now = self@;
            let ghost n = left@.len() as int;
            let ghost shown = event_views(left@);
            let event = left.pop();
            if let Some(event) = event {
                proof {
                    assert(event_view(event) == shown[n - 1]);
                    assert(shown[n - 1] == all[n - 1]);
                }
                let ghost added = event_view(event);
                self.held.push_front(event);
                proof {
                    assert(self@ =~= seq![added] + now);
                    assert(event_views(left@) =~= all.take(n - 1));
                    assert(self@ =~= all.skip(n - 1) + before);
                }
            }
        }
        assert(self@ =~= all + before);
    }

    /// Looks for the end of the connection `handle`. That event is taken and
    /// its reason returned; every other event stays where it is.
    pub fn take_loss(&mut self, handle: u16) -> (reason: Option<u8>)
        ensures
            ({
                let at = loss_place(old(self)@, handle);
                if at < old(self)@.len() {
                    &&& reason == Some(
                        loss_reason(old(self)@[at]),
                    )
                    &&& final(self)@ == old(self)@.remove(at)
                } else {
                    reason is None && final(self)@ == old(self)@
                }
            }),
    {
        // Drain into a local list first, and hand the whole lot back after. The
        // queue must not be written while it is being read, or the same
        // event is served forever and no ACL is ever collected.
        let ghost all = self@;
        let mut inspected: Vec<Event> = Vec::new();
        let mut dropped: Option<u8> = None;
        let mut looking = true;
        assert(event_views(inspected@) + self@ =~= all);
        while looking
            invariant
                looking ==> dropped is None && event_views(inspected@) + self@ == all && forall|
                    i: int,
                |
                    0 <= i < inspected@.len() ==> !is_loss(
                        #[trigger] event_views(inspected@)[i],
                        handle,
                    ),
                !looking ==> ({
                    let at = loss_place(all, handle);
                    &&& event_views(inspected@).len() == at
                    &&& if at < all.len() {
                        &&& dropped == Some(loss_reason(all[at]))
                        &&& event_views(inspected@) + self@ == all.remove(at)
                    } else {
                        dropped is None && event_views(inspected@) + self@ == all
                    }
                }),
            decreases (if looking { 1int } else { 0int }) + self@.len(),
        {
            let ghost seen = event_views(inspected@);
            let ghost waiting = self@;
            match self.try_recv_event() {
                Some(event) => {
                    assert(all[seen.len() as int] == event_view(event)) by {
                        assert(all[seen.len() as int] == waiting[0]);
                    }
                    let ended = match parse_disconnection_complete(&event) {
                        Some((other, reason)) => if other == handle {
                            Some(reason)
                        } else {
                            None
                        },
                        None => None,
                    };
                    if ended.is_some() {
                        proof {
                            assert forall|i: int| 0 <= i < seen.len() implies !is_loss(
                                #[trigger] all[i],
                                handle,
                            ) by {
                                assert(all[i] == seen[i]);
                            }
                            lemma_loss_place_is(all, handle, seen.len() as int);
                            assert(seen + self@ =~= all.remove(seen.len() as int));
                        }
                        dropped = ended;
                        looking = false;
                    } else {
                        let ghost shown = event_view(event);
                        inspected.push(event);
                        proof {
                            assert(event_views(inspected@) =~= seen.push(shown));
                            assert(event_views(inspected@) + self@ =~= all);
                        }
                    }
                },
                None => {
                    proof {
                        assert(all =~= seen);
                        assert forall|i: int| 0 <= i < all.len() implies !is_loss(
                            #[trigger] all[i],
                            handle,
                        ) by {
                            assert(all[i] == seen[i]);
                        }
                        lemma_loss_place_is(all, handle, all.len() as int);
                    }
                    looking = false;
                },
            }
        }
        self.put_back_events(inspected);
        dropped
    }
}

/// The events that do not report the end of the connection `handle`, in order.
pub open spec fn without_losses(events: Seq<(u8, Seq<u8>)>, handle: u16) -> Seq<(u8, Seq<u8>)>
    decreases events.len(),
{
    if events.len() == 0 {
        Seq::empty()
    } else {
        let before = without_losses(events.drop_last(), handle);
        if is_loss(events.last(), handle) {
            before
        } else {
            before.push(events.last())
        }
    }
}

/// Why the connection `handle` ended, by the last event that reports it.
pub open spec fn last_loss(events: Seq<(u8, Seq<u8>)>, handle: u16) -> Option<u8>
    decreases events.len(),
{
    if events.len() == 0 {
        None
    } else if is_loss(events.last(), handle) {
        Some(loss_reason(events.last()))
    } else {
        last_loss(events.drop_last(), handle)
    }
}

impl EventQueue {
    /// Forgets everything that waits.
    pub fn clear(&mut self)
        ensures
            final(self)@ == Seq::<(u8, Seq<u8>)>::empty(),
    {
        self.held = VecDeque::new();
        assert(self@ =~= Seq::<(u8, Seq<u8>)>::empty());
    }

    /// Takes every event that reports the end of the connection `handle`, and
    /// returns what the last of them says. The others stay, in order.
    pub fn take_all_losses(&mut self, handle: u16) -> (reason: Option<u8>)
        ensures
            reason == last_loss(old(self)@, handle),
            final(self)@ == without_losses(old(self)@, handle),
    {
        let ghost all = self@;
        let ghost mut at: int = 0;
        let mut reason: Option<u8> = None;
        let mut keep: Vec<Event> = Vec::new();
        let mut looking = true;
        proof {
            assert(all.take(0) =~= Seq::<(u8, Seq<u8>)>::empty());
            assert(event_views(keep@) =~= Seq::<(u8, Seq<u8>)>::empty());
            assert(all.skip(0) =~= all);
        }
        while looking
            invariant
                0 <= at <= all.len(),
                self@ == all.skip(at),
                reason == last_loss(all.take(at), handle),
                event_views(keep@) == without_losses(all.take(at), handle),
                !looking ==> at == all.len(),
            decreases (if looking { 1int } else { 0int }) + self@.len(),
        {
            match self.try_recv_event() {
                Some(event) => {
                    proof {
                        assert(all.take(at + 1).drop_last() =~= all.take(at));
                        assert(all.take(at + 1).last() == all[at]);
                        assert(all.skip(at)[0] == all[at]);
                        assert(all.skip(at).skip(1) =~= all.skip(at + 1));
                        at = at + 1;
                    }
                    let ended = match parse_disconnection_complete(&event) {
                        Some((other, why)) => if other == handle {
                            Some(why)
                        } else {
                            None
                        },
                        None => None,
                    };
                    if ended.is_some() {
                        reason = ended;
                    } else {
                        let ghost held = event_views(keep@);
                        let ghost shown = event_view(event);
                        keep.push(event);
                        assert(event_views(keep@) =~= held.push(shown));
                    }
                },
                None => {
                    looking = false;
                },
            }
        }
        proof {
            assert(all.take(at) =~= all);
            assert(self@ =~= Seq::<(u8, Seq<u8>)>::empty());
        }
        self.put_back_events(keep);
        assert(self@ =~= without_losses(all, handle));
        reason
    }
}

/// Looking through the queue for a lost link changes nothing about the others:
/// what is left is everything but the event that was found, in the same order.
pub proof fn inspecting_preserves_order(events: Seq<(u8, Seq<u8>)>, handle: u16, i: int)
    requires
        loss_place(events, handle) < events.len(),
        0 <= i < events.len() - 1,
    ensures
        events.remove(loss_place(events, handle))[i] == if i < loss_place(events, handle) {
            events[i]
        } else {
            events[i + 1]
        },
{
    lemma_loss_place(events, handle);
}

// ---- What a packet means ----

/// What the client remembers of its link.
pub struct Client {
    pub handle: u16,
    /// The bytes of the unfinished L2CAP frame.
    pub gathered: Seq<u8>,
    pub mtu: u16,
    /// Unsolicited values the device sent, in arrival order.
    pub notifications: Seq<(u16, Seq<u8>)>,
    pub control_point: Option<u16>,
    pub opcode: Option<u8>,
    /// ASE value handles learned during discovery.
    pub ases: Seq<(u8, u16)>,
    pub lost: Option<u8>,
}

/// What one ACL packet calls for.
pub enum Heard {
    Nothing,
    /// Send this ATT PDU, and go on waiting.
    Reply(Seq<u8>),
    /// Send this signalling PDU, queue the command if there is one, and go on.
    Signalling(Seq<u8>, Option<Seq<u8>>),
    /// Send these ATT PDUs, and go on waiting.
    Served(Seq<Seq<u8>>),
    /// This is the PDU that was waited for; these are to be sent besides.
    Answer(Seq<u8>, Seq<Seq<u8>>),
}

/// The same, with the bytes themselves.
#[derive(Debug)]
pub enum Received {
    Nothing,
    Reply(Vec<u8>),
    Signalling { response: Vec<u8>, update: Option<Vec<u8>> },
    Served(Vec<Vec<u8>>),
    Answer { payload: Vec<u8>, pdus: Vec<Vec<u8>> },
}

impl Received {
    pub open spec fn means(self, heard: Heard) -> bool {
        match (self, heard) {
            (Received::Nothing, Heard::Nothing) => true,
            (Received::Reply(pdu), Heard::Reply(bytes)) => pdu@ == bytes,
            (
                Received::Signalling { response, update },
                Heard::Signalling(bytes, command),
            ) => response@ == bytes && match command {
                Some(packet) => update matches Some(u) && u@ == packet,
                None => update is None,
            },
            (Received::Served(pdus), Heard::Served(all)) => views(pdus@) == all,
            (Received::Answer { payload, pdus }, Heard::Answer(bytes, all)) => payload@ == bytes
                && views(pdus@) == all,
            _ => false,
        }
    }
}

/// The answer to a frame on the signalling channel, if it asks for anything: a
/// response that accepts or rejects, and the update that makes it so when it is
/// accepted.
pub open spec fn signalling_answer(handle: u16, channel: u16, payload: Seq<u8>) -> Option<
    (Seq<u8>, Option<Seq<u8>>),
> {
    if channel != cid::LE_SIGNALING {
        None
    } else {
        match signal_of(payload) {
            Some(Signal::ParameterUpdateRequest { identifier, parameters }) => {
                let accepted = parameters.permitted();
                Some(
                    (
                        seq![0x13u8, identifier] + le16(2) + le16(
                            if accepted {
                                RESULT_ACCEPTED
                            } else {
                                RESULT_REJECTED
                            },
                        ),
                        if accepted {
                            Some(
                                command_packet(
                                    op::LE_CONNECTION_UPDATE,
                                    connection_update_params(
                                        handle,
                                        parameters.interval_min,
                                        parameters.interval_max,
                                        parameters.latency,
                                        parameters.supervision_timeout,
                                    ),
                                ),
                            )
                        } else {
                            None
                        },
                    ),
                )
            },
            None => None,
        }
    }
}

/// What a frame on the signalling channel calls for.
pub open spec fn heard_signalling(handle: u16, channel: u16, payload: Seq<u8>) -> Heard {
    match signalling_answer(handle, channel, payload) {
        Some((response, update)) => Heard::Signalling(response, update),
        None => Heard::Nothing,
    }
}

/// Answers an LE signalling request, if this frame is one.
///
/// Called from every path that pulls ACL frames apart, because the request
/// arrives unprompted and the peer starts a one-minute timer the moment it
/// sends it. Silence there costs the whole connection, so this is never
/// something to leave for a later step.
pub fn answer_signalling(handle: u16, frame: &L2capFrame) -> (received: Received)
    ensures
        received.means(heard_signalling(handle, frame.cid, frame.payload@)),
{
    if frame.cid != cid::LE_SIGNALING {
        return Received::Nothing;
    }
    match crate::l2cap::parse(&frame.payload) {
        Some(Signal::ParameterUpdateRequest { identifier, parameters }) => {
            let accepted = parameters.valid();
            let response = parameter_update_response(
                identifier,
                if accepted {
                    RESULT_ACCEPTED
                } else {
                    RESULT_REJECTED
                },
            );
            let update = if accepted {
                Some(
                    le_connection_update(
                        handle,
                        parameters.interval_min,
                        parameters.interval_max,
                        parameters.latency,
                        parameters.supervision_timeout,
                    ),
                )
            } else {
                None
            };
            Received::Signalling { response, update }
        },
        None => Received::Nothing,
    }
}

/// Whether a PDU is a notification or an indication.
pub open spec fn is_unsolicited(payload: Seq<u8>) -> bool {
    payload.len() > 0 && (payload[0] == att_op::HANDLE_VALUE_NOTIFICATION || payload[0]
        == att_op::HANDLE_VALUE_INDICATION)
}

/// The notifications with one more, when the PDU is long enough to name a
/// handle.
pub open spec fn with_notification(
    notifications: Seq<(u16, Seq<u8>)>,
    payload: Seq<u8>,
) -> Seq<(u16, Seq<u8>)> {
    if payload.len() >= 3 {
        notifications.push((u16_at(payload, 1), payload.skip(3)))
    } else {
        notifications
    }
}

/// What an ATT PDU means for a request that is waiting, and the client and the
/// media server afterwards.
pub open spec fn heard_att(c: Client, s: Media, payload: Seq<u8>, late: bool) -> (
    Heard,
    Client,
    Media,
) {
    if is_unsolicited(payload) {
        (
            if payload[0] == att_op::HANDLE_VALUE_INDICATION {
                Heard::Reply(seq![att_op::HANDLE_VALUE_CONFIRMATION])
            } else {
                Heard::Nothing
            },
            Client { notifications: with_notification(c.notifications, payload), ..c },
            s,
        )
    } else if payload.len() >= 3 && payload[0] == att_op::EXCHANGE_MTU_REQUEST {
        (
            Heard::Reply(seq![att_op::EXCHANGE_MTU_RESPONSE] + le16(ATT_PREFERRED_MTU)),
            Client {
                mtu: crate::att::agreed_mtu(ATT_PREFERRED_MTU, u16_at(payload, 1)),
                ..c
            },
            s,
        )
    } else {
        let (handled, pdus, after) = serving(s, Some(payload), late, c.mtu as usize);
        (
            if handled {
                Heard::Served(pdus)
            } else {
                Heard::Answer(payload, pdus)
            },
            c,
            after,
        )
    }
}

/// What an ACL packet means for a request that is waiting. Damaged fragments
/// and other channels are not answers.
pub open spec fn heard_while_waiting(c: Client, s: Media, raw: Seq<u8>, late: bool) -> (
    Heard,
    Client,
    Media,
) {
    let (absorbed, gathered) = absorb(c.gathered, raw);
    let next = Client { gathered, ..c };
    match absorbed {
        Absorbed::Frame(channel, payload) => if channel == cid::ATT {
            heard_att(next, s, payload, late)
        } else {
            (heard_signalling(c.handle, channel, payload), next, s)
        },
        _ => (Heard::Nothing, next, s),
    }
}

/// What an ACL packet means while a pairing PDU is waited for.
pub open spec fn heard_while_pairing(c: Client, raw: Seq<u8>) -> (Heard, Client) {
    let (absorbed, gathered) = absorb(c.gathered, raw);
    let next = Client { gathered, ..c };
    match absorbed {
        Absorbed::Frame(channel, payload) => if channel == cid::SMP {
            (Heard::Answer(payload, Seq::empty()), next)
        } else {
            (heard_signalling(c.handle, channel, payload), next)
        },
        _ => (Heard::Nothing, next),
    }
}

/// What an ACL packet means while only notifications are collected. The media
/// server comes first; what it does not take as a request may be a notification.
pub open spec fn heard_while_collecting(c: Client, s: Media, raw: Seq<u8>, late: bool) -> (
    Heard,
    Seq<Seq<u8>>,
    Client,
    Media,
) {
    let (absorbed, gathered) = absorb(c.gathered, raw);
    let next = Client { gathered, ..c };
    match absorbed {
        Absorbed::Frame(channel, payload) => if channel == cid::ATT {
            let (handled, pdus, after) = serving(s, Some(payload), late, c.mtu as usize);
            if !handled && is_unsolicited(payload) && payload.len() >= 3 {
                (
                    if payload[0] == att_op::HANDLE_VALUE_INDICATION {
                        Heard::Reply(seq![att_op::HANDLE_VALUE_CONFIRMATION])
                    } else {
                        Heard::Nothing
                    },
                    pdus,
                    Client {
                        notifications: with_notification(next.notifications, payload),
                        ..next
                    },
                    after,
                )
            } else {
                (Heard::Nothing, pdus, next, after)
            }
        } else {
            (heard_signalling(c.handle, channel, payload), Seq::empty(), next, s)
        },
        _ => (Heard::Nothing, Seq::empty(), next, s),
    }
}

/// What several notifications hold.
pub open spec fn notification_views(list: Seq<(u16, Vec<u8>)>) -> Seq<(u16, Seq<u8>)> {
    Seq::new(list.len(), |i: int| (list[i].0, list[i].1@))
}

/// The first rejection among the answers of a control point notification.
pub open spec fn first_rejection(answers: Seq<AseResponse>) -> Option<AseResponse>
    decreases answers.len(),
{
    if answers.len() == 0 {
        None
    } else if answers[0].response_code != 0 {
        Some(answers[0])
    } else {
        first_rejection(answers.skip(1))
    }
}

/// How a rejection is reported.
pub open spec fn rejection_report(opcode: u8, answer: AseResponse) -> Seq<char> {
    "operation 0x"@ + hex(opcode as nat, 2) + ", ASE "@ + decimal(answer.ase_id as nat) + ": "@
        + response_explanation(answer) + " (response 0x"@ + hex(answer.response_code as nat, 2)
        + ", reason 0x"@ + hex(answer.reason as nat, 2) + ")"@
}

/// What a control point notification complains about, when it answers `opcode`.
pub open spec fn complaint_of(value: Seq<u8>, opcode: Option<u8>) -> Option<Seq<char>> {
    if value.len() >= 2 && opcode == Some(value[0]) {
        match first_rejection(control_point_answers(value)) {
            Some(answer) => Some(rejection_report(value[0], answer)),
            None => None,
        }
    } else {
        None
    }
}

/// The last complaint among the notifications of the control point.
pub open spec fn last_complaint(
    notifications: Seq<(u16, Seq<u8>)>,
    control_point: Option<u16>,
    opcode: Option<u8>,
) -> Option<Seq<char>>
    decreases notifications.len(),
{
    if notifications.len() == 0 {
        None
    } else {
        let (handle, value) = notifications.last();
        if control_point == Some(handle) && complaint_of(value, opcode) is Some {
            complaint_of(value, opcode)
        } else {
            last_complaint(notifications.drop_last(), control_point, opcode)
        }
    }
}

/// The notifications that do not come from the control point, in order.
pub open spec fn of_others(
    notifications: Seq<(u16, Seq<u8>)>,
    control_point: Option<u16>,
) -> Seq<(u16, Seq<u8>)>
    decreases notifications.len(),
{
    if notifications.len() == 0 {
        Seq::empty()
    } else {
        let before = of_others(notifications.drop_last(), control_point);
        if control_point == Some(notifications.last().0) {
            before
        } else {
            before.push(notifications.last())
        }
    }
}

/// The ASE handles whose id is wanted, in order.
pub open spec fn wanted_ases(ases: Seq<(u8, u16)>, wanted: Seq<u8>) -> Seq<(u8, u16)>
    decreases ases.len(),
{
    if ases.len() == 0 {
        Seq::empty()
    } else {
        let before = wanted_ases(ases.drop_last(), wanted);
        if wanted.contains(ases.last().0) {
            before.push(ases.last())
        } else {
            before
        }
    }
}

/// Whether the handle of an ASE is known.
pub open spec fn knows_ase(ases: Seq<(u8, u16)>, ase_id: u8) -> bool {
    exists|i: int| 0 <= i < ases.len() && (#[trigger] ases[i]).0 == ase_id
}

/// A GATT client bound to one connection handle.
pub struct Link {
    disconnected_reason: Option<u8>,
    handle: u16,
    reassembler: AclReassembler,
    mtu: u16,
    notifications: Vec<(u16, Vec<u8>)>,
    ascs_control_point: Option<u16>,
    ascs_opcode: Option<u8>,
    ase_value_handles: Vec<(u8, u16)>,
}

impl View for Link {
    type V = Client;

    closed spec fn view(&self) -> Client {
        Client {
            handle: self.handle,
            gathered: self.reassembler@,
            mtu: self.mtu,
            notifications: notification_views(self.notifications@),
            control_point: self.ascs_control_point,
            opcode: self.ascs_opcode,
            ases: self.ase_value_handles@,
            lost: self.disconnected_reason,
        }
    }
}

impl Link {
    pub closed spec fn wf(&self) -> bool {
        self.reassembler.wf()
    }

    pub fn new(handle: u16) -> (link: Self)
        ensures
            link.wf(),
            link@ == (Client {
                handle,
                gathered: Seq::empty(),
                mtu: ATT_DEFAULT_MTU,
                notifications: Seq::empty(),
                control_point: None,
                opcode: None,
                ases: Seq::empty(),
                lost: None,
            }),
    {
        let link = Link {
            disconnected_reason: None,
            handle,
            reassembler: AclReassembler::new(),
            mtu: ATT_DEFAULT_MTU,
            notifications: Vec::new(),
            ascs_control_point: None,
            ascs_opcode: None,
            ase_value_handles: Vec::new(),
        };
        assert(link@.notifications =~= Seq::<(u16, Seq<u8>)>::empty());
        assert(link@.ases =~= Seq::<(u8, u16)>::empty());
        link
    }

    pub fn mtu(&self) -> (mtu: u16)
        ensures
            mtu == self@.mtu,
    {
        self.mtu
    }

    /// A teardown read may consume the disconnect before the session sees it.
    pub fn disconnected_reason(&self) -> (reason: Option<u8>)
        ensures
            reason == self@.lost,
    {
        self.disconnected_reason
    }

    /// The ACL packets that carry a PDU on one channel.
    pub fn packets(&self, channel: u16, pdu: &[u8]) -> (packets: Vec<Vec<u8>>)
        ensures
            views(packets@) == acl_packets(
                self@.handle,
                PB_FIRST,
                l2cap_frame(channel, pdu@),
                MAX_ACL_PAYLOAD as nat,
            ),
    {
        build_acl_packets(self.handle, channel, pdu, MAX_ACL_PAYLOAD)
    }

    fn frame(&mut self, raw: &[u8]) -> (frame: Option<L2capFrame>)
        requires
            old(self).wf(),
        ensures
            final(self).wf(),
            final(self)@ == (Client { gathered: absorb(old(self)@.gathered, raw@).1, ..old(self)@ }),
            match absorb(old(self)@.gathered, raw@).0 {
                Absorbed::Frame(channel, payload) => frame matches Some(f) && f.cid == channel
                    && f.payload@ == payload,
                _ => frame is None,
            },
    {
        match self.reassembler.push(raw) {
            Ok(frame) => frame,
            Err(_) => None,  // damaged fragment, wait for the next one
        }
    }

    fn keep_notification(&mut self, payload: &[u8])
        requires
            old(self).wf(),
        ensures
            final(self).wf(),
            final(self)@ == (Client {
                notifications: with_notification(old(self)@.notifications, payload@),
                ..old(self)@
            }),
    {
        if payload.len() >= 3 {
            let ghost before = self@.notifications;
            let value = copy_bytes(tail(payload, 3));
            let handle = read_u16(payload, 1);
            self.notifications.push((handle, value));
            assert(self@.notifications =~= before.push((handle, value@)));
        }
    }

    /// What an ACL packet means for the request that is waiting.
    ///
    /// Traffic on other channels is skipped rather than treated as an answer, so
    /// a notification arriving mid-request does not derail the read. It is the
    /// device's own answer to what we last wrote, though, so it is kept rather
    /// than dropped: discarding it is how a rejected configuration comes to look
    /// exactly like an accepted one.
    pub fn receive(&mut self, raw: &[u8], server: &mut Server, late: bool) -> (received: Received)
        requires
            old(self).wf(),
            well_formed(old(server)@),
        ensures
            final(self).wf(),
            well_formed(final(server)@),
            received.means(heard_while_waiting(old(self)@, old(server)@, raw@, late).0),
            final(self)@ == heard_while_waiting(old(self)@, old(server)@, raw@, late).1,
            final(server)@ == heard_while_waiting(old(self)@, old(server)@, raw@, late).2,
    {
        let frame = match self.frame(raw) {
            Some(frame) => frame,
            None => return Received::Nothing,
        };
        if frame.cid != cid::ATT {
            return answer_signalling(self.handle, &frame);
        }
        let payload = frame.payload;
        if payload.len() > 0 && (payload[0] == att_op::HANDLE_VALUE_NOTIFICATION || payload[0]
            == att_op::HANDLE_VALUE_INDICATION) {
            self.keep_notification(&payload);
            // An indication, unlike a notification, owns the ATT bearer
            // until it is confirmed. Without this one-byte answer some
            // headsets stop replying to the request that follows it.
            if payload[0] == att_op::HANDLE_VALUE_INDICATION {
                let confirmation: Vec<u8> = vec![att_op::HANDLE_VALUE_CONFIRMATION];
                assert(confirmation@ =~= seq![att_op::HANDLE_VALUE_CONFIRMATION]);
                return Received::Reply(confirmation);
            }
            return Received::Nothing;
        }
        if payload.len() >= 3 && payload[0] == att_op::EXCHANGE_MTU_REQUEST {
            // A peripheral may initiate MTU exchange immediately after
            // bonded encryption comes back. It can cross our request on
            // the wire; it is not our response.
            let peer = read_u16(&payload, 1);
            let smaller = if ATT_PREFERRED_MTU <= peer {
                ATT_PREFERRED_MTU
            } else {
                peer
            };
            self.mtu = if smaller >= ATT_DEFAULT_MTU {
                smaller
            } else {
                ATT_DEFAULT_MTU
            };
            return Received::Reply(exchange_mtu_response(ATT_PREFERRED_MTU));
        }
        // The peripheral may be a GATT client at the same time. Answer its
        // request, and keep waiting for the response to ours.
        let (handled, pdus) = server.serve(Some(&payload), late, self.mtu as usize);
        if handled {
            Received::Served(pdus)
        } else {
            Received::Answer { payload, pdus }
        }
    }

    /// What an ACL packet means while a pairing PDU is waited for.
    ///
    /// Pairing runs on L2CAP channel 6, separate from ATT. Traffic on other
    /// channels is skipped rather than misread as a pairing response.
    pub fn receive_smp(&mut self, raw: &[u8]) -> (received: Received)
        requires
            old(self).wf(),
        ensures
            final(self).wf(),
            received.means(heard_while_pairing(old(self)@, raw@).0),
            final(self)@ == heard_while_pairing(old(self)@, raw@).1,
    {
        let frame = match self.frame(raw) {
            Some(frame) => frame,
            None => return Received::Nothing,
        };
        if frame.cid == cid::SMP {
            let pdus: Vec<Vec<u8>> = Vec::new();
            assert(views(pdus@) =~= Seq::<Seq<u8>>::empty());
            return Received::Answer { payload: frame.payload, pdus };
        }
        answer_signalling(self.handle, &frame)
    }

    /// What an ACL packet means while only notifications are collected: what to
    /// reply, and what the media server sends besides.
    pub fn collect(&mut self, raw: &[u8], server: &mut Server, late: bool) -> (heard: (
        Received,
        Vec<Vec<u8>>,
    ))
        requires
            old(self).wf(),
            well_formed(old(server)@),
        ensures
            final(self).wf(),
            well_formed(final(server)@),
            heard.0.means(heard_while_collecting(old(self)@, old(server)@, raw@, late).0),
            views(heard.1@) == heard_while_collecting(old(self)@, old(server)@, raw@, late).1,
            final(self)@ == heard_while_collecting(old(self)@, old(server)@, raw@, late).2,
            final(server)@ == heard_while_collecting(old(self)@, old(server)@, raw@, late).3,
    {
        let none: Vec<Vec<u8>> = Vec::new();
        assert(views(none@) =~= Seq::<Seq<u8>>::empty());
        let frame = match self.frame(raw) {
            Some(frame) => frame,
            None => return (Received::Nothing, none),
        };
        if frame.cid != cid::ATT {
            return (answer_signalling(self.handle, &frame), none);
        }
        let (handled, pdus) = server.serve(Some(&frame.payload), late, self.mtu as usize);
        let payload = frame.payload;
        if handled || payload.len() < 3 {
            return (Received::Nothing, pdus);
        }
        if payload[0] == att_op::HANDLE_VALUE_NOTIFICATION {
            self.keep_notification(&payload);
            return (Received::Nothing, pdus);
        }
        if payload[0] == att_op::HANDLE_VALUE_INDICATION {
            self.keep_notification(&payload);
            let confirmation: Vec<u8> = vec![att_op::HANDLE_VALUE_CONFIRMATION];
            assert(confirmation@ =~= seq![att_op::HANDLE_VALUE_CONFIRMATION]);
            return (Received::Reply(confirmation), pdus);
        }
        (Received::Nothing, pdus)
    }

    /// Looks for the end of this link among the events that wait.
    ///
    /// A dropped connection is otherwise indistinguishable from a peer that is
    /// merely slow: the stack sits out the whole timeout and reports silence,
    /// pointing the investigation at the peer instead of the link. Events that
    /// are not about this handle stay where they are, because later steps are
    /// waiting for them.
    pub fn watch(&mut self, queue: &mut EventQueue) -> (lost: Option<u8>)
        requires
            old(self).wf(),
        ensures
            final(self).wf(),
            old(self)@.lost is Some ==> lost == old(self)@.lost && *final(self) == *old(self)
                && final(queue)@ == old(queue)@,
            old(self)@.lost is None ==> ({
                let at = loss_place(old(queue)@, old(self)@.handle);
                &&& final(self)@ == (Client { lost, ..old(self)@ })
                &&& if at < old(queue)@.len() {
                    &&& lost == Some(loss_reason(old(queue)@[at]))
                    &&& final(queue)@ == old(queue)@.remove(at)
                } else {
                    lost is None && final(queue)@ == old(queue)@
                }
            }),
    {
        if self.disconnected_reason.is_some() {
            return self.disconnected_reason;
        }
        let lost = queue.take_loss(self.handle);
        self.disconnected_reason = lost;
        lost
    }

    /// Takes the peer's answer to our MTU proposal, so PAC records arrive whole.
    pub fn take_mtu(&mut self, response: &[u8]) -> (mtu: Result<u16, AttError>)
        requires
            old(self).wf(),
        ensures
            final(self).wf(),
            match crate::att::reported_error(response@) {
                Some(error) => mtu == Err::<u16, AttError>(error) && *final(self) == *old(self),
                None => if crate::att::opcode_of(response@) != att_op::EXCHANGE_MTU_RESPONSE
                    || response@.len() < 3 {
                    mtu == Err::<u16, AttError>(AttError::Malformed("MTU response"))
                        && *final(self) == *old(self)
                } else {
                    &&& mtu == Ok::<u16, AttError>(
                        crate::att::agreed_mtu(ATT_PREFERRED_MTU, u16_at(response@, 1)),
                    )
                    &&& final(self)@ == (Client { mtu: mtu->Ok_0, ..old(self)@ })
                },
            },
    {
        let mtu = parse_mtu_response(response, ATT_PREFERRED_MTU)?;
        self.mtu = mtu;
        Ok(mtu)
    }

    /// Notes which handle answers control point operations.
    pub fn set_control_point(&mut self, control_point: u16)
        requires
            old(self).wf(),
        ensures
            final(self).wf(),
            final(self)@ == (Client { control_point: Some(control_point), ..old(self)@ }),
    {
        self.ascs_control_point = Some(control_point);
    }

    /// Starts a control point operation: answers to earlier ones are forgotten.
    pub fn begin_ascs_operation(&mut self, opcode: u8)
        requires
            old(self).wf(),
        ensures
            final(self).wf(),
            final(self)@ == (Client {
                opcode: Some(opcode),
                notifications: of_others(old(self)@.notifications, old(self)@.control_point),
                ..old(self)@
            }),
    {
        self.ascs_opcode = Some(opcode);
        self.drop_control_point();
    }

    fn drop_control_point(&mut self)
        requires
            old(self).wf(),
        ensures
            final(self).wf(),
            final(self)@ == (Client {
                notifications: of_others(old(self)@.notifications, old(self)@.control_point),
                ..old(self)@
            }),
    {
        let ghost all = self@.notifications;
        let ghost before = self@;
        let mut kept: Vec<(u16, Vec<u8>)> = Vec::new();
        let mut i: usize = 0;
        assert(all.take(0) =~= Seq::<(u16, Seq<u8>)>::empty());
        assert(notification_views(kept@) =~= of_others(all.take(0), before.control_point));
        while i < self.notifications.len()
            invariant
                i <= self.notifications@.len(),
                self@ == before,
                self.wf(),
                all == notification_views(self.notifications@),
                notification_views(kept@) == of_others(all.take(i as int), before.control_point),
            decreases self.notifications@.len() - i,
        {
            let handle = self.notifications[i].0;
            proof {
                assert(all.take(i + 1).drop_last() =~= all.take(i as int));
                assert(all.take(i + 1).last() == all[i as int]);
            }
            let from_control_point = match self.ascs_control_point {
                Some(control_point) => control_point == handle,
                None => false,
            };
            if !from_control_point {
                let value = copy_bytes(&self.notifications[i].1);
                let ghost held = notification_views(kept@);
                kept.push((handle, value));
                assert(notification_views(kept@) =~= held.push(all[i as int]));
            }
            i = i + 1;
        }
        assert(all.take(i as int) =~= all);
        self.notifications = kept;
    }

    /// Takes what the control point has answered. The last operation fails with
    /// the first rejection of the last answer that has one.
    pub fn check_ascs_errors(&mut self) -> (checked: Result<(), LinkError>)
        requires
            old(self).wf(),
        ensures
            final(self).wf(),
            final(self)@ == (Client {
                notifications: of_others(old(self)@.notifications, old(self)@.control_point),
                ..old(self)@
            }),
            match last_complaint(
                old(self)@.notifications,
                old(self)@.control_point,
                old(self)@.opcode,
            ) {
                Some(text) => checked matches Err(LinkError::AscsRejected(message)) && message@
                    == text,
                None => checked is Ok,
            },
    {
        let ghost all = self@.notifications;
        let ghost before = self@;
        let mut error: Option<String> = None;
        let mut i: usize = 0;
        assert(all.take(0) =~= Seq::<(u16, Seq<u8>)>::empty());
        while i < self.notifications.len()
            invariant
                i <= self.notifications@.len(),
                *self == *old(self),
                self.wf(),
                before == self@,
                all == notification_views(self.notifications@),
                match last_complaint(all.take(i as int), before.control_point, before.opcode) {
                    Some(text) => error matches Some(e) && e@ == text,
                    None => error is None,
                },
            decreases self.notifications@.len() - i,
        {
            let handle = self.notifications[i].0;
            proof {
                assert(all.take(i + 1).drop_last() =~= all.take(i as int));
                assert(all.take(i + 1).last() == all[i as int]);
                assert(all[i as int] == (handle, self.notifications@[i as int].1@));
            }
            let from_control_point = match self.ascs_control_point {
                Some(control_point) => control_point == handle,
                None => false,
            };
            if from_control_point {
                if let Some(text) = read_complaint(&self.notifications[i].1, self.ascs_opcode) {
                    error = Some(text);
                }
            }
            i = i + 1;
        }
        assert(all.take(i as int) =~= all);
        self.drop_control_point();
        match error {
            Some(text) => Err(LinkError::AscsRejected(text)),
            None => Ok(()),
        }
    }

    /// Everything the device has notified since this was last called.
    pub fn take_notifications(&mut self) -> (taken: Vec<(u16, Vec<u8>)>)
        requires
            old(self).wf(),
        ensures
            final(self).wf(),
            notification_views(taken@) == old(self)@.notifications,
            final(self)@ == (Client { notifications: Seq::empty(), ..old(self)@ }),
    {
        let mut taken: Vec<(u16, Vec<u8>)> = Vec::new();
        std::mem::swap(&mut taken, &mut self.notifications);
        assert(self@.notifications =~= Seq::<(u16, Seq<u8>)>::empty());
        taken
    }

    /// Remembers where an ASE lives. The first handle learned for an id stays.
    pub fn note_ase(&mut self, ase_id: u8, value_handle: u16)
        requires
            old(self).wf(),
        ensures
            final(self).wf(),
            final(self)@ == (Client {
                ases: if knows_ase(old(self)@.ases, ase_id) {
                    old(self)@.ases
                } else {
                    old(self)@.ases.push((ase_id, value_handle))
                },
                ..old(self)@
            }),
    {
        let ghost before = self@;
        let mut i: usize = 0;
        while i < self.ase_value_handles.len()
            invariant
                i <= self.ase_value_handles@.len(),
                *self == *old(self),
                self.wf(),
                before == self@,
                forall|j: int| 0 <= j < i ==> (#[trigger] before.ases[j]).0 != ase_id,
            decreases self.ase_value_handles@.len() - i,
        {
            if self.ase_value_handles[i].0 == ase_id {
                assert(before.ases[i as int].0 == ase_id);
                return;
            }
            i = i + 1;
        }
        self.ase_value_handles.push((ase_id, value_handle));
    }

    /// Where the wanted ASEs live, as far as that is known.
    pub fn known_ases(&self, wanted: &[u8]) -> (handles: Vec<(u8, u16)>)
        ensures
            handles@ == wanted_ases(self@.ases, wanted@),
    {
        let ghost all = self@.ases;
        let mut handles: Vec<(u8, u16)> = Vec::new();
        let mut i: usize = 0;
        assert(all.take(0) =~= Seq::<(u8, u16)>::empty());
        assert(handles@ =~= wanted_ases(all.take(0), wanted@));
        while i < self.ase_value_handles.len()
            invariant
                i <= self.ase_value_handles@.len(),
                all == self.ase_value_handles@,
                handles@ == wanted_ases(all.take(i as int), wanted@),
            decreases self.ase_value_handles@.len() - i,
        {
            assert(all.take(i + 1).drop_last() =~= all.take(i as int));
            if crate::bap::lists_count(wanted, self.ase_value_handles[i].0) {
                handles.push(self.ase_value_handles[i]);
            }
            i = i + 1;
        }
        assert(all.take(i as int) =~= all);
        handles
    }

    /// Whether the handle of every wanted ASE is known. Discovery is needed only
    /// when it is not.
    pub fn knows_all(&self, wanted: &[u8]) -> (yes: bool)
        ensures
            yes == forall|i: int|
                0 <= i < wanted@.len() ==> knows_ase(self@.ases, #[trigger] wanted@[i]),
    {
        let mut i: usize = 0;
        while i < wanted.len()
            invariant
                i <= wanted@.len(),
                forall|j: int| 0 <= j < i ==> knows_ase(self@.ases, #[trigger] wanted@[j]),
            decreases wanted@.len() - i,
        {
            let mut found = false;
            let mut j: usize = 0;
            while j < self.ase_value_handles.len()
                invariant
                    j <= self.ase_value_handles@.len(),
                    i < wanted@.len(),
                    found == exists|k: int|
                        0 <= k < j && (#[trigger] self.ase_value_handles@[k]).0
                            == wanted@[i as int],
                decreases self.ase_value_handles@.len() - j,
            {
                if self.ase_value_handles[j].0 == wanted[i] {
                    found = true;
                    assert(self.ase_value_handles@[j as int].0 == wanted@[i as int]);
                }
                j = j + 1;
            }
            if !found {
                assert(!knows_ase(self@.ases, wanted@[i as int]));
                return false;
            }
            assert(knows_ase(self@.ases, wanted@[i as int]));
            i = i + 1;
        }
        true
    }
}

fn read_complaint(value: &[u8], opcode: Option<u8>) -> (complaint: Option<String>)
    ensures
        match complaint_of(value@, opcode) {
            Some(text) => complaint matches Some(c) && c@ == text,
            None => complaint is None,
        },
{
    if value.len() < 2 {
        return None;
    }
    let asked = match opcode {
        Some(code) => code == value[0],
        None => false,
    };
    if !asked {
        return None;
    }
    if let Some((answered, responses)) = parse_control_point_response(value) {
        let ghost all = control_point_answers(value@);
        let mut i: usize = 0;
        assert(all.skip(0) =~= all);
        while i < responses.len()
            invariant
                i <= responses@.len(),
                responses@ == all,
                all == control_point_answers(value@),
                answered == value@[0],
                value@.len() >= 2,
                opcode == Some(value@[0]),
                first_rejection(all) == first_rejection(all.skip(i as int)),
            decreases responses@.len() - i,
        {
            let r = responses[i];
            assert(all.skip(i as int).skip(1) =~= all.skip(i + 1));
            if !r.accepted() {
                let mut text = String::from_str("operation 0x");
                push_hex(&mut text, answered as u64, 2);
                text.append(", ASE ");
                push_decimal(&mut text, r.ase_id as u64);
                text.append(": ");
                text.append(r.explain().as_str());
                text.append(" (response 0x");
                push_hex(&mut text, r.response_code as u64, 2);
                text.append(", reason 0x");
                push_hex(&mut text, r.reason as u64, 2);
                text.append(")");
                assert(text@ =~= rejection_report(answered, r));
                return Some(text);
            }
            i = i + 1;
        }
    }
    None
}

// ---- Writing ----

/// The handles that discovery approved for writing.
///
/// Writing to a guessed handle is how a setting is changed on someone's
/// headphones that was never meant to be touched, so every write request is
/// made here.
#[derive(Debug)]
pub struct WritePolicy {
    approved: Vec<u16>,
}

impl View for WritePolicy {
    type V = Set<u16>;

    closed spec fn view(&self) -> Set<u16> {
        self.approved@.to_set()
    }
}

/// How a write to a handle that was not approved is refused.
pub open spec fn write_refusal(handle: u16) -> Seq<char> {
    "writing to handle 0x"@ + hex(handle as nat, 4) + " was not approved by discovery"@
}

impl WritePolicy {
    /// Nothing may be written yet.
    pub fn new() -> (policy: Self)
        ensures
            policy@ == Set::<u16>::empty(),
    {
        let policy = WritePolicy { approved: Vec::new() };
        assert(policy@ =~= Set::<u16>::empty());
        policy
    }

    /// Records that a handle may be written to, as discovery learned.
    pub fn allow_writes_to(&mut self, handle: u16)
        ensures
            final(self)@ == old(self)@.insert(handle),
    {
        let ghost before = self.approved@;
        self.approved.push(handle);
        assert forall|other: u16| #[trigger]
            self.approved@.contains(other) == (other == handle || before.contains(other)) by {
            if before.contains(other) {
                let i = choose|i: int| 0 <= i < before.len() && before[i] == other;
                assert(self.approved@[i] == other);
            }
            assert(self.approved@[before.len() as int] == handle);
        }
        assert(self@ =~= before.to_set().insert(handle));
    }

    fn allows(&self, handle: u16) -> (yes: bool)
        ensures
            yes == self@.contains(handle),
    {
        let mut i: usize = 0;
        while i < self.approved.len()
            invariant
                i <= self.approved@.len(),
                forall|j: int| 0 <= j < i ==> self.approved@[j] != handle,
            decreases self.approved@.len() - i,
        {
            if self.approved[i] == handle {
                assert(self.approved@.contains(handle));
                return true;
            }
            i = i + 1;
        }
        false
    }

    /// The request that writes a value, for a handle that was approved.
    pub fn write(&self, handle: u16, value: &[u8]) -> (pdu: Result<Vec<u8>, LinkError>)
        ensures
            if self@.contains(handle) {
                pdu matches Ok(own) && own@ == seq![att_op::WRITE_REQUEST] + le16(handle) + value@
            } else {
                pdu matches Err(LinkError::Unsafe(text)) && text@ == write_refusal(handle)
            },
    {
        if self.allows(handle) {
            return Ok(write_request(handle, value));
        }
        let mut text = String::from_str("writing to handle 0x");
        push_hex(&mut text, handle as u64, 4);
        text.append(" was not approved by discovery");
        Err(LinkError::Unsafe(text))
    }

    /// The request that turns notifications on. A descriptor is approved by
    /// being subscribed to: it holds nothing but whether to notify.
    pub fn subscribe(&mut self, descriptor: u16) -> (pdu: Vec<u8>)
        ensures
            final(self)@ == old(self)@.insert(descriptor),
            pdu@ == seq![att_op::WRITE_REQUEST] + le16(descriptor) + seq![0x01u8, 0x00u8],
    {
        self.allow_writes_to(descriptor);
        let enable: [u8; 2] = [0x01, 0x00];
        assert(enable@ =~= seq![0x01u8, 0x00u8]);
        write_request(descriptor, &enable)
    }
}

// ---- Discovery ----

/// What a step of a discovery leads to.
#[derive(Debug, Clone, Copy, PartialEq, Eq, Structural)]
pub enum Progress {
    /// Another request is needed.
    More,
    /// Everything has been found.
    Done,
}

/// Whether an ATT error says that the server has nothing more.
pub open spec fn is_end(error: AttError) -> bool {
    error matches AttError::Protocol { code, .. } && code == 0x0A
}

/// Whether an ATT error says that a read started behind the end of the value.
pub open spec fn is_past_end(error: AttError) -> bool {
    error matches AttError::Protocol { code, .. } && code == 0x07
}

/// Where a walk over the services goes on once `found` more were listed, if it does.
pub open spec fn behind_services(services: Seq<ServiceRange>, found: nat) -> Option<u16> {
    if found == 0 || services.last().end_handle == 0xFFFF {
        None
    } else {
        Some((services.last().end_handle + 1) as u16)
    }
}

/// Where a walk over the characteristics of a service that ends at `end` goes on once
/// `found` more were listed, if it does.
pub open spec fn behind_characteristics(
    characteristics: Seq<Characteristic>,
    found: nat,
    end: u16,
) -> Option<u16> {
    if found == 0 || characteristics.last().declaration_handle >= end {
        None
    } else {
        Some((characteristics.last().declaration_handle + 1) as u16)
    }
}

/// A walk over the whole primary service table.
#[derive(Debug)]
pub struct ServiceWalk {
    pub start: u16,
    pub services: Vec<ServiceRange>,
}

impl ServiceWalk {
    pub fn new() -> (walk: Self)
        ensures
            walk.start == 1,
            walk.services@ == Seq::<ServiceRange>::empty(),
    {
        ServiceWalk { start: 1, services: Vec::new() }
    }

    /// The request for the services from here to the end of the table.
    pub fn request(&self) -> (pdu: Vec<u8>)
        ensures
            pdu@ == seq![att_op::READ_BY_GROUP_TYPE_REQUEST] + le16(self.start) + le16(0xFFFF)
                + le16(crate::att::gatt_uuid::PRIMARY_SERVICE),
    {
        read_by_group_type_request(self.start, 0xFFFF, crate::att::gatt_uuid::PRIMARY_SERVICE)
    }

    /// Takes the services of one response. "Attribute not found" is how the
    /// server says it is done; so are an empty list and a service that reaches
    /// the end of the table.
    pub fn absorb(&mut self, response: &[u8]) -> (progress: Result<Progress, AttError>)
        ensures
            ({
                let failed = list_error(
                    response@,
                    att_op::READ_BY_GROUP_TYPE_RESPONSE,
                    4,
                    "group type response",
                );
                let entries = list_entries(response@);
                match failed {
                    Some(error) => {
                        &&& *final(self) == *old(self)
                        &&& progress == if is_end(error) {
                            Ok::<Progress, AttError>(Progress::Done)
                        } else {
                            Err::<Progress, AttError>(error)
                        }
                    },
                    None => {
                        &&& final(self).services@.len() == old(self).services@.len()
                            + entries.len()
                        &&& final(self).services@.take(old(self).services@.len() as int)
                            == old(self).services@
                        &&& forall|i: int|
                            0 <= i < entries.len() ==> describes_service(
                                entries[i],
                                #[trigger] final(self).services@[old(self).services@.len() + i],
                            )
                        &&& match behind_services(final(self).services@, entries.len()) {
                            None => progress == Ok::<Progress, AttError>(Progress::Done)
                                && final(self).start == old(self).start,
                            Some(next) => progress == Ok::<Progress, AttError>(Progress::More)
                                && final(self).start == next,
                        }
                    },
                }
            }),
    {
        let mut batch = match parse_service_ranges(response) {
            Ok(batch) => batch,
            Err(error) => {
                return if ends(&error) {
                    Ok(Progress::Done)
                } else {
                    Err(error)
                };
            },
        };
        let count = batch.len();
        if count == 0 {
            assert(self.services@.take(self.services@.len() as int) =~= self.services@);
            return Ok(Progress::Done);
        }
        let last_end = batch[count - 1].end_handle;
        let ghost before = self.services@;
        let ghost added = batch@;
        self.services.append(&mut batch);
        proof {
            assert(self.services@.take(before.len() as int) =~= before);
            assert forall|i: int| 0 <= i < added.len() implies describes_service(
                list_entries(response@)[i],
                #[trigger] self.services@[before.len() + i],
            ) by {
                assert(self.services@[before.len() + i] == added[i]);
            }
        }
        if last_end == 0xFFFF {
            return Ok(Progress::Done);
        }
        self.start = last_end + 1;
        Ok(Progress::More)
    }
}

fn ends(error: &AttError) -> (yes: bool)
    ensures
        yes == is_end(*error),
{
    match error {
        AttError::Protocol { code, .. } => *code == 0x0A,
        _ => false,
    }
}

/// A walk over the characteristics of one service.
#[derive(Debug)]
pub struct CharacteristicWalk {
    pub start: u16,
    pub end: u16,
    pub characteristics: Vec<Characteristic>,
}

impl CharacteristicWalk {
    pub fn new(service: &ServiceRange) -> (walk: Self)
        ensures
            walk.start == service.start_handle,
            walk.end == service.end_handle,
            walk.characteristics@ == Seq::<Characteristic>::empty(),
    {
        CharacteristicWalk {
            start: service.start_handle,
            end: service.end_handle,
            characteristics: Vec::new(),
        }
    }

    /// The request for the characteristics from here to the end of the service;
    /// none when nothing is left to ask for.
    pub fn request(&self) -> (pdu: Option<Vec<u8>>)
        ensures
            pdu is Some <==> self.start <= self.end,
            pdu matches Some(p) ==> p@ == seq![att_op::READ_BY_TYPE_REQUEST] + le16(self.start)
                + le16(self.end) + le16(crate::att::gatt_uuid::CHARACTERISTIC),
    {
        if self.start <= self.end {
            Some(
                read_by_type_request(self.start, self.end, crate::att::gatt_uuid::CHARACTERISTIC),
            )
        } else {
            None
        }
    }

    /// Takes the characteristics of one response. The walk ends as that over
    /// services does, or with a declaration at the end of the service.
    pub fn absorb(&mut self, response: &[u8]) -> (progress: Result<Progress, AttError>)
        ensures
            final(self).end == old(self).end,
            ({
                let failed = list_error(
                    response@,
                    att_op::READ_BY_TYPE_RESPONSE,
                    5,
                    "characteristic response",
                );
                let entries = list_entries(response@);
                match failed {
                    Some(error) => {
                        &&& *final(self) == *old(self)
                        &&& progress == if is_end(error) {
                            Ok::<Progress, AttError>(Progress::Done)
                        } else {
                            Err::<Progress, AttError>(error)
                        }
                    },
                    None => {
                        &&& final(self).characteristics@.len() == old(self).characteristics@.len()
                            + entries.len()
                        &&& final(self).characteristics@.take(
                            old(self).characteristics@.len() as int,
                        ) == old(self).characteristics@
                        &&& forall|i: int|
                            0 <= i < entries.len() ==> describes_characteristic(
                                entries[i],
                                #[trigger] final(self).characteristics@[old(self).characteristics@.len()
                                    + i],
                            )
                        &&& match behind_characteristics(
                            final(self).characteristics@,
                            entries.len(),
                            old(self).end,
                        ) {
                            None => progress == Ok::<Progress, AttError>(Progress::Done)
                                && final(self).start == old(self).start,
                            Some(next) => progress == Ok::<Progress, AttError>(Progress::More)
                                && final(self).start == next,
                        }
                    },
                }
            }),
    {
        let mut batch = match parse_characteristics(response) {
            Ok(batch) => batch,
            Err(error) => {
                return if ends(&error) {
                    Ok(Progress::Done)
                } else {
                    Err(error)
                };
            },
        };
        let count = batch.len();
        if count == 0 {
            assert(self.characteristics@.take(self.characteristics@.len() as int)
                =~= self.characteristics@);
            return Ok(Progress::Done);
        }
        let last = batch[count - 1].declaration_handle;
        let ghost before = self.characteristics@;
        let ghost added = batch@;
        self.characteristics.append(&mut batch);
        proof {
            assert(self.characteristics@.take(before.len() as int) =~= before);
            assert forall|i: int| 0 <= i < added.len() implies describes_characteristic(
                list_entries(response@)[i],
                #[trigger] self.characteristics@[before.len() + i],
            ) by {
                assert(self.characteristics@[before.len() + i] == added[i]);
            }
        }
        if last >= self.end {
            return Ok(Progress::Done);
        }
        self.start = last + 1;
        Ok(Progress::More)
    }
}

/// A read that goes on with Read Blob when the value is long.
#[derive(Debug)]
pub struct LongRead {
    pub handle: u16,
    pub mtu: u16,
    pub value: Vec<u8>,
    pub begun: bool,
}

/// How far a read has come.
pub struct Reading {
    pub handle: u16,
    pub mtu: u16,
    pub value: Seq<u8>,
    pub begun: bool,
}

impl View for LongRead {
    type V = Reading;

    open spec fn view(&self) -> Reading {
        Reading { handle: self.handle, mtu: self.mtu, value: self.value@, begun: self.begun }
    }
}

impl Reading {
    /// A read that has not begun.
    pub open spec fn fresh(handle: u16, mtu: u16) -> Reading {
        Reading { handle, mtu, value: Seq::empty(), begun: false }
    }

    /// The next request: the first read, and from there on a continuation from
    /// where the value ends so far.
    pub open spec fn asked(self) -> Seq<u8> {
        if self.begun {
            seq![att_op::READ_BLOB_REQUEST] + le16(self.handle) + le16(
                (self.value.len() % 0x1_0000) as u16,
            )
        } else {
            seq![att_op::READ_REQUEST] + le16(self.handle)
        }
    }

    /// What a response makes of the read, and whether to go on. One that exactly
    /// fills the MTU may have been truncated, so the read goes on behind it; an
    /// empty continuation, or one past the end, is how the server signals
    /// completion.
    pub open spec fn taken(self, response: Seq<u8>) -> (Reading, Result<Progress, AttError>) {
        let chunk = response.skip(1);
        let opcode = crate::att::opcode_of(response);
        match crate::att::reported_error(response) {
            Some(error) => (
                self,
                if self.begun && is_past_end(error) {
                    Ok(Progress::Done)
                } else {
                    Err(error)
                },
            ),
            None => if opcode != att_op::READ_RESPONSE && opcode != att_op::READ_BLOB_RESPONSE {
                (
                    self,
                    Err(AttError::Unexpected { got: opcode, expected: att_op::READ_RESPONSE }),
                )
            } else {
                (
                    Reading { value: self.value + chunk, begun: true, ..self },
                    Ok(
                        if chunk.len() == self.mtu - 1 && !(self.begun && chunk.len() == 0) {
                            Progress::More
                        } else {
                            Progress::Done
                        },
                    ),
                )
            },
        }
    }
}

impl LongRead {
    pub fn new(handle: u16, mtu: u16) -> (read: Self)
        ensures
            read@ == Reading::fresh(handle, mtu),
    {
        let read = LongRead { handle, mtu, value: Vec::new(), begun: false };
        assert(read@.value =~= Seq::<u8>::empty());
        read
    }

    /// The next request of the read.
    pub fn request(&self) -> (pdu: Vec<u8>)
        ensures
            pdu@ == self@.asked(),
    {
        if self.begun {
            read_blob_request(self.handle, (self.value.len() % 0x1_0000) as u16)
        } else {
            read_request(self.handle)
        }
    }

    /// Takes one response, and says whether the value goes on behind it: it may
    /// when the response exactly fills the MTU.
    pub fn absorb(&mut self, response: &[u8]) -> (progress: Result<Progress, AttError>)
        requires
            old(self).mtu >= 1,
        ensures
            final(self)@ == old(self)@.taken(response@).0,
            progress == old(self)@.taken(response@).1,
    {
        let chunk = match parse_read_response(response) {
            Ok(chunk) => chunk,
            Err(error) => {
                let past_end = match error {
                    AttError::Protocol { code, .. } => code == 0x07,
                    _ => false,
                };
                return if self.begun && past_end {
                    Ok(Progress::Done)
                } else {
                    Err(error)
                };
            },
        };
        let continued = self.begun;
        self.begun = true;
        push_bytes(&mut self.value, &chunk);
        if chunk.len() == (self.mtu - 1) as usize && !(continued && chunk.len() == 0) {
            Ok(Progress::More)
        } else {
            Ok(Progress::Done)
        }
    }
}

/// The part of a value that fits one response, from `from` on.
pub open spec fn part_of(held: Seq<u8>, from: int, mtu: u16) -> Seq<u8> {
    held.subrange(
        from,
        if from + mtu - 1 < held.len() {
            from + mtu - 1
        } else {
            held.len() as int
        },
    )
}

/// What a device that holds a value answers a read of it. A continuation from
/// its very end gets an empty part, or is refused by a device that `refuses_end`.
pub open spec fn read_answer(
    held: Seq<u8>,
    mtu: u16,
    request: Seq<u8>,
    refuses_end: bool,
) -> Seq<u8> {
    if request[0] == att_op::READ_REQUEST {
        seq![att_op::READ_RESPONSE] + part_of(held, 0, mtu)
    } else {
        let offset = u16_at(request, 3);
        if offset > held.len() || (offset == held.len() && refuses_end) {
            crate::att::error_pdu(att_op::READ_BLOB_REQUEST, u16_at(request, 1), 0x07)
        } else {
            seq![att_op::READ_BLOB_RESPONSE] + part_of(held, offset as int, mtu)
        }
    }
}

/// What a read has collected once it is done, asking a device that holds a value
/// `rounds` times at most.
pub open spec fn collected(
    reading: Reading,
    held: Seq<u8>,
    refuses_end: bool,
    rounds: nat,
) -> Option<Seq<u8>>
    decreases rounds,
{
    if rounds == 0 {
        None
    } else {
        let answer = read_answer(held, reading.mtu, reading.asked(), refuses_end);
        let (after, progress) = reading.taken(answer);
        match progress {
            Ok(Progress::Done) => Some(after.value),
            Ok(Progress::More) => collected(after, held, refuses_end, (rounds - 1) as nat),
            Err(_) => None,
        }
    }
}

proof fn lemma_collected(reading: Reading, held: Seq<u8>, refuses_end: bool, rounds: nat)
    requires
        reading.mtu >= 2,
        held.len() <= 0xFFFF,
        reading.value.len() <= held.len(),
        reading.value == held.take(reading.value.len() as int),
        !reading.begun ==> reading.value.len() == 0,
        rounds > held.len() - reading.value.len(),
    ensures
        collected(reading, held, refuses_end, rounds) == Some(held),
    decreases held.len() - reading.value.len(),
{
    let k = reading.value.len() as int;
    let request = reading.asked();
    let answer = read_answer(held, reading.mtu, request, refuses_end);
    let part = part_of(held, k, reading.mtu);
    if reading.begun {
        lemma_u16_round_trip(k as u16);
        assert(request[3] == le16(k as u16)[0] && request[4] == le16(k as u16)[1]);
        assert(u16_at(request, 3) == k);
    }
    if reading.begun && k == held.len() && refuses_end {
        assert(answer[0] == att_op::ERROR_RESPONSE && answer[4] == 0x07 && answer.len() == 5);
        assert(held.take(k) =~= held);
    } else {
        assert(answer.skip(1) =~= part);
        assert(answer[0] == att_op::READ_RESPONSE || answer[0] == att_op::READ_BLOB_RESPONSE);
        let after = reading.taken(answer).0;
        assert(after.value =~= held.take(k + part.len()));
        if part.len() == reading.mtu - 1 {
            lemma_collected(after, held, refuses_end, (rounds - 1) as nat);
        } else {
            assert(held.take(k + part.len()) =~= held);
        }
    }
}

/// A long value is read whole: whatever a device holds is what a read of it has
/// collected when it is done, and it is done after finitely many requests. That
/// holds however long the value is, as far as an offset can name its bytes, for
/// every MTU that leaves room for one of them, and whichever way the device
/// answers a continuation from the very end.
pub proof fn a_long_value_is_read_whole(
    handle: u16,
    mtu: u16,
    held: Seq<u8>,
    refuses_end: bool,
)
    requires
        mtu >= 2,
        held.len() <= 0xFFFF,
    ensures
        collected(Reading::fresh(handle, mtu), held, refuses_end, held.len() + 1) == Some(held),
{
    assert(held.take(0) =~= Seq::<u8>::empty());
    lemma_collected(Reading::fresh(handle, mtu), held, refuses_end, held.len() + 1);
}

/// The GATT database does not change during one ACL connection. Rewalking it for
/// PACS, ASCS, volume, battery and teardown costs several identical ATT round
/// trips on every connect and makes later operations race more control traffic
/// for no new information.
#[derive(Debug)]
pub struct GattCache {
    pub services: Option<Vec<ServiceRange>>,
    pub characteristics: Vec<(u16, u16, Vec<Characteristic>)>,
}

/// The first entry for the service from `start` to `end`; the length when there
/// is none.
pub open spec fn cached_place(
    cache: Seq<(u16, u16, Vec<Characteristic>)>,
    start: u16,
    end: u16,
) -> int
    decreases cache.len(),
{
    if cache.len() == 0 || (cache[0].0 == start && cache[0].1 == end) {
        0
    } else {
        1 + cached_place(cache.skip(1), start, end)
    }
}

impl GattCache {
    pub fn new() -> (cache: Self)
        ensures
            cache.services is None,
            cache.characteristics@.len() == 0,
    {
        GattCache { services: None, characteristics: Vec::new() }
    }

    /// The characteristics of a service that was walked before.
    pub fn characteristics_of(&self, service: &ServiceRange) -> (found: Option<
        &Vec<Characteristic>,
    >)
        ensures
            ({
                let at = cached_place(
                    self.characteristics@,
                    service.start_handle,
                    service.end_handle,
                );
                if at < self.characteristics@.len() {
                    found matches Some(list) && *list == self.characteristics@[at].2
                } else {
                    found is None
                }
            }),
    {
        let ghost all = self.characteristics@;
        let mut i: usize = 0;
        assert(all.skip(0) =~= all);
        while i < self.characteristics.len()
            invariant
                i <= self.characteristics@.len(),
                all == self.characteristics@,
                cached_place(all, service.start_handle, service.end_handle) == i + cached_place(
                    all.skip(i as int),
                    service.start_handle,
                    service.end_handle,
                ),
            decreases self.characteristics@.len() - i,
        {
            assert(all.skip(i as int).skip(1) =~= all.skip(i + 1));
            if self.characteristics[i].0 == service.start_handle && self.characteristics[i].1
                == service.end_handle {
                return Some(&self.characteristics[i].2);
            }
            i = i + 1;
        }
        None
    }
}

/// The first service with a 16-bit UUID; the length when there is none.
pub open spec fn service_place(services: Seq<ServiceRange>, uuid: u16) -> int
    decreases services.len(),
{
    if services.len() == 0 || services[0].uuid.short() == Some(uuid) {
        0
    } else {
        1 + service_place(services.skip(1), uuid)
    }
}

/// Finds a service by its 16-bit UUID.
pub fn find_service(services: &[ServiceRange], uuid: u16) -> (service: Result<
    ServiceRange,
    LinkError,
>)
    ensures
        ({
            let at = service_place(services@, uuid);
            if at < services@.len() {
                service matches Ok(s) && s == services@[at]
            } else {
                service matches Err(LinkError::ServiceMissing(missing)) && missing == uuid
            }
        }),
{
    let mut i: usize = 0;
    assert(services@.skip(0) =~= services@);
    while i < services.len()
        invariant
            i <= services@.len(),
            service_place(services@, uuid) == i + service_place(services@.skip(i as int), uuid),
        decreases services@.len() - i,
    {
        assert(services@.skip(i as int).skip(1) =~= services@.skip(i + 1));
        if is_short(services[i].uuid.as_short(), uuid) {
            return Ok(services[i]);
        }
        i = i + 1;
    }
    Err(LinkError::ServiceMissing(uuid))
}

fn is_short(found: Option<u16>, uuid: u16) -> (yes: bool)
    ensures
        yes == (found == Some(uuid)),
{
    match found {
        Some(value) => value == uuid,
        None => false,
    }
}

/// The first characteristic with a 16-bit UUID; the length when there is none.
pub open spec fn characteristic_place(characteristics: Seq<Characteristic>, uuid: u16) -> int
    decreases characteristics.len(),
{
    if characteristics.len() == 0 || characteristics[0].uuid.short() == Some(uuid) {
        0
    } else {
        1 + characteristic_place(characteristics.skip(1), uuid)
    }
}

/// Finds a characteristic by its 16-bit UUID.
pub fn find_characteristic(characteristics: &[Characteristic], uuid: u16) -> (found: Option<
    &Characteristic,
>)
    ensures
        ({
            let at = characteristic_place(characteristics@, uuid);
            if at < characteristics@.len() {
                found matches Some(c) && *c == characteristics@[at]
            } else {
                found is None
            }
        }),
        found matches Some(c) ==> c.uuid.short() == Some(uuid),
{
    let mut i: usize = 0;
    assert(characteristics@.skip(0) =~= characteristics@);
    while i < characteristics.len()
        invariant
            i <= characteristics@.len(),
            characteristic_place(characteristics@, uuid) == i + characteristic_place(
                characteristics@.skip(i as int),
                uuid,
            ),
        decreases characteristics@.len() - i,
    {
        assert(characteristics@.skip(i as int).skip(1) =~= characteristics@.skip(i + 1));
        if is_short(characteristics[i].uuid.as_short(), uuid) {
            return Some(&characteristics[i]);
        }
        i = i + 1;
    }
    None
}

/// A discovered service with its characteristics.
#[derive(Debug)]
pub struct DiscoveredService {
    pub range: ServiceRange,
    pub characteristics: Vec<Characteristic>,
}

impl DiscoveredService {
    pub fn characteristic(&self, uuid: u16) -> (found: Option<&Characteristic>)
        ensures
            ({
                let at = characteristic_place(self.characteristics@, uuid);
                if at < self.characteristics@.len() {
                    found matches Some(c) && *c == self.characteristics@[at]
                } else {
                    found is None
                }
            }),
    {
        find_characteristic(&self.characteristics, uuid)
    }
}

/// Where the volume of a device is, if both of its parts are published.
pub open spec fn volume_at(
    characteristics: Seq<Characteristic>,
    state_uuid: u16,
    control_point_uuid: u16,
) -> Option<VolumeControlHandles> {
    let state = characteristic_place(characteristics, state_uuid);
    let control = characteristic_place(characteristics, control_point_uuid);
    if state < characteristics.len() && control < characteristics.len() {
        Some(
            VolumeControlHandles {
                state: characteristics[state].value_handle,
                state_cccd: (characteristics[state].value_handle + 1) as u16,
                control_point: characteristics[control].value_handle,
            },
        )
    } else {
        None
    }
}

/// Where volume lives, when the service has both a state and a control point.
/// The configuration descriptor sits immediately after the value it configures.
pub fn volume_handles(
    characteristics: &[Characteristic],
    state_uuid: u16,
    control_point_uuid: u16,
) -> (handles: Option<VolumeControlHandles>)
    requires
        ({
            let state = characteristic_place(characteristics@, state_uuid);
            let control = characteristic_place(characteristics@, control_point_uuid);
            state < characteristics@.len() && control < characteristics@.len()
                ==> characteristics@[state].value_handle < 0xFFFF
        }),
    ensures
        handles == volume_at(characteristics@, state_uuid, control_point_uuid),
{
    proof {
        lemma_characteristic_place(characteristics@, state_uuid);
    }
    let state = match find_characteristic(characteristics, state_uuid) {
        Some(state) => state.value_handle,
        None => return None,
    };
    let control_point = match find_characteristic(characteristics, control_point_uuid) {
        Some(control_point) => control_point.value_handle,
        None => return None,
    };
    Some(VolumeControlHandles { state, state_cccd: state + 1, control_point })
}

proof fn lemma_characteristic_place(characteristics: Seq<Characteristic>, uuid: u16)
    ensures
        0 <= characteristic_place(characteristics, uuid) <= characteristics.len(),
    decreases characteristics.len(),
{
    if characteristics.len() > 0 {
        lemma_characteristic_place(characteristics.skip(1), uuid);
    }
}

/// Where the level of a battery is, if it is published.
pub open spec fn battery_at(characteristics: Seq<Characteristic>) -> Option<BatteryHandles> {
    let at = characteristic_place(characteristics, battery_uuid::LEVEL);
    if at < characteristics.len() {
        Some(
            BatteryHandles {
                level: characteristics[at].value_handle,
                level_cccd: (characteristics[at].value_handle + 1) as u16,
                notifies: characteristics[at].properties & 0x10 != 0,
            },
        )
    } else {
        None
    }
}

/// Where the battery level of one Battery Service lives.
///
/// A pair of earbuds commonly exposes one instance per side and sometimes a
/// third for the case, and each is a separate primary service with its own
/// Battery Level characteristic.
pub fn battery_handles(characteristics: &[Characteristic]) -> (handles: Option<BatteryHandles>)
    requires
        ({
            let at = characteristic_place(characteristics@, battery_uuid::LEVEL);
            at < characteristics@.len() ==> characteristics@[at].value_handle < 0xFFFF
        }),
    ensures
        handles == battery_at(characteristics@),
{
    proof {
        lemma_characteristic_place(characteristics@, battery_uuid::LEVEL);
    }
    match find_characteristic(characteristics, battery_uuid::LEVEL) {
        Some(level) => Some(
            BatteryHandles {
                level: level.value_handle,
                level_cccd: level.value_handle + 1,
                notifies: level.supports_notify(),
            },
        ),
        None => None,
    }
}

// ---- The descriptor of the control point ----

/// Where the descriptors behind `control` end: before the next declaration, or
/// at the end of the service.
pub open spec fn descriptors_end(
    characteristics: Seq<Characteristic>,
    control: u16,
    service_end: u16,
) -> u16
    decreases characteristics.len(),
{
    if characteristics.len() == 0 {
        service_end
    } else {
        let before = descriptors_end(characteristics.drop_last(), control, service_end);
        let declaration = characteristics.last().declaration_handle;
        if declaration > control && (has_later(characteristics.drop_last(), control) ==> declaration
            - 1 < before) {
            (declaration - 1) as u16
        } else {
            before
        }
    }
}

/// Whether any declaration comes after `control`.
pub open spec fn has_later(characteristics: Seq<Characteristic>, control: u16) -> bool
    decreases characteristics.len(),
{
    characteristics.len() > 0 && (characteristics.last().declaration_handle > control || has_later(
        characteristics.drop_last(),
        control,
    ))
}

/// What one Find Information Response leads to.
#[derive(Debug, Clone, Copy, PartialEq, Eq, Structural)]
pub enum CccdStep {
    /// The configuration descriptor is at this handle.
    Found(u16),
    /// Ask again from the new start.
    More,
    /// There is none.
    Missing,
}

/// How many bytes an entry of a Find Information Response has.
pub open spec fn entry_width(response: Seq<u8>) -> nat {
    if response.len() < 2 || response[0] != att_op::FIND_INFORMATION_RESPONSE {
        0
    } else if response[1] == 1 {
        4
    } else if response[1] == 2 {
        18
    } else {
        0
    }
}

/// The handle of the first configuration descriptor among the entries.
pub open spec fn cccd_of(entries: Seq<Seq<u8>>) -> Option<u16>
    decreases entries.len(),
{
    if entries.len() == 0 {
        None
    } else if entries[0].len() == 4 && entries[0][2] == 0x02 && entries[0][3] == 0x29 {
        Some(u16_at(entries[0], 0))
    } else {
        cccd_of(entries.skip(1))
    }
}

/// A search for the configuration descriptor behind the control point, which is
/// discovered rather than assumed to come right after the value.
#[derive(Debug, Clone, Copy, PartialEq, Eq, Structural)]
pub struct CccdSearch {
    pub start: u16,
    pub end: u16,
}

impl CccdSearch {
    /// Starts behind the control point; there is nothing behind the last handle.
    pub fn new(characteristics: &[Characteristic], control: u16, service_end: u16) -> (search:
        Option<Self>)
        ensures
            search == if control == 0xFFFF {
                None
            } else {
                Some(
                    CccdSearch {
                        start: (control + 1) as u16,
                        end: descriptors_end(characteristics@, control, service_end),
                    },
                )
            },
    {
        let mut end = service_end;
        let mut later = false;
        let mut i: usize = 0;
        assert(characteristics@.take(0) =~= Seq::<Characteristic>::empty());
        while i < characteristics.len()
            invariant
                i <= characteristics@.len(),
                end == descriptors_end(characteristics@.take(i as int), control, service_end),
                later == has_later(characteristics@.take(i as int), control),
            decreases characteristics@.len() - i,
        {
            assert(characteristics@.take(i + 1).drop_last() =~= characteristics@.take(i as int));
            let declaration = characteristics[i].declaration_handle;
            if declaration > control {
                if !later || declaration - 1 < end {
                    end = declaration - 1;
                }
                later = true;
            }
            i = i + 1;
        }
        assert(characteristics@.take(i as int) =~= characteristics@);
        if control == 0xFFFF {
            return None;
        }
        Some(CccdSearch { start: control + 1, end })
    }

    /// The request for the descriptors that are left; none when there are none.
    pub fn request(&self) -> (pdu: Option<Vec<u8>>)
        ensures
            pdu is Some <==> self.start <= self.end,
            pdu matches Some(p) ==> p@ == seq![att_op::FIND_INFORMATION_REQUEST] + le16(self.start)
                + le16(self.end),
    {
        if self.start > self.end {
            return None;
        }
        let mut pdu: Vec<u8> = vec![att_op::FIND_INFORMATION_REQUEST];
        push_u16(&mut pdu, self.start);
        push_u16(&mut pdu, self.end);
        Some(pdu)
    }

    /// Takes one response. The search goes on behind the last entry as long as
    /// that is further than before.
    pub fn absorb(&mut self, response: &[u8]) -> (step: CccdStep)
        ensures
            final(self).end == old(self).end,
            ({
                let width = entry_width(response@);
                let entries = records(response@.skip(2), width);
                if width == 0 {
                    step == CccdStep::Missing && *final(self) == *old(self)
                } else if cccd_of(entries) is Some {
                    step == CccdStep::Found(cccd_of(entries)->0) && *final(self) == *old(self)
                } else if entries.len() > 0 && u16_at(entries.last(), 0) != 0xFFFF && u16_at(
                    entries.last(),
                    0,
                ) + 1 > old(self).start {
                    step == CccdStep::More && final(self).start == u16_at(entries.last(), 0) + 1
                } else {
                    step == CccdStep::Missing && *final(self) == *old(self)
                }
            }),
    {
        if response.len() < 2 || response[0] != att_op::FIND_INFORMATION_RESPONSE {
            return CccdStep::Missing;
        }
        let width: usize = if response[1] == 1 {
            4
        } else if response[1] == 2 {
            18
        } else {
            return CccdStep::Missing;
        };
        let ghost entries = records(response@.skip(2), width as nat);
        let mut last: Option<u16> = None;
        let mut at: usize = 2;
        let ghost mut done: Seq<Seq<u8>> = Seq::empty();
        while response.len() - at >= width
            invariant
                2 <= at <= response@.len(),
                width == 4 || width == 18,
                width == entry_width(response@),
                *self == *old(self),
                entries == records(response@.skip(2), width as nat),
                done + records(response@.skip(at as int), width as nat) =~= entries,
                cccd_of(entries) == cccd_of(records(response@.skip(at as int), width as nat)),
                match last {
                    Some(handle) => done.len() > 0 && handle == u16_at(done.last(), 0),
                    None => done.len() == 0,
                },
            decreases response@.len() - at,
        {
            let row = range(response, at, at + width);
            let ghost rest = response@.skip(at as int);
            proof {
                assert(row@ =~= rest.take(width as int));
                assert(rest.skip(width as int) =~= response@.skip(at + width));
                let here = records(rest, width as nat);
                assert(here[0] == row@);
                assert(here.skip(1) =~= records(response@.skip(at + width), width as nat));
                done = done.push(row@);
            }
            let handle = read_u16(row, 0);
            last = Some(handle);
            if width == 4 && row[2] == 0x02 && row[3] == 0x29 {
                return CccdStep::Found(handle);
            }
            at = at + width;
        }
        proof {
            assert(records(response@.skip(at as int), width as nat) =~= Seq::<Seq<u8>>::empty());
            assert(done =~= entries);
        }
        match last {
            Some(handle) => {
                if handle != 0xFFFF && handle + 1 > self.start {
                    self.start = handle + 1;
                    CccdStep::More
                } else {
                    CccdStep::Missing
                }
            },
            None => CccdStep::Missing,
        }
    }
}

// ---- Capabilities ----

/// Everything read out of a device's PACS.
#[derive(Debug)]
pub struct AudioCapabilities {
    pub sink_records: Vec<PacRecord>,
    pub source_records: Vec<PacRecord>,
    pub sink_locations: Option<u32>,
    /// Contexts the device can accept *right now*, for streams towards it.
    ///
    /// The specification calls this Available Audio Contexts, and it is the one
    /// standard, vendor-neutral way to tell that a headset is already busy with
    /// another host: a device holding a second connection publishes fewer
    /// available contexts than it supports.
    pub available_contexts: Option<u16>,
    /// The same, for streams coming from the device - its microphone.
    pub available_source_contexts: Option<u16>,
    pub supported_contexts: Option<u16>,
    pub supported_source_contexts: Option<u16>,
    /// Where Available Audio Contexts lives, so changes can be subscribed to.
    pub available_contexts_handle: Option<u16>,
    pub sink_ase_ids: Vec<u8>,
    pub source_ase_ids: Vec<u8>,
}

/// What the capabilities of a device say.
pub struct DeviceAudio {
    pub sink_records: Seq<Pac>,
    pub source_records: Seq<Pac>,
    pub sink_locations: Option<u32>,
    pub available_contexts: Option<u16>,
    pub available_source_contexts: Option<u16>,
    pub supported_contexts: Option<u16>,
    pub supported_source_contexts: Option<u16>,
    pub available_contexts_handle: Option<u16>,
    pub sink_ase_ids: Seq<u8>,
    pub source_ase_ids: Seq<u8>,
}

impl View for AudioCapabilities {
    type V = DeviceAudio;

    open spec fn view(&self) -> DeviceAudio {
        DeviceAudio {
            sink_records: pac_views(self.sink_records@),
            source_records: pac_views(self.source_records@),
            sink_locations: self.sink_locations,
            available_contexts: self.available_contexts,
            available_source_contexts: self.available_source_contexts,
            supported_contexts: self.supported_contexts,
            supported_source_contexts: self.supported_source_contexts,
            available_contexts_handle: self.available_contexts_handle,
            sink_ase_ids: self.sink_ase_ids@,
            source_ase_ids: self.source_ase_ids@,
        }
    }
}

/// The capabilities of a device that published nothing.
pub open spec fn no_audio() -> DeviceAudio {
    DeviceAudio {
        sink_records: Seq::empty(),
        source_records: Seq::empty(),
        sink_locations: None,
        available_contexts: None,
        available_source_contexts: None,
        supported_contexts: None,
        supported_source_contexts: None,
        available_contexts_handle: None,
        sink_ase_ids: Seq::empty(),
        source_ase_ids: Seq::empty(),
    }
}

/// The PAC records in a characteristic value.
pub open spec fn pacs_in(value: Seq<u8>) -> Seq<Pac> {
    if value.len() == 0 {
        Seq::empty()
    } else {
        pac_records(value.skip(1), value[0] as nat)
    }
}

/// The capabilities after the characteristic `uuid` at `handle` was read.
pub open spec fn with_value(caps: DeviceAudio, uuid: u16, handle: u16, value: Seq<u8>) -> DeviceAudio {
    if uuid == pacs_uuid::SINK_PAC {
        DeviceAudio { sink_records: pacs_in(value), ..caps }
    } else if uuid == pacs_uuid::SOURCE_PAC {
        DeviceAudio { source_records: pacs_in(value), ..caps }
    } else if uuid == pacs_uuid::SINK_AUDIO_LOCATIONS {
        if value.len() >= 4 {
            DeviceAudio { sink_locations: Some(u32_at(value, 0)), ..caps }
        } else {
            caps
        }
    } else if uuid == pacs_uuid::AVAILABLE_CONTEXTS {
        DeviceAudio {
            available_contexts_handle: Some(handle),
            available_contexts: context_at(value, 0),
            available_source_contexts: context_at(value, 2),
            ..caps
        }
    } else if uuid == pacs_uuid::SUPPORTED_CONTEXTS {
        DeviceAudio {
            supported_contexts: context_at(value, 0),
            supported_source_contexts: context_at(value, 2),
            ..caps
        }
    } else if uuid == pacs_uuid::SINK_ASE && value.len() > 0 {
        DeviceAudio { sink_ase_ids: caps.sink_ase_ids.push(value[0]), ..caps }
    } else if uuid == pacs_uuid::SOURCE_ASE && value.len() > 0 {
        DeviceAudio { source_ase_ids: caps.source_ase_ids.push(value[0]), ..caps }
    } else {
        caps
    }
}

/// The characteristics of PACS in the order they are read.
pub open spec fn pacs_order() -> Seq<u16> {
    seq![
        pacs_uuid::SINK_PAC,
        pacs_uuid::SOURCE_PAC,
        pacs_uuid::SINK_AUDIO_LOCATIONS,
        pacs_uuid::AVAILABLE_CONTEXTS,
        pacs_uuid::SUPPORTED_CONTEXTS,
    ]
}

/// What is read out of PACS: those of the given characteristics that the
/// service has, each with its handle, in order.
pub open spec fn reads_of(characteristics: Seq<Characteristic>, uuids: Seq<u16>) -> Seq<(u16, u16)>
    decreases uuids.len(),
{
    if uuids.len() == 0 {
        Seq::empty()
    } else {
        let before = reads_of(characteristics, uuids.drop_last());
        let at = characteristic_place(characteristics, uuids.last());
        if at < characteristics.len() {
            before.push((uuids.last(), characteristics[at].value_handle))
        } else {
            before
        }
    }
}

/// What has to be read out of PACS, in order.
pub fn pacs_reads(characteristics: &[Characteristic]) -> (reads: Vec<(u16, u16)>)
    ensures
        reads@ == reads_of(characteristics@, pacs_order()),
{
    let uuids: [u16; 5] = [
        pacs_uuid::SINK_PAC,
        pacs_uuid::SOURCE_PAC,
        pacs_uuid::SINK_AUDIO_LOCATIONS,
        pacs_uuid::AVAILABLE_CONTEXTS,
        pacs_uuid::SUPPORTED_CONTEXTS,
    ];
    assert(uuids@ =~= pacs_order());
    let mut reads: Vec<(u16, u16)> = Vec::new();
    let mut i: usize = 0;
    assert(uuids@.take(0) =~= Seq::<u16>::empty());
    assert(reads@ =~= reads_of(characteristics@, uuids@.take(0)));
    while i < 5
        invariant
            i <= 5,
            reads@ == reads_of(characteristics@, uuids@.take(i as int)),
        decreases 5 - i,
    {
        assert(uuids@.take(i + 1).drop_last() =~= uuids@.take(i as int));
        if let Some(c) = find_characteristic(characteristics, uuids[i]) {
            reads.push((uuids[i], c.value_handle));
        }
        i = i + 1;
    }
    assert(uuids@.take(5) =~= uuids@);
    reads
}

/// The endpoints among the characteristics of ASCS, each with its handle, in
/// order.
pub open spec fn ase_reads_of(characteristics: Seq<Characteristic>) -> Seq<(u16, u16)>
    decreases characteristics.len(),
{
    if characteristics.len() == 0 {
        Seq::empty()
    } else {
        let before = ase_reads_of(characteristics.drop_last());
        let c = characteristics.last();
        if c.uuid.short() == Some(pacs_uuid::SINK_ASE) {
            before.push((pacs_uuid::SINK_ASE, c.value_handle))
        } else if c.uuid.short() == Some(pacs_uuid::SOURCE_ASE) {
            before.push((pacs_uuid::SOURCE_ASE, c.value_handle))
        } else {
            before
        }
    }
}

/// The endpoints among the characteristics of ASCS, in order.
pub fn ase_reads(characteristics: &[Characteristic]) -> (reads: Vec<(u16, u16)>)
    ensures
        reads@ == ase_reads_of(characteristics@),
{
    let mut reads: Vec<(u16, u16)> = Vec::new();
    let mut i: usize = 0;
    assert(characteristics@.take(0) =~= Seq::<Characteristic>::empty());
    assert(reads@ =~= ase_reads_of(characteristics@.take(0)));
    while i < characteristics.len()
        invariant
            i <= characteristics@.len(),
            reads@ == ase_reads_of(characteristics@.take(i as int)),
        decreases characteristics@.len() - i,
    {
        assert(characteristics@.take(i + 1).drop_last() =~= characteristics@.take(i as int));
        let uuid = characteristics[i].uuid.as_short();
        if is_short(uuid, pacs_uuid::SINK_ASE) {
            reads.push((pacs_uuid::SINK_ASE, characteristics[i].value_handle));
        } else if is_short(uuid, pacs_uuid::SOURCE_ASE) {
            reads.push((pacs_uuid::SOURCE_ASE, characteristics[i].value_handle));
        }
        i = i + 1;
    }
    assert(characteristics@.take(i as int) =~= characteristics@);
    reads
}

/// The characteristics of ASCS that are subscribed to, each with its handle: the
/// endpoints and the control point, in order.
pub open spec fn ascs_subscriptions_of(characteristics: Seq<Characteristic>) -> Seq<(u16, u16)>
    decreases characteristics.len(),
{
    if characteristics.len() == 0 {
        Seq::empty()
    } else {
        let before = ascs_subscriptions_of(characteristics.drop_last());
        let c = characteristics.last();
        match c.uuid.short() {
            Some(uuid) => if uuid == pacs_uuid::SINK_ASE || uuid == pacs_uuid::SOURCE_ASE || uuid
                == pacs_uuid::ASE_CONTROL_POINT {
                before.push((uuid, c.value_handle))
            } else {
                before
            },
            None => before,
        }
    }
}

/// The characteristics of ASCS that are subscribed to, in order.
pub fn ascs_subscriptions(characteristics: &[Characteristic]) -> (found: Vec<(u16, u16)>)
    ensures
        found@ == ascs_subscriptions_of(characteristics@),
{
    let mut found: Vec<(u16, u16)> = Vec::new();
    let mut i: usize = 0;
    assert(characteristics@.take(0) =~= Seq::<Characteristic>::empty());
    assert(found@ =~= ascs_subscriptions_of(characteristics@.take(0)));
    while i < characteristics.len()
        invariant
            i <= characteristics@.len(),
            found@ == ascs_subscriptions_of(characteristics@.take(i as int)),
        decreases characteristics@.len() - i,
    {
        assert(characteristics@.take(i + 1).drop_last() =~= characteristics@.take(i as int));
        if let Some(uuid) = characteristics[i].uuid.as_short() {
            if uuid == pacs_uuid::SINK_ASE || uuid == pacs_uuid::SOURCE_ASE || uuid
                == pacs_uuid::ASE_CONTROL_POINT {
                found.push((uuid, characteristics[i].value_handle));
            }
        }
        i = i + 1;
    }
    assert(characteristics@.take(i as int) =~= characteristics@);
    found
}

/// The state in an ASE value, when that ASE is one of those asked for.
pub fn wanted_state(value: &[u8], wanted: &[u8]) -> (state: Option<AseState>)
    ensures
        state is Some <==> value@.len() >= 2 && wanted@.contains(value@[0]),
        state matches Some(s) ==> s.ase_id == value@[0] && s.state == value@[1],
{
    match parse_state(value) {
        Some(state) => if crate::bap::lists_count(wanted, state.ase_id) {
            Some(state)
        } else {
            None
        },
        None => None,
    }
}

impl Default for AudioCapabilities {
    fn default() -> (caps: Self)
        ensures
            caps@ == no_audio(),
    {
        let caps = AudioCapabilities {
            sink_records: Vec::new(),
            source_records: Vec::new(),
            sink_locations: None,
            available_contexts: None,
            available_source_contexts: None,
            supported_contexts: None,
            supported_source_contexts: None,
            available_contexts_handle: None,
            sink_ase_ids: Vec::new(),
            source_ase_ids: Vec::new(),
        };
        assert(caps@.sink_records =~= Seq::<Pac>::empty());
        assert(caps@.source_records =~= Seq::<Pac>::empty());
        assert(caps@.sink_ase_ids =~= Seq::<u8>::empty());
        assert(caps@.source_ase_ids =~= Seq::<u8>::empty());
        caps
    }
}

fn copy_records(records: &Vec<PacRecord>) -> (copy: Vec<PacRecord>)
    ensures
        pac_views(copy@) == pac_views(records@),
{
    let mut copy: Vec<PacRecord> = Vec::new();
    let mut i: usize = 0;
    while i < records.len()
        invariant
            i <= records@.len(),
            pac_views(copy@) =~= pac_views(records@).take(i as int),
        decreases records@.len() - i,
    {
        let record = records[i].clone();
        let ghost held = pac_views(copy@);
        copy.push(record);
        assert(pac_views(copy@) =~= held.push(record@));
        i = i + 1;
    }
    assert(pac_views(copy@) =~= pac_views(records@));
    copy
}

impl Clone for AudioCapabilities {
    fn clone(&self) -> (copy: Self)
        ensures
            copy@ == self@,
    {
        AudioCapabilities {
            sink_records: copy_records(&self.sink_records),
            source_records: copy_records(&self.source_records),
            sink_locations: self.sink_locations,
            available_contexts: self.available_contexts,
            available_source_contexts: self.available_source_contexts,
            supported_contexts: self.supported_contexts,
            supported_source_contexts: self.supported_source_contexts,
            available_contexts_handle: self.available_contexts_handle,
            sink_ase_ids: copy_bytes(&self.sink_ase_ids),
            source_ase_ids: copy_bytes(&self.source_ase_ids),
        }
    }
}

impl AudioCapabilities {
    /// Takes over what the characteristic `uuid` at `handle` holds.
    pub fn absorb(&mut self, uuid: u16, handle: u16, value: &[u8])
        ensures
            final(self)@ == with_value(old(self)@, uuid, handle, value@),
    {
        if uuid == pacs_uuid::SINK_PAC {
            self.sink_records = PacRecord::parse_characteristic(value);
        } else if uuid == pacs_uuid::SOURCE_PAC {
            self.source_records = PacRecord::parse_characteristic(value);
        } else if uuid == pacs_uuid::SINK_AUDIO_LOCATIONS {
            if value.len() >= 4 {
                self.sink_locations = Some(read_u32(value, 0));
            }
        } else if uuid == pacs_uuid::AVAILABLE_CONTEXTS {
            let (sink, source) = parse_context_pair(value);
            self.available_contexts_handle = Some(handle);
            self.available_contexts = sink;
            self.available_source_contexts = source;
        } else if uuid == pacs_uuid::SUPPORTED_CONTEXTS {
            let (sink, source) = parse_context_pair(value);
            self.supported_contexts = sink;
            self.supported_source_contexts = source;
        } else if uuid == pacs_uuid::SINK_ASE {
            // First byte of an ASE value is its id.
            if value.len() > 0 {
                self.sink_ase_ids.push(value[0]);
            }
        } else if uuid == pacs_uuid::SOURCE_ASE {
            if value.len() > 0 {
                self.source_ase_ids.push(value[0]);
            }
        }
    }
}

// ---- What a link is for ----

/// The numbers the Bluetooth SIG assigned to the services and characteristics that
/// are looked for.
pub proof fn assigned_numbers()
    ensures
        pacs_uuid::SERVICE_ASCS == 0x184E,
        pacs_uuid::SERVICE_PACS == 0x1850,
        pacs_uuid::SINK_ASE == 0x2BC4,
        pacs_uuid::SOURCE_ASE == 0x2BC5,
        pacs_uuid::ASE_CONTROL_POINT == 0x2BC6,
        pacs_uuid::SINK_PAC == 0x2BC9,
        pacs_uuid::SINK_AUDIO_LOCATIONS == 0x2BCA,
        pacs_uuid::SOURCE_PAC == 0x2BCB,
        pacs_uuid::AVAILABLE_CONTEXTS == 0x2BCD,
        pacs_uuid::SUPPORTED_CONTEXTS == 0x2BCE,
        battery_uuid::SERVICE == 0x180F,
        battery_uuid::LEVEL == 0x2A19,
{
}

/// The first two numbers of a list, where both are there.
pub open spec fn both_at(value: Seq<u8>) -> (Option<u16>, Option<u16>) {
    (
        if value.len() >= 2 {
            Some((value[0] + 256 * value[1]) as u16)
        } else {
            None
        },
        if value.len() >= 4 {
            Some((value[2] + 256 * value[3]) as u16)
        } else {
            None
        },
    )
}

/// Every value that is read says one thing about the device and nothing else: its
/// Sink and Source records, its ears, the contexts it takes now and the ones it
/// supports, towards it first and from it second, and its endpoints one by one.
pub proof fn every_value_says_one_thing(
    caps: DeviceAudio,
    uuid: u16,
    handle: u16,
    value: Seq<u8>,
)
    ensures
        ({
            let now = with_value(caps, uuid, handle, value);
            &&& now.sink_records == if uuid == 0x2BC9 {
                pacs_in(value)
            } else {
                caps.sink_records
            }
            &&& now.source_records == if uuid == 0x2BCB {
                pacs_in(value)
            } else {
                caps.source_records
            }
            &&& now.sink_locations == if uuid == 0x2BCA && value.len() >= 4 {
                Some(
                    (value[0] + 256 * value[1] + 65536 * value[2] + 16777216 * value[3]) as u32,
                )
            } else {
                caps.sink_locations
            }
            &&& (now.available_contexts, now.available_source_contexts) == if uuid == 0x2BCD {
                both_at(value)
            } else {
                (caps.available_contexts, caps.available_source_contexts)
            }
            &&& now.available_contexts_handle == if uuid == 0x2BCD {
                Some(handle)
            } else {
                caps.available_contexts_handle
            }
            &&& (now.supported_contexts, now.supported_source_contexts) == if uuid == 0x2BCE {
                both_at(value)
            } else {
                (caps.supported_contexts, caps.supported_source_contexts)
            }
            &&& now.sink_ase_ids == if uuid == 0x2BC4 && value.len() > 0 {
                caps.sink_ase_ids.push(value[0])
            } else {
                caps.sink_ase_ids
            }
            &&& now.source_ase_ids == if uuid == 0x2BC5 && value.len() > 0 {
                caps.source_ase_ids.push(value[0])
            } else {
                caps.source_ase_ids
            }
        }),
        forall|count: u8, records: Seq<u8>|
            #![trigger pac_records(records, count as nat)]
            pacs_in(seq![count] + records) == pac_records(records, count as nat),
{
    assert forall|count: u8, records: Seq<u8>|
        #![trigger pac_records(records, count as nat)]
        pacs_in(seq![count] + records) == pac_records(records, count as nat) by {
        assert((seq![count] + records).skip(1) =~= records);
        assert((seq![count] + records)[0] == count);
    }
}

/// A characteristic that is looked for is the first with its UUID, in the short
/// form or on the Bluetooth base, and a service likewise.
pub proof fn the_first_with_the_uuid_is_found(
    characteristics: Seq<Characteristic>,
    services: Seq<ServiceRange>,
    uuid: u16,
)
    ensures
        ({
            let at = characteristic_place(characteristics, uuid);
            &&& 0 <= at <= characteristics.len()
            &&& at < characteristics.len() ==> characteristics[at].uuid.short() == Some(uuid)
            &&& forall|i: int|
                0 <= i < at ==> (#[trigger] characteristics[i]).uuid.short() != Some(uuid)
        }),
        ({
            let at = service_place(services, uuid);
            &&& 0 <= at <= services.len()
            &&& at < services.len() ==> services[at].uuid.short() == Some(uuid)
            &&& forall|i: int| 0 <= i < at ==> (#[trigger] services[i]).uuid.short() != Some(uuid)
        }),
    decreases characteristics.len() + services.len(),
{
    if characteristics.len() > 0 && characteristics[0].uuid.short() != Some(uuid) {
        let rest = characteristics.skip(1);
        the_first_with_the_uuid_is_found(rest, Seq::empty(), uuid);
        let at = characteristic_place(characteristics, uuid);
        assert forall|i: int| 0 <= i < at implies (
        #[trigger] characteristics[i]).uuid.short() != Some(uuid) by {
            if i > 0 {
                assert(characteristics[i] == rest[i - 1]);
            }
        }
    }
    if services.len() > 0 && services[0].uuid.short() != Some(uuid) {
        let rest = services.skip(1);
        the_first_with_the_uuid_is_found(Seq::empty(), rest, uuid);
        let at = service_place(services, uuid);
        assert forall|i: int| 0 <= i < at implies (#[trigger] services[i]).uuid.short() != Some(
            uuid,
        ) by {
            if i > 0 {
                assert(services[i] == rest[i - 1]);
            }
        }
    }
}

/// Every endpoint of the service is read, Sink and Source, each under its own UUID
/// and at the handle of its value; and those are subscribed to, and the control
/// point besides. Nothing else is.
#[verifier::rlimit(60)]
pub proof fn every_endpoint_is_read_and_subscribed(
    characteristics: Seq<Characteristic>,
    uuid: u16,
    handle: u16,
)
    ensures
        ase_reads_of(characteristics).contains((uuid, handle)) <==> (uuid == 0x2BC4 || uuid
            == 0x2BC5) && exists|i: int|
            0 <= i < characteristics.len() && (#[trigger] characteristics[i]).uuid.short() == Some(
                uuid,
            ) && characteristics[i].value_handle == handle,
        ascs_subscriptions_of(characteristics).contains((uuid, handle)) <==> (uuid == 0x2BC4 || uuid
            == 0x2BC5 || uuid == 0x2BC6) && exists|i: int|
            0 <= i < characteristics.len() && (#[trigger] characteristics[i]).uuid.short() == Some(
                uuid,
            ) && characteristics[i].value_handle == handle,
    decreases characteristics.len(),
{
    let x = (uuid, handle);
    if characteristics.len() > 0 {
        let rest = characteristics.drop_last();
        let last = characteristics.last();
        every_endpoint_is_read_and_subscribed(rest, uuid, handle);
        lemma_pushed(ase_reads_of(rest), (0x2BC4u16, last.value_handle), x);
        lemma_pushed(ase_reads_of(rest), (0x2BC5u16, last.value_handle), x);
        if last.uuid.short() is Some {
            lemma_pushed(
                ascs_subscriptions_of(rest),
                (last.uuid.short()->0, last.value_handle),
                x,
            );
        }
        assert((exists|i: int|
            0 <= i < characteristics.len() && (#[trigger] characteristics[i]).uuid.short() == Some(
                uuid,
            ) && characteristics[i].value_handle == handle) <==> (exists|i: int|
            0 <= i < rest.len() && (#[trigger] rest[i]).uuid.short() == Some(uuid)
                && rest[i].value_handle == handle) || (last.uuid.short() == Some(uuid)
            && last.value_handle == handle)) by {
            if last.uuid.short() == Some(uuid) && last.value_handle == handle {
                assert(characteristics[characteristics.len() - 1] == last);
            }
            if exists|i: int|
                0 <= i < rest.len() && (#[trigger] rest[i]).uuid.short() == Some(uuid)
                    && rest[i].value_handle == handle {
                let i = choose|i: int|
                    0 <= i < rest.len() && (#[trigger] rest[i]).uuid.short() == Some(uuid)
                        && rest[i].value_handle == handle;
                assert(characteristics[i] == rest[i]);
            }
            if exists|i: int|
                0 <= i < characteristics.len() && (
                #[trigger] characteristics[i]).uuid.short() == Some(uuid)
                    && characteristics[i].value_handle == handle {
                let i = choose|i: int|
                    0 <= i < characteristics.len() && (
                    #[trigger] characteristics[i]).uuid.short() == Some(uuid)
                        && characteristics[i].value_handle == handle;
                if i < rest.len() {
                    assert(characteristics[i] == rest[i]);
                }
            }
        }
    }
}

proof fn lemma_pushed<T>(list: Seq<T>, last: T, x: T)
    ensures
        list.push(last).contains(x) <==> list.contains(x) || x == last,
{
    let all = list.push(last);
    if list.contains(x) {
        let i = choose|i: int| 0 <= i < list.len() && list[i] == x;
        assert(all[i] == x);
    }
    if x == last {
        assert(all[list.len() as int] == x);
    }
    if all.contains(x) {
        let i = choose|i: int| 0 <= i < all.len() && all[i] == x;
        if i < list.len() {
            assert(list[i] == x);
        }
    }
}

/// What the capability service publishes is read in one order: the Sink records,
/// the Source records, the ears, the contexts available and those supported, each
/// where it is published and at the handle of its value.
pub proof fn capabilities_are_read_in_order(
    characteristics: Seq<Characteristic>,
    uuid: u16,
    handle: u16,
)
    ensures
        pacs_order() == seq![0x2BC9u16, 0x2BCB, 0x2BCA, 0x2BCD, 0x2BCE],
        reads_of(characteristics, pacs_order()).contains((uuid, handle)) <==> pacs_order().contains(
            uuid,
        ) && characteristic_place(characteristics, uuid) < characteristics.len()
            && characteristics[characteristic_place(characteristics, uuid)].value_handle == handle,
{
    assert(pacs_order() =~= seq![0x2BC9u16, 0x2BCB, 0x2BCA, 0x2BCD, 0x2BCE]);
    lemma_reads_of(characteristics, pacs_order(), uuid, handle);
}

proof fn lemma_reads_of(
    characteristics: Seq<Characteristic>,
    uuids: Seq<u16>,
    uuid: u16,
    handle: u16,
)
    ensures
        reads_of(characteristics, uuids).contains((uuid, handle)) <==> uuids.contains(uuid)
            && characteristic_place(characteristics, uuid) < characteristics.len()
            && characteristics[characteristic_place(characteristics, uuid)].value_handle == handle,
    decreases uuids.len(),
{
    if uuids.len() > 0 {
        let rest = uuids.drop_last();
        let last = uuids.last();
        lemma_reads_of(characteristics, rest, uuid, handle);
        assert(rest.push(last) =~= uuids);
        lemma_pushed(rest, last, uuid);
        let at = characteristic_place(characteristics, last);
        lemma_pushed(
            reads_of(characteristics, rest),
            (last, characteristics[at].value_handle),
            (uuid, handle),
        );
    }
}

/// An indication is confirmed and a notification is not, and both are kept with the
/// handle they are about; a peer that asks for an MTU is offered ours and gets what
/// suits both.
#[verifier::rlimit(60)]
pub proof fn what_the_peer_starts_is_answered(
    c: Client,
    s: Media,
    opcode: u8,
    handle: u16,
    value: Seq<u8>,
    late: bool,
)
    ensures
        ({
            let payload = seq![opcode, (handle % 256) as u8, (handle / 256) as u8] + value;
            let (heard, after, served) = heard_att(c, s, payload, late);
            &&& opcode == 0x1D ==> heard == Heard::Reply(seq![0x1Eu8])
            &&& opcode == 0x1B ==> heard == Heard::Nothing
            &&& opcode == 0x1B || opcode == 0x1D ==> after.notifications == c.notifications.push(
                (handle, value),
            ) && after == (Client { notifications: after.notifications, ..c }) && served == s
            &&& opcode == 0x02 ==> heard == Heard::Reply(seq![0x03u8, 5, 2]) && after == (Client {
                mtu: crate::att::agreed_mtu(517, handle),
                ..c
            }) && served == s
            &&& opcode != 0x1B && opcode != 0x1D ==> after.notifications == c.notifications
        }),
{
    let payload = seq![opcode, (handle % 256) as u8, (handle / 256) as u8] + value;
    assert(payload[0] == opcode);
    assert(payload[1] == (handle % 256) as u8 && payload[2] == (handle / 256) as u8);
    assert(u16_at(payload, 1) == handle);
    assert(payload.skip(3) =~= value);
    assert(seq![att_op::EXCHANGE_MTU_RESPONSE] + le16(ATT_PREFERRED_MTU) =~= seq![0x03u8, 5, 2]);
}

/// A peer that asks for other parameters is answered under its own identifier:
/// accepted, and then they are applied as they were asked for; or rejected, and
/// then nothing is.
#[verifier::rlimit(60)]
pub proof fn a_parameter_request_is_answered(
    handle: u16,
    identifier: u8,
    asked: crate::l2cap::ConnectionParameters,
)
    ensures
        ({
            let payload = seq![0x12u8, identifier, 8, 0] + crate::l2cap::parameter_bytes(asked);
            let answer = signalling_answer(handle, 5, payload);
            let (response, update) = answer->0;
            &&& answer is Some
            &&& response == seq![
                0x13u8,
                identifier,
                2,
                0,
                if asked.permitted() {
                    0
                } else {
                    1
                },
                0,
            ]
            &&& update is Some <==> asked.permitted()
            &&& asked.permitted() ==> update == Some(seq![
                0x13u8,
                0x20,
                14,
                (handle % 256) as u8,
                (handle / 256) as u8,
            ] + crate::l2cap::parameter_bytes(asked) + seq![0u8, 0, 0, 0])
        }),
        forall|channel: u16, payload: Seq<u8>|
            channel != 5 ==> #[trigger] signalling_answer(handle, channel, payload) is None,
{
    let payload = seq![0x12u8, identifier, 8, 0] + crate::l2cap::parameter_bytes(asked);
    assert(payload =~= seq![crate::l2cap::code::CONNECTION_PARAMETER_UPDATE_REQUEST, identifier]
        + le16(8) + crate::l2cap::parameter_bytes(asked));
    crate::l2cap::every_request_is_understood(identifier, asked);
    let answer = signalling_answer(handle, 5, payload)->0;
    assert(answer.0 =~= seq![
        0x13u8,
        identifier,
        2,
        0,
        if asked.permitted() {
            0
        } else {
            1
        },
        0,
    ]);
    if asked.permitted() {
        crate::hci::accepted_parameters_are_the_ones_asked_for(handle, asked);
        assert(answer.1->0 =~= seq![
            0x13u8,
            0x20,
            14,
            (handle % 256) as u8,
            (handle / 256) as u8,
        ] + crate::l2cap::parameter_bytes(asked) + seq![0u8, 0, 0, 0]);
    }
}

/// Frames are told apart by their channel: 4 is attributes, 6 pairing, and only the
/// one that is waited for is handed on.
pub proof fn a_frame_is_heard_on_its_own_channel(
    c: Client,
    s: Media,
    raw: Seq<u8>,
    late: bool,
    channel: u16,
    payload: Seq<u8>,
)
    requires
        absorb(c.gathered, raw).0 == Absorbed::Frame(channel, payload),
    ensures
        channel == 4 ==> heard_while_waiting(c, s, raw, late) == heard_att(
            Client { gathered: absorb(c.gathered, raw).1, ..c },
            s,
            payload,
            late,
        ),
        channel != 4 ==> heard_while_waiting(c, s, raw, late).0 == heard_signalling(
            c.handle,
            channel,
            payload,
        ) && heard_while_waiting(c, s, raw, late).2 == s,
        channel == 6 ==> heard_while_pairing(c, raw).0 == Heard::Answer(
            payload,
            Seq::<Seq<u8>>::empty(),
        ),
        channel != 6 ==> heard_while_pairing(c, raw).0 == heard_signalling(
            c.handle,
            channel,
            payload,
        ),
{
}

/// The end of a connection is told for that connection only, with its own reason,
/// and is taken out while everything else stays in order.
#[verifier::rlimit(60)]
pub proof fn a_loss_is_taken_for_its_own_link(events: Seq<(u8, Seq<u8>)>, handle: u16)
    ensures
        ({
            let at = loss_place(events, handle);
            &&& 0 <= at <= events.len()
            &&& at < events.len() ==> is_loss(events[at], handle)
            &&& forall|i: int| 0 <= i < at ==> !is_loss(#[trigger] events[i], handle)
        }),
        last_loss(events, handle) is Some <==> exists|i: int|
            0 <= i < events.len() && is_loss(#[trigger] events[i], handle),
        last_loss(events, handle) is Some ==> exists|i: int|
            0 <= i < events.len() && is_loss(#[trigger] events[i], handle) && last_loss(
                events,
                handle,
            ) == Some(loss_reason(events[i])) && forall|j: int|
                i < j < events.len() ==> !is_loss(#[trigger] events[j], handle),
        forall|event: (u8, Seq<u8>)| #[trigger]
            without_losses(events, handle).contains(event) <==> events.contains(event) && !is_loss(
                event,
                handle,
            ),
    decreases events.len(),
{
    lemma_loss_place(events, handle);
    if events.len() > 0 {
        let rest = events.drop_last();
        let last = events.last();
        a_loss_is_taken_for_its_own_link(rest, handle);
        assert(rest.push(last) =~= events);
        assert forall|event: (u8, Seq<u8>)| #[trigger]
            without_losses(events, handle).contains(event) <==> events.contains(event) && !is_loss(
                event,
                handle,
            ) by {
            lemma_pushed(rest, last, event);
            lemma_pushed(without_losses(rest, handle), last, event);
            assert(without_losses(rest, handle).contains(event) <==> rest.contains(event)
                && !is_loss(event, handle));
        }
        assert(events[events.len() - 1] == last);
        if is_loss(last, handle) {
            assert(last_loss(events, handle) == Some(loss_reason(events[events.len() - 1])));
        } else {
            assert(forall|i: int| 0 <= i < rest.len() ==> #[trigger] rest[i] == events[i]);
            if last_loss(rest, handle) is Some {
                let i = choose|i: int|
                    0 <= i < rest.len() && is_loss(#[trigger] rest[i], handle) && last_loss(
                        rest,
                        handle,
                    ) == Some(loss_reason(rest[i])) && forall|j: int|
                        i < j < rest.len() ==> !is_loss(#[trigger] rest[j], handle);
                assert(events[i] == rest[i]);
                assert forall|j: int| i < j < events.len() implies !is_loss(
                    #[trigger] events[j],
                    handle,
                ) by {
                    if j < rest.len() {
                        assert(rest[j] == events[j]);
                    }
                }
            } else {
                assert forall|i: int| 0 <= i < events.len() implies !is_loss(
                    #[trigger] events[i],
                    handle,
                ) by {
                    if i < rest.len() {
                        assert(rest[i] == events[i]);
                    }
                }
            }
        }
    }
}

/// A control point answer is a complaint exactly when it is about the operation in
/// flight and refuses it for at least one endpoint. A code of zero accepts.
pub proof fn a_refused_operation_is_noticed(value: Seq<u8>, opcode: u8)
    requires
        value.len() >= 2,
    ensures
        complaint_of(value, Some(opcode)) is Some <==> value[0] == opcode && exists|i: int|
            0 <= i < control_point_answers(value).len() && (#[trigger] control_point_answers(
                value,
            )[i]).response_code != 0,
        complaint_of(value, None) is None,
{
    lemma_first_rejection(control_point_answers(value));
}

proof fn lemma_first_rejection(answers: Seq<AseResponse>)
    ensures
        first_rejection(answers) is Some <==> exists|i: int|
            0 <= i < answers.len() && (#[trigger] answers[i]).response_code != 0,
        first_rejection(answers) matches Some(a) ==> a.response_code != 0 && answers.contains(a),
    decreases answers.len(),
{
    if answers.len() > 0 {
        let rest = answers.skip(1);
        lemma_first_rejection(rest);
        assert(forall|i: int| 0 <= i < rest.len() ==> #[trigger] rest[i] == answers[i + 1]);
        if answers[0].response_code != 0 {
            assert(answers.contains(answers[0]));
        } else {
            if first_rejection(rest) is Some {
                let i = choose|i: int|
                    0 <= i < rest.len() && (#[trigger] rest[i]).response_code != 0;
                assert(answers[i + 1].response_code != 0);
                let k = choose|k: int| 0 <= k < rest.len() && rest[k] == first_rejection(rest)->0;
                assert(answers[k + 1] == rest[k]);
            }
            if exists|i: int| 0 <= i < answers.len() && (#[trigger] answers[i]).response_code != 0 {
                let i = choose|i: int|
                    0 <= i < answers.len() && (#[trigger] answers[i]).response_code != 0;
                assert(rest[i - 1] == answers[i]);
            }
        }
    }
}

/// What was notified by others than the control point stays, and what the control
/// point said goes; of the endpoints known, those asked for are handed out.
pub proof fn only_the_control_point_is_cleared(
    notifications: Seq<(u16, Seq<u8>)>,
    control_point: Option<u16>,
    ases: Seq<(u8, u16)>,
    wanted: Seq<u8>,
    noted: (u16, Seq<u8>),
    ase: (u8, u16),
)
    ensures
        of_others(notifications, control_point).contains(noted) <==> notifications.contains(noted)
            && control_point != Some(noted.0),
        wanted_ases(ases, wanted).contains(ase) <==> ases.contains(ase) && wanted.contains(ase.0),
    decreases notifications.len() + ases.len(),
{
    if notifications.len() > 0 {
        let rest = notifications.drop_last();
        only_the_control_point_is_cleared(rest, control_point, Seq::empty(), wanted, noted, ase);
        assert(rest.push(notifications.last()) =~= notifications);
        lemma_pushed(rest, notifications.last(), noted);
        lemma_pushed(of_others(rest, control_point), notifications.last(), noted);
    }
    if ases.len() > 0 {
        let rest = ases.drop_last();
        only_the_control_point_is_cleared(Seq::empty(), control_point, rest, wanted, noted, ase);
        assert(rest.push(ases.last()) =~= ases);
        lemma_pushed(rest, ases.last(), ase);
        lemma_pushed(wanted_ases(rest, wanted), ases.last(), ase);
    }
}

/// The descriptors of a characteristic end right before the next declaration
/// behind it, or with the service where there is none.
#[verifier::rlimit(60)]
pub proof fn descriptors_end_before_the_next_declaration(
    characteristics: Seq<Characteristic>,
    control: u16,
    service_end: u16,
)
    ensures
        ({
            let end = descriptors_end(characteristics, control, service_end);
            &&& (forall|i: int|
                0 <= i < characteristics.len() ==> (
                #[trigger] characteristics[i]).declaration_handle <= control) ==> end
                == service_end
            &&& forall|i: int|
                0 <= i < characteristics.len() && (
                #[trigger] characteristics[i]).declaration_handle > control ==> end
                    < characteristics[i].declaration_handle
            &&& end == service_end || exists|i: int|
                0 <= i < characteristics.len() && (
                #[trigger] characteristics[i]).declaration_handle == end + 1 && end + 1 > control
        }),
        has_later(characteristics, control) <==> exists|i: int|
            0 <= i < characteristics.len() && (#[trigger] characteristics[i]).declaration_handle
                > control,
    decreases characteristics.len(),
{
    if characteristics.len() > 0 {
        let rest = characteristics.drop_last();
        let last = characteristics.last();
        descriptors_end_before_the_next_declaration(rest, control, service_end);
        assert(characteristics[characteristics.len() - 1] == last);
        assert(forall|i: int| 0 <= i < rest.len() ==> #[trigger] rest[i] == characteristics[i]);
        let before = descriptors_end(rest, control, service_end);
        let end = descriptors_end(characteristics, control, service_end);
        if has_later(rest, control) {
            let i = choose|i: int|
                0 <= i < rest.len() && (#[trigger] rest[i]).declaration_handle > control;
            assert(characteristics[i].declaration_handle > control);
        }
        if exists|i: int|
            0 <= i < characteristics.len() && (#[trigger] characteristics[i]).declaration_handle
                > control {
            let i = choose|i: int|
                0 <= i < characteristics.len() && (
                #[trigger] characteristics[i]).declaration_handle > control;
            if i < rest.len() {
                assert(rest[i].declaration_handle > control);
            }
        }
        if end == before && before != service_end {
            let i = choose|i: int|
                0 <= i < rest.len() && (#[trigger] rest[i]).declaration_handle == before + 1
                    && before + 1 > control;
            assert(characteristics[i].declaration_handle == end + 1);
        }
        assert forall|i: int|
            0 <= i < characteristics.len() && (#[trigger] characteristics[i]).declaration_handle
                > control implies end < characteristics[i].declaration_handle by {
            if i < rest.len() {
                assert(rest[i].declaration_handle > control);
                assert(has_later(rest, control));
            }
        }
    }
}

/// The descriptor that is looked for is the first short entry whose type is the
/// client configuration, and its handle is what is found.
pub proof fn the_configuration_descriptor_is_found(entries: Seq<Seq<u8>>)
    ensures
        match cccd_of(entries) {
            Some(handle) => exists|i: int|
                0 <= i < entries.len() && (#[trigger] entries[i]) == seq![
                    (handle % 256) as u8,
                    (handle / 256) as u8,
                    0x02u8,
                    0x29,
                ],
            None => forall|i: int|
                0 <= i < entries.len() && (#[trigger] entries[i]).len() == 4 ==> entries[i][2]
                    != 0x02 || entries[i][3] != 0x29,
        },
    decreases entries.len(),
{
    if entries.len() > 0 {
        let rest = entries.skip(1);
        the_configuration_descriptor_is_found(rest);
        assert(forall|i: int| 0 <= i < rest.len() ==> #[trigger] rest[i] == entries[i + 1]);
        let first = entries[0];
        if first.len() == 4 && first[2] == 0x02 && first[3] == 0x29 {
            let handle = u16_at(first, 0);
            assert(first =~= seq![(handle % 256) as u8, (handle / 256) as u8, 0x02u8, 0x29]);
        } else {
            match cccd_of(rest) {
                Some(handle) => {
                    let i = choose|i: int|
                        0 <= i < rest.len() && (#[trigger] rest[i]) == seq![
                            (handle % 256) as u8,
                            (handle / 256) as u8,
                            0x02u8,
                            0x29,
                        ];
                    assert(entries[i + 1] == rest[i]);
                },
                None => {
                    assert forall|i: int|
                        0 <= i < entries.len() && (
                        #[trigger] entries[i]).len() == 4 implies entries[i][2] != 0x02
                        || entries[i][3] != 0x29 by {
                        if i > 0 {
                            assert(entries[i] == rest[i - 1]);
                        }
                    }
                },
            }
        }
    }
}

/// A value is asked for by its handle, and its rest from where what was read ends.
/// Past the end and not found are told by their own codes.
pub proof fn a_long_value_is_asked_for_in_turn(reading: Reading, code: u8, handle: u16)
    requires
        reading.value.len() <= 0xFFFF,
    ensures
        !reading.begun ==> reading.asked() == seq![
            0x0Au8,
            (reading.handle % 256) as u8,
            (reading.handle / 256) as u8,
        ],
        reading.begun ==> reading.asked() == seq![
            0x0Cu8,
            (reading.handle % 256) as u8,
            (reading.handle / 256) as u8,
            (reading.value.len() % 256) as u8,
            (reading.value.len() / 256) as u8,
        ],
        is_end(AttError::Protocol { code, handle }) <==> code == 0x0A,
        is_past_end(AttError::Protocol { code, handle }) <==> code == 0x07,
{
    let n = reading.value.len() as u16;
    assert(seq![att_op::READ_REQUEST] + le16(reading.handle) =~= seq![
        0x0Au8,
        (reading.handle % 256) as u8,
        (reading.handle / 256) as u8,
    ]);
    assert(seq![att_op::READ_BLOB_REQUEST] + le16(reading.handle) + le16(n) =~= seq![
        0x0Cu8,
        (reading.handle % 256) as u8,
        (reading.handle / 256) as u8,
        (n % 256) as u8,
        (n / 256) as u8,
    ]);
}

/// A battery level is a number of percent: anything above a hundred is none, and so
/// is nothing at all.
pub proof fn a_battery_level_is_a_percentage(level: u8, more: Seq<u8>)
    ensures
        level_of(seq![level] + more) == if level <= 100 {
            Some(level)
        } else {
            None
        },
        level_of(Seq::empty()) is None,
{
    assert((seq![level] + more)[0] == level);
}

/// A walk goes on right behind what it has listed, so nothing is listed twice and
/// nothing is passed over: behind the last handle of the last service, and behind the
/// last declaration of a characteristic. It ends where nothing was listed any more or
/// the handles do.
pub proof fn a_walk_goes_on_behind_what_it_listed(
    services: Seq<ServiceRange>,
    characteristics: Seq<Characteristic>,
    found: nat,
    end: u16,
)
    requires
        services.len() > 0,
        characteristics.len() > 0,
    ensures
        behind_services(services, 0) is None && behind_characteristics(characteristics, 0, end)
            is None,
        found > 0 ==> {
            &&& services.last().end_handle == 0xFFFF ==> behind_services(services, found) is None
            &&& services.last().end_handle < 0xFFFF ==> (behind_services(services, found) matches
                Some(next) && next == services.last().end_handle + 1)
            &&& characteristics.last().declaration_handle >= end ==> behind_characteristics(
                characteristics,
                found,
                end,
            ) is None
            &&& characteristics.last().declaration_handle < end ==> (behind_characteristics(
                characteristics,
                found,
                end,
            ) matches Some(next) && next == characteristics.last().declaration_handle + 1)
        },
{
}

/// Volume is read and written where its own two characteristics are, and a battery
/// where its level is, by the UUIDs of each; the descriptor that subscribes stands
/// right behind the value.
pub proof fn volume_and_battery_are_where_they_are_published(
    characteristics: Seq<Characteristic>,
    state_uuid: u16,
    control_uuid: u16,
)
    ensures
        volume_at(characteristics, state_uuid, control_uuid) matches Some(v) ==> {
            &&& exists|i: int|
                0 <= i < characteristics.len() && (#[trigger] characteristics[i]).uuid.short()
                    == Some(state_uuid) && characteristics[i].value_handle == v.state
            &&& exists|i: int|
                0 <= i < characteristics.len() && (#[trigger] characteristics[i]).uuid.short()
                    == Some(control_uuid) && characteristics[i].value_handle == v.control_point
            &&& v.state < 0xFFFF ==> v.state_cccd == v.state + 1
        },
        battery_at(characteristics) matches Some(b) ==> {
            &&& exists|i: int|
                0 <= i < characteristics.len() && (#[trigger] characteristics[i]).uuid.short()
                    == Some(0x2A19u16) && characteristics[i].value_handle == b.level && (b.notifies
                    <==> characteristics[i].may_notify())
            &&& b.level < 0xFFFF ==> b.level_cccd == b.level + 1
        },
        battery_at(characteristics) is None ==> forall|i: int|
            0 <= i < characteristics.len() ==> (#[trigger] characteristics[i]).uuid.short() != Some(
                0x2A19u16,
            ),
{
    the_first_with_the_uuid_is_found(characteristics, Seq::empty(), state_uuid);
    the_first_with_the_uuid_is_found(characteristics, Seq::empty(), control_uuid);
    the_first_with_the_uuid_is_found(characteristics, Seq::empty(), 0x2A19);
    if volume_at(characteristics, state_uuid, control_uuid) is Some {
        let state = characteristic_place(characteristics, state_uuid);
        let control = characteristic_place(characteristics, control_uuid);
        assert(characteristics[state].uuid.short() == Some(state_uuid));
        assert(characteristics[control].uuid.short() == Some(control_uuid));
    }
    if battery_at(characteristics) is Some {
        let at = characteristic_place(characteristics, 0x2A19);
        assert(characteristics[at].uuid.short() == Some(0x2A19u16));
    }
}

/// Reading goes on through silence and through failures that pass: only two hundred
/// in a row end it, and any packet starts the count again. A device that has gone ends
/// it at once, and so does a failure once reading was stopped.
pub proof fn only_lasting_failure_ends_reading(state: ReaderState, stopped: bool)
    requires
        state.failures < 200,
    ensures
        state.next(ReadOutcome::Packet, stopped) == (ReaderState { failures: 0 }, ReadStep::Deliver),
        state.next(ReadOutcome::TimedOut, stopped) == (ReaderState { failures: 0 }, ReadStep::Again),
        state.next(ReadOutcome::DeviceGone, stopped).1 == ReadStep::End,
        state.next(ReadOutcome::Failed, true).1 == ReadStep::End,
        state.next(ReadOutcome::Failed, false).0.failures == state.failures + 1,
        state.next(ReadOutcome::Failed, false).1 == if state.failures == 199 {
            ReadStep::End
        } else {
            ReadStep::Recover
        },
{
}

/// What arrives while notifications are collected is kept, and an indication is
/// confirmed, unless the server here has dealt with it.
pub proof fn collecting_keeps_notifications(
    c: Client,
    s: Media,
    raw: Seq<u8>,
    late: bool,
    payload: Seq<u8>,
)
    requires
        absorb(c.gathered, raw).0 == Absorbed::Frame(4, payload),
        payload.len() >= 3,
        payload[0] == 0x1B || payload[0] == 0x1D,
    ensures
        ({
            let (heard, pdus, after, server) = heard_while_collecting(c, s, raw, late);
            &&& after.notifications == c.notifications.push(
                ((payload[1] + 256 * payload[2]) as u16, payload.skip(3)),
            )
            &&& payload[0] == 0x1D ==> heard == Heard::Reply(seq![0x1Eu8])
            &&& payload[0] == 0x1B ==> heard == Heard::Nothing
        }),
{
    crate::media::responses_are_not_requests(
        s,
        payload,
        crate::media::usable_mtu(c.mtu as usize) as int,
    );
}

/// An endpoint is known by its own number, and what is cached is found again for the
/// same service and for no other.
pub proof fn what_is_known_is_found_again(
    ases: Seq<(u8, u16)>,
    ase_id: u8,
    handle: u16,
    cache: Seq<(u16, u16, Vec<Characteristic>)>,
    start: u16,
    end: u16,
)
    ensures
        knows_ase(ases.push((ase_id, handle)), ase_id),
        ({
            let at = cached_place(cache, start, end);
            &&& 0 <= at <= cache.len()
            &&& at < cache.len() ==> cache[at].0 == start && cache[at].1 == end
            &&& at == cache.len() ==> forall|i: int|
                0 <= i < cache.len() ==> !((#[trigger] cache[i]).0 == start && cache[i].1 == end)
        }),
    decreases cache.len(),
{
    assert(ases.push((ase_id, handle))[ases.len() as int].0 == ase_id);
    if cache.len() > 0 && !(cache[0].0 == start && cache[0].1 == end) {
        let rest = cache.skip(1);
        what_is_known_is_found_again(ases, ase_id, handle, rest, start, end);
        if cached_place(cache, start, end) == cache.len() {
            assert forall|i: int| 0 <= i < cache.len() implies !((#[trigger] cache[i]).0 == start
                && cache[i].1 == end) by {
                if i > 0 {
                    assert(cache[i] == rest[i - 1]);
                }
            }
        }
    }
}

/// The entries of a search for descriptors are four bytes wide with short UUIDs and
/// eighteen with long ones; nothing else is such a list.
pub proof fn descriptors_come_in_two_widths(opcode: u8, format: u8, rest: Seq<u8>)
    ensures
        entry_width(seq![opcode, format] + rest) == if opcode == 0x05 && format == 1 {
            4nat
        } else if opcode == 0x05 && format == 2 {
            18nat
        } else {
            0nat
        },
        entry_width(Seq::empty()) == 0,
{
    let response = seq![opcode, format] + rest;
    assert(response[0] == opcode && response[1] == format);
}

} // verus!
