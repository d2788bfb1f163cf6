//! Keeping a device connected for as long as the policy allows.
//!
//! One loop covers three things: the first attempt, an attempt that fell over
//! during stream setup, and a link that dropped after playing happily for an
//! hour. The loop itself waits and talks to the radio elsewhere; every decision
//! it takes between two attempts is here.

use crate::hci::{disconnect_reason, reason_text};
use vstd::prelude::*;
use vstd::string::*;

verus! {

/// When and for how long a lost device is tried again. Times are milliseconds.
#[derive(Debug, Clone, Copy, PartialEq, Eq, Structural)]
pub struct ReconnectPolicy {
    pub enabled: bool,
    pub interval: u64,
    /// How long to go on; `None` for as long as it takes.
    pub window: Option<u64>,
}

impl ReconnectPolicy {
    /// Whether a device that has been gone for so long is still tried.
    pub open spec fn retries(self, elapsed: u64) -> bool {
        self.enabled && (self.window matches Some(window) ==> elapsed < window)
    }

    pub fn should_retry(&self, elapsed: u64) -> (yes: bool)
        ensures
            yes == self.retries(elapsed),
    {
        self.enabled && match self.window {
            Some(window) => elapsed < window,
            None => true,
        }
    }
}

/// An interval brought between one second and a minute.
pub open spec fn bounded_interval(ms: u64) -> u64 {
    if ms < 1_000 {
        1_000
    } else if ms > 60_000 {
        60_000
    } else {
        ms
    }
}

fn bound_interval(ms: u64) -> (interval: u64)
    ensures
        interval == bounded_interval(ms),
{
    if ms < 1_000 {
        1_000
    } else if ms > 60_000 {
        60_000
    } else {
        ms
    }
}

/// What was set, brought into range, and where nothing was set the defaults.
pub open spec fn policy_of(
    enabled: Option<bool>,
    interval: Option<u64>,
    window: Option<Option<u64>>,
    defaults: ReconnectPolicy,
) -> ReconnectPolicy {
    ReconnectPolicy {
        enabled: match enabled {
            Some(value) => value,
            None => defaults.enabled,
        },
        interval: match interval {
            Some(ms) => bounded_interval(ms),
            None => defaults.interval,
        },
        window: match window {
            Some(value) => value,
            None => defaults.window,
        },
    }
}

/// A policy made of the settings that are there; `defaults` fills in the rest.
/// Whatever was typed, an interval lies between one second and a minute.
pub fn policy_from(
    enabled: Option<bool>,
    interval: Option<u64>,
    window: Option<Option<u64>>,
    defaults: &ReconnectPolicy,
) -> (policy: ReconnectPolicy)
    ensures
        policy == policy_of(enabled, interval, window, *defaults),
{
    ReconnectPolicy {
        enabled: match enabled {
            Some(value) => value,
            None => defaults.enabled,
        },
        interval: match interval {
            Some(ms) => bound_interval(ms),
            None => defaults.interval,
        },
        window: match window {
            Some(value) => value,
            None => defaults.window,
        },
    }
}

/// How lost audio is recovered: without end by default.
pub open spec fn recovery_policy_of(
    enabled: Option<bool>,
    interval: Option<u64>,
    window: Option<Option<u64>>,
) -> ReconnectPolicy {
    ReconnectPolicy {
        enabled: match enabled {
            Some(value) => value,
            None => true,
        },
        interval: bounded_interval(
            match interval {
                Some(ms) => ms,
                None => 2_000,
            },
        ),
        window: match window {
            Some(value) => value,
            None => None,
        },
    }
}

/// The policy for rebuilding audio over a connection that is still there: on,
/// every two seconds and without an end, unless the settings say otherwise.
pub fn audio_recovery_policy(
    enabled: Option<bool>,
    interval: Option<u64>,
    window: Option<Option<u64>>,
) -> (policy: ReconnectPolicy)
    ensures
        policy == recovery_policy_of(enabled, interval, window),
{
    policy_from(
        enabled,
        interval,
        window,
        &ReconnectPolicy { enabled: true, interval: 2_000, window: None },
    )
}

/// Whether a connection may be attempted: the device is a favourite, or this one
/// attempt was confirmed. A confirmation is used up either way.
pub fn connection_authorized(favorite: bool, confirmed_once: &mut bool) -> (yes: bool)
    ensures
        yes == (favorite || *old(confirmed_once)),
        !*final(confirmed_once),
{
    let confirmed = *confirmed_once;
    *confirmed_once = false;
    favorite || confirmed
}

/// Errors caused solely by saved choices, by the words they begin with.
pub open spec fn is_deterministic(error: Seq<char>) -> bool {
    starts_with(error, "device rejected the custom configuration:"@) || starts_with(
        error,
        "selected gaming mode is not supported"@,
    ) || starts_with(error, "selected media mode is not supported"@) || starts_with(
        error,
        "stream could not be scheduled:"@,
    ) || starts_with(error, "headset microphone could not be configured:"@) || starts_with(
        error,
        "custom transport latency exceeds headset limit"@,
    )
}

/// Whether a text begins with these characters.
pub open spec fn starts_with(text: Seq<char>, beginning: Seq<char>) -> bool {
    text.len() >= beginning.len() && text.take(beginning.len() as int) == beginning
}

fn begins_with(text: &[char], beginning: &str) -> (yes: bool)
    ensures
        yes == starts_with(text@, beginning@),
{
    let first = crate::text::to_chars(beginning);
    if text.len() < first.len() {
        return false;
    }
    let head = vstd::slice::slice_subrange(text, 0, first.len());
    assert(head@ =~= text@.take(first@.len() as int));
    crate::text::same_chars(head, &first)
}

/// Whether a loss is worth reconnecting for.
pub open spec fn is_worth(reason: u8) -> bool {
    !(0x13 <= reason <= 0x16)
}

/// Whether a link that ended for this reason may come back by itself: not when
/// either side ended it on purpose.
pub fn worth_reconnecting(reason: u8) -> (yes: bool)
    ensures
        yes == is_worth(reason),
{
    !(0x13 <= reason && reason <= 0x16)
}

/// Errors caused solely by saved choices cannot improve by reconnecting.
/// Retrying them for the whole reconnect window would be an endless
/// connect/fail loop that also keeps waking the headphones. Transient radio and
/// teardown failures stay retryable; deterministic capability mismatches stop
/// and wait for a change.
pub fn deterministic_configuration_error(error: &str) -> (yes: bool)
    ensures
        yes == is_deterministic(error@),
{
    let text = crate::text::to_chars(error);
    begins_with(&text, "device rejected the custom configuration:") || begins_with(
        &text,
        "selected gaming mode is not supported",
    ) || begins_with(&text, "selected media mode is not supported") || begins_with(
        &text,
        "stream could not be scheduled:",
    ) || begins_with(&text, "headset microphone could not be configured:") || begins_with(
        &text,
        "custom transport latency exceeds headset limit",
    )
}

// ---- The loop ----

/// How long the controller listens for the peer at the first attempt: someone
/// has just pressed Connect and the headphones are in their hand.
pub const FIRST_WINDOW: u64 = 15_000;

/// How long to wait before the one immediate retry.
pub const FIRST_PAUSE: u64 = 600;

/// How long to wait when the peer never answered. It has already cost a full
/// listening window, so the next attempt starts almost at once.
pub const SHORT_PAUSE: u64 = 400;

/// Why no further attempt is made.
#[derive(Debug, Clone, Copy, PartialEq, Eq, Structural)]
pub enum Stop {
    /// Something else was asked for.
    Superseded,
    /// The device is no longer paired.
    Unpaired,
    /// Automatic reconnect is off.
    Disabled,
    /// Someone has to confirm it first.
    NeedsConfirmation,
}

/// One attempt to connect.
#[derive(Debug, Clone, Copy, PartialEq, Eq, Structural)]
pub struct Attempt {
    pub number: u32,
    /// Whether the app is told that a reconnect is under way.
    pub announced: bool,
    /// How long the controller listens for the peer.
    pub window: u64,
}

/// How an attempt ended.
#[derive(Debug, Clone, Copy, PartialEq, Eq, Structural)]
pub enum Outcome {
    /// Playback ended because the user asked for it.
    Stopped,
    /// The link went away underneath it.
    Lost { worth_reconnecting: bool },
    /// It failed. A deterministic failure comes from the saved settings alone.
    Failed { deterministic: bool },
}

/// What follows an attempt.
#[derive(Debug, Clone, Copy, PartialEq, Eq, Structural)]
pub enum Next {
    /// Nothing: it is over.
    Finish,
    /// Report the error.
    Report,
    /// Wait quietly and try once more.
    Again { pause: u64 },
    /// Wait and try again, unless it is canceled.
    Retry { pause: u64 },
    /// The retry window has expired.
    Expired,
}

/// What follows an attempt, and whether the app is told first that reconnecting
/// has started.
#[derive(Debug, Clone, Copy, PartialEq, Eq, Structural)]
pub struct Decision {
    pub started: bool,
    pub next: Next,
}

/// Where the loop stands.
#[derive(Debug, Clone, Copy, PartialEq, Eq, Structural)]
pub struct ConnectLoop {
    /// How many attempts this round has had.
    pub attempt: u32,
    /// When contact was lost, in milliseconds of the caller's clock.
    pub retrying_since: u64,
    /// What "current" means for this connection. Anything that raises the epoch
    /// ends the loop.
    pub started_in: u64,
    /// Whether the next attempt was confirmed by the user.
    pub confirmed_once: bool,
}

/// The interval as a listening window.
pub open spec fn listening_window(interval: u64) -> u64 {
    if interval < 1_500 {
        1_500
    } else if interval > 20_000 {
        20_000
    } else {
        interval
    }
}

impl ConnectLoop {
    /// Why a round would not even start.
    pub open spec fn stopped(self, epoch: u64, paired: bool, policy: ReconnectPolicy) -> Option<
        Stop,
    > {
        if epoch > self.started_in {
            Some(Stop::Superseded)
        } else if self.attempt > 0 && !paired {
            Some(Stop::Unpaired)
        } else if self.attempt >= 2 && !policy.enabled {
            Some(Stop::Disabled)
        } else {
            None
        }
    }

    /// The attempt that a round makes.
    pub open spec fn coming(self, policy: ReconnectPolicy) -> Attempt {
        Attempt {
            number: (self.attempt + 1) as u32,
            announced: self.attempt >= 1,
            window: if self.attempt == 0 {
                FIRST_WINDOW
            } else {
                listening_window(policy.interval)
            },
        }
    }

    /// The loop once an attempt has begun: the attempt is counted, and whatever
    /// confirmation there was is used up.
    pub open spec fn begun(self) -> ConnectLoop {
        ConnectLoop { attempt: (self.attempt + 1) as u32, confirmed_once: false, ..self }
    }

    /// What follows once automatic reconnect has taken over.
    pub open spec fn carry_on(
        policy: ReconnectPolicy,
        elapsed: u64,
        reached_link: bool,
        started: bool,
    ) -> Decision {
        Decision {
            started,
            next: if !policy.enabled {
                Next::Finish
            } else if !policy.retries(elapsed) {
                Next::Expired
            } else {
                Next::Retry {
                    pause: if reached_link {
                        policy.interval
                    } else {
                        SHORT_PAUSE
                    },
                }
            },
        }
    }

    /// What follows an attempt, and the loop afterwards.
    pub open spec fn after(
        self,
        outcome: Outcome,
        policy: ReconnectPolicy,
        reached_link: bool,
        now: u64,
    ) -> (ConnectLoop, Decision) {
        let quiet = |next: Next| Decision { started: false, next };
        match outcome {
            Outcome::Stopped => (self, quiet(Next::Finish)),
            Outcome::Lost { worth_reconnecting } => if worth_reconnecting {
                (
                    ConnectLoop { attempt: 0, retrying_since: now, ..self },
                    ConnectLoop::carry_on(policy, 0, reached_link, policy.enabled),
                )
            } else {
                (self, quiet(Next::Finish))
            },
            Outcome::Failed { deterministic } => if deterministic {
                (self, quiet(Next::Report))
            } else if self.attempt == 1 {
                (self, quiet(Next::Again { pause: FIRST_PAUSE }))
            } else if self.attempt == 2 && !policy.enabled {
                (self, quiet(Next::Report))
            } else if self.attempt == 2 {
                (
                    ConnectLoop { retrying_since: now, ..self },
                    ConnectLoop::carry_on(policy, 0, reached_link, true),
                )
            } else {
                (
                    self,
                    ConnectLoop::carry_on(
                        policy,
                        if now >= self.retrying_since {
                            (now - self.retrying_since) as u64
                        } else {
                            0
                        },
                        reached_link,
                        false,
                    ),
                )
            },
        }
    }

    pub fn new(epoch: u64, now: u64, confirmed: bool) -> (state: Self)
        ensures
            state == (ConnectLoop {
                attempt: 0,
                retrying_since: now,
                started_in: epoch,
                confirmed_once: confirmed,
            }),
    {
        ConnectLoop { attempt: 0, retrying_since: now, started_in: epoch, confirmed_once: confirmed }
    }

    /// Whether the round that comes now is allowed at all.
    ///
    /// Disconnect, Unpair and turning the adapter off raise the epoch, and end
    /// the loop at the next opportunity rather than at the end of the retry
    /// window. Unpairing ends it too: the bond is what a reconnect uses, and
    /// without this check the loop would simply pair again from scratch. The
    /// policy is the one that holds now, so that turning reconnect off takes
    /// effect while it is running.
    pub fn check_round(&self, epoch: u64, paired: bool, policy: &ReconnectPolicy) -> (stop: Option<
        Stop,
    >)
        ensures
            stop == self.stopped(epoch, paired, *policy),
    {
        if epoch > self.started_in {
            Some(Stop::Superseded)
        } else if self.attempt > 0 && !paired {
            Some(Stop::Unpaired)
        } else if self.attempt >= 2 && !policy.enabled {
            Some(Stop::Disabled)
        } else {
            None
        }
    }

    /// Starts an attempt, if it is authorized. Every attempt after the first uses
    /// the retry interval as its window, so the radio is listening for almost
    /// the whole of it.
    pub fn begin_attempt(&mut self, favorite: bool, policy: &ReconnectPolicy) -> (attempt: Result<
        Attempt,
        Stop,
    >)
        requires
            old(self).attempt < u32::MAX,
        ensures
            if favorite || old(self).confirmed_once {
                &&& attempt == Ok::<Attempt, Stop>(old(self).coming(*policy))
                &&& *final(self) == old(self).begun()
            } else {
                &&& attempt == Err::<Attempt, Stop>(Stop::NeedsConfirmation)
                &&& *final(self) == *old(self)
            },
    {
        if !connection_authorized(favorite, &mut self.confirmed_once) {
            return Err(Stop::NeedsConfirmation);
        }
        let first = self.attempt == 0;
        self.attempt = self.attempt + 1;
        let window = if first {
            FIRST_WINDOW
        } else if policy.interval < 1_500 {
            1_500
        } else if policy.interval > 20_000 {
            20_000
        } else {
            policy.interval
        };
        Ok(Attempt { number: self.attempt, announced: !first, window })
    }

    fn go_on(policy: &ReconnectPolicy, elapsed: u64, reached_link: bool, started: bool) -> (decision:
        Decision)
        ensures
            decision == ConnectLoop::carry_on(*policy, elapsed, reached_link, started),
    {
        if !policy.enabled {
            return Decision { started, next: Next::Finish };
        }
        if !policy.should_retry(elapsed) {
            return Decision { started, next: Next::Expired };
        }
        let pause = if reached_link {
            policy.interval
        } else {
            SHORT_PAUSE
        };
        Decision { started, next: Next::Retry { pause } }
    }

    /// Decides what follows an attempt.
    ///
    /// The very first attempt gets one immediate retry; two clean attempts cover
    /// the common case of the peer still tidying up the previous session. After
    /// that, automatic reconnect takes over, or the error is reported when it is
    /// off. The window is measured from the moment contact was lost, and starts
    /// again every time the headphones come back.
    ///
    /// A peer that answered and refused the stream is busy, and is asked again
    /// after the whole interval; one that never answered, almost at once.
    pub fn after_attempt(
        &mut self,
        outcome: Outcome,
        policy: &ReconnectPolicy,
        reached_link: bool,
        now: u64,
    ) -> (decision: Decision)
        ensures
            (*final(self), decision) == old(self).after(outcome, *policy, reached_link, now),
    {
        match outcome {
            Outcome::Stopped => Decision { started: false, next: Next::Finish },
            Outcome::Lost { worth_reconnecting } => {
                if !worth_reconnecting {
                    return Decision { started: false, next: Next::Finish };
                }
                // Contact existed until a moment ago, so the clock for giving up
                // starts now.
                self.retrying_since = now;
                self.attempt = 0;
                ConnectLoop::go_on(policy, 0, reached_link, policy.enabled)
            },
            Outcome::Failed { deterministic } => {
                if deterministic {
                    return Decision { started: false, next: Next::Report };
                }
                if self.attempt == 1 {
                    return Decision { started: false, next: Next::Again { pause: FIRST_PAUSE } };
                }
                if self.attempt == 2 && !policy.enabled {
                    return Decision { started: false, next: Next::Report };
                }
                if self.attempt == 2 {
                    self.retrying_since = now;
                    return ConnectLoop::go_on(policy, 0, reached_link, true);
                }
                let elapsed = if now >= self.retrying_since {
                    now - self.retrying_since
                } else {
                    0
                };
                ConnectLoop::go_on(policy, elapsed, reached_link, false)
            },
        }
    }
}

/// A confirmation covers one attempt: however that attempt ended, nothing is
/// left of it for the next one.
pub proof fn approval_is_used_once(
    state: ConnectLoop,
    outcome: Outcome,
    policy: ReconnectPolicy,
    reached_link: bool,
    now: u64,
)
    ensures
        !state.begun().after(outcome, policy, reached_link, now).0.confirmed_once,
{
}

/// Whatever supersedes a connection ends it: once the epoch has moved on, no
/// round starts, whatever the policy and however many attempts there were.
pub proof fn a_superseded_connection_stops(
    state: ConnectLoop,
    epoch: u64,
    paired: bool,
    policy: ReconnectPolicy,
)
    requires
        epoch > state.started_in,
    ensures
        state.stopped(epoch, paired, policy) == Some(Stop::Superseded),
{
}

/// Unpairing a device ends reconnecting to it: no round after the first starts
/// without a bond.
pub proof fn an_unpaired_device_is_not_retried(
    state: ConnectLoop,
    epoch: u64,
    policy: ReconnectPolicy,
)
    requires
        state.attempt > 0,
    ensures
        state.stopped(epoch, false, policy) is Some,
{
}

/// A failure that comes from the saved settings is never retried, and any other
/// first failure is, with reconnecting on or off.
pub proof fn only_transient_failures_are_retried(
    state: ConnectLoop,
    policy: ReconnectPolicy,
    reached_link: bool,
    now: u64,
)
    ensures
        state.after(Outcome::Failed { deterministic: true }, policy, reached_link, now).1.next
            == Next::Report,
        state.attempt == 1 ==> state.after(
            Outcome::Failed { deterministic: false },
            policy,
            reached_link,
            now,
        ).1.next == (Next::Again { pause: FIRST_PAUSE }),
{
}

/// With automatic reconnect on and no end to it, a link that was lost for a
/// reason worth reconnecting is always tried again, from the beginning.
pub proof fn a_lost_link_is_tried_again(
    state: ConnectLoop,
    policy: ReconnectPolicy,
    reached_link: bool,
    now: u64,
)
    requires
        policy.enabled,
        policy.window is None,
    ensures
        ({
            let (later, decision) = state.after(
                Outcome::Lost { worth_reconnecting: true },
                policy,
                reached_link,
                now,
            );
            &&& decision.started
            &&& decision.next is Retry
            &&& later.attempt == 0
            &&& later.coming(policy).window == FIRST_WINDOW
        }),
{
}

/// What the log says of a lost link.
pub fn loss_text(reason: u8, worth_reconnecting: bool) -> (text: String)
    ensures
        text@ == if worth_reconnecting {
            "connection lost: "@ + reason_text(reason)
        } else {
            "connection ended: "@ + reason_text(reason) + " - not reconnecting"@
        },
{
    if worth_reconnecting {
        let mut text = String::from_str("connection lost: ");
        text.append(disconnect_reason(reason));
        text
    } else {
        let mut text = String::from_str("connection ended: ");
        text.append(disconnect_reason(reason));
        text.append(" - not reconnecting");
        text
    }
}

// ---- Rebuilding audio ----

/// What is known while audio waits to be rebuilt. Times are milliseconds.
#[derive(Debug, Clone, Copy, PartialEq, Eq, Structural)]
pub struct Waiting {
    pub interrupted: bool,
    pub policy: ReconnectPolicy,
    /// Since audio was lost.
    pub elapsed: u64,
    /// Since this wait began.
    pub waited: u64,
    /// The reason, when the connection itself has gone.
    pub lost: Option<u8>,
    /// Whether the headphones are handed back to other devices when asked.
    pub yields: bool,
    /// Whether the headphones offer media right now.
    pub media_available: bool,
}

/// What the wait for audio comes to.
#[derive(Debug, Clone, Copy, PartialEq, Eq, Structural)]
pub enum Recovery {
    /// Something else was asked for.
    Abandoned,
    /// The policy says to stop.
    Stopped,
    /// The connection itself has gone.
    Lost(u8),
    /// Build the stream again.
    Rebuild,
    /// Look again in a moment.
    Wait,
}

/// What follows while lost audio is waited for.
pub open spec fn recovery_of(w: Waiting) -> Recovery {
    if w.interrupted {
        Recovery::Abandoned
    } else if !w.policy.retries(w.elapsed) {
        Recovery::Stopped
    } else if w.lost is Some {
        Recovery::Lost(w.lost->0)
    } else if w.waited >= w.policy.interval && (!w.yields || w.media_available) {
        Recovery::Rebuild
    } else {
        Recovery::Wait
    }
}

/// Decides one look at a connection whose audio was lost.
///
/// A device that hands itself to others is only asked again once it offers
/// media.
pub fn audio_recovery(w: &Waiting) -> (step: Recovery)
    ensures
        step == recovery_of(*w),
{
    if w.interrupted {
        return Recovery::Abandoned;
    }
    if !w.policy.should_retry(w.elapsed) {
        return Recovery::Stopped;
    }
    if let Some(reason) = w.lost {
        return Recovery::Lost(reason);
    }
    if w.waited >= w.policy.interval && (!w.yields || w.media_available) {
        Recovery::Rebuild
    } else {
        Recovery::Wait
    }
}

// ---- What retrying is for ----

/// A policy that is switched off retries nothing, one without a window retries for
/// ever, and one with a window until the window is over and never again after.
pub proof fn retrying_ends_with_the_window(policy: ReconnectPolicy, elapsed: u64, later: u64)
    requires
        elapsed <= later,
    ensures
        !policy.enabled ==> !policy.retries(elapsed),
        policy.enabled && policy.window is None ==> policy.retries(elapsed),
        policy.enabled && policy.window is Some ==> (policy.retries(elapsed) <==> elapsed
            < policy.window->0),
        policy.retries(later) ==> policy.retries(elapsed),
{
}

/// An interval is kept from one second to a minute, a listening window from one and
/// a half seconds to twenty, and what lies within is left alone.
pub proof fn intervals_are_kept_in_range(ms: u64)
    ensures
        1_000 <= bounded_interval(ms) <= 60_000,
        1_000 <= ms <= 60_000 ==> bounded_interval(ms) == ms,
        ms < 1_000 ==> bounded_interval(ms) == 1_000,
        ms > 60_000 ==> bounded_interval(ms) == 60_000,
        1_500 <= listening_window(ms) <= 20_000,
        1_500 <= ms <= 20_000 ==> listening_window(ms) == ms,
        ms < 1_500 ==> listening_window(ms) == 1_500,
        ms > 20_000 ==> listening_window(ms) == 20_000,
{
}

/// A link that somebody ended on purpose is left alone: the peer by its user, for
/// want of battery or switching off, or this side. Every other loss is worth
/// reconnecting for.
pub proof fn a_deliberate_end_is_respected(reason: u8)
    ensures
        is_worth(reason) <==> reason != 0x13 && reason != 0x14 && reason != 0x15 && reason != 0x16,
{
}

/// An attempt is made for the peer that is still wanted: it is called off by a newer
/// request, by unpairing after the first attempt and by switching retries off after
/// the second, and by nothing else.
pub proof fn an_attempt_is_called_off_for_a_reason(
    state: ConnectLoop,
    epoch: u64,
    paired: bool,
    policy: ReconnectPolicy,
)
    ensures
        state.stopped(epoch, paired, policy) is None <==> epoch <= state.started_in && (state.attempt
            == 0 || paired) && (state.attempt < 2 || policy.enabled),
        state.stopped(epoch, paired, policy) == Some(Stop::Superseded) <==> epoch
            > state.started_in,
        state.stopped(epoch, paired, policy) == Some(Stop::Unpaired) <==> epoch <= state.started_in
            && state.attempt > 0 && !paired,
{
}

/// The first attempt listens for fifteen seconds and is not announced as a retry;
/// later ones are, are numbered on, and listen for as long as the interval says.
pub proof fn the_first_attempt_listens_longest(state: ConnectLoop, policy: ReconnectPolicy)
    requires
        state.attempt < u32::MAX,
    ensures
        ({
            let attempt = state.coming(policy);
            &&& attempt.number == state.attempt + 1
            &&& attempt.announced <==> state.attempt > 0
            &&& state.attempt == 0 ==> attempt.window == 15_000
            &&& state.attempt > 0 ==> attempt.window == listening_window(policy.interval)
            &&& state.begun().attempt == state.attempt + 1
            &&& state.begun().retrying_since == state.retrying_since
            &&& state.begun().started_in == state.started_in
        }),
{
}

/// What follows a transient failure. The first one is tried again at once; from the
/// second on the policy decides: not at all where it is off, until its window since
/// the second failure is over, and with the interval between attempts that reached
/// the peer, 400 ms between those that did not.
pub proof fn failures_are_retried_by_the_policy(
    state: ConnectLoop,
    policy: ReconnectPolicy,
    reached_link: bool,
    now: u64,
)
    requires
        state.retrying_since <= now,
    ensures
        ({
            let (after, decision) = state.after(
                Outcome::Failed { deterministic: false },
                policy,
                reached_link,
                now,
            );
            let since = if state.attempt == 2 {
                now
            } else {
                state.retrying_since
            };
            &&& state.attempt == 1 ==> decision.next == (Next::Again { pause: 600 }) && after
                == state
            &&& state.attempt == 2 && !policy.enabled ==> decision.next == Next::Report
            &&& state.attempt != 1 && state.attempt != 2 && !policy.enabled ==> decision.next
                == Next::Finish
            &&& state.attempt != 1 && policy.enabled ==> {
                &&& after.retrying_since == since
                &&& decision.started <==> state.attempt == 2
                &&& decision.next == if policy.window is None || now - since < policy.window->0 {
                    Next::Retry {
                        pause: if reached_link {
                            policy.interval
                        } else {
                            400
                        },
                    }
                } else {
                    Next::Expired
                }
            }
        }),
        state.after(Outcome::Stopped, policy, reached_link, now).1 == (Decision {
            started: false,
            next: Next::Finish,
        }),
        state.after(
            Outcome::Lost { worth_reconnecting: false },
            policy,
            reached_link,
            now,
        ).1.next == Next::Finish,
        state.after(
            Outcome::Lost { worth_reconnecting: true },
            policy,
            reached_link,
            now,
        ).0.retrying_since == now,
        !policy.enabled ==> state.after(
            Outcome::Lost { worth_reconnecting: true },
            policy,
            reached_link,
            now,
        ).1 == (Decision { started: false, next: Next::Finish }),
{
}

/// Audio is built again over a link that is still there: never once the user has
/// asked to stop or the policy's time is over, not over a link that has gone, and
/// otherwise as soon as the interval has passed and, where the headphones are
/// shared, they offer media.
pub proof fn audio_is_rebuilt_when_it_can_be(w: Waiting)
    ensures
        recovery_of(w) == Recovery::Rebuild <==> !w.interrupted && w.policy.retries(w.elapsed)
            && w.lost is None && w.waited >= w.policy.interval && (!w.yields || w.media_available),
        recovery_of(w) == Recovery::Abandoned <==> w.interrupted,
        recovery_of(w) == Recovery::Stopped <==> !w.interrupted && !w.policy.retries(w.elapsed),
        recovery_of(w) is Lost <==> !w.interrupted && w.policy.retries(w.elapsed) && w.lost is Some,
        recovery_of(w) is Lost ==> w.lost == Some(recovery_of(w)->Lost_0),
{
}

/// A text is known by how it begins, whatever follows.
pub proof fn a_beginning_is_enough(beginning: Seq<char>, rest: Seq<char>)
    ensures
        starts_with(beginning + rest, beginning),
        beginning == "device rejected the custom configuration:"@ || beginning
            == "selected gaming mode is not supported"@ || beginning
            == "selected media mode is not supported"@ || beginning
            == "stream could not be scheduled:"@ || beginning
            == "headset microphone could not be configured:"@ || beginning
            == "custom transport latency exceeds headset limit"@ ==> is_deterministic(
            beginning + rest,
        ),
        is_deterministic(rest) ==> exists|start: Seq<char>|
            #![trigger starts_with(rest, start)]
            starts_with(rest, start) && (start == "device rejected the custom configuration:"@
                || start == "selected gaming mode is not supported"@ || start
                == "selected media mode is not supported"@ || start
                == "stream could not be scheduled:"@ || start
                == "headset microphone could not be configured:"@ || start
                == "custom transport latency exceeds headset limit"@),
{
    assert((beginning + rest).take(beginning.len() as int) =~= beginning);
}

/// A policy is what was set, brought into range, and where nothing was set what the
/// defaults say; audio recovery by default is on, every two seconds, without end.
pub proof fn a_policy_is_what_was_set(
    enabled: Option<bool>,
    interval: Option<u64>,
    window: Option<Option<u64>>,
    defaults: ReconnectPolicy,
)
    ensures
        ({
            let policy = policy_of(enabled, interval, window, defaults);
            &&& enabled is Some ==> policy.enabled == enabled->0
            &&& enabled is None ==> policy.enabled == defaults.enabled
            &&& interval is Some ==> policy.interval == bounded_interval(interval->0)
            &&& interval is None ==> policy.interval == defaults.interval
            &&& window is Some ==> policy.window == window->0
            &&& window is None ==> policy.window == defaults.window
        }),
        recovery_policy_of(enabled, interval, window) == policy_of(
            enabled,
            interval,
            window,
            ReconnectPolicy { enabled: true, interval: 2_000, window: None },
        ),
{
}

/// A link lost for a reason worth it is tried again at once, as long as the policy
/// allows any time at all, and the count starts anew.
pub proof fn a_loss_starts_a_window_of_its_own(
    state: ConnectLoop,
    policy: ReconnectPolicy,
    reached_link: bool,
    now: u64,
)
    requires
        policy.enabled,
    ensures
        ({
            let (later, decision) = state.after(
                Outcome::Lost { worth_reconnecting: true },
                policy,
                reached_link,
                now,
            );
            &&& policy.window is None || policy.window->0 > 0 ==> decision.next == (Next::Retry {
                pause: if reached_link {
                    policy.interval
                } else {
                    400
                },
            })
            &&& policy.window == Some(0u64) ==> decision.next == Next::Expired
            &&& later.attempt == 0 && later.retrying_since == now && later.started_in
                == state.started_in
        }),
{
}

} // verus!
