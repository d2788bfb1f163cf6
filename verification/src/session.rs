//! What a session takes from the settings, and how it can fail.

use crate::controller::ControllerError;
use crate::reconnect::{policy_from, ReconnectPolicy};
use crate::settings::{setting, Settings};
use crate::text::{same_text, text_views};
use vstd::prelude::*;
use vstd::string::*;

verus! {

/// How a session fails, as far as anything is decided by it.
#[derive(Debug)]
pub enum SessionError {
    Controller(ControllerError),
    /// The adapter could not be reached over USB.
    Transport(String),
    /// The adapter went quiet.
    AdapterSilent,
    EncryptionFailed,
    BatteryReadTimeout,
    /// An isochronous channel ended while the connection stayed.
    AudioDisconnected,
    /// The isochronous pipe refused data.
    IsoPath,
    /// Anything else that ends what was being done.
    Other,
}

/// Whether an error says that the peer no longer has the key of a bond.
pub open spec fn rejects_key(error: SessionError) -> bool {
    error matches SessionError::Controller(ControllerError::EncryptionRejected { status }) && (
    status == 0x05 || status == 0x06)
}

/// Only an explicit authentication/key error permits replacement pairing.
/// A timeout, USB failure or disconnect leaves the existing bond intact.
pub fn saved_key_rejected(error: &SessionError) -> (yes: bool)
    ensures
        yes == rejects_key(*error),
{
    match error {
        SessionError::Controller(ControllerError::EncryptionRejected { status }) => *status == 0x05
            || *status == 0x06,
        _ => false,
    }
}

/// Whether an error means that nothing more can be done over this adapter.
pub open spec fn is_adapter_failure(error: SessionError) -> bool {
    error is AdapterSilent || error is Transport || error is BatteryReadTimeout
}

/// Whether only the audio was lost, so that it can be built again over the
/// connection that is still there.
pub open spec fn is_audio_loss(error: SessionError) -> bool {
    error is AudioDisconnected || error is IsoPath
}

pub fn adapter_failed(error: &SessionError) -> (yes: bool)
    ensures
        yes == is_adapter_failure(*error),
{
    match error {
        SessionError::AdapterSilent
        | SessionError::Transport(_)
        | SessionError::BatteryReadTimeout => true,
        _ => false,
    }
}

pub fn audio_lost(error: &SessionError) -> (yes: bool)
    ensures
        yes == is_audio_loss(*error),
{
    match error {
        SessionError::AudioDisconnected | SessionError::IsoPath => true,
        _ => false,
    }
}

// ---- What the settings mean ----

/// Settings that are numbers or switches, as far as they are set. Times are
/// milliseconds.
#[derive(Debug, Clone, Copy, PartialEq, Eq, Structural)]
pub struct Values {
    pub monitor_enabled: Option<bool>,
    pub yield_enabled: Option<bool>,
    pub reconnect_enabled: Option<bool>,
    pub reconnect_interval: Option<u64>,
    /// `Some(None)` for as long as it takes.
    pub reconnect_window: Option<Option<u64>>,
    /// `Some(None)` for never.
    pub idle_timeout: Option<Option<u64>>,
    pub link_timeout: Option<u64>,
    pub battery_poll: Option<u64>,
    pub idle_link_latency: Option<u16>,
}

/// What holds where a setting says nothing.
#[derive(Debug, Clone, Copy, PartialEq, Eq, Structural)]
pub struct Defaults {
    pub reconnect_interval: u64,
    pub reconnect_window: Option<u64>,
    pub idle_timeout: Option<u64>,
}

/// What the next connection depends on.
#[derive(Debug, PartialEq, Eq)]
pub struct ConnectionConfig {
    /// The Windows device that music is taken from.
    pub audio_device: Option<String>,
    /// The Windows device that the headset's microphone is played into.
    pub microphone_target: Option<&'static str>,
    pub monitor_source: Option<String>,
    pub monitor_replace: bool,
    pub idle_timeout: Option<u64>,
    /// How long the link may go unheard before it counts as lost.
    pub link_timeout: u64,
    /// How often to ask for the battery level, or `None` for "never ask".
    pub battery_poll: Option<u64>,
    /// How many control-channel wake-ups the headphones may skip while playing.
    pub idle_link_latency: u16,
    pub yield_when_asked: bool,
    pub reconnect: ReconnectPolicy,
}

/// What a `ConnectionConfig` holds.
pub struct Configured {
    pub audio_device: Option<Seq<char>>,
    pub microphone_target: Option<Seq<char>>,
    pub monitor_source: Option<Seq<char>>,
    pub monitor_replace: bool,
    pub idle_timeout: Option<u64>,
    pub link_timeout: u64,
    pub battery_poll: Option<u64>,
    pub idle_link_latency: u16,
    pub yield_when_asked: bool,
    pub reconnect: ReconnectPolicy,
}

impl View for ConnectionConfig {
    type V = Configured;

    open spec fn view(&self) -> Configured {
        Configured {
            audio_device: match self.audio_device {
                Some(name) => Some(name@),
                None => None,
            },
            microphone_target: match self.microphone_target {
                Some(name) => Some(name@),
                None => None,
            },
            monitor_source: match self.monitor_source {
                Some(name) => Some(name@),
                None => None,
            },
            monitor_replace: self.monitor_replace,
            idle_timeout: self.idle_timeout,
            link_timeout: self.link_timeout,
            battery_poll: self.battery_poll,
            idle_link_latency: self.idle_link_latency,
            yield_when_asked: self.yield_when_asked,
            reconnect: self.reconnect,
        }
    }
}

/// The render endpoint that a microphone target stands for.
pub open spec fn target_device(target: Option<Seq<char>>) -> Option<Seq<char>> {
    match target {
        Some(name) => if name == "vb-cable"@ {
            Some("CABLE Input"@)
        } else if name == "vb-cable-a"@ {
            Some("CABLE-A Input"@)
        } else if name == "vb-cable-b"@ {
            Some("CABLE-B Input"@)
        } else {
            None
        },
        None => None,
    }
}

/// The render endpoint that the headset's microphone is played into.
pub fn microphone_target(settings: &Settings) -> (device: Option<&'static str>)
    ensures
        match device {
            Some(name) => target_device(setting(settings@, "microphone_target"@)) == Some(name@),
            None => target_device(setting(settings@, "microphone_target"@)) is None,
        },
{
    match settings.get("microphone_target") {
        Some(target) => if same_text(target, "vb-cable") {
            Some("CABLE Input")
        } else if same_text(target, "vb-cable-a") {
            Some("CABLE-A Input")
        } else if same_text(target, "vb-cable-b") {
            Some("CABLE-B Input")
        } else {
            None
        },
        None => None,
    }
}

/// A number between two others.
pub open spec fn within(value: u64, least: u64, most: u64) -> u64 {
    if value < least {
        least
    } else if value > most {
        most
    } else {
        value
    }
}

fn bring_within(value: u64, least: u64, most: u64) -> (result: u64)
    ensures
        result == within(value, least, most),
{
    if value < least {
        least
    } else if value > most {
        most
    } else {
        value
    }
}

/// How often the battery is asked for: every quarter of an hour unless a
/// setting says otherwise, never for less than a minute, and at the slowest
/// every two hours.
pub open spec fn poll_interval(setting: Option<u64>) -> Option<u64> {
    let asked = match setting {
        Some(ms) => ms,
        None => 900_000u64,
    };
    if asked >= 60_000 {
        Some(within(asked, 60_000, 7_200_000))
    } else {
        None
    }
}

/// How often to ask for the battery level, or `None` for "never ask".
pub fn battery_poll(setting: Option<u64>) -> (interval: Option<u64>)
    ensures
        interval == poll_interval(setting),
{
    let asked = match setting {
        Some(ms) => ms,
        None => 900_000,
    };
    if asked >= 60_000 {
        Some(bring_within(asked, 60_000, 7_200_000))
    } else {
        None
    }
}

/// What a connection depends on, given the settings.
pub open spec fn configured(
    settings: Map<Seq<char>, Seq<char>>,
    values: Values,
    defaults: Defaults,
) -> Configured {
    Configured {
        audio_device: setting(settings, "playback_source"@),
        microphone_target: target_device(setting(settings, "microphone_target"@)),
        monitor_source: if values.monitor_enabled == Some(true) {
            Some(
                match setting(settings, "monitor_source"@) {
                    Some(name) => name,
                    None => "default"@,
                },
            )
        } else {
            None
        },
        monitor_replace: setting(settings, "monitor_mode"@) == Some("replace"@),
        idle_timeout: match values.idle_timeout {
            Some(timeout) => timeout,
            None => defaults.idle_timeout,
        },
        link_timeout: within(
            match values.link_timeout {
                Some(ms) => ms,
                None => 10_000,
            },
            2_000,
            30_000,
        ),
        battery_poll: poll_interval(values.battery_poll),
        idle_link_latency: match values.idle_link_latency {
            Some(count) => if count > 30 {
                30
            } else {
                count
            },
            None => 0,
        },
        yield_when_asked: values.yield_enabled == Some(true),
        reconnect: ReconnectPolicy {
            enabled: values.reconnect_enabled != Some(false),
            interval: match values.reconnect_interval {
                Some(ms) => crate::reconnect::bounded_interval(ms),
                None => defaults.reconnect_interval,
            },
            window: match values.reconnect_window {
                Some(window) => window,
                None => defaults.reconnect_window,
            },
        },
    }
}

impl ConnectionConfig {
    /// Reads everything that takes effect at the next connection.
    ///
    /// The preferred Bluetooth headset has a setting of its own; the Windows
    /// audio source is never taken from it. The link timeout is clamped to what
    /// the specification allows rather than trusted: the file is editable by
    /// hand, and a controller answers an impossible value with "invalid HCI
    /// parameters" from a command that names nothing.
    pub fn read(settings: &Settings, values: &Values, defaults: &Defaults) -> (config: Self)
        ensures
            config@ == configured(settings@, *values, *defaults),
    {
        let audio_device = match settings.get("playback_source") {
            Some(name) => Some(String::from_str(name)),
            None => None,
        };
        let monitored = match values.monitor_enabled {
            Some(on) => on,
            None => false,
        };
        let monitor_source = if monitored {
            match settings.get("monitor_source") {
                Some(name) => Some(String::from_str(name)),
                None => Some(String::from_str("default")),
            }
        } else {
            None
        };
        let link_timeout = bring_within(
            match values.link_timeout {
                Some(ms) => ms,
                None => 10_000,
            },
            2_000,
            30_000,
        );
        let idle_link_latency = match values.idle_link_latency {
            Some(count) => if count > 30 {
                30
            } else {
                count
            },
            None => 0,
        };
        let reconnect = policy_from(
            values.reconnect_enabled,
            values.reconnect_interval,
            values.reconnect_window,
            &ReconnectPolicy {
                enabled: true,
                interval: defaults.reconnect_interval,
                window: defaults.reconnect_window,
            },
        );
        ConnectionConfig {
            audio_device,
            microphone_target: microphone_target(settings),
            monitor_source,
            monitor_replace: settings.is("monitor_mode", "replace"),
            idle_timeout: match values.idle_timeout {
                Some(timeout) => timeout,
                None => defaults.idle_timeout,
            },
            link_timeout,
            battery_poll: battery_poll(values.battery_poll),
            idle_link_latency,
            yield_when_asked: match values.yield_enabled {
                Some(on) => on,
                None => false,
            },
            reconnect,
        }
    }
}

/// Whatever a settings file says, a connection is configured with values that
/// the controller accepts: a supervision timeout between two and thirty
/// seconds, and a peripheral latency of at most thirty events.
pub proof fn every_configuration_is_sane(
    settings: Map<Seq<char>, Seq<char>>,
    values: Values,
    defaults: Defaults,
)
    ensures
        ({
            let config = configured(settings, values, defaults);
            &&& 2_000 <= config.link_timeout <= 30_000
            &&& config.idle_link_latency <= 30
            &&& config.battery_poll matches Some(ms) ==> 60_000 <= ms <= 7_200_000
            &&& values.reconnect_interval is Some ==> 1_000 <= config.reconnect.interval <= 60_000
        }),
{
}

// ---- Addresses of known devices ----

/// Whether one of the marked addresses is this one, in either case of letters.
pub open spec fn is_marked(items: Seq<Seq<char>>, address: Seq<char>) -> bool {
    exists|i: int|
        0 <= i < items.len() && crate::text::upper(#[trigger] items[i]) == crate::text::upper(
            address,
        )
}

/// Whether a device is one of the favourites.
pub fn is_favorite(items: &[String], address: &str) -> (yes: bool)
    ensures
        yes == is_marked(text_views(items@), address@),
{
    let mut i: usize = 0;
    while i < items.len()
        invariant
            i <= items@.len(),
            forall|j: int|
                0 <= j < i ==> crate::text::upper(#[trigger] text_views(items@)[j])
                    != crate::text::upper(address@),
        decreases items@.len() - i,
    {
        if crate::text::same_ignoring_case(items[i].as_str(), address) {
            assert(crate::text::upper(text_views(items@)[i as int]) == crate::text::upper(
                address@,
            ));
            return true;
        }
        i = i + 1;
    }
    false
}

/// Only a peer that no longer has the key, or never authenticated it, rejects it;
/// any other trouble leaves the saved key alone. An adapter that fails and audio that
/// is lost are different things.
pub proof fn errors_are_told_apart(error: SessionError, status: u8)
    ensures
        rejects_key(SessionError::Controller(ControllerError::EncryptionRejected { status }))
            <==> status == 5 || status == 6,
        !(error is Controller) ==> !rejects_key(error),
        is_adapter_failure(error) <==> error is AdapterSilent || error is Transport || error
            is BatteryReadTimeout,
        is_audio_loss(error) <==> error is AudioDisconnected || error is IsoPath,
        !(is_adapter_failure(error) && is_audio_loss(error)),
{
}

/// A value is brought into its range and left alone inside it.
pub proof fn a_value_within_is_left_alone(value: u64, least: u64, most: u64)
    requires
        least <= most,
    ensures
        least <= within(value, least, most) <= most,
        least <= value <= most ==> within(value, least, most) == value,
        value < least ==> within(value, least, most) == least,
        value > most ==> within(value, least, most) == most,
{
}

/// Every setting means itself. What was set is taken as long as it is sensible: the
/// link's patience from two to thirty seconds, ten by default; at most thirty skipped
/// events, none by default; the batteries every quarter of an hour by default, never
/// more than every minute, and not at all below that. The headphones are given back
/// and a microphone is monitored only where that was asked for.
pub proof fn every_setting_means_itself(
    settings: Map<Seq<char>, Seq<char>>,
    values: Values,
    defaults: Defaults,
)
    ensures
        ({
            let config = configured(settings, values, defaults);
            &&& config.audio_device == setting(settings, "playback_source"@)
            &&& values.link_timeout is None ==> config.link_timeout == 10_000
            &&& values.link_timeout matches Some(ms) ==> config.link_timeout == within(
                ms,
                2_000,
                30_000,
            )
            &&& values.idle_link_latency is None ==> config.idle_link_latency == 0
            &&& values.idle_link_latency is Some && values.idle_link_latency->0 <= 30 ==> config.idle_link_latency
                == values.idle_link_latency->0
            &&& values.battery_poll is None ==> config.battery_poll == Some(900_000u64)
            &&& values.battery_poll is Some && values.battery_poll->0 < 60_000 ==> config.battery_poll is None
            &&& values.battery_poll is Some && 60_000 <= values.battery_poll->0 <= 7_200_000
                ==> config.battery_poll == values.battery_poll
            &&& config.yield_when_asked <==> values.yield_enabled == Some(true)
            &&& config.monitor_source is Some <==> values.monitor_enabled == Some(true)
            &&& config.monitor_source is Some && setting(settings, "monitor_source"@) is None
                ==> config.monitor_source == Some("default"@)
            &&& config.monitor_source is Some && setting(settings, "monitor_source"@) is Some
                ==> config.monitor_source == setting(settings, "monitor_source"@)
            &&& config.monitor_replace <==> setting(settings, "monitor_mode"@) == Some("replace"@)
            &&& values.idle_timeout is None ==> config.idle_timeout == defaults.idle_timeout
            &&& values.idle_timeout matches Some(own) ==> config.idle_timeout == own
            &&& config.reconnect.enabled <==> values.reconnect_enabled != Some(false)
            &&& values.reconnect_interval is None ==> config.reconnect.interval
                == defaults.reconnect_interval
            &&& values.reconnect_interval matches Some(ms) ==> config.reconnect.interval == within(
                ms,
                1_000,
                60_000,
            )
            &&& values.reconnect_window is None ==> config.reconnect.window
                == defaults.reconnect_window
            &&& values.reconnect_window matches Some(own) ==> config.reconnect.window == own
        }),
{
}

/// Each cable is known by its own name, and nothing else is a cable.
pub proof fn every_cable_has_its_own_input(name: Seq<char>)
    ensures
        name == "vb-cable"@ ==> target_device(Some(name)) == Some("CABLE Input"@),
        name == "vb-cable-a"@ ==> target_device(Some(name)) == Some("CABLE-A Input"@),
        name == "vb-cable-b"@ ==> target_device(Some(name)) == Some("CABLE-B Input"@),
        name != "vb-cable"@ && name != "vb-cable-a"@ && name != "vb-cable-b"@ ==> target_device(
            Some(name),
        ) is None,
        target_device(None) is None,
{
    reveal_strlit("vb-cable");
    reveal_strlit("vb-cable-a");
    reveal_strlit("vb-cable-b");
    assert("vb-cable"@.len() == 8 && "vb-cable-a"@.len() == 10 && "vb-cable-b"@.len() == 10);
    assert("vb-cable-a"@[9] == 'a' && "vb-cable-b"@[9] == 'b');
    if name == "vb-cable-a"@ || name == "vb-cable-b"@ {
        assert(name.len() == 10);
        assert(name != "vb-cable"@);
    }
    if name == "vb-cable-b"@ {
        assert(name[9] == 'b');
        assert(name != "vb-cable-a"@);
    }
}

/// A favourite is known by its address in either case of letters.
pub proof fn a_favorite_is_known_in_either_case(items: Seq<Seq<char>>, address: Seq<char>, i: int)
    requires
        0 <= i < items.len(),
        crate::text::upper(items[i]) == crate::text::upper(address),
    ensures
        is_marked(items, address),
        is_marked(items, items[i]),
        !is_marked(Seq::empty(), address),
{
    assert(crate::text::upper(items[i]) == crate::text::upper(items[i]));
}

} // verus!
