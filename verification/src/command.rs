//! What the app asks for.
//!
//! Commands are JSON objects, one per line. The thread that reads them is always
//! listening; the one that carries them out may be busy playing for hours. So
//! what has to take effect at once is decided as soon as a line is read, and a
//! command carries the epoch it was accepted in, so that it can be told apart
//! from one the user has since changed their mind about.

use crate::json::{
    as_flag, as_signed, as_text, as_unsigned, flag_member, member, parse, parse_texts, parsed,
    parsed_texts, signed_member, text_member, text_view, unsigned_member, Scalar,
};
use crate::media::{Playing, Snapshot};
use crate::session::{is_favorite, is_marked};
use crate::text::same_text;
use vstd::prelude::*;
use vstd::string::*;

verus! {

/// The members a command may have.
#[derive(Debug, PartialEq, Eq)]
pub struct Fields {
    pub name: Option<String>,
    pub address: Option<String>,
    pub key: Option<String>,
    pub value: Option<String>,
    pub player: Option<String>,
    pub title: Option<String>,
    pub on: Option<bool>,
    pub confirmed: Option<bool>,
    pub validate: Option<bool>,
    pub success: Option<bool>,
    pub seconds: Option<u64>,
    pub state: Option<u64>,
    pub supported: Option<u64>,
    pub id: Option<u64>,
    pub duration: Option<i64>,
    pub position: Option<i64>,
}

/// The members a command has.
pub struct Given {
    pub name: Option<Seq<char>>,
    pub address: Option<Seq<char>>,
    pub key: Option<Seq<char>>,
    pub value: Option<Seq<char>>,
    pub player: Option<Seq<char>>,
    pub title: Option<Seq<char>>,
    pub on: Option<bool>,
    pub confirmed: Option<bool>,
    pub validate: Option<bool>,
    pub success: Option<bool>,
    pub seconds: Option<u64>,
    pub state: Option<u64>,
    pub supported: Option<u64>,
    pub id: Option<u64>,
    pub duration: Option<i64>,
    pub position: Option<i64>,
}

impl View for Fields {
    type V = Given;

    open spec fn view(&self) -> Given {
        Given {
            name: text_view(self.name),
            address: text_view(self.address),
            key: text_view(self.key),
            value: text_view(self.value),
            player: text_view(self.player),
            title: text_view(self.title),
            on: self.on,
            confirmed: self.confirmed,
            validate: self.validate,
            success: self.success,
            seconds: self.seconds,
            state: self.state,
            supported: self.supported,
            id: self.id,
            duration: self.duration,
            position: self.position,
        }
    }
}

/// The members of a command that mean something.
pub open spec fn given(all: Map<Seq<char>, Scalar>) -> Given {
    Given {
        name: as_text(member(all, "cmd"@)),
        address: as_text(member(all, "address"@)),
        key: as_text(member(all, "key"@)),
        value: as_text(member(all, "value"@)),
        player: as_text(member(all, "player"@)),
        title: as_text(member(all, "title"@)),
        on: as_flag(member(all, "on"@)),
        confirmed: as_flag(member(all, "confirmed"@)),
        validate: as_flag(member(all, "validate"@)),
        success: as_flag(member(all, "success"@)),
        seconds: as_unsigned(member(all, "seconds"@)),
        state: as_unsigned(member(all, "state"@)),
        supported: as_unsigned(member(all, "supported"@)),
        id: as_unsigned(member(all, "id"@)),
        duration: as_signed(member(all, "duration"@)),
        position: as_signed(member(all, "position"@)),
    }
}

/// A text, or the one that stands for its absence.
pub open spec fn or_text(text: Option<Seq<char>>, fallback: Seq<char>) -> Seq<char> {
    match text {
        Some(own) => own,
        None => fallback,
    }
}

fn text_or(text: &Option<String>, fallback: &str) -> (own: String)
    ensures
        own@ == or_text(text_view(*text), fallback@),
{
    match text {
        Some(own) => own.clone(),
        None => String::from_str(fallback),
    }
}

fn is_text(text: &Option<String>, other: &str) -> (same: bool)
    ensures
        same == (or_text(text_view(*text), ""@) == other@),
{
    match text {
        Some(own) => same_text(own.as_str(), other),
        None => same_text("", other),
    }
}

impl Given {
    /// The name of the command, empty when it has none.
    pub open spec fn called(self) -> Seq<char> {
        or_text(self.name, ""@)
    }
}

impl Fields {
    /// Reads a line.
    pub fn read(line: &str) -> (fields: Result<Self, String>)
        ensures
            match parsed(line@) {
                Ok(all) => fields matches Ok(own) && own@ == given(all),
                Err(words) => fields matches Err(text) && text@ == "unreadable command: "@ + words,
            },
    {
        let value = match parse(line) {
            Ok(value) => value,
            Err(words) => {
                let mut text = String::from_str("unreadable command: ");
                text.append(words.as_str());
                return Err(text);
            },
        };
        Ok(
            Fields {
                name: text_member(&value, "cmd"),
                address: text_member(&value, "address"),
                key: text_member(&value, "key"),
                value: text_member(&value, "value"),
                player: text_member(&value, "player"),
                title: text_member(&value, "title"),
                on: flag_member(&value, "on"),
                confirmed: flag_member(&value, "confirmed"),
                validate: flag_member(&value, "validate"),
                success: flag_member(&value, "success"),
                seconds: unsigned_member(&value, "seconds"),
                state: unsigned_member(&value, "state"),
                supported: unsigned_member(&value, "supported"),
                id: unsigned_member(&value, "id"),
                duration: signed_member(&value, "duration"),
                position: signed_member(&value, "position"),
            },
        )
    }
}

// ---- What the media player says ----

/// The snapshot that a media status describes.
pub open spec fn status_of(given: Given) -> Playing {
    Playing {
        player: or_text(given.player, "Windows"@),
        title: or_text(given.title, ""@),
        state: match given.state {
            Some(state) => if state > 3 {
                3u8
            } else {
                state as u8
            },
            None => 0u8,
        },
        duration: match given.duration {
            Some(length) => if length < -1 {
                -1i32
            } else if length > i32::MAX {
                i32::MAX
            } else {
                length as i32
            },
            None => -1i32,
        },
        position: match given.position {
            Some(place) => if place < 0 {
                0i32
            } else if place > i32::MAX {
                i32::MAX
            } else {
                place as i32
            },
            None => 0i32,
        },
        supported: match given.supported {
            Some(bits) => (bits % 0x1_0000_0000) as u32,
            None => 0u32,
        },
    }
}

/// The snapshot that a media status describes. A state beyond the last one is
/// the last one, and times are brought into what the protocol carries.
pub fn media_status(fields: &Fields) -> (snapshot: Snapshot)
    ensures
        snapshot@ == status_of(fields@),
{
    let state: u8 = match fields.state {
        Some(state) => if state > 3 {
            3
        } else {
            state as u8
        },
        None => 0,
    };
    let duration: i32 = match fields.duration {
        Some(length) => if length < -1 {
            -1
        } else if length > i32::MAX as i64 {
            i32::MAX
        } else {
            length as i32
        },
        None => -1,
    };
    let position: i32 = match fields.position {
        Some(place) => if place < 0 {
            0
        } else if place > i32::MAX as i64 {
            i32::MAX
        } else {
            place as i32
        },
        None => 0,
    };
    let supported: u32 = match fields.supported {
        Some(bits) => (bits % 0x1_0000_0000) as u32,
        None => 0,
    };
    Snapshot {
        player: text_or(&fields.player, "Windows"),
        title: text_or(&fields.title, ""),
        state,
        duration,
        position,
        supported,
    }
}

/// Which command the player has finished, and whether it did it.
pub open spec fn result_of(given: Given) -> (u64, bool) {
    (
        match given.id {
            Some(id) => id,
            None => 0,
        },
        given.success == Some(true),
    )
}

/// Which media command was carried out, and whether it worked.
pub fn media_result(fields: &Fields) -> (result: (u64, bool))
    ensures
        result == result_of(fields@),
{
    let id = match fields.id {
        Some(id) => id,
        None => 0,
    };
    let success = match fields.success {
        Some(success) => success,
        None => false,
    };
    (id, success)
}

// ---- What takes effect at once ----

/// What the reading thread does about a command before it is queued.
#[derive(Debug, Clone, Copy, PartialEq, Eq, Structural)]
pub struct Signals {
    /// Stop playing.
    pub stop_playing: bool,
    /// Cut a reconnect wait or a listening window short.
    pub interrupt: bool,
    /// Everything accepted before is out of date.
    pub cancel: bool,
    /// Ask the headphones for their battery level.
    pub refresh_battery: bool,
}

/// What has to be noticed at once.
pub open spec fn signals_of(given: Given, connected: Option<Seq<char>>) -> Signals {
    let name = given.called();
    let ends = name == "stop"@ || name == "quit"@ || name == "disconnect"@;
    Signals {
        stop_playing: ends || (name == "forget"@ && given.address is Some && given.address
            == connected) || (name == "adapter"@ && given.on == Some(false)),
        interrupt: ends || name == "connect"@ || name == "forget"@ || name == "scan"@ || name
            == "adapter"@,
        cancel: ends || name == "forget"@ || name == "adapter"@,
        refresh_battery: name == "battery"@,
    }
}

/// The text in an optional string slice.
pub open spec fn str_view(text: Option<&str>) -> Option<Seq<char>> {
    match text {
        Some(own) => Some(own@),
        None => None,
    }
}

/// What has to be noticed at once.
///
/// While audio runs the worker is blocked, so a queued disconnect would only be
/// read once the thing it is meant to end had ended on its own. Unpairing the
/// device that is playing has to stop it; unpairing any other device must not.
pub fn signals(fields: &Fields, connected: Option<&str>) -> (signals: Signals)
    ensures
        signals == signals_of(fields@, str_view(connected)),
{
    let name = &fields.name;
    let ends = is_text(name, "stop") || is_text(name, "quit") || is_text(name, "disconnect");
    let forget = is_text(name, "forget");
    let adapter = is_text(name, "adapter");
    let own = match (&fields.address, connected) {
        (Some(address), Some(held)) => same_text(address.as_str(), held),
        _ => false,
    };
    let off = match fields.on {
        Some(on) => !on,
        None => false,
    };
    Signals {
        stop_playing: ends || (forget && own) || (adapter && off),
        interrupt: ends || is_text(name, "connect") || forget || is_text(name, "scan") || adapter,
        cancel: ends || forget || adapter,
        refresh_battery: is_text(name, "battery"),
    }
}

/// Whether a command is only carried out once the saved settings have passed
/// their check.
pub open spec fn checks_first(given: Given) -> bool {
    given.called() == "validate-settings"@ || given.called() == "connect"@ || (given.called()
        == "disconnect"@ && given.validate == Some(true))
}

/// Whether a command is only carried out once the saved settings have passed
/// their check.
pub fn needs_preflight(fields: &Fields) -> (yes: bool)
    ensures
        yes == checks_first(fields@),
{
    let validate = match fields.validate {
        Some(validate) => validate,
        None => false,
    };
    is_text(&fields.name, "validate-settings") || is_text(&fields.name, "connect") || (is_text(
        &fields.name,
        "disconnect",
    ) && validate)
}

/// Whether a command is answered by the check alone.
pub fn ends_with_preflight(fields: &Fields, valid: bool) -> (yes: bool)
    ensures
        yes == (checks_first(fields@) && (fields@.called() == "validate-settings"@ || !valid)),
{
    needs_preflight(fields) && (is_text(&fields.name, "validate-settings") || !valid)
}

/// Where a command goes once it is read.
#[derive(Debug, Clone, Copy, PartialEq, Eq, Structural)]
pub enum Route {
    /// It says what the media player does.
    MediaStatus,
    /// It says how a media command went.
    MediaResult,
    /// It changes a setting, which is saved before the worker hears of it.
    Change,
    /// It asks for the settings, which need no worker.
    Settings,
    /// The worker carries it out.
    Worker,
}

/// Who deals with a command.
pub open spec fn route_of(name: Seq<char>) -> Route {
    if name == "media-status"@ {
        Route::MediaStatus
    } else if name == "media-result"@ {
        Route::MediaResult
    } else if name == "set"@ {
        Route::Change
    } else if name == "settings"@ {
        Route::Settings
    } else {
        Route::Worker
    }
}

/// Where a command goes once it is read.
///
/// Playback deliberately occupies the worker. Settings do not sit behind that
/// hours-long operation: they are saved and acknowledged by the thread that is
/// always listening.
pub fn route(fields: &Fields) -> (route: Route)
    ensures
        route == route_of(fields@.called()),
{
    if is_text(&fields.name, "media-status") {
        Route::MediaStatus
    } else if is_text(&fields.name, "media-result") {
        Route::MediaResult
    } else if is_text(&fields.name, "set") {
        Route::Change
    } else if is_text(&fields.name, "settings") {
        Route::Settings
    } else {
        Route::Worker
    }
}

// ---- Epochs ----

/// Counts the commands that mean "stop what you were asked to do".
#[derive(Debug, Clone, Copy, PartialEq, Eq, Structural)]
pub struct Epochs {
    pub current: u64,
}

impl Epochs {
    /// The count once a command is accepted. It wraps around at its end.
    pub open spec fn accepted(self, signals: Signals) -> Epochs {
        if !signals.cancel {
            self
        } else if self.current == u64::MAX {
            Epochs { current: 0 }
        } else {
            Epochs { current: (self.current + 1) as u64 }
        }
    }

    /// Accepts a command and says which epoch it belongs to.
    pub fn accept(&mut self, signals: &Signals) -> (stamp: u64)
        ensures
            *final(self) == old(self).accepted(*signals),
            stamp == final(self).current,
    {
        if signals.cancel {
            self.current = self.current.wrapping_add(1);
        }
        self.current
    }
}

/// Whether a command with this stamp is no longer wanted.
pub open spec fn is_stale(given: Given, stamp: u64, epochs: Epochs) -> bool {
    given.called() == "connect"@ && stamp < epochs.current
}

/// Whether a command is no longer wanted. A connect that was asked for before
/// the user pressed Disconnect is not: running it anyway would have the
/// headphones connect again on their own.
pub fn is_dropped(fields: &Fields, stamp: u64, epochs: &Epochs) -> (yes: bool)
    ensures
        yes == is_stale(fields@, stamp, *epochs),
{
    is_text(&fields.name, "connect") && stamp < epochs.current
}

/// A connect that was accepted before a command that cancels it is dropped, and
/// one accepted after it is not, up to where the count wraps around.
pub proof fn a_cancelled_connect_is_dropped(
    connect: Given,
    cancelling: Given,
    connected: Option<Seq<char>>,
    epochs: Epochs,
)
    requires
        connect.called() == "connect"@,
        signals_of(cancelling, connected).cancel,
        epochs.current < u64::MAX,
    ensures
        ({
            let asked = epochs.accepted(signals_of(connect, connected));
            let later = asked.accepted(signals_of(cancelling, connected));
            &&& is_stale(connect, asked.current, later)
            &&& !is_stale(connect, later.accepted(signals_of(connect, connected)).current, later)
        }),
{
    lemma_connect_cancels_nothing(connect, connected);
}

proof fn lemma_connect_cancels_nothing(connect: Given, connected: Option<Seq<char>>)
    requires
        connect.called() == "connect"@,
    ensures
        !signals_of(connect, connected).cancel,
{
    reveal_strlit("connect");
    reveal_strlit("stop");
    reveal_strlit("quit");
    reveal_strlit("disconnect");
    reveal_strlit("forget");
    reveal_strlit("adapter");
    assert("connect"@.len() == 7);
    assert("adapter"@[0] == 'a');
    assert("connect"@[0] == 'c');
}

/// What cancels also interrupts, and what stops playback also cancels: nothing
/// that ends playback leaves a reconnect running.
pub proof fn what_stops_also_cancels(given: Given, connected: Option<Seq<char>>)
    ensures
        signals_of(given, connected).stop_playing ==> signals_of(given, connected).cancel,
        signals_of(given, connected).cancel ==> signals_of(given, connected).interrupt,
{
}

/// Unpairing a device that is not the one playing leaves the music alone.
pub proof fn unpairing_another_device_keeps_playing(given: Given, connected: Option<Seq<char>>)
    requires
        given.called() == "forget"@,
        given.address != connected,
    ensures
        !signals_of(given, connected).stop_playing,
{
    reveal_strlit("forget");
    reveal_strlit("stop");
    reveal_strlit("quit");
    reveal_strlit("disconnect");
    reveal_strlit("adapter");
    assert("forget"@.len() == 6);
}

// ---- What the worker does ----

/// A command, ready to be carried out.
#[derive(Debug, PartialEq, Eq)]
pub enum Command {
    Status,
    Check,
    Adapter { on: bool },
    Scan { seconds: u64 },
    Connect { address: String, confirmed: bool },
    Forget { address: String },
    Settings,
    Change { key: String, value: String },
    ResetSettings,
    Play,
    Disconnect,
    /// Nothing is left to do: it took effect when it was read.
    Handled,
    Quit,
}

/// What a command asks for.
pub enum Asked {
    Status,
    Check,
    Adapter { on: bool },
    Scan { seconds: u64 },
    Connect { address: Seq<char>, confirmed: bool },
    Forget { address: Seq<char> },
    Settings,
    Change { key: Seq<char>, value: Seq<char> },
    ResetSettings,
    Play,
    Disconnect,
    Handled,
    Quit,
}

impl View for Command {
    type V = Asked;

    open spec fn view(&self) -> Asked {
        match *self {
            Command::Status => Asked::Status,
            Command::Check => Asked::Check,
            Command::Adapter { on } => Asked::Adapter { on },
            Command::Scan { seconds } => Asked::Scan { seconds },
            Command::Connect { address, confirmed } => Asked::Connect {
                address: address@,
                confirmed,
            },
            Command::Forget { address } => Asked::Forget { address: address@ },
            Command::Settings => Asked::Settings,
            Command::Change { key, value } => Asked::Change { key: key@, value: value@ },
            Command::ResetSettings => Asked::ResetSettings,
            Command::Play => Asked::Play,
            Command::Disconnect => Asked::Disconnect,
            Command::Handled => Asked::Handled,
            Command::Quit => Asked::Quit,
        }
    }
}

/// How long a scan takes: eight seconds, or what was asked for, between one
/// second and a minute.
pub open spec fn scan_seconds(asked: Option<u64>) -> u64 {
    crate::session::within(
        match asked {
            Some(seconds) => seconds,
            None => 8,
        },
        1,
        60,
    )
}

/// What a command asks for, or why it cannot be carried out.
pub open spec fn asked(given: Given) -> Result<Asked, Seq<char>> {
    let name = given.called();
    if name == "status"@ {
        Ok(Asked::Status)
    } else if name == "check"@ {
        Ok(Asked::Check)
    } else if name == "adapter"@ {
        Ok(Asked::Adapter { on: given.on != Some(false) })
    } else if name == "scan"@ {
        Ok(Asked::Scan { seconds: scan_seconds(given.seconds) })
    } else if name == "connect"@ {
        match given.address {
            Some(address) => Ok(
                Asked::Connect { address, confirmed: given.confirmed == Some(true) },
            ),
            None => Err("address is missing"@),
        }
    } else if name == "forget"@ {
        match given.address {
            Some(address) => Ok(Asked::Forget { address }),
            None => Err("address is missing"@),
        }
    } else if name == "settings"@ {
        Ok(Asked::Settings)
    } else if name == "set"@ {
        match (given.key, given.value) {
            (Some(key), Some(value)) => Ok(Asked::Change { key, value }),
            (None, _) => Err("key is missing"@),
            (Some(_), None) => Err("value is missing"@),
        }
    } else if name == "reset-settings"@ {
        Ok(Asked::ResetSettings)
    } else if name == "play"@ {
        Ok(Asked::Play)
    } else if name == "disconnect"@ {
        Ok(Asked::Disconnect)
    } else if name == "debug"@ || name == "battery"@ || name == "stop"@ {
        Ok(Asked::Handled)
    } else if name == "quit"@ {
        Ok(Asked::Quit)
    } else {
        Err("unknown command '"@ + name + "'"@)
    }
}

/// What was asked for, or why it cannot be carried out.
pub open spec fn command_view(command: Result<Command, String>) -> Result<Asked, Seq<char>> {
    match command {
        Ok(own) => Ok(own@),
        Err(text) => Err(text@),
    }
}

impl Command {
    /// What a command asks for.
    pub fn from_fields(fields: &Fields) -> (command: Result<Command, String>)
        ensures
            command_view(command) == asked(fields@),
    {
        let name = &fields.name;
        if is_text(name, "status") {
            Ok(Command::Status)
        } else if is_text(name, "check") {
            Ok(Command::Check)
        } else if is_text(name, "adapter") {
            let on = match fields.on {
                Some(on) => on,
                None => true,
            };
            Ok(Command::Adapter { on })
        } else if is_text(name, "scan") {
            let seconds = match fields.seconds {
                Some(seconds) => seconds,
                None => 8,
            };
            let seconds = if seconds < 1 {
                1
            } else if seconds > 60 {
                60
            } else {
                seconds
            };
            Ok(Command::Scan { seconds })
        } else if is_text(name, "connect") {
            let confirmed = match fields.confirmed {
                Some(confirmed) => confirmed,
                None => false,
            };
            match &fields.address {
                Some(address) => Ok(Command::Connect { address: address.clone(), confirmed }),
                None => Err(String::from_str("address is missing")),
            }
        } else if is_text(name, "forget") {
            match &fields.address {
                Some(address) => Ok(Command::Forget { address: address.clone() }),
                None => Err(String::from_str("address is missing")),
            }
        } else if is_text(name, "settings") {
            Ok(Command::Settings)
        } else if is_text(name, "set") {
            match (&fields.key, &fields.value) {
                (Some(key), Some(value)) => Ok(
                    Command::Change { key: key.clone(), value: value.clone() },
                ),
                (None, _) => Err(String::from_str("key is missing")),
                (Some(_), None) => Err(String::from_str("value is missing")),
            }
        } else if is_text(name, "reset-settings") {
            Ok(Command::ResetSettings)
        } else if is_text(name, "play") {
            Ok(Command::Play)
        } else if is_text(name, "disconnect") {
            Ok(Command::Disconnect)
        } else if is_text(name, "debug") || is_text(name, "battery") || is_text(name, "stop") {
            Ok(Command::Handled)
        } else if is_text(name, "quit") {
            Ok(Command::Quit)
        } else {
            let mut text = String::from_str("unknown command '");
            let own = text_or(name, "");
            text.append(own.as_str());
            text.append("'");
            Err(text)
        }
    }

    /// Reads a line and says what it asks for.
    pub fn read(line: &str) -> (command: Result<Command, String>)
        ensures
            command_view(command) == match parsed(line@) {
                Ok(all) => asked(given(all)),
                Err(words) => Err("unreadable command: "@ + words),
            },
    {
        match Fields::read(line) {
            Ok(fields) => Command::from_fields(&fields),
            Err(text) => Err(text),
        }
    }
}

// ---- Favourites ----

/// Whether a device is one of the favourites in a list that was saved as JSON. A
/// list that cannot be read has none.
pub fn favorite_in(saved: &str, address: &str) -> (yes: bool)
    ensures
        yes == match parsed_texts(saved@) {
            Some(items) => is_marked(items, address@),
            None => false,
        },
{
    match parse_texts(saved) {
        Some(items) => is_favorite(&items, address),
        None => false,
    }
}

/// Every field of a line is read under its own name.
pub proof fn every_field_has_its_own_name(all: Map<Seq<char>, Scalar>)
    ensures
        ({
            let g = given(all);
            &&& g.name == as_text(member(all, "cmd"@))
            &&& g.address == as_text(member(all, "address"@))
            &&& g.key == as_text(member(all, "key"@))
            &&& g.value == as_text(member(all, "value"@))
            &&& g.player == as_text(member(all, "player"@))
            &&& g.title == as_text(member(all, "title"@))
            &&& g.on == as_flag(member(all, "on"@))
            &&& g.confirmed == as_flag(member(all, "confirmed"@))
            &&& g.validate == as_flag(member(all, "validate"@))
            &&& g.success == as_flag(member(all, "success"@))
            &&& g.seconds == as_unsigned(member(all, "seconds"@))
            &&& g.state == as_unsigned(member(all, "state"@))
            &&& g.supported == as_unsigned(member(all, "supported"@))
            &&& g.id == as_unsigned(member(all, "id"@))
            &&& g.duration == as_signed(member(all, "duration"@))
            &&& g.position == as_signed(member(all, "position"@))
        }),
{
}

/// What the player says is taken as it is as long as it makes sense: a state of at
/// most 3, a duration that may be unknown, which is -1, a position from the start on.
/// What it does not say is an unknown player at rest.
pub proof fn the_players_word_is_taken(said: Given)
    ensures
        ({
            let playing = status_of(said);
            &&& said.player matches Some(name) ==> playing.player == name
            &&& said.player is None ==> playing.player == "Windows"@
            &&& said.title matches Some(name) ==> playing.title == name
            &&& said.title is None ==> playing.title == ""@
            &&& said.state is Some && said.state->0 <= 3 ==> playing.state == said.state->0
            &&& said.state is Some && said.state->0 > 3 ==> playing.state == 3
            &&& said.state is None ==> playing.state == 0
            &&& said.duration is Some && -1 <= said.duration->0 <= i32::MAX ==> playing.duration
                == said.duration->0
            &&& said.duration is Some && said.duration->0 < -1 ==> playing.duration == -1
            &&& said.duration is Some && said.duration->0 > i32::MAX ==> playing.duration == i32::MAX
            &&& said.duration is None ==> playing.duration == -1
            &&& said.position is Some && 0 <= said.position->0 <= i32::MAX ==> playing.position
                == said.position->0
            &&& said.position is Some && said.position->0 < 0 ==> playing.position == 0
            &&& said.position is Some && said.position->0 > i32::MAX ==> playing.position == i32::MAX
            &&& said.position is None ==> playing.position == 0
            &&& said.supported is Some && said.supported->0 <= u32::MAX ==> playing.supported
                == said.supported->0
            &&& said.supported is None ==> playing.supported == 0
        }),
{
}

/// What takes effect at once. Stopping, quitting and disconnecting end playback and
/// whatever else is under way; switching the adapter off does too, and so does
/// forgetting the device that plays. Connecting and scanning only interrupt, and a
/// battery reading interrupts nothing.
#[verifier::rlimit(60)]
pub proof fn what_takes_effect_at_once(said: Given, connected: Option<Seq<char>>)
    ensures
        ({
            let s = signals_of(said, connected);
            let name = said.called();
            &&& name == "stop"@ || name == "quit"@ || name == "disconnect"@ ==> s.stop_playing
                && s.interrupt && s.cancel
            &&& name == "adapter"@ ==> s.interrupt && s.cancel && (said.on == Some(false)
                ==> s.stop_playing)
            &&& name == "forget"@ ==> s.interrupt && s.cancel && (said.address is Some
                && said.address == connected ==> s.stop_playing)
            &&& name == "connect"@ || name == "scan"@ ==> s.interrupt
            &&& name == "battery"@ ==> s.refresh_battery
            &&& s.stop_playing ==> name == "stop"@ || name == "quit"@ || name == "disconnect"@ || (
            name == "forget"@ && said.address == connected) || (name == "adapter"@ && said.on
                == Some(false))
            &&& s.cancel ==> name == "stop"@ || name == "quit"@ || name == "disconnect"@ || name
                == "forget"@ || name == "adapter"@
            &&& s.interrupt ==> s.cancel || name == "connect"@ || name == "scan"@
            &&& s.refresh_battery ==> name == "battery"@
        }),
        checks_first(said) <==> said.called() == "validate-settings"@ || said.called() == "connect"@
            || (said.called() == "disconnect"@ && said.validate == Some(true)),
{
}

/// A cancelling command opens a new epoch and any other leaves it; a connection asked
/// for in an older one is stale, and nothing else ever is.
pub proof fn only_an_older_connection_is_stale(
    said: Given,
    stamp: u64,
    epochs: Epochs,
    signals: Signals,
)
    ensures
        signals.cancel && epochs.current < u64::MAX ==> epochs.accepted(signals).current
            == epochs.current + 1,
        !signals.cancel ==> epochs.accepted(signals) == epochs,
        is_stale(said, stamp, epochs) <==> said.called() == "connect"@ && stamp < epochs.current,
{
}

/// A scan lasts as long as asked, from one second to a minute, and eight seconds
/// where nothing is asked.
pub proof fn a_scan_lasts_as_long_as_asked(seconds: u64)
    ensures
        scan_seconds(None) == 8,
        1 <= seconds <= 60 ==> scan_seconds(Some(seconds)) == seconds,
        seconds > 60 ==> scan_seconds(Some(seconds)) == 60,
        seconds == 0 ==> scan_seconds(Some(seconds)) == 1,
{
}

/// What the player says and what is asked of the settings is dealt with at once, and
/// everything else waits for the worker.
pub proof fn only_four_commands_jump_the_queue(name: Seq<char>)
    ensures
        route_of(name) == Route::MediaStatus ==> name == "media-status"@,
        route_of(name) == Route::MediaResult ==> name == "media-result"@,
        route_of(name) == Route::Change ==> name == "set"@,
        route_of(name) == Route::Settings ==> name == "settings"@,
        route_of(name) == Route::Worker <==> name != "media-status"@ && name != "media-result"@
            && name != "set"@ && name != "settings"@,
{
}

/// What is asked for is what was said: a device by its own address, confirmed only by
/// the word itself; the adapter on unless it is to be off; a setting by its key and
/// its value. A result is a success only where it says so.
#[verifier::rlimit(60)]
pub proof fn what_is_asked_for_is_what_was_said(said: Given)
    ensures
        match asked(said) {
            Ok(Asked::Connect { address, confirmed }) => said.called() == "connect"@ && said.address
                == Some(address) && (confirmed <==> said.confirmed == Some(true)),
            Ok(Asked::Forget { address }) => said.called() == "forget"@ && said.address == Some(
                address,
            ),
            Ok(Asked::Adapter { on }) => said.called() == "adapter"@ && (on <==> said.on != Some(
                false,
            )),
            Ok(Asked::Scan { seconds }) => said.called() == "scan"@ && seconds == scan_seconds(
                said.seconds,
            ),
            Ok(Asked::Change { key, value }) => said.called() == "set"@ && said.key == Some(key)
                && said.value == Some(value),
            Ok(Asked::Status) => said.called() == "status"@,
            Ok(Asked::Check) => said.called() == "check"@,
            Ok(Asked::Settings) => said.called() == "settings"@,
            Ok(Asked::ResetSettings) => said.called() == "reset-settings"@,
            Ok(Asked::Play) => said.called() == "play"@,
            Ok(Asked::Disconnect) => said.called() == "disconnect"@,
            Ok(Asked::Quit) => said.called() == "quit"@,
            Ok(Asked::Handled) => said.called() == "debug"@ || said.called() == "battery"@
                || said.called() == "stop"@,
            Err(_) => said.called() != "status"@ && said.called() != "check"@ && said.called()
                != "adapter"@ && said.called() != "scan"@,
        },
        asked(said) is Err && said.address is Some && said.key is Some && said.value is Some
            ==> said.called() != "connect"@ && said.called() != "forget"@ && said.called()
            != "settings"@ && said.called() != "set"@ && said.called() != "reset-settings"@
            && said.called() != "play"@ && said.called() != "disconnect"@ && said.called()
            != "debug"@ && said.called() != "battery"@ && said.called() != "stop"@ && said.called()
            != "quit"@,
        result_of(said).1 <==> said.success == Some(true),
        said.id is Some ==> result_of(said).0 == said.id->0,
        said.id is None ==> result_of(said).0 == 0,
{
}

} // verus!
