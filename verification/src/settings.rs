//! The settings a user can change, and what changing one does.
//!
//! A setting is a key with a text. Which keys exist is the business of the
//! settings page; which texts a key takes, and which other settings follow from
//! a change, is decided here.

use crate::bap::{
    code_hz, ones, CodecConfiguration, FrameDuration, QosConfiguration, LOCATION_FRONT_LEFT,
};
use crate::google::{
    codec_for, game_candidates, media_candidates, Candidate, QosProfile, GAME_ORDER, MEDIA_ORDER,
};
use crate::text::{
    decimal, push_decimal, push_signed, same_text, signed_decimal, text_views, to_chars,
};
use vstd::prelude::*;
use vstd::string::*;
use vstd::utf8::encode_utf8;

verus! {

/// The text under a key: that of the first entry which has it.
pub open spec fn entry_of(entries: Seq<(Seq<char>, Seq<char>)>, key: Seq<char>) -> Option<Seq<char>>
    decreases entries.len(),
{
    if entries.len() == 0 {
        None
    } else if entries[0].0 == key {
        Some(entries[0].1)
    } else {
        entry_of(entries.skip(1), key)
    }
}

/// What several entries hold.
pub open spec fn entry_views(entries: Seq<(String, String)>) -> Seq<(Seq<char>, Seq<char>)> {
    Seq::new(entries.len(), |i: int| (entries[i].0@, entries[i].1@))
}

/// Entries as a map from keys to texts.
pub open spec fn as_map(entries: Seq<(Seq<char>, Seq<char>)>) -> Map<Seq<char>, Seq<char>> {
    Map::new(
        |key: Seq<char>| entry_of(entries, key) is Some,
        |key: Seq<char>| entry_of(entries, key)->0,
    )
}

proof fn lemma_entry_pushed(
    entries: Seq<(Seq<char>, Seq<char>)>,
    key: Seq<char>,
    text: Seq<char>,
    other: Seq<char>,
)
    requires
        entry_of(entries, key) is None,
    ensures
        entry_of(entries.push((key, text)), other) == if other == key {
            Some(text)
        } else {
            entry_of(entries, other)
        },
    decreases entries.len(),
{
    let longer = entries.push((key, text));
    if entries.len() == 0 {
        assert(longer.skip(1) =~= entries);
        assert(longer[0] == (key, text));
    } else {
        assert(longer.skip(1) =~= entries.skip(1).push((key, text)));
        lemma_entry_pushed(entries.skip(1), key, text, other);
    }
}

proof fn lemma_entry_replaced(
    entries: Seq<(Seq<char>, Seq<char>)>,
    at: int,
    text: Seq<char>,
    other: Seq<char>,
)
    requires
        0 <= at < entries.len(),
        forall|i: int| 0 <= i < at ==> (#[trigger] entries[i]).0 != entries[at].0,
    ensures
        entry_of(entries.update(at, (entries[at].0, text)), other) == if other == entries[at].0 {
            Some(text)
        } else {
            entry_of(entries, other)
        },
    decreases entries.len(),
{
    let changed = entries.update(at, (entries[at].0, text));
    if at > 0 {
        let rest = entries.skip(1);
        assert(changed.skip(1) =~= rest.update(at - 1, (rest[at - 1].0, text)));
        assert forall|i: int| 0 <= i < at - 1 implies (#[trigger] rest[i]).0 != rest[at - 1].0 by {
            assert(rest[i] == entries[i + 1]);
        }
        lemma_entry_replaced(rest, at - 1, text, other);
        assert(entries[0].0 != entries[at].0);
    } else {
        assert(changed.skip(1) =~= entries.skip(1));
    }
}

/// What the user has chosen.
#[derive(Debug)]
pub struct Settings {
    entries: Vec<(String, String)>,
}

impl View for Settings {
    type V = Map<Seq<char>, Seq<char>>;

    closed spec fn view(&self) -> Map<Seq<char>, Seq<char>> {
        as_map(entry_views(self.entries@))
    }
}

/// The text of a setting, when it is set.
pub open spec fn setting(settings: Map<Seq<char>, Seq<char>>, key: Seq<char>) -> Option<Seq<char>> {
    if settings.contains_key(key) {
        Some(settings[key])
    } else {
        None
    }
}

impl Default for Settings {
    fn default() -> (settings: Self)
        ensures
            settings@ == Map::<Seq<char>, Seq<char>>::empty(),
    {
        let settings = Settings { entries: Vec::new() };
        assert(settings@ =~= Map::<Seq<char>, Seq<char>>::empty());
        settings
    }
}

impl Clone for Settings {
    fn clone(&self) -> (copy: Self)
        ensures
            copy@ == self@,
    {
        let mut entries: Vec<(String, String)> = Vec::new();
        let mut i: usize = 0;
        while i < self.entries.len()
            invariant
                i <= self.entries@.len(),
                entry_views(entries@) =~= entry_views(self.entries@).take(i as int),
            decreases self.entries@.len() - i,
        {
            let ghost held = entry_views(entries@);
            let key = self.entries[i].0.clone();
            let text = self.entries[i].1.clone();
            entries.push((key, text));
            assert(entry_views(entries@) =~= held.push((key@, text@)));
            i = i + 1;
        }
        assert(entry_views(entries@) =~= entry_views(self.entries@));
        Settings { entries }
    }
}

impl Settings {
    fn place(&self, key: &str) -> (place: Option<usize>)
        ensures
            match place {
                Some(i) => {
                    &&& i < self.entries@.len()
                    &&& entry_views(self.entries@)[i as int].0 == key@
                    &&& entry_of(entry_views(self.entries@), key@) == Some(
                        entry_views(self.entries@)[i as int].1,
                    )
                    &&& forall|j: int|
                        0 <= j < i ==> (#[trigger] entry_views(self.entries@)[j]).0 != key@
                },
                None => entry_of(entry_views(self.entries@), key@) is None,
            },
    {
        let ghost all = entry_views(self.entries@);
        let mut i: usize = 0;
        assert(all.skip(0) =~= all);
        while i < self.entries.len()
            invariant
                i <= self.entries@.len(),
                all == entry_views(self.entries@),
                entry_of(all, key@) == entry_of(all.skip(i as int), key@),
                forall|j: int| 0 <= j < i ==> (#[trigger] all[j]).0 != key@,
            decreases self.entries@.len() - i,
        {
            assert(all.skip(i as int).skip(1) =~= all.skip(i + 1));
            if same_text(self.entries[i].0.as_str(), key) {
                return Some(i);
            }
            i = i + 1;
        }
        None
    }

    /// The text of a setting, when it is set.
    pub fn get(&self, key: &str) -> (text: Option<&str>)
        ensures
            match text {
                Some(t) => setting(self@, key@) == Some(t@),
                None => setting(self@, key@) is None,
            },
    {
        match self.place(key) {
            Some(i) => Some(self.entries[i].1.as_str()),
            None => None,
        }
    }

    /// Whether a setting has this very text.
    pub fn is(&self, key: &str, text: &str) -> (yes: bool)
        ensures
            yes == (setting(self@, key@) == Some(text@)),
    {
        match self.get(key) {
            Some(found) => same_text(found, text),
            None => false,
        }
    }

    /// Gives a setting a text.
    pub fn set(&mut self, key: &str, text: &str)
        ensures
            final(self)@ == old(self)@.insert(key@, text@),
    {
        let ghost all = entry_views(self.entries@);
        let ghost before = self@;
        let place = self.place(key);
        let key_text = String::from_str(key);
        let new_text = String::from_str(text);
        match place {
            Some(i) => {
                self.entries.set(i, (key_text, new_text));
                proof {
                    assert(entry_views(self.entries@) =~= all.update(i as int, (key@, text@)));
                    assert forall|other: Seq<char>| #[trigger]
                        entry_of(entry_views(self.entries@), other) == if other == key@ {
                            Some(text@)
                        } else {
                            entry_of(all, other)
                        } by {
                        lemma_entry_replaced(all, i as int, text@, other);
                    }
                }
            },
            None => {
                self.entries.push((key_text, new_text));
                proof {
                    assert(entry_views(self.entries@) =~= all.push((key@, text@)));
                    assert forall|other: Seq<char>| #[trigger]
                        entry_of(entry_views(self.entries@), other) == if other == key@ {
                            Some(text@)
                        } else {
                            entry_of(all, other)
                        } by {
                        lemma_entry_pushed(all, key@, text@, other);
                    }
                }
            },
        }
        assert(self@ =~= before.insert(key@, text@));
    }
}

/// What a text says of a switch.
pub open spec fn switch_value(text: Seq<char>) -> Option<bool> {
    if text == "true"@ || text == "1"@ || text == "yes"@ {
        Some(true)
    } else if text == "false"@ || text == "0"@ || text == "ne"@ {
        Some(false)
    } else {
        None
    }
}

impl Settings {
    /// Whether a switch is on, when it is set to something that says so.
    pub fn switch(&self, key: &str) -> (on: Option<bool>)
        ensures
            on == match setting(self@, key@) {
                Some(text) => switch_value(text),
                None => None,
            },
    {
        match self.get(key) {
            Some(text) => if same_text(text, "true") || same_text(text, "1") || same_text(
                text,
                "yes",
            ) {
                Some(true)
            } else if same_text(text, "false") || same_text(text, "0") || same_text(text, "ne") {
                Some(false)
            } else {
                None
            },
            None => None,
        }
    }
}

/// Those of several settings whose text differs, in the order they are named.
pub open spec fn touched(
    knobs: Seq<Seq<char>>,
    before: Map<Seq<char>, Seq<char>>,
    after: Map<Seq<char>, Seq<char>>,
) -> Seq<Seq<char>>
    decreases knobs.len(),
{
    if knobs.len() == 0 {
        Seq::empty()
    } else if setting(before, knobs.last()) == setting(after, knobs.last()) {
        touched(knobs.drop_last(), before, after)
    } else {
        touched(knobs.drop_last(), before, after).push(knobs.last())
    }
}

impl Settings {
    /// Whether a setting has the same text in both.
    pub fn agrees(&self, other: &Settings, key: &str) -> (yes: bool)
        ensures
            yes == (setting(self@, key@) == setting(other@, key@)),
    {
        match (self.get(key), other.get(key)) {
            (Some(a), Some(b)) => same_text(a, b),
            (None, None) => true,
            _ => false,
        }
    }

    /// Those of `knobs` that have another text than they had before.
    pub fn touched_since(&self, before: &Settings, knobs: &[&str]) -> (changed: Vec<String>)
        ensures
            text_views(changed@) == touched(name_views(knobs@), before@, self@),
    {
        let ghost all = name_views(knobs@);
        let mut changed: Vec<String> = Vec::new();
        let mut i: usize = 0;
        assert(text_views(changed@) =~= touched(all.take(0), before@, self@));
        while i < knobs.len()
            invariant
                i <= knobs@.len(),
                all == name_views(knobs@),
                text_views(changed@) == touched(all.take(i as int), before@, self@),
            decreases knobs@.len() - i,
        {
            assert(all.take(i + 1).drop_last() =~= all.take(i as int));
            assert(all.take(i + 1).last() == knobs@[i as int]@);
            if !self.agrees(before, knobs[i]) {
                let ghost so_far = text_views(changed@);
                changed.push(String::from_str(knobs[i]));
                assert(text_views(changed@) =~= so_far.push(knobs@[i as int]@));
            }
            i = i + 1;
        }
        assert(all.take(all.len() as int) =~= all);
        changed
    }
}

// ---- What a key takes ----

/// How a text compares with the numbers a key takes.
#[derive(Debug, Clone, Copy, PartialEq, Eq, Structural)]
pub enum NumberCheck {
    NotANumber,
    Outside,
    Inside,
}

/// The smallest and the greatest number a key takes, for the keys that take one.
pub open spec fn number_range(key: Seq<char>) -> Option<(int, int)> {
    if key == "octets"@ {
        Some((20, 400))
    } else if key == "retransmissions"@ {
        Some((0, 15))
    } else if key == "max_latency_ms"@ {
        Some((5, 4_000))
    } else if key == "presentation_delay_ms"@ {
        Some((0, 4_000))
    } else if key == "gain"@ || key == "microphone_gain"@ || key == "monitor_gain"@ {
        Some((0, 2))
    } else if key == "balance"@ {
        Some((-50, 50))
    } else if key == "idle_link_latency"@ {
        Some((0, 30))
    } else if key == "battery_poll_min"@ {
        Some((0, 120))
    } else if key == "link_timeout_s"@ {
        Some((2, 30))
    } else if key == "idle_timeout_min"@ {
        Some((0, 120))
    } else if key == "reconnect_interval_s"@ || key == "audio_recovery_interval_s"@ {
        Some((1, 60))
    } else if key == "reconnect_window_min"@ || key == "audio_recovery_window_min"@ {
        Some((0, 1_440))
    } else {
        None
    }
}

/// The smallest and the greatest number a key takes, for the keys that take one.
pub fn numeric_range(key: &str) -> (range: Option<(i32, i32)>)
    ensures
        match number_range(key@) {
            Some((min, max)) => range matches Some(r) && r.0 == min && r.1 == max,
            None => range is None,
        },
{
    if same_text(key, "octets") {
        Some((20, 400))
    } else if same_text(key, "retransmissions") {
        Some((0, 15))
    } else if same_text(key, "max_latency_ms") {
        Some((5, 4_000))
    } else if same_text(key, "presentation_delay_ms") {
        Some((0, 4_000))
    } else if same_text(key, "gain") || same_text(key, "microphone_gain") || same_text(
        key,
        "monitor_gain",
    ) {
        Some((0, 2))
    } else if same_text(key, "balance") {
        Some((-50, 50))
    } else if same_text(key, "idle_link_latency") {
        Some((0, 30))
    } else if same_text(key, "battery_poll_min") {
        Some((0, 120))
    } else if same_text(key, "link_timeout_s") {
        Some((2, 30))
    } else if same_text(key, "idle_timeout_min") {
        Some((0, 120))
    } else if same_text(key, "reconnect_interval_s") || same_text(
        key,
        "audio_recovery_interval_s",
    ) {
        Some((1, 60))
    } else if same_text(key, "reconnect_window_min") || same_text(
        key,
        "audio_recovery_window_min",
    ) {
        Some((0, 1_440))
    } else {
        None
    }
}

/// Whether a text is one of the two, three or six it may be.
pub open spec fn is_choice(key: Seq<char>, value: Seq<char>) -> Option<bool> {
    if key == "preset"@ {
        Some(
            value == "google"@ || value == "custom"@ || value == "windows"@ || value
                == "high-quality"@ || value == "low-latency"@ || value == "robust"@,
        )
    } else if key == "audio_context"@ {
        Some(value == "media"@ || value == "game"@)
    } else if key == "audio_mode"@ {
        Some(value == "stereo"@ || value == "mono"@)
    } else if key == "microphone_mode"@ {
        Some(value == "off"@ || value == "on"@)
    } else if key == "microphone_quality"@ {
        Some(value == "voice"@ || value == "balanced"@ || value == "high"@)
    } else if key == "microphone_target"@ {
        Some(
            value == "vb-cable"@ || value == "vb-cable-a"@ || value == "vb-cable-b"@ || value
                == "none"@,
        )
    } else if key == "monitor_mode"@ {
        Some(value == "mix"@ || value == "replace"@)
    } else if key == "acl_phy"@ {
        Some(value == "auto"@ || value == "1M"@ || value == "2M"@)
    } else if key == "phy"@ {
        Some(value == "1M"@ || value == "2M"@)
    } else if key == "frame_ms"@ {
        Some(value == "7.5"@ || value == "10"@ || value == "10.0"@)
    } else if key == "rate_hz"@ {
        Some(
            value == "8000"@ || value == "16000"@ || value == "24000"@ || value == "32000"@
                || value == "44100"@ || value == "48000"@,
        )
    } else if is_switch(key) {
        Some(switch_value(value) is Some)
    } else {
        None
    }
}

/// Whether a key is either on or off.
pub open spec fn is_switch(key: Seq<char>) -> bool {
    key == "audio_recovery_enabled"@ || key == "reconnect_enabled"@ || key
        == "startup_reconnect_enabled"@ || key == "diagnostics"@ || key == "swap_channels"@ || key
        == "multipoint_yield_enabled"@ || key == "monitor_enabled"@ || key == "run_in_background"@
        || key == "start_with_windows"@ || key == "media_controls_enabled"@
}

/// How a wrong text for a key with choices is refused.
pub open spec fn choice_refusal(key: Seq<char>) -> Seq<char> {
    if key == "preset"@ {
        "unknown stream configuration"@
    } else if key == "audio_context"@ {
        "unknown audio context"@
    } else if key == "audio_mode"@ {
        "unknown audio mode"@
    } else if key == "microphone_mode"@ {
        "unknown microphone mode"@
    } else if key == "microphone_quality"@ {
        "unknown microphone quality"@
    } else if key == "microphone_target"@ {
        "unknown microphone target"@
    } else if key == "monitor_mode"@ {
        "unknown monitoring mode"@
    } else if key == "acl_phy"@ {
        "ACL PHY must be auto, 1M or 2M"@
    } else if key == "phy"@ {
        "radio PHY must be 1M or 2M"@
    } else if key == "frame_ms"@ {
        "LC3 frame duration must be 7.5 or 10 ms"@
    } else if key == "rate_hz"@ {
        "unsupported LC3 sample rate"@
    } else {
        "boolean setting must be true or false"@
    }
}

/// Why a text is refused for a key with choices.
pub fn check_choice(key: &str, value: &str) -> (refusal: Option<&'static str>)
    ensures
        if is_choice(key@, value@) == Some(false) {
            refusal matches Some(text) && text@ == choice_refusal(key@)
        } else {
            refusal is None
        },
{
    let (fits, refusal) = if same_text(key, "preset") {
        (
            same_text(value, "google") || same_text(value, "custom") || same_text(value, "windows")
                || same_text(value, "high-quality") || same_text(value, "low-latency")
                || same_text(value, "robust"),
            "unknown stream configuration",
        )
    } else if same_text(key, "audio_context") {
        (same_text(value, "media") || same_text(value, "game"), "unknown audio context")
    } else if same_text(key, "audio_mode") {
        (same_text(value, "stereo") || same_text(value, "mono"), "unknown audio mode")
    } else if same_text(key, "microphone_mode") {
        (same_text(value, "off") || same_text(value, "on"), "unknown microphone mode")
    } else if same_text(key, "microphone_quality") {
        (
            same_text(value, "voice") || same_text(value, "balanced") || same_text(value, "high"),
            "unknown microphone quality",
        )
    } else if same_text(key, "microphone_target") {
        (
            same_text(value, "vb-cable") || same_text(value, "vb-cable-a") || same_text(
                value,
                "vb-cable-b",
            ) || same_text(value, "none"),
            "unknown microphone target",
        )
    } else if same_text(key, "monitor_mode") {
        (same_text(value, "mix") || same_text(value, "replace"), "unknown monitoring mode")
    } else if same_text(key, "acl_phy") {
        (
            same_text(value, "auto") || same_text(value, "1M") || same_text(value, "2M"),
            "ACL PHY must be auto, 1M or 2M",
        )
    } else if same_text(key, "phy") {
        (same_text(value, "1M") || same_text(value, "2M"), "radio PHY must be 1M or 2M")
    } else if same_text(key, "frame_ms") {
        (
            same_text(value, "7.5") || same_text(value, "10") || same_text(value, "10.0"),
            "LC3 frame duration must be 7.5 or 10 ms",
        )
    } else if same_text(key, "rate_hz") {
        (
            same_text(value, "8000") || same_text(value, "16000") || same_text(value, "24000")
                || same_text(value, "32000") || same_text(value, "44100") || same_text(
                value,
                "48000",
            ),
            "unsupported LC3 sample rate",
        )
    } else if switch_key(key) {
        (
            same_text(value, "true") || same_text(value, "false") || same_text(value, "1")
                || same_text(value, "0") || same_text(value, "yes") || same_text(value, "ne"),
            "boolean setting must be true or false",
        )
    } else {
        (true, "")
    };
    if fits {
        None
    } else {
        Some(refusal)
    }
}

fn switch_key(key: &str) -> (yes: bool)
    ensures
        yes == is_switch(key@),
{
    same_text(key, "audio_recovery_enabled") || same_text(key, "reconnect_enabled") || same_text(
        key,
        "startup_reconnect_enabled",
    ) || same_text(key, "diagnostics") || same_text(key, "swap_channels") || same_text(
        key,
        "multipoint_yield_enabled",
    ) || same_text(key, "monitor_enabled") || same_text(key, "run_in_background") || same_text(
        key,
        "start_with_windows",
    ) || same_text(key, "media_controls_enabled")
}

/// Whether a text is longer than a setting may be, or breaks its line.
pub open spec fn is_unstorable(value: Seq<char>) -> bool {
    encode_utf8(value).len() > 512 || value.contains('\r') || value.contains('\n')
}

fn unstorable(value: &str) -> (yes: bool)
    ensures
        yes == is_unstorable(value@),
{
    if value.as_bytes().len() > 512 {
        return true;
    }
    let chars = to_chars(value);
    let mut i: usize = 0;
    while i < chars.len()
        invariant
            i <= chars@.len(),
            chars@ == value@,
            encode_utf8(value@).len() <= 512,
            forall|j: int| 0 <= j < i ==> chars@[j] != '\r' && chars@[j] != '\n',
        decreases chars@.len() - i,
    {
        if chars[i] == '\r' {
            assert(value@[i as int] == '\r');
            return true;
        }
        if chars[i] == '\n' {
            assert(value@[i as int] == '\n');
            return true;
        }
        i = i + 1;
    }
    false
}

/// What is known of a key and its new text that only other parts can tell.
#[derive(Debug, Clone, Copy, PartialEq, Eq, Structural)]
pub struct Judged {
    /// Whether the text names a level of radio monitoring.
    pub metrics_level: bool,
    /// Whether the text names a way of addressing HCI commands.
    pub command_style: bool,
    /// How the text compares with the key's numbers.
    pub number: NumberCheck,
}

/// Why a change is refused.
pub open spec fn change_refusal(
    knobs: Seq<Seq<char>>,
    key: Seq<char>,
    value: Seq<char>,
    judged: Judged,
) -> Option<Seq<char>> {
    if !knobs.contains(key) {
        Some("unknown setting '"@ + key + "'"@)
    } else if is_unstorable(value) {
        Some("setting value is too long or contains a line break"@)
    } else if is_choice(key, value) == Some(false) {
        Some(choice_refusal(key))
    } else if key == "link_metrics"@ && !judged.metrics_level {
        Some("unknown radio monitoring level"@)
    } else if key == "command_style"@ && !judged.command_style {
        Some("unknown HCI command addressing mode"@)
    } else {
        match number_range(key) {
            None => None,
            Some((min, max)) => match judged.number {
                NumberCheck::NotANumber => Some(key + " must be a number"@),
                NumberCheck::Outside => Some(
                    key + " must be between "@ + signed_decimal(min) + " and "@ + signed_decimal(
                        max,
                    ),
                ),
                NumberCheck::Inside => None,
            },
        }
    }
}

/// The names of several settings.
pub open spec fn name_views(knobs: Seq<&str>) -> Seq<Seq<char>> {
    Seq::new(knobs.len(), |i: int| knobs[i]@)
}

fn names(knobs: &[&str], key: &str) -> (yes: bool)
    ensures
        yes == name_views(knobs@).contains(key@),
{
    let ghost all = name_views(knobs@);
    let mut i: usize = 0;
    while i < knobs.len()
        invariant
            i <= knobs@.len(),
            all == name_views(knobs@),
            forall|j: int| 0 <= j < i ==> (#[trigger] all[j]) != key@,
        decreases knobs@.len() - i,
    {
        if same_text(knobs[i], key) {
            assert(all[i as int] == key@);
            return true;
        }
        i = i + 1;
    }
    false
}

/// Checks a change before anything is touched. `knobs` names every setting there
/// is.
pub fn check_change(knobs: &[&str], key: &str, value: &str, judged: Judged) -> (checked: Result<
    (),
    String,
>)
    ensures
        match change_refusal(name_views(knobs@), key@, value@, judged) {
            Some(text) => checked matches Err(message) && message@ == text,
            None => checked is Ok,
        },
{
    if !names(knobs, key) {
        let mut text = String::from_str("unknown setting '");
        text.append(key);
        text.append("'");
        return Err(text);
    }
    if unstorable(value) {
        return Err(String::from_str("setting value is too long or contains a line break"));
    }
    if let Some(refusal) = check_choice(key, value) {
        return Err(String::from_str(refusal));
    }
    if same_text(key, "link_metrics") && !judged.metrics_level {
        return Err(String::from_str("unknown radio monitoring level"));
    }
    if same_text(key, "command_style") && !judged.command_style {
        return Err(String::from_str("unknown HCI command addressing mode"));
    }
    if let Some((min, max)) = numeric_range(key) {
        match judged.number {
            NumberCheck::NotANumber => {
                let mut text = String::from_str(key);
                text.append(" must be a number");
                return Err(text);
            },
            NumberCheck::Outside => {
                let mut text = String::from_str(key);
                text.append(" must be between ");
                push_signed(&mut text, min as i64);
                text.append(" and ");
                push_signed(&mut text, max as i64);
                return Err(text);
            },
            NumberCheck::Inside => {},
        }
    }
    Ok(())
}

// ---- What follows from a change ----

/// The settings with the codec and radio values of a stream on them.
pub open spec fn mirrored(
    settings: Map<Seq<char>, Seq<char>>,
    codec: CodecConfiguration,
    qos: QosConfiguration,
) -> Map<Seq<char>, Seq<char>> {
    settings.insert(
        "rate_hz"@,
        decimal(
            match code_hz(codec.sampling_frequency.0) {
                Some(hz) => hz as nat,
                None => 48_000,
            },
        ),
    ).insert(
        "frame_ms"@,
        if codec.frame_duration is Ms7_5 {
            "7.5"@
        } else {
            "10"@
        },
    ).insert("octets"@, decimal(codec.octets_per_frame as nat)).insert(
        "phy"@,
        if qos.phy == 0x01 {
            "1M"@
        } else {
            "2M"@
        },
    ).insert("retransmissions"@, decimal(qos.retransmission_number as nat)).insert(
        "max_latency_ms"@,
        decimal(qos.max_transport_latency_ms as nat),
    ).insert("presentation_delay_ms"@, decimal((qos.presentation_delay_us / 1000) as nat))
}

/// What is asked for at the head of an order when no device has answered yet.
pub open spec fn head_qos(head: Candidate) -> QosConfiguration {
    let codec = codec_for(head.setting, false);
    QosConfiguration {
        sdu_interval_us: codec.frame_duration.us(),
        framing: 0x00,
        phy: 0x02,
        max_sdu: codec.octets_per_frame,
        retransmission_number: head.qos.numbers(None).0,
        max_transport_latency_ms: head.qos.numbers(None).1,
        presentation_delay_us: QosProfile::delay(None),
    }
}

/// The settings once `key` has its new text and nothing else has followed.
pub open spec fn after_setting(
    settings: Map<Seq<char>, Seq<char>>,
    key: Seq<char>,
    value: Seq<char>,
) -> Map<Seq<char>, Seq<char>> {
    let set = settings.insert(key, value);
    if key == "microphone_mode"@ && value == "off"@ && setting(set, "monitor_source"@) == Some(
        "headset"@,
    ) {
        set.insert("monitor_source"@, "default"@)
    } else {
        set
    }
}

/// Whether the codec values follow from a change.
pub open spec fn is_automatic(
    set: Map<Seq<char>, Seq<char>>,
    key: Seq<char>,
    value: Seq<char>,
) -> bool {
    (key == "preset"@ && value != "custom"@) || (key == "audio_context"@ && setting(set, "preset"@)
        != Some("custom"@))
}

/// The settings after a change that was not refused.
pub open spec fn after_change(
    settings: Map<Seq<char>, Seq<char>>,
    key: Seq<char>,
    value: Seq<char>,
) -> Map<Seq<char>, Seq<char>> {
    let set = after_setting(settings, key, value);
    if is_automatic(set, key, value) {
        if setting(set, "preset"@) == Some("google"@) {
            let head = if setting(set, "audio_context"@) == Some("game"@) {
                game_candidates()[0]
            } else {
                media_candidates()[0]
            };
            mirrored(set, codec_for(head.setting, false), head_qos(head))
        } else {
            let head = media_candidates()[0];
            mirrored(
                set.insert("preset"@, "google"@),
                codec_for(head.setting, false),
                head_qos(head),
            )
        }
    } else {
        set
    }
}

fn mirror(settings: &mut Settings, codec: &CodecConfiguration, qos: &QosConfiguration)
    ensures
        final(settings)@ == mirrored(old(settings)@, *codec, *qos),
{
    let hz = match codec.sampling_frequency.hz() {
        Some(hz) => hz,
        None => 48_000,
    };
    settings.set("rate_hz", number_text(hz as u64).as_str());
    settings.set(
        "frame_ms",
        match codec.frame_duration {
            FrameDuration::Ms7_5 => "7.5",
            FrameDuration::Ms10 => "10",
        },
    );
    settings.set("octets", number_text(codec.octets_per_frame as u64).as_str());
    settings.set(
        "phy",
        if qos.phy == 0x01 {
            "1M"
        } else {
            "2M"
        },
    );
    settings.set("retransmissions", number_text(qos.retransmission_number as u64).as_str());
    settings.set("max_latency_ms", number_text(qos.max_transport_latency_ms as u64).as_str());
    settings.set(
        "presentation_delay_ms",
        number_text((qos.presentation_delay_us / 1000) as u64).as_str(),
    );
}

fn number_text(value: u64) -> (text: String)
    ensures
        text@ == decimal(value as nat),
{
    let mut text = String::from_str("");
    proof {
        reveal_strlit("");
    }
    push_decimal(&mut text, value);
    assert(text@ =~= decimal(value as nat));
    text
}

fn head_of(head: &Candidate) -> (stream: (CodecConfiguration, QosConfiguration))
    ensures
        stream == (codec_for(head.setting, false), head_qos(*head)),
{
    let codec = CodecConfiguration {
        sampling_frequency: head.setting.sampling_frequency,
        frame_duration: head.setting.frame_duration,
        channel_allocation: LOCATION_FRONT_LEFT,
        octets_per_frame: head.setting.octets_per_frame,
        frames_per_sdu: 1,
    };
    proof {
        reveal_with_fuel(ones, 2);
        assert(codec.channels() == 1);
        assert(codec.sdu_octets() == codec.octets_per_frame);
    }
    // Android writes zero for the retransmission count and the transport
    // latency and fills them in from what the headset publishes when it
    // answers. Nothing is connected here, so what is shown is the fallback used
    // when a device states no preference.
    let qos = head.qos.resolve(&codec, None);
    (codec, qos)
}

/// Changes one setting, and those that follow from it.
///
/// The codec values mirror whatever the automatic choice would ask for, so that
/// what is shown is the stream that is actually going to be configured rather
/// than whatever was left there by an earlier edit. The real choice still
/// happens per device at connect time, but the head of the list is what a
/// capable device gets. Values of presets that no longer exist land on the
/// automatic path like everything else that is not custom. A change that is
/// refused leaves every setting as it was.
///
/// `knobs` names every setting there is. Returned are those of them that have
/// another text now.
pub fn apply_setting_change(
    settings: &mut Settings,
    knobs: &[&str],
    key: &str,
    value: &str,
    judged: Judged,
) -> (applied: Result<Vec<String>, String>)
    ensures
        match change_refusal(name_views(knobs@), key@, value@, judged) {
            Some(text) => applied matches Err(message) && message@ == text && final(settings)@
                == old(settings)@,
            None => {
                &&& final(settings)@ == after_change(old(settings)@, key@, value@)
                &&& applied matches Ok(changed)
                &&& text_views(changed@) == touched(
                    name_views(knobs@),
                    old(settings)@,
                    final(settings)@,
                )
            },
        },
{
    check_change(knobs, key, value, judged)?;
    let before = settings.clone();
    settings.set(key, value);
    if same_text(key, "microphone_mode") && same_text(value, "off") && settings.is(
        "monitor_source",
        "headset",
    ) {
        settings.set("monitor_source", "default");
    }
    let automatic = (same_text(key, "preset") && !same_text(value, "custom")) || (same_text(
        key,
        "audio_context",
    ) && !settings.is("preset", "custom"));
    if automatic {
        let media = MEDIA_ORDER();
        let game = GAME_ORDER();
        if settings.is("preset", "google") {
            let (codec, qos) = if settings.is("audio_context", "game") {
                head_of(&game[0])
            } else {
                head_of(&media[0])
            };
            mirror(settings, &codec, &qos);
        } else {
            let (codec, qos) = head_of(&media[0]);
            settings.set("preset", "google");
            mirror(settings, &codec, &qos);
        }
    }
    Ok(settings.touched_since(&before, knobs))
}

/// Whether these settings are those the automatic choice puts on screen.
pub open spec fn shows_head(settings: Map<Seq<char>, Seq<char>>, head: Candidate) -> bool {
    exists|before: Map<Seq<char>, Seq<char>>|
        settings == #[trigger] mirrored(before, codec_for(head.setting, false), head_qos(head))
}

proof fn lemma_keys_differ()
    ensures
        "preset"@ != "audio_context"@,
        "preset"@ != "microphone_mode"@,
        "preset"@ != "rate_hz"@,
        "preset"@ != "frame_ms"@,
        "preset"@ != "octets"@,
        "preset"@ != "phy"@,
        "preset"@ != "retransmissions"@,
        "preset"@ != "max_latency_ms"@,
        "preset"@ != "presentation_delay_ms"@,
{
    reveal_strlit("preset");
    reveal_strlit("audio_context");
    reveal_strlit("microphone_mode");
    reveal_strlit("rate_hz");
    reveal_strlit("frame_ms");
    reveal_strlit("octets");
    reveal_strlit("phy");
    reveal_strlit("retransmissions");
    reveal_strlit("max_latency_ms");
    reveal_strlit("presentation_delay_ms");
    assert("preset"@[0] != "octets"@[0]);
    assert("preset"@.len() == 6 && "audio_context"@.len() == 13 && "microphone_mode"@.len() == 15);
    assert("rate_hz"@.len() == 7 && "frame_ms"@.len() == 8 && "phy"@.len() == 3);
    assert("retransmissions"@.len() == 15 && "max_latency_ms"@.len() == 14);
    assert("presentation_delay_ms"@.len() == 21);
}

/// Choosing Google/Android, or a preset that no longer exists, puts the values of
/// Android's first choice on screen whatever stood there, and leaves the preset
/// on "google". (With gaming chosen, Google/Android shows the game list's head
/// instead.)
pub proof fn every_automatic_preset_shows_the_first_choice(
    settings: Map<Seq<char>, Seq<char>>,
    value: Seq<char>,
)
    requires
        value != "custom"@,
    ensures
        setting(after_change(settings, "preset"@, value), "preset"@) == Some("google"@),
        shows_head(
            after_change(settings, "preset"@, value),
            if value == "google"@ && setting(settings, "audio_context"@) == Some("game"@) {
                game_candidates()[0]
            } else {
                media_candidates()[0]
            },
        ),
{
    lemma_keys_differ();
    let set = settings.insert("preset"@, value);
    assert(after_setting(settings, "preset"@, value) == set);
    assert(setting(set, "preset"@) == Some(value));
    assert(setting(set, "audio_context"@) == setting(settings, "audio_context"@));
    let head = if value == "google"@ && setting(settings, "audio_context"@) == Some("game"@) {
        game_candidates()[0]
    } else {
        media_candidates()[0]
    };
    let start = if value == "google"@ {
        set
    } else {
        set.insert("preset"@, "google"@)
    };
    assert(after_change(settings, "preset"@, value) == mirrored(
        start,
        codec_for(head.setting, false),
        head_qos(head),
    ));
}

/// Choosing custom changes nothing but the choice: what the user typed stays.
pub proof fn custom_leaves_every_other_value(settings: Map<Seq<char>, Seq<char>>, other: Seq<char>)
    requires
        other != "preset"@,
    ensures
        setting(after_change(settings, "preset"@, "custom"@), other) == setting(settings, other),
{
    lemma_keys_differ();
}

// ---- What settings are for ----

/// A switch is on or off by three words each, and any other word is no switch.
pub proof fn a_switch_has_two_sides(text: Seq<char>)
    ensures
        text == "true"@ || text == "1"@ || text == "yes"@ ==> switch_value(text) == Some(true),
        switch_value(text) == Some(true) ==> text == "true"@ || text == "1"@ || text == "yes"@,
        text == "false"@ || text == "0"@ || text == "ne"@ ==> switch_value(text) == Some(false),
        switch_value(text) == Some(false) ==> text == "false"@ || text == "0"@ || text == "ne"@,
{
    reveal_strlit("true");
    reveal_strlit("1");
    reveal_strlit("yes");
    reveal_strlit("false");
    reveal_strlit("0");
    reveal_strlit("ne");
    assert("true"@.len() == 4 && "1"@.len() == 1 && "yes"@.len() == 3);
    assert("false"@.len() == 5 && "0"@.len() == 1 && "ne"@.len() == 2);
    assert("1"@[0] == '1' && "0"@[0] == '0');
    if text == "0"@ {
        assert(text[0] == '0');
        assert(text != "1"@);
    }
    if text == "false"@ || text == "ne"@ {
        assert(text.len() == 5 || text.len() == 2);
        assert(text != "true"@ && text != "1"@ && text != "yes"@);
    }
    if text == "0"@ {
        assert(text.len() == 1);
        assert(text != "true"@ && text != "yes"@);
    }
}

/// Every number has its range, and each range belongs to its own numbers.
#[verifier::rlimit(60)]
pub proof fn every_number_has_its_range(key: Seq<char>)
    ensures
        number_range(key) matches Some(r) ==> {
            ||| r == (20int, 400int) && key == "octets"@
            ||| r == (0int, 15int) && key == "retransmissions"@
            ||| r == (5int, 4_000int) && key == "max_latency_ms"@
            ||| r == (0int, 4_000int) && key == "presentation_delay_ms"@
            ||| r == (0int, 2int) && (key == "gain"@ || key == "microphone_gain"@ || key
                == "monitor_gain"@)
            ||| r == (-50int, 50int) && key == "balance"@
            ||| r == (0int, 30int) && key == "idle_link_latency"@
            ||| r == (0int, 120int) && (key == "battery_poll_min"@ || key == "idle_timeout_min"@)
            ||| r == (2int, 30int) && key == "link_timeout_s"@
            ||| r == (1int, 60int) && (key == "reconnect_interval_s"@ || key
                == "audio_recovery_interval_s"@)
            ||| r == (0int, 1_440int) && (key == "reconnect_window_min"@ || key
                == "audio_recovery_window_min"@)
        },
        key == "octets"@ || key == "retransmissions"@ || key == "max_latency_ms"@ || key
            == "presentation_delay_ms"@ || key == "gain"@ || key == "microphone_gain"@ || key
            == "monitor_gain"@ || key == "balance"@ || key == "idle_link_latency"@ || key
            == "battery_poll_min"@ || key == "idle_timeout_min"@ || key == "link_timeout_s"@ || key
            == "reconnect_interval_s"@ || key == "audio_recovery_interval_s"@ || key
            == "reconnect_window_min"@ || key == "audio_recovery_window_min"@ ==> number_range(key)
            is Some,
{
}

/// Every choice takes the words that stand for something and no others.
#[verifier::rlimit(60)]
pub proof fn every_choice_has_its_words(key: Seq<char>, value: Seq<char>)
    ensures
        is_choice(key, value) == Some(true) ==> {
            ||| key == "preset"@ && (value == "google"@ || value == "custom"@ || value
                == "windows"@ || value == "high-quality"@ || value == "low-latency"@ || value
                == "robust"@)
            ||| key == "audio_context"@ && (value == "media"@ || value == "game"@)
            ||| key == "audio_mode"@ && (value == "stereo"@ || value == "mono"@)
            ||| key == "microphone_mode"@ && (value == "off"@ || value == "on"@)
            ||| key == "microphone_quality"@ && (value == "voice"@ || value == "balanced"@ || value
                == "high"@)
            ||| key == "microphone_target"@ && (value == "vb-cable"@ || value == "vb-cable-a"@
                || value == "vb-cable-b"@ || value == "none"@)
            ||| key == "monitor_mode"@ && (value == "mix"@ || value == "replace"@)
            ||| key == "acl_phy"@ && (value == "auto"@ || value == "1M"@ || value == "2M"@)
            ||| key == "phy"@ && (value == "1M"@ || value == "2M"@)
            ||| key == "frame_ms"@ && (value == "7.5"@ || value == "10"@ || value == "10.0"@)
            ||| key == "rate_hz"@ && (value == "8000"@ || value == "16000"@ || value == "24000"@
                || value == "32000"@ || value == "44100"@ || value == "48000"@)
            ||| is_switch(key) && switch_value(value) is Some
        },
        key == "preset"@ ==> (is_choice(key, value) == Some(
            value == "google"@ || value == "custom"@ || value == "windows"@ || value
                == "high-quality"@ || value == "low-latency"@ || value == "robust"@,
        )),
        key == "audio_context"@ ==> is_choice(key, value) == Some(
            value == "media"@ || value == "game"@,
        ),
        key == "audio_mode"@ ==> is_choice(key, value) == Some(
            value == "stereo"@ || value == "mono"@,
        ),
        key == "acl_phy"@ ==> is_choice(key, value) == Some(
            value == "auto"@ || value == "1M"@ || value == "2M"@,
        ),
        key == "phy"@ ==> is_choice(key, value) == Some(value == "1M"@ || value == "2M"@),
        key == "rate_hz"@ ==> is_choice(key, value) == Some(
            value == "8000"@ || value == "16000"@ || value == "24000"@ || value == "32000"@ || value
                == "44100"@ || value == "48000"@,
        ),
{
    lemma_choice_lengths();
}

proof fn lemma_choice_lengths()
    ensures
        "preset"@.len() == 6,
        "audio_context"@.len() == 13,
        "audio_mode"@.len() == 10,
        "microphone_mode"@.len() == 15,
        "microphone_quality"@.len() == 18,
        "microphone_target"@.len() == 17,
        "monitor_mode"@.len() == 12,
        "acl_phy"@.len() == 7,
        "phy"@.len() == 3,
        "frame_ms"@.len() == 8,
        "rate_hz"@.len() == 7,
        "acl_phy"@ != "rate_hz"@,
{
    reveal_strlit("preset");
    reveal_strlit("audio_context");
    reveal_strlit("audio_mode");
    reveal_strlit("microphone_mode");
    reveal_strlit("microphone_quality");
    reveal_strlit("microphone_target");
    reveal_strlit("monitor_mode");
    reveal_strlit("acl_phy");
    reveal_strlit("phy");
    reveal_strlit("frame_ms");
    reveal_strlit("rate_hz");
    assert("acl_phy"@[0] == 'a' && "rate_hz"@[0] == 'r');
}

/// What is shown of a stream is what it asks for, each number under its own name.
#[verifier::rlimit(60)]
pub proof fn what_is_shown_is_what_is_asked_for(
    settings: Map<Seq<char>, Seq<char>>,
    codec: CodecConfiguration,
    qos: QosConfiguration,
    other: Seq<char>,
)
    ensures
        ({
            let shown = mirrored(settings, codec, qos);
            &&& code_hz(codec.sampling_frequency.0) is Some ==> setting(shown, "rate_hz"@) == Some(
                decimal(code_hz(codec.sampling_frequency.0)->0 as nat),
            )
            &&& codec.frame_duration.us() == 7_500 ==> setting(shown, "frame_ms"@) == Some("7.5"@)
            &&& codec.frame_duration.us() == 10_000 ==> setting(shown, "frame_ms"@) == Some("10"@)
            &&& setting(shown, "octets"@) == Some(decimal(codec.octets_per_frame as nat))
            &&& setting(shown, "phy"@) == Some(
                if qos.phy == 1 {
                    "1M"@
                } else {
                    "2M"@
                },
            )
            &&& setting(shown, "retransmissions"@) == Some(
                decimal(qos.retransmission_number as nat),
            )
            &&& setting(shown, "max_latency_ms"@) == Some(
                decimal(qos.max_transport_latency_ms as nat),
            )
            &&& setting(shown, "presentation_delay_ms"@) == Some(
                decimal((qos.presentation_delay_us / 1000) as nat),
            )
            &&& other != "rate_hz"@ && other != "frame_ms"@ && other != "octets"@ && other
                != "phy"@ && other != "retransmissions"@ && other != "max_latency_ms"@ && other
                != "presentation_delay_ms"@ ==> setting(shown, other) == setting(settings, other)
        }),
{
    reveal_strlit("rate_hz");
    reveal_strlit("frame_ms");
    reveal_strlit("octets");
    reveal_strlit("phy");
    reveal_strlit("retransmissions");
    reveal_strlit("max_latency_ms");
    reveal_strlit("presentation_delay_ms");
    assert("rate_hz"@.len() == 7 && "frame_ms"@.len() == 8 && "octets"@.len() == 6 && "phy"@.len()
        == 3);
    assert("retransmissions"@.len() == 15 && "max_latency_ms"@.len() == 14
        && "presentation_delay_ms"@.len() == 21);
}

/// The first choice of a list is shown with what it would ask a silent device for.
pub proof fn a_first_choice_is_shown_whole(head: Candidate)
    ensures
        ({
            let codec = codec_for(head.setting, false);
            let qos = head_qos(head);
            &&& codec.octets_per_frame == head.setting.octets_per_frame
            &&& qos.sdu_interval_us == head.setting.frame_duration.us()
            &&& qos.max_sdu == head.setting.octets_per_frame
            &&& qos.phy == 2 && qos.framing == 0
            &&& (qos.retransmission_number, qos.max_transport_latency_ms) == head.qos.numbers(None)
            &&& qos.presentation_delay_us == 40_000
        }),
{
}

/// A changed setting holds its new value, whatever else follows from it; switching
/// the headset's microphone off ends monitoring it; and where neither the preset nor
/// the scenario changes, nothing else does.
#[verifier::rlimit(60)]
pub proof fn a_change_sets_its_own_key(
    settings: Map<Seq<char>, Seq<char>>,
    key: Seq<char>,
    value: Seq<char>,
    other: Seq<char>,
)
    ensures
        key != "preset"@ && key != "audio_context"@ ==> setting(
            after_change(settings, key, value),
            key,
        ) == Some(value),
        key == "preset"@ && (value == "custom"@ || value == "google"@) ==> setting(
            after_change(settings, key, value),
            key,
        ) == Some(value),
        key == "microphone_mode"@ && value == "off"@ && setting(settings, "monitor_source"@)
            == Some("headset"@) ==> setting(
            after_change(settings, key, value),
            "monitor_source"@,
        ) == Some("default"@),
        key != "preset"@ && key != "audio_context"@ && key != "microphone_mode"@ && other != key
            ==> setting(after_change(settings, key, value), other) == setting(settings, other),
{
    lemma_choice_lengths();
    lemma_keys_differ();
    reveal_strlit("monitor_source");
    assert("monitor_source"@.len() == 14);
}

/// What a change touched is told: every setting that now reads otherwise, and no
/// other.
pub proof fn every_touched_setting_is_told(
    knobs: Seq<Seq<char>>,
    before: Map<Seq<char>, Seq<char>>,
    after: Map<Seq<char>, Seq<char>>,
    knob: Seq<char>,
)
    ensures
        touched(knobs, before, after).contains(knob) <==> knobs.contains(knob) && setting(
            before,
            knob,
        ) != setting(after, knob),
    decreases knobs.len(),
{
    if knobs.len() > 0 {
        let rest = knobs.drop_last();
        let last = knobs.last();
        every_touched_setting_is_told(rest, before, after, knob);
        let told = touched(rest, before, after);
        if rest.contains(knob) {
            let i = choose|i: int| 0 <= i < rest.len() && rest[i] == knob;
            assert(knobs[i] == knob);
        }
        if knobs.contains(knob) && knob != last {
            let i = choose|i: int| 0 <= i < knobs.len() && knobs[i] == knob;
            assert(rest[i] == knob);
        }
        assert(knobs[knobs.len() - 1] == last);
        if told.contains(knob) {
            let i = choose|i: int| 0 <= i < told.len() && told[i] == knob;
            assert(told.push(last)[i] == knob);
        }
        if told.push(last).contains(knob) && knob != last {
            let i = choose|i: int| 0 <= i < told.push(last).len() && told.push(last)[i] == knob;
            assert(told[i] == knob);
        }
        assert(told.push(last)[told.len() as int] == last);
    }
}

/// A change is refused where the setting is not known, where the value could not be
/// stored on one line of 512 bytes, and where it stands for nothing. A number is
/// refused exactly when it is none or lies outside its range.
pub proof fn a_change_is_refused_for_a_reason(
    knobs: Seq<Seq<char>>,
    key: Seq<char>,
    value: Seq<char>,
    judged: Judged,
)
    ensures
        !knobs.contains(key) ==> change_refusal(knobs, key, value, judged) is Some,
        encode_utf8(value).len() > 512 || value.contains('\n') || value.contains('\r')
            ==> change_refusal(knobs, key, value, judged) is Some,
        is_choice(key, value) == Some(false) ==> change_refusal(knobs, key, value, judged) is Some,
        number_range(key) is Some && judged.number != NumberCheck::Inside ==> change_refusal(
            knobs,
            key,
            value,
            judged,
        ) is Some,
        knobs.contains(key) && encode_utf8(value).len() <= 512 && !value.contains('\n')
            && !value.contains('\r') && is_choice(key, value) != Some(false) && (key
            == "link_metrics"@ ==> judged.metrics_level) && (key == "command_style"@
            ==> judged.command_style) && (number_range(key) is Some ==> judged.number
            == NumberCheck::Inside) ==> change_refusal(knobs, key, value, judged) is None,
{
}

} // verus!
