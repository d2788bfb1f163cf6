//! Capturing Windows audio so it can be encoded and sent to the headphones.
//!
//! The route is deliberately boring, because boring is what makes it work with
//! every application rather than a special few:
//!
//! ```text
//!   YouTube, games, anything  ->  Windows mixer  ->  CABLE Input (render)
//!                                                          |
//!                                                    virtual cable
//!                                                          v
//!   LC3 encoder  <-  this module  <-  CABLE Output (capture)
//! ```
//!
//! Which endpoint is the right one, what a device's format means, and what
//! becomes of the samples it delivers is decided here. Opening endpoints and
//! moving buffers is done by the code that owns them.

pub mod resample;

use crate::audio::resample::{
    available, consumed, phase_after, points, position_of, pull_resampled, Point,
};
use crate::text::{
    decimal, holds, holds_text, lowercase, push_decimal, quote, quoted, same_ignoring_case,
    same_text, to_lower, upper,
};
use std::collections::VecDeque;
use vstd::prelude::*;
use vstd::string::*;

verus! {

/// Why an audio endpoint could not be used.
#[derive(Debug)]
pub enum AudioError {
    Com(String),
    NoCableDevice(String),
    Client(String),
    FormatMismatch { actual: u32, channels: u16, expected: u32 },
    UnsupportedSampleFormat(u16),
}

/// The text that reports an `AudioError`.
pub open spec fn audio_error_text(error: AudioError) -> Seq<char> {
    match error {
        AudioError::Com(what) => "COM initialisation failed: "@ + what@,
        AudioError::NoCableDevice(what) => "no capture device matching "@ + quoted(what@)
            + " - install VB-Audio Cable, or name the device explicitly"@,
        AudioError::Client(what) => "audio client error: "@ + what@,
        AudioError::FormatMismatch { actual, channels, expected } => "device delivers "@ + decimal(
            channels as nat,
        ) + " channels at "@ + decimal(actual as nat)
            + " Hz; the stream needs stereo (a rate other than "@ + decimal(expected as nat)
            + " Hz is converted, a channel count is not)"@,
        AudioError::UnsupportedSampleFormat(bits) => "device delivers "@ + decimal(bits as nat)
            + "-bit samples, which this stack cannot convert - set the cable to 16 or 24 bit"@,
    }
}

impl AudioError {
    /// One line that says what went wrong.
    pub fn to_string(&self) -> (text: String)
        ensures
            text@ == audio_error_text(*self),
    {
        match self {
            AudioError::Com(what) => {
                let mut text = String::from_str("COM initialisation failed: ");
                text.append(what.as_str());
                text
            },
            AudioError::NoCableDevice(what) => {
                let mut text = String::from_str("no capture device matching ");
                text.append(quote(what.as_str()).as_str());
                text.append(" - install VB-Audio Cable, or name the device explicitly");
                text
            },
            AudioError::Client(what) => {
                let mut text = String::from_str("audio client error: ");
                text.append(what.as_str());
                text
            },
            AudioError::FormatMismatch { actual, channels, expected } => {
                let mut text = String::from_str("device delivers ");
                push_decimal(&mut text, *channels as u64);
                text.append(" channels at ");
                push_decimal(&mut text, *actual as u64);
                text.append(" Hz; the stream needs stereo (a rate other than ");
                push_decimal(&mut text, *expected as u64);
                text.append(" Hz is converted, a channel count is not)");
                text
            },
            AudioError::UnsupportedSampleFormat(bits) => {
                let mut text = String::from_str("device delivers ");
                push_decimal(&mut text, *bits as u64);
                text.append(
                    "-bit samples, which this stack cannot convert - set the cable to 16 or 24 bit",
                );
                text
            },
        }
    }
}

/// How long a timer waits, in its own units.
pub open spec fn due_in(nanoseconds: u64) -> Option<i64> {
    if nanoseconds < 100 {
        None
    } else {
        Some((-(nanoseconds / 100)) as i64)
    }
}

/// How long a high-resolution timer waits for so many nanoseconds, in its own
/// units of 100 ns with a minus sign for a relative time. `None` when there is
/// nothing to wait for.
pub fn timer_due(nanoseconds: u64) -> (due: Option<i64>)
    ensures
        due == due_in(nanoseconds),
{
    let units = nanoseconds / 100;
    if units == 0 {
        None
    } else {
        Some(-(units as i64))
    }
}

// ---- Endpoints ----

/// One audio endpoint we could capture from.
#[derive(Debug)]
pub struct AudioDevice {
    pub name: String,
    pub id: String,
}

impl Clone for AudioDevice {
    fn clone(&self) -> (copy: Self)
        ensures
            copy.name@ == self.name@,
            copy.id@ == self.id@,
    {
        AudioDevice { name: self.name.clone(), id: self.id.clone() }
    }
}

/// Whether a name in lower case is that of a multi-channel cable.
pub open spec fn multichannel_name(lower: Seq<char>) -> bool {
    holds(lower, "16ch"@) || holds(lower, "8ch"@) || holds(lower, "64ch"@)
}

/// Whether a name in lower case is that of the capture side of a virtual cable.
pub open spec fn cable_name(lower: Seq<char>) -> bool {
    holds(lower, "cable output"@) || holds(lower, "vb-audio"@) || holds(
        lower,
        "voicemeeter output"@,
    )
}

/// The names that identify a virtual cable, in the order they are preferred.
#[derive(Debug, Clone, Copy, PartialEq, Eq, Structural)]
pub enum Hint {
    Cable,
    VbAudio,
    VoiceMeeter,
}

/// What the name of a capture endpoint holds, in lower case.
pub open spec fn capture_hint(hint: Hint) -> Seq<char> {
    match hint {
        Hint::Cable => "cable output"@,
        Hint::VbAudio => "vb-audio"@,
        Hint::VoiceMeeter => "voicemeeter output"@,
    }
}

/// What the name of a render endpoint holds, in lower case.
pub open spec fn render_hint(hint: Hint) -> Seq<char> {
    match hint {
        Hint::Cable => "cable input"@,
        Hint::VbAudio => "vb-audio"@,
        Hint::VoiceMeeter => "voicemeeter input"@,
    }
}

fn capture_name(hint: Hint) -> (text: &'static str)
    ensures
        text@ == capture_hint(hint),
{
    match hint {
        Hint::Cable => "cable output",
        Hint::VbAudio => "vb-audio",
        Hint::VoiceMeeter => "voicemeeter output",
    }
}

fn render_name(hint: Hint) -> (text: &'static str)
    ensures
        text@ == render_hint(hint),
{
    match hint {
        Hint::Cable => "cable input",
        Hint::VbAudio => "vb-audio",
        Hint::VoiceMeeter => "voicemeeter input",
    }
}

/// What an endpoint is looked for by.
#[derive(Debug, Clone, Copy, PartialEq, Eq, Structural)]
pub enum Rule {
    /// The name holds the wanted text.
    Named,
    /// The id is the wanted one, or the name holds it.
    IdOrNamed,
    /// The id is the wanted one, or the name is, or the name holds it.
    Selected,
    /// The capture side of a virtual cable of this name.
    AnyCable(Hint),
    /// The same, unless it is a multi-channel one.
    PlainCable(Hint),
    /// The render side of a virtual cable of this name, unless it is a
    /// multi-channel one.
    PlainCableRender(Hint),
    /// Not a virtual cable.
    Microphone,
}

/// Whether an endpoint satisfies a rule, given the lower-case forms of its name
/// and of the wanted text.
pub open spec fn satisfies(
    rule: Rule,
    name: Seq<char>,
    id: Seq<char>,
    lower: Seq<char>,
    wanted: Seq<char>,
    lower_wanted: Seq<char>,
) -> bool {
    match rule {
        Rule::Named => holds(lower, lower_wanted),
        Rule::IdOrNamed => id == wanted || holds(lower, lower_wanted),
        Rule::Selected => id == wanted || upper(name) == upper(wanted) || holds(
            lower,
            lower_wanted,
        ),
        Rule::AnyCable(hint) => holds(lower, capture_hint(hint)),
        Rule::PlainCable(hint) => holds(lower, capture_hint(hint)) && !multichannel_name(lower),
        Rule::PlainCableRender(hint) => holds(lower, render_hint(hint)) && !multichannel_name(
            lower,
        ),
        Rule::Microphone => !cable_name(lower),
    }
}

/// Whether an endpoint satisfies a rule.
pub open spec fn fits(rule: Rule, device: AudioDevice, wanted: Seq<char>) -> bool {
    satisfies(
        rule,
        device.name@,
        device.id@,
        lowercase(device.name@),
        wanted,
        lowercase(wanted),
    )
}

/// Whether a name in lower case is that of a multi-channel cable.
pub fn is_multichannel_name(lower: &str) -> (yes: bool)
    ensures
        yes == multichannel_name(lower@),
{
    holds_text(lower, "16ch") || holds_text(lower, "8ch") || holds_text(lower, "64ch")
}

/// Whether a name in lower case is that of the capture side of a virtual cable.
pub fn is_cable_name(lower: &str) -> (yes: bool)
    ensures
        yes == cable_name(lower@),
{
    holds_text(lower, "cable output") || holds_text(lower, "vb-audio") || holds_text(
        lower,
        "voicemeeter output",
    )
}

/// Whether an endpoint satisfies a rule, given the lower-case forms of its name
/// and of the wanted text.
pub fn lowered_fits(
    rule: Rule,
    device: &AudioDevice,
    lower: &str,
    wanted: &str,
    lower_wanted: &str,
) -> (yes: bool)
    ensures
        yes == satisfies(rule, device.name@, device.id@, lower@, wanted@, lower_wanted@),
{
    match rule {
        Rule::Named => holds_text(lower, lower_wanted),
        Rule::IdOrNamed => same_text(device.id.as_str(), wanted) || holds_text(lower, lower_wanted),
        Rule::Selected => same_text(device.id.as_str(), wanted) || same_ignoring_case(
            device.name.as_str(),
            wanted,
        ) || holds_text(lower, lower_wanted),
        Rule::AnyCable(hint) => holds_text(lower, capture_name(hint)),
        Rule::PlainCable(hint) => holds_text(lower, capture_name(hint)) && !is_multichannel_name(
            lower,
        ),
        Rule::PlainCableRender(hint) => holds_text(lower, render_name(hint))
            && !is_multichannel_name(lower),
        Rule::Microphone => !is_cable_name(lower),
    }
}

impl AudioDevice {
    /// True for the multi-channel cable variants, which are the wrong choice
    /// for a stereo stream.
    ///
    /// Recognised by name because the channel count is only knowable by opening
    /// the device, and opening the wrong one to find out is exactly what this
    /// avoids.
    pub fn is_multichannel_cable(&self) -> (yes: bool)
        ensures
            yes == multichannel_name(lowercase(self.name@)),
    {
        is_multichannel_name(to_lower(self.name.as_str()).as_str())
    }

    /// True when this looks like the virtual cable rather than a real microphone.
    pub fn is_virtual_cable(&self) -> (yes: bool)
        ensures
            yes == cable_name(lowercase(self.name@)),
    {
        is_cable_name(to_lower(self.name.as_str()).as_str())
    }
}

/// The first endpoint that satisfies a rule; the length when none does.
pub open spec fn first_fit(rule: Rule, devices: Seq<AudioDevice>, wanted: Seq<char>) -> int
    decreases devices.len(),
{
    if devices.len() == 0 || fits(rule, devices[0], wanted) {
        0
    } else {
        1 + first_fit(rule, devices.skip(1), wanted)
    }
}

/// Finds the first endpoint that satisfies a rule.
pub fn find_first(rule: Rule, devices: &[AudioDevice], wanted: &str) -> (place: Option<usize>)
    ensures
        place is Some <==> first_fit(rule, devices@, wanted@) < devices@.len(),
        place matches Some(i) ==> i == first_fit(rule, devices@, wanted@) && i < devices@.len(),
{
    let lower_wanted = to_lower(wanted);
    let mut i: usize = 0;
    assert(devices@.skip(0) =~= devices@);
    while i < devices.len()
        invariant
            i <= devices@.len(),
            lower_wanted@ == lowercase(wanted@),
            first_fit(rule, devices@, wanted@) == i + first_fit(
                rule,
                devices@.skip(i as int),
                wanted@,
            ),
        decreases devices@.len() - i,
    {
        assert(devices@.skip(i as int).skip(1) =~= devices@.skip(i + 1));
        let lower = to_lower(devices[i].name.as_str());
        if lowered_fits(rule, &devices[i], lower.as_str(), wanted, lower_wanted.as_str()) {
            return Some(i);
        }
        i = i + 1;
    }
    None
}

/// Whether a search found the device at place `at`, or, with `at` behind the
/// last, reports that there is none like `what`.
pub open spec fn found_at(
    found: Result<AudioDevice, AudioError>,
    devices: Seq<AudioDevice>,
    at: int,
    what: Seq<char>,
) -> bool {
    if at < devices.len() {
        found matches Ok(device) && device.name@ == devices[at].name@ && device.id@
            == devices[at].id@
    } else {
        found matches Err(AudioError::NoCableDevice(text)) && text@ == what
    }
}

fn take_found(devices: &[AudioDevice], place: Option<usize>, what: &str) -> (found: Result<
    AudioDevice,
    AudioError,
>)
    requires
        place matches Some(i) ==> i < devices@.len(),
    ensures
        place matches Some(i) ==> found_at(found, devices@, i as int, what@),
        place is None ==> found_at(found, devices@, devices@.len() as int, what@),
{
    match place {
        Some(i) => Ok(devices[i].clone()),
        None => Err(AudioError::NoCableDevice(String::from_str(what))),
    }
}

/// The place of the first rule that an endpoint satisfies; the length when none
/// does.
pub open spec fn first_by(rules: Seq<Rule>, devices: Seq<AudioDevice>) -> int
    decreases rules.len(),
{
    if rules.len() == 0 {
        devices.len() as int
    } else if first_fit(rules[0], devices, ""@) < devices.len() {
        first_fit(rules[0], devices, ""@)
    } else {
        first_by(rules.skip(1), devices)
    }
}

fn find_by(rules: &[Rule], devices: &[AudioDevice]) -> (place: Option<usize>)
    ensures
        place is Some <==> first_by(rules@, devices@) < devices@.len(),
        place matches Some(i) ==> i == first_by(rules@, devices@) && i < devices@.len(),
        place is None ==> first_by(rules@, devices@) == devices@.len(),
{
    let mut i: usize = 0;
    assert(rules@.skip(0) =~= rules@);
    while i < rules.len()
        invariant
            i <= rules@.len(),
            first_by(rules@, devices@) == first_by(rules@.skip(i as int), devices@),
        decreases rules@.len() - i,
    {
        assert(rules@.skip(i as int).skip(1) =~= rules@.skip(i + 1));
        let place = find_first(rules[i], devices, "");
        if place.is_some() {
            return place;
        }
        i = i + 1;
    }
    None
}

/// How the capture side of the virtual cable is looked for: name by name in the
/// order they are preferred, and the multi-channel ones only when there is no
/// plain one of any name.
pub open spec fn cable_rules() -> Seq<Rule> {
    seq![
        Rule::PlainCable(Hint::Cable),
        Rule::PlainCable(Hint::VbAudio),
        Rule::PlainCable(Hint::VoiceMeeter),
        Rule::AnyCable(Hint::Cable),
        Rule::AnyCable(Hint::VbAudio),
        Rule::AnyCable(Hint::VoiceMeeter),
    ]
}

/// How the render side of the virtual cable is looked for: name by name in the
/// order they are preferred, and never a multi-channel one.
pub open spec fn cable_render_rules() -> Seq<Rule> {
    seq![
        Rule::PlainCableRender(Hint::Cable),
        Rule::PlainCableRender(Hint::VbAudio),
        Rule::PlainCableRender(Hint::VoiceMeeter),
    ]
}

/// Finds the render side of the virtual cable, or the named device if one is
/// given, among the endpoints there are.
pub fn find_cable_render_device(devices: &[AudioDevice], preferred_name: Option<&str>) -> (found:
    Result<AudioDevice, AudioError>)
    ensures
        match preferred_name {
            Some(wanted) => found_at(
                found,
                devices@,
                first_fit(Rule::Named, devices@, wanted@),
                wanted@,
            ),
            None => found_at(
                found,
                devices@,
                first_by(cable_render_rules(), devices@),
                "CABLE Input / VB-Audio / VoiceMeeter Input"@,
            ),
        },
{
    match preferred_name {
        Some(wanted) => take_found(devices, find_first(Rule::Named, devices, wanted), wanted),
        None => {
            let rules: [Rule; 3] = [
                Rule::PlainCableRender(Hint::Cable),
                Rule::PlainCableRender(Hint::VbAudio),
                Rule::PlainCableRender(Hint::VoiceMeeter),
            ];
            assert(rules@ =~= cable_render_rules());
            take_found(
                devices,
                find_by(&rules, devices),
                "CABLE Input / VB-Audio / VoiceMeeter Input",
            )
        },
    }
}

/// Finds the virtual cable, or the named device if one is given, among the
/// endpoints there are.
///
/// More than one cable can be installed, and they are not interchangeable. The
/// multi-channel variants make Windows upmix stereo into sixteen channels and
/// hand it back downmixed, which collapses the stereo image and cancels the
/// bass. A plain cable therefore wins over them, wherever it stands in the list,
/// and among cables of a kind the name that is preferred does.
pub fn find_cable_device(devices: &[AudioDevice], preferred_name: Option<&str>) -> (found: Result<
    AudioDevice,
    AudioError,
>)
    ensures
        match preferred_name {
            Some(wanted) => found_at(
                found,
                devices@,
                first_fit(Rule::IdOrNamed, devices@, wanted@),
                wanted@,
            ),
            None => found_at(
                found,
                devices@,
                first_by(cable_rules(), devices@),
                "CABLE Output / VB-Audio / VoiceMeeter Output"@,
            ),
        },
{
    match preferred_name {
        Some(wanted) => take_found(devices, find_first(Rule::IdOrNamed, devices, wanted), wanted),
        None => {
            let rules: [Rule; 6] = [
                Rule::PlainCable(Hint::Cable),
                Rule::PlainCable(Hint::VbAudio),
                Rule::PlainCable(Hint::VoiceMeeter),
                Rule::AnyCable(Hint::Cable),
                Rule::AnyCable(Hint::VbAudio),
                Rule::AnyCable(Hint::VoiceMeeter),
            ];
            assert(rules@ =~= cable_rules());
            take_found(
                devices,
                find_by(&rules, devices),
                "CABLE Output / VB-Audio / VoiceMeeter Output",
            )
        },
    }
}

/// Resolves a user-selected Windows capture endpoint by stable endpoint id or
/// friendly name. `default` chooses the first physical microphone, never a
/// virtual cable, so enabling monitoring cannot silently monitor the music bus.
pub fn find_capture_device(devices: &[AudioDevice], selection: &str) -> (found: Result<
    AudioDevice,
    AudioError,
>)
    ensures
        if selection@ == "default"@ {
            found_at(
                found,
                devices@,
                first_fit(Rule::Microphone, devices@, ""@),
                "default microphone"@,
            )
        } else {
            found_at(
                found,
                devices@,
                first_fit(Rule::Selected, devices@, selection@),
                selection@,
            )
        },
{
    if same_text(selection, "default") {
        return take_found(devices, find_first(Rule::Microphone, devices, ""), "default microphone");
    }
    take_found(devices, find_first(Rule::Selected, devices, selection), selection)
}

/// What a search by a rule finds satisfies that rule, and nothing before it does.
pub proof fn a_search_finds_the_first(rule: Rule, devices: Seq<AudioDevice>, wanted: Seq<char>)
    ensures
        ({
            let at = first_fit(rule, devices, wanted);
            &&& 0 <= at <= devices.len()
            &&& at < devices.len() ==> fits(rule, devices[at], wanted)
            &&& forall|i: int| 0 <= i < at ==> !fits(rule, #[trigger] devices[i], wanted)
        }),
    decreases devices.len(),
{
    if devices.len() > 0 && !fits(rule, devices[0], wanted) {
        let rest = devices.skip(1);
        a_search_finds_the_first(rule, rest, wanted);
        assert forall|i: int| 0 <= i < first_fit(rule, devices, wanted) implies !fits(
            rule,
            #[trigger] devices[i],
            wanted,
        ) by {
            if i > 0 {
                assert(devices[i] == rest[i - 1]);
            }
        }
    }
}

/// A device that an earlier rule fits is found before one that only a later rule
/// fits, whatever their order in the list.
pub proof fn the_earlier_rule_wins(rules: Seq<Rule>, devices: Seq<AudioDevice>, k: int, i: int)
    requires
        0 <= k < rules.len(),
        0 <= i < devices.len(),
        fits(rules[k], devices[i], ""@),
    ensures
        0 <= first_by(rules, devices) < devices.len(),
        exists|j: int|
            0 <= j <= k && fits(#[trigger] rules[j], devices[first_by(rules, devices)], ""@),
    decreases rules.len(),
{
    let at = first_fit(rules[0], devices, ""@);
    a_search_finds_the_first(rules[0], devices, ""@);
    if at < devices.len() {
        assert(fits(rules[0], devices[first_by(rules, devices)], ""@));
    } else {
        if k == 0 {
            assert(!fits(rules[0], devices[i], ""@));
        }
        let rest = rules.skip(1);
        assert(rest[k - 1] == rules[k]);
        the_earlier_rule_wins(rest, devices, k - 1, i);
        let j = choose|j: int|
            0 <= j <= k - 1 && fits(#[trigger] rest[j], devices[first_by(rest, devices)], ""@);
        assert(rules[j + 1] == rest[j]);
        assert(fits(rules[j + 1], devices[first_by(rules, devices)], ""@));
    }
}

/// Monitoring never listens to the music: the default microphone is no virtual
/// cable.
pub proof fn the_default_microphone_is_no_cable(devices: Seq<AudioDevice>)
    requires
        first_fit(Rule::Microphone, devices, ""@) < devices.len(),
    ensures
        !cable_name(lowercase(devices[first_fit(Rule::Microphone, devices, ""@)].name@)),
{
    a_search_finds_the_first(Rule::Microphone, devices, ""@);
}

/// Whether the headphones' volume may be mirrored onto the Windows slider of the
/// default playback device.
///
/// Never when that device is the cable this stack reads its audio from: writing
/// there attenuates the signal before the encoder sees it, a mute from the
/// earcups silences every program on the PC, and both stay after the headphones
/// are gone.
pub fn check_mirrored(default_render: Option<&AudioDevice>) -> (checked: Result<(), AudioError>)
    ensures
        match default_render {
            Some(device) => if cable_name(lowercase(device.name@)) {
                checked matches Err(AudioError::Com(text)) && text@ == cable_default_text()
            } else {
                checked is Ok
            },
            None => checked is Ok,
        },
{
    if let Some(device) = default_render {
        if device.is_virtual_cable() {
            return Err(
                AudioError::Com(
                    String::from_str(
                        "the default playback device is the virtual cable; the headphones'                  volume is not mirrored onto it",
                    ),
                ),
            );
        }
    }
    Ok(())
}

/// Why the volume is not mirrored.
pub open spec fn cable_default_text() -> Seq<char> {
    "the default playback device is the virtual cable; the headphones'                  volume is not mirrored onto it"@
}

// ---- Formats ----

/// The shared-mode format Windows has an endpoint configured for.
///
/// This is what "Configure VB-CABLE" actually changes, and the difference
/// between an installed cable and a usable one.
#[derive(Debug, Clone, Copy, PartialEq, Eq, Structural)]
pub struct EndpointFormat {
    pub sample_rate: u32,
    pub channels: u16,
    pub bits_per_sample: u16,
}

/// A format in words.
pub open spec fn format_text(format: EndpointFormat) -> Seq<char> {
    decimal(format.sample_rate as nat) + " Hz, "@ + decimal(format.channels as nat)
        + " channels, "@ + decimal(format.bits_per_sample as nat) + " bit"@
}

impl EndpointFormat {
    pub fn describe(&self) -> (text: String)
        ensures
            text@ == format_text(*self),
    {
        let mut text = String::from_str("");
        proof {
            reveal_strlit("");
        }
        push_decimal(&mut text, self.sample_rate as u64);
        text.append(" Hz, ");
        push_decimal(&mut text, self.channels as u64);
        text.append(" channels, ");
        push_decimal(&mut text, self.bits_per_sample as u64);
        text.append(" bit");
        assert(text@ =~= format_text(*self));
        text
    }
}

/// Format tag of floating point samples.
pub const WAVE_FORMAT_IEEE_FLOAT: u16 = 0x0003;

/// Format tag that says the subformat holds the answer.
pub const WAVE_FORMAT_EXTENSIBLE: u16 = 0xFFFE;

/// Subformat of floating point samples.
pub const SUBTYPE_IEEE_FLOAT: u128 = 0x00000003_0000_0010_8000_00aa00389b71;

/// Whether a format holds floating-point samples.
pub open spec fn is_float_format(tag: u16, tail_size: u16, subformat: Option<u128>) -> bool {
    tag == WAVE_FORMAT_IEEE_FLOAT || (tag == WAVE_FORMAT_EXTENSIBLE && tail_size >= 22 && subformat
        == Some(SUBTYPE_IEEE_FLOAT))
}

/// Whether the endpoint delivers floating point samples.
///
/// The sample width alone cannot be trusted to say so: 24-bit integers in a
/// 32-bit container are a normal configuration, and reading those as floats
/// produces noise instead of a diagnosable error. So the format itself is asked,
/// through the extensible subformat when there is one. A tail that is too short
/// to hold a subformat is malformed, and then there is none.
pub fn format_is_float(tag: u16, tail_size: u16, subformat: Option<u128>) -> (yes: bool)
    ensures
        yes == is_float_format(tag, tail_size, subformat),
{
    if tag == WAVE_FORMAT_IEEE_FLOAT {
        return true;
    }
    if tag != WAVE_FORMAT_EXTENSIBLE || tail_size < 22 {
        return false;
    }
    match subformat {
        Some(subformat) => subformat == SUBTYPE_IEEE_FLOAT,
        None => false,
    }
}

/// How the samples of an endpoint lie in its buffers.
#[derive(Debug, Clone, Copy, PartialEq, Eq, Structural)]
pub enum SampleKind {
    Float32,
    Integer16,
    Integer24,
    Integer32,
}

/// The layout for a width, where this stack can convert it.
pub open spec fn sample_kind_of(float_samples: bool, bits: u16) -> Option<SampleKind> {
    if float_samples {
        if bits == 32 {
            Some(SampleKind::Float32)
        } else {
            None
        }
    } else if bits == 16 {
        Some(SampleKind::Integer16)
    } else if bits == 32 {
        Some(SampleKind::Integer32)
    } else if bits == 24 {
        Some(SampleKind::Integer24)
    } else {
        None
    }
}

/// How samples of this width lie in a buffer. Filling with silence for any other
/// would produce a stream that runs perfectly and plays nothing, which is far
/// harder to diagnose than a refusal.
pub fn sample_kind(float_samples: bool, bits: u16) -> (kind: Result<SampleKind, AudioError>)
    ensures
        match sample_kind_of(float_samples, bits) {
            Some(known) => kind == Ok::<SampleKind, AudioError>(known),
            None => kind == Err::<SampleKind, AudioError>(
                AudioError::UnsupportedSampleFormat(bits),
            ),
        },
{
    if float_samples {
        if bits == 32 {
            return Ok(SampleKind::Float32);
        }
    } else if bits == 16 {
        return Ok(SampleKind::Integer16);
    } else if bits == 32 {
        return Ok(SampleKind::Integer32);
    } else if bits == 24 {
        return Ok(SampleKind::Integer24);
    }
    Err(AudioError::UnsupportedSampleFormat(bits))
}

/// Two bytes, low first, as a signed sample.
pub open spec fn sample_of(low: u8, high: u8) -> i16 {
    let value = low as int + 256 * high as int;
    if value < 0x8000 {
        value as i16
    } else {
        (value - 0x1_0000) as i16
    }
}

fn sample_from(low: u8, high: u8) -> (sample: i16)
    ensures
        sample == sample_of(low, high),
{
    let value: i32 = low as i32 + 256 * high as i32;
    if value < 0x8000 {
        value as i16
    } else {
        (value - 0x1_0000) as i16
    }
}

/// The samples in a buffer of `width` bytes each, by the top two of them.
pub open spec fn samples_in(bytes: Seq<u8>, width: int) -> Seq<i16> {
    Seq::new(
        (bytes.len() as int / width) as nat,
        |i: int| sample_of(bytes[i * width + width - 2], bytes[i * width + width - 1]),
    )
}

/// The bytes that one sample takes in a buffer.
pub open spec fn width_of(kind: SampleKind) -> int {
    match kind {
        SampleKind::Float32 => 4,
        SampleKind::Integer16 => 2,
        SampleKind::Integer24 => 3,
        SampleKind::Integer32 => 4,
    }
}

/// Reads integer samples out of a buffer. Of wider samples the top two bytes are
/// all the encoder needs; bytes that do not make a whole sample are left out.
pub fn integer_samples(bytes: &[u8], kind: SampleKind) -> (samples: Vec<i16>)
    requires
        kind != SampleKind::Float32,
    ensures
        samples@ == samples_in(bytes@, width_of(kind)),
{
    let width: usize = match kind {
        SampleKind::Integer16 => 2,
        SampleKind::Integer24 => 3,
        _ => 4,
    };
    let mut samples: Vec<i16> = Vec::new();
    let mut at: usize = 0;
    assert(0 * width == 0);
    while bytes.len() - at >= width
        invariant
            2 <= width <= 4,
            width == width_of(kind),
            at <= bytes@.len(),
            at == samples@.len() * width,
            samples@ =~= samples_in(bytes@, width as int).take(samples@.len() as int),
            samples@.len() <= bytes@.len() as int / width as int,
        decreases bytes@.len() - at,
    {
        let ghost n = samples@.len() as int;
        proof {
            assert(n < bytes@.len() as int / width as int) by (nonlinear_arith)
                requires
                    bytes@.len() - n * width >= width,
                    width >= 2,
            ;
            assert((n + 1) * width == n * width + width) by (nonlinear_arith);
        }
        let sample = sample_from(bytes[at + width - 2], bytes[at + width - 1]);
        samples.push(sample);
        at = at + width;
    }
    proof {
        let n = samples@.len() as int;
        assert(bytes@.len() as int / width as int <= n) by (nonlinear_arith)
            requires
                bytes@.len() - n * width < width,
                width >= 2,
        ;
        assert(samples@ =~= samples_in(bytes@, width as int));
    }
    samples
}

// ---- Capture ----

/// What a running capture holds.
#[verifier::ext_equal]
pub struct Captured {
    pub sample_rate: u32,
    pub target_rate: u32,
    pub channels: u16,
    pub bits_per_sample: u16,
    pub float_samples: bool,
    pub pending: Seq<i16>,
    pub phase: u64,
    pub output_rate: u32,
}

/// A running capture from one endpoint, handing out interleaved samples.
pub struct AudioCapture {
    sample_rate: u32,
    /// The rate frames are handed out at, which need not be the device's.
    target_rate: u32,
    channels: u16,
    bits_per_sample: u16,
    float_samples: bool,
    /// Samples read from the device but not yet consumed by the encoder.
    pending: VecDeque<i16>,
    resample_phase: u64,
    resample_output_rate: u32,
}

impl View for AudioCapture {
    type V = Captured;

    closed spec fn view(&self) -> Captured {
        Captured {
            sample_rate: self.sample_rate,
            target_rate: self.target_rate,
            channels: self.channels,
            bits_per_sample: self.bits_per_sample,
            float_samples: self.float_samples,
            pending: self.pending@,
            phase: self.resample_phase,
            output_rate: self.resample_output_rate,
        }
    }
}

/// A capture in words.
pub open spec fn capture_text(c: Captured) -> Seq<char> {
    let sample = if c.float_samples {
        decimal(c.bits_per_sample as nat) + " bit float"@
    } else {
        decimal(c.bits_per_sample as nat) + "-bit integer"@
    };
    let rate = if c.sample_rate == c.target_rate {
        decimal(c.sample_rate as nat) + " Hz, "@
    } else {
        decimal(c.sample_rate as nat) + " Hz -> "@ + decimal(c.target_rate as nat) + " Hz, "@
    };
    rate + decimal(c.channels as nat) + " channels, "@ + sample
}

/// Whether a packet's flags say that samples were lost before it.
pub open spec fn is_gap(flags: u32) -> bool {
    flags % 2 == 1
}

/// Whether a packet's flags say that it is silence.
pub open spec fn is_silent(flags: u32) -> bool {
    flags / 2 % 2 == 1
}

/// A capture after a packet of `frames` frames came in.
pub open spec fn after_packet(
    c: Captured,
    flags: u32,
    frames: int,
    bytes: Seq<u8>,
    converted: Seq<i16>,
) -> Captured {
    let delivered = if is_silent(flags) {
        Seq::new((frames * c.channels) as nat, |i: int| 0i16)
    } else {
        match sample_kind_of(c.float_samples, c.bits_per_sample) {
            Some(SampleKind::Float32) => converted,
            Some(kind) => samples_in(bytes, width_of(kind)),
            None => Seq::empty(),
        }
    };
    Captured {
        pending: if is_gap(flags) {
            delivered
        } else {
            c.pending + delivered
        },
        phase: if is_gap(flags) {
            0
        } else {
            c.phase
        },
        ..c
    }
}

/// A capture after a frame of `frames` at `rate` was asked for. A new rate starts
/// from phase zero; without enough samples nothing else changes.
pub open spec fn after_pull(c: Captured, frames: int, rate: u32) -> Captured {
    let phase = if c.output_rate == rate {
        c.phase
    } else {
        0
    };
    let (s, o, n) = (c.sample_rate as int, rate as int, c.channels as int);
    if s > 0 && o > 0 && n > 0 && available(c.pending, phase as int, s, o, n, frames) {
        Captured {
            pending: c.pending.skip(consumed(phase as int, s, o, frames) * n),
            phase: phase_after(phase as int, s, o, frames) as u64,
            output_rate: rate,
            ..c
        }
    } else {
        Captured { phase, output_rate: rate, ..c }
    }
}

impl AudioCapture {
    /// Takes over the format of an endpoint. `expected_rate` is the rate of the
    /// codec, and `None` for an ordinary microphone, which may be mono.
    ///
    /// A rate difference is converted, so only a channel layout this stack
    /// cannot use is fatal.
    pub fn open(
        format: EndpointFormat,
        float_samples: bool,
        expected_rate: Option<u32>,
        require_stereo: bool,
    ) -> (capture: Result<Self, AudioError>)
        ensures
            ({
                let rate = match expected_rate {
                    Some(rate) => rate,
                    None => format.sample_rate,
                };
                if (require_stereo && format.channels != 2) || format.channels == 0 {
                    capture matches Err(e) && e == (AudioError::FormatMismatch {
                        actual: format.sample_rate,
                        channels: format.channels,
                        expected: rate,
                    })
                } else {
                    capture matches Ok(c) && c@ == (Captured {
                        sample_rate: format.sample_rate,
                        target_rate: rate,
                        channels: format.channels,
                        bits_per_sample: format.bits_per_sample,
                        float_samples,
                        pending: Seq::empty(),
                        phase: 0,
                        output_rate: rate,
                    })
                }
            }),
    {
        let rate = match expected_rate {
            Some(rate) => rate,
            None => format.sample_rate,
        };
        if (require_stereo && format.channels != 2) || format.channels == 0 {
            return Err(
                AudioError::FormatMismatch {
                    actual: format.sample_rate,
                    channels: format.channels,
                    expected: rate,
                },
            );
        }
        Ok(
            AudioCapture {
                sample_rate: format.sample_rate,
                target_rate: rate,
                channels: format.channels,
                bits_per_sample: format.bits_per_sample,
                float_samples,
                pending: VecDeque::new(),
                resample_phase: 0,
                resample_output_rate: rate,
            },
        )
    }

    /// The format the device is actually handing us, in words.
    ///
    /// Printed at every stream start because it is the one thing in the chain
    /// nobody thinks to check. Resampling is a real step in the chain, and
    /// someone judging the sound deserves to know it is there.
    pub fn describe(&self) -> (text: String)
        ensures
            text@ == capture_text(self@),
    {
        let mut text = String::from_str("");
        proof {
            reveal_strlit("");
        }
        push_decimal(&mut text, self.sample_rate as u64);
        if self.sample_rate == self.target_rate {
            text.append(" Hz, ");
        } else {
            text.append(" Hz -> ");
            push_decimal(&mut text, self.target_rate as u64);
            text.append(" Hz, ");
        }
        push_decimal(&mut text, self.channels as u64);
        text.append(" channels, ");
        push_decimal(&mut text, self.bits_per_sample as u64);
        if self.float_samples {
            text.append(" bit float");
        } else {
            text.append("-bit integer");
        }
        assert(text@ =~= capture_text(self@));
        text
    }

    pub fn sample_rate(&self) -> (rate: u32)
        ensures
            rate == self@.sample_rate,
    {
        self.sample_rate
    }

    /// How the samples of this device lie in its buffers.
    pub fn sample_kind(&self) -> (kind: Result<SampleKind, AudioError>)
        ensures
            match sample_kind_of(self@.float_samples, self@.bits_per_sample) {
                Some(known) => kind == Ok::<SampleKind, AudioError>(known),
                None => kind == Err::<SampleKind, AudioError>(
                    AudioError::UnsupportedSampleFormat(self@.bits_per_sample),
                ),
            },
    {
        sample_kind(self.float_samples, self.bits_per_sample)
    }

    /// Adds what one packet delivered.
    ///
    /// After an overrun, device reset or other gap, samples queued before it no
    /// longer form one continuous timeline with this packet. Keeping them plays
    /// stale audio and turns a brief scheduling hiccup into permanently higher
    /// latency.
    pub fn push_packet(&mut self, samples: &[i16], discontinuity: bool)
        ensures
            final(self)@ == (Captured {
                pending: if discontinuity {
                    samples@
                } else {
                    old(self)@.pending + samples@
                },
                phase: if discontinuity {
                    0
                } else {
                    old(self)@.phase
                },
                ..old(self)@
            }),
    {
        if discontinuity {
            self.pending.clear();
            self.resample_phase = 0;
        }
        let ghost start = self@;
        let mut i: usize = 0;
        assert(start.pending + samples@.take(0) =~= start.pending);
        while i < samples.len()
            invariant
                i <= samples@.len(),
                self@ == (Captured { pending: start.pending + samples@.take(i as int), ..start }),
            decreases samples@.len() - i,
        {
            self.pending.push_back(samples[i]);
            assert(self@.pending =~= start.pending + samples@.take(i + 1));
            assert(self@ =~= (Captured {
                pending: start.pending + samples@.take(i + 1),
                ..start
            }));
            i = i + 1;
        }
        assert(samples@.take(i as int) =~= samples@);
        assert(discontinuity ==> start.pending + samples@ =~= samples@);
        assert(self@.pending =~= start.pending + samples@);
    }

    /// Takes one packet as the device delivered it: `frames` frames under `flags`,
    /// in `bytes` for integer samples. Floating point samples come already
    /// `converted`.
    ///
    /// The contents of a silent packet are undefined, so they are not read. A
    /// width that cannot be converted is refused.
    pub fn take_packet(
        &mut self,
        flags: u32,
        frames: u32,
        bytes: &[u8],
        converted: &[i16],
    ) -> (taken: Result<(), AudioError>)
        requires
            frames * old(self)@.channels <= usize::MAX,
        ensures
            final(self)@ == after_packet(old(self)@, flags, frames as int, bytes@, converted@),
            if !is_silent(flags) && sample_kind_of(
                old(self)@.float_samples,
                old(self)@.bits_per_sample,
            ) is None {
                taken == Err::<(), AudioError>(
                    AudioError::UnsupportedSampleFormat(old(self)@.bits_per_sample),
                )
            } else {
                taken is Ok
            },
    {
        let gap = flags % 2 == 1;
        let nothing: Vec<i16> = Vec::new();
        if flags / 2 % 2 == 1 {
            let ghost (f, c) = (frames as int, self.channels as int);
            assert(0 <= f * c) by (nonlinear_arith)
                requires
                    f >= 0,
                    c >= 0,
            ;
            let count: usize = frames as usize * self.channels as usize;
            let mut quiet: Vec<i16> = Vec::new();
            let mut i: usize = 0;
            while i < count
                invariant
                    i <= count,
                    quiet@ =~= Seq::new(i as nat, |k: int| 0i16),
                decreases count - i,
            {
                quiet.push(0);
                i = i + 1;
            }
            self.push_packet(&quiet, gap);
            assert(self@ =~= after_packet(old(self)@, flags, f, bytes@, converted@));
            return Ok(());
        }
        match self.sample_kind() {
            Ok(kind) => {
                match kind {
                    SampleKind::Float32 => self.push_packet(converted, gap),
                    _ => {
                        let samples = integer_samples(bytes, kind);
                        self.push_packet(&samples, gap);
                    },
                }
                assert(self@ =~= after_packet(old(self)@, flags, frames as int, bytes@, converted@));
                Ok(())
            },
            Err(error) => {
                self.push_packet(&nothing, gap);
                assert(self@ =~= after_packet(old(self)@, flags, frames as int, bytes@, converted@));
                Err(error)
            },
        }
    }

    /// Returns one frame of every channel at `rate`, or `None` if the device has
    /// not produced enough yet.
    ///
    /// Returning `None` rather than a short frame matters: LC3 encodes fixed-size
    /// blocks, and a partial one would shift every later frame out of alignment.
    pub fn next_resampled_frame(&mut self, frames: usize, rate: u32) -> (output: Option<Vec<Point>>)
        requires
            position_of(
                old(self)@.phase as int,
                old(self)@.sample_rate as int,
                frames as int,
            ) <= u64::MAX,
        ensures
            final(self)@ == after_pull(old(self)@, frames as int, rate),
            ({
                let c = old(self)@;
                let phase = if c.output_rate == rate {
                    c.phase as int
                } else {
                    0
                };
                let (s, o, n) = (c.sample_rate as int, rate as int, c.channels as int);
                if s > 0 && o > 0 && n > 0 && available(
                    c.pending,
                    phase,
                    s,
                    o,
                    n,
                    frames as int,
                ) {
                    output matches Some(list) && list@ == points(
                        c.pending,
                        phase,
                        s,
                        o,
                        n,
                        frames as nat,
                    )
                } else {
                    output is None
                }
            }),
    {
        if self.resample_output_rate != rate {
            self.resample_phase = 0;
            self.resample_output_rate = rate;
        }
        let output = pull_resampled(
            &mut self.pending,
            &mut self.resample_phase,
            self.sample_rate,
            rate,
            self.channels as usize,
            frames,
        );
        assert(self@ =~= after_pull(old(self)@, frames as int, rate));
        output
    }

    /// Returns exactly one LC3 frame worth of samples per channel, at the rate
    /// of the codec.
    pub fn next_frame(&mut self, samples_per_channel: usize) -> (output: Option<Vec<Point>>)
        requires
            position_of(
                old(self)@.phase as int,
                old(self)@.sample_rate as int,
                samples_per_channel as int,
            ) <= u64::MAX,
        ensures
            final(self)@ == after_pull(
                old(self)@,
                samples_per_channel as int,
                old(self)@.target_rate,
            ),
            ({
                let c = old(self)@;
                let phase = if c.output_rate == c.target_rate {
                    c.phase as int
                } else {
                    0
                };
                let (s, o, n) = (c.sample_rate as int, c.target_rate as int, c.channels as int);
                if s > 0 && o > 0 && n > 0 && available(
                    c.pending,
                    phase,
                    s,
                    o,
                    n,
                    samples_per_channel as int,
                ) {
                    output matches Some(list) && list@ == points(
                        c.pending,
                        phase,
                        s,
                        o,
                        n,
                        samples_per_channel as nat,
                    )
                } else {
                    output is None
                }
            }),
    {
        let rate = self.target_rate;
        self.next_resampled_frame(samples_per_channel, rate)
    }

    /// Splits interleaved stereo into per-channel buffers, which is what the
    /// encoder wants when each channel is coded separately. A stray sample at
    /// the end is dropped.
    pub fn deinterleave(frame: &[i16]) -> (channels: (Vec<i16>, Vec<i16>))
        ensures
            channels.0@ == left_of(frame@),
            channels.1@ == right_of(frame@),
    {
        let mut left: Vec<i16> = Vec::new();
        let mut right: Vec<i16> = Vec::new();
        let total = frame.len();
        let pairs = total / 2;
        let mut i: usize = 0;
        while i < pairs
            invariant
                i <= pairs,
                total == frame@.len(),
                pairs == frame@.len() / 2,
                left@ =~= every_second(frame@, 0).take(i as int),
                right@ =~= every_second(frame@, 1).take(i as int),
            decreases pairs - i,
        {
            left.push(frame[2 * i]);
            right.push(frame[2 * i + 1]);
            i = i + 1;
        }
        assert(left@ =~= every_second(frame@, 0));
        assert(right@ =~= every_second(frame@, 1));
        (left, right)
    }

    /// How many samples are buffered but not yet encoded.
    ///
    /// Growth here means the encoder is falling behind the device, which shows up
    /// as latency creeping upward.
    pub fn backlog(&self) -> (samples: usize)
        ensures
            samples == self@.pending.len(),
    {
        self.pending.len()
    }

    /// Drops buffered audio, used after an underrun so latency does not accumulate.
    pub fn flush(&mut self)
        ensures
            final(self)@ == (Captured { pending: Seq::empty(), phase: 0, ..old(self)@ }),
    {
        self.pending.clear();
        self.resample_phase = 0;
    }
}

/// Every second sample of a frame, from `start` on, one for each whole pair.
pub open spec fn every_second(frame: Seq<i16>, start: int) -> Seq<i16> {
    Seq::new(frame.len() / 2, |i: int| frame[2 * i + start])
}

/// The left channel of an interleaved frame.
pub open spec fn left_of(frame: Seq<i16>) -> Seq<i16> {
    every_second(frame, 0)
}

/// The right channel of an interleaved frame.
pub open spec fn right_of(frame: Seq<i16>) -> Seq<i16> {
    every_second(frame, 1)
}

/// The two channels that a stereo frame splits into make up the frame again.
pub proof fn splitting_keeps_every_pair(frame: Seq<i16>, i: int)
    requires
        0 <= i < frame.len(),
        frame.len() % 2 == 0,
    ensures
        frame[i] == every_second(frame, i % 2)[i / 2],
{
}

/// The sum of some samples.
pub open spec fn sum_of(samples: Seq<i16>) -> int
    decreases samples.len(),
{
    if samples.len() == 0 {
        0
    } else {
        sum_of(samples.drop_last()) + samples.last()
    }
}

/// A sum divided by a count, rounded towards zero.
pub open spec fn average(sum: int, count: int) -> int {
    if sum < 0 {
        -((-sum) / count)
    } else {
        sum / count
    }
}

proof fn lemma_sum_bound(samples: Seq<i16>)
    ensures
        -0x8000 * samples.len() <= sum_of(samples) <= 0x7FFF * samples.len(),
    decreases samples.len(),
{
    if samples.len() > 0 {
        lemma_sum_bound(samples.drop_last());
    }
}

/// The mean of one frame's channels.
pub fn mean_sample(frame: &[i16]) -> (mean: i16)
    requires
        0 < frame@.len() <= 0xFFFF,
    ensures
        mean == average(sum_of(frame@), frame@.len() as int),
{
    let mut sum: i64 = 0;
    let mut i: usize = 0;
    assert(frame@.take(0) =~= Seq::<i16>::empty());
    while i < frame.len()
        invariant
            i <= frame@.len() <= 0xFFFF,
            sum == sum_of(frame@.take(i as int)),
        decreases frame@.len() - i,
    {
        proof {
            assert(frame@.take(i + 1).drop_last() =~= frame@.take(i as int));
            lemma_sum_bound(frame@.take(i as int));
        }
        sum = sum + frame[i] as i64;
        i = i + 1;
    }
    assert(frame@.take(i as int) =~= frame@);
    let count = frame.len() as i64;
    proof {
        lemma_sum_bound(frame@);
        let n = frame@.len() as int;
        if sum < 0 {
            assert(0 <= (-sum) as int / n <= 0x8000) by (nonlinear_arith)
                requires
                    0 <= -sum <= 0x8000 * n,
                    n > 0,
            ;
        } else {
            assert(0 <= sum as int / n <= 0x7FFF) by (nonlinear_arith)
                requires
                    0 <= sum <= 0x7FFF * n,
                    n > 0,
            ;
        }
    }
    if sum < 0 {
        let size: i64 = (-sum) / count;
        (-size) as i16
    } else {
        (sum / count) as i16
    }
}

/// A frame with all its channels averaged, for monitoring a microphone.
pub open spec fn mono_of(interleaved: Seq<i16>, channels: int) -> Seq<i16>
    decreases interleaved.len(),
{
    if channels <= 0 || interleaved.len() < channels {
        Seq::empty()
    } else {
        seq![average(sum_of(interleaved.take(channels)), channels) as i16] + mono_of(
            interleaved.skip(channels),
            channels,
        )
    }
}

/// Averages all channels of an interleaved stream.
pub fn mix_to_mono(interleaved: &[i16], channels: u16) -> (mono: Vec<i16>)
    requires
        channels > 0,
    ensures
        mono@ == mono_of(interleaved@, channels as int),
{
    let width = channels as usize;
    let mut mono: Vec<i16> = Vec::new();
    let mut rest = interleaved;
    assert(mono@ + mono_of(rest@, width as int) =~= mono_of(interleaved@, width as int));
    while rest.len() >= width
        invariant
            0 < width <= 0xFFFF,
            mono@ + mono_of(rest@, width as int) == mono_of(interleaved@, width as int),
        decreases rest@.len(),
    {
        let frame = vstd::slice::slice_subrange(rest, 0, width);
        let mean = mean_sample(frame);
        let next = vstd::slice::slice_subrange(rest, width, rest.len());
        proof {
            assert(frame@ =~= rest@.take(width as int));
            assert(next@ =~= rest@.skip(width as int));
            assert(mono@.push(mean) + mono_of(next@, width as int) =~= mono@ + mono_of(
                rest@,
                width as int,
            ));
        }
        mono.push(mean);
        rest = next;
    }
    assert(mono@ =~= mono_of(interleaved@, width as int));
    mono
}

// ---- Render ----

/// How many frames a source of `source_len` samples becomes at the device's
/// rate: at least one.
pub open spec fn rendered_frames(source_len: int, source_rate: int, device_rate: int) -> int {
    let frames = source_len * device_rate / source_rate;
    if frames < 1 {
        1
    } else {
        frames
    }
}

/// What becomes of one microphone frame.
#[derive(Debug, Clone, Copy, PartialEq, Eq, Structural)]
pub enum RenderPlan {
    /// There is nothing to write.
    Nothing,
    /// The endpoint is temporarily behind. Dropping this frame keeps latency
    /// bounded; blocking would stall both music delivery and event handling.
    Dropped,
    /// Write so many frames.
    Write(u64),
}

/// What becomes of a recorded frame, given how much the device still has to play.
pub open spec fn planned(
    source_len: int,
    source_rate: int,
    device_rate: int,
    buffer_frames: int,
    padding: int,
) -> RenderPlan {
    let room = if padding > buffer_frames {
        0
    } else {
        buffer_frames - padding
    };
    if source_len == 0 || source_rate == 0 {
        RenderPlan::Nothing
    } else if room < rendered_frames(source_len, source_rate, device_rate) {
        RenderPlan::Dropped
    } else {
        RenderPlan::Write(rendered_frames(source_len, source_rate, device_rate) as u64)
    }
}

/// Decides what becomes of one microphone frame, given how much of the device's
/// buffer still waits to be played.
pub fn render_plan(
    source_len: usize,
    source_rate: u32,
    device_rate: u32,
    buffer_frames: u32,
    padding: u32,
) -> (plan: RenderPlan)
    requires
        source_len * device_rate <= u64::MAX,
    ensures
        plan == planned(
            source_len as int,
            source_rate as int,
            device_rate as int,
            buffer_frames as int,
            padding as int,
        ),
{
    if source_len == 0 || source_rate == 0 {
        return RenderPlan::Nothing;
    }
    proof {
        assert(0 <= source_len as int * device_rate as int) by (nonlinear_arith);
    }
    let scaled = (source_len as u64 * device_rate as u64) / source_rate as u64;
    let frames = if scaled < 1 {
        1
    } else {
        scaled
    };
    let room = if padding > buffer_frames {
        0
    } else {
        buffer_frames - padding
    };
    if (room as u64) < frames {
        RenderPlan::Dropped
    } else {
        RenderPlan::Write(frames)
    }
}

/// Which source sample an output frame repeats.
pub fn source_index(frame: usize, source_len: usize, output_frames: usize) -> (index: usize)
    requires
        frame < output_frames,
        source_len > 0,
        frame * source_len <= usize::MAX,
    ensures
        index == frame * source_len / output_frames as int,
        index < source_len,
{
    proof {
        let (f, s, o) = (frame as int, source_len as int, output_frames as int);
        assert(0 <= f * s) by (nonlinear_arith)
            requires
                f >= 0,
                s >= 0,
        ;
        assert(f * s / o < s) by (nonlinear_arith)
            requires
                0 <= f < o,
                s > 0,
        ;
    }
    frame * source_len / output_frames
}

/// The bytes of one sample as an integer endpoint takes them: its two bytes are
/// the top two, low first, and any below them are zero.
pub open spec fn encoded(sample: i16, kind: SampleKind) -> Seq<u8> {
    let value = if sample < 0 {
        sample + 0x1_0000
    } else {
        sample as int
    };
    Seq::new((width_of(kind) - 2) as nat, |i: int| 0u8) + seq![
        (value % 256) as u8,
        (value / 256) as u8,
    ]
}

/// The bytes of one sample for an integer endpoint.
pub fn integer_bytes(sample: i16, kind: SampleKind) -> (bytes: Vec<u8>)
    requires
        kind != SampleKind::Float32,
    ensures
        bytes@ == encoded(sample, kind),
{
    let value: i32 = if sample < 0 {
        sample as i32 + 0x1_0000
    } else {
        sample as i32
    };
    let mut bytes: Vec<u8> = Vec::new();
    match kind {
        SampleKind::Integer24 => {
            bytes.push(0);
        },
        SampleKind::Integer32 => {
            bytes.push(0);
            bytes.push(0);
        },
        _ => {},
    }
    bytes.push((value % 256) as u8);
    bytes.push((value / 256) as u8);
    assert(bytes@ =~= encoded(sample, kind));
    bytes
}

/// The bytes of some samples, one after another.
pub open spec fn written(samples: Seq<i16>, kind: SampleKind) -> Seq<u8>
    decreases samples.len(),
{
    if samples.len() == 0 {
        Seq::empty()
    } else {
        written(samples.drop_last(), kind) + encoded(samples.last(), kind)
    }
}

/// The samples that a mono source gives an endpoint: every output frame repeats
/// the source sample at its place in time, the same on every channel.
pub open spec fn spread(source: Seq<i16>, frames: int, channels: int) -> Seq<i16> {
    Seq::new(
        (frames * channels) as nat,
        |k: int| source[(k / channels) * source.len() / frames],
    )
}

/// Lays a mono source out in the buffer of an integer endpoint.
pub fn render_bytes(
    source: &[i16],
    output_frames: usize,
    channels: u16,
    kind: SampleKind,
) -> (bytes: Vec<u8>)
    requires
        source@.len() > 0,
        output_frames * source@.len() <= usize::MAX,
        kind != SampleKind::Float32,
    ensures
        bytes@ == written(spread(source@, output_frames as int, channels as int), kind),
{
    let mut bytes: Vec<u8> = Vec::new();
    let ghost (n, c) = (output_frames as int, channels as int);
    let ghost all = spread(source@, n, c);
    let mut frame: usize = 0;
    assert(0 * c == 0);
    assert(all.take(0) =~= Seq::<i16>::empty());
    while frame < output_frames
        invariant
            frame <= output_frames,
            n == output_frames,
            c == channels,
            source@.len() > 0,
            output_frames * source@.len() <= usize::MAX,
            kind != SampleKind::Float32,
            all == spread(source@, n, c),
            bytes@ == written(all.take(frame * c), kind),
        decreases output_frames - frame,
    {
        proof {
            let (f, s) = (frame as int, source@.len() as int);
            assert(f * s <= n * s) by (nonlinear_arith)
                requires
                    f <= n,
                    s >= 0,
            ;
            assert((f + 1) * c == f * c + c) by (nonlinear_arith);
            assert((f + 1) * c <= n * c) by (nonlinear_arith)
                requires
                    f + 1 <= n,
                    c >= 0,
            ;
            assert(0 <= f * c) by (nonlinear_arith)
                requires
                    f >= 0,
                    c >= 0,
            ;
        }
        let sample = source[source_index(frame, source.len(), output_frames)];
        let one = integer_bytes(sample, kind);
        let mut channel: u16 = 0;
        while channel < channels
            invariant
                channel <= channels,
                c == channels,
                0 <= frame * c,
                frame * c + c <= n * c,
                all == spread(source@, n, c),
                sample == source@[frame * source@.len() / n],
                one@ == encoded(sample, kind),
                bytes@ == written(all.take(frame * c + channel), kind),
            decreases channels - channel,
        {
            proof {
                let (f, h) = (frame as int, channel as int);
                let k = f * c + h;
                assert(k / c == f) by (nonlinear_arith)
                    requires
                        k == f * c + h,
                        0 <= h < c,
                ;
                assert(all[k] == sample);
                assert(all.take(k + 1).drop_last() =~= all.take(k));
            }
            crate::bytes::push_bytes(&mut bytes, &one);
            channel = channel + 1;
        }
        frame = frame + 1;
    }
    assert(all.take(n * c) =~= all);
    bytes
}

proof fn lemma_written(samples: Seq<i16>, kind: SampleKind)
    requires
        kind != SampleKind::Float32,
    ensures
        written(samples, kind).len() == samples.len() * width_of(kind),
        forall|i: int, j: int|
            0 <= i < samples.len() && 0 <= j < width_of(kind) ==> #[trigger] written(
                samples,
                kind,
            )[i * width_of(kind) + j] == encoded(samples[i], kind)[j],
    decreases samples.len(),
{
    let w = width_of(kind);
    if samples.len() == 0 {
        assert(samples.len() * w == 0);
    } else {
        let n = samples.len() - 1;
        let front = written(samples.drop_last(), kind);
        lemma_written(samples.drop_last(), kind);
        assert((n + 1) * w == n * w + w) by (nonlinear_arith);
        assert forall|i: int, j: int| 0 <= i < samples.len() && 0 <= j < w implies #[trigger] written(
            samples,
            kind,
        )[i * w + j] == encoded(samples[i], kind)[j] by {
            if i < n {
                assert(i * w + j < n * w) by (nonlinear_arith)
                    requires
                        i + 1 <= n,
                        j < w,
                        w > 0,
                ;
                assert(0 <= i * w + j) by (nonlinear_arith)
                    requires
                        0 <= i,
                        0 <= j,
                        w > 0,
                ;
                assert(front[i * w + j] == encoded(samples.drop_last()[i], kind)[j]);
            }
        }
    }
}

/// What is written to an integer endpoint reads back from one: every sample, in
/// the same order, whatever the width.
pub proof fn a_written_buffer_reads_back(samples: Seq<i16>, kind: SampleKind)
    requires
        kind != SampleKind::Float32,
    ensures
        samples_in(written(samples, kind), width_of(kind)) == samples,
{
    let w = width_of(kind);
    let bytes = written(samples, kind);
    let n = samples.len() as int;
    lemma_written(samples, kind);
    assert((n * w) / w == n) by (nonlinear_arith)
        requires
            w > 0,
    ;
    assert forall|i: int| 0 <= i < n implies samples_in(bytes, w)[i] == samples[i] by {
        assert(bytes[i * w + (w - 2)] == encoded(samples[i], kind)[w - 2]);
        assert(bytes[i * w + (w - 1)] == encoded(samples[i], kind)[w - 1]);
    }
    assert(samples_in(bytes, w) =~= samples);
}

/// A render endpoint in words.
pub fn describe_render(format: EndpointFormat, float_samples: bool) -> (text: String)
    ensures
        text@ == decimal(format.sample_rate as nat) + " Hz, "@ + decimal(format.channels as nat)
            + " channels, "@ + decimal(format.bits_per_sample as nat) + "-bit "@ + if float_samples {
            "float"@
        } else {
            "integer"@
        },
{
    let mut text = String::from_str("");
    proof {
        reveal_strlit("");
    }
    push_decimal(&mut text, format.sample_rate as u64);
    text.append(" Hz, ");
    push_decimal(&mut text, format.channels as u64);
    text.append(" channels, ");
    push_decimal(&mut text, format.bits_per_sample as u64);
    text.append("-bit ");
    if float_samples {
        text.append("float");
    } else {
        text.append("integer");
    }
    assert(text@ =~= decimal(format.sample_rate as nat) + " Hz, "@ + decimal(format.channels as nat)
        + " channels, "@ + decimal(format.bits_per_sample as nat) + "-bit "@ + if float_samples {
        "float"@
    } else {
        "integer"@
    });
    text
}

// ---- What capturing and rendering are for ----

/// A sample is two bytes, the low one first, in two's complement.
pub proof fn a_sample_is_signed_and_little_endian(low: u8, high: u8)
    ensures
        sample_of(low, high) == low + 256 * (if high < 128 {
            high as int
        } else {
            high - 256
        }),
{
}

/// Every format is as wide as its bits, and only these are known: floats of 32
/// bits, and integers of 16, 24 and 32.
pub proof fn formats_are_as_wide_as_their_bits(float_samples: bool, bits: u16)
    ensures
        sample_kind_of(float_samples, bits) is Some <==> bits == 32 || (!float_samples && (bits == 16
            || bits == 24)),
        sample_kind_of(float_samples, bits) matches Some(kind) ==> 8 * width_of(kind) == bits && (
        kind == SampleKind::Float32 <==> float_samples),
{
}

/// Of a wider integer the upper sixteen bits are kept: sample `i` is the wide number
/// at its own place, rounded down to sixteen bits.
pub proof fn the_upper_bits_are_kept(bytes: Seq<u8>, i: int)
    ensures
        0 <= 2 * i && 2 * i + 2 <= bytes.len() ==> i < samples_in(bytes, 2).len() && samples_in(
            bytes,
            2,
        )[i] == sample_of(bytes[2 * i], bytes[2 * i + 1]),
        0 <= 3 * i && 3 * i + 3 <= bytes.len() ==> i < samples_in(bytes, 3).len() && samples_in(
            bytes,
            3,
        )[i] == sample_of(bytes[3 * i + 1], bytes[3 * i + 2]),
        0 <= 4 * i && 4 * i + 4 <= bytes.len() ==> i < samples_in(bytes, 4).len() && samples_in(
            bytes,
            4,
        )[i] == sample_of(bytes[4 * i + 2], bytes[4 * i + 3]),
        2 * samples_in(bytes, 2).len() <= bytes.len() < 2 * samples_in(bytes, 2).len() + 2,
        3 * samples_in(bytes, 3).len() <= bytes.len() < 3 * samples_in(bytes, 3).len() + 3,
        4 * samples_in(bytes, 4).len() <= bytes.len() < 4 * samples_in(bytes, 4).len() + 4,
{
}

/// What is written has its sample in the upper two bytes, the low one first, and
/// zeros below.
pub proof fn a_written_sample_is_in_the_upper_bytes(sample: i16, kind: SampleKind)
    ensures
        ({
            let bytes = encoded(sample, kind);
            let width = width_of(kind);
            &&& bytes.len() == width
            &&& forall|i: int| 0 <= i < width - 2 ==> #[trigger] bytes[i] == 0
            &&& bytes[width - 2] + 256 * bytes[width - 1] == if sample < 0 {
                sample + 65536
            } else {
                sample as int
            }
        }),
{
}

/// A packet that follows on is added to what is there; one behind a gap starts
/// anew, at phase zero. A silent packet is as many zeros as it has samples, whatever
/// its bytes hold.
pub proof fn a_packet_is_added_unless_there_was_a_gap(
    c: Captured,
    flags: u32,
    frames: int,
    bytes: Seq<u8>,
    converted: Seq<i16>,
)
    requires
        frames >= 0,
    ensures
        ({
            let after = after_packet(c, flags, frames, bytes, converted);
            let start = if flags % 2 == 1 {
                0
            } else {
                c.pending.len()
            };
            let kind = sample_kind_of(c.float_samples, c.bits_per_sample);
            &&& after.pending.len() >= start
            &&& flags % 2 == 0 ==> after.pending.take(c.pending.len() as int) == c.pending
                && after.phase == c.phase
            &&& flags % 2 == 1 ==> after.phase == 0
            &&& flags / 2 % 2 == 1 ==> after.pending.len() == start + frames * c.channels && forall|
                i: int,
            |
                start <= i < after.pending.len() ==> #[trigger] after.pending[i] == 0
            &&& flags / 2 % 2 == 0 && kind == Some(SampleKind::Float32) ==> after.pending.skip(
                start as int,
            ) == converted
            &&& flags / 2 % 2 == 0 && kind is Some && kind != Some(SampleKind::Float32)
                ==> after.pending.skip(start as int) == samples_in(bytes, width_of(kind->0))
            &&& flags / 2 % 2 == 0 && kind is None ==> after.pending.len() == start
            &&& after.sample_rate == c.sample_rate && after.channels == c.channels
                && after.target_rate == c.target_rate && after.output_rate == c.output_rate
        }),
{
    let after = after_packet(c, flags, frames, bytes, converted);
    let start = if flags % 2 == 1 {
        0
    } else {
        c.pending.len()
    };
    let kind = sample_kind_of(c.float_samples, c.bits_per_sample);
    assert(frames * c.channels >= 0) by (nonlinear_arith)
        requires
            frames >= 0,
            c.channels >= 0,
    ;
    if flags % 2 == 0 {
        assert(after.pending.take(c.pending.len() as int) =~= c.pending);
    }
    if flags / 2 % 2 == 0 && kind == Some(SampleKind::Float32) {
        assert(after.pending.skip(start as int) =~= converted);
    }
    if flags / 2 % 2 == 0 && kind is Some && kind != Some(SampleKind::Float32) {
        assert(after.pending.skip(start as int) =~= samples_in(bytes, width_of(kind->0)));
    }
}

/// Pulling goes on from where the last pull ended, and starts between two frames
/// anew only where the rate asked for has changed. What is left and where it goes on
/// is what the conversion says; a pull that is refused takes nothing.
pub proof fn a_pull_goes_on_from_the_last(c: Captured, frames: nat, rate: u32)
    requires
        c.sample_rate > 0,
        rate > 0,
        c.channels > 0,
    ensures
        ({
            let from: u64 = if c.output_rate == rate {
                c.phase
            } else {
                0
            };
            let after = after_pull(c, frames as int, rate);
            &&& after.output_rate == rate
            &&& match crate::audio::resample::pulled(
                c.pending,
                from as int,
                c.sample_rate as int,
                rate as int,
                c.channels as int,
                frames,
            ) {
                Some(all) => after.pending == all.pending && (frames > 0 ==> after.phase
                    == all.phase),
                None => after.pending == c.pending && after.phase == from,
            }
        }),
{
    if frames > 0 {
        let end = position_of(
            (if c.output_rate == rate {
                c.phase
            } else {
                0
            }) as int,
            c.sample_rate as int,
            frames as int,
        );
        vstd::arithmetic::mul::lemma_mul_inequality(0, frames as int, c.sample_rate as int);
        vstd::arithmetic::div_mod::lemma_mod_bound(end, rate as int);
    }
}

/// An average lies between the samples, never further from zero than the exact one
/// and less than one away from it.
pub proof fn an_average_is_exact_to_one(sum: int, count: int)
    requires
        count > 0,
    ensures
        sum >= 0 ==> 0 <= average(sum, count) * count <= sum < average(sum, count) * count + count,
        sum < 0 ==> average(sum, count) * count - count < sum <= average(sum, count) * count <= 0,
{
    vstd::arithmetic::div_mod::lemma_fundamental_div_mod(sum, count);
    vstd::arithmetic::div_mod::lemma_fundamental_div_mod(-sum, count);
    let q = (-sum) / count;
    assert((-q) * count == -(count * q)) by (nonlinear_arith);
    assert(count * (sum / count) == (sum / count) * count) by (nonlinear_arith);
    if sum >= 0 {
        vstd::arithmetic::div_mod::lemma_div_is_ordered(0, sum, count);
        assert((sum / count) * count >= 0) by (nonlinear_arith)
            requires
                sum / count >= 0,
                count > 0,
        ;
    } else {
        vstd::arithmetic::div_mod::lemma_div_is_ordered(0, -sum, count);
        assert(count * q >= 0) by (nonlinear_arith)
            requires
                q >= 0,
                count > 0,
        ;
    }
}

/// Mixing to one channel averages each frame by itself: output `i` is the average
/// of the samples of frame `i` and depends on no other.
pub proof fn every_frame_is_mixed_by_itself(interleaved: Seq<i16>, channels: int, i: int)
    requires
        channels > 0,
        0 <= i,
        (i + 1) * channels <= interleaved.len(),
    ensures
        i < mono_of(interleaved, channels).len(),
        mono_of(interleaved, channels)[i] == average(
            sum_of(interleaved.subrange(i * channels, (i + 1) * channels)),
            channels,
        ) as i16,
        mono_of(interleaved, channels).len() * channels <= interleaved.len(),
    decreases interleaved.len(),
{
    let rest = interleaved.skip(channels);
    vstd::arithmetic::mul::lemma_mul_is_distributive_add_other_way(channels, i, 1);
    vstd::arithmetic::mul::lemma_mul_inequality(0, i, channels);
    let tail = mono_of(rest, channels);
    vstd::arithmetic::mul::lemma_mul_is_distributive_add_other_way(
        channels,
        tail.len() as int,
        1,
    );
    if i > 0 {
        vstd::arithmetic::mul::lemma_mul_is_distributive_add_other_way(channels, i - 1, 1);
        every_frame_is_mixed_by_itself(rest, channels, i - 1);
        assert(rest.subrange((i - 1) * channels, i * channels) =~= interleaved.subrange(
            i * channels,
            (i + 1) * channels,
        ));
    } else {
        assert(interleaved.take(channels) =~= interleaved.subrange(0, channels));
        if rest.len() >= channels {
            every_frame_is_mixed_by_itself(rest, channels, 0);
        } else {
            assert(tail.len() == 0);
        }
    }
}

/// A sum grows by each sample that is added.
pub proof fn a_sum_grows_by_its_last_sample(samples: Seq<i16>, next: i16)
    ensures
        sum_of(samples.push(next)) == sum_of(samples) + next,
        sum_of(Seq::empty()) == 0,
{
    assert(samples.push(next).drop_last() =~= samples);
}

/// What is rendered lasts as long as what was recorded, to less than a frame, and is
/// never nothing.
pub proof fn rendering_keeps_the_duration(source_len: int, source_rate: int, device_rate: int)
    requires
        source_len > 0,
        source_rate > 0,
        device_rate > 0,
    ensures
        ({
            let frames = rendered_frames(source_len, source_rate, device_rate);
            &&& frames >= 1
            &&& frames == 1 || frames * source_rate <= source_len * device_rate
            &&& source_len * device_rate < (frames + 1) * source_rate
        }),
{
    let total = source_len * device_rate;
    let q = total / source_rate;
    assert(total > 0) by (nonlinear_arith)
        requires
            source_len > 0,
            device_rate > 0,
            total == source_len * device_rate,
    ;
    vstd::arithmetic::div_mod::lemma_fundamental_div_mod(total, source_rate);
    vstd::arithmetic::div_mod::lemma_div_is_ordered(0, total, source_rate);
    assert(source_rate * q == q * source_rate) by (nonlinear_arith);
    assert((q + 1) * source_rate == q * source_rate + source_rate) by (nonlinear_arith);
    assert((1 + 1) * source_rate == source_rate + source_rate) by (nonlinear_arith);
}

/// Every channel plays the same sample at the same time, and time runs evenly: frame
/// `f` of `frames` plays the sample as far into the source, so nothing is played
/// out of turn, and a source of the same length is played as it is.
#[verifier::rlimit(60)]
pub proof fn every_channel_plays_in_time(
    source: Seq<i16>,
    frames: int,
    channels: int,
    f: int,
    channel: int,
)
    requires
        source.len() > 0,
        0 <= f < frames,
        0 <= channel < channels,
    ensures
        spread(source, frames, channels).len() == frames * channels,
        0 <= f * channels + channel < frames * channels,
        ({
            let at = f * source.len() / frames;
            &&& 0 <= at < source.len()
            &&& spread(source, frames, channels)[f * channels + channel] == source[at]
            &&& frames == source.len() ==> at == f
        }),
{
    let k = f * channels + channel;
    vstd::arithmetic::mul::lemma_mul_inequality(0, f, channels);
    vstd::arithmetic::mul::lemma_mul_inequality(f + 1, frames, channels);
    vstd::arithmetic::mul::lemma_mul_is_distributive_add_other_way(channels, f, 1);
    vstd::arithmetic::div_mod::lemma_fundamental_div_mod_converse_div(k, channels, f, channel);
    let total = f * source.len();
    vstd::arithmetic::mul::lemma_mul_inequality(0, f, source.len() as int);
    vstd::arithmetic::div_mod::lemma_div_is_ordered(0, total, frames);
    assert(total < source.len() * frames) by (nonlinear_arith)
        requires
            f < frames,
            source.len() > 0,
            total == f * source.len(),
    ;
    vstd::arithmetic::div_mod::lemma_fundamental_div_mod(total, frames);
    let at = total / frames;
    assert(at < source.len()) by (nonlinear_arith)
        requires
            total == frames * at + total % frames,
            total % frames >= 0,
            total < source.len() * frames,
            frames > 0,
    ;
    if frames == source.len() {
        vstd::arithmetic::div_mod::lemma_fundamental_div_mod_converse_div(total, frames, f, 0);
    }
}

/// How early a hint is tried.
pub open spec fn turn(hint: Hint) -> int {
    match hint {
        Hint::Cable => 0,
        Hint::VbAudio => 1,
        Hint::VoiceMeeter => 2,
    }
}

/// Looking for the cable, a plain one always comes before one of many channels, and
/// VB-Audio's cable before its other products before VoiceMeeter: where a plain
/// device answers to a name, the one found is plain and answers to that name or to an
/// earlier one. A cable of many channels is taken only where no plain one is, and
/// for rendering never.
#[verifier::rlimit(60)]
pub proof fn a_plain_cable_comes_first(devices: Seq<AudioDevice>, hint: Hint, i: int)
    requires
        0 <= i < devices.len(),
    ensures
        ({
            let lower = lowercase(devices[i].name@);
            let found = first_by(cable_rules(), devices);
            let render = first_by(cable_render_rules(), devices);
            let heard = lowercase(devices[found].name@);
            let played = lowercase(devices[render].name@);
            &&& holds(lower, capture_hint(hint)) ==> 0 <= found < devices.len()
            &&& holds(lower, capture_hint(hint)) && !multichannel_name(lower)
                ==> !multichannel_name(heard) && exists|own: Hint| #[trigger]
                turn(own) <= turn(hint) && holds(heard, capture_hint(own))
            &&& holds(lower, render_hint(hint)) && !multichannel_name(lower) ==> 0 <= render
                < devices.len() && !multichannel_name(played) && exists|own: Hint| #[trigger]
                turn(own) <= turn(hint) && holds(played, render_hint(own))
        }),
        first_by(cable_render_rules(), devices) < devices.len() ==> !multichannel_name(
            lowercase(devices[first_by(cable_render_rules(), devices)].name@),
        ),
        capture_hint(Hint::Cable) == "cable output"@,
        render_hint(Hint::Cable) == "cable input"@,
        capture_hint(Hint::VbAudio) == "vb-audio"@,
        render_hint(Hint::VbAudio) == "vb-audio"@,
        capture_hint(Hint::VoiceMeeter) == "voicemeeter output"@,
        render_hint(Hint::VoiceMeeter) == "voicemeeter input"@,
{
    let lower = lowercase(devices[i].name@);
    let rules = cable_rules();
    let k = turn(hint);
    let found = first_by(rules, devices);
    if holds(lower, capture_hint(hint)) {
        assert(rules[k + 3] == Rule::AnyCable(hint));
        the_earlier_rule_wins(rules, devices, k + 3, i);
    }
    if holds(lower, capture_hint(hint)) && !multichannel_name(lower) {
        assert(rules[k] == Rule::PlainCable(hint));
        the_earlier_rule_wins(rules, devices, k, i);
        let j = choose|j: int| 0 <= j <= k && fits(#[trigger] rules[j], devices[found], ""@);
        assert(rules[j] is PlainCable);
        let own = rules[j]->PlainCable_0;
        assert(turn(own) == j);
    }
    let plays = cable_render_rules();
    let render = first_by(plays, devices);
    if holds(lower, render_hint(hint)) && !multichannel_name(lower) {
        assert(plays[k] == Rule::PlainCableRender(hint));
        the_earlier_rule_wins(plays, devices, k, i);
        let j = choose|j: int| 0 <= j <= k && fits(#[trigger] plays[j], devices[render], ""@);
        assert(plays[j] is PlainCableRender);
        let own = plays[j]->PlainCableRender_0;
        assert(turn(own) == j);
    }
    lemma_found_by_a_rule(plays, devices);
}

proof fn lemma_found_by_a_rule(rules: Seq<Rule>, devices: Seq<AudioDevice>)
    ensures
        0 <= first_by(rules, devices) <= devices.len(),
        first_by(rules, devices) < devices.len() ==> exists|j: int|
            0 <= j < rules.len() && fits(
                #[trigger] rules[j],
                devices[first_by(rules, devices)],
                ""@,
            ),
    decreases rules.len(),
{
    if rules.len() > 0 {
        a_search_finds_the_first(rules[0], devices, ""@);
        let rest = rules.skip(1);
        lemma_found_by_a_rule(rest, devices);
        if first_fit(rules[0], devices, ""@) < devices.len() {
            assert(fits(rules[0], devices[first_by(rules, devices)], ""@));
        } else if first_by(rest, devices) < devices.len() {
            let j = choose|j: int|
                0 <= j < rest.len() && fits(
                    #[trigger] rest[j],
                    devices[first_by(rest, devices)],
                    ""@,
                );
            assert(rules[j + 1] == rest[j]);
        }
    }
}

/// A device is a virtual cable by any of three names, and one of many channels by
/// any of three others; a device that was chosen answers to its identifier, to its
/// name in either case of letters and to a part of it.
pub proof fn names_tell_what_a_device_is(
    name: Seq<char>,
    id: Seq<char>,
    lower: Seq<char>,
    wanted: Seq<char>,
    lower_wanted: Seq<char>,
)
    ensures
        cable_name(lower) <==> holds(lower, "cable output"@) || holds(lower, "vb-audio"@) || holds(
            lower,
            "voicemeeter output"@,
        ),
        multichannel_name(lower) <==> holds(lower, "8ch"@) || holds(lower, "16ch"@) || holds(
            lower,
            "64ch"@,
        ),
        id == wanted ==> satisfies(Rule::Selected, name, id, lower, wanted, lower_wanted)
            && satisfies(Rule::IdOrNamed, name, id, lower, wanted, lower_wanted),
        upper(name) == upper(wanted) ==> satisfies(
            Rule::Selected,
            name,
            id,
            lower,
            wanted,
            lower_wanted,
        ),
        holds(lower, lower_wanted) ==> satisfies(
            Rule::Selected,
            name,
            id,
            lower,
            wanted,
            lower_wanted,
        ) && satisfies(Rule::IdOrNamed, name, id, lower, wanted, lower_wanted) && satisfies(
            Rule::Named,
            name,
            id,
            lower,
            wanted,
            lower_wanted,
        ),
        !holds(lower, lower_wanted) ==> !satisfies(
            Rule::Named,
            name,
            id,
            lower,
            wanted,
            lower_wanted,
        ) && satisfies(Rule::IdOrNamed, name, id, lower, wanted, lower_wanted) == (id == wanted)
            && satisfies(Rule::Selected, name, id, lower, wanted, lower_wanted) == (id == wanted
            || upper(name) == upper(wanted)),
        satisfies(Rule::Microphone, name, id, lower, wanted, lower_wanted) == !cable_name(lower),
{
}

/// The left channel comes first in every pair and the right one second.
pub proof fn left_comes_before_right(frame: Seq<i16>, i: int)
    requires
        0 <= i,
        2 * i + 1 < frame.len(),
    ensures
        i < left_of(frame).len() && left_of(frame).len() == right_of(frame).len(),
        left_of(frame)[i] == frame[2 * i],
        right_of(frame)[i] == frame[2 * i + 1],
{
}

/// What is recorded is written whole or not at all: it is dropped exactly when the
/// device has no room for it, and only an empty recording is nothing.
pub proof fn a_frame_is_written_whole_or_dropped(
    source_len: int,
    source_rate: int,
    device_rate: int,
    buffer: int,
    padding: int,
)
    requires
        source_len > 0,
        source_rate > 0,
        device_rate >= 0,
        0 <= padding,
        0 <= buffer,
        rendered_frames(source_len, source_rate, device_rate) <= u64::MAX,
    ensures
        ({
            let plan = planned(source_len, source_rate, device_rate, buffer, padding);
            let frames = rendered_frames(source_len, source_rate, device_rate);
            &&& padding + frames <= buffer ==> plan == RenderPlan::Write(frames as u64)
            &&& padding + frames > buffer ==> plan == RenderPlan::Dropped
        }),
        planned(0, source_rate, device_rate, buffer, padding) == RenderPlan::Nothing,
{
}

/// A timer waits for as many tenths of a microsecond as fit, counted backwards, and
/// not at all for less than one.
pub proof fn a_timer_waits_no_longer_than_asked(nanoseconds: u64)
    ensures
        due_in(nanoseconds) is None <==> nanoseconds < 100,
        due_in(nanoseconds) matches Some(units) ==> units < 0 && -units * 100 <= nanoseconds
            < -units * 100 + 100,
{
}

/// Samples are floating point by their own tag, or by the subformat of an extended
/// format that is long enough to have one. Width says nothing.
pub proof fn a_float_format_says_so(tag: u16, tail_size: u16, subformat: u128)
    ensures
        is_float_format(3, tail_size, None),
        tag != 3 && tag != 0xFFFE ==> !is_float_format(tag, tail_size, Some(subformat)),
        is_float_format(0xFFFE, tail_size, Some(subformat)) <==> tail_size >= 22 && subformat
            == 0x00000003_0000_0010_8000_00aa00389b71,
        !is_float_format(0xFFFE, tail_size, None),
{
}

} // verus!
