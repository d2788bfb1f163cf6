//! What has to be true before any of this can work, checked out loud.
//!
//! Three things have to be in place before a single LC3 frame can reach a pair
//! of headphones: the adapter has to belong to this stack rather than to
//! Windows, a virtual cable has to exist, and that cable has to be both
//! configured and actually receiving the music.
//!
//! Every one of them can be wrong in a way that produces no error at all. So
//! they are checked explicitly, named in plain language, and each one says what
//! to do about it.

use crate::audio::{
    find_first, first_fit, format_text, AudioDevice, EndpointFormat, Hint, Rule,
};
use crate::text::{decimal, push_decimal, same_text, to_chars, trim, trim_chars};
use vstd::prelude::*;
use vstd::string::*;

verus! {

/// How badly a problem stands in the way.
#[derive(Debug, Clone, Copy, PartialEq, Eq, Structural)]
pub enum Severity {
    /// Nothing will work until this is fixed.
    Blocking,
    /// It will run, but not the way the user expects.
    Warning,
}

impl Severity {
    pub fn as_str(self) -> (name: &'static str)
        ensures
            name@ == match self {
                Severity::Blocking => "error"@,
                Severity::Warning => "warning"@,
            },
    {
        match self {
            Severity::Blocking => "error",
            Severity::Warning => "warning",
        }
    }
}

/// One thing that is wrong, in terms a person can act on.
#[derive(Debug, PartialEq, Eq)]
pub struct Issue {
    /// Stable identifier, so the app can decide how to present it without
    /// matching on prose that may be translated.
    pub id: &'static str,
    pub severity: Severity,
    /// What is wrong.
    pub summary: String,
    /// What to do about it. Always concrete: which button, which step.
    pub remedy: String,
    /// The Setup step that fixes it, when there is one.
    pub setup_action: Option<&'static str>,
}

/// What an issue says.
pub struct Problem {
    pub id: Seq<char>,
    pub severity: Severity,
    pub summary: Seq<char>,
    pub remedy: Seq<char>,
    pub setup_action: Option<Seq<char>>,
}

impl View for Issue {
    type V = Problem;

    open spec fn view(&self) -> Problem {
        Problem {
            id: self.id@,
            severity: self.severity,
            summary: self.summary@,
            remedy: self.remedy@,
            setup_action: match self.setup_action {
                Some(action) => Some(action@),
                None => None,
            },
        }
    }
}

/// What several issues say.
pub open spec fn problems(issues: Seq<Issue>) -> Seq<Problem> {
    Seq::new(issues.len(), |i: int| issues[i]@)
}

impl Issue {
    pub fn new(
        id: &'static str,
        severity: Severity,
        summary: &str,
        remedy: &str,
        setup_action: Option<&'static str>,
    ) -> (issue: Self)
        ensures
            issue@ == (Problem {
                id: id@,
                severity,
                summary: summary@,
                remedy: remedy@,
                setup_action: match setup_action {
                    Some(action) => Some(action@),
                    None => None,
                },
            }),
    {
        Issue {
            id,
            severity,
            summary: String::from_str(summary),
            remedy: String::from_str(remedy),
            setup_action,
        }
    }
}

/// The rate the codec runs at by default, and therefore the rate that costs
/// nothing to carry.
///
/// A cable set to anything else still works - the capture side converts - but
/// that conversion happens on every frame, inside the audio deadline, for no
/// benefit whatsoever. Matching it is free and strictly better.
pub const REQUIRED_CABLE_RATE: u32 = 48_000;

/// What was found on this machine.
#[derive(Debug)]
pub struct Machine {
    /// Whether our driver is bound to any adapter.
    pub adapter_bound: bool,
    pub capture: Vec<AudioDevice>,
    pub render: Vec<AudioDevice>,
    /// The format of CABLE Output, where it could be read.
    pub output_format: Option<EndpointFormat>,
    /// The format of CABLE Input, where it could be read.
    pub input_format: Option<EndpointFormat>,
    /// The endpoint Windows currently sends application audio to.
    pub default_render: Option<AudioDevice>,
}

/// No adapter belongs to this stack.
pub open spec fn adapter_problem() -> Problem {
    Problem {
        id: "adapter-not-bound"@,
        severity: Severity::Blocking,
        summary: "No Bluetooth adapter is bound to the OpenLEAudio stack."@,
        remedy: "The adapter is most likely still running on the Microsoft Bluetooth stack, where LE Audio streams cannot be configured. Open Setup, step 3, choose the adapter and press \"Switch to our stack\"."@,
        setup_action: Some("adapter-bind"@),
    }
}

/// There is no virtual cable.
pub open spec fn missing_cable_problem() -> Problem {
    Problem {
        id: "vbcable-missing"@,
        severity: Severity::Blocking,
        summary: "VB-CABLE is not installed."@,
        remedy: "OpenLEAudio reads the music Windows is playing from a virtual cable; without one there is nothing to encode. Open Setup, step 2, and press \"Install VB-CABLE\"."@,
        setup_action: Some("vbcable-install"@),
    }
}

/// The cable carries another number of channels than two.
pub open spec fn not_stereo_problem(list: Seq<char>) -> Problem {
    Problem {
        id: "vbcable-not-stereo"@,
        severity: Severity::Blocking,
        summary: "VB-CABLE is not configured as a stereo device ("@ + list + ")."@,
        remedy: "A stereo stream cannot be built from a cable carrying a different number of channels, and no conversion invents the missing one. Open Setup, step 2, and press \"Configure VB-CABLE\"."@,
        setup_action: Some("vbcable-setup"@),
    }
}

/// The cable runs at another rate than the codec.
pub open spec fn wrong_rate_problem(list: Seq<char>) -> Problem {
    Problem {
        id: "vbcable-unconfigured"@,
        severity: Severity::Warning,
        summary: "VB-CABLE is not set to "@ + decimal(REQUIRED_CABLE_RATE as nat) + " Hz ("@ + list
            + ")."@,
        remedy: "Playback still works - the rate is converted on the way through - but that is avoidable work on every frame and it slightly softens the top end. Open Setup, step 2, and press \"Configure VB-CABLE\"."@,
        setup_action: Some("vbcable-setup"@),
    }
}

/// Windows is playing to something else.
pub open spec fn not_default_problem(name: Seq<char>) -> Problem {
    Problem {
        id: "vbcable-not-default"@,
        severity: Severity::Warning,
        summary: "Windows is playing to \""@ + name + "\", not to CABLE Input."@,
        remedy: "Only audio sent to CABLE Input reaches the headphones. Either press \"Configure VB-CABLE\" in Setup to make it the default playback device, or route individual applications to it in the Windows volume mixer."@,
        setup_action: Some("vbcable-setup"@),
    }
}

/// The saved capture source no longer exists.
pub open spec fn missing_source_problem(wanted: Seq<char>) -> Problem {
    Problem {
        id: "playback-source-missing"@,
        severity: Severity::Warning,
        summary: "The selected audio source \""@ + wanted + "\" is not present."@,
        remedy: "Choose a different source under Settings, Playback. Until then playback falls back to whichever virtual cable can be found."@,
        setup_action: None,
    }
}

/// Whether a format has another number of channels than two.
pub open spec fn is_not_stereo(format: Option<EndpointFormat>) -> bool {
    format matches Some(f) && f.channels != 2
}

/// Whether a stereo format has another rate than the codec.
pub open spec fn is_wrong_rate(format: Option<EndpointFormat>) -> bool {
    format matches Some(f) && f.channels == 2 && f.sample_rate != REQUIRED_CABLE_RATE
}

/// An endpoint and its format in words.
pub open spec fn labelled(label: Seq<char>, format: EndpointFormat) -> Seq<char> {
    label + ": "@ + format_text(format)
}

/// The ends of the cable that are concerned, in words.
pub open spec fn ends_text(
    output: Option<EndpointFormat>,
    output_concerned: bool,
    input: Option<EndpointFormat>,
    input_concerned: bool,
) -> Seq<char> {
    if output_concerned && input_concerned {
        labelled("CABLE Output"@, output->0) + "; "@ + labelled("CABLE Input"@, input->0)
    } else if output_concerned {
        labelled("CABLE Output"@, output->0)
    } else {
        labelled("CABLE Input"@, input->0)
    }
}

/// A list of one problem, or of none.
pub open spec fn only_if(concerned: bool, problem: Problem) -> Seq<Problem> {
    if concerned {
        seq![problem]
    } else {
        Seq::empty()
    }
}

/// Whether the saved capture source is named and not there.
pub open spec fn source_is_missing(capture: Seq<AudioDevice>, source: Option<Seq<char>>) -> bool {
    source matches Some(wanted) && trim(wanted).len() > 0 && first_fit(Rule::Named, capture, wanted)
        >= capture.len()
}

/// Whether Windows plays to another endpoint than `cable`.
pub open spec fn plays_elsewhere(default_render: Option<AudioDevice>, cable: AudioDevice) -> bool {
    default_render is Some && default_render->0.id@ != cable.id@
}

/// What is wrong with the virtual cable.
pub open spec fn cable_problems(m: Machine, source: Option<Seq<char>>) -> Seq<Problem> {
    let input = first_fit(Rule::PlainCableRender(Hint::Cable), m.render@, ""@);
    if first_fit(Rule::PlainCable(Hint::Cable), m.capture@, ""@) >= m.capture@.len() || input
        >= m.render@.len() {
        seq![missing_cable_problem()]
    } else {
        let (a, b) = (m.output_format, m.input_format);
        only_if(
            is_not_stereo(a) || is_not_stereo(b),
            not_stereo_problem(ends_text(a, is_not_stereo(a), b, is_not_stereo(b))),
        ) + only_if(
            is_wrong_rate(a) || is_wrong_rate(b),
            wrong_rate_problem(ends_text(a, is_wrong_rate(a), b, is_wrong_rate(b))),
        ) + only_if(
            plays_elsewhere(m.default_render, m.render@[input]),
            not_default_problem(m.default_render->0.name@),
        ) + only_if(source_is_missing(m.capture@, source), missing_source_problem(source->0))
    }
}

/// Where the two ends of the cable stand in the lists, when both are there.
pub fn find_cable(capture: &[AudioDevice], render: &[AudioDevice]) -> (ends: Option<(usize, usize)>)
    ensures
        ({
            let output = first_fit(Rule::PlainCable(Hint::Cable), capture@, ""@);
            let input = first_fit(Rule::PlainCableRender(Hint::Cable), render@, ""@);
            if output < capture@.len() && input < render@.len() {
                ends matches Some(e) && e.0 == output && e.1 == input
            } else {
                ends is None
            }
        }),
{
    let output = find_first(Rule::PlainCable(Hint::Cable), capture, "");
    let input = find_first(Rule::PlainCableRender(Hint::Cable), render, "");
    match (output, input) {
        (Some(output), Some(input)) => Some((output, input)),
        _ => None,
    }
}

fn not_stereo(format: &Option<EndpointFormat>) -> (yes: bool)
    ensures
        yes == is_not_stereo(*format),
{
    match format {
        Some(f) => f.channels != 2,
        None => false,
    }
}

fn wrong_rate(format: &Option<EndpointFormat>) -> (yes: bool)
    ensures
        yes == is_wrong_rate(*format),
{
    match format {
        Some(f) => f.channels == 2 && f.sample_rate != REQUIRED_CABLE_RATE,
        None => false,
    }
}

fn push_labelled(text: &mut String, label: &str, format: &Option<EndpointFormat>)
    requires
        format is Some,
    ensures
        final(text)@ == old(text)@ + labelled(label@, format->0),
{
    text.append(label);
    text.append(": ");
    if let Some(format) = format {
        text.append(format.describe().as_str());
    }
    assert(text@ =~= old(text)@ + labelled(label@, format->0));
}

fn push_ends(
    text: &mut String,
    output: &Option<EndpointFormat>,
    output_concerned: bool,
    input: &Option<EndpointFormat>,
    input_concerned: bool,
)
    requires
        output_concerned ==> output is Some,
        input_concerned ==> input is Some,
        output_concerned || input_concerned,
    ensures
        final(text)@ == old(text)@ + ends_text(*output, output_concerned, *input, input_concerned),
{
    if output_concerned {
        push_labelled(text, "CABLE Output", output);
        if input_concerned {
            text.append("; ");
        }
    }
    if input_concerned {
        push_labelled(text, "CABLE Input", input);
    }
    assert(text@ =~= old(text)@ + ends_text(*output, output_concerned, *input, input_concerned));
}

fn add_issue(issues: &mut Vec<Issue>, issue: Issue)
    ensures
        problems(final(issues)@) == problems(old(issues)@) + seq![issue@],
{
    let ghost before = problems(issues@);
    let ghost said = issue@;
    issues.push(issue);
    assert(problems(issues@) =~= before + seq![said]);
}

fn missing_cable_issue() -> (issue: Issue)
    ensures
        issue@ == missing_cable_problem(),
{
    Issue::new(
        "vbcable-missing",
        Severity::Blocking,
        "VB-CABLE is not installed.",
        "OpenLEAudio reads the music Windows is playing from a virtual cable; without one there is nothing to encode. Open Setup, step 2, and press \"Install VB-CABLE\".",
        Some("vbcable-install"),
    )
}

fn not_stereo_issue(output: &Option<EndpointFormat>, input: &Option<EndpointFormat>) -> (issue:
    Issue)
    requires
        is_not_stereo(*output) || is_not_stereo(*input),
    ensures
        issue@ == not_stereo_problem(
            ends_text(*output, is_not_stereo(*output), *input, is_not_stereo(*input)),
        ),
{
    let mut summary = String::from_str("VB-CABLE is not configured as a stereo device (");
    push_ends(&mut summary, output, not_stereo(output), input, not_stereo(input));
    summary.append(").");
    Issue::new(
        "vbcable-not-stereo",
        Severity::Blocking,
        summary.as_str(),
        "A stereo stream cannot be built from a cable carrying a different number of channels, and no conversion invents the missing one. Open Setup, step 2, and press \"Configure VB-CABLE\".",
        Some("vbcable-setup"),
    )
}

fn wrong_rate_issue(output: &Option<EndpointFormat>, input: &Option<EndpointFormat>) -> (issue:
    Issue)
    requires
        is_wrong_rate(*output) || is_wrong_rate(*input),
    ensures
        issue@ == wrong_rate_problem(
            ends_text(*output, is_wrong_rate(*output), *input, is_wrong_rate(*input)),
        ),
{
    let mut summary = String::from_str("VB-CABLE is not set to ");
    push_decimal(&mut summary, REQUIRED_CABLE_RATE as u64);
    summary.append(" Hz (");
    push_ends(&mut summary, output, wrong_rate(output), input, wrong_rate(input));
    summary.append(").");
    Issue::new(
        "vbcable-unconfigured",
        Severity::Warning,
        summary.as_str(),
        "Playback still works - the rate is converted on the way through - but that is avoidable work on every frame and it slightly softens the top end. Open Setup, step 2, and press \"Configure VB-CABLE\".",
        Some("vbcable-setup"),
    )
}

fn not_default_issue(name: &str) -> (issue: Issue)
    ensures
        issue@ == not_default_problem(name@),
{
    let mut summary = String::from_str("Windows is playing to \"");
    summary.append(name);
    summary.append("\", not to CABLE Input.");
    Issue::new(
        "vbcable-not-default",
        Severity::Warning,
        summary.as_str(),
        "Only audio sent to CABLE Input reaches the headphones. Either press \"Configure VB-CABLE\" in Setup to make it the default playback device, or route individual applications to it in the Windows volume mixer.",
        Some("vbcable-setup"),
    )
}

fn missing_source_issue(wanted: &str) -> (issue: Issue)
    ensures
        issue@ == missing_source_problem(wanted@),
{
    let mut summary = String::from_str("The selected audio source \"");
    summary.append(wanted);
    summary.append("\" is not present.");
    Issue::new(
        "playback-source-missing",
        Severity::Warning,
        summary.as_str(),
        "Choose a different source under Settings, Playback. Until then playback falls back to whichever virtual cable can be found.",
        None,
    )
}

/// What a setting says, when there is one.
pub open spec fn opt_text(text: Option<&str>) -> Option<Seq<char>> {
    match text {
        Some(t) => Some(t@),
        None => None,
    }
}

/// Whether an adapter belonging to this stack can be found at all.
///
/// Deliberately without opening it. Opening would take the device away from a
/// session that may already be running, and the question here is only whether
/// our driver is bound to anything.
pub fn check_adapter(adapter_bound: bool) -> (issue: Option<Issue>)
    ensures
        adapter_bound ==> issue is None,
        !adapter_bound ==> issue is Some && issue->0@ == adapter_problem(),
{
    if adapter_bound {
        return None;
    }
    Some(
        Issue::new(
            "adapter-not-bound",
            Severity::Blocking,
            "No Bluetooth adapter is bound to the OpenLEAudio stack.",
            "The adapter is most likely still running on the Microsoft Bluetooth stack, where LE Audio streams cannot be configured. Open Setup, step 3, choose the adapter and press \"Switch to our stack\".",
            Some("adapter-bind"),
        ),
    )
}

/// Whether the virtual cable exists, is configured, and is being used.
///
/// Two problems of its format are different, and only one of them stops the
/// music. A channel count other than stereo cannot be worked around: no amount
/// of conversion invents a second channel. A rate other than 48 kHz is converted
/// on the way through, which works but puts a resampler in a path that does not
/// need one.
pub fn check_cable(machine: &Machine, playback_source: Option<&str>) -> (issues: Vec<Issue>)
    ensures
        problems(issues@) == cable_problems(*machine, opt_text(playback_source)),
{
    let mut issues: Vec<Issue> = Vec::new();
    assert(problems(issues@) =~= Seq::<Problem>::empty());
    let (_, input) = match find_cable(&machine.capture, &machine.render) {
        Some(ends) => ends,
        None => {
            add_issue(&mut issues, missing_cable_issue());
            assert(problems(issues@) =~= seq![missing_cable_problem()]);
            return issues;
        },
    };
    let a = &machine.output_format;
    let b = &machine.input_format;
    let ghost one = only_if(
        is_not_stereo(*a) || is_not_stereo(*b),
        not_stereo_problem(ends_text(*a, is_not_stereo(*a), *b, is_not_stereo(*b))),
    );
    let ghost two = only_if(
        is_wrong_rate(*a) || is_wrong_rate(*b),
        wrong_rate_problem(ends_text(*a, is_wrong_rate(*a), *b, is_wrong_rate(*b))),
    );
    if not_stereo(a) || not_stereo(b) {
        add_issue(&mut issues, not_stereo_issue(a, b));
    }
    assert(problems(issues@) =~= one);
    if wrong_rate(a) || wrong_rate(b) {
        add_issue(&mut issues, wrong_rate_issue(a, b));
    }
    assert(problems(issues@) =~= one + two);
    // Present and configured, but Windows is sending the music elsewhere. The
    // stream then runs perfectly and carries silence.
    let ghost three = only_if(
        plays_elsewhere(machine.default_render, machine.render@[input as int]),
        not_default_problem(machine.default_render->0.name@),
    );
    if let Some(default) = &machine.default_render {
        if !same_text(default.id.as_str(), machine.render[input].id.as_str()) {
            add_issue(&mut issues, not_default_issue(default.name.as_str()));
        }
    }
    assert(problems(issues@) =~= one + two + three);
    // The saved capture source no longer exists - a cable that was uninstalled,
    // renamed, or a device chosen on a different machine.
    if let Some(wanted) = playback_source {
        let chars = to_chars(wanted);
        if trim_chars(&chars).len() > 0 && find_first(
            Rule::Named,
            &machine.capture,
            wanted,
        ).is_none() {
            add_issue(&mut issues, missing_source_issue(wanted));
        }
    }
    assert(problems(issues@) =~= cable_problems(*machine, opt_text(playback_source)));
    issues
}

/// Those of some problems that are as severe as `severity`, in order.
pub open spec fn of_severity(list: Seq<Problem>, severity: Severity) -> Seq<Problem>
    decreases list.len(),
{
    if list.len() == 0 {
        Seq::empty()
    } else {
        let before = of_severity(list.drop_last(), severity);
        if list.last().severity == severity {
            before.push(list.last())
        } else {
            before
        }
    }
}

/// Everything that is wrong, in the order it is found.
pub open spec fn all_problems(m: Machine, source: Option<Seq<char>>) -> Seq<Problem> {
    only_if(!m.adapter_bound, adapter_problem()) + cable_problems(m, source)
}

/// Everything that is wrong right now, most serious first.
///
/// An empty result means the machine is ready. Nothing here opens a stream or
/// claims a device: this runs while audio may already be playing, and a check
/// that disturbs what it is checking is worse than no check.
pub fn check(machine: &Machine, playback_source: Option<&str>) -> (issues: Vec<Issue>)
    ensures
        ({
            let all = all_problems(*machine, opt_text(playback_source));
            problems(issues@) == of_severity(all, Severity::Blocking) + of_severity(
                all,
                Severity::Warning,
            )
        }),
{
    let ghost all = all_problems(*machine, opt_text(playback_source));
    let mut blocking: Vec<Issue> = Vec::new();
    let mut warnings: Vec<Issue> = Vec::new();
    let mut found = check_cable(machine, playback_source);
    let ghost cable = problems(found@);
    if let Some(issue) = check_adapter(machine.adapter_bound) {
        let ghost said = issue@;
        found.insert(0, issue);
        assert(problems(found@) =~= seq![said] + cable);
    }
    assert(problems(found@) =~= all);
    assert(all.take(all.len() as int) =~= all);
    let mut left = found;
    // Taken from the end, so each of the two lists is built backwards.
    assert(problems(blocking@) =~= of_severity(all.skip(all.len() as int), Severity::Blocking));
    assert(problems(warnings@) =~= of_severity(all.skip(all.len() as int), Severity::Warning));
    while left.len() > 0
        invariant
            left@.len() <= all.len(),
            problems(left@) == all.take(left@.len() as int),
            problems(blocking@) == of_severity(
                all.skip(left@.len() as int),
                Severity::Blocking,
            ),
            problems(warnings@) == of_severity(all.skip(left@.len() as int), Severity::Warning),
        decreases left@.len(),
    {
        let ghost n = left@.len() as int;
        let ghost shown = problems(left@);
        if let Some(issue) = left.pop() {
            let ghost said = issue@;
            proof {
                assert(said == shown[n - 1]);
                assert(problems(left@) =~= all.take(n - 1));
                lemma_severity_front(said, all.skip(n), Severity::Blocking);
                lemma_severity_front(said, all.skip(n), Severity::Warning);
                assert(all.skip(n - 1) =~= seq![said] + all.skip(n));
            }
            let ghost b = problems(blocking@);
            let ghost w = problems(warnings@);
            match issue.severity {
                Severity::Blocking => {
                    blocking.insert(0, issue);
                    assert(problems(blocking@) =~= seq![said] + b);
                },
                Severity::Warning => {
                    warnings.insert(0, issue);
                    assert(problems(warnings@) =~= seq![said] + w);
                },
            }
        }
    }
    assert(all.skip(0) =~= all);
    let ghost b = problems(blocking@);
    let ghost w = problems(warnings@);
    blocking.append(&mut warnings);
    assert(problems(blocking@) =~= b + w);
    blocking
}

proof fn lemma_severity_front(first: Problem, rest: Seq<Problem>, severity: Severity)
    ensures
        of_severity(seq![first] + rest, severity) == if first.severity == severity {
            seq![first] + of_severity(rest, severity)
        } else {
            of_severity(rest, severity)
        },
    decreases rest.len(),
{
    let whole = seq![first] + rest;
    if rest.len() == 0 {
        assert(whole.drop_last() =~= rest);
        assert(whole.last() == first);
        assert(of_severity(whole, severity) =~= if first.severity == severity {
            seq![first] + of_severity(rest, severity)
        } else {
            of_severity(rest, severity)
        });
    } else {
        lemma_severity_front(first, rest.drop_last(), severity);
        assert(whole.drop_last() =~= seq![first] + rest.drop_last());
        assert(whole.last() == rest.last());
        assert(of_severity(whole, severity) =~= if first.severity == severity {
            seq![first] + of_severity(rest, severity)
        } else {
            of_severity(rest, severity)
        });
    }
}

/// The first problem that nothing works with.
pub open spec fn first_blocking(all: Seq<Problem>) -> Option<Problem>
    decreases all.len(),
{
    if all.len() == 0 {
        None
    } else if all[0].severity is Blocking {
        Some(all[0])
    } else {
        first_blocking(all.skip(1))
    }
}

/// Why the adapter is not even opened, when something stands in the way: what is
/// wrong and what to do about it, in one line.
///
/// Opening an adapter that is still on the Microsoft Bluetooth stack fails with
/// words that read as a missing or broken adapter, and send people looking at
/// their hardware.
pub fn refusal(issues: &[Issue]) -> (text: Option<String>)
    ensures
        match first_blocking(problems(issues@)) {
            Some(problem) => text matches Some(own) && own@ == problem.summary + " "@
                + problem.remedy,
            None => text is None,
        },
{
    let ghost all = problems(issues@);
    let mut i: usize = 0;
    assert(all.skip(0) =~= all);
    while i < issues.len()
        invariant
            i <= issues@.len(),
            all == problems(issues@),
            first_blocking(all) == first_blocking(all.skip(i as int)),
        decreases issues@.len() - i,
    {
        assert(all.skip(i as int)[0] == issues@[i as int]@);
        assert(all.skip(i as int).skip(1) =~= all.skip(i + 1));
        if issues[i].severity == Severity::Blocking {
            let mut text = issues[i].summary.clone();
            text.append(" ");
            text.append(issues[i].remedy.as_str());
            return Some(text);
        }
        i = i + 1;
    }
    None
}

/// Whether a problem says what is wrong and what to do about it.
pub open spec fn is_actionable(p: Problem) -> bool {
    p.summary.len() > 0 && p.remedy.len() > 0
}

/// Every problem that is ever reported says what is wrong and what to do about
/// it: a warning nobody can act on teaches people to ignore the whole panel.
pub proof fn every_problem_has_a_remedy(m: Machine, source: Option<Seq<char>>, i: int)
    requires
        0 <= i < all_problems(m, source).len(),
    ensures
        is_actionable(all_problems(m, source)[i]),
{
    reveal_strlit("No Bluetooth adapter is bound to the OpenLEAudio stack.");
    reveal_strlit(
        "The adapter is most likely still running on the Microsoft Bluetooth stack, where LE Audio streams cannot be configured. Open Setup, step 3, choose the adapter and press \"Switch to our stack\".",
    );
    reveal_strlit("VB-CABLE is not installed.");
    reveal_strlit(
        "OpenLEAudio reads the music Windows is playing from a virtual cable; without one there is nothing to encode. Open Setup, step 2, and press \"Install VB-CABLE\".",
    );
    reveal_strlit("VB-CABLE is not configured as a stereo device (");
    reveal_strlit(
        "A stereo stream cannot be built from a cable carrying a different number of channels, and no conversion invents the missing one. Open Setup, step 2, and press \"Configure VB-CABLE\".",
    );
    reveal_strlit("VB-CABLE is not set to ");
    reveal_strlit(
        "Playback still works - the rate is converted on the way through - but that is avoidable work on every frame and it slightly softens the top end. Open Setup, step 2, and press \"Configure VB-CABLE\".",
    );
    reveal_strlit("Windows is playing to \"");
    reveal_strlit(
        "Only audio sent to CABLE Input reaches the headphones. Either press \"Configure VB-CABLE\" in Setup to make it the default playback device, or route individual applications to it in the Windows volume mixer.",
    );
    reveal_strlit("The selected audio source \"");
    reveal_strlit(
        "Choose a different source under Settings, Playback. Until then playback falls back to whichever virtual cable can be found.",
    );
}

// ---- What a check finds ----

/// What keeps audio from playing blocks: no adapter, no cable, a cable that is not
/// stereo. What only makes it worse warns: another rate than 48 kHz, another default
/// device, a source that is gone.
pub proof fn only_what_cannot_work_blocks(text: Seq<char>)
    ensures
        adapter_problem().severity is Blocking,
        missing_cable_problem().severity is Blocking,
        not_stereo_problem(text).severity is Blocking,
        wrong_rate_problem(text).severity is Warning,
        not_default_problem(text).severity is Warning,
        missing_source_problem(text).severity is Warning,
        REQUIRED_CABLE_RATE == 48_000,
{
}

/// A format is a problem when it is known and is not two channels at 48 kHz, and then
/// it is one problem and not two.
pub proof fn a_format_is_one_problem_at_most(format: EndpointFormat)
    ensures
        is_not_stereo(Some(format)) <==> format.channels != 2,
        is_wrong_rate(Some(format)) <==> format.channels == 2 && format.sample_rate != 48_000,
        !(is_not_stereo(Some(format)) && is_wrong_rate(Some(format))),
        !is_not_stereo(None) && !is_wrong_rate(None),
{
}

/// Whether a list has a problem of a kind.
pub open spec fn reports(list: Seq<Problem>, id: Seq<char>) -> bool {
    exists|i: int| 0 <= i < list.len() && (#[trigger] list[i]).id == id
}

/// An unbound adapter is found, whatever else is wrong, and a missing cable too; a
/// sound machine has no problem at all.
pub proof fn every_problem_is_found(m: Machine, source: Option<Seq<char>>)
    ensures
        !m.adapter_bound ==> all_problems(m, source)[0] == adapter_problem(),
        all_problems(m, source).len() == cable_problems(m, source).len() + if m.adapter_bound {
            0int
        } else {
            1int
        },
        ({
            let output = first_fit(Rule::PlainCable(Hint::Cable), m.capture@, ""@);
            let input = first_fit(Rule::PlainCableRender(Hint::Cable), m.render@, ""@);
            let there = output < m.capture@.len() && input < m.render@.len();
            let list = cable_problems(m, source);
            &&& !there ==> list == seq![missing_cable_problem()]
            &&& there ==> {
                &&& is_not_stereo(m.output_format) || is_not_stereo(m.input_format) ==> reports(
                    list,
                    "vbcable-not-stereo"@,
                )
                &&& is_wrong_rate(m.output_format) || is_wrong_rate(m.input_format) ==> reports(
                    list,
                    "vbcable-unconfigured"@,
                )
                &&& m.default_render is Some && m.default_render->0.id@ != m.render@[input].id@
                    ==> reports(list, "vbcable-not-default"@)
                &&& source is Some && trim(source->0).len() > 0 && first_fit(
                    Rule::Named,
                    m.capture@,
                    source->0,
                ) >= m.capture@.len() ==> reports(list, "playback-source-missing"@)
            }
            &&& m.adapter_bound && there && !is_not_stereo(m.output_format) && !is_not_stereo(
                m.input_format,
            ) && !is_wrong_rate(m.output_format) && !is_wrong_rate(m.input_format) && (
            m.default_render is None || m.default_render->0.id@ == m.render@[input].id@) && source
                is None ==> all_problems(m, source).len() == 0
        }),
{
    let output = first_fit(Rule::PlainCable(Hint::Cable), m.capture@, ""@);
    let input = first_fit(Rule::PlainCableRender(Hint::Cable), m.render@, ""@);
    let list = cable_problems(m, source);
    if output < m.capture@.len() && input < m.render@.len() {
        let (a, b) = (m.output_format, m.input_format);
        let one = only_if(
            is_not_stereo(a) || is_not_stereo(b),
            not_stereo_problem(ends_text(a, is_not_stereo(a), b, is_not_stereo(b))),
        );
        let two = only_if(
            is_wrong_rate(a) || is_wrong_rate(b),
            wrong_rate_problem(ends_text(a, is_wrong_rate(a), b, is_wrong_rate(b))),
        );
        let three = only_if(
            plays_elsewhere(m.default_render, m.render@[input]),
            not_default_problem(m.default_render->0.name@),
        );
        let four = only_if(source_is_missing(m.capture@, source), missing_source_problem(source->0));
        assert(list == one + two + three + four);
        if one.len() > 0 {
            assert(list[0] == one[0]);
        }
        if two.len() > 0 {
            assert(list[one.len() as int] == two[0]);
        }
        if three.len() > 0 {
            assert(list[(one.len() + two.len()) as int] == three[0]);
        }
        if four.len() > 0 {
            assert(list[(one.len() + two.len() + three.len()) as int] == four[0]);
        }
    }
}

/// Sorting by severity loses no problem and invents none, and the one that a refusal
/// gives is the first that blocks.
pub proof fn sorting_keeps_every_problem(list: Seq<Problem>, severity: Severity, p: Problem)
    ensures
        of_severity(list, severity).contains(p) <==> list.contains(p) && p.severity == severity,
        match first_blocking(list) {
            Some(first) => first.severity is Blocking && list.contains(first),
            None => forall|i: int|
                0 <= i < list.len() ==> !((#[trigger] list[i]).severity is Blocking),
        },
    decreases list.len(),
{
    lemma_first_blocking(list);
    if list.len() > 0 {
        let rest = list.drop_last();
        let last = list.last();
        sorting_keeps_every_problem(rest, severity, p);
        let before = of_severity(rest, severity);
        if rest.contains(p) {
            let i = choose|i: int| 0 <= i < rest.len() && rest[i] == p;
            assert(list[i] == p);
        }
        if list.contains(p) && p != last {
            let i = choose|i: int| 0 <= i < list.len() && list[i] == p;
            assert(rest[i] == p);
        }
        assert(list[list.len() - 1] == last);
        if before.contains(p) {
            let i = choose|i: int| 0 <= i < before.len() && before[i] == p;
            assert(before.push(last)[i] == p);
        }
        if before.push(last).contains(p) && p != last {
            let i = choose|i: int| 0 <= i < before.push(last).len() && before.push(last)[i] == p;
            assert(before[i] == p);
        }
        assert(before.push(last)[before.len() as int] == last);
    }
}

proof fn lemma_first_blocking(list: Seq<Problem>)
    ensures
        match first_blocking(list) {
            Some(first) => first.severity is Blocking && list.contains(first),
            None => forall|i: int|
                0 <= i < list.len() ==> !((#[trigger] list[i]).severity is Blocking),
        },
    decreases list.len(),
{
    if list.len() > 0 {
        if list[0].severity is Blocking {
            assert(list.contains(list[0]));
        } else {
            let rest = list.skip(1);
            lemma_first_blocking(rest);
            match first_blocking(rest) {
                Some(first) => {
                    let i = choose|i: int| 0 <= i < rest.len() && rest[i] == first;
                    assert(list[i + 1] == first);
                },
                None => {
                    assert forall|i: int| 0 <= i < list.len() implies !((
                    #[trigger] list[i]).severity is Blocking) by {
                        if i > 0 {
                            assert(list[i] == rest[i - 1]);
                        }
                    }
                },
            }
        }
    }
}

} // verus!
