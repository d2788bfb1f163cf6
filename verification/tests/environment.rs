use olea_core::audio::{AudioDevice, EndpointFormat};
use olea_core::environment::{check, refusal, Issue, Machine, Severity};

#[test]
fn severity_names_are_what_the_app_matches_on() {
    assert_eq!(Severity::Blocking.as_str(), "error");
    assert_eq!(Severity::Warning.as_str(), "warning");
}

#[test]
fn every_issue_says_what_to_do_about_it() {
    // A warning with no remedy is a warning nobody can act on, which is
    // worse than silence: it teaches people to ignore the whole panel.
    let issue = Issue::new(
        "example",
        Severity::Warning,
        "something is wrong",
        "press the button",
        None,
    );

    assert!(!issue.summary.is_empty());
    assert!(!issue.remedy.is_empty());
}

fn device(name: &str) -> AudioDevice {
    AudioDevice { id: name.to_lowercase(), name: name.into() }
}

fn machine() -> Machine {
    let format = EndpointFormat { sample_rate: 48_000, channels: 2, bits_per_sample: 16 };
    Machine {
        adapter_bound: true,
        capture: vec![device("CABLE Output (VB-Audio Virtual Cable)")],
        render: vec![device("CABLE Input (VB-Audio Virtual Cable)")],
        output_format: Some(format),
        input_format: Some(format),
        default_render: Some(device("CABLE Input (VB-Audio Virtual Cable)")),
    }
}

#[test]
fn a_healthy_machine_has_no_issues() {
    let issues = check(&machine(), None);
    assert!(issues.is_empty(), "{:?}", issues.iter().map(|i| i.id).collect::<Vec<_>>());
    assert_eq!(refusal(&issues), None);
}

#[test]
fn what_blocks_comes_first_and_is_refused() {
    let mut bad = machine();
    bad.adapter_bound = false;
    bad.default_render = Some(device("Speakers"));
    let issues = check(&bad, None);
    assert_eq!(issues[0].id, "adapter-not-bound");
    assert!(issues.iter().skip(1).all(|i| i.severity == Severity::Warning));
    let text = refusal(&issues).unwrap();
    assert!(text.starts_with("No Bluetooth adapter is bound to the OpenLEAudio stack. The adapter"));
    bad.adapter_bound = true;
    assert_eq!(refusal(&check(&bad, None)), None);
}

#[test]
fn a_cable_that_is_missing_or_misconfigured_is_reported() {
    let mut bad = machine();
    bad.capture.clear();
    assert!(check(&bad, None).iter().any(|i| i.id == "vbcable-missing"));
    let mut bad = machine();
    bad.output_format =
        Some(EndpointFormat { sample_rate: 48_000, channels: 8, bits_per_sample: 16 });
    assert!(check(&bad, None).iter().any(|i| i.severity == Severity::Blocking));
    let mut bad = machine();
    bad.output_format =
        Some(EndpointFormat { sample_rate: 44_100, channels: 2, bits_per_sample: 16 });
    let issues = check(&bad, None);
    assert!(!issues.is_empty() && issues.iter().all(|i| i.severity == Severity::Warning));
    assert!(!check(&machine(), Some("nowhere")).is_empty());
}
