use olea_core::reconnect::{
    audio_recovery, audio_recovery_policy, connection_authorized,
    deterministic_configuration_error, loss_text, policy_from, worth_reconnecting, Attempt,
    ConnectLoop, Decision, Next, Outcome, ReconnectPolicy, Recovery, Stop, Waiting, FIRST_PAUSE,
    FIRST_WINDOW, SHORT_PAUSE,
};
use olea_core::settings::{
    apply_setting_change, numeric_range, Judged, NumberCheck, Settings,
};

/// Every setting these tests change.
const KNOWN: [&str; 5] = [
    "reconnect_enabled",
    "audio_recovery_enabled",
    "audio_recovery_interval_s",
    "audio_recovery_window_min",
    "acl_phy",
];

fn change(settings: &mut Settings, key: &str, value: &str) -> Result<Vec<String>, String> {
    let number = match numeric_range(key) {
        Some((min, max)) => match value.parse::<f32>() {
            Ok(n) if n.is_finite() && n >= min as f32 && n <= max as f32 => NumberCheck::Inside,
            Ok(_) => NumberCheck::Outside,
            Err(_) => NumberCheck::NotANumber,
        },
        None => NumberCheck::NotANumber,
    };
    let judged = Judged { metrics_level: false, command_style: false, number };
    apply_setting_change(settings, &KNOWN, key, value, judged)
}

/// The policy that the settings stand for, with their numbers in milliseconds.
fn recovery_of(settings: &Settings) -> ReconnectPolicy {
    let number = |key: &str| settings.get(key).and_then(|text| text.parse::<f32>().ok());
    audio_recovery_policy(
        settings.switch("audio_recovery_enabled"),
        number("audio_recovery_interval_s").map(|seconds| (seconds * 1_000.0) as u64),
        number("audio_recovery_window_min").map(|minutes| {
            if minutes > 0.0 {
                Some((minutes * 60_000.0) as u64)
            } else {
                None
            }
        }),
    )
}

const ENDLESS: ReconnectPolicy = ReconnectPolicy { enabled: true, interval: 5_000, window: None };

const OFF: ReconnectPolicy = ReconnectPolicy { enabled: false, interval: 5_000, window: None };

#[test]
fn radio_loss_is_retryable_but_invalid_custom_codec_is_not() {
    assert!(!deterministic_configuration_error(
        "connection failed: connection attempt did not complete"
    ));
    assert!(deterministic_configuration_error(
        "device rejected the custom configuration: unsupported rate"
    ));
}

#[test]
fn approval_is_consumed_even_when_the_next_attempt_is_a_reconnect() {
    let mut approved = true;
    assert!(connection_authorized(false, &mut approved));
    assert!(!connection_authorized(false, &mut approved));
}

#[test]
fn removing_a_star_requires_a_new_approval() {
    let mut approved = false;
    assert!(connection_authorized(true, &mut approved));
    assert!(connection_authorized(true, &mut approved));
    assert!(!connection_authorized(false, &mut approved));
}

#[test]
fn audio_recovery_is_unlimited_by_default_and_independent_of_acl_reconnect() {
    let mut settings = Settings::default();
    settings.set("reconnect_enabled", "false");
    assert!(recovery_of(&settings).should_retry(86_400_000));
    change(&mut settings, "audio_recovery_window_min", "2").unwrap();
    assert!(recovery_of(&settings).should_retry(119_000));
    assert!(!recovery_of(&settings).should_retry(120_000));
    change(&mut settings, "audio_recovery_enabled", "false").unwrap();
    assert!(!recovery_of(&settings).should_retry(0));
}

#[test]
fn audio_recovery_follows_its_own_window_and_switch() {
    assert!(audio_recovery_policy(None, None, None).should_retry(86_400_000));
    let two_minutes = audio_recovery_policy(None, None, Some(Some(120_000)));
    assert!(two_minutes.should_retry(119_000));
    assert!(!two_minutes.should_retry(120_000));
    let off = audio_recovery_policy(Some(false), None, Some(Some(120_000)));
    assert!(!off.should_retry(0));
}

#[test]
fn new_settings_are_validated_and_recovery_applies_immediately() {
    let mut settings = Settings::default();
    assert!(change(&mut settings, "audio_recovery_interval_s", "0").is_err());
    assert!(change(&mut settings, "audio_recovery_window_min", "NaN").is_err());
    assert!(change(&mut settings, "acl_phy", "Coded").is_err());
    change(&mut settings, "audio_recovery_interval_s", "5").unwrap();
    assert_eq!(recovery_of(&settings).interval, 5_000);
}

#[test]
fn the_recovery_interval_is_kept_in_range() {
    assert_eq!(audio_recovery_policy(None, Some(5_000), None).interval, 5_000);
    assert_eq!(audio_recovery_policy(None, None, None).interval, 2_000);
    assert_eq!(audio_recovery_policy(None, Some(0), None).interval, 1_000);
    assert_eq!(audio_recovery_policy(None, Some(90_000), None).interval, 60_000);
}

#[test]
fn what_is_not_set_comes_from_the_defaults() {
    assert_eq!(policy_from(None, None, None, &ENDLESS), ENDLESS);
    assert_eq!(
        policy_from(Some(false), Some(3), Some(Some(7)), &ENDLESS),
        ReconnectPolicy { enabled: false, interval: 1_000, window: Some(7) }
    );
}

#[test]
fn every_saved_choice_that_cannot_work_is_told_apart() {
    for error in [
        "selected gaming mode is not supported by this device",
        "selected media mode is not supported by this device",
        "stream could not be scheduled: busy",
        "headset microphone could not be configured: no",
        "custom transport latency exceeds headset limit of 20 ms",
    ] {
        assert!(deterministic_configuration_error(error), "{error}");
    }
    for error in ["", "stream", "QoS write failed: gone"] {
        assert!(!deterministic_configuration_error(error), "{error}");
    }
}

#[test]
fn the_first_attempt_listens_longest_and_the_second_is_announced() {
    let mut state = ConnectLoop::new(3, 100, true);
    assert_eq!(
        state.begin_attempt(false, &ENDLESS),
        Ok(Attempt { number: 1, announced: false, window: FIRST_WINDOW })
    );
    // The confirmation is gone.
    assert_eq!(state.begin_attempt(false, &ENDLESS), Err(Stop::NeedsConfirmation));
    assert_eq!(state.attempt, 1);
    assert_eq!(
        state.begin_attempt(true, &ENDLESS),
        Ok(Attempt { number: 2, announced: true, window: 5_000 })
    );
    let hasty = ReconnectPolicy { interval: 1_000, ..ENDLESS };
    assert_eq!(state.begin_attempt(true, &hasty).unwrap().window, 1_500);
    let patient = ReconnectPolicy { interval: 60_000, ..ENDLESS };
    assert_eq!(state.begin_attempt(true, &patient).unwrap().window, 20_000);
}

#[test]
fn a_round_stops_for_a_newer_command_an_unpaired_device_or_a_switched_off_policy() {
    let mut state = ConnectLoop::new(3, 0, true);
    assert_eq!(state.check_round(3, false, &OFF), None);
    assert_eq!(state.check_round(4, true, &ENDLESS), Some(Stop::Superseded));
    state.attempt = 1;
    assert_eq!(state.check_round(3, false, &ENDLESS), Some(Stop::Unpaired));
    assert_eq!(state.check_round(3, true, &OFF), None);
    state.attempt = 2;
    assert_eq!(state.check_round(3, true, &OFF), Some(Stop::Disabled));
    assert_eq!(state.check_round(3, true, &ENDLESS), None);
}

#[test]
fn failures_are_retried_once_and_then_by_policy() {
    let failed = Outcome::Failed { deterministic: false };
    let mut state = ConnectLoop::new(0, 0, true);
    state.attempt = 1;
    assert_eq!(
        state.after_attempt(failed, &OFF, false, 10),
        Decision { started: false, next: Next::Again { pause: FIRST_PAUSE } }
    );
    state.attempt = 2;
    assert_eq!(
        state.after_attempt(failed, &OFF, false, 20),
        Decision { started: false, next: Next::Report }
    );
    assert_eq!(
        state.after_attempt(failed, &ENDLESS, true, 30),
        Decision { started: true, next: Next::Retry { pause: 5_000 } }
    );
    assert_eq!(state.retrying_since, 30);
    state.attempt = 3;
    assert_eq!(
        state.after_attempt(failed, &ENDLESS, false, 40),
        Decision { started: false, next: Next::Retry { pause: SHORT_PAUSE } }
    );
    let short = ReconnectPolicy { window: Some(15), ..ENDLESS };
    assert_eq!(state.after_attempt(failed, &short, false, 44).next, Next::Retry { pause: 400 });
    assert_eq!(state.after_attempt(failed, &short, false, 45).next, Next::Expired);
    assert_eq!(
        state.after_attempt(Outcome::Failed { deterministic: true }, &ENDLESS, true, 50).next,
        Next::Report
    );
}

#[test]
fn a_lost_link_starts_over_and_a_stop_ends_it() {
    let mut state = ConnectLoop::new(0, 0, false);
    state.attempt = 5;
    let lost = Outcome::Lost { worth_reconnecting: true };
    assert_eq!(
        state.after_attempt(lost, &ENDLESS, true, 99),
        Decision { started: true, next: Next::Retry { pause: 5_000 } }
    );
    assert_eq!((state.attempt, state.retrying_since), (0, 99));
    assert_eq!(
        state.after_attempt(lost, &OFF, true, 100),
        Decision { started: false, next: Next::Finish }
    );
    let gone = Outcome::Lost { worth_reconnecting: false };
    assert_eq!(state.after_attempt(gone, &ENDLESS, true, 1).next, Next::Finish);
    assert_eq!(state.after_attempt(Outcome::Stopped, &ENDLESS, true, 1).next, Next::Finish);
}

#[test]
fn a_loss_is_described_by_its_reason() {
    assert!(loss_text(0x08, true).starts_with("connection lost: "));
    assert!(loss_text(0x13, false).starts_with("connection ended: "));
    assert!(loss_text(0x13, false).ends_with(" - not reconnecting"));
}

#[test]
fn audio_is_rebuilt_after_the_interval_and_only_when_it_is_offered() {
    let waiting = Waiting {
        interrupted: false,
        policy: ENDLESS,
        elapsed: 9_000,
        waited: 5_000,
        lost: None,
        yields: true,
        media_available: true,
    };
    assert_eq!(audio_recovery(&waiting), Recovery::Rebuild);
    assert_eq!(audio_recovery(&Waiting { waited: 4_999, ..waiting }), Recovery::Wait);
    assert_eq!(audio_recovery(&Waiting { media_available: false, ..waiting }), Recovery::Wait);
    assert_eq!(
        audio_recovery(&Waiting { media_available: false, yields: false, ..waiting }),
        Recovery::Rebuild
    );
    assert_eq!(audio_recovery(&Waiting { lost: Some(8), ..waiting }), Recovery::Lost(8));
    assert_eq!(audio_recovery(&Waiting { policy: OFF, ..waiting }), Recovery::Stopped);
    assert_eq!(audio_recovery(&Waiting { interrupted: true, ..waiting }), Recovery::Abandoned);
}

#[test]
fn a_link_that_was_ended_on_purpose_stays_ended() {
    for reason in [0x13, 0x14, 0x15, 0x16] {
        assert!(!worth_reconnecting(reason));
    }
    for reason in [0x08, 0x12, 0x17, 0x22, 0x3E] {
        assert!(worth_reconnecting(reason));
    }
}
