use olea_core::google::GAME_ORDER;
use olea_core::settings::{
    apply_setting_change, numeric_range, Judged, NumberCheck, Settings,
};

/// Every setting these tests speak of.
const KNOWN: [&str; 14] = [
    "preset",
    "audio_context",
    "octets",
    "reconnect_interval_s",
    "reconnect_enabled",
    "audio_recovery_enabled",
    "audio_recovery_interval_s",
    "audio_recovery_window_min",
    "acl_phy",
    "microphone_mode",
    "monitor_source",
    "link_metrics",
    "command_style",
    "balance",
];

fn change(settings: &mut Settings, key: &str, value: &str) -> Result<Vec<String>, String> {
    let number = match numeric_range(key) {
        Some((min, max)) => match value.parse::<f32>() {
            Ok(n) if n.is_finite() && n >= min as f32 && n <= max as f32 => NumberCheck::Inside,
            Ok(_) => NumberCheck::Outside,
            Err(_) => NumberCheck::NotANumber,
        },
        None => NumberCheck::NotANumber,
    };
    let judged = Judged {
        metrics_level: value == "off" || value == "full",
        command_style: value == "class-device",
        number,
    };
    apply_setting_change(settings, &KNOWN, key, value, judged)
}

fn automatic() -> Settings {
    let mut settings = Settings::default();
    settings.set("preset", "google");
    settings.set("audio_context", "media");
    settings
}

#[test]
fn every_choice_the_interface_offers_is_accepted() {
    for value in ["google", "custom"] {
        let mut settings = Settings::default();
        change(&mut settings, "preset", value)
            .unwrap_or_else(|e| panic!("the panel offers {value:?} and the agent said: {e}"));
    }
}

#[test]
fn a_profile_from_version_one_still_opens() {
    for value in ["windows", "high-quality", "low-latency", "robust"] {
        let mut settings = Settings::default();
        change(&mut settings, "preset", value)
            .unwrap_or_else(|e| panic!("a saved {value:?} profile failed to load: {e}"));

        // Those presets no longer exist, so the value must not stay behind
        // pointing at one. Anything that is not custom means Android.
        assert_eq!(
            settings.get("preset"),
            Some("google"),
            "{value:?} should have been migrated to the Android path"
        );
    }
}

#[test]
fn choosing_google_puts_androids_first_choice_on_screen() {
    let mut settings = Settings::default();
    settings.set("rate_hz", "48000");
    settings.set("frame_ms", "7.5");
    settings.set("octets", "90");

    change(&mut settings, "preset", "google").expect("google is a valid choice");

    assert_eq!(settings.get("rate_hz"), Some("48000"));
    assert_eq!(settings.get("frame_ms"), Some("10"), "48_4 is a 10 ms setting");
    assert_eq!(settings.get("octets"), Some("120"), "48_4 carries 120 octets");
}

#[test]
fn custom_leaves_the_codec_values_alone() {
    // Custom is the user's to set, so selecting it must not overwrite what
    // they typed.
    let mut settings = Settings::default();
    settings.set("rate_hz", "32000");
    settings.set("frame_ms", "7.5");
    settings.set("octets", "80");

    change(&mut settings, "preset", "custom").expect("custom is a valid choice");

    assert_eq!(settings.get("rate_hz"), Some("32000"));
    assert_eq!(settings.get("frame_ms"), Some("7.5"));
    assert_eq!(settings.get("octets"), Some("80"));
    assert_eq!(settings.get("preset"), Some("custom"));
}

#[test]
fn switching_to_google_and_back_to_custom_is_not_a_one_way_door() {
    // Going Google, then Custom, then Google again has to end up where the
    // first Google left it - not stuck on whatever custom was edited to.
    let mut settings = Settings::default();

    change(&mut settings, "preset", "google").unwrap();
    let google_octets = settings.get("octets").map(str::to_string);

    change(&mut settings, "preset", "custom").unwrap();
    change(&mut settings, "octets", "75").unwrap();
    assert_eq!(settings.get("octets"), Some("75"));

    change(&mut settings, "preset", "google").unwrap();
    assert_eq!(settings.get("octets").map(str::to_string), google_octets);
}

#[test]
fn gaming_mode_uses_androids_game_head_and_remains_automatic() {
    let mut settings = automatic();
    change(&mut settings, "audio_context", "game").unwrap();

    let head = GAME_ORDER()[0].setting;
    assert_eq!(settings.get("preset"), Some("google"));
    assert_eq!(settings.get("audio_context"), Some("game"));
    assert_eq!(
        settings.get("rate_hz").and_then(|value| value.parse().ok()),
        head.sampling_frequency.hz()
    );
    assert_eq!(
        settings.get("octets").and_then(|value| value.parse().ok()),
        Some(head.octets_per_frame)
    );
}

#[test]
fn malformed_or_out_of_range_settings_are_rejected_before_save() {
    let mut settings = automatic();
    assert!(change(&mut settings, "reconnect_interval_s", "0").is_err());
    assert!(change(&mut settings, "octets", "NaN").is_err());
    assert!(change(&mut settings, "audio_context", "unknown").is_err());
    assert!(change(&mut settings, "not_a_setting", "1").is_err());
}

#[test]
fn every_refusal_says_why_and_changes_nothing() {
    let cases = [
        ("not_a_setting", "1", "unknown setting 'not_a_setting'"),
        ("preset", "loud", "unknown stream configuration"),
        ("audio_context", "film", "unknown audio context"),
        ("acl_phy", "Coded", "ACL PHY must be auto, 1M or 2M"),
        ("link_metrics", "loud", "unknown radio monitoring level"),
        ("command_style", "loud", "unknown HCI command addressing mode"),
        ("octets", "many", "octets must be a number"),
        ("octets", "19", "octets must be between 20 and 400"),
        ("balance", "51", "balance must be between -50 and 50"),
        ("audio_recovery_enabled", "maybe", "boolean setting must be true or false"),
        ("monitor_source", "a\nb", "setting value is too long or contains a line break"),
    ];
    for (key, value, refusal) in cases {
        let mut settings = automatic();
        assert_eq!(change(&mut settings, key, value), Err(refusal.to_string()));
        assert_eq!(settings.get("preset"), Some("google"));
        assert_eq!(settings.get(key), automatic().get(key));
    }
    let long = "x".repeat(513);
    assert!(change(&mut automatic(), "monitor_source", &long).is_err());
    assert!(change(&mut automatic(), "monitor_source", &long[1..]).is_ok());
}

#[test]
fn switching_the_microphone_off_stops_monitoring_it() {
    let mut settings = automatic();
    change(&mut settings, "monitor_source", "headset").unwrap();
    change(&mut settings, "microphone_mode", "off").unwrap();
    assert_eq!(settings.get("monitor_source"), Some("default"));
}

#[test]
fn the_automatic_choice_shows_all_of_its_numbers() {
    let mut settings = automatic();
    change(&mut settings, "preset", "google").unwrap();
    assert_eq!(settings.get("phy"), Some("2M"));
    assert!(settings.get("retransmissions").is_some());
    assert!(settings.get("max_latency_ms").is_some());
    assert_eq!(settings.get("presentation_delay_ms"), Some("40"));
}

#[test]
fn a_change_names_every_setting_it_touched() {
    let mut settings = automatic();
    assert_eq!(change(&mut settings, "monitor_source", "headset"), Ok(vec!["monitor_source".into()]));
    assert_eq!(change(&mut settings, "monitor_source", "headset"), Ok(vec![]));
    assert_eq!(
        change(&mut settings, "microphone_mode", "off"),
        Ok(vec!["microphone_mode".into(), "monitor_source".into()])
    );
    // A preset that is gone lands on the automatic one, which it was already.
    assert_eq!(change(&mut settings, "preset", "windows"), Ok(vec!["octets".into()]));
}

#[test]
fn a_switch_is_read_in_both_spellings() {
    let mut settings = Settings::default();
    assert_eq!(settings.switch("swap_channels"), None);
    for (text, on) in [
        ("true", Some(true)),
        ("1", Some(true)),
        ("yes", Some(true)),
        ("false", Some(false)),
        ("0", Some(false)),
        ("ne", Some(false)),
        ("maybe", None),
    ] {
        settings.set("swap_channels", text);
        assert_eq!(settings.switch("swap_channels"), on);
    }
}
