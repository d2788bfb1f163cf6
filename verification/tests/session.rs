use olea_core::controller::ControllerError;
use olea_core::reconnect::ReconnectPolicy;
use olea_core::session::{
    adapter_failed, audio_lost, battery_poll, is_favorite, microphone_target, saved_key_rejected,
    ConnectionConfig, Defaults, SessionError, Values,
};
use olea_core::settings::Settings;

const NOTHING: Values = Values {
    monitor_enabled: None,
    yield_enabled: None,
    reconnect_enabled: None,
    reconnect_interval: None,
    reconnect_window: None,
    idle_timeout: None,
    link_timeout: None,
    battery_poll: None,
    idle_link_latency: None,
};

const DEFAULTS: Defaults =
    Defaults { reconnect_interval: 5_000, reconnect_window: Some(900_000), idle_timeout: Some(1) };

#[test]
fn transient_encryption_errors_never_invalidate_a_bond() {
    for status in [0x05, 0x06] {
        assert!(saved_key_rejected(&SessionError::Controller(
            ControllerError::EncryptionRejected { status }
        )));
    }
    for status in [0x08, 0x0c, 0x1f] {
        assert!(!saved_key_rejected(&SessionError::Controller(
            ControllerError::EncryptionRejected { status }
        )));
    }
    assert!(!saved_key_rejected(&SessionError::Controller(ControllerError::EventTimeout)));
    assert!(!saved_key_rejected(&SessionError::EncryptionFailed));
    assert!(!saved_key_rejected(&SessionError::Transport("unplugged".into())));
}

#[test]
fn the_battery_is_asked_for_as_often_as_the_settings_say() {
    assert_eq!(battery_poll(Some(0)), None);
    assert_eq!(battery_poll(Some(59_999)), None);
    assert_eq!(battery_poll(Some(300_000)), Some(300_000));
    assert_eq!(battery_poll(None), Some(900_000));
    assert_eq!(battery_poll(Some(9_000_000)), Some(7_200_000));
}

#[test]
fn only_audio_errors_are_rebuilt_over_the_same_connection() {
    assert!(audio_lost(&SessionError::AudioDisconnected));
    assert!(audio_lost(&SessionError::IsoPath));
    assert!(!audio_lost(&SessionError::Other));
    assert!(adapter_failed(&SessionError::AdapterSilent));
    assert!(adapter_failed(&SessionError::Transport("gone".into())));
    assert!(adapter_failed(&SessionError::BatteryReadTimeout));
    assert!(!adapter_failed(&SessionError::AudioDisconnected));
}

#[test]
fn a_microphone_target_names_its_cable() {
    let mut settings = Settings::default();
    assert_eq!(microphone_target(&settings), None);
    for (value, device) in [
        ("vb-cable", Some("CABLE Input")),
        ("vb-cable-a", Some("CABLE-A Input")),
        ("vb-cable-b", Some("CABLE-B Input")),
        ("none", None),
    ] {
        settings.set("microphone_target", value);
        assert_eq!(microphone_target(&settings), device);
    }
}

#[test]
fn unset_values_fall_back() {
    let config = ConnectionConfig::read(&Settings::default(), &NOTHING, &DEFAULTS);
    assert_eq!(
        config,
        ConnectionConfig {
            audio_device: None,
            microphone_target: None,
            monitor_source: None,
            monitor_replace: false,
            idle_timeout: Some(1),
            link_timeout: 10_000,
            battery_poll: Some(900_000),
            idle_link_latency: 0,
            yield_when_asked: false,
            reconnect: ReconnectPolicy {
                enabled: true,
                interval: 5_000,
                window: Some(900_000)
            },
        }
    );
}

#[test]
fn values_that_no_controller_accepts_are_brought_into_range() {
    let mut settings = Settings::default();
    settings.set("playback_source", "cable");
    settings.set("monitor_mode", "replace");
    let values = Values {
        monitor_enabled: Some(true),
        link_timeout: Some(90_000),
        idle_link_latency: Some(500),
        idle_timeout: Some(None),
        yield_enabled: Some(true),
        reconnect_enabled: Some(false),
        ..NOTHING
    };
    let config = ConnectionConfig::read(&settings, &values, &DEFAULTS);
    assert_eq!(config.audio_device.as_deref(), Some("cable"));
    assert_eq!(config.monitor_source.as_deref(), Some("default"));
    assert!(config.monitor_replace && config.yield_when_asked);
    assert_eq!(config.link_timeout, 30_000);
    assert_eq!(config.idle_link_latency, 30);
    assert_eq!(config.idle_timeout, None);
    assert!(!config.reconnect.enabled);
    let slow = Values { link_timeout: Some(1), ..NOTHING };
    assert_eq!(ConnectionConfig::read(&settings, &slow, &DEFAULTS).link_timeout, 2_000);
}

#[test]
fn a_favourite_is_found_in_either_case() {
    let items = vec!["7C:FE:62:72:B4:9A".to_string()];
    assert!(is_favorite(&items, "7c:fe:62:72:b4:9a"));
    assert!(!is_favorite(&items, "AA:BB:CC:DD:EE:FF"));
    assert!(!is_favorite(&[], "7C:FE:62:72:B4:9A"));
}
