use olea_core::bap::{FrameDuration, Preset, SamplingFrequency};
use olea_core::google::{choose_setting, MEDIA_ORDER};
use olea_core::preflight::{
    builder, custom_codec, custom_qos, plan, preflight_verdict, remember_qos, requested_context,
    shape, validate, with_microphone, Builder, Choices, CustomNumbers, MicrophonePlan,
    MicrophoneQuality, StreamPlan,
};
use olea_core::settings::Settings;

const NOTHING: CustomNumbers = CustomNumbers {
    rate_hz: None,
    short_frame: false,
    octets: None,
    retransmissions: None,
    max_latency_ms: None,
    presentation_delay_us: None,
};

fn base() -> StreamPlan {
    let codec = Preset::WindowsDefault.codec(false);
    StreamPlan {
        codec,
        qos: Preset::WindowsDefault.qos(&codec),
        context: 4,
        target_latency: 2,
        microphone: None,
    }
}

#[test]
fn typed_numbers_become_the_codec() {
    let numbers = CustomNumbers {
        rate_hz: Some(32_000),
        short_frame: true,
        octets: Some(80),
        retransmissions: Some(4),
        max_latency_ms: Some(30),
        presentation_delay_us: Some(25_000),
    };
    let codec = custom_codec(&numbers);
    assert_eq!(codec.sampling_frequency, SamplingFrequency(SamplingFrequency::HZ_32000));
    assert_eq!(codec.frame_duration, FrameDuration::Ms7_5);
    assert_eq!(codec.octets_per_frame, 80);
    let mut settings = Settings::default();
    settings.set("phy", "1M");
    let qos = custom_qos(&settings, &numbers);
    assert_eq!(qos.sdu_interval_us, 7_500);
    assert_eq!((qos.max_transport_latency_ms, qos.presentation_delay_us), (30, 25_000));
}

#[test]
fn choices_are_read_from_the_settings() {
    let mut settings = Settings::default();
    let plain = Choices::read(&settings);
    assert!(!plain.gaming && !plain.custom && !plain.mono && plain.microphone.is_none());
    settings.set("audio_context", "game");
    settings.set("preset", "custom");
    settings.set("audio_mode", "mono");
    settings.set("microphone_mode", "on");
    settings.set("microphone_quality", "high");
    let all = Choices::read(&settings);
    assert!(all.gaming && all.custom && all.mono);
    assert_eq!(all.microphone, Some(MicrophoneQuality::High));
}

#[test]
fn an_unsupported_context_is_refused_by_name() {
    assert_eq!(requested_context(false, None), Ok(4));
    assert_eq!(requested_context(true, Some(8)), Ok(8));
    assert_eq!(
        requested_context(true, Some(4)).unwrap_err(),
        "selected gaming mode is not supported by these headphones (supported contexts 0x0004)"
    );
    assert_eq!(
        requested_context(false, Some(0)).unwrap_err(),
        "selected media mode is not supported by these headphones (supported contexts 0x0000)"
    );
}

#[test]
fn only_a_custom_plan_takes_the_saved_numbers() {
    let mut settings = Settings::default();
    settings.set("phy", "1M");
    let numbers = CustomNumbers { retransmissions: Some(7), ..NOTHING };
    let (automatic, label) = plan(&settings, None, &numbers, Ok(base()), None).unwrap();
    assert_eq!(automatic, base());
    assert_eq!(label, "Google/Android Media");

    settings.set("preset", "custom");
    settings.set("audio_context", "game");
    let (custom, label) = plan(&settings, None, &numbers, Ok(base()), None).unwrap();
    assert_eq!((custom.qos.phy, custom.qos.retransmission_number), (1, 7));
    assert_eq!((custom.context, custom.target_latency), (8, 1));
    assert_eq!(label, "custom / gaming");
    assert_eq!(
        plan(&settings, None, &numbers, Err("x".into()), None).unwrap_err(),
        "device rejected the custom configuration: x"
    );
    assert_eq!(
        plan(&Settings::default(), None, &numbers, Err("x".into()), None).unwrap_err(),
        "stream could not be scheduled: x"
    );
}

#[test]
fn a_later_choice_says_which_one_it_is() {
    let chosen = choose_setting(&MEDIA_ORDER(), &[], false);
    assert!(chosen.is_none());
}

#[test]
fn a_microphone_is_added_or_explained() {
    let mic = MicrophonePlan { ase_id: 3, cis_id: 1, codec: base().codec, qos: base().qos };
    let both = with_microphone(base(), Ok(mic)).unwrap();
    assert_eq!(both.microphone, Some(mic));
    assert_eq!(
        with_microphone(base(), Err("x".into())).unwrap_err(),
        "headset microphone could not be configured: x"
    );
}

#[test]
fn only_what_was_asked_for_shapes_a_plan() {
    let mono = StreamPlan { target_latency: 9, ..base() };
    let mic = MicrophonePlan { ase_id: 5, cis_id: 1, codec: base().codec, qos: base().qos };
    let mut choices = Choices::read(&Settings::default());
    assert_eq!(shape(&choices, base(), mono, Err("none".into())), Ok(base()));
    choices.mono = true;
    assert_eq!(shape(&choices, base(), mono, Ok(mic)), Ok(mono));
    choices.microphone = Some(MicrophoneQuality::Voice);
    assert_eq!(
        shape(&choices, base(), mono, Ok(mic)),
        Ok(StreamPlan { microphone: Some(mic), ..mono })
    );
    assert_eq!(
        shape(&choices, base(), mono, Err("none".into())),
        Err("headset microphone could not be configured: none".to_string())
    );
}

#[test]
fn a_plan_that_breaks_a_limit_is_refused() {
    assert!(validate(&base(), None, None, None).is_ok());
    assert_eq!(validate(&base(), Some("too loud"), None, None).unwrap_err(), "too loud");
    assert_eq!(validate(&base(), None, None, Some("no write")).unwrap_err(), "no write");
    let mut odd = base();
    odd.qos.phy = 3;
    assert_eq!(validate(&odd, None, None, None).unwrap_err(), "only 1M and 2M are supported");
    let mut odd = base();
    odd.qos.max_sdu = 1;
    assert_eq!(
        validate(&odd, None, None, None).unwrap_err(),
        "SDU size does not match the selected codec"
    );
    let mut odd = base();
    odd.qos.presentation_delay_us = 0x100_0000;
    assert_eq!(
        validate(&odd, None, None, None).unwrap_err(),
        "presentation delay is outside the protocol range"
    );
    let mic = MicrophonePlan { ase_id: 3, cis_id: 1, codec: base().codec, qos: odd.qos };
    let with = StreamPlan { microphone: Some(mic), ..base() };
    assert!(validate(&with, None, None, None).is_err());
    assert_eq!(validate(&with, None, Some("mic"), None).unwrap_err(), "mic");
}

#[test]
fn known_bounds_are_held_against_a_custom_plan() {
    assert!(preflight_verdict(None, Err("x".into()), true)
        .unwrap()
        .starts_with("Device capabilities are not known yet"));
    let entries = remember_qos(&vec![], &base(), 20_000, 37_500, Some(60));
    assert_eq!(
        preflight_verdict(Some(&entries), Ok(base()), true).unwrap_err(),
        "Presentation delay: selected 40 ms; headset permits 20–37.5 ms for this codec and PHY"
    );
    let entries = remember_qos(&entries, &base(), 20_000, 40_000, Some(60));
    assert_eq!(entries.len(), 1, "the newest bounds replace the old ones");
    assert_eq!(
        preflight_verdict(Some(&entries), Ok(base()), true).unwrap_err(),
        "Transport latency exceeds the headset limit of 60 ms"
    );
    let entries = remember_qos(&entries, &base(), 20_000, 40_000, None);
    assert!(preflight_verdict(Some(&entries), Ok(base()), true)
        .unwrap()
        .contains("known QoS bounds passed"));
    assert!(preflight_verdict(Some(&entries), Ok(base()), false)
        .unwrap()
        .contains("still requires negotiation"));
    assert_eq!(preflight_verdict(Some(&entries), Err("x".into()), true).unwrap_err(), "x");
}

#[test]
fn old_combinations_make_room() {
    let mut entries = vec![];
    for context in 0..70u16 {
        entries = remember_qos(&entries, &StreamPlan { context, ..base() }, 1, 2, None);
    }
    assert_eq!(entries.len(), 64);
    assert_eq!(entries[0].context, 6);
    assert_eq!(entries[63].context, 69);
}

#[test]
fn only_a_typed_configuration_leaves_the_lists() {
    let mut settings = Settings::default();
    assert_eq!(builder(&settings, &NOTHING), Builder::Media);
    settings.set("preset", "windows");
    assert_eq!(builder(&settings, &NOTHING), Builder::Media);
    settings.set("audio_context", "game");
    assert_eq!(builder(&settings, &NOTHING), Builder::Game);
    settings.set("preset", "custom");
    assert_eq!(
        builder(&settings, &NOTHING),
        Builder::Custom {
            codec: custom_codec(&NOTHING),
            qos: custom_qos(&settings, &NOTHING),
        }
    );
}
