use olea_core::bap::{
    CodecCapabilities, ConfigRejection, FrameDuration, PacRecord, Preset, SamplingFrequency,
};
use olea_core::google::{BapSetting, Chosen, QosProfile};
use olea_core::options::{
    after_phase, check_custom, custom_codec, describe_choice, has_flag, kbps, parse_preset,
    plan_source, value_of, with_codec, Follows, Phase, PlanSource, Unusable,
};

fn args(line: &str) -> Vec<String> {
    line.split_whitespace().map(str::to_string).collect()
}

#[test]
fn a_value_stands_behind_its_flag() {
    let given = args("--stream --device JBL --gain");
    assert!(has_flag(&given, "--stream") && !has_flag(&given, "--wait"));
    assert_eq!(value_of(&given, "--device"), Some("JBL"));
    assert_eq!(value_of(&given, "--gain"), None);
    assert_eq!(value_of(&given, "--rate"), None);
    // The first one counts.
    assert_eq!(value_of(&args("--gain 1 --gain 2"), "--gain"), Some("1"));
}

#[test]
fn presets_have_names() {
    assert_eq!(parse_preset(&args("--preset low-latency")), Preset::LowLatency);
    assert_eq!(parse_preset(&args("--preset high-quality")), Preset::HighQuality);
    assert_eq!(parse_preset(&args("--preset robust")), Preset::Robust);
    assert_eq!(parse_preset(&args("--preset loud")), Preset::WindowsDefault);
    assert_eq!(parse_preset(&[]), Preset::WindowsDefault);
}

#[test]
fn a_typed_configuration_is_taken_as_it_is() {
    let codec = custom_codec(&args("--rate 48000 --octets 155")).unwrap();
    assert_eq!(codec.sampling_frequency, SamplingFrequency(SamplingFrequency::HZ_48000));
    assert_eq!(codec.frame_duration, FrameDuration::Ms10);
    assert_eq!((codec.octets_per_frame, codec.frames_per_sdu), (155, 2));
    assert_eq!(codec.channel_allocation, 3);
    let short = custom_codec(&args("--rate 16000 --octets 40 --frame 7.5")).unwrap();
    assert_eq!(short.frame_duration, FrameDuration::Ms7_5);
    for line in [
        "--rate 37000 --octets 40",
        "--rate 48000",
        "--octets 40",
        "--rate fast --octets 40",
        "--rate 48000 --octets 70000",
    ] {
        assert!(custom_codec(&args(line)).is_none(), "{line}");
    }
}

fn record(coding_format: u8) -> PacRecord {
    PacRecord {
        coding_format,
        company_id: 0,
        vendor_codec_id: 0,
        capabilities: CodecCapabilities {
            sampling_frequencies: vec![SamplingFrequency(SamplingFrequency::HZ_48000)],
            supports_7_5ms: false,
            supports_10ms: true,
            channel_counts: vec![1, 2],
            min_octets_per_frame: Some(40),
            max_octets_per_frame: Some(155),
            max_frames_per_sdu: 2,
        },
        raw: vec![],
    }
}

#[test]
fn what_the_device_did_not_advertise_is_refused() {
    let codec = custom_codec(&args("--rate 48000 --octets 155")).unwrap();
    assert_eq!(check_custom(&[], &codec), Err(Unusable::NoSink));
    assert_eq!(check_custom(&[record(1)], &codec), Err(Unusable::NoSink));
    assert_eq!(check_custom(&[record(1), record(6)], &codec), Ok(()));
    let greedy = custom_codec(&args("--rate 48000 --octets 156")).unwrap();
    assert_eq!(
        check_custom(&[record(6)], &greedy),
        Err(Unusable::Rejected(ConfigRejection::OctetsOutOfRange { min: 40, max: 155 }))
    );
}

#[test]
fn the_bitrate_follows_from_the_octets() {
    assert_eq!(kbps(155, 10_000), 124);
    assert_eq!(kbps(75, 7_500), 80);
    assert_eq!(kbps(0, 7_500), 0);
}

#[test]
fn nothing_is_configured_without_being_asked() {
    assert_eq!(after_phase(Phase::Planning, true, false), Follows::Done);
    assert_eq!(after_phase(Phase::Planning, true, true), Follows::Do(Phase::Configuring));
    assert_eq!(after_phase(Phase::Configuring, true, true), Follows::Do(Phase::Playing));
    assert_eq!(after_phase(Phase::Playing, true, true), Follows::Done);
    assert_eq!(after_phase(Phase::OpeningAdapter, true, false), Follows::Do(Phase::Scanning));
}

#[test]
fn a_connection_is_tried_three_times_and_pairing_may_fail() {
    let mut phase = Phase::Connecting { attempt: 1 };
    let mut tries = 1;
    while let Follows::Again(next) = after_phase(phase, false, true) {
        phase = next;
        tries += 1;
    }
    assert_eq!(tries, 3);
    assert_eq!(after_phase(phase, false, true), Follows::Fail);
    assert_eq!(
        after_phase(Phase::Pairing, false, true),
        Follows::Do(Phase::ReadingCapabilities)
    );
    assert_eq!(after_phase(Phase::Scanning, false, true), Follows::Fail);
}

#[test]
fn a_custom_codec_brings_its_own_sdu() {
    let planned = Preset::WindowsDefault.codec(false);
    let plan = olea_core::preflight::StreamPlan {
        codec: planned,
        qos: Preset::WindowsDefault.qos(&planned),
        context: 4,
        target_latency: 2,
        microphone: None,
    };
    let codec = custom_codec(&args("--rate 48000 --octets 155")).unwrap();
    let custom = with_codec(plan, codec);
    assert_eq!(custom.codec, codec);
    assert_eq!((custom.qos.max_sdu, custom.qos.sdu_interval_us), (codec.sdu_size(), 10_000));
    assert_eq!(custom.qos.retransmission_number, plan.qos.retransmission_number);
    assert_eq!(custom.context, plan.context);
}

#[test]
fn a_choice_says_how_far_down_the_list_it_is() {
    assert_eq!(describe_choice(None), "  zadna z Androidich konfiguraci sluchatkum nesedi");
    let mut chosen = Chosen {
        setting: BapSetting::LC3_48_4(),
        qos: QosProfile::HighReliability,
        codec: Preset::WindowsDefault.codec(false),
        rank: 0,
    };
    assert_eq!(
        describe_choice(Some(&chosen)),
        "  Google/Android: LC3 48_4 (96 kbps/kanal) - prvni volba, stejne jako telefon"
    );
    chosen.rank = 4;
    assert_eq!(
        describe_choice(Some(&chosen)),
        "  Google/Android: LC3 48_4 (96 kbps/kanal) - 5. volba - prvni 4 sluchatka odmitla"
    );
}

#[test]
fn what_was_typed_comes_before_a_preset_and_a_preset_before_the_list() {
    let typed = args("--preset robust --rate 48000 --octets 155");
    let source = plan_source(&typed);
    let codec = custom_codec(&typed).unwrap();
    assert_eq!(source, PlanSource::Typed { codec, single: true });
    assert_eq!(source.announcement(), Some("  vlastni konfigurace ze prikazove radky"));

    let named = plan_source(&args("--rate 48000 --preset robust --dual-cis"));
    assert_eq!(named, PlanSource::Named { preset: Preset::Robust, single: false });
    assert_eq!(
        named.announcement(),
        Some("  preset zvoleny rucne, Androidi poradi se nepouzije")
    );
    // A flag with no name behind it still names a preset.
    assert_eq!(
        plan_source(&args("--preset")),
        PlanSource::Named { preset: Preset::WindowsDefault, single: true }
    );

    assert_eq!(plan_source(&[]), PlanSource::Android { single: true });
    let dual = plan_source(&args("--stream --dual-cis"));
    assert_eq!(dual, PlanSource::Android { single: false });
    assert_eq!(dual.announcement(), None);
}
