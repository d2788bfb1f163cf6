use olea_core::bap::ascs;
use olea_core::bap::ase::PreferredQos;
use olea_core::bap::{
    CodecCapabilities, CodecConfiguration, FrameDuration, PacRecord, SamplingFrequency,
};
use olea_core::google::{choose_setting, BapSetting, QosProfile, GAME_ORDER, MEDIA_ORDER};

/// A sink that does every rate up to 48 kHz, one channel to a stream.
fn capable_sink() -> Vec<PacRecord> {
    vec![PacRecord {
        coding_format: PacRecord::CODING_FORMAT_LC3,
        company_id: 0,
        vendor_codec_id: 0,
        capabilities: CodecCapabilities {
            sampling_frequencies: vec![
                SamplingFrequency(SamplingFrequency::HZ_16000),
                SamplingFrequency(SamplingFrequency::HZ_24000),
                SamplingFrequency(SamplingFrequency::HZ_32000),
                SamplingFrequency(SamplingFrequency::HZ_48000),
            ],
            supports_7_5ms: true,
            supports_10ms: true,
            min_octets_per_frame: Some(26),
            max_octets_per_frame: Some(155),
            channel_counts: vec![1],
            ..Default::default()
        },
        raw: Vec::new(),
    }]
}

#[test]
fn media_starts_where_android_starts() {
    // 48_4 is the head of Android's Media list, and it is the setting a
    // phone asks for first. 48_3 stands five
    // places further down.
    assert_eq!(MEDIA_ORDER()[0].setting, BapSetting::LC3_48_4());
    assert_eq!(MEDIA_ORDER()[0].setting.frame_duration, FrameDuration::Ms10);
    assert_eq!(MEDIA_ORDER()[0].setting.octets_per_frame, 120);
    assert_eq!(MEDIA_ORDER()[0].qos, QosProfile::HighReliability);

    let position = MEDIA_ORDER()
        .iter()
        .position(|c| c.setting == BapSetting::LC3_48_3())
        .expect("48_3 is on the list, just not at the top");
    assert_eq!(position, 4, "48_3 is Android's fifth entry");
}

#[test]
fn the_two_settings_carry_the_same_bitrate() {
    // So the difference between them is frame length, not bandwidth. Worth
    // stating in a test, because "Android sounds better" invites the wrong
    // fix of simply raising the bitrate.
    assert_eq!(BapSetting::LC3_48_4().bitrate(), 96_000);
    assert_eq!(BapSetting::LC3_48_3().bitrate(), 96_000);
}

#[test]
fn a_capable_device_gets_androids_first_choice() {
    let records = capable_sink();
    let chosen = choose_setting(&MEDIA_ORDER(), &records, false).expect("LC3 sink present");

    assert_eq!(chosen.setting, BapSetting::LC3_48_4());
    assert_eq!(chosen.rank, 0);
    assert_eq!(chosen.codec.frame_duration, FrameDuration::Ms10);
    assert_eq!(chosen.codec.octets_per_frame, 120);
}

#[test]
fn a_device_that_cannot_do_48_khz_falls_through_instead_of_failing() {
    // The universality case. Deciding first and validating afterwards turns
    // this device into an error; walking the list turns it into 24 or
    // 16 kHz audio, which is what a phone would give it.
    let narrow = PacRecord {
        coding_format: PacRecord::CODING_FORMAT_LC3,
        company_id: 0,
        vendor_codec_id: 0,
        capabilities: CodecCapabilities {
            sampling_frequencies: vec![SamplingFrequency(SamplingFrequency::HZ_16000)],
            supports_7_5ms: true,
            supports_10ms: true,
            min_octets_per_frame: Some(26),
            max_octets_per_frame: Some(40),
            channel_counts: vec![1],
            ..Default::default()
        },
        raw: Vec::new(),
    };

    let chosen = choose_setting(&MEDIA_ORDER(), &[narrow], false).expect("16 kHz is on the list");
    assert_eq!(chosen.setting.sampling_frequency, SamplingFrequency(SamplingFrequency::HZ_16000));
    assert!(chosen.rank > 0, "not the first choice, and that is correct");
}

#[test]
fn a_named_profile_takes_the_numbers_the_device_published() {
    let codec = CodecConfiguration {
        sampling_frequency: SamplingFrequency(SamplingFrequency::HZ_48000),
        frame_duration: FrameDuration::Ms10,
        channel_allocation: olea_core::bap::LOCATION_FRONT_LEFT,
        octets_per_frame: 120,
        frames_per_sdu: 1,
    };

    let preferred = PreferredQos {
        framing: 0,
        phy_preference: 2,
        retransmission_preference: 13,
        max_transport_latency_ms: 75,
        presentation_delay_min_us: 40_000,
        presentation_delay_max_us: 40_000,
        preferred_delay_min_us: 40_000,
        preferred_delay_max_us: 40_000,
    };

    let qos = QosProfile::HighReliability.resolve(&codec, Some(&preferred));
    assert_eq!(qos.retransmission_number, 13, "the device's own preference");
    assert_eq!(qos.max_transport_latency_ms, 75);
    assert_eq!(qos.presentation_delay_us, 40_000);
    assert_eq!(qos.sdu_interval_us, 10_000);

    // An explicit profile overrides, because that is what makes it explicit.
    let explicit = QosProfile::Explicit {
        retransmission_number: 5,
        max_transport_latency_ms: 20,
    };
    let qos = explicit.resolve(&codec, Some(&preferred));
    assert_eq!(qos.retransmission_number, 5);
    assert_eq!(qos.max_transport_latency_ms, 20);
}

#[test]
fn a_silent_device_still_gets_schedulable_numbers() {
    // Android writes zero and fills in from the device's answer. A device
    // that answers nothing must not leave zeros on the wire: no controller
    // will schedule a CIS with no retransmissions and no latency budget.
    let codec = CodecConfiguration {
        sampling_frequency: SamplingFrequency(SamplingFrequency::HZ_48000),
        frame_duration: FrameDuration::Ms10,
        channel_allocation: olea_core::bap::LOCATION_FRONT_LEFT,
        octets_per_frame: 120,
        frames_per_sdu: 1,
    };

    let qos = QosProfile::HighReliability.resolve(&codec, None);
    assert!(qos.retransmission_number > 0);
    assert!(qos.max_transport_latency_ms > 0);
    assert!(qos.presentation_delay_us > 0);
}

#[test]
fn target_latency_matches_the_profile() {
    assert_eq!(
        QosProfile::HighReliability.target_latency(),
        ascs::LATENCY_HIGH_RELIABILITY
    );
    assert_eq!(QosProfile::LowLatency.target_latency(), ascs::LATENCY_LOW);
}

#[test]
fn gaming_has_a_list_of_its_own() {
    let media = MEDIA_ORDER();
    let game = GAME_ORDER();
    assert!(!game.is_empty() && game[0] != media[0]);
    let chosen = choose_setting(&game, &capable_sink(), false).expect("LC3 sink present");
    assert_eq!((chosen.setting, chosen.qos), (game[chosen.rank].setting, game[chosen.rank].qos));
    assert!(choose_setting(&game, &[], false).is_none());
}

#[test]
fn a_profile_is_never_unschedulable() {
    let codec = choose_setting(&MEDIA_ORDER(), &capable_sink(), false).unwrap().codec;
    for profile in
        [QosProfile::LowLatency, QosProfile::BalancedReliability, QosProfile::HighReliability]
    {
        let qos = profile.resolve(&codec, None);
        assert_eq!((qos.retransmission_number, qos.max_transport_latency_ms), (13, 95));
        assert_eq!((qos.phy, qos.framing, qos.presentation_delay_us), (2, 0, 40_000));
        assert_eq!(qos.max_sdu, codec.sdu_size());
    }
}
