use olea_core::bap::ase::PreferredQos;
use olea_core::bap::{CodecConfiguration, Preset, LOCATION_FRONT_LEFT, LOCATION_FRONT_RIGHT};
use olea_core::playback::{
    after_audio, apply_microphone_preference, apply_preferences, check_prerequisites,
    count_endpoints, describe_adopted, describe_combination, describe_confirmed,
    describe_established, describe_microphone, describe_microphones, describe_side,
    describe_start, describe_stream, describe_streaming, describe_verified, describe_wish,
    desired_delay, endpoint_preference, expected_codec, hand_back, handle_of, is_stable, look,
    microphone_handle, previous_released, read_failure, selected_handles, side_name, sink_handle,
    unreadable_microphone, AfterRound, AudioEnd, DevicePreference, Endpoint, Look, PlayLoop,
    Prerequisites, Question, Round, Step, StepEnd, StepOrder, StreamSetup,
};
use olea_core::preflight::{MicrophonePlan, StreamPlan};
use olea_core::session::SessionError;

fn answer(rtn: u8, latency: u16, min: u32, max: u32) -> PreferredQos {
    PreferredQos {
        framing: 0,
        phy_preference: 3,
        retransmission_preference: rtn,
        max_transport_latency_ms: latency,
        presentation_delay_min_us: min,
        presentation_delay_max_us: max,
        preferred_delay_min_us: 0,
        preferred_delay_max_us: 0,
    }
}

fn plan() -> StreamPlan {
    let codec = Preset::WindowsDefault.codec(false);
    StreamPlan {
        codec,
        qos: Preset::WindowsDefault.qos(&codec),
        context: 4,
        target_latency: 2,
        microphone: None,
    }
}

#[test]
fn ears_have_names() {
    assert_eq!(side_name(1), "left");
    assert_eq!(side_name(2), "right");
    assert_eq!(side_name(3), "stereo");
    assert_eq!(side_name(0), "mono");
    assert_eq!(side_name(0x30), "0x00000030");
}

fn codec_value(id: u8, codec: CodecConfiguration) -> Vec<u8> {
    let mut value = vec![id, 1, 0, 2, 2, 95, 0];
    for _ in 0..4 {
        value.extend_from_slice(&[0x40, 0x9c, 0]);
    }
    value.extend_from_slice(&[6, 0, 0, 0, 0]);
    let encoded = codec.encode();
    value.push(encoded.len() as u8);
    value.extend(encoded);
    value
}

#[test]
fn each_ear_is_held_to_its_own_allocation() {
    let codec = plan().codec;
    let endpoints = [
        Endpoint { ase_id: 4, allocation: LOCATION_FRONT_LEFT },
        Endpoint { ase_id: 7, allocation: LOCATION_FRONT_RIGHT },
    ];
    let right = expected_codec(&codec, &endpoints, 7).unwrap();
    assert_eq!(right.channel_allocation, LOCATION_FRONT_RIGHT);
    assert_eq!(right.octets_per_frame, codec.octets_per_frame);
    assert!(expected_codec(&codec, &endpoints, 9).is_none());

    let value = codec_value(7, right);
    let qos = endpoint_preference(&codec, &endpoints, 7, &value).unwrap();
    assert_eq!(qos.max_transport_latency_ms, 95);
    assert!(endpoint_preference(&codec, &endpoints, 4, &value).is_err());
    assert_eq!(
        endpoint_preference(&codec, &endpoints, 9, &value),
        Err("unexpected Sink ASE".to_string())
    );
}

#[test]
fn an_endpoint_is_only_touched_once_it_has_let_go() {
    assert!(previous_released(3, &[3, 0]).is_ok());
    assert!(previous_released(3, &[3, 1, 9]).is_ok());
    let text = "ASE 3: previous stream has not been released".to_string();
    for value in [&[3, 4][..], &[4, 0], &[3], &[]] {
        assert_eq!(previous_released(3, value), Err(text.clone()));
    }
}

#[test]
fn a_look_is_repeated_until_the_time_is_up() {
    assert!(matches!(look(Ok::<u8, String>(5), true), Look::Accepted(5)));
    assert!(matches!(look(Err::<u8, String>("no".into()), false), Look::Again));
    match look(Err::<u8, String>("no".into()), true) {
        Look::Refused(text) => assert_eq!(text, "no"),
        other => panic!("{other:?}"),
    }
    assert_eq!(read_failure(2, "gone"), "ASE 2: read failed; connection must be rebuilt: gone");
}

#[test]
fn the_endpoints_prefer_together() {
    let mut question = Question::new(2, 2).unwrap();
    question.note(1, answer(2, 95, 20_000, 40_000)).unwrap();
    question.note(2, answer(5, 80, 30_000, 50_000)).unwrap();
    assert_eq!(
        question.settle(25_000, false),
        Ok(DevicePreference {
            min_delay_us: 30_000,
            max_delay_us: 40_000,
            presentation_delay_us: 30_000,
            retransmissions: Some(5),
            max_transport_latency_ms: Some(80),
            phy_preference: Some(3),
        })
    );
    question.note(3, PreferredQos { phy_preference: 2, ..answer(0, 0, 0, 60_000) }).unwrap();
    let settled = question.settle(25_000, false).unwrap();
    assert_eq!(settled.retransmissions, Some(5));
    assert_eq!(settled.max_transport_latency_ms, Some(80));
    assert_eq!(settled.phy_preference, Some(2));
}

#[test]
fn a_question_without_a_usable_answer_says_so() {
    assert_eq!(Question::new(1, 2).unwrap_err(), "cannot verify every selected Sink ASE");
    let mut question = Question::new(0, 0).unwrap();
    assert_eq!(question.settle(0, false), Err("no confirmed ASE preferences".to_string()));
    let framed = PreferredQos { framing: 1, ..answer(1, 1, 1, 1) };
    assert_eq!(
        question.note(6, framed),
        Err("ASE 6 requires framed ISO, which is not supported".to_string())
    );
    question.note(1, answer(1, 1, 10, 20)).unwrap();
    question.note(2, answer(1, 1, 30, 40)).unwrap();
    assert_eq!(
        question.settle(0, false),
        Err("the channels have no common presentation delay".to_string())
    );
}

#[test]
fn an_automatic_stream_takes_the_devices_numbers() {
    let wanted = DevicePreference {
        min_delay_us: 20_000,
        max_delay_us: 40_000,
        presentation_delay_us: 20_000,
        retransmissions: Some(5),
        max_transport_latency_ms: Some(60),
        phy_preference: None,
    };
    let adapted = apply_preferences(&plan(), &wanted, false).unwrap();
    assert_eq!(adapted.qos.presentation_delay_us, 20_000);
    assert_eq!(adapted.qos.retransmission_number, 5);
    assert_eq!(adapted.qos.max_transport_latency_ms, 60);
    // A longer limit is no reason to ask for more.
    let relaxed = DevicePreference { max_transport_latency_ms: Some(100), ..wanted };
    assert_eq!(
        apply_preferences(&plan(), &relaxed, false).unwrap().qos.max_transport_latency_ms,
        75
    );
}

#[test]
fn a_custom_stream_is_sent_as_it_is_or_refused() {
    let wanted = DevicePreference {
        min_delay_us: 20_000,
        max_delay_us: 40_000,
        presentation_delay_us: 40_000,
        retransmissions: Some(5),
        max_transport_latency_ms: None,
        phy_preference: None,
    };
    assert_eq!(apply_preferences(&plan(), &wanted, true), Ok(plan()));
    let narrow = DevicePreference { max_delay_us: 37_500, ..wanted };
    assert_eq!(
        apply_preferences(&plan(), &narrow, true).unwrap_err(),
        "device rejected the custom configuration: presentation delay must be 20–37.5 ms"
    );
    let quick = DevicePreference { max_transport_latency_ms: Some(20), ..wanted };
    assert_eq!(
        apply_preferences(&plan(), &quick, true).unwrap_err(),
        "custom transport latency exceeds headset limit of 20 ms"
    );
}

#[test]
fn gaming_asks_for_the_shortest_delay() {
    assert_eq!(desired_delay(&plan(), true, false), 0);
    assert_eq!(desired_delay(&plan(), true, true), 40_000);
    assert_eq!(desired_delay(&plan(), false, false), 40_000);
}

#[test]
fn the_microphone_follows_its_own_endpoint() {
    let mic = MicrophonePlan { ase_id: 3, cis_id: 1, codec: plan().codec, qos: plan().qos };
    let adapted = apply_microphone_preference(&mic, &answer(0, 20, 10_000, 30_000)).unwrap();
    assert_eq!(adapted.qos.presentation_delay_us, 30_000);
    assert_eq!(adapted.qos.max_transport_latency_ms, 20);
    assert_eq!(adapted.qos.retransmission_number, mic.qos.retransmission_number);
    let framed = PreferredQos { framing: 1, ..answer(0, 20, 10_000, 30_000) };
    assert_eq!(
        apply_microphone_preference(&mic, &framed).unwrap_err(),
        "microphone requires framed ISO, which is not supported"
    );
    assert!(apply_microphone_preference(&mic, &answer(0, 20, 30_000, 10_000)).is_err());
}

#[test]
fn the_steps_come_in_order() {
    let mut setup = StreamSetup::new(true);
    let mut seen = Vec::new();
    for _ in 0..14 {
        match setup.advance(StepEnd::Done) {
            StepOrder::Go(step) => seen.push(step),
            other => panic!("{other:?}"),
        }
    }
    assert_eq!(
        seen,
        vec![
            Step::ReleasingOld,
            Step::ConfiguringCodec,
            Step::AskingForQos,
            Step::AskingMicrophone,
            Step::Validating,
            Step::PreparingGroup,
            Step::WritingQos,
            Step::ConfirmingQos,
            Step::Enabling,
            Step::Establishing,
            Step::CountingEndpoints,
            Step::StartingReceiver,
            Step::ConfirmingStreaming,
            Step::Playing,
        ]
    );
    let mut plain = StreamSetup { step: Step::AskingForQos, microphone: false };
    assert!(matches!(plain.advance(StepEnd::Done), StepOrder::Go(Step::Validating)));
}

#[test]
fn every_failed_step_gives_back_what_it_took() {
    let cases = [
        (Step::Subscribing, false, false, "ASCS response subscription failed: x"),
        (Step::ReleasingOld, true, false, "x"),
        (Step::ConfiguringCodec, true, false, "konfigurace kodeku selhala: x"),
        (Step::Validating, true, false, "device rejected the custom configuration: x"),
        (Step::PreparingGroup, true, false, "stream could not be scheduled: x"),
        (Step::WritingQos, true, false, "QoS write failed: x"),
        (Step::Enabling, true, false, "Enable failed: x"),
        (Step::Establishing, true, true, "isochronous channels could not be established: x"),
        (Step::ConfirmingStreaming, true, false, "x"),
    ];
    for (step, endpoints, channels, words) in cases {
        let mut setup = StreamSetup { step, microphone: false };
        match setup.advance(StepEnd::Failed("x".into())) {
            StepOrder::Stop { release_endpoints, release_channels, release_group, text } => {
                assert!(release_group);
                assert_eq!((release_endpoints, release_channels), (endpoints, channels));
                assert_eq!(text, words);
            }
            other => panic!("{other:?}"),
        }
        assert_eq!(setup.step, Step::Ended);
    }
    let mut setup = StreamSetup { step: Step::Establishing, microphone: false };
    match setup.advance(StepEnd::Partial("1 of 2".into())) {
        StepOrder::Stop { release_channels, release_group, text, .. } => {
            assert!(release_channels && release_group);
            assert_eq!(
                text,
                "headphones did not establish every channel (1 of 2); retrying the connection"
            );
        }
        other => panic!("{other:?}"),
    }
}

#[test]
fn endpoints_that_cannot_be_read_are_counted() {
    assert!(count_endpoints(2, 2).is_ok());
    assert_eq!(
        count_endpoints(1, 2).unwrap_err(),
        "stereo stream cannot be verified: found 1 of 2 Sink ASE characteristics"
    );
    assert_eq!(
        unreadable_microphone(5),
        "microphone cannot be verified: Source ASE 5 has no readable state characteristic"
    );
}

#[test]
fn a_stream_is_described_in_one_line() {
    assert_eq!(
        describe_stream(&plan(), 2),
        "48000 Hz · 7.5 ms · 90 B/channel · 2 CIS · PHY 2M · RTN 13 · transport ≤75 ms · presentation 40 ms"
    );
}

#[test]
fn half_a_minute_of_audio_is_stable() {
    assert!(is_stable(4_000, 7_500));
    assert!(!is_stable(3_999, 7_500));
    assert!(is_stable(u64::MAX, u32::MAX));
    assert!(!is_stable(u64::MAX, 0));
}

fn end(error: Option<SessionError>, lost: Option<u8>) -> AudioEnd {
    AudioEnd { error: error.map(|e| (e, "x".to_string())), lost, yielded: false, configured: true }
}

#[test]
fn the_end_of_the_audio_decides_what_follows() {
    let after = after_audio(&end(None, None), &plan());
    assert!(after.release_endpoints && !after.forget);
    assert_eq!((after.complaint, after.rebuild), (None, Ok(false)));

    let after = after_audio(&end(None, Some(8)), &plan());
    assert!(!after.release_endpoints && after.forget);
    assert_eq!(after.rebuild, Ok(false));

    let after = after_audio(&end(Some(SessionError::AudioDisconnected), None), &plan());
    assert_eq!((after.complaint, after.rebuild), (None, Ok(true)));

    let after = after_audio(&end(Some(SessionError::AdapterSilent), None), &plan());
    assert_eq!(after.rebuild, Err("adapter/transport failure: x".to_string()));

    let after = after_audio(&end(Some(SessionError::Other), None), &plan());
    assert_eq!(after.complaint.as_deref(), Some("Playback stopped: x"));
    assert_eq!(after.rebuild, Ok(false));

    let after = after_audio(&end(Some(SessionError::IsoPath), Some(8)), &plan());
    assert_eq!(after.rebuild, Err("playback ended: x".to_string()));
}

const QUIET: Round = Round {
    failed: false,
    rebuild: false,
    stable: false,
    connected: true,
    lost: None,
    yielded: false,
};

#[test]
fn playback_goes_on_for_as_long_as_it_should() {
    let mut state = PlayLoop::new();
    assert_eq!(state.after_round(&QUIET, 1), AfterRound::Finished);
    assert_eq!(
        state.after_round(&Round { yielded: true, ..QUIET }, 1),
        AfterRound::WaitForSound
    );
    assert_eq!(state.after_round(&Round { failed: true, ..QUIET }, 1), AfterRound::Failed);
    assert_eq!(state.after_round(&Round { lost: Some(8), ..QUIET }, 1), AfterRound::Lost(8));
    assert_eq!(
        state.after_round(&Round { yielded: true, connected: false, ..QUIET }, 1),
        AfterRound::Finished
    );
}

#[test]
fn the_recovery_clock_runs_until_audio_is_stable() {
    let mut state = PlayLoop::new();
    let lost = Round { rebuild: true, ..QUIET };
    assert_eq!(state.after_round(&lost, 100), AfterRound::Recover { since: 100 });
    assert_eq!(
        state.after_round(&Round { failed: true, ..QUIET }, 200),
        AfterRound::Recover { since: 100 }
    );
    assert_eq!(state.after_round(&lost, 300), AfterRound::Recover { since: 100 });
    assert_eq!(
        state.after_round(&Round { stable: true, ..lost }, 400),
        AfterRound::Recover { since: 400 }
    );
}

#[test]
fn a_yielded_stream_says_what_to_listen_with() {
    let yielded = AudioEnd { yielded: true, ..end(None, None) };
    assert_eq!(after_audio(&yielded, &plan()).handed_back, Some((48_000, 7_500)));
    assert_eq!(after_audio(&end(None, None), &plan()).handed_back, None);
}

#[test]
fn only_the_endpoints_of_the_stream_are_read() {
    let handles = [(1u8, 0x10u16), (3, 0x30), (2, 0x20)];
    let endpoints = [
        Endpoint { ase_id: 2, allocation: LOCATION_FRONT_RIGHT },
        Endpoint { ase_id: 1, allocation: LOCATION_FRONT_LEFT },
    ];
    assert_eq!(selected_handles(&handles, &endpoints), vec![(1, 0x10), (2, 0x20)]);
    assert_eq!(handle_of(&handles, 3), Some(0x30));
    assert_eq!(handle_of(&handles, 4), None);
    assert_eq!(sink_handle(&handles, 2), Ok(0x20));
    assert_eq!(
        sink_handle(&handles, 4),
        Err("ASE 4: missing readable characteristic".to_string())
    );
}

#[test]
fn what_an_endpoint_answered_is_described() {
    assert_eq!(
        describe_wish(3, &answer(5, 80, 20_000, 40_000)),
        "  ASE 3 requests 20000-40000 µs delay, prefers 0 µs, RTN 5, latency 80 ms"
    );
    assert_eq!(
        describe_verified(3, &plan().codec),
        "  ASE 3 codec verified: 48000 Hz, 7500 us, 90 octets, allocation 0x00000001"
    );
    assert_eq!(describe_combination(&plan()), "48000 Hz / 7.5 ms / 90 B / 2M");
}

#[test]
fn a_failed_attempt_gives_everything_back() {
    let mut configured = vec![1, 2, 5];
    let back = hand_back(true, true, Some(0x2a), &mut configured);
    assert!(back.group);
    assert_eq!(back.endpoints, Some((0x2a, vec![1, 2, 5])));
    assert!(configured.is_empty());

    let mut configured = vec![1];
    let back = hand_back(true, true, None, &mut configured);
    assert!(back.group && back.endpoints.is_none());
    assert!(configured.is_empty());

    for (failed, adapter_on) in [(false, true), (true, false)] {
        let mut configured = vec![1];
        let back = hand_back(failed, adapter_on, Some(1), &mut configured);
        assert!(!back.group && back.endpoints.is_none());
        assert_eq!(configured, [1]);
    }
}

#[test]
fn every_value_taken_from_the_headphones_is_announced() {
    let mut own = plan();
    own.qos.presentation_delay_us = 40_000;
    own.qos.retransmission_number = 2;
    own.qos.max_transport_latency_ms = 60;
    let mut wanted = DevicePreference {
        min_delay_us: 10_000,
        max_delay_us: 50_000,
        presentation_delay_us: 20_500,
        retransmissions: Some(5),
        max_transport_latency_ms: Some(45),
        phy_preference: None,
    };
    assert_eq!(
        describe_adopted(&own, &wanted, false),
        [
            "headphones request 20 ms delay instead of 40 ms; using their value",
            "headphones recommend 5 retransmissions instead of 2; using theirs",
            "headphones support at most 45 ms transport latency, not 60; using theirs",
        ]
    );
    assert_eq!(
        describe_adopted(&own, &wanted, true),
        ["headphones request 20 ms delay instead of 40 ms; using their value"]
    );
    wanted.min_delay_us = 45_000;
    assert!(describe_adopted(&own, &wanted, true).is_empty());

    wanted.presentation_delay_us = 40_000;
    wanted.retransmissions = Some(2);
    wanted.max_transport_latency_ms = Some(60);
    assert!(describe_adopted(&own, &wanted, false).is_empty());
    assert_eq!(apply_preferences(&own, &wanted, false), Ok(own));
}

#[test]
fn every_stage_of_a_stream_is_described() {
    let left = Endpoint { ase_id: 1, allocation: LOCATION_FRONT_LEFT };
    assert_eq!(describe_side(&left), "  ASE 1 → left (0x00000001)");
    assert_eq!(describe_start(0x2a, "gaming"), "ASE control point 0x002a, preset gaming");
    assert_eq!(
        describe_microphones(true, false),
        ("headset microphone enabled", "monitoring disabled; no PC microphone is opened")
    );
    assert_eq!(
        describe_microphones(false, true),
        ("headset microphone disabled", "monitoring enabled according to settings")
    );

    let mut own = plan();
    own.codec.octets_per_frame = 100;
    own.qos.sdu_interval_us = 10_000;
    own.qos.phy = 2;
    own.qos.retransmission_number = 5;
    own.qos.max_transport_latency_ms = 20;
    own.qos.presentation_delay_us = 40_000;
    assert_eq!(
        describe_confirmed(&own),
        format!(
            "QoS confirmed on every ASE: {} Hz, 10000 us frames, 100 B/channel, PHY 2, RTN 5, \
             transport ceiling 20 ms, presentation 40000 us",
            own.codec.sampling_frequency.hz().unwrap()
        )
    );
    assert_eq!(
        describe_established("2 of 2"),
        "radio channels established: 2 of 2; checking headphone Streaming state next"
    );
    assert_eq!(
        describe_streaming(&left, 3, 1, 0x60),
        "ASE 1: Streaming confirmed, CIG 3, CIS 1, handle 0x0060, allocation 0x00000001"
    );
    let microphone = MicrophonePlan { ase_id: 4, cis_id: 1, codec: own.codec, qos: own.qos };
    assert_eq!(
        describe_microphone(&microphone),
        format!(
            "microphone Source ASE 4 active: {} Hz, 100 octets per frame",
            own.codec.sampling_frequency.hz().unwrap()
        )
    );
}

#[test]
fn what_is_missing_is_named() {
    let all = Prerequisites {
        device: true,
        link: true,
        interrupted: false,
        capabilities: true,
        control_point: Some(9),
        adapter: true,
    };
    assert_eq!(check_prerequisites(&all), Ok(Some(9)));
    assert_eq!(check_prerequisites(&Prerequisites { interrupted: true, ..all }), Ok(None));
    let cases = [
        (Prerequisites { device: false, link: false, ..all }, "no device is connected"),
        (Prerequisites { link: false, interrupted: true, ..all }, "connection is not open"),
        (
            Prerequisites { capabilities: false, control_point: None, ..all },
            "device capabilities have not been loaded",
        ),
        (
            Prerequisites { control_point: None, adapter: false, ..all },
            "ASE control point is unknown",
        ),
        (Prerequisites { adapter: false, ..all }, "adapter is off"),
    ];
    for (there, text) in cases {
        assert_eq!(check_prerequisites(&there), Err(text));
    }

    assert_eq!(microphone_handle(&[(3, 7), (4, 8)], 4, false), Ok(8));
    assert_eq!(
        microphone_handle(&[(3, 7)], 4, false),
        Err("microphone state characteristic missing")
    );
    assert_eq!(microphone_handle(&[(3, 7)], 4, true), Err("microphone state is unavailable"));
}
