use olea_core::bap::ascs;
use olea_core::bap::ase;
use olea_core::bap::{CodecConfiguration, LOCATION_FRONT_RIGHT, Preset};
use olea_core::negotiation::{
    codec_response, common_range, presentation_delay, qos_response, streaming_response,
};

fn preference(min: u32, max: u32) -> ase::PreferredQos {
    ase::PreferredQos {
        framing: 0,
        phy_preference: 2,
        retransmission_preference: 2,
        max_transport_latency_ms: 95,
        presentation_delay_min_us: min,
        presentation_delay_max_us: max,
        preferred_delay_min_us: min,
        preferred_delay_max_us: max,
    }
}
fn codec_value(id: u8, codec: CodecConfiguration) -> Vec<u8> {
    let mut value = vec![id, ase::STATE_CODEC_CONFIGURED, 0, 2, 2, 95, 0];
    for _ in 0..4 {
        value.extend_from_slice(&[0x40, 0x9c, 0]);
    }
    value.extend_from_slice(&[6, 0, 0, 0, 0]);
    let encoded = codec.encode();
    value.push(encoded.len() as u8);
    value.extend(encoded);
    value
}
#[test]
fn rejects_stale_codec_and_wrong_ear_after_reconnect() {
    let codec = Preset::WindowsDefault.codec(false);
    let value = codec_value(1, codec);
    assert!(codec_response(1, &codec, &value).is_ok());
    let mut changed = codec;
    changed.octets_per_frame = 80;
    assert!(codec_response(1, &changed, &value).is_err());
    changed = codec;
    changed.channel_allocation = LOCATION_FRONT_RIGHT;
    assert!(codec_response(1, &changed, &value).is_err());
    assert!(codec_response(2, &codec, &value).is_err());
}
#[test]
fn rejects_qos_or_cis_mapping_left_from_another_attempt() {
    let codec = Preset::WindowsDefault.codec(false);
    let qos = Preset::WindowsDefault.qos(&codec);
    let command = ascs::config_qos(2, 1, 1, &qos);
    let mut value = vec![2, ase::STATE_QOS_CONFIGURED];
    value.extend_from_slice(&command[3..]);
    assert!(qos_response(2, 1, 1, &qos, &value).is_ok());
    assert!(qos_response(2, 1, 0, &qos, &value).is_err());
    let mut changed = qos;
    changed.max_transport_latency_ms += 1;
    assert!(qos_response(2, 1, 1, &changed, &value).is_err());
    assert!(qos_response(2, 1, 1, &qos, &value[..5]).is_err());
}
#[test]
fn streaming_must_confirm_endpoint_and_group_not_just_state_byte() {
    assert!(streaming_response(2, 1, 1, &[2, 4, 1, 1, 0]).is_ok());
    for value in [
        &[2, 4, 1, 0, 0][..],
        &[1, 4, 1, 1, 0],
        &[2, 3, 1, 1, 0],
        &[2, 4],
    ] {
        assert!(streaming_response(2, 1, 1, value).is_err());
    }
}
#[test]
fn stereo_delay_requires_intersection_and_preserves_valid_custom_choice() {
    assert!(presentation_delay(
        &[preference(20_000, 30_000), preference(40_000, 50_000)],
        25_000,
        false
    )
    .is_err());
    assert_eq!(
        presentation_delay(
            &[preference(20_000, 40_000), preference(30_000, 50_000)],
            25_000,
            false
        )
        .unwrap(),
        30_000
    );
    let mut p = preference(20_000, 60_000);
    p.preferred_delay_min_us = 40_000;
    p.preferred_delay_max_us = 40_000;
    assert_eq!(presentation_delay(&[p], 25_000, false).unwrap(), 25_000);
    assert_eq!(presentation_delay(&[p], 25_000, true).unwrap(), 40_000);
    assert_eq!(
        presentation_delay(&[preference(40_000, 40_000)], 0, false).unwrap(),
        40_000
    );
}

#[test]
fn a_refused_answer_says_what_is_wrong() {
    let codec = Preset::WindowsDefault.codec(false);
    let value = codec_value(1, codec);
    assert_eq!(
        codec_response(2, &codec, &value).unwrap_err(),
        "ASE 2: response belongs to another endpoint"
    );
    assert_eq!(
        codec_response(1, &codec, &[1, 2]).unwrap_err(),
        "ASE 1: Codec Configured has not been confirmed"
    );
    let mut other = codec;
    other.octets_per_frame = 80;
    let text = codec_response(1, &other, &value).unwrap_err();
    assert!(text.starts_with("ASE 1: codec differs from request; requested CodecConfiguration"));
    assert!(text.contains("octets_per_frame: 80") && text.contains("octets_per_frame: 90"));
    assert_eq!(presentation_delay(&[], 0, false).unwrap_err(), "no confirmed ASE preferences");
}

#[test]
fn every_endpoint_can_meet_the_agreed_delay() {
    let endpoints = [preference(10_000, 45_000), preference(20_000, 60_000)];
    assert_eq!(common_range(&endpoints), (20_000, 45_000));
    for wanted in [0, 30_000, 99_000] {
        let delay = presentation_delay(&endpoints, wanted, false).unwrap();
        assert!(endpoints
            .iter()
            .all(|e| (e.presentation_delay_min_us..=e.presentation_delay_max_us).contains(&delay)));
    }
}
