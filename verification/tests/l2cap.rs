use olea_core::l2cap::{
    ConnectionParameters, RESULT_ACCEPTED, Signal, parameter_update_response, parse,
};

#[test]
fn supervision_must_exceed_two_peripheral_intervals() {
    let mut p = ConnectionParameters { interval_min: 24, interval_max: 24, latency: 9, supervision_timeout: 60 };
    assert!(!p.valid());
    p.supervision_timeout = 61;
    assert!(p.valid());
    p.interval_min = 25;
    assert!(!p.valid());
    p.interval_min = 5;
    assert!(!p.valid());
}

/// The exact bytes the JBL headphones sent, which went unanswered for a
/// minute before they dropped the link.
const CAPTURED_REQUEST: [u8; 12] =
    [0x12, 0x01, 0x08, 0x00, 0x30, 0x00, 0x30, 0x00, 0x00, 0x00, 0xF4, 0x01];

#[test]
fn the_captured_request_is_understood() {
    let Some(Signal::ParameterUpdateRequest { identifier, parameters }) = parse(&CAPTURED_REQUEST)
    else {
        panic!("the request from the capture was not recognised");
    };

    assert_eq!(identifier, 0x01);
    assert_eq!(parameters.interval_min, 0x0030);
    assert_eq!(parameters.interval_max, 0x0030);
    assert_eq!(parameters.latency, 0);
    assert_eq!(parameters.supervision_timeout, 0x01F4);
    let (shortest, longest) = parameters.interval_us();
    assert_eq!((shortest as f32 / 1000.0, longest as f32 / 1000.0), (60.0, 60.0));
}

#[test]
fn the_response_carries_the_requests_identifier() {
    let response = parameter_update_response(0x01, RESULT_ACCEPTED);
    assert_eq!(response, vec![0x13, 0x01, 0x02, 0x00, 0x00, 0x00]);
}

#[test]
fn a_truncated_request_is_not_guessed_at() {
    assert_eq!(parse(&CAPTURED_REQUEST[..8]), None);
    assert_eq!(parse(&[]), None);
}

#[test]
fn other_signalling_is_left_alone() {
    // A disconnect request, which we neither parse nor answer.
    assert_eq!(parse(&[0x06, 0x01, 0x04, 0x00, 0x40, 0x00, 0x40, 0x00]), None);
}

#[test]
fn every_request_gets_an_answer_with_its_own_identifier() {
    for identifier in [0x01, 0x7F, 0xFF] {
        let mut request = CAPTURED_REQUEST;
        request[1] = identifier;
        match parse(&request) {
            Some(Signal::ParameterUpdateRequest { identifier: own, .. }) => {
                assert_eq!(own, identifier);
                assert_eq!(parameter_update_response(own, 1), vec![0x13, identifier, 2, 0, 1, 0]);
            }
            None => panic!("not understood"),
        }
    }
}
