use olea_core::bap::ascs::{CONTEXT_CONVERSATIONAL, CONTEXT_MEDIA};
use olea_core::link::AudioCapabilities;
use olea_core::multipoint::{Availability, availability, describe_contexts};

fn capabilities(available: Option<u16>, supported: Option<u16>) -> AudioCapabilities {
    AudioCapabilities {
        available_contexts: available,
        supported_contexts: supported,
        ..Default::default()
    }
}

#[test]
fn a_device_offering_media_is_ready() {
    let caps = capabilities(Some(CONTEXT_MEDIA | CONTEXT_CONVERSATIONAL), Some(0xFFFF));
    assert_eq!(availability(&caps), Availability::Ready);
}

#[test]
fn media_supported_but_not_offered_means_another_host_has_it() {
    // The signature of multipoint: the device can do media, and right now it
    // is not offering it to us.
    let caps = capabilities(Some(CONTEXT_CONVERSATIONAL), Some(CONTEXT_MEDIA | CONTEXT_CONVERSATIONAL));
    assert_eq!(availability(&caps), Availability::BusyElsewhere);
}

#[test]
fn a_device_that_never_supported_media_is_not_merely_busy() {
    let caps = capabilities(Some(CONTEXT_CONVERSATIONAL), Some(CONTEXT_CONVERSATIONAL));
    assert_eq!(availability(&caps), Availability::NoMediaSupport);
}

#[test]
fn nothing_published_is_reported_as_unknown_rather_than_free() {
    assert_eq!(availability(&capabilities(None, None)), Availability::Unknown);

    // Available is empty but Supported could not be read. That is not
    // enough to call the device busy, and guessing would turn a diagnostic
    // into a rumour.
    assert_eq!(availability(&capabilities(Some(0), None)), Availability::Unknown);
}

#[test]
fn a_busy_device_is_still_worth_asking() {
    // Enable is the standard way to take a stream over, so refusing to try
    // would remove the only handover mechanism multipoint actually has.
    assert!(Availability::BusyElsewhere.worth_attempting());
    assert!(Availability::Unknown.worth_attempting());
    assert!(!Availability::NoMediaSupport.worth_attempting());
}

#[test]
fn unrecognised_context_bits_are_still_reported() {
    let text = describe_contexts(CONTEXT_MEDIA | 0x0400);
    assert!(text.contains("media"));
    assert!(text.contains("0x0400"));
}

#[test]
fn no_contexts_reads_as_none_rather_than_an_empty_line() {
    assert_eq!(describe_contexts(0), "none");
}
