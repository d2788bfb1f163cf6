use olea_core::iso_flow::IsoCredits;

#[test]
fn stereo_is_never_half_submitted_when_the_other_channel_holds_credits() {
    let mut credits = IsoCredits::new(2, &[23, 24]);
    assert!(credits.reserve_frame(&[23, 24]));
    assert_eq!(credits.complete(23, 1), 1);
    assert!(!credits.reserve_frame(&[23, 24]));
    assert_eq!(credits.complete(24, 1), 1);
    assert!(credits.reserve_frame(&[23, 24]));
}
#[test]
fn unknown_duplicate_and_excess_completions_cannot_invent_credits() {
    let mut credits = IsoCredits::new(2, &[23, 24]);
    assert_eq!(credits.complete(23, 50), 0);
    assert!(!credits.reserve_frame(&[23, 23]));
    assert!(!credits.reserve_frame(&[23, 25]));
    assert!(credits.reserve_frame(&[23, 24]));
    assert_eq!(credits.complete(25, 50), 0);
    assert_eq!(credits.complete(23, 50), 1);
    assert_eq!(credits.complete(23, 50), 0);
    assert!(!credits.reserve_frame(&[23, 24]));
}

#[test]
fn credits_are_conserved() {
    let mut credits = IsoCredits::new(3, &[23, 24]);
    assert!(!credits.reserve_frame(&[]), "a frame has at least one channel");
    assert!(credits.reserve_frame(&[24, 23]));
    assert!(!credits.reserve_frame(&[23, 24]), "one credit is left, two are needed");
    assert!(credits.reserve_frame(&[24]));
    assert!(!credits.reserve_frame(&[24]));
    assert_eq!(credits.complete(24, 1), 1);
    assert_eq!(credits.complete(24, 9), 1);
    assert_eq!(credits.complete(24, 9), 0);
    assert_eq!(credits.complete(23, 1), 1);
    assert!(credits.reserve_frame(&[23, 24]));
}
