use olea_core::media::{is_overdue, Server, Snapshot};

#[test]
fn discovers_gmcs_and_requires_encryption() {
    let mut s = Server::default();
    let p = s.request(&[0x10, 1, 0, 255, 255, 0, 0x28], 23).unwrap();
    assert!(p.windows(2).any(|v| v == [0x49, 0x18]));
    let h = s.handle(0x2BA3);
    assert_eq!(s.request(&[0x0a, h as u8, 0], 23).unwrap()[4], 0x0f);
    s.authorize();
    assert_eq!(s.request(&[0x0a, h as u8, 0], 23), Some(vec![0x0b, 0]));
}
#[test]
fn success_is_only_notified_after_windows_confirmation() {
    let mut s = Server::default();
    s.authorize();
    s.update(Snapshot {
        state: 1,
        supported: 3,
        ..Snapshot::default()
    });
    let h = s.handle(0x2BA4);
    s.request(&[0x12, (h + 1) as u8, 0, 1, 0], 23);
    s.request(&[0x12, h as u8, 0, 2], 23);
    assert!(s.notifications(23).is_empty());
    let commands = s.take_commands();
    let c = &commands[0];
    assert_eq!(c.opcode, 2);
    s.finish(c.id, true);
    assert_eq!(s.notifications(23)[0], vec![0x1b, h as u8, 0, 2, 1]);
}
#[test]
fn disconnect_never_queues_pause_and_cancels_old_results() {
    let mut s = Server::default();
    s.authorize();
    s.update(Snapshot {
        state: 1,
        supported: 3,
        ..Snapshot::default()
    });
    s.queue(2, None);
    let id = s.pending_id().unwrap();
    s.reset_link();
    s.finish(id, true);
    assert!(s.take_commands().is_empty());
    assert!(s.notifications(23).is_empty());
}
#[test]
fn att_responses_are_not_treated_as_requests() {
    let mut s = Server::default();
    for op in [1, 3, 5, 7, 9, 11, 13, 17, 19, 27, 29, 30] {
        assert!(s.request(&[op, 1, 0], 23).is_none());
    }
}

fn playing(state: u8, supported: u32) -> Snapshot {
    Snapshot { state, supported, ..Snapshot::default() }
}

#[test]
fn a_refused_command_is_answered_and_not_passed_on() {
    let mut s = Server::default();
    s.authorize();
    let h = s.handle(0x2BA4);
    s.request(&[0x12, (h + 1) as u8, 0, 1, 0], 23);
    s.update(playing(1, 3));
    s.queue(5, None);
    assert_eq!(s.take_notifications(false, 23), vec![vec![0x1b, h as u8, 0, 5, 2]]);
    s.update(playing(0, 3));
    s.queue(1, None);
    assert_eq!(s.take_notifications(false, 23), vec![vec![0x1b, h as u8, 0, 1, 3]]);
    s.update(playing(1, 3));
    s.queue(1, None);
    s.queue(2, None);
    assert_eq!(s.take_notifications(false, 23), vec![vec![0x1b, h as u8, 0, 2, 4]]);
    assert_eq!(s.take_commands().len(), 1, "one command at a time");
    s.enable(false);
    s.queue(1, None);
    assert_eq!(s.take_notifications(false, 23), vec![vec![0x1b, h as u8, 0, 1, 4]]);
}

#[test]
fn a_late_command_is_answered_as_failed() {
    let mut s = Server::default();
    s.authorize();
    let h = s.handle(0x2BA4);
    s.request(&[0x12, (h + 1) as u8, 0, 1, 0], 23);
    s.update(playing(1, 3));
    assert!(!s.is_late());
    s.queue(2, None);
    assert!(!s.is_late(), "it was asked for just now");
    assert!(s.take_notifications(false, 23).is_empty());
    assert_eq!(s.take_notifications(true, 23), vec![vec![0x1b, h as u8, 0, 2, 4]]);
    assert_eq!(s.pending_id(), None);
}

#[test]
fn a_command_has_three_seconds_to_be_confirmed() {
    assert!(!is_overdue(3_000_000_000));
    assert!(is_overdue(3_000_000_001));
    let mut s = Server::default();
    s.authorize();
    let h = s.handle(0x2BA4);
    s.request(&[0x12, (h + 1) as u8, 0, 1, 0], 23);
    s.update(playing(1, 3));
    s.queue(2, None);
    assert!(s.notifications(23).is_empty(), "it was asked for just now");
    assert!(s.notifications_after(3_000_000_000, 23).is_empty());
    assert!(s.pending_id().is_some());
    assert_eq!(s.notifications_after(3_000_000_001, 23), vec![vec![0x1b, h as u8, 0, 2, 4]]);
    assert_eq!(s.pending_id(), None);
}

#[test]
fn the_same_report_twice_tells_the_peer_nothing() {
    let mut s = Server::default();
    s.authorize();
    let state = s.handle(0x2BA3);
    s.request(&[0x12, (state + 1) as u8, 0, 1, 0], 23);
    s.update(playing(1, 3));
    assert_eq!(s.take_notifications(false, 23), vec![vec![0x1b, state as u8, 0, 1]]);
    s.update(playing(1, 3));
    assert!(s.take_notifications(false, 23).is_empty());
}

#[test]
fn nothing_is_read_or_written_before_encryption() {
    let mut s = Server::default();
    let h = s.handle(0x2BA4) as u8;
    assert_eq!(s.request(&[0x12, h, 0, 1], 23), Some(vec![1, 0x12, h, 0, 0x0f]));
    assert_eq!(s.request(&[0x52, h, 0, 1], 23), Some(vec![]));
    assert!(s.take_commands().is_empty());
    // The device name is open to everyone.
    assert_eq!(s.request(&[0x0a, 3, 0], 23), Some(b"\x0bOpenLEAudio".to_vec()));
    assert_eq!(s.request(&[0x0c, 3, 0, 4, 0], 23), Some(b"\x0dLEAudio".to_vec()));
}

#[test]
fn malformed_requests_get_their_own_error() {
    let mut s = Server::default();
    s.authorize();
    assert_eq!(s.request(&[], 23), None);
    assert_eq!(s.request(&[0x02, 23, 0], 23), Some(vec![3, 5, 2]));
    assert_eq!(s.request(&[0x02, 23], 23), Some(vec![1, 2, 0, 0, 4]));
    assert_eq!(s.request(&[0x0a, 3, 0, 0], 23), Some(vec![1, 0x0a, 3, 0, 4]));
    assert_eq!(s.request(&[0x0c, 3, 0, 99, 0], 23), Some(vec![1, 0x0c, 3, 0, 7]));
    assert_eq!(s.request(&[0x0a, 0, 1], 23), Some(vec![1, 0x0a, 0, 1, 1]));
    assert_eq!(s.request(&[0x12, 3, 0, 1], 23), Some(vec![1, 0x12, 3, 0, 3]));
    assert_eq!(s.request(&[0x04, 9, 0, 1, 0], 23), Some(vec![1, 4, 9, 0, 1]));
    assert_eq!(s.request(&[0x16, 3, 0], 23), Some(vec![1, 0x16, 3, 0, 6]));
    let cccd = (s.handle(0x2BA4) + 1) as u8;
    assert_eq!(s.request(&[0x12, cccd, 0, 2, 0], 23), Some(vec![1, 0x12, cccd, 0, 0x13]));
    let point = cccd - 1;
    assert_eq!(s.request(&[0x12, point, 0], 23), Some(vec![1, 0x12, point, 0, 0x0d]));
}

#[test]
fn searches_stay_within_the_mtu() {
    let mut s = Server::default();
    let all = s.request(&[0x04, 1, 0, 0xFF, 0xFF], 23).unwrap();
    assert_eq!(&all[..6], &[5, 1, 1, 0, 0, 0x28]);
    assert_eq!(all.len(), 2 + 4 * 5, "five rows of four bytes fit in 23");
    let services = s.request(&[0x10, 1, 0, 0xFF, 0xFF, 0, 0x28], 64).unwrap();
    assert_eq!(&services[..8], &[0x11, 6, 1, 0, 5, 0, 0, 0x18]);
    assert_eq!(s.request(&[0x06, 1, 0, 0xFF, 0xFF, 0, 0x28, 0x49, 0x18], 23).unwrap()[..3], [7, 6, 0]);
    assert_eq!(s.request(&[0x08, 1, 0, 0xFF, 0xFF, 0, 0x2A], 23), {
        let mut row = vec![9, 13, 3, 0];
        row.extend_from_slice(b"OpenLEAudio");
        Some(row)
    });
    assert_eq!(
        s.request(&[0x08, 1, 0, 0xFF, 0xFF, 0xFF, 0x2A], 23),
        Some(vec![1, 8, 1, 0, 0x0a])
    );
}

#[test]
fn a_change_is_notified_once() {
    let mut s = Server::default();
    s.authorize();
    let h = s.handle(0x2BA3);
    s.request(&[0x12, (h + 1) as u8, 0, 1, 0], 23);
    s.update(playing(2, 0));
    s.update(playing(2, 0));
    let (handled, sent) = s.serve(None, false, 23);
    assert!(!handled);
    assert_eq!(sent, vec![vec![0x1b, h as u8, 0, 2]]);
    let (handled, sent) = s.serve(Some(&[0x0a, h as u8, 0][..]), false, 23);
    assert!(handled);
    assert_eq!(sent, vec![vec![0x0b, 2]]);
    s.reset_link();
    s.authorize();
    s.update(playing(1, 0));
    assert!(s.notifications(23).is_empty(), "a reset ends every subscription");
}
