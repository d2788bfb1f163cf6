use olea_core::radio::{connection, connection_command, range, range_command};

#[test]
fn signed_power_and_sentinels() {
    assert_eq!(range(&[0, 236, 10]), Some((-20, 10)));
    assert_eq!(connection(&[0, 12, 0, 2, 127, 10], 12, 2), Some((None, Some(10))));
    assert_eq!(connection(&[0, 12, 0, 2, 126, 127], 12, 2), Some((None, None)));
}

#[test]
fn rejects_wrong_handle_phy_status_and_truncation() {
    for p in [&[0, 13, 0, 2, 4, 10][..], &[0, 12, 0, 1, 4, 10], &[1, 12, 0, 2, 4, 10], &[0, 12, 0]] {
        assert!(connection(p, 12, 2).is_none());
    }
    assert!(range(&[0, 10, 236]).is_none());
}

#[test]
fn uses_read_only_standard_commands() {
    assert_eq!(range_command(), [0x4b, 0x20, 0]);
    assert_eq!(connection_command(12, 1), [0x76, 0x20, 3, 12, 0, 1]);
}
