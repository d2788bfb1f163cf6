use olea_core::hci::BdAddr;
use olea_core::privacy::PeerIdentity;

#[test]
fn resolves_core_specification_d7_vector_in_wire_order() {
    let identity = PeerIdentity { irk: [0x9b,0x7d,0x39,0x0a,0xa6,0x10,0x10,0x34,0x05,0xad,0xc8,0x57,0xa3,0x34,0x02,0xec],
        address: BdAddr([0;6]), address_type: 0 };
    let rpa = BdAddr::parse("70:81:94:0D:FB:AA").unwrap();
    assert!(identity.matches(rpa, 1));
    assert!(!identity.matches(rpa, 0));
    assert!(!identity.matches(BdAddr::parse("70:81:94:0D:FB:AB").unwrap(), 1));
}
#[test]
fn rejects_truncated_or_non_identity_address() {
    assert!(PeerIdentity::from_pdus(&[8;16], &[9;8]).is_err());
    let mut key = [0;17]; key[0] = 8;
    assert!(PeerIdentity::from_pdus(&key, &[9,1,0,0,0,0,0,0x40]).is_err());
    assert!(PeerIdentity::from_pdus(&key, &[9,1,1,2,3,4,5,0xc0]).is_ok());
}

#[test]
fn an_identity_address_is_recognised_with_or_without_a_key() {
    let address = BdAddr([1, 2, 3, 4, 5, 0xC0]);
    let identity = PeerIdentity { irk: [0; 16], address, address_type: 1 };
    assert!(identity.matches(address, 1));
    assert!(!identity.matches(address, 0));
    // A blank key resolves nothing, whatever the cipher would make of it.
    assert!(!identity.matches(BdAddr::parse("70:81:94:0D:FB:AA").unwrap(), 1));
    assert!(identity.same(&PeerIdentity { irk: [0; 16], address, address_type: 1 }));
    assert!(!identity.same(&PeerIdentity { irk: [1; 16], address, address_type: 1 }));
    assert_eq!(
        identity.to_string(),
        "PeerIdentity { address: BdAddr(C0:05:04:03:02:01), address_type: 1, .. }"
    );
}

#[test]
fn distributed_identities_are_read_in_wire_order() {
    let mut key = [7u8; 17];
    key[0] = 8;
    let identity = PeerIdentity::from_pdus(&key, &[9, 0, 1, 2, 3, 4, 5, 6]).unwrap();
    assert_eq!(identity.irk, [7; 16]);
    assert_eq!(identity.address.to_string(), "06:05:04:03:02:01");
    assert_eq!(identity.address_type, 0);
    assert!(PeerIdentity::from_pdus(&key, &[9, 2, 1, 2, 3, 4, 5, 6]).is_err());
    assert!(PeerIdentity::from_pdus(&[8; 17], &[8, 0, 1, 2, 3, 4, 5, 6]).is_err());
}
