use olea_core::bonding::{Bond, BondStore};

fn bond(address: &str, name: &str) -> Bond {
    Bond {
        identity: None,
        address: address.into(),
        address_type: 0,
        name: name.into(),
        long_term_key: [0xAB; 16],
        le_audio: true,
    }
}

#[test]
fn privacy_fields_round_trip_without_breaking_legacy_bonds() {
    let mut entry = bond("70:81:94:0D:FB:AA", "Headphones");
    entry.identity = Some(olea_core::privacy::PeerIdentity { irk: [0x55;16],
        address: olea_core::hci::BdAddr([1,2,3,4,5,0xc0]), address_type: 1 });
    let mut store = BondStore::new(); store.insert(entry.clone());
    assert!(BondStore::from_text(&store.to_text()).get(&entry.address) == Some(&entry));
    let old = format!("AA:BB:CC:DD:EE:FF | Old | true | {} | 1", "AB".repeat(16));
    assert!(BondStore::from_text(&old).get("AA:BB:CC:DD:EE:FF").unwrap().identity.is_none());
    assert!(!entry.identity.unwrap().to_string().contains("85, 85"));
}

#[test]
fn a_saved_store_reads_back_the_same() {
    let mut store = BondStore::new();
    store.insert(bond("7C:FE:62:72:B4:9A", "JBL Tune 780NC"));
    store.insert(bond("AA:BB:CC:DD:EE:FF", "JBL Tune 720BT"));

    assert!(BondStore::from_text(&store.to_text()) == store);
}

#[test]
fn address_case_does_not_create_a_second_entry() {
    let mut store = BondStore::new();
    store.insert(bond("7c:fe:62:72:b4:9a", "JBL Tune 780NC"));

    assert!(store.contains("7C:FE:62:72:B4:9A"));
    assert_eq!(store.len(), 1);
}

#[test]
fn pairing_again_replaces_the_dead_key() {
    let mut store = BondStore::new();
    store.insert(bond("7C:FE:62:72:B4:9A", "JBL Tune 780NC"));

    let mut fresh = bond("7C:FE:62:72:B4:9A", "JBL Tune 780NC");
    fresh.long_term_key = [0x11; 16];
    store.insert(fresh);

    assert_eq!(store.len(), 1);
    assert_eq!(store.get("7C:FE:62:72:B4:9A").unwrap().long_term_key, [0x11; 16]);
}

#[test]
fn a_device_can_be_forgotten() {
    let mut store = BondStore::new();
    store.insert(bond("7C:FE:62:72:B4:9A", "JBL Tune 780NC"));

    assert!(store.remove("7c:fe:62:72:b4:9a"));
    assert!(!store.remove("7C:FE:62:72:B4:9A"));
    assert!(store.is_empty());
}

#[test]
fn a_file_without_an_address_type_still_keeps_its_devices() {
    // Written before the field existed. Refusing these lines would unpair
    // every device the moment someone updated.
    let store = BondStore::from_text(
        "7C:FE:62:72:B4:9A | JBL | true | ABABABABABABABABABABABABABABABAB
",
    );

    assert_eq!(store.len(), 1);
    assert_eq!(store.get("7C:FE:62:72:B4:9A").unwrap().address_type, 0);
}

#[test]
fn a_random_address_survives_a_round_trip() {
    let mut store = BondStore::new();
    let mut random = bond("7C:FE:62:72:B4:9A", "JBL Tune 780NC");
    random.address_type = 1;
    store.insert(random);

    let reloaded = BondStore::from_text(&store.to_text());
    assert_eq!(reloaded.get("7C:FE:62:72:B4:9A").unwrap().address_type, 1);
}

#[test]
fn a_damaged_line_costs_one_device_not_the_file() {
    let store = BondStore::from_text(
        "7C:FE:62:72:B4:9A | JBL | true | ABABABABABABABABABABABABABABABAB\n\
         AA:BB:CC:DD:EE:FF | Broken | true | nonsense\n",
    );

    assert_eq!(store.len(), 1);
    assert!(store.contains("7C:FE:62:72:B4:9A"));
}

#[test]
fn the_summary_never_contains_the_key() {
    let summary = bond("7C:FE:62:72:B4:9A", "JBL Tune 780NC").describe();

    assert!(summary.contains("JBL Tune 780NC"));
    assert!(!summary.to_ascii_uppercase().contains("ABAB"));
}

#[test]
fn a_device_is_matched_by_address_or_identity() {
    let mut entry = bond("70:81:94:0D:FB:AA", "Headphones");
    let shown = olea_core::hci::BdAddr::parse("70:81:94:0d:fb:aa").unwrap();
    assert!(entry.matches(shown, 0));
    assert!(!entry.matches(shown, 1));
    let hidden = olea_core::hci::BdAddr([1, 2, 3, 4, 5, 0xC0]);
    assert!(!entry.matches(hidden, 1));
    entry.identity = Some(olea_core::privacy::PeerIdentity {
        irk: [0x55; 16],
        address: hidden,
        address_type: 1,
    });
    assert!(entry.matches(hidden, 1));
}

#[test]
fn forgetting_one_device_keeps_the_others() {
    let mut store = BondStore::new();
    assert!(store.is_empty());
    store.insert(bond("AA:BB:CC:DD:EE:FF", "One"));
    store.insert(bond("11:22:33:44:55:66", "Two"));
    assert!(!store.remove("00:00:00:00:00:00"));
    assert!(store.remove("aa:bb:cc:dd:ee:ff"));
    assert_eq!(store.len(), 1);
    assert!(store.contains("11:22:33:44:55:66") && !store.contains("AA:BB:CC:DD:EE:FF"));
    assert_eq!(store.get("11:22:33:44:55:66").unwrap().describe(), "Two (LE Audio, 11:22:33:44:55:66)");
}
