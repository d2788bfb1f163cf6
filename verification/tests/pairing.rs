use olea_core::att::{Characteristic, ServiceRange, Uuid};
use olea_core::bonding::{Bond, BondStore};
use olea_core::controller::DiscoveredDevice;
use olea_core::hci::BdAddr;
use olea_core::multipoint::Availability;
use olea_core::pairing::{
    acl_phy, bond_after, find_control_point, friendly_name, listed_as, stream_service,
    target_device, usable_key, useful_device_name, Ending, Order, Setup, Stage, Target,
};
use olea_core::privacy::PeerIdentity;

const ADDRESS: &str = "7C:FE:62:72:B4:9A";

fn bond(name: &str) -> Bond {
    Bond {
        identity: None,
        address: ADDRESS.into(),
        address_type: 1,
        name: name.into(),
        long_term_key: [0xAB; 16],
        le_audio: true,
    }
}

fn device(name: Option<&str>) -> DiscoveredDevice {
    DiscoveredDevice {
        address: BdAddr::parse(ADDRESS).unwrap(),
        address_type: 0,
        rssi: -40,
        name: name.map(str::to_string),
        appearance: None,
        service_uuids: vec![],
    }
}

#[test]
fn a_missing_name_does_not_replace_a_useful_one() {
    assert!(useful_device_name("JBL", ADDRESS));
    for name in ["", "   ", ADDRESS, "7c:fe:62:72:b4:9a", "(Unnamed)", " (bez JMENA) "] {
        assert!(!useful_device_name(name, ADDRESS), "{name:?}");
    }
    let stored = bond("JBL");
    assert_eq!(friendly_name("Tune", Some(&stored), ADDRESS), "Tune");
    assert_eq!(friendly_name("(unnamed)", Some(&stored), ADDRESS), "JBL");
    assert_eq!(friendly_name("", Some(&bond("")), ADDRESS), ADDRESS);
    assert_eq!(friendly_name("", None, ADDRESS), ADDRESS);
}

#[test]
fn a_private_address_is_listed_as_the_device_it_belongs_to() {
    let mut store = BondStore::new();
    let mut hidden = bond("JBL");
    hidden.identity = Some(PeerIdentity {
        irk: [
            0x9b, 0x7d, 0x39, 0x0a, 0xa6, 0x10, 0x10, 0x34, 0x05, 0xad, 0xc8, 0x57, 0xa3, 0x34,
            0x02, 0xec,
        ],
        address: BdAddr([0; 6]),
        address_type: 0,
    });
    store.insert(hidden);
    assert_eq!(listed_as(&store, "70:81:94:0D:FB:AA", 1), (ADDRESS.to_string(), true));
    assert_eq!(
        listed_as(&store, "70:81:94:0D:FB:AB", 1),
        ("70:81:94:0D:FB:AB".to_string(), false)
    );
    assert_eq!(listed_as(&store, "nonsense", 1), ("nonsense".to_string(), false));
}

#[test]
fn a_bonded_device_is_aimed_at_without_a_scan() {
    let mut store = BondStore::new();
    assert_eq!(
        target_device(&store, &[], ADDRESS).unwrap_err(),
        "device is not in the scan results; start a scan first"
    );
    match target_device(&store, &[device(Some("seen"))], "7c:fe:62:72:b4:9a").unwrap() {
        Target::Device(found) => assert_eq!(found.name.as_deref(), Some("seen")),
        Target::Search(_) => panic!("there is no identity to look for"),
    }
    store.insert(bond("JBL"));
    match target_device(&store, &[], ADDRESS).unwrap() {
        Target::Device(found) => {
            assert_eq!(found.address.to_string(), ADDRESS);
            assert_eq!(found.address_type, 1);
            assert_eq!(found.name.as_deref(), Some("JBL"));
            assert_eq!(found.rssi, 0);
        }
        Target::Search(_) => panic!("there is no identity to look for"),
    }
    let mut odd = bond("odd");
    odd.address = "somewhere".into();
    store.insert(odd);
    assert_eq!(
        target_device(&store, &[], "SOMEWHERE").unwrap_err(),
        "address could not be read"
    );
}

#[test]
fn a_peer_with_an_identity_is_looked_for_first() {
    let mut store = BondStore::new();
    let mut hidden = bond("JBL");
    let identity =
        PeerIdentity { irk: [1; 16], address: BdAddr([1, 2, 3, 4, 5, 0xC0]), address_type: 1 };
    hidden.identity = Some(identity);
    store.insert(hidden);
    match target_device(&store, &[device(None)], ADDRESS).unwrap() {
        Target::Search(fallback) => {
            assert_eq!(fallback.address, BdAddr([1, 2, 3, 4, 5, 0xC0]));
            assert_eq!(fallback.address_type, 1);
        }
        Target::Device(_) => panic!("the identity comes first"),
    }
}

#[test]
fn a_blank_key_is_no_key() {
    let mut stored = bond("JBL");
    assert_eq!(usable_key(Some(&stored)), Some([0xAB; 16]));
    stored.long_term_key = [0; 16];
    assert_eq!(usable_key(Some(&stored)), None);
    stored.long_term_key[15] = 1;
    assert!(usable_key(Some(&stored)).is_some());
    assert_eq!(usable_key(None), None);
}

#[test]
fn the_new_bond_keeps_what_was_known() {
    let identity = PeerIdentity { irk: [1; 16], address: BdAddr([0; 6]), address_type: 0 };
    let fresh = bond_after(None, &device(Some("JBL")), ADDRESS, [7; 16], false, Some(identity));
    assert_eq!(fresh.name, "JBL");
    assert_eq!(fresh.address_type, 0);
    assert_eq!(fresh.long_term_key, [7; 16]);
    assert!(!fresh.le_audio);
    assert!(fresh.identity == Some(identity));

    let stored = bond("Old");
    let again =
        bond_after(Some(&stored), &device(None), ADDRESS, [7; 16], true, Some(identity));
    assert_eq!(again.name, "Old");
    assert_eq!(again.address_type, 1);
    assert!(again.le_audio, "said so when it was paired");
    assert!(again.identity.is_none(), "the stored identity is kept");
}

#[test]
fn the_control_point_is_found_in_its_service() {
    let services = [
        ServiceRange { start_handle: 1, end_handle: 9, uuid: Uuid::Short(0x1850) },
        ServiceRange { start_handle: 10, end_handle: 20, uuid: Uuid::Short(0x184E) },
    ];
    assert_eq!(stream_service(&services).unwrap().start_handle, 10);
    assert!(stream_service(&services[..1]) == Err("device does not expose the ASCS service"));
    let characteristics = [Characteristic {
        declaration_handle: 11,
        properties: 0x18,
        value_handle: 12,
        uuid: Uuid::Short(0x2BC6),
    }];
    assert_eq!(find_control_point(&characteristics), Ok(12));
    assert_eq!(find_control_point(&[]), Err("ASCS has no control point"));
}

#[test]
fn the_phy_setting_is_a_bit_mask() {
    assert_eq!(acl_phy(Some("1M")), 1);
    assert_eq!(acl_phy(Some("2M")), 2);
    assert_eq!(acl_phy(Some("auto")), 3);
    assert_eq!(acl_phy(None), 3);
}

fn go(order: Order) -> Stage {
    match order {
        Order::Go(stage) => stage,
        other => panic!("expected a step, got {other:?}"),
    }
}

#[test]
fn a_new_device_is_paired_before_it_is_remembered() {
    let mut setup = Setup::new(false);
    let mut seen = vec![setup.stage];
    for _ in 0..9 {
        let ending = match setup.stage {
            Stage::ReadingCapabilities => Ending::Read(Availability::Ready),
            _ => Ending::Done,
        };
        seen.push(go(setup.advance(ending)));
    }
    assert_eq!(
        seen,
        vec![
            Stage::Connecting,
            Stage::OpeningLink,
            Stage::Pairing { again: false },
            Stage::SavingBond,
            Stage::ChoosingPhy,
            Stage::ReadingCapabilities,
            Stage::FindingControlPoint,
            Stage::AttachingVolume,
            Stage::AttachingBatteries,
            Stage::Playing,
        ]
    );
    assert!(setup.reached_link && !setup.reused_bond);
    assert!(matches!(setup.advance(Ending::Done), Order::Finished));
}

fn given_up(order: Order) -> (bool, String) {
    match order {
        Order::GiveUp { disconnect, text } => (disconnect, text),
        other => panic!("expected an end, got {other:?}"),
    }
}

#[test]
fn every_failure_names_its_step() {
    let cases = [
        (Stage::Connecting, false, "connection failed: x"),
        (Stage::OpeningLink, true, "connection could not be opened: x"),
        (Stage::ResumingEncryption, true, "encryption could not be restored: x"),
        (Stage::Pairing { again: false }, true, "pairing failed: x"),
        (Stage::Pairing { again: true }, true, "pairing again failed: x"),
        (Stage::ReadingCapabilities, true, "capability discovery failed: x"),
        (Stage::FindingControlPoint, true, "x"),
        (Stage::Playing, true, "x"),
    ];
    for (stage, disconnect, text) in cases {
        let mut setup = Setup { stage, ..Setup::new(true) };
        assert_eq!(
            given_up(setup.advance(Ending::Failed("x".into()))),
            (disconnect, text.to_string())
        );
        assert_eq!(setup.stage, Stage::Ended);
    }
    for stage in [Stage::SavingBond, Stage::ChoosingPhy, Stage::AttachingVolume] {
        let mut setup = Setup { stage, ..Setup::new(true) };
        go(setup.advance(Ending::Failed("x".into())));
    }
}

#[test]
fn only_a_rejected_key_leads_to_a_new_pairing() {
    let resuming = Setup { stage: Stage::ResumingEncryption, ..Setup::new(true) };
    let mut setup = resuming;
    assert_eq!(
        go(setup.advance(Ending::KeyRejected("no".into()))),
        Stage::Pairing { again: true }
    );
    let mut setup = resuming;
    assert_eq!(go(setup.advance(Ending::Done)), Stage::SavingBond);
    assert!(setup.reused_bond);
}

#[test]
fn a_device_that_cannot_play_is_left_alone() {
    let reading = Setup { stage: Stage::ReadingCapabilities, ..Setup::new(true) };
    let mut setup = reading;
    let (disconnect, text) = given_up(setup.advance(Ending::Read(Availability::NoMediaSupport)));
    assert!(disconnect);
    assert_eq!(text, "headphones do not support media playback over LE Audio");
    let mut setup = reading;
    assert_eq!(
        go(setup.advance(Ending::Read(Availability::BusyElsewhere))),
        Stage::FindingControlPoint
    );
}
