//! From a device in a list to a connection that can play.
//!
//! Which device an address means, under which name and key it is remembered,
//! and in what order a connection is built. The radio work itself is done
//! elsewhere; it is told the next step and hands back how that step ended.

use crate::att::{Characteristic, ServiceRange};
use crate::bonding::{found, Bond, BondStore, Remembered};
use crate::controller::{Advertised, DiscoveredDevice};
use crate::hci::{address_of, address_text, BdAddr};
use crate::link::pacs_uuid::{ASE_CONTROL_POINT, SERVICE_ASCS};
use crate::link::{
    characteristic_place, find_characteristic, find_service, service_place,
};
use crate::multipoint::{availability_sentence, Availability};
use crate::privacy::{hash_agrees, is_blank, is_resolvable, random_part, PeerIdentity};
use crate::text::{same_chars, same_ignoring_case, to_chars, trim, trim_chars, upper, upper_chars};
use vstd::prelude::*;
use vstd::string::*;

verus! {

// ---- Names ----

/// Whether a name says more than the address does.
pub open spec fn is_useful_name(name: Seq<char>, address: Seq<char>) -> bool {
    let own = upper(trim(name));
    own.len() > 0 && own != upper(address) && own != upper("(unnamed)"@) && own != upper(
        "(bez jmena)"@,
    )
}

/// Whether a name says more than the address does: it is not empty, not the
/// address, and not one of the texts that stand for a missing name.
pub fn useful_device_name(name: &str, address: &str) -> (yes: bool)
    ensures
        yes == is_useful_name(name@, address@),
{
    let chars = to_chars(name);
    let own = upper_chars(trim_chars(&chars));
    own.len() > 0 && !same_chars(&own, &upper_chars(&to_chars(address))) && !same_chars(
        &own,
        &upper_chars(&to_chars("(unnamed)")),
    ) && !same_chars(&own, &upper_chars(&to_chars("(bez jmena)")))
}

/// The name a device goes by: what it advertises, else what it was remembered
/// as, else its address.
pub open spec fn name_for(
    advertised: Seq<char>,
    stored: Option<Remembered>,
    address: Seq<char>,
) -> Seq<char> {
    if is_useful_name(advertised, address) {
        advertised
    } else {
        match stored {
            Some(bond) => if is_useful_name(bond.name, address) {
                bond.name
            } else {
                address
            },
            None => address,
        }
    }
}

/// What a bond remembers, when there is one.
pub open spec fn bond_view(bond: Option<&Bond>) -> Option<Remembered> {
    match bond {
        Some(b) => Some(b@),
        None => None,
    }
}

/// The name a device goes by.
///
/// Advertising names are optional and may disappear between scans. A useful
/// paired name is not replaced with the address just because one particular
/// advertisement was nameless.
pub fn friendly_name(advertised: &str, stored: Option<&Bond>, address: &str) -> (name: String)
    ensures
        name@ == name_for(advertised@, bond_view(stored), address@),
{
    if useful_device_name(advertised, address) {
        return String::from_str(advertised);
    }
    match stored {
        Some(bond) => if useful_device_name(bond.name.as_str(), address) {
            bond.name.clone()
        } else {
            String::from_str(address)
        },
        None => String::from_str(address),
    }
}

// ---- Devices ----

/// Whether a device that shows this address is the remembered one: by its stored
/// address in either case of letters, or by its identity.
pub open spec fn is_shown(bond: Remembered, address: Seq<u8>, address_type: u8) -> bool {
    ||| upper(bond.address) == upper(address_text(address)) && bond.address_type == address_type
    ||| bond.identity matches Some(identity) && {
        ||| address == identity.address && address_type == identity.address_type
        ||| {
            &&& address_type == 1
            &&& is_resolvable(address)
            &&& !is_blank(identity.irk)
            &&& hash_agrees(
                crate::privacy::aes128(identity.irk.reverse(), random_part(address)),
                address,
            )
        }
    }
}

/// The first remembered device that shows this address.
pub open spec fn first_shown(
    bonds: Seq<Remembered>,
    address: Seq<u8>,
    address_type: u8,
) -> Option<Remembered>
    decreases bonds.len(),
{
    if bonds.len() == 0 {
        None
    } else if is_shown(bonds[0], address, address_type) {
        Some(bonds[0])
    } else {
        first_shown(bonds.skip(1), address, address_type)
    }
}

fn owner_of(bonds: &BondStore, address: BdAddr, address_type: u8) -> (owner: Option<&Bond>)
    ensures
        bond_view(owner) == first_shown(bonds@, address.0@, address_type),
{
    let all = bonds.all();
    let ghost views = bonds@;
    let mut i: usize = 0;
    assert(views.skip(0) =~= views);
    while i < all.len()
        invariant
            i <= all@.len(),
            views == bonds@,
            views == crate::bonding::bond_views(all@),
            first_shown(views, address.0@, address_type) == first_shown(
                views.skip(i as int),
                address.0@,
                address_type,
            ),
        decreases all@.len() - i,
    {
        assert(views.skip(i as int)[0] == all@[i as int]@);
        assert(views.skip(i as int).skip(1) =~= views.skip(i + 1));
        if all[i].matches(address, address_type) {
            return Some(&all[i]);
        }
        i = i + 1;
    }
    None
}

/// The address a scanned device is listed under: that of the bond it belongs to,
/// else the one it showed.
pub open spec fn listed_address(
    bonds: Seq<Remembered>,
    address: Seq<char>,
    address_type: u8,
) -> Seq<char> {
    match address_of(address) {
        Some(bytes) => match first_shown(bonds, bytes, address_type) {
            Some(bond) => bond.address,
            None => address,
        },
        None => address,
    }
}

/// The address a scanned device is listed under, and whether it is paired.
///
/// A headset that hides behind a changing private address is listed under the
/// address it was paired as, so that it is one device in the list and not a new
/// one every quarter of an hour.
pub fn listed_as(bonds: &BondStore, address: &str, address_type: u8) -> (listed: (String, bool))
    ensures
        listed.0@ == listed_address(bonds@, address@, address_type),
        listed.1 == (found(bonds@, upper(listed.0@)) is Some),
{
    let shown = match BdAddr::parse(address) {
        Some(own) => match owner_of(bonds, own, address_type) {
            Some(bond) => bond.address.clone(),
            None => String::from_str(address),
        },
        None => String::from_str(address),
    };
    let paired = bonds.contains(shown.as_str());
    (shown, paired)
}

/// The first scanned device with this address, in either case of letters.
pub open spec fn first_scanned(devices: Seq<Advertised>, address: Seq<char>) -> Option<Advertised>
    decreases devices.len(),
{
    if devices.len() == 0 {
        None
    } else if upper(address_text(devices[0].address)) == upper(address) {
        Some(devices[0])
    } else {
        first_scanned(devices.skip(1), address)
    }
}

/// A device known from its bond alone.
pub open spec fn unseen(address: Seq<u8>, address_type: u8, name: Seq<char>) -> Advertised {
    Advertised {
        address,
        address_type,
        rssi: 0,
        name: Some(name),
        appearance: None,
        services: Seq::empty(),
    }
}

fn unseen_device(address: BdAddr, address_type: u8, name: &String) -> (device: DiscoveredDevice)
    ensures
        device@ == unseen(address.0@, address_type, name@),
{
    let device = DiscoveredDevice {
        address,
        address_type,
        rssi: 0,
        name: Some(name.clone()),
        appearance: None,
        service_uuids: Vec::new(),
    };
    assert(device@ =~= unseen(address.0@, address_type, name@));
    device
}

/// What to aim a connection at.
#[derive(Debug)]
pub enum Target {
    /// The peer may be hiding behind a private address: look for it first, and
    /// aim at this device if it does not turn up.
    Search(DiscoveredDevice),
    /// Aim at this device.
    Device(DiscoveredDevice),
}

/// What to aim a connection at.
pub enum Aim {
    Search(Advertised),
    Device(Advertised),
}

impl View for Target {
    type V = Aim;

    open spec fn view(&self) -> Aim {
        match *self {
            Target::Search(device) => Aim::Search(device@),
            Target::Device(device) => Aim::Device(device@),
        }
    }
}

/// What an address is aimed at, or why it cannot be aimed at.
pub open spec fn aim(
    bonds: Seq<Remembered>,
    scanned: Seq<Advertised>,
    address: Seq<char>,
) -> Result<Aim, Seq<char>> {
    let bond = found(bonds, upper(address));
    if bond matches Some(b) && b.identity is Some {
        let identity = bond->0.identity->0;
        Ok(Aim::Search(unseen(identity.address, identity.address_type, bond->0.name)))
    } else if first_scanned(scanned, address) is Some {
        Ok(Aim::Device(first_scanned(scanned, address)->0))
    } else if bond is None {
        Err("device is not in the scan results; start a scan first"@)
    } else {
        match address_of(address) {
            Some(bytes) => Ok(
                Aim::Device(unseen(bytes, bond->0.address_type, bond->0.name)),
            ),
            None => Err("address could not be read"@),
        }
    }
}

/// What a target stands for, or why there is none.
pub open spec fn target_view(target: Result<Target, &'static str>) -> Result<Aim, Seq<char>> {
    match target {
        Ok(t) => Ok(t@),
        Err(text) => Err(text@),
    }
}

/// The device to aim at, from this session's scan or from what is already known.
///
/// A reconnect does not depend on a scan having happened. The bond stores the
/// address, and a bonded peer can be connected to directly - requiring a fresh
/// scan first is both slower and a reason for automatic reconnect to fail with
/// "start a scan first" at the exact moment nobody is watching.
pub fn target_device(bonds: &BondStore, scanned: &[DiscoveredDevice], address: &str) -> (target:
    Result<Target, &'static str>)
    ensures
        target_view(target) == aim(bonds@, crate::controller::device_views(scanned@), address@),
{
    let bond = bonds.get(address);
    if let Some(b) = bond {
        if let Some(identity) = &b.identity {
            return Ok(
                Target::Search(unseen_device(identity.address, identity.address_type, &b.name)),
            );
        }
    }
    let ghost views = crate::controller::device_views(scanned@);
    let mut i: usize = 0;
    assert(views.skip(0) =~= views);
    while i < scanned.len()
        invariant
            i <= scanned@.len(),
            views == crate::controller::device_views(scanned@),
            bond_view(bond) == found(bonds@, upper(address@)),
            bond matches Some(b) ==> b@.identity is None,
            first_scanned(views, address@) == first_scanned(views.skip(i as int), address@),
        decreases scanned@.len() - i,
    {
        assert(views.skip(i as int)[0] == scanned@[i as int]@);
        assert(views.skip(i as int).skip(1) =~= views.skip(i + 1));
        if same_ignoring_case(scanned[i].address.to_string().as_str(), address) {
            return Ok(Target::Device(scanned[i].clone()));
        }
        i = i + 1;
    }
    match bond {
        Some(b) => match BdAddr::parse(address) {
            Some(parsed) => Ok(Target::Device(unseen_device(parsed, b.address_type, &b.name))),
            None => Err("address could not be read"),
        },
        None => Err("device is not in the scan results; start a scan first"),
    }
}

/// A bonded device can always be aimed at, whatever was scanned.
pub proof fn a_bonded_device_needs_no_scan(
    bonds: Seq<Remembered>,
    scanned: Seq<Advertised>,
    address: Seq<char>,
)
    requires
        found(bonds, upper(address)) is Some,
        address_of(address) is Some,
    ensures
        aim(bonds, scanned, address) is Ok,
{
}

// ---- Keys ----

/// The key a bond offers, unless it is all zeros and stands for none.
pub open spec fn key_of_bond(bond: Option<Remembered>) -> Option<Seq<u8>> {
    match bond {
        Some(b) => if is_blank(b.long_term_key) {
            None
        } else {
            Some(b.long_term_key)
        },
        None => None,
    }
}

/// The key a bond offers. One that is all zeros is no key.
pub fn usable_key(bond: Option<&Bond>) -> (key: Option<[u8; 16]>)
    ensures
        match key {
            Some(k) => key_of_bond(bond_view(bond)) == Some(k@),
            None => key_of_bond(bond_view(bond)) is None,
        },
{
    match bond {
        Some(b) => {
            let key = b.long_term_key;
            let mut i: usize = 0;
            while i < 16
                invariant
                    i <= 16,
                    bond_view(bond) matches Some(own) && own.long_term_key == key@,
                    forall|j: int| 0 <= j < i ==> key@[j] == 0,
                decreases 16 - i,
            {
                if key[i] != 0 {
                    assert(key@[i as int] != 0);
                    return Some(key);
                }
                i = i + 1;
            }
            None
        },
        None => None,
    }
}

/// The bond that a finished pairing leaves behind.
pub open spec fn new_bond(
    stored: Option<Remembered>,
    device: Advertised,
    address: Seq<char>,
    name: Seq<char>,
    key: Seq<u8>,
    le_audio: bool,
    identity: Option<crate::privacy::Identity>,
) -> Remembered {
    Remembered {
        identity,
        address,
        address_type: match stored {
            Some(bond) => bond.address_type,
            None => device.address_type,
        },
        name,
        long_term_key: key,
        le_audio,
    }
}

/// Whether a device does LE Audio: it says so now, or said so when it was paired.
pub fn does_le_audio(device: &DiscoveredDevice, stored: Option<&Bond>) -> (yes: bool)
    ensures
        yes == ((exists|i: int|
            0 <= i < device@.services.len() && crate::controller::is_audio_service(
                #[trigger] device@.services[i],
            )) || (bond_view(stored) matches Some(bond) && bond.le_audio)),
{
    device.is_le_audio() || match stored {
        Some(bond) => bond.le_audio,
        None => false,
    }
}

/// An identity, as far as there is one.
pub open spec fn identity_view(identity: Option<PeerIdentity>) -> Option<
    crate::privacy::Identity,
> {
    match identity {
        Some(own) => Some(own@),
        None => None,
    }
}

/// The identity that goes into a bond: the stored one when the stored key still
/// worked, else the one that this pairing exchanged.
pub open spec fn kept_identity(
    reused: bool,
    stored: Option<Remembered>,
    fresh: Option<crate::privacy::Identity>,
) -> Option<crate::privacy::Identity> {
    if reused {
        match stored {
            Some(bond) => bond.identity,
            None => None,
        }
    } else {
        fresh
    }
}

/// Whether a device says now that it does LE Audio.
pub open spec fn shows_le_audio(device: Advertised) -> bool {
    exists|i: int|
        0 <= i < device.services.len() && crate::controller::is_audio_service(
            #[trigger] device.services[i],
        )
}

/// What is remembered of a device whose key exists.
pub open spec fn bond_left(
    stored: Option<Remembered>,
    device: Advertised,
    address: Seq<char>,
    key: Seq<u8>,
    reused: bool,
    fresh: Option<crate::privacy::Identity>,
) -> Remembered {
    new_bond(
        stored,
        device,
        address,
        name_for(
            match device.name {
                Some(own) => own,
                None => address_text(device.address),
            },
            stored,
            address,
        ),
        key,
        shows_le_audio(device) || (stored matches Some(b) && b.le_audio),
        kept_identity(reused, stored, fresh),
    )
}

/// What is remembered of a device whose key exists.
///
/// The kind of address comes from the bond, else from the advertisement that
/// led here. Without it a later reconnect has to guess, and guessing wrong
/// never completes.
pub fn bond_after(
    stored: Option<&Bond>,
    device: &DiscoveredDevice,
    address: &str,
    key: [u8; 16],
    reused: bool,
    fresh: Option<PeerIdentity>,
) -> (bond: Bond)
    ensures
        bond@ == bond_left(
            bond_view(stored),
            device@,
            address@,
            key@,
            reused,
            identity_view(fresh),
        ),
{
    let identity = if reused {
        match stored {
            Some(b) => b.identity,
            None => None,
        }
    } else {
        fresh
    };
    Bond {
        identity,
        address: String::from_str(address),
        address_type: match stored {
            Some(b) => b.address_type,
            None => device.address_type,
        },
        name: friendly_name(device.display_name().as_str(), stored, address),
        long_term_key: key,
        le_audio: does_le_audio(device, stored),
    }
}

/// A text, as far as there is one.
pub open spec fn str_text(text: Option<&str>) -> Option<Seq<char>> {
    match text {
        Some(own) => Some(own@),
        None => None,
    }
}

/// The PHYs that a connection may use, as bits.
pub open spec fn preferred_phy(setting: Option<Seq<char>>) -> u8 {
    match setting {
        Some(text) => if text == "1M"@ {
            1u8
        } else if text == "2M"@ {
            2u8
        } else {
            3u8
        },
        None => 3u8,
    }
}

/// The PHY preference for the connection itself, as the controller takes it: 1M,
/// 2M, or either.
pub fn acl_phy(setting: Option<&str>) -> (phy: u8)
    ensures
        phy == preferred_phy(str_text(setting)),
{
    match setting {
        Some(text) => if crate::text::same_text(text, "1M") {
            1
        } else if crate::text::same_text(text, "2M") {
            2
        } else {
            3
        },
        None => 3,
    }
}

// ---- The control point ----

/// The audio stream control service of a device.
pub fn stream_service(services: &[ServiceRange]) -> (service: Result<ServiceRange, &'static str>)
    ensures
        ({
            let at = service_place(services@, SERVICE_ASCS);
            if at < services@.len() {
                service == Ok::<ServiceRange, &'static str>(services@[at])
            } else {
                service matches Err(text) && text@ == "device does not expose the ASCS service"@
            }
        }),
{
    match find_service(services, SERVICE_ASCS) {
        Ok(service) => Ok(service),
        Err(_) => Err("device does not expose the ASCS service"),
    }
}

/// The ASE control point among the service's characteristics, the only handle a
/// stream ever writes to.
pub fn find_control_point(characteristics: &[Characteristic]) -> (handle: Result<
    u16,
    &'static str,
>)
    ensures
        ({
            let at = characteristic_place(characteristics@, ASE_CONTROL_POINT);
            if at < characteristics@.len() {
                handle == Ok::<u16, &'static str>(characteristics@[at].value_handle)
            } else {
                handle matches Err(text) && text@ == "ASCS has no control point"@
            }
        }),
{
    match find_characteristic(characteristics, ASE_CONTROL_POINT) {
        Some(found) => Ok(found.value_handle),
        None => Err("ASCS has no control point"),
    }
}

// ---- Building a connection ----

/// Where the building of a connection stands: the step that is under way.
#[derive(Debug, Clone, Copy, PartialEq, Eq, Structural)]
pub enum Stage {
    Connecting,
    OpeningLink,
    ResumingEncryption,
    Pairing { again: bool },
    SavingBond,
    ChoosingPhy,
    ReadingCapabilities,
    FindingControlPoint,
    AttachingVolume,
    AttachingBatteries,
    Playing,
    Ended,
}

/// How a step ended.
#[derive(Debug)]
pub enum Ending {
    Done,
    /// The capabilities were read, and this is what they say.
    Read(Availability),
    /// The peer no longer has the key.
    KeyRejected(String),
    Failed(String),
}

/// How a step ended.
pub enum Ended {
    Done,
    Read(Availability),
    KeyRejected(Seq<char>),
    Failed(Seq<char>),
}

impl View for Ending {
    type V = Ended;

    open spec fn view(&self) -> Ended {
        match *self {
            Ending::Done => Ended::Done,
            Ending::Read(availability) => Ended::Read(availability),
            Ending::KeyRejected(text) => Ended::KeyRejected(text@),
            Ending::Failed(text) => Ended::Failed(text@),
        }
    }
}

/// What follows a step.
#[derive(Debug)]
pub enum Order {
    /// Take this step.
    Go(Stage),
    /// It is over, and went well.
    Finished,
    /// It is over. Disconnect first where that is said, then report the text.
    GiveUp { disconnect: bool, text: String },
}

/// What follows a step.
pub enum Ordered {
    Go(Stage),
    Finished,
    GiveUp { disconnect: bool, text: Seq<char> },
}

impl View for Order {
    type V = Ordered;

    open spec fn view(&self) -> Ordered {
        match *self {
            Order::Go(stage) => Ordered::Go(stage),
            Order::Finished => Ordered::Finished,
            Order::GiveUp { disconnect, text } => Ordered::GiveUp { disconnect, text: text@ },
        }
    }
}

/// One attempt to build a connection.
#[derive(Debug, Clone, Copy, PartialEq, Eq, Structural)]
pub struct Setup {
    pub stage: Stage,
    /// Whether a usable key is stored.
    pub has_key: bool,
    /// Whether the stored key still worked.
    pub reused_bond: bool,
    /// Whether the peer answered.
    ///
    /// Past that point a failure is about configuring a peer that can be talked
    /// to, not about a peer that is not there, and the two deserve very
    /// different retry behaviour.
    pub reached_link: bool,
}

/// The text of an error under the step it came from.
pub open spec fn stage_failure(stage: Stage, error: Seq<char>) -> Seq<char> {
    match stage {
        Stage::Connecting => "connection failed: "@ + error,
        Stage::OpeningLink => "connection could not be opened: "@ + error,
        Stage::ResumingEncryption => "encryption could not be restored: "@ + error,
        Stage::Pairing { again } => if again {
            "pairing again failed: "@ + error
        } else {
            "pairing failed: "@ + error
        },
        Stage::ReadingCapabilities => "capability discovery failed: "@ + error,
        _ => error,
    }
}

/// Whether a failure of this step only costs what the step was for: a bond file
/// that cannot be written, a PHY preference, volume control or battery levels.
pub open spec fn is_optional(stage: Stage) -> bool {
    stage is SavingBond || stage is ChoosingPhy || stage is AttachingVolume
        || stage is AttachingBatteries
}

/// The step after a step that went well.
pub open spec fn following(stage: Stage, has_key: bool) -> Stage {
    match stage {
        Stage::Connecting => Stage::OpeningLink,
        Stage::OpeningLink => if has_key {
            Stage::ResumingEncryption
        } else {
            Stage::Pairing { again: false }
        },
        Stage::ResumingEncryption => Stage::SavingBond,
        Stage::Pairing { again } => Stage::SavingBond,
        Stage::SavingBond => Stage::ChoosingPhy,
        Stage::ChoosingPhy => Stage::ReadingCapabilities,
        Stage::ReadingCapabilities => Stage::FindingControlPoint,
        Stage::FindingControlPoint => Stage::AttachingVolume,
        Stage::AttachingVolume => Stage::AttachingBatteries,
        Stage::AttachingBatteries => Stage::Playing,
        Stage::Playing => Stage::Ended,
        Stage::Ended => Stage::Ended,
    }
}

impl Setup {
    /// The attempt once its step has gone well.
    pub open spec fn moved_on(self) -> Setup {
        Setup {
            stage: following(self.stage, self.has_key),
            reached_link: self.reached_link || self.stage is Connecting,
            reused_bond: self.reused_bond || self.stage is ResumingEncryption,
            ..self
        }
    }

    /// The attempt once it is over.
    pub open spec fn given_up(self) -> Setup {
        Setup { stage: Stage::Ended, ..self }
    }

    /// What follows the end of a step.
    pub open spec fn next(self, ended: Ended) -> (Setup, Ordered) {
        let stop = |text: Seq<char>|
            (
                self.given_up(),
                Ordered::GiveUp { disconnect: !(self.stage is Connecting), text },
            );
        let go = if self.moved_on().stage is Ended {
            (self.moved_on(), Ordered::Finished)
        } else {
            (self.moved_on(), Ordered::Go(self.moved_on().stage))
        };
        match ended {
            Ended::Done => go,
            Ended::Read(availability) => if availability is NoMediaSupport {
                stop(availability_sentence(availability))
            } else {
                go
            },
            Ended::KeyRejected(text) => if self.stage is ResumingEncryption {
                (
                    Setup { stage: Stage::Pairing { again: true }, ..self },
                    Ordered::Go(Stage::Pairing { again: true }),
                )
            } else {
                stop(stage_failure(self.stage, text))
            },
            Ended::Failed(text) => if is_optional(self.stage) {
                go
            } else {
                stop(stage_failure(self.stage, text))
            },
        }
    }

    /// Starts with the connection itself.
    pub fn new(has_key: bool) -> (setup: Self)
        ensures
            setup == (Setup {
                stage: Stage::Connecting,
                has_key,
                reused_bond: false,
                reached_link: false,
            }),
    {
        Setup { stage: Stage::Connecting, has_key, reused_bond: false, reached_link: false }
    }

    fn move_on(&mut self) -> (order: Order)
        ensures
            *final(self) == old(self).moved_on(),
            order@ == if old(self).moved_on().stage is Ended {
                Ordered::Finished
            } else {
                Ordered::Go(old(self).moved_on().stage)
            },
    {
        match self.stage {
            Stage::Connecting => {
                self.reached_link = true;
                self.stage = Stage::OpeningLink;
            },
            Stage::OpeningLink => {
                self.stage = if self.has_key {
                    Stage::ResumingEncryption
                } else {
                    Stage::Pairing { again: false }
                };
            },
            Stage::ResumingEncryption => {
                self.reused_bond = true;
                self.stage = Stage::SavingBond;
            },
            Stage::Pairing { again } => {
                self.stage = Stage::SavingBond;
            },
            Stage::SavingBond => {
                self.stage = Stage::ChoosingPhy;
            },
            Stage::ChoosingPhy => {
                self.stage = Stage::ReadingCapabilities;
            },
            Stage::ReadingCapabilities => {
                self.stage = Stage::FindingControlPoint;
            },
            Stage::FindingControlPoint => {
                self.stage = Stage::AttachingVolume;
            },
            Stage::AttachingVolume => {
                self.stage = Stage::AttachingBatteries;
            },
            Stage::AttachingBatteries => {
                self.stage = Stage::Playing;
            },
            Stage::Playing | Stage::Ended => {
                self.stage = Stage::Ended;
                return Order::Finished;
            },
        }
        Order::Go(self.stage)
    }

    fn give_up(&mut self, text: String) -> (order: Order)
        ensures
            *final(self) == old(self).given_up(),
            order@ == (Ordered::GiveUp {
                disconnect: !(old(self).stage is Connecting),
                text: text@,
            }),
    {
        let disconnect = match self.stage {
            Stage::Connecting => false,
            _ => true,
        };
        self.stage = Stage::Ended;
        Order::GiveUp { disconnect, text }
    }

    fn explain(&self, error: &str) -> (text: String)
        ensures
            text@ == stage_failure(self.stage, error@),
    {
        let prefix = match self.stage {
            Stage::Connecting => "connection failed: ",
            Stage::OpeningLink => "connection could not be opened: ",
            Stage::ResumingEncryption => "encryption could not be restored: ",
            Stage::Pairing { again } => if again {
                "pairing again failed: "
            } else {
                "pairing failed: "
            },
            Stage::ReadingCapabilities => "capability discovery failed: ",
            _ => return String::from_str(error),
        };
        let mut text = String::from_str(prefix);
        text.append(error);
        text
    }

    /// Decides what follows the end of a step.
    ///
    /// A peer that cannot play at all is not asked any further. A saved key is
    /// replaced only when the peer says outright that it no longer has it; any
    /// other trouble with the encryption leaves the bond as it is. The bond is
    /// saved only once a key exists, so a failed attempt never leaves one that
    /// cannot be used, and before the slower discovery starts. Whatever goes
    /// wrong once the peer has answered, the connection is closed: the next
    /// attempt would otherwise race a ghost connection still retained by the
    /// controller and headphones.
    pub fn advance(&mut self, ending: Ending) -> (order: Order)
        ensures
            (*final(self), order@) == old(self).next(ending@),
    {
        match ending {
            Ending::Done => self.move_on(),
            Ending::Read(availability) => if availability.worth_attempting() {
                self.move_on()
            } else {
                self.give_up(String::from_str(availability.explain()))
            },
            Ending::KeyRejected(error) => match self.stage {
                Stage::ResumingEncryption => {
                    self.stage = Stage::Pairing { again: true };
                    Order::Go(self.stage)
                },
                _ => {
                    let text = self.explain(error.as_str());
                    self.give_up(text)
                },
            },
            Ending::Failed(error) => match self.stage {
                Stage::SavingBond
                | Stage::ChoosingPhy
                | Stage::AttachingVolume
                | Stage::AttachingBatteries => self.move_on(),
                _ => {
                    let text = self.explain(error.as_str());
                    self.give_up(text)
                },
            },
        }
    }
}

/// Once the peer has answered, every failure closes the connection.
pub proof fn every_later_failure_disconnects(setup: Setup, ended: Ended)
    requires
        !(setup.stage is Connecting),
        setup.next(ended).1 is GiveUp,
    ensures
        setup.next(ended).1->disconnect,
{
}

/// A bond is saved only when a key exists: straight after the saved key worked,
/// or after a pairing went through.
pub proof fn a_bond_is_saved_only_with_a_key(setup: Setup, ended: Ended)
    requires
        setup.next(ended).1 == Ordered::Go(Stage::SavingBond),
    ensures
        setup.stage is ResumingEncryption || setup.stage is Pairing,
        ended is Done || ended is Read,
{
}

/// A saved key is replaced only after an explicit rejection. Any other failure
/// to restore the encryption ends the attempt with the bond untouched.
pub proof fn a_transient_error_keeps_the_bond(setup: Setup, text: Seq<char>)
    requires
        setup.stage is ResumingEncryption,
    ensures
        setup.next(Ended::Failed(text)).1 == (Ordered::GiveUp {
            disconnect: true,
            text: "encryption could not be restored: "@ + text,
        }),
        setup.next(Ended::KeyRejected(text)).1 == Ordered::Go(Stage::Pairing { again: true }),
{
}

/// How many steps are left at most.
pub open spec fn steps_left(stage: Stage) -> nat {
    match stage {
        Stage::Connecting => 12,
        Stage::OpeningLink => 11,
        Stage::ResumingEncryption => 10,
        Stage::Pairing { again } => 9,
        Stage::SavingBond => 8,
        Stage::ChoosingPhy => 7,
        Stage::ReadingCapabilities => 6,
        Stage::FindingControlPoint => 5,
        Stage::AttachingVolume => 4,
        Stage::AttachingBatteries => 3,
        Stage::Playing => 2,
        Stage::Ended => 0,
    }
}

/// An attempt always comes to an end: no step is taken twice, whatever happens.
pub proof fn no_step_is_taken_twice(setup: Setup, ended: Ended)
    requires
        !(setup.stage is Ended),
    ensures
        steps_left(setup.next(ended).0.stage) < steps_left(setup.stage),
{
}

// ---- What pairing keeps ----

/// Resuming with the stored key changes nothing of who the peer is: its identity
/// and its kind of address stay as they were stored, and every address that the
/// bond was recognised by before is recognised by it afterwards.
pub proof fn resuming_keeps_the_peer(
    stored: Remembered,
    device: Advertised,
    key: Seq<u8>,
    fresh: Option<crate::privacy::Identity>,
    shown: Seq<u8>,
    shown_type: u8,
)
    ensures
        ({
            let bond = bond_left(Some(stored), device, stored.address, key, true, fresh);
            &&& bond.identity == stored.identity
            &&& bond.address == stored.address
            &&& bond.address_type == stored.address_type
            &&& bond.long_term_key == key
            &&& stored.le_audio ==> bond.le_audio
            &&& is_shown(bond, shown, shown_type) == is_shown(stored, shown, shown_type)
        }),
{
}

/// A new pairing replaces the key and the identity by what it exchanged, even
/// where that is no identity: the old ones belong to a peer that has forgotten
/// them. The kind of address is that of the bond, and of the advertisement only
/// where there was no bond.
pub proof fn a_new_pairing_replaces_the_identity(
    stored: Option<Remembered>,
    device: Advertised,
    address: Seq<char>,
    key: Seq<u8>,
    fresh: Option<crate::privacy::Identity>,
)
    ensures
        ({
            let bond = bond_left(stored, device, address, key, false, fresh);
            &&& bond.identity == fresh
            &&& bond.long_term_key == key
            &&& bond.address == address
            &&& stored is None ==> bond.address_type == device.address_type
            &&& stored is Some ==> bond.address_type == stored->0.address_type
        }),
{
}

/// A device counts as an LE Audio device once it has said so, by any of the
/// services PACS, ASCS, CAS and TMAS, and stays one.
pub proof fn le_audio_is_remembered(
    stored: Option<Remembered>,
    device: Advertised,
    address: Seq<char>,
    key: Seq<u8>,
    reused: bool,
    fresh: Option<crate::privacy::Identity>,
)
    ensures
        bond_left(stored, device, address, key, reused, fresh).le_audio <==> device.services.contains(
            0x184Eu16,
        ) || device.services.contains(0x1850u16) || device.services.contains(0x1853u16)
            || device.services.contains(0x1855u16) || (stored is Some && stored->0.le_audio),
{
    let all = device.services;
    if shows_le_audio(device) {
        let i = choose|i: int|
            0 <= i < all.len() && crate::controller::is_audio_service(#[trigger] all[i]);
        assert(all.contains(all[i]));
    }
    assert forall|uuid: u16|
        #![trigger all.contains(uuid)]
        all.contains(uuid) && (uuid == 0x184E || uuid == 0x1850 || uuid == 0x1853 || uuid
            == 0x1855) implies shows_le_audio(device) by {
        let i = choose|i: int| 0 <= i < all.len() && all[i] == uuid;
        assert(crate::controller::is_audio_service(all[i]));
    }
}

/// The name that is shown is the advertised one where it says anything, else the
/// remembered one where that does, else the address. An empty name, the address
/// in either case of letters and the two texts for a missing name say nothing.
pub proof fn a_name_says_more_than_the_address(
    advertised: Seq<char>,
    stored: Option<Remembered>,
    address: Seq<char>,
)
    ensures
        ({
            let name = name_for(advertised, stored, address);
            let kept = stored is Some && is_useful_name(stored->0.name, address);
            &&& is_useful_name(advertised, address) ==> name == advertised
            &&& !is_useful_name(advertised, address) && kept ==> name == stored->0.name
            &&& !is_useful_name(advertised, address) && !kept ==> name == address
        }),
        trim(advertised).len() == 0 ==> !is_useful_name(advertised, address),
        upper(trim(advertised)) == upper("(unnamed)"@) ==> !is_useful_name(advertised, address),
        upper(trim(advertised)) == upper("(bez jmena)"@) ==> !is_useful_name(advertised, address),
        upper(trim(advertised)) == upper(address) ==> !is_useful_name(advertised, address),
        trim(advertised).len() > 0 && upper(trim(advertised)) != upper(address) && upper(
            trim(advertised),
        ) != upper("(unnamed)"@) && upper(trim(advertised)) != upper("(bez jmena)"@)
            ==> is_useful_name(advertised, address),
{
}

/// A device in the list is the remembered one it belongs to: of several the first,
/// and where none is recognised the device stands under the address it shows.
pub proof fn a_shown_address_finds_its_bond(
    bonds: Seq<Remembered>,
    address: Seq<u8>,
    address_type: u8,
)
    ensures
        match first_shown(bonds, address, address_type) {
            Some(bond) => exists|i: int|
                0 <= i < bonds.len() && #[trigger] bonds[i] == bond && is_shown(
                    bond,
                    address,
                    address_type,
                ) && forall|j: int|
                    0 <= j < i ==> !is_shown(#[trigger] bonds[j], address, address_type),
            None => forall|i: int|
                0 <= i < bonds.len() ==> !is_shown(#[trigger] bonds[i], address, address_type),
        },
    decreases bonds.len(),
{
    if bonds.len() > 0 && !is_shown(bonds[0], address, address_type) {
        let rest = bonds.skip(1);
        a_shown_address_finds_its_bond(rest, address, address_type);
        match first_shown(rest, address, address_type) {
            Some(bond) => {
                let i = choose|i: int|
                    0 <= i < rest.len() && #[trigger] rest[i] == bond && is_shown(
                        bond,
                        address,
                        address_type,
                    ) && forall|j: int|
                        0 <= j < i ==> !is_shown(#[trigger] rest[j], address, address_type);
                assert(bonds[i + 1] == bond);
                assert forall|j: int| 0 <= j < i + 1 implies !is_shown(
                    #[trigger] bonds[j],
                    address,
                    address_type,
                ) by {
                    if j > 0 {
                        assert(bonds[j] == rest[j - 1]);
                    }
                }
            },
            None => {
                assert forall|i: int| 0 <= i < bonds.len() implies !is_shown(
                    #[trigger] bonds[i],
                    address,
                    address_type,
                ) by {
                    if i > 0 {
                        assert(bonds[i] == rest[i - 1]);
                    }
                }
            },
        }
    } else if bonds.len() > 0 {
        assert(bonds[0] == bonds[0]);
    }
}

/// A bond is recognised by its own address and kind, by its identity's address and
/// kind, and by whatever private address its key resolves; the kind of address
/// always counts.
pub proof fn a_bond_is_recognised_in_three_ways(
    bond: Remembered,
    address: BdAddr,
    address_type: u8,
    peer: PeerIdentity,
)
    ensures
        upper(bond.address) == upper(address_text(address.0@)) && bond.address_type == address_type
            ==> is_shown(bond, address.0@, address_type),
        bond.identity == Some(peer@) && peer.recognises(address.0@, address_type) ==> is_shown(
            bond,
            address.0@,
            address_type,
        ),
        is_shown(bond, address.0@, address_type) && bond.address_type != address_type
            ==> bond.identity is Some,
        is_shown(bond, address.0@, address_type) && upper(bond.address) != upper(
            address_text(address.0@),
        ) ==> bond.identity is Some,
        is_shown(bond, address.0@, address_type) && bond.identity == Some(peer@) && (
        bond.address_type != address_type || upper(bond.address) != upper(
            address_text(address.0@),
        )) ==> peer.recognises(address.0@, address_type),
{
}

proof fn lemma_first_scanned(devices: Seq<Advertised>, address: Seq<char>)
    ensures
        match first_scanned(devices, address) {
            Some(device) => devices.contains(device) && upper(address_text(device.address))
                == upper(address),
            None => forall|i: int|
                0 <= i < devices.len() ==> upper(address_text((#[trigger] devices[i]).address))
                    != upper(address),
        },
    decreases devices.len(),
{
    if devices.len() > 0 {
        let rest = devices.skip(1);
        lemma_first_scanned(rest, address);
        if upper(address_text(devices[0].address)) == upper(address) {
            assert(devices[0] == devices[0]);
        } else {
            match first_scanned(rest, address) {
                Some(device) => {
                    let i = choose|i: int| 0 <= i < rest.len() && rest[i] == device;
                    assert(devices[i + 1] == device);
                },
                None => {
                    assert forall|i: int| 0 <= i < devices.len() implies upper(
                        address_text((#[trigger] devices[i]).address),
                    ) != upper(address) by {
                        if i > 0 {
                            assert(devices[i] == rest[i - 1]);
                        }
                    }
                },
            }
        }
    }
}

/// What a connection is aimed at is the device that was asked for. A peer with an
/// identity is searched for, and failing that is aimed at under the identity's
/// address and kind. Any other device is taken as it was scanned, or, where only a
/// bond knows it, under the address asked for and the bond's kind. Only a device
/// that is neither scanned nor bonded asks for a scan.
pub proof fn a_connection_aims_at_the_device_asked_for(
    bonds: Seq<Remembered>,
    scanned: Seq<Advertised>,
    address: Seq<char>,
)
    ensures
        match aim(bonds, scanned, address) {
            Ok(Aim::Search(device)) => {
                let bond = found(bonds, upper(address));
                &&& bond is Some && bond->0.identity is Some
                &&& device.address == bond->0.identity->0.address
                &&& device.address_type == bond->0.identity->0.address_type
                &&& device.name == Some(bond->0.name)
            },
            Ok(Aim::Device(device)) => {
                ||| scanned.contains(device) && upper(address_text(device.address)) == upper(
                    address,
                )
                ||| {
                    let bond = found(bonds, upper(address));
                    &&& bond is Some
                    &&& address_of(address) == Some(device.address)
                    &&& device.address_type == bond->0.address_type
                    &&& device.name == Some(bond->0.name)
                }
            },
            Err(_) => found(bonds, upper(address)) is None || address_of(address) is None,
        },
        found(bonds, upper(address)) is Some && found(bonds, upper(address))->0.identity is Some
            <==> aim(bonds, scanned, address) is Ok && aim(bonds, scanned, address)->Ok_0 is Search,
        forall|i: int|
            0 <= i < scanned.len() && upper(address_text((#[trigger] scanned[i]).address)) == upper(
                address,
            ) ==> aim(bonds, scanned, address) is Ok,
{
    lemma_first_scanned(scanned, address);
}

/// A bond offers its key exactly when one of its bytes is set: a key of zeros
/// stands for none.
pub proof fn a_key_of_zeros_is_no_key(bond: Remembered)
    ensures
        key_of_bond(None) is None,
        (exists|i: int| 0 <= i < bond.long_term_key.len() && bond.long_term_key[i] != 0)
            ==> key_of_bond(Some(bond)) == Some(bond.long_term_key),
        (forall|i: int| 0 <= i < bond.long_term_key.len() ==> bond.long_term_key[i] == 0)
            ==> key_of_bond(Some(bond)) is None,
{
}

/// A connection is built one step at a time. A step that went well leads to the
/// next one down; only encryption and pairing stand in each other's place: a
/// stored key is tried first, and a pairing takes its place where there is none.
pub proof fn a_connection_is_built_in_turn(setup: Setup, ended: Ended)
    requires
        ended is Done || (ended is Read && !(ended->Read_0 is NoMediaSupport)),
        !(setup.stage is Ended),
    ensures
        ({
            let next = setup.next(ended).0;
            &&& setup.next(ended).1 == if setup.stage is Playing {
                Ordered::Finished
            } else {
                Ordered::Go(next.stage)
            }
            &&& setup.stage is OpeningLink && setup.has_key ==> next.stage is ResumingEncryption
            &&& setup.stage is OpeningLink && !setup.has_key ==> next.stage == (Stage::Pairing {
                again: false,
            })
            &&& setup.stage is ResumingEncryption || setup.stage is Pairing ==> next.stage
                is SavingBond
            &&& !(setup.stage is OpeningLink) && !(setup.stage is ResumingEncryption) && !(
            setup.stage is Playing) ==> steps_left(next.stage) == steps_left(setup.stage) - 1
            &&& next.has_key == setup.has_key
            &&& next.reached_link == (setup.reached_link || setup.stage is Connecting)
            &&& next.reused_bond == (setup.reused_bond || setup.stage is ResumingEncryption)
        }),
{
}

/// What a failure costs. Saving the bond, the PHY, the volume and the batteries
/// may fail, and the connection goes on as if they had not; anything else ends the
/// attempt, and so does a device that cannot play at all. Whatever ends it leaves
/// unsaid what did not happen: neither a peer that answered nor a key that worked.
pub proof fn only_extras_may_fail(setup: Setup, text: Seq<char>)
    requires
        !(setup.stage is Ended),
    ensures
        ({
            let (next, order) = setup.next(Ended::Failed(text));
            let extra = setup.stage is SavingBond || setup.stage is ChoosingPhy || setup.stage
                is AttachingVolume || setup.stage is AttachingBatteries;
            &&& extra ==> setup.next(Ended::Failed(text)) == setup.next(Ended::Done)
            &&& !extra ==> order is GiveUp && next.stage is Ended && next.reached_link
                == setup.reached_link && next.reused_bond == setup.reused_bond
            &&& !extra ==> (order->disconnect <==> !(setup.stage is Connecting))
        }),
        setup.next(Ended::Read(Availability::NoMediaSupport)).1 is GiveUp,
        setup.stage is ResumingEncryption ==> setup.next(Ended::KeyRejected(text)).0 == (Setup {
            stage: Stage::Pairing { again: true },
            ..setup
        }),
{
}

/// A connection uses the PHY that was chosen, and either where none was.
pub proof fn a_chosen_phy_is_used(text: Seq<char>)
    ensures
        text == "1M"@ ==> preferred_phy(Some(text)) == 1,
        text == "2M"@ ==> preferred_phy(Some(text)) == 2,
        text != "1M"@ && text != "2M"@ ==> preferred_phy(Some(text)) == 3,
        preferred_phy(None) == 3,
{
    reveal_strlit("1M");
    reveal_strlit("2M");
    assert("1M"@[0] == '1' && "2M"@[0] == '2');
    if text == "2M"@ {
        assert(text[0] == '2');
        assert(text != "1M"@);
    }
}

} // verus!
