//! Devices we have already paired with.
//!
//! This is what lets the device list say "Paired" and offer *Connect*
//! instead of starting pairing from scratch every time. Without it every
//! connection is a first connection, which on LE Audio means a fresh key
//! exchange and a device that may well refuse because it already believes it
//! knows us.
//!
//! **The stored text contains long term keys.** They are the shared secret that
//! encrypts the link, so the store lives under the user's own profile and
//! nowhere else. The worst a leaked key allows is impersonating this PC to those
//! headphones - it is not a credential for anything else - but it is still not
//! something to copy around or paste into a bug report.

use crate::hci::{
    address_of, address_text, address_text_reads_back, lemma_two_hex_digits, BdAddr,
};
use crate::privacy::{Identity, PeerIdentity};
use crate::text::{
    before, char_views, comes_before, decimal, field_chars, fields, from_chars, is_space, is_trimmed, lemma_before_strict, lemma_before_total,
    lemma_before_transitive, lemma_decimal_reads_back, lemma_fields_of_trimmed, lemma_split_last,
    lemma_split_whole, lemma_trim_back, lemma_trim_front, lemma_trim_keeps, number, parse_number,
    push_decimal, push_upper_hex, same_chars, same_ignoring_case, split_chars, split_on, to_chars,
    trim, trim_chars, trim_end, unsigned_part, upper, upper_chars, upper_digit,
    upper_hex,
};
use vstd::prelude::*;
use vstd::string::*;

verus! {

/// One remembered device.
#[derive(PartialEq, Eq)]
pub struct Bond {
    pub identity: Option<PeerIdentity>,
    /// The address, in display form.
    pub address: String,
    /// 0 for a public address, 1 for a random one.
    ///
    /// Stored because reconnecting needs it and an advertisement may not be
    /// available at the time: LE Create Connection has to be told which kind of
    /// address it is aiming at, and guessing "public" for a peer that uses a
    /// random static address means the attempt simply never completes.
    pub address_type: u8,
    pub name: String,
    /// The long term key, as agreed during pairing.
    pub long_term_key: [u8; 16],
    /// Whether the device advertised LE Audio, so the list can say so.
    pub le_audio: bool,
}

/// What is remembered of a device.
pub struct Remembered {
    pub identity: Option<Identity>,
    pub address: Seq<char>,
    pub address_type: u8,
    pub name: Seq<char>,
    pub long_term_key: Seq<u8>,
    pub le_audio: bool,
}

impl View for Bond {
    type V = Remembered;

    open spec fn view(&self) -> Remembered {
        Remembered {
            identity: match self.identity {
                Some(identity) => Some(identity@),
                None => None,
            },
            address: self.address@,
            address_type: self.address_type,
            name: self.name@,
            long_term_key: self.long_term_key@,
            le_audio: self.le_audio,
        }
    }
}

impl Clone for Bond {
    fn clone(&self) -> (copy: Self)
        ensures
            copy@ == self@,
    {
        Bond {
            identity: self.identity,
            address: self.address.clone(),
            address_type: self.address_type,
            name: self.name.clone(),
            long_term_key: self.long_term_key,
            le_audio: self.le_audio,
        }
    }
}

/// The one-line summary of a device.
pub open spec fn description(bond: Remembered) -> Seq<char> {
    bond.name + " ("@ + (if bond.le_audio {
        "LE Audio"@
    } else {
        "LE"@
    }) + ", "@ + bond.address + ")"@
}

impl Bond {
    /// Whether a device that shows `address` is this one: by its stored address
    /// in either case of letters, or by its identity.
    pub fn matches(&self, address: BdAddr, address_type: u8) -> (yes: bool)
        ensures
            yes == {
                ||| upper(self.address@) == upper(address_text(address.0@)) && self.address_type
                    == address_type
                ||| self.identity matches Some(identity) && identity.recognises(
                    address.0@,
                    address_type,
                )
            },
    {
        if same_ignoring_case(self.address.as_str(), address.to_string().as_str())
            && self.address_type == address_type {
            return true;
        }
        match &self.identity {
            Some(identity) => identity.matches(address, address_type),
            None => false,
        }
    }

    /// A one-line summary that never has the key in it.
    pub fn describe(&self) -> (text: String)
        ensures
            text@ == description(self@),
    {
        let mut text = self.name.clone();
        text.append(" (");
        text.append(
            if self.le_audio {
                "LE Audio"
            } else {
                "LE"
            },
        );
        text.append(", ");
        text.append(self.address.as_str());
        text.append(")");
        text
    }
}

/// The summary does not depend on the keys: it is the same whatever they are.
pub proof fn the_summary_is_the_same_for_every_key(
    bond: Remembered,
    long_term_key: Seq<u8>,
    identity: Option<Identity>,
)
    ensures
        description(bond) == description(Remembered { long_term_key, identity, ..bond }),
{
}

// ---- The store ----

/// What a device is filed under: its address in upper case.
pub open spec fn key_of(bond: Remembered) -> Seq<char> {
    upper(bond.address)
}

/// What several bonds remember.
pub open spec fn bond_views(bonds: Seq<Bond>) -> Seq<Remembered> {
    Seq::new(bonds.len(), |i: int| bonds[i]@)
}

/// Filed in ascending order, no two under the same key.
pub open spec fn ordered(bonds: Seq<Remembered>) -> bool {
    forall|i: int, j: int|
        0 <= i < j < bonds.len() ==> before(
            key_of(#[trigger] bonds[i]),
            key_of(#[trigger] bonds[j]),
        )
}

/// The first place whose key is `key`; the length when there is none.
pub open spec fn place_of(bonds: Seq<Remembered>, key: Seq<char>) -> int
    decreases bonds.len(),
{
    if bonds.len() == 0 || key_of(bonds[0]) == key {
        0
    } else {
        1 + place_of(bonds.skip(1), key)
    }
}

/// What is filed under `key`.
pub open spec fn found(bonds: Seq<Remembered>, key: Seq<char>) -> Option<Remembered> {
    if place_of(bonds, key) < bonds.len() {
        Some(bonds[place_of(bonds, key)])
    } else {
        None
    }
}

/// The store with one more device: in place of the one with the same key, else
/// in front of the first that comes after it.
pub open spec fn inserted(bonds: Seq<Remembered>, bond: Remembered) -> Seq<Remembered>
    decreases bonds.len(),
{
    if bonds.len() == 0 || before(key_of(bond), key_of(bonds[0])) {
        seq![bond] + bonds
    } else if key_of(bonds[0]) == key_of(bond) {
        bonds.update(0, bond)
    } else {
        seq![bonds[0]] + inserted(bonds.skip(1), bond)
    }
}

/// The store without what is filed under `key`.
pub open spec fn removed(bonds: Seq<Remembered>, key: Seq<char>) -> Seq<Remembered> {
    if place_of(bonds, key) < bonds.len() {
        bonds.remove(place_of(bonds, key))
    } else {
        bonds
    }
}

proof fn lemma_place(bonds: Seq<Remembered>, key: Seq<char>)
    ensures
        0 <= place_of(bonds, key) <= bonds.len(),
        place_of(bonds, key) < bonds.len() ==> key_of(bonds[place_of(bonds, key)]) == key,
        forall|i: int| 0 <= i < place_of(bonds, key) ==> key_of(#[trigger] bonds[i]) != key,
    decreases bonds.len(),
{
    if bonds.len() > 0 && key_of(bonds[0]) != key {
        let rest = bonds.skip(1);
        lemma_place(rest, key);
        assert forall|i: int| 0 <= i < place_of(bonds, key) implies key_of(#[trigger] bonds[i])
            != key by {
            if i > 0 {
                assert(bonds[i] == rest[i - 1]);
            }
        }
    }
}

proof fn lemma_place_is(bonds: Seq<Remembered>, key: Seq<char>, at: int)
    requires
        0 <= at <= bonds.len(),
        at < bonds.len() ==> key_of(bonds[at]) == key,
        forall|i: int| 0 <= i < at ==> key_of(#[trigger] bonds[i]) != key,
    ensures
        place_of(bonds, key) == at,
{
    lemma_place(bonds, key);
    let p = place_of(bonds, key);
    if p < at {
        assert(key_of(bonds[p]) != key);
    }
    if at < p {
        assert(key_of(bonds[at]) != key);
    }
}

/// Filing a device at `at` is what `inserted` does, when all before it come
/// earlier and it comes before the one at `at`, or has the same key.
proof fn lemma_inserted_at(bonds: Seq<Remembered>, bond: Remembered, at: int)
    requires
        0 <= at <= bonds.len(),
        forall|i: int|
            0 <= i < at ==> !before(key_of(bond), key_of(#[trigger] bonds[i])) && key_of(bonds[i])
                != key_of(bond),
        at < bonds.len() ==> before(key_of(bond), key_of(bonds[at])) || key_of(bonds[at]) == key_of(
            bond,
        ),
    ensures
        inserted(bonds, bond) == if at < bonds.len() && !before(key_of(bond), key_of(bonds[at])) {
            bonds.update(at, bond)
        } else {
            bonds.insert(at, bond)
        },
    decreases bonds.len(),
{
    if at == 0 {
        assert(seq![bond] + bonds =~= bonds.insert(0, bond));
    } else {
        assert(!before(key_of(bond), key_of(bonds[0])));
        let rest = bonds.skip(1);
        assert forall|i: int| 0 <= i < at - 1 implies !before(
            key_of(bond),
            key_of(#[trigger] rest[i]),
        ) && key_of(rest[i]) != key_of(bond) by {
            assert(rest[i] == bonds[i + 1]);
        }
        lemma_inserted_at(rest, bond, at - 1);
        if at < bonds.len() && !before(key_of(bond), key_of(bonds[at])) {
            assert(seq![bonds[0]] + rest.update(at - 1, bond) =~= bonds.update(at, bond));
        } else {
            assert(seq![bonds[0]] + rest.insert(at - 1, bond) =~= bonds.insert(at, bond));
        }
    }
}

proof fn lemma_inserted(bonds: Seq<Remembered>, bond: Remembered)
    requires
        ordered(bonds),
    ensures
        ordered(inserted(bonds, bond)),
        found(inserted(bonds, bond), key_of(bond)) == Some(bond),
        forall|key: Seq<char>|
            key != key_of(bond) ==> #[trigger] found(inserted(bonds, bond), key) == found(
                bonds,
                key,
            ),
        forall|i: int|
            0 <= i < inserted(bonds, bond).len() ==> (#[trigger] inserted(bonds, bond)[i]) == bond
                || bonds.contains(inserted(bonds, bond)[i]),
    decreases bonds.len(),
{
    let after = inserted(bonds, bond);
    if bonds.len() == 0 || before(key_of(bond), key_of(bonds[0])) {
        assert forall|i: int, j: int| 0 <= i < j < after.len() implies before(
            key_of(#[trigger] after[i]),
            key_of(#[trigger] after[j]),
        ) by {
            assert(after[j] == bonds[j - 1]);
            if i == 0 {
                if j > 1 {
                    lemma_before_transitive(key_of(bond), key_of(bonds[0]), key_of(bonds[j - 1]));
                }
            } else {
                assert(after[i] == bonds[i - 1]);
            }
        }
        lemma_place_is(after, key_of(bond), 0);
        assert(after.skip(1) =~= bonds);
        assert forall|key: Seq<char>| key != key_of(bond) implies #[trigger] found(after, key)
            == found(bonds, key) by {
            assert(place_of(after, key) == 1 + place_of(bonds, key));
            lemma_place(bonds, key);
        }
        assert forall|i: int| 0 <= i < after.len() implies (#[trigger] after[i]) == bond
            || bonds.contains(after[i]) by {
            if i > 0 {
                assert(after[i] == bonds[i - 1]);
            }
        }
    } else if key_of(bonds[0]) == key_of(bond) {
        assert forall|i: int, j: int| 0 <= i < j < after.len() implies before(
            key_of(#[trigger] after[i]),
            key_of(#[trigger] after[j]),
        ) by {
            assert(key_of(after[i]) == key_of(bonds[i]));
            assert(before(key_of(bonds[i]), key_of(bonds[j])));
        }
        lemma_place_is(after, key_of(bond), 0);
        assert forall|key: Seq<char>| key != key_of(bond) implies #[trigger] found(after, key)
            == found(bonds, key) by {
            lemma_place(bonds, key);
            let p = place_of(bonds, key);
            assert forall|i: int| 0 <= i < p implies key_of(#[trigger] after[i]) != key by {
                assert(key_of(bonds[i]) != key);
            }
            lemma_place_is(after, key, p);
        }
        assert forall|i: int| 0 <= i < after.len() implies (#[trigger] after[i]) == bond
            || bonds.contains(after[i]) by {
            if i > 0 {
                assert(after[i] == bonds[i]);
            }
        }
    } else {
        let rest = bonds.skip(1);
        assert forall|i: int, j: int| 0 <= i < j < rest.len() implies before(
            key_of(#[trigger] rest[i]),
            key_of(#[trigger] rest[j]),
        ) by {
            assert(rest[i] == bonds[i + 1] && rest[j] == bonds[j + 1]);
        }
        lemma_inserted(rest, bond);
        let inner = inserted(rest, bond);
        assert(after =~= seq![bonds[0]] + inner);
        lemma_before_total(key_of(bond), key_of(bonds[0]));
        assert forall|i: int, j: int| 0 <= i < j < after.len() implies before(
            key_of(#[trigger] after[i]),
            key_of(#[trigger] after[j]),
        ) by {
            assert(after[j] == inner[j - 1]);
            if i == 0 {
                if inner[j - 1] != bond {
                    assert(rest.contains(inner[j - 1]));
                    let k = choose|k: int| 0 <= k < rest.len() && rest[k] == inner[j - 1];
                    assert(rest[k] == bonds[k + 1]);
                }
            } else {
                assert(after[i] == inner[i - 1]);
            }
        }
        assert(after.skip(1) =~= inner);
        assert(found(after, key_of(bond)) == found(inner, key_of(bond))) by {
            assert(place_of(after, key_of(bond)) == 1 + place_of(inner, key_of(bond)));
            lemma_place(inner, key_of(bond));
        }
        assert forall|key: Seq<char>| key != key_of(bond) implies #[trigger] found(after, key)
            == found(bonds, key) by {
            lemma_place(inner, key);
            lemma_place(rest, key);
            assert(found(inner, key) == found(rest, key));
        }
        assert forall|i: int| 0 <= i < after.len() implies (#[trigger] after[i]) == bond
            || bonds.contains(after[i]) by {
            if i > 0 {
                assert(after[i] == inner[i - 1]);
                if inner[i - 1] != bond {
                    let k = choose|k: int| 0 <= k < rest.len() && rest[k] == inner[i - 1];
                    assert(bonds[k + 1] == inner[i - 1]);
                }
            } else {
                assert(after[0] == bonds[0]);
            }
        }
    }
}

/// A device that was stored is found again, under its address in either case,
/// and storing it leaves every other device as it was.
pub proof fn a_stored_device_is_found(
    bonds: Seq<Remembered>,
    bond: Remembered,
    address: Seq<char>,
)
    requires
        ordered(bonds),
    ensures
        upper(address) == upper(bond.address) ==> found(inserted(bonds, bond), upper(address))
            == Some(bond),
        upper(address) != upper(bond.address) ==> found(inserted(bonds, bond), upper(address))
            == found(bonds, upper(address)),
        ordered(inserted(bonds, bond)),
{
    lemma_inserted(bonds, bond);
}

/// A device that was forgotten is not found any more, and forgetting it leaves
/// every other device as it was.
pub proof fn a_forgotten_device_is_gone(bonds: Seq<Remembered>, key: Seq<char>, other: Seq<char>)
    requires
        ordered(bonds),
        other != key,
    ensures
        found(removed(bonds, key), key) is None,
        found(removed(bonds, key), other) == found(bonds, other),
        ordered(removed(bonds, key)),
{
    lemma_place(bonds, key);
    let p = place_of(bonds, key);
    if p < bonds.len() {
        let after = bonds.remove(p);
        assert forall|i: int| 0 <= i < after.len() implies key_of(#[trigger] after[i]) != key by {
            if i < p {
                assert(after[i] == bonds[i]);
            } else {
                assert(after[i] == bonds[i + 1]);
                lemma_before_strict(key_of(bonds[p]), key_of(bonds[i + 1]));
            }
        }
        lemma_place_is(after, key, after.len() as int);
        lemma_place(bonds, other);
        let q = place_of(bonds, other);
        if q < bonds.len() {
            let r = if q < p { q } else { q - 1 };
            assert forall|i: int| 0 <= i < r implies key_of(#[trigger] after[i]) != other by {
                if i < p {
                    assert(after[i] == bonds[i]);
                } else {
                    assert(after[i] == bonds[i + 1]);
                }
            }
            lemma_place_is(after, other, r);
        } else {
            assert forall|i: int| 0 <= i < after.len() implies key_of(#[trigger] after[i])
                != other by {
                if i < p {
                    assert(after[i] == bonds[i]);
                } else {
                    assert(after[i] == bonds[i + 1]);
                }
            }
            lemma_place_is(after, other, after.len() as int);
        }
        assert forall|i: int, j: int| 0 <= i < j < after.len() implies before(
            key_of(#[trigger] after[i]),
            key_of(#[trigger] after[j]),
        ) by {
            let a = if i < p { i } else { i + 1 };
            let b = if j < p { j } else { j + 1 };
            assert(after[i] == bonds[a] && after[j] == bonds[b]);
        }
    }
}

// ---- The stored text ----

/// A key as thirty-two upper-case digits.
pub open spec fn key_text(key: Seq<u8>) -> Seq<char>
    decreases key.len(),
{
    if key.len() == 0 {
        Seq::empty()
    } else {
        key_text(key.drop_last()) + upper_hex(key.last() as nat, 2)
    }
}

/// The key that thirty-two digits stand for, two to a byte.
pub open spec fn parsed_key(text: Seq<char>) -> Option<Seq<u8>> {
    if text.len() == 32 && forall|i: int|
        0 <= i < 16 ==> number(#[trigger] text.subrange(2 * i, 2 * i + 2), 16, 255) is Some {
        Some(Seq::new(16, |i: int| number(text.subrange(2 * i, 2 * i + 2), 16, 255)->0 as u8))
    } else {
        None
    }
}

/// A name without the mark that separates fields.
pub open spec fn plain_name(name: Seq<char>) -> Seq<char> {
    Seq::new(
        name.len(),
        |i: int|
            if name[i] == '|' {
                '/'
            } else {
                name[i]
            },
    )
}

/// Several fields in one line, with a mark between them.
pub open spec fn row(cells: Seq<Seq<char>>) -> Seq<char>
    decreases cells.len(),
{
    if cells.len() == 0 {
        Seq::empty()
    } else if cells.len() == 1 {
        cells[0]
    } else {
        row(cells.drop_last()).push(' ').push('|').push(' ') + cells.last()
    }
}

/// The fields a device is stored as.
pub open spec fn cells_of(bond: Remembered) -> Seq<Seq<char>> {
    seq![
        bond.address,
        plain_name(bond.name),
        if bond.le_audio {
            "true"@
        } else {
            "false"@
        },
        key_text(bond.long_term_key),
        decimal(bond.address_type as nat),
        match bond.identity {
            Some(identity) => key_text(identity.irk),
            None => Seq::empty(),
        },
        match bond.identity {
            Some(identity) => address_text(identity.address),
            None => Seq::empty(),
        },
        match bond.identity {
            Some(identity) => decimal(identity.address_type as nat),
            None => Seq::empty(),
        },
    ]
}

/// The lines in front of the devices.
pub open spec fn head_lines() -> Seq<Seq<char>> {
    seq![
        "# OpenLEAudio paired devices"@,
        "# WARNING: this file contains encryption keys. Do not share it."@,
        "# address | name | LE Audio | key | address type | IRK | identity address | identity type"@,
        Seq::empty(),
    ]
}

/// Several lines, each with its line end.
pub open spec fn text_of_lines(lines: Seq<Seq<char>>) -> Seq<char>
    decreases lines.len(),
{
    if lines.len() == 0 {
        Seq::empty()
    } else {
        text_of_lines(lines.drop_last()) + lines.last().push('\n')
    }
}

/// The lines of a stored text.
pub open spec fn stored_lines(bonds: Seq<Remembered>) -> Seq<Seq<char>> {
    head_lines() + Seq::new(bonds.len(), |i: int| row(cells_of(bonds[i])))
}

/// The identity in the last three fields of a line: a whole key, an address, and
/// a type that fits the address.
pub open spec fn stored_identity(cells: Seq<Seq<char>>) -> Option<Identity> {
    if cells.len() < 8 {
        None
    } else {
        let irk = parsed_key(cells[5]);
        let address = address_of(cells[6]);
        let kind = number(cells[7], 10, 255);
        if irk is Some && address is Some && kind is Some && (kind->0 == 0 || (kind->0 == 1
            && address->0[5] >= 0xC0)) {
            Some(
                Identity { irk: irk->0, address: address->0, address_type: kind->0 as u8 },
            )
        } else {
            None
        }
    }
}

/// The device a line describes, if it describes one. A line without an address
/// type is older, not damaged; its type is zero.
pub open spec fn stored_bond(line: Seq<char>) -> Option<Remembered> {
    let text = trim(line);
    let cells = fields(text, '|');
    if text.len() == 0 || text[0] == '#' || cells.len() < 4 || parsed_key(cells[3]) is None {
        None
    } else {
        Some(
            Remembered {
                identity: stored_identity(cells),
                address: cells[0],
                address_type: if cells.len() > 4 && number(cells[4], 10, 255) is Some {
                    number(cells[4], 10, 255)->0 as u8
                } else {
                    0
                },
                name: cells[1],
                long_term_key: parsed_key(cells[3])->0,
                le_audio: cells[2] == "true"@,
            },
        )
    }
}

/// The devices that several lines describe.
pub open spec fn stored_bonds(lines: Seq<Seq<char>>) -> Seq<Remembered>
    decreases lines.len(),
{
    if lines.len() == 0 {
        Seq::empty()
    } else {
        match stored_bond(lines.last()) {
            Some(bond) => inserted(stored_bonds(lines.drop_last()), bond),
            None => stored_bonds(lines.drop_last()),
        }
    }
}

/// Reads a key of thirty-two digits.
pub fn parse_key(text: &[char]) -> (key: Option<[u8; 16]>)
    ensures
        match parsed_key(text@) {
            Some(bytes) => key matches Some(k) && k@ == bytes,
            None => key is None,
        },
{
    if text.len() != 32 {
        return None;
    }
    let mut key: [u8; 16] = [0u8; 16];
    let mut i: usize = 0;
    while i < 16
        invariant
            i <= 16,
            text@.len() == 32,
            forall|j: int|
                0 <= j < i ==> {
                    &&& number(#[trigger] text@.subrange(2 * j, 2 * j + 2), 16, 255) is Some
                    &&& key@[j] == number(text@.subrange(2 * j, 2 * j + 2), 16, 255)->0
                },
        decreases 16 - i,
    {
        match parse_number(vstd::slice::slice_subrange(text, 2 * i, 2 * i + 2), 16, 255) {
            Some(value) => {
                key[i] = value as u8;
            },
            None => {
                assert(number(text@.subrange(2 * (i as int), 2 * (i as int) + 2), 16, 255) is None);
                return None;
            },
        }
        i = i + 1;
    }
    assert(key@ =~= parsed_key(text@)->0);
    Some(key)
}

fn push_key(text: &mut String, key: &[u8; 16])
    ensures
        final(text)@ == old(text)@ + key_text(key@),
{
    let mut i: usize = 0;
    assert(key@.take(0) =~= Seq::<u8>::empty());
    assert(text@ =~= old(text)@ + key_text(key@.take(0)));
    while i < 16
        invariant
            i <= 16,
            text@ == old(text)@ + key_text(key@.take(i as int)),
        decreases 16 - i,
    {
        push_upper_hex(text, key[i] as u64, 2);
        proof {
            assert(key@.take(i + 1).drop_last() =~= key@.take(i as int));
            assert(text@ =~= old(text)@ + (key_text(key@.take(i as int)) + upper_hex(
                key@[i as int] as nat,
                2,
            )));
        }
        i = i + 1;
    }
    assert(key@.take(16) =~= key@);
}

fn push_plain_name(text: &mut String, name: &str)
    ensures
        final(text)@ == old(text)@ + plain_name(name@),
{
    let chars = to_chars(name);
    let mut i: usize = 0;
    assert(text@ =~= old(text)@ + plain_name(name@).take(0));
    while i < chars.len()
        invariant
            i <= chars@.len(),
            chars@ == name@,
            text@ == old(text)@ + plain_name(name@).take(i as int),
        decreases chars@.len() - i,
    {
        text.push(
            if chars[i] == '|' {
                '/'
            } else {
                chars[i]
            },
        );
        assert(text@ =~= old(text)@ + plain_name(name@).take(i + 1));
        i = i + 1;
    }
    assert(plain_name(name@).take(i as int) =~= plain_name(name@));
}

fn push_separator(text: &mut String)
    ensures
        final(text)@ == old(text)@.push(' ').push('|').push(' '),
{
    text.push(' ');
    text.push('|');
    text.push(' ');
}

proof fn lemma_row_grows(start: Seq<char>, cells: Seq<Seq<char>>, k: int)
    requires
        1 <= k < cells.len(),
    ensures
        (start + row(cells.take(k))).push(' ').push('|').push(' ') + cells[k] == start + row(
            cells.take(k + 1),
        ),
{
    assert(cells.take(k + 1).drop_last() =~= cells.take(k));
    assert((start + row(cells.take(k))).push(' ').push('|').push(' ') + cells[k] =~= start + row(
        cells.take(k + 1),
    ));
}

/// The fields of a device in one line.
fn push_row(text: &mut String, bond: &Bond)
    ensures
        final(text)@ == old(text)@ + row(cells_of(bond@)),
{
    let ghost start = text@;
    let ghost cells = cells_of(bond@);
    text.append(bond.address.as_str());
    proof {
        assert(cells.take(1)[0] == bond.address@);
        assert(text@ == start + row(cells.take(1)));
        lemma_row_grows(start, cells, 1);
        lemma_row_grows(start, cells, 2);
        lemma_row_grows(start, cells, 3);
        lemma_row_grows(start, cells, 4);
        lemma_row_grows(start, cells, 5);
        lemma_row_grows(start, cells, 6);
        lemma_row_grows(start, cells, 7);
        assert(cells.take(8) =~= cells);
    }
    push_separator(text);
    push_plain_name(text, bond.name.as_str());
    push_separator(text);
    text.append(
        if bond.le_audio {
            "true"
        } else {
            "false"
        },
    );
    push_separator(text);
    push_key(text, &bond.long_term_key);
    push_separator(text);
    push_decimal(text, bond.address_type as u64);
    assert(text@ == start + row(cells.take(5)));
    push_separator(text);
    push_identity_key(text, bond);
    push_separator(text);
    push_identity_address(text, bond);
    push_separator(text);
    push_identity_type(text, bond);
}

fn push_identity_key(text: &mut String, bond: &Bond)
    ensures
        final(text)@ == old(text)@ + cells_of(bond@)[5],
{
    if let Some(identity) = &bond.identity {
        push_key(text, &identity.irk);
    } else {
        assert(text@ + Seq::<char>::empty() =~= text@);
    }
}

fn push_identity_address(text: &mut String, bond: &Bond)
    ensures
        final(text)@ == old(text)@ + cells_of(bond@)[6],
{
    if let Some(identity) = &bond.identity {
        text.append(identity.address.to_string().as_str());
    } else {
        assert(text@ + Seq::<char>::empty() =~= text@);
    }
}

fn push_identity_type(text: &mut String, bond: &Bond)
    ensures
        final(text)@ == old(text)@ + cells_of(bond@)[7],
{
    if let Some(identity) = &bond.identity {
        push_decimal(text, identity.address_type as u64);
    } else {
        assert(text@ + Seq::<char>::empty() =~= text@);
    }
}

fn push_line(text: &mut String, line: &str)
    ensures
        final(text)@ == old(text)@ + line@.push('\n'),
{
    text.append(line);
    text.push('\n');
    assert(text@ =~= old(text)@ + line@.push('\n'));
}

/// Every device this stack has paired with, filed by address.
#[derive(PartialEq, Eq)]
pub struct BondStore {
    bonds: Vec<Bond>,
}

impl View for BondStore {
    type V = Seq<Remembered>;

    /// The devices in ascending order of what they are filed under.
    closed spec fn view(&self) -> Seq<Remembered> {
        bond_views(self.bonds@)
    }
}

impl Default for BondStore {
    fn default() -> (store: Self)
        ensures
            store@ == Seq::<Remembered>::empty(),
    {
        BondStore::new()
    }
}

impl Clone for BondStore {
    fn clone(&self) -> (copy: Self)
        ensures
            copy@ == self@,
    {
        let mut bonds: Vec<Bond> = Vec::new();
        let mut i: usize = 0;
        while i < self.bonds.len()
            invariant
                i <= self.bonds@.len(),
                bond_views(bonds@) =~= self@.take(i as int),
            decreases self.bonds@.len() - i,
        {
            let copy = self.bonds[i].clone();
            let ghost held = bond_views(bonds@);
            bonds.push(copy);
            assert(bond_views(bonds@) =~= held.push(copy@));
            i = i + 1;
        }
        assert(bond_views(bonds@) =~= self@);
        BondStore { bonds }
    }
}

impl BondStore {
    pub fn new() -> (store: Self)
        ensures
            store@ == Seq::<Remembered>::empty(),
            ordered(store@),
    {
        let store = BondStore { bonds: Vec::new() };
        assert(store@ =~= Seq::<Remembered>::empty());
        store
    }

    fn place(&self, key: &[char]) -> (at: usize)
        ensures
            at == place_of(self@, key@),
            at <= self.bonds@.len(),
    {
        let mut at: usize = 0;
        while at < self.bonds.len()
            invariant
                at <= self.bonds@.len(),
                forall|i: int| 0 <= i < at ==> key_of(#[trigger] self@[i]) != key@,
            decreases self.bonds@.len() - at,
        {
            assert(self@[at as int] == self.bonds@[at as int]@);
            if same_chars(&upper_chars(&to_chars(self.bonds[at].address.as_str())), key) {
                proof {
                    lemma_place_is(self@, key@, at as int);
                }
                return at;
            }
            at = at + 1;
        }
        proof {
            lemma_place_is(self@, key@, at as int);
        }
        at
    }

    /// What is remembered under an address, in either case of letters.
    pub fn get(&self, address: &str) -> (bond: Option<&Bond>)
        ensures
            match found(self@, upper(address@)) {
                Some(remembered) => bond matches Some(b) && b@ == remembered,
                None => bond is None,
            },
    {
        let at = self.place(&upper_chars(&to_chars(address)));
        if at < self.bonds.len() {
            assert(self@[at as int] == self.bonds@[at as int]@);
            Some(&self.bonds[at])
        } else {
            None
        }
    }

    pub fn contains(&self, address: &str) -> (yes: bool)
        ensures
            yes == (found(self@, upper(address@)) is Some),
    {
        self.get(address).is_some()
    }

    /// Remembers a device, replacing any earlier key for the same address.
    ///
    /// Replacing rather than keeping both is deliberate: a second pairing means
    /// the old key is dead, and holding on to it only makes a later connection
    /// fail in a way nobody can explain.
    pub fn insert(&mut self, bond: Bond)
        ensures
            final(self)@ == inserted(old(self)@, bond@),
            ordered(old(self)@) ==> ordered(final(self)@),
    {
        let key = upper_chars(&to_chars(bond.address.as_str()));
        let ghost held = self@;
        let mut at: usize = 0;
        while at < self.bonds.len()
            invariant
                at <= self.bonds@.len(),
                self@ == held,
                held == old(self)@,
                key@ == key_of(bond@),
                forall|i: int|
                    0 <= i < at ==> !before(key@, key_of(#[trigger] held[i])) && key_of(held[i])
                        != key@,
            decreases self.bonds@.len() - at,
        {
            let here = upper_chars(&to_chars(self.bonds[at].address.as_str()));
            assert(held[at as int] == self.bonds@[at as int]@);
            if comes_before(&key, &here) {
                proof {
                    lemma_inserted_at(held, bond@, at as int);
                    if ordered(held) {
                        lemma_inserted(held, bond@);
                    }
                }
                let ghost added = bond@;
                self.bonds.insert(at, bond);
                assert(self@ =~= held.insert(at as int, added));
                return;
            }
            if same_chars(&key, &here) {
                proof {
                    lemma_inserted_at(held, bond@, at as int);
                    if ordered(held) {
                        lemma_inserted(held, bond@);
                    }
                }
                let ghost added = bond@;
                self.bonds.set(at, bond);
                assert(self@ =~= held.update(at as int, added));
                return;
            }
            at = at + 1;
        }
        proof {
            lemma_inserted_at(held, bond@, at as int);
            if ordered(held) {
                lemma_inserted(held, bond@);
            }
        }
        let ghost added = bond@;
        self.bonds.push(bond);
        assert(self@ =~= held.insert(at as int, added));
    }

    /// Forgets a device, as the "Unpair" button does.
    pub fn remove(&mut self, address: &str) -> (known: bool)
        ensures
            known == (found(old(self)@, upper(address@)) is Some),
            final(self)@ == removed(old(self)@, upper(address@)),
            ordered(old(self)@) ==> ordered(final(self)@),
    {
        let at = self.place(&upper_chars(&to_chars(address)));
        let ghost held = self@;
        if at < self.bonds.len() {
            self.bonds.remove(at);
            proof {
                assert(self@ =~= held.remove(at as int));
                assert forall|i: int, j: int|
                    ordered(held) && 0 <= i < j < self@.len() implies before(
                    key_of(#[trigger] self@[i]),
                    key_of(#[trigger] self@[j]),
                ) by {
                    let a = if i < at { i } else { i + 1 };
                    let b = if j < at { j } else { j + 1 };
                    assert(self@[i] == held[a] && self@[j] == held[b]);
                }
            }
            true
        } else {
            false
        }
    }

    /// Every device, in ascending order of what they are filed under.
    pub fn all(&self) -> (bonds: &[Bond])
        ensures
            bond_views(bonds@) == self@,
    {
        &self.bonds
    }

    pub fn len(&self) -> (count: usize)
        ensures
            count == self@.len(),
    {
        self.bonds.len()
    }

    pub fn is_empty(&self) -> (yes: bool)
        ensures
            yes == (self@.len() == 0),
    {
        self.bonds.len() == 0
    }

    /// The text the store is kept as.
    pub fn to_text(&self) -> (text: String)
        ensures
            text@ == text_of_lines(stored_lines(self@)),
    {
        let mut text = String::new();
        let ghost lines = stored_lines(self@);
        let ghost head = head_lines();
        assert(text@ =~= text_of_lines(head.take(0)));
        push_line(&mut text, "# OpenLEAudio paired devices");
        proof {
            assert(head.take(1).drop_last() =~= head.take(0));
            assert(text@ =~= text_of_lines(head.take(1)));
        }
        push_line(
            &mut text,
            "# WARNING: this file contains encryption keys. Do not share it.",
        );
        proof {
            assert(head.take(2).drop_last() =~= head.take(1));
            assert(text@ =~= text_of_lines(head.take(2)));
        }
        push_line(
            &mut text,
            "# address | name | LE Audio | key | address type | IRK | identity address | identity type",
        );
        proof {
            assert(head.take(3).drop_last() =~= head.take(2));
            assert(text@ =~= text_of_lines(head.take(3)));
        }
        push_line(&mut text, "");
        proof {
            reveal_strlit("");
            assert(""@ =~= Seq::<char>::empty());
            assert(head.take(4).drop_last() =~= head.take(3));
            assert(text@ =~= text_of_lines(head.take(4)));
            assert(lines.take(4) =~= head.take(4));
        }
        let mut i: usize = 0;
        while i < self.bonds.len()
            invariant
                i <= self.bonds@.len(),
                lines == stored_lines(self@),
                text@ == text_of_lines(lines.take(4 + i)),
            decreases self.bonds@.len() - i,
        {
            let bond = &self.bonds[i];
            let ghost so_far = text@;
            push_row(&mut text, bond);
            text.push('\n');
            proof {
                assert(lines.take(5 + i).drop_last() =~= lines.take(4 + i));
                assert(lines[4 + i] == row(cells_of(bond@)));
                assert(text@ =~= so_far + lines[4 + i].push('\n'));
            }
            i = i + 1;
        }
        assert(lines.take(4 + i) =~= lines);
        text
    }

    /// Reads a stored text. A damaged line costs one device, not the file.
    pub fn from_text(text: &str) -> (store: Self)
        ensures
            store@ == stored_bonds(split_on(text@, '\n')),
            ordered(store@),
    {
        let mut store = BondStore::new();
        let chars = to_chars(text);
        let lines = split_chars(&chars, '\n');
        let ghost all = char_views(lines@);
        let mut i: usize = 0;
        assert(all.take(0) =~= Seq::<Seq<char>>::empty());
        while i < lines.len()
            invariant
                i <= lines@.len(),
                all == char_views(lines@),
                store@ == stored_bonds(all.take(i as int)),
                ordered(store@),
            decreases lines@.len() - i,
        {
            proof {
                assert(all.take(i + 1).drop_last() =~= all.take(i as int));
                assert(all.take(i + 1).last() == lines@[i as int]@);
            }
            if let Some(bond) = parse_line(&lines[i]) {
                store.insert(bond);
            }
            i = i + 1;
        }
        assert(all.take(i as int) =~= all);
        store
    }
}

/// Reads one line of a stored text.
pub fn parse_line(line: &[char]) -> (bond: Option<Bond>)
    ensures
        match stored_bond(line@) {
            Some(remembered) => bond matches Some(b) && b@ == remembered,
            None => bond is None,
        },
{
    let text = trim_chars(line);
    if text.len() == 0 || text[0] == '#' {
        return None;
    }
    let cells = field_chars(text, '|');
    let ghost all = fields(text@, '|');
    assert(all == char_views(cells@));
    if cells.len() < 4 {
        return None;
    }
    assert(all[0] == cells@[0]@);
    assert(all[1] == cells@[1]@);
    assert(all[2] == cells@[2]@);
    assert(all[3] == cells@[3]@);
    let long_term_key = match parse_key(&cells[3]) {
        Some(key) => key,
        None => return None,
    };
    // The address type is a later addition. A file without it is not
    // damaged, it is simply older, and dropping those entries would
    // unpair every device on upgrade.
    let mut address_type: u8 = 0;
    if cells.len() > 4 {
        assert(all[4] == cells@[4]@);
        if let Some(value) = parse_number(&cells[4], 10, 255) {
            address_type = value as u8;
        }
    }
    let identity = parse_identity(&cells);
    let truth = to_chars("true");
    let bond = Bond {
        identity,
        address: from_chars(&cells[0]),
        address_type,
        name: from_chars(&cells[1]),
        long_term_key,
        le_audio: same_chars(&cells[2], &truth),
    };
    Some(bond)
}

fn parse_identity(cells: &Vec<Vec<char>>) -> (identity: Option<PeerIdentity>)
    ensures
        match stored_identity(char_views(cells@)) {
            Some(stored) => identity matches Some(i) && i@ == stored,
            None => identity is None,
        },
{
    if cells.len() < 8 {
        return None;
    }
    let ghost all = char_views(cells@);
    assert(all[5] == cells@[5]@);
    assert(all[6] == cells@[6]@);
    assert(all[7] == cells@[7]@);
    let irk = match parse_key(&cells[5]) {
        Some(irk) => irk,
        None => return None,
    };
    let address = match BdAddr::parse_chars(&cells[6]) {
        Some(address) => address,
        None => return None,
    };
    let kind = match parse_number(&cells[7], 10, 255) {
        Some(kind) => kind as u8,
        None => return None,
    };
    if kind > 1 || (kind == 1 && address.0[5] < 0xC0) {
        return None;
    }
    Some(PeerIdentity { irk, address, address_type: kind })
}

// ---- Reading back what was stored ----

/// A device whose texts can be stored: neither has white space at its ends, a
/// field mark or a line end, and the address does not look like a comment.
pub open spec fn storable(bond: Remembered) -> bool {
    &&& is_cell(bond.address)
    &&& bond.address.len() > 0 ==> bond.address[0] != '#'
    &&& is_cell(bond.name)
    &&& bond.long_term_key.len() == 16
    &&& bond.identity matches Some(identity) ==> {
        &&& identity.irk.len() == 16
        &&& identity.address.len() == 6
        &&& identity.address_type == 0 || (identity.address_type == 1 && identity.address[5]
            >= 0xC0)
    }
}

/// A text that survives as a field of a line.
pub open spec fn is_cell(text: Seq<char>) -> bool {
    &&& is_trimmed(text)
    &&& !text.contains('|')
    &&& !text.contains('\n')
}

/// A text without white space and without the field mark.
spec fn is_word(text: Seq<char>) -> bool {
    forall|i: int| 0 <= i < text.len() ==> !is_space(#[trigger] text[i]) && text[i] != '|'
}

proof fn lemma_word_is_cell(text: Seq<char>)
    requires
        is_word(text),
    ensures
        is_cell(text),
{
    if text.contains('|') {
        let i = choose|i: int| 0 <= i < text.len() && text[i] == '|';
        assert(text[i] != '|');
    }
    if text.contains('\n') {
        let i = choose|i: int| 0 <= i < text.len() && text[i] == '\n';
        assert(!is_space(text[i]));
    }
}

proof fn lemma_decimal_is_word(value: nat)
    ensures
        is_word(decimal(value)),
{
    lemma_decimal_reads_back(value);
}

proof fn lemma_decimal_number(value: u8)
    ensures
        number(decimal(value as nat), 10, 255) == Some(value as nat),
{
    let text = decimal(value as nat);
    lemma_decimal_reads_back(value as nat);
    assert('0' <= text[0] && text[0] <= '9');
    assert(unsigned_part(text) == text);
}

proof fn lemma_key_text(key: Seq<u8>)
    ensures
        key_text(key).len() == 2 * key.len(),
        is_word(key_text(key)),
        forall|i: int|
            0 <= i < key.len() ==> #[trigger] key_text(key).subrange(2 * i, 2 * i + 2) == upper_hex(
                key[i] as nat,
                2,
            ),
    decreases key.len(),
{
    if key.len() > 0 {
        let shorter = key.drop_last();
        lemma_key_text(shorter);
        lemma_two_hex_digits(key.last());
        let text = key_text(key);
        let last = upper_hex(key.last() as nat, 2);
        assert(text == key_text(shorter) + last);
        assert forall|i: int| 0 <= i < text.len() implies !is_space(#[trigger] text[i]) && text[i]
            != '|' by {
            if i < 2 * shorter.len() {
                assert(text[i] == key_text(shorter)[i]);
            } else {
                assert(text[i] == last[i - 2 * shorter.len()]);
            }
        }
        assert forall|i: int| 0 <= i < key.len() implies #[trigger] text.subrange(2 * i, 2 * i + 2)
            == upper_hex(key[i] as nat, 2) by {
            if i < shorter.len() {
                assert(text.subrange(2 * i, 2 * i + 2) =~= key_text(shorter).subrange(
                    2 * i,
                    2 * i + 2,
                ));
                assert(key[i] == shorter[i]);
            } else {
                assert(text.subrange(2 * i, 2 * i + 2) =~= last);
            }
        }
    }
}

proof fn lemma_key_reads_back(key: Seq<u8>)
    requires
        key.len() == 16,
    ensures
        parsed_key(key_text(key)) == Some(key),
{
    lemma_key_text(key);
    let text = key_text(key);
    assert forall|i: int| 0 <= i < 16 implies number(
        #[trigger] text.subrange(2 * i, 2 * i + 2),
        16,
        255,
    ) == Some(key[i] as nat) by {
        lemma_two_hex_digits(key[i]);
    }
    assert(parsed_key(text)->0 =~= key);
}

proof fn lemma_address_is_word(bytes: Seq<u8>)
    requires
        bytes.len() == 6,
    ensures
        is_word(address_text(bytes)),
{
    lemma_two_hex_digits(bytes[0]);
    lemma_two_hex_digits(bytes[1]);
    lemma_two_hex_digits(bytes[2]);
    lemma_two_hex_digits(bytes[3]);
    lemma_two_hex_digits(bytes[4]);
    lemma_two_hex_digits(bytes[5]);
    let text = address_text(bytes);
    assert(text.len() == 17);
    assert(text =~= seq![
        upper_digit((bytes[5] / 16) as nat),
        upper_digit((bytes[5] % 16) as nat),
        ':',
        upper_digit((bytes[4] / 16) as nat),
        upper_digit((bytes[4] % 16) as nat),
        ':',
        upper_digit((bytes[3] / 16) as nat),
        upper_digit((bytes[3] % 16) as nat),
        ':',
        upper_digit((bytes[2] / 16) as nat),
        upper_digit((bytes[2] % 16) as nat),
        ':',
        upper_digit((bytes[1] / 16) as nat),
        upper_digit((bytes[1] % 16) as nat),
        ':',
        upper_digit((bytes[0] / 16) as nat),
        upper_digit((bytes[0] % 16) as nat),
    ]);
}

/// The fields of a line are the ones it was put together from.
proof fn lemma_fields_of_row(cells: Seq<Seq<char>>)
    requires
        cells.len() > 0,
        forall|i: int| 0 <= i < cells.len() ==> is_cell(#[trigger] cells[i]),
    ensures
        fields(row(cells), '|') == cells,
    decreases cells.len(),
{
    if cells.len() == 1 {
        lemma_split_whole(cells[0], '|');
        lemma_trim_keeps(cells[0]);
        assert(fields(row(cells), '|') =~= cells);
    } else {
        let shorter = cells.drop_last();
        let cell = cells.last();
        assert(is_cell(cells[cells.len() - 1]));
        assert forall|i: int| 0 <= i < shorter.len() implies is_cell(#[trigger] shorter[i]) by {
            assert(shorter[i] == cells[i]);
        }
        lemma_fields_of_row(shorter);
        let front = row(shorter).push(' ');
        let back = seq![' '] + cell;
        assert(row(cells) =~= front.push('|') + back);
        if back.contains('|') {
            let i = choose|i: int| 0 <= i < back.len() && back[i] == '|';
            assert(cell[i - 1] == '|');
        }
        lemma_split_last(front, '|', back);
        lemma_fields_of_trimmed(front, '|');
        lemma_fields_of_trimmed(row(shorter), '|');
        lemma_trim_back(row(shorter), ' ');
        lemma_trim_front(' ', cell);
        lemma_trim_keeps(cell);
        assert(fields(front, '|') == shorter);
        assert(fields(row(cells), '|') =~= fields(front, '|').push(trim(back)));
        assert(shorter.push(cell) =~= cells);
    }
}

proof fn lemma_row_is_one_line(cells: Seq<Seq<char>>)
    requires
        forall|i: int| 0 <= i < cells.len() ==> !(#[trigger] cells[i]).contains('\n'),
    ensures
        !row(cells).contains('\n'),
    decreases cells.len(),
{
    let line = row(cells);
    if cells.len() == 1 {
        assert(!cells[0].contains('\n'));
    } else if cells.len() > 1 {
        let shorter = cells.drop_last();
        assert forall|i: int| 0 <= i < shorter.len() implies !(#[trigger] shorter[i]).contains(
            '\n',
        ) by {
            assert(shorter[i] == cells[i]);
        }
        lemma_row_is_one_line(shorter);
        assert(!cells[cells.len() - 1].contains('\n'));
        if line.contains('\n') {
            let i = choose|i: int| 0 <= i < line.len() && line[i] == '\n';
            let n = row(shorter).len();
            if i < n {
                assert(row(shorter)[i] == '\n');
            } else if i >= n + 3 {
                assert(cells.last()[i - n - 3] == '\n');
            }
        }
    }
}

proof fn lemma_trim_end_keeps_first(text: Seq<char>)
    requires
        text.len() > 0,
        !is_space(text[0]),
    ensures
        trim_end(text).len() > 0,
        trim_end(text)[0] == text[0],
    decreases text.len(),
{
    if is_space(text.last()) {
        lemma_trim_end_keeps_first(text.drop_last());
    }
}

/// A line of at least two fields starts with its first field or, when that is
/// empty, with a mark.
proof fn lemma_row_start(cells: Seq<Seq<char>>)
    requires
        cells.len() >= 2,
        is_trimmed(cells[0]),
    ensures
        trim(row(cells)).len() > 0,
        trim(row(cells))[0] == if cells[0].len() > 0 {
            cells[0][0]
        } else {
            '|'
        },
{
    lemma_row_front(cells);
    let line = row(cells);
    let n = cells[0].len();
    if n > 0 {
        assert(line[0] == cells[0][0]);
        lemma_trim_end_keeps_first(line);
    } else {
        let rest = line.skip(1);
        assert(line =~= seq![' '] + rest);
        lemma_trim_front(' ', rest);
        assert(rest[0] == '|');
        lemma_trim_end_keeps_first(rest);
    }
}

proof fn lemma_row_front(cells: Seq<Seq<char>>)
    requires
        cells.len() >= 2,
    ensures
        row(cells).len() >= cells[0].len() + 2,
        row(cells).take(cells[0].len() as int) == cells[0],
        row(cells)[cells[0].len() as int] == ' ',
        row(cells)[cells[0].len() as int + 1] == '|',
        cells[0].len() > 0 ==> row(cells)[0] == cells[0][0],
    decreases cells.len(),
{
    let shorter = cells.drop_last();
    if cells.len() == 2 {
        assert(row(shorter) == cells[0]);
        assert(row(cells).take(cells[0].len() as int) =~= cells[0]);
    } else {
        lemma_row_front(shorter);
        assert(row(cells).take(cells[0].len() as int) =~= row(shorter).take(
            cells[0].len() as int,
        ));
    }
}

proof fn lemma_stored_bond(bond: Remembered)
    requires
        storable(bond),
    ensures
        stored_bond(row(cells_of(bond))) == Some(bond),
        !row(cells_of(bond)).contains('\n'),
{
    let cells = cells_of(bond);
    let line = row(cells);
    assert(plain_name(bond.name) =~= bond.name) by {
        assert forall|i: int| 0 <= i < bond.name.len() implies bond.name[i] != '|' by {
            if bond.name[i] == '|' {
                assert(bond.name.contains('|'));
            }
        }
    }
    reveal_strlit("true");
    reveal_strlit("false");
    assert("true"@ =~= seq!['t', 'r', 'u', 'e']);
    assert("false"@ =~= seq!['f', 'a', 'l', 's', 'e']);
    assert("true"@ != "false"@) by {
        assert("true"@.len() == 4);
        assert("false"@.len() == 5);
    }
    assert(is_word("true"@));
    assert(is_word("false"@));
    lemma_word_is_cell(cells[2]);
    lemma_key_text(bond.long_term_key);
    lemma_key_reads_back(bond.long_term_key);
    lemma_word_is_cell(cells[3]);
    lemma_decimal_is_word(bond.address_type as nat);
    lemma_decimal_number(bond.address_type);
    lemma_word_is_cell(cells[4]);
    match bond.identity {
        Some(identity) => {
            lemma_key_text(identity.irk);
            lemma_key_reads_back(identity.irk);
            lemma_address_is_word(identity.address);
            address_text_reads_back(identity.address);
            lemma_decimal_is_word(identity.address_type as nat);
            lemma_decimal_number(identity.address_type);
        },
        None => {
            assert(parsed_key(cells[5]) is None);
        },
    }
    lemma_word_is_cell(cells[5]);
    lemma_word_is_cell(cells[6]);
    lemma_word_is_cell(cells[7]);
    assert forall|i: int| 0 <= i < cells.len() implies is_cell(#[trigger] cells[i]) by {}
    lemma_fields_of_row(cells);
    lemma_fields_of_trimmed(line, '|');
    lemma_row_is_one_line(cells);
    lemma_row_start(cells);
}

/// Lines are read back from their text, with one empty line behind them.
proof fn lemma_lines_read_back(lines: Seq<Seq<char>>)
    requires
        forall|i: int| 0 <= i < lines.len() ==> !(#[trigger] lines[i]).contains('\n'),
    ensures
        split_on(text_of_lines(lines), '\n') == lines.push(Seq::empty()),
    decreases lines.len(),
{
    let text = text_of_lines(lines);
    if lines.len() == 0 {
        assert(split_on(text, '\n') =~= lines.push(Seq::empty()));
    } else {
        let shorter = lines.drop_last();
        let line = lines.last();
        assert(!lines[lines.len() - 1].contains('\n'));
        assert forall|i: int| 0 <= i < shorter.len() implies !(#[trigger] shorter[i]).contains(
            '\n',
        ) by {
            assert(shorter[i] == lines[i]);
        }
        lemma_lines_read_back(shorter);
        let front = text_of_lines(shorter);
        let none = Seq::<char>::empty();
        assert(text =~= (front + line).push('\n') + none);
        lemma_split_last(front + line, '\n', none);
        assert(split_on(front + line, '\n') == lines) by {
            if shorter.len() == 0 {
                assert(front + line =~= line);
                lemma_split_whole(line, '\n');
                assert(lines =~= seq![line]);
            } else {
                let inner = front.drop_last();
                assert(front =~= inner.push('\n') + none);
                lemma_split_last(inner, '\n', none);
                lemma_split_last(inner, '\n', line);
                assert(front + line =~= inner.push('\n') + line);
                assert(split_on(inner, '\n') =~= shorter) by {
                    assert(split_on(inner, '\n').push(none) == shorter.push(none));
                    assert(split_on(inner, '\n').push(none).drop_last() =~= split_on(
                        inner,
                        '\n',
                    ));
                    assert(shorter.push(none).drop_last() =~= shorter);
                }
                assert(shorter.push(line) =~= lines);
            }
        }
    }
}

proof fn lemma_comment(line: Seq<char>)
    requires
        line.len() > 0,
        line[0] == '#',
    ensures
        stored_bond(line) is None,
{
    lemma_trim_end_keeps_first(line);
}

proof fn lemma_head_lines()
    ensures
        forall|i: int| 0 <= i < 4 ==> !(#[trigger] head_lines()[i]).contains('\n'),
        forall|i: int| 0 <= i < 4 ==> stored_bond(#[trigger] head_lines()[i]) is None,
{
    reveal_strlit("# OpenLEAudio paired devices");
    reveal_strlit("# WARNING: this file contains encryption keys. Do not share it.");
    reveal_strlit(
        "# address | name | LE Audio | key | address type | IRK | identity address | identity type",
    );
    lemma_comment(head_lines()[0]);
    lemma_comment(head_lines()[1]);
    lemma_comment(head_lines()[2]);
    assert(trim(Seq::<char>::empty()) =~= Seq::<char>::empty());
}

/// A store is read back as it was: every device that can be stored comes back
/// with every field the same, in the same order, and nothing else comes with it.
pub proof fn a_saved_store_reads_back(bonds: Seq<Remembered>)
    requires
        ordered(bonds),
        forall|i: int| 0 <= i < bonds.len() ==> storable(#[trigger] bonds[i]),
    ensures
        stored_bonds(split_on(text_of_lines(stored_lines(bonds)), '\n')) == bonds,
{
    let lines = stored_lines(bonds);
    lemma_head_lines();
    assert forall|i: int| 0 <= i < lines.len() implies !(#[trigger] lines[i]).contains('\n') by {
        if i < 4 {
            assert(lines[i] == head_lines()[i]);
        } else {
            assert(lines[i] == row(cells_of(bonds[i - 4])));
            lemma_stored_bond(bonds[i - 4]);
        }
    }
    lemma_lines_read_back(lines);
    lemma_stored_prefix(bonds, bonds.len() as int);
    assert(lines.take(4 + bonds.len() as int) =~= lines);
    assert(bonds.take(bonds.len() as int) =~= bonds);
    let whole = lines.push(Seq::empty());
    assert(whole.drop_last() =~= lines);
    assert(trim(Seq::<char>::empty()) =~= Seq::<char>::empty());
    assert(stored_bond(whole.last()) is None);
}

proof fn lemma_stored_prefix(bonds: Seq<Remembered>, n: int)
    requires
        ordered(bonds),
        0 <= n <= bonds.len(),
        forall|i: int| 0 <= i < bonds.len() ==> storable(#[trigger] bonds[i]),
    ensures
        stored_bonds(stored_lines(bonds).take(4 + n)) == bonds.take(n),
    decreases n,
{
    let lines = stored_lines(bonds);
    if n == 0 {
        lemma_head_lines();
        assert(lines.take(4) =~= head_lines());
        assert(head_lines().drop_last() =~= head_lines().take(3));
        assert(head_lines().take(3).drop_last() =~= head_lines().take(2));
        assert(head_lines().take(2).drop_last() =~= head_lines().take(1));
        assert(head_lines().take(1).drop_last() =~= Seq::<Seq<char>>::empty());
        assert(stored_bonds(head_lines().take(1).drop_last()) =~= Seq::<Remembered>::empty());
        assert(stored_bond(head_lines()[0]) is None);
        assert(stored_bonds(head_lines().take(1)) =~= Seq::<Remembered>::empty());
        assert(stored_bond(head_lines()[1]) is None);
        assert(stored_bonds(head_lines().take(2)) =~= Seq::<Remembered>::empty());
        assert(stored_bond(head_lines()[2]) is None);
        assert(stored_bonds(head_lines().take(3)) =~= Seq::<Remembered>::empty());
        assert(stored_bond(head_lines()[3]) is None);
        assert(bonds.take(0) =~= Seq::<Remembered>::empty());
    } else {
        lemma_stored_prefix(bonds, n - 1);
        let bond = bonds[n - 1];
        let earlier = bonds.take(n - 1);
        assert(lines.take(4 + n).drop_last() =~= lines.take(3 + n));
        assert(lines.take(4 + n).last() == row(cells_of(bond)));
        lemma_stored_bond(bond);
        assert forall|i: int| 0 <= i < earlier.len() implies !before(
            key_of(bond),
            key_of(#[trigger] earlier[i]),
        ) && key_of(earlier[i]) != key_of(bond) by {
            assert(earlier[i] == bonds[i]);
            assert(before(key_of(bonds[i]), key_of(bonds[n - 1])));
            lemma_before_strict(key_of(bonds[i]), key_of(bond));
        }
        lemma_inserted_at(earlier, bond, n - 1);
        assert(earlier.insert(n - 1, bond) =~= bonds.take(n));
    }
}

/// The columns of the file stand in one order: address, name, LE Audio, key, kind of
/// address, and of the identity its key, address and kind. What the key columns hold
/// is two digits per byte, first byte first.
pub proof fn the_columns_of_the_file(bond: Remembered)
    ensures
        ({
            let cells = cells_of(bond);
            &&& cells.len() == 8
            &&& cells[0] == bond.address
            &&& !bond.name.contains('|') ==> cells[1] == bond.name
            &&& bond.le_audio ==> cells[2] == "true"@
            &&& !bond.le_audio ==> cells[2] == "false"@
            &&& cells[3] == key_text(bond.long_term_key)
            &&& cells[4] == decimal(bond.address_type as nat)
            &&& bond.identity is None ==> cells[5].len() == 0 && cells[6].len() == 0
                && cells[7].len() == 0
            &&& bond.identity matches Some(own) ==> cells[5] == key_text(own.irk) && cells[6]
                == address_text(own.address) && cells[7] == decimal(own.address_type as nat)
        }),
        forall|i: int|
            0 <= i < bond.long_term_key.len() ==> #[trigger] key_text(bond.long_term_key).subrange(
                2 * i,
                2 * i + 2,
            ) == upper_hex(bond.long_term_key[i] as nat, 2),
        key_text(bond.long_term_key).len() == 2 * bond.long_term_key.len(),
{
    lemma_key_text(bond.long_term_key);
    if !bond.name.contains('|') {
        assert forall|i: int| 0 <= i < bond.name.len() implies bond.name[i] != '|' by {
            if bond.name[i] == '|' {
                assert(bond.name.contains('|'));
            }
        }
        assert(plain_name(bond.name) =~= bond.name);
    }
}

/// A line of the older, shorter form is still read: it has a public address and no
/// identity. A line without a whole key is no device.
pub proof fn a_short_line_is_still_read(line: Seq<char>)
    requires
        trim(line).len() > 0,
        trim(line)[0] != '#',
    ensures
        ({
            let cells = fields(trim(line), '|');
            &&& stored_bond(line) is Some <==> cells.len() >= 4 && parsed_key(cells[3]) is Some
            &&& stored_bond(line) matches Some(bond) ==> {
                &&& bond.address == cells[0]
                &&& bond.name == cells[1]
                &&& bond.le_audio <==> cells[2] == "true"@
                &&& parsed_key(cells[3]) == Some(bond.long_term_key)
                &&& cells.len() == 4 ==> bond.address_type == 0
                &&& cells.len() < 8 ==> bond.identity is None
            }
        }),
{
}

} // verus!
