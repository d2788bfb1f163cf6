//! Generic Media Control Service for the current Windows media session.
//! MCS 1.0: only confirmed Windows actions receive SUCCESS. Disconnect never
//! generates a player command. The server is scoped to the one active ACL link.

use crate::bytes::{
    copy_bytes, le16, le32, push_bytes, push_u16, push_u32, range, read_u16, read_u32, same_bytes,
    tail, u16_at, u32_at, views,
};
use crate::text::same_text;
use std::collections::VecDeque;
use vstd::prelude::*;
use vstd::string::*;
use vstd::utf8::encode_utf8;

verus! {

/// `std::time::Instant`, carried through to know how old a command is.
#[verifier::external_type_specification]
#[verifier::external_body]
pub struct ExInstant(std::time::Instant);

/// `Instant::now`: the moment of the call. Nothing is known of it here.
#[verifier::external_body]
fn moment() -> (at: std::time::Instant) {
    std::time::Instant::now()
}

/// `Instant::elapsed`, in nanoseconds: how long ago a moment was. It depends on
/// the clock, so nothing is known of it here.
#[verifier::external_body]
fn nanoseconds_since(at: &std::time::Instant) -> (elapsed: u128) {
    at.elapsed().as_nanos()
}

/// How long Windows may take to confirm a command.
pub const CONFIRMATION_NANOSECONDS: u128 = 3_000_000_000;

/// Whether a command that was asked for so many nanoseconds ago has had its time
/// to be confirmed.
pub open spec fn overdue(elapsed: u128) -> bool {
    elapsed > CONFIRMATION_NANOSECONDS
}

/// Whether a command that was asked for so many nanoseconds ago has had its time
/// to be confirmed: more than three seconds.
pub fn is_overdue(elapsed: u128) -> (late: bool)
    ensures
        late == (elapsed > CONFIRMATION_NANOSECONDS),
{
    elapsed > CONFIRMATION_NANOSECONDS
}

/// How many notifications wait for the link at most.
pub const MAX_WAITING: usize = 64;

/// The last attribute that may be used before the link is encrypted.
pub const LAST_OPEN_HANDLE: u16 = 6;

/// What the player was last known to do.
#[derive(Debug)]
pub struct Snapshot {
    pub player: String,
    pub title: String,
    pub state: u8,
    pub duration: i32,
    pub position: i32,
    pub supported: u32,
}

/// What a snapshot says.
pub struct Playing {
    pub player: Seq<char>,
    pub title: Seq<char>,
    pub state: u8,
    pub duration: i32,
    pub position: i32,
    pub supported: u32,
}

impl View for Snapshot {
    type V = Playing;

    open spec fn view(&self) -> Playing {
        Playing {
            player: self.player@,
            title: self.title@,
            state: self.state,
            duration: self.duration,
            position: self.position,
            supported: self.supported,
        }
    }
}

/// A snapshot of nothing, for a player of the given name.
pub open spec fn idle(player: Seq<char>, duration: i32) -> Playing {
    Playing { player, title: Seq::empty(), state: 0, duration, position: 0, supported: 0 }
}

impl Default for Snapshot {
    fn default() -> (snapshot: Self)
        ensures
            snapshot@ == idle(Seq::empty(), 0),
    {
        Snapshot {
            player: String::new(),
            title: String::new(),
            state: 0,
            duration: 0,
            position: 0,
            supported: 0,
        }
    }
}

impl Clone for Snapshot {
    fn clone(&self) -> (copy: Self)
        ensures
            copy@ == self@,
    {
        Snapshot {
            player: self.player.clone(),
            title: self.title.clone(),
            state: self.state,
            duration: self.duration,
            position: self.position,
            supported: self.supported,
        }
    }
}

/// Something the headphones asked the player to do.
#[derive(Debug, Clone, Copy, PartialEq, Eq, Structural)]
pub struct MediaCommand {
    pub id: u64,
    pub opcode: u8,
    pub position: Option<i32>,
}

struct Attribute {
    handle: u16,
    uuid: u16,
    value: Vec<u8>,
    read: bool,
    write: bool,
}

/// One entry of the attribute table.
pub struct Entry {
    pub handle: u16,
    pub uuid: u16,
    pub value: Seq<u8>,
    pub read: bool,
    pub write: bool,
}

/// Everything the server remembers.
pub struct Media {
    pub table: Seq<Entry>,
    pub notifications: Seq<Seq<u8>>,
    pub commands: Seq<MediaCommand>,
    /// The command that waits for Windows: its number and opcode.
    pub pending: Option<(u64, u8)>,
    pub serial: u64,
    pub encrypted: bool,
    pub enabled: bool,
    pub playing: Playing,
}

// ---- Numbers ----

/// A signed number as the four bytes that carry it are read.
pub open spec fn unsigned(value: i32) -> u32 {
    if value >= 0 {
        value as u32
    } else {
        (value + 0x1_0000_0000) as u32
    }
}

/// The signed number that four bytes carry.
pub open spec fn signed(value: u32) -> i32 {
    if value < 0x8000_0000 {
        value as i32
    } else {
        (value - 0x1_0000_0000) as i32
    }
}

fn to_unsigned(value: i32) -> (bits: u32)
    ensures
        bits == unsigned(value),
{
    if value >= 0 {
        value as u32
    } else {
        (value as i64 + 0x1_0000_0000) as u32
    }
}

fn to_signed(value: u32) -> (number: i32)
    ensures
        number == signed(value),
{
    if value < 0x8000_0000 {
        value as i32
    } else {
        (value as i64 - 0x1_0000_0000) as i32
    }
}

/// An MTU within what ATT allows here.
pub open spec fn usable_mtu(mtu: usize) -> usize {
    if mtu < 23 {
        23
    } else if mtu > 517 {
        517
    } else {
        mtu
    }
}

fn clamp_mtu(mtu: usize) -> (usable: usize)
    ensures
        usable == usable_mtu(mtu),
{
    if mtu < 23 {
        23
    } else if mtu > 517 {
        517
    } else {
        mtu
    }
}

/// The first `limit` bytes of `data`, or all of it.
pub open spec fn prefix(data: Seq<u8>, limit: int) -> Seq<u8> {
    if data.len() <= limit {
        data
    } else {
        data.take(limit)
    }
}

fn cut(data: &[u8], limit: usize) -> (part: &[u8])
    ensures
        part@ == prefix(data@, limit as int),
{
    if data.len() <= limit {
        data
    } else {
        let part = range(data, 0, limit);
        assert(part@ =~= data@.take(limit as int));
        part
    }
}

// ---- The attribute table ----

/// The table with one more attribute, on the next free handle.
pub open spec fn with_attribute(
    table: Seq<Entry>,
    uuid: u16,
    value: Seq<u8>,
    read: bool,
    write: bool,
) -> Seq<Entry> {
    table.push(Entry { handle: (table.len() + 1) as u16, uuid, value, read, write })
}

/// The table with one more characteristic: its declaration, its value, and a
/// configuration descriptor when it can notify.
pub open spec fn with_characteristic(
    table: Seq<Entry>,
    uuid: u16,
    properties: u8,
    value: Seq<u8>,
) -> Seq<Entry> {
    let declaration = seq![properties] + le16((table.len() + 2) as u16) + le16(uuid);
    let declared = with_attribute(table, 0x2803, declaration, true, false);
    let valued = with_attribute(
        declared,
        uuid,
        value,
        properties & 2 != 0,
        properties & 0x0C != 0,
    );
    if properties & 0x10 != 0 {
        with_attribute(valued, 0x2902, seq![0, 0], true, true)
    } else {
        valued
    }
}

/// The first place at or after `from` with an attribute of type `uuid`; the
/// length of the table when there is none.
pub open spec fn place_from(table: Seq<Entry>, uuid: u16, from: int) -> int
    decreases table.len() - from,
{
    if from >= table.len() {
        table.len() as int
    } else if table[from].uuid == uuid {
        from
    } else {
        place_from(table, uuid, from + 1)
    }
}

/// Whether the table has an attribute of type `uuid`.
pub open spec fn has(table: Seq<Entry>, uuid: u16) -> bool {
    exists|i: int| 0 <= i < table.len() && (#[trigger] table[i]).uuid == uuid
}

/// Handles count up from one without a gap.
pub open spec fn consecutive(table: Seq<Entry>) -> bool {
    &&& table.len() < 0xFFFF
    &&& forall|i: int| 0 <= i < table.len() ==> (#[trigger] table[i]).handle == i + 1
}

/// Every characteristic the server itself writes to is there.
pub open spec fn complete(table: Seq<Entry>) -> bool {
    &&& has(table, 0x2B93)
    &&& has(table, 0x2B96)
    &&& has(table, 0x2B97)
    &&& has(table, 0x2B98)
    &&& has(table, 0x2B99)
    &&& has(table, 0x2BA3)
    &&& has(table, 0x2BA4)
    &&& has(table, 0x2BA5)
}

/// Whether two tables differ in nothing but values.
pub open spec fn same_shape(a: Seq<Entry>, b: Seq<Entry>) -> bool {
    &&& a.len() == b.len()
    &&& forall|i: int|
        0 <= i < a.len() ==> {
            &&& (#[trigger] a[i]).handle == b[i].handle
            &&& a[i].uuid == b[i].uuid
            &&& a[i].read == b[i].read
            &&& a[i].write == b[i].write
        }
}

/// The table with another value at one place.
pub open spec fn with_value(table: Seq<Entry>, at: int, value: Seq<u8>) -> Seq<Entry> {
    table.update(at, Entry { value, ..table[at] })
}

/// The table with every configuration descriptor cleared.
pub open spec fn unsubscribed(table: Seq<Entry>) -> Seq<Entry> {
    Seq::new(
        table.len(),
        |i: int|
            if table[i].uuid == 0x2902 {
                Entry { value: seq![0, 0], ..table[i] }
            } else {
                table[i]
            },
    )
}

/// Whether the peer subscribed to the attribute at `at`: the descriptor behind
/// it says so.
pub open spec fn is_subscribed(table: Seq<Entry>, at: int) -> bool {
    &&& at + 1 < table.len()
    &&& table[at + 1].uuid == 0x2902
    &&& table[at + 1].value == seq![1u8, 0u8]
}

/// The table the server starts with.
pub open spec fn first_table() -> Seq<Entry> {
    let t1 = with_attribute(Seq::empty(), 0x2800, le16(0x1800), true, false);
    let t2 = with_characteristic(
        t1,
        0x2A00,
        2,
        seq![0x4F, 0x70, 0x65, 0x6E, 0x4C, 0x45, 0x41, 0x75, 0x64, 0x69, 0x6F],
    );
    let t3 = with_characteristic(t2, 0x2A01, 2, seq![0, 0]);
    let t4 = with_attribute(t3, 0x2800, le16(0x1849), true, false);
    let t5 = with_characteristic(
        t4,
        0x2B93,
        0x12,
        seq![0x57, 0x69, 0x6E, 0x64, 0x6F, 0x77, 0x73],
    );
    let t6 = with_characteristic(t5, 0x2B96, 0x10, seq![]);
    let t7 = with_characteristic(t6, 0x2B97, 0x12, seq![]);
    let t8 = with_characteristic(t7, 0x2B98, 0x12, le32(unsigned((-1) as i32)));
    let t9 = with_characteristic(t8, 0x2B99, 0x1E, le32(0));
    let t10 = with_characteristic(t9, 0x2BA3, 0x12, seq![0]);
    let t11 = with_characteristic(t10, 0x2BA4, 0x1C, seq![]);
    let t12 = with_characteristic(t11, 0x2BA5, 0x12, seq![0, 0, 0, 0]);
    with_characteristic(t12, 0x2BBA, 2, seq![1])
}

proof fn lemma_place_from(table: Seq<Entry>, uuid: u16, from: int)
    requires
        0 <= from,
    ensures
        from <= place_from(table, uuid, from) || from > table.len(),
        place_from(table, uuid, from) <= table.len(),
        place_from(table, uuid, from) < table.len() ==> table[place_from(table, uuid, from)].uuid
            == uuid,
        forall|i: int|
            from <= i < place_from(table, uuid, from) ==> (#[trigger] table[i]).uuid != uuid,
    decreases table.len() - from,
{
    if from < table.len() && table[from].uuid != uuid {
        lemma_place_from(table, uuid, from + 1);
    }
}

proof fn lemma_has_place(table: Seq<Entry>, uuid: u16)
    requires
        has(table, uuid),
    ensures
        0 <= place_from(table, uuid, 0) < table.len(),
{
    lemma_place_from(table, uuid, 0);
    let i = choose|i: int| 0 <= i < table.len() && (#[trigger] table[i]).uuid == uuid;
    assert(table[i].uuid == uuid);
}

proof fn lemma_place_from_is(table: Seq<Entry>, uuid: u16, from: int, at: int)
    requires
        0 <= from <= at <= table.len(),
        at < table.len() ==> table[at].uuid == uuid,
        forall|i: int| from <= i < at ==> (#[trigger] table[i]).uuid != uuid,
    ensures
        place_from(table, uuid, from) == at,
{
    lemma_place_from(table, uuid, from);
    let p = place_from(table, uuid, from);
    if p < at {
        assert(table[p].uuid != uuid);
    }
    if at < p {
        assert(table[at].uuid != uuid);
    }
}

proof fn lemma_shape_keeps(a: Seq<Entry>, b: Seq<Entry>)
    requires
        same_shape(a, b),
        consecutive(a),
        complete(a),
    ensures
        consecutive(b),
        complete(b),
{
    assert forall|uuid: u16| has(a, uuid) implies has(b, uuid) by {
        let i = choose|i: int| 0 <= i < a.len() && (#[trigger] a[i]).uuid == uuid;
        assert(b[i].uuid == uuid);
    }
    assert forall|i: int| 0 <= i < b.len() implies (#[trigger] b[i]).handle == i + 1 by {
        assert(a[i].handle == b[i].handle);
    }
}

proof fn lemma_grown_table_has(table: Seq<Entry>, uuid: u16, properties: u8, value: Seq<u8>)
    ensures
        has(with_characteristic(table, uuid, properties, value), uuid),
        forall|other: u16|
            has(table, other) ==> #[trigger] has(
                with_characteristic(table, uuid, properties, value),
                other,
            ),
        table.len() + 2 <= with_characteristic(table, uuid, properties, value).len() <= table.len()
            + 3,
        consecutive(table) && table.len() + 3 < 0xFFFF ==> consecutive(
            with_characteristic(table, uuid, properties, value),
        ),
{
    let grown = with_characteristic(table, uuid, properties, value);
    assert(grown[table.len() as int + 1].uuid == uuid);
    assert forall|other: u16| has(table, other) implies #[trigger] has(grown, other) by {
        let i = choose|i: int| 0 <= i < table.len() && (#[trigger] table[i]).uuid == other;
        assert(grown[i] == table[i]);
    }
    if consecutive(table) && table.len() + 3 < 0xFFFF {
        assert forall|i: int| 0 <= i < grown.len() implies (#[trigger] grown[i]).handle == i
            + 1 by {
            if i < table.len() {
                assert(grown[i] == table[i]);
            }
        }
    }
}

proof fn lemma_first_table()
    ensures
        consecutive(first_table()),
        complete(first_table()),
{
    let t1 = with_attribute(Seq::empty(), 0x2800, le16(0x1800), true, false);
    let name = seq![0x4Fu8, 0x70, 0x65, 0x6E, 0x4C, 0x45, 0x41, 0x75, 0x64, 0x69, 0x6F];
    let t2 = with_characteristic(t1, 0x2A00, 2, name);
    lemma_grown_table_has(t1, 0x2A00, 2, name);
    let t3 = with_characteristic(t2, 0x2A01, 2, seq![0, 0]);
    lemma_grown_table_has(t2, 0x2A01, 2, seq![0, 0]);
    let t4 = with_attribute(t3, 0x2800, le16(0x1849), true, false);
    assert(consecutive(t4)) by {
        assert forall|i: int| 0 <= i < t4.len() implies (#[trigger] t4[i]).handle == i + 1 by {
            if i < t3.len() {
                assert(t4[i] == t3[i]);
            }
        }
    }
    let windows = seq![0x57u8, 0x69, 0x6E, 0x64, 0x6F, 0x77, 0x73];
    let t5 = with_characteristic(t4, 0x2B93, 0x12, windows);
    lemma_grown_table_has(t4, 0x2B93, 0x12, windows);
    let t6 = with_characteristic(t5, 0x2B96, 0x10, seq![]);
    lemma_grown_table_has(t5, 0x2B96, 0x10, seq![]);
    let t7 = with_characteristic(t6, 0x2B97, 0x12, seq![]);
    lemma_grown_table_has(t6, 0x2B97, 0x12, seq![]);
    let t8 = with_characteristic(t7, 0x2B98, 0x12, le32(unsigned((-1) as i32)));
    lemma_grown_table_has(t7, 0x2B98, 0x12, le32(unsigned((-1) as i32)));
    let t9 = with_characteristic(t8, 0x2B99, 0x1E, le32(0));
    lemma_grown_table_has(t8, 0x2B99, 0x1E, le32(0));
    let t10 = with_characteristic(t9, 0x2BA3, 0x12, seq![0]);
    lemma_grown_table_has(t9, 0x2BA3, 0x12, seq![0]);
    let t11 = with_characteristic(t10, 0x2BA4, 0x1C, seq![]);
    lemma_grown_table_has(t10, 0x2BA4, 0x1C, seq![]);
    let t12 = with_characteristic(t11, 0x2BA5, 0x12, seq![0, 0, 0, 0]);
    lemma_grown_table_has(t11, 0x2BA5, 0x12, seq![0, 0, 0, 0]);
    lemma_grown_table_has(t12, 0x2BBA, 2, seq![1]);
}

// ---- What the server does ----

/// A notification of `value` on the attribute of type `uuid`, when the link is
/// encrypted, the peer subscribed to it and the queue has room.
pub open spec fn notified(s: Media, uuid: u16, value: Seq<u8>) -> Media {
    let at = place_from(s.table, uuid, 0);
    if s.encrypted && is_subscribed(s.table, at) && s.notifications.len() < MAX_WAITING {
        Media {
            notifications: s.notifications.push(seq![0x1bu8] + le16((at + 1) as u16) + value),
            ..s
        }
    } else {
        s
    }
}

/// A new value for the attribute of type `uuid`, notified when it is different.
pub open spec fn revalued(s: Media, uuid: u16, value: Seq<u8>) -> Media {
    let at = place_from(s.table, uuid, 0);
    if s.table[at].value == value {
        s
    } else {
        notified(Media { table: with_value(s.table, at, value), ..s }, uuid, value)
    }
}

/// The text of a characteristic: at most 512 bytes of UTF-8.
pub open spec fn text_value(text: Seq<char>) -> Seq<u8> {
    prefix(encode_utf8(text), 512)
}

/// The server after the player reported `playing`.
pub open spec fn updated(s: Media, playing: Playing) -> Media {
    let s1 = revalued(s, 0x2B93, text_value(playing.player));
    let s2 = revalued(s1, 0x2B97, text_value(playing.title));
    let s3 = revalued(s2, 0x2B98, le32(unsigned(playing.duration)));
    let s4 = revalued(s3, 0x2B99, le32(unsigned(playing.position)));
    let s5 = revalued(s4, 0x2BA3, seq![if playing.state < 3 { playing.state } else { 3u8 }]);
    let s6 = revalued(s5, 0x2BA5, le32(if s.enabled { playing.supported } else { 0 }));
    let s7 = if s.playing.title != playing.title || s.playing.player != playing.player {
        notified(s6, 0x2B96, seq![])
    } else {
        s6
    };
    Media { playing, ..s7 }
}

/// The server after the link went away.
pub open spec fn link_reset(s: Media) -> Media {
    Media {
        encrypted: false,
        pending: None,
        commands: Seq::empty(),
        notifications: Seq::empty(),
        table: unsubscribed(s.table),
        ..s
    }
}

/// The server after Windows answered command `id`. Only the pending command is
/// answered to the peer, and a seek has no control point answer.
pub open spec fn finished(s: Media, id: u64, success: bool) -> Media {
    match s.pending {
        Some((pending, opcode)) => if pending == id {
            let settled = Media { pending: None, ..s };
            if opcode != 0 {
                notified(settled, 0x2BA4, seq![opcode, if success { 1u8 } else { 4u8 }])
            } else {
                settled
            }
        } else {
            s
        },
        None => s,
    }
}

/// The bit that says whether the player supports an opcode; zero for opcodes
/// that no player supports.
pub open spec fn support_bit(opcode: u8) -> u32 {
    match opcode {
        1 => 1,
        2 => 2,
        5 => 16,
        0x30 => 0x800,
        0x31 => 0x1000,
        _ => 0,
    }
}

/// Why a command is not passed on, if it is not: the service is off, the
/// opcode is not supported, nothing plays, or another command is pending.
pub open spec fn refusal(s: Media, opcode: u8) -> Option<u8> {
    if !s.enabled {
        Some(4)
    } else if opcode != 0 && (support_bit(opcode) == 0 || s.playing.supported & support_bit(opcode)
        == 0) {
        Some(2)
    } else if s.playing.state == 0 {
        Some(3)
    } else if s.pending is Some {
        Some(4)
    } else {
        None
    }
}

/// The number of the next command.
pub open spec fn next_serial(serial: u64) -> u64 {
    if serial == u64::MAX {
        0
    } else {
        (serial + 1) as u64
    }
}

/// The server after the peer asked for `opcode`; opcode zero is a seek.
pub open spec fn queued(s: Media, opcode: u8, position: Option<i32>) -> Media {
    match refusal(s, opcode) {
        Some(code) => if opcode != 0 {
            notified(s, 0x2BA4, seq![opcode, code])
        } else {
            s
        },
        None => {
            let id = next_serial(s.serial);
            Media {
                serial: id,
                commands: s.commands.push(MediaCommand { id, opcode, position }),
                pending: Some((id, opcode)),
                ..s
            }
        },
    }
}

/// The server after the pending command, if it is `late`, was given up.
pub open spec fn settled(s: Media, late: bool) -> Media {
    match s.pending {
        Some((id, _)) => if late {
            finished(s, id, false)
        } else {
            s
        },
        None => s,
    }
}

/// The waiting notifications, each cut to the MTU.
pub open spec fn outgoing(notifications: Seq<Seq<u8>>, mtu: usize) -> Seq<Seq<u8>> {
    Seq::new(notifications.len(), |i: int| prefix(notifications[i], usable_mtu(mtu) as int))
}

// ---- Requests ----

/// Opcodes that a client sends to a server.
pub open spec fn is_request(opcode: u8) -> bool {
    opcode == 0x02 || opcode == 0x04 || opcode == 0x06 || opcode == 0x08 || opcode == 0x0a
        || opcode == 0x0c || opcode == 0x10 || opcode == 0x12 || opcode == 0x52 || opcode == 0x16
        || opcode == 0x18 || opcode == 0x0e || opcode == 0x20
}

/// Opcodes that search a range of handles.
pub open spec fn is_search(opcode: u8) -> bool {
    opcode == 0x04 || opcode == 0x06 || opcode == 0x08 || opcode == 0x10
}

/// The handle a request names first, zero when it is too short to name one.
pub open spec fn asked_handle(p: Seq<u8>) -> u16 {
    if p.len() >= 3 {
        u16_at(p, 1)
    } else {
        0
    }
}

/// An ATT error that answers `p`.
pub open spec fn refused(p: Seq<u8>, code: u8) -> Seq<u8> {
    seq![1u8, p[0]] + le16(asked_handle(p)) + seq![code]
}

/// The attribute type a search names: 16 bits, or a 128-bit UUID built on the
/// base UUID for the two opcodes that take one.
pub open spec fn asked_type(p: Seq<u8>) -> Option<u16> {
    if p.len() == 21 {
        if (p[0] == 0x08 || p[0] == 0x10) && p.subrange(5, 17) == crate::att::base_suffix() && p[19]
            == 0 && p[20] == 0 {
            Some(u16_at(p, 17))
        } else {
            None
        }
    } else if p.len() >= 7 {
        Some(u16_at(p, 5))
    } else {
        None
    }
}

/// What one attribute contributes to the answer of a search.
pub enum Row {
    Nothing,
    /// The search ends with this error.
    Refused(u8),
    Cells(Seq<u8>),
}

/// What the attribute at `i` contributes to the answer of the search `p`.
pub open spec fn row_of(s: Media, p: Seq<u8>, mtu: int, i: int) -> Row {
    let a = s.table[i];
    let end = place_from(s.table, 0x2800, i + 1) as u16;
    let typed = p.len() == 7 || p.len() == 21;
    if p[0] == 0x04 {
        Row::Cells(le16(a.handle) + le16(a.uuid))
    } else if p[0] == 0x10 && typed && asked_type(p) == Some(0x2800u16) && a.uuid == 0x2800 {
        Row::Cells(le16(a.handle) + le16(end) + a.value)
    } else if p[0] == 0x06 && p.len() == 9 && asked_type(p) == Some(0x2800u16) && a.uuid == 0x2800
        && a.value == p.skip(7) {
        Row::Cells(le16(a.handle) + le16(end))
    } else if p[0] == 0x08 && typed && asked_type(p) == Some(a.uuid) {
        if !a.read {
            Row::Refused(2)
        } else if a.handle > LAST_OPEN_HANDLE && a.uuid != 0x2803 && !s.encrypted {
            Row::Refused(0x0f)
        } else {
            Row::Cells(le16(a.handle) + prefix(a.value, if mtu - 4 < 253 { mtu - 4 } else { 253 }))
        }
    } else {
        Row::Nothing
    }
}

/// Several rows, one after the other.
pub open spec fn joined(rows: Seq<Seq<u8>>) -> Seq<u8>
    decreases rows.len(),
{
    if rows.len() == 0 {
        Seq::empty()
    } else {
        joined(rows.drop_last()) + rows.last()
    }
}

/// What a search gathers.
pub enum Gathered {
    Refused(u8),
    Rows(Seq<Seq<u8>>),
}

/// The rows of the attributes from `i` on, behind those gathered already: all
/// of one length, as many as the MTU holds.
pub open spec fn gathered(s: Media, p: Seq<u8>, mtu: int, i: int, rows: Seq<Seq<u8>>) -> Gathered
    decreases s.table.len() - i,
{
    if i >= s.table.len() {
        Gathered::Rows(rows)
    } else if s.table[i].handle < u16_at(p, 1) || s.table[i].handle > u16_at(p, 3) {
        gathered(s, p, mtu, i + 1, rows)
    } else {
        match row_of(s, p, mtu, i) {
            Row::Nothing => gathered(s, p, mtu, i + 1, rows),
            Row::Refused(code) => Gathered::Refused(code),
            Row::Cells(row) => if (rows.len() > 0 && rows[0].len() != row.len()) || 2 + joined(
                rows,
            ).len() + row.len() > mtu {
                Gathered::Rows(rows)
            } else {
                gathered(s, p, mtu, i + 1, rows.push(row))
            },
        }
    }
}

/// What comes before the rows in the answer of a search.
pub open spec fn search_head(opcode: u8, rows: Seq<Seq<u8>>) -> Seq<u8> {
    if opcode == 0x04 {
        seq![5u8, 1u8]
    } else if opcode == 0x06 {
        seq![7u8]
    } else if opcode == 0x08 {
        seq![9u8, rows[0].len() as u8]
    } else {
        seq![0x11u8, 6u8]
    }
}

/// The answer to a search.
pub open spec fn search_answer(s: Media, p: Seq<u8>, mtu: int) -> Seq<u8> {
    if p.len() < 5 {
        refused(p, 4)
    } else if u16_at(p, 1) == 0 || u16_at(p, 1) > u16_at(p, 3) {
        refused(p, 1)
    } else {
        match gathered(s, p, mtu, 0, Seq::empty()) {
            Gathered::Refused(code) => refused(p, code),
            Gathered::Rows(rows) => if rows.len() == 0 {
                refused(p, 0x0a)
            } else {
                search_head(p[0], rows) + joined(rows)
            },
        }
    }
}

/// The answer to a read, or a read from an offset, of the attribute `a`.
pub open spec fn read_answer(a: Entry, p: Seq<u8>, mtu: int) -> Seq<u8> {
    let blob = p[0] == 0x0c;
    let offset = if blob {
        u16_at(p, 3) as int
    } else {
        0
    };
    if !a.read {
        refused(p, 2)
    } else if p.len() != (if blob { 5int } else { 3int }) {
        refused(p, 4)
    } else if offset > a.value.len() {
        refused(p, 7)
    } else {
        seq![if blob { 0x0du8 } else { 0x0bu8 }] + prefix(a.value.skip(offset), mtu - 1)
    }
}

/// Why a write to the attribute `a` is refused, if it is.
pub open spec fn write_error(a: Entry, p: Seq<u8>) -> Option<u8> {
    if !a.write {
        Some(3)
    } else if a.uuid == 0x2902 {
        if p.len() != 5 || p[4] != 0 || p[3] > 1 {
            Some(0x13)
        } else {
            None
        }
    } else if a.uuid == 0x2BA4 {
        if p.len() != 4 {
            Some(0x0d)
        } else {
            None
        }
    } else if a.uuid == 0x2B99 {
        if p.len() != 7 {
            Some(0x0d)
        } else {
            None
        }
    } else {
        Some(3)
    }
}

/// The server after an accepted write to the attribute at `at`: a subscription
/// changes, or a command or a seek is asked for.
pub open spec fn written(s: Media, p: Seq<u8>, at: int) -> Media {
    if s.table[at].uuid == 0x2902 {
        Media { table: with_value(s.table, at, p.skip(3)), ..s }
    } else if s.table[at].uuid == 0x2BA4 {
        queued(s, p[3], None)
    } else {
        queued(s, 0, Some(signed(u32_at(p, 3))))
    }
}

/// Whether `p` is a write, with or without a response.
pub open spec fn is_write(p: Seq<u8>) -> bool {
    p[0] == 0x12 || p[0] == 0x52
}

/// Whether `p` is a write that is carried out.
pub open spec fn is_accepted_write(s: Media, p: Seq<u8>) -> bool {
    let h = asked_handle(p);
    &&& p.len() > 0
    &&& is_write(p)
    &&& 1 <= h <= s.table.len()
    &&& h > LAST_OPEN_HANDLE ==> s.encrypted
    &&& write_error(s.table[h - 1], p) is None
}

/// The server after a request.
pub open spec fn after_request(s: Media, p: Seq<u8>) -> Media {
    if is_accepted_write(s, p) {
        written(s, p, asked_handle(p) - 1)
    } else {
        s
    }
}

/// The answer to a request about one attribute. A write without response gets
/// an empty one.
pub open spec fn attribute_answer(s: Media, p: Seq<u8>, mtu: int) -> Seq<u8> {
    let h = asked_handle(p);
    let silent = p[0] == 0x52;
    if !(1 <= h <= s.table.len()) {
        if silent {
            Seq::empty()
        } else {
            refused(p, 1)
        }
    } else if h > LAST_OPEN_HANDLE && !s.encrypted {
        if silent {
            Seq::empty()
        } else {
            refused(p, 0x0f)
        }
    } else if p[0] == 0x0a || p[0] == 0x0c {
        read_answer(s.table[h - 1], p, mtu)
    } else if silent {
        Seq::empty()
    } else if p[0] == 0x12 {
        match write_error(s.table[h - 1], p) {
            Some(code) => refused(p, code),
            None => seq![0x13u8],
        }
    } else {
        refused(p, 6)
    }
}

/// The answer to a PDU; none for anything that is not a request.
pub open spec fn answer(s: Media, p: Seq<u8>, mtu: int) -> Option<Seq<u8>> {
    if p.len() == 0 || !is_request(p[0]) {
        None
    } else if p[0] == 0x02 {
        Some(
            if p.len() == 3 {
                seq![3u8, 5u8, 2u8]
            } else {
                refused(p, 4)
            },
        )
    } else if is_search(p[0]) {
        Some(search_answer(s, p, mtu))
    } else {
        Some(attribute_answer(s, p, mtu))
    }
}

/// What a PDU, if there is one, is made of.
pub open spec fn opt_view(pdu: Option<&[u8]>) -> Option<Seq<u8>> {
    match pdu {
        Some(p) => Some(p@),
        None => None,
    }
}

/// Serving one PDU: whether it was a request, what is sent, and the server
/// afterwards. An empty answer is not sent.
pub open spec fn serving(s: Media, pdu: Option<Seq<u8>>, late: bool, mtu: usize) -> (
    bool,
    Seq<Seq<u8>>,
    Media,
) {
    let reply = match pdu {
        Some(p) => answer(s, p, usable_mtu(mtu) as int),
        None => None,
    };
    let after = match pdu {
        Some(p) => after_request(s, p),
        None => s,
    };
    let first = match reply {
        Some(out) => if out.len() > 0 {
            seq![out]
        } else {
            Seq::empty()
        },
        None => Seq::empty(),
    };
    let ready = settled(after, late);
    (
        reply is Some,
        first + outgoing(ready.notifications, mtu),
        Media { notifications: Seq::empty(), ..ready },
    )
}

// ---- The server ----

/// The attribute server of one link.
pub struct Server {
    attributes: Vec<Attribute>,
    notifications: VecDeque<Vec<u8>>,
    commands: VecDeque<MediaCommand>,
    pending: Option<(u64, u8, std::time::Instant)>,
    serial: u64,
    encrypted: bool,
    enabled: bool,
    snapshot: Snapshot,
}

spec fn entry(a: Attribute) -> Entry {
    Entry { handle: a.handle, uuid: a.uuid, value: a.value@, read: a.read, write: a.write }
}

spec fn entries(attributes: Seq<Attribute>) -> Seq<Entry> {
    Seq::new(attributes.len(), |i: int| entry(attributes[i]))
}

impl View for Server {
    type V = Media;

    closed spec fn view(&self) -> Media {
        Media {
            table: entries(self.attributes@),
            notifications: views(self.notifications@),
            commands: self.commands@,
            pending: match self.pending {
                Some((id, opcode, _)) => Some((id, opcode)),
                None => None,
            },
            serial: self.serial,
            encrypted: self.encrypted,
            enabled: self.enabled,
            playing: self.snapshot@,
        }
    }
}

/// The state a server starts in.
pub open spec fn first_state() -> Media {
    Media {
        table: first_table(),
        notifications: Seq::empty(),
        commands: Seq::empty(),
        pending: None,
        serial: 0,
        encrypted: false,
        enabled: true,
        playing: idle("Windows"@, (-1) as i32),
    }
}

/// What every state of a server keeps: a table without gaps that has all the
/// characteristics, and a bounded queue.
pub open spec fn well_formed(s: Media) -> bool {
    &&& consecutive(s.table)
    &&& complete(s.table)
    &&& s.notifications.len() <= MAX_WAITING
}

impl Default for Server {
    fn default() -> (server: Self)
        ensures
            server@ == first_state(),
            well_formed(server@),
    {
        let mut s = Server {
            attributes: Vec::new(),
            notifications: VecDeque::new(),
            commands: VecDeque::new(),
            pending: None,
            serial: 0,
            encrypted: false,
            enabled: true,
            snapshot: Snapshot {
                player: String::from_str("Windows"),
                title: String::new(),
                state: 0,
                duration: -1,
                position: 0,
                supported: 0,
            },
        };
        assert(s@.table =~= Seq::<Entry>::empty());
        assert(s@.notifications =~= Seq::<Seq<u8>>::empty());
        let gap: Vec<u8> = vec![0x00, 0x18];
        assert(gap@ =~= le16(0x1800));
        s.attr(0x2800, gap, true, false);
        let device_name: Vec<u8> = vec![0x4F, 0x70, 0x65, 0x6E, 0x4C, 0x45, 0x41, 0x75, 0x64, 0x69, 0x6F];
        assert(device_name@ =~= seq![0x4Fu8, 0x70, 0x65, 0x6E, 0x4C, 0x45, 0x41, 0x75, 0x64, 0x69, 0x6F]);
        s.characteristic(0x2A00, 2, device_name);
        let appearance: Vec<u8> = vec![0, 0];
        assert(appearance@ =~= seq![0u8, 0]);
        s.characteristic(0x2A01, 2, appearance);
        let gmcs: Vec<u8> = vec![0x49, 0x18];
        assert(gmcs@ =~= le16(0x1849));
        s.attr(0x2800, gmcs, true, false);
        let player: Vec<u8> = vec![0x57, 0x69, 0x6E, 0x64, 0x6F, 0x77, 0x73];
        assert(player@ =~= seq![0x57u8, 0x69, 0x6E, 0x64, 0x6F, 0x77, 0x73]);
        s.characteristic(0x2B93, 0x12, player);
        let track_changed: Vec<u8> = Vec::new();
        assert(track_changed@ =~= seq![]);
        s.characteristic(0x2B96, 0x10, track_changed);
        let title: Vec<u8> = Vec::new();
        assert(title@ =~= seq![]);
        s.characteristic(0x2B97, 0x12, title);
        let duration: Vec<u8> = vec![0xFF, 0xFF, 0xFF, 0xFF];
        assert(duration@ =~= le32(unsigned((-1) as i32)));
        s.characteristic(0x2B98, 0x12, duration);
        let position: Vec<u8> = vec![0, 0, 0, 0];
        assert(position@ =~= le32(0));
        s.characteristic(0x2B99, 0x1E, position);
        let state: Vec<u8> = vec![0];
        assert(state@ =~= seq![0u8]);
        s.characteristic(0x2BA3, 0x12, state);
        let control_point: Vec<u8> = Vec::new();
        assert(control_point@ =~= seq![]);
        s.characteristic(0x2BA4, 0x1C, control_point);
        let supported: Vec<u8> = vec![0, 0, 0, 0];
        assert(supported@ =~= seq![0u8, 0, 0, 0]);
        s.characteristic(0x2BA5, 0x12, supported);
        let content_control: Vec<u8> = vec![1];
        assert(content_control@ =~= seq![1u8]);
        s.characteristic(0x2BBA, 2, content_control);
        proof {
            lemma_first_table();
            assert(s@.table == first_table());
            assert(s@ == first_state());
        }
        s
    }
}

impl Server {
    fn attr(&mut self, uuid: u16, value: Vec<u8>, read: bool, write: bool) -> (handle: u16)
        requires
            old(self)@.table.len() < 0xFFF0,
        ensures
            handle == old(self)@.table.len() + 1,
            final(self)@ == (Media {
                table: with_attribute(old(self)@.table, uuid, value@, read, write),
                ..old(self)@
            }),
    {
        let ghost before = self@;
        let handle = self.attributes.len() as u16 + 1;
        self.attributes.push(Attribute { handle, uuid, value, read, write });
        assert(self@.table =~= with_attribute(before.table, uuid, value@, read, write));
        handle
    }

    fn characteristic(&mut self, uuid: u16, properties: u8, value: Vec<u8>)
        requires
            old(self)@.table.len() < 0xFF00,
        ensures
            final(self)@ == (Media {
                table: with_characteristic(old(self)@.table, uuid, properties, value@),
                ..old(self)@
            }),
            final(self)@.table.len() <= old(self)@.table.len() + 3,
    {
        let value_handle = self.attributes.len() as u16 + 2;
        let mut declaration: Vec<u8> = vec![properties];
        push_u16(&mut declaration, value_handle);
        push_u16(&mut declaration, uuid);
        assert(declaration@ =~= seq![properties] + le16((self@.table.len() + 2) as u16) + le16(
            uuid,
        ));
        self.attr(0x2803, declaration, true, false);
        self.attr(uuid, value, properties & 2 != 0, properties & 0x0C != 0);
        if properties & 0x10 != 0 {
            let cleared: Vec<u8> = vec![0, 0];
            assert(cleared@ =~= seq![0u8, 0u8]);
            self.attr(0x2902, cleared, true, true);
        }
    }

    /// The first place at or after `from` with an attribute of type `uuid`.
    fn place(&self, uuid: u16, from: usize) -> (at: usize)
        requires
            from <= self.attributes@.len(),
        ensures
            at == place_from(self@.table, uuid, from as int),
            from <= at <= self.attributes@.len(),
    {
        let mut at: usize = from;
        while at < self.attributes.len()
            invariant
                from <= at <= self.attributes@.len(),
                forall|i: int|
                    from <= i < at ==> (#[trigger] self@.table[i]).uuid != uuid,
            decreases self.attributes@.len() - at,
        {
            assert(self@.table[at as int].uuid == self.attributes@[at as int].uuid);
            if self.attributes[at].uuid == uuid {
                proof {
                    lemma_place_from_is(self@.table, uuid, from as int, at as int);
                }
                return at;
            }
            at = at + 1;
        }
        proof {
            lemma_place_from_is(self@.table, uuid, from as int, at as int);
        }
        at
    }

    /// The handle of the attribute of type `uuid`.
    pub fn handle(&self, uuid: u16) -> (handle: u16)
        requires
            well_formed(self@),
            has(self@.table, uuid),
        ensures
            handle == place_from(self@.table, uuid, 0) + 1,
    {
        let at = self.place(uuid, 0);
        proof {
            lemma_has_place(self@.table, uuid);
            assert(self@.table[at as int].handle == at + 1);
        }
        self.attributes[at].handle
    }

    fn notify(&mut self, uuid: u16, value: &[u8])
        requires
            well_formed(old(self)@),
            has(old(self)@.table, uuid),
        ensures
            final(self)@ == notified(old(self)@, uuid, value@),
            well_formed(final(self)@),
    {
        let at = self.place(uuid, 0);
        proof {
            lemma_has_place(self@.table, uuid);
        }
        let ghost before = self@;
        let mut subscribed = false;
        if at + 1 < self.attributes.len() {
            let next = &self.attributes[at + 1];
            let yes: [u8; 2] = [1, 0];
            assert(yes@ =~= seq![1u8, 0u8]);
            assert(before.table[at + 1] == entry(*next));
            subscribed = next.uuid == 0x2902 && same_bytes(&next.value, &yes);
        }
        if self.encrypted && subscribed && self.notifications.len() < MAX_WAITING {
            let mut pdu: Vec<u8> = vec![0x1b];
            push_u16(&mut pdu, (at + 1) as u16);
            push_bytes(&mut pdu, value);
            assert(pdu@ =~= seq![0x1bu8] + le16((at + 1) as u16) + value@);
            self.notifications.push_back(pdu);
            assert(self@.notifications =~= before.notifications.push(pdu@));
        }
    }

    fn value(&mut self, uuid: u16, value: &[u8])
        requires
            well_formed(old(self)@),
            has(old(self)@.table, uuid),
        ensures
            final(self)@ == revalued(old(self)@, uuid, value@),
            well_formed(final(self)@),
            same_shape(old(self)@.table, final(self)@.table),
    {
        let at = self.place(uuid, 0);
        let ghost before = self@;
        proof {
            lemma_has_place(self@.table, uuid);
            assert(before.table[at as int] == entry(self.attributes@[at as int]));
        }
        if !same_bytes(&self.attributes[at].value, value) {
            self.set_value(at, copy_bytes(value));
            proof {
                lemma_shape_keeps(before.table, self@.table);
                lemma_place_from(before.table, uuid, 0);
                assert forall|i: int| 0 <= i < at implies (#[trigger] self@.table[i]).uuid
                    != uuid by {
                    assert(before.table[i].uuid != uuid);
                }
                lemma_place_from_is(self@.table, uuid, 0, at as int);
                assert(self@.table[at as int].uuid == uuid);
            }
            self.notify(uuid, value);
        }
    }

    fn set_value(&mut self, at: usize, value: Vec<u8>)
        requires
            at < old(self)@.table.len(),
        ensures
            final(self)@ == (Media {
                table: with_value(old(self)@.table, at as int, value@),
                ..old(self)@
            }),
            same_shape(old(self)@.table, final(self)@.table),
    {
        let ghost before = self@;
        self.attributes[at].value = value;
        assert(self@.table =~= with_value(before.table, at as int, value@));
    }

    /// Takes over what the player reports, and tells the peer what changed.
    pub fn update(&mut self, snapshot: Snapshot)
        requires
            well_formed(old(self)@),
        ensures
            final(self)@ == updated(old(self)@, snapshot@),
            well_formed(final(self)@),
    {
        let changed = !same_text(&self.snapshot.title, &snapshot.title) || !same_text(
            &self.snapshot.player,
            &snapshot.player,
        );
        let enabled = self.enabled;
        self.value(0x2B93, cut(snapshot.player.as_str().as_bytes(), 512));
        self.value(0x2B97, cut(snapshot.title.as_str().as_bytes(), 512));
        let mut duration: Vec<u8> = Vec::new();
        push_u32(&mut duration, to_unsigned(snapshot.duration));
        assert(duration@ =~= le32(unsigned(snapshot.duration)));
        self.value(0x2B98, &duration);
        let mut position: Vec<u8> = Vec::new();
        push_u32(&mut position, to_unsigned(snapshot.position));
        assert(position@ =~= le32(unsigned(snapshot.position)));
        self.value(0x2B99, &position);
        let state: [u8; 1] = [if snapshot.state < 3 { snapshot.state } else { 3 }];
        assert(state@ =~= seq![if snapshot.state < 3 { snapshot.state } else { 3u8 }]);
        self.value(0x2BA3, &state);
        let mut supported: Vec<u8> = Vec::new();
        push_u32(&mut supported, if enabled { snapshot.supported } else { 0 });
        assert(supported@ =~= le32(if enabled { snapshot.supported } else { 0 }));
        self.value(0x2BA5, &supported);
        if changed {
            let nothing: [u8; 0] = [];
            assert(nothing@ =~= seq![]);
            self.notify(0x2B96, &nothing);
        }
        self.snapshot = snapshot;
    }

    /// Switches the service on or off, which changes what it claims to support.
    pub fn enable(&mut self, value: bool)
        requires
            well_formed(old(self)@),
        ensures
            final(self)@ == updated(
                (Media { enabled: value, ..old(self)@ }),
                old(self)@.playing,
            ),
            well_formed(final(self)@),
    {
        self.enabled = value;
        let snapshot = self.snapshot.clone();
        self.update(snapshot);
    }

    /// Notes that the link is encrypted.
    pub fn authorize(&mut self)
        ensures
            final(self)@ == (Media { encrypted: true, ..old(self)@ }),
    {
        self.encrypted = true;
    }

    /// Forgets everything that belonged to a link that is gone.
    pub fn reset_link(&mut self)
        requires
            well_formed(old(self)@),
        ensures
            final(self)@ == link_reset(old(self)@),
            well_formed(final(self)@),
    {
        let ghost before = self@;
        self.encrypted = false;
        self.pending = None;
        self.commands.clear();
        self.notifications.clear();
        assert(self@.notifications =~= Seq::<Seq<u8>>::empty());
        let mut i: usize = 0;
        while i < self.attributes.len()
            invariant
                i <= self.attributes@.len(),
                self@ == (Media { table: self@.table, ..link_reset(before) }),
                same_shape(before.table, self@.table),
                forall|j: int|
                    0 <= j < before.table.len() ==> #[trigger] self@.table[j] == if j < i {
                        unsubscribed(before.table)[j]
                    } else {
                        before.table[j]
                    },
            decreases self.attributes@.len() - i,
        {
            assert(self@.table[i as int] == entry(self.attributes@[i as int]));
            if self.attributes[i].uuid == 0x2902 {
                let cleared: Vec<u8> = vec![0, 0];
                assert(cleared@ =~= seq![0u8, 0u8]);
                self.set_value(i, cleared);
            }
            i = i + 1;
        }
        proof {
            assert(self@.table =~= unsubscribed(before.table));
            lemma_shape_keeps(before.table, self@.table);
        }
    }

    /// Takes Windows' answer to a command.
    pub fn finish(&mut self, id: u64, success: bool)
        requires
            well_formed(old(self)@),
        ensures
            final(self)@ == finished(old(self)@, id, success),
            well_formed(final(self)@),
    {
        if let Some((pending, opcode, _)) = &self.pending {
            let waiting = *pending;
            let asked = *opcode;
            if waiting == id {
                self.pending = None;
                if asked != 0 {
                    let answer: [u8; 2] = [asked, if success { 1 } else { 4 }];
                    assert(answer@ =~= seq![asked, if success { 1u8 } else { 4u8 }]);
                    self.notify(0x2BA4, &answer);
                }
            }
        }
    }

    /// The number of the command that waits for Windows.
    pub fn pending_id(&self) -> (id: Option<u64>)
        ensures
            id == match self@.pending {
                Some((id, _)) => Some(id),
                None => None,
            },
    {
        match &self.pending {
            Some((id, _, _)) => Some(*id),
            None => None,
        }
    }

    /// Passes a command on to the player, or tells the peer why not.
    pub fn queue(&mut self, opcode: u8, position: Option<i32>)
        requires
            well_formed(old(self)@),
        ensures
            final(self)@ == queued(old(self)@, opcode, position),
            well_formed(final(self)@),
    {
        let bit: u32 = match opcode {
            1 => 1,
            2 => 2,
            5 => 16,
            0x30 => 0x800,
            0x31 => 0x1000,
            _ => 0,
        };
        let error: Option<u8> = if !self.enabled {
            Some(4)
        } else if opcode != 0 && (bit == 0 || self.snapshot.supported & bit == 0) {
            Some(2)
        } else if self.snapshot.state == 0 {
            Some(3)
        } else if self.pending.is_some() {
            Some(4)
        } else {
            None
        };
        if let Some(code) = error {
            if opcode != 0 {
                let answer: [u8; 2] = [opcode, code];
                assert(answer@ =~= seq![opcode, code]);
                self.notify(0x2BA4, &answer);
            }
            return;
        }
        let ghost before = self@;
        self.serial = if self.serial == u64::MAX {
            0
        } else {
            self.serial + 1
        };
        self.commands.push_back(MediaCommand { id: self.serial, opcode, position });
        self.pending = Some((self.serial, opcode, moment()));
        assert(self@ == queued(before, opcode, position));
    }

    /// Takes the commands that wait for the player.
    pub fn take_commands(&mut self) -> (commands: Vec<MediaCommand>)
        ensures
            commands@ == old(self)@.commands,
            final(self)@ == (Media { commands: Seq::empty(), ..old(self)@ }),
    {
        let ghost before = self@;
        let mut commands: Vec<MediaCommand> = Vec::new();
        let mut i: usize = 0;
        while i < self.commands.len()
            invariant
                i <= self.commands@.len(),
                self@ == before,
                commands@ =~= self.commands@.take(i as int),
            decreases self.commands@.len() - i,
        {
            commands.push(self.commands[i]);
            i = i + 1;
        }
        assert(commands@ =~= before.commands);
        self.commands.clear();
        assert(self@.commands =~= Seq::<MediaCommand>::empty());
        commands
    }

    /// How long ago the pending command was asked for; no time without one.
    fn waited(&self) -> (elapsed: u128)
        ensures
            self@.pending is None ==> elapsed == 0,
    {
        match &self.pending {
            Some((_, _, at)) => nanoseconds_since(at),
            None => 0,
        }
    }

    /// Whether Windows has had its three seconds to confirm the pending command.
    /// With one pending the clock decides, by `is_overdue`; without one nothing
    /// is late.
    pub fn is_late(&self) -> (late: bool)
        ensures
            self@.pending is None ==> !late,
    {
        is_overdue(self.waited())
    }

    /// Serves one PDU from the peer, if there is one: whether it was a request,
    /// and everything to send, the answer first and the notifications after it.
    pub fn serve(&mut self, pdu: Option<&[u8]>, late: bool, mtu: usize) -> (served: (
        bool,
        Vec<Vec<u8>>,
    ))
        requires
            well_formed(old(self)@),
        ensures
            served.0 == serving(old(self)@, opt_view(pdu), late, mtu).0,
            views(served.1@) == serving(old(self)@, opt_view(pdu), late, mtu).1,
            final(self)@ == serving(old(self)@, opt_view(pdu), late, mtu).2,
            well_formed(final(self)@),
    {
        let response = match pdu {
            Some(p) => self.request(p, mtu),
            None => None,
        };
        let handled = response.is_some();
        let mut pdus: Vec<Vec<u8>> = Vec::new();
        if let Some(out) = response {
            if out.len() > 0 {
                pdus.push(out);
            }
        }
        let ghost first = views(pdus@);
        let mut waiting = self.take_notifications(late, mtu);
        let ghost rest = views(waiting@);
        pdus.append(&mut waiting);
        assert(views(pdus@) =~= first + rest);
        proof {
            let (_, all, _) = serving(old(self)@, opt_view(pdu), late, mtu);
            assert(views(pdus@) =~= all);
        }
        (handled, pdus)
    }

    /// Takes the notifications that wait for the link. A command that Windows
    /// has not confirmed in three seconds is answered as failed first.
    pub fn notifications(&mut self, mtu: usize) -> (pdus: Vec<Vec<u8>>)
        requires
            well_formed(old(self)@),
        ensures
            exists|elapsed: u128|
                views(pdus@) == outgoing(
                    settled(old(self)@, #[trigger] overdue(elapsed)).notifications,
                    mtu,
                ) && final(self)@ == (Media {
                    notifications: Seq::empty(),
                    ..settled(old(self)@, overdue(elapsed))
                }),
            well_formed(final(self)@),
    {
        let elapsed = self.waited();
        let pdus = self.notifications_after(elapsed, mtu);
        pdus
    }

    /// Takes the notifications that wait for the link, `elapsed` nanoseconds
    /// after the pending command was asked for: after more than three seconds it
    /// is given up first.
    pub fn notifications_after(&mut self, elapsed: u128, mtu: usize) -> (pdus: Vec<Vec<u8>>)
        requires
            well_formed(old(self)@),
        ensures
            views(pdus@) == outgoing(settled(old(self)@, overdue(elapsed)).notifications, mtu),
            final(self)@ == (Media {
                notifications: Seq::empty(),
                ..settled(old(self)@, overdue(elapsed))
            }),
            well_formed(final(self)@),
    {
        let late = is_overdue(elapsed);
        self.take_notifications(late, mtu)
    }

    /// Takes the notifications that wait for the link, after giving up on the
    /// pending command when it is `late`.
    pub fn take_notifications(&mut self, late: bool, mtu: usize) -> (pdus: Vec<Vec<u8>>)
        requires
            well_formed(old(self)@),
        ensures
            views(pdus@) == outgoing(settled(old(self)@, late).notifications, mtu),
            final(self)@ == (Media {
                notifications: Seq::empty(),
                ..settled(old(self)@, late)
            }),
            well_formed(final(self)@),
    {
        if late {
            if let Some(id) = self.pending_id() {
                self.finish(id, false);
            }
        }
        let ghost ready = self@;
        let limit = clamp_mtu(mtu);
        let mut pdus: Vec<Vec<u8>> = Vec::new();
        let mut i: usize = 0;
        while i < self.notifications.len()
            invariant
                i <= self.notifications@.len(),
                limit == usable_mtu(mtu),
                self@ == ready,
                views(pdus@) =~= outgoing(ready.notifications, mtu).take(i as int),
            decreases self.notifications@.len() - i,
        {
            let waiting: &Vec<u8> = &self.notifications[i];
            assert(ready.notifications[i as int] == waiting@);
            let pdu = copy_bytes(cut(waiting, limit));
            let ghost before = views(pdus@);
            pdus.push(pdu);
            assert(views(pdus@) =~= before.push(pdu@));
            i = i + 1;
        }
        assert(views(pdus@) =~= outgoing(ready.notifications, mtu));
        self.notifications.clear();
        assert(self@.notifications =~= Seq::<Seq<u8>>::empty());
        pdus
    }

    /// Answers one PDU from the peer. Nothing is returned for what is not a
    /// request; a write without response returns an empty answer.
    pub fn request(&mut self, p: &[u8], mtu: usize) -> (response: Option<Vec<u8>>)
        requires
            well_formed(old(self)@),
        ensures
            match answer(old(self)@, p@, usable_mtu(mtu) as int) {
                Some(bytes) => response matches Some(out) && out@ == bytes,
                None => response is None,
            },
            final(self)@ == after_request(old(self)@, p@),
            well_formed(final(self)@),
    {
        if p.len() == 0 {
            return None;
        }
        let op = p[0];
        if !(op == 0x02 || op == 0x04 || op == 0x06 || op == 0x08 || op == 0x0a || op == 0x0c || op
            == 0x10 || op == 0x12 || op == 0x52 || op == 0x16 || op == 0x18 || op == 0x0e || op
            == 0x20) {
            return None;
        }
        let mtu = clamp_mtu(mtu);
        if op == 0x02 {
            if p.len() == 3 {
                let out: Vec<u8> = vec![3, 5, 2];
                assert(out@ =~= seq![3u8, 5u8, 2u8]);
                return Some(out);
            }
            return Some(refuse(p, 4));
        }
        if op == 0x04 || op == 0x06 || op == 0x08 || op == 0x10 {
            return Some(self.search(p, mtu));
        }
        Some(self.one_attribute(p, mtu))
    }

    /// Answers a request about one attribute.
    fn one_attribute(&mut self, p: &[u8], mtu: usize) -> (out: Vec<u8>)
        requires
            well_formed(old(self)@),
            p@.len() > 0,
            is_request(p@[0]),
            p@[0] != 0x02,
            !is_search(p@[0]),
            23 <= mtu <= 517,
        ensures
            out@ == attribute_answer(old(self)@, p@, mtu as int),
            final(self)@ == after_request(old(self)@, p@),
            well_formed(final(self)@),
    {
        let op = p[0];
        let silent = op == 0x52;
        let h: u16 = if p.len() >= 3 {
            read_u16(p, 1)
        } else {
            0
        };
        if h == 0 || h as usize > self.attributes.len() {
            return if silent {
                Vec::new()
            } else {
                refuse(p, 1)
            };
        }
        let index: usize = h as usize - 1;
        if h > LAST_OPEN_HANDLE && !self.encrypted {
            return if silent {
                Vec::new()
            } else {
                refuse(p, 0x0f)
            };
        }
        let ghost before = self@;
        assert(before.table[index as int] == entry(self.attributes@[index as int]));
        if op == 0x0a || op == 0x0c {
            return self.read(index, p, mtu);
        }
        if op == 0x12 || op == 0x52 {
            let error = self.check_write(index, p);
            let uuid = self.attributes[index].uuid;
            if error.is_none() {
                if uuid == 0x2902 {
                    let chosen = copy_bytes(tail(p, 3));
                    self.set_value(index, chosen);
                    proof {
                        lemma_shape_keeps(before.table, self@.table);
                    }
                } else if uuid == 0x2BA4 {
                    self.queue(p[3], None);
                } else {
                    self.queue(0, Some(to_signed(read_u32(p, 3))));
                }
            }
            if silent {
                return Vec::new();
            }
            return match error {
                Some(code) => refuse(p, code),
                None => {
                    let out: Vec<u8> = vec![0x13];
                    assert(out@ =~= seq![0x13u8]);
                    out
                },
            };
        }
        refuse(p, 6)
    }

    fn check_write(&self, index: usize, p: &[u8]) -> (error: Option<u8>)
        requires
            index < self@.table.len(),
        ensures
            error == write_error(self@.table[index as int], p@),
    {
        assert(self@.table[index as int] == entry(self.attributes@[index as int]));
        let uuid = self.attributes[index].uuid;
        if !self.attributes[index].write {
            Some(3)
        } else if uuid == 0x2902 {
            if p.len() != 5 || p[4] != 0 || p[3] > 1 {
                Some(0x13)
            } else {
                None
            }
        } else if uuid == 0x2BA4 {
            if p.len() != 4 {
                Some(0x0d)
            } else {
                None
            }
        } else if uuid == 0x2B99 {
            if p.len() != 7 {
                Some(0x0d)
            } else {
                None
            }
        } else {
            Some(3)
        }
    }

    fn read(&self, index: usize, p: &[u8], mtu: usize) -> (out: Vec<u8>)
        requires
            index < self@.table.len(),
            p@.len() > 0,
            p@[0] == 0x0a || p@[0] == 0x0c,
            23 <= mtu <= 517,
        ensures
            out@ == read_answer(self@.table[index as int], p@, mtu as int),
    {
        assert(self@.table[index as int] == entry(self.attributes@[index as int]));
        let blob = p[0] == 0x0c;
        if !self.attributes[index].read {
            return refuse(p, 2);
        }
        let offset: usize;
        if blob {
            if p.len() != 5 {
                return refuse(p, 4);
            }
            offset = read_u16(p, 3) as usize;
        } else {
            if p.len() != 3 {
                return refuse(p, 4);
            }
            offset = 0;
        }
        let value: &[u8] = &self.attributes[index].value;
        if offset > value.len() {
            return refuse(p, 7);
        }
        let mut out: Vec<u8> = vec![if blob { 0x0d } else { 0x0b }];
        push_bytes(&mut out, cut(tail(value, offset), mtu - 1));
        assert(out@ =~= read_answer(self@.table[index as int], p@, mtu as int));
        out
    }

    fn row(&self, p: &[u8], mtu: usize, i: usize) -> (row: Result<Option<Vec<u8>>, u8>)
        requires
            well_formed(self@),
            i < self@.table.len(),
            p@.len() >= 5,
            23 <= mtu <= 517,
        ensures
            match row_of(self@, p@, mtu as int, i as int) {
                Row::Nothing => row matches Ok(None),
                Row::Refused(code) => row == Err::<Option<Vec<u8>>, u8>(code),
                Row::Cells(cells) => row matches Ok(Some(out)) && out@ == cells,
            },
    {
        let a = &self.attributes[i];
        assert(self@.table[i as int] == entry(*a));
        let asked = named_type(p);
        let typed = p.len() == 7 || p.len() == 21;
        let mut row: Vec<u8> = Vec::new();
        push_u16(&mut row, a.handle);
        if p[0] == 0x04 {
            push_u16(&mut row, a.uuid);
            assert(row@ =~= le16(a.handle) + le16(a.uuid));
            return Ok(Some(row));
        }
        if p[0] == 0x10 && typed && is_type(asked, 0x2800) && a.uuid == 0x2800 {
            let end = self.place(0x2800, i + 1) as u16;
            push_u16(&mut row, end);
            push_bytes(&mut row, &a.value);
            assert(row@ =~= le16(a.handle) + le16(end) + a.value@);
            return Ok(Some(row));
        }
        if p[0] == 0x06 && p.len() == 9 && is_type(asked, 0x2800) && a.uuid == 0x2800 && same_bytes(
            &a.value,
            tail(p, 7),
        ) {
            let end = self.place(0x2800, i + 1) as u16;
            push_u16(&mut row, end);
            assert(row@ =~= le16(a.handle) + le16(end));
            return Ok(Some(row));
        }
        if p[0] == 0x08 && typed && is_type(asked, a.uuid) {
            if !a.read {
                return Err(2);
            }
            if a.handle > LAST_OPEN_HANDLE && a.uuid != 0x2803 && !self.encrypted {
                return Err(0x0f);
            }
            let limit: usize = if mtu - 4 < 253 { mtu - 4 } else { 253 };
            push_bytes(&mut row, cut(&a.value, limit));
            assert(row@ =~= le16(a.handle) + prefix(a.value@, limit as int));
            return Ok(Some(row));
        }
        Ok(None)
    }

    fn search(&self, p: &[u8], mtu: usize) -> (out: Vec<u8>)
        requires
            well_formed(self@),
            p@.len() > 0,
            is_search(p@[0]),
            23 <= mtu <= 517,
        ensures
            out@ == search_answer(self@, p@, mtu as int),
    {
        if p.len() < 5 {
            return refuse(p, 4);
        }
        let h = read_u16(p, 1);
        let end = read_u16(p, 3);
        if h == 0 || h > end {
            return refuse(p, 1);
        }
        let mut body: Vec<u8> = Vec::new();
        let mut width: usize = 0;
        let ghost mut rows: Seq<Seq<u8>> = Seq::empty();
        let mut i: usize = 0;
        let ghost whole = gathered(self@, p@, mtu as int, 0, Seq::empty());
        assert(body@ =~= joined(rows));
        while i < self.attributes.len()
            invariant_except_break
                i <= self.attributes@.len(),
                whole == gathered(self@, p@, mtu as int, i as int, rows),
            invariant
                well_formed(self@),
                p@.len() >= 5,
                h == u16_at(p@, 1),
                end == u16_at(p@, 3),
                23 <= mtu <= 517,
                body@ == joined(rows),
                body@.len() <= mtu,
                rows.len() > 0 ==> width == rows[0].len(),
                rows.len() == 0 <==> width == 0,
                h != 0 && h <= end,
                whole == gathered(self@, p@, mtu as int, 0, Seq::empty()),
                p@[0] == 0x08 && rows.len() > 0 ==> rows[0].len() <= 255,
            ensures
                whole == Gathered::Rows(rows),
            decreases self.attributes@.len() - i,
        {
            assert(self@.table[i as int] == entry(self.attributes@[i as int]));
            let handle = self.attributes[i].handle;
            if handle < h || handle > end {
                i = i + 1;
                continue;
            }
            match self.row(p, mtu, i) {
                Err(code) => {
                    return refuse(p, code);
                },
                Ok(None) => {},
                Ok(Some(row)) => {
                    if (width > 0 && width != row.len()) || row.len() > mtu || 2 + body.len() + row.len()
                        > mtu {
                        break;
                    }
                    if width == 0 {
                        width = row.len();
                    }
                    push_bytes(&mut body, &row);
                    proof {
                        let longer = rows.push(row@);
                        assert(longer.drop_last() =~= rows);
                        assert(body@ =~= joined(longer));
                        rows = longer;
                    }
                },
            }
            i = i + 1;
        }
        if width == 0 {
            return refuse(p, 0x0a);
        }
        let mut out: Vec<u8> = Vec::new();
        if p[0] == 0x04 {
            out.push(5);
            out.push(1);
        } else if p[0] == 0x06 {
            out.push(7);
        } else if p[0] == 0x08 {
            out.push(9);
            out.push(width as u8);
        } else {
            out.push(0x11);
            out.push(6);
        }
        assert(out@ =~= search_head(p@[0], rows));
        push_bytes(&mut out, &body);
        out
    }
}

fn refuse(p: &[u8], code: u8) -> (out: Vec<u8>)
    requires
        p@.len() > 0,
    ensures
        out@ == refused(p@, code),
{
    let h: u16 = if p.len() >= 3 {
        read_u16(p, 1)
    } else {
        0
    };
    let mut out: Vec<u8> = vec![1, p[0]];
    push_u16(&mut out, h);
    out.push(code);
    assert(out@ =~= refused(p@, code));
    out
}

fn is_type(asked: Option<u16>, uuid: u16) -> (yes: bool)
    ensures
        yes == (asked == Some(uuid)),
{
    match asked {
        Some(value) => value == uuid,
        None => false,
    }
}

fn named_type(p: &[u8]) -> (asked: Option<u16>)
    requires
        p@.len() >= 5,
    ensures
        asked == asked_type(p@),
{
    if p.len() == 21 {
        let base: [u8; 12] = [
            0xFB,
            0x34,
            0x9B,
            0x5F,
            0x80,
            0x00,
            0x00,
            0x80,
            0x00,
            0x10,
            0x00,
            0x00,
        ];
        assert(base@ =~= crate::att::base_suffix());
        if (p[0] == 0x08 || p[0] == 0x10) && same_bytes(range(p, 5, 17), &base) && p[19] == 0
            && p[20] == 0 {
            Some(read_u16(p, 17))
        } else {
            None
        }
    } else if p.len() >= 7 {
        Some(read_u16(p, 5))
    } else {
        None
    }
}

// ---- Laws ----

/// A link that went away never reaches the player: no command is left to be
/// taken, and a late answer from Windows changes nothing and tells nobody.
pub proof fn disconnect_cancels_everything(s: Media, id: u64, success: bool)
    ensures
        link_reset(s).commands == Seq::<MediaCommand>::empty(),
        link_reset(s).notifications == Seq::<Seq<u8>>::empty(),
        link_reset(s).pending is None,
        !link_reset(s).encrypted,
        finished(link_reset(s), id, success) == link_reset(s),
{
}

/// After a reset nobody is subscribed to anything.
pub proof fn reset_ends_every_subscription(s: Media, at: int)
    requires
        0 <= at,
    ensures
        !is_subscribed(link_reset(s).table, at),
{
    let table = link_reset(s).table;
    if at + 1 < table.len() && table[at + 1].uuid == 0x2902 {
        assert(table[at + 1].value[0] == 0);
        assert(seq![1u8, 0u8][0] == 1);
    }
}

/// Asking for something never reports success by itself: whatever is notified
/// when a command is queued ends in a code other than success.
pub proof fn queueing_never_reports_success(s: Media, opcode: u8, position: Option<i32>)
    ensures
        ({
            let after = queued(s, opcode, position).notifications;
            after == s.notifications || {
                &&& after.len() == s.notifications.len() + 1
                &&& after.drop_last() == s.notifications
                &&& after.last().last() != 1
            }
        }),
{
    let after = queued(s, opcode, position).notifications;
    if after != s.notifications {
        assert(after.drop_last() =~= s.notifications);
    }
}

/// While a command waits for Windows no other one is passed on.
pub proof fn one_command_at_a_time(s: Media, opcode: u8, position: Option<i32>)
    requires
        s.pending is Some,
    ensures
        queued(s, opcode, position).commands == s.commands,
        queued(s, opcode, position).pending == s.pending,
{
}

/// Before the link is encrypted, no request changes anything behind the open
/// attributes, and reads of them are refused.
pub proof fn nothing_is_served_unencrypted(s: Media, p: Seq<u8>, mtu: int)
    requires
        !s.encrypted,
        p.len() >= 3,
        u16_at(p, 1) > LAST_OPEN_HANDLE,
        u16_at(p, 1) <= s.table.len(),
    ensures
        after_request(s, p) == s,
        p[0] == 0x0a || p[0] == 0x0c || p[0] == 0x12 ==> answer(s, p, mtu) == Some(
            refused(p, 0x0f),
        ),
{
}

/// A command that Windows leaves unconfirmed for more than three seconds is given
/// up, and until then it stays as it is.
pub proof fn an_unconfirmed_command_is_given_up(s: Media, id: u64, opcode: u8, elapsed: u128)
    requires
        s.pending == Some((id, opcode)),
    ensures
        elapsed > CONFIRMATION_NANOSECONDS ==> settled(s, overdue(elapsed)) == finished(
            s,
            id,
            false,
        ) && settled(s, overdue(elapsed)).pending is None,
        elapsed <= CONFIRMATION_NANOSECONDS ==> settled(s, overdue(elapsed)) == s,
{
}

/// The value of the attribute of type `uuid`.
pub open spec fn value_of(table: Seq<Entry>, uuid: u16) -> Seq<u8> {
    table[place_from(table, uuid, 0)].value
}

proof fn lemma_revalued(s: Media, uuid: u16, value: Seq<u8>)
    requires
        has(s.table, uuid),
    ensures
        same_shape(s.table, revalued(s, uuid, value).table),
        value_of(revalued(s, uuid, value).table, uuid) == value,
        forall|other: u16|
            other != uuid && has(s.table, other) ==> #[trigger] value_of(
                revalued(s, uuid, value).table,
                other,
            ) == value_of(s.table, other),
        revalued(s, uuid, value).enabled == s.enabled,
        revalued(s, uuid, value).playing == s.playing,
{
    let after = revalued(s, uuid, value).table;
    let at = place_from(s.table, uuid, 0);
    lemma_has_place(s.table, uuid);
    lemma_place_from(s.table, uuid, 0);
    assert forall|other: u16| has(s.table, other) implies #[trigger] place_from(after, other, 0)
        == place_from(s.table, other, 0) by {
        lemma_has_place(s.table, other);
        lemma_place_from(s.table, other, 0);
        assert forall|i: int| 0 <= i < place_from(s.table, other, 0) implies (
        #[trigger] after[i]).uuid != other by {
            assert(s.table[i].uuid != other);
        }
        lemma_place_from_is(after, other, 0, place_from(s.table, other, 0));
    }
    assert forall|other: u16| other != uuid && has(s.table, other) implies #[trigger] value_of(
        after,
        other,
    ) == value_of(s.table, other) by {
        lemma_has_place(s.table, other);
        lemma_place_from(s.table, other, 0);
        assert(place_from(after, other, 0) == place_from(s.table, other, 0));
    }
    assert(place_from(after, uuid, 0) == at);
}

/// A report that says nothing new changes nothing and tells the peer nothing:
/// taking the same snapshot over a second time leaves the server as it was.
pub proof fn a_repeated_report_changes_nothing(s: Media, playing: Playing)
    requires
        well_formed(s),
    ensures
        updated(updated(s, playing), playing) == updated(s, playing),
{
    let player = text_value(playing.player);
    let title = text_value(playing.title);
    let duration = le32(unsigned(playing.duration));
    let position = le32(unsigned(playing.position));
    let state = seq![if playing.state < 3 { playing.state } else { 3u8 }];
    let supported = le32(if s.enabled { playing.supported } else { 0 });
    let s1 = revalued(s, 0x2B93, player);
    lemma_revalued(s, 0x2B93, player);
    lemma_shape_keeps(s.table, s1.table);
    let s2 = revalued(s1, 0x2B97, title);
    lemma_revalued(s1, 0x2B97, title);
    lemma_shape_keeps(s1.table, s2.table);
    let s3 = revalued(s2, 0x2B98, duration);
    lemma_revalued(s2, 0x2B98, duration);
    lemma_shape_keeps(s2.table, s3.table);
    let s4 = revalued(s3, 0x2B99, position);
    lemma_revalued(s3, 0x2B99, position);
    lemma_shape_keeps(s3.table, s4.table);
    let s5 = revalued(s4, 0x2BA3, state);
    lemma_revalued(s4, 0x2BA3, state);
    lemma_shape_keeps(s4.table, s5.table);
    let s6 = revalued(s5, 0x2BA5, supported);
    lemma_revalued(s5, 0x2BA5, supported);
    let table = s6.table;
    assert(value_of(table, 0x2B93) == player);
    assert(value_of(table, 0x2B97) == title);
    assert(value_of(table, 0x2B98) == duration);
    assert(value_of(table, 0x2B99) == position);
    assert(value_of(table, 0x2BA3) == state);
    assert(value_of(table, 0x2BA5) == supported);
    let once = updated(s, playing);
    assert(once.table == table);
    assert(revalued(once, 0x2B93, player) == once);
    assert(revalued(once, 0x2B97, title) == once);
    assert(revalued(once, 0x2B98, duration) == once);
    assert(revalued(once, 0x2B99, position) == once);
    assert(revalued(once, 0x2BA3, state) == once);
    assert(revalued(once, 0x2BA5, supported) == once);
}

/// A response that crosses the server is never taken for a request.
pub proof fn responses_are_not_requests(s: Media, p: Seq<u8>, mtu: int)
    requires
        p.len() > 0,
        !is_request(p[0]),
    ensures
        answer(s, p, mtu) is None,
        after_request(s, p) == s,
{
}


/// A characteristic is declared right before its value: the declaration gives the
/// properties, the handle of the value and its UUID; the value can be read where the
/// second bit of the properties says so and written where the third or the fourth
/// does; and one that notifies is followed by a descriptor that is off.
pub proof fn a_characteristic_is_declared_before_its_value(
    table: Seq<Entry>,
    uuid: u16,
    properties: u8,
    value: Seq<u8>,
)
    requires
        table.len() < 0xFFF0,
    ensures
        ({
            let grown = with_characteristic(table, uuid, properties, value);
            let n = table.len() as int;
            let handle = (n + 2) as u16;
            &&& grown.take(n) == table
            &&& grown[n].uuid == 0x2803 && grown[n].handle == n + 1 && grown[n].read
                && !grown[n].write
            &&& grown[n].value == seq![
                properties,
                (handle % 256) as u8,
                (handle / 256) as u8,
                (uuid % 256) as u8,
                (uuid / 256) as u8,
            ]
            &&& grown[n + 1].uuid == uuid && grown[n + 1].handle == handle && grown[n + 1].value
                == value
            &&& grown[n + 1].read <==> properties / 2 % 2 == 1
            &&& grown[n + 1].write <==> properties / 4 % 2 == 1 || properties / 8 % 2 == 1
            &&& properties / 16 % 2 == 0 ==> grown.len() == n + 2
            &&& properties / 16 % 2 == 1 ==> grown.len() == n + 3 && grown[n + 2].uuid == 0x2902
                && grown[n + 2].handle == n + 3 && grown[n + 2].value == seq![0u8, 0]
                && grown[n + 2].read && grown[n + 2].write
        }),
{
    let grown = with_characteristic(table, uuid, properties, value);
    let n = table.len() as int;
    let handle = (n + 2) as u16;
    assert((properties & 2 != 0) == (properties / 2 % 2 == 1) && (properties & 0x0C != 0) == (
    properties / 4 % 2 == 1 || properties / 8 % 2 == 1) && (properties & 0x10 != 0) == (properties
        / 16 % 2 == 1)) by (bit_vector);
    assert(grown.take(n) =~= table);
    assert(grown[n].value =~= seq![
        properties,
        (handle % 256) as u8,
        (handle / 256) as u8,
        (uuid % 256) as u8,
        (uuid / 256) as u8,
    ]);
    if properties / 16 % 2 == 1 {
        assert(grown[n + 2].value =~= seq![0u8, 0]);
    }
}

/// A negative number is its two's complement, both ways.
pub proof fn numbers_are_twos_complement(value: i32, bits: u32)
    ensures
        unsigned(value) - value == 0 || unsigned(value) - value == 0x1_0000_0000,
        signed(unsigned(value)) == value,
        unsigned(signed(bits)) == bits,
{
}

/// What is playing is what can be read: the player, the title, the duration and the
/// position, the state, and what the player can do, which is nothing while control
/// is switched off. A state that is not known counts as the last of the four.
#[verifier::rlimit(60)]
pub proof fn what_is_playing_can_be_read(s: Media, playing: Playing)
    requires
        well_formed(s),
    ensures
        ({
            let after = updated(s, playing);
            let four = |n: u32|
                seq![
                    (n % 256) as u8,
                    (n / 256 % 256) as u8,
                    (n / 65536 % 256) as u8,
                    (n / 16777216) as u8,
                ];
            &&& value_of(after.table, 0x2B93) == prefix(encode_utf8(playing.player), 512)
            &&& value_of(after.table, 0x2B97) == prefix(encode_utf8(playing.title), 512)
            &&& value_of(after.table, 0x2B98) == four(unsigned(playing.duration))
            &&& value_of(after.table, 0x2B99) == four(unsigned(playing.position))
            &&& value_of(after.table, 0x2BA3) == seq![
                if playing.state > 3 {
                    3u8
                } else {
                    playing.state
                },
            ]
            &&& value_of(after.table, 0x2BA5) == four(
                if s.enabled {
                    playing.supported
                } else {
                    0
                },
            )
            &&& after.playing == playing
        }),
{
    let s1 = revalued(s, 0x2B93, text_value(playing.player));
    let s2 = revalued(s1, 0x2B97, text_value(playing.title));
    let s3 = revalued(s2, 0x2B98, le32(unsigned(playing.duration)));
    let s4 = revalued(s3, 0x2B99, le32(unsigned(playing.position)));
    let state = seq![if playing.state < 3 { playing.state } else { 3u8 }];
    let s5 = revalued(s4, 0x2BA3, state);
    let able = le32(if s.enabled { playing.supported } else { 0 });
    let s6 = revalued(s5, 0x2BA5, able);
    lemma_revalued(s, 0x2B93, text_value(playing.player));
    lemma_shape_keeps(s.table, s1.table);
    lemma_revalued(s1, 0x2B97, text_value(playing.title));
    lemma_shape_keeps(s1.table, s2.table);
    lemma_revalued(s2, 0x2B98, le32(unsigned(playing.duration)));
    lemma_shape_keeps(s2.table, s3.table);
    lemma_revalued(s3, 0x2B99, le32(unsigned(playing.position)));
    lemma_shape_keeps(s3.table, s4.table);
    lemma_revalued(s4, 0x2BA3, state);
    lemma_shape_keeps(s4.table, s5.table);
    lemma_revalued(s5, 0x2BA5, able);
    lemma_shape_keeps(s5.table, s6.table);
    assert(updated(s, playing).table == s6.table);
    let four = |n: u32|
        seq![
            (n % 256) as u8,
            (n / 256 % 256) as u8,
            (n / 65536 % 256) as u8,
            (n / 16777216) as u8,
        ];
    assert(le32(unsigned(playing.duration)) =~= four(unsigned(playing.duration)));
    assert(le32(unsigned(playing.position)) =~= four(unsigned(playing.position)));
    assert(able =~= four(
        if s.enabled {
            playing.supported
        } else {
            0
        },
    ));
    assert(state =~= seq![
        if playing.state > 3 {
            3u8
        } else {
            playing.state
        },
    ]);
}

/// A peer that subscribed over an encrypted link is told of a change, once, with the
/// handle of the value and the value, and nobody else is told. At most sixty-four
/// changes wait.
pub proof fn only_a_subscriber_is_told(s: Media, uuid: u16, value: Seq<u8>)
    requires
        well_formed(s),
        has(s.table, uuid),
    ensures
        ({
            let at = place_from(s.table, uuid, 0);
            let handle = (at + 1) as u16;
            let after = notified(s, uuid, value);
            let told = s.encrypted && at + 1 < s.table.len() && s.table[at + 1].uuid == 0x2902
                && s.table[at + 1].value == seq![1u8, 0] && s.notifications.len() < 64;
            &&& 0 <= at < s.table.len() && s.table[at].uuid == uuid && s.table[at].handle == handle
            &&& told ==> after.notifications == s.notifications.push(
                seq![0x1Bu8, (handle % 256) as u8, (handle / 256) as u8] + value,
            )
            &&& !told ==> after == s
            &&& after.table == s.table && after.commands == s.commands && after.pending
                == s.pending
        }),
        value_of(s.table, uuid) == value ==> revalued(s, uuid, value) == s,
        value_of(s.table, uuid) != value ==> value_of(revalued(s, uuid, value).table, uuid) == value,
{
    lemma_place_from(s.table, uuid, 0);
    lemma_has_place(s.table, uuid);
    lemma_revalued(s, uuid, value);
    let at = place_from(s.table, uuid, 0);
    let handle = (at + 1) as u16;
    assert(seq![0x1bu8] + le16((at + 1) as u16) + value =~= seq![
        0x1Bu8,
        (handle % 256) as u8,
        (handle / 256) as u8,
    ] + value);
}

/// What a player is asked for, by the numbers of the media control service: play,
/// pause, stop, previous and next track. Nothing else is ever supported.
pub proof fn the_five_commands(opcode: u8, supported: u32)
    ensures
        ({
            let able = support_bit(opcode) != 0 && supported & support_bit(opcode) != 0;
            &&& opcode == 1 ==> able == (supported % 2 == 1)
            &&& opcode == 2 ==> able == (supported / 2 % 2 == 1)
            &&& opcode == 5 ==> able == (supported / 16 % 2 == 1)
            &&& opcode == 0x30 ==> able == (supported / 2048 % 2 == 1)
            &&& opcode == 0x31 ==> able == (supported / 4096 % 2 == 1)
            &&& opcode != 1 && opcode != 2 && opcode != 5 && opcode != 0x30 && opcode != 0x31
                ==> !able
        }),
{
    assert((supported & 1 != 0) == (supported % 2 == 1) && (supported & 2 != 0) == (supported / 2
        % 2 == 1) && (supported & 16 != 0) == (supported / 16 % 2 == 1) && (supported & 0x800 != 0)
        == (supported / 2048 % 2 == 1) && (supported & 0x1000 != 0) == (supported / 4096 % 2 == 1))
        by (bit_vector);
}

/// A command is handed on exactly when control is on, the player can do it, something
/// is there to play and no other command is under way; it then has a number of its
/// own. Otherwise it is refused with the reason: 2 for what the player cannot do, 3
/// where there is nothing to play, 4 for the rest.
pub proof fn a_command_is_handed_on_or_refused(s: Media, opcode: u8, position: Option<i32>)
    requires
        well_formed(s),
        opcode != 0,
    ensures
        ({
            let after = queued(s, opcode, position);
            let able = support_bit(opcode) != 0 && s.playing.supported & support_bit(opcode) != 0;
            let code: u8 = if !s.enabled {
                4
            } else if !able {
                2
            } else if s.playing.state == 0 {
                3
            } else {
                4
            };
            if s.enabled && able && s.playing.state != 0 && s.pending is None {
                &&& after.commands.len() == s.commands.len() + 1
                &&& after.commands.drop_last() == s.commands
                &&& after.commands.last().opcode == opcode
                &&& after.commands.last().position == position
                &&& after.pending == Some((after.commands.last().id, opcode))
                &&& after.commands.last().id == after.serial && after.serial != s.serial
                &&& after.notifications == s.notifications
                &&& s.serial < u64::MAX ==> after.serial == s.serial + 1
            } else {
                after == notified(s, 0x2BA4, seq![opcode, code])
            }
        }),
{
    let after = queued(s, opcode, position);
    if refusal(s, opcode) is None {
        assert(after.commands.drop_last() =~= s.commands);
    }
}

/// A position is asked for as command zero: it needs something to play and no command
/// under way, and is never answered at the control point.
pub proof fn a_position_is_handed_on(s: Media, position: i32)
    ensures
        ({
            let after = queued(s, 0, Some(position));
            if s.enabled && s.playing.state != 0 && s.pending is None {
                &&& after.commands.len() == s.commands.len() + 1
                &&& after.commands.last().opcode == 0
                &&& after.commands.last().position == Some(position)
            } else {
                after == s
            }
        }),
{
}

/// The end of a command is told once, for the command that is under way and no
/// other: with 1 where the player did it and 4 where it did not.
pub proof fn a_finished_command_is_told(s: Media, id: u64, opcode: u8, other: u64, success: bool)
    requires
        s.pending == Some((id, opcode)),
        other != id,
    ensures
        finished(s, id, success).pending is None,
        finished(s, other, success) == s,
        opcode != 0 ==> finished(s, id, success) == notified(
            Media { pending: None, ..s },
            0x2BA4,
            seq![
                opcode,
                if success {
                    1u8
                } else {
                    4u8
                },
            ],
        ),
        opcode == 0 ==> finished(s, id, success) == (Media { pending: None, ..s }),
        finished(Media { pending: None, ..s }, id, success) == (Media { pending: None, ..s }),
        CONFIRMATION_NANOSECONDS == 3_000_000_000,
{
}

/// A value is read as it is, from the start or from an offset, and cut to what one
/// answer holds. Past its end there is nothing to read.
#[verifier::rlimit(60)]
pub proof fn a_value_is_read_as_it_is(a: Entry, handle: u16, offset: u16, mtu: int)
    requires
        mtu >= 2,
        a.read,
    ensures
        ({
            let (lo, hi) = ((handle % 256) as u8, (handle / 256) as u8);
            let whole = read_answer(a, seq![0x0Au8, lo, hi], mtu);
            let part = read_answer(
                a,
                seq![0x0Cu8, lo, hi, (offset % 256) as u8, (offset / 256) as u8],
                mtu,
            );
            &&& whole[0] == 0x0B && a.value.take(whole.len() - 1) == whole.skip(1)
            &&& whole.len() == mtu || whole.len() == a.value.len() + 1
            &&& whole.len() <= mtu
            &&& offset <= a.value.len() ==> part[0] == 0x0D && part.len() <= mtu && (part.len()
                == mtu || offset + part.len() == a.value.len() + 1) && a.value.subrange(
                offset as int,
                offset + part.len() - 1,
            ) == part.skip(1)
            &&& offset > a.value.len() ==> part == seq![1u8, 0x0C, lo, hi, 7]
        }),
{
    let (lo, hi) = ((handle % 256) as u8, (handle / 256) as u8);
    let asked = seq![0x0Au8, lo, hi];
    let more = seq![0x0Cu8, lo, hi, (offset % 256) as u8, (offset / 256) as u8];
    assert(u16_at(more, 3) == offset);
    assert(u16_at(more, 1) == handle);
    let whole = read_answer(a, asked, mtu);
    let part = read_answer(a, more, mtu);
    assert(a.value.skip(0) =~= a.value);
    assert(whole.skip(1) =~= prefix(a.value, mtu - 1));
    assert(a.value.take(whole.len() - 1) =~= whole.skip(1));
    if offset <= a.value.len() {
        assert(part.skip(1) =~= prefix(a.value.skip(offset as int), mtu - 1));
        assert(a.value.subrange(offset as int, offset + part.len() - 1) =~= part.skip(1));
    } else {
        assert(part =~= seq![1u8, 0x0C, lo, hi, 7]);
    }
}

/// A write does one of three things: it switches a subscription on or off, hands a
/// command on, or asks for a position, which is four bytes in two's complement. What
/// may not be written changes nothing.
#[verifier::rlimit(60)]
pub proof fn a_write_does_one_thing(s: Media, handle: u16, value: Seq<u8>)
    requires
        well_formed(s),
        s.encrypted,
        1 <= handle <= s.table.len(),
    ensures
        ({
            let p = seq![0x12u8, (handle % 256) as u8, (handle / 256) as u8] + value;
            let a = s.table[handle - 1];
            let after = after_request(s, p);
            &&& !a.write ==> after == s
            &&& a.write && a.uuid == 0x2902 ==> if value == seq![0u8, 0] || value == seq![1u8, 0] {
                after == (Media {
                    table: s.table.update(handle - 1, Entry { value, ..a }),
                    ..s
                })
            } else {
                after == s
            }
            &&& a.write && a.uuid == 0x2BA4 ==> if value.len() == 1 {
                after == queued(s, value[0], None)
            } else {
                after == s
            }
            &&& a.write && a.uuid == 0x2B99 ==> if value.len() == 4 {
                exists|position: i32|
                    #![trigger unsigned(position)]
                    unsigned(position) == value[0] + 256 * value[1] + 65536 * value[2] + 16777216
                        * value[3] && after == queued(s, 0, Some(position))
            } else {
                after == s
            }
            &&& a.uuid != 0x2902 && a.uuid != 0x2BA4 && a.uuid != 0x2B99 ==> after == s
        }),
{
    let p = seq![0x12u8, (handle % 256) as u8, (handle / 256) as u8] + value;
    let a = s.table[handle - 1];
    assert(p[1] == (handle % 256) as u8 && p[2] == (handle / 256) as u8);
    assert(u16_at(p, 1) == handle);
    assert(p.skip(3) =~= value);
    assert(p.len() == 3 + value.len());
    if value.len() == 2 {
        assert(p[3] == value[0] && p[4] == value[1]);
        if p[4] == 0 && p[3] <= 1 {
            if p[3] == 0 {
                assert(value =~= seq![0u8, 0]);
            } else {
                assert(value =~= seq![1u8, 0]);
            }
        }
    }
    if value.len() == 1 {
        assert(p[3] == value[0]);
    }
    if value.len() == 4 {
        assert(p[3] == value[0] && p[4] == value[1] && p[5] == value[2] && p[6] == value[3]);
        let position = signed(u32_at(p, 3));
        numbers_are_twos_complement(position, u32_at(p, 3));
        assert(unsigned(position) == value[0] + 256 * value[1] + 65536 * value[2] + 16777216
            * value[3]);
    }
}

/// What a search lists of an attribute: its handle and its UUID; of a service its
/// handle, the handle of its last attribute and its UUID; of a type that is asked for
/// its handle and its value, unless it may not be read or the link is not encrypted.
#[verifier::rlimit(60)]
pub proof fn a_search_lists_what_is_there(s: Media, first: u16, last: u16, mtu: int, i: int)
    requires
        well_formed(s),
        0 <= i < s.table.len(),
        23 <= mtu <= 517,
    ensures
        ({
            let lo = |n: u16| (n % 256) as u8;
            let hi = |n: u16| (n / 256) as u8;
            let a = s.table[i];
            let end = place_from(s.table, 0x2800, i + 1) as u16;
            let within = seq![lo(first), hi(first), lo(last), hi(last)];
            &&& row_of(s, seq![0x04u8] + within, mtu, i) == Row::Cells(
                seq![lo(a.handle), hi(a.handle), lo(a.uuid), hi(a.uuid)],
            )
            &&& row_of(s, seq![0x10u8] + within + seq![0x00u8, 0x28], mtu, i) == if a.uuid
                == 0x2800 {
                Row::Cells(seq![lo(a.handle), hi(a.handle), lo(end), hi(end)] + a.value)
            } else {
                Row::Nothing
            }
            &&& i < end <= s.table.len()
            &&& forall|k: int| i < k < end ==> (#[trigger] s.table[k]).uuid != 0x2800
            &&& end < s.table.len() ==> s.table[end as int].uuid == 0x2800
            &&& ({
                let typed = row_of(s, seq![0x08u8] + within + seq![lo(a.uuid), hi(a.uuid)], mtu, i);
                if !a.read {
                    typed == Row::Refused(2)
                } else if a.handle > 6 && a.uuid != 0x2803 && !s.encrypted {
                    typed == Row::Refused(0x0F)
                } else {
                    typed matches Row::Cells(cells) && cells.take(2) == seq![
                        lo(a.handle),
                        hi(a.handle),
                    ] && cells.skip(2) == a.value.take(cells.len() - 2) && (cells.len()
                        == a.value.len() + 2 || cells.len() >= mtu - 2 || cells.len() == 255)
                }
            })
        }),
{
    let lo = |n: u16| (n % 256) as u8;
    let hi = |n: u16| (n / 256) as u8;
    let a = s.table[i];
    let end = place_from(s.table, 0x2800, i + 1) as u16;
    let within = seq![lo(first), hi(first), lo(last), hi(last)];
    lemma_place_from(s.table, 0x2800, i + 1);
    let info = seq![0x04u8] + within;
    let group = seq![0x10u8] + within + seq![0x00u8, 0x28];
    let typed = seq![0x08u8] + within + seq![lo(a.uuid), hi(a.uuid)];
    assert(info[0] == 0x04 && group[0] == 0x10 && typed[0] == 0x08);
    assert(group[5] == 0x00 && group[6] == 0x28 && group.len() == 7);
    assert(typed[5] == lo(a.uuid) && typed[6] == hi(a.uuid) && typed.len() == 7);
    assert(asked_type(group) == Some(0x2800u16));
    assert(asked_type(typed) == Some(a.uuid));
    assert(le16(a.handle) + le16(a.uuid) =~= seq![
        lo(a.handle),
        hi(a.handle),
        lo(a.uuid),
        hi(a.uuid),
    ]);
    assert(le16(a.handle) + le16(end) + a.value =~= seq![
        lo(a.handle),
        hi(a.handle),
        lo(end),
        hi(end),
    ] + a.value);
    let limit = if mtu - 4 < 253 { mtu - 4 } else { 253 };
    let cells = le16(a.handle) + prefix(a.value, limit);
    assert(cells.take(2) =~= seq![lo(a.handle), hi(a.handle)]);
    assert(cells.skip(2) =~= a.value.take(cells.len() - 2));
}

/// Which opcodes ask for something: those of the attribute protocol's requests and
/// commands. Everything else is left to whoever asked.
pub proof fn requests_are_answered(s: Media, opcode: u8, rest: Seq<u8>, mtu: int)
    ensures
        answer(s, seq![opcode] + rest, mtu) is Some <==> opcode == 0x02 || opcode == 0x04 || opcode
            == 0x06 || opcode == 0x08 || opcode == 0x0A || opcode == 0x0C || opcode == 0x0E
            || opcode == 0x10 || opcode == 0x12 || opcode == 0x16 || opcode == 0x18 || opcode
            == 0x20 || opcode == 0x52,
        opcode == 0x02 && rest.len() == 2 ==> answer(s, seq![opcode] + rest, mtu) == Some(
            seq![3u8, 5, 2],
        ),
        answer(s, Seq::empty(), mtu) is None,
        LAST_OPEN_HANDLE == 6,
{
    assert((seq![opcode] + rest)[0] == opcode);
}

/// What goes out is cut to what the link carries, which is never less than 23 bytes
/// and never more than 517, and is otherwise left alone.
pub proof fn what_goes_out_fits(notifications: Seq<Seq<u8>>, mtu: usize, i: int)
    requires
        0 <= i < notifications.len(),
    ensures
        ({
            let sent = outgoing(notifications, mtu);
            let room = if mtu < 23 {
                23
            } else if mtu > 517 {
                517
            } else {
                mtu as int
            };
            &&& sent.len() == notifications.len()
            &&& sent[i].len() <= room
            &&& sent[i] == notifications[i].take(sent[i].len() as int)
            &&& sent[i].len() == notifications[i].len() || sent[i].len() == room
        }),
{
    let sent = outgoing(notifications, mtu);
    assert(sent[i] =~= notifications[i].take(sent[i].len() as int));
}


proof fn lemma_revalued_keeps_subscriptions(s: Media, uuid: u16, value: Seq<u8>)
    requires
        has(s.table, uuid),
        uuid != 0x2902,
    ensures
        forall|at: int|
            0 <= at ==> #[trigger] is_subscribed(revalued(s, uuid, value).table, at)
                == is_subscribed(s.table, at),
        revalued(s, uuid, value).encrypted == s.encrypted,
        s.notifications.len() <= revalued(s, uuid, value).notifications.len()
            <= s.notifications.len() + 1,
{
    lemma_place_from(s.table, uuid, 0);
    lemma_has_place(s.table, uuid);
}

/// A new track is told to a peer that subscribed to it, last of all, and so that the
/// values it reads then are those of the new track.
#[verifier::rlimit(60)]
pub proof fn a_new_track_is_told(s: Media, playing: Playing)
    requires
        well_formed(s),
        s.encrypted,
        is_subscribed(s.table, place_from(s.table, 0x2B96, 0)),
        s.notifications.len() < 58,
        s.playing.title != playing.title || s.playing.player != playing.player,
    ensures
        ({
            let handle = (place_from(s.table, 0x2B96, 0) + 1) as u16;
            updated(s, playing).notifications.last() == seq![
                0x1Bu8,
                (handle % 256) as u8,
                (handle / 256) as u8,
            ]
        }),
{
    let at = place_from(s.table, 0x2B96, 0);
    let handle = (at + 1) as u16;
    let s1 = revalued(s, 0x2B93, text_value(playing.player));
    let s2 = revalued(s1, 0x2B97, text_value(playing.title));
    let s3 = revalued(s2, 0x2B98, le32(unsigned(playing.duration)));
    let s4 = revalued(s3, 0x2B99, le32(unsigned(playing.position)));
    let state = seq![if playing.state < 3 { playing.state } else { 3u8 }];
    let s5 = revalued(s4, 0x2BA3, state);
    let able = le32(if s.enabled { playing.supported } else { 0 });
    let s6 = revalued(s5, 0x2BA5, able);
    lemma_has_place(s.table, 0x2B96);
    lemma_place_from(s.table, 0x2B96, 0);
    lemma_revalued(s, 0x2B93, text_value(playing.player));
    lemma_revalued_keeps_subscriptions(s, 0x2B93, text_value(playing.player));
    lemma_shape_keeps(s.table, s1.table);
    lemma_revalued(s1, 0x2B97, text_value(playing.title));
    lemma_revalued_keeps_subscriptions(s1, 0x2B97, text_value(playing.title));
    lemma_shape_keeps(s1.table, s2.table);
    lemma_revalued(s2, 0x2B98, le32(unsigned(playing.duration)));
    lemma_revalued_keeps_subscriptions(s2, 0x2B98, le32(unsigned(playing.duration)));
    lemma_shape_keeps(s2.table, s3.table);
    lemma_revalued(s3, 0x2B99, le32(unsigned(playing.position)));
    lemma_revalued_keeps_subscriptions(s3, 0x2B99, le32(unsigned(playing.position)));
    lemma_shape_keeps(s3.table, s4.table);
    lemma_revalued(s4, 0x2BA3, state);
    lemma_revalued_keeps_subscriptions(s4, 0x2BA3, state);
    lemma_shape_keeps(s4.table, s5.table);
    lemma_revalued(s5, 0x2BA5, able);
    lemma_revalued_keeps_subscriptions(s5, 0x2BA5, able);
    assert(is_subscribed(s1.table, at));
    assert(is_subscribed(s2.table, at));
    assert(is_subscribed(s3.table, at));
    assert(is_subscribed(s4.table, at));
    assert(is_subscribed(s5.table, at));
    assert(is_subscribed(s6.table, at));
    assert forall|i: int| 0 <= i < s.table.len() implies (#[trigger] s6.table[i]).uuid
        == s.table[i].uuid by {
        assert(s1.table[i].uuid == s.table[i].uuid);
        assert(s2.table[i].uuid == s1.table[i].uuid);
        assert(s3.table[i].uuid == s2.table[i].uuid);
        assert(s4.table[i].uuid == s3.table[i].uuid);
        assert(s5.table[i].uuid == s4.table[i].uuid);
    }
    lemma_place_from_is(s6.table, 0x2B96, 0, at);
    assert(s6.playing == s.playing);
    assert(updated(s, playing).notifications.last() =~= seq![
        0x1Bu8,
        (handle % 256) as u8,
        (handle / 256) as u8,
    ]);
}

/// The UUIDs of the table, in the order of their handles: the generic access service
/// with the name and the appearance, and the media control service with the player,
/// the track, the title, the duration, the position, the state, the control point,
/// what it supports and the content control identifier, each with its descriptor
/// where it notifies.
pub open spec fn published_uuids() -> Seq<u16> {
    seq![
        0x2800u16,
        0x2803,
        0x2A00,
        0x2803,
        0x2A01,
        0x2800,
        0x2803,
        0x2B93,
        0x2902,
        0x2803,
        0x2B96,
        0x2902,
        0x2803,
        0x2B97,
        0x2902,
        0x2803,
        0x2B98,
        0x2902,
        0x2803,
        0x2B99,
        0x2902,
        0x2803,
        0x2BA3,
        0x2902,
        0x2803,
        0x2BA4,
        0x2902,
        0x2803,
        0x2BA5,
        0x2902,
        0x2803,
        0x2BBA,
    ]
}

/// What is published, attribute by attribute. Everything can be read but the track
/// and the control point; only the position, the control point and the descriptors
/// can be written. The first six attributes are open, which is the generic access
/// service and the declaration of the other.
#[verifier::rlimit(60)]
pub proof fn the_published_table(i: int)
    requires
        0 <= i < 32,
    ensures
        ({
            let table = first_table();
            let uuid = published_uuids()[i];
            &&& table.len() == 32
            &&& table[i].uuid == uuid
            &&& table[i].handle == i + 1
            &&& table[i].read <==> uuid != 0x2B96 && uuid != 0x2BA4
            &&& table[i].write <==> uuid == 0x2B99 || uuid == 0x2BA4 || uuid == 0x2902
            &&& table[0].value == seq![0x00u8, 0x18] && table[5].value == seq![0x49u8, 0x18]
            &&& table[31].value == seq![1u8]
            &&& uuid == 0x2902 ==> table[i].value == seq![0u8, 0]
        }),
{
    let t1 = with_attribute(Seq::empty(), 0x2800, le16(0x1800), true, false);
    let name = seq![0x4Fu8, 0x70, 0x65, 0x6E, 0x4C, 0x45, 0x41, 0x75, 0x64, 0x69, 0x6F];
    let t2 = with_characteristic(t1, 0x2A00, 2, name);
    let t3 = with_characteristic(t2, 0x2A01, 2, seq![0, 0]);
    let t4 = with_attribute(t3, 0x2800, le16(0x1849), true, false);
    let windows = seq![0x57u8, 0x69, 0x6E, 0x64, 0x6F, 0x77, 0x73];
    let t5 = with_characteristic(t4, 0x2B93, 0x12, windows);
    let t6 = with_characteristic(t5, 0x2B96, 0x10, seq![]);
    let t7 = with_characteristic(t6, 0x2B97, 0x12, seq![]);
    let t8 = with_characteristic(t7, 0x2B98, 0x12, le32(unsigned((-1) as i32)));
    let t9 = with_characteristic(t8, 0x2B99, 0x1E, le32(0));
    let t10 = with_characteristic(t9, 0x2BA3, 0x12, seq![0]);
    let t11 = with_characteristic(t10, 0x2BA4, 0x1C, seq![]);
    let t12 = with_characteristic(t11, 0x2BA5, 0x12, seq![0, 0, 0, 0]);
    lemma_first_table();
    lemma_kept_part(t1, 0x2A00, 2, name);
    lemma_kept_part(t2, 0x2A01, 2, seq![0, 0]);
    lemma_kept_part(t4, 0x2B93, 0x12, windows);
    lemma_kept_part(t5, 0x2B96, 0x10, seq![]);
    lemma_kept_part(t6, 0x2B97, 0x12, seq![]);
    lemma_kept_part(t7, 0x2B98, 0x12, le32(unsigned((-1) as i32)));
    lemma_kept_part(t8, 0x2B99, 0x1E, le32(0));
    lemma_kept_part(t9, 0x2BA3, 0x12, seq![0]);
    lemma_kept_part(t10, 0x2BA4, 0x1C, seq![]);
    lemma_kept_part(t11, 0x2BA5, 0x12, seq![0, 0, 0, 0]);
    lemma_kept_part(t12, 0x2BBA, 2, seq![1]);
    assert(t1.len() == 1 && t2.len() == 3 && t3.len() == 5 && t4.len() == 6 && t5.len() == 9
        && t6.len() == 12 && t7.len() == 15 && t8.len() == 18 && t9.len() == 21 && t10.len() == 24
        && t11.len() == 27 && t12.len() == 30);
    let table = first_table();
    assert(table[0] == t1[0]);
    assert(le16(0x1800) =~= seq![0x00u8, 0x18]);
    assert(le16(0x1849) =~= seq![0x49u8, 0x18]);
    assert(table[5] == t4[5]);
}

proof fn lemma_kept_part(table: Seq<Entry>, uuid: u16, properties: u8, value: Seq<u8>)
    requires
        table.len() < 0xFFF0,
    ensures
        ({
            let grown = with_characteristic(table, uuid, properties, value);
            let n = table.len() as int;
            &&& forall|i: int| 0 <= i < n ==> #[trigger] grown[i] == table[i]
            &&& grown[n].uuid == 0x2803 && grown[n].read && !grown[n].write
            &&& grown[n + 1].uuid == uuid && grown[n + 1].value == value
            &&& grown[n + 1].read <==> properties / 2 % 2 == 1
            &&& grown[n + 1].write <==> properties / 4 % 2 == 1 || properties / 8 % 2 == 1
            &&& properties / 16 % 2 == 0 ==> grown.len() == n + 2
            &&& properties / 16 % 2 == 1 ==> grown.len() == n + 3 && grown[n + 2].uuid == 0x2902
                && grown[n + 2].value == seq![0u8, 0] && grown[n + 2].read && grown[n + 2].write
        }),
{
    a_characteristic_is_declared_before_its_value(table, uuid, properties, value);
    let grown = with_characteristic(table, uuid, properties, value);
    let n = table.len() as int;
    assert forall|i: int| 0 <= i < n implies #[trigger] grown[i] == table[i] by {
        assert(grown.take(n)[i] == grown[i]);
    }
}

proof fn lemma_gathering_skips(s: Media, p: Seq<u8>, mtu: int, from: int, to: int)
    requires
        consecutive(s.table),
        0 <= from <= to <= s.table.len(),
        to < u16_at(p, 1),
    ensures
        gathered(s, p, mtu, from, Seq::empty()) == gathered(s, p, mtu, to, Seq::empty()),
    decreases to - from,
{
    if from < to {
        assert(s.table[from].handle == from + 1);
        lemma_gathering_skips(s, p, mtu, from + 1, to);
    }
}

proof fn lemma_gathering_keeps(s: Media, p: Seq<u8>, mtu: int, i: int, rows: Seq<Seq<u8>>)
    requires
        0 <= i,
    ensures
        gathered(s, p, mtu, i, rows) matches Gathered::Rows(all) ==> all.len() >= rows.len()
            && all.take(rows.len() as int) == rows,
    decreases s.table.len() - i,
{
    if i >= s.table.len() {
        assert(rows.take(rows.len() as int) =~= rows);
    } else if s.table[i].handle < u16_at(p, 1) || s.table[i].handle > u16_at(p, 3) {
        lemma_gathering_keeps(s, p, mtu, i + 1, rows);
    } else {
        match row_of(s, p, mtu, i) {
            Row::Nothing => {
                lemma_gathering_keeps(s, p, mtu, i + 1, rows);
            },
            Row::Refused(_) => {},
            Row::Cells(row) => {
                if (rows.len() > 0 && rows[0].len() != row.len()) || 2 + joined(rows).len()
                    + row.len() > mtu {
                    assert(rows.take(rows.len() as int) =~= rows);
                } else {
                    lemma_gathering_keeps(s, p, mtu, i + 1, rows.push(row));
                    let found = gathered(s, p, mtu, i + 1, rows.push(row));
                    if found is Rows {
                        let all = found->Rows_0;
                        assert(all.take(rows.len() as int) =~= all.take(
                            rows.len() as int + 1,
                        ).take(rows.len() as int));
                        assert(rows.push(row).take(rows.len() as int) =~= rows);
                    }
                }
            },
        }
    }
}

proof fn lemma_joined_starts(rows: Seq<Seq<u8>>)
    requires
        rows.len() > 0,
    ensures
        joined(rows).len() >= rows[0].len(),
        joined(rows).take(rows[0].len() as int) == rows[0],
    decreases rows.len(),
{
    let before = rows.drop_last();
    if rows.len() == 1 {
        assert(before =~= Seq::<Seq<u8>>::empty());
        assert(joined(rows) =~= rows[0]);
        assert(rows[0].take(rows[0].len() as int) =~= rows[0]);
    } else {
        lemma_joined_starts(before);
        assert(before[0] == rows[0]);
        assert(joined(rows).take(rows[0].len() as int) =~= joined(before).take(
            rows[0].len() as int,
        ));
    }
}

/// A search for attributes starts with the first handle asked for and says what it
/// is; one that makes no sense is refused, and so is one behind the last attribute.
#[verifier::rlimit(60)]
pub proof fn a_search_starts_where_it_is_asked_to(s: Media, first: u16, last: u16, mtu: int)
    requires
        well_formed(s),
        23 <= mtu <= 517,
    ensures
        ({
            let lo = |n: u16| (n % 256) as u8;
            let hi = |n: u16| (n / 256) as u8;
            let p = seq![0x04u8, lo(first), hi(first), lo(last), hi(last)];
            let found = answer(s, p, mtu);
            &&& found is Some
            &&& first == 0 || first > last ==> found->0 == seq![1u8, 4, lo(first), hi(first), 1]
            &&& s.table.len() < first <= last ==> found->0 == seq![
                1u8,
                4,
                lo(first),
                hi(first),
                0x0A,
            ]
            &&& 1 <= first <= last && first <= s.table.len() ==> {
                let a = s.table[first - 1];
                &&& found->0.len() >= 6 && found->0.len() <= mtu
                &&& found->0.take(6) == seq![
                    5u8,
                    1,
                    lo(first),
                    hi(first),
                    lo(a.uuid),
                    hi(a.uuid),
                ]
            }
        }),
{
    let lo = |n: u16| (n % 256) as u8;
    let hi = |n: u16| (n / 256) as u8;
    let p = seq![0x04u8, lo(first), hi(first), lo(last), hi(last)];
    assert(u16_at(p, 1) == first && u16_at(p, 3) == last);
    assert(seq![1u8, p[0]] + le16(first) + seq![1u8] =~= seq![1u8, 4, lo(first), hi(first), 1]);
    assert(seq![1u8, p[0]] + le16(first) + seq![0x0au8] =~= seq![
        1u8,
        4,
        lo(first),
        hi(first),
        0x0A,
    ]);
    if s.table.len() < first <= last {
        lemma_gathering_skips(s, p, mtu, 0, s.table.len() as int);
    }
    if 1 <= first <= last && first <= s.table.len() {
        let i = first - 1;
        let a = s.table[i];
        lemma_gathering_skips(s, p, mtu, 0, i);
        assert(a.handle == first);
        let row = le16(a.handle) + le16(a.uuid);
        assert(row_of(s, p, mtu, i) == Row::Cells(row));
        let none = Seq::<Seq<u8>>::empty();
        assert(joined(none).len() == 0);
        assert(gathered(s, p, mtu, i, none) == gathered(s, p, mtu, i + 1, none.push(row)));
        assert(none.push(row).drop_last() =~= none);
        assert(joined(none.push(row)) =~= row);
        lemma_gathering_keeps(s, p, mtu, i + 1, none.push(row));
        lemma_no_refusal(s, p, mtu, i + 1, none.push(row));
        lemma_gathered_fits(s, p, mtu, i + 1, none.push(row));
        let all = gathered(s, p, mtu, 0, none)->Rows_0;
        assert(all.take(1)[0] == row);
        assert(all[0] == row);
        lemma_joined_starts(all);
        let out = search_head(0x04, all) + joined(all);
        assert(joined(all).take(4) == row);
        assert(out.take(6) =~= seq![5u8, 1u8] + joined(all).take(4));
        assert(out.take(6) =~= seq![5u8, 1, lo(first), hi(first), lo(a.uuid), hi(a.uuid)]);
    }
}

proof fn lemma_no_refusal(s: Media, p: Seq<u8>, mtu: int, i: int, rows: Seq<Seq<u8>>)
    requires
        0 <= i,
        p[0] == 0x04,
    ensures
        gathered(s, p, mtu, i, rows) is Rows,
    decreases s.table.len() - i,
{
    if i < s.table.len() {
        lemma_no_refusal(s, p, mtu, i + 1, rows);
        if row_of(s, p, mtu, i) is Cells {
            lemma_no_refusal(s, p, mtu, i + 1, rows.push(row_of(s, p, mtu, i)->Cells_0));
        }
    }
}

proof fn lemma_gathered_fits(s: Media, p: Seq<u8>, mtu: int, i: int, rows: Seq<Seq<u8>>)
    requires
        0 <= i,
        2 + joined(rows).len() <= mtu,
    ensures
        gathered(s, p, mtu, i, rows) matches Gathered::Rows(all) ==> 2 + joined(all).len() <= mtu,
    decreases s.table.len() - i,
{
    if i < s.table.len() {
        lemma_gathered_fits(s, p, mtu, i + 1, rows);
        if row_of(s, p, mtu, i) is Cells {
            let row = row_of(s, p, mtu, i)->Cells_0;
            assert(rows.push(row).drop_last() =~= rows);
            if 2 + joined(rows).len() + row.len() <= mtu {
                lemma_gathered_fits(s, p, mtu, i + 1, rows.push(row));
            }
        }
    }
}

/// What a request about one attribute is answered. A handle that is not there is
/// invalid. Behind the open ones nothing is said over a link that is not encrypted.
/// What can be read is read; a write is confirmed or refused with the reason; a
/// write that wants no answer gets none; and anything else is not supported.
#[verifier::rlimit(60)]
pub proof fn an_attribute_is_answered_for(
    s: Media,
    opcode: u8,
    handle: u16,
    more: Seq<u8>,
    mtu: int,
)
    requires
        well_formed(s),
        opcode == 0x0A || opcode == 0x0C || opcode == 0x12 || opcode == 0x52 || opcode == 0x16,
    ensures
        ({
            let (lo, hi) = ((handle % 256) as u8, (handle / 256) as u8);
            let p = seq![opcode, lo, hi] + more;
            let said = answer(s, p, mtu);
            let no = |code: u8|
                if opcode == 0x52 {
                    Seq::<u8>::empty()
                } else {
                    seq![1u8, opcode, lo, hi, code]
                };
            &&& said is Some
            &&& handle == 0 || handle > s.table.len() ==> said->0 == no(1)
            &&& 6 < handle <= s.table.len() && !s.encrypted ==> said->0 == no(0x0F)
            &&& 1 <= handle <= s.table.len() && (handle <= 6 || s.encrypted) ==> {
                let a = s.table[handle - 1];
                &&& opcode == 0x0A || opcode == 0x0C ==> said->0 == read_answer(a, p, mtu)
                &&& (opcode == 0x0A || opcode == 0x0C) && !a.read ==> said->0 == no(2)
                &&& opcode == 0x12 ==> {
                    let good = a.write && ((a.uuid == 0x2902 && (more == seq![0u8, 0] || more
                        == seq![1u8, 0])) || (a.uuid == 0x2BA4 && more.len() == 1) || (a.uuid
                        == 0x2B99 && more.len() == 4));
                    &&& good ==> said->0 == seq![0x13u8]
                    &&& !a.write ==> said->0 == no(3)
                    &&& a.write && a.uuid == 0x2902 && !good ==> said->0 == no(0x13)
                    &&& a.write && (a.uuid == 0x2BA4 || a.uuid == 0x2B99) && !good ==> said->0
                        == no(0x0D)
                }
                &&& opcode == 0x52 ==> said->0.len() == 0
                &&& opcode == 0x16 ==> said->0 == no(6)
            }
        }),
{
    let (lo, hi) = ((handle % 256) as u8, (handle / 256) as u8);
    let p = seq![opcode, lo, hi] + more;
    assert(p[0] == opcode && p[1] == lo && p[2] == hi);
    assert(u16_at(p, 1) == handle);
    assert forall|code: u8| #[trigger] refused(p, code) == seq![1u8, opcode, lo, hi, code] by {
        assert(refused(p, code) =~= seq![1u8, opcode, lo, hi, code]);
    }
    if more.len() == 2 {
        assert(p[3] == more[0] && p[4] == more[1]);
        if more[1] == 0 && more[0] == 0 {
            assert(more =~= seq![0u8, 0]);
        }
        if more[1] == 0 && more[0] == 1 {
            assert(more =~= seq![1u8, 0]);
        }
    }
}

/// One turn of the server: the answer comes first where there is one, then whatever
/// was to be told, and nothing is told twice. A command that took too long is given
/// up on the way.
pub proof fn a_turn_answers_before_it_tells(s: Media, p: Seq<u8>, late: bool, mtu: usize)
    ensures
        ({
            let (handled, pdus, after) = serving(s, Some(p), late, mtu);
            let reply = answer(s, p, usable_mtu(mtu) as int);
            let told = settled(after_request(s, p), late).notifications;
            &&& handled <==> reply is Some
            &&& reply is Some && reply->0.len() > 0 ==> pdus == seq![reply->0] + outgoing(told, mtu)
            &&& reply is None || reply->0.len() == 0 ==> pdus == outgoing(told, mtu)
            &&& after.notifications.len() == 0
            &&& after.commands == settled(after_request(s, p), late).commands
        }),
        serving(s, None, late, mtu).1 == outgoing(settled(s, late).notifications, mtu),
        !serving(s, None, late, mtu).0,
{
    let (handled, pdus, after) = serving(s, Some(p), late, mtu);
    let told = outgoing(settled(after_request(s, p), late).notifications, mtu);
    assert(Seq::<Seq<u8>>::empty() + told =~= told);
    let alone = outgoing(settled(s, late).notifications, mtu);
    assert(Seq::<Seq<u8>>::empty() + alone =~= alone);
}

/// A server starts with control switched on, over a link that is not encrypted, with
/// nothing playing, nothing to tell and no command under way.
pub proof fn a_server_starts_at_rest()
    ensures
        ({
            let s = first_state();
            &&& s.enabled && !s.encrypted
            &&& s.commands.len() == 0 && s.notifications.len() == 0 && s.pending is None
            &&& s.playing.state == 0 && s.playing.supported == 0 && s.playing.position == 0
            &&& s.playing.duration == -1 && s.playing.title.len() == 0 && s.playing.player
                == "Windows"@
            &&& s.serial == 0
        }),
{
}

} // verus!
