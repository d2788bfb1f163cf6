//! ACL fragmentation, L2CAP framing and the ATT protocol.
//!
//! Everything GATT needs rides on this: ACL packets carry L2CAP frames, L2CAP
//! channel 4 carries ATT, and ATT is how PACS and ASCS are read and written.
//! Getting the reassembly right matters, because a PAC record routinely exceeds
//! one ACL packet and arrives split across several.

pub mod att_op;
pub mod cid;
pub mod gatt_uuid;

use crate::bytes::{
    copy_bytes, le16, lemma_u16_round_trip, push_bytes, push_u16, range, read_u16, records, tail,
    u16_at, views,
};
use crate::text::{hex, push_hex};
use vstd::prelude::*;
use vstd::string::*;

verus! {

/// ATT default MTU on an LE link, before any exchange.
pub const ATT_DEFAULT_MTU: u16 = 23;

/// MTU the stack asks for. Large enough that a full PAC record usually fits in
/// one response rather than needing Read Blob follow-ups.
pub const ATT_PREFERRED_MTU: u16 = 517;

/// Why an ATT or L2CAP packet could not be used.
#[derive(Debug, Clone, Copy)]
pub enum AttError {
    /// The peer answered with an ATT error.
    Protocol { code: u8, handle: u16 },
    /// The named packet does not have the shape it claims.
    Malformed(&'static str),
    /// The peer answered something else than what was asked.
    Unexpected { got: u8, expected: u8 },
}

/// The text that reports an `AttError`.
pub open spec fn att_error_text(error: AttError) -> Seq<char> {
    match error {
        AttError::Protocol { code, handle } => "ATT error on handle 0x"@ + hex(handle as nat, 4)
            + ": "@ + error_text(code) + " (0x"@ + hex(code as nat, 2) + ")"@,
        AttError::Malformed(what) => "malformed "@ + what@ + " packet"@,
        AttError::Unexpected { got, expected } => "unexpected ATT response 0x"@ + hex(
            got as nat,
            2,
        ) + ", expected 0x"@ + hex(expected as nat, 2),
    }
}

impl AttError {
    /// One line that says what went wrong.
    pub fn to_string(&self) -> (text: String)
        ensures
            text@ == att_error_text(*self),
    {
        let mut text = String::new();
        match self {
            AttError::Protocol { code, handle } => {
                text.append("ATT error on handle 0x");
                push_hex(&mut text, *handle as u64, 4);
                text.append(": ");
                text.append(error_name(*code));
                text.append(" (0x");
                push_hex(&mut text, *code as u64, 2);
                text.append(")");
            },
            AttError::Malformed(what) => {
                text.append("malformed ");
                text.append(what);
                text.append(" packet");
            },
            AttError::Unexpected { got, expected } => {
                text.append("unexpected ATT response 0x");
                push_hex(&mut text, *got as u64, 2);
                text.append(", expected 0x");
                push_hex(&mut text, *expected as u64, 2);
            },
        }
        assert(text@ =~= att_error_text(*self));
        text
    }
}

/// The name of each ATT error code worth distinguishing.
pub open spec fn error_text(code: u8) -> Seq<char> {
    match code {
        0x01 => "invalid handle"@,
        0x02 => "read not permitted"@,
        0x03 => "write not permitted"@,
        0x05 => "insufficient authentication"@,
        0x06 => "request not supported"@,
        0x07 => "invalid offset"@,
        0x08 => "insufficient authorization"@,
        0x0A => "attribute not found"@,
        0x0C => "insufficient encryption key size"@,
        0x0D => "invalid attribute value length"@,
        0x0F => "insufficient encryption"@,
        _ => "see Core spec Part F"@,
    }
}

/// Names for the ATT error codes worth distinguishing.
pub fn error_name(code: u8) -> (name: &'static str)
    ensures
        name@ == error_text(code),
{
    match code {
        0x01 => "invalid handle",
        0x02 => "read not permitted",
        0x03 => "write not permitted",
        0x05 => "insufficient authentication",
        0x06 => "request not supported",
        0x07 => "invalid offset",
        0x08 => "insufficient authorization",
        0x0A => "attribute not found",
        0x0C => "insufficient encryption key size",
        0x0D => "invalid attribute value length",
        0x0F => "insufficient encryption",
        _ => "see Core spec Part F",
    }
}

// ---- ACL layer ----

/// Packet boundary flag: first fragment, non-flushable. Host to controller only.
pub const PB_FIRST: u8 = 0;

/// Packet boundary flag: this ACL packet continues the previous frame.
pub const PB_CONTINUING: u8 = 1;

/// Packet boundary flag: first fragment, flushable.
///
/// This is what a controller uses for data travelling **up** to the host, so
/// every reply from a peer starts with this value and never with `PB_FIRST`.
/// Accepting only `PB_FIRST` silently discards every incoming L2CAP frame,
/// which looks exactly like a peer that never answers.
pub const PB_FIRST_FLUSHABLE: u8 = 2;

/// Packet boundary flag: a complete L2CAP PDU in one packet.
pub const PB_COMPLETE: u8 = 3;

/// An L2CAP frame on the wire: payload length, channel, payload. The length
/// field holds the low 16 bits of the payload's length.
pub open spec fn l2cap_frame(cid: u16, payload: Seq<u8>) -> Seq<u8> {
    le16((payload.len() % 0x1_0000) as u16) + le16(cid) + payload
}

/// An ACL packet on the wire: 12-bit handle with the boundary flag above it,
/// the low 16 bits of the data length, the data.
pub open spec fn acl_packet(handle: u16, boundary: u8, data: Seq<u8>) -> Seq<u8> {
    le16((handle % 4096 + 4096 * boundary) as u16) + le16((data.len() % 0x1_0000) as u16) + data
}

/// `frame` split into ACL packets of at most `limit` bytes of data each. The
/// first carries `boundary`, all others continue it.
pub open spec fn acl_packets(handle: u16, boundary: u8, frame: Seq<u8>, limit: nat) -> Seq<
    Seq<u8>,
>
    decreases frame.len(),
{
    if limit == 0 || frame.len() == 0 {
        Seq::empty()
    } else if frame.len() <= limit {
        seq![acl_packet(handle, boundary, frame)]
    } else {
        seq![acl_packet(handle, boundary, frame.take(limit as int))] + acl_packets(
            handle,
            PB_CONTINUING,
            frame.skip(limit as int),
            limit,
        )
    }
}

/// Builds ACL packets carrying one L2CAP frame, split to the controller's limit.
///
/// A limit of zero counts as one.
pub fn build_acl_packets(handle: u16, cid: u16, payload: &[u8], max_acl_len: usize) -> (packets:
    Vec<Vec<u8>>)
    ensures
        views(packets@) == acl_packets(
            handle,
            PB_FIRST,
            l2cap_frame(cid, payload@),
            (if max_acl_len == 0 { 1 } else { max_acl_len }) as nat,
        ),
{
    // L2CAP basic header: payload length, then channel id.
    let mut frame: Vec<u8> = Vec::new();
    push_u16(&mut frame, (payload.len() % 0x1_0000) as u16);
    push_u16(&mut frame, cid);
    push_bytes(&mut frame, payload);
    assert(frame@ =~= l2cap_frame(cid, payload@));

    let limit: usize = if max_acl_len == 0 { 1 } else { max_acl_len };
    let mut packets: Vec<Vec<u8>> = Vec::new();
    let mut at: usize = 0;
    let mut boundary: u8 = PB_FIRST;
    let ghost whole = acl_packets(handle, PB_FIRST, frame@, limit as nat);
    assert(frame@.skip(0) =~= frame@);
    assert(views(packets@) + whole =~= whole);

    while at < frame.len()
        invariant
            limit > 0,
            at <= frame@.len(),
            boundary <= PB_CONTINUING,
            views(packets@) + acl_packets(handle, boundary, frame@.skip(at as int), limit as nat)
                == whole,
        decreases frame@.len() - at,
    {
        let size: usize = if frame.len() - at > limit { limit } else { frame.len() - at };
        let chunk = range(&frame, at, at + size);
        let header: u16 = handle % 4096 + 4096 * (boundary as u16);
        let mut packet: Vec<u8> = Vec::new();
        push_u16(&mut packet, header);
        push_u16(&mut packet, (chunk.len() % 0x1_0000) as u16);
        push_bytes(&mut packet, chunk);
        assert(packet@ =~= acl_packet(handle, boundary, chunk@));
        let ghost rest = frame@.skip(at as int);
        proof {
            assert(chunk@ =~= rest.take(size as int));
            assert(rest.take(rest.len() as int) =~= rest);
            assert(rest.skip(size as int) =~= frame@.skip(at + size));
        }
        let ghost before = views(packets@);
        packets.push(packet);
        proof {
            assert(views(packets@) =~= before.push(packet@));
            assert(views(packets@) + acl_packets(
                handle,
                PB_CONTINUING,
                rest.skip(size as int),
                limit as nat,
            ) =~= before + acl_packets(handle, boundary, rest, limit as nat));
        }
        at = at + size;
        boundary = PB_CONTINUING;
    }
    assert(views(packets@) =~= whole);
    packets
}

/// A complete L2CAP frame.
#[derive(Debug, PartialEq, Eq)]
pub struct L2capFrame {
    pub cid: u16,
    pub payload: Vec<u8>,
}

impl Clone for L2capFrame {
    fn clone(&self) -> (copy: Self)
        ensures
            copy.cid == self.cid,
            copy.payload@ == self.payload@,
    {
        L2capFrame { cid: self.cid, payload: copy_bytes(&self.payload) }
    }
}

/// What one ACL packet does to a reassembly in progress.
pub enum Absorbed {
    /// More fragments are needed, or there was nothing to continue.
    Nothing,
    /// The frame is complete: its channel and its payload.
    Frame(u16, Seq<u8>),
    /// The named layer is malformed.
    Malformed(&'static str),
}

/// The packet boundary flag of an ACL packet.
pub open spec fn boundary_of(packet: Seq<u8>) -> u8 {
    (u16_at(packet, 0) / 4096 % 4) as u8
}

/// The data an ACL packet carries.
pub open spec fn data_of(packet: Seq<u8>) -> Seq<u8> {
    packet.subrange(4, 4 + u16_at(packet, 2))
}

/// How many bytes the frame that starts with `gathered` has in all.
pub open spec fn frame_len(gathered: Seq<u8>) -> int {
    4 + u16_at(gathered, 0)
}

/// What becomes of the gathered bytes of a frame: nothing yet, a complete
/// frame, or an overshoot. The second part is what is kept.
pub open spec fn settle(gathered: Seq<u8>) -> (Absorbed, Seq<u8>) {
    if gathered.len() < frame_len(gathered) {
        (Absorbed::Nothing, gathered)
    } else if gathered.len() > frame_len(gathered) {
        (Absorbed::Malformed("L2CAP"), Seq::empty())
    } else {
        (Absorbed::Frame(u16_at(gathered, 2), gathered.skip(4)), Seq::empty())
    }
}

/// Feeding `packet` to a reassembler that has gathered `gathered`: what comes
/// out, and what has been gathered afterwards.
pub open spec fn absorb(gathered: Seq<u8>, packet: Seq<u8>) -> (Absorbed, Seq<u8>) {
    if packet.len() < 4 || packet.len() < 4 + u16_at(packet, 2) {
        (Absorbed::Malformed("ACL"), gathered)
    } else if boundary_of(packet) == PB_CONTINUING {
        if gathered.len() == 0 {
            (Absorbed::Nothing, gathered)
        } else {
            settle(gathered + data_of(packet))
        }
    } else if data_of(packet).len() < 4 {
        (Absorbed::Malformed("L2CAP"), gathered)
    } else {
        settle(data_of(packet))
    }
}

/// Feeding several packets in turn: what the last one gave, and what has been
/// gathered afterwards.
pub open spec fn absorb_all(gathered: Seq<u8>, packets: Seq<Seq<u8>>) -> (Absorbed, Seq<u8>)
    decreases packets.len(),
{
    if packets.len() == 0 {
        (Absorbed::Nothing, gathered)
    } else {
        absorb(absorb_all(gathered, packets.drop_last()).1, packets.last())
    }
}

/// Reassembles L2CAP frames from a stream of ACL packets on one connection.
#[derive(Debug)]
pub struct AclReassembler {
    buffer: Vec<u8>,
    expected: usize,
}

impl View for AclReassembler {
    type V = Seq<u8>;

    /// The bytes of the unfinished frame gathered so far.
    closed spec fn view(&self) -> Seq<u8> {
        self.buffer@
    }
}

impl Default for AclReassembler {
    fn default() -> (fresh: Self)
        ensures
            fresh.wf(),
            fresh@ == Seq::<u8>::empty(),
    {
        AclReassembler::new()
    }
}

impl AclReassembler {
    /// A frame in progress holds at least its own header, and the length it is
    /// growing towards is the one its header states.
    pub closed spec fn wf(&self) -> bool {
        self.buffer@.len() > 0 ==> {
            &&& 4 <= self.buffer@.len() < self.expected
            &&& self.expected == frame_len(self.buffer@)
        }
    }

    pub fn new() -> (fresh: Self)
        ensures
            fresh.wf(),
            fresh@ == Seq::<u8>::empty(),
    {
        AclReassembler { buffer: Vec::new(), expected: 0 }
    }

    /// Feeds one ACL packet. Returns a frame once enough fragments have arrived.
    ///
    /// A continuation without a start, or a length that never adds up, resets the
    /// reassembler rather than growing without bound.
    pub fn push(&mut self, packet: &[u8]) -> (outcome: Result<Option<L2capFrame>, AttError>)
        requires
            old(self).wf(),
        ensures
            final(self).wf(),
            final(self)@ == absorb(old(self)@, packet@).1,
            match absorb(old(self)@, packet@).0 {
                Absorbed::Nothing => outcome matches Ok(None),
                Absorbed::Frame(cid, payload) => outcome matches Ok(Some(frame)) && frame.cid == cid
                    && frame.payload@ == payload,
                Absorbed::Malformed(layer) => outcome == Err::<Option<L2capFrame>, AttError>(
                    AttError::Malformed(layer),
                ),
            },
    {
        if packet.len() < 4 {
            return Err(AttError::Malformed("ACL"));
        }
        let header = read_u16(packet, 0);
        let boundary: u8 = (header / 4096 % 4) as u8;
        let data_len = read_u16(packet, 2) as usize;
        if packet.len() < 4 + data_len {
            return Err(AttError::Malformed("ACL"));
        }
        let data = range(packet, 4, 4 + data_len);
        assert(data@ =~= data_of(packet@));

        if boundary == PB_CONTINUING {
            if self.buffer.len() == 0 {
                // Continuation with nothing to continue: drop it.
                return Ok(None);
            }
            push_bytes(&mut self.buffer, data);
        } else {
            if data.len() < 4 {
                return Err(AttError::Malformed("L2CAP"));
            }
            self.expected = 4 + read_u16(data, 0) as usize;
            self.buffer = copy_bytes(data);
        }

        if self.buffer.len() < self.expected {
            return Ok(None);
        }
        // Overshoot means the peer lied about a length; start over.
        if self.buffer.len() > self.expected {
            self.reset();
            return Err(AttError::Malformed("L2CAP"));
        }
        let cid = read_u16(&self.buffer, 2);
        let payload = copy_bytes(tail(&self.buffer, 4));
        self.reset();
        Ok(Some(L2capFrame { cid, payload }))
    }

    /// Forgets any partial frame, used when a link drops.
    pub fn reset(&mut self)
        ensures
            final(self).wf(),
            final(self)@ == Seq::<u8>::empty(),
    {
        self.buffer.clear();
        self.expected = 0;
    }
}

/// An ACL packet is read back as the boundary flag and the data it was built
/// from.
proof fn lemma_acl_packet_reads_back(handle: u16, boundary: u8, data: Seq<u8>)
    requires
        boundary <= 3,
        data.len() <= 0xFFFF,
    ensures
        acl_packet(handle, boundary, data).len() == 4 + data.len(),
        boundary_of(acl_packet(handle, boundary, data)) == boundary,
        u16_at(acl_packet(handle, boundary, data), 2) == data.len(),
        data_of(acl_packet(handle, boundary, data)) == data,
{
    let packet = acl_packet(handle, boundary, data);
    let header = (handle % 4096 + 4096 * boundary) as u16;
    lemma_u16_round_trip(header);
    lemma_u16_round_trip(data.len() as u16);
    assert(packet[0] == le16(header)[0]);
    assert(packet[1] == le16(header)[1]);
    assert(u16_at(packet, 0) == header);
    assert(packet[2] == le16(data.len() as u16)[0]);
    assert(packet[3] == le16(data.len() as u16)[1]);
    assert(data_of(packet) =~= data);
}

/// Continuing a frame: the packets that carry `rest` complete what `gathered`
/// began.
proof fn lemma_continuation(handle: u16, gathered: Seq<u8>, rest: Seq<u8>, limit: nat)
    requires
        0 < limit,
        rest.len() <= limit ==> rest.len() <= 0xFFFF,
        rest.len() > limit ==> limit <= 0xFFFF,
        4 <= gathered.len(),
        rest.len() > 0,
        gathered.len() + rest.len() == frame_len(gathered),
    ensures
        absorb_all(gathered, acl_packets(handle, PB_CONTINUING, rest, limit)) == settle(
            gathered + rest,
        ),
        forall|k: int|
            0 < k < acl_packets(handle, PB_CONTINUING, rest, limit).len() ==> (
            #[trigger] absorb_all(
                gathered,
                acl_packets(handle, PB_CONTINUING, rest, limit).take(k),
            )).0 == Absorbed::Nothing,
    decreases rest.len(),
{
    let all = acl_packets(handle, PB_CONTINUING, rest, limit);
    if rest.len() <= limit {
        lemma_acl_packet_reads_back(handle, PB_CONTINUING, rest);
        assert(all.drop_last() =~= Seq::<Seq<u8>>::empty());
        assert(absorb_all(gathered, all.drop_last()) == (Absorbed::Nothing, gathered));
    } else {
        let first = rest.take(limit as int);
        let others = rest.skip(limit as int);
        lemma_acl_packet_reads_back(handle, PB_CONTINUING, first);
        let grown = gathered + first;
        assert(frame_len(grown) == frame_len(gathered));
        assert(absorb(gathered, acl_packet(handle, PB_CONTINUING, first)) == (
            Absorbed::Nothing,
            grown,
        ));
        lemma_continuation(handle, grown, others, limit);
        let later = acl_packets(handle, PB_CONTINUING, others, limit);
        lemma_absorb_first(gathered, acl_packet(handle, PB_CONTINUING, first), later);
        lemma_nothing_yet(gathered, acl_packet(handle, PB_CONTINUING, first), later);
        assert(grown + others =~= gathered + rest);
    }
}

/// Feeding a packet and then several others is feeding them all.
proof fn lemma_absorb_first(gathered: Seq<u8>, packet: Seq<u8>, later: Seq<Seq<u8>>)
    requires
        later.len() > 0,
    ensures
        absorb_all(gathered, seq![packet] + later) == absorb_all(
            absorb(gathered, packet).1,
            later,
        ),
    decreases later.len(),
{
    let all = seq![packet] + later;
    assert(all.last() == later.last());
    if later.len() == 1 {
        assert(all.drop_last() =~= seq![packet]);
        assert(seq![packet].drop_last() =~= Seq::<Seq<u8>>::empty());
        assert(later.drop_last() =~= Seq::<Seq<u8>>::empty());
        assert(absorb_all(gathered, seq![packet].drop_last()) == (Absorbed::Nothing, gathered));
        assert(absorb_all(gathered, seq![packet]) == absorb(gathered, packet));
        let next = absorb(gathered, packet).1;
        assert(absorb_all(next, later.drop_last()) == (Absorbed::Nothing, next));
    } else {
        assert(all.drop_last() =~= seq![packet] + later.drop_last());
        lemma_absorb_first(gathered, packet, later.drop_last());
    }
}

/// Where neither a packet nor all but the last of those after it complete a
/// frame, none of them does when they are fed together.
proof fn lemma_nothing_yet(gathered: Seq<u8>, packet: Seq<u8>, later: Seq<Seq<u8>>)
    requires
        absorb(gathered, packet).0 == Absorbed::Nothing,
        forall|k: int|
            0 < k < later.len() ==> (#[trigger] absorb_all(
                absorb(gathered, packet).1,
                later.take(k),
            )).0 == Absorbed::Nothing,
    ensures
        forall|k: int|
            0 < k < (seq![packet] + later).len() ==> (#[trigger] absorb_all(
                gathered,
                (seq![packet] + later).take(k),
            )).0 == Absorbed::Nothing,
{
    let all = seq![packet] + later;
    assert forall|k: int| 0 < k < all.len() implies (#[trigger] absorb_all(
        gathered,
        all.take(k),
    )).0 == Absorbed::Nothing by {
        if k == 1 {
            assert(all.take(1) =~= seq![packet]);
            assert(seq![packet].drop_last() =~= Seq::<Seq<u8>>::empty());
            assert(absorb_all(gathered, seq![packet].drop_last()) == (
                Absorbed::Nothing,
                gathered,
            ));
        } else {
            assert(all.take(k) =~= seq![packet] + later.take(k - 1));
            lemma_absorb_first(gathered, packet, later.take(k - 1));
        }
    }
}

/// A frame survives fragmentation: the packets that carry it, fed in order to a
/// reassembler in any state, give back its channel and payload with the last
/// packet and nothing before it, and leave nothing behind. That holds for every
/// boundary flag a first packet can have.
///
/// The controller's limit has to leave room for the four header bytes of the
/// frame in the first packet, and each packet's data has to fit its length
/// field.
pub proof fn fragments_reassemble(
    gathered: Seq<u8>,
    handle: u16,
    boundary: u8,
    cid: u16,
    payload: Seq<u8>,
    limit: nat,
)
    requires
        boundary == PB_FIRST || boundary == PB_FIRST_FLUSHABLE || boundary == PB_COMPLETE,
        4 <= limit,
        payload.len() <= 0xFFFF,
        limit <= 0xFFFF || payload.len() + 4 <= 0xFFFF,
    ensures
        ({
            let all = acl_packets(handle, boundary, l2cap_frame(cid, payload), limit);
            &&& absorb_all(gathered, all) == (Absorbed::Frame(cid, payload), Seq::<u8>::empty())
            &&& forall|k: int|
                0 < k < all.len() ==> (#[trigger] absorb_all(gathered, all.take(k))).0
                    == Absorbed::Nothing
        }),
{
    let frame = l2cap_frame(cid, payload);
    let all = acl_packets(handle, boundary, frame, limit);
    let length = payload.len() as u16;
    lemma_u16_round_trip(length);
    lemma_u16_round_trip(cid);
    assert(frame[0] == le16(length)[0]);
    assert(frame[1] == le16(length)[1]);
    assert(frame[2] == le16(cid)[0]);
    assert(frame[3] == le16(cid)[1]);
    assert(frame.skip(4) =~= payload);
    assert(settle(frame) == (Absorbed::Frame(cid, payload), Seq::<u8>::empty()));
    if frame.len() <= limit {
        lemma_acl_packet_reads_back(handle, boundary, frame);
        assert(all.drop_last() =~= Seq::<Seq<u8>>::empty());
    } else {
        let first = frame.take(limit as int);
        let others = frame.skip(limit as int);
        lemma_acl_packet_reads_back(handle, boundary, first);
        assert(frame_len(first) == frame_len(frame));
        assert(absorb(gathered, acl_packet(handle, boundary, first)) == (
            Absorbed::Nothing,
            first,
        ));
        let later = acl_packets(handle, PB_CONTINUING, others, limit);
        lemma_continuation(handle, first, others, limit);
        lemma_absorb_first(gathered, acl_packet(handle, boundary, first), later);
        lemma_nothing_yet(gathered, acl_packet(handle, boundary, first), later);
        assert(first + others =~= frame);
    }
}

// ---- ATT requests ----

pub fn exchange_mtu_request(mtu: u16) -> (pdu: Vec<u8>)
    ensures
        pdu@ == seq![att_op::EXCHANGE_MTU_REQUEST] + le16(mtu),
{
    let mut pdu: Vec<u8> = vec![att_op::EXCHANGE_MTU_REQUEST];
    push_u16(&mut pdu, mtu);
    pdu
}

/// Answers a peer-initiated MTU exchange. Some headsets send this immediately
/// after encryption is restored, at the same time as our own exchange.
pub fn exchange_mtu_response(mtu: u16) -> (pdu: Vec<u8>)
    ensures
        pdu@ == seq![att_op::EXCHANGE_MTU_RESPONSE] + le16(mtu),
{
    let mut pdu: Vec<u8> = vec![att_op::EXCHANGE_MTU_RESPONSE];
    push_u16(&mut pdu, mtu);
    pdu
}

/// Requests that search for attributes by range.
pub open spec fn searches_attributes(opcode: u8) -> bool {
    opcode == att_op::FIND_INFORMATION_REQUEST || opcode == att_op::FIND_BY_TYPE_VALUE_REQUEST
        || opcode == att_op::READ_BY_TYPE_REQUEST || opcode == att_op::READ_BY_GROUP_TYPE_REQUEST
}

/// Requests that name one attribute.
pub open spec fn names_attribute(opcode: u8) -> bool {
    opcode == att_op::READ_REQUEST || opcode == att_op::READ_BLOB_REQUEST || opcode
        == att_op::READ_MULTIPLE_REQUEST || opcode == att_op::WRITE_REQUEST || opcode
        == att_op::PREPARE_WRITE_REQUEST || opcode == att_op::READ_MULTIPLE_VARIABLE_REQUEST
}

/// An ATT error PDU: the request it answers, the handle, the reason.
pub open spec fn error_pdu(opcode: u8, handle: u16, code: u8) -> Seq<u8> {
    seq![att_op::ERROR_RESPONSE, opcode] + le16(handle) + seq![code]
}

/// The error a host without attributes answers a peer's request with: Attribute
/// Not Found for a search, Invalid Handle for a named attribute, Request Not
/// Supported for an execute. Anything that is not a whole request gets none.
pub open spec fn absence_answer(pdu: Seq<u8>) -> Option<Seq<u8>> {
    if pdu.len() == 0 {
        None
    } else if searches_attributes(pdu[0]) && pdu.len() >= 3 {
        Some(error_pdu(pdu[0], u16_at(pdu, 1), 0x0A))
    } else if names_attribute(pdu[0]) && pdu.len() >= 3 {
        Some(error_pdu(pdu[0], u16_at(pdu, 1), 0x01))
    } else if pdu[0] == att_op::EXECUTE_WRITE_REQUEST {
        Some(error_pdu(pdu[0], 0, 0x06))
    } else {
        None
    }
}

/// Answers an ATT request initiated by the peer while we are waiting for our
/// own GATT response.
///
/// This stack is a GATT client and intentionally exposes no local attributes.
/// Some headsets nevertheless act as a client too and probe the host for the
/// optional Database Hash characteristic (0x2B2A). ATT permits one outstanding
/// request in each direction, so this can legitimately cross service discovery.
/// Returning the protocol-level absence/error response lets both directions
/// finish without pretending that the peer request was our response.
pub fn absent_local_attribute_response(pdu: &[u8]) -> (answer: Option<Vec<u8>>)
    ensures
        match absence_answer(pdu@) {
            Some(bytes) => answer matches Some(out) && out@ == bytes,
            None => answer is None,
        },
{
    if pdu.len() == 0 {
        return None;
    }
    let opcode = pdu[0];
    let handle: u16;
    let error: u8;
    if (opcode == att_op::FIND_INFORMATION_REQUEST || opcode == att_op::FIND_BY_TYPE_VALUE_REQUEST
        || opcode == att_op::READ_BY_TYPE_REQUEST || opcode == att_op::READ_BY_GROUP_TYPE_REQUEST)
        && pdu.len() >= 3 {
        handle = read_u16(pdu, 1);
        error = 0x0A;  // Attribute Not Found
    } else if (opcode == att_op::READ_REQUEST || opcode == att_op::READ_BLOB_REQUEST || opcode
        == att_op::READ_MULTIPLE_REQUEST || opcode == att_op::WRITE_REQUEST || opcode
        == att_op::PREPARE_WRITE_REQUEST || opcode == att_op::READ_MULTIPLE_VARIABLE_REQUEST)
        && pdu.len() >= 3 {
        handle = read_u16(pdu, 1);
        error = 0x01;  // Invalid Handle
    } else if opcode == att_op::EXECUTE_WRITE_REQUEST {
        handle = 0;
        error = 0x06;  // Request Not Supported
    } else {
        return None;
    }
    let mut out: Vec<u8> = vec![att_op::ERROR_RESPONSE, opcode];
    push_u16(&mut out, handle);
    out.push(error);
    assert(out@ =~= error_pdu(opcode, handle, error));
    Some(out)
}

/// The request for the groups of a type among some handles.
pub open spec fn group_request(start: u16, end: u16, group_type: u16) -> Seq<u8> {
    seq![att_op::READ_BY_GROUP_TYPE_REQUEST] + le16(start) + le16(end) + le16(group_type)
}

/// The request for the attributes of a type among some handles.
pub open spec fn type_request(start: u16, end: u16, attribute_type: u16) -> Seq<u8> {
    seq![att_op::READ_BY_TYPE_REQUEST] + le16(start) + le16(end) + le16(attribute_type)
}

/// The request for the rest of a value from an offset.
pub open spec fn blob_request(handle: u16, offset: u16) -> Seq<u8> {
    seq![att_op::READ_BLOB_REQUEST] + le16(handle) + le16(offset)
}

/// The request that writes a value.
pub open spec fn written(handle: u16, value: Seq<u8>) -> Seq<u8> {
    seq![att_op::WRITE_REQUEST] + le16(handle) + value
}

/// Discovers primary services in a handle range.
pub fn read_by_group_type_request(start: u16, end: u16, group_type: u16) -> (pdu: Vec<u8>)
    ensures
        pdu@ == group_request(start, end, group_type),
{
    let mut pdu: Vec<u8> = vec![att_op::READ_BY_GROUP_TYPE_REQUEST];
    push_u16(&mut pdu, start);
    push_u16(&mut pdu, end);
    push_u16(&mut pdu, group_type);
    pdu
}

/// Discovers characteristics in a handle range.
pub fn read_by_type_request(start: u16, end: u16, attribute_type: u16) -> (pdu: Vec<u8>)
    ensures
        pdu@ == type_request(start, end, attribute_type),
{
    let mut pdu: Vec<u8> = vec![att_op::READ_BY_TYPE_REQUEST];
    push_u16(&mut pdu, start);
    push_u16(&mut pdu, end);
    push_u16(&mut pdu, attribute_type);
    pdu
}

pub fn read_request(handle: u16) -> (pdu: Vec<u8>)
    ensures
        pdu@ == seq![att_op::READ_REQUEST] + le16(handle),
{
    let mut pdu: Vec<u8> = vec![att_op::READ_REQUEST];
    push_u16(&mut pdu, handle);
    pdu
}

/// Continues a read that did not fit in one response.
pub fn read_blob_request(handle: u16, offset: u16) -> (pdu: Vec<u8>)
    ensures
        pdu@ == blob_request(handle, offset),
{
    let mut pdu: Vec<u8> = vec![att_op::READ_BLOB_REQUEST];
    push_u16(&mut pdu, handle);
    push_u16(&mut pdu, offset);
    pdu
}

pub fn write_request(handle: u16, value: &[u8]) -> (pdu: Vec<u8>)
    ensures
        pdu@ == written(handle, value@),
{
    let mut pdu: Vec<u8> = vec![att_op::WRITE_REQUEST];
    push_u16(&mut pdu, handle);
    push_bytes(&mut pdu, value);
    pdu
}

// ---- ATT responses ----

/// A Bluetooth UUID, which appears on the wire as either 16 or 128 bits.
#[derive(Debug, Clone, Copy, PartialEq, Eq, Hash)]
pub enum Uuid {
    Short(u16),
    Long([u8; 16]),
}

/// A discovered primary service.
#[derive(Debug, Clone, Copy, PartialEq, Eq)]
pub struct ServiceRange {
    pub start_handle: u16,
    pub end_handle: u16,
    pub uuid: Uuid,
}

/// A discovered characteristic declaration.
#[derive(Debug, Clone, Copy, PartialEq, Eq)]
pub struct Characteristic {
    pub declaration_handle: u16,
    pub properties: u8,
    pub value_handle: u16,
    pub uuid: Uuid,
}

impl Characteristic {
    /// Whether the value may be read.
    pub open spec fn may_read(self) -> bool {
        self.properties & 0x02 != 0
    }

    /// Whether the value may be written.
    pub open spec fn may_write(self) -> bool {
        self.properties & 0x08 != 0
    }

    /// Whether the value is notified when it changes.
    pub open spec fn may_notify(self) -> bool {
        self.properties & 0x10 != 0
    }

    pub fn is_readable(&self) -> (yes: bool)
        ensures
            yes == self.may_read(),
    {
        self.properties & 0x02 != 0
    }

    pub fn is_writable(&self) -> (yes: bool)
        ensures
            yes == self.may_write(),
    {
        self.properties & 0x08 != 0
    }

    pub fn supports_notify(&self) -> (yes: bool)
        ensures
            yes == self.may_notify(),
    {
        self.properties & 0x10 != 0
    }
}

/// The part of the 128-bit base UUID below the 16-bit value of a SIG UUID.
pub open spec fn base_suffix() -> Seq<u8> {
    seq![0xFB, 0x34, 0x9B, 0x5F, 0x80, 0x00, 0x00, 0x80, 0x00, 0x10, 0x00, 0x00]
}

impl Uuid {
    /// The bytes a UUID has on the wire.
    pub open spec fn wire(self) -> Seq<u8> {
        match self {
            Uuid::Short(value) => le16(value),
            Uuid::Long(bytes) => bytes@,
        }
    }

    /// The 16-bit form, if there is one: the value itself, or bytes 12 and 13
    /// of a 128-bit UUID that is the base UUID everywhere else.
    pub open spec fn short(self) -> Option<u16> {
        match self {
            Uuid::Short(value) => Some(value),
            Uuid::Long(bytes) => if bytes@.take(12) == base_suffix() && bytes@[14] == 0 && bytes@[15]
                == 0 {
                Some(u16_at(bytes@, 12))
            } else {
                None
            },
        }
    }

    /// The 16-bit form, for the SIG-assigned UUIDs the stack looks for.
    pub fn as_short(&self) -> (value: Option<u16>)
        ensures
            value == self.short(),
    {
        match self {
            Uuid::Short(value) => Some(*value),
            Uuid::Long(bytes) => {
                let all: &[u8] = bytes;
                let base: [u8; 12] = [
                    0xFB,
                    0x34,
                    0x9B,
                    0x5F,
                    0x80,
                    0x00,
                    0x00,
                    0x80,
                    0x00,
                    0x10,
                    0x00,
                    0x00,
                ];
                assert(base@ =~= base_suffix());
                let low = range(all, 0, 12);
                assert(low@ =~= bytes@.take(12));
                if crate::bytes::same_bytes(low, &base) && bytes[14] == 0 && bytes[15] == 0 {
                    Some(read_u16(all, 12))
                } else {
                    None
                }
            },
        }
    }

    /// Reads a UUID that takes up all of `bytes`.
    pub fn parse(bytes: &[u8]) -> (uuid: Option<Self>)
        ensures
            uuid is Some <==> bytes@.len() == 2 || bytes@.len() == 16,
            uuid matches Some(uuid) ==> uuid.wire() == bytes@,
    {
        if bytes.len() == 2 {
            let value = read_u16(bytes, 0);
            assert(le16(value) =~= bytes@);
            Some(Uuid::Short(value))
        } else if bytes.len() == 16 {
            let mut value: [u8; 16] = [0u8; 16];
            let mut i: usize = 0;
            while i < 16
                invariant
                    i <= 16,
                    bytes@.len() == 16,
                    forall|j: int| 0 <= j < i ==> value@[j] == bytes@[j],
                decreases 16 - i,
            {
                value[i] = bytes[i];
                i = i + 1;
            }
            assert(value@ =~= bytes@);
            Some(Uuid::Long(value))
        } else {
            None
        }
    }
}

/// The failure an ATT PDU reports by itself, if it is an error PDU at all.
pub open spec fn reported_error(pdu: Seq<u8>) -> Option<AttError> {
    if pdu.len() > 0 && pdu[0] == att_op::ERROR_RESPONSE {
        if pdu.len() < 5 {
            Some(AttError::Malformed("ATT error"))
        } else {
            Some(AttError::Protocol { code: pdu[4], handle: u16_at(pdu, 2) })
        }
    } else {
        None
    }
}

/// The opcode of a PDU, zero for an empty one.
pub open spec fn opcode_of(pdu: Seq<u8>) -> u8 {
    if pdu.len() == 0 {
        0
    } else {
        pdu[0]
    }
}

fn first_byte(pdu: &[u8]) -> (opcode: u8)
    ensures
        opcode == opcode_of(pdu@),
{
    if pdu.len() == 0 {
        0
    } else {
        pdu[0]
    }
}

/// Checks an ATT response for the protocol-level error PDU.
pub fn check_error(pdu: &[u8]) -> (checked: Result<(), AttError>)
    ensures
        match reported_error(pdu@) {
            Some(error) => checked == Err::<(), AttError>(error),
            None => checked is Ok,
        },
{
    if pdu.len() > 0 && pdu[0] == att_op::ERROR_RESPONSE {
        if pdu.len() < 5 {
            return Err(AttError::Malformed("ATT error"));
        }
        return Err(AttError::Protocol { code: pdu[4], handle: read_u16(pdu, 2) });
    }
    Ok(())
}

/// Why a list response cannot be read, if it cannot: the peer's own error, a
/// different PDU, an entry length below the fixed fields, or a UUID in the
/// entries that is neither 16 nor 128 bits long.
pub open spec fn list_error(pdu: Seq<u8>, expected: u8, fixed: int, what: &'static str) -> Option<
    AttError,
> {
    if reported_error(pdu) is Some {
        reported_error(pdu)
    } else if opcode_of(pdu) != expected || pdu.len() < 2 {
        Some(AttError::Unexpected { got: opcode_of(pdu), expected })
    } else if pdu[1] < fixed + 2 {
        Some(AttError::Malformed(what))
    } else if pdu[1] - fixed != 2 && pdu[1] - fixed != 16 && pdu.len() - 2 >= pdu[1] {
        Some(AttError::Malformed(what))
    } else {
        None
    }
}

/// The entries of a list response.
pub open spec fn list_entries(pdu: Seq<u8>) -> Seq<Seq<u8>> {
    records(pdu.skip(2), pdu[1] as nat)
}

/// `service` is what `entry` of a Read By Group Type Response describes.
pub open spec fn describes_service(entry: Seq<u8>, service: ServiceRange) -> bool {
    &&& service.start_handle == u16_at(entry, 0)
    &&& service.end_handle == u16_at(entry, 2)
    &&& service.uuid.wire() == entry.skip(4)
}

/// `characteristic` is what `entry` of a Read By Type Response describes.
pub open spec fn describes_characteristic(
    entry: Seq<u8>,
    characteristic: Characteristic,
) -> bool {
    &&& characteristic.declaration_handle == u16_at(entry, 0)
    &&& characteristic.properties == entry[2]
    &&& characteristic.value_handle == u16_at(entry, 3)
    &&& characteristic.uuid.wire() == entry.skip(5)
}

/// Parses Read By Group Type Response into service ranges.
pub fn parse_service_ranges(pdu: &[u8]) -> (parsed: Result<Vec<ServiceRange>, AttError>)
    ensures
        match list_error(
            pdu@,
            att_op::READ_BY_GROUP_TYPE_RESPONSE,
            4,
            "group type response",
        ) {
            Some(error) => parsed == Err::<Vec<ServiceRange>, AttError>(error),
            None => {
                &&& parsed matches Ok(services)
                &&& services@.len() == list_entries(pdu@).len()
                &&& forall|i: int|
                    0 <= i < services@.len() ==> describes_service(
                        list_entries(pdu@)[i],
                        #[trigger] services@[i],
                    )
            },
        },
{
    check_error(pdu)?;
    if first_byte(pdu) != att_op::READ_BY_GROUP_TYPE_RESPONSE || pdu.len() < 2 {
        return Err(
            AttError::Unexpected {
                got: first_byte(pdu),
                expected: att_op::READ_BY_GROUP_TYPE_RESPONSE,
            },
        );
    }
    let entry_len = pdu[1] as usize;
    if entry_len < 6 {
        return Err(AttError::Malformed("group type response"));
    }
    let mut services: Vec<ServiceRange> = Vec::new();
    let mut at: usize = 2;
    let ghost mut done: Seq<Seq<u8>> = Seq::empty();
    while pdu.len() - at >= entry_len
        invariant
            2 <= at <= pdu@.len(),
            6 <= entry_len <= 255,
            entry_len == pdu@[1],
            entry_len - 4 == 2 || entry_len - 4 == 16 || at == 2,
            done + records(pdu@.skip(at as int), entry_len as nat) =~= list_entries(pdu@),
            done.len() == services@.len(),
            reported_error(pdu@) is None,
            opcode_of(pdu@) == att_op::READ_BY_GROUP_TYPE_RESPONSE,
            forall|i: int|
                0 <= i < services@.len() ==> describes_service(done[i], #[trigger] services@[i]),
        decreases pdu@.len() - at,
    {
        let entry = range(pdu, at, at + entry_len);
        let uuid = match Uuid::parse(tail(entry, 4)) {
            Some(uuid) => uuid,
            None => return Err(AttError::Malformed("group type response")),
        };
        let service = ServiceRange {
            start_handle: read_u16(entry, 0),
            end_handle: read_u16(entry, 2),
            uuid,
        };
        proof {
            let rest = pdu@.skip(at as int);
            assert(entry@ =~= rest.take(entry_len as int));
            assert(rest.skip(entry_len as int) =~= pdu@.skip(at + entry_len));
            done = done.push(entry@);
        }
        services.push(service);
        at = at + entry_len;
    }
    assert(done =~= list_entries(pdu@));
    Ok(services)
}

/// Parses Read By Type Response carrying characteristic declarations.
pub fn parse_characteristics(pdu: &[u8]) -> (parsed: Result<Vec<Characteristic>, AttError>)
    ensures
        match list_error(pdu@, att_op::READ_BY_TYPE_RESPONSE, 5, "characteristic response") {
            Some(error) => parsed == Err::<Vec<Characteristic>, AttError>(error),
            None => {
                &&& parsed matches Ok(characteristics)
                &&& characteristics@.len() == list_entries(pdu@).len()
                &&& forall|i: int|
                    0 <= i < characteristics@.len() ==> describes_characteristic(
                        list_entries(pdu@)[i],
                        #[trigger] characteristics@[i],
                    )
            },
        },
{
    check_error(pdu)?;
    if first_byte(pdu) != att_op::READ_BY_TYPE_RESPONSE || pdu.len() < 2 {
        return Err(
            AttError::Unexpected { got: first_byte(pdu), expected: att_op::READ_BY_TYPE_RESPONSE },
        );
    }
    let entry_len = pdu[1] as usize;
    // handle(2) properties(1) value_handle(2) uuid(2 or 16)
    if entry_len < 7 {
        return Err(AttError::Malformed("characteristic response"));
    }
    let mut characteristics: Vec<Characteristic> = Vec::new();
    let mut at: usize = 2;
    let ghost mut done: Seq<Seq<u8>> = Seq::empty();
    while pdu.len() - at >= entry_len
        invariant
            2 <= at <= pdu@.len(),
            7 <= entry_len <= 255,
            entry_len == pdu@[1],
            entry_len - 5 == 2 || entry_len - 5 == 16 || at == 2,
            done + records(pdu@.skip(at as int), entry_len as nat) =~= list_entries(pdu@),
            done.len() == characteristics@.len(),
            reported_error(pdu@) is None,
            opcode_of(pdu@) == att_op::READ_BY_TYPE_RESPONSE,
            forall|i: int|
                0 <= i < characteristics@.len() ==> describes_characteristic(
                    done[i],
                    #[trigger] characteristics@[i],
                ),
        decreases pdu@.len() - at,
    {
        let entry = range(pdu, at, at + entry_len);
        let uuid = match Uuid::parse(tail(entry, 5)) {
            Some(uuid) => uuid,
            None => return Err(AttError::Malformed("characteristic response")),
        };
        let characteristic = Characteristic {
            declaration_handle: read_u16(entry, 0),
            properties: entry[2],
            value_handle: read_u16(entry, 3),
            uuid,
        };
        proof {
            let rest = pdu@.skip(at as int);
            assert(entry@ =~= rest.take(entry_len as int));
            assert(rest.skip(entry_len as int) =~= pdu@.skip(at + entry_len));
            done = done.push(entry@);
        }
        characteristics.push(characteristic);
        at = at + entry_len;
    }
    assert(done =~= list_entries(pdu@));
    Ok(characteristics)
}

/// Extracts the value from a Read Response or Read Blob Response.
pub fn parse_read_response(pdu: &[u8]) -> (parsed: Result<Vec<u8>, AttError>)
    ensures
        match reported_error(pdu@) {
            Some(error) => parsed == Err::<Vec<u8>, AttError>(error),
            None => if opcode_of(pdu@) == att_op::READ_RESPONSE || opcode_of(pdu@)
                == att_op::READ_BLOB_RESPONSE {
                parsed matches Ok(value) && value@ == pdu@.skip(1)
            } else {
                parsed == Err::<Vec<u8>, AttError>(
                    AttError::Unexpected {
                        got: opcode_of(pdu@),
                        expected: att_op::READ_RESPONSE,
                    },
                )
            },
        },
{
    check_error(pdu)?;
    let opcode = first_byte(pdu);
    if opcode == att_op::READ_RESPONSE || opcode == att_op::READ_BLOB_RESPONSE {
        Ok(copy_bytes(tail(pdu, 1)))
    } else {
        Err(AttError::Unexpected { got: opcode, expected: att_op::READ_RESPONSE })
    }
}

/// The MTU both sides end up with: the smaller proposal, never below the
/// default.
pub open spec fn agreed_mtu(requested: u16, theirs: u16) -> u16 {
    let smaller = if requested <= theirs { requested } else { theirs };
    if smaller >= ATT_DEFAULT_MTU { smaller } else { ATT_DEFAULT_MTU }
}

/// Extracts the negotiated MTU, which is the smaller of the two proposals.
pub fn parse_mtu_response(pdu: &[u8], requested: u16) -> (parsed: Result<u16, AttError>)
    ensures
        match reported_error(pdu@) {
            Some(error) => parsed == Err::<u16, AttError>(error),
            None => if opcode_of(pdu@) != att_op::EXCHANGE_MTU_RESPONSE || pdu@.len() < 3 {
                parsed == Err::<u16, AttError>(AttError::Malformed("MTU response"))
            } else {
                parsed == Ok::<u16, AttError>(agreed_mtu(requested, u16_at(pdu@, 1)))
            },
        },
{
    check_error(pdu)?;
    if first_byte(pdu) != att_op::EXCHANGE_MTU_RESPONSE || pdu.len() < 3 {
        return Err(AttError::Malformed("MTU response"));
    }
    let theirs = read_u16(pdu, 1);
    let smaller = if requested <= theirs { requested } else { theirs };
    Ok(if smaller >= ATT_DEFAULT_MTU { smaller } else { ATT_DEFAULT_MTU })
}

/// The MTU a peer's answer leads to is the same whichever side proposed which
/// value.
pub proof fn agreed_mtu_is_symmetric(ours: u16, theirs: u16)
    ensures
        agreed_mtu(ours, theirs) == agreed_mtu(theirs, ours),
{
}

// ---- On the wire ----

/// The numbers the Bluetooth SIG assigned: a response is numbered one above its
/// request, and the channels of a link are 4, 5 and 6.
pub proof fn assigned_numbers()
    ensures
        att_op::ERROR_RESPONSE == 0x01,
        att_op::EXCHANGE_MTU_REQUEST == 0x02,
        att_op::EXCHANGE_MTU_RESPONSE == att_op::EXCHANGE_MTU_REQUEST + 1,
        att_op::FIND_INFORMATION_REQUEST == 0x04,
        att_op::FIND_INFORMATION_RESPONSE == att_op::FIND_INFORMATION_REQUEST + 1,
        att_op::READ_BY_TYPE_REQUEST == 0x08,
        att_op::READ_BY_TYPE_RESPONSE == att_op::READ_BY_TYPE_REQUEST + 1,
        att_op::READ_REQUEST == 0x0A,
        att_op::READ_RESPONSE == att_op::READ_REQUEST + 1,
        att_op::READ_BLOB_REQUEST == 0x0C,
        att_op::READ_BLOB_RESPONSE == att_op::READ_BLOB_REQUEST + 1,
        att_op::READ_BY_GROUP_TYPE_REQUEST == 0x10,
        att_op::READ_BY_GROUP_TYPE_RESPONSE == att_op::READ_BY_GROUP_TYPE_REQUEST + 1,
        att_op::WRITE_REQUEST == 0x12,
        att_op::WRITE_RESPONSE == att_op::WRITE_REQUEST + 1,
        att_op::HANDLE_VALUE_NOTIFICATION == 0x1B,
        att_op::HANDLE_VALUE_INDICATION == 0x1D,
        att_op::HANDLE_VALUE_CONFIRMATION == att_op::HANDLE_VALUE_INDICATION + 1,
        cid::ATT == 4 && cid::LE_SIGNALING == 5 && cid::SMP == 6,
        gatt_uuid::PRIMARY_SERVICE == 0x2800,
        gatt_uuid::CHARACTERISTIC == 0x2803,
        gatt_uuid::CLIENT_CHARACTERISTIC_CONFIG == 0x2902,
        ATT_DEFAULT_MTU == 23,
        ATT_PREFERRED_MTU == 517,
{
}

/// A frame is its length, its channel and its payload; an ACL packet is the handle
/// with the boundary in the two bits above it, the length and the data.
pub proof fn frames_and_packets_on_the_wire(
    handle: u16,
    boundary: u8,
    channel: u16,
    data: Seq<u8>,
)
    requires
        handle < 4096,
        boundary < 4,
        data.len() <= 0xFFFF,
    ensures
        ({
            let n = data.len() as u16;
            &&& l2cap_frame(channel, data) == seq![
                (n % 256) as u8,
                (n / 256) as u8,
                (channel % 256) as u8,
                (channel / 256) as u8,
            ] + data
            &&& acl_packet(handle, boundary, data) == seq![
                (handle % 256) as u8,
                (handle / 256 + 16 * boundary) as u8,
                (n % 256) as u8,
                (n / 256) as u8,
            ] + data
        }),
{
    let n = data.len() as u16;
    assert(l2cap_frame(channel, data) =~= seq![
        (n % 256) as u8,
        (n / 256) as u8,
        (channel % 256) as u8,
        (channel / 256) as u8,
    ] + data);
    assert(acl_packet(handle, boundary, data) =~= seq![
        (handle % 256) as u8,
        (handle / 256 + 16 * boundary) as u8,
        (n % 256) as u8,
        (n / 256) as u8,
    ] + data);
}

/// What the packets carry together.
pub open spec fn carried(packets: Seq<Seq<u8>>) -> Seq<u8>
    decreases packets.len(),
{
    if packets.len() == 0 {
        Seq::empty()
    } else {
        packets[0].skip(4) + carried(packets.skip(1))
    }
}

/// A frame is cut, never changed: no packet carries more than the limit, together
/// they carry the frame, and only the first starts it.
#[verifier::rlimit(60)]
pub proof fn a_frame_is_cut_and_not_changed(
    handle: u16,
    boundary: u8,
    frame: Seq<u8>,
    limit: nat,
)
    requires
        boundary < 4,
        0 < limit <= 0xFFFF,
    ensures
        ({
            let packets = acl_packets(handle, boundary, frame, limit);
            &&& carried(packets) == frame
            &&& forall|i: int|
                0 <= i < packets.len() ==> {
                    &&& 4 < (#[trigger] packets[i]).len() <= 4 + limit
                    &&& boundary_of(packets[i]) == if i == 0 {
                        boundary
                    } else {
                        1u8
                    }
                    &&& u16_at(packets[i], 0) % 4096 == handle % 4096
                }
        }),
    decreases frame.len(),
{
    let packets = acl_packets(handle, boundary, frame, limit);
    if frame.len() == 0 {
    } else if frame.len() <= limit {
        lemma_acl_packet_reads_back(handle, boundary, frame);
        assert(packets[0].skip(4) =~= frame);
        assert(packets.skip(1) =~= Seq::<Seq<u8>>::empty());
        reveal_with_fuel(carried, 2);
        assert(carried(packets) =~= frame);
        lemma_header_reads_back(handle, boundary, frame);
    } else {
        let head = frame.take(limit as int);
        let rest = frame.skip(limit as int);
        let later = acl_packets(handle, PB_CONTINUING, rest, limit);
        a_frame_is_cut_and_not_changed(handle, PB_CONTINUING, rest, limit);
        lemma_acl_packet_reads_back(handle, boundary, head);
        lemma_header_reads_back(handle, boundary, head);
        assert(packets[0].skip(4) =~= head);
        assert(packets.skip(1) =~= later);
        assert(carried(packets) =~= head + carried(later));
        assert(head + rest =~= frame);
        assert forall|i: int| 0 <= i < packets.len() implies {
            &&& 4 < (#[trigger] packets[i]).len() <= 4 + limit
            &&& boundary_of(packets[i]) == if i == 0 {
                boundary
            } else {
                1u8
            }
            &&& u16_at(packets[i], 0) % 4096 == handle % 4096
        } by {
            if i > 0 {
                assert(packets[i] == later[i - 1]);
            }
        }
    }
}

proof fn lemma_header_reads_back(handle: u16, boundary: u8, data: Seq<u8>)
    requires
        boundary < 4,
    ensures
        u16_at(acl_packet(handle, boundary, data), 0) % 4096 == handle % 4096,
{
    let header = (handle % 4096 + 4096 * boundary) as u16;
    let packet = acl_packet(handle, boundary, data);
    assert(packet[0] == le16(header)[0] && packet[1] == le16(header)[1]);
    lemma_u16_round_trip(header);
    assert(u16_at(packet, 0) == header);
}

/// A request that searches or names an attribute this side does not have is
/// answered with an error that repeats the request's opcode and first handle: not
/// found for a search, an invalid handle for a name. What needs no answer gets
/// none.
#[verifier::rlimit(60)]
pub proof fn every_request_gets_its_answer(opcode: u8, handle: u16, more: Seq<u8>)
    ensures
        ({
            let answer = absence_answer(
                seq![opcode, (handle % 256) as u8, (handle / 256) as u8] + more,
            );
            let said = |named: u16, code: u8|
                seq![1u8, opcode, (named % 256) as u8, (named / 256) as u8, code];
            &&& opcode == 0x04 || opcode == 0x06 || opcode == 0x08 || opcode == 0x10 ==> answer
                == Some(said(handle, 10))
            &&& opcode == 0x0A || opcode == 0x0C || opcode == 0x0E || opcode == 0x12 || opcode
                == 0x16 || opcode == 0x20 ==> answer == Some(said(handle, 1))
            &&& opcode == 0x18 ==> answer == Some(said(0, 6))
            &&& !(opcode == 0x04 || opcode == 0x06 || opcode == 0x08 || opcode == 0x10 || opcode
                == 0x0A || opcode == 0x0C || opcode == 0x0E || opcode == 0x12 || opcode == 0x16
                || opcode == 0x20 || opcode == 0x18) ==> answer is None
        }),
{
    let pdu = seq![opcode, (handle % 256) as u8, (handle / 256) as u8] + more;
    assert(pdu[0] == opcode);
    assert(pdu[1] == (handle % 256) as u8 && pdu[2] == (handle / 256) as u8);
    assert(u16_at(pdu, 1) == handle);
    assert(error_pdu(opcode, handle, 10) =~= seq![
        1u8,
        opcode,
        (handle % 256) as u8,
        (handle / 256) as u8,
        10,
    ]);
    assert(error_pdu(opcode, handle, 1) =~= seq![
        1u8,
        opcode,
        (handle % 256) as u8,
        (handle / 256) as u8,
        1,
    ]);
    assert(error_pdu(opcode, 0, 6) =~= seq![1u8, opcode, 0, 0, 6]);
}

/// A reported error names the attribute it is about and why; nothing that does not
/// start as an error is one.
pub proof fn an_error_names_its_attribute(request: u8, handle: u16, code: u8, more: Seq<u8>)
    ensures
        reported_error(
            seq![1u8, request, (handle % 256) as u8, (handle / 256) as u8, code] + more,
        ) == Some(AttError::Protocol { code, handle }),
        forall|pdu: Seq<u8>|
            pdu.len() == 0 || pdu[0] != 1 ==> #[trigger] reported_error(pdu) is None,
{
    let pdu = seq![1u8, request, (handle % 256) as u8, (handle / 256) as u8, code] + more;
    assert(pdu[0] == 1 && pdu[4] == code);
    assert(pdu[2] == (handle % 256) as u8 && pdu[3] == (handle / 256) as u8);
    assert(u16_at(pdu, 2) == handle);
}

/// An entry of a service list is its first handle, its last handle and its UUID;
/// one of a characteristic list is the declaration's handle, the properties, the
/// value's handle and the UUID.
pub proof fn entries_name_what_they_list(
    first: u16,
    second: u16,
    properties: u8,
    uuid: Uuid,
    service: ServiceRange,
    characteristic: Characteristic,
)
    ensures
        describes_service(
            seq![
                (first % 256) as u8,
                (first / 256) as u8,
                (second % 256) as u8,
                (second / 256) as u8,
            ] + uuid.wire(),
            service,
        ) <==> service.start_handle == first && service.end_handle == second && service.uuid.wire()
            == uuid.wire(),
        describes_characteristic(
            seq![
                (first % 256) as u8,
                (first / 256) as u8,
                properties,
                (second % 256) as u8,
                (second / 256) as u8,
            ] + uuid.wire(),
            characteristic,
        ) <==> characteristic.declaration_handle == first && characteristic.value_handle == second
            && characteristic.properties == properties && characteristic.uuid.wire() == uuid.wire(),
{
    let a = seq![
        (first % 256) as u8,
        (first / 256) as u8,
        (second % 256) as u8,
        (second / 256) as u8,
    ] + uuid.wire();
    let b = seq![
        (first % 256) as u8,
        (first / 256) as u8,
        properties,
        (second % 256) as u8,
        (second / 256) as u8,
    ] + uuid.wire();
    assert(a.skip(4) =~= uuid.wire());
    assert(b.skip(5) =~= uuid.wire());
    assert(a[0] == (first % 256) as u8 && a[1] == (first / 256) as u8);
    assert(a[2] == (second % 256) as u8 && a[3] == (second / 256) as u8);
    assert(b[0] == (first % 256) as u8 && b[1] == (first / 256) as u8);
    assert(b[2] == properties);
    assert(b[3] == (second % 256) as u8 && b[4] == (second / 256) as u8);
    assert(u16_at(a, 0) == first && u16_at(a, 2) == second);
    assert(u16_at(b, 0) == first && u16_at(b, 3) == second);
}

proof fn lemma_records(data: Seq<u8>, size: nat, i: int)
    requires
        0 < size,
        0 <= i,
        (i + 1) * size <= data.len(),
    ensures
        i < crate::bytes::records(data, size).len(),
        crate::bytes::records(data, size)[i] == data.subrange(i * size, (i + 1) * size),
    decreases data.len(),
{
    let rest = data.skip(size as int);
    vstd::arithmetic::mul::lemma_mul_is_distributive_add_other_way(size as int, i, 1);
    vstd::arithmetic::mul::lemma_mul_inequality(0, i, size as int);
    if i > 0 {
        vstd::arithmetic::mul::lemma_mul_is_distributive_add_other_way(size as int, i - 1, 1);
        lemma_records(rest, size, i - 1);
        assert(rest.subrange((i - 1) * size, i * size) =~= data.subrange(
            i * size,
            (i + 1) * size,
        ));
    } else {
        assert(data.take(size as int) =~= data.subrange(0, size as int));
    }
}

/// The entries of a list follow each other behind the byte that gives their
/// length, none of them lost.
pub proof fn a_list_is_read_entry_by_entry(opcode: u8, size: u8, data: Seq<u8>, i: int)
    requires
        0 < size,
        0 <= i,
        (i + 1) * size <= data.len(),
    ensures
        i < list_entries(seq![opcode, size] + data).len(),
        list_entries(seq![opcode, size] + data)[i] == data.subrange(i * size, (i + 1) * size),
{
    let pdu = seq![opcode, size] + data;
    assert(pdu.skip(2) =~= data);
    lemma_records(data, size as nat, i);
}

/// A list is taken when it is the expected one and its entries have room for a
/// short or a long UUID behind their fixed part.
pub proof fn a_list_is_taken_when_it_fits(
    expected: u8,
    other: u8,
    size: u8,
    data: Seq<u8>,
    fixed: int,
    what: &'static str,
)
    requires
        0 <= fixed <= 5,
        expected != 1,
        data.len() >= size,
    ensures
        list_error(seq![expected, size] + data, expected, fixed, what) is None <==> size == fixed
            + 2 || size == fixed + 16,
        other != expected && other != 1 ==> list_error(
            seq![other, size] + data,
            expected,
            fixed,
            what,
        ) == Some(AttError::Unexpected { got: other, expected }),
{
    let pdu = seq![expected, size] + data;
    assert(pdu[0] == expected && pdu[1] == size);
    assert((seq![other, size] + data)[0] == other);
}

/// A short UUID is itself, and a long one is short exactly when it is the Bluetooth
/// base UUID with sixteen bits filled in; those are then what it is short for.
pub proof fn a_long_uuid_is_short_on_the_base(bytes: [u8; 16], value: u16)
    ensures
        Uuid::Short(value).short() == Some(value),
        Uuid::Short(value).wire() == seq![(value % 256) as u8, (value / 256) as u8],
        Uuid::Long(bytes).wire() == bytes@,
        Uuid::Long(bytes).short() == Some(value) <==> bytes@ == seq![
            0xFBu8,
            0x34,
            0x9B,
            0x5F,
            0x80,
            0x00,
            0x00,
            0x80,
            0x00,
            0x10,
            0x00,
            0x00,
            (value % 256) as u8,
            (value / 256) as u8,
            0,
            0,
        ],
{
    let own = bytes@;
    let base = seq![
        0xFBu8,
        0x34,
        0x9B,
        0x5F,
        0x80,
        0x00,
        0x00,
        0x80,
        0x00,
        0x10,
        0x00,
        0x00,
        (value % 256) as u8,
        (value / 256) as u8,
        0,
        0,
    ];
    assert(Uuid::Short(value).wire() =~= seq![(value % 256) as u8, (value / 256) as u8]);
    if Uuid::Long(bytes).short() == Some(value) {
        assert(own.take(12) == base_suffix());
        assert forall|i: int| 0 <= i < 12 implies own[i] == base[i] by {
            assert(own.take(12)[i] == own[i]);
        }
        assert(own[12] == (value % 256) as u8 && own[13] == (value / 256) as u8);
        assert(own =~= base);
    }
    if own == base {
        assert(own.take(12) =~= base_suffix());
    }
}

/// The agreed MTU is the smaller of the two, and never less than every device
/// must take.
pub proof fn the_agreed_mtu_suits_both(ours: u16, theirs: u16)
    ensures
        ours >= 23 && theirs >= 23 ==> agreed_mtu(ours, theirs) <= ours && agreed_mtu(ours, theirs)
            <= theirs && (agreed_mtu(ours, theirs) == ours || agreed_mtu(ours, theirs) == theirs),
        ours < 23 || theirs < 23 ==> agreed_mtu(ours, theirs) == 23,
{
}

/// Whether a characteristic may be read, written or notifies is said by the second,
/// the fourth and the fifth bit of its properties.
pub proof fn properties_are_bits(characteristic: Characteristic)
    ensures
        characteristic.may_read() == (characteristic.properties / 2 % 2 == 1),
        characteristic.may_write() == (characteristic.properties / 8 % 2 == 1),
        characteristic.may_notify() == (characteristic.properties / 16 % 2 == 1),
{
    let bits = characteristic.properties;
    assert((bits & 0x02 != 0) == (bits / 2 % 2 == 1) && (bits & 0x08 != 0) == (bits / 8 % 2 == 1)
        && (bits & 0x10 != 0) == (bits / 16 % 2 == 1)) by (bit_vector);
}

/// Requests on the wire: the opcode and then, low byte first, the handles in
/// order, the type that is looked for, the offset or the value.
#[verifier::rlimit(60)]
pub proof fn requests_on_the_wire(first: u16, last: u16, kind: u16, value: Seq<u8>)
    ensures
        ({
            let lo = |n: u16| (n % 256) as u8;
            let hi = |n: u16| (n / 256) as u8;
            &&& group_request(first, last, kind) == seq![
                0x10u8,
                lo(first),
                hi(first),
                lo(last),
                hi(last),
                lo(kind),
                hi(kind),
            ]
            &&& type_request(first, last, kind) == seq![
                0x08u8,
                lo(first),
                hi(first),
                lo(last),
                hi(last),
                lo(kind),
                hi(kind),
            ]
            &&& blob_request(first, last) == seq![0x0Cu8, lo(first), hi(first), lo(last), hi(last)]
            &&& written(first, value) == seq![0x12u8, lo(first), hi(first)] + value
        }),
{
    let lo = |n: u16| (n % 256) as u8;
    let hi = |n: u16| (n / 256) as u8;
    assert(group_request(first, last, kind) =~= seq![
        0x10u8,
        lo(first),
        hi(first),
        lo(last),
        hi(last),
        lo(kind),
        hi(kind),
    ]);
    assert(type_request(first, last, kind) =~= seq![
        0x08u8,
        lo(first),
        hi(first),
        lo(last),
        hi(last),
        lo(kind),
        hi(kind),
    ]);
    assert(blob_request(first, last) =~= seq![
        0x0Cu8,
        lo(first),
        hi(first),
        lo(last),
        hi(last),
    ]);
    assert(written(first, value) =~= seq![0x12u8, lo(first), hi(first)] + value);
}

} // verus!
