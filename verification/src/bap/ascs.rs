//! ASCS control point operations.

use crate::bap::{CodecConfiguration, QosConfiguration};
use crate::bytes::{le16, le24, push_bytes, push_u16, push_u24, tail, views};
use vstd::prelude::*;

verus! {

pub const OP_CONFIG_CODEC: u8 = 0x01;

pub const OP_CONFIG_QOS: u8 = 0x02;

pub const OP_ENABLE: u8 = 0x03;

pub const OP_RECEIVER_START_READY: u8 = 0x04;

pub const OP_DISABLE: u8 = 0x05;

pub const OP_RELEASE: u8 = 0x08;

/// Target latency hint sent with Config Codec.
pub const LATENCY_LOW: u8 = 0x01;

pub const LATENCY_BALANCED: u8 = 0x02;

pub const LATENCY_HIGH_RELIABILITY: u8 = 0x03;

/// Audio context values used in Enable metadata.
pub const CONTEXT_MEDIA: u16 = 0x0004;

pub const CONTEXT_GAME: u16 = 0x0008;

pub const CONTEXT_CONVERSATIONAL: u16 = 0x0002;

/// How many ASEs the operations with `opcode` name in all.
pub open spec fn named_ases(operations: Seq<Seq<u8>>, opcode: u8) -> int
    decreases operations.len(),
{
    if operations.len() == 0 {
        0
    } else {
        let last = operations.last();
        named_ases(operations.drop_last(), opcode) + if last.len() >= 2 && last[0] == opcode {
            last[1] as int
        } else {
            0
        }
    }
}

/// What the operations with `opcode` say about their ASEs, one after the other.
pub open spec fn ase_bodies(operations: Seq<Seq<u8>>, opcode: u8) -> Seq<u8>
    decreases operations.len(),
{
    if operations.len() == 0 {
        Seq::empty()
    } else {
        let last = operations.last();
        ase_bodies(operations.drop_last(), opcode) + if last.len() >= 2 && last[0] == opcode {
            last.skip(2)
        } else {
            Seq::empty()
        }
    }
}

/// One PDU for all operations that have the opcode of the first: the ASE
/// counts added up, at most 255, and the bodies in order.
pub open spec fn batched(operations: Seq<Seq<u8>>) -> Seq<u8> {
    if operations.len() == 0 {
        Seq::empty()
    } else {
        let opcode = operations[0][0];
        let count = named_ases(operations, opcode);
        seq![opcode, (if count < 255 { count } else { 255 }) as u8] + ase_bodies(
            operations,
            opcode,
        )
    }
}

/// Combines operations with the same opcode into one ASCS Control Point PDU.
///
/// ASCS operations carry a Number_of_ASEs byte precisely so a stereo pair
/// can be changed atomically. Windows uses that form for these headphones.
/// Sending one write per ASE lets the first endpoint advance while the
/// second is still in the previous state, which some firmware resolves by
/// rendering the one live stream into both ears.
pub fn batch(operations: &[Vec<u8>]) -> (pdu: Vec<u8>)
    requires
        operations@.len() > 0 ==> operations@[0]@.len() > 0,
    ensures
        pdu@ == batched(views(operations@)),
{
    let ghost all = views(operations@);
    if operations.len() == 0 {
        let none: Vec<u8> = Vec::new();
        assert(none@ =~= batched(all));
        return none;
    }
    let opcode = operations[0][0];
    let mut count: u16 = 0;
    let mut body: Vec<u8> = Vec::new();
    let mut i: usize = 0;
    assert(all.take(0) =~= Seq::<Seq<u8>>::empty());
    assert(body@ =~= ase_bodies(all.take(0), opcode));
    while i < operations.len()
        invariant
            i <= operations@.len(),
            all == views(operations@),
            count == if named_ases(all.take(i as int), opcode) < 255 {
                named_ases(all.take(i as int), opcode)
            } else {
                255
            },
            named_ases(all.take(i as int), opcode) >= 0,
            body@ == ase_bodies(all.take(i as int), opcode),
        decreases operations@.len() - i,
    {
        let operation: &[u8] = &operations[i];
        proof {
            assert(all.take(i + 1).drop_last() =~= all.take(i as int));
            assert(all.take(i + 1).last() == operation@);
        }
        if operation.len() >= 2 && operation[0] == opcode {
            count = count + operation[1] as u16;
            if count > 255 {
                count = 255;
            }
            push_bytes(&mut body, tail(operation, 2));
        }
        assert(body@ =~= ase_bodies(all.take(i + 1), opcode));
        i = i + 1;
    }
    assert(all.take(i as int) =~= all);
    let mut pdu: Vec<u8> = vec![opcode, count as u8];
    push_bytes(&mut pdu, &body);
    assert(pdu@ =~= batched(all));
    pdu
}

/// A stereo pair travels in one PDU: two operations with the same opcode become
/// one that names the ASEs of both and carries both bodies, first to last.
pub proof fn a_pair_is_batched_whole(first: Seq<u8>, second: Seq<u8>)
    requires
        first.len() >= 2,
        second.len() >= 2,
        first[0] == second[0],
        first[1] + second[1] <= 255,
    ensures
        batched(seq![first, second]) == seq![first[0], (first[1] + second[1]) as u8] + first.skip(2)
            + second.skip(2),
{
    let pair = seq![first, second];
    assert(pair.drop_last() =~= seq![first]);
    assert(seq![first].drop_last() =~= Seq::<Seq<u8>>::empty());
    reveal_with_fuel(named_ases, 3);
    reveal_with_fuel(ase_bodies, 3);
    assert(batched(pair) =~= seq![first[0], (first[1] + second[1]) as u8] + first.skip(2)
        + second.skip(2));
}

/// Config Codec for one ASE: the latency and PHY targets, LC3 without vendor
/// fields, the configuration with its length.
pub open spec fn config_codec_pdu(
    ase_id: u8,
    target_latency: u8,
    target_phy: u8,
    config: CodecConfiguration,
) -> Seq<u8> {
    seq![OP_CONFIG_CODEC, 0x01, ase_id, target_latency, target_phy] + seq![
        0x06u8,
        0x00,
        0x00,
        0x00,
        0x00,
    ] + seq![config.encoding().len() as u8] + config.encoding()
}

/// Config QoS for one ASE, in the order of the fields of the profile.
pub open spec fn config_qos_pdu(
    ase_id: u8,
    cig_id: u8,
    cis_id: u8,
    qos: QosConfiguration,
) -> Seq<u8> {
    seq![OP_CONFIG_QOS, 0x01, ase_id, cig_id, cis_id] + le24(qos.sdu_interval_us) + seq![
        qos.framing,
        qos.phy,
    ] + le16(qos.max_sdu) + seq![qos.retransmission_number] + le16(qos.max_transport_latency_ms)
        + le24(qos.presentation_delay_us)
}

/// The operation that enables an endpoint for a context.
pub open spec fn enable_pdu(ase_id: u8, context: u16) -> Seq<u8> {
    seq![OP_ENABLE, 0x01, ase_id, 0x04, 0x03, 0x02] + le16(context)
}

/// Builds Config Codec: the operation that sets LC3 bitrate and sample rate.
pub fn config_codec(ase_id: u8, target_latency: u8, config: &CodecConfiguration) -> (pdu: Vec<u8>)
    ensures
        pdu@ == config_codec_pdu(ase_id, target_latency, 0x02, *config),
{
    config_codec_on_phy(ase_id, target_latency, 0x02, config)
}

/// Builds Config Codec with a chosen PHY target.
pub fn config_codec_on_phy(
    ase_id: u8,
    target_latency: u8,
    target_phy: u8,
    config: &CodecConfiguration,
) -> (pdu: Vec<u8>)
    ensures
        pdu@ == config_codec_pdu(ase_id, target_latency, target_phy, *config),
{
    let specific = config.encode();
    let mut pdu: Vec<u8> = vec![OP_CONFIG_CODEC, 0x01, ase_id, target_latency, target_phy];
    // Codec ID: LC3, no vendor fields.
    pdu.push(0x06);
    pdu.push(0x00);
    pdu.push(0x00);
    pdu.push(0x00);
    pdu.push(0x00);
    proof {
        config.lemma_encoding_len();
    }
    pdu.push(specific.len() as u8);
    push_bytes(&mut pdu, &specific);
    assert(pdu@ =~= config_codec_pdu(ase_id, target_latency, target_phy, *config));
    pdu
}

/// Builds Config QoS: retransmissions, transport latency, presentation delay.
pub fn config_qos(ase_id: u8, cig_id: u8, cis_id: u8, qos: &QosConfiguration) -> (pdu: Vec<u8>)
    ensures
        pdu@ == config_qos_pdu(ase_id, cig_id, cis_id, *qos),
{
    let mut pdu: Vec<u8> = vec![OP_CONFIG_QOS, 0x01, ase_id, cig_id, cis_id];
    push_u24(&mut pdu, qos.sdu_interval_us);
    pdu.push(qos.framing);
    pdu.push(qos.phy);
    push_u16(&mut pdu, qos.max_sdu);
    pdu.push(qos.retransmission_number);
    push_u16(&mut pdu, qos.max_transport_latency_ms);
    push_u24(&mut pdu, qos.presentation_delay_us);
    assert(pdu@ =~= config_qos_pdu(ase_id, cig_id, cis_id, *qos));
    pdu
}

/// Builds Enable with the streaming context metadata.
pub fn enable(ase_id: u8, context: u16) -> (pdu: Vec<u8>)
    ensures
        pdu@ == enable_pdu(ase_id, context),
{
    // Metadata: one LTV, Streaming_Audio_Contexts.
    let mut pdu: Vec<u8> = vec![OP_ENABLE, 0x01, ase_id, 0x04, 0x03, 0x02];
    push_u16(&mut pdu, context);
    pdu
}

/// Tells a Source ASE that this client is ready to receive its audio.
///
/// This must not be sent for the Sink ASEs used for playback: there the
/// client is the Audio Source and the server in the headphones performs the
/// transition autonomously.
pub fn receiver_start_ready(ase_id: u8) -> (pdu: Vec<u8>)
    ensures
        pdu@ == seq![OP_RECEIVER_START_READY, 0x01, ase_id],
{
    vec![OP_RECEIVER_START_READY, 0x01, ase_id]
}

pub fn release(ase_id: u8) -> (pdu: Vec<u8>)
    ensures
        pdu@ == seq![OP_RELEASE, 0x01, ase_id],
{
    vec![OP_RELEASE, 0x01, ase_id]
}

/// The numbers the Bluetooth SIG assigned to the operations, the latencies and the
/// contexts.
pub proof fn assigned_numbers()
    ensures
        OP_CONFIG_CODEC == 1,
        OP_CONFIG_QOS == 2,
        OP_ENABLE == 3,
        OP_RECEIVER_START_READY == 4,
        OP_DISABLE == 5,
        OP_RELEASE == 8,
        LATENCY_LOW == 1,
        LATENCY_BALANCED == 2,
        LATENCY_HIGH_RELIABILITY == 3,
        CONTEXT_CONVERSATIONAL == 0x0002,
        CONTEXT_MEDIA == 0x0004,
        CONTEXT_GAME == 0x0008,
{
}

/// Operations on the wire. The codec: which endpoint, the latency aimed at, the
/// PHY, LC3 and the configuration behind its length. The QoS: which endpoint, group
/// and channel, the interval, framing, PHY, SDU, retransmissions, transport latency
/// and presentation delay. Enabling names the context the stream is for.
#[verifier::rlimit(60)]
pub proof fn operations_on_the_wire(
    ase: u8,
    latency: u8,
    phy: u8,
    config: CodecConfiguration,
    cig: u8,
    cis: u8,
    qos: QosConfiguration,
    context: u16,
)
    requires
        qos.sdu_interval_us < 0x100_0000,
        qos.presentation_delay_us < 0x100_0000,
    ensures
        config_codec_pdu(ase, latency, phy, config) == seq![
            1u8,
            1,
            ase,
            latency,
            phy,
            6,
            0,
            0,
            0,
            0,
            config.encoding().len() as u8,
        ] + config.encoding(),
        config_qos_pdu(ase, cig, cis, qos) == seq![
            2u8,
            1,
            ase,
            cig,
            cis,
            (qos.sdu_interval_us % 256) as u8,
            (qos.sdu_interval_us / 256 % 256) as u8,
            (qos.sdu_interval_us / 65536) as u8,
            qos.framing,
            qos.phy,
            (qos.max_sdu % 256) as u8,
            (qos.max_sdu / 256) as u8,
            qos.retransmission_number,
            (qos.max_transport_latency_ms % 256) as u8,
            (qos.max_transport_latency_ms / 256) as u8,
            (qos.presentation_delay_us % 256) as u8,
            (qos.presentation_delay_us / 256 % 256) as u8,
            (qos.presentation_delay_us / 65536) as u8,
        ],
        enable_pdu(ase, context) == seq![
            3u8,
            1,
            ase,
            4,
            3,
            2,
            (context % 256) as u8,
            (context / 256) as u8,
        ],
{
    assert(config_codec_pdu(ase, latency, phy, config) =~= seq![
        1u8,
        1,
        ase,
        latency,
        phy,
        6,
        0,
        0,
        0,
        0,
        config.encoding().len() as u8,
    ] + config.encoding());
    assert(config_qos_pdu(ase, cig, cis, qos) =~= seq![
        2u8,
        1,
        ase,
        cig,
        cis,
        (qos.sdu_interval_us % 256) as u8,
        (qos.sdu_interval_us / 256 % 256) as u8,
        (qos.sdu_interval_us / 65536) as u8,
        qos.framing,
        qos.phy,
        (qos.max_sdu % 256) as u8,
        (qos.max_sdu / 256) as u8,
        qos.retransmission_number,
        (qos.max_transport_latency_ms % 256) as u8,
        (qos.max_transport_latency_ms / 256) as u8,
        (qos.presentation_delay_us % 256) as u8,
        (qos.presentation_delay_us / 256 % 256) as u8,
        (qos.presentation_delay_us / 65536) as u8,
    ]);
    assert(enable_pdu(ase, context) =~= seq![
        3u8,
        1,
        ase,
        4,
        3,
        2,
        (context % 256) as u8,
        (context / 256) as u8,
    ]);
}

/// Batching loses no endpoint: one more operation of the same kind adds the
/// endpoints it names and what it says of them at the end, and leaves everything
/// before it as it was. An operation of another kind adds nothing.
pub proof fn a_batch_grows_at_its_end(operations: Seq<Seq<u8>>, next: Seq<u8>)
    requires
        operations.len() > 0,
        operations[0].len() >= 2,
        next.len() >= 2,
        named_ases(operations, operations[0][0]) + next[1] <= 255,
    ensures
        ({
            let before = batched(operations);
            let after = batched(operations.push(next));
            &&& after[0] == operations[0][0]
            &&& next[0] == operations[0][0] ==> after[1] == before[1] + next[1] && after.skip(2)
                == before.skip(2) + next.skip(2)
            &&& next[0] != operations[0][0] ==> after == before
        }),
        batched(seq![next]) == next,
{
    let all = operations.push(next);
    let opcode = operations[0][0];
    assert(all.drop_last() =~= operations);
    assert(all[0] == operations[0]);
    let before = batched(operations);
    let after = batched(all);
    lemma_named_ases(operations, opcode);
    assert(before.skip(2) =~= ase_bodies(operations, opcode));
    assert(after.skip(2) =~= ase_bodies(all, opcode));
    if next[0] != opcode {
        assert(ase_bodies(all, opcode) =~= ase_bodies(operations, opcode));
    }
    let one = seq![next];
    assert(one.drop_last() =~= Seq::<Seq<u8>>::empty());
    reveal_with_fuel(named_ases, 2);
    reveal_with_fuel(ase_bodies, 2);
    assert(batched(one) =~= next);
}

proof fn lemma_named_ases(operations: Seq<Seq<u8>>, opcode: u8)
    ensures
        named_ases(operations, opcode) >= 0,
    decreases operations.len(),
{
    if operations.len() > 0 {
        lemma_named_ases(operations.drop_last(), opcode);
    }
}

} // verus!
