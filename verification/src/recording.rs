//! A plain 16-bit stereo recording that any player can open.

use crate::bytes::{le16, le32, push_bytes, push_u16, push_u32, u16_at, u32_at};
use vstd::prelude::*;

verus! {

/// The rate of a recording, in Hz.
pub const RATE: u32 = 48_000;

/// The bytes of some samples, least significant byte first.
pub open spec fn sample_bytes(samples: Seq<i16>) -> Seq<u8>
    decreases samples.len(),
{
    if samples.len() == 0 {
        Seq::empty()
    } else {
        sample_bytes(samples.drop_last()) + le16(samples.last() as u16)
    }
}

/// The tag that opens a RIFF file.
pub open spec fn riff() -> Seq<u8> {
    seq![0x52u8, 0x49, 0x46, 0x46]
}

/// The form of the file and the tag of its format chunk.
pub open spec fn wave_format() -> Seq<u8> {
    seq![0x57u8, 0x41, 0x56, 0x45, 0x66, 0x6D, 0x74, 0x20]
}

/// The tag of the sample chunk.
pub open spec fn data_tag() -> Seq<u8> {
    seq![0x64u8, 0x61, 0x74, 0x61]
}

/// The start of a file with so many bytes of samples: its tags and the length of
/// the rest of it.
pub open spec fn opening(data_bytes: u32) -> Seq<u8> {
    riff() + le32((36 + data_bytes) as u32) + wave_format()
}

/// PCM in two channels of sixteen bits: the length of the description, the
/// coding, the channels, the rate, the bytes in a second, in a pair of samples,
/// and the bits in a sample.
pub open spec fn format_chunk() -> Seq<u8> {
    le32(16) + le16(1) + le16(2) + le32(RATE) + le32(192_000) + le16(4) + le16(16)
}

/// What stands in front of so many bytes of samples.
pub open spec fn header(data_bytes: u32) -> Seq<u8> {
    opening(data_bytes) + format_chunk() + data_tag() + le32(data_bytes)
}

/// The file that holds some interleaved samples.
pub fn wav_bytes(samples: &[i16]) -> (file: Vec<u8>)
    requires
        36 + 2 * samples@.len() <= u32::MAX,
    ensures
        file@ == header((2 * samples@.len()) as u32) + sample_bytes(samples@),
{
    let data_bytes: u32 = 2 * (samples.len() as u32);
    let mut file: Vec<u8> = Vec::new();
    let tag: [u8; 4] = [0x52, 0x49, 0x46, 0x46];
    let form: [u8; 8] = [0x57, 0x41, 0x56, 0x45, 0x66, 0x6D, 0x74, 0x20];
    let chunk: [u8; 4] = [0x64, 0x61, 0x74, 0x61];
    assert(tag@ =~= riff());
    assert(form@ =~= wave_format());
    assert(chunk@ =~= data_tag());
    push_bytes(&mut file, &tag);
    push_u32(&mut file, 36 + data_bytes);
    push_bytes(&mut file, &form);
    push_u32(&mut file, 16);
    push_u16(&mut file, 1);
    push_u16(&mut file, 2);
    push_u32(&mut file, RATE);
    push_u32(&mut file, 192_000);
    push_u16(&mut file, 4);
    push_u16(&mut file, 16);
    push_bytes(&mut file, &chunk);
    push_u32(&mut file, data_bytes);
    let ghost head = header(data_bytes);
    assert(file@ =~= head);
    let mut i: usize = 0;
    assert(samples@.take(0) =~= Seq::<i16>::empty());
    assert(head + sample_bytes(samples@.take(0)) =~= head);
    while i < samples.len()
        invariant
            i <= samples@.len(),
            file@ == head + sample_bytes(samples@.take(i as int)),
        decreases samples@.len() - i,
    {
        assert(samples@.take(i + 1).drop_last() =~= samples@.take(i as int));
        push_u16(&mut file, samples[i] as u16);
        assert(file@ =~= head + sample_bytes(samples@.take(i + 1)));
        i = i + 1;
    }
    assert(samples@.take(i as int) =~= samples@);
    file
}

proof fn lemma_sample_place(samples: Seq<i16>, i: int)
    requires
        0 <= i < samples.len(),
    ensures
        sample_bytes(samples).len() == 2 * samples.len(),
        u16_at(sample_bytes(samples), 2 * i) == samples[i] as u16,
    decreases samples.len(),
{
    let before = sample_bytes(samples.drop_last());
    if samples.len() > 1 {
        lemma_sample_place(samples.drop_last(), if i < samples.len() - 1 {
            i
        } else {
            0
        });
    }
    assert(before.len() == 2 * (samples.len() - 1));
    if i < samples.len() - 1 {
        assert(sample_bytes(samples)[2 * i] == before[2 * i]);
        assert(sample_bytes(samples)[2 * i + 1] == before[2 * i + 1]);
    } else {
        assert(sample_bytes(samples)[2 * i] == le16(samples[i] as u16)[0]);
        assert(sample_bytes(samples)[2 * i + 1] == le16(samples[i] as u16)[1]);
    }
}

proof fn lemma_lengths(data_bytes: u32)
    ensures
        opening(data_bytes).len() == 16,
        format_chunk().len() == 20,
        data_tag().len() == 4,
{
}

proof fn lemma_header(data_bytes: u32)
    requires
        36 + data_bytes <= u32::MAX,
    ensures
        header(data_bytes).len() == 44,
        u32_at(header(data_bytes), 40) == data_bytes,
{
    lemma_lengths(data_bytes);
    crate::bytes::lemma_u32_round_trip(data_bytes);
    let front = opening(data_bytes) + format_chunk() + data_tag();
    lemma_behind(front, le32(data_bytes), 0);
}

proof fn lemma_behind(head: Seq<u8>, body: Seq<u8>, at: int)
    requires
        0 <= at,
        at + 2 <= body.len(),
    ensures
        (head + body).len() == head.len() + body.len(),
        u16_at(head + body, head.len() + at) == u16_at(body, at),
        at + 4 <= body.len() ==> u32_at(head + body, head.len() + at) == u32_at(body, at),
        head.len() == 44 ==> u32_at(head + body, 40) == u32_at(head, 40),
{
    let all = head + body;
    assert(all[head.len() + at] == body[at]);
    assert(all[head.len() + at + 1] == body[at + 1]);
    if at + 4 <= body.len() {
        assert(all[head.len() + at + 2] == body[at + 2]);
        assert(all[head.len() + at + 3] == body[at + 3]);
    }
}

/// Every sample can be read back from its place behind the header, and the
/// header says how many bytes of samples there are.
pub proof fn a_recording_reads_back(samples: Seq<i16>, i: int)
    requires
        36 + 2 * samples.len() <= u32::MAX,
        0 <= i < samples.len(),
    ensures
        ({
            let file = header((2 * samples.len()) as u32) + sample_bytes(samples);
            &&& file.len() == 44 + 2 * samples.len()
            &&& u32_at(file, 40) == 2 * samples.len()
            &&& u16_at(file, 44 + 2 * i) == samples[i] as u16
        }),
{
    let count = (2 * samples.len()) as u32;
    lemma_sample_place(samples, i);
    lemma_header(count);
    lemma_behind(header(count), sample_bytes(samples), 2 * i);
}

/// A recording starts as every player expects: a RIFF file of the length that
/// follows, holding one WAVE of uncompressed stereo at 48 kHz and sixteen bits, and
/// the length of its samples.
#[verifier::rlimit(60)]
pub proof fn a_recording_starts_as_a_wave_file(data_bytes: u32)
    requires
        36 + data_bytes <= u32::MAX,
    ensures
        ({
            let whole = (36 + data_bytes) as u32;
            header(data_bytes) == seq![
                0x52u8,
                0x49,
                0x46,
                0x46,
                (whole % 256) as u8,
                (whole / 256 % 256) as u8,
                (whole / 65536 % 256) as u8,
                (whole / 16777216) as u8,
                0x57,
                0x41,
                0x56,
                0x45,
                0x66,
                0x6D,
                0x74,
                0x20,
                16,
                0,
                0,
                0,
                1,
                0,
                2,
                0,
                0x80,
                0xBB,
                0,
                0,
                0x00,
                0xEE,
                0x02,
                0,
                4,
                0,
                16,
                0,
                0x64,
                0x61,
                0x74,
                0x61,
                (data_bytes % 256) as u8,
                (data_bytes / 256 % 256) as u8,
                (data_bytes / 65536 % 256) as u8,
                (data_bytes / 16777216) as u8,
            ]
        }),
{
    let whole = (36 + data_bytes) as u32;
    let want = seq![
        0x52u8,
        0x49,
        0x46,
        0x46,
        (whole % 256) as u8,
        (whole / 256 % 256) as u8,
        (whole / 65536 % 256) as u8,
        (whole / 16777216) as u8,
        0x57,
        0x41,
        0x56,
        0x45,
        0x66,
        0x6D,
        0x74,
        0x20,
        16,
        0,
        0,
        0,
        1,
        0,
        2,
        0,
        0x80,
        0xBB,
        0,
        0,
        0x00,
        0xEE,
        0x02,
        0,
        4,
        0,
        16,
        0,
        0x64,
        0x61,
        0x74,
        0x61,
        (data_bytes % 256) as u8,
        (data_bytes / 256 % 256) as u8,
        (data_bytes / 65536 % 256) as u8,
        (data_bytes / 16777216) as u8,
    ];
    assert(header(data_bytes) =~= want);
}

} // verus!
