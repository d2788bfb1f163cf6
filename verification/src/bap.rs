//! Basic Audio Profile: what the headphones can do, and what we tell them to do.
//!
//! This is the layer the whole project exists for. PACS says which LC3
//! configurations a device accepts; ASCS is where we pick one. Every parameter
//! the Microsoft driver decides silently is an explicit choice here.

pub mod ascs;
pub mod ase;

use crate::bytes::{
    copy_bytes, le16, le32, push_bytes, push_u16, push_u32, range, read_u16, tail, u16_at,
};
use crate::text::{decimal, push_decimal};
use vstd::prelude::*;
use vstd::string::*;

verus! {

/// Type-Length-Value element, the encoding BAP uses throughout.
#[derive(Debug, PartialEq, Eq)]
pub struct Ltv {
    pub kind: u8,
    pub value: Vec<u8>,
}

impl Clone for Ltv {
    fn clone(&self) -> (copy: Self)
        ensures
            copy.item() == self.item(),
    {
        Ltv { kind: self.kind, value: copy_bytes(&self.value) }
    }
}

/// One element on the wire: length of kind and value, kind, value. The length
/// byte holds the low eight bits of the length.
pub open spec fn ltv_element(item: (u8, Seq<u8>)) -> Seq<u8> {
    seq![((item.1.len() + 1) % 256) as u8, item.0] + item.1
}

/// Several elements on the wire, one after the other.
pub open spec fn ltv_bytes(items: Seq<(u8, Seq<u8>)>) -> Seq<u8>
    decreases items.len(),
{
    if items.len() == 0 {
        Seq::empty()
    } else {
        ltv_element(items[0]) + ltv_bytes(items.skip(1))
    }
}

/// The elements in a buffer, up to the first that is empty or not all there.
pub open spec fn ltv_items(buffer: Seq<u8>) -> Seq<(u8, Seq<u8>)>
    decreases buffer.len(),
{
    if buffer.len() == 0 || buffer[0] == 0 || 1 + buffer[0] > buffer.len() {
        Seq::empty()
    } else {
        seq![(buffer[1], buffer.subrange(2, 1 + buffer[0]))] + ltv_items(
            buffer.skip(1 + buffer[0]),
        )
    }
}

impl Ltv {
    /// What an element says.
    pub open spec fn item(self) -> (u8, Seq<u8>) {
        (self.kind, self.value@)
    }

    /// What several elements say.
    pub open spec fn items(list: Seq<Ltv>) -> Seq<(u8, Seq<u8>)> {
        Seq::new(list.len(), |i: int| list[i].item())
    }

    pub fn new(kind: u8, value: Vec<u8>) -> (element: Self)
        ensures
            element.item() == (kind, value@),
    {
        Ltv { kind, value }
    }

    pub fn encode(items: &[Ltv]) -> (out: Vec<u8>)
        ensures
            out@ == ltv_bytes(Ltv::items(items@)),
    {
        let mut out: Vec<u8> = Vec::new();
        let mut i: usize = 0;
        let ghost all = Ltv::items(items@);
        assert(all.skip(0) =~= all);
        assert(out@ + ltv_bytes(all) =~= ltv_bytes(all));
        while i < items.len()
            invariant
                i <= items@.len(),
                all == Ltv::items(items@),
                out@ + ltv_bytes(all.skip(i as int)) == ltv_bytes(all),
            decreases items@.len() - i,
        {
            let item = &items[i];
            let ghost before = out@;
            let ghost rest = all.skip(i as int);
            let size: usize = item.value.len() % 256;
            out.push(((size + 1) % 256) as u8);
            out.push(item.kind);
            push_bytes(&mut out, &item.value);
            proof {
                assert((size + 1) % 256 == (item.value@.len() + 1) % 256);
                assert(rest[0] == item.item());
                assert(rest.skip(1) =~= all.skip(i + 1));
                assert(out@ =~= before + ltv_element(item.item()));
                assert(out@ + ltv_bytes(all.skip(i + 1)) =~= before + ltv_bytes(rest));
            }
            i = i + 1;
        }
        assert(all.skip(i as int) =~= Seq::<(u8, Seq<u8>)>::empty());
        assert(out@ =~= ltv_bytes(all));
        out
    }

    /// Walks a concatenated LTV buffer, stopping cleanly on a truncated tail.
    pub fn decode(buffer: &[u8]) -> (list: Vec<Ltv>)
        ensures
            Ltv::items(list@) == ltv_items(buffer@),
    {
        let mut list: Vec<Ltv> = Vec::new();
        let mut offset: usize = 0;
        assert(buffer@.skip(0) =~= buffer@);
        assert(Ltv::items(list@) + ltv_items(buffer@) =~= ltv_items(buffer@));
        while offset < buffer.len()
            invariant_except_break
                offset <= buffer@.len(),
                Ltv::items(list@) + ltv_items(buffer@.skip(offset as int)) == ltv_items(buffer@),
            ensures
                Ltv::items(list@) =~= ltv_items(buffer@),
            decreases buffer@.len() - offset,
        {
            let ghost rest = buffer@.skip(offset as int);
            let length = buffer[offset] as usize;
            if length == 0 || buffer.len() - offset - 1 < length {
                assert(ltv_items(rest) =~= Seq::<(u8, Seq<u8>)>::empty());
                assert(Ltv::items(list@) =~= ltv_items(buffer@));
                break;
            }
            let ghost before = Ltv::items(list@);
            let element = Ltv {
                kind: buffer[offset + 1],
                value: copy_bytes(range(buffer, offset + 2, offset + 1 + length)),
            };
            proof {
                assert(element.value@ =~= rest.subrange(2, 1 + rest[0]));
                assert(rest.skip(1 + rest[0]) =~= buffer@.skip(offset + 1 + length));
            }
            list.push(element);
            offset = offset + 1 + length;
            proof {
                assert(Ltv::items(list@) =~= before.push(element.item()));
                assert(Ltv::items(list@) + ltv_items(buffer@.skip(offset as int)) =~= before
                    + ltv_items(rest));
                if offset == buffer@.len() {
                    assert(ltv_items(buffer@.skip(offset as int)) =~= Seq::<
                        (u8, Seq<u8>),
                    >::empty());
                }
            }
        }
        list
    }

    /// The first two bytes of the value as a number, if there are two.
    pub fn as_u16(&self) -> (value: Option<u16>)
        ensures
            value == if self.value@.len() >= 2 {
                Some(u16_at(self.value@, 0))
            } else {
                None
            },
    {
        if self.value.len() >= 2 {
            Some(read_u16(&self.value, 0))
        } else {
            None
        }
    }
}

/// Elements survive their encoding, as long as each length fits its byte.
pub proof fn ltv_reads_back(items: Seq<(u8, Seq<u8>)>)
    requires
        forall|i: int| 0 <= i < items.len() ==> (#[trigger] items[i]).1.len() <= 254,
    ensures
        ltv_items(ltv_bytes(items)) == items,
    decreases items.len(),
{
    if items.len() > 0 {
        let first = items[0];
        let rest = items.skip(1);
        assert forall|i: int| 0 <= i < rest.len() implies (#[trigger] rest[i]).1.len() <= 254 by {
            assert(rest[i] == items[i + 1]);
        }
        ltv_reads_back(rest);
        let whole = ltv_bytes(items);
        assert(whole[0] == first.1.len() + 1);
        assert(whole[1] == first.0);
        assert(whole.subrange(2, 1 + whole[0]) =~= first.1);
        assert(whole.skip(1 + whole[0]) =~= ltv_bytes(rest));
        assert(seq![first] + rest =~= items);
    } else {
        assert(items =~= Seq::<(u8, Seq<u8>)>::empty());
    }
}

/// Sampling frequency. The wire uses a small enum, not the value in hertz.
#[derive(Debug, Clone, Copy, PartialEq, Eq, Structural)]
pub struct SamplingFrequency(pub u8);

/// The rate in hertz that each frequency code stands for.
pub open spec fn code_hz(code: u8) -> Option<u32> {
    match code {
        0x01 => Some(8_000),
        0x02 => Some(11_025),
        0x03 => Some(16_000),
        0x04 => Some(22_050),
        0x05 => Some(24_000),
        0x06 => Some(32_000),
        0x07 => Some(44_100),
        0x08 => Some(48_000),
        0x09 => Some(88_200),
        0x0A => Some(96_000),
        0x0B => Some(176_400),
        0x0C => Some(192_000),
        0x0D => Some(384_000),
        _ => None,
    }
}

/// The code that a bit of the capabilities stands for.
pub open spec fn code_of_bit(bit: u32) -> Option<SamplingFrequency> {
    if bit < 13 {
        Some(SamplingFrequency((bit + 1) as u8))
    } else {
        None
    }
}

/// The rates LC3 streams use, which are the ones that may be typed in.
pub open spec fn is_lc3_rate(hz: u32) -> bool {
    hz == 8_000 || hz == 16_000 || hz == 24_000 || hz == 32_000 || hz == 44_100 || hz == 48_000
}

impl SamplingFrequency {
    /// Frequency codes, to be wrapped as `SamplingFrequency(code)`.
    pub const HZ_8000: u8 = 0x01;

    pub const HZ_16000: u8 = 0x03;

    pub const HZ_24000: u8 = 0x05;

    pub const HZ_32000: u8 = 0x06;

    pub const HZ_44100: u8 = 0x07;

    pub const HZ_48000: u8 = 0x08;

    /// The code for a rate in hertz, for a value someone typed in.
    ///
    /// Only the rates BAP actually defines; anything else has no code to send
    /// and returning `None` is the honest answer rather than the nearest match.
    pub fn from_hz(hz: u32) -> (code: Option<Self>)
        ensures
            code is Some <==> is_lc3_rate(hz),
            code matches Some(frequency) ==> code_hz(frequency.0) == Some(hz),
    {
        match hz {
            8_000 => Some(SamplingFrequency(0x01)),
            16_000 => Some(SamplingFrequency(0x03)),
            24_000 => Some(SamplingFrequency(0x05)),
            32_000 => Some(SamplingFrequency(0x06)),
            44_100 => Some(SamplingFrequency(0x07)),
            48_000 => Some(SamplingFrequency(0x08)),
            _ => None,
        }
    }

    pub fn hz(&self) -> (rate: Option<u32>)
        ensures
            rate == code_hz(self.0),
    {
        match self.0 {
            0x01 => Some(8_000),
            0x02 => Some(11_025),
            0x03 => Some(16_000),
            0x04 => Some(22_050),
            0x05 => Some(24_000),
            0x06 => Some(32_000),
            0x07 => Some(44_100),
            0x08 => Some(48_000),
            0x09 => Some(88_200),
            0x0A => Some(96_000),
            0x0B => Some(176_400),
            0x0C => Some(192_000),
            0x0D => Some(384_000),
            _ => None,
        }
    }

    /// The capabilities bitfield uses bit positions, the configuration a value.
    pub fn from_capability_bit(bit: u32) -> (code: Option<Self>)
        ensures
            code == code_of_bit(bit),
    {
        if bit < 13 {
            Some(SamplingFrequency((bit + 1) as u8))
        } else {
            None
        }
    }
}

/// No two frequency codes stand for the same rate.
pub proof fn frequency_codes_are_distinct(a: u8, b: u8)
    requires
        code_hz(a) is Some,
        code_hz(a) == code_hz(b),
    ensures
        a == b,
{
}

/// LC3 frame duration.
#[derive(Debug, Clone, Copy, PartialEq, Eq, Structural)]
pub enum FrameDuration {
    Ms7_5,
    Ms10,
}

impl FrameDuration {
    /// The duration in microseconds.
    pub open spec fn us(self) -> u32 {
        match self {
            FrameDuration::Ms7_5 => 7_500,
            FrameDuration::Ms10 => 10_000,
        }
    }

    /// The code on the wire.
    pub open spec fn code(self) -> u8 {
        match self {
            FrameDuration::Ms7_5 => 0x00,
            FrameDuration::Ms10 => 0x01,
        }
    }

    pub fn encoded(&self) -> (code: u8)
        ensures
            code == self.code(),
    {
        match self {
            FrameDuration::Ms7_5 => 0x00,
            FrameDuration::Ms10 => 0x01,
        }
    }

    pub fn microseconds(&self) -> (us: u32)
        ensures
            us == self.us(),
    {
        match self {
            FrameDuration::Ms7_5 => 7_500,
            FrameDuration::Ms10 => 10_000,
        }
    }
}

/// Audio channel allocation bits.
pub const LOCATION_FRONT_LEFT: u32 = 1;

pub const LOCATION_FRONT_RIGHT: u32 = 2;

/// Both channels in one stream - the layout that avoids needing two CIS.
pub const LOCATION_STEREO: u32 = 3;

/// No location at all, which is how BAP spells "mono".
///
/// A stream that claims neither ear is rendered to whatever the device has,
/// rather than to one side - which is exactly what a single mono stream wants.
pub const LOCATION_MONO: u32 = 0;

/// How many bits of `value` are set.
pub open spec fn ones(value: u32) -> nat
    decreases value,
{
    if value == 0 {
        0
    } else {
        (value % 2) as nat + ones(value / 2)
    }
}

proof fn lemma_ones_bound(value: u32, bits: nat)
    requires
        bits <= 32,
        value < vstd::arithmetic::power2::pow2(bits),
    ensures
        ones(value) <= bits,
    decreases bits,
{
    vstd::arithmetic::power2::lemma2_to64();
    if value > 0 {
        if bits > 0 {
            vstd::arithmetic::power2::lemma_pow2_unfold(bits);
            lemma_ones_bound(value / 2, (bits - 1) as nat);
        }
    }
}

/// Counts the set bits of `value`.
pub fn count_ones(value: u32) -> (count: u32)
    ensures
        count == ones(value),
        count <= 32,
{
    proof {
        vstd::arithmetic::power2::lemma2_to64();
        lemma_ones_bound(value, 32);
    }
    let mut rest = value;
    let mut count: u32 = 0;
    while rest != 0
        invariant
            count + ones(rest) == ones(value),
            ones(value) <= 32,
        decreases rest,
    {
        count = count + rest % 2;
        rest = rest / 2;
    }
    count
}

/// What a set of codec capabilities says.
pub struct Capabilities {
    pub sampling_frequencies: Seq<SamplingFrequency>,
    pub supports_7_5ms: bool,
    pub supports_10ms: bool,
    pub channel_counts: Seq<u8>,
    pub min_octets_per_frame: Option<u16>,
    pub max_octets_per_frame: Option<u16>,
    pub max_frames_per_sdu: u8,
}

impl Capabilities {
    /// Whether one stream can carry both channels.
    pub open spec fn does_stereo(self) -> bool {
        self.channel_counts.contains(2) && self.max_frames_per_sdu >= 2
    }
}

/// Codec Specific Capabilities from one PAC record.
#[derive(Debug)]
pub struct CodecCapabilities {
    pub sampling_frequencies: Vec<SamplingFrequency>,
    pub supports_7_5ms: bool,
    pub supports_10ms: bool,
    pub channel_counts: Vec<u8>,
    pub min_octets_per_frame: Option<u16>,
    pub max_octets_per_frame: Option<u16>,
    pub max_frames_per_sdu: u8,
}

impl View for CodecCapabilities {
    type V = Capabilities;

    open spec fn view(&self) -> Capabilities {
        Capabilities {
            sampling_frequencies: self.sampling_frequencies@,
            supports_7_5ms: self.supports_7_5ms,
            supports_10ms: self.supports_10ms,
            channel_counts: self.channel_counts@,
            min_octets_per_frame: self.min_octets_per_frame,
            max_octets_per_frame: self.max_octets_per_frame,
            max_frames_per_sdu: self.max_frames_per_sdu,
        }
    }
}

/// Capabilities that allow nothing, with the given frame count.
pub open spec fn no_capabilities(max_frames_per_sdu: u8) -> Capabilities {
    Capabilities {
        sampling_frequencies: Seq::empty(),
        supports_7_5ms: false,
        supports_10ms: false,
        channel_counts: Seq::empty(),
        min_octets_per_frame: None,
        max_octets_per_frame: None,
        max_frames_per_sdu,
    }
}

/// The frequencies whose bits below `upto` are set, in order.
pub open spec fn frequencies_of(bits: u16, upto: u16) -> Seq<SamplingFrequency>
    decreases upto,
{
    if upto == 0 {
        Seq::empty()
    } else {
        let before = frequencies_of(bits, (upto - 1) as u16);
        if bits & (1u16 << (upto - 1) as u16) != 0 {
            before.push(SamplingFrequency(upto as u8))
        } else {
            before
        }
    }
}

/// The channel counts whose bits below `upto` are set, in order.
pub open spec fn channel_counts_of(bits: u8, upto: u8) -> Seq<u8>
    decreases upto,
{
    if upto == 0 {
        Seq::empty()
    } else {
        let before = channel_counts_of(bits, (upto - 1) as u8);
        if bits & (1u8 << (upto - 1) as u8) != 0 {
            before.push(upto)
        } else {
            before
        }
    }
}

/// Capabilities after one more LTV. Frequencies and channel counts add up; the
/// others are replaced. An LTV of another kind, or too short, says nothing.
pub open spec fn with_capability(caps: Capabilities, item: (u8, Seq<u8>)) -> Capabilities {
    let (kind, value) = item;
    if kind == 0x01 && value.len() >= 2 {
        Capabilities {
            sampling_frequencies: caps.sampling_frequencies + frequencies_of(u16_at(value, 0), 13),
            ..caps
        }
    } else if kind == 0x02 && value.len() >= 1 {
        Capabilities {
            supports_7_5ms: value[0] & 0x01 != 0,
            supports_10ms: value[0] & 0x02 != 0,
            ..caps
        }
    } else if kind == 0x03 && value.len() >= 1 {
        Capabilities {
            channel_counts: caps.channel_counts + channel_counts_of(value[0], 8),
            ..caps
        }
    } else if kind == 0x04 && value.len() >= 4 {
        Capabilities {
            min_octets_per_frame: Some(u16_at(value, 0)),
            max_octets_per_frame: Some(u16_at(value, 2)),
            ..caps
        }
    } else if kind == 0x05 && value.len() >= 1 {
        Capabilities { max_frames_per_sdu: value[0], ..caps }
    } else {
        caps
    }
}

/// Capabilities after several LTVs, first to last.
pub open spec fn with_capabilities(caps: Capabilities, items: Seq<(u8, Seq<u8>)>) -> Capabilities
    decreases items.len(),
{
    if items.len() == 0 {
        caps
    } else {
        with_capability(with_capabilities(caps, items.drop_last()), items.last())
    }
}

/// The capabilities a buffer of LTVs states. One frame per SDU and one channel
/// are what an omitted element means.
pub open spec fn capabilities_of(buffer: Seq<u8>) -> Capabilities {
    let stated = with_capabilities(no_capabilities(1), ltv_items(buffer));
    if stated.channel_counts.len() == 0 {
        Capabilities { channel_counts: seq![1], ..stated }
    } else {
        stated
    }
}

/// Why a device with these capabilities cannot use a configuration, if it
/// cannot: the first of rate, frame duration, octets and channel count that
/// does not fit.
pub open spec fn rejection_of(
    caps: Capabilities,
    config: CodecConfiguration,
) -> Option<ConfigRejection> {
    if !caps.sampling_frequencies.contains(config.sampling_frequency) {
        Some(ConfigRejection::SamplingFrequency)
    } else if !(match config.frame_duration {
        FrameDuration::Ms7_5 => caps.supports_7_5ms,
        FrameDuration::Ms10 => caps.supports_10ms,
    }) {
        Some(ConfigRejection::FrameDuration)
    } else if octets_rejected(caps, config.octets_per_frame) {
        Some(
            ConfigRejection::OctetsOutOfRange {
                min: caps.min_octets_per_frame->0,
                max: caps.max_octets_per_frame->0,
            },
        )
    } else if ones(config.channel_allocation) > 0 && !caps.channel_counts.contains(
        ones(config.channel_allocation) as u8,
    ) {
        Some(ConfigRejection::ChannelCount)
    } else {
        None
    }
}

/// Whether the device states a range of octets per frame and `octets` is
/// outside it.
pub open spec fn octets_rejected(caps: Capabilities, octets: u16) -> bool {
    &&& caps.min_octets_per_frame is Some
    &&& caps.max_octets_per_frame is Some
    &&& octets < caps.min_octets_per_frame->0 || octets > caps.max_octets_per_frame->0
}

/// Whether a list of channel counts names `count`.
pub fn lists_count(counts: &[u8], count: u8) -> (found: bool)
    ensures
        found == counts@.contains(count),
{
    let mut i: usize = 0;
    while i < counts.len()
        invariant
            i <= counts@.len(),
            forall|j: int| 0 <= j < i ==> counts@[j] != count,
        decreases counts@.len() - i,
    {
        if counts[i] == count {
            assert(counts@[i as int] == count);
            return true;
        }
        i = i + 1;
    }
    false
}

/// Whether a list of frequencies names `frequency`.
pub fn lists_frequency(frequencies: &[SamplingFrequency], frequency: SamplingFrequency) -> (found:
    bool)
    ensures
        found == frequencies@.contains(frequency),
{
    let mut i: usize = 0;
    while i < frequencies.len()
        invariant
            i <= frequencies@.len(),
            forall|j: int| 0 <= j < i ==> frequencies@[j] != frequency,
        decreases frequencies@.len() - i,
    {
        if frequencies[i].0 == frequency.0 {
            assert(frequencies@[i as int] == frequency);
            return true;
        }
        i = i + 1;
    }
    false
}

impl Default for CodecCapabilities {
    fn default() -> (caps: Self)
        ensures
            caps@ == no_capabilities(0),
    {
        let caps = CodecCapabilities {
            sampling_frequencies: Vec::new(),
            supports_7_5ms: false,
            supports_10ms: false,
            channel_counts: Vec::new(),
            min_octets_per_frame: None,
            max_octets_per_frame: None,
            max_frames_per_sdu: 0,
        };
        assert(caps@.sampling_frequencies =~= Seq::<SamplingFrequency>::empty());
        assert(caps@.channel_counts =~= Seq::<u8>::empty());
        caps
    }
}

impl Clone for CodecCapabilities {
    fn clone(&self) -> (copy: Self)
        ensures
            copy@ == self@,
    {
        let mut sampling_frequencies: Vec<SamplingFrequency> = Vec::new();
        let mut i: usize = 0;
        while i < self.sampling_frequencies.len()
            invariant
                i <= self.sampling_frequencies@.len(),
                sampling_frequencies@ =~= self.sampling_frequencies@.take(i as int),
            decreases self.sampling_frequencies@.len() - i,
        {
            sampling_frequencies.push(self.sampling_frequencies[i]);
            i = i + 1;
        }
        let copy = CodecCapabilities {
            sampling_frequencies,
            supports_7_5ms: self.supports_7_5ms,
            supports_10ms: self.supports_10ms,
            channel_counts: copy_bytes(&self.channel_counts),
            min_octets_per_frame: self.min_octets_per_frame,
            max_octets_per_frame: self.max_octets_per_frame,
            max_frames_per_sdu: self.max_frames_per_sdu,
        };
        assert(copy@.sampling_frequencies =~= self@.sampling_frequencies);
        copy
    }
}

impl CodecCapabilities {
    pub fn parse(buffer: &[u8]) -> (caps: Self)
        ensures
            caps@ == capabilities_of(buffer@),
    {
        let mut caps = CodecCapabilities::default();
        caps.max_frames_per_sdu = 1;
        let items = Ltv::decode(buffer);
        let ghost all = Ltv::items(items@);
        let mut i: usize = 0;
        assert(all.take(0) =~= Seq::<(u8, Seq<u8>)>::empty());
        while i < items.len()
            invariant
                i <= items@.len(),
                all == Ltv::items(items@),
                caps@ == with_capabilities(no_capabilities(1), all.take(i as int)),
            decreases items@.len() - i,
        {
            let ltv = &items[i];
            proof {
                assert(all.take(i + 1).drop_last() =~= all.take(i as int));
                assert(all.take(i + 1).last() == ltv.item());
            }
            let ghost before = caps@;
            if ltv.kind == 0x01 {
                if let Some(bits) = ltv.as_u16() {
                    caps.add_frequencies(bits);
                }
            } else if ltv.kind == 0x02 {
                if ltv.value.len() >= 1 {
                    let bits = ltv.value[0];
                    caps.supports_7_5ms = bits & 0x01 != 0;
                    caps.supports_10ms = bits & 0x02 != 0;
                }
            } else if ltv.kind == 0x03 {
                if ltv.value.len() >= 1 {
                    caps.add_channel_counts(ltv.value[0]);
                }
            } else if ltv.kind == 0x04 {
                if ltv.value.len() >= 4 {
                    caps.min_octets_per_frame = Some(read_u16(&ltv.value, 0));
                    caps.max_octets_per_frame = Some(read_u16(&ltv.value, 2));
                }
            } else if ltv.kind == 0x05 {
                if ltv.value.len() >= 1 {
                    caps.max_frames_per_sdu = ltv.value[0];
                }
            }
            assert(caps@ == with_capability(before, ltv.item()));
            i = i + 1;
        }
        assert(all.take(i as int) =~= all);
        // Omitted channel count means single channel only.
        if caps.channel_counts.len() == 0 {
            caps.channel_counts.push(1);
            assert(caps.channel_counts@ =~= seq![1u8]);
        }
        caps
    }

    fn add_frequencies(&mut self, bits: u16)
        ensures
            final(self)@ == (Capabilities {
                sampling_frequencies: old(self)@.sampling_frequencies + frequencies_of(bits, 13),
                ..old(self)@
            }),
    {
        let mut bit: u16 = 0;
        let ghost before = self@;
        assert(before.sampling_frequencies + frequencies_of(bits, 0)
            =~= before.sampling_frequencies);
        while bit < 13
            invariant
                bit <= 13,
                self@ == (Capabilities {
                    sampling_frequencies: before.sampling_frequencies + frequencies_of(bits, bit),
                    ..before
                }),
            decreases 13 - bit,
        {
            if bits & (1u16 << bit) != 0 {
                self.sampling_frequencies.push(SamplingFrequency((bit + 1) as u8));
            }
            bit = bit + 1;
            assert(self.sampling_frequencies@ =~= before.sampling_frequencies + frequencies_of(
                bits,
                bit,
            ));
        }
    }

    fn add_channel_counts(&mut self, bits: u8)
        ensures
            final(self)@ == (Capabilities {
                channel_counts: old(self)@.channel_counts + channel_counts_of(bits, 8),
                ..old(self)@
            }),
    {
        let mut bit: u8 = 0;
        let ghost before = self@;
        assert(before.channel_counts + channel_counts_of(bits, 0) =~= before.channel_counts);
        while bit < 8
            invariant
                bit <= 8,
                self@ == (Capabilities {
                    channel_counts: before.channel_counts + channel_counts_of(bits, bit),
                    ..before
                }),
            decreases 8 - bit,
        {
            if bits & (1u8 << bit) != 0 {
                self.channel_counts.push(bit + 1);
            }
            bit = bit + 1;
            assert(self.channel_counts@ =~= before.channel_counts + channel_counts_of(bits, bit));
        }
    }

    /// Whether this device can carry stereo on one stream, which lets us use a
    /// single CIS instead of two - fewer moving parts during setup.
    pub fn supports_stereo_in_one_stream(&self) -> (yes: bool)
        ensures
            yes == self@.does_stereo(),
    {
        lists_count(&self.channel_counts, 2) && self.max_frames_per_sdu >= 2
    }

    /// Checks a configuration against what the device actually advertised.
    pub fn accepts(&self, config: &CodecConfiguration) -> (verdict: Result<(), ConfigRejection>)
        ensures
            match rejection_of(self@, *config) {
                Some(rejection) => verdict == Err::<(), ConfigRejection>(rejection),
                None => verdict is Ok,
            },
    {
        if !lists_frequency(&self.sampling_frequencies, config.sampling_frequency) {
            return Err(ConfigRejection::SamplingFrequency);
        }
        let duration_ok = match config.frame_duration {
            FrameDuration::Ms7_5 => self.supports_7_5ms,
            FrameDuration::Ms10 => self.supports_10ms,
        };
        if !duration_ok {
            return Err(ConfigRejection::FrameDuration);
        }
        if let Some(min) = self.min_octets_per_frame {
            if let Some(max) = self.max_octets_per_frame {
                if config.octets_per_frame < min || config.octets_per_frame > max {
                    return Err(ConfigRejection::OctetsOutOfRange { min, max });
                }
            }
        }
        let channels = count_ones(config.channel_allocation) as u8;
        if channels > 0 && !lists_count(&self.channel_counts, channels) {
            return Err(ConfigRejection::ChannelCount);
        }
        Ok(())
    }
}

#[derive(Debug, Clone, Copy, PartialEq, Eq, Structural)]
pub enum ConfigRejection {
    SamplingFrequency,
    FrameDuration,
    OctetsOutOfRange { min: u16, max: u16 },
    ChannelCount,
}

/// The text that reports a rejection.
pub open spec fn rejection_text(rejection: ConfigRejection) -> Seq<char> {
    match rejection {
        ConfigRejection::SamplingFrequency => "device does not support that sampling frequency"@,
        ConfigRejection::FrameDuration => "device does not support that frame duration"@,
        ConfigRejection::OctetsOutOfRange { min, max } => "octets per frame must be between "@
            + decimal(min as nat) + " and "@ + decimal(max as nat),
        ConfigRejection::ChannelCount => "device does not support that channel count"@,
    }
}

impl ConfigRejection {
    /// One line that says what does not fit.
    pub fn to_string(&self) -> (text: String)
        ensures
            text@ == rejection_text(*self),
    {
        match self {
            ConfigRejection::SamplingFrequency => String::from_str(
                "device does not support that sampling frequency",
            ),
            ConfigRejection::FrameDuration => String::from_str(
                "device does not support that frame duration",
            ),
            ConfigRejection::OctetsOutOfRange { min, max } => {
                let mut text = String::from_str("octets per frame must be between ");
                push_decimal(&mut text, *min as u64);
                text.append(" and ");
                push_decimal(&mut text, *max as u64);
                text
            },
            ConfigRejection::ChannelCount => String::from_str(
                "device does not support that channel count",
            ),
        }
    }
}

/// One PAC record: a codec plus the configurations it accepts.
#[derive(Debug)]
pub struct PacRecord {
    pub coding_format: u8,
    pub company_id: u16,
    pub vendor_codec_id: u16,
    pub capabilities: CodecCapabilities,
    /// The capability bytes exactly as the device sent them.
    ///
    /// Kept so a conclusion drawn from the parse can be checked against the
    /// source. Every design decision here rests on what these records say, and
    /// a parser bug in them is invisible from anywhere else in the stack.
    pub raw: Vec<u8>,
}

/// What a PAC record says.
pub struct Pac {
    pub coding_format: u8,
    pub company_id: u16,
    pub vendor_codec_id: u16,
    pub capabilities: Capabilities,
    pub raw: Seq<u8>,
}

impl View for PacRecord {
    type V = Pac;

    open spec fn view(&self) -> Pac {
        Pac {
            coding_format: self.coding_format,
            company_id: self.company_id,
            vendor_codec_id: self.vendor_codec_id,
            capabilities: self.capabilities@,
            raw: self.raw@,
        }
    }
}

/// What several PAC records say.
pub open spec fn pac_views(records: Seq<PacRecord>) -> Seq<Pac> {
    Seq::new(records.len(), |i: int| records[i]@)
}

/// The next `count` PAC records in `rest`, as far as they are there. A record
/// is codec id (5), capabilities with their length, metadata with its length;
/// one whose metadata runs past the end still counts, and ends the list.
pub open spec fn pac_records(rest: Seq<u8>, count: nat) -> Seq<Pac>
    decreases count,
{
    if count == 0 || rest.len() < 6 || rest.len() <= 6 + rest[5] {
        Seq::empty()
    } else {
        let raw = rest.subrange(6, 6 + rest[5]);
        let record = Pac {
            coding_format: rest[0],
            company_id: u16_at(rest, 1),
            vendor_codec_id: u16_at(rest, 3),
            capabilities: capabilities_of(raw),
            raw,
        };
        let next = 7 + rest[5] + rest[6 + rest[5]];
        seq![record] + if next > rest.len() {
            Seq::empty()
        } else {
            pac_records(rest.skip(next), (count - 1) as nat)
        }
    }
}

impl Clone for PacRecord {
    fn clone(&self) -> (copy: Self)
        ensures
            copy@ == self@,
    {
        PacRecord {
            coding_format: self.coding_format,
            company_id: self.company_id,
            vendor_codec_id: self.vendor_codec_id,
            capabilities: self.capabilities.clone(),
            raw: copy_bytes(&self.raw),
        }
    }
}

impl PacRecord {
    pub const CODING_FORMAT_LC3: u8 = 0x06;

    pub fn is_lc3(&self) -> (yes: bool)
        ensures
            yes == (self.coding_format == 0x06),
    {
        self.coding_format == 0x06
    }

    /// Parses a Sink PAC or Source PAC characteristic value.
    pub fn parse_characteristic(value: &[u8]) -> (records: Vec<PacRecord>)
        ensures
            pac_views(records@) == if value@.len() == 0 {
                Seq::empty()
            } else {
                pac_records(value@.skip(1), value@[0] as nat)
            },
    {
        let mut records: Vec<PacRecord> = Vec::new();
        if value.len() == 0 {
            assert(pac_views(records@) =~= Seq::<Pac>::empty());
            return records;
        }
        let mut left: u8 = value[0];
        let mut rest: &[u8] = tail(value, 1);
        let ghost all = pac_records(value@.skip(1), value@[0] as nat);
        assert(pac_views(records@) + all =~= all);
        while left > 0
            invariant_except_break
                pac_views(records@) + pac_records(rest@, left as nat) == all,
            ensures
                pac_views(records@) =~= all,
            decreases left,
        {
            if rest.len() < 6 {
                assert(pac_views(records@) =~= all);
                break;
            }
            let caps_len = rest[5] as usize;
            if rest.len() <= 6 + caps_len {
                assert(pac_views(records@) =~= all);
                break;
            }
            let ghost before = pac_views(records@);
            let ghost here = rest@;
            let raw = copy_bytes(range(rest, 6, 6 + caps_len));
            let record = PacRecord {
                coding_format: rest[0],
                company_id: read_u16(rest, 1),
                vendor_codec_id: read_u16(rest, 3),
                capabilities: CodecCapabilities::parse(&raw),
                raw,
            };
            let next: usize = 7 + caps_len + rest[6 + caps_len] as usize;
            let ghost added = record@;
            records.push(record);
            assert(pac_views(records@) =~= before.push(added));
            if next > rest.len() {
                assert(pac_views(records@) =~= before + pac_records(here, left as nat));
                break;
            }
            rest = tail(rest, next);
            left = left - 1;
            proof {
                assert(pac_views(records@) + pac_records(rest@, left as nat) =~= before
                    + pac_records(here, (left + 1) as nat));
                if left == 0 {
                    assert(pac_records(rest@, 0) =~= Seq::<Pac>::empty());
                    assert(pac_views(records@) =~= all);
                }
            }
        }
        records
    }
}

/// A concrete LC3 stream configuration - what actually gets sent to the device.
#[derive(Debug, Clone, Copy, PartialEq, Eq, Structural)]
pub struct CodecConfiguration {
    pub sampling_frequency: SamplingFrequency,
    pub frame_duration: FrameDuration,
    pub channel_allocation: u32,
    /// The bitrate knob. Bitrate = octets * 8 / frame duration.
    pub octets_per_frame: u16,
    pub frames_per_sdu: u8,
}

/// The BAP name of a setting, if it has one.
pub open spec fn setting_name(hz: u32, duration: FrameDuration, octets: u16) -> Option<Seq<char>> {
    if hz == 16_000 && duration is Ms10 && octets == 40 {
        Some("16_2"@)
    } else if hz == 24_000 && duration is Ms10 && octets == 60 {
        Some("24_2"@)
    } else if hz == 32_000 && duration is Ms10 && octets == 80 {
        Some("32_2"@)
    } else if hz == 48_000 && duration is Ms7_5 && octets == 75 {
        Some("48_1"@)
    } else if hz == 48_000 && duration is Ms10 && octets == 100 {
        Some("48_2"@)
    } else if hz == 48_000 && duration is Ms7_5 && octets == 90 {
        Some("48_3"@)
    } else if hz == 48_000 && duration is Ms10 && octets == 120 {
        Some("48_4"@)
    } else if hz == 48_000 && duration is Ms7_5 && octets == 117 {
        Some("48_5"@)
    } else if hz == 48_000 && duration is Ms10 && octets == 155 {
        Some("48_6"@)
    } else {
        None
    }
}

impl CodecConfiguration {
    /// How many channels the stream carries; one when no location is claimed.
    pub open spec fn channels(self) -> int {
        if ones(self.channel_allocation) == 0 {
            1
        } else {
            ones(self.channel_allocation) as int
        }
    }

    /// The size of one SDU: every channel's frame, once per frame in the SDU.
    pub open spec fn sdu_octets(self) -> int {
        self.octets_per_frame * self.channels() * (if self.frames_per_sdu == 0 {
            1
        } else {
            self.frames_per_sdu as int
        })
    }

    /// The configuration as LTVs. The frame count is left out when it is what
    /// an omitted one means.
    pub open spec fn items(self) -> Seq<(u8, Seq<u8>)> {
        let fixed = seq![
            (0x01u8, seq![self.sampling_frequency.0]),
            (0x02u8, seq![self.frame_duration.code()]),
            (0x03u8, le32(self.channel_allocation)),
            (0x04u8, le16(self.octets_per_frame)),
        ];
        if self.frames_per_sdu > 1 {
            fixed.push((0x05u8, seq![self.frames_per_sdu]))
        } else {
            fixed
        }
    }

    /// The Codec Specific Configuration block.
    pub open spec fn encoding(self) -> Seq<u8> {
        ltv_bytes(self.items())
    }

    pub proof fn lemma_encoding_len(self)
        ensures
            self.encoding().len() == if self.frames_per_sdu > 1 {
                19int
            } else {
                16int
            },
    {
        let items = self.items();
        reveal_with_fuel(ltv_bytes, 6);
        assert(items.skip(1).skip(1) =~= items.skip(2));
        assert(items.skip(2).skip(1) =~= items.skip(3));
        assert(items.skip(3).skip(1) =~= items.skip(4));
        if self.frames_per_sdu > 1 {
            assert(items.skip(4).skip(1) =~= items.skip(5));
        }
    }

    /// Bits per second for a single channel. More than 536 octets per frame
    /// would not fit the computation; LC3 stops at 400.
    pub fn bitrate_per_channel(&self) -> (bitrate: u32)
        requires
            self.octets_per_frame <= 536,
        ensures
            bitrate == self.octets_per_frame * 8_000_000 / self.frame_duration.us() as int,
    {
        (self.octets_per_frame as u32 * 8_000_000) / self.frame_duration.microseconds()
    }

    pub fn channel_count(&self) -> (count: u32)
        ensures
            count == self.channels(),
            1 <= count <= 32,
    {
        let count = count_ones(self.channel_allocation);
        if count == 0 {
            1
        } else {
            count
        }
    }

    /// SDU size the CIG must carry: every channel's frame in one interval.
    pub fn sdu_size(&self) -> (size: u16)
        requires
            self.sdu_octets() <= 0xFFFF,
        ensures
            size == self.sdu_octets(),
    {
        let channels = self.channel_count() as u16;
        let frames: u16 = if self.frames_per_sdu == 0 {
            1
        } else {
            self.frames_per_sdu as u16
        };
        let ghost per_interval = self.octets_per_frame * channels;
        assert(per_interval <= per_interval * frames) by (nonlinear_arith)
            requires
                frames >= 1,
                per_interval >= 0,
        ;
        assert(self.octets_per_frame * channels >= 0) by (nonlinear_arith);
        self.octets_per_frame * channels * frames
    }

    /// Encodes the Codec Specific Configuration LTV block.
    pub fn encode(&self) -> (block: Vec<u8>)
        ensures
            block@ == self.encoding(),
    {
        let mut allocation: Vec<u8> = Vec::new();
        push_u32(&mut allocation, self.channel_allocation);
        let mut octets: Vec<u8> = Vec::new();
        push_u16(&mut octets, self.octets_per_frame);
        let mut list: Vec<Ltv> = Vec::new();
        list.push(Ltv::new(0x01, vec![self.sampling_frequency.0]));
        list.push(Ltv::new(0x02, vec![self.frame_duration.encoded()]));
        list.push(Ltv::new(0x03, allocation));
        list.push(Ltv::new(0x04, octets));
        if self.frames_per_sdu > 1 {
            list.push(Ltv::new(0x05, vec![self.frames_per_sdu]));
        }
        proof {
            assert(list@[0].value@ =~= seq![self.sampling_frequency.0]);
            assert(list@[1].value@ =~= seq![self.frame_duration.code()]);
            assert(list@[2].value@ =~= le32(self.channel_allocation));
            assert(list@[3].value@ =~= le16(self.octets_per_frame));
            if self.frames_per_sdu > 1 {
                assert(list@[4].value@ =~= seq![self.frames_per_sdu]);
            }
            assert(Ltv::items(list@) =~= self.items());
        }
        Ltv::encode(&list)
    }

    /// The BAP-named settings, so a preset can say "48_4" rather than raw numbers.
    pub fn preset_name(&self) -> (name: Option<&'static str>)
        ensures
            match code_hz(self.sampling_frequency.0) {
                Some(hz) => match setting_name(hz, self.frame_duration, self.octets_per_frame) {
                    Some(text) => name matches Some(n) && n@ == text,
                    None => name is None,
                },
                None => name is None,
            },
    {
        let hz = match self.sampling_frequency.hz() {
            Some(hz) => hz,
            None => return None,
        };
        let ten = match self.frame_duration {
            FrameDuration::Ms10 => true,
            FrameDuration::Ms7_5 => false,
        };
        let octets = self.octets_per_frame;
        if hz == 16_000 && ten && octets == 40 {
            Some("16_2")
        } else if hz == 24_000 && ten && octets == 60 {
            Some("24_2")
        } else if hz == 32_000 && ten && octets == 80 {
            Some("32_2")
        } else if hz == 48_000 && !ten && octets == 75 {
            Some("48_1")
        } else if hz == 48_000 && ten && octets == 100 {
            Some("48_2")
        } else if hz == 48_000 && !ten && octets == 90 {
            Some("48_3")
        } else if hz == 48_000 && ten && octets == 120 {
            Some("48_4")
        } else if hz == 48_000 && !ten && octets == 117 {
            Some("48_5")
        } else if hz == 48_000 && ten && octets == 155 {
            Some("48_6")
        } else {
            None
        }
    }
}

/// The encoding of a configuration decodes to the LTVs it was made from.
pub proof fn lemma_items_of_encoding(config: CodecConfiguration)
    ensures
        ltv_items(config.encoding()) == config.items(),
{
    ltv_reads_back(config.items());
}

/// Quality of service for the isochronous link.
#[derive(Debug, Clone, Copy, PartialEq, Eq, Structural)]
pub struct QosConfiguration {
    pub sdu_interval_us: u32,
    pub framing: u8,
    pub phy: u8,
    pub max_sdu: u16,
    pub retransmission_number: u8,
    pub max_transport_latency_ms: u16,
    pub presentation_delay_us: u32,
}

impl QosConfiguration {
    /// The delay of the audio, end to end, in milliseconds.
    pub open spec fn latency_with(self, codec: CodecConfiguration) -> int {
        codec.frame_duration.us() as int / 1000 + self.max_transport_latency_ms
            + self.presentation_delay_us as int / 1000
    }

    /// End-to-end audio delay this configuration implies, in milliseconds.
    ///
    /// The frame must be captured, sent, and held until the presentation instant,
    /// so latency is roughly the frame duration plus transport plus presentation.
    pub fn estimated_latency_ms(&self, codec: &CodecConfiguration) -> (latency: u32)
        ensures
            latency == self.latency_with(*codec),
    {
        codec.frame_duration.microseconds() / 1000 + self.max_transport_latency_ms as u32
            + self.presentation_delay_us / 1000
    }
}

/// Named starting points. "Default" mirrors what Windows typically negotiates,
/// so the stack begins from a known-good state rather than something exotic.
#[derive(Debug, Clone, Copy, PartialEq, Eq, Structural)]
pub enum Preset {
    /// 48 kHz, 7.5 ms, 90 octets - what the Windows driver was captured asking
    /// for.
    WindowsDefault,
    /// 48 kHz, 7.5 ms, 75 octets - shortest frame, lowest delay.
    LowLatency,
    /// 48 kHz, 10 ms, 155 octets - 124 kbps per channel, the LC3 ceiling.
    HighQuality,
    /// 24 kHz, 10 ms, 60 octets - survives a weak link.
    Robust,
}

/// The codec configuration a preset stands for.
pub open spec fn preset_codec(preset: Preset, stereo_in_one_stream: bool) -> CodecConfiguration {
    let (code, duration, octets) = match preset {
        Preset::WindowsDefault => (0x08u8, FrameDuration::Ms7_5, 90u16),
        Preset::LowLatency => (0x08u8, FrameDuration::Ms7_5, 75u16),
        Preset::HighQuality => (0x08u8, FrameDuration::Ms10, 155u16),
        Preset::Robust => (0x05u8, FrameDuration::Ms10, 60u16),
    };
    CodecConfiguration {
        sampling_frequency: SamplingFrequency(code),
        frame_duration: duration,
        channel_allocation: if stereo_in_one_stream {
            LOCATION_STEREO
        } else {
            LOCATION_FRONT_LEFT
        },
        octets_per_frame: octets,
        frames_per_sdu: 1,
    }
}

/// The retransmissions, transport latency and presentation delay of a preset.
pub open spec fn preset_numbers(preset: Preset) -> (u8, u16, u32) {
    match preset {
        Preset::WindowsDefault => (13, 75, 40_000),
        Preset::LowLatency => (2, 8, 20_000),
        Preset::HighQuality => (4, 40, 40_000),
        Preset::Robust => (5, 60, 40_000),
    }
}

/// The transport that a preset asks for.
pub open spec fn preset_qos(preset: Preset, codec: CodecConfiguration) -> QosConfiguration {
    QosConfiguration {
        sdu_interval_us: codec.frame_duration.us(),
        framing: 0x00,
        phy: 0x02,
        max_sdu: codec.sdu_octets() as u16,
        retransmission_number: preset_numbers(preset).0,
        max_transport_latency_ms: preset_numbers(preset).1,
        presentation_delay_us: preset_numbers(preset).2,
    }
}

/// The name a preset is shown under.
pub open spec fn preset_label(preset: Preset) -> Seq<char> {
    match preset {
        Preset::WindowsDefault => "Default (Windows-compatible)"@,
        Preset::LowLatency => "Nizka latence"@,
        Preset::HighQuality => "Vysoka kvalita"@,
        Preset::Robust => "Stabilni spojeni"@,
    }
}

impl Preset {
    pub fn codec(&self, stereo_in_one_stream: bool) -> (codec: CodecConfiguration)
        ensures
            codec == preset_codec(*self, stereo_in_one_stream),
    {
        let allocation = if stereo_in_one_stream {
            LOCATION_STEREO
        } else {
            LOCATION_FRONT_LEFT
        };
        let (frequency, duration, octets) = match self {
            // Exactly what the Windows LE Audio driver asks for, read out of a
            // WPP trace of it streaming to these headphones:
            //
            //   SDU interval 0x00001D4C = 7500 us, Max SDU 90, sequential,
            //   unframed, 2M PHY, retransmissions 13, max latency 0x004B = 75 ms
            Preset::WindowsDefault => (SamplingFrequency(0x08), FrameDuration::Ms7_5, 90u16),
            Preset::LowLatency => (SamplingFrequency(0x08), FrameDuration::Ms7_5, 75u16),
            Preset::HighQuality => (SamplingFrequency(0x08), FrameDuration::Ms10, 155u16),
            Preset::Robust => (SamplingFrequency(0x05), FrameDuration::Ms10, 60u16),
        };
        CodecConfiguration {
            sampling_frequency: frequency,
            frame_duration: duration,
            channel_allocation: allocation,
            octets_per_frame: octets,
            frames_per_sdu: 1,
        }
    }

    pub fn qos(&self, codec: &CodecConfiguration) -> (qos: QosConfiguration)
        requires
            codec.sdu_octets() <= 0xFFFF,
        ensures
            qos == preset_qos(*self, *codec),
    {
        let (retransmissions, transport_latency, presentation_delay) = match self {
            Preset::WindowsDefault => (13u8, 75u16, 40_000u32),
            Preset::LowLatency => (2u8, 8u16, 20_000u32),
            Preset::HighQuality => (4u8, 40u16, 40_000u32),
            Preset::Robust => (5u8, 60u16, 40_000u32),
        };
        QosConfiguration {
            sdu_interval_us: codec.frame_duration.microseconds(),
            framing: 0x00,  // unframed
            phy: 0x02,  // 2M
            max_sdu: codec.sdu_size(),
            retransmission_number: retransmissions,
            max_transport_latency_ms: transport_latency,
            presentation_delay_us: presentation_delay,
        }
    }

    pub fn label(&self) -> (name: &'static str)
        ensures
            name@ == preset_label(*self),
    {
        match self {
            Preset::WindowsDefault => "Default (Windows-compatible)",
            Preset::LowLatency => "Nizka latence",
            Preset::HighQuality => "Vysoka kvalita",
            Preset::Robust => "Stabilni spojeni",
        }
    }
}

// ---- What the records say ----

/// Whether each element is short enough for its length byte.
pub open spec fn all_fit(items: Seq<(u8, Seq<u8>)>) -> bool {
    forall|i: int| 0 <= i < items.len() ==> (#[trigger] items[i]).1.len() <= 254
}

/// Whether none of the elements is of a kind.
pub open spec fn none_of(items: Seq<(u8, Seq<u8>)>, kind: u8) -> bool {
    forall|i: int| 0 <= i < items.len() ==> (#[trigger] items[i]).0 != kind
}

proof fn lemma_later_kinds_keep(
    caps: Capabilities,
    before: Seq<(u8, Seq<u8>)>,
    after: Seq<(u8, Seq<u8>)>,
)
    ensures
        ({
            let then = with_capabilities(caps, before);
            let end = with_capabilities(caps, before + after);
            &&& none_of(after, 2) ==> end.supports_7_5ms == then.supports_7_5ms
                && end.supports_10ms == then.supports_10ms
            &&& none_of(after, 4) ==> end.min_octets_per_frame == then.min_octets_per_frame
                && end.max_octets_per_frame == then.max_octets_per_frame
            &&& none_of(after, 5) ==> end.max_frames_per_sdu == then.max_frames_per_sdu
        }),
    decreases after.len(),
{
    if after.len() == 0 {
        assert(before + after =~= before);
    } else {
        let rest = after.drop_last();
        lemma_later_kinds_keep(caps, before, rest);
        assert((before + after).drop_last() =~= before + rest);
        assert((before + after).last() == after.last());
        assert(forall|k: u8| none_of(after, k) ==> none_of(rest, k));
    }
}

/// What a device states last about frame durations, octets and frames per SDU is
/// what counts, wherever in the record it stands. Bit 0 of the durations is the
/// 7.5 ms capability and bit 1 the 10 ms one; the octets are two little-endian
/// numbers, the lower bound first.
#[verifier::rlimit(60)]
pub proof fn the_last_statement_counts(
    before: Seq<(u8, Seq<u8>)>,
    value: Seq<u8>,
    after: Seq<(u8, Seq<u8>)>,
)
    requires
        all_fit(before),
        value.len() <= 254,
        all_fit(after),
    ensures
        ({
            let caps = capabilities_of(ltv_bytes(before.push((2u8, value)) + after));
            value.len() >= 1 && none_of(after, 2) ==> caps.supports_7_5ms == (value[0] % 2 == 1)
                && caps.supports_10ms == (value[0] / 2 % 2 == 1)
        }),
        ({
            let caps = capabilities_of(ltv_bytes(before.push((4u8, value)) + after));
            value.len() >= 4 && none_of(after, 4) ==> caps.min_octets_per_frame == Some(
                (value[0] + 256 * value[1]) as u16,
            ) && caps.max_octets_per_frame == Some((value[2] + 256 * value[3]) as u16)
        }),
        ({
            let caps = capabilities_of(ltv_bytes(before.push((5u8, value)) + after));
            value.len() >= 1 && none_of(after, 5) ==> caps.max_frames_per_sdu == value[0]
        }),
{
    let none = no_capabilities(1);
    assert forall|kind: u8| #![trigger before.push((kind, value))] true implies ltv_items(
        ltv_bytes(before.push((kind, value)) + after),
    ) == before.push((kind, value)) + after && with_capabilities(none, before.push((kind, value)))
        == with_capability(with_capabilities(none, before), (kind, value)) by {
        let all = before.push((kind, value)) + after;
        assert forall|i: int| 0 <= i < all.len() implies (#[trigger] all[i]).1.len() <= 254 by {
            if i > before.len() {
                assert(all[i] == after[i - before.len() - 1]);
            } else if i < before.len() {
                assert(all[i] == before[i]);
            }
        }
        ltv_reads_back(all);
        assert(before.push((kind, value)).drop_last() =~= before);
        lemma_later_kinds_keep(none, before.push((kind, value)), after);
    }
    lemma_later_kinds_keep(none, before.push((2u8, value)), after);
    lemma_later_kinds_keep(none, before.push((4u8, value)), after);
    lemma_later_kinds_keep(none, before.push((5u8, value)), after);
    if value.len() >= 1 {
        let bits = value[0];
        assert((bits & 0x01 != 0) == (bits % 2 == 1) && (bits & 0x02 != 0) == (bits / 2 % 2 == 1))
            by (bit_vector);
    }
}

/// What a record does not state has its default: neither frame duration, no
/// bounds on the octets, one frame per SDU, one channel, and no rate at all.
pub proof fn what_is_not_stated_has_its_default(items: Seq<(u8, Seq<u8>)>)
    requires
        all_fit(items),
    ensures
        ({
            let caps = capabilities_of(ltv_bytes(items));
            &&& none_of(items, 1) ==> caps.sampling_frequencies.len() == 0
            &&& none_of(items, 2) ==> !caps.supports_7_5ms && !caps.supports_10ms
            &&& none_of(items, 3) ==> caps.channel_counts == seq![1u8]
            &&& none_of(items, 4) ==> caps.min_octets_per_frame is None
                && caps.max_octets_per_frame is None
            &&& none_of(items, 5) ==> caps.max_frames_per_sdu == 1
        }),
{
    let none = no_capabilities(1);
    ltv_reads_back(items);
    lemma_later_kinds_keep(none, Seq::empty(), items);
    assert(Seq::<(u8, Seq<u8>)>::empty() + items =~= items);
    lemma_lists_of(items);
    let stated = with_capabilities(none, items);
    if none_of(items, 1) {
        if stated.sampling_frequencies.len() > 0 {
            let first = stated.sampling_frequencies[0];
            assert(stated.sampling_frequencies.contains(first));
            assert(names_rate(items, first.0));
        }
    }
    if none_of(items, 3) {
        if stated.channel_counts.len() > 0 {
            let first = stated.channel_counts[0];
            assert(stated.channel_counts.contains(first));
            assert(names_count(items, first));
        }
    }
}

/// Whether one of the elements states the rate of a frequency code: a rates
/// element, little-endian, whose bit below the code is set.
pub open spec fn names_rate(items: Seq<(u8, Seq<u8>)>, code: u8) -> bool {
    1 <= code <= 13 && exists|i: int|
        0 <= i < items.len() && (#[trigger] items[i]).0 == 1 && items[i].1.len() >= 2 && ((
        items[i].1[0] + 256 * items[i].1[1]) as u16 >> ((code - 1) as u16)) % 2 == 1
}

/// Whether one of the elements states a channel count: a counts element whose bit
/// below the count is set.
pub open spec fn names_count(items: Seq<(u8, Seq<u8>)>, count: u8) -> bool {
    1 <= count <= 8 && exists|i: int|
        0 <= i < items.len() && (#[trigger] items[i]).0 == 3 && items[i].1.len() >= 1
            && (items[i].1[0] >> ((count - 1) as u8)) % 2 == 1
}

proof fn lemma_frequencies_of(bits: u16, upto: u16, code: u8)
    requires
        upto <= 13,
    ensures
        frequencies_of(bits, upto).contains(SamplingFrequency(code)) <==> 1 <= code <= upto && (bits
            >> ((code - 1) as u16)) % 2 == 1,
    decreases upto,
{
    let wanted = SamplingFrequency(code);
    let list = frequencies_of(bits, upto);
    if upto > 0 {
        let before = frequencies_of(bits, (upto - 1) as u16);
        lemma_frequencies_of(bits, (upto - 1) as u16, code);
        let k = (upto - 1) as u16;
        assert((bits & (1u16 << k) != 0) == ((bits >> k) % 2 == 1)) by (bit_vector)
            requires
                k < 13,
        ;
        if before.contains(wanted) {
            let at = choose|i: int| 0 <= i < before.len() && before[i] == wanted;
            assert(list[at] == wanted);
        }
        if list.contains(wanted) && !before.contains(wanted) {
            let at = choose|i: int| 0 <= i < list.len() && list[i] == wanted;
            if at < before.len() {
                assert(before[at] == wanted);
            }
        }
        if code == upto && bits & (1u16 << k) != 0 {
            assert(list[before.len() as int] == wanted);
        }
    }
}

proof fn lemma_channel_counts_of(bits: u8, upto: u8, count: u8)
    requires
        upto <= 8,
    ensures
        channel_counts_of(bits, upto).contains(count) <==> 1 <= count <= upto && (bits >> ((count
            - 1) as u8)) % 2 == 1,
    decreases upto,
{
    let list = channel_counts_of(bits, upto);
    if upto > 0 {
        let before = channel_counts_of(bits, (upto - 1) as u8);
        lemma_channel_counts_of(bits, (upto - 1) as u8, count);
        let k = (upto - 1) as u8;
        assert((bits & (1u8 << k) != 0) == ((bits >> k) % 2 == 1)) by (bit_vector)
            requires
                k < 8,
        ;
        if before.contains(count) {
            let at = choose|i: int| 0 <= i < before.len() && before[i] == count;
            assert(list[at] == count);
        }
        if list.contains(count) && !before.contains(count) {
            let at = choose|i: int| 0 <= i < list.len() && list[i] == count;
            if at < before.len() {
                assert(before[at] == count);
            }
        }
        if count == upto && bits & (1u8 << k) != 0 {
            assert(list[before.len() as int] == count);
        }
    }
}

proof fn lemma_joined_contains<T>(a: Seq<T>, b: Seq<T>, x: T)
    ensures
        (a + b).contains(x) <==> a.contains(x) || b.contains(x),
{
    let all = a + b;
    if a.contains(x) {
        let i = choose|i: int| 0 <= i < a.len() && a[i] == x;
        assert(all[i] == x);
    }
    if b.contains(x) {
        let i = choose|i: int| 0 <= i < b.len() && b[i] == x;
        assert(all[a.len() + i] == x);
    }
    if all.contains(x) {
        let i = choose|i: int| 0 <= i < all.len() && all[i] == x;
        if i < a.len() {
            assert(a[i] == x);
        } else {
            assert(b[i - a.len()] == x);
        }
    }
}

#[verifier::rlimit(60)]
proof fn lemma_lists_of(items: Seq<(u8, Seq<u8>)>)
    ensures
        ({
            let stated = with_capabilities(no_capabilities(1), items);
            &&& forall|code: u8|
                stated.sampling_frequencies.contains(SamplingFrequency(code)) <==> names_rate(
                    items,
                    code,
                )
            &&& forall|count: u8|
                stated.channel_counts.contains(count) <==> names_count(items, count)
        }),
    decreases items.len(),
{
    let stated = with_capabilities(no_capabilities(1), items);
    if items.len() == 0 {
    } else {
        let rest = items.drop_last();
        let (kind, value) = items.last();
        let before = with_capabilities(no_capabilities(1), rest);
        lemma_lists_of(rest);
        assert forall|code: u8|
            stated.sampling_frequencies.contains(SamplingFrequency(code)) <==> names_rate(
                items,
                code,
            ) by {
            if names_rate(rest, code) {
                let i = choose|i: int|
                    0 <= i < rest.len() && (#[trigger] rest[i]).0 == 1 && rest[i].1.len() >= 2 && ((
                    rest[i].1[0] + 256 * rest[i].1[1]) as u16 >> ((code - 1) as u16)) % 2 == 1;
                assert(items[i] == rest[i]);
                assert(names_rate(items, code));
            }
            if names_rate(items, code) {
                let i = choose|i: int|
                    0 <= i < items.len() && (#[trigger] items[i]).0 == 1 && items[i].1.len() >= 2
                        && ((items[i].1[0] + 256 * items[i].1[1]) as u16 >> ((code - 1) as u16)) % 2
                        == 1;
                if i < rest.len() {
                    assert(items[i] == rest[i]);
                    assert(names_rate(rest, code));
                }
            }
            if kind == 1 && value.len() >= 2 {
                let bits = u16_at(value, 0);
                lemma_frequencies_of(bits, 13, code);
                lemma_joined_contains(
                    before.sampling_frequencies,
                    frequencies_of(bits, 13),
                    SamplingFrequency(code),
                );
                assert(items[items.len() - 1] == (kind, value));
            }
        }
        assert forall|count: u8|
            stated.channel_counts.contains(count) <==> names_count(items, count) by {
            if names_count(rest, count) {
                let i = choose|i: int|
                    0 <= i < rest.len() && (#[trigger] rest[i]).0 == 3 && rest[i].1.len() >= 1 && (
                    rest[i].1[0] >> ((count - 1) as u8)) % 2 == 1;
                assert(items[i] == rest[i]);
                assert(names_count(items, count));
            }
            if names_count(items, count) {
                let i = choose|i: int|
                    0 <= i < items.len() && (#[trigger] items[i]).0 == 3 && items[i].1.len() >= 1
                        && (items[i].1[0] >> ((count - 1) as u8)) % 2 == 1;
                if i < rest.len() {
                    assert(items[i] == rest[i]);
                    assert(names_count(rest, count));
                }
            }
            if kind == 3 && value.len() >= 1 {
                lemma_channel_counts_of(value[0], 8, count);
                lemma_joined_contains(
                    before.channel_counts,
                    channel_counts_of(value[0], 8),
                    count,
                );
                assert(items[items.len() - 1] == (kind, value));
            }
        }
    }
}

/// A rate is supported exactly when a rates element of the record sets its bit,
/// and a channel count exactly when a counts element does; with no count stated
/// at all, one channel is meant.
pub proof fn every_stated_rate_and_count_is_supported(
    items: Seq<(u8, Seq<u8>)>,
    code: u8,
    count: u8,
)
    requires
        all_fit(items),
    ensures
        ({
            let caps = capabilities_of(ltv_bytes(items));
            &&& caps.sampling_frequencies.contains(SamplingFrequency(code)) <==> names_rate(
                items,
                code,
            )
            &&& caps.channel_counts.contains(count) <==> names_count(items, count) || (count == 1
                && forall|other: u8| !names_count(items, other))
        }),
{
    ltv_reads_back(items);
    lemma_lists_of(items);
    let stated = with_capabilities(no_capabilities(1), items);
    if stated.channel_counts.len() == 0 {
        assert forall|other: u8| !names_count(items, other) by {
            assert(!stated.channel_counts.contains(other));
        }
        assert(seq![1u8][0] == 1u8);
        assert(seq![1u8].contains(count) <==> count == 1);
        assert(!stated.channel_counts.contains(count));
    } else {
        assert(stated.channel_counts.contains(stated.channel_counts[0]));
        assert(names_count(items, stated.channel_counts[0]));
    }
    assert(stated.sampling_frequencies.contains(SamplingFrequency(code)) <==> names_rate(
        items,
        code,
    ));
    assert(stated.channel_counts.contains(count) <==> names_count(items, count));
}

/// A configuration is accepted exactly when the device lists its rate, does its
/// frame duration, allows its octets and, unless it claims no ear at all, lists
/// its number of channels. What it is refused for is the first of these that does
/// not hold.
pub proof fn a_configuration_is_refused_for_what_does_not_fit(
    caps: Capabilities,
    config: CodecConfiguration,
)
    ensures
        ({
            let rate = caps.sampling_frequencies.contains(config.sampling_frequency);
            let duration = if config.frame_duration.us() == 7_500 {
                caps.supports_7_5ms
            } else {
                caps.supports_10ms
            };
            let bounded = caps.min_octets_per_frame is Some && caps.max_octets_per_frame is Some;
            let octets = bounded ==> caps.min_octets_per_frame->0 <= config.octets_per_frame
                <= caps.max_octets_per_frame->0;
            let channels = config.channel_allocation == 0 || caps.channel_counts.contains(
                ones(config.channel_allocation) as u8,
            );
            match rejection_of(caps, config) {
                None => rate && duration && octets && channels,
                Some(ConfigRejection::SamplingFrequency) => !rate,
                Some(ConfigRejection::FrameDuration) => rate && !duration,
                Some(ConfigRejection::OctetsOutOfRange { min, max }) => rate && duration && !octets
                    && caps.min_octets_per_frame == Some(min) && caps.max_octets_per_frame == Some(
                    max,
                ),
                Some(ConfigRejection::ChannelCount) => rate && duration && octets && !channels,
            }
        }),
{
    reveal_with_fuel(ones, 2);
    lemma_some_bit(config.channel_allocation);
}

proof fn lemma_some_bit(value: u32)
    ensures
        ones(value) == 0 <==> value == 0,
    decreases value,
{
    if value > 0 {
        lemma_some_bit(value / 2);
    }
}

/// One record on the wire: coding format, company and vendor codec, then the
/// capabilities and the metadata, each behind its length.
pub open spec fn pac_bytes(
    coding_format: u8,
    company: u16,
    vendor: u16,
    raw: Seq<u8>,
    metadata: Seq<u8>,
) -> Seq<u8> {
    seq![
        coding_format,
        (company % 256) as u8,
        (company / 256) as u8,
        (vendor % 256) as u8,
        (vendor / 256) as u8,
        raw.len() as u8,
    ] + raw + seq![metadata.len() as u8] + metadata
}

/// Records read back field by field, one after the other: the first is what was
/// sent, and the rest is read from where its metadata ends.
#[verifier::rlimit(60)]
pub proof fn a_record_reads_back(
    coding_format: u8,
    company: u16,
    vendor: u16,
    raw: Seq<u8>,
    metadata: Seq<u8>,
    rest: Seq<u8>,
    count: nat,
)
    requires
        raw.len() < 256,
        metadata.len() < 256,
        count > 0,
    ensures
        ({
            let list = pac_records(
                pac_bytes(coding_format, company, vendor, raw, metadata) + rest,
                count,
            );
            &&& list.len() > 0
            &&& list[0].coding_format == coding_format
            &&& list[0].company_id == company
            &&& list[0].vendor_codec_id == vendor
            &&& list[0].raw == raw
            &&& list[0].capabilities == capabilities_of(raw)
            &&& list.skip(1) == pac_records(rest, (count - 1) as nat)
        }),
{
    let first = pac_bytes(coding_format, company, vendor, raw, metadata);
    let all = first + rest;
    let n = raw.len() as int;
    let m = metadata.len() as int;
    assert(all[0] == coding_format);
    assert(all[1] == (company % 256) as u8 && all[2] == (company / 256) as u8);
    assert(all[3] == (vendor % 256) as u8 && all[4] == (vendor / 256) as u8);
    assert(all[5] == n);
    assert(all.subrange(6, 6 + n) =~= raw);
    assert(all[6 + n] == m);
    assert(all.skip(7 + n + m) =~= rest);
    let list = pac_records(all, count);
    assert(list.skip(1) =~= pac_records(rest, (count - 1) as nat));
}

/// What goes to the device is, byte for byte: the rate code, the frame duration,
/// the ears, the octets per frame and, where there are several, the frames per
/// SDU, each behind its length and its kind.
#[verifier::rlimit(60)]
pub proof fn a_configuration_on_the_wire(config: CodecConfiguration)
    ensures
        ({
            let a = config.channel_allocation;
            let n = config.octets_per_frame;
            config.encoding() == seq![
                2u8,
                1,
                config.sampling_frequency.0,
                2,
                2,
                if config.frame_duration.us() == 7_500 {
                    0
                } else {
                    1
                },
                5,
                3,
                (a % 256) as u8,
                (a / 256 % 256) as u8,
                (a / 65536 % 256) as u8,
                (a / 16777216) as u8,
                3,
                4,
                (n % 256) as u8,
                (n / 256) as u8,
            ] + if config.frames_per_sdu > 1 {
                seq![2u8, 5, config.frames_per_sdu]
            } else {
                Seq::empty()
            }
        }),
{
    let items = config.items();
    reveal_with_fuel(ltv_bytes, 6);
    assert(items.skip(1).skip(1) =~= items.skip(2));
    assert(items.skip(2).skip(1) =~= items.skip(3));
    assert(items.skip(3).skip(1) =~= items.skip(4));
    if config.frames_per_sdu > 1 {
        assert(items.skip(4).skip(1) =~= items.skip(5));
    }
    let a = config.channel_allocation;
    let n = config.octets_per_frame;
    let bytes = seq![
        2u8,
        1,
        config.sampling_frequency.0,
        2,
        2,
        if config.frame_duration.us() == 7_500 {
            0
        } else {
            1
        },
        5,
        3,
        (a % 256) as u8,
        (a / 256 % 256) as u8,
        (a / 65536 % 256) as u8,
        (a / 16777216) as u8,
        3,
        4,
        (n % 256) as u8,
        (n / 256) as u8,
    ] + if config.frames_per_sdu > 1 {
        seq![2u8, 5, config.frames_per_sdu]
    } else {
        Seq::empty()
    };
    assert(config.encoding() =~= bytes);
}

/// A higher code is a higher rate, every rate is a whole multiple of 8 kHz or of
/// 11.025 kHz, and there are thirteen of them, from 8 kHz to 384 kHz.
pub proof fn frequency_codes_rise(a: u8, b: u8)
    ensures
        code_hz(a) is Some <==> 1 <= a <= 13,
        1 <= a < b <= 13 ==> code_hz(a)->0 < code_hz(b)->0,
        code_hz(1) == Some(8_000u32),
        code_hz(13) == Some(384_000u32),
        1 <= a <= 13 ==> code_hz(a)->0 % 8_000 == 0 || code_hz(a)->0 % 11_025 == 0,
        a == 2 || a == 4 || a == 7 || a == 9 || a == 11 <==> code_hz(a) is Some && code_hz(a)->0
            % 11_025 == 0,
        code_hz(8) == Some(48_000u32),
        code_hz(7) == Some(44_100u32),
        code_hz(3) == Some(16_000u32),
        code_hz(5) == Some(24_000u32),
        code_hz(6) == Some(32_000u32),
{
}

/// How many octets one SDU has: a frame for every ear that is claimed, or one
/// where none is, and that for every frame of the SDU.
pub proof fn an_sdu_holds_every_frame(config: CodecConfiguration)
    ensures
        config.channel_allocation == 1 || config.channel_allocation == 2
            || config.channel_allocation == 0 ==> config.channels() == 1,
        config.channel_allocation == 3 ==> config.channels() == 2,
        config.frames_per_sdu <= 1 ==> config.sdu_octets() == config.octets_per_frame
            * config.channels(),
        config.frames_per_sdu >= 1 ==> config.sdu_octets() == config.octets_per_frame
            * config.channels() * config.frames_per_sdu,
{
    reveal_with_fuel(ones, 4);
    let per = config.octets_per_frame * config.channels();
    assert(per * 1 == per);
}

/// The presets are what they are called: the low-latency one waits for the least
/// and presents soonest, the high-quality one has the most octets, the robust one
/// the lowest rate, and all are within what BAP allows: unframed at one frame per
/// SDU.
pub proof fn presets_are_what_they_are_called(preset: Preset, stereo: bool)
    ensures
        preset_numbers(Preset::LowLatency).1 <= preset_numbers(preset).1,
        preset_numbers(Preset::LowLatency).2 <= preset_numbers(preset).2,
        preset_numbers(Preset::LowLatency).0 <= preset_numbers(preset).0,
        !(preset is LowLatency) ==> preset_numbers(Preset::LowLatency).1 < preset_numbers(preset).1
            && preset_numbers(preset).2 == 40_000,
        preset_codec(preset, stereo).octets_per_frame <= preset_codec(
            Preset::HighQuality,
            stereo,
        ).octets_per_frame,
        !(preset is Robust) ==> code_hz(preset_codec(preset, stereo).sampling_frequency.0) == Some(
            48_000u32,
        ),
        code_hz(preset_codec(Preset::Robust, stereo).sampling_frequency.0) == Some(24_000u32),
        preset_codec(preset, stereo).frames_per_sdu == 1,
        preset_codec(preset, stereo).channel_allocation == if stereo {
            3u32
        } else {
            1u32
        },
        preset_codec(Preset::WindowsDefault, stereo).frame_duration.us() == 7_500,
        preset_codec(Preset::LowLatency, stereo).frame_duration.us() == 7_500,
        preset_codec(Preset::HighQuality, stereo).frame_duration.us() == 10_000,
        preset_codec(Preset::Robust, stereo).frame_duration.us() == 10_000,
        // 96 kbit/s as the Windows driver asks for, 124 kbit/s at the ceiling.
        preset_codec(Preset::WindowsDefault, stereo).octets_per_frame * 8 * 400 == 96_000 * 3,
        preset_codec(Preset::HighQuality, stereo).octets_per_frame * 8 * 100 == 124_000,
        preset_codec(Preset::LowLatency, stereo).octets_per_frame * 8 * 400 == 80_000 * 3,
        preset_codec(Preset::Robust, stereo).octets_per_frame * 8 * 100 == 48_000,
{
}

/// Both channels go in one stream only where the device says that it takes two
/// channels and two frames at once.
pub proof fn stereo_needs_two_channels_and_two_frames(caps: Capabilities)
    ensures
        caps.does_stereo() ==> caps.max_frames_per_sdu > 1 && rejection_of(
            caps,
            CodecConfiguration {
                sampling_frequency: caps.sampling_frequencies[0],
                frame_duration: FrameDuration::Ms10,
                channel_allocation: 3,
                octets_per_frame: 0,
                frames_per_sdu: 1,
            },
        ) != Some(ConfigRejection::ChannelCount),
        !caps.channel_counts.contains(2) ==> !caps.does_stereo(),
        caps.max_frames_per_sdu < 2 ==> !caps.does_stereo(),
        caps.channel_counts.contains(2) && caps.max_frames_per_sdu >= 2 ==> caps.does_stereo(),
{
    reveal_with_fuel(ones, 3);
    assert(ones(3) == 2);
}

/// The bits of the capabilities count from the lowest code up: bit `b` is supported
/// exactly when its code is listed.
pub proof fn a_bit_stands_for_its_code(items: Seq<(u8, Seq<u8>)>, bit: u32)
    requires
        all_fit(items),
    ensures
        code_of_bit(bit) is Some <==> bit <= 12,
        code_of_bit(bit) matches Some(code) ==> code.0 == bit + 1 && (capabilities_of(
            ltv_bytes(items),
        ).sampling_frequencies.contains(code) <==> exists|i: int|
            0 <= i < items.len() && (#[trigger] items[i]).0 == 1 && items[i].1.len() >= 2 && ((
            items[i].1[0] + 256 * items[i].1[1]) as u16 >> (bit as u16)) % 2 == 1),
{
    if bit <= 12 {
        every_stated_rate_and_count_is_supported(items, (bit + 1) as u8, 0);
    }
}

/// Audio is late by its frame, its transport and its presentation together, so none
/// of the three can be shortened without the whole being shorter.
pub proof fn every_delay_counts(qos: QosConfiguration, codec: CodecConfiguration, more: u16)
    requires
        qos.max_transport_latency_ms + more <= u16::MAX,
    ensures
        (QosConfiguration {
            max_transport_latency_ms: (qos.max_transport_latency_ms + more) as u16,
            ..qos
        }).latency_with(codec) == qos.latency_with(codec) + more,
        qos.max_transport_latency_ms == 0 && qos.presentation_delay_us < 1000 ==> qos.latency_with(
            codec,
        ) == if codec.frame_duration.us() == 10_000 {
            10int
        } else {
            7int
        },
        qos.latency_with(codec) >= qos.presentation_delay_us as int / 1000
            + qos.max_transport_latency_ms + 7,
{
}

/// A preset's transport carries its codec: one SDU per frame, unframed, over 2M.
pub proof fn a_preset_carries_its_codec(preset: Preset, codec: CodecConfiguration)
    requires
        codec.sdu_octets() <= 0xFFFF,
        codec.sdu_octets() >= 0,
    ensures
        ({
            let qos = preset_qos(preset, codec);
            &&& qos.sdu_interval_us == codec.frame_duration.us()
            &&& qos.max_sdu == codec.sdu_octets()
            &&& qos.framing == 0 && qos.phy == 2
            &&& (
                qos.retransmission_number,
                qos.max_transport_latency_ms,
                qos.presentation_delay_us,
            ) == preset_numbers(preset)
        }),
{
}

} // verus!
