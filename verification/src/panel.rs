//! What the settings page offers, and what it can say of a device.

use crate::audio::{cable_name, AudioDevice};
use crate::bap::{code_hz, pac_views, Pac, PacRecord, SamplingFrequency};
use crate::text::lowercase;
use vstd::prelude::*;
use vstd::string::*;

verus! {

// ---- Sources ----

/// One entry of a list to pick from.
#[derive(Debug, PartialEq, Eq)]
pub struct Choice {
    pub value: String,
    pub label: String,
}

/// What an entry holds: its value and its label.
pub open spec fn choice_views(choices: Seq<Choice>) -> Seq<(Seq<char>, Seq<char>)> {
    Seq::new(choices.len(), |i: int| (choices[i].value@, choices[i].label@))
}

/// The endpoints that music can be taken from.
pub open spec fn playback_choices(devices: Seq<AudioDevice>) -> Seq<(Seq<char>, Seq<char>)> {
    Seq::new(devices.len(), |i: int| (devices[i].id@, devices[i].name@))
}

/// The endpoints that are real microphones, in order.
pub open spec fn real_microphones(devices: Seq<AudioDevice>) -> Seq<(Seq<char>, Seq<char>)>
    decreases devices.len(),
{
    if devices.len() == 0 {
        Seq::empty()
    } else {
        let before = real_microphones(devices.drop_last());
        if cable_name(lowercase(devices.last().name@)) {
            before
        } else {
            before.push((devices.last().id@, devices.last().name@))
        }
    }
}

/// What can be monitored: the default microphone, every other real one, and the
/// headset's own while it is switched on.
pub open spec fn monitor_choices(devices: Seq<AudioDevice>, microphone: bool) -> Seq<
    (Seq<char>, Seq<char>),
> {
    let always = seq![("default"@, "Windows default microphone"@)] + real_microphones(devices);
    if microphone {
        always.push(("headset"@, "Headset microphone (LE Audio)"@))
    } else {
        always
    }
}

/// The endpoints that music can be taken from: every one that captures.
pub fn playback_options(devices: &[AudioDevice]) -> (choices: Vec<Choice>)
    ensures
        choice_views(choices@) == playback_choices(devices@),
{
    let mut choices: Vec<Choice> = Vec::new();
    let mut i: usize = 0;
    while i < devices.len()
        invariant
            i <= devices@.len(),
            choice_views(choices@) =~= playback_choices(devices@).take(i as int),
        decreases devices@.len() - i,
    {
        let ghost held = choice_views(choices@);
        choices.push(Choice { value: devices[i].id.clone(), label: devices[i].name.clone() });
        assert(choice_views(choices@) =~= held.push((devices@[i as int].id@, devices@[i as int].name@)));
        i = i + 1;
    }
    assert(choice_views(choices@) =~= playback_choices(devices@));
    choices
}

/// What can be monitored. A cable is not: it carries the music itself.
pub fn monitor_options(devices: &[AudioDevice], microphone: bool) -> (choices: Vec<Choice>)
    ensures
        choice_views(choices@) == monitor_choices(devices@, microphone),
{
    let mut choices: Vec<Choice> = Vec::new();
    choices.push(
        Choice {
            value: String::from_str("default"),
            label: String::from_str("Windows default microphone"),
        },
    );
    let ghost first = seq![("default"@, "Windows default microphone"@)];
    let mut i: usize = 0;
    assert(devices@.take(0) =~= Seq::<AudioDevice>::empty());
    assert(choice_views(choices@) =~= first + real_microphones(devices@.take(0)));
    while i < devices.len()
        invariant
            i <= devices@.len(),
            choice_views(choices@) == first + real_microphones(devices@.take(i as int)),
        decreases devices@.len() - i,
    {
        let ghost held = choice_views(choices@);
        assert(devices@.take(i + 1).drop_last() =~= devices@.take(i as int));
        if !devices[i].is_virtual_cable() {
            choices.push(Choice { value: devices[i].id.clone(), label: devices[i].name.clone() });
            assert(choice_views(choices@) =~= held.push(
                (devices@[i as int].id@, devices@[i as int].name@),
            ));
            assert(choice_views(choices@) =~= first + real_microphones(devices@.take(i + 1)));
        }
        i = i + 1;
    }
    assert(devices@.take(i as int) =~= devices@);
    if microphone {
        let ghost held = choice_views(choices@);
        choices.push(
            Choice {
                value: String::from_str("headset"),
                label: String::from_str("Headset microphone (LE Audio)"),
            },
        );
        assert(choice_views(choices@) =~= held.push(
            ("headset"@, "Headset microphone (LE Audio)"@),
        ));
    }
    choices
}

// ---- What a device accepts ----

/// Whether numbers stand in ascending order, each once.
pub open spec fn is_ascending(list: Seq<u32>) -> bool {
    forall|i: int, j: int| 0 <= i < j < list.len() ==> list[i] < list[j]
}

/// Whether a list holds exactly the numbers of a set.
pub open spec fn lists(list: Seq<u32>, numbers: Set<u32>) -> bool {
    &&& is_ascending(list)
    &&& forall|n: u32| #[trigger] list.contains(n) <==> numbers.contains(n)
}

/// The rates among some frequencies.
pub open spec fn rates_in(frequencies: Seq<SamplingFrequency>) -> Set<u32>
    decreases frequencies.len(),
{
    if frequencies.len() == 0 {
        Set::empty()
    } else {
        let before = rates_in(frequencies.drop_last());
        match code_hz(frequencies.last().0) {
            Some(hz) => before.insert(hz),
            None => before,
        }
    }
}

/// The numbers among some channel counts.
pub open spec fn counts_in(counts: Seq<u8>) -> Set<u32>
    decreases counts.len(),
{
    if counts.len() == 0 {
        Set::empty()
    } else {
        counts_in(counts.drop_last()).insert(counts.last() as u32)
    }
}

/// The smaller of a number and one that may be missing.
pub open spec fn lower_of(held: Option<u16>, other: Option<u16>) -> Option<u16> {
    match (held, other) {
        (Some(a), Some(b)) => Some(
            if a <= b {
                a
            } else {
                b
            },
        ),
        (Some(a), None) => Some(a),
        (None, other) => other,
    }
}

/// The larger of a number and one that may be missing.
pub open spec fn higher_of(held: Option<u16>, other: Option<u16>) -> Option<u16> {
    match (held, other) {
        (Some(a), Some(b)) => Some(
            if a >= b {
                a
            } else {
                b
            },
        ),
        (Some(a), None) => Some(a),
        (None, other) => other,
    }
}

/// Everything a device said it can accept, flattened into one shape.
pub struct Accepted {
    pub rates: Set<u32>,
    pub channels: Set<u32>,
    pub short_frames: bool,
    pub long_frames: bool,
    pub octets_min: Option<u16>,
    pub octets_max: Option<u16>,
    pub max_frames_per_sdu: u8,
}

/// The sum of what the LC3 records say.
pub open spec fn accepted(records: Seq<Pac>) -> Accepted
    decreases records.len(),
{
    if records.len() == 0 {
        Accepted {
            rates: Set::empty(),
            channels: Set::empty(),
            short_frames: false,
            long_frames: false,
            octets_min: None,
            octets_max: None,
            max_frames_per_sdu: 0,
        }
    } else {
        let before = accepted(records.drop_last());
        let own = records.last();
        if own.coding_format != 0x06 {
            before
        } else {
            let caps = own.capabilities;
            Accepted {
                rates: before.rates.union(rates_in(caps.sampling_frequencies)),
                channels: before.channels.union(counts_in(caps.channel_counts)),
                short_frames: before.short_frames || caps.supports_7_5ms,
                long_frames: before.long_frames || caps.supports_10ms,
                octets_min: lower_of(before.octets_min, caps.min_octets_per_frame),
                octets_max: higher_of(before.octets_max, caps.max_octets_per_frame),
                max_frames_per_sdu: if caps.max_frames_per_sdu > before.max_frames_per_sdu {
                    caps.max_frames_per_sdu
                } else {
                    before.max_frames_per_sdu
                },
            }
        }
    }
}

/// The frame durations in microseconds.
pub open spec fn durations(short: bool, long: bool) -> Seq<u32> {
    let first: Seq<u32> = if short {
        seq![7_500u32]
    } else {
        Seq::empty()
    };
    if long {
        first.push(10_000u32)
    } else {
        first
    }
}

/// Everything a device said it can accept. Lists are in ascending order.
#[derive(Debug, PartialEq, Eq)]
pub struct Envelope {
    pub rates: Vec<u32>,
    pub channels: Vec<u32>,
    pub frames_us: Vec<u32>,
    pub octets_min: Option<u16>,
    pub octets_max: Option<u16>,
    pub max_frames_per_sdu: u8,
}

impl Envelope {
    /// Whether this is the sum of what the records say.
    pub open spec fn covers(self, all: Accepted) -> bool {
        &&& lists(self.rates@, all.rates)
        &&& lists(self.channels@, all.channels)
        &&& self.frames_us@ == durations(all.short_frames, all.long_frames)
        &&& self.octets_min == all.octets_min
        &&& self.octets_max == all.octets_max
        &&& self.max_frames_per_sdu == all.max_frames_per_sdu
    }
}

/// Puts a number into its place, unless it is there already.
fn put(list: &mut Vec<u32>, number: u32, Ghost(numbers): Ghost<Set<u32>>)
    requires
        lists(old(list)@, numbers),
    ensures
        lists(final(list)@, numbers.insert(number)),
{
    let ghost held = list@;
    let mut i: usize = 0;
    while i < list.len() && list[i] < number
        invariant
            i <= list@.len(),
            list@ == held,
            is_ascending(held),
            forall|j: int| 0 <= j < i ==> held[j] < number,
        decreases list@.len() - i,
    {
        i = i + 1;
    }
    if i < list.len() && list[i] == number {
        assert(held.contains(number)) by {
            assert(held[i as int] == number);
        }
        assert(numbers.insert(number) =~= numbers);
        return;
    }
    list.insert(i, number);
    proof {
        let now = list@;
        assert(now =~= held.insert(i as int, number));
        assert forall|n: u32| #[trigger] now.contains(n) <==> numbers.insert(number).contains(n) by {
            if now.contains(n) {
                let k = choose|k: int| 0 <= k < now.len() && now[k] == n;
                if k < i {
                    assert(held[k] == n);
                    assert(held.contains(n));
                } else if k > i {
                    assert(held[k - 1] == n);
                    assert(held.contains(n));
                }
            }
            if n == number {
                assert(now[i as int] == n);
                assert(now.contains(n));
            } else if numbers.contains(n) {
                assert(held.contains(n));
                let k = choose|k: int| 0 <= k < held.len() && held[k] == n;
                if k < i {
                    assert(now[k] == n);
                } else {
                    assert(now[k + 1] == n);
                }
                assert(now.contains(n));
            }
        }
    }
}

fn put_rates(
    list: &mut Vec<u32>,
    frequencies: &Vec<SamplingFrequency>,
    Ghost(numbers): Ghost<Set<u32>>,
)
    requires
        lists(old(list)@, numbers),
    ensures
        lists(final(list)@, numbers.union(rates_in(frequencies@))),
{
    let mut i: usize = 0;
    assert(frequencies@.take(0) =~= Seq::<SamplingFrequency>::empty());
    assert(numbers.union(rates_in(frequencies@.take(0))) =~= numbers);
    while i < frequencies.len()
        invariant
            i <= frequencies@.len(),
            lists(list@, numbers.union(rates_in(frequencies@.take(i as int)))),
        decreases frequencies@.len() - i,
    {
        assert(frequencies@.take(i + 1).drop_last() =~= frequencies@.take(i as int));
        let ghost before = rates_in(frequencies@.take(i as int));
        if let Some(hz) = frequencies[i].hz() {
            put(list, hz, Ghost(numbers.union(before)));
            assert(numbers.union(before).insert(hz) =~= numbers.union(before.insert(hz)));
        }
        i = i + 1;
    }
    assert(frequencies@.take(i as int) =~= frequencies@);
}

fn put_counts(list: &mut Vec<u32>, counts: &Vec<u8>, Ghost(numbers): Ghost<Set<u32>>)
    requires
        lists(old(list)@, numbers),
    ensures
        lists(final(list)@, numbers.union(counts_in(counts@))),
{
    let mut i: usize = 0;
    assert(counts@.take(0) =~= Seq::<u8>::empty());
    assert(numbers.union(counts_in(counts@.take(0))) =~= numbers);
    while i < counts.len()
        invariant
            i <= counts@.len(),
            lists(list@, numbers.union(counts_in(counts@.take(i as int)))),
        decreases counts@.len() - i,
    {
        assert(counts@.take(i + 1).drop_last() =~= counts@.take(i as int));
        let ghost before = counts_in(counts@.take(i as int));
        let count = counts[i] as u32;
        put(list, count, Ghost(numbers.union(before)));
        assert(numbers.union(before).insert(count) =~= numbers.union(before.insert(count)));
        i = i + 1;
    }
    assert(counts@.take(i as int) =~= counts@);
}

fn lower(held: Option<u16>, other: Option<u16>) -> (result: Option<u16>)
    ensures
        result == lower_of(held, other),
{
    match (held, other) {
        (Some(a), Some(b)) => if a <= b {
            Some(a)
        } else {
            Some(b)
        },
        (Some(a), None) => Some(a),
        (None, other) => other,
    }
}

fn higher(held: Option<u16>, other: Option<u16>) -> (result: Option<u16>)
    ensures
        result == higher_of(held, other),
{
    match (held, other) {
        (Some(a), Some(b)) => if a >= b {
            Some(a)
        } else {
            Some(b)
        },
        (Some(a), None) => Some(a),
        (None, other) => other,
    }
}

/// Everything the device said it can accept, flattened into one shape.
///
/// Each PAC record covers one part of what a device supports, and the sum of
/// them is what it will actually take. The octets are the widest range any
/// record allows: a value outside every record is certain to be refused, one
/// inside a record the device only offers at another sample rate is a maybe.
pub fn codec_envelope(records: &[PacRecord]) -> (envelope: Envelope)
    ensures
        envelope.covers(accepted(pac_views(records@))),
{
    let mut rates: Vec<u32> = Vec::new();
    let mut channels: Vec<u32> = Vec::new();
    let mut short = false;
    let mut long = false;
    let mut octets_min: Option<u16> = None;
    let mut octets_max: Option<u16> = None;
    let mut max_frames_per_sdu: u8 = 0;
    let ghost views = pac_views(records@);
    let mut i: usize = 0;
    assert(views.take(0) =~= Seq::<Pac>::empty());
    while i < records.len()
        invariant
            i <= records@.len(),
            views == pac_views(records@),
            ({
                let all = accepted(views.take(i as int));
                &&& lists(rates@, all.rates)
                &&& lists(channels@, all.channels)
                &&& short == all.short_frames
                &&& long == all.long_frames
                &&& octets_min == all.octets_min
                &&& octets_max == all.octets_max
                &&& max_frames_per_sdu == all.max_frames_per_sdu
            }),
        decreases records@.len() - i,
    {
        assert(views.take(i + 1).drop_last() =~= views.take(i as int));
        assert(views.take(i + 1).last() == records@[i as int]@);
        let ghost all = accepted(views.take(i as int));
        let record = &records[i];
        if record.is_lc3() {
            let caps = &record.capabilities;
            put_rates(&mut rates, &caps.sampling_frequencies, Ghost(all.rates));
            put_counts(&mut channels, &caps.channel_counts, Ghost(all.channels));
            short = short || caps.supports_7_5ms;
            long = long || caps.supports_10ms;
            octets_min = lower(octets_min, caps.min_octets_per_frame);
            octets_max = higher(octets_max, caps.max_octets_per_frame);
            if caps.max_frames_per_sdu > max_frames_per_sdu {
                max_frames_per_sdu = caps.max_frames_per_sdu;
            }
        }
        i = i + 1;
    }
    assert(views.take(i as int) =~= views);
    let mut frames_us: Vec<u32> = Vec::new();
    if short {
        frames_us.push(7_500);
    }
    if long {
        frames_us.push(10_000);
    }
    assert(frames_us@ =~= durations(short, long));
    Envelope { rates, channels, frames_us, octets_min, octets_max, max_frames_per_sdu }
}

/// The rates of some frequencies, in order. A code without a rate is left out.
pub open spec fn rate_list(frequencies: Seq<SamplingFrequency>) -> Seq<u32>
    decreases frequencies.len(),
{
    if frequencies.len() == 0 {
        Seq::empty()
    } else {
        let before = rate_list(frequencies.drop_last());
        match code_hz(frequencies.last().0) {
            Some(hz) => before.push(hz),
            None => before,
        }
    }
}

/// What one record offers.
#[derive(Debug, PartialEq, Eq)]
pub struct Offer {
    pub rates: Vec<u32>,
    pub frames_us: Vec<u32>,
    pub channels: Vec<u8>,
    pub octets_min: Option<u16>,
    pub octets_max: Option<u16>,
    pub max_frames_per_sdu: u8,
}

impl Offer {
    /// Whether this is what capabilities say.
    pub open spec fn is_of(self, caps: crate::bap::Capabilities) -> bool {
        &&& self.rates@ == rate_list(caps.sampling_frequencies)
        &&& self.frames_us@ == durations(caps.supports_7_5ms, caps.supports_10ms)
        &&& self.channels@ == caps.channel_counts
        &&& self.octets_min == caps.min_octets_per_frame
        &&& self.octets_max == caps.max_octets_per_frame
        &&& self.max_frames_per_sdu == caps.max_frames_per_sdu
    }
}

/// What one record offers, or nothing when it is not for LC3.
pub fn record_offer(record: &PacRecord) -> (offer: Option<Offer>)
    ensures
        if record@.coding_format == 0x06 {
            offer matches Some(own) && own.is_of(record@.capabilities)
        } else {
            offer is None
        },
{
    if !record.is_lc3() {
        return None;
    }
    let caps = &record.capabilities;
    let mut rates: Vec<u32> = Vec::new();
    let ghost frequencies = caps.sampling_frequencies@;
    let mut i: usize = 0;
    assert(frequencies.take(0) =~= Seq::<SamplingFrequency>::empty());
    assert(rates@ =~= rate_list(frequencies.take(0)));
    while i < caps.sampling_frequencies.len()
        invariant
            i <= frequencies.len(),
            frequencies == caps.sampling_frequencies@,
            rates@ == rate_list(frequencies.take(i as int)),
        decreases frequencies.len() - i,
    {
        assert(frequencies.take(i + 1).drop_last() =~= frequencies.take(i as int));
        if let Some(hz) = caps.sampling_frequencies[i].hz() {
            rates.push(hz);
        }
        i = i + 1;
    }
    assert(frequencies.take(i as int) =~= frequencies);
    let mut frames_us: Vec<u32> = Vec::new();
    if caps.supports_7_5ms {
        frames_us.push(7_500);
    }
    if caps.supports_10ms {
        frames_us.push(10_000);
    }
    assert(frames_us@ =~= durations(caps.supports_7_5ms, caps.supports_10ms));
    Some(
        Offer {
            rates,
            frames_us,
            channels: crate::bytes::copy_bytes(&caps.channel_counts),
            octets_min: caps.min_octets_per_frame,
            octets_max: caps.max_octets_per_frame,
            max_frames_per_sdu: caps.max_frames_per_sdu,
        },
    )
}

/// What one record offers stays on offer in the sum: every rate, every channel
/// count, and every octet count of an LC3 record lies inside the envelope.
pub proof fn the_envelope_covers_every_record(records: Seq<Pac>, i: int)
    requires
        0 <= i < records.len(),
        records[i].coding_format == 0x06,
    ensures
        ({
            let all = accepted(records);
            let own = records[i].capabilities;
            &&& rates_in(own.sampling_frequencies).subset_of(all.rates)
            &&& counts_in(own.channel_counts).subset_of(all.channels)
            &&& own.supports_7_5ms ==> all.short_frames
            &&& own.supports_10ms ==> all.long_frames
            &&& own.min_octets_per_frame matches Some(min) ==> (all.octets_min matches Some(least)
                && least <= min)
            &&& own.max_octets_per_frame matches Some(max) ==> (all.octets_max matches Some(most)
                && most >= max)
            &&& own.max_frames_per_sdu <= all.max_frames_per_sdu
        }),
    decreases records.len(),
{
    if i < records.len() - 1 {
        the_envelope_covers_every_record(records.drop_last(), i);
    }
}

/// A rate is shown exactly when some LC3 record lists a code for it, a channel count
/// when some record lists it, and a frame duration when some record does it; nothing
/// is shown that no record offers.
#[verifier::rlimit(60)]
pub proof fn the_envelope_shows_nothing_else(records: Seq<Pac>, rate: u32, count: u32)
    ensures
        ({
            let all = accepted(records);
            &&& all.rates.contains(rate) <==> exists|i: int|
                0 <= i < records.len() && (#[trigger] records[i]).coding_format == 6 && rates_in(
                    records[i].capabilities.sampling_frequencies,
                ).contains(rate)
            &&& all.channels.contains(count) <==> exists|i: int|
                0 <= i < records.len() && (#[trigger] records[i]).coding_format == 6 && counts_in(
                    records[i].capabilities.channel_counts,
                ).contains(count)
            &&& all.short_frames <==> exists|i: int|
                0 <= i < records.len() && (#[trigger] records[i]).coding_format == 6
                    && records[i].capabilities.supports_7_5ms
            &&& all.long_frames <==> exists|i: int|
                0 <= i < records.len() && (#[trigger] records[i]).coding_format == 6
                    && records[i].capabilities.supports_10ms
            &&& all.octets_min is Some ==> exists|i: int|
                0 <= i < records.len() && (#[trigger] records[i]).coding_format == 6
                    && records[i].capabilities.min_octets_per_frame == all.octets_min
            &&& all.octets_max is Some ==> exists|i: int|
                0 <= i < records.len() && (#[trigger] records[i]).coding_format == 6
                    && records[i].capabilities.max_octets_per_frame == all.octets_max
        }),
    decreases records.len(),
{
    if records.len() > 0 {
        let rest = records.drop_last();
        let last = records.last();
        the_envelope_shows_nothing_else(rest, rate, count);
        assert(forall|i: int| 0 <= i < rest.len() ==> #[trigger] rest[i] == records[i]);
        assert(records[records.len() - 1] == last);
        let all = accepted(records);
        let before = accepted(rest);
        if before.rates.contains(rate) {
            let i = choose|i: int|
                0 <= i < rest.len() && (#[trigger] rest[i]).coding_format == 6 && rates_in(
                    rest[i].capabilities.sampling_frequencies,
                ).contains(rate);
            assert(records[i] == rest[i]);
        }
        if exists|i: int|
            0 <= i < records.len() && (#[trigger] records[i]).coding_format == 6 && rates_in(
                records[i].capabilities.sampling_frequencies,
            ).contains(rate) {
            let i = choose|i: int|
                0 <= i < records.len() && (#[trigger] records[i]).coding_format == 6 && rates_in(
                    records[i].capabilities.sampling_frequencies,
                ).contains(rate);
            if i < rest.len() {
                assert(rest[i] == records[i]);
            }
        }
        if before.channels.contains(count) {
            let i = choose|i: int|
                0 <= i < rest.len() && (#[trigger] rest[i]).coding_format == 6 && counts_in(
                    rest[i].capabilities.channel_counts,
                ).contains(count);
            assert(records[i] == rest[i]);
        }
        if exists|i: int|
            0 <= i < records.len() && (#[trigger] records[i]).coding_format == 6 && counts_in(
                records[i].capabilities.channel_counts,
            ).contains(count) {
            let i = choose|i: int|
                0 <= i < records.len() && (#[trigger] records[i]).coding_format == 6 && counts_in(
                    records[i].capabilities.channel_counts,
                ).contains(count);
            if i < rest.len() {
                assert(rest[i] == records[i]);
            }
        }
        if before.short_frames {
            let i = choose|i: int|
                0 <= i < rest.len() && (#[trigger] rest[i]).coding_format == 6
                    && rest[i].capabilities.supports_7_5ms;
            assert(records[i] == rest[i]);
        }
        if exists|i: int|
            0 <= i < records.len() && (#[trigger] records[i]).coding_format == 6
                && records[i].capabilities.supports_7_5ms {
            let i = choose|i: int|
                0 <= i < records.len() && (#[trigger] records[i]).coding_format == 6
                    && records[i].capabilities.supports_7_5ms;
            if i < rest.len() {
                assert(rest[i] == records[i]);
            }
        }
        if before.long_frames {
            let i = choose|i: int|
                0 <= i < rest.len() && (#[trigger] rest[i]).coding_format == 6
                    && rest[i].capabilities.supports_10ms;
            assert(records[i] == rest[i]);
        }
        if exists|i: int|
            0 <= i < records.len() && (#[trigger] records[i]).coding_format == 6
                && records[i].capabilities.supports_10ms {
            let i = choose|i: int|
                0 <= i < records.len() && (#[trigger] records[i]).coding_format == 6
                    && records[i].capabilities.supports_10ms;
            if i < rest.len() {
                assert(rest[i] == records[i]);
            }
        }
        if before.octets_min is Some && all.octets_min == before.octets_min {
            let i = choose|i: int|
                0 <= i < rest.len() && (#[trigger] rest[i]).coding_format == 6
                    && rest[i].capabilities.min_octets_per_frame == before.octets_min;
            assert(records[i] == rest[i]);
        }
        if before.octets_max is Some && all.octets_max == before.octets_max {
            let i = choose|i: int|
                0 <= i < rest.len() && (#[trigger] rest[i]).coding_format == 6
                    && rest[i].capabilities.max_octets_per_frame == before.octets_max;
            assert(records[i] == rest[i]);
        }
    }
}

/// The rates of a record are those of its codes, and its counts are its counts.
pub proof fn rates_and_counts_are_those_listed(
    frequencies: Seq<SamplingFrequency>,
    counts: Seq<u8>,
    rate: u32,
    count: u8,
)
    ensures
        rates_in(frequencies).contains(rate) <==> exists|i: int|
            0 <= i < frequencies.len() && code_hz((#[trigger] frequencies[i]).0) == Some(rate),
        counts_in(counts).contains(count as u32) <==> counts.contains(count),
    decreases frequencies.len() + counts.len(),
{
    if frequencies.len() > 0 {
        let rest = frequencies.drop_last();
        rates_and_counts_are_those_listed(rest, Seq::empty(), rate, count);
        assert(frequencies[frequencies.len() - 1] == frequencies.last());
        if rates_in(rest).contains(rate) {
            let i = choose|i: int|
                0 <= i < rest.len() && code_hz((#[trigger] rest[i]).0) == Some(rate);
            assert(frequencies[i] == rest[i]);
        }
        if exists|i: int|
            0 <= i < frequencies.len() && code_hz((#[trigger] frequencies[i]).0) == Some(rate) {
            let i = choose|i: int|
                0 <= i < frequencies.len() && code_hz((#[trigger] frequencies[i]).0) == Some(rate);
            if i < rest.len() {
                assert(rest[i] == frequencies[i]);
            }
        }
    }
    if counts.len() > 0 {
        let rest = counts.drop_last();
        rates_and_counts_are_those_listed(Seq::empty(), rest, rate, count);
        assert(counts[counts.len() - 1] == counts.last());
        if rest.contains(count) {
            let i = choose|i: int| 0 <= i < rest.len() && rest[i] == count;
            assert(counts[i] == count);
        }
        if counts.contains(count) {
            let i = choose|i: int| 0 <= i < counts.len() && counts[i] == count;
            if i < rest.len() {
                assert(rest[i] == count);
            }
        }
    }
}

/// Frames are listed shortest first, each where it is done.
pub proof fn frames_are_listed_shortest_first(short: bool, long: bool)
    ensures
        durations(short, long).contains(7_500) <==> short,
        durations(short, long).contains(10_000) <==> long,
        is_ascending(durations(short, long)),
        durations(true, true).len() == 2,
{
    let list = durations(short, long);
    if short {
        assert(list[0] == 7_500);
    }
    if long {
        assert(list[list.len() - 1] == 10_000);
    }
}

/// What can be monitored is Windows' own choice first, then every real microphone in
/// order and no cable, and the headset's own last where it is switched on. Everything
/// can be played from.
pub proof fn a_cable_is_no_microphone(devices: Seq<AudioDevice>, microphone: bool, i: int)
    requires
        0 <= i < devices.len(),
    ensures
        ({
            let own = (devices[i].id@, devices[i].name@);
            &&& !cable_name(lowercase(devices[i].name@)) ==> real_microphones(devices).contains(own)
            &&& monitor_choices(devices, microphone)[0].0 == "default"@
            &&& monitor_choices(devices, microphone).len() == 1 + real_microphones(devices).len()
                + if microphone {
                1int
            } else {
                0int
            }
            &&& microphone ==> monitor_choices(devices, microphone).last().0 == "headset"@
            &&& playback_choices(devices)[i] == own && playback_choices(devices).len()
                == devices.len()
        }),
        forall|choice: (Seq<char>, Seq<char>)| #[trigger]
            real_microphones(devices).contains(choice) ==> exists|k: int|
                0 <= k < devices.len() && (#[trigger] devices[k]).id@ == choice.0
                    && devices[k].name@ == choice.1 && !cable_name(lowercase(devices[k].name@)),
    decreases devices.len(),
{
    lemma_real_microphones(devices);
    let own = (devices[i].id@, devices[i].name@);
    if !cable_name(lowercase(devices[i].name@)) {
        assert(real_microphones(devices).contains(own));
    }
}

proof fn lemma_real_microphones(devices: Seq<AudioDevice>)
    ensures
        forall|choice: (Seq<char>, Seq<char>)| #[trigger]
            real_microphones(devices).contains(choice) <==> exists|k: int|
                0 <= k < devices.len() && (#[trigger] devices[k]).id@ == choice.0
                    && devices[k].name@ == choice.1 && !cable_name(lowercase(devices[k].name@)),
    decreases devices.len(),
{
    if devices.len() > 0 {
        let rest = devices.drop_last();
        let last = devices.last();
        lemma_real_microphones(rest);
        let before = real_microphones(rest);
        assert forall|choice: (Seq<char>, Seq<char>)| #[trigger]
            real_microphones(devices).contains(choice) <==> exists|k: int|
                0 <= k < devices.len() && (#[trigger] devices[k]).id@ == choice.0
                    && devices[k].name@ == choice.1 && !cable_name(
                    lowercase(devices[k].name@),
                ) by {
            let entry = (last.id@, last.name@);
            if before.contains(choice) {
                let k = choose|k: int|
                    0 <= k < rest.len() && (#[trigger] rest[k]).id@ == choice.0 && rest[k].name@
                        == choice.1 && !cable_name(lowercase(rest[k].name@));
                assert(devices[k] == rest[k]);
                let j = choose|j: int| 0 <= j < before.len() && before[j] == choice;
                assert(before.push(entry)[j] == choice);
            }
            if before.push(entry).contains(choice) && choice != entry {
                let j = choose|j: int|
                    0 <= j < before.push(entry).len() && before.push(entry)[j] == choice;
                assert(before[j] == choice);
            }
            assert(before.push(entry)[before.len() as int] == entry);
            assert(devices[devices.len() - 1] == last);
            if exists|k: int|
                0 <= k < devices.len() && (#[trigger] devices[k]).id@ == choice.0
                    && devices[k].name@ == choice.1 && !cable_name(lowercase(devices[k].name@)) {
                let k = choose|k: int|
                    0 <= k < devices.len() && (#[trigger] devices[k]).id@ == choice.0
                        && devices[k].name@ == choice.1 && !cable_name(
                        lowercase(devices[k].name@),
                    );
                if k < rest.len() {
                    assert(rest[k] == devices[k]);
                    assert(before.contains(choice));
                }
            }
        }
    }
}

/// What a record offers is listed in its own order, each code by its rate and those
/// without a rate left out.
pub proof fn an_offer_lists_the_rates_of_its_codes(
    frequencies: Seq<SamplingFrequency>,
    next: SamplingFrequency,
)
    ensures
        rate_list(Seq::empty()).len() == 0,
        code_hz(next.0) is Some ==> rate_list(frequencies.push(next)) == rate_list(
            frequencies,
        ).push(code_hz(next.0)->0),
        code_hz(next.0) is None ==> rate_list(frequencies.push(next)) == rate_list(frequencies),
{
    assert(frequencies.push(next).drop_last() =~= frequencies);
}

} // verus!
