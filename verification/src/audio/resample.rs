//! Converting one sample rate into another with an exact source position.
//!
//! The position is a whole number of source frames and a remainder over the
//! output rate, so nothing is ever rounded and nothing drifts. What comes out of
//! a pull are pairs of neighbouring samples and how far between them the output
//! lies; mixing the two is arithmetic on real numbers and left to the caller.

use std::collections::VecDeque;
use vstd::arithmetic::div_mod::{
    lemma_div_is_ordered, lemma_fundamental_div_mod, lemma_fundamental_div_mod_converse_div,
    lemma_fundamental_div_mod_converse_mod,
};
use vstd::arithmetic::mul::{
    lemma_mul_inequality, lemma_mul_is_commutative,
    lemma_mul_is_distributive_add_other_way, lemma_mul_is_distributive_sub_other_way,
};
use vstd::prelude::*;

verus! {

/// One output sample of one channel: `part` out of the output rate of the way
/// from `a` to `b`.
#[derive(Debug, Clone, Copy, PartialEq, Eq, Structural)]
pub struct Point {
    pub a: i16,
    pub b: i16,
    pub part: u64,
}

/// How many source frames the position `position` needs: the frame it falls in,
/// and the next one unless it falls exactly on a frame.
pub open spec fn reach(position: int, output_rate: int) -> int {
    position / output_rate + 1 + if position % output_rate != 0 {
        1int
    } else {
        0int
    }
}

/// Where in the source the frame number `frame` lies, over the output rate.
pub open spec fn position_of(phase: int, source_rate: int, frame: int) -> int {
    phase + frame * source_rate
}

/// How many source frames `frames` output frames use up.
pub open spec fn consumed(phase: int, source_rate: int, output_rate: int, frames: int) -> int {
    if frames == 0 {
        0
    } else {
        position_of(phase, source_rate, frames) / output_rate
    }
}

/// The phase after `frames` output frames.
pub open spec fn phase_after(phase: int, source_rate: int, output_rate: int, frames: int) -> int {
    if frames == 0 {
        phase
    } else {
        position_of(phase, source_rate, frames) % output_rate
    }
}

/// How many source frames have to be there for `frames` output frames.
pub open spec fn required(phase: int, source_rate: int, output_rate: int, frames: int) -> int {
    if frames == 0 {
        0
    } else {
        let used = consumed(phase, source_rate, output_rate, frames);
        let last = reach(position_of(phase, source_rate, frames - 1), output_rate);
        if used >= last {
            used
        } else {
            last
        }
    }
}

/// One channel at one position.
pub open spec fn point_at(
    pending: Seq<i16>,
    position: int,
    output_rate: int,
    channels: int,
    channel: int,
) -> Point {
    let left = position / output_rate;
    let part = position % output_rate;
    let a = pending[left * channels + channel];
    Point {
        a,
        b: if part == 0 {
            a
        } else {
            pending[(left + 1) * channels + channel]
        },
        part: part as u64,
    }
}

/// Every channel at one position, in order.
pub open spec fn frame_at(pending: Seq<i16>, position: int, output_rate: int, channels: int) -> Seq<
    Point,
> {
    Seq::new(
        channels as nat,
        |channel: int| point_at(pending, position, output_rate, channels, channel),
    )
}

/// The interleaved output of `frames` frames.
pub open spec fn points(
    pending: Seq<i16>,
    phase: int,
    source_rate: int,
    output_rate: int,
    channels: int,
    frames: nat,
) -> Seq<Point>
    decreases frames,
{
    if frames == 0 {
        Seq::empty()
    } else {
        points(pending, phase, source_rate, output_rate, channels, (frames - 1) as nat) + frame_at(
            pending,
            position_of(phase, source_rate, frames - 1),
            output_rate,
            channels,
        )
    }
}

/// Whether enough source frames are there.
pub open spec fn available(
    pending: Seq<i16>,
    phase: int,
    source_rate: int,
    output_rate: int,
    channels: int,
    frames: int,
) -> bool {
    required(phase, source_rate, output_rate, frames) <= pending.len() as int / channels
}

/// What one or several pulls give: the output, the samples left over and the
/// phase they end at.
#[verifier::ext_equal]
pub struct Pulled {
    pub output: Seq<Point>,
    pub pending: Seq<i16>,
    pub phase: int,
}

/// What a pull of `frames` frames gives, where enough source frames are there.
pub open spec fn pulled(
    pending: Seq<i16>,
    phase: int,
    source_rate: int,
    output_rate: int,
    channels: int,
    frames: nat,
) -> Option<Pulled> {
    let (s, o, c, n) = (source_rate, output_rate, channels, frames as int);
    if available(pending, phase, s, o, c, n) {
        Some(
            Pulled {
                output: points(pending, phase, s, o, c, frames),
                pending: pending.skip(consumed(phase, s, o, n) * c),
                phase: phase_after(phase, s, o, n),
            },
        )
    } else {
        None
    }
}

proof fn lemma_reach_grows(p: int, q: int, output_rate: int)
    requires
        0 <= p <= q,
        output_rate > 0,
    ensures
        reach(p, output_rate) <= reach(q, output_rate),
{
    lemma_div_is_ordered(p, q, output_rate);
    lemma_fundamental_div_mod(p, output_rate);
    lemma_fundamental_div_mod(q, output_rate);
    if p / output_rate == q / output_rate {
        assert(p % output_rate <= q % output_rate);
    }
}

/// With `frames * channels` source samples at least, the sample of `channel` in
/// any of the frames is there.
proof fn lemma_sample_is_there(frame: int, frames: int, channels: int, channel: int, len: int)
    requires
        0 <= frame < frames,
        0 <= channel < channels,
        frames <= len / channels,
        0 <= len,
    ensures
        0 <= frame * channels + channel < len,
        0 <= frame * channels,
{
    lemma_fundamental_div_mod(len, channels);
    lemma_mul_is_commutative(channels, len / channels);
    lemma_mul_inequality(frame + 1, len / channels, channels);
    lemma_mul_is_distributive_add_other_way(channels, frame, 1);
    lemma_mul_inequality(0, frame, channels);
}

proof fn lemma_position_needs(
    phase: int,
    source_rate: int,
    output_rate: int,
    frames: int,
    frame: int,
)
    requires
        0 <= phase,
        source_rate > 0,
        output_rate > 0,
        0 <= frame < frames,
    ensures
        0 <= position_of(phase, source_rate, frame) <= position_of(phase, source_rate, frames - 1),
        reach(position_of(phase, source_rate, frame), output_rate) <= required(
            phase,
            source_rate,
            output_rate,
            frames,
        ),
{
    lemma_mul_inequality(0, frame, source_rate);
    lemma_mul_inequality(frame, frames - 1, source_rate);
    lemma_reach_grows(
        position_of(phase, source_rate, frame),
        position_of(phase, source_rate, frames - 1),
        output_rate,
    );
}

/// Pull a continuous interleaved stream using an exact rational source position.
///
/// One source frame of look-ahead is used per channel. An underrun leaves both
/// the queue and the phase untouched. Equal rates preserve the original samples
/// and channel order exactly. This is not an anti-aliasing filter; matching the
/// cable rate is preferable.
pub fn pull_resampled(
    pending: &mut VecDeque<i16>,
    phase: &mut u64,
    source_rate: u32,
    output_rate: u32,
    channels: usize,
    output_frames: usize,
) -> (output: Option<Vec<Point>>)
    requires
        position_of(*old(phase) as int, source_rate as int, output_frames as int) <= u64::MAX,
    ensures
        ({
            let (p, s, o) = (*old(phase) as int, source_rate as int, output_rate as int);
            let (c, n) = (channels as int, output_frames as int);
            if s == 0 || o == 0 || c == 0 {
                output is None && final(pending)@ == old(pending)@ && *final(phase) == *old(phase)
            } else {
                match pulled(old(pending)@, p, s, o, c, n as nat) {
                    Some(all) => {
                        &&& output matches Some(list)
                        &&& list@ == all.output
                        &&& final(pending)@ == all.pending
                        &&& *final(phase) == all.phase
                    },
                    None => output is None && final(pending)@ == old(pending)@ && *final(phase)
                        == *old(phase),
                }
            }
        }),
{
    if output_rate == 0 || source_rate == 0 || channels == 0 {
        return None;
    }
    let ghost s = source_rate as int;
    let ghost o = output_rate as int;
    let ghost c = channels as int;
    let ghost n = output_frames as int;
    let ghost p = *phase as int;
    let ghost all = pending@;
    if output_frames == 0 {
        proof {
            assert(all.len() as int / c >= 0) by {
                lemma_div_is_ordered(0, all.len() as int, c);
            }
            assert(0 * c == 0);
            assert(all.skip(0) =~= all);
        }
        return Some(Vec::new());
    }
    proof {
        lemma_mul_inequality(0, n - 1, s);
        lemma_mul_is_distributive_add_other_way(s, n - 1, 1);
        lemma_mul_is_distributive_add_other_way(s, n, 0);
    }
    let denominator = output_rate as u64;
    let span: u64 = output_frames as u64 * source_rate as u64;
    let end: u64 = *phase + span;
    let used: u64 = end / denominator;
    let last: u64 = *phase + (output_frames - 1) as u64 * source_rate as u64;
    proof {
        lemma_fundamental_div_mod(last as int, o);
        assert(last % denominator != 0 ==> last as int / o + 2 <= u64::MAX) by {
            if last as int % o != 0 {
                assert(o >= 2) by {
                    if o == 1 {
                        assert(last as int % 1 == 0);
                    }
                }
                lemma_mul_inequality(2, o, last as int / o);
            }
        }
        lemma_mul_inequality(1, o, last as int / o);
    }
    let lookahead: u64 = if last % denominator != 0 {
        last / denominator + 2
    } else {
        last / denominator + 1
    };
    let needed: u64 = if used >= lookahead {
        used
    } else {
        lookahead
    };
    assert(needed == required(p, s, o, n));
    let total = pending.len();
    let held = total / channels;
    if (held as u64) < needed {
        return None;
    }
    let mut output: Vec<Point> = Vec::new();
    let mut frame: usize = 0;
    let mut position: u64 = *phase;
    assert(position_of(p, s, 0) == p) by {
        lemma_mul_inequality(0, 0, s);
    }
    while frame < output_frames
        invariant
            frame <= output_frames,
            s == source_rate,
            o == output_rate,
            c == channels,
            n == output_frames,
            p == *phase,
            all == pending@,
            total == all.len(),
            source_rate > 0,
            output_rate > 0,
            channels > 0,
            denominator == output_rate,
            position == position_of(p, s, frame as int),
            position_of(p, s, n) <= u64::MAX,
            required(p, s, o, n) <= all.len() as int / c,
            output@ == points(all, p, s, o, c, frame as nat),
        decreases output_frames - frame,
    {
        let left = position / denominator;
        let part = position % denominator;
        let ghost before = output@;
        proof {
            lemma_position_needs(p, s, o, n, frame as int);
            lemma_fundamental_div_mod(position as int, o);
            lemma_div_is_ordered(0, position as int, o);
            lemma_sample_is_there(left as int, all.len() as int / c, c, 0, all.len() as int);
            lemma_mul_inequality(1, c, left as int);
            lemma_mul_is_commutative(c, left as int);
        }
        let mut channel: usize = 0;
        while channel < channels
            invariant
                channel <= channels,
                s == source_rate,
                o == output_rate,
                c == channels,
                n == output_frames,
                p == *phase,
                all == pending@,
                total == all.len(),
                output_rate > 0,
                channels > 0,
                denominator == output_rate,
                left == position / denominator,
                part == position % denominator,
                frame < output_frames,
                reach(position as int, o) <= all.len() as int / c,
                left < total,
                output@ =~= before + frame_at(all, position as int, o, c).take(channel as int),
            decreases channels - channel,
        {
            proof {
                lemma_sample_is_there(
                    left as int,
                    all.len() as int / c,
                    c,
                    channel as int,
                    all.len() as int,
                );
                if part != 0 {
                    lemma_sample_is_there(
                        left + 1,
                        all.len() as int / c,
                        c,
                        channel as int,
                        all.len() as int,
                    );
                }
            }
            let a = pending[left as usize * channels + channel];
            let b = if part == 0 {
                a
            } else {
                pending[(left as usize + 1) * channels + channel]
            };
            output.push(Point { a, b, part });
            proof {
                let whole = frame_at(all, position as int, o, c);
                assert(whole[channel as int] == Point { a, b, part });
                assert(whole.take(channel + 1) =~= whole.take(channel as int).push(
                    whole[channel as int],
                ));
            }
            channel = channel + 1;
        }
        proof {
            let whole = frame_at(all, position as int, o, c);
            assert(whole.take(c) =~= whole);
            lemma_mul_is_distributive_add_other_way(s, frame as int, 1);
            lemma_mul_inequality(frame + 1, n, s);
        }
        position = position + source_rate as u64;
        frame = frame + 1;
    }
    proof {
        lemma_div_is_ordered(0, end as int, o);
        lemma_mul_inequality(0, used as int, c);
        lemma_mul_inequality(used as int, all.len() as int / c, c);
        lemma_fundamental_div_mod(all.len() as int, c);
        lemma_mul_is_commutative(c, all.len() as int / c);
    }
    let rest = pending.split_off(used as usize * channels);
    *pending = rest;
    assert(pending@ =~= all.skip(used * c));
    *phase = end % denominator;
    Some(output)
}

/// Equal rates preserve every sample and its place: from phase zero, output
/// sample `k` is source sample `k`, and exactly the frames put out are used up.
pub proof fn equal_rates_preserve_every_sample(
    pending: Seq<i16>,
    rate: int,
    channels: int,
    frames: nat,
)
    requires
        rate > 0,
        channels > 0,
        frames * channels <= pending.len(),
    ensures
        available(pending, 0, rate, rate, channels, frames as int),
        points(pending, 0, rate, rate, channels, frames).len() == frames * channels,
        forall|k: int|
            0 <= k < frames * channels ==> #[trigger] points(
                pending,
                0,
                rate,
                rate,
                channels,
                frames,
            )[k] == (Point { a: pending[k], b: pending[k], part: 0 }),
        consumed(0, rate, rate, frames as int) == frames,
        phase_after(0, rate, rate, frames as int) == 0,
    decreases frames,
{
    let f = frames as int;
    lemma_mul_inequality(0, f, channels);
    lemma_fundamental_div_mod_converse_div(f * rate, rate, f, 0);
    lemma_fundamental_div_mod_converse_mod(f * rate, rate, f, 0);
    assert(f <= pending.len() as int / channels) by {
        lemma_fundamental_div_mod(pending.len() as int, channels);
        lemma_mul_is_commutative(channels, pending.len() as int / channels);
        if f > pending.len() as int / channels {
            lemma_mul_inequality(pending.len() as int / channels + 1, f, channels);
            lemma_mul_is_distributive_add_other_way(channels, pending.len() as int / channels, 1);
        }
    }
    if frames > 0 {
        let g = f - 1;
        lemma_mul_is_distributive_add_other_way(channels, g, 1);
        equal_rates_preserve_every_sample(pending, rate, channels, g as nat);
        lemma_fundamental_div_mod_converse_div(g * rate, rate, g, 0);
        lemma_fundamental_div_mod_converse_mod(g * rate, rate, g, 0);
        let before = points(pending, 0, rate, rate, channels, g as nat);
        let here = frame_at(pending, position_of(0, rate, g), rate, channels);
        let whole = points(pending, 0, rate, rate, channels, frames);
        assert forall|k: int| 0 <= k < frames * channels implies #[trigger] whole[k] == (Point {
            a: pending[k],
            b: pending[k],
            part: 0,
        }) by {
            if k >= g * channels {
                assert(whole[k] == here[k - g * channels]);
            } else {
                assert(whole[k] == before[k]);
            }
        }
    }
}

/// The state after `n` frames, seen from the whole: a later frame lies `used`
/// source frames nearer.
proof fn lemma_positions_shift(
    phase: int,
    source_rate: int,
    output_rate: int,
    n: int,
    frame: int,
)
    requires
        0 <= phase,
        source_rate > 0,
        output_rate > 0,
        n >= 0,
        frame >= 0,
    ensures
        ({
            let used = consumed(phase, source_rate, output_rate, n);
            let next = phase_after(phase, source_rate, output_rate, n);
            let here = position_of(next, source_rate, frame);
            let there = position_of(phase, source_rate, n + frame);
            &&& 0 <= used
            &&& 0 <= next
            &&& here == there - used * output_rate
            &&& 0 <= here
            &&& here / output_rate == there / output_rate - used
            &&& here % output_rate == there % output_rate
        }),
{
    let used = consumed(phase, source_rate, output_rate, n);
    let next = phase_after(phase, source_rate, output_rate, n);
    let end = position_of(phase, source_rate, n);
    lemma_mul_inequality(0, n, source_rate);
    lemma_mul_inequality(0, frame, source_rate);
    lemma_mul_is_distributive_add_other_way(source_rate, n, frame);
    lemma_fundamental_div_mod(end, output_rate);
    lemma_mul_is_commutative(output_rate, end / output_rate);
    lemma_div_is_ordered(0, end, output_rate);
    if n == 0 {
        assert(0 * output_rate == 0);
        assert(0 * source_rate == 0);
    }
    let here = position_of(next, source_rate, frame);
    let there = position_of(phase, source_rate, n + frame);
    assert(here == there - used * output_rate);
    lemma_fundamental_div_mod(here, output_rate);
    let q = here / output_rate;
    let r = here % output_rate;
    lemma_mul_is_commutative(output_rate, q);
    lemma_mul_is_distributive_add_other_way(output_rate, q, used);
    assert(there == (q + used) * output_rate + r);
    lemma_fundamental_div_mod_converse_div(there, output_rate, q + used, r);
    lemma_fundamental_div_mod_converse_mod(there, output_rate, q + used, r);
}

proof fn lemma_frames_after(pending: Seq<i16>, channels: int, used: int)
    requires
        channels > 0,
        0 <= used <= pending.len() as int / channels,
    ensures
        0 <= used * channels <= pending.len(),
        pending.skip(used * channels).len() as int / channels == pending.len() as int / channels
            - used,
{
    let len = pending.len() as int;
    lemma_mul_inequality(0, used, channels);
    lemma_mul_inequality(used, len / channels, channels);
    lemma_fundamental_div_mod(len, channels);
    lemma_mul_is_commutative(channels, len / channels);
    let q = len / channels - used;
    let r = len % channels;
    lemma_mul_is_distributive_sub_other_way(channels, len / channels, used);
    assert(len - used * channels == q * channels + r);
    lemma_fundamental_div_mod_converse_div(len - used * channels, channels, q, r);
}

proof fn lemma_points_split(
    pending: Seq<i16>,
    phase: int,
    source_rate: int,
    output_rate: int,
    channels: int,
    n: nat,
    m: nat,
    total: nat,
)
    requires
        0 <= phase,
        source_rate > 0,
        output_rate > 0,
        channels > 0,
        n + m <= total,
        available(pending, phase, source_rate, output_rate, channels, total as int),
        consumed(phase, source_rate, output_rate, n as int) <= pending.len() as int / channels,
    ensures
        points(pending, phase, source_rate, output_rate, channels, n + m) == points(
            pending,
            phase,
            source_rate,
            output_rate,
            channels,
            n,
        ) + points(
            pending.skip(consumed(phase, source_rate, output_rate, n as int) * channels),
            phase_after(phase, source_rate, output_rate, n as int),
            source_rate,
            output_rate,
            channels,
            m,
        ),
    decreases m,
{
    let used = consumed(phase, source_rate, output_rate, n as int);
    let next = phase_after(phase, source_rate, output_rate, n as int);
    let rest = pending.skip(used * channels);
    let first = points(pending, phase, source_rate, output_rate, channels, n);
    if m == 0 {
        assert(first + Seq::<Point>::empty() =~= first);
    } else {
        let f = m - 1;
        lemma_points_split(
            pending,
            phase,
            source_rate,
            output_rate,
            channels,
            n,
            f as nat,
            total,
        );
        lemma_positions_shift(phase, source_rate, output_rate, n as int, f);
        lemma_frames_after(pending, channels, used);
        let here = position_of(next, source_rate, f);
        let there = position_of(phase, source_rate, n + f);
        lemma_position_needs(phase, source_rate, output_rate, total as int, n + f);
        lemma_div_is_ordered(0, here, output_rate);
        let left = here / output_rate;
        assert forall|channel: int| 0 <= channel < channels implies point_at(
            rest,
            here,
            output_rate,
            channels,
            channel,
        ) == #[trigger] point_at(pending, there, output_rate, channels, channel) by {
            let avail = pending.len() as int / channels;
            lemma_sample_is_there(left, avail - used, channels, channel, rest.len() as int);
            lemma_mul_is_distributive_add_other_way(channels, left, used);
            if here % output_rate != 0 {
                lemma_sample_is_there(left + 1, avail - used, channels, channel, rest.len() as int);
                lemma_mul_is_distributive_add_other_way(channels, left + 1, used);
            }
        }
        assert(frame_at(rest, here, output_rate, channels) =~= frame_at(
            pending,
            there,
            output_rate,
            channels,
        ));
        let before = points(rest, next, source_rate, output_rate, channels, f as nat);
        let frame = frame_at(rest, here, output_rate, channels);
        assert(first + (before + frame) =~= (first + before) + frame);
    }
}

/// Wherever a run of frames is cut in two, pulling the first part and then the
/// second is pulling it whole, and where the whole can be pulled, so can both
/// parts.
proof fn lemma_two_parts(
    pending: Seq<i16>,
    phase: int,
    source_rate: int,
    output_rate: int,
    channels: int,
    n: nat,
    m: nat,
)
    requires
        0 <= phase,
        source_rate > 0,
        output_rate > 0,
        channels > 0,
        available(pending, phase, source_rate, output_rate, channels, (n + m) as int),
    ensures
        ({
            let (s, o, c) = (source_rate, output_rate, channels);
            let rest = pending.skip(consumed(phase, s, o, n as int) * c);
            let next = phase_after(phase, s, o, n as int);
            &&& available(pending, phase, s, o, c, n as int)
            &&& available(rest, next, s, o, c, m as int)
            &&& points(pending, phase, s, o, c, n + m) == points(pending, phase, s, o, c, n)
                + points(rest, next, s, o, c, m)
            &&& rest.skip(consumed(next, s, o, m as int) * c) == pending.skip(
                consumed(phase, s, o, (n + m) as int) * c,
            )
            &&& phase_after(next, s, o, m as int) == phase_after(phase, s, o, (n + m) as int)
        }),
{
    let (s, o, c) = (source_rate, output_rate, channels);
    let total = (n + m) as int;
    let used = consumed(phase, s, o, n as int);
    let next = phase_after(phase, s, o, n as int);
    let rest = pending.skip(used * c);
    let avail = pending.len() as int / c;
    lemma_positions_shift(phase, s, o, n as int, m as int);
    lemma_div_is_ordered(0, pending.len() as int, c);
    if n > 0 {
        lemma_position_needs(phase, s, o, total, n - 1);
        if m > 0 {
            lemma_position_needs(phase, s, o, total, n as int);
        }
    }
    assert(used <= avail);
    assert(required(phase, s, o, n as int) <= avail);
    lemma_frames_after(pending, c, used);
    let later = consumed(next, s, o, m as int);
    if m > 0 {
        lemma_positions_shift(phase, s, o, n as int, m - 1);
        assert(reach(position_of(next, s, m - 1), o) == reach(
            position_of(phase, s, total - 1),
            o,
        ) - used);
        assert(later == consumed(phase, s, o, total) - used);
    } else {
        assert(later == 0);
    }
    lemma_mul_is_distributive_add_other_way(c, used, later);
    assert(0 <= later) by {
        if m > 0 {
            lemma_div_is_ordered(0, position_of(next, s, m as int), o);
        }
    }
    lemma_mul_inequality(0, later, c);
    lemma_mul_inequality(used + later, avail, c);
    lemma_fundamental_div_mod(pending.len() as int, c);
    lemma_mul_is_commutative(c, avail);
    assert(rest.skip(later * c) =~= pending.skip((used + later) * c));
    lemma_points_split(pending, phase, s, o, c, n, m, n + m);
}

/// What pulling several blocks in turn gives, their outputs joined, where enough
/// source frames are there each time.
pub open spec fn pulled_in_turn(
    pending: Seq<i16>,
    phase: int,
    source_rate: int,
    output_rate: int,
    channels: int,
    blocks: Seq<nat>,
) -> Option<Pulled>
    decreases blocks.len(),
{
    let (s, o, c) = (source_rate, output_rate, channels);
    if blocks.len() == 0 {
        Some(Pulled { output: Seq::empty(), pending, phase })
    } else {
        match pulled_in_turn(pending, phase, s, o, c, blocks.drop_last()) {
            Some(before) => match pulled(before.pending, before.phase, s, o, c, blocks.last()) {
                Some(last) => Some(Pulled { output: before.output + last.output, ..last }),
                None => None,
            },
            None => None,
        }
    }
}

/// How many frames several blocks have together.
pub open spec fn frames_in(blocks: Seq<nat>) -> nat
    decreases blocks.len(),
{
    if blocks.len() == 0 {
        0
    } else {
        frames_in(blocks.drop_last()) + blocks.last()
    }
}

/// Resampling is continuous across frame boundaries: into however many blocks a
/// run of frames is cut, and wherever, pulling the blocks in turn succeeds each
/// time and gives the same output, leaves the same samples and ends at the same
/// phase as pulling it whole. There is no drift and no seam, from any phase.
pub proof fn resampling_is_continuous(
    pending: Seq<i16>,
    phase: int,
    source_rate: int,
    output_rate: int,
    channels: int,
    blocks: Seq<nat>,
)
    requires
        0 <= phase,
        source_rate > 0,
        output_rate > 0,
        channels > 0,
        pulled(pending, phase, source_rate, output_rate, channels, frames_in(blocks)) is Some,
    ensures
        pulled_in_turn(pending, phase, source_rate, output_rate, channels, blocks) == pulled(
            pending,
            phase,
            source_rate,
            output_rate,
            channels,
            frames_in(blocks),
        ),
    decreases blocks.len(),
{
    let (s, o, c) = (source_rate, output_rate, channels);
    if blocks.len() == 0 {
        assert(0 * c == 0);
        assert(pending.skip(0) =~= pending);
    } else {
        let n = frames_in(blocks.drop_last());
        let m = blocks.last();
        lemma_two_parts(pending, phase, s, o, c, n, m);
        resampling_is_continuous(pending, phase, s, o, c, blocks.drop_last());
    }
}

// ---- What a pull is for ----

proof fn lemma_points_len(
    pending: Seq<i16>,
    phase: int,
    source_rate: int,
    output_rate: int,
    channels: int,
    frames: nat,
)
    requires
        channels > 0,
    ensures
        points(pending, phase, source_rate, output_rate, channels, frames).len() == frames
            * channels,
    decreases frames,
{
    if frames > 0 {
        lemma_points_len(
            pending,
            phase,
            source_rate,
            output_rate,
            channels,
            (frames - 1) as nat,
        );
        lemma_mul_is_distributive_add_other_way(channels, frames - 1, 1);
    } else {
        assert(0 * channels == 0);
    }
}

proof fn lemma_point_of(
    pending: Seq<i16>,
    phase: int,
    source_rate: int,
    output_rate: int,
    channels: int,
    frames: nat,
    frame: int,
    channel: int,
)
    requires
        0 <= frame < frames,
        0 <= channel < channels,
    ensures
        0 <= frame * channels + channel < frames * channels,
        points(pending, phase, source_rate, output_rate, channels, frames)[frame * channels
            + channel] == point_at(
            pending,
            position_of(phase, source_rate, frame),
            output_rate,
            channels,
            channel,
        ),
    decreases frames,
{
    let before = points(
        pending,
        phase,
        source_rate,
        output_rate,
        channels,
        (frames - 1) as nat,
    );
    lemma_points_len(pending, phase, source_rate, output_rate, channels, (frames - 1) as nat);
    lemma_mul_is_distributive_add_other_way(channels, frames - 1, 1);
    lemma_mul_inequality(0, frame, channels);
    lemma_mul_inequality(frame, frames - 1, channels);
    if frame < frames - 1 {
        lemma_point_of(
            pending,
            phase,
            source_rate,
            output_rate,
            channels,
            (frames - 1) as nat,
            frame,
            channel,
        );
        lemma_mul_is_distributive_add_other_way(channels, frame, 1);
        lemma_mul_inequality(frame + 1, frames - 1, channels);
    }
}

/// Every output frame lies where the rates put it: output frame `frame` stands
/// `frame` source steps behind the phase, between the source frame `left` and the
/// next one, and each channel of it lies between its own samples of those two
/// frames, as far from the first as the position is. On a source frame it is that
/// frame's sample.
#[verifier::rlimit(60)]
pub proof fn every_point_lies_between_its_own_samples(
    pending: Seq<i16>,
    phase: int,
    source_rate: int,
    output_rate: int,
    channels: int,
    frames: nat,
    frame: int,
    channel: int,
    left: int,
)
    requires
        0 <= phase,
        0 < source_rate,
        0 < output_rate <= u32::MAX,
        0 < channels,
        0 <= frame < frames,
        0 <= channel < channels,
        left * output_rate <= phase + frame * source_rate < (left + 1) * output_rate,
        pulled(pending, phase, source_rate, output_rate, channels, frames) is Some,
    ensures
        ({
            let all = pulled(pending, phase, source_rate, output_rate, channels, frames)->0;
            let point = all.output[frame * channels + channel];
            let past = phase + frame * source_rate - left * output_rate;
            &&& all.output.len() == frames * channels
            &&& 0 <= frame * channels + channel < all.output.len()
            &&& 0 <= left * channels + channel < pending.len()
            &&& point.part == past
            &&& point.a == pending[left * channels + channel]
            &&& past == 0 ==> point.b == pending[left * channels + channel]
            &&& past > 0 ==> (left + 1) * channels + channel < pending.len() && point.b
                == pending[(left + 1) * channels + channel]
        }),
{
    let position = position_of(phase, source_rate, frame);
    let past = position - left * output_rate;
    let held = pending.len() as int / channels;
    lemma_mul_is_distributive_add_other_way(output_rate, left, 1);
    lemma_fundamental_div_mod_converse_div(position, output_rate, left, past);
    lemma_fundamental_div_mod_converse_mod(position, output_rate, left, past);
    lemma_mul_inequality(0, frame, source_rate);
    lemma_div_is_ordered(0, position, output_rate);
    lemma_points_len(pending, phase, source_rate, output_rate, channels, frames);
    lemma_point_of(
        pending,
        phase,
        source_rate,
        output_rate,
        channels,
        frames,
        frame,
        channel,
    );
    lemma_position_needs(phase, source_rate, output_rate, frames as int, frame);
    lemma_sample_is_there(left, held, channels, channel, pending.len() as int);
    if past > 0 {
        lemma_sample_is_there(left + 1, held, channels, channel, pending.len() as int);
    }
}

/// The channels stay apart at every pair of rates: what one channel of the output
/// is depends on that channel of the source alone. Two sources that agree on a
/// channel give the same output on it, whatever the others hold.
#[verifier::rlimit(60)]
pub proof fn channels_stay_apart(
    one: Seq<i16>,
    other: Seq<i16>,
    phase: int,
    source_rate: int,
    output_rate: int,
    channels: int,
    frames: nat,
    channel: int,
)
    requires
        0 <= phase,
        0 < source_rate,
        0 < output_rate <= u32::MAX,
        0 <= channel < channels,
        one.len() == other.len(),
        forall|f: int|
            0 <= f && f * channels + channel < one.len() ==> #[trigger] one[f * channels + channel]
                == other[f * channels + channel],
        pulled(one, phase, source_rate, output_rate, channels, frames) is Some,
    ensures
        pulled(other, phase, source_rate, output_rate, channels, frames) is Some,
        forall|frame: int|
            0 <= frame < frames ==> #[trigger] pulled(
                one,
                phase,
                source_rate,
                output_rate,
                channels,
                frames,
            )->0.output[frame * channels + channel] == pulled(
                other,
                phase,
                source_rate,
                output_rate,
                channels,
                frames,
            )->0.output[frame * channels + channel],
{
    let (s, o, c) = (source_rate, output_rate, channels);
    assert forall|frame: int| 0 <= frame < frames implies #[trigger] pulled(
        one,
        phase,
        s,
        o,
        c,
        frames,
    )->0.output[frame * c + channel] == pulled(other, phase, s, o, c, frames)->0.output[frame * c
        + channel] by {
        let position = phase + frame * s;
        let left = position / o;
        lemma_fundamental_div_mod(position, o);
        lemma_mul_is_commutative(o, left);
        lemma_mul_is_distributive_add_other_way(o, left, 1);
        lemma_mul_inequality(0, frame, s);
        lemma_div_is_ordered(0, position, o);
        every_point_lies_between_its_own_samples(
            one,
            phase,
            s,
            o,
            c,
            frames,
            frame,
            channel,
            left,
        );
        every_point_lies_between_its_own_samples(
            other,
            phase,
            s,
            o,
            c,
            frames,
            frame,
            channel,
            left,
        );
        assert(one[left * c + channel] == other[left * c + channel]);
        if position - left * o > 0 {
            assert(one[(left + 1) * c + channel] == other[(left + 1) * c + channel]);
        }
    }
}

/// A channel that is constant in the source is constant in the output, at every
/// pair of rates and whatever the other channels hold.
#[verifier::rlimit(60)]
pub proof fn a_constant_channel_stays_constant(
    pending: Seq<i16>,
    phase: int,
    source_rate: int,
    output_rate: int,
    channels: int,
    frames: nat,
    channel: int,
    value: i16,
)
    requires
        0 <= phase,
        0 < source_rate,
        0 < output_rate <= u32::MAX,
        0 <= channel < channels,
        forall|f: int|
            0 <= f && f * channels + channel < pending.len() ==> #[trigger] pending[f * channels
                + channel] == value,
        pulled(pending, phase, source_rate, output_rate, channels, frames) is Some,
    ensures
        forall|frame: int|
            0 <= frame < frames ==> {
                let point = #[trigger] pulled(
                    pending,
                    phase,
                    source_rate,
                    output_rate,
                    channels,
                    frames,
                )->0.output[frame * channels + channel];
                point.a == value && point.b == value
            },
{
    let (s, o, c) = (source_rate, output_rate, channels);
    assert forall|frame: int| 0 <= frame < frames implies {
        let point = #[trigger] pulled(pending, phase, s, o, c, frames)->0.output[frame * c
            + channel];
        point.a == value && point.b == value
    } by {
        let position = phase + frame * s;
        let left = position / o;
        lemma_fundamental_div_mod(position, o);
        lemma_mul_is_commutative(o, left);
        lemma_mul_is_distributive_add_other_way(o, left, 1);
        lemma_mul_inequality(0, frame, s);
        lemma_div_is_ordered(0, position, o);
        every_point_lies_between_its_own_samples(
            pending,
            phase,
            s,
            o,
            c,
            frames,
            frame,
            channel,
            left,
        );
        assert(pending[left * c + channel] == value);
        if position - left * o > 0 {
            assert(pending[(left + 1) * c + channel] == value);
        }
    }
}

/// Nothing is lost and nothing drifts: what a pull leaves is the end of what was
/// there, whole frames have gone from its front, and those frames and the new
/// phase together are exactly the old phase and the time that was put out. The
/// new phase stays below one source frame.
pub proof fn a_pull_uses_exactly_the_time_it_puts_out(
    pending: Seq<i16>,
    phase: int,
    source_rate: int,
    output_rate: int,
    channels: int,
    frames: nat,
    used: int,
)
    requires
        0 <= phase,
        0 < source_rate,
        0 < output_rate,
        0 < channels,
        0 < frames,
        pulled(pending, phase, source_rate, output_rate, channels, frames) is Some,
        pulled(pending, phase, source_rate, output_rate, channels, frames)->0.pending
            == pending.skip(used * channels),
        0 <= used * channels <= pending.len(),
    ensures
        ({
            let all = pulled(pending, phase, source_rate, output_rate, channels, frames)->0;
            &&& used * output_rate + all.phase == phase + frames * source_rate
            &&& 0 <= all.phase < output_rate
        }),
{
    let all = pulled(pending, phase, source_rate, output_rate, channels, frames)->0;
    let n = frames as int;
    let gone = consumed(phase, source_rate, output_rate, n);
    let end = position_of(phase, source_rate, n);
    lemma_mul_inequality(0, n, source_rate);
    lemma_div_is_ordered(0, end, output_rate);
    lemma_frames_after(pending, channels, gone);
    assert(all.pending.len() == pending.len() - gone * channels);
    assert(all.pending.len() == pending.len() - used * channels);
    if gone < used {
        lemma_mul_inequality(gone + 1, used, channels);
        lemma_mul_is_distributive_add_other_way(channels, gone, 1);
    } else if gone > used {
        lemma_mul_inequality(used + 1, gone, channels);
        lemma_mul_is_distributive_add_other_way(channels, used, 1);
    }
    lemma_fundamental_div_mod(end, output_rate);
    lemma_mul_is_commutative(output_rate, gone);
}

/// A pull is refused only for want of source frames: it succeeds exactly when the
/// frames it uses up are all there, and so is every frame that one of its points
/// lies on or next to.
pub proof fn a_pull_needs_what_it_reads_and_no_more(
    pending: Seq<i16>,
    phase: int,
    source_rate: int,
    output_rate: int,
    channels: int,
    frames: nat,
)
    requires
        0 <= phase,
        0 < source_rate,
        0 < output_rate,
        0 < channels,
        0 < frames,
    ensures
        pulled(pending, phase, source_rate, output_rate, channels, frames) is Some <==> ({
            let held = pending.len() as int / channels;
            let last = phase + (frames - 1) * source_rate;
            &&& (phase + frames * source_rate) / output_rate <= held
            &&& last / output_rate < held
            &&& last % output_rate != 0 ==> last / output_rate + 1 < held
        }),
{
}

} // verus!
