//! ISO buffer credits, following AOSP btm_iso_impl.h. Stereo admission is atomic:
//! when the controller is full, drop the entire audio frame, never just one ear.

use vstd::prelude::*;

verus! {

/// The first place where `outstanding` has an entry for `handle`; its length
/// when there is none.
pub open spec fn place_of(outstanding: Seq<(u16, u16)>, handle: u16) -> int
    decreases outstanding.len(),
{
    if outstanding.len() == 0 {
        0
    } else if outstanding[0].0 == handle {
        0
    } else {
        1 + place_of(outstanding.skip(1), handle)
    }
}

/// Whether `outstanding` has an entry for `handle`.
pub open spec fn is_known(outstanding: Seq<(u16, u16)>, handle: u16) -> bool {
    place_of(outstanding, handle) < outstanding.len()
}

/// How many packets are outstanding in all.
pub open spec fn total(outstanding: Seq<(u16, u16)>) -> int
    decreases outstanding.len(),
{
    if outstanding.len() == 0 {
        0
    } else {
        total(outstanding.drop_last()) + outstanding.last().1
    }
}

/// Whether `handles` can be admitted together: at least one, as many as there
/// are credits, all different and all known.
pub open spec fn admissible(
    available: u16,
    outstanding: Seq<(u16, u16)>,
    handles: Seq<u16>,
) -> bool {
    &&& 0 < handles.len() <= available
    &&& forall|i: int, j: int| 0 <= i < j < handles.len() ==> handles[i] != handles[j]
    &&& forall|i: int| 0 <= i < handles.len() ==> is_known(outstanding, #[trigger] handles[i])
}

/// `outstanding` with one more packet on the entry of each of `handles`.
pub open spec fn after_reserving(
    outstanding: Seq<(u16, u16)>,
    handles: Seq<u16>,
) -> Seq<(u16, u16)> {
    Seq::new(
        outstanding.len(),
        |i: int|
            (
                outstanding[i].0,
                (outstanding[i].1 + if handles.contains(outstanding[i].0) && place_of(
                    outstanding,
                    outstanding[i].0,
                ) == i {
                    1int
                } else {
                    0int
                }) as u16,
            ),
    )
}

proof fn lemma_place(outstanding: Seq<(u16, u16)>, handle: u16)
    ensures
        0 <= place_of(outstanding, handle) <= outstanding.len(),
        forall|i: int|
            0 <= i < place_of(outstanding, handle) ==> (#[trigger] outstanding[i]).0 != handle,
        is_known(outstanding, handle) ==> outstanding[place_of(outstanding, handle)].0 == handle,
    decreases outstanding.len(),
{
    if outstanding.len() > 0 && outstanding[0].0 != handle {
        let rest = outstanding.skip(1);
        lemma_place(rest, handle);
        assert forall|i: int| 0 <= i < place_of(outstanding, handle) implies (
        #[trigger] outstanding[i]).0 != handle by {
            if i > 0 {
                assert(rest[i - 1] == outstanding[i]);
            }
        }
    }
}

/// The place is the only one that has the handle with nothing like it before.
proof fn lemma_place_is(outstanding: Seq<(u16, u16)>, handle: u16, at: int)
    requires
        0 <= at < outstanding.len(),
        outstanding[at].0 == handle,
        forall|i: int| 0 <= i < at ==> (#[trigger] outstanding[i]).0 != handle,
    ensures
        place_of(outstanding, handle) == at,
{
    lemma_place(outstanding, handle);
    let p = place_of(outstanding, handle);
    if p < at {
        assert(outstanding[p].0 != handle);
    }
}

proof fn lemma_total_update(outstanding: Seq<(u16, u16)>, at: int, entry: (u16, u16))
    requires
        0 <= at < outstanding.len(),
    ensures
        total(outstanding.update(at, entry)) == total(outstanding) - outstanding[at].1 + entry.1,
    decreases outstanding.len(),
{
    let changed = outstanding.update(at, entry);
    if at == outstanding.len() - 1 {
        assert(changed.drop_last() =~= outstanding.drop_last());
    } else {
        assert(changed.drop_last() =~= outstanding.drop_last().update(at, entry));
        lemma_total_update(outstanding.drop_last(), at, entry);
    }
}

proof fn lemma_total_bounds(outstanding: Seq<(u16, u16)>)
    ensures
        total(outstanding) >= 0,
        forall|i: int| 0 <= i < outstanding.len() ==> (#[trigger] outstanding[i]).1 <= total(
            outstanding,
        ),
    decreases outstanding.len(),
{
    if outstanding.len() > 0 {
        let shorter = outstanding.drop_last();
        lemma_total_bounds(shorter);
        assert forall|i: int| 0 <= i < outstanding.len() implies (#[trigger] outstanding[i]).1
            <= total(outstanding) by {
            if i < shorter.len() {
                assert(shorter[i] == outstanding[i]);
            }
        }
    }
}

/// How many buffers a report frees, of those that are out.
pub open spec fn freed(pending: u16, count: u16) -> u16 {
    if count < pending {
        count
    } else {
        pending
    }
}

/// Credits for the controller's ISO buffers, and what each channel has in them.
#[derive(Debug)]
pub struct IsoCredits {
    capacity: u16,
    available: u16,
    outstanding: Vec<(u16, u16)>,
}

impl IsoCredits {
    /// How many buffers the controller has.
    pub closed spec fn capacity(&self) -> u16 {
        self.capacity
    }

    /// How many of them are free.
    pub closed spec fn available(&self) -> u16 {
        self.available
    }

    /// The channels, each with the number of its packets in the buffers.
    pub closed spec fn outstanding(&self) -> Seq<(u16, u16)> {
        self.outstanding@
    }

    /// No credit is ever lost or invented: what is free and what is outstanding
    /// add up to the capacity.
    pub open spec fn wf(&self) -> bool {
        self.available() + total(self.outstanding()) == self.capacity()
    }

    /// All buffers free, nothing outstanding on any of `handles`.
    pub fn new(capacity: u16, handles: &[u16]) -> (credits: Self)
        ensures
            credits.wf(),
            credits.capacity() == capacity,
            credits.available() == capacity,
            credits.outstanding() == Seq::new(handles@.len(), |i: int| (handles@[i], 0u16)),
    {
        let mut outstanding: Vec<(u16, u16)> = Vec::new();
        let mut i: usize = 0;
        while i < handles.len()
            invariant
                i <= handles@.len(),
                outstanding@ =~= Seq::new(i as nat, |j: int| (handles@[j], 0u16)),
                total(outstanding@) == 0,
            decreases handles@.len() - i,
        {
            let ghost before = outstanding@;
            outstanding.push((handles[i], 0));
            assert(outstanding@.drop_last() =~= before);
            i = i + 1;
        }
        IsoCredits { capacity, available: capacity, outstanding }
    }

    fn find(&self, handle: u16) -> (at: usize)
        ensures
            at == place_of(self.outstanding(), handle),
            at <= self.outstanding@.len(),
    {
        let mut at: usize = 0;
        while at < self.outstanding.len()
            invariant
                at <= self.outstanding@.len(),
                forall|i: int| 0 <= i < at ==> (#[trigger] self.outstanding@[i]).0 != handle,
            decreases self.outstanding@.len() - at,
        {
            if self.outstanding[at].0 == handle {
                proof {
                    lemma_place_is(self.outstanding@, handle, at as int);
                }
                return at;
            }
            at = at + 1;
        }
        proof {
            lemma_place(self.outstanding@, handle);
        }
        at
    }

    /// Takes one credit for each of `handles`, or none at all.
    pub fn reserve_frame(&mut self, handles: &[u16]) -> (admitted: bool)
        requires
            old(self).wf(),
        ensures
            final(self).wf(),
            final(self).capacity() == old(self).capacity(),
            admitted == admissible(old(self).available(), old(self).outstanding(), handles@),
            !admitted ==> final(self).available() == old(self).available()
                && final(self).outstanding() == old(self).outstanding(),
            admitted ==> final(self).available() == old(self).available() - handles@.len()
                && final(self).outstanding() == after_reserving(
                old(self).outstanding(),
                handles@,
            ),
    {
        if handles.len() == 0 || handles.len() > self.available as usize {
            return false;
        }
        let mut i: usize = 0;
        while i < handles.len()
            invariant
                i <= handles@.len(),
                0 < handles@.len() <= self.available,
                *self == *old(self),
                old(self).wf(),
                forall|a: int, b: int| 0 <= a < b < i ==> handles@[a] != handles@[b],
                forall|a: int|
                    0 <= a < i ==> is_known(self.outstanding(), #[trigger] handles@[a]),
            decreases handles@.len() - i,
        {
            let mut j: usize = 0;
            while j < i
                invariant
                    j <= i < handles@.len(),
                    *self == *old(self),
                    old(self).wf(),
                    forall|a: int| 0 <= a < j ==> handles@[a] != handles@[i as int],
                decreases i - j,
            {
                if handles[j] == handles[i] {
                    return false;
                }
                j = j + 1;
            }
            if self.find(handles[i]) == self.outstanding.len() {
                return false;
            }
            i = i + 1;
        }
        let ghost before = self.outstanding@;
        let ghost free = self.available;
        self.available = self.available - handles.len() as u16;
        let mut k: usize = 0;
        assert(self.outstanding@ =~= after_reserving(before, handles@.take(0)));
        while k < handles.len()
            invariant
                k <= handles@.len() <= free,
                self.capacity == old(self).capacity,
                self.available == free - handles@.len(),
                free + total(before) == self.capacity,
                forall|a: int, b: int|
                    0 <= a < b < handles@.len() ==> handles@[a] != handles@[b],
                forall|a: int|
                    0 <= a < handles@.len() ==> is_known(before, #[trigger] handles@[a]),
                self.outstanding@ =~= after_reserving(before, handles@.take(k as int)),
                total(self.outstanding@) == total(before) + k,
            decreases handles@.len() - k,
        {
            let handle = handles[k];
            let ghost now = self.outstanding@;
            proof {
                lemma_place(before, handle);
                assert forall|i: int| 0 <= i < place_of(before, handle) implies (
                #[trigger] now[i]).0 != handle by {
                    assert(before[i].0 != handle);
                }
                lemma_place_is(now, handle, place_of(before, handle));
                lemma_total_bounds(now);
            }
            let at = self.find(handle);
            let entry = self.outstanding[at];
            self.outstanding.set(at, (entry.0, entry.1 + 1));
            proof {
                lemma_total_update(now, at as int, (entry.0, (entry.1 + 1) as u16));
                lemma_reserving_one_more(before, handles@, k as int);
            }
            k = k + 1;
        }
        assert(handles@.take(k as int) =~= handles@);
        true
    }

    /// Returns up to `count` credits of one channel. Unrelated and stale
    /// completions are ignored; they cannot increase capacity.
    pub fn complete(&mut self, handle: u16, count: u16) -> (completed: u16)
        requires
            old(self).wf(),
        ensures
            final(self).wf(),
            final(self).capacity() == old(self).capacity(),
            final(self).available() == old(self).available() + completed,
            ({
                let at = place_of(old(self).outstanding(), handle);
                if at == old(self).outstanding().len() {
                    completed == 0 && final(self).outstanding() == old(self).outstanding()
                } else {
                    let pending = old(self).outstanding()[at].1;
                    &&& completed == freed(pending, count)
                    &&& final(self).outstanding() == old(self).outstanding().update(
                        at,
                        (handle, (pending - completed) as u16),
                    )
                }
            }),
    {
        let at = self.find(handle);
        if at == self.outstanding.len() {
            return 0;
        }
        let pending = self.outstanding[at].1;
        let completed = if count < pending { count } else { pending };
        proof {
            lemma_place(self.outstanding@, handle);
            lemma_total_update(self.outstanding@, at as int, (handle, (pending - completed) as u16));
            lemma_total_bounds(self.outstanding@.update(at as int, (handle, (pending - completed) as u16)));
        }
        self.outstanding.set(at, (handle, pending - completed));
        self.available = self.available + completed;
        completed
    }
}

proof fn lemma_reserving_one_more(before: Seq<(u16, u16)>, handles: Seq<u16>, k: int)
    requires
        0 <= k < handles.len(),
        is_known(before, handles[k]),
        forall|a: int, b: int| 0 <= a < b < handles.len() ==> handles[a] != handles[b],
        total(before) + handles.len() <= 0xFFFF,
    ensures
        ({
            let now = after_reserving(before, handles.take(k));
            let at = place_of(before, handles[k]);
            after_reserving(before, handles.take(k + 1)) =~= now.update(
                at,
                (now[at].0, (now[at].1 + 1) as u16),
            )
        }),
{
    let now = after_reserving(before, handles.take(k));
    let next = after_reserving(before, handles.take(k + 1));
    let at = place_of(before, handles[k]);
    lemma_place(before, handles[k]);
    lemma_total_bounds(before);
    assert(!handles.take(k).contains(handles[k])) by {
        if handles.take(k).contains(handles[k]) {
            let a = choose|a: int| 0 <= a < k && handles.take(k)[a] == handles[k];
            assert(handles[a] != handles[k]);
        }
    }
    assert(handles.take(k + 1).contains(handles[k])) by {
        assert(handles.take(k + 1)[k] == handles[k]);
    }
    assert forall|i: int| 0 <= i < before.len() implies next[i] == now.update(
        at,
        (now[at].0, (now[at].1 + 1) as u16),
    )[i] by {
        let h = before[i].0;
        assert(before[i].1 <= total(before));
        if h != handles[k] {
            assert(handles.take(k + 1).contains(h) == handles.take(k).contains(h)) by {
                let longer = handles.take(k + 1);
                if longer.contains(h) {
                    let a = choose|a: int| 0 <= a < longer.len() && longer[a] == h;
                    assert(handles.take(k)[a] == h);
                }
                if handles.take(k).contains(h) {
                    let a = choose|a: int| 0 <= a < k && handles.take(k)[a] == h;
                    assert(handles.take(k + 1)[a] == h);
                }
            }
        }
    }
}

/// A frame is admitted whole: every one of its channels then holds one more
/// credit than before, not just some of them.
pub proof fn stereo_is_never_half_submitted(
    available: u16,
    outstanding: Seq<(u16, u16)>,
    handles: Seq<u16>,
    i: int,
)
    requires
        admissible(available, outstanding, handles),
        available + total(outstanding) <= 0xFFFF,
        0 <= i < handles.len(),
    ensures
        after_reserving(outstanding, handles)[place_of(outstanding, handles[i])] == (
            handles[i],
            (outstanding[place_of(outstanding, handles[i])].1 + 1) as u16,
        ),
{
    lemma_place(outstanding, handles[i]);
    assert(is_known(outstanding, handles[i]));
    assert(handles.contains(handles[i]));
}


/// A frame that is let out costs each of its channels one buffer and no other channel
/// anything; it is let out only where every channel has one left, is known and is
/// named once.
pub proof fn a_frame_costs_its_own_channels(
    available: u16,
    outstanding: Seq<(u16, u16)>,
    handles: Seq<u16>,
    i: int,
)
    requires
        0 <= i < outstanding.len(),
        outstanding[i].1 < u16::MAX,
    ensures
        after_reserving(outstanding, handles).len() == outstanding.len(),
        after_reserving(outstanding, handles)[i].0 == outstanding[i].0,
        !handles.contains(outstanding[i].0) ==> after_reserving(outstanding, handles)[i]
            == outstanding[i],
        admissible(available, outstanding, handles) ==> handles.len() > 0 && handles.len()
            <= available,
        admissible(available, outstanding, handles) ==> forall|k: int|
            0 <= k < handles.len() ==> exists|j: int|
                0 <= j < outstanding.len() && (#[trigger] outstanding[j]).0 == #[trigger] handles[k],
{
    if admissible(available, outstanding, handles) {
        assert forall|k: int| 0 <= k < handles.len() implies exists|j: int|
            0 <= j < outstanding.len() && (#[trigger] outstanding[j]).0
                == #[trigger] handles[k] by {
            lemma_place(outstanding, handles[k]);
            assert(outstanding[place_of(outstanding, handles[k])].0 == handles[k]);
        }
    }
}

/// A report frees as many buffers as it says, and never more than are out.
pub proof fn a_report_frees_what_is_out(pending: u16, count: u16)
    ensures
        freed(pending, count) <= pending,
        count <= pending ==> freed(pending, count) == count,
        count > pending ==> freed(pending, count) == pending,
{
}

/// A frame is let out whenever it can be: every channel known, named once, and a
/// buffer left for each, down to the last. What is out is what each channel has out,
/// together.
pub proof fn a_frame_is_let_out_when_it_can_be(
    available: u16,
    outstanding: Seq<(u16, u16)>,
    handles: Seq<u16>,
    entry: (u16, u16),
)
    requires
        0 < handles.len() <= available,
        forall|i: int, j: int| 0 <= i < j < handles.len() ==> handles[i] != handles[j],
        forall|k: int|
            0 <= k < handles.len() ==> exists|j: int|
                0 <= j < outstanding.len() && (#[trigger] outstanding[j]).0 == #[trigger] handles[k],
    ensures
        admissible(available, outstanding, handles),
        total(Seq::empty()) == 0,
        total(outstanding.push(entry)) == total(outstanding) + entry.1,
{
    assert forall|k: int| 0 <= k < handles.len() implies is_known(
        outstanding,
        #[trigger] handles[k],
    ) by {
        lemma_place(outstanding, handles[k]);
        let j = choose|j: int|
            0 <= j < outstanding.len() && (#[trigger] outstanding[j]).0 == handles[k];
        assert(!(j < place_of(outstanding, handles[k])));
    }
    assert(outstanding.push(entry).drop_last() =~= outstanding);
}

} // verus!
