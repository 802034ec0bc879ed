use vstd::prelude::*;

verus! {

/// Longest stretch of samples rendered in one go.
pub const MAX_BLOCK_SIZE: usize = 64;

/// One stretch of a host block: the events `first_event..end_event` of the
/// queue are applied, then samples `start..end` are rendered.
#[derive(Clone, Copy, Debug, PartialEq, Eq, Structural)]
pub struct SubBlock {
    pub start: usize,
    pub end: usize,
    pub first_event: usize,
    pub end_event: usize,
}

/// Index of the first queued event from `k` on that lies after `start`
/// (the queue length when there is none): the events before it are due.
pub open spec fn drained_to(t: Seq<u32>, start: int, k: int) -> int
    decreases t.len() - k,
{
    if k >= t.len() {
        t.len() as int
    } else if t[k] <= start {
        drained_to(t, start, k + 1)
    } else {
        k
    }
}

pub open spec fn min_int(a: int, b: int) -> int {
    if a <= b {
        a
    } else {
        b
    }
}

/// The sub-block that begins at `start` when the event `first` is the next one
/// pending: the due events are applied, and the stretch stops at the next
/// event, after `MAX_BLOCK_SIZE` samples, or at the end of the block,
/// whichever comes first.
pub open spec fn sub_block_at(n: int, t: Seq<u32>, start: int, first: int) -> SubBlock {
    let e = drained_to(t, start, first);
    let lim = min_int(start + MAX_BLOCK_SIZE, n);
    let end = if e < t.len() && (t[e] as int) < lim {
        t[e] as int
    } else {
        lim
    };
    SubBlock { start: start as usize, end: end as usize, first_event: first as usize, end_event: e as usize }
}

/// The sub-blocks from `start` to the end of an `n`-sample block.
pub open spec fn plan_from(n: int, t: Seq<u32>, start: int, first: int) -> Seq<SubBlock>
    decreases n - start,
{
    if start >= n {
        seq![]
    } else {
        let b = sub_block_at(n, t, start, first);
        if b.end <= start || b.end > n {
            seq![]
        } else {
            seq![b] + plan_from(n, t, b.end as int, b.end_event as int)
        }
    }
}

/// The sub-blocks of an `n`-sample block whose queued event timings are `t`.
pub open spec fn plan(n: int, t: Seq<u32>) -> Seq<SubBlock> {
    plan_from(n, t, 0, 0)
}

proof fn lemma_drained_to(t: Seq<u32>, start: int, k: int)
    requires
        0 <= k <= t.len(),
    ensures
        k <= drained_to(t, start, k) <= t.len(),
        forall|j: int| k <= j < drained_to(t, start, k) ==> t[j] <= start,
        drained_to(t, start, k) < t.len() ==> t[drained_to(t, start, k)] > start,
    decreases t.len() - k,
{
    if k < t.len() && t[k] <= start {
        lemma_drained_to(t, start, k + 1);
    }
}

proof fn lemma_sub_block_at(n: int, t: Seq<u32>, start: int, first: int)
    requires
        0 <= start < n <= usize::MAX,
        0 <= first <= t.len(),
        t.len() <= usize::MAX,
    ensures
        ({
            let b = sub_block_at(n, t, start, first);
            &&& b.start == start
            &&& start < b.end <= n
            &&& b.end - b.start <= MAX_BLOCK_SIZE
            &&& b.first_event == first
            &&& first <= b.end_event <= t.len()
            &&& forall|j: int| first <= j < b.end_event ==> t[j] <= start
            &&& b.end_event < t.len() ==> t[b.end_event as int] >= b.end
        }),
{
    lemma_drained_to(t, start, first);
}

/// The next sub-block of an `num_samples`-sample block, from `block_start`
/// on, when `next_event` is the first event of `timings` not yet applied.
pub fn next_sub_block(num_samples: usize, timings: &[u32], block_start: usize, next_event: usize) -> (r: SubBlock)
    requires
        block_start < num_samples,
        next_event <= timings@.len(),
    ensures
        r == sub_block_at(num_samples as int, timings@, block_start as int, next_event as int),
        r.start == block_start,
        block_start < r.end <= num_samples,
        r.end - r.start <= MAX_BLOCK_SIZE,
        r.first_event == next_event,
        next_event <= r.end_event <= timings@.len(),
{
    let num_events = timings.len();
    proof {
        assert(num_events == timings@.len());
        lemma_sub_block_at(num_samples as int, timings@, block_start as int, next_event as int);
    }
    let mut e: usize = next_event;
    while e < timings.len() && (timings[e] as usize) <= block_start
        invariant
            next_event <= e <= timings@.len(),
            drained_to(timings@, block_start as int, e as int) == drained_to(
                timings@,
                block_start as int,
                next_event as int,
            ),
        decreases timings@.len() - e,
    {
        e = e + 1;
    }
    let lim = if num_samples - block_start < MAX_BLOCK_SIZE {
        num_samples
    } else {
        block_start + MAX_BLOCK_SIZE
    };
    let end = if e < timings.len() && (timings[e] as usize) < lim {
        timings[e] as usize
    } else {
        lim
    };
    SubBlock { start: block_start, end, first_event: next_event, end_event: e }
}

proof fn lemma_plan_unfold(n: int, t: Seq<u32>, start: int, first: int)
    requires
        0 <= start < n <= usize::MAX,
        0 <= first <= t.len(),
        t.len() <= usize::MAX,
    ensures
        plan_from(n, t, start, first) == seq![sub_block_at(n, t, start, first)] + plan_from(
            n,
            t,
            sub_block_at(n, t, start, first).end as int,
            sub_block_at(n, t, start, first).end_event as int,
        ),
{
    lemma_sub_block_at(n, t, start, first);
}

/// Splits a `num_samples`-sample block into the sub-blocks it is rendered
/// in, given the timings of its queued events in queue order.
pub fn plan_sub_blocks(num_samples: usize, timings: &[u32]) -> (r: Vec<SubBlock>)
    ensures
        r@ == plan(num_samples as int, timings@),
{
    let num_events = timings.len();
    let mut blocks: Vec<SubBlock> = Vec::new();
    let mut start: usize = 0;
    let mut ev: usize = 0;
    while start < num_samples
        invariant
            start <= num_samples,
            ev <= timings@.len(),
            num_events == timings@.len(),
            blocks@ + plan_from(num_samples as int, timings@, start as int, ev as int) == plan(
                num_samples as int,
                timings@,
            ),
        decreases num_samples - start,
    {
        proof {
            lemma_plan_unfold(num_samples as int, timings@, start as int, ev as int);
        }
        let b = next_sub_block(num_samples, timings, start, ev);
        let ghost before = blocks@;
        blocks.push(b);
        proof {
            assert(blocks@ == before + seq![b]);
            assert(before + (seq![b] + plan_from(num_samples as int, timings@, b.end as int, b.end_event as int))
                == blocks@ + plan_from(num_samples as int, timings@, b.end as int, b.end_event as int));
        }
        start = b.end;
        ev = b.end_event;
    }
    assert(blocks@ + seq![] == blocks@);
    blocks
}

/// Walks the sub-blocks of one host block in order.
pub struct BlockScheduler {
    num_samples: usize,
    block_start: usize,
    next_event: usize,
}

impl BlockScheduler {
    /// The sub-blocks still to come, for the queued event timings `t`.
    pub closed spec fn remaining(&self, t: Seq<u32>) -> Seq<SubBlock> {
        plan_from(self.num_samples as int, t, self.block_start as int, self.next_event as int)
    }

    /// Index of the first queued event not yet applied.
    pub closed spec fn pending_event(&self) -> int {
        self.next_event as int
    }

    /// A walk over a block of `num_samples` samples, from its start.
    pub fn new(num_samples: usize) -> (r: BlockScheduler)
        ensures
            r.pending_event() == 0,
            forall|t: Seq<u32>| #[trigger] r.remaining(t) == plan(num_samples as int, t),
    {
        BlockScheduler { num_samples, block_start: 0, next_event: 0 }
    }

    /// The next sub-block, if the block is not done; `timings` must be the
    /// same queue on every call.
    pub fn next(&mut self, timings: &[u32]) -> (r: Option<SubBlock>)
        requires
            old(self).pending_event() <= timings@.len(),
        ensures
            final(self).pending_event() <= timings@.len(),
            match r {
                None => old(self).remaining(timings@) == Seq::<SubBlock>::empty() && *final(self)
                    == *old(self),
                Some(b) => old(self).remaining(timings@) == seq![b] + final(self).remaining(
                    timings@,
                ) && final(self).pending_event() == b.end_event,
            },
    {
        if self.block_start >= self.num_samples {
            return None;
        }
        let num_events = timings.len();
        proof {
            assert(num_events == timings@.len());
            lemma_plan_unfold(
                self.num_samples as int,
                timings@,
                self.block_start as int,
                self.next_event as int,
            );
        }
        let b = next_sub_block(self.num_samples, timings, self.block_start, self.next_event);
        self.block_start = b.end;
        self.next_event = b.end_event;
        Some(b)
    }
}

/// The tiling facts of `plan_from`, by induction on the samples left.
proof fn lemma_plan_from_tiles(n: int, t: Seq<u32>, start: int, first: int)
    requires
        0 <= start <= n <= usize::MAX,
        0 <= first <= t.len(),
        t.len() <= usize::MAX,
    ensures
        ({
            let p = plan_from(n, t, start, first);
            &&& (p.len() > 0 <==> start < n)
            &&& p.len() > 0 ==> p[0].start == start && p[0].first_event == first && p.last().end == n
            &&& forall|i: int|
                0 <= i < p.len() ==> {
                    &&& (#[trigger] p[i]).start < p[i].end
                    &&& p[i].end - p[i].start <= MAX_BLOCK_SIZE
                    &&& first <= p[i].first_event <= p[i].end_event <= t.len()
                }
            &&& forall|i: int|
                0 <= i < p.len() - 1 ==> (#[trigger] p[i]).end == p[i + 1].start && p[i].end_event
                    == p[i + 1].first_event
        }),
    decreases n - start,
{
    if start < n {
        lemma_sub_block_at(n, t, start, first);
        let b = sub_block_at(n, t, start, first);
        lemma_plan_from_tiles(n, t, b.end as int, b.end_event as int);
        let rest = plan_from(n, t, b.end as int, b.end_event as int);
        let p = plan_from(n, t, start, first);
        assert(p == seq![b] + rest);
        assert forall|i: int| 0 <= i < p.len() - 1 implies (#[trigger] p[i]).end == p[i + 1].start
            && p[i].end_event == p[i + 1].first_event by {
            if i > 0 {
                assert(p[i] == rest[i - 1]);
                assert(p[i + 1] == rest[i]);
            }
        }
        assert forall|i: int| 0 <= i < p.len() implies {
            &&& (#[trigger] p[i]).start < p[i].end
            &&& p[i].end - p[i].start <= MAX_BLOCK_SIZE
            &&& first <= p[i].first_event <= p[i].end_event <= t.len()
        } by {
            if i > 0 {
                assert(p[i] == rest[i - 1]);
            }
        }
    }
}

/// Index of the first event that a plan leaves unapplied.
pub open spec fn unapplied_from(p: Seq<SubBlock>, first: int) -> int {
    if p.len() == 0 {
        first
    } else {
        p.last().end_event as int
    }
}

pub open spec fn is_time_ordered(t: Seq<u32>) -> bool {
    forall|a: int, b: int| 0 <= a <= b < t.len() ==> t[a] <= t[b]
}

proof fn lemma_plan_from_timing(n: int, t: Seq<u32>, start: int, first: int)
    requires
        0 <= start <= n <= usize::MAX,
        0 <= first <= t.len(),
        t.len() <= usize::MAX,
        is_time_ordered(t),
        forall|k: int| first <= k < t.len() ==> t[k] >= start,
    ensures
        ({
            let p = plan_from(n, t, start, first);
            &&& forall|i: int, k: int|
                #![trigger p[i], t[k]]
                0 <= i < p.len() && p[i].first_event <= k < p[i].end_event ==> t[k]
                    == p[i].start
            &&& forall|k: int| unapplied_from(p, first) <= k < t.len() ==> t[k] >= n
        }),
    decreases n - start,
{
    if start < n {
        lemma_sub_block_at(n, t, start, first);
        let b = sub_block_at(n, t, start, first);
        assert forall|k: int| b.end_event <= k < t.len() implies t[k] >= b.end by {
            assert(t[b.end_event as int] <= t[k]);
        }
        lemma_plan_from_timing(n, t, b.end as int, b.end_event as int);
        lemma_plan_from_tiles(n, t, b.end as int, b.end_event as int);
        let rest = plan_from(n, t, b.end as int, b.end_event as int);
        let p = plan_from(n, t, start, first);
        assert(p == seq![b] + rest);
        assert forall|i: int, k: int|
            #![trigger p[i], t[k]]
            0 <= i < p.len() && p[i].first_event <= k < p[i].end_event implies t[k]
            == p[i].start by {
            if i > 0 {
                assert(p[i] == rest[i - 1]);
            }
        }
        if rest.len() > 0 {
            assert(p.last() == rest.last());
        }
    }
}

/// The sub-blocks of an `n`-sample block tile it: the first starts at 0, each
/// ends where the next starts, the last ends at `n`, and each holds between 1
/// and `MAX_BLOCK_SIZE` samples. The events they apply follow one another in
/// queue order from the first. A block of no samples has no sub-block.
pub proof fn lemma_plan_tiles_block(n: usize, t: Seq<u32>)
    requires
        t.len() <= usize::MAX,
    ensures
        ({
            let p = plan(n as int, t);
            &&& (p.len() > 0 <==> n > 0)
            &&& p.len() > 0 ==> p[0].start == 0 && p[0].first_event == 0 && p.last().end == n
            &&& forall|i: int|
                0 <= i < p.len() ==> {
                    &&& (#[trigger] p[i]).start < p[i].end
                    &&& p[i].end - p[i].start <= MAX_BLOCK_SIZE
                    &&& p[i].first_event <= p[i].end_event <= t.len()
                }
            &&& forall|i: int|
                0 <= i < p.len() - 1 ==> (#[trigger] p[i]).end == p[i + 1].start && p[i].end_event
                    == p[i + 1].first_event
        }),
{
    lemma_plan_from_tiles(n as int, t, 0, 0);
}

/// Events in time order are applied at the exact sample they name: every
/// event a sub-block applies has the timing at which that sub-block starts,
/// and every event left unapplied lies at or beyond the end of the block.
pub proof fn lemma_plan_exact_timing(n: usize, t: Seq<u32>)
    requires
        t.len() <= usize::MAX,
        is_time_ordered(t),
    ensures
        ({
            let p = plan(n as int, t);
            &&& forall|i: int, k: int|
                #![trigger p[i], t[k]]
                0 <= i < p.len() && p[i].first_event <= k < p[i].end_event ==> t[k]
                    == p[i].start
            &&& forall|k: int| unapplied_from(p, 0) <= k < t.len() ==> t[k] >= n
        }),
{
    lemma_plan_from_timing(n as int, t, 0, 0);
}

} // verus!
