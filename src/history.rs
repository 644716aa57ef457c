use vstd::prelude::*;

verus! {

/// A weight that holds from `height` on, until the next checkpoint; `None`
/// means "not a member".
#[derive(Clone, Copy, Debug, PartialEq, Eq, Structural)]
pub struct Checkpoint {
    pub height: u64,
    pub weight: Option<u64>,
}

/// The weight of one account over time: checkpoints in strictly increasing
/// height, each written when the weight changed.
pub struct History {
    checkpoints: Vec<Checkpoint>,
}

/// Checkpoint heights strictly increase.
pub open spec fn heights_increasing(h: Seq<Checkpoint>) -> bool {
    forall|i: int, j: int| 0 <= i < j < h.len() ==> h[i].height < h[j].height
}

/// The weight now: that of the last checkpoint, none before the first.
pub open spec fn current_of(h: Seq<Checkpoint>) -> Option<u64> {
    if h.len() == 0 {
        None
    } else {
        h.last().weight
    }
}

/// The weight as of `height`: that of the last checkpoint written at or
/// before `height`, none if there is no such checkpoint.
pub open spec fn weight_at(h: Seq<Checkpoint>, height: int) -> Option<u64>
    decreases h.len(),
{
    if h.len() == 0 {
        None
    } else if h.last().height <= height {
        h.last().weight
    } else {
        weight_at(h.drop_last(), height)
    }
}

/// Whether a write at `height` keeps the history in order: no checkpoint lies
/// after it.
pub open spec fn writable_at(h: Seq<Checkpoint>, height: int) -> bool {
    h.len() == 0 || h.last().height <= height
}

/// The history after recording `w` at `height`: unchanged when `w` is the
/// current weight; else the last checkpoint is replaced when it was written at
/// the same height, and a checkpoint is appended otherwise.
pub open spec fn recorded(h: Seq<Checkpoint>, w: Option<u64>, height: u64) -> Seq<Checkpoint> {
    if current_of(h) == w {
        h
    } else if h.len() > 0 && h.last().height == height {
        h.drop_last().push(Checkpoint { height, weight: w })
    } else {
        h.push(Checkpoint { height, weight: w })
    }
}

/// Checkpoints after index `k` that lie after `height` do not change the
/// weight as of `height`.
proof fn lemma_weight_at_prefix(h: Seq<Checkpoint>, k: int, height: int)
    requires
        0 <= k <= h.len(),
        forall|j: int| k <= j < h.len() ==> h[j].height > height,
    ensures
        weight_at(h, height) == weight_at(h.subrange(0, k), height),
    decreases h.len() - k,
{
    if k < h.len() {
        assert(h.drop_last() =~= h.subrange(0, h.len() - 1));
        lemma_weight_at_prefix(h.drop_last(), k, height);
        assert(h.drop_last().subrange(0, k) =~= h.subrange(0, k));
    } else {
        assert(h.subrange(0, k) =~= h);
    }
}

/// In an ordered history, every height at or after the last checkpoint sees
/// the current weight.
proof fn lemma_weight_at_end(h: Seq<Checkpoint>, height: int)
    requires
        writable_at(h, height),
    ensures
        weight_at(h, height) == current_of(h),
{
}

impl View for History {
    type V = Seq<Checkpoint>;

    closed spec fn view(&self) -> Seq<Checkpoint> {
        self.checkpoints@
    }
}

impl History {
    pub open spec fn wf(&self) -> bool {
        heights_increasing(self@)
    }

    pub fn new() -> (r: History)
        ensures
            r@ == Seq::<Checkpoint>::empty(),
            r.wf(),
    {
        History { checkpoints: Vec::new() }
    }

    /// The history made of `checkpoints`, if their heights strictly increase.
    pub fn from_checkpoints(checkpoints: Vec<Checkpoint>) -> (r: Option<History>)
        ensures
            r is Some <==> heights_increasing(checkpoints@),
            r is Some ==> r->0@ == checkpoints@,
    {
        let mut i: usize = 1;
        while i < checkpoints.len()
            invariant
                1 <= i,
                i <= checkpoints@.len() || checkpoints@.len() == 0,
                heights_increasing(checkpoints@.subrange(0, i as int)) || checkpoints@.len() == 0,
            decreases checkpoints@.len() - i,
        {
            if checkpoints[i - 1].height >= checkpoints[i].height {
                assert(!heights_increasing(checkpoints@)) by {
                    assert(checkpoints@[i - 1].height >= checkpoints@[i as int].height);
                }
                return None;
            }
            let ghost prev = checkpoints@.subrange(0, i as int);
            assert forall|a: int, b: int| 0 <= a < b < i + 1 implies #[trigger] checkpoints@.subrange(
                0,
                i + 1,
            )[a].height < #[trigger] checkpoints@.subrange(0, i + 1)[b].height by {
                if b < i {
                    assert(prev[a] == checkpoints@[a] && prev[b] == checkpoints@[b]);
                } else if a < i - 1 {
                    assert(prev[a] == checkpoints@[a] && prev[i - 1] == checkpoints@[i - 1]);
                }
            }
            i = i + 1;
        }
        if checkpoints.len() > 0 {
            assert(checkpoints@.subrange(0, i as int) =~= checkpoints@);
        }
        Some(History { checkpoints })
    }

    /// The checkpoints, oldest first.
    pub fn checkpoints(&self) -> (r: &Vec<Checkpoint>)
        ensures
            r@ == self@,
    {
        &self.checkpoints
    }

    /// The current weight.
    pub fn current(&self) -> (r: Option<u64>)
        ensures
            r == current_of(self@),
    {
        let n = self.checkpoints.len();
        if n == 0 {
            None
        } else {
            self.checkpoints[n - 1].weight
        }
    }

    /// The weight as of `height`, found by binary search over the checkpoint
    /// heights.
    pub fn at(&self, height: u64) -> (r: Option<u64>)
        requires
            self.wf(),
        ensures
            r == weight_at(self@, height as int),
    {
        let h = &self.checkpoints;
        let mut lo: usize = 0;
        let mut hi: usize = h.len();
        while lo < hi
            invariant
                0 <= lo <= hi <= h@.len(),
                heights_increasing(h@),
                forall|j: int| 0 <= j < lo ==> h@[j].height <= height,
                forall|j: int| hi <= j < h@.len() ==> h@[j].height > height,
            decreases hi - lo,
        {
            let mid = lo + (hi - lo) / 2;
            if h[mid].height <= height {
                lo = mid + 1;
            } else {
                hi = mid;
            }
        }
        proof {
            lemma_weight_at_prefix(h@, lo as int, height as int);
        }
        if lo == 0 {
            None
        } else {
            proof {
                assert(h@.subrange(0, lo as int).last() == h@[lo - 1]);
            }
            h[lo - 1].weight
        }
    }

    /// Records `w` as the weight from `height` on. A write of the current
    /// weight changes nothing, and a second write at one height replaces the
    /// first.
    pub fn set(&mut self, w: Option<u64>, height: u64)
        requires
            old(self).wf(),
            writable_at(old(self)@, height as int),
        ensures
            final(self).wf(),
            final(self)@ == recorded(old(self)@, w, height),
            current_of(final(self)@) == w,
            writable_at(final(self)@, height as int),
            forall|at: int| #[trigger]
                weight_at(final(self)@, at) == if at >= height {
                    w
                } else {
                    weight_at(old(self)@, at)
                },
    {
        let ghost h0 = self@;
        let cur = self.current();
        if cur == w {
            assert forall|at: int| at >= height implies #[trigger] weight_at(h0, at) == w by {
                lemma_weight_at_end(h0, at);
            }
            return;
        }
        let n = self.checkpoints.len();
        let cp = Checkpoint { height, weight: w };
        if n > 0 && self.checkpoints[n - 1].height == height {
            self.checkpoints.pop();
            self.checkpoints.push(cp);
            assert forall|at: int| at < height implies #[trigger] weight_at(h0, at) == weight_at(
                h0.drop_last(),
                at,
            ) by {}
        } else {
            self.checkpoints.push(cp);
        }
        assert(self@.drop_last() =~= h0 || self@.drop_last() =~= h0.drop_last());
    }
}

/// The history law: after recording `w` at `height`, every query at or after
/// `height` sees `w`, and every query before `height` sees what it saw before.
pub proof fn lemma_history_query(h: Seq<Checkpoint>, w: Option<u64>, height: u64, at: int)
    requires
        heights_increasing(h),
        writable_at(h, height as int),
    ensures
        weight_at(recorded(h, w, height), at) == if at >= height {
            w
        } else {
            weight_at(h, at)
        },
{
    if at >= height {
        lemma_weight_at_end(h, at);
    }
    if current_of(h) != w && h.len() > 0 && h.last().height == height {
        assert(recorded(h, w, height).drop_last() =~= h.drop_last());
    }
    if current_of(h) != w && !(h.len() > 0 && h.last().height == height) {
        assert(recorded(h, w, height).drop_last() =~= h);
    }
}

/// Before its first checkpoint an account has no weight.
pub proof fn lemma_history_before_first(h: Seq<Checkpoint>, at: int)
    requires
        heights_increasing(h),
        h.len() == 0 || at < h[0].height,
    ensures
        weight_at(h, at) is None,
    decreases h.len(),
{
    if h.len() > 0 {
        if h.len() > 1 {
            assert(h.drop_last()[0] == h[0]);
        }
        lemma_history_before_first(h.drop_last(), at);
    }
}

/// The history kept after recording each of `writes` in turn, starting from
/// none.
pub open spec fn replay(writes: Seq<Checkpoint>) -> Seq<Checkpoint>
    decreases writes.len(),
{
    if writes.len() == 0 {
        Seq::empty()
    } else {
        recorded(replay(writes.drop_last()), writes.last().weight, writes.last().height)
    }
}

/// Writes come at heights that never go back.
pub open spec fn heights_nondecreasing(writes: Seq<Checkpoint>) -> bool {
    forall|i: int, j: int| 0 <= i < j < writes.len() ==> writes[i].height <= writes[j].height
}

/// Recording at a height no earlier than the last checkpoint keeps the
/// history in order.
pub proof fn lemma_recorded_ordered(h: Seq<Checkpoint>, w: Option<u64>, height: u64)
    requires
        heights_increasing(h),
        writable_at(h, height as int),
    ensures
        heights_increasing(recorded(h, w, height)),
        writable_at(recorded(h, w, height), height as int),
{
    let r = recorded(h, w, height);
    if current_of(h) != w {
        assert forall|i: int, j: int| 0 <= i < j < r.len() implies r[i].height < r[j].height by {
            if j == r.len() - 1 && i < h.len() - 1 && h.len() > 0 {
                assert(h[i].height < h[h.len() - 1].height);
            }
        }
    }
}

/// History law over a whole run: when a history is kept from writes at
/// heights that never go back, a query as of any height sees the weight of
/// the last write made at or before that height, and none before the first
/// write — as if every write had been kept.
pub proof fn lemma_replay_history(writes: Seq<Checkpoint>, at: int)
    requires
        heights_nondecreasing(writes),
    ensures
        heights_increasing(replay(writes)),
        writes.len() > 0 ==> writable_at(replay(writes), writes.last().height as int),
        weight_at(replay(writes), at) == weight_at(writes, at),
    decreases writes.len(),
{
    if writes.len() > 0 {
        let prev = writes.drop_last();
        let x = writes.last();
        lemma_replay_history(prev, at);
        if prev.len() > 0 {
            assert(prev.last().height <= x.height);
        }
        lemma_recorded_ordered(replay(prev), x.weight, x.height);
        lemma_history_query(replay(prev), x.weight, x.height, at);
    }
}

} // verus!
