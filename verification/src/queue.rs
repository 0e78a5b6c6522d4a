use vstd::prelude::*;

verus! {

/// One row of a room's playback queue: the track, who added it, and its
/// never-reused position.
pub struct QueueEntry {
    pub track_uuid: u128,
    pub added_by: u128,
    pub idx: i64,
}

/// Positions are at least 1 and strictly increase in insertion order;
/// removal leaves gaps and never renumbers.
pub open spec fn queue_wf(s: Seq<QueueEntry>) -> bool {
    &&& forall|i: int, j: int| 0 <= i < j < s.len() ==> s[i].idx < s[j].idx
    &&& forall|i: int| 0 <= i < s.len() ==> #[trigger] s[i].idx >= 1
}

/// The ordered playback queue of one room.
pub struct Queue {
    pub room_uuid: u128,
    pub entries: Vec<QueueEntry>,
}

impl View for Queue {
    type V = Seq<QueueEntry>;

    open spec fn view(&self) -> Seq<QueueEntry> {
        self.entries@
    }
}

impl Queue {
    pub open spec fn wf(self) -> bool {
        queue_wf(self@)
    }

    /// The position the next enqueued track receives: one more than the
    /// current maximum, or 1 for an empty queue.
    pub open spec fn spec_next_idx(self) -> int {
        if self@.len() == 0 {
            1
        } else {
            self@.last().idx + 1
        }
    }

    pub fn new(room_uuid: u128) -> (q: Queue)
        ensures
            q@ =~= Seq::<QueueEntry>::empty(),
            q.wf(),
            q.room_uuid == room_uuid,
    {
        Queue { room_uuid, entries: Vec::new() }
    }

    /// Appends a track at position `max + 1` (1 on an empty queue) and
    /// returns that position, which is strictly above every position the
    /// queue has ever handed out.
    pub fn enqueue(&mut self, track_uuid: u128, added_by: u128) -> (idx: i64)
        requires
            old(self).wf(),
            old(self).spec_next_idx() <= i64::MAX,
        ensures
            final(self).wf(),
            idx == old(self).spec_next_idx(),
            idx >= 1,
            forall|i: int| 0 <= i < old(self)@.len() ==> idx > #[trigger] old(self)@[i].idx,
            final(self)@ == old(self)@.push(QueueEntry { track_uuid, added_by, idx }),
            final(self).room_uuid == old(self).room_uuid,
    {
        let n = self.entries.len();
        let idx: i64 = if n == 0 {
            1
        } else {
            self.entries[n - 1].idx + 1
        };
        self.entries.push(QueueEntry { track_uuid, added_by, idx });
        idx
    }

    /// Removes every entry for the given track; the other entries keep
    /// their positions and their order.
    pub fn dequeue(&mut self, track_uuid: u128)
        requires
            old(self).wf(),
        ensures
            final(self).wf(),
            final(self)@ == old(self)@.filter(|e: QueueEntry| e.track_uuid != track_uuid),
            final(self).room_uuid == old(self).room_uuid,
    {
        let mut kept: Vec<QueueEntry> = Vec::new();
        let ghost pred = |e: QueueEntry| e.track_uuid != track_uuid;
        let n = self.entries.len();
        let mut i: usize = 0;
        #[verifier::loop_isolation(false)]
        while i < n
            invariant
                i <= n,
                kept@ == self.entries@.subrange(0, i as int).filter(pred),
            decreases n - i,
        {
            let e = QueueEntry {
                track_uuid: self.entries[i].track_uuid,
                added_by: self.entries[i].added_by,
                idx: self.entries[i].idx,
            };
            if e.track_uuid != track_uuid {
                kept.push(e);
            }
            i += 1;
            proof {
                reveal_with_fuel(Seq::filter, 2);
                assert(self.entries@.subrange(0, i as int) =~= self.entries@.subrange(0, i - 1)
                    + seq![e]);
                Seq::filter_distributes_over_add(self.entries@.subrange(0, i - 1), seq![e], pred);
                assert(seq![e].drop_last() =~= Seq::<QueueEntry>::empty());
                assert(kept@ == self.entries@.subrange(0, i as int).filter(pred));
            }
        }
        proof {
            assert(self.entries@.subrange(0, n as int) == self.entries@);
            old(self)@.filter_lemma(pred);
        }
        self.entries = kept;
        proof {
            lemma_filter_keeps_queue_wf(old(self)@, pred);
        }
    }

    /// The queue's rows in position order; with the ordering invariant the
    /// stored order is already ascending.
    pub fn get_enqueued(&self) -> (r: Vec<QueueEntry>)
        ensures
            r@ == self@,
    {
        let mut out: Vec<QueueEntry> = Vec::new();
        let n = self.entries.len();
        let mut i: usize = 0;
        while i < n
            invariant
                n == self.entries@.len(),
                i <= n,
                out@ == self.entries@.subrange(0, i as int),
            decreases n - i,
        {
            let e = QueueEntry {
                track_uuid: self.entries[i].track_uuid,
                added_by: self.entries[i].added_by,
                idx: self.entries[i].idx,
            };
            out.push(e);
            i += 1;
            proof {
                assert(out@ =~= self.entries@.subrange(0, i as int));
            }
        }
        proof {
            assert(out@ =~= self@);
        }
        out
    }

    /// The position of the given track, or -1 when it is not queued.
    pub fn get_queue_idx(&self, track_uuid: u128) -> (r: i64)
        requires
            self.wf(),
        ensures
            (exists|i: int| 0 <= i < self@.len() && (#[trigger] self@[i]).track_uuid == track_uuid)
                ==> exists|i: int|
                0 <= i < self@.len() && (#[trigger] self@[i]).track_uuid == track_uuid
                    && r == self@[i].idx,
            (forall|i: int|
                0 <= i < self@.len() ==> (#[trigger] self@[i]).track_uuid != track_uuid) ==> r
                == -1,
    {
        let n = self.entries.len();
        let mut i: usize = 0;
        while i < n
            invariant
                n == self.entries@.len(),
                i <= n,
                forall|j: int| 0 <= j < i ==> (#[trigger] self@[j]).track_uuid != track_uuid,
            decreases n - i,
        {
            if self.entries[i].track_uuid == track_uuid {
                proof {
                    assert(i < self@.len() && self@[i as int].track_uuid == track_uuid);
                }
                return self.entries[i].idx;
            }
            i += 1;
        }
        -1
    }
}

/// Each element kept by a filter stands somewhere in the original sequence.
proof fn lemma_filter_membership(s: Seq<QueueEntry>, pred: spec_fn(QueueEntry) -> bool, k: int)
    requires
        0 <= k < s.filter(pred).len(),
    ensures
        exists|j: int| 0 <= j < s.len() && s[j] == #[trigger] s.filter(pred)[k],
    decreases s.len(),
{
    reveal(Seq::filter);
    if s.len() > 0 {
        let rest = s.drop_last();
        if pred(s.last()) && k == rest.filter(pred).len() {
            assert(s[s.len() - 1] == s.filter(pred)[k]);
        } else {
            lemma_filter_membership(rest, pred, k);
            let j = choose|j: int| 0 <= j < rest.len() && rest[j] == rest.filter(pred)[k];
            assert(s[j] == s.filter(pred)[k]);
        }
    }
}

/// Removing entries never disturbs the position ordering of those that stay.
pub proof fn lemma_filter_keeps_queue_wf(s: Seq<QueueEntry>, pred: spec_fn(QueueEntry) -> bool)
    requires
        queue_wf(s),
    ensures
        queue_wf(s.filter(pred)),
    decreases s.len(),
{
    reveal(Seq::filter);
    if s.len() > 0 {
        let last = s.last();
        let rest = s.drop_last();
        assert(queue_wf(rest));
        lemma_filter_keeps_queue_wf(rest, pred);
        if pred(last) {
            assert(s.filter(pred) == rest.filter(pred).push(last));
            assert forall|k: int| 0 <= k < rest.filter(pred).len() implies last.idx > rest.filter(
                pred,
            )[k].idx by {
                lemma_filter_membership(rest, pred, k);
                let j = choose|j: int| 0 <= j < rest.len() && rest[j] == rest.filter(pred)[k];
                assert(s[j].idx < last.idx);
            }
        } else {
            assert(s.filter(pred) == rest.filter(pred));
        }
    }
}

/// Every sequence of enqueue calls on one room yields strictly increasing
/// positions with no duplicates, starting at 1 on an empty queue: the
/// ordering invariant pins each stored position below the next one handed
/// out, and the first position of an untouched queue is exactly 1.
pub proof fn lemma_positions_strictly_increasing(q: Queue)
    requires
        q.wf(),
    ensures
        forall|i: int, j: int| 0 <= i < j < q@.len() ==> q@[i].idx < q@[j].idx,
        forall|i: int| 0 <= i < q@.len() ==> #[trigger] q@[i].idx >= 1,
        q@.len() == 0 ==> q.spec_next_idx() == 1,
        forall|i: int| 0 <= i < q@.len() ==> q.spec_next_idx() > #[trigger] q@[i].idx,
{
}

} // verus!
