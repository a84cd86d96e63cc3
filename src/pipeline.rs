use vstd::prelude::*;

use crate::path::{canonical_path, canonicalize};
use crate::path_map::PathMap;
use crate::types::SendResult;

verus! {

/// A reliable write waiting for delivery: the canonical path, the value, the
/// submission timestamp given at intake, and a sequence number that orders
/// writes of one path submitted at the same timestamp.
pub struct PendingWrite<V> {
    pub path: String,
    pub value: V,
    pub stamp: u64,
    pub seq: u64,
}

/// `a` orders no later than `b`: by timestamp, then by sequence number.
pub open spec fn key_le(a: (u64, u64), b: (u64, u64)) -> bool {
    a.0 < b.0 || (a.0 == b.0 && a.1 <= b.1)
}

/// A write of `path` submitted at `now` is accepted into the table: the path
/// has no entry yet, or `now` is not before the recorded timestamp.
pub open spec fn accepts(table: Map<Seq<char>, (u64, u64)>, path: Seq<char>, now: u64) -> bool {
    !table.contains_key(path) || now >= table[path].0
}

/// The sequence number given to a write of `path` submitted at `now`: one
/// more than the recorded one when `now` equals the recorded timestamp (held
/// at the largest value), else zero.
pub open spec fn next_seq(table: Map<Seq<char>, (u64, u64)>, path: Seq<char>, now: u64) -> u64 {
    if table.contains_key(path) && now == table[path].0 {
        if table[path].1 < u64::MAX {
            (table[path].1 + 1) as u64
        } else {
            table[path].1
        }
    } else {
        0
    }
}

/// The table after a write of `path` was submitted at `now`.
pub open spec fn submit_table(table: Map<Seq<char>, (u64, u64)>, path: Seq<char>, now: u64) -> Map<
    Seq<char>,
    (u64, u64),
> {
    if accepts(table, path, now) {
        table.insert(path, (now, next_seq(table, path, now)))
    } else {
        table
    }
}

/// A write of `path` with `stamp` and `seq` may be delivered: no later write
/// of that path has been accepted.
pub open spec fn admits(table: Map<Seq<char>, (u64, u64)>, path: Seq<char>, stamp: u64, seq: u64) -> bool {
    !table.contains_key(path) || key_le(table[path], (stamp, seq))
}

/// No path's recorded entry moved back from `t1` to `t2`.
pub open spec fn grows(t1: Map<Seq<char>, (u64, u64)>, t2: Map<Seq<char>, (u64, u64)>) -> bool {
    forall|p: Seq<char>|
        #[trigger] t1.contains_key(p) ==> t2.contains_key(p) && key_le(t1[p], t2[p])
}

/// One pass of the worker over the queue `q`: writes that a later one
/// superseded are discarded, writes of a path with an attempt in flight stay
/// queued, and the first other write is taken. Gives the queue left and the
/// write taken.
pub open spec fn scan<V>(
    table: Map<Seq<char>, (u64, u64)>,
    busy: Set<Seq<char>>,
    q: Seq<PendingWrite<V>>,
) -> (Seq<PendingWrite<V>>, Option<PendingWrite<V>>)
    decreases q.len(),
{
    if q.len() == 0 {
        (q, None)
    } else {
        let w = q[0];
        if !admits(table, w.path@, w.stamp, w.seq) {
            scan(table, busy, q.drop_first())
        } else if busy.contains(w.path@) {
            let r = scan(table, busy, q.drop_first());
            (seq![w] + r.0, r.1)
        } else {
            (q.drop_first(), Some(w))
        }
    }
}

/// A write taken by the worker is current, its path has no attempt in flight,
/// and it was in the queue.
pub proof fn lemma_scan_takes_current_idle<V>(
    table: Map<Seq<char>, (u64, u64)>,
    busy: Set<Seq<char>>,
    q: Seq<PendingWrite<V>>,
)
    ensures
        scan(table, busy, q).1 matches Some(w) ==> {
            &&& admits(table, w.path@, w.stamp, w.seq)
            &&& !busy.contains(w.path@)
            &&& q.contains(w)
        },
    decreases q.len(),
{
    if q.len() > 0 {
        lemma_scan_takes_current_idle(table, busy, q.drop_first());
        if let Some(w) = scan(table, busy, q.drop_first()).1 {
            if q.drop_first().contains(w) {
                let k = choose|k: int| 0 <= k < q.drop_first().len() && q.drop_first()[k] == w;
                assert(q[k + 1] == w);
            }
        }
        assert(q[0] == q[0]);
    }
}

/// The state of a write pipeline, as its calls see it.
pub struct PipelineModel<V> {
    pub table: Map<Seq<char>, (u64, u64)>,
    pub queue: Seq<PendingWrite<V>>,
    pub busy: Set<Seq<char>>,
}

/// One call on a write pipeline.
pub enum PipelineOp<V> {
    /// `submit(path, value, now)`.
    Submit(String, V, u64),
    /// `next_write()`.
    Take,
    /// `resubmit(w)`.
    Resubmit(PendingWrite<V>),
    /// `finish(path)`.
    Finish(Seq<char>),
}

/// The state after `op`, and the write `op` took from the queue, if any.
pub open spec fn step<V>(s: PipelineModel<V>, op: PipelineOp<V>) -> (PipelineModel<V>, Option<
    PendingWrite<V>,
>) {
    match op {
        PipelineOp::Submit(path, value, now) => (
            PipelineModel {
                table: submit_table(s.table, path@, now),
                queue: s.queue.push(
                    PendingWrite { path, value, stamp: now, seq: next_seq(s.table, path@, now) },
                ),
                busy: s.busy,
            },
            None,
        ),
        PipelineOp::Take => {
            let r = scan(s.table, s.busy, s.queue);
            (
                PipelineModel {
                    table: s.table,
                    queue: r.0,
                    busy: match r.1 {
                        Some(w) => s.busy.insert(w.path@),
                        None => s.busy,
                    },
                },
                r.1,
            )
        },
        PipelineOp::Resubmit(w) => (
            PipelineModel { table: s.table, queue: s.queue.push(w), busy: s.busy.remove(w.path@) },
            None,
        ),
        PipelineOp::Finish(path) => (
            PipelineModel { table: s.table, queue: s.queue, busy: s.busy.remove(path) },
            None,
        ),
    }
}

/// The state after the calls `ops` in turn from `s`, and the writes they
/// took from the queue, in order.
pub open spec fn run<V>(s: PipelineModel<V>, ops: Seq<PipelineOp<V>>) -> (PipelineModel<V>, Seq<
    PendingWrite<V>,
>)
    decreases ops.len(),
{
    if ops.len() == 0 {
        (s, Seq::empty())
    } else {
        let before = run(s, ops.drop_last());
        let after = step(before.0, ops.last());
        (
            after.0,
            match after.1 {
                Some(w) => before.1.push(w),
                None => before.1,
            },
        )
    }
}

/// The intake of reliable writes: the table of the latest (timestamp,
/// sequence) accepted per path, the queue of writes waiting for delivery, and
/// the paths with a delivery attempt in flight.
pub struct WritePipeline<V> {
    last: PathMap<(u64, u64)>,
    queue: Vec<PendingWrite<V>>,
    busy: PathMap<()>,
}

impl<V> WritePipeline<V> {
    /// The latest (timestamp, sequence) accepted for each path.
    pub closed spec fn table(&self) -> Map<Seq<char>, (u64, u64)> {
        self.last@
    }

    /// The writes waiting for delivery, oldest first.
    pub closed spec fn queue(&self) -> Seq<PendingWrite<V>> {
        self.queue@
    }

    /// The paths with a delivery attempt in flight or waiting out its backoff.
    pub closed spec fn in_flight(&self) -> Set<Seq<char>> {
        self.busy@.dom()
    }

    pub closed spec fn wf(&self) -> bool {
        self.last.wf() && self.busy.wf()
    }

    /// The whole state, as `step` speaks of it.
    pub open spec fn model(&self) -> PipelineModel<V> {
        PipelineModel { table: self.table(), queue: self.queue(), busy: self.in_flight() }
    }

    pub fn new() -> (r: Self)
        ensures
            r.wf(),
            r.table() == Map::<Seq<char>, (u64, u64)>::empty(),
            r.queue() == Seq::<PendingWrite<V>>::empty(),
            r.in_flight() == Set::<Seq<char>>::empty(),
    {
        WritePipeline { last: PathMap::new(), queue: Vec::new(), busy: PathMap::new() }
    }

    /// The number of writes waiting for delivery.
    pub fn pending(&self) -> (r: usize)
        ensures
            r == self.queue().len(),
    {
        self.queue.len()
    }

    /// Takes a write of the canonical path `path` submitted at timestamp
    /// `now`: queues it stamped with `now`, and records it in the table where
    /// the table accepts it. Returns the sequence number it was given.
    pub fn submit(&mut self, path: String, value: V, now: u64) -> (seq: u64)
        requires
            old(self).wf(),
        ensures
            final(self).wf(),
            seq == next_seq(old(self).table(), path@, now),
            final(self).table() == submit_table(old(self).table(), path@, now),
            grows(old(self).table(), final(self).table()),
            final(self).in_flight() == old(self).in_flight(),
            final(self).queue().len() == old(self).queue().len() + 1,
            final(self).queue().drop_last() == old(self).queue(),
            final(self).queue().last().path@ == path@,
            final(self).queue().last().value == value,
            final(self).queue().last().stamp == now,
            final(self).queue().last().seq == seq,
            (final(self).model(), None::<PendingWrite<V>>) == step(
                old(self).model(),
                PipelineOp::Submit(path, value, now),
            ),
    {
        let (accepted, seq): (bool, u64) = match self.last.get(&path) {
            Some(prev) => {
                if now > prev.0 {
                    (true, 0)
                } else if now == prev.0 {
                    if prev.1 < u64::MAX {
                        (true, prev.1 + 1)
                    } else {
                        (true, prev.1)
                    }
                } else {
                    (false, 0)
                }
            },
            None => (true, 0),
        };
        if accepted {
            self.last.insert(path.clone(), (now, seq));
        }
        self.queue.push(PendingWrite { path, value, stamp: now, seq });
        proof {
            assert(self.queue@.drop_last() =~= old(self).queue@);
        }
        seq
    }

    /// The reliable write: queues `value` for the canonical form of `path`,
    /// stamped with the current timestamp `now`, and reports `MaybeSent` at
    /// once. Delivery and retries happen later, off the caller's path; the
    /// handle cache is not touched.
    pub fn send_retry(&mut self, path: &str, value: V, now: u64) -> (r: SendResult)
        requires
            old(self).wf(),
        ensures
            final(self).wf(),
            r == SendResult::MaybeSent,
            grows(old(self).table(), final(self).table()),
            final(self).in_flight() == old(self).in_flight(),
            ({
                let p = canonical_path(path@);
                &&& final(self).table() == submit_table(old(self).table(), p, now)
                &&& final(self).queue().len() == old(self).queue().len() + 1
                &&& final(self).queue().drop_last() == old(self).queue()
                &&& final(self).queue().last().path@ == p
                &&& final(self).queue().last().value == value
                &&& final(self).queue().last().stamp == now
                &&& final(self).queue().last().seq == next_seq(old(self).table(), p, now)
            }),
    {
        let p = canonicalize(path);
        self.submit(p, value, now);
        SendResult::MaybeSent
    }

    /// Puts a write whose delivery failed back in the queue, with its original
    /// timestamp, once its backoff is over; its path has no attempt in flight
    /// any more. The table is left alone, so a later write of the same path
    /// that was accepted meanwhile still supersedes it.
    pub fn resubmit(&mut self, w: PendingWrite<V>)
        requires
            old(self).wf(),
        ensures
            final(self).wf(),
            final(self).table() == old(self).table(),
            grows(old(self).table(), final(self).table()),
            final(self).in_flight() == old(self).in_flight().remove(w.path@),
            final(self).queue() == old(self).queue().push(w),
            (final(self).model(), None::<PendingWrite<V>>) == step(
                old(self).model(),
                PipelineOp::Resubmit(w),
            ),
    {
        self.busy.remove(&w.path);
        self.queue.push(w);
        proof {
            assert(self.busy@.dom() =~= old(self).busy@.dom().remove(w.path@));
        }
    }

    /// Ends the attempt in flight for `path` without a retry.
    pub fn finish(&mut self, path: &String)
        requires
            old(self).wf(),
        ensures
            final(self).wf(),
            final(self).table() == old(self).table(),
            final(self).queue() == old(self).queue(),
            final(self).in_flight() == old(self).in_flight().remove(path@),
            (final(self).model(), None::<PendingWrite<V>>) == step(
                old(self).model(),
                PipelineOp::Finish(path@),
            ),
    {
        self.busy.remove(path);
        proof {
            assert(self.busy@.dom() =~= old(self).busy@.dom().remove(path@));
        }
    }

    /// Whether `w` may still be delivered.
    pub fn is_current(&self, w: &PendingWrite<V>) -> (r: bool)
        requires
            self.wf(),
        ensures
            r == admits(self.table(), w.path@, w.stamp, w.seq),
    {
        match self.last.get(&w.path) {
            Some(prev) => prev.0 < w.stamp || (prev.0 == w.stamp && prev.1 <= w.seq),
            None => true,
        }
    }

    /// Takes the next write to deliver: discards every queued write that a
    /// later one of its path superseded, leaves queued the writes of paths
    /// with an attempt in flight, and takes the first other write, whose path
    /// is then in flight. So a path never has two attempts in flight.
    pub fn next_write(&mut self) -> (r: Option<PendingWrite<V>>)
        requires
            old(self).wf(),
        ensures
            final(self).wf(),
            final(self).table() == old(self).table(),
            grows(old(self).table(), final(self).table()),
            (final(self).queue(), r) == scan(old(self).table(), old(self).in_flight(), old(self).queue()),
            match r {
                Some(w) => {
                    &&& admits(old(self).table(), w.path@, w.stamp, w.seq)
                    &&& !old(self).in_flight().contains(w.path@)
                    &&& old(self).queue().contains(w)
                    &&& final(self).in_flight() == old(self).in_flight().insert(w.path@)
                },
                None => final(self).in_flight() == old(self).in_flight(),
            },
            (final(self).model(), r) == step(old(self).model(), PipelineOp::Take),
    {
        let ghost q0 = self.queue@;
        let ghost table = self.last@;
        let ghost busy = self.busy@.dom();
        let ghost mut kept: Seq<PendingWrite<V>> = Seq::empty();
        let ghost mut j: int = 0;
        let mut i: usize = 0;
        proof {
            assert(q0.subrange(0, q0.len() as int) =~= q0);
            assert(self.queue@.subrange(0, 0) =~= kept);
        }
        while i < self.queue.len()
            invariant
                self.wf(),
                self.last@ == table,
                self.busy@.dom() == busy,
                self.busy@ == old(self).busy@,
                table == old(self).last@,
                busy == old(self).busy@.dom(),
                q0 == old(self).queue@,
                0 <= j <= q0.len(),
                i <= self.queue@.len(),
                self.queue@.subrange(0, i as int) == kept,
                self.queue@.subrange(i as int, self.queue@.len() as int) == q0.subrange(
                    j,
                    q0.len() as int,
                ),
                scan(table, busy, q0) == (
                    kept + scan(table, busy, q0.subrange(j, q0.len() as int)).0,
                    scan(table, busy, q0.subrange(j, q0.len() as int)).1,
                ),
            decreases self.queue@.len() - i,
        {
            let ghost s = q0.subrange(j, q0.len() as int);
            let ghost before = self.queue@;
            proof {
                assert(s.drop_first() =~= q0.subrange(j + 1, q0.len() as int));
                assert(before[i as int] == before.subrange(i as int, before.len() as int)[0]);
                assert(before[i as int] == s[0]);
            }
            if !self.is_current(&self.queue[i]) {
                self.queue.remove(i);
                proof {
                    assert(self.queue@.subrange(0, i as int) =~= before.subrange(0, i as int));
                    assert(self.queue@.subrange(i as int, self.queue@.len() as int)
                        =~= before.subrange(i as int + 1, before.len() as int));
                    assert(before.subrange(i as int + 1, before.len() as int) =~= s.drop_first());
                    j = j + 1;
                }
            } else if self.busy.contains_key(&self.queue[i].path) {
                proof {
                    let r = scan(table, busy, s.drop_first());
                    assert(kept.push(s[0]) + r.0 =~= kept + (seq![s[0]] + r.0));
                    kept = kept.push(s[0]);
                    assert(self.queue@.subrange(0, i as int + 1) =~= kept);
                    assert(self.queue@.subrange(i as int + 1, self.queue@.len() as int)
                        =~= s.drop_first());
                    j = j + 1;
                }
                i = i + 1;
            } else {
                let w = self.queue.remove(i);
                self.busy.insert(w.path.clone(), ());
                proof {
                    assert(self.queue@ =~= kept + s.drop_first());
                    assert(self.busy@.dom() =~= busy.insert(w.path@));
                    lemma_scan_takes_current_idle(table, busy, q0);
                }
                return Some(w);
            }
        }
        proof {
            assert(self.queue@.subrange(i as int, self.queue@.len() as int).len() == 0);
            assert(q0.subrange(j, q0.len() as int).len() == 0);
            assert(self.queue@ =~= kept);
            assert(kept + q0.subrange(j, q0.len() as int) =~= kept);
        }
        None
    }
}

} // verus!
