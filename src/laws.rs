use vstd::prelude::*;

use crate::delivery::{cache_after, next_after, Next, Outcome, RETRY_INTERVAL_MS};
use crate::path::canonical_path;
use crate::pipeline::{
    accepts, admits, grows, key_le, lemma_scan_takes_current_idle, next_seq, run, scan, step,
    submit_table, PendingWrite, PipelineModel, PipelineOp,
};
use crate::types::RequestType;

verus! {

/// The table after writes of `path` submitted at the timestamps `nows`, in
/// that order, starting from `table`.
pub open spec fn table_after(
    table: Map<Seq<char>, (u64, u64)>,
    path: Seq<char>,
    nows: Seq<u64>,
) -> Map<Seq<char>, (u64, u64)>
    decreases nows.len(),
{
    if nows.len() == 0 {
        table
    } else {
        submit_table(table_after(table, path, nows.drop_last()), path, nows.last())
    }
}

/// The table only grows: what it records for a path never moves back.
pub proof fn lemma_grows_trans(
    t1: Map<Seq<char>, (u64, u64)>,
    t2: Map<Seq<char>, (u64, u64)>,
    t3: Map<Seq<char>, (u64, u64)>,
)
    requires
        grows(t1, t2),
        grows(t2, t3),
    ensures
        grows(t1, t3),
{
}

/// A write superseded in the table stays superseded in every later table: no
/// later intake, retry or dequeue lets it through again.
pub proof fn lemma_superseded_stays_superseded(
    now_table: Map<Seq<char>, (u64, u64)>,
    later: Map<Seq<char>, (u64, u64)>,
    path: Seq<char>,
    stamp: u64,
    seq: u64,
)
    requires
        !admits(now_table, path, stamp, seq),
        grows(now_table, later),
    ensures
        !admits(later, path, stamp, seq),
{
}

/// Of writes of one path submitted at strictly increasing timestamps, each
/// queued with its timestamp and sequence number zero, only the last is ever
/// delivered: in the table after them, and in every later one (intake of other
/// writes, retries and dequeues only let the table grow), each earlier write
/// is discarded when taken from the queue, however often its delivery failed.
pub proof fn lemma_only_latest_delivered(
    table: Map<Seq<char>, (u64, u64)>,
    path: Seq<char>,
    nows: Seq<u64>,
    later: Map<Seq<char>, (u64, u64)>,
)
    requires
        nows.len() > 0,
        forall|i: int, j: int| 0 <= i < j < nows.len() ==> nows[i] < nows[j],
        table.contains_key(path) ==> table[path].0 < nows[0],
        grows(table_after(table, path, nows), later),
    ensures
        table_after(table, path, nows).contains_key(path),
        table_after(table, path, nows)[path] == (nows.last(), 0u64),
        admits(table_after(table, path, nows), path, nows.last(), 0),
        forall|i: int|
            0 <= i < nows.len() - 1 ==> !admits(later, path, #[trigger] nows[i], 0),
    decreases nows.len(),
{
    let n = nows.len();
    let prev = nows.drop_last();
    let t = table_after(table, path, prev);
    if n > 1 {
        lemma_only_latest_delivered(table, path, prev, t);
        assert(prev.last() == nows[n - 2]);
    }
    assert(!t.contains_key(path) || t[path].0 < nows.last());
    let fin = table_after(table, path, nows);
    assert(fin[path] == (nows.last(), 0u64));
    assert forall|i: int| 0 <= i < n - 1 implies !admits(later, path, #[trigger] nows[i], 0) by {
        assert(nows[i] < nows[n - 1]);
        lemma_superseded_stays_superseded(fin, later, path, nows[i], 0);
    }
}

/// Of two writes of one path submitted at the same timestamp, the later one
/// supersedes the earlier (unless the sequence numbers ran out).
pub proof fn lemma_same_timestamp_supersedes(
    table: Map<Seq<char>, (u64, u64)>,
    path: Seq<char>,
    now: u64,
)
    requires
        accepts(table, path, now),
        next_seq(table, path, now) < u64::MAX,
    ensures
        ({
            let first = next_seq(table, path, now);
            let t1 = submit_table(table, path, now);
            let second = next_seq(t1, path, now);
            let t2 = submit_table(t1, path, now);
            &&& second == first + 1
            &&& !admits(t2, path, now, first)
            &&& admits(t2, path, now, second)
        }),
{
}

/// A failed or timed-out delivery to `path` leaves no handle cached for it, so
/// the next write of `path` opens a new one; other paths keep theirs.
pub proof fn lemma_failure_forces_new_handle<H>(m: Map<Seq<char>, H>, path: Seq<char>, outcome: Outcome)
    requires
        outcome != Outcome::Delivered,
    ensures
        !cache_after(m, path, outcome).contains_key(path),
        forall|q: Seq<char>|
            q != path ==> (#[trigger] cache_after(m, path, outcome).contains_key(q)
                == m.contains_key(q)) && (m.contains_key(q) ==> cache_after(m, path, outcome)[q]
                == m[q]),
{
}

/// After `refresh_path(path)` turned the cache `before` into `refreshed`, the
/// path has no handle, so the next write of it calls `open` once; when that
/// write leaves `written` with the opened handle, every other path keeps the
/// handle it had, and the path holds the new one.
pub proof fn lemma_refresh_path_reopens_once<H>(
    before: Map<Seq<char>, H>,
    refreshed: Map<Seq<char>, H>,
    written: Map<Seq<char>, H>,
    path: Seq<char>,
    opened: H,
)
    requires
        refreshed == before.remove(canonical_path(path)),
        written == refreshed.insert(canonical_path(path), opened),
    ensures
        !refreshed.contains_key(canonical_path(path)),
        written[canonical_path(path)] == opened,
        forall|q: Seq<char>|
            q != canonical_path(path) ==> (#[trigger] written.contains_key(q) == before.contains_key(
                q,
            )) && (before.contains_key(q) ==> written[q] == before[q]),
{
}

/// After `refresh_all` turned the cache `before` into `refreshed`, every path
/// cached before has no handle, so its next write calls `open`.
pub proof fn lemma_refresh_all_reopens_every_path<H>(before: Map<Seq<char>, H>, refreshed: Map<Seq<char>, H>)
    requires
        refreshed == Map::<Seq<char>, H>::empty(),
    ensures
        forall|q: Seq<char>| #[trigger] before.contains_key(q) ==> !refreshed.contains_key(q),
{
}

/// Submitting a write only lets the table grow.
pub proof fn lemma_submit_grows(table: Map<Seq<char>, (u64, u64)>, path: Seq<char>, now: u64)
    ensures
        grows(table, submit_table(table, path, now)),
{
}

/// Over any run of calls, the table only grows, and every write taken for a
/// path orders no earlier than what the table held for it at the start.
pub proof fn lemma_run_takes_no_superseded<V>(s: PipelineModel<V>, ops: Seq<PipelineOp<V>>)
    ensures
        grows(s.table, run(s, ops).0.table),
        forall|i: int|
            0 <= i < run(s, ops).1.len() && s.table.contains_key(#[trigger] run(s, ops).1[i].path@)
                ==> key_le(
                s.table[run(s, ops).1[i].path@],
                (run(s, ops).1[i].stamp, run(s, ops).1[i].seq),
            ),
    decreases ops.len(),
{
    if ops.len() > 0 {
        let prev = ops.drop_last();
        lemma_run_takes_no_superseded(s, prev);
        let before = run(s, prev);
        let t = before.0.table;
        match ops.last() {
            PipelineOp::Submit(path, value, now) => {
                lemma_submit_grows(t, path@, now);
            },
            PipelineOp::Take => {
                lemma_scan_takes_current_idle(t, before.0.busy, before.0.queue);
                let taken = run(s, ops).1;
                assert forall|i: int|
                    0 <= i < taken.len() && s.table.contains_key(#[trigger] taken[i].path@) implies key_le(
                    s.table[taken[i].path@],
                    (taken[i].stamp, taken[i].seq),
                ) by {
                    if i < before.1.len() {
                        assert(taken[i] == before.1[i]);
                    } else {
                        assert(t.contains_key(taken[i].path@));
                    }
                }
            },
            _ => {},
        }
    }
}

/// Once a write of `path` at timestamp `now` is accepted, every later call
/// that takes a write of `path` from the queue, whatever the retries and
/// failures in between, takes that write or a later one: no write of an
/// earlier timestamp is ever delivered after it.
pub proof fn lemma_only_latest_delivered_over_calls<V>(
    s: PipelineModel<V>,
    path: String,
    value: V,
    now: u64,
    ops: Seq<PipelineOp<V>>,
)
    requires
        accepts(s.table, path@, now),
    ensures
        ({
            let start = step(s, PipelineOp::Submit(path, value, now)).0;
            let taken = run(start, ops).1;
            forall|i: int|
                0 <= i < taken.len() && #[trigger] taken[i].path@ == path@ ==> key_le(
                    (now, next_seq(s.table, path@, now)),
                    (taken[i].stamp, taken[i].seq),
                ) && taken[i].stamp >= now
        }),
{
    let start = step(s, PipelineOp::Submit(path, value, now)).0;
    lemma_run_takes_no_superseded(start, ops);
}

/// A write whose attempt failed, put back by `resubmit` into an otherwise
/// empty queue while no later write of its path was accepted, is the write
/// the next `next_write` takes: the retry goes out again.
pub proof fn lemma_resubmitted_write_taken_again<V>(s: PipelineModel<V>, w: PendingWrite<V>)
    requires
        s.queue.len() == 0,
        admits(s.table, w.path@, w.stamp, w.seq),
    ensures
        run(s, seq![PipelineOp::Resubmit(w), PipelineOp::Take]).1 == seq![w],
        !run(s, seq![PipelineOp::Resubmit(w), PipelineOp::Take]).0.queue.contains(w),
        run(s, seq![PipelineOp::Resubmit(w), PipelineOp::Take]).0.busy.contains(w.path@),
{
    let ops = seq![PipelineOp::Resubmit(w), PipelineOp::Take];
    let first = seq![PipelineOp::Resubmit(w)];
    assert(ops.drop_last() =~= first);
    assert(ops.last() == PipelineOp::<V>::Take);
    assert(first.drop_last() =~= Seq::<PipelineOp<V>>::empty());
    assert(first.last() == PipelineOp::Resubmit(w));
    let r0 = run(s, Seq::<PipelineOp<V>>::empty());
    assert(r0.0 == s && r0.1 == Seq::<PendingWrite<V>>::empty());
    let s1 = step(s, PipelineOp::Resubmit(w)).0;
    let r1 = run(s, first);
    assert(r1.0 == s1 && r1.1 == Seq::<PendingWrite<V>>::empty());
    assert(s1.queue =~= seq![w]);
    assert(s1.queue[0] == w);
    assert(!s1.busy.contains(w.path@));
    assert(s1.table == s.table);
    let sc = scan(s1.table, s1.busy, s1.queue);
    assert(sc.1 == Some(w));
    assert(sc.0 =~= Seq::<PendingWrite<V>>::empty());
    let r2 = run(s, ops);
    assert(r2.1 == r1.1.push(w));
    assert(run(s, ops).1 =~= seq![w]);
}

/// The total backoff before a reliable write is delivered, when its attempts
/// end with `outcomes` in turn; `None` when none of them delivers it.
pub open spec fn backoff_until_delivered(outcomes: Seq<Outcome>) -> Option<nat>
    decreases outcomes.len(),
{
    if outcomes.len() == 0 {
        None
    } else {
        match next_after(outcomes[0], RequestType::Retry) {
            Next::Done => Some(0),
            Next::RetryAfter(ms) => match backoff_until_delivered(outcomes.drop_first()) {
                Some(rest) => Some((ms + rest) as nat),
                None => None,
            },
        }
    }
}

/// A reliable write whose first `n` attempts fail and whose next one succeeds
/// is delivered after `n` backoff intervals. The attempts come one after the
/// other: `next_write` hands out no write of a path in flight, and the path
/// stays in flight until `resubmit` after the backoff (see
/// `lemma_scan_takes_current_idle`).
pub proof fn lemma_delivered_after_backoffs(outcomes: Seq<Outcome>, n: nat)
    requires
        n < outcomes.len(),
        forall|i: int| 0 <= i < n ==> #[trigger] outcomes[i] != Outcome::Delivered,
        outcomes[n as int] == Outcome::Delivered,
    ensures
        backoff_until_delivered(outcomes) == Some((n * RETRY_INTERVAL_MS) as nat),
    decreases n,
{
    if n > 0 {
        let rest = outcomes.drop_first();
        assert(forall|i: int| 0 <= i < n - 1 ==> #[trigger] rest[i] == outcomes[i + 1]);
        lemma_delivered_after_backoffs(rest, (n - 1) as nat);
        assert(outcomes[0] != Outcome::Delivered);
        assert((n - 1) * RETRY_INTERVAL_MS + RETRY_INTERVAL_MS == n * RETRY_INTERVAL_MS)
            by (nonlinear_arith);
    }
}

} // verus!
