use vstd::prelude::*;

use crate::cache::SubscriptionCache;
use crate::path::{canonical_path, canonicalize};
use crate::types::{RequestType, SendResult};

verus! {

/// How long a delivery waits for its acknowledgment, in milliseconds.
pub const WRITER_WAIT_TIMEOUT_MS: u64 = 3000;

/// How long a failed reliable delivery waits before it is queued again, in
/// milliseconds.
pub const RETRY_INTERVAL_MS: u64 = 1000;

/// How one delivery attempt ended.
#[derive(Clone, Copy, Debug, PartialEq, Eq, Structural)]
pub enum Outcome {
    /// The acknowledgment came back as success before the deadline.
    Delivered,
    /// The acknowledgment came back as an error.
    Failed,
    /// The deadline passed first.
    TimedOut,
}

/// What to do with a write after one delivery attempt.
#[derive(Clone, Copy, Debug, PartialEq, Eq, Structural)]
pub enum Next {
    /// Nothing more.
    Done,
    /// Wait this many milliseconds, then queue the write again.
    RetryAfter(u64),
}

/// The cache after an attempt to deliver to `path` ended with `outcome`: a
/// failure or a timeout drops the path's handle, since its connection may be
/// broken.
pub open spec fn cache_after<H>(m: Map<Seq<char>, H>, path: Seq<char>, outcome: Outcome) -> Map<
    Seq<char>,
    H,
> {
    if outcome == Outcome::Delivered {
        m
    } else {
        m.remove(path)
    }
}

/// What follows an attempt that ended with `outcome`: a failed reliable write
/// is retried after the backoff interval; anything else is done.
pub open spec fn next_after(outcome: Outcome, mode: RequestType) -> Next {
    if outcome != Outcome::Delivered && mode == RequestType::Retry {
        Next::RetryAfter(RETRY_INTERVAL_MS)
    } else {
        Next::Done
    }
}

/// The result a best-effort write reports once the transport took the value
/// (`accepted`) or not.
pub open spec fn best_effort_spec(accepted: bool) -> SendResult {
    if accepted {
        SendResult::Sent
    } else {
        SendResult::MaybeSent
    }
}

/// Settles one delivery attempt to `path`: updates the cache and says what
/// comes next.
pub fn settle<H>(
    cache: &mut SubscriptionCache<H>,
    path: &String,
    outcome: Outcome,
    mode: RequestType,
) -> (r: Next)
    requires
        old(cache).wf(),
    ensures
        final(cache).wf(),
        final(cache)@ == cache_after(old(cache)@, path@, outcome),
        r == next_after(outcome, mode),
{
    match outcome {
        Outcome::Delivered => Next::Done,
        _ => {
            cache.invalidate(path);
            match mode {
                RequestType::Retry => Next::RetryAfter(RETRY_INTERVAL_MS),
                RequestType::Async => Next::Done,
            }
        },
    }
}

/// The result of a best-effort write whose value the transport `accepted` or
/// not.
pub fn best_effort_result(accepted: bool) -> (r: SendResult)
    ensures
        r == best_effort_spec(accepted),
{
    if accepted {
        SendResult::Sent
    } else {
        SendResult::MaybeSent
    }
}

/// The best-effort write: hands the value to the handle cached for the
/// canonical form of `path` through `write`, opening a handle with `open` on
/// the canonical path first where none is cached (and only then). Reports `Sent` when `write` says the transport
/// took the value, else `MaybeSent`; no acknowledgment is awaited.
pub fn send_async<H, F: FnOnce(&String) -> H, W: FnOnce(&H) -> bool>(
    cache: &mut SubscriptionCache<H>,
    path: &str,
    open: F,
    write: W,
) -> (r: SendResult)
    requires
        old(cache).wf(),
        forall|p: &String| !old(cache)@.contains_key(p@) ==> #[trigger] open.requires((p,)),
        forall|h: &H| #[trigger] write.requires((h,)),
    ensures
        final(cache).wf(),
        ({
            let p = canonical_path(path@);
            &&& final(cache)@.contains_key(p)
            &&& old(cache)@.contains_key(p) ==> final(cache)@ == old(cache)@
            &&& !old(cache)@.contains_key(p) ==> exists|q: &String, h: H|
                #![trigger open.ensures((q,), h)]
                q@ == p && open.ensures((q,), h) && final(cache)@ == old(cache)@.insert(p, h)
            &&& exists|accepted: bool|
                write.ensures((&final(cache)@[p],), accepted) && r == best_effort_spec(
                    accepted,
                )
        }),
{
    let p = canonicalize(path);
    let (accepted, _) = cache.dispatch(&p, open, write);
    best_effort_result(accepted)
}

/// Refuses a request before it enters the pipeline: a path or a value that
/// could not be read is `ExcelErrorNA`; with no writer available the request
/// is `ExcelErrorNull`. `None` lets the request through.
pub fn rejection(value_readable: bool, path_readable: bool, writer_ready: bool) -> (r: Option<
    SendResult,
>)
    ensures
        !value_readable || !path_readable ==> r == Some(SendResult::ExcelErrorNA),
        value_readable && path_readable && !writer_ready ==> r == Some(
            SendResult::ExcelErrorNull,
        ),
        value_readable && path_readable && writer_ready ==> r.is_none(),
{
    if !value_readable || !path_readable {
        Some(SendResult::ExcelErrorNA)
    } else if !writer_ready {
        Some(SendResult::ExcelErrorNull)
    } else {
        None
    }
}

} // verus!
