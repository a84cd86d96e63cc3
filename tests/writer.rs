use netidx_excel::cache::SubscriptionCache;
use netidx_excel::delivery::{
    best_effort_result, rejection, send_async, settle, Next, Outcome, RETRY_INTERVAL_MS,
    WRITER_WAIT_TIMEOUT_MS,
};
use netidx_excel::pipeline::{PendingWrite, WritePipeline};
use netidx_excel::types::{Auth, Config, LogLevel, RequestType, SendResult};
use std::cell::Cell;

fn best_effort(
    cache: &mut SubscriptionCache<u32>,
    path: &str,
    opens: &Cell<u32>,
    accepted: bool,
) -> SendResult {
    send_async(
        cache,
        path,
        |_p: &String| {
            opens.set(opens.get() + 1);
            opens.get()
        },
        |_h: &u32| accepted,
    )
}

/// Runs the reliable worker until the queue is empty. `transport` says for
/// each (value, attempt) whether the delivery is acknowledged. Returns the
/// values handed to the transport, in order, and the backoff waited.
fn run_worker(
    pipeline: &mut WritePipeline<i64>,
    cache: &mut SubscriptionCache<u32>,
    opens: &Cell<u32>,
    transport: &dyn Fn(i64, u32) -> bool,
) -> (Vec<i64>, u64) {
    let mut sent = Vec::new();
    let mut waited = 0u64;
    let mut attempt = 0u32;
    while let Some(w) = pipeline.next_write() {
        sent.push(w.value);
        let value = w.value;
        let (acked, _) = cache.dispatch(
            &w.path,
            |_p: &String| {
                opens.set(opens.get() + 1);
                opens.get()
            },
            |_h: &u32| transport(value, attempt),
        );
        attempt += 1;
        let outcome = if acked { Outcome::Delivered } else { Outcome::Failed };
        match settle(cache, &w.path, outcome, RequestType::Retry) {
            Next::Done => pipeline.finish(&w.path),
            Next::RetryAfter(ms) => {
                waited += ms;
                pipeline.resubmit(w);
            }
        }
    }
    (sent, waited)
}

#[test]
fn best_effort_fresh_cache_opens_one_handle_and_reuses_it() {
    let mut cache = SubscriptionCache::new();
    let opens = Cell::new(0);
    assert_eq!(best_effort(&mut cache, "/x", &opens, true), SendResult::Sent);
    assert_eq!(opens.get(), 1);
    assert_eq!(best_effort(&mut cache, "/x", &opens, true), SendResult::Sent);
    assert_eq!(opens.get(), 1);
    assert_eq!(cache.get(&"/x".to_string()), Some(&1));
}

#[test]
fn best_effort_not_accepted_is_maybe_sent() {
    let mut cache = SubscriptionCache::new();
    let opens = Cell::new(0);
    assert_eq!(best_effort(&mut cache, "/y", &opens, false), SendResult::MaybeSent);
    assert_eq!(best_effort_result(true), SendResult::Sent);
    assert_eq!(best_effort_result(false), SendResult::MaybeSent);
}

#[test]
fn paths_are_canonicalized() {
    let mut cache = SubscriptionCache::new();
    let opens = Cell::new(0);
    best_effort(&mut cache, "/a//b/", &opens, true);
    assert!(cache.is_cached(&"/a/b".to_string()));
    assert!(!cache.is_cached(&"/a//b/".to_string()));
    best_effort(&mut cache, "/a/b", &opens, true);
    assert_eq!(opens.get(), 1);
}

#[test]
fn delivery_failure_forces_new_handle() {
    let mut cache = SubscriptionCache::new();
    let opens = Cell::new(0);
    best_effort(&mut cache, "/p", &opens, true);
    best_effort(&mut cache, "/q", &opens, true);
    for outcome in [Outcome::Failed, Outcome::TimedOut] {
        let before = opens.get();
        let next = settle(&mut cache, &"/p".to_string(), outcome, RequestType::Async);
        assert_eq!(next, Next::Done);
        assert!(!cache.is_cached(&"/p".to_string()));
        assert!(cache.is_cached(&"/q".to_string()));
        best_effort(&mut cache, "/p", &opens, true);
        assert_eq!(opens.get(), before + 1);
    }
}

#[test]
fn delivered_keeps_handle() {
    let mut cache = SubscriptionCache::new();
    let opens = Cell::new(0);
    best_effort(&mut cache, "/p", &opens, true);
    let next = settle(&mut cache, &"/p".to_string(), Outcome::Delivered, RequestType::Retry);
    assert_eq!(next, Next::Done);
    assert!(cache.is_cached(&"/p".to_string()));
}

#[test]
fn failed_reliable_write_retries_after_interval() {
    let mut cache: SubscriptionCache<u32> = SubscriptionCache::new();
    let next = settle(&mut cache, &"/p".to_string(), Outcome::TimedOut, RequestType::Retry);
    assert_eq!(next, Next::RetryAfter(1000));
    assert_eq!(RETRY_INTERVAL_MS, 1000);
    assert_eq!(WRITER_WAIT_TIMEOUT_MS, 3000);
}

#[test]
fn refresh_path_reopens_only_that_path() {
    let mut cache = SubscriptionCache::new();
    let opens = Cell::new(0);
    best_effort(&mut cache, "/a", &opens, true);
    best_effort(&mut cache, "/b", &opens, true);
    assert_eq!(cache.refresh_path("/a/"), SendResult::Sent);
    assert!(!cache.is_cached(&"/a".to_string()));
    assert_eq!(cache.get(&"/b".to_string()), Some(&2));
    best_effort(&mut cache, "/a", &opens, true);
    best_effort(&mut cache, "/b", &opens, true);
    assert_eq!(opens.get(), 3);
    assert_eq!(cache.get(&"/a".to_string()), Some(&3));
    assert_eq!(cache.get(&"/b".to_string()), Some(&2));
}

#[test]
fn refresh_all_reopens_every_path() {
    let mut cache = SubscriptionCache::new();
    let opens = Cell::new(0);
    for p in ["/a", "/b", "/c"] {
        best_effort(&mut cache, p, &opens, true);
    }
    assert_eq!(cache.refresh_all(), SendResult::Sent);
    for p in ["/a", "/b", "/c"] {
        assert!(!cache.is_cached(&p.to_string()));
        best_effort(&mut cache, p, &opens, true);
    }
    assert_eq!(opens.get(), 6);
}

#[test]
fn refresh_of_unknown_path_is_sent() {
    let mut cache: SubscriptionCache<u32> = SubscriptionCache::new();
    assert_eq!(cache.refresh_path("/nowhere"), SendResult::Sent);
    assert_eq!(cache.refresh_all(), SendResult::Sent);
}

#[test]
fn reliable_write_delivered_after_n_backoffs() {
    for n in 0..4u32 {
        let mut pipeline = WritePipeline::new();
        let mut cache = SubscriptionCache::new();
        let opens = Cell::new(0);
        assert_eq!(pipeline.send_retry("/r", 5, 100), SendResult::MaybeSent);
        let (sent, waited) =
            run_worker(&mut pipeline, &mut cache, &opens, &|_v, attempt| attempt >= n);
        assert_eq!(sent, vec![5; n as usize + 1]);
        assert_eq!(waited, n as u64 * RETRY_INTERVAL_MS);
        // every failure dropped the handle, so each attempt opened its own
        assert_eq!(opens.get(), n + 1);
        assert_eq!(pipeline.pending(), 0);
    }
}

#[test]
fn back_to_back_reliable_writes_send_only_latest() {
    for (t1, t2) in [(10u64, 10u64), (10, 11)] {
        let mut pipeline = WritePipeline::new();
        let mut cache = SubscriptionCache::new();
        let opens = Cell::new(0);
        assert_eq!(pipeline.send_retry("/a/b", 1, t1), SendResult::MaybeSent);
        assert_eq!(pipeline.send_retry("/a/b", 2, t2), SendResult::MaybeSent);
        let (sent, _) = run_worker(&mut pipeline, &mut cache, &opens, &|v, _| v == 2);
        assert_eq!(sent, vec![2]);
    }
}

#[test]
fn increasing_writes_with_failures_deliver_only_last() {
    let mut pipeline = WritePipeline::new();
    let mut cache = SubscriptionCache::new();
    let opens = Cell::new(0);
    for (i, v) in [1i64, 2, 3, 4].iter().enumerate() {
        pipeline.send_retry("/s", *v, 50 + i as u64);
    }
    let (sent, _) = run_worker(&mut pipeline, &mut cache, &opens, &|_v, attempt| attempt >= 2);
    assert_eq!(sent, vec![4, 4, 4]);
}

#[test]
fn stale_retry_is_discarded_after_newer_write() {
    let mut pipeline = WritePipeline::new();
    pipeline.send_retry("/s", 1, 7);
    let first = pipeline.next_write().unwrap();
    assert_eq!(first.stamp, 7);
    pipeline.send_retry("/s", 2, 8);
    pipeline.resubmit(first);
    assert_eq!(pipeline.pending(), 2);
    let next = pipeline.next_write().unwrap();
    assert_eq!(next.value, 2);
    assert!(pipeline.next_write().is_none());
}

#[test]
fn writes_are_stamped_with_the_current_timestamp() {
    let mut pipeline: WritePipeline<i64> = WritePipeline::new();
    assert_eq!(pipeline.submit("/s".to_string(), 1, 20), 0);
    assert_eq!(pipeline.submit("/s".to_string(), 2, 20), 1);
    assert_eq!(pipeline.submit("/s".to_string(), 3, 5), 0);
    assert_eq!(pipeline.submit("/s".to_string(), 4, 40), 0);
    assert_eq!(pipeline.submit("/t".to_string(), 5, 3), 0);
    assert_eq!(pipeline.pending(), 5);
    let stale = |stamp, seq| PendingWrite { path: "/s".to_string(), value: 0, stamp, seq };
    assert!(!pipeline.is_current(&stale(20, 1)));
    assert!(!pipeline.is_current(&stale(5, 0)));
    assert!(pipeline.is_current(&stale(40, 0)));
    let w = PendingWrite { path: "/v".to_string(), value: 0, stamp: 0, seq: 0 };
    assert!(pipeline.is_current(&w));
    // only the write at 40 is left once the stale ones are discarded
    let w = pipeline.next_write().unwrap();
    assert_eq!((w.value, w.stamp, w.seq), (4, 40, 0));
    assert_eq!(pipeline.next_write().unwrap().value, 5);
    assert!(pipeline.next_write().is_none());
}

#[test]
fn earlier_timestamp_after_later_is_dropped() {
    let mut pipeline = WritePipeline::new();
    pipeline.send_retry("/s", 1, 30);
    pipeline.send_retry("/s", 2, 10);
    let w = pipeline.next_write().unwrap();
    assert_eq!((w.value, w.stamp), (1, 30));
    assert!(pipeline.next_write().is_none());
}

#[test]
fn one_attempt_in_flight_per_path() {
    let mut pipeline = WritePipeline::new();
    pipeline.send_retry("/a", 1, 10);
    let first = pipeline.next_write().unwrap();
    assert_eq!(first.value, 1);
    pipeline.send_retry("/a", 2, 11);
    pipeline.send_retry("/b", 3, 12);
    // "/a" is in flight: its newer write waits, "/b" goes ahead
    assert_eq!(pipeline.next_write().unwrap().value, 3);
    assert!(pipeline.next_write().is_none());
    assert_eq!(pipeline.pending(), 1);
    // the failed attempt comes back after its backoff and is superseded
    pipeline.resubmit(first);
    assert_eq!(pipeline.next_write().unwrap().value, 2);
    assert!(pipeline.next_write().is_none());
    assert_eq!(pipeline.pending(), 0);
    pipeline.finish(&"/a".to_string());
    pipeline.send_retry("/a", 4, 13);
    assert_eq!(pipeline.next_write().unwrap().value, 4);
}

#[test]
fn writes_of_other_paths_do_not_supersede() {
    let mut pipeline = WritePipeline::new();
    pipeline.send_retry("/a", 1, 9);
    pipeline.send_retry("/b", 2, 10);
    assert_eq!(pipeline.next_write().unwrap().value, 1);
    assert_eq!(pipeline.next_write().unwrap().value, 2);
    assert!(pipeline.next_write().is_none());
}

#[test]
fn send_result_codes() {
    let all = [
        (SendResult::MaybeSent, -2),
        (SendResult::Sent, -1),
        (SendResult::ExcelErrorNull, 0),
        (SendResult::ExcelErrorDiv0, 7),
        (SendResult::ExcelErrorValue, 15),
        (SendResult::ExcelErrorRef, 23),
        (SendResult::ExcelErrorName, 29),
        (SendResult::ExcelErrorNum, 36),
        (SendResult::ExcelErrorNA, 42),
        (SendResult::ExcelErrorGettingData, 43),
    ];
    for (r, c) in all {
        assert_eq!(r.code(), c);
    }
}

#[test]
fn requests_are_rejected_before_the_pipeline() {
    assert_eq!(rejection(false, true, true), Some(SendResult::ExcelErrorNA));
    assert_eq!(rejection(true, false, true), Some(SendResult::ExcelErrorNA));
    assert_eq!(rejection(false, false, false), Some(SendResult::ExcelErrorNA));
    assert_eq!(rejection(true, true, false), Some(SendResult::ExcelErrorNull));
    assert_eq!(rejection(true, true, true), None);
}

#[test]
fn config_defaults() {
    let c = Config::default();
    assert_eq!(c.log_level, LogLevel::Off);
    assert_eq!(c.auth_mechanism, None);
    let k = Config { log_level: LogLevel::Info, auth_mechanism: Some(Auth::Kerberos) };
    assert_ne!(c, k);
}

#[test]
fn logger_is_set_up_once() {
    let mut initialized = false;
    assert!(netidx_excel::logging::maybe_init_logger(&mut initialized));
    assert!(initialized);
    assert!(!netidx_excel::logging::maybe_init_logger(&mut initialized));
    assert!(initialized);
}
