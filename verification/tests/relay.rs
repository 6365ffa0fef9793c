use span_relay::outcome::{outcome_of, preflight_status, submission_status, DispatchFailure,
    SubmissionResult};
use span_relay::pool::WorkerPool;
use span_relay::record::SpanRecord;
use span_relay::sink::{make_stream_request, TransportError};

fn record(id: &str, body: &[u8]) -> SpanRecord {
    SpanRecord { id: String::from(id), body: body.to_vec() }
}

#[test]
fn partition_key_is_record_id_verbatim() {
    let r = record("span-07a3/b", &[1, 2, 3]);
    let req = make_stream_request(r, String::from("test"));
    assert_eq!(req.partition_key, "span-07a3/b");
    assert_eq!(req.data, vec![1, 2, 3]);
    assert_eq!(req.stream_name, "test");
}

#[test]
fn empty_record_passes_through_unchanged() {
    let r = record("", &[]);
    let req = make_stream_request(r, String::from("test"));
    assert_eq!(req.partition_key, "");
    assert!(req.data.is_empty());
}

#[test]
fn sink_success_maps_to_success_status() {
    let outcome = outcome_of(Ok(()));
    assert!(matches!(outcome, SubmissionResult::Success));
    assert_eq!(submission_status(&Ok(outcome)), 200);
}

#[test]
fn sink_failure_maps_to_server_error() {
    let outcome = outcome_of(Err(TransportError { cause: String::from("throttled") }));
    match &outcome {
        SubmissionResult::Failure(e) => assert_eq!(e.cause, "throttled"),
        SubmissionResult::Success => panic!("a failed append must not map to Success"),
    }
    assert_eq!(submission_status(&Ok(outcome)), 500);
}

#[test]
fn dispatch_failure_maps_to_server_error() {
    let failed: Result<SubmissionResult, DispatchFailure> =
        Err(DispatchFailure { detail: String::from("pool shut down") });
    assert_eq!(submission_status(&failed), 500);
}

#[test]
fn preflight_always_succeeds() {
    // A pre-flight request never constructs a submission: whatever the pool
    // or the sink are doing, the answer is immediate success.
    let mut pool = WorkerPool::new(1);
    pool.submit(record("busy", b"x"));
    let job = pool.dispatch().expect("one worker is free");
    assert!(pool.ticket_active(job.ticket));
    assert_eq!(preflight_status(), 200);
    pool.complete(job.ticket, SubmissionResult::Success);
    assert!(!pool.ticket_active(job.ticket));
    assert_eq!(preflight_status(), 200);
}

#[test]
fn in_flight_never_exceeds_pool_size() {
    let mut pool = WorkerPool::new(2);
    assert_eq!(pool.worker_count(), 2);
    for i in 0..5u8 {
        pool.submit(record(&format!("r{}", i), &[i]));
    }
    assert!(pool.dispatch().is_some());
    assert!(pool.dispatch().is_some());
    // both workers busy: a third dispatch must not start another call
    assert!(pool.dispatch().is_none());
    assert_eq!(pool.active_count(), 2);
    assert_eq!(pool.queue_len(), 3);
}

#[test]
fn queue_is_unbounded_and_never_rejects() {
    let mut pool = WorkerPool::new(1);
    for i in 0..100u32 {
        let t = pool.submit(record("same-id", &i.to_be_bytes()));
        assert_eq!(t as u32, i);
    }
    assert_eq!(pool.queue_len(), 100);
    assert_eq!(pool.submitted_count(), 100);
    assert_eq!(pool.active_count(), 0);
}

#[test]
fn dispatch_is_fifo() {
    let mut pool = WorkerPool::new(1);
    let ids = ["a", "b", "c"];
    for id in ids {
        pool.submit(record(id, b""));
    }
    for id in ids {
        let job = pool.dispatch().expect("worker free, queue non-empty");
        assert_eq!(job.record.id, id);
        pool.complete(job.ticket, SubmissionResult::Success);
    }
    assert!(pool.dispatch().is_none());
}

#[test]
fn every_submission_yields_exactly_one_result() {
    let mut pool = WorkerPool::new(2);
    let mut tickets = Vec::new();
    for i in 0..7u8 {
        tickets.push(pool.submit(record(&format!("r{}", i), &[i])));
    }
    let mut delivered: Vec<usize> = Vec::new();
    while let Some(job) = pool.dispatch() {
        pool.complete(job.ticket, SubmissionResult::Success);
        delivered.push(job.ticket);
    }
    delivered.sort();
    assert_eq!(delivered, tickets);
    assert_eq!(pool.active_count(), 0);
    assert_eq!(pool.queue_len(), 0);
}

#[test]
fn all_succeed_with_one_worker() {
    let mut pool = WorkerPool::new(1);
    for i in 0..4u8 {
        pool.submit(record(&format!("s{}", i), &[i]));
    }
    let mut ok: u32 = 0;
    while let Some(job) = pool.dispatch() {
        assert_eq!(pool.active_count(), 1);
        let res = pool.complete(job.ticket, outcome_of(Ok(())));
        assert!(matches!(res, SubmissionResult::Success));
        assert_eq!(submission_status(&Ok(res)), 200);
        ok += 1;
    }
    assert_eq!(ok, 4);
}

#[test]
fn all_fail_when_sink_always_fails() {
    let mut pool = WorkerPool::new(3);
    for i in 0..6u8 {
        pool.submit(record(&format!("f{}", i), &[i]));
    }
    let mut failed: u32 = 0;
    loop {
        let mut batch = Vec::new();
        while let Some(job) = pool.dispatch() {
            batch.push(job);
        }
        if batch.is_empty() {
            break;
        }
        for job in batch {
            let verdict = Err(TransportError { cause: String::from("unreachable") });
            let res = pool.complete(job.ticket, outcome_of(verdict));
            assert!(matches!(res, SubmissionResult::Failure(_)));
            assert_eq!(submission_status(&Ok(res)), 500);
            failed += 1;
        }
    }
    assert_eq!(failed, 6);
}

#[test]
fn five_records_two_workers_take_three_rounds() {
    // Pool of two, five concurrent submissions a..e, sink always succeeds
    // after a fixed delay: the two workers take the records in arrival
    // order, two per round, so everything completes in ceil(5/2) = 3 rounds
    // and never more than two calls are in flight.
    let mut pool = WorkerPool::new(2);
    for id in ["a", "b", "c", "d", "e"] {
        pool.submit(record(id, id.as_bytes()));
    }
    let mut rounds: u32 = 0;
    let mut completed = Vec::new();
    while pool.queue_len() > 0 || pool.active_count() > 0 {
        let mut running = Vec::new();
        while let Some(job) = pool.dispatch() {
            running.push(job);
        }
        assert!(running.len() <= 2);
        assert_eq!(pool.active_count(), running.len());
        // one fixed delay elapses; both in-flight calls succeed
        for job in running {
            let res = pool.complete(job.ticket, SubmissionResult::Success);
            assert!(matches!(res, SubmissionResult::Success));
            completed.push(job.record.id);
        }
        rounds += 1;
    }
    assert_eq!(rounds, 3);
    assert_eq!(completed, vec!["a", "b", "c", "d", "e"]);
}
