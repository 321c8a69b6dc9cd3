use vyos_crowdsec_bouncer::utils::{
    backoff_delay, draw_jitter, retry_backoff, retry_op, RetryOp, RetryStep, BACKOFF_UNIT_MS,
    MAX_DOUBLINGS, RETRY_CAP_MS,
};

#[test]
fn pauses_double_up_to_the_cap() {
    assert_eq!(backoff_delay(0, 1000, 0), 25);
    assert_eq!(backoff_delay(1, 1000, 24), 74);
    assert_eq!(backoff_delay(5, 1000, 3), 803);
    assert_eq!(backoff_delay(6, 1000, 0), 1000);
    assert_eq!(backoff_delay(10, u64::MAX, 0), 25_600);
    assert_eq!(backoff_delay(11, u64::MAX, 1), 25_601);
    assert_eq!(backoff_delay(u64::MAX, u64::MAX, u64::MAX), u64::MAX);
    assert_eq!(backoff_delay(3, 0, 7), 0);
    assert_eq!((BACKOFF_UNIT_MS, MAX_DOUBLINGS, RETRY_CAP_MS), (25, 10, 1000));
}

#[test]
fn jitter_stays_below_the_unit() {
    let draws: Vec<u64> = (0..1000).map(|_| draw_jitter()).collect();
    assert!(draws.iter().all(|jitter| *jitter < 25));
    assert!(draws.iter().any(|jitter| *jitter != draws[0]));
    for retries in 0..12 {
        let pause = retry_backoff(retries, 1000);
        assert!(pause >= backoff_delay(retries, 1000, 0));
        assert!(pause <= backoff_delay(retries, 1000, 24));
    }
}

#[test]
fn operations_are_tried_until_retries_run_out() {
    let mut op = RetryOp::new(2);
    let mut pauses = Vec::new();
    let outcome = loop {
        match retry_op::<(), _>(op, Err("unreachable"), 0) {
            RetryStep::Sleep(pause, next) => {
                pauses.push(pause);
                op = next;
            }
            RetryStep::Done(outcome) => break outcome,
        }
    };
    assert_eq!(outcome, Err("unreachable"));
    assert_eq!(pauses, vec![50, 100]);
    assert_eq!(op.current_retries, 2);
}

#[test]
fn a_success_stands() {
    let op = RetryOp::new(3);
    assert!(matches!(retry_op::<u8, &str>(op, Ok(7), 0), RetryStep::Done(Ok(7))));
    assert!(matches!(
        retry_op::<u8, &str>(RetryOp::new(0), Err("no"), 0),
        RetryStep::Done(Err("no"))
    ));
    assert_eq!(op.failed(1).map(|(next, pause)| (next.current_retries, pause)), Some((1, 51)));
}
