use mm_engine::budget::{
    handshake_verdict, Budget, HandshakeVerdict, RequestPlan, DELAY_TICKS, HANDSHAKE_TIMEOUT_SECS,
    TOTAL_COMPUTE_TICKS,
};
use mm_engine::ipc::ResponseError;

#[test]
fn budget_constants() {
    assert_eq!(TOTAL_COMPUTE_TICKS, 100_000);
    assert_eq!(DELAY_TICKS, 2_000);
    assert_eq!(HANDSHAKE_TIMEOUT_SECS, 10);
    assert_eq!(Budget::new().ticks, 100_000);
}

#[test]
fn quick_answers_earn_budget_up_to_the_total() {
    let mut budget = Budget { ticks: 50_000 };
    budget.settle(500);
    assert_eq!(budget.ticks, 51_500);
    budget.settle(2_000);
    assert_eq!(budget.ticks, 51_500);
    budget.settle(0);
    assert_eq!(budget.ticks, 53_500);
    let mut full = Budget { ticks: 99_000 };
    full.settle(0);
    assert_eq!(full.ticks, 100_000);
    full.settle(100);
    assert_eq!(full.ticks, 100_000);
}

#[test]
fn slow_answers_cost_what_exceeds_the_delay() {
    let mut budget = Budget { ticks: 50_000 };
    budget.settle(2_001);
    assert_eq!(budget.ticks, 49_999);
    budget.settle(3_000);
    assert_eq!(budget.ticks, 48_999);
    budget.settle(60_000);
    assert_eq!(budget.ticks, 0);
    budget.settle(u32::MAX);
    assert_eq!(budget.ticks, 0);
}

#[test]
fn settle_does_not_overflow() {
    let mut budget = Budget { ticks: u32::MAX };
    budget.settle(0);
    assert_eq!(budget.ticks, 100_000);
}

#[test]
fn budget_exhaustion() {
    let mut budget = Budget::new();
    let mut requests = 0;
    while budget.ticks > 0 {
        budget.settle(3_000);
        requests += 1;
    }
    assert_eq!(requests, 100);
    assert!(budget.plan(false, 1_000_000) == RequestPlan::Send { nanos: 0 });
}

#[test]
fn plan_skips_a_bot_that_exited() {
    let mut budget = Budget { ticks: 7 };
    assert!(budget.plan(false, 1_000_000) == RequestPlan::Send { nanos: 7_000_000 });
    assert_eq!(budget.ticks, 7);
    assert_eq!(budget.duration(3), 21);
    assert!(budget.plan(true, 1_000_000) == RequestPlan::Skip);
    assert_eq!(budget.ticks, 0);
    assert!(budget.plan(false, 1_000_000) == RequestPlan::Send { nanos: 0 });
    let most = Budget { ticks: u32::MAX };
    assert_eq!(most.duration(u64::MAX), (u32::MAX as u128) * (u64::MAX as u128));
}

#[test]
fn handshake_failure() {
    let magic = 0x5eed_b07;
    let verdict = handshake_verdict(Ok(0), magic);
    assert!(verdict == HandshakeVerdict::WrongMagic { expected: magic, got: 0 });
    let mut budget = Budget::new();
    assert!(!budget.after_handshake(verdict));
    assert_eq!(budget.ticks, 0);
    assert!(budget.plan(false, 1_000_000) == RequestPlan::Send { nanos: 0 });
    assert!(budget.plan(true, 1_000_000) == RequestPlan::Skip);
}

#[test]
fn handshake_transport_errors_fail_the_bot() {
    for error in [
        ResponseError::Timeout,
        ResponseError::Malformed,
        ResponseError::SizeMismatch { expected: 8, actual: 4 },
        ResponseError::AlignmentError { address: 3, alignment: 2 },
    ] {
        let verdict = handshake_verdict(Err(error), 42);
        assert!(verdict == HandshakeVerdict::Failed { error });
        let mut budget = Budget::new();
        assert!(!budget.after_handshake(verdict));
        assert_eq!(budget.ticks, 0);
    }
}

#[test]
fn handshake_success_keeps_the_budget() {
    let verdict = handshake_verdict(Ok(42), 42);
    assert!(verdict == HandshakeVerdict::Accepted);
    let mut budget = Budget { ticks: 1234 };
    assert!(budget.after_handshake(verdict));
    assert_eq!(budget.ticks, 1234);
    budget.forfeit();
    assert_eq!(budget.ticks, 0);
}

#[test]
fn elapsed_time_is_counted_in_whole_ticks() {
    use_elapsed(0, 1_000_000, 0);
    use_elapsed(999_999, 1_000_000, 0);
    use_elapsed(1_000_000, 1_000_000, 1);
    use_elapsed(100_000_000, 1_000_000, 100);
    use_elapsed(2_500_000_001, 1_000_000, 2_500);
    use_elapsed(u128::MAX, 1, u32::MAX);
    use_elapsed(u32::MAX as u128, 1, u32::MAX);
    use_elapsed(u32::MAX as u128 - 1, 1, u32::MAX - 1);
    use_elapsed(0, 0, 0);
    use_elapsed(1, 0, u32::MAX);
}

fn use_elapsed(elapsed: u128, baseline: u64, ticks: u32) {
    assert_eq!(mm_engine::budget::elapsed_ticks(elapsed, baseline), ticks);
}

#[test]
fn slow_bot_runs_out_of_budget() {
    let mut budget = Budget::new();
    let mut requests = 0;
    while budget.ticks > 0 {
        let elapsed = mm_engine::budget::elapsed_ticks(2_100_000_000, 1_000_000);
        assert_eq!(elapsed, 2_100);
        budget.settle(elapsed);
        requests += 1;
    }
    assert_eq!(requests, 100_000 / (2_100 - 2_000));
}
