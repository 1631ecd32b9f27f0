use pyde_node::rate_limit::{rate_limit_error, RpcRateLimitState, BURST_CAPACITY};
use pyde_node::slot_clock::{SlotClock, BLOCK_TIME_MS};
use std::time::{Duration, Instant, SystemTime, UNIX_EPOCH};

fn current_time_ms() -> u64 {
    SystemTime::now().duration_since(UNIX_EPOCH).unwrap().as_millis() as u64
}

#[test]
fn slot_starts_at_zero() {
    let clock = SlotClock::new(0);
    // Just created — should be at slot 0 or very early
    assert!(clock.current_slot() <= 1);
}

#[test]
fn slot_advances_with_time() {
    // Genesis was 2 seconds ago → should be at slot 5 (2000ms / 400ms)
    let now_ms = current_time_ms();
    let clock = SlotClock::new(now_ms - 2000);
    let slot = clock.current_slot();
    assert!((4..=6).contains(&slot), "expected ~5, got {}", slot);
}

#[test]
fn time_remaining_is_bounded() {
    let clock = SlotClock::new(0);
    let remaining = clock.time_remaining();
    assert!(remaining <= BLOCK_TIME_MS);
}

#[test]
fn slot_timestamp_consistent() {
    let genesis_ts = 1_000_000u64;
    let clock = SlotClock::new(genesis_ts);
    assert_eq!(clock.slot_timestamp(0), genesis_ts);
    assert_eq!(clock.slot_timestamp(10), genesis_ts + 10 * BLOCK_TIME_MS);
}

#[test]
fn block_time_is_kept_within_bounds() {
    assert_eq!(SlotClock::with_block_time(0, 1).slot_duration(), 10);
    assert_eq!(SlotClock::with_block_time(0, 250).slot_duration(), 250);
    assert_eq!(SlotClock::with_block_time(0, 1_000_000).slot_duration(), 10_000);
}

#[test]
fn slot_zero_waits_for_its_genesis() {
    let clock = SlotClock::made_at(5_000, 400, 1_000);
    assert_eq!(clock.slot_timestamp(0), 5_000);
    assert_eq!(clock.slot_after(0), 0);
    assert_eq!(clock.slot_after(4_000), 0);
    assert_eq!(clock.slot_after(4_399), 0);
    assert_eq!(clock.slot_after(4_400), 1);
    assert_eq!(clock.until_slot_after(0, 1_500), 2_500);
    assert_eq!(clock.until_slot_after(2, 1_500), 3_300);
    assert_eq!(clock.remaining_after(1_500), 400);
    assert_eq!(clock.into_slot_after(4_100), 100);
    assert_eq!(clock.current_slot(), 0);
    let later = SlotClock::new(current_time_ms() + 3_600_000);
    assert_eq!(later.current_slot(), 0);
    assert!(later.duration_until_slot(0) > 3_500_000);
    let unset = SlotClock::made_at(0, 400, 1_000);
    assert_eq!(unset.slot_timestamp(0), 1_000);
}

#[test]
fn times_within_a_slot() {
    let clock = SlotClock::made_at(1_000, 400, 1_000);
    assert_eq!(clock.slot_after(399), 0);
    assert_eq!(clock.slot_after(400), 1);
    assert_eq!(clock.into_slot_after(1_234), 34);
    assert_eq!(clock.remaining_after(1_234), 366);
    assert_eq!(clock.remaining_after(1_200), 400);
    assert_eq!(clock.until_slot_after(4, 1_234), 366);
    assert_eq!(clock.until_slot_after(3, 1_234), 0);
    assert!(clock.ms_into_slot() < 400);
    assert!(clock.duration_until_slot(0) == 0);
    // A clock that is made late counts from the genesis too.
    let late = SlotClock::made_at(1_000, 400, 1_900);
    assert_eq!(late.slot_after(0), 2);
    assert_eq!(late.slot_after(300), 3);
    assert_eq!(late.until_slot_after(4, 300), 400);
}

#[test]
fn token_bucket_allows_burst_then_throttles() {
    let mut state = RpcRateLimitState::new();
    let conn = 1usize;
    let mut allowed = 0;
    for _ in 0..250 {
        if state.try_consume(conn) {
            allowed += 1;
        }
    }
    assert!(
        (BURST_CAPACITY as usize..=BURST_CAPACITY as usize + 1).contains(&allowed),
        "expected ~{} allowed in tight loop, got {}",
        BURST_CAPACITY as usize,
        allowed
    );
}

#[test]
fn token_bucket_isolates_connections() {
    let mut state = RpcRateLimitState::new();
    // Drain conn 1 to empty.
    for _ in 0..(BURST_CAPACITY as usize + 50) {
        state.try_consume(1);
    }
    // Conn 2 should still get its full burst.
    let mut allowed_2 = 0;
    for _ in 0..(BURST_CAPACITY as usize) {
        if state.try_consume(2) {
            allowed_2 += 1;
        }
    }
    assert!(
        allowed_2 >= BURST_CAPACITY as usize - 1,
        "conn 2 starved by conn 1's rate-limit state: {} / {}",
        allowed_2,
        BURST_CAPACITY as usize
    );
}

#[test]
fn token_bucket_refills_over_time() {
    let mut state = RpcRateLimitState::new();
    let conn = 7usize;
    // Drain.
    for _ in 0..(BURST_CAPACITY as usize + 10) {
        state.try_consume(conn);
    }
    assert!(!state.try_consume(conn), "bucket should be empty");
    // Wait ~50 ms; at 100 req/s that refills ~5 tokens.
    let start = Instant::now();
    while start.elapsed() < Duration::from_millis(50) {}
    let mut refilled_allowed = 0;
    for _ in 0..10 {
        if state.try_consume(conn) {
            refilled_allowed += 1;
        }
    }
    assert!(
        (3..=8).contains(&refilled_allowed),
        "expected ~5 tokens refilled in 50ms at 100 req/s, got {}",
        refilled_allowed
    );
}

#[test]
fn tokens_are_given_exactly() {
    let mut state = RpcRateLimitState::new();
    let second: u64 = 1_000_000_000;
    let start = 5 * second;
    for i in 0..200 {
        assert!(state.try_consume_at(3, start), "request {i} of the burst");
    }
    assert!(!state.try_consume_at(3, start));
    // A token takes a hundredth of a second.
    assert!(!state.try_consume_at(3, start + second / 100 - 1));
    assert!(state.try_consume_at(3, start + second / 100));
    assert!(!state.try_consume_at(3, start + second / 100));
    // An idle connection has no more than a burst.
    let mut again = 0;
    for _ in 0..300 {
        if state.try_consume_at(3, start + 3600 * second) {
            again += 1;
        }
    }
    assert_eq!(again, 200);
}

#[test]
fn idle_connections_are_forgotten_without_a_trace() {
    let mut state = RpcRateLimitState::new();
    let second: u64 = 1_000_000_000;
    for conn in 0..5_000usize {
        assert!(state.try_consume_at(conn, second));
    }
    for _ in 0..200 {
        assert!(state.try_consume_at(0, 100 * second));
    }
    assert!(!state.try_consume_at(0, 100 * second));
    assert!(state.try_consume_at(1, 100 * second));
}

#[test]
fn requests_over_the_limit_are_told_so() {
    let e = rate_limit_error();
    assert_eq!(e.code, -32429);
    assert_eq!(
        e.message,
        "rate limit exceeded: 100 req/s sustained per connection (burst 200)"
    );
}
