//! The slot clock: which slot it is, by the time since the genesis.
//!
//! Slot 0 begins at the genesis. Each slot takes the same time, 400 ms unless
//! configured otherwise. Times and durations are in milliseconds.
use std::time::{Instant, SystemTime};
use vstd::prelude::*;

verus! {

/// How long a slot takes unless configured otherwise.
pub const BLOCK_TIME_MS: u64 = 400;

/// The shortest slot.
pub const MIN_BLOCK_TIME_MS: u64 = 10;

/// The longest slot.
pub const MAX_BLOCK_TIME_MS: u64 = 10_000;

/// A point in time of the monotonic clock.
#[verifier::external_type_specification]
#[verifier::external_body]
pub struct ExInstant(std::time::Instant);

/// A point in time of the system's clock.
#[verifier::external_type_specification]
#[verifier::external_body]
pub struct ExSystemTime(std::time::SystemTime);

/// `std::time::Instant::now`: the present, of which nothing is claimed.
#[verifier::external_body]
pub(crate) fn instant_now() -> (t: Instant) {
    Instant::now()
}

/// `std::time::Instant::elapsed`, in nanoseconds. It depends on when it is called,
/// so nothing is claimed of it.
#[verifier::external_body]
pub(crate) fn elapsed_ns(since: &Instant) -> (ns: u64) {
    since.elapsed().as_nanos() as u64
}

/// `std::time::SystemTime::now`: the present, of which nothing is claimed.
#[verifier::external_body]
fn system_now() -> (t: SystemTime) {
    SystemTime::now()
}

/// `std::time::SystemTime::duration_since` of the Unix epoch, in whole
/// milliseconds; zero for a time before it. The time that it is given is not
/// visible here, so nothing is claimed of the result.
#[verifier::external_body]
fn unix_ms(t: &SystemTime) -> (ms: u64) {
    t.duration_since(std::time::UNIX_EPOCH).unwrap_or_default().as_millis() as u64
}

fn current_time_ms() -> (ms: u64) {
    unix_ms(&system_now())
}

/// What a slot clock is set to.
pub struct ClockModel {
    /// When slot 0 begins, in Unix time.
    pub genesis_timestamp_ms: u64,
    /// How long a slot takes.
    pub block_time_ms: u64,
    /// When the clock was made, in Unix time.
    pub started_ms: u64,
}

/// A block time within the bounds.
pub open spec fn bounded_block_time(block_time_ms: u64) -> u64 {
    if block_time_ms < MIN_BLOCK_TIME_MS {
        MIN_BLOCK_TIME_MS
    } else if block_time_ms > MAX_BLOCK_TIME_MS {
        MAX_BLOCK_TIME_MS
    } else {
        block_time_ms
    }
}

/// A clock that is made at the Unix time `now_ms`. A genesis of zero is now.
pub open spec fn clock_at(genesis_timestamp_ms: u64, block_time_ms: u64, now_ms: u64) -> ClockModel {
    ClockModel {
        genesis_timestamp_ms: if genesis_timestamp_ms == 0 {
            now_ms
        } else {
            genesis_timestamp_ms
        },
        block_time_ms: bounded_block_time(block_time_ms),
        started_ms: now_ms,
    }
}

impl ClockModel {
    /// The Unix time at `since_ms` after the clock was made.
    pub open spec fn now(self, since_ms: u64) -> int {
        self.started_ms + since_ms
    }

    /// How long ago slot 0 began at `since_ms` after the clock was made; zero
    /// before the genesis.
    pub open spec fn elapsed(self, since_ms: u64) -> int {
        if self.now(since_ms) > self.genesis_timestamp_ms {
            self.now(since_ms) - self.genesis_timestamp_ms
        } else {
            0
        }
    }

    /// The slot at `since_ms` after the clock was made; slot 0 before the genesis.
    pub open spec fn slot(self, since_ms: u64) -> int {
        self.elapsed(since_ms) / (self.block_time_ms as int)
    }

    /// How far into its slot it is at `since_ms` after the clock was made.
    pub open spec fn into_slot(self, since_ms: u64) -> int {
        self.elapsed(since_ms) % (self.block_time_ms as int)
    }

    /// How much of its slot remains at `since_ms` after the clock was made; all of
    /// slot 0 before the genesis.
    pub open spec fn remaining(self, since_ms: u64) -> int {
        self.block_time_ms - self.into_slot(since_ms)
    }

    /// How long it is until `slot` begins; zero where it has begun.
    pub open spec fn until(self, slot: u64, since_ms: u64) -> int {
        if self.timestamp(slot as int) > self.now(since_ms) {
            self.timestamp(slot as int) - self.now(since_ms)
        } else {
            0
        }
    }

    /// When `slot` begins, in Unix time.
    pub open spec fn timestamp(self, slot: int) -> int {
        self.genesis_timestamp_ms + slot * self.block_time_ms
    }
}

/// A slot clock.
pub struct SlotClock {
    started: Instant,
    started_ms: u64,
    genesis_timestamp_ms: u64,
    block_time_ms: u64,
}

impl View for SlotClock {
    type V = ClockModel;

    closed spec fn view(&self) -> ClockModel {
        ClockModel {
            genesis_timestamp_ms: self.genesis_timestamp_ms,
            block_time_ms: self.block_time_ms,
            started_ms: self.started_ms,
        }
    }
}

impl SlotClock {
    /// The block time is within its bounds.
    pub open spec fn wf(&self) -> bool {
        MIN_BLOCK_TIME_MS <= self@.block_time_ms <= MAX_BLOCK_TIME_MS
    }

    /// A clock with the default block time.
    pub fn new(genesis_timestamp_ms: u64) -> (c: Self)
        ensures
            c.wf(),
            exists|now_ms: u64|
                c@ == #[trigger] clock_at(genesis_timestamp_ms, BLOCK_TIME_MS, now_ms),
    {
        Self::with_block_time(genesis_timestamp_ms, BLOCK_TIME_MS)
    }

    /// A clock with the given block time, kept within its bounds. A genesis of
    /// zero is now; until one in the future it is slot 0.
    pub fn with_block_time(genesis_timestamp_ms: u64, block_time_ms: u64) -> (c: Self)
        ensures
            c.wf(),
            exists|now_ms: u64|
                c@ == #[trigger] clock_at(genesis_timestamp_ms, block_time_ms, now_ms),
    {
        let now_ms: u64 = current_time_ms();
        Self::made_at(genesis_timestamp_ms, block_time_ms, now_ms)
    }

    /// A clock that is made at the Unix time `now_ms`.
    pub fn made_at(genesis_timestamp_ms: u64, block_time_ms: u64, now_ms: u64) -> (c: Self)
        ensures
            c.wf(),
            c@ == clock_at(genesis_timestamp_ms, block_time_ms, now_ms),
    {
        let bounded: u64 = if block_time_ms < MIN_BLOCK_TIME_MS {
            MIN_BLOCK_TIME_MS
        } else if block_time_ms > MAX_BLOCK_TIME_MS {
            MAX_BLOCK_TIME_MS
        } else {
            block_time_ms
        };
        let genesis: u64 = if genesis_timestamp_ms == 0 {
            now_ms
        } else {
            genesis_timestamp_ms
        };
        SlotClock {
            started: instant_now(),
            started_ms: now_ms,
            genesis_timestamp_ms: genesis,
            block_time_ms: bounded,
        }
    }

    fn since_ms(&self) -> (ms: u64) {
        elapsed_ns(&self.started) / 1_000_000
    }

    fn elapsed_after(&self, since_ms: u64) -> (ms: u128)
        ensures
            ms == self@.elapsed(since_ms),
    {
        let now: u128 = self.started_ms as u128 + since_ms as u128;
        if now > self.genesis_timestamp_ms as u128 {
            now - self.genesis_timestamp_ms as u128
        } else {
            0
        }
    }

    /// The slot at `since_ms` after the clock was made.
    pub fn slot_after(&self, since_ms: u64) -> (r: u64)
        requires
            self.wf(),
        ensures
            r == self@.slot(since_ms),
    {
        let e: u128 = self.elapsed_after(since_ms);
        let b: u128 = self.block_time_ms as u128;
        assert(e / b <= u64::MAX) by (nonlinear_arith)
            requires
                e <= 2 * u64::MAX,
                b >= 10,
        ;
        (e / b) as u64
    }

    /// How much of its slot remains at `since_ms` after the clock was made.
    pub fn remaining_after(&self, since_ms: u64) -> (r: u64)
        requires
            self.wf(),
        ensures
            r == self@.remaining(since_ms),
    {
        let into: u64 = self.into_slot_after(since_ms);
        proof {
            law_slot_is_divided(self@, since_ms);
        }
        self.block_time_ms - into
    }

    /// How long it is until `slot` begins, at `since_ms` after the clock was made.
    pub fn until_slot_after(&self, slot: u64, since_ms: u64) -> (r: u64)
        requires
            self.wf(),
            self@.until(slot, since_ms) <= u64::MAX,
        ensures
            r == self@.until(slot, since_ms),
    {
        assert(0 <= slot * self.block_time_ms <= u64::MAX * 10_000) by (nonlinear_arith)
            requires
                self.block_time_ms <= 10_000,
        ;
        let now: u128 = self.started_ms as u128 + since_ms as u128;
        let start: u128 = self.genesis_timestamp_ms as u128 + slot as u128
            * self.block_time_ms as u128;
        if start > now {
            (start - now) as u64
        } else {
            0
        }
    }

    /// How far into its slot it is at `since_ms` after the clock was made.
    pub fn into_slot_after(&self, since_ms: u64) -> (r: u64)
        requires
            self.wf(),
        ensures
            r == self@.into_slot(since_ms),
    {
        proof {
            law_slot_is_divided(self@, since_ms);
        }
        let e: u128 = self.elapsed_after(since_ms);
        (e % self.block_time_ms as u128) as u64
    }

    /// The current slot.
    pub fn current_slot(&self) -> (r: u64)
        requires
            self.wf(),
        ensures
            exists|since_ms: u64| r == #[trigger] self@.slot(since_ms),
    {
        let since: u64 = self.since_ms();
        self.slot_after(since)
    }

    /// How much of the current slot remains.
    pub fn time_remaining(&self) -> (r: u64)
        requires
            self.wf(),
        ensures
            exists|since_ms: u64| r == #[trigger] self@.remaining(since_ms),
            1 <= r <= self@.block_time_ms,
    {
        let since: u64 = self.since_ms();
        proof {
            law_slot_is_divided(self@, since);
        }
        self.remaining_after(since)
    }

    /// How long it is until `slot` begins.
    pub fn duration_until_slot(&self, slot: u64) -> (r: u64)
        requires
            self.wf(),
            self@.until(slot, 0) <= u64::MAX,
        ensures
            exists|since_ms: u64| r == #[trigger] self@.until(slot, since_ms),
    {
        let since: u64 = self.since_ms();
        self.until_slot_after(slot, since)
    }

    /// When `slot` begins, in Unix time.
    pub fn slot_timestamp(&self, slot: u64) -> (r: u64)
        requires
            self@.timestamp(slot as int) <= u64::MAX,
        ensures
            r == self@.timestamp(slot as int),
    {
        assert(0 <= slot * self.block_time_ms) by (nonlinear_arith);
        self.genesis_timestamp_ms + slot * self.block_time_ms
    }

    /// How long a slot takes.
    pub fn slot_duration(&self) -> (r: u64)
        ensures
            r == self@.block_time_ms,
    {
        self.block_time_ms
    }

    /// How far into the current slot it is.
    pub fn ms_into_slot(&self) -> (r: u64)
        requires
            self.wf(),
        ensures
            exists|since_ms: u64| r == #[trigger] self@.into_slot(since_ms),
            r < self@.block_time_ms,
    {
        let since: u64 = self.since_ms();
        proof {
            law_slot_is_divided(self@, since);
        }
        self.into_slot_after(since)
    }
}

/// At every time, what has passed of the slot and what remains of it make up the
/// slot, and something remains.
pub proof fn law_slot_is_divided(c: ClockModel, since_ms: u64)
    requires
        c.block_time_ms > 0,
    ensures
        c.into_slot(since_ms) + c.remaining(since_ms) == c.block_time_ms,
        0 <= c.into_slot(since_ms) < c.block_time_ms,
        1 <= c.remaining(since_ms) <= c.block_time_ms,
        c.slot(since_ms) * c.block_time_ms + c.into_slot(since_ms) == c.elapsed(since_ms),
{
    let (e, b) = (c.elapsed(since_ms), c.block_time_ms as int);
    assert(0 <= e % b < b && (e / b) * b + e % b == e) by (nonlinear_arith)
        requires
            b > 0,
    ;
}

/// From the genesis on, the time lies between the beginning of the current slot
/// and that of the next one; before the genesis it is slot 0, which has not begun.
pub proof fn law_slots_agree_with_timestamps(c: ClockModel, since_ms: u64)
    requires
        c.block_time_ms > 0,
    ensures
        c.now(since_ms) >= c.genesis_timestamp_ms ==> c.timestamp(c.slot(since_ms)) <= c.now(
            since_ms,
        ) < c.timestamp(c.slot(since_ms) + 1),
        c.now(since_ms) < c.genesis_timestamp_ms ==> c.slot(since_ms) == 0 && c.timestamp(0)
            > c.now(since_ms),
{
    law_slot_is_divided(c, since_ms);
    let (n, b) = (c.slot(since_ms), c.block_time_ms as int);
    assert((n + 1) * b == n * b + b) by (nonlinear_arith);
    assert(0int / b == 0) by (nonlinear_arith)
        requires
            b > 0,
    ;
}

/// Slots do not go back as time goes on, and each begins exactly when the time
/// until it has run out; before the genesis the time until slot 0 is the wait for
/// the genesis.
pub proof fn law_slots_follow_each_other(c: ClockModel, earlier: u64, later: u64, slot: u64)
    requires
        c.block_time_ms > 0,
        earlier <= later,
    ensures
        0 <= c.slot(earlier) <= c.slot(later),
        c.until(slot, later) == 0 <==> c.slot(later) >= slot && c.now(later)
            >= c.genesis_timestamp_ms,
        c.until(slot, later) <= c.until(slot, earlier),
{
    let b = c.block_time_ms as int;
    let (e, l, s) = (c.elapsed(earlier), c.elapsed(later), slot as int);
    assert(0 <= e / b <= l / b) by (nonlinear_arith)
        requires
            b > 0,
            0 <= e <= l,
    ;
    assert(s * b > l <==> s > l / b) by (nonlinear_arith)
        requires
            b > 0,
    ;
    assert(0 <= s * b) by (nonlinear_arith)
        requires
            b > 0,
            s >= 0,
    ;
}

/// The slots begin one block time apart, from the genesis on.
pub proof fn law_slot_timestamps_are_evenly_spaced(c: ClockModel, slot: int)
    ensures
        c.timestamp(0) == c.genesis_timestamp_ms,
        c.timestamp(slot + 1) == c.timestamp(slot) + c.block_time_ms,
{
    let b = c.block_time_ms as int;
    assert((slot + 1) * b == slot * b + b) by (nonlinear_arith);
}

} // verus!
