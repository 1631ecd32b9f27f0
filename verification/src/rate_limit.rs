//! How many requests a connection may make: a token bucket for each.
//!
//! A connection starts with a full bucket and is given tokens at a steady rate; a
//! request takes one. Tokens are counted in units of which a connection is given
//! one each nanosecond, so that nothing is lost to rounding.
use std::time::Instant;
use vstd::prelude::*;

use crate::hexcodec::RpcError;
use crate::keymap::AssocMap;
use crate::slot_clock::{elapsed_ns, instant_now};
use crate::text;
use crate::text::push_decimal;

verus! {

/// How many requests a second a connection may make in the long run.
pub const RATE_PER_SECOND: u64 = 100;

/// How many requests a connection may make at once.
pub const BURST_CAPACITY: u64 = 200;

/// The units of a token: at `RATE_PER_SECOND`, the nanoseconds that it takes to be
/// given one.
pub const TOKEN_UNITS: u64 = 10_000_000;

/// The units of a full bucket.
pub const BURST_UNITS: u64 = 2_000_000_000;

/// Beyond how many connections idle ones are let go of.
pub const STATE_MAP_SOFT_CAP: usize = 4096;

/// For how many nanoseconds a connection must have been idle for that.
pub const STALE_ENTRY_AFTER_NS: u64 = 60_000_000_000;

/// The error code of a request over the limit.
pub const RATE_LIMIT_ERROR_CODE: i32 = -32429;

/// The bucket of a connection.
#[derive(Clone, Copy, Debug, PartialEq, Eq, Structural)]
pub struct ConnState {
    /// How many units it holds.
    pub units: u64,
    /// When it was last refilled, in nanoseconds.
    pub last_refill: u64,
}

impl View for ConnState {
    type V = ConnState;

    open spec fn view(&self) -> ConnState {
        *self
    }
}

/// The units of a bucket at `now`.
pub open spec fn refilled(c: ConnState, now: u64) -> int {
    let grown = c.units + if now >= c.last_refill {
        now - c.last_refill
    } else {
        0
    };
    if grown >= BURST_UNITS {
        BURST_UNITS as int
    } else {
        grown
    }
}

/// The units that a connection has at `now`: a full bucket where it has none yet.
pub open spec fn allowance(m: Map<usize, ConnState>, conn_id: usize, now: u64) -> int {
    if m.contains_key(conn_id) {
        refilled(m[conn_id], now)
    } else {
        BURST_UNITS as int
    }
}

/// Whether a bucket has not been idle for too long.
pub open spec fn is_live(c: ConnState, now: u64) -> bool {
    c.last_refill + STALE_ENTRY_AFTER_NS >= now
}

/// The buckets after idle ones were let go of, which happens only where there are
/// many.
pub open spec fn swept(m: Map<usize, ConnState>, now: u64) -> Map<usize, ConnState> {
    if m.len() > STATE_MAP_SOFT_CAP {
        Map::new(|k: usize| m.contains_key(k) && is_live(m[k], now), |k: usize| m[k])
    } else {
        m
    }
}

/// Whether a connection may make a request at `now`.
pub open spec fn may_request(m: Map<usize, ConnState>, conn_id: usize, now: u64) -> bool {
    allowance(swept(m, now), conn_id, now) >= TOKEN_UNITS
}

/// The buckets after a connection asked to make a request at `now`.
pub open spec fn after_request(m: Map<usize, ConnState>, conn_id: usize, now: u64) -> Map<
    usize,
    ConnState,
> {
    let held = allowance(swept(m, now), conn_id, now);
    let left = if held >= TOKEN_UNITS {
        held - TOKEN_UNITS
    } else {
        held
    };
    swept(m, now).insert(conn_id, ConnState { units: left as u64, last_refill: now })
}

/// No bucket holds more than a full one.
pub open spec fn buckets_bounded(m: Map<usize, ConnState>) -> bool {
    forall|k: usize| #[trigger] m.contains_key(k) ==> m[k].units <= BURST_UNITS
}

/// The buckets of all connections.
pub struct RpcRateLimitState {
    map: AssocMap<usize, ConnState>,
    started: Instant,
}

impl View for RpcRateLimitState {
    type V = Map<usize, ConnState>;

    closed spec fn view(&self) -> Map<usize, ConnState> {
        self.map@
    }
}

fn sweep(m: &mut AssocMap<usize, ConnState>, now: u64)
    requires
        old(m).wf(),
    ensures
        final(m).wf(),
        final(m)@ == swept(old(m)@, now),
{
    if m.len() <= STATE_MAP_SOFT_CAP {
        return ;
    }
    let ghost all = m@;
    let mut kept: AssocMap<usize, ConnState> = AssocMap::new();
    let mut going: bool = true;
    while going
        invariant
            m.wf(),
            kept.wf(),
            forall|k: usize| #[trigger]
                kept@.contains_key(k) <==> all.contains_key(k) && !m@.contains_key(k) && is_live(
                    all[k],
                    now,
                ),
            forall|k: usize| #[trigger] kept@.contains_key(k) ==> kept@[k] == all[k],
            forall|k: usize| #[trigger]
                m@.contains_key(k) ==> all.contains_key(k) && m@[k] == all[k],
            !going ==> m@ == Map::<usize, ConnState>::empty(),
        decreases
                m.keys().len() + if going {
                    1nat
                } else {
                    0nat
                },
    {
        match m.pop() {
            Some((k, c)) => {
                if now < STALE_ENTRY_AFTER_NS || c.last_refill >= now - STALE_ENTRY_AFTER_NS {
                    kept.insert(k, c);
                }
            },
            None => {
                going = false;
            },
        }
    }
    assert(kept@ =~= swept(all, now));
    *m = kept;
}

impl RpcRateLimitState {
    /// No connection has two buckets, and no bucket holds more than a full one.
    pub closed spec fn wf(&self) -> bool {
        self.map.wf() && buckets_bounded(self.map@)
    }

    /// No bucket holds more than a full one.
    pub proof fn lemma_bounds(&self)
        requires
            self.wf(),
        ensures
            buckets_bounded(self@),
    {
    }

    /// No connection has made a request yet.
    pub fn new() -> (s: Self)
        ensures
            s.wf(),
            s@ == Map::<usize, ConnState>::empty(),
    {
        RpcRateLimitState { map: AssocMap::new(), started: instant_now() }
    }

    /// Says whether a connection may make a request now, and takes a token for it.
    pub fn try_consume(&mut self, conn_id: usize) -> (r: bool)
        requires
            old(self).wf(),
        ensures
            final(self).wf(),
            exists|now: u64|
                r == #[trigger] may_request(old(self)@, conn_id, now) && final(self)@
                    == after_request(old(self)@, conn_id, now),
    {
        let now: u64 = elapsed_ns(&self.started);
        self.try_consume_at(conn_id, now)
    }

    /// Says whether a connection may make a request at `now`, and takes a token for
    /// it.
    pub fn try_consume_at(&mut self, conn_id: usize, now: u64) -> (r: bool)
        requires
            old(self).wf(),
        ensures
            final(self).wf(),
            r == may_request(old(self)@, conn_id, now),
            final(self)@ == after_request(old(self)@, conn_id, now),
    {
        sweep(&mut self.map, now);
        let held: u64 = match self.map.get(&conn_id) {
            Some(c) => {
                let idle: u64 = now.saturating_sub(c.last_refill);
                let grown: u64 = c.units.saturating_add(idle);
                if grown >= BURST_UNITS {
                    BURST_UNITS
                } else {
                    grown
                }
            },
            None => BURST_UNITS,
        };
        let allowed: bool = held >= TOKEN_UNITS;
        let left: u64 = if allowed {
            held - TOKEN_UNITS
        } else {
            held
        };
        self.map.insert(conn_id, ConnState { units: left, last_refill: now });
        allowed
    }
}

/// What a client is told whose request is over the limit.
pub fn rate_limit_error() -> (e: RpcError)
    ensures
        e@ == (
            RATE_LIMIT_ERROR_CODE,
            "rate limit exceeded: "@ + text::decimal(RATE_PER_SECOND as nat)
                + " req/s sustained per connection (burst "@ + text::decimal(BURST_CAPACITY as nat)
                + ")"@,
        ),
{
    let mut message = "rate limit exceeded: ".to_owned();
    push_decimal(&mut message, RATE_PER_SECOND as u128);
    message.append(" req/s sustained per connection (burst ");
    push_decimal(&mut message, BURST_CAPACITY as u128);
    message.append(")");
    RpcError { code: RATE_LIMIT_ERROR_CODE, message }
}

/// What one connection does takes nothing from another: what the other may do, now
/// and later, is what it might have done otherwise, whether its idle bucket was let
/// go of or not.
pub proof fn law_connections_are_isolated(
    m: Map<usize, ConnState>,
    conn_id: usize,
    now: u64,
    other: usize,
    later: u64,
)
    requires
        other != conn_id,
        now <= later,
    ensures
        allowance(after_request(m, conn_id, now), other, later) == allowance(m, other, later),
{
}

/// Letting go of idle buckets changes nothing for anybody.
proof fn lemma_sweep_is_invisible(m: Map<usize, ConnState>, conn_id: usize, now: u64)
    ensures
        allowance(swept(m, now), conn_id, now) == allowance(m, conn_id, now),
{
}

/// A connection that has not made a request has a full burst.
pub proof fn law_new_connections_have_a_burst(m: Map<usize, ConnState>, conn_id: usize, now: u64)
    requires
        !m.contains_key(conn_id),
    ensures
        allowance(m, conn_id, now) == BURST_CAPACITY * TOKEN_UNITS,
        may_request(m, conn_id, now),
{
    lemma_sweep_is_invisible(m, conn_id, now);
}

/// The buckets after a connection made requests at these times.
pub open spec fn after_requests(m: Map<usize, ConnState>, conn_id: usize, times: Seq<u64>) -> Map<
    usize,
    ConnState,
>
    decreases times.len(),
{
    if times.len() == 0 {
        m
    } else {
        after_request(after_requests(m, conn_id, times.drop_last()), conn_id, times.last())
    }
}

/// How many of the requests at these times are let through.
pub open spec fn let_through(m: Map<usize, ConnState>, conn_id: usize, times: Seq<u64>) -> nat
    decreases times.len(),
{
    if times.len() == 0 {
        0
    } else {
        let_through(m, conn_id, times.drop_last()) + if may_request(
            after_requests(m, conn_id, times.drop_last()),
            conn_id,
            times.last(),
        ) {
            1nat
        } else {
            0nat
        }
    }
}

/// Whether times do not go back.
pub open spec fn in_order(times: Seq<u64>) -> bool {
    forall|i: int, j: int| 0 <= i <= j < times.len() ==> times[i] <= times[j]
}

/// Of the requests that a connection makes in some span of time, no more are let
/// through than a burst, and what is given in that span: a token for each
/// `TOKEN_UNITS` nanoseconds.
pub proof fn law_sustained_rate_is_bounded(
    m: Map<usize, ConnState>,
    conn_id: usize,
    times: Seq<u64>,
)
    requires
        times.len() > 0,
        in_order(times),
        buckets_bounded(m),
    ensures
        let_through(m, conn_id, times) * TOKEN_UNITS <= BURST_UNITS + (times.last() - times[0]),
{
    lemma_spent(m, conn_id, times);
}

proof fn lemma_spent(m: Map<usize, ConnState>, conn_id: usize, times: Seq<u64>)
    requires
        times.len() > 0,
        in_order(times),
        buckets_bounded(m),
    ensures
        ({
            let after = after_requests(m, conn_id, times);
            &&& after.contains_key(conn_id)
            &&& after[conn_id].last_refill == times.last()
            &&& let_through(m, conn_id, times) * TOKEN_UNITS + after[conn_id].units <= BURST_UNITS
                + (times.last() - times[0])
        }),
    decreases times.len(),
{
    let rest = times.drop_last();
    let before = after_requests(m, conn_id, rest);
    lemma_sweep_is_invisible(before, conn_id, times.last());
    if rest.len() > 0 {
        assert(in_order(rest)) by {
            assert forall|i: int, j: int| 0 <= i <= j < rest.len() implies rest[i] <= rest[j] by {
                assert(times[i] <= times[j]);
            }
        }
        lemma_spent(m, conn_id, rest);
        assert(rest.last() == times[times.len() - 2]);
        assert(times[times.len() - 2] <= times[times.len() - 1]);
    } else {
        assert(before == m);
        assert(times.last() == times[0]);
    }
    let held = allowance(before, conn_id, times.last());
    let n = let_through(m, conn_id, rest);
    assert(n * TOKEN_UNITS + held <= BURST_UNITS + (times.last() - times[0]));
    let after = after_requests(m, conn_id, times);
    if may_request(before, conn_id, times.last()) {
        assert(after[conn_id].units == held - TOKEN_UNITS);
        assert((n + 1) * TOKEN_UNITS == n * TOKEN_UNITS + TOKEN_UNITS) by (nonlinear_arith);
    } else {
        assert(after[conn_id].units == held);
    }
}

} // verus!
