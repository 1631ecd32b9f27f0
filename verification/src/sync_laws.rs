//! What holds of chain sync as a whole: a served snapshot and its download, and
//! the walks over slots.
use vstd::prelude::*;

use crate::keymap::Key;
use crate::serve;
use crate::serve::{ChunkDraft, InboundStep, ScanModel, SlotScan};
use crate::sync;
use crate::sync::{
    ActionModel,
    BlockOutcome,
    ChainSync,
    ChunkAnswer,
    ChunkModel,
    Entries,
    EntriesModel,
    PinnedSnapshot,
    SyncManager,
    SyncModel,
    SyncReq,
    SyncResp,
};

verus! {

/// A step of a walk with what the slot holds leaves the walk's result as it was,
/// and a walk with no slot ahead has it.
pub proof fn law_scan_steps_to_its_result(m: ScanModel, lookup: spec_fn(u64) -> Option<Seq<u8>>)
    ensures
        m.next < m.end ==> serve::scan_result(serve::scan_step(m, lookup(m.next)), lookup)
            == serve::scan_result(m, lookup),
        m.next >= m.end ==> serve::scan_result(m, lookup) == m.found,
{
}

proof fn lemma_scan_bound(m: ScanModel, lookup: spec_fn(u64) -> Option<Seq<u8>>)
    requires
        m.headers_only ==> m.found.len() + (m.end - m.next) <= m.limit || m.next >= m.end,
        m.headers_only ==> m.found.len() <= m.limit,
        !m.headers_only ==> m.found.len() < m.limit || (m.found.len() == 0 && m.limit == 0)
            || m.next >= m.end,
        !m.headers_only ==> m.found.len() <= if m.limit == 0 {
            1
        } else {
            m.limit as int
        },
    ensures
        serve::scan_result(m, lookup).len() <= if m.limit == 0 && !m.headers_only {
            1
        } else {
            m.limit as int
        },
    decreases m.end - m.next,
{
    if m.next < m.end {
        lemma_scan_bound(serve::scan_step(m, lookup(m.next)), lookup);
    }
}

/// However many blocks or headers a peer asks for, the answer stays within the
/// limit.
pub proof fn law_answers_are_bounded(
    start: u64,
    count: u32,
    head: u64,
    lookup: spec_fn(u64) -> Option<Seq<u8>>,
)
    ensures
        serve::scan_result(serve::block_scan(start, count, head), lookup).len()
            <= sync::MAX_GET_BLOCKS_COUNT,
        count > 0 ==> serve::scan_result(serve::block_scan(start, count, head), lookup).len()
            <= count,
        serve::scan_result(serve::header_scan(start, count), lookup).len()
            <= sync::MAX_GET_HEADERS_COUNT,
        serve::scan_result(serve::header_scan(start, count), lookup).len() <= count,
{
    lemma_scan_bound(serve::block_scan(start, count, head), lookup);
    lemma_scan_bound(serve::header_scan(start, count), lookup);
}

/// Headers are served without a gap: as many as there are from the first slot
/// on, up to the limit.
pub proof fn law_headers_are_contiguous(m: ScanModel, lookup: spec_fn(u64) -> Option<Seq<u8>>)
    requires
        m.headers_only,
        m.next <= m.end,
    ensures
        ({
            let r = serve::scan_result(m, lookup);
            let n = r.len() - m.found.len();
            &&& 0 <= n <= m.end - m.next
            &&& r.take(m.found.len() as int) == m.found
            &&& forall|i: int|
                0 <= i < n ==> lookup((m.next + i) as u64) == Some(
                    #[trigger] r[m.found.len() + i],
                )
            &&& n < m.end - m.next ==> lookup((m.next + n) as u64) is None
        }),
    decreases m.end - m.next,
{
    let r = serve::scan_result(m, lookup);
    if m.next >= m.end {
        assert(r.take(m.found.len() as int) =~= m.found);
    } else {
        match lookup(m.next) {
            Some(b) => {
                let m2 = serve::scan_step(m, lookup(m.next));
                law_headers_are_contiguous(m2, lookup);
                let k = m.found.len() as int;
                assert(r.take(k + 1) == m.found.push(b));
                assert(r.take(k) =~= r.take(k + 1).take(k));
                assert(m.found.push(b).take(k) =~= m.found);
                assert(r[k] == r.take(k + 1)[k]);
                let n = r.len() - k;
                assert forall|i: int| 0 <= i < n implies lookup((m.next + i) as u64) == Some(
                    #[trigger] r[k + i],
                ) by {
                    if i > 0 {
                        assert(r[m2.found.len() + (i - 1)] == r[k + i]);
                        assert(lookup((m2.next + (i - 1)) as u64) == Some(
                            r[m2.found.len() + (i - 1)],
                        ));
                    }
                }
            },
            None => {
                let m2 = serve::scan_step(m, lookup(m.next));
                assert(serve::scan_result(m2, lookup) == m2.found);
                assert(r.take(m.found.len() as int) =~= m.found);
            },
        }
    }
}

/// The chunks of a snapshot as they are served, hashed by `hash`.
pub open spec fn served_chunk(
    entries: EntriesModel,
    cs: nat,
    i: nat,
    hash: spec_fn(Seq<u8>) -> Key,
) -> ChunkModel {
    let e = serve::chunk_slice(entries, i, cs)->0;
    ChunkModel { index: i as u32, entries: e, hash: hash(sync::chunk_preimage(e)) }
}

/// The first `k` served chunks.
pub open spec fn served_chunks(
    entries: EntriesModel,
    cs: nat,
    k: nat,
    hash: spec_fn(Seq<u8>) -> Key,
) -> Seq<ChunkModel> {
    Seq::new(k, |i: int| served_chunk(entries, cs, i as nat, hash))
}

proof fn lemma_chunk_bounds(n: nat, cs: nat, i: nat)
    requires
        1 <= cs,
        0 < n,
    ensures
        i < serve::chunk_count(n, cs) ==> i * cs < n,
        i >= serve::chunk_count(n, cs) ==> i * cs >= n,
        serve::chunk_count(n, cs) >= 1,
        serve::chunk_count(n, cs) <= n,
{
    let t = (n + cs - 1) / cs as int;
    let r = (n + cs - 1) % cs as int;
    vstd::arithmetic::div_mod::lemma_fundamental_div_mod(n + cs - 1, cs as int);
    assert(n + cs - 1 == cs * t + r);
    assert(t >= 1) by (nonlinear_arith)
        requires
            n + cs - 1 == cs * t + r,
            0 <= r < cs,
            n >= 1,
            cs >= 1,
    ;
    assert(t <= n) by (nonlinear_arith)
        requires
            n + cs - 1 == cs * t + r,
            0 <= r < cs,
            n >= 1,
            cs >= 1,
    ;
    if i < t {
        assert(i * cs < n) by (nonlinear_arith)
            requires
                n + cs - 1 == cs * t + r,
                0 <= r < cs,
                i + 1 <= t,
                cs >= 1,
        ;
    } else {
        assert(i * cs >= n) by (nonlinear_arith)
            requires
                n + cs - 1 == cs * t + r,
                0 <= r < cs,
                i >= t,
                cs >= 1,
        ;
    }
}

/// A chunk is served exactly for the indices below the announced count.
pub proof fn law_chunk_count_is_exact(entries: EntriesModel, cs: nat, i: nat)
    requires
        1 <= cs,
        entries.len() > 0,
    ensures
        serve::chunk_slice(entries, i, cs) is Some == (i < serve::chunk_count(entries.len(), cs)),
{
    lemma_chunk_bounds(entries.len(), cs, i);
}

proof fn lemma_concat_served(
    entries: EntriesModel,
    cs: nat,
    k: nat,
    hash: spec_fn(Seq<u8>) -> Key,
)
    requires
        1 <= cs,
        entries.len() > 0,
        k <= serve::chunk_count(entries.len(), cs),
    ensures
        sync::concat_entries(served_chunks(entries, cs, k, hash)) == (if k * cs
            <= entries.len() {
            entries.take((k * cs) as int)
        } else {
            entries
        }),
    decreases k,
{
    let s = served_chunks(entries, cs, k, hash);
    if k == 0 {
        assert(s =~= Seq::empty());
        assert(entries.take(0) =~= Seq::empty());
        assert(0 * cs == 0) by (nonlinear_arith);
    } else {
        let p = (k - 1) as nat;
        lemma_concat_served(entries, cs, p, hash);
        lemma_chunk_bounds(entries.len(), cs, p);
        assert(s.drop_last() =~= served_chunks(entries, cs, p, hash));
        assert(s.last() == served_chunk(entries, cs, p, hash));
        assert(k * cs == p * cs + cs) by (nonlinear_arith)
            requires
                k == p + 1,
        ;
        let start = (p * cs) as int;
        if start + cs <= entries.len() {
            assert(entries.take(start) + entries.subrange(start, start + cs) =~= entries.take(
                start + cs,
            ));
        } else {
            assert(entries.take(start) + entries.subrange(start, entries.len() as int)
                =~= entries);
        }
    }
}

proof fn lemma_sorted_stays(chunks: Seq<ChunkModel>)
    requires
        forall|i: int, j: int|
            #![trigger chunks[i], chunks[j]]
            0 <= i <= j < chunks.len() ==> chunks[i].index <= chunks[j].index,
    ensures
        sync::sort_chunks(chunks) == chunks,
    decreases chunks.len(),
{
    if chunks.len() > 0 {
        let rest = chunks.drop_last();
        assert forall|i: int, j: int|
            #![trigger rest[i], rest[j]]
            0 <= i <= j < rest.len() implies rest[i].index <= rest[j].index by {
            assert(chunks[i].index <= chunks[j].index);
        }
        lemma_sorted_stays(rest);
        if rest.len() > 0 {
            assert(chunks[rest.len() - 1].index <= chunks[chunks.len() - 1].index);
        }
        assert(rest.push(chunks.last()) =~= chunks);
    }
}

/// The answer that carries the chunk `i` of a snapshot.
pub open spec fn served_answer(
    entries: EntriesModel,
    cs: nat,
    i: nat,
    hash: spec_fn(Seq<u8>) -> Key,
    state_root: Key,
    head_slot: u64,
) -> ChunkAnswer {
    ChunkAnswer {
        state_root,
        head_slot,
        total_chunks: serve::chunk_count(entries.len(), cs) as u32,
        chunk: served_chunk(entries, cs, i, hash),
    }
}

/// The coordinator after the first `k` chunks of a snapshot, asked for in order.
pub open spec fn downloading(
    m: SyncModel,
    entries: EntriesModel,
    cs: nat,
    k: nat,
    hash: spec_fn(Seq<u8>) -> Key,
    state_root: Key,
    head_slot: u64,
) -> SyncModel {
    if k == 0 {
        m
    } else {
        SyncModel {
            chunks: served_chunks(entries, cs, k, hash),
            expected_root: Some(state_root),
            total_chunks: serve::chunk_count(entries.len(), cs) as u32,
            head_slot,
            retries: 0,
            ..m
        }
    }
}

/// A snapshot that is served in chunks and downloaded in order arrives whole:
/// every chunk but the last is only stored, each leads to the next index, and
/// the last one hands out exactly the entries, root and slot that were pinned.
pub proof fn law_chunked_download_is_exact(
    m: SyncModel,
    entries: EntriesModel,
    cs: nat,
    k: nat,
    hash: spec_fn(Seq<u8>) -> Key,
    state_root: Key,
    head_slot: u64,
    ws_checkpoint: Option<(u64, Key)>,
)
    requires
        1 <= cs,
        0 < entries.len() <= u32::MAX,
        k < serve::chunk_count(entries.len(), cs),
        m.chunks.len() == 0,
        m.expected_root is None,
        m.total_chunks == 0,
        sync::ws_violation(head_slot, state_root, ws_checkpoint) is None,
    ensures
        ({
            let before = downloading(m, entries, cs, k, hash, state_root, head_slot);
            let answer = served_answer(entries, cs, k, hash, state_root, head_slot);
            let out = sync::after_chunk(
                before,
                answer,
                hash(sync::chunk_preimage(answer.chunk.entries)),
                ws_checkpoint,
            );
            &&& before.chunks.len() == k
            &&& if k + 1 < serve::chunk_count(entries.len(), cs) {
                &&& out.0 == downloading(
                    m,
                    entries,
                    cs,
                    (k + 1) as nat,
                    hash,
                    state_root,
                    head_slot,
                )
                &&& out.1 == ActionModel::Nothing
            } else {
                &&& out.0.chunks.len() == 0
                &&& out.0.expected_root is None
                &&& out.0.total_chunks == 0
                &&& out.1 == (ActionModel::ImportSnapshot { entries, state_root, head_slot })
            }
        }),
{
    let total = serve::chunk_count(entries.len(), cs);
    lemma_chunk_bounds(entries.len(), cs, k);
    lemma_chunk_bounds(entries.len(), cs, total);
    let before = downloading(m, entries, cs, k, hash, state_root, head_slot);
    let answer = served_answer(entries, cs, k, hash, state_root, head_slot);
    let all = served_chunks(entries, cs, (k + 1) as nat, hash);
    if k == 0 {
        assert(before.chunks =~= Seq::empty());
    }
    assert(before.chunks.push(answer.chunk) =~= all);
    let stored = sync::chunk_stored(before, answer);
    assert(stored.chunks == all);
    if k + 1 < total {
        assert(stored =~= downloading(
            m,
            entries,
            cs,
            (k + 1) as nat,
            hash,
            state_root,
            head_slot,
        ));
    } else {
        assert forall|i: int, j: int|
            #![trigger all[i], all[j]]
            0 <= i <= j < all.len() implies all[i].index <= all[j].index by {}
        lemma_sorted_stays(all);
        lemma_concat_served(entries, cs, total, hash);
        if total * cs == entries.len() {
            assert(entries.take((total * cs) as int) =~= entries);
        }
    }
}

/// Whatever ends a download, nothing of it is left to mix into the next one.
pub proof fn law_aborted_download_leaves_nothing(
    m: SyncModel,
    answer: ChunkAnswer,
    computed: Key,
    ws_checkpoint: Option<(u64, Key)>,
)
    ensures
        ({
            let out = sync::after_chunk(m, answer, computed, ws_checkpoint);
            (sync::ws_violation(answer.head_slot, answer.state_root, ws_checkpoint) is Some || (
            computed != answer.chunk.hash && m.retries >= sync::CHUNK_MAX_RETRIES)) ==> {
                &&& out.1 is Nothing
                &&& out.0 == sync::aborted(m)
                &&& out.0.chunks.len() == 0
                &&& out.0.expected_root is None
                &&& out.0.total_chunks == 0
                &&& out.0.retries == 0
            }
        }),
{
}

/// A snapshot that breaks the weak-subjectivity anchor never reaches the state,
/// whole or in chunks.
pub proof fn law_no_import_before_the_anchor(
    m: SyncModel,
    answer: ChunkAnswer,
    computed: Key,
    cp_slot: u64,
    cp_root: Key,
)
    requires
        answer.head_slot < cp_slot || (answer.head_slot == cp_slot && answer.state_root
            != cp_root),
    ensures
        sync::after_chunk(m, answer, computed, Some((cp_slot, cp_root))).1 is Nothing,
        sync::ws_violation(answer.head_slot, answer.state_root, Some((cp_slot, cp_root)))
            is Some,
{
}

/// Nodes that have synced once never go back to snapshots, however far behind.
pub proof fn law_snapshots_are_for_fresh_nodes(m: SyncModel)
    requires
        m.initial_sync_done,
    ensures
        !sync::prefers_snapshot(m),
{
}

/// At most one request is under way: none is made while another is pending.
pub proof fn law_one_request_at_a_time(
    m: SyncModel,
    id: u64,
    has_peer: bool,
    next_blocks: Option<(u64, u32)>,
)
    requires
        m.pending.contains(id),
    ensures
        sync::next_batch(m, has_peer, next_blocks) == (m, None::<sync::SyncReq>),
{
    assert(!Set::<u64>::empty().contains(id));
}

/// The local tip never goes back, and a batch counts no more blocks than it has.
pub proof fn law_tip_is_monotone(tip: u64, outcomes: Seq<BlockOutcome>)
    ensures
        sync::tip_after(tip, outcomes) >= tip,
        sync::applied_prefix(outcomes) <= outcomes.len(),
    decreases outcomes.len(),
{
    if outcomes.len() > 0 && !sync::stops(outcomes[0]) {
        law_tip_is_monotone(
            sync::max_slot(tip, sync::outcome_slot(outcomes[0])),
            outcomes.skip(1),
        );
    }
}

/// How many blocks of a batch count: all up to the first that was rejected.
pub proof fn law_batches_count_up_to_the_first_rejected(outcomes: Seq<BlockOutcome>)
    ensures
        sync::applied_prefix(outcomes) <= outcomes.len(),
        forall|i: int|
            0 <= i < sync::applied_prefix(outcomes) ==> !((#[trigger] outcomes[i]) is Rejected),
        sync::applied_prefix(outcomes) < outcomes.len()
            ==> outcomes[sync::applied_prefix(outcomes) as int] is Rejected,
    decreases outcomes.len(),
{
    if outcomes.len() > 0 && !sync::stops(outcomes[0]) {
        let rest = outcomes.skip(1);
        law_batches_count_up_to_the_first_rejected(rest);
        let n = sync::applied_prefix(outcomes);
        assert forall|i: int| 0 <= i < n implies !((#[trigger] outcomes[i]) is Rejected) by {
            if i > 0 {
                assert(outcomes[i] == rest[i - 1]);
            }
        }
        if n < outcomes.len() {
            assert(outcomes[n as int] == rest[n - 1]);
        }
    }
}

/// Whether a block of a batch reaches `slot`: with its body or by its header.
pub open spec fn reaches(o: BlockOutcome, slot: u64) -> bool {
    o == (BlockOutcome::Applied { slot }) || o == (BlockOutcome::HeaderApplied {
        head_slot: slot,
    })
}

/// After a batch the local tip is the greatest of the tip before and of the slots
/// that the blocks before the first rejected one reached: no such slot is above
/// it, and it is the old tip or one of them.
pub proof fn law_tip_is_the_greatest_slot_reached(tip: u64, outcomes: Seq<BlockOutcome>)
    ensures
        ({
            let after = sync::tip_after(tip, outcomes);
            let n = sync::applied_prefix(outcomes) as int;
            &&& after >= tip
            &&& forall|i: int, slot: u64|
                0 <= i < n && #[trigger] reaches(outcomes[i], slot) ==> slot <= after
            &&& after == tip || exists|i: int| 0 <= i < n && #[trigger] reaches(outcomes[i], after)
        }),
    decreases outcomes.len(),
{
    let after = sync::tip_after(tip, outcomes);
    let n = sync::applied_prefix(outcomes) as int;
    if outcomes.len() > 0 && !sync::stops(outcomes[0]) {
        let rest = outcomes.skip(1);
        let s0 = sync::outcome_slot(outcomes[0]);
        let next = sync::max_slot(tip, s0);
        law_tip_is_the_greatest_slot_reached(next, rest);
        law_batches_count_up_to_the_first_rejected(outcomes);
        assert(reaches(outcomes[0], s0));
        assert forall|i: int, slot: u64|
            0 <= i < n && #[trigger] reaches(outcomes[i], slot) implies slot <= after by {
            if i > 0 {
                assert(reaches(rest[i - 1], slot));
            }
        }
        if after != tip {
            if after == next {
                assert(reaches(outcomes[0], after));
            } else {
                let i = choose|i: int| 0 <= i < n - 1 && #[trigger] reaches(rest[i], after);
                assert(reaches(outcomes[i + 1], after));
            }
        }
    }
}

/// The slots that a walk over blocks takes, besides those taken before: ascending,
/// in its range, and each with what it holds. What it leaves out of the range is
/// only what comes after enough was taken.
proof fn lemma_walk(m: ScanModel, lookup: spec_fn(u64) -> Option<Seq<u8>>) -> (slots: Seq<u64>)
    requires
        !m.headers_only,
        m.next < m.end ==> m.found.len() < m.limit,
    ensures
        ({
            let r = serve::scan_result(m, lookup);
            &&& r.len() == m.found.len() + slots.len()
            &&& r.take(m.found.len() as int) == m.found
            &&& forall|i: int|
                0 <= i < slots.len() ==> m.next <= #[trigger] slots[i] < m.end && lookup(slots[i])
                    == Some(r[m.found.len() + i])
            &&& forall|i: int, j: int|
                0 <= i < j < slots.len() ==> #[trigger] slots[i] < #[trigger] slots[j]
            &&& forall|t: u64|
                m.next <= t < m.end && (#[trigger] lookup(t)) is Some ==> slots.contains(t) || (
                r.len() >= m.limit && slots.len() > 0 && slots.last() < t)
            &&& m.next < m.end ==> r.len() <= m.limit
        }),
    decreases m.end - m.next,
{
    let r = serve::scan_result(m, lookup);
    let k = m.found.len() as int;
    if m.next >= m.end {
        assert(r.take(k) =~= m.found);
        Seq::empty()
    } else {
        let item = lookup(m.next);
        let m2 = serve::scan_step(m, item);
        if m2.next >= m2.end {
            assert(serve::scan_result(m2, lookup) == m2.found);
            match item {
                Some(b) => {
                    let slots = seq![m.next];
                    assert(r.take(k) =~= m.found);
                    assert(slots[0] == m.next);
                    assert forall|t: u64|
                        m.next <= t < m.end && (#[trigger] lookup(t)) is Some implies slots.contains(
                        t,
                    ) || (r.len() >= m.limit && slots.len() > 0 && slots.last() < t) by {
                        if t == m.next {
                            assert(slots[0] == t);
                        }
                    }
                    slots
                },
                None => {
                    assert(r.take(k) =~= m.found);
                    Seq::empty()
                },
            }
        } else {
            let rest = lemma_walk(m2, lookup);
            match item {
                Some(b) => {
                    let slots = seq![m.next] + rest;
                    assert(r.take(k + 1) == m.found.push(b));
                    assert(r.take(k) =~= r.take(k + 1).take(k));
                    assert(m.found.push(b).take(k) =~= m.found);
                    assert(r[k] == r.take(k + 1)[k]);
                    assert forall|i: int| 0 <= i < slots.len() implies m.next <= #[trigger] slots[i]
                        < m.end && lookup(slots[i]) == Some(r[k + i]) by {
                        if i > 0 {
                            assert(slots[i] == rest[i - 1]);
                            assert(r[m2.found.len() + (i - 1)] == r[k + i]);
                        }
                    }
                    assert forall|i: int, j: int|
                        0 <= i < j < slots.len() implies #[trigger] slots[i] < #[trigger] slots[j] by {
                        assert(slots[j] == rest[j - 1]);
                        if i > 0 {
                            assert(slots[i] == rest[i - 1]);
                        }
                    }
                    assert forall|t: u64|
                        m.next <= t < m.end && (#[trigger] lookup(t)) is Some implies slots.contains(
                        t,
                    ) || (r.len() >= m.limit && slots.len() > 0 && slots.last() < t) by {
                        if t == m.next {
                            assert(slots[0] == t);
                        } else if rest.contains(t) {
                            let i = choose|i: int| 0 <= i < rest.len() && rest[i] == t;
                            assert(slots[i + 1] == t);
                        } else {
                            assert(slots.last() == rest.last());
                        }
                    }
                    slots
                },
                None => {
                    assert forall|t: u64|
                        m.next <= t < m.end && (#[trigger] lookup(t)) is Some implies rest.contains(
                        t,
                    ) || (r.len() >= m.limit && rest.len() > 0 && rest.last() < t) by {}
                    rest
                },
            }
        }
    }
}

/// The answer to a request for `count` blocks from `start` on holds, in the order
/// of their slots, the stored blocks of the slots up to the head, and of `count`
/// slots in any case: no more than `count` and no more than 256. One that is left
/// out comes after as many as that.
pub proof fn law_stored_blocks_are_served_up_to_the_head(
    start: u64,
    count: u32,
    head: u64,
    lookup: spec_fn(u64) -> Option<Seq<u8>>,
) -> (slots: Seq<u64>)
    requires
        count >= 1,
        start + count <= u64::MAX || (count > 256 && start + 256 <= u64::MAX),
        head < u64::MAX,
    ensures
        ({
            let r = serve::scan_result(serve::block_scan(start, count, head), lookup);
            let most = if count <= 256 {
                count as int
            } else {
                256
            };
            &&& r.len() == slots.len()
            &&& r.len() <= most
            &&& forall|i: int|
                0 <= i < slots.len() ==> start <= #[trigger] slots[i] && lookup(slots[i]) == Some(
                    r[i],
                )
            &&& forall|i: int, j: int|
                0 <= i < j < slots.len() ==> #[trigger] slots[i] < #[trigger] slots[j]
            &&& forall|t: u64|
                start <= t && (t <= head || t < start + most) && (#[trigger] lookup(t)) is Some
                    ==> slots.contains(t) || (r.len() == most && slots.last() < t)
            &&& forall|i: int|
                0 <= i < slots.len() ==> #[trigger] slots[i] <= head || slots[i] < start + most
        }),
{
    let m = serve::block_scan(start, count, head);
    let slots = lemma_walk(m, lookup);
    let r = serve::scan_result(m, lookup);
    assert forall|i: int| 0 <= i < slots.len() implies lookup(#[trigger] slots[i]) == Some(
        r[i],
    ) by {
        assert(r[m.found.len() + i] == r[i]);
    }
    slots
}

/// A request for no blocks at all gets the block of its first slot, where one is
/// stored and the slot is not beyond the head; and a range that runs past the last
/// slot gets nothing.
pub proof fn law_odd_block_requests(
    start: u64,
    count: u32,
    head: u64,
    lookup: spec_fn(u64) -> Option<Seq<u8>>,
)
    ensures
        count == 0 && start <= head && head < u64::MAX ==> serve::scan_result(
            serve::block_scan(start, count, head),
            lookup,
        ) == (match lookup(start) {
            Some(b) => seq![b],
            None => Seq::empty(),
        }),
        count == 0 && start > head ==> serve::scan_result(
            serve::block_scan(start, count, head),
            lookup,
        ).len() == 0,
        start == u64::MAX && count > 0 ==> serve::scan_result(
            serve::block_scan(start, count, head),
            lookup,
        ).len() == 0,
{
    let m = serve::block_scan(start, count, head);
    reveal_with_fuel(serve::scan_result, 3);
    assert(Seq::<Seq<u8>>::empty().push(lookup(start)->0) =~= seq![lookup(start)->0]);
}

/// The answer to a request for `count` headers from `start` on holds the headers
/// of the slots from there on without a gap: it ends at `count` or at 1024 of
/// them, or at the first slot without one.
pub proof fn law_headers_are_served_up_to_a_gap(
    start: u64,
    count: u32,
    lookup: spec_fn(u64) -> Option<Seq<u8>>,
)
    requires
        start + count <= u64::MAX || (count > 1024 && start + 1024 <= u64::MAX),
    ensures
        ({
            let r = serve::scan_result(serve::header_scan(start, count), lookup);
            let most = if count <= 1024 {
                count as int
            } else {
                1024
            };
            &&& r.len() <= most
            &&& forall|i: int|
                0 <= i < r.len() ==> lookup((start + i) as u64) == Some(#[trigger] r[i])
            &&& r.len() < most ==> lookup((start + r.len()) as u64) is None
        }),
{
    let m = serve::header_scan(start, count);
    let r = serve::scan_result(m, lookup);
    law_headers_are_contiguous(m, lookup);
    assert forall|i: int| 0 <= i < r.len() implies lookup((start + i) as u64) == Some(
        #[trigger] r[i],
    ) by {
        assert(r[m.found.len() + i] == r[i]);
    }
}

/// A request for blocks gets the full block of a slot where it is stored, and else
/// its header; one for headers gets the header, whatever else is stored.
pub proof fn law_full_blocks_come_first(block: Seq<u8>, header: Option<Seq<u8>>)
    ensures
        serve::taken(false, Some(block), header) == Some(block),
        serve::taken(false, None, header) == header,
        serve::taken(true, Some(block), header) == header,
        serve::taken(true, None, header) == header,
{
}

/// A walk that found nothing answers so, and one that found something answers with
/// all of it, as what was asked for.
pub proof fn law_walks_answer_with_what_they_found(m: ScanModel, r: SyncResp)
    requires
        serve::scan_answer(m, r),
    ensures
        r is NotFound <==> m.found.len() == 0,
        r is Headers <==> m.found.len() > 0 && m.headers_only,
        r is Blocks <==> m.found.len() > 0 && !m.headers_only,
        r is Headers ==> r->Headers_0@.len() == m.found.len() && forall|i: int|
            0 <= i < m.found.len() ==> (#[trigger] r->Headers_0@[i])@ == m.found[i],
        r is Blocks ==> r->Blocks_0@.len() == m.found.len() && forall|i: int|
            0 <= i < m.found.len() ==> (#[trigger] r->Blocks_0@[i])@ == m.found[i],
{
    if r is Headers {
        assert forall|i: int| 0 <= i < m.found.len() implies (#[trigger] r->Headers_0@[i])@
            == m.found[i] by {
            assert(sync::bytes_list(r->Headers_0@)[i] == r->Headers_0@[i]@);
        }
    }
    if r is Blocks {
        assert forall|i: int| 0 <= i < m.found.len() implies (#[trigger] r->Blocks_0@[i])@
            == m.found[i] by {
            assert(sync::bytes_list(r->Blocks_0@)[i] == r->Blocks_0@[i]@);
        }
    }
}

/// A pinned snapshot serves its chunks for a hundred slots, and no longer.
pub proof fn law_pins_last_a_hundred_slots(p: PinnedSnapshot, head_slot: u64)
    ensures
        serve::needs_pin(Some(p), head_slot) <==> head_slot - p.pinned_at_slot > 100,
        serve::needs_pin(None, head_slot),
{
}

/// A chunk holds as many entries as were asked for, at least one and at most
/// 50000; its entries are those of the snapshot from its index on.
pub proof fn law_chunks_hold_what_was_asked_for(entries: EntriesModel, index: nat, chunk_size: u32)
    ensures
        1 <= chunk_size <= 50_000 ==> serve::chunk_len(chunk_size) == chunk_size,
        chunk_size == 0 ==> serve::chunk_len(chunk_size) == 1,
        chunk_size > 50_000 ==> serve::chunk_len(chunk_size) == 50_000,
        ({
            let cs = serve::chunk_len(chunk_size) as int;
            match serve::chunk_slice(entries, index, cs as nat) {
                Some(e) => {
                    &&& 1 <= e.len() <= cs
                    &&& e.len() < cs ==> index * cs + e.len() == entries.len()
                    &&& index * cs + e.len() <= entries.len()
                    &&& forall|i: int| 0 <= i < e.len() ==> #[trigger] e[i] == entries[index * cs + i]
                },
                None => index * cs >= entries.len(),
            }
        }),
{
    let cs = serve::chunk_len(chunk_size) as int;
    assert(0 <= index * cs) by (nonlinear_arith)
        requires
            cs >= 1,
            index >= 0,
    ;
}

/// The announced number of chunks is the least that holds all entries.
pub proof fn law_chunk_count_is_least(n: nat, cs: nat)
    requires
        1 <= cs,
        0 < n,
    ensures
        (serve::chunk_count(n, cs) - 1) * cs < n <= serve::chunk_count(n, cs) * cs,
{
    let t = serve::chunk_count(n, cs);
    lemma_chunk_bounds(n, cs, t);
    lemma_chunk_bounds(n, cs, (t - 1) as nat);
}

proof fn lemma_inserted(sorted: Seq<ChunkModel>, c: ChunkModel)
    requires
        forall|i: int, j: int|
            #![trigger sorted[i], sorted[j]]
            0 <= i <= j < sorted.len() ==> sorted[i].index <= sorted[j].index,
    ensures
        ({
            let r = sync::insert_chunk(sorted, c);
            &&& r.to_multiset() == sorted.to_multiset().insert(c)
            &&& r.len() == sorted.len() + 1
            &&& forall|i: int, j: int|
                #![trigger r[i], r[j]]
                0 <= i <= j < r.len() ==> r[i].index <= r[j].index
            &&& r.len() > 0 && (r.last() == c || (sorted.len() > 0 && r.last() == sorted.last()))
        }),
    decreases sorted.len(),
{
    broadcast use vstd::seq_lib::group_to_multiset_ensures;

    let r = sync::insert_chunk(sorted, c);
    if sorted.len() == 0 || sorted.last().index <= c.index {
        assert forall|i: int, j: int|
            #![trigger r[i], r[j]]
            0 <= i <= j < r.len() implies r[i].index <= r[j].index by {
            if j == sorted.len() && i < j {
                assert(sorted[i].index <= sorted[sorted.len() - 1].index);
            }
        }
    } else {
        let rest = sorted.drop_last();
        assert forall|i: int, j: int|
            #![trigger rest[i], rest[j]]
            0 <= i <= j < rest.len() implies rest[i].index <= rest[j].index by {
            assert(sorted[i].index <= sorted[j].index);
        }
        lemma_inserted(rest, c);
        let p = sync::insert_chunk(rest, c);
        assert(sorted =~= rest.push(sorted.last()));
        assert forall|i: int, j: int|
            #![trigger r[i], r[j]]
            0 <= i <= j < r.len() implies r[i].index <= r[j].index by {
            if j < p.len() {
                assert(p[i].index <= p[j].index);
            } else if i < p.len() {
                assert(p[i].index <= p[p.len() - 1].index);
                if rest.len() > 0 {
                    assert(sorted[rest.len() - 1].index <= sorted[sorted.len() - 1].index);
                }
            }
        }
        assert(r.to_multiset() =~= sorted.to_multiset().insert(c));
    }
}

/// Sorting the chunks of a download loses none and adds none, and puts them in the
/// order of their indices.
pub proof fn law_chunks_are_sorted_without_loss(chunks: Seq<ChunkModel>)
    ensures
        sync::sort_chunks(chunks).to_multiset() == chunks.to_multiset(),
        sync::sort_chunks(chunks).len() == chunks.len(),
        forall|i: int, j: int|
            #![trigger sync::sort_chunks(chunks)[i], sync::sort_chunks(chunks)[j]]
            0 <= i <= j < chunks.len() ==> sync::sort_chunks(chunks)[i].index
                <= sync::sort_chunks(chunks)[j].index,
    decreases chunks.len(),
{
    broadcast use vstd::seq_lib::group_to_multiset_ensures;

    if chunks.len() > 0 {
        law_chunks_are_sorted_without_loss(chunks.drop_last());
        lemma_inserted(sync::sort_chunks(chunks.drop_last()), chunks.last());
        assert(chunks =~= chunks.drop_last().push(chunks.last()));
    }
}

/// A peer's tip raises the network's, and lowers it never; blocks are handed on as
/// they came; headers and what was not found call for nothing. None of them
/// touches the chain's own tip.
pub proof fn law_answers_are_handed_on(
    m: SyncModel,
    response: SyncResp,
    computed: Key,
    ws_checkpoint: Option<(u64, Key)>,
)
    ensures
        ({
            let out = sync::after_response(m, response, computed, ws_checkpoint);
            let tip = out.0.manager.network_tip;
            &&& out.0.manager.local_tip == m.manager.local_tip
            &&& out.0.initial_sync_done == m.initial_sync_done
            &&& out.0.pending == m.pending
            &&& response is ChainTip ==> {
                &&& tip >= m.manager.network_tip && tip >= response->slot
                &&& tip == m.manager.network_tip || tip == response->slot
                &&& out.1 is Nothing
            }
            &&& !(response is ChainTip) ==> tip == m.manager.network_tip
            &&& response matches SyncResp::Blocks(data) ==> {
                &&& out.0 == m
                &&& out.1 is ProcessBlocks
                &&& out.1->ProcessBlocks_0.len() == data@.len()
                &&& forall|i: int|
                    0 <= i < data@.len() ==> out.1->ProcessBlocks_0[i] == (#[trigger] data@[i])@
            }
            &&& out.1 is ProcessBlocks ==> response is Blocks
            &&& response is Headers ==> out == (m, ActionModel::Nothing)
            &&& response is NotFound ==> out.1 is Nothing && (m.total_chunks == 0 ==> out.0 == m)
                && (m.total_chunks > 0 ==> out.0.chunks.len() == 0 && out.0.expected_root is None
                && out.0.total_chunks == 0 && out.0.retries == 0)
        }),
{
}

/// A snapshot is imported only where it does not break the anchor: it ends after
/// the checkpoint, or at it with the checkpoint's root. A whole one that does not
/// break it is imported as it came.
pub proof fn law_whole_snapshots_are_imported_past_the_anchor(
    m: SyncModel,
    response: SyncResp,
    computed: Key,
    ws_checkpoint: Option<(u64, Key)>,
)
    requires
        response is StateSnapshot,
    ensures
        ({
            let out = sync::after_response(m, response, computed, ws_checkpoint);
            let root = response->StateSnapshot_state_root;
            let slot = response->StateSnapshot_head_slot;
            let entries = response->StateSnapshot_entries;
            let good = ws_checkpoint is None || slot > (ws_checkpoint->0).0 || (slot
                == (ws_checkpoint->0).0 && root == (ws_checkpoint->0).1);
            &&& out.0 == m
            &&& out.1 is ImportSnapshot <==> good
            &&& !good ==> out.1 is Nothing
            &&& good ==> {
                &&& out.1->state_root == root
                &&& out.1->head_slot == slot
                &&& out.1->entries.len() == entries@.len()
                &&& forall|i: int|
                    0 <= i < entries@.len() ==> out.1->entries[i] == ((#[trigger] entries@[i]).0@,
                    entries@[i].1@)
            }
        }),
{
}

/// A chunk is stored exactly where its hash is right and its snapshot does not
/// break the anchor. A wrong one is asked for again, and the fourth in a row ends
/// the download. The last chunk hands out the snapshot that the first one
/// announced.
pub proof fn law_chunks_are_stored_or_asked_for_again(
    m: SyncModel,
    a: ChunkAnswer,
    computed: Key,
    ws_checkpoint: Option<(u64, Key)>,
)
    ensures
        ({
            let out = sync::after_chunk(m, a, computed, ws_checkpoint);
            let good = ws_checkpoint is None || a.head_slot > (ws_checkpoint->0).0 || (a.head_slot
                == (ws_checkpoint->0).0 && a.state_root == (ws_checkpoint->0).1);
            let last = m.chunks.len() + 1 >= a.total_chunks;
            &&& !good ==> out.1 is Nothing && out.0.chunks.len() == 0 && out.0.total_chunks == 0
                && out.0.expected_root is None && out.0.retries == 0
            &&& good && computed != a.chunk.hash ==> out.1 is Nothing
            &&& good && computed != a.chunk.hash && m.retries < 3 ==> out.0 == (SyncModel {
                retries: (m.retries + 1) as u32,
                ..m
            })
            &&& good && computed != a.chunk.hash && m.retries >= 3 ==> out.0.chunks.len() == 0
                && out.0.total_chunks == 0 && out.0.expected_root is None && out.0.retries == 0
            &&& good && computed == a.chunk.hash && !last ==> {
                &&& out.1 is Nothing
                &&& out.0.chunks.len() == m.chunks.len() + 1
                &&& out.0.chunks.last() == a.chunk
                &&& out.0.chunks.drop_last() == m.chunks
                &&& out.0.retries == 0
                &&& m.expected_root is None ==> out.0.expected_root == Some(a.state_root)
                    && out.0.total_chunks == a.total_chunks && out.0.head_slot == a.head_slot
                &&& m.expected_root is Some ==> out.0.expected_root == m.expected_root
                    && out.0.total_chunks == m.total_chunks && out.0.head_slot == m.head_slot
            }
            &&& out.1 is ImportSnapshot <==> good && computed == a.chunk.hash && last
            &&& out.1 is ImportSnapshot ==> {
                &&& out.0.chunks.len() == 0 && out.0.expected_root is None
                    && out.0.total_chunks == 0
                &&& m.expected_root is None ==> out.1->state_root == a.state_root
                    && out.1->head_slot == a.head_slot
                &&& m.expected_root is Some ==> out.1->state_root == m.expected_root->0
                    && out.1->head_slot == m.head_slot
            }
            &&& out.0.manager == m.manager && out.0.pending == m.pending
                && out.0.initial_sync_done == m.initial_sync_done
        }),
{
    assert(m.chunks.push(a.chunk).drop_last() =~= m.chunks);
}

/// A request goes out exactly where the network is ahead, nobody has been asked
/// yet and somebody can be. A node that never synced and is more than a thousand
/// slots behind, with no download under way, asks for the first chunk of a
/// snapshot; any other one for the blocks that come next.
pub proof fn law_requests_follow_the_gap(
    m: SyncModel,
    has_peer: bool,
    next_blocks: Option<(u64, u32)>,
)
    ensures
        ({
            let out = sync::next_batch(m, has_peer, next_blocks);
            let due = m.manager.network_tip > m.manager.local_tip && m.pending == Set::<u64>::empty()
                && has_peer;
            let far = !m.initial_sync_done && m.chunks.len() == 0 && m.expected_root is None
                && m.manager.network_tip - m.manager.local_tip > 1000;
            &&& !due ==> out.0 == m && out.1 is None
            &&& due && far ==> out.1 == Some(
                SyncReq::GetStateSnapshotChunk { chunk_index: 0, chunk_size: 5000 },
            ) && out.0.total_chunks == 0
            &&& due && !far ==> out.0 == m && (next_blocks is None ==> out.1 is None) && (
            next_blocks is Some ==> out.1 == Some(
                SyncReq::GetBlocks { start_slot: (next_blocks->0).0, count: (next_blocks->0).1 },
            ))
            &&& out.0.manager == m.manager && out.0.pending == m.pending
                && out.0.initial_sync_done == m.initial_sync_done
        }),
{
}

/// An import counts exactly where its root is the one announced: the first sync is
/// over, and the local tip is the greater of the snapshot's slot and the tip
/// before.
pub proof fn law_only_the_announced_root_counts(
    m: SyncModel,
    state_root: Key,
    head_slot: u64,
    imported: Option<Key>,
)
    ensures
        ({
            let s = sync::after_import(m, state_root, head_slot, imported);
            let tip = s.manager.local_tip;
            &&& imported != Some(state_root) ==> s == m
            &&& imported == Some(state_root) ==> {
                &&& s.initial_sync_done
                &&& tip >= head_slot && tip >= m.manager.local_tip
                &&& tip == head_slot || tip == m.manager.local_tip
            }
            &&& s.manager.network_tip == m.manager.network_tip
            &&& s.pending == m.pending && s.chunks == m.chunks
        }),
{
}

/// How far a node is behind: the slots from its tip to the network's, and none
/// where it has caught up.
pub proof fn law_distance_is_the_gap(local_tip: u64, network_tip: u64)
    ensures
        ({
            let s = SyncManager { local_tip, network_tip };
            &&& s.behind() <==> network_tip > local_tip
            &&& s.behind() ==> local_tip + s.distance() == network_tip
            &&& !s.behind() ==> s.distance() == 0
        }),
{
}

/// The preimage of a chunk takes in every byte of its entries: one more entry adds
/// its key, the length of its value in four bytes, least significant first, and
/// the value.
pub proof fn law_chunk_preimages_hold_every_entry(entries: EntriesModel, key: Seq<u8>, value: Seq<u8>)
    requires
        value.len() <= u32::MAX,
    ensures
        ({
            let before = sync::chunk_preimage(entries);
            let p = sync::chunk_preimage(entries.push((key, value)));
            let n = before.len() as int;
            let k = key.len() as int;
            &&& sync::chunk_preimage(Seq::empty()).len() == 0
            &&& p.len() == n + k + 4 + value.len()
            &&& p.take(n) == before
            &&& p.subrange(n, n + k) == key
            &&& p[n + k] + 256 * p[n + k + 1] + 65536 * p[n + k + 2] + 16777216 * p[n + k + 3]
                == value.len()
            &&& p.skip(n + k + 4) == value
        }),
{
    let all = entries.push((key, value));
    let before = sync::chunk_preimage(entries);
    let p = sync::chunk_preimage(all);
    let n = before.len() as int;
    let k = key.len() as int;
    assert(all.drop_last() =~= entries);
    let l = value.len() as u32;
    assert(p.take(n) =~= before);
    assert(p.subrange(n, n + k) =~= key);
    assert(p.skip(n + k + 4) =~= value);
    assert(p[n + k] == (l % 256) as u8);
    assert(p[n + k + 1] == (l / 256 % 256) as u8);
    assert(p[n + k + 2] == (l / 65536 % 256) as u8);
    assert(p[n + k + 3] == (l / 16777216) as u8);
}

/// After a batch of blocks the local tip is the greatest slot that it reached before
/// the first rejected block, or the old tip where that is greater; as many blocks
/// are counted as come before that one, and nothing else moves.
pub proof fn law_batches_move_the_tip(outcomes: &Vec<BlockOutcome>)
    ensures
        forall|s: &mut ChainSync, n: u64| #[trigger]
            call_ensures(ChainSync::on_blocks, (s, outcomes), n) ==> {
                let before = (*s)@.manager.local_tip;
                let after = (*final(s))@.manager.local_tip;
                &&& n <= outcomes@.len()
                &&& forall|i: int| 0 <= i < n ==> !((#[trigger] outcomes@[i]) is Rejected)
                &&& n < outcomes@.len() ==> outcomes@[n as int] is Rejected
                &&& after >= before
                &&& forall|i: int, slot: u64|
                    0 <= i < n && #[trigger] reaches(outcomes@[i], slot) ==> slot <= after
                &&& after == before || exists|i: int|
                    0 <= i < n && #[trigger] reaches(outcomes@[i], after)
                &&& (*final(s))@.manager.network_tip == (*s)@.manager.network_tip
                &&& (*final(s))@.pending == (*s)@.pending
                &&& (*final(s))@.chunks == (*s)@.chunks
                &&& (*final(s))@.initial_sync_done == (*s)@.initial_sync_done
                &&& (*final(s))@.total_chunks == (*s)@.total_chunks
                &&& (*final(s))@.expected_root == (*s)@.expected_root
            },
{
    assert forall|s: &mut ChainSync, n: u64| #[trigger]
        call_ensures(ChainSync::on_blocks, (s, outcomes), n) implies {
        let before = (*s)@.manager.local_tip;
        let after = (*final(s))@.manager.local_tip;
        &&& n <= outcomes@.len()
        &&& forall|i: int| 0 <= i < n ==> !((#[trigger] outcomes@[i]) is Rejected)
        &&& n < outcomes@.len() ==> outcomes@[n as int] is Rejected
        &&& after >= before
        &&& forall|i: int, slot: u64|
            0 <= i < n && #[trigger] reaches(outcomes@[i], slot) ==> slot <= after
        &&& after == before || exists|i: int| 0 <= i < n && #[trigger] reaches(outcomes@[i], after)
    } by {
        law_batches_count_up_to_the_first_rejected(outcomes@);
        law_tip_is_the_greatest_slot_reached((*s)@.manager.local_tip, outcomes@);
    }
}

/// A walk over blocks begins at the slot that was asked for with nothing found, and
/// goes on through the head and through as many slots as were asked for, up to 256;
/// whichever is further.
pub proof fn law_block_walks_go_through_the_head(start: u64, count: u32, head: u64, s: SlotScan)
    requires
        call_ensures(SlotScan::blocks, (start, count, head), s),
    ensures
        s@.next == start,
        s@.found.len() == 0,
        !s@.headers_only,
        s@.limit <= count,
        s@.limit <= 256,
        s@.limit == count || s@.limit == 256,
        start + s@.limit > u64::MAX ==> s@.end == start,
        start + s@.limit <= u64::MAX ==> s@.end >= start + s@.limit,
        start + s@.limit <= u64::MAX && head < u64::MAX ==> s@.end > head,
        start + s@.limit <= u64::MAX ==> s@.end == start + s@.limit || s@.end - 1 == head || head
            == u64::MAX,
{
}

/// What the walk of a request for blocks comes to, from its beginning: in the order
/// of their slots, the stored blocks up to the head, and of `count` slots in any
/// case, up to `count` and to 256 of them.
pub proof fn law_block_walks_find_what_is_stored(
    start: u64,
    count: u32,
    head: u64,
    s: SlotScan,
    lookup: spec_fn(u64) -> Option<Seq<u8>>,
) -> (slots: Seq<u64>)
    requires
        call_ensures(SlotScan::blocks, (start, count, head), s),
        count >= 1,
        start + count <= u64::MAX || (count > 256 && start + 256 <= u64::MAX),
        head < u64::MAX,
    ensures
        ({
            let r = serve::scan_result(s@, lookup);
            let most = if count <= 256 {
                count as int
            } else {
                256
            };
            &&& r.len() == slots.len() <= most
            &&& forall|i: int|
                0 <= i < slots.len() ==> start <= #[trigger] slots[i] && lookup(slots[i]) == Some(
                    r[i],
                )
            &&& forall|i: int, j: int|
                0 <= i < j < slots.len() ==> #[trigger] slots[i] < #[trigger] slots[j]
            &&& forall|t: u64|
                start <= t && (t <= head || t < start + most) && (#[trigger] lookup(t)) is Some
                    ==> slots.contains(t) || (r.len() == most && slots.last() < t)
        }),
{
    law_stored_blocks_are_served_up_to_the_head(start, count, head, lookup)
}

/// A walk over headers begins at the slot that was asked for, and goes through as
/// many slots as were asked for, up to 1024.
pub proof fn law_header_walks_are_bounded(start: u64, count: u32, s: SlotScan)
    requires
        call_ensures(SlotScan::headers, (start, count), s),
    ensures
        s@.next == start,
        s@.found.len() == 0,
        s@.headers_only,
        s@.limit <= count,
        s@.limit <= 1024,
        s@.limit == count || s@.limit == 1024,
        start + s@.limit <= u64::MAX ==> s@.end - start == s@.limit,
        start + s@.limit > u64::MAX ==> s@.end == start,
{
}

/// A walk asks for its next slot until it has come to its end. What it is offered it
/// takes, one item for a slot: the block where it walks over blocks and there is one,
/// else the header. It ends where it has as many as it may have, and a walk over
/// headers at the first slot without one.
pub proof fn law_walks_go_slot_by_slot(block: Option<Vec<u8>>, header: Option<Vec<u8>>)
    ensures
        forall|s: &SlotScan, w: Option<u64>| #[trigger]
            call_ensures(SlotScan::wanted, (s,), w) ==> {
                &&& w is Some <==> (*s)@.next < (*s)@.end
                &&& w is Some ==> w->0 == (*s)@.next
            },
        forall|s: &mut SlotScan|
            (*s)@.next < (*s)@.end && #[trigger] call_ensures(
                SlotScan::offer,
                (s, block, header),
                (),
            ) ==> {
                let before = (*s)@;
                let after = (*final(s))@;
                let some = header is Some || (block is Some && !before.headers_only);
                &&& some ==> after.found.len() == before.found.len() + 1
                &&& !some ==> after.found == before.found
                &&& after.found.take(before.found.len() as int) == before.found
                &&& block is Some && !before.headers_only ==> after.found.last() == block->0@
                &&& header is Some && (block is None || before.headers_only)
                    ==> after.found.last() == header->0@
                &&& after.limit == before.limit && after.headers_only == before.headers_only
                &&& after.next < after.end ==> after.next == before.next + 1 && after.end
                    == before.end
                &&& before.headers_only && header is None ==> after.next >= after.end
                &&& !before.headers_only && after.found.len() >= before.limit ==> after.next
                    >= after.end
            },
{
}

/// How a request is answered: by a walk, a chunk, the whole state or the tip, each
/// exactly where it is asked for.
pub proof fn law_requests_get_what_they_ask_for(
    req: &SyncReq,
    head_slot: u64,
    state_root: Key,
    pinned: &Option<PinnedSnapshot>,
    r: InboundStep,
)
    requires
        call_ensures(
            ChainSync::handle_inbound_request,
            (req, head_slot, state_root, pinned),
            r,
        ),
    ensures
        r is Scan <==> *req is GetBlocks || *req is GetHeaders,
        r is Scan ==> (r->Scan_0@.headers_only <==> *req is GetHeaders),
        *req is GetBlocks ==> r->Scan_0@.next == req->GetBlocks_start_slot && r->Scan_0@.found.len()
            == 0,
        *req is GetHeaders ==> r->Scan_0@.next == req->GetHeaders_start_slot
            && r->Scan_0@.found.len() == 0,
        r is Export <==> *req is GetStateSnapshot,
        r is Chunk <==> *req is GetStateSnapshotChunk,
        r is Chunk ==> r->chunk_index == req->chunk_index && r->chunk_size == req->chunk_size,
        r is Chunk && *pinned is None ==> r->pin,
        r is Chunk && *pinned is Some ==> (r->pin <==> head_slot - (*pinned)->0.pinned_at_slot
            > 100),
        r is Respond <==> *req is GetChainTip,
        r is Respond ==> r->Respond_0 is ChainTip && r->Respond_0->ChainTip_slot == head_slot
            && r->Respond_0->block_hash == state_root,
{
}

/// A snapshot is answered with what it holds, and with nothing found where it holds
/// nothing. One that is pinned now holds what was given, and is good now.
pub proof fn law_snapshots_hold_what_was_exported(
    entries: Entries,
    state_root: Key,
    head_slot: u64,
    r: SyncResp,
    p: PinnedSnapshot,
)
    requires
        call_ensures(serve::snapshot_response, (entries, state_root, head_slot), r),
        call_ensures(PinnedSnapshot::new, (entries, state_root, head_slot), p),
    ensures
        r is NotFound <==> entries@.len() == 0,
        r is StateSnapshot <==> entries@.len() > 0,
        r is StateSnapshot ==> r->StateSnapshot_entries == entries && r->StateSnapshot_state_root
            == state_root && r->StateSnapshot_head_slot == head_slot,
        p.entries == entries && p.state_root == state_root && p.head_slot == head_slot,
        p.pinned_at_slot == head_slot,
{
}

/// A chunk of a pinned snapshot is told with the snapshot's own root and head, and
/// with what was drafted.
pub proof fn law_chunks_name_their_snapshot(
    p: &PinnedSnapshot,
    chunk_index: u32,
    draft: ChunkDraft,
    chunk_hash: Key,
    r: SyncResp,
)
    requires
        call_ensures(PinnedSnapshot::chunk_response, (p, chunk_index, draft, chunk_hash), r),
    ensures
        r is StateSnapshotChunk,
        r->StateSnapshotChunk_state_root == p.state_root,
        r->StateSnapshotChunk_head_slot == p.head_slot,
        r->chunk_index == chunk_index,
        r->total_chunks == draft.total_chunks,
        r->chunk_hash == chunk_hash,
        r->StateSnapshotChunk_entries == draft.entries,
{
}

/// Tips only move up, each by its own news: a peer's tip moves the network's, a block
/// the local one; only a resumed sync sets its tip as it is told. Nothing else of the
/// sync moves, but that the first sync is over where a block has caught up.
pub proof fn law_tips_move_by_their_own_news(slot: u64)
    ensures
        forall|s: &mut ChainSync| #[trigger]
            call_ensures(ChainSync::on_peer_tip, (s, slot), ()) ==> {
                let (b, a) = ((*s)@.manager, (*final(s))@.manager);
                &&& a.network_tip >= slot && a.network_tip >= b.network_tip
                &&& a.network_tip == slot || a.network_tip == b.network_tip
                &&& a.local_tip == b.local_tip
                &&& (*final(s))@ == (SyncModel { manager: a, ..(*s)@ })
            },
        forall|s: &mut ChainSync| #[trigger]
            call_ensures(ChainSync::resume_at, (s, slot), ()) ==> {
                &&& (*final(s))@.manager.local_tip == slot
                &&& (*final(s))@.manager.network_tip == (*s)@.manager.network_tip
                &&& (*final(s))@ == (SyncModel { manager: (*final(s))@.manager, ..(*s)@ })
            },
        forall|s: &mut ChainSync| #[trigger]
            call_ensures(ChainSync::on_block_processed, (s, slot), ()) ==> {
                let (b, a) = ((*s)@.manager, (*final(s))@.manager);
                &&& a.local_tip >= slot && a.local_tip >= b.local_tip
                &&& a.local_tip == slot || a.local_tip == b.local_tip
                &&& a.network_tip == b.network_tip
                &&& (*final(s))@.initial_sync_done <==> (*s)@.initial_sync_done || a.local_tip
                    >= a.network_tip
                &&& (*final(s))@ == (SyncModel {
                    manager: a,
                    initial_sync_done: (*final(s))@.initial_sync_done,
                    ..(*s)@
                })
            },
        forall|m: &mut SyncManager| #[trigger]
            call_ensures(SyncManager::update_network_tip, (m, slot), ()) ==> {
                &&& (*final(m)).network_tip >= slot
                &&& (*final(m)).network_tip >= (*m).network_tip
                &&& (*final(m)).network_tip == slot || *final(m) == *m
                &&& (*final(m)).local_tip == (*m).local_tip
            },
        forall|m: &mut SyncManager| #[trigger]
            call_ensures(SyncManager::advance_local_tip, (m, slot), ()) ==> {
                &&& (*final(m)).local_tip >= slot
                &&& (*final(m)).local_tip >= (*m).local_tip
                &&& (*final(m)).local_tip == slot || *final(m) == *m
                &&& (*final(m)).network_tip == (*m).network_tip
            },
{
}

/// A node is syncing exactly where the network is ahead of it, by as many slots as
/// the tips are apart; it prefers a snapshot where those are more than a thousand,
/// nothing of one is held and no sync was ever finished.
pub proof fn law_syncing_is_being_behind(
    m: &SyncManager,
    s: &ChainSync,
    needs: bool,
    n: u64,
    syncing: bool,
    snapshot: bool,
)
    requires
        call_ensures(SyncManager::needs_sync, (m,), needs),
        call_ensures(SyncManager::slots_behind, (m,), n),
        call_ensures(ChainSync::is_syncing, (s,), syncing),
        call_ensures(ChainSync::should_use_snapshot_sync, (s,), snapshot),
    ensures
        needs <==> m.network_tip > m.local_tip,
        needs ==> m.local_tip + n == m.network_tip,
        !needs ==> n == 0,
        syncing <==> s@.manager.network_tip > s@.manager.local_tip,
        snapshot <==> !s@.initial_sync_done && s@.chunks.len() == 0 && s@.expected_root is None
            && s@.manager.network_tip - s@.manager.local_tip > 1000,
{
}

/// Requests are for 5000 entries of a snapshot at a time, from the first on, and only
/// where there is somebody to ask; a new download forgets the old one.
pub proof fn law_snapshots_are_asked_for_from_the_start(has_peer: bool, index: u32, next: SyncReq)
    requires
        call_ensures(ChainSync::request_next_chunk, (index,), next),
    ensures
        next is GetStateSnapshotChunk && next->chunk_index == index && next->chunk_size == 5000,
        forall|s: &mut ChainSync, r: Option<SyncReq>| #[trigger]
            call_ensures(ChainSync::request_state_snapshot, (s, has_peer), r) ==> {
                &&& r is Some <==> has_peer
                &&& !has_peer ==> (*final(s))@ == (*s)@
                &&& has_peer ==> r->0 is GetStateSnapshotChunk && r->0->chunk_index == 0
                    && r->0->chunk_size == 5000
                &&& has_peer ==> (*final(s))@.chunks.len() == 0 && (*final(s))@.total_chunks == 0
                    && (*final(s))@.expected_root is None
                &&& (*final(s))@.manager == (*s)@.manager
                &&& (*final(s))@.pending == (*s)@.pending
                &&& (*final(s))@.initial_sync_done == (*s)@.initial_sync_done
            },
        forall|s: &ChainSync, c: Option<u32>|
            (*s).wf() && #[trigger] call_ensures(ChainSync::needs_next_chunk, (s,), c) ==> {
                &&& c is Some <==> (*s)@.chunks.len() < (*s)@.total_chunks
                &&& c is Some ==> c->0 == (*s)@.chunks.len()
            },
{
    assert forall|s: &ChainSync, c: Option<u32>|
        (*s).wf() && #[trigger] call_ensures(ChainSync::needs_next_chunk, (s,), c) && c
            is Some implies c->0 == (*s)@.chunks.len() by {
        assert((*s)@.total_chunks <= u32::MAX);
    }
}

/// The next batch is asked for exactly where the network is ahead, no request is out
/// and somebody is there to ask: a snapshot where one is preferred, else the blocks
/// that come next, if any. Requests that are out are taken note of.
pub proof fn law_batches_are_asked_for_one_at_a_time(
    has_peer: bool,
    next_blocks: Option<(u64, u32)>,
    id: u64,
)
    ensures
        forall|s: &mut ChainSync, r: Option<SyncReq>| #[trigger]
            call_ensures(ChainSync::request_next_batch, (s, has_peer, next_blocks), r) ==> {
                let m = (*s)@;
                let free = m.manager.network_tip > m.manager.local_tip && m.pending == Set::<
                    u64,
                >::empty() && has_peer;
                let whole = !m.initial_sync_done && m.chunks.len() == 0 && m.expected_root is None
                    && m.manager.network_tip - m.manager.local_tip > 1000;
                &&& !free ==> r is None && (*final(s))@ == m
                &&& free && whole ==> r is Some && r->0 is GetStateSnapshotChunk
                    && r->0->chunk_index == 0 && r->0->chunk_size == 5000
                &&& free && !whole ==> (r is Some <==> next_blocks is Some)
                &&& free && !whole && r is Some ==> r->0 is GetBlocks
                    && r->0->GetBlocks_start_slot == (next_blocks->0).0 && r->0->GetBlocks_count
                    == (next_blocks->0).1
                &&& (*final(s))@.manager == m.manager && (*final(s))@.pending == m.pending
            },
        forall|s: &mut ChainSync| #[trigger]
            call_ensures(ChainSync::on_request_sent, (s, id), ()) ==> {
                &&& (*final(s))@.pending.contains(id)
                &&& forall|other: u64|
                    other != id ==> ((#[trigger] (*final(s))@.pending.contains(other)) <==> (
                    *s)@.pending.contains(other))
                &&& (*final(s))@ == (SyncModel { pending: (*final(s))@.pending, ..(*s)@ })
            },
{
}

/// A snapshot passes the anchor exactly where its head is past it, or at it with the
/// very root that it names; without an anchor every one does.
pub proof fn law_snapshots_are_held_to_the_anchor(
    head_slot: u64,
    state_root: &Key,
    anchor: Option<(u64, Key)>,
    r: Result<(), &'static str>,
)
    requires
        call_ensures(ChainSync::check_snapshot_ws_anchor, (head_slot, state_root, anchor), r),
    ensures
        anchor is None ==> r is Ok,
        anchor is Some && head_slot < (anchor->0).0 ==> r is Err && r->Err_0@
            == "snapshot head_slot is before WS checkpoint"@,
        anchor is Some && head_slot > (anchor->0).0 ==> r is Ok,
        anchor is Some && head_slot == (anchor->0).0 ==> (r is Ok <==> *state_root == (
        anchor->0).1),
        anchor is Some && head_slot == (anchor->0).0 && r is Err ==> r->Err_0@
            == "snapshot state_root at WS checkpoint slot does not match"@,
{
}

/// An import counts exactly where the state came out with the announced root: then
/// the tip is up to the snapshot's head and the first sync is over. Else nothing
/// moves.
pub proof fn law_imports_count_with_the_announced_root(
    state_root: Key,
    head_slot: u64,
    imported: &Result<Key, String>,
)
    ensures
        forall|s: &mut ChainSync| #[trigger]
            call_ensures(
                ChainSync::on_snapshot_imported,
                (s, state_root, head_slot, imported),
                (),
            ) ==> {
                let good = imported is Ok && imported->Ok_0 == state_root;
                let (b, a) = ((*s)@, (*final(s))@);
                &&& !good ==> a == b
                &&& good ==> a.initial_sync_done
                &&& good ==> a.manager.local_tip >= head_slot && a.manager.local_tip
                    >= b.manager.local_tip
                &&& a.manager.local_tip == head_slot || a.manager.local_tip == b.manager.local_tip
                &&& a.manager.network_tip == b.manager.network_tip
            },
{
}

/// A chunk of a pinned snapshot holds the entries from its place on, each under its
/// own index, as many as were asked for or as are left; where none is left there is
/// no chunk.
pub proof fn law_chunks_hold_their_entries(
    p: &PinnedSnapshot,
    chunk_index: u32,
    chunk_size: u32,
    r: Option<ChunkDraft>,
)
    requires
        call_ensures(PinnedSnapshot::chunk, (p, chunk_index, chunk_size), r),
        1 <= chunk_size <= 50_000,
    ensures
        r is Some <==> chunk_index * chunk_size < p.entries@.len(),
        r is Some ==> {
            let e = crate::state_manager::pairs_view(r->0.entries@);
            let all = crate::state_manager::pairs_view(p.entries@);
            let at = chunk_index * chunk_size;
            &&& 0 < e.len() <= chunk_size
            &&& e.len() == chunk_size || at + e.len() == all.len()
            &&& forall|i: int| 0 <= i < e.len() ==> #[trigger] e[i] == all[at + i]
        },
{
    law_chunks_hold_what_was_asked_for(
        crate::state_manager::pairs_view(p.entries@),
        chunk_index as nat,
        chunk_size,
    );
    assert(chunk_index as nat * chunk_size as nat == chunk_index * chunk_size);
}

/// An answer settles its request and no other, and moves the local tip by nothing. A
/// tip tells of the network, blocks are to be processed, and a snapshot is imported
/// where it is past the anchor. A chunk before the anchor ends the download; one with
/// a wrong hash is asked for again up to three times; a good one is kept until there
/// are as many as were announced, which are then imported.
pub proof fn law_answers_settle_their_request(
    id: u64,
    response: SyncResp,
    computed: Key,
    anchor: Option<(u64, Key)>,
)
    ensures
        forall|s: &mut ChainSync, r: sync::SyncAction| #[trigger]
            call_ensures(ChainSync::on_response, (s, id, response, computed, anchor), r) ==> {
                let (b, a) = ((*s)@, (*final(s))@);
                let head = if response is StateSnapshot {
                    response->StateSnapshot_head_slot
                } else {
                    response->StateSnapshotChunk_head_slot
                };
                let root = if response is StateSnapshot {
                    response->StateSnapshot_state_root
                } else {
                    response->StateSnapshotChunk_state_root
                };
                let past = anchor is None || head > (anchor->0).0 || (head == (anchor->0).0 && root
                    == (anchor->0).1);
                let chunk = response is StateSnapshotChunk;
                let good = computed == response->chunk_hash;
                &&& !a.pending.contains(id)
                &&& forall|other: u64|
                    other != id ==> ((#[trigger] a.pending.contains(other))
                        <==> b.pending.contains(other))
                &&& a.manager.local_tip == b.manager.local_tip
                &&& a.initial_sync_done == b.initial_sync_done
                &&& response is ChainTip ==> a.manager.network_tip >= response->ChainTip_slot
                    && a.manager.network_tip >= b.manager.network_tip
                &&& a.manager.network_tip == b.manager.network_tip || (response is ChainTip
                    && a.manager.network_tip == response->ChainTip_slot)
                &&& r@ is ProcessBlocks <==> response is Blocks
                &&& response is StateSnapshot ==> (r@ is ImportSnapshot <==> past)
                &&& response is StateSnapshot && past ==> r@->state_root == root && r@->head_slot
                    == head
                &&& r@ is ImportSnapshot ==> response is StateSnapshot || chunk
                &&& chunk && !past ==> r@ is Nothing && a.chunks.len() == 0 && a.total_chunks == 0
                    && a.expected_root is None && a.retries == 0
                &&& chunk && past && !good && b.retries < 3 ==> r@ is Nothing && a.retries
                    == b.retries + 1 && a.chunks == b.chunks && a.expected_root == b.expected_root
                &&& chunk && past && !good && b.retries >= 3 ==> r@ is Nothing && a.chunks.len()
                    == 0 && a.total_chunks == 0 && a.expected_root is None
                &&& chunk && past && good ==> a.retries == 0 && (r@ is ImportSnapshot
                    <==> b.chunks.len() + 1 >= response->total_chunks)
                &&& chunk && past && good && !(r@ is ImportSnapshot) ==> a.chunks.drop_last()
                    == b.chunks && a.chunks.last().index == response->chunk_index
                &&& chunk && past && good && !(r@ is ImportSnapshot) && b.expected_root is None
                    ==> a.expected_root == Some(root) && a.total_chunks == response->total_chunks
                    && a.head_slot == head
                &&& chunk && past && good && !(r@ is ImportSnapshot) && b.expected_root is Some
                    ==> a.expected_root == b.expected_root && a.total_chunks == b.total_chunks
                    && a.head_slot == b.head_slot
                &&& chunk && r@ is ImportSnapshot && b.expected_root is None ==> r@->state_root
                    == root && r@->head_slot == head
                &&& chunk && r@ is ImportSnapshot && b.expected_root is Some ==> r@->state_root
                    == b.expected_root->0 && r@->head_slot == b.head_slot
                &&& chunk && r@ is ImportSnapshot ==> a.chunks.len() == 0 && a.total_chunks == 0
                    && a.expected_root is None
                &&& response is NotFound ==> r@ is Nothing && a.chunks.len() == if b.total_chunks
                    > 0 {
                    0
                } else {
                    b.chunks.len()
                }
                &&& response is Headers ==> r@ is Nothing && a.chunks == b.chunks
            },
{
    assert forall|s: &mut ChainSync, r: sync::SyncAction| #[trigger]
        call_ensures(ChainSync::on_response, (s, id, response, computed, anchor), r)
            && response is StateSnapshotChunk && !(r@ is ImportSnapshot) && (
    *final(s))@.chunks.len() == (*s)@.chunks.len() + 1 implies (*final(s))@.chunks.drop_last() == (
    *s)@.chunks by {
        assert((*final(s))@.chunks.drop_last() =~= (*s)@.chunks);
    }
}

/// The text that a chunk's hash is taken of is that of its entries; of none it is
/// empty.
pub proof fn law_chunk_texts_grow_by_entries(entries: &Entries, r: Vec<u8>)
    requires
        call_ensures(sync::chunk_hash_input, (entries,), r),
    ensures
        r@ == sync::chunk_preimage(crate::state_manager::pairs_view(entries@)),
        entries@.len() == 0 ==> r@.len() == 0,
{
}

/// A finished walk answers with what it found, in its order, and with nothing found
/// where it found nothing.
pub proof fn law_finished_walks_answer(s: SlotScan, r: SyncResp)
    requires
        call_ensures(SlotScan::finish, (s,), r),
    ensures
        r is NotFound <==> s@.found.len() == 0,
        r is Headers <==> s@.found.len() > 0 && s@.headers_only,
        r is Blocks <==> s@.found.len() > 0 && !s@.headers_only,
        r is Headers ==> r->Headers_0@.len() == s@.found.len() && forall|i: int|
            0 <= i < s@.found.len() ==> (#[trigger] r->Headers_0@[i])@ == s@.found[i],
        r is Blocks ==> r->Blocks_0@.len() == s@.found.len() && forall|i: int|
            0 <= i < s@.found.len() ==> (#[trigger] r->Blocks_0@[i])@ == s@.found[i],
{
    law_walks_answer_with_what_they_found(s@, r);
}

} // verus!
