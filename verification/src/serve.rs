//! Answering a peer's sync requests.
use vstd::prelude::*;

use crate::keymap::Key;
use crate::state_manager;
use crate::sync;
use crate::sync::{
    ChainSync,
    Entries,
    EntriesModel,
    PinnedSnapshot,
    SyncReq,
    SyncResp,
    MAX_GET_BLOCKS_COUNT,
    MAX_GET_HEADERS_COUNT,
    MAX_SNAPSHOT_CHUNK_SIZE,
    PIN_LIFETIME_SLOTS,
};
use crate::text::copy_bytes;

verus! {

/// A walk over slots that collects what is to be sent to a peer.
pub struct SlotScan {
    next: u64,
    end: u64,
    limit: u32,
    headers_only: bool,
    found: Vec<Vec<u8>>,
}

/// Where a walk stands: the slots still ahead are `next..end`.
#[verifier::ext_equal]
pub struct ScanModel {
    pub next: u64,
    pub end: u64,
    pub limit: u32,
    pub headers_only: bool,
    pub found: Seq<Seq<u8>>,
}

impl View for SlotScan {
    type V = ScanModel;

    closed spec fn view(&self) -> ScanModel {
        ScanModel {
            next: self.next,
            end: self.end,
            limit: self.limit,
            headers_only: self.headers_only,
            found: sync::bytes_list(self.found@),
        }
    }
}

/// The walk that answers a request for blocks. Blocks are sparse, so it goes on
/// to the head even where that is more than `count` slots away. A range that
/// runs past the last slot holds nothing.
pub open spec fn block_scan(start: u64, count: u32, head: u64) -> ScanModel {
    let limit = if count <= MAX_GET_BLOCKS_COUNT {
        count
    } else {
        MAX_GET_BLOCKS_COUNT
    };
    let after_head = if head == u64::MAX {
        u64::MAX
    } else {
        (head + 1) as u64
    };
    ScanModel {
        next: start,
        end: if start + limit > u64::MAX {
            start
        } else if start + limit >= after_head {
            (start + limit) as u64
        } else {
            after_head
        },
        limit,
        headers_only: false,
        found: Seq::empty(),
    }
}

/// The walk that answers a request for headers.
pub open spec fn header_scan(start: u64, count: u32) -> ScanModel {
    let limit = if count <= MAX_GET_HEADERS_COUNT {
        count
    } else {
        MAX_GET_HEADERS_COUNT
    };
    ScanModel {
        next: start,
        end: if start + limit > u64::MAX {
            start
        } else {
            (start + limit) as u64
        },
        limit,
        headers_only: true,
        found: Seq::empty(),
    }
}

/// What a walk takes from a slot: the full block or else the header, and the
/// header alone where only headers are asked for.
pub open spec fn taken(
    headers_only: bool,
    block: Option<Seq<u8>>,
    header: Option<Seq<u8>>,
) -> Option<Seq<u8>> {
    if !headers_only && block is Some {
        block
    } else {
        header
    }
}

/// The walk after the slot `next` turned out to hold `item`. A walk over blocks
/// skips empty slots and ends once it has enough; one over headers ends at the
/// first slot without one.
pub open spec fn scan_step(m: ScanModel, item: Option<Seq<u8>>) -> ScanModel {
    let found = match item {
        Some(b) => m.found.push(b),
        None => m.found,
    };
    let ends = if m.headers_only {
        item is None
    } else {
        found.len() >= m.limit
    };
    ScanModel {
        next: if ends {
            m.end
        } else {
            (m.next + 1) as u64
        },
        found,
        ..m
    }
}

/// What a walk ends with, where `lookup` says what each slot holds.
pub open spec fn scan_result(m: ScanModel, lookup: spec_fn(u64) -> Option<Seq<u8>>) -> Seq<Seq<u8>>
    decreases m.end - m.next,
{
    if m.next >= m.end {
        m.found
    } else {
        scan_result(scan_step(m, lookup(m.next)), lookup)
    }
}

/// The answer that a finished walk gives, by its view.
pub open spec fn scan_answer(m: ScanModel, r: SyncResp) -> bool {
    if m.found.len() == 0 {
        r is NotFound
    } else if m.headers_only {
        r is Headers && sync::bytes_list(r->Headers_0@) == m.found
    } else {
        r is Blocks && sync::bytes_list(r->Blocks_0@) == m.found
    }
}

impl SlotScan {
    /// The walk for a request of `count` blocks from `start` on.
    pub fn blocks(start: u64, count: u32, head: u64) -> (s: Self)
        ensures
            s@ == block_scan(start, count, head),
    {
        let limit: u32 = if count <= MAX_GET_BLOCKS_COUNT {
            count
        } else {
            MAX_GET_BLOCKS_COUNT
        };
        let after_head: u64 = head.saturating_add(1);
        let end: u64 = match start.checked_add(limit as u64) {
            Some(e) => if e >= after_head {
                e
            } else {
                after_head
            },
            None => start,
        };
        let s = SlotScan { next: start, end, limit, headers_only: false, found: Vec::new() };
        assert(s@.found =~= Seq::empty());
        s
    }

    /// The walk for a request of `count` headers from `start` on.
    pub fn headers(start: u64, count: u32) -> (s: Self)
        ensures
            s@ == header_scan(start, count),
    {
        let limit: u32 = if count <= MAX_GET_HEADERS_COUNT {
            count
        } else {
            MAX_GET_HEADERS_COUNT
        };
        let end: u64 = match start.checked_add(limit as u64) {
            Some(e) => e,
            None => start,
        };
        let s = SlotScan { next: start, end, limit, headers_only: true, found: Vec::new() };
        assert(s@.found =~= Seq::empty());
        s
    }

    /// The slot to look up next, until the walk is finished.
    pub fn wanted(&self) -> (r: Option<u64>)
        ensures
            r == if self@.next < self@.end {
                Some(self@.next)
            } else {
                None
            },
    {
        if self.next < self.end {
            Some(self.next)
        } else {
            None
        }
    }

    /// Takes what was found at the wanted slot: the encoded block, and the
    /// encoded header.
    pub fn offer(&mut self, block: Option<Vec<u8>>, header: Option<Vec<u8>>)
        requires
            old(self)@.next < old(self)@.end,
        ensures
            final(self)@ == scan_step(
                old(self)@,
                taken(
                    old(self)@.headers_only,
                    crate::text::opt_bytes(block),
                    crate::text::opt_bytes(header),
                ),
            ),
    {
        let item: Option<Vec<u8>> = if !self.headers_only && block.is_some() {
            block
        } else {
            header
        };
        let empty: bool = item.is_none();
        let ghost f0 = self.found@;
        if let Some(b) = item {
            self.found.push(b);
            assert(sync::bytes_list(self.found@) =~= sync::bytes_list(f0).push(b@));
        }
        let ends: bool = if self.headers_only {
            empty
        } else {
            self.found.len() as u64 >= self.limit as u64
        };
        if ends {
            self.next = self.end;
        } else {
            self.next = self.next + 1;
        }
    }

    /// The answer.
    pub fn finish(self) -> (r: SyncResp)
        ensures
            scan_answer(self@, r),
    {
        if self.found.len() == 0 {
            SyncResp::NotFound
        } else if self.headers_only {
            SyncResp::Headers(self.found)
        } else {
            SyncResp::Blocks(self.found)
        }
    }
}

/// Whether a snapshot has to be pinned before a chunk can be served: none is, or
/// the one that is has become stale.
pub open spec fn needs_pin(pinned: Option<PinnedSnapshot>, head_slot: u64) -> bool {
    match pinned {
        Some(p) => head_slot > p.pinned_at_slot + PIN_LIFETIME_SLOTS,
        None => true,
    }
}

/// How a request is answered.
pub enum InboundStep {
    /// With this.
    Respond(SyncResp),
    /// By this walk.
    Scan(SlotScan),
    /// With `snapshot_response` of the exported state.
    Export,
    /// With `chunk_response` of the pinned snapshot, pinned anew first where
    /// `pin` says so.
    Chunk { pin: bool, chunk_index: u32, chunk_size: u32 },
}

impl ChainSync {
    /// How a peer's request is answered, at the head `head_slot` with the state
    /// root `state_root`.
    pub fn handle_inbound_request(
        req: &SyncReq,
        head_slot: u64,
        state_root: Key,
        pinned_snapshot: &Option<PinnedSnapshot>,
    ) -> (r: InboundStep)
        ensures
            match *req {
                SyncReq::GetChainTip => r == InboundStep::Respond(
                    SyncResp::ChainTip { slot: head_slot, block_hash: state_root },
                ),
                SyncReq::GetBlocks { start_slot, count } => r is Scan && r->Scan_0@ == block_scan(
                    start_slot,
                    count,
                    head_slot,
                ),
                SyncReq::GetHeaders { start_slot, count } => r is Scan && r->Scan_0@
                    == header_scan(start_slot, count),
                SyncReq::GetStateSnapshot => r is Export,
                SyncReq::GetStateSnapshotChunk { chunk_index, chunk_size } => r
                    == (InboundStep::Chunk {
                    pin: needs_pin(*pinned_snapshot, head_slot),
                    chunk_index,
                    chunk_size,
                }),
            },
    {
        match req {
            SyncReq::GetChainTip => InboundStep::Respond(
                SyncResp::ChainTip { slot: head_slot, block_hash: state_root },
            ),
            SyncReq::GetBlocks { start_slot, count } => InboundStep::Scan(
                SlotScan::blocks(*start_slot, *count, head_slot),
            ),
            SyncReq::GetHeaders { start_slot, count } => InboundStep::Scan(
                SlotScan::headers(*start_slot, *count),
            ),
            SyncReq::GetStateSnapshot => InboundStep::Export,
            SyncReq::GetStateSnapshotChunk { chunk_index, chunk_size } => {
                let pin: bool = match pinned_snapshot {
                    Some(p) => match p.pinned_at_slot.checked_add(PIN_LIFETIME_SLOTS) {
                        Some(last) => head_slot > last,
                        None => false,
                    },
                    None => true,
                };
                InboundStep::Chunk { pin, chunk_index: *chunk_index, chunk_size: *chunk_size }
            },
        }
    }
}

/// The answer to a request for the whole state.
pub fn snapshot_response(entries: Entries, state_root: Key, head_slot: u64) -> (r: SyncResp)
    ensures
        r == if entries@.len() == 0 {
            SyncResp::NotFound
        } else {
            SyncResp::StateSnapshot { state_root, head_slot, entries }
        },
{
    if entries.len() == 0 {
        SyncResp::NotFound
    } else {
        SyncResp::StateSnapshot { state_root, head_slot, entries }
    }
}

/// How many entries a chunk holds when `chunk_size` of them are asked for.
pub open spec fn chunk_len(chunk_size: u32) -> nat {
    if chunk_size < 1 {
        1
    } else if chunk_size > MAX_SNAPSHOT_CHUNK_SIZE {
        MAX_SNAPSHOT_CHUNK_SIZE as nat
    } else {
        chunk_size as nat
    }
}

/// How many chunks of `cs` entries it takes for `n` of them.
pub open spec fn chunk_count(n: nat, cs: nat) -> nat {
    ((n + cs - 1) / cs as int) as nat
}

/// The entries of the chunk `index`, and none beyond the last chunk.
pub open spec fn chunk_slice(entries: EntriesModel, index: nat, cs: nat) -> Option<EntriesModel> {
    let start = index * cs;
    if start >= entries.len() {
        None
    } else if start + cs <= entries.len() {
        Some(entries.subrange(start as int, (start + cs) as int))
    } else {
        Some(entries.subrange(start as int, entries.len() as int))
    }
}

/// A chunk that is ready but for its hash.
pub struct ChunkDraft {
    pub total_chunks: u32,
    pub entries: Entries,
}

proof fn lemma_count(n: int, cs: int)
    requires
        0 < n,
        1 <= cs,
    ensures
        (n + cs - 1) / cs == n / cs + (if n % cs > 0 {
            1int
        } else {
            0int
        }),
{
    let q = n / cs;
    let r = n % cs;
    vstd::arithmetic::div_mod::lemma_fundamental_div_mod(n, cs);
    if r > 0 {
        assert((q + 1) * cs == cs * q + cs) by (nonlinear_arith);
        vstd::arithmetic::div_mod::lemma_fundamental_div_mod_converse(
            n + cs - 1,
            cs,
            q + 1,
            r - 1,
        );
    } else {
        assert(q * cs == cs * q) by (nonlinear_arith);
        vstd::arithmetic::div_mod::lemma_fundamental_div_mod_converse(n + cs - 1, cs, q, cs - 1);
    }
}

impl PinnedSnapshot {
    /// Pins the state that the head at `head_slot` left.
    pub fn new(entries: Entries, state_root: Key, head_slot: u64) -> (p: Self)
        ensures
            p.entries == entries,
            p.state_root == state_root,
            p.head_slot == head_slot,
            p.pinned_at_slot == head_slot,
            !needs_pin(Some(p), head_slot),
    {
        PinnedSnapshot { entries, state_root, head_slot, pinned_at_slot: head_slot }
    }

    /// The chunk `chunk_index`, where chunks of `chunk_size` entries are asked
    /// for; `None` beyond the last one.
    pub fn chunk(&self, chunk_index: u32, chunk_size: u32) -> (r: Option<ChunkDraft>)
        ensures
            match chunk_slice(
                state_manager::pairs_view(self.entries@),
                chunk_index as nat,
                chunk_len(chunk_size),
            ) {
                Some(e) => r is Some && state_manager::pairs_view(r->0.entries@) == e
                    && r->0.total_chunks == chunk_count(
                    self.entries@.len(),
                    chunk_len(chunk_size),
                ) as u32,
                None => r is None,
            },
    {
        let n: usize = self.entries.len();
        let cs: usize = if chunk_size < 1 {
            1
        } else if chunk_size > MAX_SNAPSHOT_CHUNK_SIZE as u32 {
            MAX_SNAPSHOT_CHUNK_SIZE
        } else {
            chunk_size as usize
        };
        let start: u64 = {
            assert(chunk_index * cs <= u32::MAX * 50_000) by (nonlinear_arith)
                requires
                    chunk_index <= u32::MAX,
                    cs <= 50_000,
            ;
            chunk_index as u64 * cs as u64
        };
        if start >= n as u64 {
            return None;
        }
        proof {
            lemma_count(n as int, cs as int);
        }
        let total: usize = if n % cs > 0 {
            assert(n / cs <= n) by (nonlinear_arith)
                requires
                    cs >= 1,
            ;
            assert(cs > 1);
            assert(n / cs < n) by (nonlinear_arith)
                requires
                    cs > 1,
                    n > 0,
            ;
            n / cs + 1
        } else {
            n / cs
        };
        let first: usize = start as usize;
        let end: usize = if cs <= n - first {
            first + cs
        } else {
            n
        };
        let mut out: Entries = Vec::new();
        let mut i: usize = first;
        let ghost all = state_manager::pairs_view(self.entries@);
        assert(state_manager::pairs_view(out@) =~= all.subrange(first as int, first as int));
        while i < end
            invariant
                first <= i <= end <= self.entries@.len(),
                all == state_manager::pairs_view(self.entries@),
                state_manager::pairs_view(out@) == all.subrange(first as int, i as int),
            decreases end - i,
        {
            let e = &self.entries[i];
            let ghost o0 = out@;
            out.push((copy_bytes(&e.0), copy_bytes(&e.1)));
            assert(state_manager::pairs_view(out@) =~= state_manager::pairs_view(o0).push(
                (e.0@, e.1@),
            ));
            i = i + 1;
            assert(state_manager::pairs_view(out@) =~= all.subrange(first as int, i as int));
        }
        Some(ChunkDraft { total_chunks: total as u32, entries: out })
    }

    /// The answer to a request for a chunk, once its hash is known.
    pub fn chunk_response(&self, chunk_index: u32, draft: ChunkDraft, chunk_hash: Key) -> (r:
        SyncResp)
        ensures
            r == (SyncResp::StateSnapshotChunk {
                state_root: self.state_root,
                head_slot: self.head_slot,
                chunk_index,
                total_chunks: draft.total_chunks,
                chunk_hash,
                entries: draft.entries,
            }),
    {
        SyncResp::StateSnapshotChunk {
            state_root: self.state_root,
            head_slot: self.head_slot,
            chunk_index,
            total_chunks: draft.total_chunks,
            chunk_hash,
            entries: draft.entries,
        }
    }
}

} // verus!
