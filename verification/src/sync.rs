//! Chain sync: which block, header or snapshot chunk to ask a peer for, what to
//! do with the answer, and what to answer a peer that asks.
//!
//! Decoding and executing blocks, looking blocks up and hashing happen outside;
//! their results come in as arguments.
use vstd::prelude::*;

use crate::keymap::{key_eq, Key};
use crate::state_manager;

verus! {

/// How many entries a snapshot chunk is asked for with.
pub const SNAPSHOT_CHUNK_SIZE: u32 = 5000;

/// How often a chunk may fail its hash before the download is given up.
pub const CHUNK_MAX_RETRIES: u32 = 3;

/// The most blocks that one request is answered with.
pub const MAX_GET_BLOCKS_COUNT: u32 = 256;

/// The most headers that one request is answered with.
pub const MAX_GET_HEADERS_COUNT: u32 = 1024;

/// The most entries that one snapshot chunk holds.
pub const MAX_SNAPSHOT_CHUNK_SIZE: usize = 50_000;

/// After how many slots a pinned snapshot is taken anew.
pub const PIN_LIFETIME_SLOTS: u64 = 100;

/// The entries of a snapshot: raw keys and values.
pub type Entries = Vec<(Vec<u8>, Vec<u8>)>;

/// Entries by their views.
pub type EntriesModel = Seq<(Seq<u8>, Seq<u8>)>;

/// A request to a peer.
pub enum SyncReq {
    GetChainTip,
    GetBlocks { start_slot: u64, count: u32 },
    GetHeaders { start_slot: u64, count: u32 },
    GetStateSnapshot,
    GetStateSnapshotChunk { chunk_index: u32, chunk_size: u32 },
}

/// A peer's answer.
pub enum SyncResp {
    ChainTip { slot: u64, block_hash: Key },
    Blocks(Vec<Vec<u8>>),
    Headers(Vec<Vec<u8>>),
    StateSnapshot { state_root: Key, head_slot: u64, entries: Entries },
    StateSnapshotChunk {
        state_root: Key,
        head_slot: u64,
        chunk_index: u32,
        total_chunks: u32,
        chunk_hash: Key,
        entries: Entries,
    },
    NotFound,
}

/// What is left to do after an answer was taken in.
pub enum SyncAction {
    Nothing,
    /// Execute these encoded blocks in order, and report to `on_blocks`.
    ProcessBlocks(Vec<Vec<u8>>),
    /// Import these entries, and report to `on_snapshot_imported`.
    ImportSnapshot { entries: Entries, state_root: Key, head_slot: u64 },
}

/// What became of one synced block.
#[derive(Clone, Copy, PartialEq, Eq, Structural, Debug)]
pub enum BlockOutcome {
    /// The full block was executed.
    Applied { slot: u64 },
    /// Only a header was there; it was taken over, and the head is `head_slot`.
    HeaderApplied { head_slot: u64 },
    /// The block could not be decoded, is invalid, or could not be executed.
    Rejected,
}

/// The local and the best known tip.
#[derive(Clone, Copy, PartialEq, Eq, Structural, Debug)]
pub struct SyncManager {
    pub local_tip: u64,
    pub network_tip: u64,
}

/// The greater of two slots.
pub open spec fn max_slot(a: u64, b: u64) -> u64 {
    if a >= b {
        a
    } else {
        b
    }
}

impl SyncManager {
    /// Both tips at genesis.
    pub fn new() -> (m: Self)
        ensures
            m == (SyncManager { local_tip: 0, network_tip: 0 }),
    {
        SyncManager { local_tip: 0, network_tip: 0 }
    }

    /// Raises the network tip to `slot`.
    pub fn update_network_tip(&mut self, slot: u64)
        ensures
            *final(self) == (SyncManager {
                network_tip: max_slot(old(self).network_tip, slot),
                ..*old(self)
            }),
    {
        if slot > self.network_tip {
            self.network_tip = slot;
        }
    }

    /// Raises the local tip to `slot`.
    pub fn advance_local_tip(&mut self, slot: u64)
        ensures
            *final(self) == (SyncManager {
                local_tip: max_slot(old(self).local_tip, slot),
                ..*old(self)
            }),
    {
        if slot > self.local_tip {
            self.local_tip = slot;
        }
    }

    /// Whether the network is ahead.
    pub open spec fn behind(self) -> bool {
        self.local_tip < self.network_tip
    }

    /// By how many slots the network is ahead.
    pub open spec fn distance(self) -> int {
        if self.behind() {
            self.network_tip - self.local_tip
        } else {
            0
        }
    }

    /// Whether the network is ahead.
    pub fn needs_sync(&self) -> (r: bool)
        ensures
            r == self.behind(),
    {
        self.local_tip < self.network_tip
    }

    /// By how many slots the network is ahead.
    pub fn slots_behind(&self) -> (n: u64)
        ensures
            n == self.distance(),
    {
        self.network_tip.saturating_sub(self.local_tip)
    }
}

/// A received chunk: its index, entries and hash.
pub struct Chunk {
    pub index: u32,
    pub entries: Entries,
    pub hash: Key,
}

/// A chunk by its view.
#[verifier::ext_equal]
pub struct ChunkModel {
    pub index: u32,
    pub entries: EntriesModel,
    pub hash: Key,
}

impl View for Chunk {
    type V = ChunkModel;

    open spec fn view(&self) -> ChunkModel {
        ChunkModel {
            index: self.index,
            entries: state_manager::pairs_view(self.entries@),
            hash: self.hash,
        }
    }
}

/// The sync coordinator: tips, outstanding requests, and the chunks of a
/// snapshot that is being downloaded.
pub struct ChainSync {
    pub manager: SyncManager,
    pending: Vec<u64>,
    pub initial_sync_done: bool,
    snapshot_chunks: Vec<Chunk>,
    pub snapshot_expected_root: Option<Key>,
    snapshot_total_chunks: u32,
    snapshot_head_slot: u64,
    snapshot_retry_count: u32,
}

/// What a sync coordinator holds.
#[verifier::ext_equal]
pub struct SyncModel {
    pub manager: SyncManager,
    pub pending: Set<u64>,
    pub initial_sync_done: bool,
    pub chunks: Seq<ChunkModel>,
    pub expected_root: Option<Key>,
    pub total_chunks: u32,
    pub head_slot: u64,
    pub retries: u32,
}

/// A pinned snapshot, so that every chunk of one transfer comes from one state.
pub struct PinnedSnapshot {
    pub entries: Entries,
    pub state_root: Key,
    pub head_slot: u64,
    /// The head when the snapshot was taken.
    pub pinned_at_slot: u64,
}

/// The action by its view.
#[verifier::ext_equal]
pub enum ActionModel {
    Nothing,
    ProcessBlocks(Seq<Seq<u8>>),
    ImportSnapshot { entries: EntriesModel, state_root: Key, head_slot: u64 },
}

/// Byte strings by their views.
pub open spec fn bytes_list(v: Seq<Vec<u8>>) -> Seq<Seq<u8>> {
    v.map_values(|b: Vec<u8>| b@)
}

impl View for SyncAction {
    type V = ActionModel;

    open spec fn view(&self) -> ActionModel {
        match *self {
            SyncAction::Nothing => ActionModel::Nothing,
            SyncAction::ProcessBlocks(b) => ActionModel::ProcessBlocks(bytes_list(b@)),
            SyncAction::ImportSnapshot { entries, state_root, head_slot } =>
                ActionModel::ImportSnapshot {
                entries: state_manager::pairs_view(entries@),
                state_root,
                head_slot,
            },
        }
    }
}

/// A 32-bit number in little-endian order.
pub open spec fn le4(n: u32) -> Seq<u8> {
    seq![
        (n % 256) as u8,
        (n / 256 % 256) as u8,
        (n / 65536 % 256) as u8,
        (n / 16777216) as u8,
    ]
}

/// What a chunk's hash is taken of: for each entry the key, the value's length
/// in four bytes, and the value.
pub open spec fn chunk_preimage(entries: EntriesModel) -> Seq<u8>
    decreases entries.len(),
{
    if entries.len() == 0 {
        Seq::empty()
    } else {
        let e = entries.last();
        chunk_preimage(entries.drop_last()) + e.0 + le4(e.1.len() as u32) + e.1
    }
}

/// Appends a byte string.
fn push_bytes(out: &mut Vec<u8>, b: &Vec<u8>)
    ensures
        final(out)@ == old(out)@ + b@,
{
    let mut i: usize = 0;
    let ghost o = out@;
    while i < b.len()
        invariant
            i <= b@.len(),
            out@ == o + b@.take(i as int),
        decreases b@.len() - i,
    {
        out.push(b[i]);
        i = i + 1;
        assert(out@ =~= o + b@.take(i as int));
    }
    assert(out@ =~= o + b@);
}

/// What a chunk's hash is taken of.
pub fn chunk_hash_input(entries: &Entries) -> (r: Vec<u8>)
    ensures
        r@ == chunk_preimage(state_manager::pairs_view(entries@)),
{
    let mut out: Vec<u8> = Vec::new();
    let mut i: usize = 0;
    let ghost all = state_manager::pairs_view(entries@);
    assert(all.take(0) =~= Seq::empty());
    while i < entries.len()
        invariant
            i <= entries@.len(),
            all == state_manager::pairs_view(entries@),
            out@ == chunk_preimage(all.take(i as int)),
        decreases entries@.len() - i,
    {
        let e = &entries[i];
        let ghost o = out@;
        let n: u32 = e.1.len() as u32;
        push_bytes(&mut out, &e.0);
        out.push((n % 256) as u8);
        out.push((n / 256 % 256) as u8);
        out.push((n / 65536 % 256) as u8);
        out.push((n / 16777216) as u8);
        assert(out@ =~= o + e.0@ + le4(n));
        push_bytes(&mut out, &e.1);
        assert(all.take(i + 1).drop_last() =~= all.take(i as int));
        assert(all.take(i + 1).last() == (e.0@, e.1@));
        i = i + 1;
    }
    assert(all.take(i as int) =~= all);
    out
}

/// Why a snapshot breaks the weak-subjectivity anchor, if it does: it ends
/// before the checkpoint, or ends at it with another root.
pub open spec fn ws_violation(
    head_slot: u64,
    state_root: Key,
    ws_checkpoint: Option<(u64, Key)>,
) -> Option<Seq<char>> {
    match ws_checkpoint {
        None => None,
        Some(cp) => if head_slot < cp.0 {
            Some("snapshot head_slot is before WS checkpoint"@)
        } else if head_slot == cp.0 && state_root != cp.1 {
            Some("snapshot state_root at WS checkpoint slot does not match"@)
        } else {
            None
        },
    }
}

/// The download given up: what was collected is dropped.
pub open spec fn aborted(m: SyncModel) -> SyncModel {
    SyncModel { chunks: Seq::empty(), expected_root: None, total_chunks: 0, retries: 0, ..m }
}

/// Inserts a chunk behind every chunk whose index is not greater.
pub open spec fn insert_chunk(sorted: Seq<ChunkModel>, c: ChunkModel) -> Seq<ChunkModel>
    decreases sorted.len(),
{
    if sorted.len() == 0 || sorted.last().index <= c.index {
        sorted.push(c)
    } else {
        insert_chunk(sorted.drop_last(), c).push(sorted.last())
    }
}

/// The chunks in ascending order of index, in the order of arrival where two
/// have the same.
pub open spec fn sort_chunks(chunks: Seq<ChunkModel>) -> Seq<ChunkModel>
    decreases chunks.len(),
{
    if chunks.len() == 0 {
        chunks
    } else {
        insert_chunk(sort_chunks(chunks.drop_last()), chunks.last())
    }
}

/// The entries of chunks, one after the other.
pub open spec fn concat_entries(chunks: Seq<ChunkModel>) -> EntriesModel
    decreases chunks.len(),
{
    if chunks.len() == 0 {
        Seq::empty()
    } else {
        concat_entries(chunks.drop_last()) + chunks.last().entries
    }
}

/// A snapshot chunk as a peer announces it.
pub struct ChunkAnswer {
    pub state_root: Key,
    pub head_slot: u64,
    pub total_chunks: u32,
    pub chunk: ChunkModel,
}

/// The coordinator after a good chunk, before it is looked at whether all are
/// there: the first one fixes root, count and slot.
pub open spec fn chunk_stored(m: SyncModel, a: ChunkAnswer) -> SyncModel {
    let first = m.expected_root is None;
    SyncModel {
        retries: 0,
        expected_root: if first {
            Some(a.state_root)
        } else {
            m.expected_root
        },
        total_chunks: if first {
            a.total_chunks
        } else {
            m.total_chunks
        },
        head_slot: if first {
            a.head_slot
        } else {
            m.head_slot
        },
        chunks: m.chunks.push(a.chunk),
        ..m
    }
}

/// The coordinator and the action after a snapshot chunk; `computed` is the hash
/// of the chunk's preimage.
pub open spec fn after_chunk(
    m: SyncModel,
    a: ChunkAnswer,
    computed: Key,
    ws_checkpoint: Option<(u64, Key)>,
) -> (SyncModel, ActionModel) {
    if ws_violation(a.head_slot, a.state_root, ws_checkpoint) is Some {
        (aborted(m), ActionModel::Nothing)
    } else if computed != a.chunk.hash {
        if m.retries + 1 > CHUNK_MAX_RETRIES {
            (aborted(m), ActionModel::Nothing)
        } else {
            (SyncModel { retries: (m.retries + 1) as u32, ..m }, ActionModel::Nothing)
        }
    } else {
        let s = chunk_stored(m, a);
        if s.chunks.len() >= a.total_chunks {
            (
                SyncModel { chunks: Seq::empty(), expected_root: None, total_chunks: 0, ..s },
                ActionModel::ImportSnapshot {
                    entries: concat_entries(sort_chunks(s.chunks)),
                    state_root: s.expected_root->0,
                    head_slot: s.head_slot,
                },
            )
        } else {
            (s, ActionModel::Nothing)
        }
    }
}

/// The coordinator and the action after any answer.
pub open spec fn after_response(
    m: SyncModel,
    response: SyncResp,
    computed: Key,
    ws_checkpoint: Option<(u64, Key)>,
) -> (SyncModel, ActionModel) {
    match response {
        SyncResp::ChainTip { slot, block_hash } => (
            SyncModel {
                manager: SyncManager {
                    network_tip: max_slot(m.manager.network_tip, slot),
                    ..m.manager
                },
                ..m
            },
            ActionModel::Nothing,
        ),
        SyncResp::Blocks(data) => (m, ActionModel::ProcessBlocks(bytes_list(data@))),
        SyncResp::Headers(_) => (m, ActionModel::Nothing),
        SyncResp::StateSnapshot { state_root, head_slot, entries } => if ws_violation(
            head_slot,
            state_root,
            ws_checkpoint,
        ) is Some {
            (m, ActionModel::Nothing)
        } else {
            (
                m,
                ActionModel::ImportSnapshot {
                    entries: state_manager::pairs_view(entries@),
                    state_root,
                    head_slot,
                },
            )
        },
        SyncResp::StateSnapshotChunk {
            state_root,
            head_slot,
            chunk_index,
            total_chunks,
            chunk_hash,
            entries,
        } => after_chunk(
            m,
            ChunkAnswer {
                state_root,
                head_slot,
                total_chunks,
                chunk: ChunkModel {
                    index: chunk_index,
                    entries: state_manager::pairs_view(entries@),
                    hash: chunk_hash,
                },
            },
            computed,
            ws_checkpoint,
        ),
        SyncResp::NotFound => if m.total_chunks > 0 {
            (aborted(m), ActionModel::Nothing)
        } else {
            (m, ActionModel::Nothing)
        },
    }
}

/// Whether a block outcome ends its batch.
pub open spec fn stops(o: BlockOutcome) -> bool {
    o is Rejected
}

/// How many of the first outcomes, up to the first rejected one, succeeded.
pub open spec fn applied_prefix(outcomes: Seq<BlockOutcome>) -> nat
    decreases outcomes.len(),
{
    if outcomes.len() == 0 || stops(outcomes[0]) {
        0
    } else {
        1 + applied_prefix(outcomes.skip(1))
    }
}

/// The slot that an applied block raises the local tip to.
pub open spec fn outcome_slot(o: BlockOutcome) -> u64 {
    match o {
        BlockOutcome::Applied { slot } => slot,
        BlockOutcome::HeaderApplied { head_slot } => head_slot,
        BlockOutcome::Rejected => 0,
    }
}

/// The local tip after the blocks up to the first rejected one.
pub open spec fn tip_after(tip: u64, outcomes: Seq<BlockOutcome>) -> u64
    decreases outcomes.len(),
{
    if outcomes.len() == 0 || stops(outcomes[0]) {
        tip
    } else {
        tip_after(max_slot(tip, outcome_slot(outcomes[0])), outcomes.skip(1))
    }
}

proof fn lemma_insert_position(sorted: Seq<ChunkModel>, c: ChunkModel, p: int)
    requires
        0 <= p <= sorted.len(),
        p > 0 ==> sorted[p - 1].index <= c.index,
        forall|j: int| p <= j < sorted.len() ==> (#[trigger] sorted[j]).index > c.index,
    ensures
        insert_chunk(sorted, c) == sorted.insert(p, c),
    decreases sorted.len(),
{
    if p == sorted.len() {
        assert(sorted.insert(p, c) =~= sorted.push(c));
    } else {
        let rest = sorted.drop_last();
        assert(sorted[sorted.len() - 1].index > c.index);
        assert forall|j: int| p <= j < rest.len() implies (#[trigger] rest[j]).index
            > c.index by {
            assert(rest[j] == sorted[j]);
        }
        lemma_insert_position(rest, c, p);
        assert(rest.insert(p, c).push(sorted.last()) =~= sorted.insert(p, c));
    }
}

/// Chunks by their views.
pub open spec fn chunks_view(s: Seq<Chunk>) -> Seq<ChunkModel> {
    s.map_values(|c: Chunk| c@)
}

fn insert_sorted(sorted: &mut Vec<Chunk>, c: Chunk)
    ensures
        chunks_view(final(sorted)@) == insert_chunk(chunks_view(old(sorted)@), c@),
{
    let mut p: usize = sorted.len();
    let ghost s0 = chunks_view(sorted@);
    while p > 0 && sorted[p - 1].index > c.index
        invariant
            p <= sorted@.len(),
            s0 == chunks_view(sorted@),
            forall|j: int| p <= j < s0.len() ==> (#[trigger] s0[j]).index > c.index,
        decreases p,
    {
        p = p - 1;
    }
    proof {
        lemma_insert_position(s0, c@, p as int);
    }
    let ghost before = sorted@;
    sorted.insert(p, c);
    assert(chunks_view(sorted@) =~= s0.insert(p as int, c@));
}

fn assemble(chunks: Vec<Chunk>) -> (r: Entries)
    ensures
        state_manager::pairs_view(r@) == concat_entries(sort_chunks(chunks_view(chunks@))),
{
    let ghost all = chunks_view(chunks@);
    let mut chunks = chunks;
    let mut sorted: Vec<Chunk> = Vec::new();
    let ghost mut i: int = 0;
    assert(all.take(0) =~= Seq::empty());
    assert(chunks_view(sorted@) =~= Seq::empty());
    assert(all.skip(0) =~= all);
    while chunks.len() > 0
        invariant
            0 <= i <= all.len(),
            chunks_view(chunks@) == all.skip(i),
            chunks_view(sorted@) == sort_chunks(all.take(i)),
        decreases chunks@.len(),
    {
        assert(chunks_view(chunks@).len() > 0);
        let ghost c0 = chunks@;
        let c = chunks.remove(0);
        assert(chunks@ =~= c0.skip(1));
        assert(c@ == all.skip(i)[0]);
        assert(chunks_view(chunks@) =~= chunks_view(c0).skip(1));
        assert(all.skip(i).skip(1) =~= all.skip(i + 1));
        assert(all.take(i + 1).drop_last() =~= all.take(i));
        insert_sorted(&mut sorted, c);
        proof {
            i = i + 1;
        }
    }
    assert(all.take(i) =~= all);
    let ghost order = chunks_view(sorted@);
    let mut out: Entries = Vec::new();
    let ghost mut k: int = 0;
    assert(order.take(0) =~= Seq::empty());
    assert(order.skip(0) =~= order);
    assert(state_manager::pairs_view(out@) =~= Seq::empty());
    while sorted.len() > 0
        invariant
            0 <= k <= order.len(),
            chunks_view(sorted@) == order.skip(k),
            state_manager::pairs_view(out@) == concat_entries(order.take(k)),
        decreases sorted@.len(),
    {
        assert(chunks_view(sorted@).len() > 0);
        let ghost s0 = sorted@;
        let mut c = sorted.remove(0);
        assert(sorted@ =~= s0.skip(1));
        assert(c@ == order.skip(k)[0]);
        assert(chunks_view(sorted@) =~= chunks_view(s0).skip(1));
        assert(order.skip(k).skip(1) =~= order.skip(k + 1));
        assert(order.take(k + 1).drop_last() =~= order.take(k));
        let ghost o0 = out@;
        let ghost e0 = c.entries@;
        out.append(&mut c.entries);
        assert(state_manager::pairs_view(out@) =~= state_manager::pairs_view(o0)
            + state_manager::pairs_view(e0));
        proof {
            k = k + 1;
        }
    }
    assert(order.take(k) =~= order);
    out
}

impl View for ChainSync {
    type V = SyncModel;

    closed spec fn view(&self) -> SyncModel {
        SyncModel {
            manager: self.manager,
            pending: self.pending@.to_set(),
            initial_sync_done: self.initial_sync_done,
            chunks: chunks_view(self.snapshot_chunks@),
            expected_root: self.snapshot_expected_root,
            total_chunks: self.snapshot_total_chunks,
            head_slot: self.snapshot_head_slot,
            retries: self.snapshot_retry_count,
        }
    }
}

/// The coordinator once a download starts over.
pub open spec fn restarted(m: SyncModel) -> SyncModel {
    SyncModel { chunks: Seq::empty(), expected_root: None, total_chunks: 0, ..m }
}

/// Whether the next request should be for a snapshot: a fresh node, far behind,
/// with no download under way.
pub open spec fn prefers_snapshot(m: SyncModel) -> bool {
    &&& !m.initial_sync_done
    &&& m.chunks.len() == 0
    &&& m.expected_root is None
    &&& m.manager.distance() > ChainSync::SNAPSHOT_THRESHOLD
}

/// The coordinator and the request, if any, when the next batch is due;
/// `next_blocks` is the range of blocks that comes next.
pub open spec fn next_batch(
    m: SyncModel,
    has_peer: bool,
    next_blocks: Option<(u64, u32)>,
) -> (SyncModel, Option<SyncReq>) {
    if !m.manager.behind() || m.pending != Set::<u64>::empty() || !has_peer {
        (m, None)
    } else if prefers_snapshot(m) {
        (
            restarted(m),
            Some(
                SyncReq::GetStateSnapshotChunk {
                    chunk_index: 0,
                    chunk_size: SNAPSHOT_CHUNK_SIZE,
                },
            ),
        )
    } else {
        match next_blocks {
            Some(b) => (m, Some(SyncReq::GetBlocks { start_slot: b.0, count: b.1 })),
            None => (m, None),
        }
    }
}

/// The coordinator after a snapshot was imported with the root `imported`.
pub open spec fn after_import(
    m: SyncModel,
    state_root: Key,
    head_slot: u64,
    imported: Option<Key>,
) -> SyncModel {
    if imported == Some(state_root) {
        SyncModel {
            manager: SyncManager {
                local_tip: max_slot(m.manager.local_tip, head_slot),
                ..m.manager
            },
            initial_sync_done: true,
            ..m
        }
    } else {
        m
    }
}

impl ChainSync {
    /// Beyond how many missing slots a fresh node asks for a snapshot.
    pub const SNAPSHOT_THRESHOLD: u64 = 1000;

    /// No request is outstanding twice; retries and chunks stay within bounds.
    pub closed spec fn wf(&self) -> bool {
        &&& self.pending@.no_duplicates()
        &&& self.snapshot_retry_count <= CHUNK_MAX_RETRIES
        &&& self.snapshot_chunks@.len() < u32::MAX
    }

    /// Nothing known, nothing asked for.
    pub fn new() -> (s: Self)
        ensures
            s.wf(),
            s@ == (SyncModel {
                manager: SyncManager { local_tip: 0, network_tip: 0 },
                pending: Set::empty(),
                initial_sync_done: false,
                chunks: Seq::empty(),
                expected_root: None,
                total_chunks: 0,
                head_slot: 0,
                retries: 0,
            }),
    {
        let s = ChainSync {
            manager: SyncManager::new(),
            pending: Vec::new(),
            initial_sync_done: false,
            snapshot_chunks: Vec::new(),
            snapshot_expected_root: None,
            snapshot_total_chunks: 0,
            snapshot_head_slot: 0,
            snapshot_retry_count: 0,
        };
        assert(s@.pending =~= Set::empty());
        assert(s@.chunks =~= Seq::empty());
        s
    }

    /// A peer is at `tip_slot`.
    pub fn on_peer_tip(&mut self, tip_slot: u64)
        requires
            old(self).wf(),
        ensures
            final(self).wf(),
            final(self)@ == (SyncModel {
                manager: SyncManager {
                    network_tip: max_slot(old(self)@.manager.network_tip, tip_slot),
                    ..old(self)@.manager
                },
                ..old(self)@
            }),
    {
        self.manager.update_network_tip(tip_slot);
    }

    /// Starts out from a chain that is at `slot`.
    pub fn resume_at(&mut self, slot: u64)
        requires
            old(self).wf(),
        ensures
            final(self).wf(),
            final(self)@ == (SyncModel {
                manager: SyncManager { local_tip: slot, ..old(self)@.manager },
                ..old(self)@
            }),
    {
        self.manager.local_tip = slot;
    }

    /// A block was executed: the local tip moves, and the first sync is complete
    /// once it has caught up.
    pub fn on_block_processed(&mut self, slot: u64)
        requires
            old(self).wf(),
        ensures
            final(self).wf(),
            ({
                let manager = SyncManager {
                    local_tip: max_slot(old(self)@.manager.local_tip, slot),
                    ..old(self)@.manager
                };
                final(self)@ == (SyncModel {
                    manager,
                    initial_sync_done: old(self)@.initial_sync_done || !manager.behind(),
                    ..old(self)@
                })
            }),
    {
        self.manager.advance_local_tip(slot);
        if !self.manager.needs_sync() && !self.initial_sync_done {
            self.initial_sync_done = true;
        }
    }

    /// Whether the next request should be for a snapshot.
    pub fn should_use_snapshot_sync(&self) -> (r: bool)
        ensures
            r == prefers_snapshot(self@),
    {
        !self.initial_sync_done && self.snapshot_chunks.len() == 0
            && self.snapshot_expected_root.is_none() && self.manager.slots_behind()
            > Self::SNAPSHOT_THRESHOLD
    }

    /// The request for the next batch, if one is due: `has_peer` says whether
    /// anybody can be asked, `next_blocks` which blocks come next.
    pub fn request_next_batch(&mut self, has_peer: bool, next_blocks: Option<(u64, u32)>) -> (r:
        Option<SyncReq>)
        requires
            old(self).wf(),
        ensures
            final(self).wf(),
            (final(self)@, r) == next_batch(old(self)@, has_peer, next_blocks),
    {
        proof {
            if self.pending@.len() > 0 {
                assert(self@.pending.contains(self.pending@[0]));
            } else {
                assert(self@.pending =~= Set::empty());
            }
        }
        if !self.manager.needs_sync() {
            return None;
        }
        if self.pending.len() > 0 {
            return None;
        }
        if self.should_use_snapshot_sync() {
            return self.request_state_snapshot(has_peer);
        }
        if !has_peer {
            return None;
        }
        match next_blocks {
            Some(b) => Some(SyncReq::GetBlocks { start_slot: b.0, count: b.1 }),
            None => None,
        }
    }

    /// The request for a peer's tip.
    pub fn request_chain_tip() -> (r: SyncReq)
        ensures
            r == SyncReq::GetChainTip,
    {
        SyncReq::GetChainTip
    }

    /// The request for the first chunk of a snapshot. What an earlier download
    /// left is dropped.
    pub fn request_state_snapshot(&mut self, has_peer: bool) -> (r: Option<SyncReq>)
        requires
            old(self).wf(),
        ensures
            final(self).wf(),
            !has_peer ==> r is None && final(self)@ == old(self)@,
            has_peer ==> final(self)@ == restarted(old(self)@) && r == Some(
                SyncReq::GetStateSnapshotChunk {
                    chunk_index: 0,
                    chunk_size: SNAPSHOT_CHUNK_SIZE,
                },
            ),
    {
        if !has_peer {
            return None;
        }
        self.snapshot_chunks.clear();
        self.snapshot_expected_root = None;
        self.snapshot_total_chunks = 0;
        assert(self@.chunks =~= Seq::empty());
        Some(SyncReq::GetStateSnapshotChunk { chunk_index: 0, chunk_size: SNAPSHOT_CHUNK_SIZE })
    }

    /// The request for the chunk `next_index`.
    pub fn request_next_chunk(next_index: u32) -> (r: SyncReq)
        ensures
            r == (SyncReq::GetStateSnapshotChunk {
                chunk_index: next_index,
                chunk_size: SNAPSHOT_CHUNK_SIZE,
            }),
    {
        SyncReq::GetStateSnapshotChunk { chunk_index: next_index, chunk_size: SNAPSHOT_CHUNK_SIZE }
    }

    /// A request went out under the number `request_id`.
    pub fn on_request_sent(&mut self, request_id: u64)
        requires
            old(self).wf(),
        ensures
            final(self).wf(),
            final(self)@ == (SyncModel {
                pending: old(self)@.pending.insert(request_id),
                ..old(self)@
            }),
    {
        let ghost p0 = self.pending@;
        let mut i: usize = 0;
        while i < self.pending.len()
            invariant
                i <= self.pending@.len(),
                *self == *old(self),
                self.wf(),
                p0 == self.pending@,
                forall|j: int| 0 <= j < i ==> #[trigger] p0[j] != request_id,
            decreases self.pending@.len() - i,
        {
            if self.pending[i] == request_id {
                assert(p0.contains(request_id));
                assert(self@.pending =~= old(self)@.pending.insert(request_id));
                return ;
            }
            i = i + 1;
        }
        self.pending.push(request_id);
        assert forall|x: u64|
            self.pending@.contains(x) == (#[trigger] p0.contains(x) || x == request_id) by {
            if p0.contains(x) {
                let j = choose|j: int| 0 <= j < p0.len() && p0[j] == x;
                assert(self.pending@[j] == x);
            }
            assert(self.pending@[p0.len() as int] == request_id);
        }
        assert(!p0.contains(request_id));
        assert(self@.pending =~= old(self)@.pending.insert(request_id));
    }

    fn forget(&mut self, request_id: u64)
        requires
            old(self).wf(),
        ensures
            final(self).wf(),
            final(self)@ == (SyncModel {
                pending: old(self)@.pending.remove(request_id),
                ..old(self)@
            }),
    {
        let ghost p0 = self.pending@;
        let mut i: usize = 0;
        while i < self.pending.len()
            invariant
                i <= self.pending@.len(),
                *self == *old(self),
                self.wf(),
                p0 == self.pending@,
                p0.no_duplicates(),
                forall|j: int| 0 <= j < i ==> #[trigger] p0[j] != request_id,
            decreases self.pending@.len() - i,
        {
            if self.pending[i] == request_id {
                self.pending.remove(i);
                assert(self.pending@ =~= p0.remove(i as int));
                assert forall|x: u64|
                    self.pending@.contains(x) == (p0.contains(x) && x != request_id) by {
                    if p0.contains(x) && x != request_id {
                        let j = choose|j: int| 0 <= j < p0.len() && p0[j] == x;
                        let j2 = if j < i { j } else { j - 1 };
                        assert(self.pending@[j2] == x);
                    }
                    if self.pending@.contains(x) {
                        let j2 = choose|j: int|
                            0 <= j < self.pending@.len() && self.pending@[j] == x;
                        let j = if j2 < i { j2 } else { j2 + 1 };
                        assert(p0[j] == x);
                        assert(p0[i as int] == request_id);
                    }
                }
                assert(self@.pending =~= old(self)@.pending.remove(request_id));
                return ;
            }
            i = i + 1;
        }
        assert(!p0.contains(request_id));
        assert(self@.pending =~= old(self)@.pending.remove(request_id));
    }

    /// Whether a snapshot may be taken, given the weak-subjectivity checkpoint.
    pub fn check_snapshot_ws_anchor(
        head_slot: u64,
        state_root: &Key,
        ws_checkpoint: Option<(u64, Key)>,
    ) -> (r: Result<(), &'static str>)
        ensures
            match r {
                Ok(_) => ws_violation(head_slot, *state_root, ws_checkpoint) is None,
                Err(e) => ws_violation(head_slot, *state_root, ws_checkpoint) == Some(e@),
            },
    {
        if let Some(cp) = ws_checkpoint {
            if head_slot < cp.0 {
                return Err("snapshot head_slot is before WS checkpoint");
            }
            if head_slot == cp.0 && !key_eq(state_root, &cp.1) {
                return Err("snapshot state_root at WS checkpoint slot does not match");
            }
        }
        Ok(())
    }

    fn abort_download(&mut self)
        requires
            old(self).wf(),
        ensures
            final(self).wf(),
            final(self)@ == aborted(old(self)@),
    {
        self.snapshot_chunks.clear();
        self.snapshot_expected_root = None;
        self.snapshot_total_chunks = 0;
        self.snapshot_retry_count = 0;
        assert(self@.chunks =~= Seq::empty());
    }

    /// Takes a peer's answer to the request `request_id`, and says what is left
    /// to do. `computed` is the hash of the `chunk_hash_input` of a snapshot
    /// chunk, and is not looked at for other answers.
    pub fn on_response(
        &mut self,
        request_id: u64,
        response: SyncResp,
        computed: Key,
        ws_checkpoint: Option<(u64, Key)>,
    ) -> (r: SyncAction)
        requires
            old(self).wf(),
        ensures
            final(self).wf(),
            (final(self)@, r@) == after_response(
                SyncModel { pending: old(self)@.pending.remove(request_id), ..old(self)@ },
                response,
                computed,
                ws_checkpoint,
            ),
    {
        self.forget(request_id);
        match response {
            SyncResp::ChainTip { slot, block_hash } => {
                self.manager.update_network_tip(slot);
                SyncAction::Nothing
            },
            SyncResp::Blocks(data) => SyncAction::ProcessBlocks(data),
            SyncResp::Headers(_) => SyncAction::Nothing,
            SyncResp::StateSnapshot { state_root, head_slot, entries } => {
                if Self::check_snapshot_ws_anchor(head_slot, &state_root, ws_checkpoint).is_err() {
                    return SyncAction::Nothing;
                }
                SyncAction::ImportSnapshot { entries, state_root, head_slot }
            },
            SyncResp::StateSnapshotChunk {
                state_root,
                head_slot,
                chunk_index,
                total_chunks,
                chunk_hash,
                entries,
            } => {
                if Self::check_snapshot_ws_anchor(head_slot, &state_root, ws_checkpoint).is_err() {
                    self.abort_download();
                    return SyncAction::Nothing;
                }
                if !key_eq(&computed, &chunk_hash) {
                    self.snapshot_retry_count = self.snapshot_retry_count + 1;
                    if self.snapshot_retry_count > CHUNK_MAX_RETRIES {
                        self.snapshot_retry_count = 0;
                        self.abort_download();
                    }
                    return SyncAction::Nothing;
                }
                self.snapshot_retry_count = 0;
                if self.snapshot_expected_root.is_none() {
                    self.snapshot_expected_root = Some(state_root);
                    self.snapshot_total_chunks = total_chunks;
                    self.snapshot_head_slot = head_slot;
                }
                let ghost c0 = self.snapshot_chunks@;
                self.snapshot_chunks.push(
                    Chunk { index: chunk_index, entries, hash: chunk_hash },
                );
                assert(chunks_view(self.snapshot_chunks@) =~= chunks_view(c0).push(
                    self.snapshot_chunks@.last()@,
                ));
                if self.snapshot_chunks.len() as u32 >= total_chunks {
                    let mut chunks: Vec<Chunk> = Vec::new();
                    std::mem::swap(&mut chunks, &mut self.snapshot_chunks);
                    let entries = assemble(chunks);
                    let root = match self.snapshot_expected_root {
                        Some(r) => r,
                        None => state_root,
                    };
                    self.snapshot_expected_root = None;
                    self.snapshot_total_chunks = 0;
                    assert(self@.chunks =~= Seq::empty());
                    return SyncAction::ImportSnapshot {
                        entries,
                        state_root: root,
                        head_slot: self.snapshot_head_slot,
                    };
                }
                SyncAction::Nothing
            },
            SyncResp::NotFound => {
                if self.snapshot_total_chunks > 0 {
                    self.abort_download();
                }
                SyncAction::Nothing
            },
        }
    }

    /// Takes over what became of a batch of synced blocks, up to the first that
    /// was rejected, and counts those that were applied.
    pub fn on_blocks(&mut self, outcomes: &Vec<BlockOutcome>) -> (n: u64)
        requires
            old(self).wf(),
            outcomes@.len() <= u64::MAX,
        ensures
            final(self).wf(),
            n == applied_prefix(outcomes@),
            final(self)@ == (SyncModel {
                manager: SyncManager {
                    local_tip: tip_after(old(self)@.manager.local_tip, outcomes@),
                    ..old(self)@.manager
                },
                ..old(self)@
            }),
    {
        let mut n: u64 = 0;
        let mut i: usize = 0;
        let ghost all = outcomes@;
        let ghost tip0 = self.manager.local_tip;
        assert(all.skip(0) =~= all);
        while i < outcomes.len()
            invariant
                self.wf(),
                all == outcomes@,
                all.len() <= u64::MAX,
                i <= all.len(),
                n == i,
                self@ == (SyncModel { manager: self.manager, ..old(self)@ }),
                self.manager.network_tip == old(self)@.manager.network_tip,
                applied_prefix(all) == n + applied_prefix(all.skip(i as int)),
                tip_after(old(self)@.manager.local_tip, all) == tip_after(
                    self.manager.local_tip,
                    all.skip(i as int),
                ),
            decreases all.len() - i,
        {
            assert(all.skip(i as int)[0] == all[i as int]);
            assert(all.skip(i as int).skip(1) =~= all.skip(i + 1));
            match outcomes[i] {
                BlockOutcome::Applied { slot } => {
                    self.manager.advance_local_tip(slot);
                },
                BlockOutcome::HeaderApplied { head_slot } => {
                    self.manager.advance_local_tip(head_slot);
                },
                BlockOutcome::Rejected => {
                    return n;
                },
            }
            n = n + 1;
            i = i + 1;
        }
        n
    }

    /// Takes over the result of importing a snapshot that announced
    /// `state_root`: only an import with that very root counts.
    pub fn on_snapshot_imported(
        &mut self,
        state_root: Key,
        head_slot: u64,
        imported: &Result<Key, String>,
    )
        requires
            old(self).wf(),
        ensures
            final(self).wf(),
            final(self)@ == after_import(
                old(self)@,
                state_root,
                head_slot,
                match *imported {
                    Ok(r) => Some(r),
                    Err(_) => None,
                },
            ),
    {
        if let Ok(root) = imported {
            if key_eq(root, &state_root) {
                self.manager.advance_local_tip(head_slot);
                self.initial_sync_done = true;
            }
        }
    }

    /// Whether the network is ahead.
    pub fn is_syncing(&self) -> (r: bool)
        ensures
            r == self@.manager.behind(),
    {
        self.manager.needs_sync()
    }

    /// The chunk to ask for next, while a snapshot download is under way.
    pub fn needs_next_chunk(&self) -> (r: Option<u32>)
        requires
            self.wf(),
        ensures
            r == (if self@.total_chunks > 0 && self@.chunks.len() < self@.total_chunks {
                Some(self@.chunks.len() as u32)
            } else {
                None
            }),
    {
        if self.snapshot_total_chunks == 0 {
            return None;
        }
        let collected: u32 = self.snapshot_chunks.len() as u32;
        if collected < self.snapshot_total_chunks {
            Some(collected)
        } else {
            None
        }
    }
}

} // verus!
