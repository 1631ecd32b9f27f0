//! The write-ahead cache over the state tree, and the undo logs that let a
//! block be taken back.
//!
//! The tree itself lives outside: every operation that reads or writes it takes
//! the tree's answer as an argument and says which writes that answer is for.
use std::collections::VecDeque;

use vstd::prelude::*;

use crate::keymap;
use crate::keymap::{key_bytes, key_from_slice, zero_key, Key, KeyMap};
use crate::text;
use crate::text::{copy_bytes, join, push_decimal};

verus! {

/// How many recent blocks can be taken back.
pub const MAX_UNDO_DEPTH: usize = 128;

/// Why the tree did not answer.
#[derive(Debug)]
pub enum TreeError {
    /// The tree's lock is poisoned.
    Poisoned(String),
    /// The tree refused the operation.
    Failed(String),
}

/// What the tree answers to a batch of writes: its root after them.
pub type TreeReply = Result<Key, TreeError>;

/// A key and the value that it had before a block, `None` where it had none.
pub struct UndoEntry {
    pub key: Key,
    pub old_value: Option<Vec<u8>>,
}

impl View for UndoEntry {
    type V = (Key, Option<Seq<u8>>);

    open spec fn view(&self) -> (Key, Option<Seq<u8>>) {
        (self.key, text::opt_bytes(self.old_value))
    }
}

/// A block's slot and what the block overwrote.
pub type UndoLog = (u64, Seq<(Key, Option<Seq<u8>>)>);

/// What a state manager holds.
#[verifier::ext_equal]
pub struct StateModel {
    /// Recent values; an empty value stands for a deleted key.
    pub cache: Map<Key, Seq<u8>>,
    /// The root of the tree after the last write that it answered.
    pub root: Key,
    /// Every key written so far, in the order of the first write.
    pub known: Seq<Key>,
    /// Writes that the tree has not been given yet.
    pub pending: Seq<(Key, Seq<u8>)>,
    /// What the recent blocks overwrote, oldest first.
    pub undo: Seq<UndoLog>,
}

/// A list of writes by its view.
pub open spec fn writes_view(w: Seq<(Key, Vec<u8>)>) -> Seq<(Key, Seq<u8>)> {
    w.map_values(|e: (Key, Vec<u8>)| (e.0, e.1@))
}

/// A list of byte-string pairs by its view.
pub open spec fn pairs_view(w: Seq<(Vec<u8>, Vec<u8>)>) -> Seq<(Seq<u8>, Seq<u8>)> {
    w.map_values(|e: (Vec<u8>, Vec<u8>)| (e.0@, e.1@))
}

/// An undo log by its view.
pub open spec fn undo_view(entries: Seq<UndoEntry>) -> Seq<(Key, Option<Seq<u8>>)> {
    entries.map_values(|e: UndoEntry| e@)
}

/// What a reader sees under `key`: the cached value, or else what the tree holds.
pub open spec fn visible(
    cache: Map<Key, Seq<u8>>,
    key: Key,
    committed: Option<Seq<u8>>,
) -> Option<Seq<u8>> {
    if cache.contains_key(key) {
        if cache[key].len() == 0 {
            None
        } else {
            Some(cache[key])
        }
    } else {
        committed
    }
}

/// A cache after deferred writes: the last value written to each key.
pub open spec fn overlay(cache: Map<Key, Seq<u8>>, writes: Seq<(Key, Seq<u8>)>) -> Map<
    Key,
    Seq<u8>,
>
    decreases writes.len(),
{
    if writes.len() == 0 {
        cache
    } else {
        overlay(cache, writes.drop_last()).insert(writes.last().0, writes.last().1)
    }
}

/// A map after writes of which an empty value deletes the key.
pub open spec fn apply_writes(m: Map<Key, Seq<u8>>, writes: Seq<(Key, Seq<u8>)>) -> Map<
    Key,
    Seq<u8>,
>
    decreases writes.len(),
{
    if writes.len() == 0 {
        m
    } else {
        let before = apply_writes(m, writes.drop_last());
        if writes.last().1.len() == 0 {
            before.remove(writes.last().0)
        } else {
            before.insert(writes.last().0, writes.last().1)
        }
    }
}

/// The known keys after writes to the keys of `writes`.
pub open spec fn with_keys(known: Seq<Key>, writes: Seq<(Key, Seq<u8>)>) -> Seq<Key>
    decreases writes.len(),
{
    if writes.len() == 0 {
        known
    } else {
        let before = with_keys(known, writes.drop_last());
        if before.contains(writes.last().0) {
            before
        } else {
            before.push(writes.last().0)
        }
    }
}

/// The writes that put back what a block overwrote.
pub open spec fn restore_writes(log: Seq<(Key, Option<Seq<u8>>)>) -> Seq<(Key, Seq<u8>)> {
    log.map_values(
        |e: (Key, Option<Seq<u8>>)|
            (
                e.0,
                match e.1 {
                    Some(v) => v,
                    None => Seq::<u8>::empty(),
                },
            ),
    )
}

/// What goes back to the caller when the tree did not answer.
pub open spec fn tree_error_text(e: TreeError, failure: Seq<char>) -> Seq<char> {
    match e {
        TreeError::Poisoned(t) => "smt lock: "@ + t@,
        TreeError::Failed(t) => failure + t@,
    }
}

/// The result of an operation that ends with the tree's answer.
pub open spec fn tree_result<T>(reply: Result<T, TreeError>, failure: Seq<char>) -> Result<
    T,
    Seq<char>,
> {
    match reply {
        Ok(v) => Ok(v),
        Err(e) => Err(tree_error_text(e, failure)),
    }
}

/// The root after the tree's answer: unchanged where it failed.
pub open spec fn root_after(root: Key, reply: TreeReply) -> Key {
    match reply {
        Ok(r) => r,
        Err(_) => root,
    }
}

/// The undo logs after one more block: the newest `MAX_UNDO_DEPTH` of them.
pub open spec fn push_bounded(undo: Seq<UndoLog>, log: UndoLog) -> Seq<UndoLog> {
    let all = undo.push(log);
    if all.len() > MAX_UNDO_DEPTH {
        all.skip(all.len() - MAX_UNDO_DEPTH)
    } else {
        all
    }
}

/// How many of the newest logs belong to slots above `target`.
pub open spec fn logs_above(undo: Seq<UndoLog>, target: u64) -> nat
    decreases undo.len(),
{
    if undo.len() == 0 || undo.last().0 <= target {
        0
    } else {
        1 + logs_above(undo.drop_last(), target)
    }
}

/// The batches that a revert to `target` sends to the tree, newest block first;
/// a block that overwrote nothing sends none.
pub open spec fn revert_batches(undo: Seq<UndoLog>, target: u64) -> Seq<Seq<(Key, Seq<u8>)>>
    decreases undo.len(),
{
    if undo.len() == 0 || undo.last().0 <= target {
        Seq::empty()
    } else if undo.last().1.len() == 0 {
        revert_batches(undo.drop_last(), target)
    } else {
        seq![restore_writes(undo.last().1)] + revert_batches(undo.drop_last(), target)
    }
}

/// The refusal of a revert below the oldest log.
pub open spec fn below_oldest_text(target: u64, oldest: u64) -> Seq<char> {
    "revert target "@ + text::decimal(target as nat) + " is below oldest undo log at slot "@
        + text::decimal(oldest as nat)
}

/// Whether a revert to `target` would have to go below the oldest log.
pub open spec fn below_oldest(undo: Seq<UndoLog>, target: u64) -> bool {
    undo.len() > 0 && target + 1 < undo[0].0
}

/// A state manager after a revert, and what the revert returned.
pub struct Reverted {
    pub state: StateModel,
    pub result: Result<nat, Seq<char>>,
}

/// Takes back the blocks above `target`, newest first, with `replies` as the
/// tree's answers to the batches; `done` blocks are already taken back.
///
/// A batch without an answer, or one whose lock was poisoned, leaves the root
/// as it is. A batch that the tree refused ends the revert.
pub open spec fn revert_from(
    s: StateModel,
    target: u64,
    replies: Seq<TreeReply>,
    done: nat,
) -> Reverted
    decreases s.undo.len(),
{
    if s.undo.len() == 0 || s.undo.last().0 <= target {
        Reverted { state: s, result: Ok(done) }
    } else {
        let writes = restore_writes(s.undo.last().1);
        let popped = StateModel {
            cache: apply_writes(s.cache, writes),
            undo: s.undo.drop_last(),
            ..s
        };
        if writes.len() == 0 {
            revert_from(popped, target, replies, done + 1)
        } else if replies.len() == 0 {
            revert_from(popped, target, replies, done + 1)
        } else {
            match replies[0] {
                Ok(r) => revert_from(
                    StateModel { root: r, ..popped },
                    target,
                    replies.skip(1),
                    done + 1,
                ),
                Err(TreeError::Poisoned(_)) => revert_from(
                    popped,
                    target,
                    replies.skip(1),
                    done + 1,
                ),
                Err(TreeError::Failed(e)) => Reverted {
                    state: popped,
                    result: Err("revert SMT update failed: "@ + e@),
                },
            }
        }
    }
}

/// The key that a snapshot entry is filed under: zero where it is not 32 bytes.
pub open spec fn snapshot_key(bytes: Seq<u8>) -> Key {
    match keymap::key_of(bytes) {
        Some(k) => k,
        None => keymap::zeros(),
    }
}

/// The tree writes that a snapshot stands for.
pub open spec fn snapshot_writes_of(entries: Seq<(Seq<u8>, Seq<u8>)>) -> Seq<(Key, Seq<u8>)> {
    entries.map_values(|e: (Seq<u8>, Seq<u8>)| (snapshot_key(e.0), e.1))
}

/// The snapshot of the first `n` known keys: each that has a value, with it.
pub open spec fn exported(keys: Seq<Key>, values: Seq<Option<Seq<u8>>>, n: nat) -> Seq<
    (Seq<u8>, Seq<u8>),
>
    decreases n,
{
    if n == 0 {
        Seq::empty()
    } else {
        let before = exported(keys, values, (n - 1) as nat);
        match values[n - 1] {
            Some(v) => before.push((keys[n - 1]@, v)),
            None => before,
        }
    }
}

/// Values by their views.
pub open spec fn values_view(values: Seq<Option<Vec<u8>>>) -> Seq<Option<Seq<u8>>> {
    values.map_values(|v: Option<Vec<u8>>| text::opt_bytes(v))
}

fn tree_error(e: TreeError, failure: &str) -> (s: String)
    ensures
        s@ == tree_error_text(e, failure@),
{
    match e {
        TreeError::Poisoned(t) => join("smt lock: ", t.as_str()),
        TreeError::Failed(t) => join(failure, t.as_str()),
    }
}

fn copy_value(v: &Option<Vec<u8>>) -> (r: Vec<u8>)
    ensures
        r@ == match text::opt_bytes(*v) {
            Some(b) => b,
            None => Seq::<u8>::empty(),
        },
{
    match v {
        Some(b) => copy_bytes(b),
        None => Vec::new(),
    }
}

fn undo_batch(entries: &Vec<UndoEntry>) -> (w: Vec<(Key, Vec<u8>)>)
    ensures
        writes_view(w@) == restore_writes(undo_view(entries@)),
{
    let mut w: Vec<(Key, Vec<u8>)> = Vec::new();
    let mut i: usize = 0;
    assert(writes_view(w@) =~= Seq::empty());
    while i < entries.len()
        invariant
            i <= entries@.len(),
            writes_view(w@) == restore_writes(undo_view(entries@)).take(i as int),
        decreases entries@.len() - i,
    {
        let e = &entries[i];
        let ghost w0 = w@;
        w.push((e.key, copy_value(&e.old_value)));
        assert(undo_view(entries@)[i as int] == entries@[i as int]@);
        i = i + 1;
        assert(writes_view(w@) =~= writes_view(w0).push(writes_view(w@).last()));
        assert(writes_view(w@) =~= restore_writes(undo_view(entries@)).take(i as int));
    }
    assert(writes_view(w@) =~= restore_writes(undo_view(entries@)));
    w
}

/// The tree writes that a snapshot stands for.
pub fn snapshot_writes(entries: &Vec<(Vec<u8>, Vec<u8>)>) -> (w: Vec<(Key, Vec<u8>)>)
    ensures
        writes_view(w@) == snapshot_writes_of(pairs_view(entries@)),
{
    let mut w: Vec<(Key, Vec<u8>)> = Vec::new();
    let mut i: usize = 0;
    assert(writes_view(w@) =~= Seq::empty());
    while i < entries.len()
        invariant
            i <= entries@.len(),
            writes_view(w@) == snapshot_writes_of(pairs_view(entries@)).take(i as int),
        decreases entries@.len() - i,
    {
        let e = &entries[i];
        let key: Key = match key_from_slice(e.0.as_slice()) {
            Some(k) => k,
            None => zero_key(),
        };
        let ghost w0 = w@;
        w.push((key, copy_bytes(&e.1)));
        assert(pairs_view(entries@)[i as int] == (e.0@, e.1@));
        i = i + 1;
        assert(writes_view(w@) =~= writes_view(w0).push(writes_view(w@).last()));
        assert(writes_view(w@) =~= snapshot_writes_of(pairs_view(entries@)).take(i as int));
    }
    assert(writes_view(w@) =~= snapshot_writes_of(pairs_view(entries@)));
    w
}

/// Write-ahead cache, known keys, pending writes and undo logs of the state.
pub struct StateManager {
    cache: KeyMap<Vec<u8>>,
    root: Key,
    known_keys: KeyMap<()>,
    pending_writes: Vec<(Key, Vec<u8>)>,
    block_undo_logs: VecDeque<(u64, Vec<UndoEntry>)>,
}

/// The cache and the root of the tree at one moment; later writes and commits do
/// not reach them.
pub struct StateSnapshot {
    cache: KeyMap<Vec<u8>>,
    root: Key,
}

/// What a snapshot holds.
#[verifier::ext_equal]
pub struct SnapshotModel {
    /// The cache at the time of the snapshot.
    pub cache: Map<Key, Seq<u8>>,
    /// The root of the tree at the time of the snapshot.
    pub root: Key,
}

impl View for StateManager {
    type V = StateModel;

    closed spec fn view(&self) -> StateModel {
        StateModel {
            cache: self.cache@,
            root: self.root,
            known: self.known_keys.keys(),
            pending: writes_view(self.pending_writes@),
            undo: self.block_undo_logs@.map_values(
                |l: (u64, Vec<UndoEntry>)| (l.0, undo_view(l.1@)),
            ),
        }
    }
}

impl View for StateSnapshot {
    type V = SnapshotModel;

    closed spec fn view(&self) -> SnapshotModel {
        SnapshotModel { cache: self.cache@, root: self.root }
    }
}

fn read_cache(cache: &KeyMap<Vec<u8>>, key: &Key, committed: Option<Vec<u8>>) -> (r: Option<
    Vec<u8>,
>)
    requires
        cache.wf(),
    ensures
        text::opt_bytes(r) == visible(cache@, *key, text::opt_bytes(committed)),
{
    match cache.get(key) {
        Some(v) => if v.len() == 0 {
            None
        } else {
            Some(copy_bytes(v))
        },
        None => committed,
    }
}

fn restore_cache(cache: &mut KeyMap<Vec<u8>>, writes: &Vec<(Key, Vec<u8>)>)
    requires
        old(cache).wf(),
    ensures
        final(cache).wf(),
        final(cache)@ == apply_writes(old(cache)@, writes_view(writes@)),
{
    let mut i: usize = 0;
    let ghost all = writes_view(writes@);
    let ghost m0 = cache@;
    assert(all.take(0) =~= Seq::empty());
    while i < writes.len()
        invariant
            i <= writes@.len(),
            cache.wf(),
            all == writes_view(writes@),
            cache@ == apply_writes(m0, all.take(i as int)),
        decreases writes@.len() - i,
    {
        let w = &writes[i];
        assert(all.take(i + 1).drop_last() =~= all.take(i as int));
        assert(all.take(i + 1).last() == (w.0, w.1@));
        if w.1.len() == 0 {
            cache.remove(&w.0);
        } else {
            cache.insert(w.0, copy_bytes(&w.1));
        }
        i = i + 1;
    }
    assert(all.take(i as int) =~= all);
}

impl StateSnapshot {
    /// The snapshot's invariant.
    pub closed spec fn wf(&self) -> bool {
        self.cache.wf()
    }

    /// The root of the tree at the time of the snapshot.
    pub fn root(&self) -> (r: Key)
        ensures
            r == self@.root,
    {
        self.root
    }

    /// Whether `get` answers from the cache alone, so that the tree need not be
    /// asked.
    pub fn is_cached(&self, key: &Key) -> (r: bool)
        requires
            self.wf(),
        ensures
            r == self@.cache.contains_key(*key),
    {
        self.cache.contains_key(key)
    }

    /// What the snapshot shows under `key`, where the tree at the snapshot's root
    /// holds `committed`, whatever it has become since.
    pub fn get(&self, key: &Key, committed: Option<Vec<u8>>) -> (r: Option<Vec<u8>>)
        requires
            self.wf(),
        ensures
            text::opt_bytes(r) == visible(self@.cache, *key, text::opt_bytes(committed)),
    {
        read_cache(&self.cache, key, committed)
    }
}

impl StateManager {
    /// No key is cached or known twice, and at most `MAX_UNDO_DEPTH` blocks can
    /// be taken back.
    pub closed spec fn wf(&self) -> bool {
        &&& self.cache.wf()
        &&& self.known_keys.wf()
        &&& self.block_undo_logs@.len() <= MAX_UNDO_DEPTH
    }

    /// What every state manager keeps.
    pub proof fn lemma_bounds(&self)
        requires
            self.wf(),
        ensures
            self@.undo.len() <= MAX_UNDO_DEPTH,
            self@.known.no_duplicates(),
    {
        self.known_keys.lemma_keys();
    }

    /// A manager over a tree whose root is `root`, with nothing cached.
    pub fn open(root: Key) -> (s: Self)
        ensures
            s.wf(),
            s@ == (StateModel {
                cache: Map::empty(),
                root,
                known: Seq::empty(),
                pending: Seq::empty(),
                undo: Seq::empty(),
            }),
    {
        let s = StateManager {
            cache: KeyMap::new(),
            root,
            known_keys: KeyMap::new(),
            pending_writes: Vec::new(),
            block_undo_logs: VecDeque::new(),
        };
        assert(s@.pending =~= Seq::empty());
        assert(s@.undo =~= Seq::empty());
        s
    }

    /// The state root.
    pub fn root(&self) -> (r: Key)
        ensures
            r == self@.root,
    {
        self.root
    }

    /// What a reader sees under `key`, where the tree holds `committed`.
    pub fn get(&self, key: &Key, committed: Option<Vec<u8>>) -> (r: Option<Vec<u8>>)
        requires
            self.wf(),
        ensures
            text::opt_bytes(r) == visible(self@.cache, *key, text::opt_bytes(committed)),
    {
        read_cache(&self.cache, key, committed)
    }

    /// Whether `get` answers from the cache alone, so that the tree need not be
    /// asked.
    pub fn is_cached(&self, key: &Key) -> (r: bool)
        requires
            self.wf(),
        ensures
            r == self@.cache.contains_key(*key),
    {
        self.cache.contains_key(key)
    }

    /// The cache and the root as they are, for calls that must see neither later
    /// writes nor later commits.
    pub fn snapshot_reader(&self) -> (r: StateSnapshot)
        requires
            self.wf(),
        ensures
            r.wf(),
            r@ == (SnapshotModel { cache: self@.cache, root: self@.root }),
    {
        let mut cache: KeyMap<Vec<u8>> = KeyMap::new();
        let n: usize = self.cache.len();
        let mut i: usize = 0;
        let ghost ks = self.cache.keys();
        proof {
            self.cache.lemma_keys();
        }
        while i < n
            invariant
                self.cache.wf(),
                ks == self.cache.keys(),
                n == ks.len(),
                i <= n,
                cache.wf(),
                ks.no_duplicates(),
                forall|k: Key|
                    #![trigger cache@.contains_key(k)]
                    cache@.contains_key(k) <==> exists|j: int| 0 <= j < i && #[trigger] ks[j] == k,
                forall|k: Key|
                    #![trigger cache@.contains_key(k)]
                    cache@.contains_key(k) ==> self.cache@.contains_key(k) && cache@[k]
                        == self.cache@[k],
            decreases n - i,
        {
            let e = self.cache.entry_at(i);
            let ghost c0 = cache@;
            cache.insert(*e.0, copy_bytes(e.1));
            i = i + 1;
            assert forall|k: Key|
                #![trigger cache@.contains_key(k)]
                cache@.contains_key(k) <==> exists|j: int| 0 <= j < i && #[trigger] ks[j]
                    == k by {
                if cache@.contains_key(k) {
                    if k == ks[i - 1] {
                        assert(ks[i - 1] == k);
                    } else {
                        assert(c0.contains_key(k));
                    }
                }
                if exists|j: int| 0 <= j < i && #[trigger] ks[j] == k {
                    let j = choose|j: int| 0 <= j < i && #[trigger] ks[j] == k;
                    if j < i - 1 {
                        assert(c0.contains_key(k));
                    }
                }
            }
        }
        assert(cache@ =~= self.cache@);
        StateSnapshot { cache, root: self.root }
    }

    fn know(&mut self, key: Key)
        requires
            old(self).wf(),
        ensures
            final(self).wf(),
            final(self)@ == (StateModel {
                known: if old(self)@.known.contains(key) {
                    old(self)@.known
                } else {
                    old(self)@.known.push(key)
                },
                ..old(self)@
            }),
    {
        proof {
            self.known_keys.lemma_keys();
            assert(self.known_keys.keys().to_set().contains(key)
                == self.known_keys.keys().contains(key));
        }
        self.known_keys.insert(key, ());
    }

    fn know_all(&mut self, writes: &Vec<(Key, Vec<u8>)>)
        requires
            old(self).wf(),
        ensures
            final(self).wf(),
            final(self)@ == (StateModel {
                known: with_keys(old(self)@.known, writes_view(writes@)),
                ..old(self)@
            }),
    {
        let mut i: usize = 0;
        let ghost all = writes_view(writes@);
        let ghost s0 = self@;
        assert(all.take(0) =~= Seq::empty());
        while i < writes.len()
            invariant
                i <= writes@.len(),
                self.wf(),
                all == writes_view(writes@),
                self@ == (StateModel { known: with_keys(s0.known, all.take(i as int)), ..s0 }),
            decreases writes@.len() - i,
        {
            assert(all.take(i + 1).drop_last() =~= all.take(i as int));
            assert(all.take(i + 1).last().0 == writes@[i as int].0);
            self.know(writes[i].0);
            i = i + 1;
        }
        assert(all.take(i as int) =~= all);
    }

    fn settle(&mut self, reply: TreeReply, failure: &str) -> (r: Result<Key, String>)
        requires
            old(self).wf(),
        ensures
            final(self).wf(),
            final(self)@ == (StateModel { root: root_after(old(self)@.root, reply), ..old(self)@ }),
            text::with_text_error(r) == tree_result(reply, failure@),
    {
        match reply {
            Ok(root) => {
                self.root = root;
                Ok(root)
            },
            Err(e) => Err(tree_error(e, failure)),
        }
    }

    /// Writes one value now; `reply` is the tree's answer to that write.
    ///
    /// The cache and the known keys have the value even where the tree failed.
    pub fn insert(&mut self, key: Key, value: Vec<u8>, reply: TreeReply) -> (r: Result<Key, String>)
        requires
            old(self).wf(),
        ensures
            final(self).wf(),
            final(self)@ == (StateModel {
                cache: old(self)@.cache.insert(key, value@),
                known: with_keys(old(self)@.known, seq![(key, value@)]),
                root: root_after(old(self)@.root, reply),
                ..old(self)@
            }),
            text::with_text_error(r) == tree_result(reply, "state insert failed: "@),
    {
        proof {
            let w = seq![(key, value@)];
            assert(w.drop_last() =~= Seq::empty());
            reveal_with_fuel(with_keys, 2);
        }
        self.know(key);
        self.cache.insert(key, value);
        self.settle(reply, "state insert failed: ")
    }

    /// Forgets a key; `reply` is the tree's answer to deleting it.
    pub fn delete(&mut self, key: &Key, reply: Result<bool, TreeError>) -> (r: Result<bool, String>)
        requires
            old(self).wf(),
        ensures
            final(self).wf(),
            final(self)@.known.to_set() == old(self)@.known.to_set().remove(*key),
            final(self)@.known.len() <= old(self)@.known.len(),
            final(self)@ == (StateModel { known: final(self)@.known, ..old(self)@ }),
            text::with_text_error(r) == tree_result(reply, "state delete failed: "@),
    {
        proof {
            self.known_keys.lemma_keys();
        }
        self.known_keys.remove(key);
        proof {
            self.known_keys.lemma_keys();
            assert(self@.known.to_set() =~= old(self)@.known.to_set().remove(*key));
        }
        match reply {
            Ok(b) => Ok(b),
            Err(e) => Err(tree_error(e, "state delete failed: ")),
        }
    }

    /// Writes a batch now; `reply` is the tree's answer to it.
    pub fn update_batch(&mut self, entries: &Vec<(Key, Vec<u8>)>, reply: TreeReply) -> (r: Result<
        Key,
        String,
    >)
        requires
            old(self).wf(),
        ensures
            final(self).wf(),
            final(self)@ == (StateModel {
                known: with_keys(old(self)@.known, writes_view(entries@)),
                root: root_after(old(self)@.root, reply),
                ..old(self)@
            }),
            text::with_text_error(r) == tree_result(reply, "state batch update failed: "@),
    {
        self.know_all(entries);
        self.settle(reply, "state batch update failed: ")
    }

    /// Writes a batch to the cache and queues it for the tree.
    pub fn update_batch_deferred(&mut self, entries: Vec<(Key, Vec<u8>)>)
        requires
            old(self).wf(),
        ensures
            final(self).wf(),
            final(self)@ == (StateModel {
                cache: overlay(old(self)@.cache, writes_view(entries@)),
                known: with_keys(old(self)@.known, writes_view(entries@)),
                pending: old(self)@.pending + writes_view(entries@),
                ..old(self)@
            }),
    {
        let ghost s0 = self@;
        self.know_all(&entries);
        let ghost all = writes_view(entries@);
        let mut entries = entries;
        let mut i: usize = 0;
        assert(all.take(0) =~= Seq::empty());
        while i < entries.len()
            invariant
                i <= entries@.len(),
                self.wf(),
                all == writes_view(entries@),
                self@ == (StateModel {
                    cache: overlay(s0.cache, all.take(i as int)),
                    known: with_keys(s0.known, all),
                    ..s0
                }),
            decreases entries@.len() - i,
        {
            let w = &entries[i];
            assert(all.take(i + 1).drop_last() =~= all.take(i as int));
            assert(all.take(i + 1).last() == (w.0, w.1@));
            self.cache.insert(w.0, copy_bytes(&w.1));
            i = i + 1;
        }
        assert(all.take(i as int) =~= all);
        self.pending_writes.append(&mut entries);
        assert(self@.pending =~= s0.pending + all);
    }

    /// Writes one value to the cache and queues it for the tree.
    pub fn insert_deferred(&mut self, key: Key, value: Vec<u8>)
        requires
            old(self).wf(),
        ensures
            final(self).wf(),
            final(self)@ == (StateModel {
                cache: old(self)@.cache.insert(key, value@),
                known: with_keys(old(self)@.known, seq![(key, value@)]),
                pending: old(self)@.pending.push((key, value@)),
                ..old(self)@
            }),
    {
        let ghost s0 = self@;
        proof {
            let w = seq![(key, value@)];
            assert(w.drop_last() =~= Seq::empty());
            reveal_with_fuel(with_keys, 2);
        }
        self.know(key);
        self.cache.insert(key, copy_bytes(&value));
        let ghost v = value@;
        self.pending_writes.push((key, value));
        assert(self@.pending =~= s0.pending.push((key, v)));
    }

    /// The writes that the tree has not been given yet.
    pub fn pending_writes(&self) -> (r: &Vec<(Key, Vec<u8>)>)
        ensures
            writes_view(r@) == self@.pending,
    {
        &self.pending_writes
    }

    /// Hands the pending writes over; `reply` is the tree's answer to them, and
    /// is not looked at where there are none.
    pub fn flush_pending(&mut self, reply: TreeReply) -> (r: Result<Key, String>)
        requires
            old(self).wf(),
        ensures
            final(self).wf(),
            old(self)@.pending.len() == 0 ==> final(self)@ == old(self)@ && r == Ok::<
                Key,
                String,
            >(old(self)@.root),
            old(self)@.pending.len() > 0 ==> final(self)@ == (StateModel {
                pending: Seq::empty(),
                known: with_keys(old(self)@.known, old(self)@.pending),
                root: root_after(old(self)@.root, reply),
                ..old(self)@
            }) && text::with_text_error(r) == tree_result(
                reply,
                "state batch update failed: "@,
            ),
    {
        if self.pending_writes.len() == 0 {
            return Ok(self.root);
        }
        let entries = self.take_pending_writes();
        self.update_batch(&entries, reply)
    }

    /// Takes the pending writes out, for a commit in the background.
    pub fn take_pending_writes(&mut self) -> (r: Vec<(Key, Vec<u8>)>)
        requires
            old(self).wf(),
        ensures
            final(self).wf(),
            writes_view(r@) == old(self)@.pending,
            final(self)@ == (StateModel { pending: Seq::empty(), ..old(self)@ }),
    {
        let mut out: Vec<(Key, Vec<u8>)> = Vec::new();
        std::mem::swap(&mut out, &mut self.pending_writes);
        assert(self@.pending =~= Seq::empty());
        out
    }

    /// The result of a commit in the background, from the tree's answer to it.
    pub fn commit_writes_to_smt(reply: TreeReply) -> (r: Result<Key, String>)
        ensures
            text::with_text_error(r) == tree_result(reply, "commit failed: "@),
    {
        match reply {
            Ok(root) => Ok(root),
            Err(e) => Err(tree_error(e, "commit failed: ")),
        }
    }

    /// Takes over the root of a commit in the background.
    pub fn set_root(&mut self, root: Key)
        requires
            old(self).wf(),
        ensures
            final(self).wf(),
            final(self)@ == (StateModel { root, ..old(self)@ }),
    {
        self.root = root;
    }

    /// Whether there is no state yet: `tree_empty` says whether the tree is empty,
    /// where its lock could be had.
    pub fn is_empty(tree_empty: Option<bool>) -> (r: bool)
        ensures
            r == (tree_empty != Some(false)),
    {
        match tree_empty {
            Some(e) => e,
            None => true,
        }
    }

    /// Takes over the tree's root, where its lock could be had.
    pub fn refresh_root(&mut self, root: Option<Key>)
        requires
            old(self).wf(),
        ensures
            final(self).wf(),
            final(self)@ == (StateModel {
                root: match root {
                    Some(r) => r,
                    None => old(self)@.root,
                },
                ..old(self)@
            }),
    {
        if let Some(r) = root {
            self.root = r;
        }
    }

    /// Records what a block overwrote. Logs beyond `MAX_UNDO_DEPTH` are dropped,
    /// oldest first.
    pub fn record_block_undo(&mut self, slot: u64, entries: Vec<UndoEntry>)
        requires
            old(self).wf(),
        ensures
            final(self).wf(),
            final(self)@ == (StateModel {
                undo: push_bounded(old(self)@.undo, (slot, undo_view(entries@))),
                ..old(self)@
            }),
    {
        let ghost s0 = self@;
        let ghost log = (slot, undo_view(entries@));
        self.block_undo_logs.push_back((slot, entries));
        assert(self@.undo =~= s0.undo.push(log));
        while self.block_undo_logs.len() > MAX_UNDO_DEPTH
            invariant
                self.cache.wf(),
                self.known_keys.wf(),
                s0.undo.len() <= MAX_UNDO_DEPTH,
                self@ == (StateModel { undo: s0.undo.push(log), ..s0 }) || self@ == (StateModel {
                    undo: s0.undo.push(log).skip(1),
                    ..s0
                }) && s0.undo.len() == MAX_UNDO_DEPTH,
            decreases self.block_undo_logs@.len(),
        {
            let ghost l0 = self.block_undo_logs@;
            self.block_undo_logs.pop_front();
            assert(self@.undo =~= s0.undo.push(log).skip(1));
        }
    }

    /// Whether a revert to `target_slot` stays within the recorded logs.
    pub fn can_revert_to(&self, target_slot: u64) -> (r: bool)
        ensures
            r == (self@.undo.len() > 0 && target_slot + 1 >= self@.undo[0].0),
    {
        if self.block_undo_logs.len() == 0 {
            return false;
        }
        let oldest: u64 = self.block_undo_logs[0].0;
        target_slot >= oldest.saturating_sub(1)
    }

    /// How many blocks can be taken back.
    pub fn undo_log_len(&self) -> (n: usize)
        ensures
            n == self@.undo.len(),
    {
        self.block_undo_logs.len()
    }

    fn below_oldest_error(&self, target_slot: u64) -> (r: Option<String>)
        ensures
            r is Some == below_oldest(self@.undo, target_slot),
            r matches Some(e) ==> e@ == below_oldest_text(target_slot, self@.undo[0].0),
    {
        if self.block_undo_logs.len() == 0 {
            return None;
        }
        let oldest: u64 = self.block_undo_logs[0].0;
        if target_slot >= oldest.saturating_sub(1) {
            return None;
        }
        let mut e = "revert target ".to_owned();
        push_decimal(&mut e, target_slot as u128);
        e.append(" is below oldest undo log at slot ");
        push_decimal(&mut e, oldest as u128);
        Some(e)
    }

    /// The batches that a revert to `target_slot` sends to the tree, in order,
    /// or why it is refused. Nothing is changed.
    pub fn plan_revert(&self, target_slot: u64) -> (r: Result<Vec<Vec<(Key, Vec<u8>)>>, String>)
        ensures
            match r {
                Ok(b) => !below_oldest(self@.undo, target_slot) && b@.map_values(
                    |w: Vec<(Key, Vec<u8>)>| writes_view(w@),
                ) == revert_batches(self@.undo, target_slot),
                Err(e) => below_oldest(self@.undo, target_slot) && e@ == below_oldest_text(
                    target_slot,
                    self@.undo[0].0,
                ),
            },
    {
        if let Some(e) = self.below_oldest_error(target_slot) {
            return Err(e);
        }
        let mut out: Vec<Vec<(Key, Vec<u8>)>> = Vec::new();
        let mut n: usize = self.block_undo_logs.len();
        let ghost undo = self@.undo;
        let ghost f = |w: Vec<(Key, Vec<u8>)>| writes_view(w@);
        assert(undo.take(n as int) =~= undo);
        assert(out@.map_values(f) =~= Seq::empty());
        while n > 0
            invariant_except_break
                out@.map_values(f) + revert_batches(undo.take(n as int), target_slot)
                    == revert_batches(undo, target_slot),
            invariant
                n <= undo.len(),
                undo == self@.undo,
                f == (|w: Vec<(Key, Vec<u8>)>| writes_view(w@)),
            ensures
                out@.map_values(f) == revert_batches(undo, target_slot),
            decreases n,
        {
            let ghost t = undo.take(n as int);
            assert(t.last() == undo[n - 1]);
            let log = &self.block_undo_logs[n - 1];
            assert(undo[n - 1] == (log.0, undo_view(log.1@)));
            if log.0 <= target_slot {
                assert(out@.map_values(f) =~= revert_batches(undo, target_slot));
                break;
            }
            assert(t.drop_last() =~= undo.take(n - 1));
            if log.1.len() > 0 {
                let batch = undo_batch(&log.1);
                let ghost o0 = out@;
                let ghost rest = revert_batches(undo.take(n - 1), target_slot);
                out.push(batch);
                assert(out@.map_values(f) =~= o0.map_values(f).push(f(batch)));
                assert(o0.map_values(f) + (seq![f(batch)] + rest) =~= o0.map_values(f).push(
                    f(batch),
                ) + rest);
            }
            n = n - 1;
            assert(n == 0 ==> undo.take(0) =~= Seq::empty());
            assert(n == 0 ==> out@.map_values(f) + Seq::<Seq<(Key, Seq<u8>)>>::empty()
                =~= out@.map_values(f));
        }
        Ok(out)
    }

    /// Takes back every block above `target_slot`, newest first, and says how
    /// many; `replies` are the tree's answers to the batches of `plan_revert`.
    pub fn revert_to(&mut self, target_slot: u64, replies: Vec<TreeReply>) -> (r: Result<
        usize,
        String,
    >)
        requires
            old(self).wf(),
        ensures
            final(self).wf(),
            below_oldest(old(self)@.undo, target_slot) ==> final(self)@ == old(self)@
                && r is Err && r->Err_0@ == below_oldest_text(target_slot, old(self)@.undo[0].0),
            !below_oldest(old(self)@.undo, target_slot) ==> {
                let out = revert_from(old(self)@, target_slot, replies@, 0);
                &&& final(self)@ == out.state
                &&& match r {
                    Ok(n) => out.result == Ok::<nat, Seq<char>>(n as nat),
                    Err(e) => out.result == Err::<nat, Seq<char>>(e@),
                }
            },
    {
        if let Some(e) = self.below_oldest_error(target_slot) {
            return Err(e);
        }
        let ghost goal = revert_from(self@, target_slot, replies@, 0);
        let ghost all = replies@;
        let mut used: usize = 0;
        let mut reverted: usize = 0;
        assert(all.skip(0) =~= all);
        while self.block_undo_logs.len() > 0
            invariant
                self.wf(),
                all == replies@,
                used <= replies@.len(),
                reverted + self.block_undo_logs@.len() <= MAX_UNDO_DEPTH,
                goal == revert_from(self@, target_slot, all.skip(used as int), reverted as nat),
                !below_oldest(old(self)@.undo, target_slot),
                goal == revert_from(old(self)@, target_slot, replies@, 0),
            decreases self.block_undo_logs@.len(),
        {
            let ghost s = self@;
            let n: usize = self.block_undo_logs.len();
            assert(s.undo.last() == (self.block_undo_logs@.last().0, undo_view(
                self.block_undo_logs@.last().1@,
            )));
            if self.block_undo_logs[n - 1].0 <= target_slot {
                return Ok(reverted);
            }
            let popped = self.block_undo_logs.pop_back();
            if let Some(log) = popped {
                assert(self@.undo =~= s.undo.drop_last());
                let writes = undo_batch(&log.1);
                assert(writes_view(writes@) == restore_writes(s.undo.last().1));
                restore_cache(&mut self.cache, &writes);
                if writes.len() > 0 && used < replies.len() {
                    assert(all.skip(used as int)[0] == replies@[used as int]);
                    assert(all.skip(used as int).skip(1) =~= all.skip(used + 1));
                    match &replies[used] {
                        Ok(root) => {
                            self.root = *root;
                        },
                        Err(TreeError::Poisoned(_)) => {},
                        Err(TreeError::Failed(e)) => {
                            return Err(join("revert SMT update failed: ", e.as_str()));
                        },
                    }
                    used = used + 1;
                }
                reverted = reverted + 1;
            }
        }
        Ok(reverted)
    }

    /// Every known key, in the order in which a snapshot lists them.
    pub fn known_keys(&self) -> (r: Vec<Key>)
        requires
            self.wf(),
        ensures
            r@ == self@.known,
    {
        let mut out: Vec<Key> = Vec::new();
        let n: usize = self.known_keys.len();
        let mut i: usize = 0;
        while i < n
            invariant
                self.wf(),
                n == self@.known.len(),
                i <= n,
                out@ == self@.known.take(i as int),
            decreases n - i,
        {
            let e = self.known_keys.entry_at(i);
            out.push(*e.0);
            i = i + 1;
            assert(out@ =~= self@.known.take(i as int));
        }
        assert(self@.known.take(n as int) =~= self@.known);
        out
    }

    /// The snapshot of every known key that the tree holds; `committed` is what
    /// it holds under each of `known_keys`.
    pub fn export_snapshot(&self, committed: &Vec<Option<Vec<u8>>>) -> (r: Vec<(Vec<u8>, Vec<u8>)>)
        requires
            self.wf(),
            committed@.len() == self@.known.len(),
        ensures
            pairs_view(r@) == exported(
                self@.known,
                values_view(committed@),
                self@.known.len(),
            ),
    {
        let mut out: Vec<(Vec<u8>, Vec<u8>)> = Vec::new();
        let mut i: usize = 0;
        let ghost vals = values_view(committed@);
        assert(pairs_view(out@) =~= Seq::empty());
        while i < committed.len()
            invariant
                self.wf(),
                committed@.len() == self@.known.len(),
                i <= committed@.len(),
                vals == values_view(committed@),
                pairs_view(out@) == exported(self@.known, vals, i as nat),
            decreases committed@.len() - i,
        {
            let e = self.known_keys.entry_at(i);
            assert(vals[i as int] == text::opt_bytes(committed@[i as int]));
            if let Some(v) = &committed[i] {
                let ghost o0 = out@;
                out.push((key_bytes(e.0), copy_bytes(v)));
                assert(pairs_view(out@) =~= pairs_view(o0).push((e.0@, v@)));
            }
            i = i + 1;
        }
        out
    }

    /// Takes a snapshot over; `reply` is the tree's answer to its
    /// `snapshot_writes`.
    pub fn import_snapshot(&mut self, entries: &Vec<(Vec<u8>, Vec<u8>)>, reply: TreeReply) -> (r:
        Result<Key, String>)
        requires
            old(self).wf(),
        ensures
            final(self).wf(),
            final(self)@ == (StateModel {
                known: with_keys(old(self)@.known, snapshot_writes_of(pairs_view(entries@))),
                root: root_after(old(self)@.root, reply),
                ..old(self)@
            }),
            text::with_text_error(r) == tree_result(reply, "snapshot import failed: "@),
    {
        let writes = snapshot_writes(entries);
        self.know_all(&writes);
        self.settle(reply, "snapshot import failed: ")
    }

    /// How many keys are known.
    pub fn entry_count(&self) -> (n: usize)
        requires
            self.wf(),
        ensures
            n == self@.known.len(),
    {
        self.known_keys.len()
    }
}

} // verus!
