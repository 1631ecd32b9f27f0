//! What holds of the state cache, the tree behind it and the undo logs together.
//!
//! The tree is taken as a map that a batch changes as `apply_writes` says: an
//! empty value deletes its key.
use vstd::prelude::*;

use crate::keymap;
use crate::keymap::Key;
use crate::state_manager;
use crate::state_manager::{Reverted, SnapshotModel, StateModel, TreeError, TreeReply, UndoLog};

verus! {

/// What the tree holds under `key`.
pub open spec fn tree_get(tree: Map<Key, Seq<u8>>, key: Key) -> Option<Seq<u8>> {
    if tree.contains_key(key) {
        Some(tree[key])
    } else {
        None
    }
}

/// What a reader of the cache over the tree sees under `key`.
pub open spec fn read(cache: Map<Key, Seq<u8>>, tree: Map<Key, Seq<u8>>, key: Key) -> Option<
    Seq<u8>,
> {
    state_manager::visible(cache, key, tree_get(tree, key))
}

/// Whether `writes` write to `key`.
pub open spec fn writes_to(writes: Seq<(Key, Seq<u8>)>, key: Key) -> bool {
    exists|i: int| 0 <= i < writes.len() && (#[trigger] writes[i]).0 == key
}

/// The last value that `writes` give to `key`.
pub open spec fn last_write(writes: Seq<(Key, Seq<u8>)>, key: Key) -> Seq<u8>
    decreases writes.len(),
{
    if writes.len() == 0 {
        Seq::empty()
    } else if writes.last().0 == key {
        writes.last().1
    } else {
        last_write(writes.drop_last(), key)
    }
}

proof fn lemma_writes_to_split(writes: Seq<(Key, Seq<u8>)>, key: Key)
    requires
        writes.len() > 0,
    ensures
        writes_to(writes, key) == (writes.last().0 == key || writes_to(writes.drop_last(), key)),
{
    if writes_to(writes, key) {
        let i = choose|i: int| 0 <= i < writes.len() && (#[trigger] writes[i]).0 == key;
        if i < writes.len() - 1 {
            assert(writes.drop_last()[i].0 == key);
        }
    }
    if writes.last().0 == key {
        assert(writes[writes.len() - 1].0 == key);
    }
    if writes_to(writes.drop_last(), key) {
        let i = choose|i: int|
            0 <= i < writes.drop_last().len() && (#[trigger] writes.drop_last()[i]).0 == key;
        assert(writes[i].0 == key);
    }
}

proof fn lemma_apply(m: Map<Key, Seq<u8>>, writes: Seq<(Key, Seq<u8>)>, key: Key)
    ensures
        !writes_to(writes, key) ==> tree_get(state_manager::apply_writes(m, writes), key)
            == tree_get(m, key),
        writes_to(writes, key) ==> tree_get(state_manager::apply_writes(m, writes), key) == (
        if last_write(writes, key).len() == 0 {
            None
        } else {
            Some(last_write(writes, key))
        }),
    decreases writes.len(),
{
    if writes.len() > 0 {
        lemma_apply(m, writes.drop_last(), key);
        lemma_writes_to_split(writes, key);
    }
}

proof fn lemma_overlay(cache: Map<Key, Seq<u8>>, writes: Seq<(Key, Seq<u8>)>, key: Key)
    ensures
        !writes_to(writes, key) ==> tree_get(state_manager::overlay(cache, writes), key)
            == tree_get(cache, key),
        writes_to(writes, key) ==> tree_get(state_manager::overlay(cache, writes), key) == Some(
            last_write(writes, key),
        ),
    decreases writes.len(),
{
    if writes.len() > 0 {
        lemma_overlay(cache, writes.drop_last(), key);
        lemma_writes_to_split(writes, key);
    }
}

/// A reader sees every deferred write at once, whatever the tree holds: the last
/// value written to a key, none where that value is empty, and every other key
/// as before.
pub proof fn law_deferred_writes_are_visible(
    cache: Map<Key, Seq<u8>>,
    tree: Map<Key, Seq<u8>>,
    writes: Seq<(Key, Seq<u8>)>,
    key: Key,
)
    ensures
        read(state_manager::overlay(cache, writes), tree, key) == (if !writes_to(writes, key) {
            read(cache, tree, key)
        } else if last_write(writes, key).len() == 0 {
            None
        } else {
            Some(last_write(writes, key))
        }),
{
    lemma_overlay(cache, writes, key);
}

/// Handing the pending writes to the tree changes nothing that a reader sees, as
/// long as the cache still covers them.
pub proof fn law_flush_keeps_reads(
    cache: Map<Key, Seq<u8>>,
    tree: Map<Key, Seq<u8>>,
    pending: Seq<(Key, Seq<u8>)>,
    key: Key,
)
    requires
        forall|k: Key| #[trigger] writes_to(pending, k) ==> cache.contains_key(k),
    ensures
        read(cache, state_manager::apply_writes(tree, pending), key) == read(cache, tree, key),
{
    lemma_apply(tree, pending, key);
    assert(writes_to(pending, key) ==> cache.contains_key(key));
}

/// Deferred writes and the flush of them leave the tree itself, read without the
/// cache, with what a reader of the cache sees.
pub proof fn law_flush_reaches_the_tree(
    cache: Map<Key, Seq<u8>>,
    tree: Map<Key, Seq<u8>>,
    writes: Seq<(Key, Seq<u8>)>,
    key: Key,
)
    requires
        writes_to(writes, key),
    ensures
        tree_get(state_manager::apply_writes(tree, writes), key) == read(
            state_manager::overlay(cache, writes),
            tree,
            key,
        ),
{
    lemma_apply(tree, writes, key);
    lemma_overlay(cache, writes, key);
}

/// Whether a log has an entry for `key`.
pub open spec fn mentions(log: Seq<(Key, Option<Seq<u8>>)>, key: Key) -> bool {
    exists|i: int| 0 <= i < log.len() && (#[trigger] log[i]).0 == key
}

/// Whether `log` records a block that led from the reads `before` to the reads
/// `after`: each entry has the value from before, and no other key changed.
pub open spec fn records(
    log: Seq<(Key, Option<Seq<u8>>)>,
    before: spec_fn(Key) -> Option<Seq<u8>>,
    after: spec_fn(Key) -> Option<Seq<u8>>,
) -> bool {
    &&& forall|i: int|
        0 <= i < log.len() ==> (#[trigger] log[i]).1 == before(log[i].0) && log[i].1 != Some(
            Seq::<u8>::empty(),
        )
    &&& forall|k: Key| !(#[trigger] mentions(log, k)) ==> after(k) == before(k)
}

proof fn lemma_restored_value(
    log: Seq<(Key, Option<Seq<u8>>)>,
    key: Key,
    v: Option<Seq<u8>>,
)
    requires
        mentions(log, key),
        forall|i: int| 0 <= i < log.len() && (#[trigger] log[i]).0 == key ==> log[i].1 == v,
    ensures
        writes_to(state_manager::restore_writes(log), key),
        last_write(state_manager::restore_writes(log), key) == (match v {
            Some(b) => b,
            None => Seq::<u8>::empty(),
        }),
    decreases log.len(),
{
    let w = state_manager::restore_writes(log);
    let i = choose|i: int| 0 <= i < log.len() && (#[trigger] log[i]).0 == key;
    assert(w[i].0 == key);
    if log.last().0 == key {
        assert(log[log.len() - 1].1 == v);
        assert(w.last() == w[log.len() - 1]);
    } else {
        let l = log.drop_last();
        assert(l[i].0 == key);
        assert forall|j: int| 0 <= j < l.len() && (#[trigger] l[j]).0 == key implies l[j].1
            == v by {
            assert(log[j].0 == key);
        }
        lemma_restored_value(l, key, v);
        assert(state_manager::restore_writes(l) =~= w.drop_last());
    }
}

/// Taking one block back gives every reader the view from before the block.
pub proof fn law_undo_restores_reads(
    cache: Map<Key, Seq<u8>>,
    tree: Map<Key, Seq<u8>>,
    log: Seq<(Key, Option<Seq<u8>>)>,
    before: spec_fn(Key) -> Option<Seq<u8>>,
    after: spec_fn(Key) -> Option<Seq<u8>>,
    key: Key,
)
    requires
        records(log, before, after),
        forall|k: Key| #[trigger] read(cache, tree, k) == after(k),
    ensures
        read(
            state_manager::apply_writes(cache, state_manager::restore_writes(log)),
            state_manager::apply_writes(tree, state_manager::restore_writes(log)),
            key,
        ) == before(key),
{
    let w = state_manager::restore_writes(log);
    lemma_apply(cache, w, key);
    lemma_apply(tree, w, key);
    if mentions(log, key) {
        let i = choose|i: int| 0 <= i < log.len() && (#[trigger] log[i]).0 == key;
        assert(log[i].1 == before(key));
        lemma_restored_value(log, key, before(key));
        if before(key) is Some && before(key)->0.len() == 0 {
            assert(before(key)->0 =~= Seq::<u8>::empty());
        }
    } else {
        if writes_to(w, key) {
            let i = choose|i: int| 0 <= i < w.len() && (#[trigger] w[i]).0 == key;
            assert(log[i].0 == key);
        }
        assert(read(cache, tree, key) == after(key));
    }
}

/// The tree after batches, in order.
pub open spec fn apply_batches(
    tree: Map<Key, Seq<u8>>,
    batches: Seq<Seq<(Key, Seq<u8>)>>,
) -> Map<Key, Seq<u8>>
    decreases batches.len(),
{
    if batches.len() == 0 {
        tree
    } else {
        apply_batches(state_manager::apply_writes(tree, batches[0]), batches.skip(1))
    }
}

/// Whether the logs record the blocks of a history of reads, from `h[0]` on.
pub open spec fn record_history(
    undo: Seq<UndoLog>,
    h: Seq<spec_fn(Key) -> Option<Seq<u8>>>,
) -> bool {
    &&& h.len() == undo.len() + 1
    &&& forall|i: int| 0 <= i < undo.len() ==> records((#[trigger] undo[i]).1, h[i], h[i + 1])
}

/// A revert takes back exactly the newest logs above the target, counts them,
/// and gives every reader the view that the last block kept left, where the tree
/// took every batch.
pub proof fn law_revert_restores_history(
    s: StateModel,
    tree: Map<Key, Seq<u8>>,
    h: Seq<spec_fn(Key) -> Option<Seq<u8>>>,
    target: u64,
    replies: Seq<TreeReply>,
    done: nat,
)
    requires
        record_history(s.undo, h),
        forall|k: Key| #[trigger] read(s.cache, tree, k) == h[s.undo.len() as int](k),
        replies.len() >= state_manager::revert_batches(s.undo, target).len(),
        forall|i: int| 0 <= i < replies.len() ==> (#[trigger] replies[i]) is Ok,
    ensures
        ({
            let out = state_manager::revert_from(s, target, replies, done);
            let n = state_manager::logs_above(s.undo, target);
            let kept = s.undo.len() - n;
            let batches = state_manager::revert_batches(s.undo, target);
            &&& out.result == Ok::<nat, Seq<char>>(done + n)
            &&& kept >= 0
            &&& out.state.undo == s.undo.take(kept)
            &&& out.state.known == s.known
            &&& out.state.pending == s.pending
            &&& out.state.root == if batches.len() == 0 {
                s.root
            } else {
                replies[batches.len() - 1]->Ok_0
            }
            &&& forall|i: int| kept <= i < s.undo.len() ==> (#[trigger] s.undo[i]).0 > target
            &&& kept > 0 ==> s.undo[kept - 1].0 <= target
            &&& forall|k: Key| #[trigger]
                read(out.state.cache, apply_batches(tree, batches), k) == h[kept](k)
        }),
    decreases s.undo.len(),
{
    let undo = s.undo;
    if undo.len() == 0 || undo.last().0 <= target {
        assert(undo.take(undo.len() as int) =~= undo);
    } else {
        let log = undo.last().1;
        let writes = state_manager::restore_writes(log);
        let rest = undo.drop_last();
        let tree2 = state_manager::apply_writes(tree, writes);
        let cache2 = state_manager::apply_writes(s.cache, writes);
        let h2 = h.drop_last();
        let batches = state_manager::revert_batches(undo, target);
        let batches2 = state_manager::revert_batches(rest, target);
        assert(undo[undo.len() - 1] == undo.last());
        assert forall|k: Key| #[trigger] read(cache2, tree2, k) == h2[rest.len() as int](k) by {
            law_undo_restores_reads(
                s.cache,
                tree,
                log,
                h[rest.len() as int],
                h[undo.len() as int],
                k,
            );
        }
        assert forall|i: int| 0 <= i < rest.len() implies records(
            (#[trigger] rest[i]).1,
            h2[i],
            h2[i + 1],
        ) by {
            assert(rest[i] == undo[i]);
        }
        let popped = StateModel { cache: cache2, undo: rest, ..s };
        if writes.len() == 0 {
            assert(tree2 == tree);
            law_revert_restores_history(popped, tree, h2, target, replies, done + 1);
        } else {
            assert(batches =~= seq![writes] + batches2);
            assert(batches.skip(1) =~= batches2);
            assert(replies[0] is Ok);
            let popped2 = StateModel { root: replies[0]->Ok_0, ..popped };
            let replies2 = replies.skip(1);
            assert forall|i: int| 0 <= i < replies2.len() implies (#[trigger] replies2[i]) is Ok by {
                assert(replies[i + 1] is Ok);
            }
            law_revert_restores_history(popped2, tree2, h2, target, replies2, done + 1);
        }
        let n = state_manager::logs_above(undo, target);
        let kept = undo.len() - n;
        assert(rest.take(kept) =~= undo.take(kept));
        assert forall|i: int| kept <= i < undo.len() implies (#[trigger] undo[i]).0 > target by {
            if i < rest.len() {
                assert(rest[i] == undo[i]);
            }
        }
    }
}

/// Where there is a log, `can_revert_to` is exactly that the revert is not
/// refused.
pub proof fn law_can_revert_is_not_refused(undo: Seq<UndoLog>, target: u64)
    requires
        undo.len() > 0,
    ensures
        (undo.len() > 0 && target + 1 >= undo[0].0) == !state_manager::below_oldest(undo, target),
{
}

/// At most `MAX_UNDO_DEPTH` blocks stay revertible, and the newest always does.
pub proof fn law_undo_depth_is_bounded(undo: Seq<UndoLog>, log: UndoLog)
    requires
        undo.len() <= state_manager::MAX_UNDO_DEPTH,
    ensures
        state_manager::push_bounded(undo, log).len() <= state_manager::MAX_UNDO_DEPTH,
        state_manager::push_bounded(undo, log).last() == log,
        undo.len() < state_manager::MAX_UNDO_DEPTH ==> state_manager::push_bounded(undo, log)
            == undo.push(log),
{
}

proof fn lemma_exported(
    keys: Seq<Key>,
    values: Seq<Option<Seq<u8>>>,
    n: nat,
    key: Key,
)
    requires
        keys.no_duplicates(),
        values.len() == keys.len(),
        n <= keys.len(),
        forall|i: int| 0 <= i < values.len() ==> #[trigger] values[i] != Some(Seq::<u8>::empty()),
    ensures
        ({
            let w = state_manager::snapshot_writes_of(state_manager::exported(keys, values, n));
            let m = state_manager::apply_writes(Map::empty(), w);
            &&& forall|i: int|
                0 <= i < n ==> tree_get(m, #[trigger] keys[i]) == values[i]
            &&& (forall|i: int| 0 <= i < n ==> #[trigger] keys[i] != key) ==> tree_get(m, key)
                is None
        }),
    decreases n,
{
    let w = state_manager::snapshot_writes_of(state_manager::exported(keys, values, n));
    let m = state_manager::apply_writes(Map::empty(), w);
    if n > 0 {
        let p = (n - 1) as nat;
        let e0 = state_manager::exported(keys, values, p);
        let w0 = state_manager::snapshot_writes_of(e0);
        let m0 = state_manager::apply_writes(Map::empty(), w0);
        lemma_exported(keys, values, p, key);
        lemma_exported(keys, values, p, keys[n - 1]);
        keymap::lemma_key_of(keys[n - 1]);
        match values[n - 1] {
            Some(v) => {
                assert(w =~= w0.push((keys[n - 1], v)));
                assert(w.drop_last() =~= w0);
                assert(v.len() > 0) by {
                    if v.len() == 0 {
                        assert(v =~= Seq::<u8>::empty());
                        assert(values[n - 1] == Some(Seq::<u8>::empty()));
                    }
                }
                assert(m == m0.insert(keys[n - 1], v));
            },
            None => {
                assert(m == m0);
            },
        }
        assert forall|i: int| 0 <= i < n implies tree_get(m, #[trigger] keys[i])
            == values[i] by {
            if i < n - 1 {
                assert(keys[i] != keys[n - 1]);
                assert(tree_get(m0, keys[i]) == values[i]);
            } else {
                assert forall|j: int| 0 <= j < p implies #[trigger] keys[j] != keys[n - 1] by {}
            }
        }
    }
}

/// A snapshot that is exported and imported into an empty tree gives back every
/// known key with the value it had, and nothing else.
pub proof fn law_snapshot_round_trip(
    keys: Seq<Key>,
    tree: Map<Key, Seq<u8>>,
    key: Key,
)
    requires
        keys.no_duplicates(),
        forall|k: Key| #[trigger] tree.contains_key(k) ==> tree[k].len() > 0,
    ensures
        ({
            let values = Seq::new(keys.len(), |i: int| tree_get(tree, keys[i]));
            let snapshot = state_manager::exported(keys, values, keys.len());
            tree_get(
                state_manager::apply_writes(
                    Map::empty(),
                    state_manager::snapshot_writes_of(snapshot),
                ),
                key,
            ) == if keys.contains(key) {
                tree_get(tree, key)
            } else {
                None
            }
        }),
{
    let values = Seq::new(keys.len(), |i: int| tree_get(tree, keys[i]));
    assert forall|i: int| 0 <= i < values.len() implies #[trigger] values[i] != Some(
        Seq::<u8>::empty(),
    ) by {
        assert(tree.contains_key(keys[i]) ==> tree[keys[i]].len() > 0);
    }
    lemma_exported(keys, values, keys.len(), key);
    if keys.contains(key) {
        let i = choose|i: int| 0 <= i < keys.len() && keys[i] == key;
        assert(keys[i] == key);
        assert(values[i] == tree_get(tree, key));
    }
}

/// What a reader of a snapshot sees under `key`, where `trees` says what the tree
/// holds at each root.
pub open spec fn read_snapshot(
    snapshot: SnapshotModel,
    trees: spec_fn(Key) -> Map<Key, Seq<u8>>,
    key: Key,
) -> Option<Seq<u8>> {
    read(snapshot.cache, trees(snapshot.root), key)
}

/// A snapshot shows every key as a reader of the state saw it when the snapshot
/// was taken, over what the tree held at that root. A write to the tree alone
/// afterwards, which readers of the state see, does not show in it.
pub proof fn law_snapshots_are_frozen(
    s: StateModel,
    trees: spec_fn(Key) -> Map<Key, Seq<u8>>,
    writes: Seq<(Key, Seq<u8>)>,
    key: Key,
)
    ensures
        ({
            let snapshot = SnapshotModel { cache: s.cache, root: s.root };
            let before = trees(s.root);
            let after = state_manager::apply_writes(before, writes);
            &&& read_snapshot(snapshot, trees, key) == read(s.cache, before, key)
            &&& !s.cache.contains_key(key) && writes_to(writes, key) && last_write(
                writes,
                key,
            ).len() > 0 ==> read(s.cache, after, key) == Some(last_write(writes, key))
        }),
{
    lemma_apply(trees(s.root), writes, key);
}

/// The reads of a tree without a cache.
pub open spec fn reads_of(tree: Map<Key, Seq<u8>>) -> spec_fn(Key) -> Option<Seq<u8>> {
    |k: Key| tree_get(tree, k)
}

/// Whether the cache shows nothing else than the tree holds.
pub open spec fn in_step(cache: Map<Key, Seq<u8>>, tree: Map<Key, Seq<u8>>) -> bool {
    forall|k: Key| #[trigger] read(cache, tree, k) == tree_get(tree, k)
}

/// Whether `replies` are what a tree answers to batches, where its root is the
/// `root_of` what it holds.
pub open spec fn answered(
    tree: Map<Key, Seq<u8>>,
    batches: Seq<Seq<(Key, Seq<u8>)>>,
    replies: Seq<TreeReply>,
    root_of: spec_fn(Map<Key, Seq<u8>>) -> Key,
) -> bool
    decreases batches.len(),
{
    batches.len() > 0 ==> {
        let next = state_manager::apply_writes(tree, batches[0]);
        &&& replies.len() > 0
        &&& replies[0] == Ok::<Key, TreeError>(root_of(next))
        &&& answered(next, batches.skip(1), replies.skip(1), root_of)
    }
}

proof fn lemma_same_reads(a: Map<Key, Seq<u8>>, b: Map<Key, Seq<u8>>)
    requires
        forall|k: Key| #[trigger] tree_get(a, k) == tree_get(b, k),
    ensures
        a == b,
{
    assert forall|k: Key| a.contains_key(k) == b.contains_key(k) by {
        assert(tree_get(a, k) == tree_get(b, k));
    }
    assert forall|k: Key| a.contains_key(k) implies a[k] == b[k] by {
        assert(tree_get(a, k) == tree_get(b, k));
    }
    assert(a =~= b);
}

proof fn lemma_undo_restores_the_tree(
    tree: Map<Key, Seq<u8>>,
    log: Seq<(Key, Option<Seq<u8>>)>,
    before: Map<Key, Seq<u8>>,
)
    requires
        records(log, reads_of(before), reads_of(tree)),
    ensures
        state_manager::apply_writes(tree, state_manager::restore_writes(log)) == before,
{
    let back = state_manager::apply_writes(tree, state_manager::restore_writes(log));
    assert forall|k: Key| #[trigger] tree_get(back, k) == tree_get(before, k) by {
        let w = state_manager::restore_writes(log);
        lemma_apply(tree, w, k);
        if mentions(log, k) {
            let i = choose|i: int| 0 <= i < log.len() && (#[trigger] log[i]).0 == k;
            assert(log[i].1 == reads_of(before)(k));
            lemma_restored_value(log, k, reads_of(before)(k));
            if before.contains_key(k) && before[k].len() == 0 {
                assert(before[k] =~= Seq::<u8>::empty());
            }
        } else {
            if writes_to(w, k) {
                let i = choose|i: int| 0 <= i < w.len() && (#[trigger] w[i]).0 == k;
                assert(log[i].0 == k);
            }
            assert(reads_of(tree)(k) == reads_of(before)(k));
        }
    }
    lemma_same_reads(back, before);
}

proof fn lemma_undo_keeps_step(
    cache: Map<Key, Seq<u8>>,
    tree: Map<Key, Seq<u8>>,
    writes: Seq<(Key, Seq<u8>)>,
)
    requires
        in_step(cache, tree),
    ensures
        in_step(
            state_manager::apply_writes(cache, writes),
            state_manager::apply_writes(tree, writes),
        ),
{
    let c = state_manager::apply_writes(cache, writes);
    let t = state_manager::apply_writes(tree, writes);
    assert forall|k: Key| #[trigger] read(c, t, k) == tree_get(t, k) by {
        lemma_apply(cache, writes, k);
        lemma_apply(tree, writes, k);
        assert(read(cache, tree, k) == tree_get(tree, k));
        assert(tree_get(c, k) is Some == c.contains_key(k));
        assert(tree_get(cache, k) is Some == cache.contains_key(k));
    }
}

/// Whether the newest logs record the blocks that led through `trees`, each from
/// one tree to the next.
pub open spec fn record_trees(undo: Seq<UndoLog>, trees: Seq<Map<Key, Seq<u8>>>) -> bool {
    &&& 1 <= trees.len() <= undo.len() + 1
    &&& forall|i: int|
        0 <= i < trees.len() - 1 ==> records(
            (#[trigger] undo[undo.len() - trees.len() + 1 + i]).1,
            reads_of(trees[i]),
            reads_of(trees[i + 1]),
        )
}

/// A revert gives the tree back what it held after the last block kept, and the
/// state its root: where the logs above the target record the blocks that led
/// through `trees`, and a root is the `root_of` what the tree holds.
pub proof fn law_revert_restores_the_root(
    s: StateModel,
    trees: Seq<Map<Key, Seq<u8>>>,
    target: u64,
    replies: Seq<TreeReply>,
    root_of: spec_fn(Map<Key, Seq<u8>>) -> Key,
    done: nat,
)
    requires
        record_trees(s.undo, trees),
        trees.len() == state_manager::logs_above(s.undo, target) + 1,
        s.root == root_of(trees.last()),
        answered(
            trees.last(),
            state_manager::revert_batches(s.undo, target),
            replies,
            root_of,
        ),
    ensures
        ({
            let out = state_manager::revert_from(s, target, replies, done);
            let batches = state_manager::revert_batches(s.undo, target);
            &&& out.result == Ok::<nat, Seq<char>>((done + trees.len() - 1) as nat)
            &&& out.state.undo == s.undo.take(s.undo.len() - trees.len() + 1)
            &&& out.state.pending == s.pending
            &&& out.state.known == s.known
            &&& apply_batches(trees.last(), batches) == trees[0]
            &&& out.state.root == root_of(trees[0])
            &&& in_step(s.cache, trees.last()) ==> in_step(out.state.cache, trees[0])
        }),
    decreases s.undo.len(),
{
    let undo = s.undo;
    let n = trees.len() - 1;
    if undo.len() == 0 || undo.last().0 <= target {
        assert(undo.take(undo.len() as int) =~= undo);
        assert(trees.last() == trees[0]);
    } else {
        let log = undo.last().1;
        let writes = state_manager::restore_writes(log);
        let rest = undo.drop_last();
        let trees2 = trees.drop_last();
        let batches = state_manager::revert_batches(undo, target);
        let batches2 = state_manager::revert_batches(rest, target);
        assert(undo[undo.len() - trees.len() + 1 + (n - 1)] == undo.last());
        assert(trees[n] == trees.last() && trees[n - 1] == trees2.last());
        lemma_undo_restores_the_tree(trees.last(), log, trees2.last());
        if in_step(s.cache, trees.last()) {
            lemma_undo_keeps_step(s.cache, trees.last(), writes);
        }
        assert forall|i: int| 0 <= i < trees2.len() - 1 implies records(
            (#[trigger] rest[rest.len() - trees2.len() + 1 + i]).1,
            reads_of(trees2[i]),
            reads_of(trees2[i + 1]),
        ) by {
            assert(rest[rest.len() - trees2.len() + 1 + i] == undo[undo.len() - trees.len() + 1
                + i]);
        }
        let popped = StateModel {
            cache: state_manager::apply_writes(s.cache, writes),
            undo: rest,
            ..s
        };
        if writes.len() == 0 {
            assert(trees.last() == trees2.last());
            law_revert_restores_the_root(popped, trees2, target, replies, root_of, done + 1);
        } else {
            assert(batches =~= seq![writes] + batches2);
            assert(batches.skip(1) =~= batches2);
            let popped2 = StateModel { root: replies[0]->Ok_0, ..popped };
            law_revert_restores_the_root(
                popped2,
                trees2,
                target,
                replies.skip(1),
                root_of,
                done + 1,
            );
        }
        assert(trees2[0] == trees[0]);
        assert(rest.take(undo.len() - trees.len() + 1) =~= undo.take(
            undo.len() - trees.len() + 1,
        ));
    }
}

/// A state with the tree that its writes end in.
#[verifier::ext_equal]
pub struct Stored {
    pub state: StateModel,
    pub tree: Map<Key, Seq<u8>>,
}

/// What a block is about to overwrite: the value that a reader sees under each key
/// that it writes.
pub open spec fn undo_of(c: Stored, writes: Seq<(Key, Seq<u8>)>) -> Seq<
    (Key, Option<Seq<u8>>),
> {
    writes.map_values(|w: (Key, Seq<u8>)| (w.0, read(c.state.cache, c.tree, w.0)))
}

/// The state after a block whose writes are deferred, flushed and recorded.
pub open spec fn after_one_block(
    c: Stored,
    slot: u64,
    writes: Seq<(Key, Seq<u8>)>,
    root_of: spec_fn(Map<Key, Seq<u8>>) -> Key,
) -> Stored {
    let pending = c.state.pending + writes;
    let known = state_manager::with_keys(c.state.known, writes);
    let tree = state_manager::apply_writes(c.tree, pending);
    Stored {
        state: StateModel {
            cache: state_manager::overlay(c.state.cache, writes),
            root: if pending.len() == 0 {
                c.state.root
            } else {
                root_of(tree)
            },
            known: if pending.len() == 0 {
                known
            } else {
                state_manager::with_keys(known, pending)
            },
            pending: Seq::empty(),
            undo: state_manager::push_bounded(c.state.undo, (slot, undo_of(c, writes))),
        },
        tree,
    }
}

/// The state after the blocks of the slots from `first` on, each with its writes.
pub open spec fn after_blocks(
    c: Stored,
    first: int,
    blocks: Seq<Seq<(Key, Seq<u8>)>>,
    root_of: spec_fn(Map<Key, Seq<u8>>) -> Key,
) -> Stored
    decreases blocks.len(),
{
    if blocks.len() == 0 {
        c
    } else {
        after_one_block(
            after_blocks(c, first, blocks.drop_last(), root_of),
            (first + blocks.len() - 1) as u64,
            blocks.last(),
            root_of,
        )
    }
}

/// Whether a state has nothing pending, its cache shows what its tree holds, which
/// is no empty value, and its root is that of the tree.
pub open spec fn settled(c: Stored, root_of: spec_fn(Map<Key, Seq<u8>>) -> Key) -> bool {
    &&& c.state.pending.len() == 0
    &&& in_step(c.state.cache, c.tree)
    &&& forall|k: Key| #[trigger] c.tree.contains_key(k) ==> c.tree[k].len() > 0
    &&& c.state.root == root_of(c.tree)
}

proof fn lemma_one_block(
    c: Stored,
    slot: u64,
    writes: Seq<(Key, Seq<u8>)>,
    root_of: spec_fn(Map<Key, Seq<u8>>) -> Key,
)
    requires
        settled(c, root_of),
    ensures
        settled(after_one_block(c, slot, writes, root_of), root_of),
        records(
            undo_of(c, writes),
            reads_of(c.tree),
            reads_of(after_one_block(c, slot, writes, root_of).tree),
        ),
{
    let d = after_one_block(c, slot, writes, root_of);
    let log = undo_of(c, writes);
    assert(c.state.pending + writes =~= writes);
    assert forall|k: Key| #[trigger] read(d.state.cache, d.tree, k) == tree_get(d.tree, k) by {
        lemma_overlay(c.state.cache, writes, k);
        lemma_apply(c.tree, writes, k);
        assert(read(c.state.cache, c.tree, k) == tree_get(c.tree, k));
        assert(tree_get(d.state.cache, k) is Some == d.state.cache.contains_key(k));
        assert(tree_get(c.state.cache, k) is Some == c.state.cache.contains_key(k));
    }
    assert forall|k: Key| #[trigger] d.tree.contains_key(k) implies d.tree[k].len() > 0 by {
        lemma_apply(c.tree, writes, k);
        assert(tree_get(d.tree, k) == Some(d.tree[k]));
        assert(c.tree.contains_key(k) ==> c.tree[k].len() > 0);
    }
    assert forall|i: int| 0 <= i < log.len() implies (#[trigger] log[i]).1 == reads_of(c.tree)(
        log[i].0,
    ) && log[i].1 != Some(Seq::<u8>::empty()) by {
        let k = writes[i].0;
        assert(read(c.state.cache, c.tree, k) == tree_get(c.tree, k));
        assert(c.tree.contains_key(k) ==> c.tree[k].len() > 0);
    }
    assert forall|k: Key| !(#[trigger] mentions(log, k)) implies reads_of(d.tree)(k) == reads_of(
        c.tree,
    )(k) by {
        if writes_to(writes, k) {
            let i = choose|i: int| 0 <= i < writes.len() && (#[trigger] writes[i]).0 == k;
            assert(log[i].0 == k);
        }
        lemma_apply(c.tree, writes, k);
    }
}

/// The trees that blocks lead through, from the one before the first on.
pub open spec fn trees_through(
    c: Stored,
    first: int,
    blocks: Seq<Seq<(Key, Seq<u8>)>>,
    root_of: spec_fn(Map<Key, Seq<u8>>) -> Key,
) -> Seq<Map<Key, Seq<u8>>> {
    Seq::new(
        blocks.len() + 1,
        |i: int| after_blocks(c, first, blocks.take(i), root_of).tree,
    )
}

proof fn lemma_blocks_are_recorded(
    c: Stored,
    first: int,
    blocks: Seq<Seq<(Key, Seq<u8>)>>,
    root_of: spec_fn(Map<Key, Seq<u8>>) -> Key,
)
    requires
        settled(c, root_of),
        c.state.undo.len() <= state_manager::MAX_UNDO_DEPTH,
        blocks.len() <= state_manager::MAX_UNDO_DEPTH,
        1 <= first,
        first + blocks.len() <= u64::MAX + 1,
        forall|i: int| 0 <= i < c.state.undo.len() ==> (#[trigger] c.state.undo[i]).0 < first,
    ensures
        ({
            let d = after_blocks(c, first, blocks, root_of);
            let n = blocks.len() as int;
            let undo = d.state.undo;
            &&& settled(d, root_of)
            &&& n <= undo.len() <= state_manager::MAX_UNDO_DEPTH
            &&& undo.len() <= c.state.undo.len() + n
            &&& forall|i: int|
                undo.len() - n <= i < undo.len() ==> (#[trigger] undo[i]).0 == first + i - (
                undo.len() - n)
            &&& forall|i: int|
                0 <= i < undo.len() - n ==> (#[trigger] undo[i]).0 < first
            &&& record_trees(undo, trees_through(c, first, blocks, root_of))
        }),
    decreases blocks.len(),
{
    let trees = trees_through(c, first, blocks, root_of);
    assert(blocks.take(blocks.len() as int) =~= blocks);
    if blocks.len() > 0 {
        let rest = blocks.drop_last();
        let n = blocks.len() as int;
        let b = after_blocks(c, first, rest, root_of);
        let d = after_blocks(c, first, blocks, root_of);
        let slot = (first + n - 1) as u64;
        lemma_blocks_are_recorded(c, first, rest, root_of);
        lemma_one_block(b, slot, blocks.last(), root_of);
        let log = (slot, undo_of(b, blocks.last()));
        let u = b.state.undo;
        let undo = d.state.undo;
        let cut = u.len() + 1 - undo.len();
        assert(undo =~= u.push(log).skip(cut));
        let trees2 = trees_through(c, first, rest, root_of);
        assert forall|i: int| 0 <= i < n implies trees[i] == trees2[i] by {
            assert(blocks.take(i) =~= rest.take(i));
        }
        assert(rest.take(n - 1) =~= rest);
        assert(trees2[n - 1] == b.tree);
        assert(trees[n] == d.tree);
        assert forall|i: int| undo.len() - n <= i < undo.len() implies (#[trigger] undo[i]).0
            == first + i - (undo.len() - n) by {
            if i < undo.len() - 1 {
                assert(undo[i] == u[i + cut]);
            }
        }
        assert forall|i: int| 0 <= i < undo.len() - n implies (#[trigger] undo[i]).0 < first by {
            assert(undo[i] == u[i + cut]);
        }
        assert forall|i: int| 0 <= i < trees.len() - 1 implies records(
            (#[trigger] undo[undo.len() - trees.len() + 1 + i]).1,
            reads_of(trees[i]),
            reads_of(trees[i + 1]),
        ) by {
            let j = undo.len() - trees.len() + 1 + i;
            if i < n - 1 {
                assert(undo[j] == u[j + cut]);
                assert(j + cut == u.len() - trees2.len() + 1 + i);
                assert(trees[i] == trees2[i] && trees[i + 1] == trees2[i + 1]);
            }
        }
    }
}

proof fn lemma_logs_above(undo: Seq<UndoLog>, target: u64, n: nat)
    requires
        n <= undo.len(),
        forall|i: int| undo.len() - n <= i < undo.len() ==> (#[trigger] undo[i]).0 > target,
        n < undo.len() ==> undo[undo.len() - n - 1].0 <= target,
    ensures
        state_manager::logs_above(undo, target) == n,
    decreases n,
{
    if n > 0 {
        let rest = undo.drop_last();
        assert(undo[undo.len() - 1] == undo.last());
        assert forall|i: int| rest.len() - (n - 1) <= i < rest.len() implies (#[trigger] rest[i]).0
            > target by {
            assert(rest[i] == undo[i]);
        }
        lemma_logs_above(rest, target, (n - 1) as nat);
    }
}

/// A revert to `target` undoes the blocks of the slots above it, at most
/// `MAX_UNDO_DEPTH`, that were deferred, flushed and recorded one after the other:
/// it is not refused, counts them, and leaves the root, the tree and what a reader
/// sees under every key as they were before the first of them. To revert again
/// changes nothing.
pub proof fn law_reverted_blocks_leave_no_trace(
    c: Stored,
    target: u64,
    blocks: Seq<Seq<(Key, Seq<u8>)>>,
    replies: Seq<TreeReply>,
    root_of: spec_fn(Map<Key, Seq<u8>>) -> Key,
)
    requires
        settled(c, root_of),
        c.state.undo.len() <= state_manager::MAX_UNDO_DEPTH,
        blocks.len() <= state_manager::MAX_UNDO_DEPTH,
        target + blocks.len() <= u64::MAX,
        forall|i: int| 0 <= i < c.state.undo.len() ==> (#[trigger] c.state.undo[i]).0 <= target,
        answered(
            after_blocks(c, target + 1, blocks, root_of).tree,
            state_manager::revert_batches(
                after_blocks(c, target + 1, blocks, root_of).state.undo,
                target,
            ),
            replies,
            root_of,
        ),
    ensures
        ({
            let d = after_blocks(c, target + 1, blocks, root_of);
            let out = state_manager::revert_from(d.state, target, replies, 0);
            let tree = apply_batches(
                d.tree,
                state_manager::revert_batches(d.state.undo, target),
            );
            &&& !state_manager::below_oldest(d.state.undo, target)
            &&& out.result == Ok::<nat, Seq<char>>(blocks.len())
            &&& out.state.root == c.state.root
            &&& tree == c.tree
            &&& forall|k: Key| #[trigger]
                read(out.state.cache, tree, k) == read(c.state.cache, c.tree, k)
            &&& out.state.undo.len() == d.state.undo.len() - blocks.len()
            &&& !state_manager::below_oldest(out.state.undo, target)
            &&& state_manager::revert_from(out.state, target, Seq::empty(), 0) == (Reverted {
                state: out.state,
                result: Ok(0),
            })
        }),
{
    let first = target + 1;
    let d = after_blocks(c, first, blocks, root_of);
    let undo = d.state.undo;
    let n = blocks.len();
    let trees = trees_through(c, first, blocks, root_of);
    lemma_blocks_are_recorded(c, first, blocks, root_of);
    assert(blocks.take(n as int) =~= blocks);
    assert(blocks.take(0) =~= Seq::empty());
    assert(trees.last() == d.tree);
    assert(trees[0] == c.tree);
    lemma_logs_above(undo, target, n);
    law_revert_restores_the_root(d.state, trees, target, replies, root_of, 0);
    let out = state_manager::revert_from(d.state, target, replies, 0);
    if undo.len() > 0 {
        assert(undo[0].0 <= first);
    }
    assert forall|k: Key| #[trigger] read(out.state.cache, c.tree, k) == read(
        c.state.cache,
        c.tree,
        k,
    ) by {
        assert(read(c.state.cache, c.tree, k) == tree_get(c.tree, k));
    }
    if out.state.undo.len() > 0 {
        assert(out.state.undo[0] == undo[0]);
        assert(out.state.undo.last() == undo[undo.len() - n - 1]);
    }
}

/// A state that was filled by writes of single values, each of which went to the
/// cache and to the tree.
pub open spec fn after_inserts(
    c: Stored,
    inserts: Seq<(Key, Seq<u8>)>,
    root_of: spec_fn(Map<Key, Seq<u8>>) -> Key,
) -> Stored
    decreases inserts.len(),
{
    if inserts.len() == 0 {
        c
    } else {
        let b = after_inserts(c, inserts.drop_last(), root_of);
        let (key, value) = inserts.last();
        let tree = state_manager::apply_writes(b.tree, seq![(key, value)]);
        Stored {
            state: StateModel {
                cache: b.state.cache.insert(key, value),
                known: state_manager::with_keys(b.state.known, seq![(key, value)]),
                root: root_of(tree),
                ..b.state
            },
            tree,
        }
    }
}

/// A state that was just opened over an empty tree.
pub open spec fn opened(root_of: spec_fn(Map<Key, Seq<u8>>) -> Key) -> Stored {
    Stored {
        state: StateModel {
            cache: Map::empty(),
            root: root_of(Map::empty()),
            known: Seq::empty(),
            pending: Seq::empty(),
            undo: Seq::empty(),
        },
        tree: Map::empty(),
    }
}

proof fn lemma_one_known(known: Seq<Key>, key: Key, value: Seq<u8>)
    ensures
        state_manager::with_keys(known, seq![(key, value)]) == (if known.contains(key) {
            known
        } else {
            known.push(key)
        }),
{
    assert(seq![(key, value)].drop_last() =~= Seq::empty());
    reveal_with_fuel(state_manager::with_keys, 2);
}

proof fn lemma_one_write(tree: Map<Key, Seq<u8>>, key: Key, value: Seq<u8>)
    requires
        value.len() > 0,
    ensures
        state_manager::apply_writes(tree, seq![(key, value)]) == tree.insert(key, value),
{
    assert(seq![(key, value)].drop_last() =~= Seq::empty());
    reveal_with_fuel(state_manager::apply_writes, 2);
}

proof fn lemma_filled(
    inserts: Seq<(Key, Seq<u8>)>,
    root_of: spec_fn(Map<Key, Seq<u8>>) -> Key,
)
    requires
        forall|i: int| 0 <= i < inserts.len() ==> (#[trigger] inserts[i]).1.len() > 0,
    ensures
        ({
            let c = after_inserts(opened(root_of), inserts, root_of);
            &&& c.state.cache == c.tree
            &&& c.state.root == root_of(c.tree)
            &&& c.state.known.no_duplicates()
            &&& forall|k: Key| #[trigger] c.tree.contains_key(k) <==> c.state.known.contains(k)
            &&& forall|k: Key| #[trigger] c.tree.contains_key(k) <==> writes_to(inserts, k)
            &&& forall|k: Key| #[trigger] c.tree.contains_key(k) ==> c.tree[k].len() > 0
        }),
    decreases inserts.len(),
{
    let c = after_inserts(opened(root_of), inserts, root_of);
    if inserts.len() > 0 {
        let rest = inserts.drop_last();
        let b = after_inserts(opened(root_of), rest, root_of);
        let (key, value) = inserts.last();
        assert(inserts[inserts.len() - 1] == inserts.last());
        assert forall|i: int| 0 <= i < rest.len() implies (#[trigger] rest[i]).1.len() > 0 by {
            assert(rest[i] == inserts[i]);
        }
        lemma_filled(rest, root_of);
        lemma_one_known(b.state.known, key, value);
        lemma_one_write(b.tree, key, value);
        let (k0, k1) = (b.state.known, c.state.known);
        assert forall|k: Key| #[trigger] c.tree.contains_key(k) <==> k1.contains(k) by {
            assert(b.tree.contains_key(k) <==> k0.contains(k));
            if k0.contains(k) {
                let i = choose|i: int| 0 <= i < k0.len() && k0[i] == k;
                assert(k1[i] == k);
            }
            if !k0.contains(key) {
                assert(k1[k0.len() as int] == key);
            }
        }
        assert forall|k: Key| #[trigger] c.tree.contains_key(k) <==> writes_to(inserts, k) by {
            lemma_writes_to_split(inserts, k);
            assert(b.tree.contains_key(k) <==> writes_to(rest, k));
        }
        assert forall|k: Key| #[trigger] c.tree.contains_key(k) implies c.tree[k].len() > 0 by {
            assert(b.tree.contains_key(k) ==> b.tree[k].len() > 0);
        }
    }
}

proof fn lemma_all_exported(keys: Seq<Key>, values: Seq<Option<Seq<u8>>>, n: nat)
    requires
        values.len() == keys.len(),
        n <= keys.len(),
        forall|i: int| 0 <= i < values.len() ==> (#[trigger] values[i]) is Some,
    ensures
        state_manager::exported(keys, values, n).len() == n,
    decreases n,
{
    if n > 0 {
        lemma_all_exported(keys, values, (n - 1) as nat);
    }
}

/// A snapshot of a state that was filled by inserts of values has one entry for
/// each key inserted. A fresh state that imports it has the same tree, hence the
/// same root, and shows the same under every key.
pub proof fn law_imported_snapshots_keep_the_root(
    inserts: Seq<(Key, Seq<u8>)>,
    root_of: spec_fn(Map<Key, Seq<u8>>) -> Key,
    key: Key,
)
    requires
        forall|i: int| 0 <= i < inserts.len() ==> (#[trigger] inserts[i]).1.len() > 0,
    ensures
        ({
            let c = after_inserts(opened(root_of), inserts, root_of);
            let keys = c.state.known;
            let values = Seq::new(keys.len(), |i: int| tree_get(c.tree, keys[i]));
            let snapshot = state_manager::exported(keys, values, keys.len());
            let tree = state_manager::apply_writes(
                Map::empty(),
                state_manager::snapshot_writes_of(snapshot),
            );
            &&& keys.no_duplicates()
            &&& keys.contains(key) <==> writes_to(inserts, key)
            &&& snapshot.len() == keys.len()
            &&& tree == c.tree
            &&& state_manager::root_after(
                opened(root_of).state.root,
                Ok::<Key, TreeError>(root_of(tree)),
            ) == c.state.root
            &&& read(opened(root_of).state.cache, tree, key) == read(c.state.cache, c.tree, key)
        }),
{
    let c = after_inserts(opened(root_of), inserts, root_of);
    let keys = c.state.known;
    let values = Seq::new(keys.len(), |i: int| tree_get(c.tree, keys[i]));
    let snapshot = state_manager::exported(keys, values, keys.len());
    let tree = state_manager::apply_writes(
        Map::empty(),
        state_manager::snapshot_writes_of(snapshot),
    );
    lemma_filled(inserts, root_of);
    assert forall|i: int| 0 <= i < values.len() implies (#[trigger] values[i]) is Some by {
        assert(keys.contains(keys[i]));
        assert(c.tree.contains_key(keys[i]));
    }
    lemma_all_exported(keys, values, keys.len());
    assert forall|k: Key| #[trigger] tree_get(tree, k) == tree_get(c.tree, k) by {
        law_snapshot_round_trip(keys, c.tree, k);
        assert(c.tree.contains_key(k) <==> keys.contains(k));
    }
    lemma_same_reads(tree, c.tree);
    assert(c.tree.contains_key(key) ==> c.tree[key].len() > 0);
    assert(c.tree.contains_key(key) <==> keys.contains(key));
}

} // verus!
