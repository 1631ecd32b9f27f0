use pyde_node::state_manager::{
    snapshot_writes, StateManager, TreeError, UndoEntry, MAX_UNDO_DEPTH,
};
use std::collections::BTreeMap;

type Key = [u8; 32];

/// A tree whose root depends on the values that it holds, and on nothing else: an
/// empty value is as good as none.
struct Tree {
    values: BTreeMap<Key, Vec<u8>>,
}

impl Tree {
    fn new() -> Self {
        Tree { values: BTreeMap::new() }
    }

    fn root(&self) -> Key {
        let mut lanes = [0xcbf29ce484222325u64, 1, 2, 3];
        for (k, v) in &self.values {
            for (i, b) in k.iter().chain(v.iter()).chain([0xFFu8].iter()).enumerate() {
                let lane = &mut lanes[i % 4];
                *lane = (*lane ^ *b as u64).wrapping_mul(0x100000001b3).rotate_left(7);
            }
        }
        let mut root = [0u8; 32];
        for (i, lane) in lanes.iter().enumerate() {
            root[i * 8..i * 8 + 8].copy_from_slice(&lane.to_le_bytes());
        }
        root
    }

    fn apply(&mut self, writes: &[(Key, Vec<u8>)]) -> Key {
        for (k, v) in writes {
            if v.is_empty() {
                self.values.remove(k);
            } else {
                self.values.insert(*k, v.clone());
            }
        }
        self.root()
    }

    fn get(&self, key: &Key) -> Option<Vec<u8>> {
        self.values.get(key).cloned()
    }
}

struct Store {
    state: StateManager,
    tree: Tree,
}

impl Store {
    fn open() -> Self {
        let tree = Tree::new();
        Store { state: StateManager::open(tree.root()), tree }
    }

    fn get(&self, key: &Key) -> Option<Vec<u8>> {
        self.state.get(key, self.tree.get(key))
    }

    fn insert(&mut self, key: Key, value: Vec<u8>) -> Result<Key, String> {
        let root = self.tree.apply(&[(key, value.clone())]);
        self.state.insert(key, value, Ok(root))
    }

    fn update_batch(&mut self, writes: Vec<(Key, Vec<u8>)>) -> Result<Key, String> {
        let root = self.tree.apply(&writes);
        self.state.update_batch(&writes, Ok(root))
    }

    fn flush_pending(&mut self) -> Result<Key, String> {
        let root = self.tree.apply(&self.state.pending_writes().clone());
        self.state.flush_pending(Ok(root))
    }

    fn export_snapshot(&self) -> Vec<(Vec<u8>, Vec<u8>)> {
        let committed: Vec<Option<Vec<u8>>> =
            self.state.known_keys().iter().map(|k| self.tree.get(k)).collect();
        self.state.export_snapshot(&committed)
    }

    fn import_snapshot(&mut self, snapshot: Vec<(Vec<u8>, Vec<u8>)>) -> Result<Key, String> {
        let root = self.tree.apply(&snapshot_writes(&snapshot));
        self.state.import_snapshot(&snapshot, Ok(root))
    }

    fn revert_to(&mut self, target: u64) -> Result<usize, String> {
        let batches = self.state.plan_revert(target)?;
        let mut replies = Vec::new();
        for b in &batches {
            replies.push(Ok(self.tree.apply(b)));
        }
        self.state.revert_to(target, replies)
    }
}

fn balance_key(address: &[u8; 32]) -> Key {
    let mut k = *address;
    k[31] = 0x04;
    k
}

#[test]
fn snapshot_export_import_roundtrip() {
    let mut state1 = Store::open();
    let key_a = balance_key(&[0x01; 32]);
    let key_b = balance_key(&[0x02; 32]);
    state1.insert(key_a, 1000u128.to_le_bytes().to_vec()).unwrap();
    state1.insert(key_b, 2000u128.to_le_bytes().to_vec()).unwrap();
    let root1 = state1.state.root();
    let snapshot = state1.export_snapshot();
    assert_eq!(snapshot.len(), 2);

    let mut state2 = Store::open();
    let root2 = state2.import_snapshot(snapshot).unwrap();
    assert_eq!(root1, root2);
    assert_eq!(state2.get(&key_a).unwrap(), 1000u128.to_le_bytes().to_vec());
    assert_eq!(state2.get(&key_b).unwrap(), 2000u128.to_le_bytes().to_vec());
}

#[test]
fn empty_snapshot() {
    let state = Store::open();
    assert!(state.export_snapshot().is_empty());
}

fn k(seed: u8) -> Key {
    let mut a = [0u8; 32];
    a[0] = seed;
    a
}

#[test]
fn revert_to_undoes_one_block() {
    let mut state = Store::open();

    // Pre-block: key_a = "before".
    let key_a = k(0xA1);
    state.update_batch(vec![(key_a, b"before".to_vec())]).unwrap();

    // Block at slot 1: change key_a, add key_b. Capture undo
    // (the pre-block values) and record.
    let key_b = k(0xB2);
    let undo = vec![
        UndoEntry {
            key: key_a,
            old_value: Some(b"before".to_vec()),
        },
        UndoEntry {
            key: key_b,
            old_value: None, // didn't exist
        },
    ];
    state
        .update_batch(vec![(key_a, b"after".to_vec()), (key_b, b"new".to_vec())])
        .unwrap();
    state.state.record_block_undo(1, undo);
    assert_eq!(state.state.undo_log_len(), 1);

    // Pre-revert: cache has the new values.
    assert_eq!(state.get(&key_a).unwrap(), b"after");
    assert_eq!(state.get(&key_b).unwrap(), b"new");

    // Revert to slot 0.
    let n = state.revert_to(0).unwrap();
    assert_eq!(n, 1, "exactly one block should be reverted");
    assert_eq!(state.state.undo_log_len(), 0);

    // Post-revert: cache restored.
    assert_eq!(state.get(&key_a).unwrap(), b"before");
    assert_eq!(state.get(&key_b), None);
}

#[test]
fn revert_to_pops_only_above_target() {
    let mut state = Store::open();

    for slot in 1..=3u64 {
        let key = k(slot as u8);
        state.update_batch(vec![(key, vec![slot as u8])]).unwrap();
        state.state.record_block_undo(
            slot,
            vec![UndoEntry {
                key,
                old_value: None,
            }],
        );
    }
    assert_eq!(state.state.undo_log_len(), 3);

    let n = state.revert_to(1).unwrap();
    assert_eq!(n, 2);
    assert_eq!(state.state.undo_log_len(), 1);
    // Block 1's write still present
    assert_eq!(state.get(&k(1)).unwrap(), vec![1]);
    // Blocks 2 and 3's writes reverted
    assert_eq!(state.get(&k(2)), None);
    assert_eq!(state.get(&k(3)), None);
}

#[test]
fn revert_to_below_oldest_log_errors() {
    let mut state = Store::open();
    // Write past MAX_UNDO_DEPTH (128) so the front gets pruned.
    for slot in 1..=(MAX_UNDO_DEPTH as u64 + 5) {
        state.state.record_block_undo(slot, vec![]);
    }
    assert_eq!(state.state.undo_log_len(), MAX_UNDO_DEPTH);
    // Front log is now slot 6 (slots 1..=5 pruned).
    // Reverting to slot 3 should be rejected.
    let err = state.revert_to(3).unwrap_err();
    assert!(err.contains("below oldest undo log"));
    assert!(!state.state.can_revert_to(3));
    assert!(state.state.can_revert_to(5));
}

#[test]
fn revert_to_noop_when_target_is_head() {
    let mut state = Store::open();
    state.state.record_block_undo(1, vec![]);
    state.state.record_block_undo(2, vec![]);
    let n = state.revert_to(2).unwrap();
    assert_eq!(n, 0);
    assert_eq!(state.state.undo_log_len(), 2);
}

#[test]
fn revert_to_restores_smt_root_to_snapshot() {
    let mut state = Store::open();

    // Simulate one "block": capture pre-block values, apply writes, flush,
    // record undo. Returns the post-block root.
    let apply_block = |s: &mut Store, slot: u64, writes: Vec<(Key, Vec<u8>)>| -> Key {
        let undo: Vec<UndoEntry> = writes
            .iter()
            .map(|(k, _)| UndoEntry {
                key: *k,
                old_value: s.get(k),
            })
            .collect();
        s.state.update_batch_deferred(writes);
        let root = s.flush_pending().unwrap();
        s.state.record_block_undo(slot, undo);
        root
    };

    // Block 1: set key_a, key_b
    let r1 = apply_block(
        &mut state,
        1,
        vec![(k(0xA1), b"a-v1".to_vec()), (k(0xB2), b"b-v1".to_vec())],
    );
    // Block 2: change key_a, set key_c
    let r2_snapshot = apply_block(
        &mut state,
        2,
        vec![(k(0xA1), b"a-v2".to_vec()), (k(0xC3), b"c-v1".to_vec())],
    );
    // Block 3: change key_b, delete key_c (empty value), add key_d
    let r3 = apply_block(
        &mut state,
        3,
        vec![
            (k(0xB2), b"b-v2".to_vec()),
            (k(0xC3), Vec::new()), // delete
            (k(0xD4), b"d-v1".to_vec()),
        ],
    );

    // Sanity: root advanced over time.
    assert_ne!(r2_snapshot, r1);
    assert_ne!(r3, r2_snapshot);

    // Revert to slot 2 — root must match the slot-2 snapshot.
    let reverted = state.revert_to(2).unwrap();
    assert_eq!(reverted, 1);
    assert_eq!(
        state.state.root(),
        r2_snapshot,
        "post-revert root must equal the slot-2 snapshot"
    );

    // Cache + tree both reflect slot-2 view.
    assert_eq!(state.get(&k(0xA1)).unwrap(), b"a-v2"); // unchanged in block 3
    assert_eq!(state.get(&k(0xB2)).unwrap(), b"b-v1"); // restored
    assert_eq!(state.get(&k(0xC3)).unwrap(), b"c-v1"); // restored
    assert_eq!(state.get(&k(0xD4)), None); // never existed before block 3

    // Revert further to slot 1 — root must match block-1 root.
    let reverted = state.revert_to(1).unwrap();
    assert_eq!(reverted, 1);
    assert_eq!(state.state.root(), r1);
    assert_eq!(state.get(&k(0xA1)).unwrap(), b"a-v1"); // restored
    assert_eq!(state.get(&k(0xC3)), None); // restored to "absent"
}

#[test]
fn deferred_writes_are_seen_before_they_are_flushed() {
    let mut s = Store::open();
    s.state.insert_deferred(k(1), vec![7]);
    assert_eq!(s.get(&k(1)), Some(vec![7]));
    assert!(s.state.is_cached(&k(1)));
    assert_eq!(s.tree.get(&k(1)), None);
    let reader = s.state.snapshot_reader();
    s.state.insert_deferred(k(1), vec![8]);
    // A snapshot stays as it was.
    assert_eq!(reader.get(&k(1), None), Some(vec![7]));
    let root = s.flush_pending().unwrap();
    assert_eq!(root, s.tree.root());
    assert_eq!(s.tree.get(&k(1)), Some(vec![8]));
    assert_eq!(s.state.entry_count(), 1);
    // With nothing pending the tree is not asked.
    let poisoned = Err(TreeError::Poisoned("p".to_string()));
    assert_eq!(s.state.flush_pending(poisoned), Ok(root));
}

#[test]
fn snapshots_stay_at_their_root() {
    let mut s = Store::open();
    let mut trees: BTreeMap<Key, BTreeMap<Key, Vec<u8>>> = BTreeMap::new();
    trees.insert(s.tree.root(), s.tree.values.clone());
    let reader = s.state.snapshot_reader();
    s.update_batch(vec![(k(1), b"new".to_vec())]).unwrap();
    trees.insert(s.tree.root(), s.tree.values.clone());
    let held = |root: Key| trees[&root].get(&k(1)).cloned();
    assert_eq!(s.get(&k(1)), Some(b"new".to_vec()));
    assert!(!reader.is_cached(&k(1)));
    assert_eq!(reader.get(&k(1), held(reader.root())), None);
    let fresh = s.state.snapshot_reader();
    assert_ne!(fresh.root(), reader.root());
    assert_eq!(fresh.root(), s.state.root());
    assert_eq!(fresh.get(&k(1), held(fresh.root())), Some(b"new".to_vec()));
}

#[test]
fn a_revert_to_the_last_slot_number_does_nothing() {
    let mut s = Store::open();
    s.state.record_block_undo(1, vec![]);
    assert!(s.state.can_revert_to(u64::MAX));
    assert_eq!(s.revert_to(u64::MAX), Ok(0));
    assert_eq!(s.state.undo_log_len(), 1);
}

#[test]
fn writes_can_be_taken_out_and_committed() {
    let mut s = Store::open();
    s.state.update_batch_deferred(vec![(k(1), vec![1]), (k(2), vec![2])]);
    let writes = s.state.take_pending_writes();
    assert_eq!(writes, vec![(k(1), vec![1]), (k(2), vec![2])]);
    assert!(s.state.pending_writes().is_empty());
    assert_eq!(s.get(&k(2)), Some(vec![2]));
    let root = s.tree.apply(&writes);
    let committed = StateManager::commit_writes_to_smt(Ok(root)).unwrap();
    s.state.set_root(committed);
    assert_eq!(s.state.root(), root);
    s.state.refresh_root(None);
    assert_eq!(s.state.root(), root);
    s.state.refresh_root(Some([9; 32]));
    assert_eq!(s.state.root(), [9; 32]);
}

#[test]
fn the_trees_errors_are_passed_on() {
    let mut s = Store::open();
    let root = s.state.root();
    let failed = || Err(TreeError::Failed("boom".to_string()));
    let e = s.state.insert(k(1), vec![1], failed()).unwrap_err();
    assert!(e.contains("boom"), "{e}");
    assert_eq!(s.state.root(), root);
    let e = StateManager::commit_writes_to_smt(failed()).unwrap_err();
    assert!(e.starts_with("commit failed: "), "{e}");
    let e = s
        .state
        .update_batch(&vec![(k(1), vec![1])], Err(TreeError::Poisoned("lock".to_string())))
        .unwrap_err();
    assert!(e.contains("lock"), "{e}");
    assert!(s.state.delete(&k(1), Err(TreeError::Failed("x".to_string()))).is_err());
    assert_eq!(s.state.delete(&k(1), Ok(true)), Ok(true));
}

#[test]
fn an_unreadable_tree_counts_as_empty() {
    assert!(StateManager::is_empty(None));
    assert!(StateManager::is_empty(Some(true)));
    assert!(!StateManager::is_empty(Some(false)));
}

#[test]
fn keys_of_another_length_stand_for_zero() {
    let w = snapshot_writes(&vec![(vec![1; 31], vec![1]), (vec![2; 32], vec![2])]);
    assert_eq!(w, vec![([0; 32], vec![1]), ([2; 32], vec![2])]);
}
