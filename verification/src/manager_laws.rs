//! What the state manager's operations do to what readers see, to the root, and to
//! what can be taken back.
use vstd::prelude::*;

use crate::keymap;
use crate::keymap::Key;
use crate::state_manager;
use crate::state_manager::{
    StateManager,
    StateModel,
    StateSnapshot,
    TreeError,
    TreeReply,
    UndoEntry,
    UndoLog,
};
use crate::text;

verus! {

/// A reader sees the cached value, where that is not empty; a cached empty value is
/// no value; and what is not cached is what the tree holds. A snapshot reads the
/// same, at the same root.
pub proof fn law_readers_see_the_cache_first(
    s: &StateManager,
    key: &Key,
    committed: Option<Vec<u8>>,
    r: Option<Vec<u8>>,
    cached: bool,
    snap: StateSnapshot,
    again: Option<Vec<u8>>,
)
    requires
        s.wf(),
        call_ensures(StateManager::get, (s, key, committed), r),
        call_ensures(StateManager::is_cached, (s, key), cached),
        call_ensures(StateManager::snapshot_reader, (s,), snap),
        call_ensures(StateSnapshot::get, (&snap, key, committed), again),
    ensures
        cached <==> s@.cache.contains_key(*key),
        cached && s@.cache[*key].len() > 0 ==> r is Some && r->0@ == s@.cache[*key],
        cached && s@.cache[*key].len() == 0 ==> r is None,
        !cached ==> (r is Some <==> committed is Some),
        !cached && r is Some ==> r->0@ == committed->0@,
        snap@.root == s@.root,
        again is Some <==> r is Some,
        again is Some ==> again->0@ == r->0@,
{
}

/// Whether a result is the tree's: its root where it answered, and else its complaint
/// behind what failed.
pub open spec fn told(reply: TreeReply, r: Result<Key, String>, failure: Seq<char>) -> bool {
    &&& r is Ok <==> reply is Ok
    &&& r is Ok ==> r->Ok_0 == reply->Ok_0
    &&& reply is Err && reply->Err_0 is Poisoned ==> r->Err_0@ == "smt lock: "@
        + reply->Err_0->Poisoned_0@
    &&& reply is Err && reply->Err_0 is Failed ==> r->Err_0@ == failure
        + reply->Err_0->Failed_0@
}

/// Whether the root is the tree's where it answered, and else as it was.
pub open spec fn rooted(b: StateModel, a: StateModel, reply: TreeReply) -> bool {
    &&& reply is Ok ==> a.root == reply->Ok_0
    &&& reply is Err ==> a.root == b.root
}

/// A value that is inserted is cached under its key and its key is known; the root is
/// the tree's. No other key is touched, nor what waits or can be taken back.
pub proof fn law_inserted_values_are_seen(key: Key, value: Vec<u8>, reply: TreeReply)
    ensures
        forall|s: &mut StateManager, r: Result<Key, String>| #[trigger]
            call_ensures(StateManager::insert, (s, key, value, reply), r) ==> {
                let (b, a) = ((*s)@, (*final(s))@);
                &&& a.cache.contains_key(key) && a.cache[key] == value@
                &&& forall|k: Key|
                    k != key ==> ((#[trigger] a.cache.contains_key(k)) <==> b.cache.contains_key(k))
                        && a.cache[k] == b.cache[k]
                &&& a.known.contains(key)
                &&& rooted(b, a, reply)
                &&& told(reply, r, "state insert failed: "@)
                &&& a.pending == b.pending && a.undo == b.undo
            },
        forall|s: &mut StateManager| #[trigger]
            call_ensures(StateManager::insert_deferred, (s, key, value), ()) ==> {
                let (b, a) = ((*s)@, (*final(s))@);
                &&& a.cache.contains_key(key) && a.cache[key] == value@
                &&& forall|k: Key|
                    k != key ==> ((#[trigger] a.cache.contains_key(k)) <==> b.cache.contains_key(k))
                        && a.cache[k] == b.cache[k]
                &&& a.known.contains(key)
                &&& a.root == b.root
                &&& a.pending.len() == b.pending.len() + 1
                &&& a.pending.drop_last() == b.pending
                &&& a.pending.last() == (key, value@)
                &&& a.undo == b.undo
            },
{
    assert forall|s: &mut StateManager, r: Result<Key, String>| #[trigger]
        call_ensures(StateManager::insert, (s, key, value, reply), r) implies (
    *final(s))@.known.contains(key) by {
        law_written_keys_are_known((*s)@.known, seq![(key, value@)]);
        assert(seq![(key, value@)][0].0 == key);
    }
    assert forall|s: &mut StateManager| #[trigger]
        call_ensures(StateManager::insert_deferred, (s, key, value), ()) implies (
    *final(s))@.known.contains(key) by {
        law_written_keys_are_known((*s)@.known, seq![(key, value@)]);
        assert(seq![(key, value@)][0].0 == key);
    }
}

/// A key that is deleted is no longer known; nothing else moves, and the tree's
/// answer is handed on.
pub proof fn law_deleted_keys_are_forgotten(key: Key, reply: Result<bool, TreeError>)
    ensures
        forall|s: &mut StateManager, r: Result<bool, String>| #[trigger]
            call_ensures(StateManager::delete, (s, &key, reply), r) ==> {
                let (b, a) = ((*s)@, (*final(s))@);
                &&& !a.known.contains(key)
                &&& forall|k: Key|
                    k != key ==> ((#[trigger] a.known.contains(k)) <==> b.known.contains(k))
                &&& a.cache == b.cache && a.root == b.root && a.pending == b.pending && a.undo
                    == b.undo
                &&& r is Ok <==> reply is Ok
                &&& r is Ok ==> r->Ok_0 == reply->Ok_0
            },
{
    assert forall|s: &mut StateManager, r: Result<bool, String>| #[trigger]
        call_ensures(StateManager::delete, (s, &key, reply), r) implies {
        let (b, a) = ((*s)@, (*final(s))@);
        &&& !a.known.contains(key)
        &&& forall|k: Key| k != key ==> ((#[trigger] a.known.contains(k)) <==> b.known.contains(k))
    } by {
        let (b, a) = ((*s)@, (*final(s))@);
        assert(!a.known.to_set().contains(key));
        assert forall|k: Key| k != key implies ((#[trigger] a.known.contains(k))
            <==> b.known.contains(k)) by {
            assert(a.known.to_set().contains(k) <==> b.known.to_set().contains(k));
        }
    }
}

proof fn lemma_push_contains(s: Seq<Key>, e: Key, k: Key)
    ensures
        s.push(e).contains(k) <==> s.contains(k) || k == e,
{
    let t = s.push(e);
    if s.contains(k) {
        let i = choose|i: int| 0 <= i < s.len() && s[i] == k;
        assert(t[i] == k);
    }
    if k == e {
        assert(t[s.len() as int] == k);
    }
    if t.contains(k) && k != e {
        let i = choose|i: int| 0 <= i < t.len() && t[i] == k;
        assert(s[i] == k);
    }
}

/// Keys that are written become known behind those that are known already, each once.
pub proof fn law_written_keys_are_known(known: Seq<Key>, writes: Seq<(Key, Seq<u8>)>)
    ensures
        ({
            let a = state_manager::with_keys(known, writes);
            &&& a.len() >= known.len()
            &&& a.take(known.len() as int) == known
            &&& forall|k: Key|
                (#[trigger] a.contains(k)) <==> known.contains(k) || exists|i: int|
                    0 <= i < writes.len() && (#[trigger] writes[i]).0 == k
            &&& known.no_duplicates() ==> a.no_duplicates()
        }),
    decreases writes.len(),
{
    let a = state_manager::with_keys(known, writes);
    if writes.len() == 0 {
        assert(a.take(known.len() as int) =~= known);
    } else {
        let rest = writes.drop_last();
        let last = writes.last().0;
        let before = state_manager::with_keys(known, rest);
        law_written_keys_are_known(known, rest);
        assert(writes[writes.len() - 1].0 == last);
        assert forall|k: Key|
            (#[trigger] a.contains(k)) <==> known.contains(k) || exists|i: int|
                0 <= i < writes.len() && (#[trigger] writes[i]).0 == k by {
            lemma_push_contains(before, last, k);
            if before.contains(k) && !known.contains(k) {
                let i = choose|i: int| 0 <= i < rest.len() && (#[trigger] rest[i]).0 == k;
                assert(writes[i] == rest[i]);
            }
            if exists|i: int| 0 <= i < writes.len() && (#[trigger] writes[i]).0 == k {
                let i = choose|i: int| 0 <= i < writes.len() && (#[trigger] writes[i]).0 == k;
                if i < rest.len() {
                    assert(rest[i].0 == k);
                }
            }
        }
        assert(a.take(known.len() as int) =~= before.take(known.len() as int));
    }
}

/// Of deferred writes the last to a key is what is cached; a key without one keeps
/// what it had.
pub proof fn law_last_writes_win(cache: Map<Key, Seq<u8>>, writes: Seq<(Key, Seq<u8>)>, key: Key)
    ensures
        ({
            let a = state_manager::overlay(cache, writes);
            &&& (forall|i: int| 0 <= i < writes.len() ==> (#[trigger] writes[i]).0 != key) ==> ((
            a.contains_key(key) <==> cache.contains_key(key)) && a[key] == cache[key])
            &&& forall|i: int|
                0 <= i < writes.len() && (#[trigger] writes[i]).0 == key && (forall|j: int|
                    i < j < writes.len() ==> (#[trigger] writes[j]).0 != key) ==> a.contains_key(
                    key,
                ) && a[key] == writes[i].1
        }),
    decreases writes.len(),
{
    if writes.len() > 0 {
        let rest = writes.drop_last();
        let last = writes.len() - 1;
        let a = state_manager::overlay(cache, writes);
        law_last_writes_win(cache, rest, key);
        if forall|i: int| 0 <= i < writes.len() ==> (#[trigger] writes[i]).0 != key {
            assert(writes[last].0 != key);
            assert forall|i: int| 0 <= i < rest.len() implies (#[trigger] rest[i]).0 != key by {
                assert(rest[i] == writes[i]);
            }
        }
        assert forall|i: int|
            0 <= i < writes.len() && (#[trigger] writes[i]).0 == key && (forall|j: int|
                i < j < writes.len() ==> (#[trigger] writes[j]).0 != key) implies a.contains_key(
            key,
        ) && a[key] == writes[i].1 by {
            if i < last {
                assert(writes[last].0 != key);
                assert(rest[i] == writes[i]);
                assert forall|j: int| i < j < rest.len() implies (#[trigger] rest[j]).0 != key by {
                    assert(rest[j] == writes[j]);
                }
            }
        }
    }
}

/// A batch that goes to the tree at once makes its keys known and moves the root; the
/// cache stays. A deferred one is cached and waits behind what waits already, with
/// the root as it is.
pub proof fn law_batches_are_written_or_wait(
    entries: Vec<(Key, Vec<u8>)>,
    reply: TreeReply,
    key: Key,
)
    ensures
        forall|s: &mut StateManager, r: Result<Key, String>| #[trigger]
            call_ensures(StateManager::update_batch, (s, &entries, reply), r) ==> {
                let (b, a) = ((*s)@, (*final(s))@);
                &&& rooted(b, a, reply)
                &&& told(reply, r, "state batch update failed: "@)
                &&& a.cache == b.cache && a.pending == b.pending && a.undo == b.undo
                &&& a.known == state_manager::with_keys(
                    b.known,
                    state_manager::writes_view(entries@),
                )
            },
        forall|s: &mut StateManager| #[trigger]
            call_ensures(StateManager::update_batch_deferred, (s, entries), ()) ==> {
                let (b, a) = ((*s)@, (*final(s))@);
                &&& a.root == b.root && a.undo == b.undo
                &&& a.pending.len() == b.pending.len() + entries@.len()
                &&& a.pending.take(b.pending.len() as int) == b.pending
                &&& forall|i: int|
                    0 <= i < entries@.len() ==> a.pending[b.pending.len() + i] == (
                        (#[trigger] entries@[i]).0,
                        entries@[i].1@,
                    )
                &&& a.cache == state_manager::overlay(
                    b.cache,
                    state_manager::writes_view(entries@),
                )
                &&& a.known == state_manager::with_keys(
                    b.known,
                    state_manager::writes_view(entries@),
                )
            },
{
    assert forall|s: &mut StateManager| #[trigger]
        call_ensures(StateManager::update_batch_deferred, (s, entries), ()) implies {
        let (b, a) = ((*s)@, (*final(s))@);
        &&& a.pending.len() == b.pending.len() + entries@.len()
        &&& a.pending.take(b.pending.len() as int) == b.pending
        &&& forall|i: int|
            0 <= i < entries@.len() ==> a.pending[b.pending.len() + i] == (
                (#[trigger] entries@[i]).0,
                entries@[i].1@,
            )
    } by {
        let (b, a) = ((*s)@, (*final(s))@);
        let w = state_manager::writes_view(entries@);
        assert(w.len() == entries@.len());
        assert(a.pending.take(b.pending.len() as int) =~= b.pending);
        assert forall|i: int| 0 <= i < entries@.len() implies a.pending[b.pending.len() + i] == (
            (#[trigger] entries@[i]).0,
            entries@[i].1@,
        ) by {
            assert(w[i] == (entries@[i].0, entries@[i].1@));
        }
    }
}

/// A flush leaves nothing waiting, whatever the tree answered, and moves the root
/// where it did; where nothing waits nothing moves. What is taken is all that waits,
/// in order.
pub proof fn law_flushes_leave_nothing_waiting(reply: TreeReply)
    ensures
        forall|s: &mut StateManager, r: Result<Key, String>| #[trigger]
            call_ensures(StateManager::flush_pending, (s, reply), r) ==> {
                let (b, a) = ((*s)@, (*final(s))@);
                &&& a.pending.len() == 0
                &&& b.pending.len() == 0 ==> a == b && r is Ok && r->Ok_0 == b.root
                &&& b.pending.len() > 0 ==> rooted(b, a, reply) && told(
                    reply,
                    r,
                    "state batch update failed: "@,
                )
                &&& a.cache == b.cache && a.undo == b.undo
            },
        forall|s: &mut StateManager, r: Vec<(Key, Vec<u8>)>| #[trigger]
            call_ensures(StateManager::take_pending_writes, (s,), r) ==> {
                let (b, a) = ((*s)@, (*final(s))@);
                &&& a.pending.len() == 0
                &&& state_manager::writes_view(r@) == b.pending
                &&& a.cache == b.cache && a.root == b.root && a.known == b.known && a.undo
                    == b.undo
            },
{
}

/// The root is set as it is told, and nothing else is; where there is no new root the
/// old one stays. Only a tree that is known not to be empty is not.
pub proof fn law_roots_are_set(root: Key, found: Option<Key>, empty: Option<bool>, r: bool)
    requires
        call_ensures(StateManager::is_empty, (empty,), r),
    ensures
        r <==> empty is None || empty->0,
        forall|s: &mut StateManager| #[trigger]
            call_ensures(StateManager::set_root, (s, root), ()) ==> {
                &&& (*final(s))@.root == root
                &&& (*final(s))@ == (StateModel { root, ..(*s)@ })
            },
        forall|s: &mut StateManager| #[trigger]
            call_ensures(StateManager::refresh_root, (s, found), ()) ==> {
                &&& found is Some ==> (*final(s))@.root == found->0
                &&& found is None ==> (*final(s))@ == (*s)@
                &&& (*final(s))@ == (StateModel { root: (*final(s))@.root, ..(*s)@ })
            },
{
}

/// What a block overwrote is noted behind what was noted before; of more than 128
/// blocks the oldest is let go of, and only that one.
pub proof fn law_undo_notes_are_the_newest(slot: u64, entries: Vec<UndoEntry>)
    ensures
        forall|s: &mut StateManager|
            (*s)@.undo.len() <= 128 && #[trigger] call_ensures(
                StateManager::record_block_undo,
                (s, slot, entries),
                (),
            ) ==> {
                let (b, a) = ((*s)@.undo, (*final(s))@.undo);
                &&& a.len() <= 128
                &&& a.len() > 0 && a.last().0 == slot
                &&& a.last().1.len() == entries@.len()
                &&& b.len() < 128 ==> a.drop_last() == b
                &&& b.len() == 128 ==> a.drop_last() == b.skip(1)
                &&& (*final(s))@ == (StateModel { undo: a, ..(*s)@ })
            },
{
    assert forall|s: &mut StateManager|
        (*s)@.undo.len() <= 128 && #[trigger] call_ensures(
            StateManager::record_block_undo,
            (s, slot, entries),
            (),
        ) implies {
        let (b, a) = ((*s)@.undo, (*final(s))@.undo);
        &&& a.len() > 0 && a.last().0 == slot
        &&& a.last().1.len() == entries@.len()
        &&& b.len() < 128 ==> a.drop_last() == b
        &&& b.len() == 128 ==> a.drop_last() == b.skip(1)
    } by {
        let (b, a) = ((*s)@.undo, (*final(s))@.undo);
        assert(state_manager::undo_view(entries@).len() == entries@.len());
        if b.len() < 128 {
            assert(a.drop_last() =~= b);
        } else {
            assert(a.drop_last() =~= b.skip(1));
        }
    }
}

/// A revert is possible where there is something noted and the target is not below
/// the slot before the oldest note.
pub proof fn law_reverts_reach_back_to_the_oldest_note(
    s: &StateManager,
    target: u64,
    can: bool,
    plan: Result<Vec<Vec<(Key, Vec<u8>)>>, String>,
)
    requires
        call_ensures(StateManager::can_revert_to, (s, target), can),
        call_ensures(StateManager::plan_revert, (s, target), plan),
    ensures
        can <==> s@.undo.len() > 0 && s@.undo[0].0 <= target + 1,
        can ==> plan is Ok,
        plan is Err <==> s@.undo.len() > 0 && s@.undo[0].0 > target + 1,
        plan is Err ==> plan->Err_0@ == "revert target "@ + text::decimal(target as nat)
            + " is below oldest undo log at slot "@ + text::decimal(s@.undo[0].0 as nat),
        plan is Ok && (s@.undo.len() == 0 || s@.undo.last().0 <= target) ==> plan->Ok_0@.len()
            == 0,
{
    if plan is Ok {
        let v = plan->Ok_0@.map_values(
            |w: Vec<(Key, Vec<u8>)>| state_manager::writes_view(w@),
        );
        assert(v.len() == plan->Ok_0@.len());
    }
}

proof fn lemma_reverted(s: StateModel, target: u64, replies: Seq<TreeReply>, done: nat)
    ensures
        ({
            let out = state_manager::revert_from(s, target, replies, done);
            let a = out.state.undo;
            &&& a.len() <= s.undo.len()
            &&& a == s.undo.take(a.len() as int)
            &&& forall|i: int| a.len() <= i < s.undo.len() ==> (#[trigger] s.undo[i]).0 > target
            &&& out.result is Ok ==> out.result->Ok_0 == done + (s.undo.len() - a.len())
            &&& out.result is Ok ==> a.len() == 0 || a.last().0 <= target
            &&& out.state.known == s.known
            &&& out.state.pending == s.pending
        }),
    decreases s.undo.len(),
{
    let out = state_manager::revert_from(s, target, replies, done);
    if s.undo.len() == 0 || s.undo.last().0 <= target {
        assert(s.undo.take(s.undo.len() as int) =~= s.undo);
    } else {
        let last = s.undo.len() - 1;
        let writes = state_manager::restore_writes(s.undo.last().1);
        let popped = StateModel {
            cache: state_manager::apply_writes(s.cache, writes),
            undo: s.undo.drop_last(),
            ..s
        };
        assert(s.undo[last].0 > target);
        if writes.len() == 0 || replies.len() == 0 {
            lemma_reverted(popped, target, replies, done + 1);
        } else {
            match replies[0] {
                Ok(r) => {
                    lemma_reverted(
                        StateModel { root: r, ..popped },
                        target,
                        replies.skip(1),
                        done + 1,
                    );
                },
                Err(TreeError::Poisoned(_)) => {
                    lemma_reverted(popped, target, replies.skip(1), done + 1);
                },
                Err(TreeError::Failed(_)) => {
                    assert(popped.undo.take(popped.undo.len() as int) =~= popped.undo);
                },
            }
        }
        let a = out.state.undo;
        assert(a =~= s.undo.take(a.len() as int)) by {
            assert(a == popped.undo.take(a.len() as int));
        }
        assert forall|i: int| a.len() <= i < s.undo.len() implies (#[trigger] s.undo[i]).0
            > target by {
            if i < last {
                assert(popped.undo[i] == s.undo[i]);
            }
        }
    }
}

/// A revert that succeeds leaves no note above its target and counts those that it
/// took back; it takes back none at or below the target, and one that is refused
/// leaves everything.
pub proof fn law_reverts_take_back_what_is_above(target: u64, replies: Vec<TreeReply>)
    ensures
        forall|s: &mut StateManager, r: Result<usize, String>| #[trigger]
            call_ensures(StateManager::revert_to, (s, target, replies), r) ==> {
                let (b, a) = ((*s)@, (*final(s))@);
                &&& b.undo.len() > 0 && b.undo[0].0 > target + 1 ==> r is Err && a == b
                &&& a.undo == b.undo.take(a.undo.len() as int)
                &&& forall|i: int|
                    a.undo.len() <= i < b.undo.len() ==> (#[trigger] b.undo[i]).0 > target
                &&& r is Ok ==> r->Ok_0 == b.undo.len() - a.undo.len()
                &&& r is Ok ==> a.undo.len() == 0 || a.undo.last().0 <= target
                &&& a.known == b.known && a.pending == b.pending
            },
{
    assert forall|s: &mut StateManager, r: Result<usize, String>| #[trigger]
        call_ensures(StateManager::revert_to, (s, target, replies), r) implies {
        let (b, a) = ((*s)@, (*final(s))@);
        &&& b.undo.len() > 0 && b.undo[0].0 > target + 1 ==> r is Err && a == b
        &&& a.undo == b.undo.take(a.undo.len() as int)
        &&& forall|i: int| a.undo.len() <= i < b.undo.len() ==> (#[trigger] b.undo[i]).0 > target
        &&& r is Ok ==> r->Ok_0 == b.undo.len() - a.undo.len()
        &&& r is Ok ==> a.undo.len() == 0 || a.undo.last().0 <= target
        &&& a.known == b.known && a.pending == b.pending
    } by {
        let b = (*s)@;
        lemma_reverted(b, target, replies@, 0);
        if b.undo.len() > 0 && b.undo[0].0 > target + 1 {
            assert(b.undo.take(b.undo.len() as int) =~= b.undo);
        }
    }
}

proof fn lemma_exported(keys: Seq<Key>, values: Seq<Option<Seq<u8>>>, n: nat) -> (at: Seq<int>)
    requires
        n <= keys.len(),
        n <= values.len(),
    ensures
        at.len() == state_manager::exported(keys, values, n).len(),
        forall|i: int|
            0 <= i < at.len() ==> {
                let e = state_manager::exported(keys, values, n)[i];
                &&& 0 <= #[trigger] at[i] < n
                &&& values[at[i]] is Some
                &&& e.0 == keys[at[i]]@
                &&& e.1 == values[at[i]]->0
            },
        forall|i: int, j: int| 0 <= i < j < at.len() ==> #[trigger] at[i] < #[trigger] at[j],
        forall|p: int| 0 <= p < n && (#[trigger] values[p]) is Some ==> at.contains(p),
    decreases n,
{
    if n == 0 {
        Seq::empty()
    } else {
        let before = lemma_exported(keys, values, (n - 1) as nat);
        let at = if values[n - 1] is Some {
            before.push(n - 1)
        } else {
            before
        };
        assert forall|p: int| 0 <= p < n && (#[trigger] values[p]) is Some implies at.contains(
            p,
        ) by {
            if p < n - 1 {
                let i = choose|i: int| 0 <= i < before.len() && before[i] == p;
                assert(before.contains(p));
                assert(at[i] == p);
            } else {
                assert(at[before.len() as int] == p);
            }
        }
        at
    }
}

/// A snapshot holds each known key that has a value, with that value, in the order in
/// which they are known; and nothing else.
pub proof fn law_snapshots_hold_every_value(
    s: &StateManager,
    committed: &Vec<Option<Vec<u8>>>,
    r: Vec<(Vec<u8>, Vec<u8>)>,
) -> (at: Seq<int>)
    requires
        s.wf(),
        committed@.len() == s@.known.len(),
        call_ensures(StateManager::export_snapshot, (s, committed), r),
    ensures
        at.len() == r@.len(),
        forall|i: int|
            0 <= i < at.len() ==> 0 <= #[trigger] at[i] < s@.known.len() && committed@[at[i]]
                is Some && r@[i].0@ == s@.known[at[i]]@ && r@[i].1@ == committed@[at[i]]->0@,
        forall|i: int, j: int| 0 <= i < j < at.len() ==> #[trigger] at[i] < #[trigger] at[j],
        forall|p: int|
            0 <= p < committed@.len() && (#[trigger] committed@[p]) is Some ==> at.contains(p),
{
    let values = state_manager::values_view(committed@);
    let e = state_manager::pairs_view(r@);
    assert(values.len() == committed@.len() && e.len() == r@.len());
    let at = lemma_exported(s@.known, values, s@.known.len());
    assert forall|i: int| 0 <= i < at.len() implies 0 <= #[trigger] at[i] < s@.known.len()
        && committed@[at[i]] is Some && r@[i].0@ == s@.known[at[i]]@ && r@[i].1@
        == committed@[at[i]]->0@ by {
        assert(e[i] == (r@[i].0@, r@[i].1@));
        assert(values[at[i]] == text::opt_bytes(committed@[at[i]]));
    }
    assert forall|p: int|
        0 <= p < committed@.len() && (#[trigger] committed@[p]) is Some implies at.contains(p) by {
        assert(values[p] == text::opt_bytes(committed@[p]));
    }
    at
}

/// An imported snapshot makes its keys known and has the root that the tree answers;
/// what is cached or waits stays. Its writes are its entries, one for one.
pub proof fn law_imports_write_every_entry(
    entries: &Vec<(Vec<u8>, Vec<u8>)>,
    reply: TreeReply,
    w: Vec<(Key, Vec<u8>)>,
)
    requires
        call_ensures(state_manager::snapshot_writes, (entries,), w),
    ensures
        w@.len() == entries@.len(),
        forall|i: int|
            0 <= i < w@.len() ==> (#[trigger] w@[i]).1@ == entries@[i].1@ && (
            keymap::key_of(entries@[i].0@) is Some ==> Some(w@[i].0) == keymap::key_of(
                entries@[i].0@,
            )) && (entries@[i].0@.len() != 32 ==> w@[i].0 == keymap::zeros()),
        forall|s: &mut StateManager, r: Result<Key, String>| #[trigger]
            call_ensures(StateManager::import_snapshot, (s, entries, reply), r) ==> {
                let (b, a) = ((*s)@, (*final(s))@);
                &&& rooted(b, a, reply)
                &&& told(reply, r, "snapshot import failed: "@)
                &&& a.cache == b.cache && a.pending == b.pending && a.undo == b.undo
                &&& a.known == state_manager::with_keys(
                    b.known,
                    state_manager::writes_view(w@),
                )
            },
{
    let v = state_manager::writes_view(w@);
    let p = state_manager::pairs_view(entries@);
    assert(v.len() == w@.len() && p.len() == entries@.len());
    assert forall|i: int| 0 <= i < w@.len() implies (#[trigger] w@[i]).1@ == entries@[i].1@ && (
    keymap::key_of(entries@[i].0@) is Some ==> Some(w@[i].0) == keymap::key_of(entries@[i].0@)) && (
    entries@[i].0@.len() != 32 ==> w@[i].0 == keymap::zeros()) by {
        assert(v[i] == (w@[i].0, w@[i].1@));
        assert(p[i] == (entries@[i].0@, entries@[i].1@));
    }
}

/// How many notes are above a target: as many as a revert to it takes back.
pub proof fn law_notes_above_are_the_newest(undo: Seq<UndoLog>, target: u64)
    ensures
        ({
            let n = state_manager::logs_above(undo, target);
            &&& n <= undo.len()
            &&& forall|i: int|
                undo.len() - n <= i < undo.len() ==> (#[trigger] undo[i]).0 > target
            &&& n < undo.len() ==> undo[undo.len() - n - 1].0 <= target
        }),
    decreases undo.len(),
{
    if undo.len() > 0 && undo.last().0 > target {
        let rest = undo.drop_last();
        law_notes_above_are_the_newest(rest, target);
        let n = state_manager::logs_above(undo, target);
        assert forall|i: int| undo.len() - n <= i < undo.len() implies (#[trigger] undo[i]).0
            > target by {
            if i < rest.len() {
                assert(rest[i] == undo[i]);
            }
        }
    }
}

/// A state opens at its root with nothing cached, known, waiting or noted.
pub proof fn law_states_open_empty(root: Key, s: StateManager)
    requires
        call_ensures(StateManager::open, (root,), s),
    ensures
        s@.root == root,
        forall|k: Key| !(#[trigger] s@.cache.contains_key(k)),
        s@.known.len() == 0 && s@.pending.len() == 0 && s@.undo.len() == 0,
{
}

/// The writes that wait are shown in order, and the keys that are known are listed.
pub proof fn law_what_waits_is_shown(
    s: &StateManager,
    w: &Vec<(Key, Vec<u8>)>,
    keys: Vec<Key>,
    n: usize,
    logs: usize,
    root: Key,
)
    requires
        s.wf(),
        call_ensures(StateManager::pending_writes, (s,), w),
        call_ensures(StateManager::known_keys, (s,), keys),
        call_ensures(StateManager::entry_count, (s,), n),
        call_ensures(StateManager::undo_log_len, (s,), logs),
        call_ensures(StateManager::root, (s,), root),
    ensures
        w@.len() == s@.pending.len(),
        forall|i: int|
            0 <= i < w@.len() ==> (#[trigger] w@[i]).0 == s@.pending[i].0 && w@[i].1@
                == s@.pending[i].1,
        keys@ == s@.known && n == keys@.len(),
        logs == s@.undo.len(),
        root == s@.root,
{
    let v = state_manager::writes_view(w@);
    assert(v.len() == w@.len());
    assert forall|i: int| 0 <= i < w@.len() implies (#[trigger] w@[i]).0 == s@.pending[i].0
        && w@[i].1@ == s@.pending[i].1 by {
        assert(v[i] == (w@[i].0, w@[i].1@));
    }
}

/// A commit to the tree is what the tree answers.
pub proof fn law_commits_are_what_the_tree_answers(reply: TreeReply, r: Result<Key, String>)
    requires
        call_ensures(StateManager::commit_writes_to_smt, (reply,), r),
    ensures
        told(reply, r, "commit failed: "@),
{
}

} // verus!
