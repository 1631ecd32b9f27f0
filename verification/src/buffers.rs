//! What a node holds back until it can be used: blocks that wait for their
//! certificate, encrypted transactions that wait for their block, decryption
//! shares that wait for their decryptor, and blocks that lost the race for a slot.
use vstd::prelude::*;

use crate::keymap::{AssocMap, BlockId, Key, KeyMap, MapKey};

verus! {

/// How many competing blocks are kept.
pub const COMPETING_BLOCK_CAP: usize = 64;

/// How many slots behind the head things are kept.
pub const RETENTION_SLOTS: u64 = 100;

/// Whether something of `slot` is still kept when the head is at `head`.
pub open spec fn recent(slot: u64, head: u64) -> bool {
    slot + RETENTION_SLOTS > head
}

/// Whether something of `slot` is still kept when the head is at `head`.
pub fn is_recent(slot: u64, head: u64) -> (r: bool)
    ensures
        r == recent(slot, head),
{
    head < RETENTION_SLOTS || slot > head - RETENTION_SLOTS
}

/// A block that waits for its certificate, in its encoding.
pub struct BlockBody {
    pub slot: u64,
    pub bytes: Vec<u8>,
}

/// The model of a waiting block.
pub struct BodyModel {
    pub slot: u64,
    pub bytes: Seq<u8>,
}

impl View for BlockBody {
    type V = BodyModel;

    open spec fn view(&self) -> BodyModel {
        BodyModel { slot: self.slot, bytes: self.bytes@ }
    }
}

/// A committee member's shares of the transactions of a block, in their order.
pub struct ShareMsg {
    pub member_index: u8,
    pub shares: Vec<Vec<u8>>,
}

/// The shares of a message, each with the index of the transaction it is for.
pub open spec fn indexed_shares(m: ShareMsg) -> Seq<(int, Seq<u8>)> {
    Seq::new(m.shares@.len(), |i: int| (i, m.shares@[i]@))
}

/// The shares of messages, in the order in which they came.
pub open spec fn all_shares(msgs: Seq<ShareMsg>) -> Seq<(int, Seq<u8>)>
    decreases msgs.len(),
{
    if msgs.len() == 0 {
        Seq::empty()
    } else {
        all_shares(msgs.drop_last()) + indexed_shares(msgs.last())
    }
}

/// Indexed shares by their views.
pub open spec fn shares_view(v: Seq<(usize, Vec<u8>)>) -> Seq<(int, Seq<u8>)> {
    v.map_values(|p: (usize, Vec<u8>)| (p.0 as int, p.1@))
}

proof fn lemma_shares_push(v: Seq<(usize, Vec<u8>)>, p: (usize, Vec<u8>))
    ensures
        shares_view(v.push(p)) == shares_view(v).push((p.0 as int, p.1@)),
{
    assert(shares_view(v.push(p)) =~= shares_view(v).push((p.0 as int, p.1@)));
}

fn append_shares(out: &mut Vec<(usize, Vec<u8>)>, msg: ShareMsg)
    ensures
        shares_view(final(out)@) == shares_view(old(out)@) + indexed_shares(msg),
{
    let ghost start = shares_view(out@);
    let ghost all = msg.shares@;
    let n: usize = msg.shares.len();
    let mut rest = msg.shares;
    let mut i: usize = 0;
    assert(all.skip(0) =~= all);
    assert(start + indexed_shares(msg).take(0) =~= start);
    while rest.len() > 0
        invariant
            all == msg.shares@,
            n == all.len(),
            i <= n,
            rest@ == all.skip(i as int),
            shares_view(out@) == start + indexed_shares(msg).take(i as int),
        decreases rest@.len(),
    {
        let s = rest.remove(0);
        assert(s@ == all[i as int]@);
        proof {
            lemma_shares_push(out@, (i, s));
        }
        out.push((i, s));
        assert(rest@ =~= all.skip(i + 1));
        assert(shares_view(out@) =~= start + indexed_shares(msg).take(i + 1));
        i = i + 1;
    }
    assert(indexed_shares(msg).take(i as int) =~= indexed_shares(msg));
}

/// The shares of messages, in the order in which they came.
pub fn replay(msgs: Vec<ShareMsg>) -> (r: Vec<(usize, Vec<u8>)>)
    ensures
        shares_view(r@) == all_shares(msgs@),
{
    let mut out: Vec<(usize, Vec<u8>)> = Vec::new();
    let ghost all = msgs@;
    let mut rest = msgs;
    let ghost mut i: int = 0;
    assert(all.skip(0) =~= all);
    assert(all.take(0) =~= Seq::<ShareMsg>::empty());
    assert(shares_view(out@) =~= Seq::<(int, Seq<u8>)>::empty());
    while rest.len() > 0
        invariant
            0 <= i <= all.len(),
            rest@ == all.skip(i),
            shares_view(out@) == all_shares(all.take(i)),
        decreases rest@.len(),
    {
        let m = rest.remove(0);
        append_shares(&mut out, m);
        proof {
            assert(all.take(i + 1).drop_last() =~= all.take(i));
            assert(all.take(i + 1).last() == m);
            assert(rest@ =~= all.skip(i + 1));
            i = i + 1;
        }
    }
    assert(all.take(i) =~= all);
    out
}

/// What the buffers hold.
#[verifier::ext_equal]
pub struct BufferModel {
    /// Blocks that lost the race for their slot.
    pub competing: Map<BlockId, Seq<u8>>,
    /// Blocks that wait for their certificate, by their hashes.
    pub bodies: Map<Key, BodyModel>,
    /// Encrypted transactions that wait for their block.
    pub bundles: Map<BlockId, Seq<Vec<u8>>>,
    /// Decryption shares that wait for their decryptor, by slot.
    pub shares: Map<u64, Seq<ShareMsg>>,
}

/// The model without what is no longer kept when the head is at `head`. Competing
/// blocks are bounded by their number alone.
pub open spec fn maintained(m: BufferModel, head: u64) -> BufferModel {
    BufferModel {
        competing: m.competing,
        bodies: Map::new(
            |k: Key| m.bodies.contains_key(k) && recent(m.bodies[k].slot, head),
            |k: Key| m.bodies[k],
        ),
        bundles: Map::new(
            |k: BlockId| m.bundles.contains_key(k) && recent(k.slot, head),
            |k: BlockId| m.bundles[k],
        ),
        shares: Map::new(
            |k: u64| m.shares.contains_key(k) && recent(k, head),
            |k: u64| m.shares[k],
        ),
    }
}

/// Whether `after` holds what `before` held and one block more, for which some
/// block had to make room if there was none.
pub open spec fn competing_added(
    before: Map<BlockId, Seq<u8>>,
    after: Map<BlockId, Seq<u8>>,
    id: BlockId,
    bytes: Seq<u8>,
) -> bool {
    if before.contains_key(id) || before.len() < COMPETING_BLOCK_CAP {
        after == before.insert(id, bytes)
    } else {
        exists|victim: BlockId| #[trigger]
            before.contains_key(victim) && after == before.remove(victim).insert(id, bytes)
    }
}

/// What a node holds back until it can be used.
pub struct BlockBuffers {
    competing: AssocMap<BlockId, Vec<u8>>,
    bodies: KeyMap<BlockBody>,
    bundles: AssocMap<BlockId, Vec<Vec<u8>>>,
    shares: AssocMap<u64, Vec<ShareMsg>>,
}

impl View for BlockBuffers {
    type V = BufferModel;

    closed spec fn view(&self) -> BufferModel {
        BufferModel {
            competing: self.competing@,
            bodies: self.bodies@,
            bundles: self.bundles@,
            shares: self.shares@,
        }
    }
}

/// Something that belongs to a slot.
pub trait Slotted {
    spec fn slot_of(self) -> u64;

    fn slot(&self) -> (r: u64)
        ensures
            r == self.slot_of(),
    ;
}

impl Slotted for u64 {
    open spec fn slot_of(self) -> u64 {
        self
    }

    fn slot(&self) -> (r: u64) {
        *self
    }
}

impl Slotted for BlockId {
    open spec fn slot_of(self) -> u64 {
        self.slot
    }

    fn slot(&self) -> (r: u64) {
        self.slot
    }
}

fn keep_recent<K: MapKey + Slotted, V: View>(m: &mut AssocMap<K, V>, head: u64)
    requires
        old(m).wf(),
    ensures
        final(m).wf(),
        final(m)@ == Map::new(
            |k: K| old(m)@.contains_key(k) && recent(k.slot_of(), head),
            |k: K| old(m)@[k],
        ),
{
    let ghost all = m@;
    let mut kept: AssocMap<K, V> = AssocMap::new();
    let mut going: bool = true;
    while going
        invariant
            m.wf(),
            kept.wf(),
            forall|k: K| #[trigger]
                kept@.contains_key(k) <==> all.contains_key(k) && !m@.contains_key(k) && recent(
                    k.slot_of(),
                    head,
                ),
            forall|k: K| #[trigger] kept@.contains_key(k) ==> kept@[k] == all[k],
            forall|k: K| #[trigger]
                m@.contains_key(k) ==> all.contains_key(k) && m@[k] == all[k],
            !going ==> m@ == Map::<K, V::V>::empty(),
        decreases
                m.keys().len() + if going {
                    1nat
                } else {
                    0nat
                },
    {
        match m.pop() {
            Some((k, v)) => {
                if is_recent(k.slot(), head) {
                    kept.insert(k, v);
                }
            },
            None => {
                going = false;
            },
        }
    }
    assert(kept@ =~= Map::new(
        |k: K| all.contains_key(k) && recent(k.slot_of(), head),
        |k: K| all[k],
    ));
    *m = kept;
}

fn keep_recent_bodies(m: &mut KeyMap<BlockBody>, head: u64)
    requires
        old(m).wf(),
    ensures
        final(m).wf(),
        final(m)@ == Map::new(
            |k: Key| old(m)@.contains_key(k) && recent(old(m)@[k].slot, head),
            |k: Key| old(m)@[k],
        ),
{
    let ghost all = m@;
    let mut kept: KeyMap<BlockBody> = AssocMap::new();
    let mut going: bool = true;
    while going
        invariant
            m.wf(),
            kept.wf(),
            forall|k: Key| #[trigger]
                kept@.contains_key(k) <==> all.contains_key(k) && !m@.contains_key(k) && recent(
                    all[k].slot,
                    head,
                ),
            forall|k: Key| #[trigger] kept@.contains_key(k) ==> kept@[k] == all[k],
            forall|k: Key| #[trigger]
                m@.contains_key(k) ==> all.contains_key(k) && m@[k] == all[k],
            !going ==> m@ == Map::<Key, BodyModel>::empty(),
        decreases
                m.keys().len() + if going {
                    1nat
                } else {
                    0nat
                },
    {
        match m.pop() {
            Some((k, v)) => {
                if is_recent(v.slot, head) {
                    kept.insert(k, v);
                }
            },
            None => {
                going = false;
            },
        }
    }
    assert(kept@ =~= Map::new(
        |k: Key| all.contains_key(k) && recent(all[k].slot, head),
        |k: Key| all[k],
    ));
    *m = kept;
}

impl BlockBuffers {
    /// No key occurs twice, and the competing blocks are bounded.
    pub closed spec fn wf(&self) -> bool {
        &&& self.competing.wf()
        &&& self.bodies.wf()
        &&& self.bundles.wf()
        &&& self.shares.wf()
        &&& self.competing@.len() <= COMPETING_BLOCK_CAP
    }

    /// There are never more competing blocks than there is room for.
    pub proof fn lemma_bounds(&self)
        requires
            self.wf(),
        ensures
            self@.competing.dom().finite(),
            self@.competing.len() <= COMPETING_BLOCK_CAP,
    {
        self.competing.lemma_keys();
    }

    /// Empty buffers.
    pub fn new() -> (b: Self)
        ensures
            b.wf(),
            b@ == (BufferModel {
                competing: Map::empty(),
                bodies: Map::empty(),
                bundles: Map::empty(),
                shares: Map::empty(),
            }),
    {
        BlockBuffers {
            competing: AssocMap::new(),
            bodies: AssocMap::new(),
            bundles: AssocMap::new(),
            shares: AssocMap::new(),
        }
    }

    /// How many competing blocks there are.
    pub fn competing_len(&self) -> (n: usize)
        requires
            self.wf(),
        ensures
            n == self@.competing.len(),
    {
        self.competing.len()
    }

    /// Keeps a block that lost the race for its slot. Where there is no room, some
    /// other one goes; which one is left open.
    pub fn buffer_competing(&mut self, id: BlockId, bytes: Vec<u8>)
        requires
            old(self).wf(),
        ensures
            final(self).wf(),
            competing_added(old(self)@.competing, final(self)@.competing, id, bytes@),
            final(self)@ == (BufferModel { competing: final(self)@.competing, ..old(self)@ }),
    {
        let ghost before = self.competing@;
        let n: usize = self.competing.len();
        let known: bool = self.competing.contains_key(&id);
        if n >= COMPETING_BLOCK_CAP && !known {
            let victim = *self.competing.entry_at(0).0;
            proof {
                self.competing.lemma_keys();
            }
            assert(before.contains_key(victim));
            self.competing.remove(&victim);
            proof {
                vstd::set::axiom_set_remove_len(before.dom(), victim);
                assert(before.remove(victim).dom() =~= before.dom().remove(victim));
            }
        }
        proof {
            self.competing.lemma_keys();
            assert(self.competing@.insert(id, bytes@).dom() =~= self.competing@.dom().insert(id));
            if known {
                assert(self.competing@.dom().insert(id) =~= self.competing@.dom());
            }
        }
        self.competing.insert(id, bytes);
    }

    /// Takes out a competing block.
    pub fn take_competing(&mut self, id: &BlockId) -> (r: Option<Vec<u8>>)
        requires
            old(self).wf(),
        ensures
            final(self).wf(),
            final(self)@ == (BufferModel {
                competing: old(self)@.competing.remove(*id),
                ..old(self)@
            }),
            match r {
                Some(b) => old(self)@.competing.contains_key(*id) && old(self)@.competing[*id]
                    == b@,
                None => !old(self)@.competing.contains_key(*id),
            },
    {
        let ghost before = self.competing@;
        proof {
            self.competing.lemma_keys();
            assert(before.remove(*id).dom() =~= before.dom().remove(*id));
        }
        self.competing.take(id)
    }

    /// Keeps a block until its certificate comes.
    pub fn buffer_body(&mut self, hash: Key, slot: u64, bytes: Vec<u8>)
        requires
            old(self).wf(),
        ensures
            final(self).wf(),
            final(self)@ == (BufferModel {
                bodies: old(self)@.bodies.insert(hash, (BodyModel { slot, bytes: bytes@ })),
                ..old(self)@
            }),
    {
        self.bodies.insert(hash, BlockBody { slot, bytes });
    }

    /// A block that waits for its certificate.
    pub fn body(&self, hash: &Key) -> (r: Option<&BlockBody>)
        requires
            self.wf(),
        ensures
            match r {
                Some(b) => self@.bodies.contains_key(*hash) && self@.bodies[*hash] == b@,
                None => !self@.bodies.contains_key(*hash),
            },
    {
        self.bodies.get(hash)
    }

    /// Lets go of a block that waited for its certificate.
    pub fn drop_body(&mut self, hash: &Key)
        requires
            old(self).wf(),
        ensures
            final(self).wf(),
            final(self)@ == (BufferModel {
                bodies: old(self)@.bodies.remove(*hash),
                ..old(self)@
            }),
    {
        self.bodies.remove(hash);
    }

    /// Keeps the encrypted transactions of a block until the block comes, unless
    /// the block is too old; says whether they were kept.
    pub fn buffer_bundle(&mut self, id: BlockId, txs: Vec<Vec<u8>>, head: u64) -> (kept: bool)
        requires
            old(self).wf(),
        ensures
            final(self).wf(),
            kept == (id.slot + RETENTION_SLOTS >= head),
            final(self)@ == if kept {
                BufferModel { bundles: old(self)@.bundles.insert(id, txs@), ..old(self)@ }
            } else {
                old(self)@
            },
    {
        if head >= RETENTION_SLOTS && id.slot < head - RETENTION_SLOTS {
            return false;
        }
        self.bundles.insert(id, txs);
        true
    }

    /// Takes out the encrypted transactions of a block.
    pub fn take_bundle(&mut self, id: &BlockId) -> (r: Option<Vec<Vec<u8>>>)
        requires
            old(self).wf(),
        ensures
            final(self).wf(),
            final(self)@ == (BufferModel {
                bundles: old(self)@.bundles.remove(*id),
                ..old(self)@
            }),
            match r {
                Some(b) => old(self)@.bundles.contains_key(*id) && old(self)@.bundles[*id] == b@,
                None => !old(self)@.bundles.contains_key(*id),
            },
    {
        self.bundles.take(id)
    }

    /// Takes in decryption shares of a slot. Where there is a decryptor, they are
    /// for it at once; else they are queued behind those that came before.
    pub fn on_shares(&mut self, slot: u64, msg: ShareMsg, has_decryptor: bool) -> (r: Option<
        Vec<(usize, Vec<u8>)>,
    >)
        requires
            old(self).wf(),
        ensures
            final(self).wf(),
            r is Some == has_decryptor,
            match r {
                Some(now) => shares_view(now@) == indexed_shares(msg) && final(self)@ == old(
                    self,
                )@,
                None => final(self)@ == (BufferModel {
                    shares: old(self)@.shares.insert(
                        slot,
                        (if old(self)@.shares.contains_key(slot) {
                            old(self)@.shares[slot]
                        } else {
                            Seq::empty()
                        }).push(msg),
                    ),
                    ..old(self)@
                }),
            },
    {
        if has_decryptor {
            let mut out: Vec<(usize, Vec<u8>)> = Vec::new();
            append_shares(&mut out, msg);
            assert(shares_view(out@) =~= indexed_shares(msg));
            return Some(out);
        }
        let ghost before = self.shares@;
        let mut queued: Vec<ShareMsg> = match self.shares.take(&slot) {
            Some(q) => q,
            None => Vec::new(),
        };
        queued.push(msg);
        self.shares.insert(slot, queued);
        assert(self.shares@ =~= before.insert(slot, queued@));
        None
    }

    /// Takes out the shares that were queued for a slot, in the order in which a
    /// new decryptor is given them.
    pub fn take_shares(&mut self, slot: u64) -> (r: Vec<(usize, Vec<u8>)>)
        requires
            old(self).wf(),
        ensures
            final(self).wf(),
            final(self)@ == (BufferModel { shares: old(self)@.shares.remove(slot), ..old(self)@ }),
            shares_view(r@) == if old(self)@.shares.contains_key(slot) {
                all_shares(old(self)@.shares[slot])
            } else {
                Seq::empty()
            },
    {
        match self.shares.take(&slot) {
            Some(q) => replay(q),
            None => {
                let out: Vec<(usize, Vec<u8>)> = Vec::new();
                assert(shares_view(out@) =~= Seq::empty());
                out
            },
        }
    }

    /// Lets go of what is too old.
    pub fn maintain(&mut self, head: u64)
        requires
            old(self).wf(),
        ensures
            final(self).wf(),
            final(self)@ == maintained(old(self)@, head),
    {
        keep_recent(&mut self.shares, head);
        keep_recent(&mut self.bundles, head);
        keep_recent_bodies(&mut self.bodies, head);
        assert(self@ =~= maintained(old(self)@, head));
    }
}

/// Nothing of the last `RETENTION_SLOTS` slots, and nothing ahead of the head, is
/// lost to maintenance.
pub proof fn law_maintenance_keeps_what_is_recent(m: BufferModel, head: u64)
    ensures
        forall|k: Key|
            m.bodies.contains_key(k) && recent(m.bodies[k].slot, head) ==> #[trigger] maintained(
                m,
                head,
            ).bodies.contains_key(k) && maintained(m, head).bodies[k] == m.bodies[k],
        forall|k: BlockId|
            m.bundles.contains_key(k) && recent(k.slot, head) ==> #[trigger] maintained(
                m,
                head,
            ).bundles.contains_key(k) && maintained(m, head).bundles[k] == m.bundles[k],
        forall|k: u64|
            m.shares.contains_key(k) && recent(k, head) ==> #[trigger] maintained(
                m,
                head,
            ).shares.contains_key(k) && maintained(m, head).shares[k] == m.shares[k],
        maintained(m, head).competing == m.competing,
{
}

/// Maintenance at a later head drops all that maintenance at an earlier one does.
pub proof fn law_maintenance_is_monotone(m: BufferModel, earlier: u64, later: u64)
    requires
        earlier <= later,
    ensures
        maintained(maintained(m, earlier), later) == maintained(m, later),
{
    assert(maintained(maintained(m, earlier), later) =~= maintained(m, later));
}

/// Shares that came before their decryptor reach it in the order in which they
/// came, as if it had been there.
pub proof fn law_queued_shares_replay_in_order(queued: Seq<ShareMsg>, msg: ShareMsg)
    ensures
        all_shares(queued.push(msg)) == all_shares(queued) + indexed_shares(msg),
{
    assert(queued.push(msg).drop_last() =~= queued);
}

} // verus!
