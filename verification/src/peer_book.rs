//! The peers that a node was connected to, so that it can dial them again after a
//! restart, and the challenges that it has sent to peers.
use std::str::FromStr;
use vstd::prelude::*;

use crate::keymap::Key;
use crate::text::{join, str_eq};

verus! {

/// The text of the peer id that a text is parsed to, if it is one.
pub uninterp spec fn peer_id_of(text: Seq<char>) -> Option<Seq<char>>;

/// The text of the address that a text is parsed to, if it is one.
pub uninterp spec fn multiaddr_of(text: Seq<char>) -> Option<Seq<char>>;

/// `libp2p::PeerId`'s `FromStr`, the peer id taken by the text that its `Display`
/// writes: base 58 of the id's bytes. The result is named, and that text is claimed
/// to parse to itself. Which texts are peer ids is left unsaid.
#[verifier::external_body]
fn parse_peer_id(text: &str) -> (r: Option<String>)
    ensures
        match r {
            Some(id) => peer_id_of(text@) == Some(id@) && peer_id_of(id@) == Some(id@),
            None => peer_id_of(text@) is None,
        },
{
    match libp2p::PeerId::from_str(text) {
        Ok(id) => Some(id.to_string()),
        Err(_) => None,
    }
}

/// `libp2p::Multiaddr`'s `FromStr`, the address taken by the text that its
/// `Display` writes: its protocols, each after a slash. The result is named, and
/// that text is claimed to parse to itself. Which texts are addresses is left
/// unsaid.
#[verifier::external_body]
fn parse_multiaddr(text: &str) -> (r: Option<String>)
    ensures
        match r {
            Some(a) => multiaddr_of(text@) == Some(a@) && multiaddr_of(a@) == Some(a@),
            None => multiaddr_of(text@) is None,
        },
{
    match libp2p::Multiaddr::from_str(text) {
        Ok(addr) => Some(addr.to_string()),
        Err(_) => None,
    }
}

/// Whether the peer id of one text orders before that of another.
pub uninterp spec fn peer_id_below(a: Seq<char>, b: Seq<char>) -> bool;

/// `libp2p::PeerId`'s `<`, on the peer ids that two texts parse to; `None` where
/// one of them is no peer id. The result is named. Of two peer ids at most one is
/// claimed to order before the other, and exactly one where they differ. Which one
/// it is is left unsaid.
#[verifier::external_body]
pub(crate) fn orders_below(a: &str, b: &str) -> (r: Option<bool>)
    ensures
        match r {
            Some(below) => {
                &&& peer_id_of(a@) is Some && peer_id_of(b@) is Some
                &&& below == peer_id_below(a@, b@)
                &&& below ==> !peer_id_below(b@, a@)
                &&& !below ==> peer_id_below(b@, a@) || peer_id_of(a@) == peer_id_of(b@)
            },
            None => peer_id_of(a@) is None || peer_id_of(b@) is None,
        },
{
    match (libp2p::PeerId::from_str(a), libp2p::PeerId::from_str(b)) {
        (Ok(x), Ok(y)) => Some(x < y),
        _ => None,
    }
}

/// The protocols of the address that a text is parsed to, if it is one: of each
/// that is an IPv4 address, its four bytes.
pub uninterp spec fn ip4_parts(text: Seq<char>) -> Option<Seq<Option<[u8; 4]>>>;

/// `libp2p::Multiaddr::iter`, on the address that a text parses to: the protocols in
/// their order, each that is an IPv4 address with its four bytes. The result is
/// named. It is there where the text is an address.
#[verifier::external_body]
fn parse_ip4_parts(text: &str) -> (r: Option<Vec<Option<[u8; 4]>>>)
    ensures
        match r {
            Some(parts) => ip4_parts(text@) == Some(parts@) && multiaddr_of(text@) is Some,
            None => ip4_parts(text@) is None && multiaddr_of(text@) is None,
        },
{
    let addr = libp2p::Multiaddr::from_str(text).ok()?;
    let part = |p: libp2p::multiaddr::Protocol| match p {
        libp2p::multiaddr::Protocol::Ip4(ip) => Some(ip.octets()),
        _ => None,
    };
    Some(addr.iter().map(part).collect())
}

/// Whether one of the protocols of an address is an IPv4 address in `127.0.0.0/8`.
pub open spec fn holds_loopback(parts: Seq<Option<[u8; 4]>>) -> bool {
    exists|i: int| 0 <= i < parts.len() && (#[trigger] parts[i]) is Some && parts[i]->0@[0] == 127
}

/// Whether a text is an address on this host.
pub open spec fn is_loopback(text: Seq<char>) -> bool {
    match ip4_parts(text) {
        Some(parts) => holds_loopback(parts),
        None => false,
    }
}

/// Whether one of the protocols of an address is an IPv4 address in `127.0.0.0/8`.
pub fn any_loopback(parts: &Vec<Option<[u8; 4]>>) -> (r: bool)
    ensures
        r == holds_loopback(parts@),
{
    let mut i: usize = 0;
    while i < parts.len()
        invariant
            i <= parts@.len(),
            forall|j: int|
                0 <= j < i ==> !((#[trigger] parts@[j]) is Some && parts@[j]->0@[0] == 127),
        decreases parts@.len() - i,
    {
        if let Some(ip) = parts[i] {
            if ip[0] == 127 {
                assert(parts@[i as int] is Some && parts@[i as int]->0@[0] == 127);
                return true;
            }
        }
        i = i + 1;
    }
    false
}

/// Whether a text is an address on this host.
pub fn on_this_host(text: &str) -> (r: bool)
    ensures
        r == is_loopback(text@),
{
    match parse_ip4_parts(text) {
        Some(parts) => any_loopback(&parts),
        None => false,
    }
}

/// A copy of a text.
fn copy_text(s: &str) -> (r: String)
    ensures
        r@ == s@,
{
    let r = join("", s);
    proof {
        reveal_strlit("");
    }
    assert(""@ + s@ =~= s@);
    r
}

/// The map that a list of names and values stands for.
pub open spec fn map_of<V: View>(s: Seq<(String, V)>) -> Map<Seq<char>, V::V>
    decreases s.len(),
{
    if s.len() == 0 {
        Map::empty()
    } else {
        map_of(s.drop_last()).insert(s.last().0@, s.last().1@)
    }
}

/// Whether no name occurs twice.
pub open spec fn names_distinct<V>(s: Seq<(String, V)>) -> bool {
    forall|i: int, j: int|
        #![trigger s[i], s[j]]
        0 <= i < s.len() && 0 <= j < s.len() && s[i].0@ == s[j].0@ ==> i == j
}

proof fn lemma_map_of<V: View>(s: Seq<(String, V)>)
    requires
        names_distinct(s),
    ensures
        forall|i: int|
            0 <= i < s.len() ==> map_of(s).contains_key((#[trigger] s[i]).0@) && map_of(s)[s[i].0@]
                == s[i].1@,
        forall|k: Seq<char>| #[trigger]
            map_of(s).contains_key(k) ==> exists|i: int|
                0 <= i < s.len() && (#[trigger] s[i]).0@ == k,
    decreases s.len(),
{
    if s.len() > 0 {
        let t = s.drop_last();
        assert forall|i: int, j: int|
            #![trigger t[i], t[j]]
            0 <= i < t.len() && 0 <= j < t.len() && t[i].0@ == t[j].0@ implies i == j by {
            assert(t[i] == s[i] && t[j] == s[j]);
        }
        lemma_map_of(t);
        assert forall|i: int| 0 <= i < s.len() implies map_of(s).contains_key((#[trigger] s[i]).0@)
            && map_of(s)[s[i].0@] == s[i].1@ by {
            if i < t.len() {
                assert(t[i] == s[i]);
                if s[i].0@ == s.last().0@ {
                    assert(s[s.len() - 1] == s.last());
                }
            }
        }
        assert forall|k: Seq<char>| #[trigger] map_of(s).contains_key(k) implies exists|i: int|
            0 <= i < s.len() && (#[trigger] s[i]).0@ == k by {
            if k == s.last().0@ {
                assert(s[s.len() - 1].0@ == k);
            } else {
                assert(map_of(t).contains_key(k));
                let i = choose|i: int| 0 <= i < t.len() && (#[trigger] t[i]).0@ == k;
                assert(s[i] == t[i]);
            }
        }
    }
}

/// A map keyed by names. No name occurs twice.
pub struct NameMap<V> {
    entries: Vec<(String, V)>,
}

impl<V: View> View for NameMap<V> {
    type V = Map<Seq<char>, V::V>;

    closed spec fn view(&self) -> Map<Seq<char>, V::V> {
        map_of(self.entries@)
    }
}

impl<V: View> NameMap<V> {
    /// No name occurs twice.
    pub closed spec fn wf(&self) -> bool {
        names_distinct(self.entries@)
    }

    /// The names, in the order in which they were first inserted.
    pub closed spec fn names(&self) -> Seq<Seq<char>> {
        Seq::new(self.entries@.len(), |i: int| self.entries@[i].0@)
    }

    /// The names are distinct and are the map's domain.
    pub proof fn lemma_names(&self)
        requires
            self.wf(),
        ensures
            self.names().no_duplicates(),
            forall|k: Seq<char>| self@.contains_key(k) <==> self.names().contains(k),
            self@.dom() == self.names().to_set(),
            self@.dom().finite(),
            self@.len() == self.names().len(),
    {
        lemma_map_of(self.entries@);
        let ns = self.names();
        assert forall|i: int, j: int| 0 <= i < ns.len() && 0 <= j < ns.len() && i != j implies ns[i]
            != ns[j] by {
            assert(ns[i] == self.entries@[i].0@);
            assert(ns[j] == self.entries@[j].0@);
        }
        assert forall|k: Seq<char>| self@.contains_key(k) <==> ns.contains(k) by {
            if self@.contains_key(k) {
                let i = choose|i: int|
                    0 <= i < self.entries@.len() && (#[trigger] self.entries@[i]).0@ == k;
                assert(ns[i] == k);
            }
            if ns.contains(k) {
                let i = choose|i: int| 0 <= i < ns.len() && ns[i] == k;
                assert(self.entries@[i].0@ == k);
            }
        }
        assert(self@.dom() =~= ns.to_set());
        ns.unique_seq_to_set();
        vstd::seq_lib::seq_to_set_is_finite(ns);
    }

    /// The empty map.
    pub fn new() -> (m: Self)
        ensures
            m.wf(),
            m@ == Map::<Seq<char>, V::V>::empty(),
            m.names() == Seq::<Seq<char>>::empty(),
    {
        let m = NameMap { entries: Vec::new() };
        assert(m.names() =~= Seq::<Seq<char>>::empty());
        m
    }

    /// How many names there are.
    pub fn len(&self) -> (n: usize)
        requires
            self.wf(),
        ensures
            n == self@.len(),
            n == self.names().len(),
    {
        proof {
            self.lemma_names();
        }
        self.entries.len()
    }

    fn position(&self, name: &str) -> (r: Option<usize>)
        requires
            self.wf(),
        ensures
            match r {
                Some(i) => i < self.entries@.len() && self.entries@[i as int].0@ == name@
                    && self@.contains_key(name@) && self@[name@] == self.entries@[i as int].1@,
                None => !self@.contains_key(name@) && forall|j: int|
                    0 <= j < self.entries@.len() ==> (#[trigger] self.entries@[j]).0@ != name@,
            },
    {
        proof {
            lemma_map_of(self.entries@);
        }
        let mut i: usize = 0;
        while i < self.entries.len()
            invariant
                self.wf(),
                i <= self.entries@.len(),
                forall|j: int| 0 <= j < i ==> (#[trigger] self.entries@[j]).0@ != name@,
            decreases self.entries@.len() - i,
        {
            if str_eq(self.entries[i].0.as_str(), name) {
                proof {
                    lemma_map_of(self.entries@);
                    assert(self.entries@[i as int].0@ == name@);
                }
                return Some(i);
            }
            i = i + 1;
        }
        None
    }

    /// The value under a name, if there is one.
    pub fn get(&self, name: &str) -> (r: Option<&V>)
        requires
            self.wf(),
        ensures
            match r {
                Some(v) => self@.contains_key(name@) && self@[name@] == v@,
                None => !self@.contains_key(name@),
            },
    {
        match self.position(name) {
            Some(i) => Some(&self.entries[i].1),
            None => None,
        }
    }

    /// The `i`-th name and its value.
    pub fn entry_at(&self, i: usize) -> (r: (&str, &V))
        requires
            self.wf(),
            i < self.names().len(),
        ensures
            r.0@ == self.names()[i as int],
            self@.contains_key(r.0@),
            self@[r.0@] == r.1@,
    {
        proof {
            lemma_map_of(self.entries@);
        }
        let e = &self.entries[i];
        assert(self.entries@[i as int].0@ == e.0@);
        (e.0.as_str(), &e.1)
    }

    /// Puts `value` under a name, in place of what was there.
    pub fn insert(&mut self, name: String, value: V)
        requires
            old(self).wf(),
        ensures
            final(self).wf(),
            final(self)@ == old(self)@.insert(name@, value@),
    {
        let ghost before = self.entries@;
        match self.position(name.as_str()) {
            Some(i) => {
                let ghost at = i as int;
                self.entries[i] = (name, value);
                proof {
                    assert(self.entries@ =~= before.update(at, (name, value)));
                    assert forall|a: int, b: int|
                        #![trigger self.entries@[a], self.entries@[b]]
                        0 <= a < self.entries@.len() && 0 <= b < self.entries@.len()
                            && self.entries@[a].0@ == self.entries@[b].0@ implies a == b by {
                        assert(self.entries@[a].0@ == before[a].0@);
                        assert(self.entries@[b].0@ == before[b].0@);
                    }
                    lemma_map_of(before);
                    lemma_map_of(self.entries@);
                    let m = map_of(before).insert(name@, value@);
                    assert forall|k: Seq<char>| self@.contains_key(k) == m.contains_key(k) by {
                        if self@.contains_key(k) {
                            let j = choose|j: int|
                                0 <= j < self.entries@.len() && (#[trigger] self.entries@[j]).0@
                                    == k;
                            assert(before[j].0@ == k);
                        }
                        if m.contains_key(k) && k != name@ {
                            let j = choose|j: int|
                                0 <= j < before.len() && (#[trigger] before[j]).0@ == k;
                            assert(self.entries@[j].0@ == k);
                        }
                        assert(self.entries@[at].0@ == name@);
                    }
                    assert forall|k: Seq<char>| self@.contains_key(k) implies self@[k] == m[k] by {
                        let j = choose|j: int|
                            0 <= j < self.entries@.len() && (#[trigger] self.entries@[j]).0@ == k;
                        assert(before[j].0@ == k);
                        if j == at {
                            assert(self.entries@[at].1 == value);
                        }
                    }
                    assert(self@ =~= m);
                }
            },
            None => {
                self.entries.push((name, value));
                proof {
                    assert(self.entries@.drop_last() =~= before);
                    assert forall|a: int, b: int|
                        #![trigger self.entries@[a], self.entries@[b]]
                        0 <= a < self.entries@.len() && 0 <= b < self.entries@.len()
                            && self.entries@[a].0@ == self.entries@[b].0@ implies a == b by {
                        if a < before.len() {
                            assert(self.entries@[a] == before[a]);
                        }
                        if b < before.len() {
                            assert(self.entries@[b] == before[b]);
                        }
                    }
                }
            },
        }
    }

    /// Takes out what stands under a name.
    pub fn take(&mut self, name: &str) -> (r: Option<V>)
        requires
            old(self).wf(),
        ensures
            final(self).wf(),
            final(self)@ == old(self)@.remove(name@),
            match r {
                Some(v) => old(self)@.contains_key(name@) && old(self)@[name@] == v@,
                None => !old(self)@.contains_key(name@),
            },
    {
        let ghost before = self.entries@;
        match self.position(name) {
            Some(i) => {
                let ghost at = i as int;
                let e = self.entries.remove(i);
                proof {
                    assert(self.entries@ =~= before.remove(at));
                    assert forall|a: int, b: int|
                        #![trigger self.entries@[a], self.entries@[b]]
                        0 <= a < self.entries@.len() && 0 <= b < self.entries@.len()
                            && self.entries@[a].0@ == self.entries@[b].0@ implies a == b by {
                        let a2 = if a < at { a } else { a + 1 };
                        let b2 = if b < at { b } else { b + 1 };
                        assert(self.entries@[a] == before[a2]);
                        assert(self.entries@[b] == before[b2]);
                    }
                    lemma_map_of(before);
                    lemma_map_of(self.entries@);
                    let m = map_of(before).remove(name@);
                    assert forall|k: Seq<char>| self@.contains_key(k) == m.contains_key(k) by {
                        if self@.contains_key(k) {
                            let j = choose|j: int|
                                0 <= j < self.entries@.len() && (#[trigger] self.entries@[j]).0@
                                    == k;
                            let j2 = if j < at { j } else { j + 1 };
                            assert(self.entries@[j] == before[j2]);
                            if k == name@ {
                                assert(before[j2].0@ == before[at].0@);
                            }
                        }
                        if m.contains_key(k) {
                            let j2 = choose|j: int|
                                0 <= j < before.len() && (#[trigger] before[j]).0@ == k;
                            let j = if j2 < at { j2 } else { j2 - 1 };
                            assert(self.entries@[j] == before[j2]);
                        }
                    }
                    assert forall|k: Seq<char>| self@.contains_key(k) implies self@[k] == m[k] by {
                        let j = choose|j: int|
                            0 <= j < self.entries@.len() && (#[trigger] self.entries@[j]).0@ == k;
                        let j2 = if j < at { j } else { j + 1 };
                        assert(self.entries@[j] == before[j2]);
                    }
                    assert(self@ =~= m);
                }
                Some(e.1)
            },
            None => {
                assert(self@ =~= map_of(before).remove(name@));
                None
            },
        }
    }
}

/// A saved peer.
#[derive(Debug)]
pub struct PeerEntry {
    pub peer_id: String,
    pub multiaddr: String,
}

/// A saved peer by its texts.
pub struct EntryModel {
    pub peer_id: Seq<char>,
    pub multiaddr: Seq<char>,
}

impl View for PeerEntry {
    type V = EntryModel;

    open spec fn view(&self) -> EntryModel {
        EntryModel { peer_id: self.peer_id@, multiaddr: self.multiaddr@ }
    }
}

/// Saved peers by their texts.
pub open spec fn entries_view(v: Seq<PeerEntry>) -> Seq<EntryModel> {
    v.map_values(|e: PeerEntry| e@)
}

/// The peers after one more was seen; one whose texts are no peer id and address
/// is passed over.
pub open spec fn recorded(m: Map<Seq<char>, Seq<char>>, e: EntryModel) -> Map<Seq<char>, Seq<char>> {
    match (peer_id_of(e.peer_id), multiaddr_of(e.multiaddr)) {
        (Some(id), Some(addr)) => m.insert(id, addr),
        _ => m,
    }
}

/// The peers of a saved list.
pub open spec fn loaded(entries: Seq<EntryModel>) -> Map<Seq<char>, Seq<char>>
    decreases entries.len(),
{
    if entries.len() == 0 {
        Map::empty()
    } else {
        recorded(loaded(entries.drop_last()), entries.last())
    }
}

/// Whether the peers are held by the texts that peer ids and addresses are written
/// as.
pub open spec fn is_canonical(m: Map<Seq<char>, Seq<char>>) -> bool {
    forall|k: Seq<char>| #[trigger]
        m.contains_key(k) ==> peer_id_of(k) == Some(k) && multiaddr_of(m[k]) == Some(m[k])
}

/// Whether a list names each peer of a map once, and no other.
pub open spec fn lists(entries: Seq<EntryModel>, m: Map<Seq<char>, Seq<char>>) -> bool {
    &&& forall|i: int|
        0 <= i < entries.len() ==> m.contains_key((#[trigger] entries[i]).peer_id)
            && m[entries[i].peer_id] == entries[i].multiaddr
    &&& forall|k: Seq<char>| #[trigger]
        m.contains_key(k) ==> exists|i: int|
            0 <= i < entries.len() && (#[trigger] entries[i]).peer_id == k
    &&& forall|i: int, j: int|
        #![trigger entries[i], entries[j]]
        0 <= i < entries.len() && 0 <= j < entries.len() && entries[i].peer_id
            == entries[j].peer_id ==> i == j
}

/// The peers to dial again after a restart: not the node itself, nor those that it
/// is connected to.
pub open spec fn to_redial(
    entries: Seq<EntryModel>,
    local: Seq<char>,
    connected: Seq<String>,
) -> Seq<EntryModel>
    decreases entries.len(),
{
    if entries.len() == 0 {
        Seq::empty()
    } else {
        let rest = to_redial(entries.drop_last(), local, connected);
        let id = entries.last().peer_id;
        if id == local || exists|i: int|
            0 <= i < connected.len() && (#[trigger] connected[i])@ == id {
            rest
        } else {
            rest.push(entries.last())
        }
    }
}

/// The peers that a node was connected to, each with the address that it was last
/// seen at.
pub struct PeerBook {
    peers: NameMap<String>,
}

impl View for PeerBook {
    type V = Map<Seq<char>, Seq<char>>;

    closed spec fn view(&self) -> Map<Seq<char>, Seq<char>> {
        self.peers@
    }
}

impl PeerBook {
    /// No peer is listed twice, and all are held by the texts that peer ids and
    /// addresses are written as.
    pub closed spec fn wf(&self) -> bool {
        self.peers.wf() && is_canonical(self.peers@)
    }

    /// What every book keeps.
    pub proof fn lemma_canonical(&self)
        requires
            self.wf(),
        ensures
            is_canonical(self@),
            self@.dom().finite(),
    {
        self.peers.lemma_names();
    }

    /// An empty book.
    pub fn new() -> (b: Self)
        ensures
            b.wf(),
            b@ == Map::<Seq<char>, Seq<char>>::empty(),
    {
        PeerBook { peers: NameMap::new() }
    }

    /// Takes note of a peer and the address that it was seen at. Says whether they
    /// are a peer id and an address; if not, nothing changes.
    pub fn record(&mut self, peer_id: &str, addr: &str) -> (r: bool)
        requires
            old(self).wf(),
        ensures
            final(self).wf(),
            r == (peer_id_of(peer_id@) is Some && multiaddr_of(addr@) is Some),
            final(self)@ == recorded(
                old(self)@,
                (EntryModel { peer_id: peer_id@, multiaddr: addr@ }),
            ),
    {
        match (parse_peer_id(peer_id), parse_multiaddr(addr)) {
            (Some(id), Some(a)) => {
                self.peers.insert(id, a);
                true
            },
            _ => false,
        }
    }

    /// The book of a saved list. Entries that are no peer id or no address are
    /// passed over.
    pub fn from_entries(entries: &Vec<PeerEntry>) -> (b: Self)
        ensures
            b.wf(),
            b@ == loaded(entries_view(entries@)),
    {
        let mut book = Self::new();
        let ghost all = entries_view(entries@);
        let mut i: usize = 0;
        assert(all.take(0) =~= Seq::<EntryModel>::empty());
        while i < entries.len()
            invariant
                i <= entries@.len(),
                all == entries_view(entries@),
                book.wf(),
                book@ == loaded(all.take(i as int)),
            decreases entries@.len() - i,
        {
            book.record(entries[i].peer_id.as_str(), entries[i].multiaddr.as_str());
            proof {
                assert(all.take(i + 1).drop_last() =~= all.take(i as int));
                assert(all.take(i + 1).last() == entries@[i as int]@);
            }
            i = i + 1;
        }
        assert(all.take(i as int) =~= all);
        book
    }

    /// The peers, one by one: what a restart dials again, and what is saved.
    pub fn iter(&self) -> (r: Vec<PeerEntry>)
        requires
            self.wf(),
        ensures
            lists(entries_view(r@), self@),
            r@.len() == self@.len(),
    {
        let n: usize = self.peers.len();
        let ghost ns = self.peers.names();
        proof {
            self.peers.lemma_names();
        }
        let mut out: Vec<PeerEntry> = Vec::new();
        let mut i: usize = 0;
        while i < n
            invariant
                self.wf(),
                ns == self.peers.names(),
                n == ns.len(),
                i <= n,
                out@.len() == i,
                forall|j: int|
                    0 <= j < i ==> (#[trigger] out@[j]).peer_id@ == ns[j] && self@.contains_key(
                        ns[j],
                    ) && out@[j].multiaddr@ == self@[ns[j]],
            decreases n - i,
        {
            let e = self.peers.entry_at(i);
            out.push(PeerEntry { peer_id: copy_text(e.0), multiaddr: copy_text(e.1.as_str()) });
            i = i + 1;
        }
        proof {
            let v = entries_view(out@);
            assert forall|k: Seq<char>| #[trigger] self@.contains_key(k) implies exists|i: int|
                0 <= i < v.len() && (#[trigger] v[i]).peer_id == k by {
                assert(ns.contains(k));
                let j = choose|j: int| 0 <= j < ns.len() && ns[j] == k;
                assert(v[j] == out@[j]@);
            }
            assert forall|i: int, j: int|
                #![trigger v[i], v[j]]
                0 <= i < v.len() && 0 <= j < v.len() && v[i].peer_id == v[j].peer_id implies i
                == j by {
                assert(v[i] == out@[i]@ && v[j] == out@[j]@);
                assert(ns[i] == ns[j]);
            }
            assert forall|i: int| 0 <= i < v.len() implies self@.contains_key(
                (#[trigger] v[i]).peer_id,
            ) && self@[v[i].peer_id] == v[i].multiaddr by {
                assert(v[i] == out@[i]@);
            }
        }
        out
    }

    /// The address of a peer, given by the text that its id is written as.
    pub fn get(&self, peer_id: &str) -> (r: Option<&String>)
        requires
            self.wf(),
        ensures
            match r {
                Some(a) => self@.contains_key(peer_id@) && self@[peer_id@] == a@,
                None => !self@.contains_key(peer_id@),
            },
    {
        self.peers.get(peer_id)
    }

    /// How many peers there are.
    pub fn len(&self) -> (n: usize)
        requires
            self.wf(),
        ensures
            n == self@.len(),
    {
        self.peers.len()
    }

    /// Whether there are no peers.
    pub fn is_empty(&self) -> (r: bool)
        requires
            self.wf(),
        ensures
            r == (self@.len() == 0),
    {
        self.peers.len() == 0
    }
}

fn is_among(name: &str, list: &Vec<String>) -> (r: bool)
    ensures
        r == exists|i: int| 0 <= i < list@.len() && (#[trigger] list@[i])@ == name@,
{
    let mut i: usize = 0;
    while i < list.len()
        invariant
            i <= list@.len(),
            forall|j: int| 0 <= j < i ==> (#[trigger] list@[j])@ != name@,
        decreases list@.len() - i,
    {
        if str_eq(list[i].as_str(), name) {
            assert(list@[i as int]@ == name@);
            return true;
        }
        i = i + 1;
    }
    false
}

/// The peers of a saved list to dial again after a restart.
pub fn redial_saved_peers(entries: &Vec<PeerEntry>, local: &str, connected: &Vec<String>) -> (r:
    Vec<PeerEntry>)
    ensures
        entries_view(r@) == to_redial(entries_view(entries@), local@, connected@),
{
    let mut out: Vec<PeerEntry> = Vec::new();
    let ghost all = entries_view(entries@);
    let mut i: usize = 0;
    assert(all.take(0) =~= Seq::<EntryModel>::empty());
    assert(entries_view(out@) =~= Seq::<EntryModel>::empty());
    while i < entries.len()
        invariant
            i <= entries@.len(),
            all == entries_view(entries@),
            entries_view(out@) == to_redial(all.take(i as int), local@, connected@),
        decreases entries@.len() - i,
    {
        let ghost before = out@;
        proof {
            assert(all.take(i + 1).drop_last() =~= all.take(i as int));
            assert(all.take(i + 1).last() == entries@[i as int]@);
        }
        let id = entries[i].peer_id.as_str();
        if !str_eq(id, local) && !is_among(id, connected) {
            out.push(
                PeerEntry {
                    peer_id: copy_text(id),
                    multiaddr: copy_text(entries[i].multiaddr.as_str()),
                },
            );
            assert(entries_view(out@) =~= entries_view(before).push(entries@[i as int]@));
        }
        i = i + 1;
    }
    assert(all.take(i as int) =~= all);
    out
}

/// The challenges that were sent to peers and not answered yet.
pub struct PendingNonces {
    nonces: NameMap<Key>,
}

impl View for PendingNonces {
    type V = Map<Seq<char>, Seq<u8>>;

    closed spec fn view(&self) -> Map<Seq<char>, Seq<u8>> {
        self.nonces@
    }
}

impl PendingNonces {
    /// No peer has two.
    pub closed spec fn wf(&self) -> bool {
        self.nonces.wf()
    }

    /// None were sent.
    pub fn new() -> (p: Self)
        ensures
            p.wf(),
            p@ == Map::<Seq<char>, Seq<u8>>::empty(),
    {
        PendingNonces { nonces: NameMap::new() }
    }

    /// Says whether a peer is to be sent the challenge, which is then pending: not
    /// where another one is.
    pub fn begin(&mut self, peer: &str, nonce: Key) -> (sent: bool)
        requires
            old(self).wf(),
        ensures
            final(self).wf(),
            sent == !old(self)@.contains_key(peer@),
            final(self)@ == if sent {
                old(self)@.insert(peer@, nonce@)
            } else {
                old(self)@
            },
    {
        if self.nonces.get(peer).is_some() {
            return false;
        }
        self.nonces.insert(copy_text(peer), nonce);
        true
    }

    /// Takes out the challenge of a peer: its answer came, the request failed, or
    /// the connection is gone.
    pub fn take(&mut self, peer: &str) -> (r: Option<Key>)
        requires
            old(self).wf(),
        ensures
            final(self).wf(),
            final(self)@ == old(self)@.remove(peer@),
            match r {
                Some(n) => old(self)@.contains_key(peer@) && old(self)@[peer@] == n@,
                None => !old(self)@.contains_key(peer@),
            },
    {
        self.nonces.take(peer)
    }
}

/// A book that is saved and loaded again holds the same peers.
pub proof fn law_peer_book_round_trip(m: Map<Seq<char>, Seq<char>>, entries: Seq<EntryModel>)
    requires
        is_canonical(m),
        lists(entries, m),
    ensures
        loaded(entries) == m,
{
    lemma_loaded(m, entries, entries.len() as int);
    assert(entries.take(entries.len() as int) =~= entries);
    let l = loaded(entries);
    assert forall|k: Seq<char>| l.contains_key(k) == m.contains_key(k) by {
        if m.contains_key(k) {
            let i = choose|i: int| 0 <= i < entries.len() && (#[trigger] entries[i]).peer_id == k;
            assert(entries[i].peer_id == k);
        }
    }
    assert(l =~= m);
}

proof fn lemma_loaded(m: Map<Seq<char>, Seq<char>>, entries: Seq<EntryModel>, n: int)
    requires
        is_canonical(m),
        lists(entries, m),
        0 <= n <= entries.len(),
    ensures
        forall|k: Seq<char>| #[trigger]
            loaded(entries.take(n)).contains_key(k) <==> exists|i: int|
                0 <= i < n && (#[trigger] entries[i]).peer_id == k,
        forall|k: Seq<char>| #[trigger]
            loaded(entries.take(n)).contains_key(k) ==> m.contains_key(k) && loaded(
                entries.take(n),
            )[k] == m[k],
    decreases n,
{
    if n > 0 {
        lemma_loaded(m, entries, n - 1);
        let t = entries.take(n);
        assert(t.drop_last() =~= entries.take(n - 1));
        assert(t.last() == entries[n - 1]);
        let e = entries[n - 1];
        assert(m.contains_key(e.peer_id));
        assert(peer_id_of(e.peer_id) == Some(e.peer_id));
        assert(multiaddr_of(e.multiaddr) == Some(e.multiaddr));
        assert(loaded(t) == loaded(entries.take(n - 1)).insert(e.peer_id, e.multiaddr));
        assert forall|k: Seq<char>| #[trigger] loaded(t).contains_key(k) <==> exists|i: int|
            0 <= i < n && (#[trigger] entries[i]).peer_id == k by {
            if loaded(t).contains_key(k) && k != e.peer_id {
                assert(loaded(entries.take(n - 1)).contains_key(k));
                let i = choose|i: int|
                    0 <= i < n - 1 && (#[trigger] entries[i]).peer_id == k;
                assert(entries[i].peer_id == k);
            }
            if k == e.peer_id {
                assert(entries[n - 1].peer_id == k);
            }
            if exists|i: int| 0 <= i < n && (#[trigger] entries[i]).peer_id == k {
                let i = choose|i: int| 0 <= i < n && (#[trigger] entries[i]).peer_id == k;
                if i < n - 1 {
                    assert(loaded(entries.take(n - 1)).contains_key(k));
                }
            }
        }
    } else {
        assert(entries.take(0) =~= Seq::<EntryModel>::empty());
    }
}

/// Seeing a peer again changes its address at most, and the last one seen counts.
pub proof fn law_recording_is_idempotent(
    m: Map<Seq<char>, Seq<char>>,
    peer_id: Seq<char>,
    first: Seq<char>,
    last: Seq<char>,
)
    requires
        peer_id_of(peer_id) is Some,
        multiaddr_of(first) is Some,
        multiaddr_of(last) is Some,
    ensures
        ({
            let once = recorded(m, EntryModel { peer_id, multiaddr: last });
            let twice = recorded(
                recorded(m, EntryModel { peer_id, multiaddr: first }),
                EntryModel { peer_id, multiaddr: last },
            );
            &&& twice == once
            &&& twice.contains_key(peer_id_of(peer_id)->0)
            &&& twice[peer_id_of(peer_id)->0] == multiaddr_of(last)->0
        }),
{
    let once = recorded(m, EntryModel { peer_id, multiaddr: last });
    let twice = recorded(
        recorded(m, EntryModel { peer_id, multiaddr: first }),
        EntryModel { peer_id, multiaddr: last },
    );
    assert(twice =~= once);
}

} // verus!
