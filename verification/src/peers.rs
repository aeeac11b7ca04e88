//! The table of peers learnt from service discovery, keyed by peer id, with
//! the time-to-live cleanup that keeps it current.

use vstd::prelude::*;

use crate::state::{State, state_from_text};
use crate::text::text_eq;

verus! {

/// How long a peer stays in the table after it was last announced: six
/// seconds, in nanoseconds.
pub const PEER_TTL_NANOS: u64 = 6_000_000_000;

/// An IP address of a peer.
#[derive(Debug, Clone, Copy, PartialEq, Eq)]
pub enum IpAddress {
    /// An IPv4 address as four octets.
    V4([u8; 4]),
    /// An IPv6 address as eight 16-bit segments.
    V6([u16; 8]),
}

/// The socket address at which a peer was announced.
#[derive(Debug, Clone, Copy, PartialEq, Eq)]
pub struct PeerAddress {
    pub ip: IpAddress,
    pub port: u16,
}

/// A peer as the discovery table records it. `last_seen` is a reading of a
/// monotonic clock, in nanoseconds.
#[derive(Debug)]
pub struct Peer {
    pub id: String,
    pub name: String,
    pub state: State,
    pub address: PeerAddress,
    pub last_seen: u64,
}

impl Clone for Peer {
    fn clone(&self) -> (r: Self)
        ensures
            r == *self,
    {
        Peer {
            id: self.id.clone(),
            name: self.name.clone(),
            state: self.state,
            address: self.address,
            last_seen: self.last_seen,
        }
    }
}

/// A resolved service announcement, with the parts that the table reads:
/// the `id`, `name` and `state` properties where present, the announced
/// addresses in the order the resolver gave them, and the port.
#[derive(Debug)]
pub struct ServiceRecord {
    pub id: Option<String>,
    pub name: Option<String>,
    pub state: Option<String>,
    pub addresses: Vec<IpAddress>,
    pub port: u16,
}

/// The view of an optional string.
pub open spec fn opt_view(o: Option<String>) -> Option<Seq<char>> {
    match o {
        Some(s) => Some(s@),
        None => None,
    }
}

/// The map from peer id to peer that a sequence of entries stands for; a
/// later entry for the same id replaces an earlier one.
pub open spec fn peer_map(s: Seq<Peer>) -> Map<Seq<char>, Peer>
    decreases s.len(),
{
    if s.len() == 0 {
        Map::empty()
    } else {
        peer_map(s.drop_last()).insert(s.last().id@, s.last())
    }
}

/// The position of the entry with id `k`, if some entry carries it.
pub open spec fn index_of_id(s: Seq<Peer>, k: Seq<char>) -> Option<int> {
    if exists|i: int| 0 <= i < s.len() && s[i].id@ == k {
        Some(choose|i: int| 0 <= i < s.len() && s[i].id@ == k)
    } else {
        None
    }
}

/// The entries after recording `p`: it replaces the entry with its id in
/// place, or comes last when there is none.
pub open spec fn entries_with(s: Seq<Peer>, p: Peer) -> Seq<Peer> {
    match index_of_id(s, p.id@) {
        Some(i) => s.update(i, p),
        None => s.push(p),
    }
}

/// No two entries share an id.
pub open spec fn unique_ids(s: Seq<Peer>) -> bool {
    forall|i: int, j: int| 0 <= i < j < s.len() ==> s[i].id@ != s[j].id@
}

/// The time that has passed since `then`, as `Instant::elapsed` gives it:
/// zero if `then` is not earlier than `now`.
pub open spec fn elapsed(now: u64, then: u64) -> int {
    if now >= then {
        now - then
    } else {
        0
    }
}

/// Whether a peer was announced less than the time-to-live ago.
pub open spec fn is_fresh(p: Peer, now: u64) -> bool {
    elapsed(now, p.last_seen) < PEER_TTL_NANOS
}

/// The entries of `s` that satisfy `pred`, in their order.
pub open spec fn peers_where(s: Seq<Peer>, pred: spec_fn(Peer) -> bool) -> Seq<Peer>
    decreases s.len(),
{
    if s.len() == 0 {
        s
    } else {
        let prev = peers_where(s.drop_last(), pred);
        if pred(s.last()) {
            prev.push(s.last())
        } else {
            prev
        }
    }
}

/// The entries of `s` that are fresh at `now`, in their order.
pub open spec fn fresh_entries(s: Seq<Peer>, now: u64) -> Seq<Peer> {
    peers_where(s, |p: Peer| is_fresh(p, now))
}

/// The part of a peer map that is fresh at `now`.
pub open spec fn keep_fresh(m: Map<Seq<char>, Peer>, now: u64) -> Map<Seq<char>, Peer> {
    Map::new(|k: Seq<char>| m.contains_key(k) && is_fresh(m[k], now), |k: Seq<char>| m[k])
}

/// The entries of `s` whose peer waits to receive, in their order.
pub open spec fn receiver_entries(s: Seq<Peer>) -> Seq<Peer> {
    peers_where(s, |p: Peer| p.state == State::Receive)
}

/// The name under which an announced peer is recorded.
pub open spec fn peer_name(name: Option<Seq<char>>) -> Seq<char> {
    match name {
        Some(n) => n,
        None => "unknown"@,
    }
}

/// Whether `rec` announces a peer that the table records: it has an id
/// other than `my_id` and at least one address.
pub open spec fn record_is_usable(rec: ServiceRecord, my_id: Seq<char>) -> bool {
    &&& rec.id is Some
    &&& rec.id->0@ != my_id
    &&& rec.addresses@.len() > 0
}

/// Whether `p` is the peer that `rec` announces at time `now`: its id, its
/// name (or `unknown`), its state, its first address with the announced
/// port, and `now` as the time it was seen.
pub open spec fn peer_of_record(p: Peer, rec: ServiceRecord, now: u64) -> bool {
    &&& rec.id is Some
    &&& p.id@ == rec.id->0@
    &&& p.name@ == peer_name(opt_view(rec.name))
    &&& p.state == state_from_text(opt_view(rec.state))
    &&& rec.addresses@.len() > 0
    &&& p.address == PeerAddress { ip: rec.addresses@[0], port: rec.port }
    &&& p.last_seen == now
}

/// An id is in the map exactly when some entry carries it.
proof fn lemma_peer_map_dom(s: Seq<Peer>, k: Seq<char>)
    ensures
        peer_map(s).contains_key(k) <==> exists|i: int| 0 <= i < s.len() && s[i].id@ == k,
    decreases s.len(),
{
    if s.len() > 0 {
        lemma_peer_map_dom(s.drop_last(), k);
        if peer_map(s.drop_last()).contains_key(k) {
            let i = choose|i: int| 0 <= i < s.len() - 1 && s.drop_last()[i].id@ == k;
            assert(s[i].id@ == k);
        }
        if exists|i: int| 0 <= i < s.len() && s[i].id@ == k {
            let i = choose|i: int| 0 <= i < s.len() && s[i].id@ == k;
            if i < s.len() - 1 {
                assert(s.drop_last()[i].id@ == k);
            }
        }
    }
}

/// With unique ids, the map gives each entry under its own id.
proof fn lemma_peer_map_value(s: Seq<Peer>, i: int)
    requires
        unique_ids(s),
        0 <= i < s.len(),
    ensures
        peer_map(s).contains_key(s[i].id@),
        peer_map(s)[s[i].id@] == s[i],
    decreases s.len(),
{
    if i < s.len() - 1 {
        let t = s.drop_last();
        assert(unique_ids(t));
        assert(t[i] == s[i]);
        lemma_peer_map_value(t, i);
    }
}

/// Two unique-id sequences with the same ids and the same entry per id
/// stand for the same map.
proof fn lemma_peer_map_ext(s: Seq<Peer>, m: Map<Seq<char>, Peer>)
    requires
        unique_ids(s),
        forall|i: int|
            #![trigger s[i]]
            0 <= i < s.len() ==> m.contains_key(s[i].id@) && m[s[i].id@] == s[i],
        forall|k: Seq<char>| #[trigger]
            m.contains_key(k) ==> exists|i: int| 0 <= i < s.len() && s[i].id@ == k,
    ensures
        peer_map(s) == m,
{
    assert forall|k: Seq<char>| #[trigger] peer_map(s).contains_key(k) <==> m.contains_key(k) by {
        lemma_peer_map_dom(s, k);
        if peer_map(s).contains_key(k) {
            let i = choose|i: int| 0 <= i < s.len() && s[i].id@ == k;
            assert(m.contains_key(s[i].id@));
        }
    }
    assert forall|k: Seq<char>| #[trigger] peer_map(s).contains_key(k) implies peer_map(s)[k]
        == m[k] by {
        lemma_peer_map_dom(s, k);
        let i = choose|i: int| 0 <= i < s.len() && s[i].id@ == k;
        lemma_peer_map_value(s, i);
        assert(m.contains_key(s[i].id@));
    }
    assert(peer_map(s) =~= m);
}

/// The chosen entries are entries of `s` that satisfy `pred`, every such
/// entry of `s` is among them, and they keep ids unique.
#[verifier::rlimit(30)]
proof fn lemma_peers_where(s: Seq<Peer>, pred: spec_fn(Peer) -> bool)
    ensures
        forall|i: int|
            0 <= i < peers_where(s, pred).len() ==> pred(#[trigger] peers_where(s, pred)[i])
                && exists|j: int| 0 <= j < s.len() && s[j] == peers_where(s, pred)[i],
        forall|j: int|
            0 <= j < s.len() && pred(#[trigger] s[j]) ==> exists|i: int|
                0 <= i < peers_where(s, pred).len() && peers_where(s, pred)[i] == s[j],
        unique_ids(s) ==> unique_ids(peers_where(s, pred)),
    decreases s.len(),
{
    if s.len() > 0 {
        let t = s.drop_last();
        lemma_peers_where(t, pred);
        let f = peers_where(s, pred);
        let ft = peers_where(t, pred);
        let keep_last = pred(s.last());
        assert(keep_last ==> f == ft.push(s.last()));
        assert(!keep_last ==> f == ft);
        assert forall|i: int| 0 <= i < f.len() implies pred(#[trigger] f[i]) && exists|
            j: int,
        | 0 <= j < s.len() && s[j] == f[i] by {
            if i < ft.len() {
                assert(f[i] == ft[i]);
                let j = choose|j: int| 0 <= j < t.len() && t[j] == ft[i];
                assert(s[j] == t[j]);
            } else {
                assert(f[i] == s[s.len() - 1]);
            }
        }
        assert forall|j: int| 0 <= j < s.len() && pred(#[trigger] s[j]) implies exists|
            i: int,
        | 0 <= i < f.len() && f[i] == s[j] by {
            if j < s.len() - 1 {
                assert(t[j] == s[j]);
                let i = choose|i: int| 0 <= i < ft.len() && ft[i] == t[j];
                assert(f[i] == ft[i]);
            } else {
                assert(f[f.len() - 1] == s[j]);
            }
        }
        if unique_ids(s) {
            assert(unique_ids(t));
            assert forall|a: int, b: int| 0 <= a < b < f.len() implies f[a].id@ != f[b].id@ by {
                if b < ft.len() {
                    assert(f[a] == ft[a] && f[b] == ft[b]);
                } else {
                    assert(f[a] == ft[a]);
                    let j = choose|j: int| 0 <= j < t.len() && t[j] == ft[a];
                    assert(s[j] == t[j]);
                    assert(f[b] == s[s.len() - 1]);
                }
            }
        }
    }
}

/// With unique ids, the fresh entries stand for the fresh part of the map.
proof fn lemma_fresh_map(s: Seq<Peer>, now: u64)
    requires
        unique_ids(s),
    ensures
        unique_ids(fresh_entries(s, now)),
        peer_map(fresh_entries(s, now)) == keep_fresh(peer_map(s), now),
{
    lemma_peers_where(s, |p: Peer| is_fresh(p, now));
    let f = fresh_entries(s, now);
    let m = keep_fresh(peer_map(s), now);
    assert forall|i: int| #![trigger f[i]] 0 <= i < f.len() implies m.contains_key(f[i].id@)
        && m[f[i].id@] == f[i] by {
        let j = choose|j: int| 0 <= j < s.len() && s[j] == f[i];
        lemma_peer_map_value(s, j);
    }
    assert forall|k: Seq<char>| #[trigger] m.contains_key(k) implies exists|i: int|
        0 <= i < f.len() && f[i].id@ == k by {
        lemma_peer_map_dom(s, k);
        let j = choose|j: int| 0 <= j < s.len() && s[j].id@ == k;
        lemma_peer_map_value(s, j);
        assert(is_fresh(s[j], now));
        let i = choose|i: int| 0 <= i < f.len() && f[i] == s[j];
    }
    lemma_peer_map_ext(f, m);
}

/// The discovered peers, keyed by id.
#[derive(Debug)]
pub struct PeerTable {
    peers: Vec<Peer>,
}

impl View for PeerTable {
    type V = Map<Seq<char>, Peer>;

    open spec fn view(&self) -> Map<Seq<char>, Peer> {
        peer_map(self.entries())
    }
}

impl PeerTable {
    /// The entries of the table in their order.
    pub closed spec fn entries(&self) -> Seq<Peer> {
        self.peers@
    }

    /// The table's invariant: no two entries share an id.
    pub open spec fn wf(&self) -> bool {
        unique_ids(self.entries())
    }

    /// An empty table.
    pub fn new() -> (t: PeerTable)
        ensures
            t.wf(),
            t.entries() == Seq::<Peer>::empty(),
            t@ == Map::<Seq<char>, Peer>::empty(),
    {
        let t = PeerTable { peers: Vec::new() };
        assert(t@ =~= Map::<Seq<char>, Peer>::empty());
        t
    }

    /// The number of peers in the table.
    pub fn len(&self) -> (n: usize)
        requires
            self.wf(),
        ensures
            n == self.entries().len(),
            n == self@.len(),
    {
        proof {
            self.lemma_len();
        }
        self.peers.len()
    }

    /// With unique ids, the map has as many keys as there are entries.
    proof fn lemma_len(&self)
        requires
            self.wf(),
        ensures
            self@.len() == self.entries().len(),
            self@.dom().finite(),
    {
        lemma_map_len(self.peers@);
    }

    /// Whether the table holds no peer.
    pub fn is_empty(&self) -> (b: bool)
        requires
            self.wf(),
        ensures
            b == (self.entries().len() == 0),
            b == (self@.len() == 0),
    {
        proof {
            self.lemma_len();
        }
        self.peers.len() == 0
    }

    /// The position of the entry with id `id`, if there is one.
    fn find(&self, id: &str) -> (r: Option<usize>)
        requires
            self.wf(),
        ensures
            match r {
                Some(i) => i < self.entries().len() && self.entries()[i as int].id@ == id@,
                None => forall|i: int|
                    0 <= i < self.entries().len() ==> self.entries()[i].id@ != id@,
            },
    {
        let mut i: usize = 0;
        while i < self.peers.len()
            invariant
                i <= self.peers@.len(),
                forall|j: int| 0 <= j < i ==> self.peers@[j].id@ != id@,
            decreases self.peers@.len() - i,
        {
            if text_eq(self.peers[i].id.as_str(), id) {
                return Some(i);
            }
            i = i + 1;
        }
        None
    }

    /// The peer recorded under `id`, if any.
    pub fn get(&self, id: &str) -> (r: Option<&Peer>)
        requires
            self.wf(),
        ensures
            match r {
                Some(p) => self@.contains_key(id@) && *p == self@[id@],
                None => !self@.contains_key(id@),
            },
    {
        proof {
            lemma_peer_map_dom(self.peers@, id@);
        }
        match self.find(id) {
            Some(i) => {
                proof {
                    lemma_peer_map_value(self.peers@, i as int);
                }
                Some(&self.peers[i])
            },
            None => None,
        }
    }

    /// Records `peer` under its id, replacing any earlier entry for it.
    pub fn insert(&mut self, peer: Peer)
        requires
            old(self).wf(),
        ensures
            final(self).wf(),
            final(self)@ == old(self)@.insert(peer.id@, peer),
            final(self).entries() == entries_with(old(self).entries(), peer),
    {
        let ghost s = self.peers@;
        let ghost m = peer_map(s).insert(peer.id@, peer);
        match self.find(peer.id.as_str()) {
            Some(i) => {
                let ghost p = peer;
                self.peers.set(i, peer);
                proof {
                    let j = choose|j: int| 0 <= j < s.len() && s[j].id@ == p.id@;
                    assert(j == i);
                    let s2 = self.peers@;
                    assert(s2 == s.update(i as int, p));
                    assert forall|a: int, b: int| 0 <= a < b < s2.len() implies s2[a].id@
                        != s2[b].id@ by {
                        if a != i && b != i {
                            assert(s2[a] == s[a] && s2[b] == s[b]);
                        }
                    }
                    assert forall|j: int| #![trigger s2[j]] 0 <= j < s2.len() implies m.contains_key(
                        s2[j].id@,
                    ) && m[s2[j].id@] == s2[j] by {
                        assert(s[i as int].id@ == p.id@);
                        if j != i {
                            assert(s2[j] == s[j]);
                            assert(s[j].id@ != p.id@);
                            lemma_peer_map_value(s, j);
                        } else {
                            assert(s2[j] == p);
                        }
                    }
                    assert forall|k: Seq<char>| #[trigger] m.contains_key(k) implies exists|j: int|
                        0 <= j < s2.len() && s2[j].id@ == k by {
                        if k != p.id@ {
                            lemma_peer_map_dom(s, k);
                            let j = choose|j: int| 0 <= j < s.len() && s[j].id@ == k;
                            assert(s2[j] == s[j]);
                        } else {
                            assert(s2[i as int].id@ == k);
                        }
                    }
                    lemma_peer_map_ext(s2, m);
                }
            },
            None => {
                let ghost p = peer;
                self.peers.push(peer);
                proof {
                    let s2 = self.peers@;
                    assert(s2.drop_last() =~= s);
                    assert(s2.last() == p);
                    assert(unique_ids(s2));
                }
            },
        }
    }

    /// Drops the peers that were last seen a time-to-live or longer before
    /// `now`, keeping the others in their order.
    pub fn prune(&mut self, now: u64)
        requires
            old(self).wf(),
        ensures
            final(self).wf(),
            final(self).entries() == fresh_entries(old(self).entries(), now),
            final(self)@ == keep_fresh(old(self)@, now),
            forall|k: Seq<char>| #[trigger] final(self)@.contains_key(k) ==> is_fresh(final(self)@[k], now),
    {
        let ghost s = self.peers@;
        let mut kept: Vec<Peer> = Vec::new();
        let mut i: usize = 0;
        assert(s.take(0) =~= Seq::<Peer>::empty());
        while i < self.peers.len()
            invariant
                s == self.peers@,
                i <= s.len(),
                kept@ == fresh_entries(s.take(i as int), now),
            decreases s.len() - i,
        {
            assert(s.take(i + 1).drop_last() =~= s.take(i as int));
            let p = &self.peers[i];
            let age: u64 = if now >= p.last_seen {
                now - p.last_seen
            } else {
                0
            };
            if age < PEER_TTL_NANOS {
                kept.push(p.clone());
            }
            i = i + 1;
        }
        assert(s.take(s.len() as int) =~= s);
        self.peers = kept;
        proof {
            lemma_fresh_map(s, now);
        }
    }

    /// The peers that wait to receive a file, in table order.
    pub fn receivers(&self) -> (r: Vec<Peer>)
        requires
            self.wf(),
        ensures
            r@ == receiver_entries(self.entries()),
    {
        let mut r: Vec<Peer> = Vec::new();
        let mut i: usize = 0;
        assert(self.peers@.take(0) =~= Seq::<Peer>::empty());
        while i < self.peers.len()
            invariant
                i <= self.peers@.len(),
                r@ == receiver_entries(self.peers@.take(i as int)),
            decreases self.peers@.len() - i,
        {
            assert(self.peers@.take(i + 1).drop_last() =~= self.peers@.take(i as int));
            if self.peers[i].state == State::Receive {
                r.push(self.peers[i].clone());
            }
            i = i + 1;
        }
        assert(self.peers@.take(self.peers@.len() as int) =~= self.peers@);
        r
    }

    /// Records the peer that a resolved announcement describes, then drops
    /// stale peers. An announcement without an id, with this node's own id
    /// `my_id`, or without an address leaves the table as it was.
    pub fn handle_peer(&mut self, rec: &ServiceRecord, my_id: &str, now: u64)
        requires
            old(self).wf(),
        ensures
            final(self).wf(),
            !old(self)@.contains_key(my_id@) ==> !final(self)@.contains_key(my_id@),
            !record_is_usable(*rec, my_id@) ==> final(self)@ == old(self)@ && final(self).entries()
                == old(self).entries(),
            record_is_usable(*rec, my_id@) ==> {
                let id = rec.id->0@;
                &&& final(self)@.contains_key(id)
                &&& peer_of_record(final(self)@[id], *rec, now)
                &&& final(self)@ == keep_fresh(old(self)@.insert(id, final(self)@[id]), now)
                &&& final(self).entries() == fresh_entries(
                    entries_with(old(self).entries(), final(self)@[id]),
                    now,
                )
            },
    {
        let peer_id = match &rec.id {
            Some(p) => p.clone(),
            None => return ,
        };
        if text_eq(peer_id.as_str(), my_id) {
            return ;
        }
        let name = match &rec.name {
            Some(n) => n.clone(),
            None => "unknown".to_owned(),
        };
        let state = State::from_property(
            match &rec.state {
                Some(s) => Some(s.as_str()),
                None => None,
            },
        );
        if rec.addresses.len() == 0 {
            return ;
        }
        let address = PeerAddress { ip: rec.addresses[0], port: rec.port };
        let peer = Peer { id: peer_id, name, state, address, last_seen: now };
        let ghost p = peer;
        self.insert(peer);
        assert(self@.contains_key(p.id@) && self@[p.id@] == p);
        self.prune(now);
        assert(is_fresh(p, now));
        assert(self@.contains_key(p.id@));
    }
}

/// With unique ids, the map has as many keys as there are entries.
proof fn lemma_map_len(s: Seq<Peer>)
    requires
        unique_ids(s),
    ensures
        peer_map(s).dom().finite(),
        peer_map(s).len() == s.len(),
    decreases s.len(),
{
    if s.len() > 0 {
        let t = s.drop_last();
        assert(unique_ids(t));
        lemma_map_len(t);
        lemma_peer_map_dom(t, s.last().id@);
        if peer_map(t).contains_key(s.last().id@) {
            let i = choose|i: int| 0 <= i < t.len() && t[i].id@ == s.last().id@;
            assert(s[i] == t[i]);
        }
    }
}

/// The receivers of a table are exactly its peers that wait to receive:
/// each is the table's peer under its id, none comes twice, and every
/// waiting peer of the table is among them.
pub proof fn lemma_receivers_exact(t: PeerTable)
    requires
        t.wf(),
    ensures
        unique_ids(receiver_entries(t.entries())),
        forall|i: int|
            0 <= i < receiver_entries(t.entries()).len() ==> {
                let p = #[trigger] receiver_entries(t.entries())[i];
                &&& p.state == State::Receive
                &&& t@.contains_key(p.id@)
                &&& t@[p.id@] == p
            },
        forall|k: Seq<char>|
            #[trigger] t@.contains_key(k) && t@[k].state == State::Receive ==> exists|i: int|
                0 <= i < receiver_entries(t.entries()).len() && receiver_entries(t.entries())[i].id@
                    == k,
{
    let s = t.entries();
    let pred = |p: Peer| p.state == State::Receive;
    lemma_peers_where(s, pred);
    let r = receiver_entries(s);
    assert forall|i: int| 0 <= i < r.len() implies {
        let p = #[trigger] r[i];
        &&& p.state == State::Receive
        &&& t@.contains_key(p.id@)
        &&& t@[p.id@] == p
    } by {
        let j = choose|j: int| 0 <= j < s.len() && s[j] == r[i];
        lemma_peer_map_value(s, j);
        assert(pred(r[i]));
    }
    assert forall|k: Seq<char>| #[trigger] t@.contains_key(k) && t@[k].state == State::Receive
        implies exists|i: int| 0 <= i < r.len() && r[i].id@ == k by {
        lemma_peer_map_dom(s, k);
        let j = choose|j: int| 0 <= j < s.len() && s[j].id@ == k;
        lemma_peer_map_value(s, j);
        assert(pred(s[j]));
        let i = choose|i: int| 0 <= i < r.len() && r[i] == s[j];
    }
}

/// Dropping stale peers twice at the same time drops no more than once.
pub proof fn lemma_keep_fresh_idempotent(m: Map<Seq<char>, Peer>, now: u64)
    ensures
        keep_fresh(keep_fresh(m, now), now) == keep_fresh(m, now),
{
    assert(keep_fresh(keep_fresh(m, now), now) =~= keep_fresh(m, now));
}

} // verus!
