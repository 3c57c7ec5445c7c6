//! The peers this node has heard beacons from, keyed by their fingerprint.

use vstd::prelude::*;

verus! {

/// A peer heard on the LAN.
#[derive(Debug, Clone)]
pub struct DiscoveredPeer {
    pub addr: String,
    pub user_hash: String,
    pub pubkey_fingerprint: String,
    pub replication_port: u16,
    pub last_seen: i64,
}

/// The mathematical value of a peer entry.
pub struct PeerRecord {
    pub addr: Seq<char>,
    pub user_hash: Seq<char>,
    pub pubkey_fingerprint: Seq<char>,
    pub replication_port: u16,
    pub last_seen: int,
}

impl View for DiscoveredPeer {
    type V = PeerRecord;

    open spec fn view(&self) -> PeerRecord {
        PeerRecord {
            addr: self.addr@,
            user_hash: self.user_hash@,
            pubkey_fingerprint: self.pubkey_fingerprint@,
            replication_port: self.replication_port,
            last_seen: self.last_seen as int,
        }
    }
}

impl DiscoveredPeer {
    /// A copy of the entry.
    pub fn duplicate(&self) -> (res: DiscoveredPeer)
        ensures
            res@ == self@,
    {
        DiscoveredPeer {
            addr: self.addr.clone(),
            user_hash: self.user_hash.clone(),
            pubkey_fingerprint: self.pubkey_fingerprint.clone(),
            replication_port: self.replication_port,
            last_seen: self.last_seen,
        }
    }
}

/// The views of a list of peers.
pub open spec fn peer_records(v: Seq<DiscoveredPeer>) -> Seq<PeerRecord> {
    v.map_values(|p: DiscoveredPeer| p@)
}

/// No two entries share a fingerprint.
pub open spec fn distinct_fingerprints(rows: Seq<PeerRecord>) -> bool {
    forall|i: int, j: int|
        0 <= i < rows.len() && 0 <= j < rows.len() && i != j ==> #[trigger] rows[i].pubkey_fingerprint
            != #[trigger] rows[j].pubkey_fingerprint
}

/// The entries as a map from fingerprint to entry.
pub open spec fn peers_map(rows: Seq<PeerRecord>) -> Map<Seq<char>, PeerRecord>
    decreases rows.len(),
{
    if rows.len() == 0 {
        Map::empty()
    } else {
        peers_map(rows.drop_last()).insert(rows.last().pubkey_fingerprint, rows.last())
    }
}

pub proof fn lemma_peers_map(rows: Seq<PeerRecord>)
    requires
        distinct_fingerprints(rows),
    ensures
        forall|k: Seq<char>|
            #[trigger] peers_map(rows).contains_key(k) <==> exists|i: int|
                0 <= i < rows.len() && #[trigger] rows[i].pubkey_fingerprint == k,
        forall|i: int|
            0 <= i < rows.len() ==> #[trigger] peers_map(rows).contains_key(rows[i].pubkey_fingerprint)
                && peers_map(rows)[rows[i].pubkey_fingerprint] == rows[i],
    decreases rows.len(),
{
    if rows.len() > 0 {
        let init = rows.drop_last();
        assert(distinct_fingerprints(init)) by {
            assert forall|i: int, j: int|
                0 <= i < init.len() && 0 <= j < init.len() && i != j implies #[trigger] init[i].pubkey_fingerprint
                != #[trigger] init[j].pubkey_fingerprint by {
                assert(init[i] == rows[i] && init[j] == rows[j]);
            }
        }
        lemma_peers_map(init);
        let n = rows.len() - 1;
        assert(peers_map(rows) == peers_map(init).insert(rows[n].pubkey_fingerprint, rows[n]));
        assert forall|k: Seq<char>|
            #[trigger] peers_map(rows).contains_key(k) implies exists|i: int|
                0 <= i < rows.len() && #[trigger] rows[i].pubkey_fingerprint == k by {
            if k == rows[n].pubkey_fingerprint {
                assert(rows[n].pubkey_fingerprint == k);
            } else {
                assert(peers_map(init).contains_key(k));
                let i = choose|i: int| 0 <= i < init.len() && #[trigger] init[i].pubkey_fingerprint == k;
                assert(rows[i] == init[i]);
            }
        }
        assert forall|k: Seq<char>|
            (exists|i: int| 0 <= i < rows.len() && #[trigger] rows[i].pubkey_fingerprint == k) implies #[trigger] peers_map(
            rows,
        ).contains_key(k) by {
            let i = choose|i: int| 0 <= i < rows.len() && #[trigger] rows[i].pubkey_fingerprint == k;
            if i < n {
                assert(init[i] == rows[i]);
            }
        }
        assert forall|i: int| 0 <= i < rows.len() implies #[trigger] peers_map(rows).contains_key(
            rows[i].pubkey_fingerprint,
        ) && peers_map(rows)[rows[i].pubkey_fingerprint] == rows[i] by {
            if i < n {
                assert(init[i] == rows[i]);
                assert(rows[i].pubkey_fingerprint != rows[n].pubkey_fingerprint);
            }
        }
    }
}

proof fn lemma_peers_map_update(rows: Seq<PeerRecord>, i: int, t: PeerRecord)
    requires
        distinct_fingerprints(rows),
        0 <= i < rows.len(),
        rows[i].pubkey_fingerprint == t.pubkey_fingerprint,
    ensures
        distinct_fingerprints(rows.update(i, t)),
        peers_map(rows.update(i, t)) == peers_map(rows).insert(t.pubkey_fingerprint, t),
{
    let r2 = rows.update(i, t);
    assert(distinct_fingerprints(r2)) by {
        assert forall|a: int, b: int|
            0 <= a < r2.len() && 0 <= b < r2.len() && a != b implies #[trigger] r2[a].pubkey_fingerprint
            != #[trigger] r2[b].pubkey_fingerprint by {
            assert(r2[a].pubkey_fingerprint == rows[a].pubkey_fingerprint);
            assert(r2[b].pubkey_fingerprint == rows[b].pubkey_fingerprint);
        }
    }
    lemma_peers_map(rows);
    lemma_peers_map(r2);
    let m1 = peers_map(r2);
    let m2 = peers_map(rows).insert(t.pubkey_fingerprint, t);
    assert forall|k: Seq<char>| m1.contains_key(k) <==> m2.contains_key(k) by {
        if m1.contains_key(k) {
            let j = choose|j: int| 0 <= j < r2.len() && #[trigger] r2[j].pubkey_fingerprint == k;
            assert(rows[j].pubkey_fingerprint == k);
        }
        if m2.contains_key(k) && k != t.pubkey_fingerprint {
            let j = choose|j: int| 0 <= j < rows.len() && #[trigger] rows[j].pubkey_fingerprint == k;
            assert(r2[j].pubkey_fingerprint == k);
        }
        if k == t.pubkey_fingerprint {
            assert(r2[i].pubkey_fingerprint == k);
        }
    }
    assert forall|k: Seq<char>| m1.contains_key(k) implies m1[k] == m2[k] by {
        let j = choose|j: int| 0 <= j < r2.len() && #[trigger] r2[j].pubkey_fingerprint == k;
        assert(m1[r2[j].pubkey_fingerprint] == r2[j]);
        if j != i {
            assert(r2[j] == rows[j]);
            assert(peers_map(rows)[rows[j].pubkey_fingerprint] == rows[j]);
        }
    }
    assert(m1 =~= m2);
}

proof fn lemma_peers_map_push(rows: Seq<PeerRecord>, t: PeerRecord)
    requires
        distinct_fingerprints(rows),
        !peers_map(rows).contains_key(t.pubkey_fingerprint),
    ensures
        distinct_fingerprints(rows.push(t)),
        peers_map(rows.push(t)) == peers_map(rows).insert(t.pubkey_fingerprint, t),
{
    lemma_peers_map(rows);
    let r2 = rows.push(t);
    assert(r2.drop_last() =~= rows);
    assert forall|a: int, b: int|
        0 <= a < r2.len() && 0 <= b < r2.len() && a != b implies #[trigger] r2[a].pubkey_fingerprint
        != #[trigger] r2[b].pubkey_fingerprint by {
        if a < rows.len() && b < rows.len() {
            assert(r2[a] == rows[a] && r2[b] == rows[b]);
        } else if a < rows.len() {
            assert(r2[a] == rows[a]);
            assert(peers_map(rows).contains_key(rows[a].pubkey_fingerprint));
        } else if b < rows.len() {
            assert(r2[b] == rows[b]);
            assert(peers_map(rows).contains_key(rows[b].pubkey_fingerprint));
        }
    }
}

/// How long a peer counts as present after its last beacon, in milliseconds.
pub const PEER_FRESHNESS_MS: i64 = 30000;

/// Whether a peer was heard within the freshness window before `now`.
pub open spec fn is_recent(p: PeerRecord, now: int) -> bool {
    now - p.last_seen < PEER_FRESHNESS_MS
}

/// The peer table: one entry per fingerprint.
pub struct PeerTable {
    peers: Vec<DiscoveredPeer>,
}

impl PeerTable {
    #[verifier::type_invariant]
    spec fn fingerprints_distinct(self) -> bool {
        distinct_fingerprints(peer_records(self.peers@))
    }

    /// The entries, in table order.
    pub closed spec fn entries(self) -> Seq<PeerRecord> {
        peer_records(self.peers@)
    }
}

impl View for PeerTable {
    type V = Map<Seq<char>, PeerRecord>;

    open spec fn view(&self) -> Map<Seq<char>, PeerRecord> {
        peers_map(self.entries())
    }
}

impl PeerTable {
    /// An empty table.
    pub fn new() -> (res: PeerTable)
        ensures
            res@ == Map::<Seq<char>, PeerRecord>::empty(),
    {
        let res = PeerTable { peers: Vec::new() };
        assert(res.entries() =~= Seq::<PeerRecord>::empty());
        res
    }

    /// The position of the entry with this fingerprint.
    fn position(&self, fingerprint: &String) -> (r: Option<usize>)
        ensures
            match r {
                Some(i) => i < self.entries().len() && self.entries()[i as int].pubkey_fingerprint == fingerprint@,
                None => !self@.contains_key(fingerprint@),
            },
    {
        proof {
            use_type_invariant(self);
            lemma_peers_map(self.entries());
        }
        let mut i: usize = 0;
        while i < self.peers.len()
            invariant
                i <= self.peers@.len(),
                forall|j: int| 0 <= j < i ==> #[trigger] self.entries()[j].pubkey_fingerprint != fingerprint@,
            decreases self.peers@.len() - i,
        {
            if self.peers[i].pubkey_fingerprint == *fingerprint {
                return Some(i);
            }
            i = i + 1;
        }
        None
    }

    /// Stores a peer under its fingerprint, replacing what was there.
    pub fn record(&mut self, peer: DiscoveredPeer)
        ensures
            final(self)@ == old(self)@.insert(peer@.pubkey_fingerprint, peer@),
    {
        proof {
            use_type_invariant(&*self);
        }
        match self.position(&peer.pubkey_fingerprint) {
            Some(i) => {
                proof {
                    lemma_peers_map_update(self.entries(), i as int, peer@);
                    assert(peer_records(self.peers@.update(i as int, peer)) =~= self.entries().update(
                        i as int,
                        peer@,
                    ));
                }
                let mut rows: Vec<DiscoveredPeer> = Vec::new();
                std::mem::swap(&mut rows, &mut self.peers);
                rows.set(i, peer);
                self.peers = rows;
            },
            None => {
                proof {
                    lemma_peers_map_push(self.entries(), peer@);
                    assert(peer_records(self.peers@.push(peer)) =~= self.entries().push(peer@));
                }
                let mut rows: Vec<DiscoveredPeer> = Vec::new();
                std::mem::swap(&mut rows, &mut self.peers);
                rows.push(peer);
                self.peers = rows;
            },
        }
    }

    /// The entries heard within the freshness window before `now`, or all
    /// entries when `recent_only` is false.
    fn select(&self, now: i64, recent_only: bool) -> (res: Vec<DiscoveredPeer>)
        ensures
            distinct_fingerprints(peer_records(res@)),
            forall|x: PeerRecord|
                #[trigger] peer_records(res@).contains(x) <==> self@.contains_key(x.pubkey_fingerprint)
                    && self@[x.pubkey_fingerprint] == x && (recent_only ==> is_recent(x, now as int)),
    {
        proof {
            use_type_invariant(self);
            lemma_peers_map(self.entries());
        }
        let ghost rs = self.entries();
        let mut out: Vec<DiscoveredPeer> = Vec::new();
        let mut i: usize = 0;
        while i < self.peers.len()
            invariant
                rs == self.entries(),
                distinct_fingerprints(rs),
                i <= self.peers@.len(),
                distinct_fingerprints(peer_records(out@)),
                forall|x: PeerRecord|
                    #[trigger] peer_records(out@).contains(x) <==> rs.take(i as int).contains(x)
                        && (recent_only ==> is_recent(x, now as int)),
            decreases self.peers@.len() - i,
        {
            let p = &self.peers[i];
            assert(rs[i as int] == p@);
            let keep = !recent_only || (now as i128) - (p.last_seen as i128) < (PEER_FRESHNESS_MS as i128);
            let ghost before = peer_records(out@);
            if keep {
                let d = p.duplicate();
                out.push(d);
                proof {
                    let after = peer_records(out@);
                    assert(after =~= before.push(d@));
                    assert forall|a: int| 0 <= a < before.len() implies #[trigger] before[a].pubkey_fingerprint
                        != d@.pubkey_fingerprint by {
                        assert(before.contains(before[a]));
                        let j = choose|j: int| 0 <= j < i && #[trigger] rs.take(i as int)[j] == before[a];
                        assert(rs[j] == before[a]);
                    }
                    assert forall|a: int, b: int|
                        0 <= a < after.len() && 0 <= b < after.len() && a != b implies #[trigger] after[a].pubkey_fingerprint
                        != #[trigger] after[b].pubkey_fingerprint by {
                        if a < before.len() && b < before.len() {
                            assert(after[a] == before[a] && after[b] == before[b]);
                        } else if a < before.len() {
                            assert(after[a] == before[a]);
                        } else {
                            assert(after[b] == before[b]);
                        }
                    }
                }
            }
            proof {
                let after = peer_records(out@);
                assert forall|x: PeerRecord| #[trigger] after.contains(x) <==> rs.take(i + 1).contains(x)
                    && (recent_only ==> is_recent(x, now as int)) by {
                    if rs.take(i + 1).contains(x) {
                        let a = choose|a: int| 0 <= a < i + 1 && #[trigger] rs.take(i + 1)[a] == x;
                        if a < i {
                            assert(rs.take(i as int)[a] == x);
                        }
                    }
                    if rs.take(i as int).contains(x) {
                        let a = choose|a: int| 0 <= a < i && #[trigger] rs.take(i as int)[a] == x;
                        assert(rs.take(i + 1)[a] == x);
                    }
                    if x == rs[i as int] {
                        assert(rs.take(i + 1)[i as int] == x);
                    }
                    if keep {
                        if after.contains(x) {
                            let a = choose|a: int| 0 <= a < after.len() && #[trigger] after[a] == x;
                            if a < before.len() {
                                assert(before[a] == x);
                            }
                        }
                        if before.contains(x) {
                            let a = choose|a: int| 0 <= a < before.len() && #[trigger] before[a] == x;
                            assert(after[a] == x);
                        }
                        assert(after[before.len() as int] == rs[i as int]);
                    }
                }
            }
            i = i + 1;
        }
        proof {
            assert(rs.take(rs.len() as int) =~= rs);
            assert forall|x: PeerRecord| #[trigger] peer_records(out@).contains(x) <==> self@.contains_key(
                x.pubkey_fingerprint,
            ) && self@[x.pubkey_fingerprint] == x && (recent_only ==> is_recent(x, now as int)) by {
                if rs.contains(x) {
                    let a = choose|a: int| 0 <= a < rs.len() && #[trigger] rs[a] == x;
                    assert(peers_map(rs).contains_key(rs[a].pubkey_fingerprint));
                }
                if self@.contains_key(x.pubkey_fingerprint) && self@[x.pubkey_fingerprint] == x {
                    let a = choose|a: int| 0 <= a < rs.len() && #[trigger] rs[a].pubkey_fingerprint == x.pubkey_fingerprint;
                    assert(peers_map(rs)[rs[a].pubkey_fingerprint] == rs[a]);
                    assert(rs[a] == x);
                }
            }
        }
        out
    }

    /// Every entry, each once.
    pub fn peers(&self) -> (res: Vec<DiscoveredPeer>)
        ensures
            distinct_fingerprints(peer_records(res@)),
            forall|x: PeerRecord|
                #[trigger] peer_records(res@).contains(x) <==> self@.contains_key(x.pubkey_fingerprint)
                    && self@[x.pubkey_fingerprint] == x,
    {
        self.select(0, false)
    }

    /// The entries heard less than 30 seconds before `now`.
    pub fn recent_peers(&self, now: i64) -> (res: Vec<DiscoveredPeer>)
        ensures
            distinct_fingerprints(peer_records(res@)),
            forall|x: PeerRecord|
                #[trigger] peer_records(res@).contains(x) <==> self@.contains_key(x.pubkey_fingerprint)
                    && self@[x.pubkey_fingerprint] == x && is_recent(x, now as int),
    {
        self.select(now, true)
    }
}

} // verus!
