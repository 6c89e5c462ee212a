//! The heartbeat protocol of the gossip layer: the peer index, liveness by
//! heartbeats, peer expiry behind an invisibility window, and the merge of
//! a peer's heartbeat into the local view of peers, wallet replicas and
//! cluster members.
//!
//! Times are unix timestamps in seconds.

use crate::expiry_cache::PeerExpiryCache;
use crate::ids::{ClusterId, WalletIdentifier, WrappedPeerId};
use crate::task_queue::StateTransition;
use vstd::prelude::*;

verus! {

/// The interval in which every known peer is sent one heartbeat
pub const HEARTBEAT_INTERVAL_MS: u64 = 3_000;

/// How long a peer may go without a successful heartbeat before it is
/// considered failed
pub const HEARTBEAT_FAILURE_MS: u64 = 7_000;

/// How long after a peer's expiry gossip about the peer is ignored
pub const EXPIRY_INVISIBILITY_WINDOW_MS: u64 = 10_000;

/// Information about a known peer
pub struct PeerInfo {
    peer_id: WrappedPeerId,
    addr: String,
    cluster_id: ClusterId,
    last_heartbeat: u64,
}

/// The mathematical content of a peer's information
pub struct PeerInfoView {
    pub peer_id: WrappedPeerId,
    pub addr: Seq<char>,
    pub cluster_id: ClusterId,
    pub last_heartbeat: u64,
}

impl View for PeerInfo {
    type V = PeerInfoView;

    closed spec fn view(&self) -> PeerInfoView {
        PeerInfoView {
            peer_id: self.peer_id,
            addr: self.addr@,
            cluster_id: self.cluster_id,
            last_heartbeat: self.last_heartbeat,
        }
    }
}

impl PeerInfo {
    /// A peer heard from at `now`
    pub fn new(peer_id: WrappedPeerId, addr: String, cluster_id: ClusterId, now: u64) -> (r: PeerInfo)
        ensures
            r@ == (PeerInfoView { peer_id, addr: addr@, cluster_id, last_heartbeat: now }),
    {
        PeerInfo { peer_id, addr, cluster_id, last_heartbeat: now }
    }

    /// The peer's identifier
    pub fn get_peer_id(&self) -> (r: WrappedPeerId)
        ensures
            r == self@.peer_id,
    {
        self.peer_id
    }

    /// The peer's address
    pub fn get_addr(&self) -> (r: String)
        ensures
            r@ == self@.addr,
    {
        self.addr.clone()
    }

    /// The cluster of the peer
    pub fn get_cluster_id(&self) -> (r: ClusterId)
        ensures
            r == self@.cluster_id,
    {
        self.cluster_id
    }

    /// Records a successful heartbeat at `now`
    pub fn successful_heartbeat(&mut self, now: u64)
        ensures
            final(self)@ == (PeerInfoView { last_heartbeat: now, ..old(self)@ }),
    {
        self.last_heartbeat = now;
    }

    /// When the last successful heartbeat was recorded
    pub fn get_last_heartbeat(&self) -> (r: u64)
        ensures
            r == self@.last_heartbeat,
    {
        self.last_heartbeat
    }

    /// A copy of the information
    pub fn duplicate(&self) -> (r: PeerInfo)
        ensures
            r@ == self@,
    {
        PeerInfo {
            peer_id: self.peer_id,
            addr: self.addr.clone(),
            cluster_id: self.cluster_id,
            last_heartbeat: self.last_heartbeat,
        }
    }
}

/// A message the gossip layer asks the network manager to send
pub enum GossipOutbound {
    /// A request to a peer
    Request { peer_id: WrappedPeerId, message: GossipRequest },
    /// Register a newly discovered peer's address, so that it can be dialed
    NewAddr { peer_id: WrappedPeerId, address: String },
}

/// A request of the gossip protocol
pub enum GossipRequest {
    /// A heartbeat carrying the sender's view of the network
    Heartbeat(HeartbeatMessage),
    /// A request that a peer authenticate as a member of the cluster
    ClusterAuth { cluster_id: ClusterId },
}

/// The replicas a node believes a wallet to have
pub struct WalletReplicas {
    pub wallet_id: WalletIdentifier,
    pub replicas: Vec<WrappedPeerId>,
}

/// The view of the network a heartbeat carries
pub struct HeartbeatMessage {
    /// The peers the sender knows
    pub known_peers: Vec<PeerInfo>,
    /// The wallets the sender replicates, with their replicas
    pub managed_wallets: Vec<WalletReplicas>,
    /// The members of the sender's cluster
    pub cluster_members: Vec<WrappedPeerId>,
}

/// A copy of a list of peers
pub fn copy_peers(v: &Vec<WrappedPeerId>) -> (r: Vec<WrappedPeerId>)
    ensures
        r@ == v@,
{
    let mut r: Vec<WrappedPeerId> = Vec::new();
    let mut i: usize = 0;
    while i < v.len()
        invariant
            i <= v.len(),
            r@ == v@.subrange(0, i as int),
        decreases v.len() - i,
    {
        r.push(v[i]);
        i = i + 1;
        assert(r@ =~= v@.subrange(0, i as int));
    }
    assert(r@ =~= v@);
    r
}

// ---------
// | Model |
// ---------

/// Whether the peer index holds the peer
pub open spec fn has_peer(ps: Seq<PeerInfoView>, id: WrappedPeerId) -> bool {
    exists|i: int| 0 <= i < ps.len() && ps[i].peer_id == id
}

/// Whether a peer is hidden by its expiry at `now`: it expired at most the
/// invisibility window ago (or, by a clock that went back, later than now)
pub open spec fn invisible(expired: Map<u64, u64>, id: WrappedPeerId, now: u64) -> bool {
    expired.contains_key(id.0) && (now <= expired[id.0] || now - expired[id.0] <= EXPIRY_INVISIBILITY_WINDOW_MS / 1000)
}

/// Peer identifiers are distinct
pub open spec fn peers_wf(ps: Seq<PeerInfoView>) -> bool {
    forall|i: int, j: int| 0 <= i < ps.len() && 0 <= j < ps.len() && i != j ==> #[trigger] ps[i].peer_id != #[trigger] ps[j].peer_id
}


/// Whether a heartbeat's peer list announces the peer
pub open spec fn announces(incoming: Seq<PeerInfo>, id: WrappedPeerId) -> bool {
    exists|k: int| 0 <= k < incoming.len() && #[trigger] incoming[k]@.peer_id == id
}

/// The authentication requests for the claimed members not yet known to be
/// in the local cluster, in the order they were claimed
pub open spec fn auth_requests(claimed: Seq<WrappedPeerId>, members: Seq<WrappedPeerId>, cluster: ClusterId) -> Seq<WrappedPeerId>
    decreases claimed.len(),
{
    if claimed.len() == 0 {
        Seq::empty()
    } else {
        auth_requests(claimed.drop_last(), members, cluster) + if members.contains(claimed.last()) {
            Seq::empty()
        } else {
            seq![claimed.last()]
        }
    }
}

/// Whether a peer has gone without a heartbeat for the failure timeout
pub open spec fn timed_out(last_heartbeat: u64, now: u64) -> bool {
    now >= last_heartbeat && now - last_heartbeat >= HEARTBEAT_FAILURE_MS / 1000
}



/// The peers a heartbeat's peer list adds to an index, in the order they
/// are announced, each with a fresh heartbeat at `now`: a peer is added when
/// it is neither indexed (nor added before it) nor hidden by a recent expiry
pub open spec fn added_peers(ps: Seq<PeerInfoView>, incoming: Seq<PeerInfo>, expired: Map<u64, u64>, now: u64) -> Seq<PeerInfoView>
    decreases incoming.len(),
{
    if incoming.len() == 0 {
        Seq::empty()
    } else {
        let prev = added_peers(ps, incoming.drop_last(), expired, now);
        let info = incoming.last()@;
        if has_peer(ps + prev, info.peer_id) || invisible(expired, info.peer_id, now) {
            prev
        } else {
            prev.push(PeerInfoView { last_heartbeat: now, ..info })
        }
    }
}

/// Whether a message registers the address of the given peer
pub open spec fn registers(o: GossipOutbound, v: PeerInfoView) -> bool {
    o matches GossipOutbound::NewAddr { peer_id, address } && peer_id == v.peer_id && address@ == v.addr
}


/// Whether a heartbeat attempt expires the peer: it is indexed, is not the
/// local peer, and has gone without a heartbeat for the failure timeout
pub open spec fn expires(ps: Seq<PeerInfoView>, local: WrappedPeerId, id: WrappedPeerId, now: u64) -> bool {
    id != local && exists|i: int| 0 <= i < ps.len() && ps[i].peer_id == id && timed_out(ps[i].last_heartbeat, now)
}

/// Whether a heartbeat carries the given view of the network
pub open spec fn carries(
    m: HeartbeatMessage,
    peers: Seq<PeerInfoView>,
    wallets: Seq<(WalletIdentifier, Seq<WrappedPeerId>)>,
    members: Seq<WrappedPeerId>,
) -> bool {
    &&& m.known_peers@.map_values(|p: PeerInfo| p@) == peers
    &&& m.managed_wallets@.map_values(|w: WalletReplicas| (w.wallet_id, w.replicas@)) == wallets
    &&& m.cluster_members@ == members
}

/// Whether a heartbeat names the peer as a replica of the wallet
pub open spec fn offered(incoming: Seq<WalletReplicas>, wallet_id: WalletIdentifier, p: WrappedPeerId) -> bool {
    exists|j: int| 0 <= j < incoming.len() && #[trigger] incoming[j].wallet_id == wallet_id && incoming[j].replicas@.contains(p)
}

/// The gossip layer's view of the network
pub struct RelayerState {
    local_peer_id: WrappedPeerId,
    cluster_id: ClusterId,
    known_peers: Vec<PeerInfo>,
    cluster_members: Vec<WrappedPeerId>,
    managed_wallets: Vec<WalletReplicas>,
}

impl RelayerState {
    /// The local peer
    pub closed spec fn local_peer(&self) -> WrappedPeerId {
        self.local_peer_id
    }

    /// The local cluster
    pub closed spec fn cluster(&self) -> ClusterId {
        self.cluster_id
    }

    /// The peer index
    pub closed spec fn peers(&self) -> Seq<PeerInfoView> {
        self.known_peers@.map_values(|p: PeerInfo| p@)
    }

    /// The authenticated members of the local cluster
    pub closed spec fn members(&self) -> Seq<WrappedPeerId> {
        self.cluster_members@
    }

    /// The managed wallets with their replicas
    pub closed spec fn wallets(&self) -> Seq<(WalletIdentifier, Seq<WrappedPeerId>)> {
        self.managed_wallets@.map_values(|w: WalletReplicas| (w.wallet_id, w.replicas@))
    }

    /// Peer identifiers are distinct
    pub open spec fn wf(&self) -> bool {
        peers_wf(self.peers())
    }

    /// A node that knows only itself
    pub fn new(local_peer_id: WrappedPeerId, cluster_id: ClusterId, local_addr: String, now: u64) -> (r: RelayerState)
        ensures
            r.wf(),
            r.local_peer() == local_peer_id,
            r.cluster() == cluster_id,
            r.peers() == seq![PeerInfoView { peer_id: local_peer_id, addr: local_addr@, cluster_id, last_heartbeat: now }],
            r.members() == seq![local_peer_id],
            r.wallets().len() == 0,
    {
        let me = PeerInfo::new(local_peer_id, local_addr, cluster_id, now);
        let r = RelayerState {
            local_peer_id,
            cluster_id,
            known_peers: vec![me],
            cluster_members: vec![local_peer_id],
            managed_wallets: Vec::new(),
        };
        assert(r.peers() =~= seq![me@]);
        r
    }

    /// The position of a peer in the index
    fn find_peer(&self, id: WrappedPeerId) -> (r: Option<usize>)
        ensures
            r matches Some(i) ==> i < self.peers().len() && self.peers()[i as int].peer_id == id,
            r is None ==> !has_peer(self.peers(), id),
    {
        let mut i: usize = 0;
        while i < self.known_peers.len()
            invariant
                i <= self.known_peers.len(),
                forall|j: int| 0 <= j < i ==> #[trigger] self.peers()[j].peer_id != id,
            decreases self.known_peers.len() - i,
        {
            assert(self.peers()[i as int] == self.known_peers@[i as int]@);
            if self.known_peers[i].peer_id == id {
                return Some(i);
            }
            i = i + 1;
        }
        None
    }

    /// Whether the index holds the peer
    pub fn contains_peer(&self, id: WrappedPeerId) -> (r: bool)
        ensures
            r == has_peer(self.peers(), id),
    {
        self.find_peer(id).is_some()
    }

    /// Records a successful heartbeat from a known peer
    pub fn record_heartbeat(&mut self, peer_id: WrappedPeerId, now: u64)
        requires
            old(self).wf(),
        ensures
            final(self).wf(),
            final(self).local_peer() == old(self).local_peer(),
            final(self).cluster() == old(self).cluster(),
            final(self).members() == old(self).members(),
            final(self).wallets() == old(self).wallets(),
            final(self).peers().len() == old(self).peers().len(),
            forall|i: int| 0 <= i < old(self).peers().len() ==> #[trigger] final(self).peers()[i] == if old(self).peers()[i].peer_id == peer_id {
                PeerInfoView { last_heartbeat: now, ..old(self).peers()[i] }
            } else {
                old(self).peers()[i]
            },
    {
        if let Some(i) = self.find_peer(peer_id) {
            let ghost ps = self.peers();
            let mut info = self.known_peers.remove(i);
            info.successful_heartbeat(now);
            self.known_peers.insert(i, info);
            proof {
                assert(self.peers() =~= ps.update(i as int, PeerInfoView { last_heartbeat: now, ..ps[i as int] }));
                assert forall|a: int| 0 <= a < ps.len() && a != i implies ps[a].peer_id != peer_id by {
                    assert(ps[a].peer_id != ps[i as int].peer_id);
                }
            }
        }
    }

    /// Indexes a peer announced by gossip, unless it expired within the
    /// invisibility window; a peer that is indexed for the first time gets a
    /// fresh heartbeat and its address is registered with the network.
    /// Returns whether the peer is now indexed.
    pub fn add_new_peer(
        &mut self,
        info: &PeerInfo,
        cache: &mut PeerExpiryCache,
        now: u64,
        outbound: &mut Vec<GossipOutbound>,
    ) -> (r: bool)
        requires
            old(self).wf(),
        ensures
            final(self).wf(),
            final(self).local_peer() == old(self).local_peer(),
            final(self).cluster() == old(self).cluster(),
            final(self).members() == old(self).members(),
            final(self).wallets() == old(self).wallets(),
            r == !invisible(old(cache).entries(), info@.peer_id, now),
            r ==> has_peer(final(self).peers(), info@.peer_id),
            forall|id: WrappedPeerId| has_peer(final(self).peers(), id) <==> (has_peer(old(self).peers(), id) || (r && id == info@.peer_id)),
            forall|i: int| 0 <= i < old(self).peers().len() ==> #[trigger] final(self).peers()[i] == old(self).peers()[i],
            final(self).peers().len() <= old(self).peers().len() + 1,
            (r && !has_peer(old(self).peers(), info@.peer_id)) ==> final(self).peers() == old(self).peers().push(
                PeerInfoView { last_heartbeat: now, ..info@ },
            ) && final(outbound)@.len() == old(outbound)@.len() + 1,
            !(r && !has_peer(old(self).peers(), info@.peer_id)) ==> final(self).peers() == old(self).peers()
                && final(outbound)@ == old(outbound)@,
            forall|k: int| 0 <= k < old(outbound)@.len() ==> #[trigger] final(outbound)@[k] == old(outbound)@[k],
            final(outbound)@.len() > old(outbound)@.len() ==> (final(outbound)@.last() matches GossipOutbound::NewAddr { peer_id, address }
                && peer_id == info@.peer_id && address@ == info@.addr),
            invisible(old(cache).entries(), info@.peer_id, now) ==> final(cache).entries() == old(cache).entries(),
            !invisible(old(cache).entries(), info@.peer_id, now) ==> final(cache).entries() == old(cache).entries().remove(
                info@.peer_id.0,
            ),
            final(cache).capacity() == old(cache).capacity(),
    {
        let id = info.peer_id;
        if let Some(expired_at) = cache.get(id.0) {
            if now <= expired_at || now - expired_at <= EXPIRY_INVISIBILITY_WINDOW_MS / 1000 {
                return false;
            }
            cache.pop(id.0);
        } else {
            proof {
                assert(cache.entries().remove(id.0) =~= cache.entries());
            }
        }
        if self.find_peer(id).is_none() {
            let ghost ps = self.peers();
            let mut fresh = info.duplicate();
            fresh.successful_heartbeat(now);
            let address = fresh.get_addr();
            self.known_peers.push(fresh);
            outbound.push(GossipOutbound::NewAddr { peer_id: id, address });
            proof {
                assert(self.peers() =~= ps.push(PeerInfoView { last_heartbeat: now, ..info@ }));
                assert(self.peers()[ps.len() as int].peer_id == id);
                assert forall|wid: WrappedPeerId| has_peer(self.peers(), wid) <==> (has_peer(ps, wid) || wid == id) by {
                    if has_peer(ps, wid) {
                        let i = choose|i: int| 0 <= i < ps.len() && ps[i].peer_id == wid;
                        assert(self.peers()[i] == ps[i]);
                    }
                    if has_peer(self.peers(), wid) && wid != id {
                        let i = choose|i: int| 0 <= i < self.peers().len() && self.peers()[i].peer_id == wid;
                        assert(ps[i] == self.peers()[i]);
                    }
                }
            }
        }
        true
    }

    /// Merges the peers a heartbeat announces into the index: each peer not
    /// yet known is added unless it is hidden by a recent expiry
    pub fn merge_peer_index(&mut self, incoming: &Vec<PeerInfo>, cache: &mut PeerExpiryCache, now: u64) -> (r: Vec<GossipOutbound>)
        requires
            old(self).wf(),
        ensures
            final(self).wf(),
            final(self).local_peer() == old(self).local_peer(),
            final(self).cluster() == old(self).cluster(),
            final(self).members() == old(self).members(),
            final(self).wallets() == old(self).wallets(),
            forall|id: WrappedPeerId| #[trigger] has_peer(final(self).peers(), id) <==> (has_peer(old(self).peers(), id) || (
            announces(incoming@, id) && !invisible(old(cache).entries(), id, now))),
            forall|i: int| 0 <= i < old(self).peers().len() ==> #[trigger] final(self).peers()[i] == old(self).peers()[i],
            forall|id: WrappedPeerId| #[trigger] invisible(old(cache).entries(), id, now) ==> invisible(final(cache).entries(), id, now)
                && final(cache).entries()[id.0] == old(cache).entries()[id.0],
            forall|id: WrappedPeerId| #[trigger] invisible(old(cache).entries(), id, now) && !has_peer(old(self).peers(), id)
                ==> !has_peer(final(self).peers(), id),
            final(self).peers() == old(self).peers() + added_peers(old(self).peers(), incoming@, old(cache).entries(), now),
            r@.len() == added_peers(old(self).peers(), incoming@, old(cache).entries(), now).len(),
            forall|j: int| 0 <= j < r@.len() ==> #[trigger] registers(r@[j], added_peers(old(self).peers(), incoming@, old(cache).entries(), now)[j]),
            final(cache).capacity() == old(cache).capacity(),
    {
        let ghost ps0 = self.peers();
        let ghost c0 = cache.entries();
        let mut outbound: Vec<GossipOutbound> = Vec::new();
        let mut k: usize = 0;
        while k < incoming.len()
            invariant
                k <= incoming.len(),
                self.wf(),
                self.local_peer() == old(self).local_peer(),
                self.cluster() == old(self).cluster(),
                self.members() == old(self).members(),
                self.wallets() == old(self).wallets(),
                ps0 == old(self).peers(),
                c0 == old(cache).entries(),
                forall|id: WrappedPeerId| #[trigger] has_peer(self.peers(), id) <==> (has_peer(ps0, id) || (
                exists|j: int| 0 <= j < k && #[trigger] incoming@[j]@.peer_id == id && !invisible(c0, id, now))),
                forall|i: int| 0 <= i < ps0.len() ==> #[trigger] self.peers()[i] == ps0[i],
                self.peers().len() >= ps0.len(),
                forall|id: WrappedPeerId| #[trigger] invisible(c0, id, now) ==> invisible(cache.entries(), id, now)
                    && cache.entries()[id.0] == c0[id.0],
                forall|id: WrappedPeerId| #[trigger] invisible(cache.entries(), id, now) ==> invisible(c0, id, now),
                self.peers() == ps0 + added_peers(ps0, incoming@.subrange(0, k as int), c0, now),
                outbound@.len() == added_peers(ps0, incoming@.subrange(0, k as int), c0, now).len(),
                forall|j: int| 0 <= j < outbound@.len() ==> #[trigger] registers(outbound@[j], added_peers(ps0, incoming@.subrange(0, k as int), c0, now)[j]),
                cache.capacity() == old(cache).capacity(),
            decreases incoming.len() - k,
        {
            let info = &incoming[k];
            let ghost mid = self.peers();
            let ghost cm = cache.entries();
            let ghost out0 = outbound@;
            let ghost prev = added_peers(ps0, incoming@.subrange(0, k as int), c0, now);
            proof {
                assert(incoming@.subrange(0, k as int + 1).drop_last() =~= incoming@.subrange(0, k as int));
                assert(incoming@.subrange(0, k as int + 1).last() == incoming@[k as int]);
            }
            if !self.contains_peer(info.peer_id) {
                self.add_new_peer(info, cache, now, &mut outbound);
            }
            proof {
                let id = incoming@[k as int]@.peer_id;
                let next = added_peers(ps0, incoming@.subrange(0, k as int + 1), c0, now);
                assert(invisible(cm, id, now) <==> invisible(c0, id, now));
                if has_peer(mid, id) || invisible(c0, id, now) {
                    assert(next == prev);
                    assert(self.peers() == mid);
                    assert(outbound@ == out0);
                } else {
                    assert(next == prev.push(PeerInfoView { last_heartbeat: now, ..info@ }));
                    assert(self.peers() =~= ps0 + next);
                    assert forall|j: int| 0 <= j < outbound@.len() implies #[trigger] registers(outbound@[j], next[j]) by {
                        if j < out0.len() {
                            assert(outbound@[j] == out0[j]);
                            assert(next[j] == prev[j]);
                        }
                    }
                }
                assert(info@.peer_id == id);
                assert(invisible(cm, id, now) <==> invisible(c0, id, now));
                assert forall|i: int| 0 <= i < ps0.len() implies #[trigger] self.peers()[i] == ps0[i] by {
                    assert(self.peers()[i] == mid[i]);
                }
                assert forall|wid: WrappedPeerId| #[trigger] invisible(c0, wid, now) implies invisible(cache.entries(), wid, now)
                    && cache.entries()[wid.0] == c0[wid.0] by {
                    assert(invisible(cm, wid, now));
                }
                assert forall|wid: WrappedPeerId| #[trigger] invisible(cache.entries(), wid, now) implies invisible(c0, wid, now) by {
                    if wid.0 != id.0 || cache.entries() == cm {
                        assert(invisible(cm, wid, now));
                    }
                }
                assert forall|wid: WrappedPeerId| #[trigger] has_peer(self.peers(), wid) <==> (has_peer(ps0, wid) || (
                exists|j: int| 0 <= j < k + 1 && #[trigger] incoming@[j]@.peer_id == wid && !invisible(c0, wid, now))) by {
                    if exists|j: int| 0 <= j < k + 1 && #[trigger] incoming@[j]@.peer_id == wid && !invisible(c0, wid, now) {
                        let j = choose|j: int| 0 <= j < k + 1 && #[trigger] incoming@[j]@.peer_id == wid && !invisible(c0, wid, now);
                        if j < k {
                            assert(has_peer(mid, wid));
                        }
                    }
                    if has_peer(self.peers(), wid) && !has_peer(mid, wid) {
                        assert(wid == id);
                    }
                }
            }
            k = k + 1;
        }
        proof {
            assert(incoming@.subrange(0, k as int) =~= incoming@);
            assert forall|id: WrappedPeerId| #[trigger] has_peer(self.peers(), id) <==> (has_peer(ps0, id) || (
            announces(incoming@, id) && !invisible(c0, id, now))) by {
                if announces(incoming@, id) && !invisible(c0, id, now) {
                    let j = choose|j: int| 0 <= j < incoming@.len() && #[trigger] incoming@[j]@.peer_id == id;
                    assert(incoming@[j]@.peer_id == id && !invisible(c0, id, now));
                }
            }
        }
        outbound
    }

    /// Asks every peer that a heartbeat claims as a member of the local
    /// cluster, and that is not yet an authenticated member, to authenticate
    pub fn merge_cluster_metadata(&self, claimed_members: &Vec<WrappedPeerId>) -> (r: Vec<GossipOutbound>)
        ensures
            r@.len() == auth_requests(claimed_members@, self.members(), self.cluster()).len(),
            forall|k: int| 0 <= k < r@.len() ==> (#[trigger] r@[k] matches GossipOutbound::Request {
                peer_id,
                message: GossipRequest::ClusterAuth { cluster_id },
            } && peer_id == auth_requests(claimed_members@, self.members(), self.cluster())[k] && cluster_id == self.cluster()),
    {
        let mut r: Vec<GossipOutbound> = Vec::new();
        let mut k: usize = 0;
        while k < claimed_members.len()
            invariant
                k <= claimed_members.len(),
                r@.len() == auth_requests(claimed_members@.subrange(0, k as int), self.members(), self.cluster()).len(),
                forall|j: int| 0 <= j < r@.len() ==> (#[trigger] r@[j] matches GossipOutbound::Request {
                    peer_id,
                    message: GossipRequest::ClusterAuth { cluster_id },
                } && peer_id == auth_requests(claimed_members@.subrange(0, k as int), self.members(), self.cluster())[j]
                    && cluster_id == self.cluster()),
            decreases claimed_members.len() - k,
        {
            let peer = claimed_members[k];
            let ghost prev = auth_requests(claimed_members@.subrange(0, k as int), self.members(), self.cluster());
            proof {
                assert(claimed_members@.subrange(0, k as int + 1).drop_last() =~= claimed_members@.subrange(0, k as int));
                assert(claimed_members@.subrange(0, k as int + 1).last() == peer);
            }
            let mut known = false;
            let mut m: usize = 0;
            while m < self.cluster_members.len()
                invariant
                    m <= self.cluster_members.len(),
                    known == (exists|j: int| 0 <= j < m && self.cluster_members@[j] == peer),
                decreases self.cluster_members.len() - m,
            {
                if self.cluster_members[m] == peer {
                    known = true;
                }
                m = m + 1;
            }
            assert(known == self.members().contains(peer));
            if !known {
                r.push(GossipOutbound::Request { peer_id: peer, message: GossipRequest::ClusterAuth { cluster_id: self.cluster_id } });
            }
            k = k + 1;
        }
        proof {
            assert(claimed_members@.subrange(0, claimed_members@.len() as int) =~= claimed_members@);
        }
        r
    }

    /// Expires a peer that has gone without a heartbeat for the failure
    /// timeout: it leaves the index, is hidden for the invisibility window,
    /// and its tasks are handed to the local peer
    pub fn maybe_expire_peer(&mut self, peer_id: WrappedPeerId, cache: &mut PeerExpiryCache, now: u64) -> (r: Option<StateTransition>)
        requires
            old(self).wf(),
        ensures
            final(self).wf(),
            final(self).local_peer() == old(self).local_peer(),
            final(self).cluster() == old(self).cluster(),
            final(self).members() == old(self).members(),
            final(self).wallets() == old(self).wallets(),
            final(cache).capacity() == old(cache).capacity(),
            ({
                let expired = expires(old(self).peers(), old(self).local_peer(), peer_id, now);
                &&& expired ==> !has_peer(final(self).peers(), peer_id) && final(cache).entries().contains_key(peer_id.0)
                    && final(cache).entries()[peer_id.0] == now && (r matches Some(StateTransition::ReassignTasks { from, to })
                    && from == peer_id && to == old(self).local_peer())
                &&& !expired ==> final(self).peers() == old(self).peers() && final(cache).entries() == old(cache).entries() && r is None
            }),
            forall|id: WrappedPeerId| id != peer_id ==> (#[trigger] has_peer(final(self).peers(), id) <==> has_peer(old(self).peers(), id)),
    {
        if peer_id == self.local_peer_id {
            return None;
        }
        let i = match self.find_peer(peer_id) {
            Some(i) => i,
            None => return None,
        };
        let last = self.known_peers[i].last_heartbeat;
        assert(self.peers()[i as int].last_heartbeat == last);
        if now < last || now - last < HEARTBEAT_FAILURE_MS / 1000 {
            proof {
                assert forall|j: int| 0 <= j < self.peers().len() && self.peers()[j].peer_id == peer_id implies !timed_out(self.peers()[j].last_heartbeat, now) by {
                    if j != i {
                        assert(self.peers()[j].peer_id != self.peers()[i as int].peer_id);
                    }
                }
            }
            return None;
        }
        let ghost ps = self.peers();
        self.known_peers.remove(i);
        proof {
            assert(self.peers() =~= ps.remove(i as int));
            assert forall|a: int, b: int| 0 <= a < self.peers().len() && 0 <= b < self.peers().len() && a != b implies #[trigger] self.peers()[a].peer_id != #[trigger] self.peers()[b].peer_id by {
                let oa = if a < i { a } else { a + 1 };
                let ob = if b < i { b } else { b + 1 };
                assert(ps[oa].peer_id != ps[ob].peer_id);
            }
            assert(!has_peer(self.peers(), peer_id)) by {
                if has_peer(self.peers(), peer_id) {
                    let a = choose|a: int| 0 <= a < self.peers().len() && self.peers()[a].peer_id == peer_id;
                    let oa = if a < i { a } else { a + 1 };
                    assert(ps[oa].peer_id == ps[i as int].peer_id);
                }
            }
            assert forall|id: WrappedPeerId| id != peer_id implies (#[trigger] has_peer(self.peers(), id) <==> has_peer(ps, id)) by {
                if has_peer(ps, id) {
                    let a = choose|a: int| 0 <= a < ps.len() && ps[a].peer_id == id;
                    assert(a != i);
                    let na = if a < i { a } else { a - 1 };
                    assert(self.peers()[na] == ps[a]);
                }
                if has_peer(self.peers(), id) {
                    let a = choose|a: int| 0 <= a < self.peers().len() && self.peers()[a].peer_id == id;
                    let oa = if a < i { a } else { a + 1 };
                    assert(ps[oa] == self.peers()[a]);
                }
            }
        }
        cache.put(peer_id.0, now);
        Some(StateTransition::ReassignTasks { from: peer_id, to: self.local_peer_id })
    }

    /// Sends a heartbeat to a peer and expires the peer if it has timed out;
    /// a heartbeat to the local peer itself does nothing
    pub fn send_heartbeat(&mut self, recipient: WrappedPeerId, cache: &mut PeerExpiryCache, now: u64) -> (r: (Vec<GossipOutbound>, Option<StateTransition>))
        requires
            old(self).wf(),
        ensures
            final(self).wf(),
            final(cache).capacity() == old(cache).capacity(),
            recipient == old(self).local_peer() ==> r.0@.len() == 0 && r.1 is None && final(self).peers() == old(self).peers()
                && final(cache).entries() == old(cache).entries(),
            recipient != old(self).local_peer() ==> r.0@.len() == 1 && (r.0@[0] matches GossipOutbound::Request {
                peer_id,
                message: GossipRequest::Heartbeat(m),
            } && peer_id == recipient && carries(m, old(self).peers(), old(self).wallets(), old(self).members())),
            ({
                let expired = expires(old(self).peers(), old(self).local_peer(), recipient, now);
                &&& expired ==> !has_peer(final(self).peers(), recipient) && final(cache).entries().contains_key(recipient.0)
                    && final(cache).entries()[recipient.0] == now && (r.1 matches Some(StateTransition::ReassignTasks { from, to })
                    && from == recipient && to == old(self).local_peer())
                &&& !expired ==> final(self).peers() == old(self).peers() && final(cache).entries() == old(cache).entries() && r.1 is None
            }),
            forall|id: WrappedPeerId| id != recipient ==> (#[trigger] has_peer(final(self).peers(), id) <==> has_peer(old(self).peers(), id)),
            final(self).local_peer() == old(self).local_peer(),
            final(self).cluster() == old(self).cluster(),
            final(self).members() == old(self).members(),
            final(self).wallets() == old(self).wallets(),
    {
        if recipient == self.local_peer_id {
            return (Vec::new(), None);
        }
        let message = self.build_heartbeat_message();
        let outbound = vec![GossipOutbound::Request { peer_id: recipient, message: GossipRequest::Heartbeat(message) }];
        let reassign = self.maybe_expire_peer(recipient, cache, now);
        (outbound, reassign)
    }

    /// The heartbeat carrying the local view of the network
    pub fn build_heartbeat_message(&self) -> (r: HeartbeatMessage)
        ensures
            r.known_peers@.map_values(|p: PeerInfo| p@) == self.peers(),
            r.managed_wallets@.map_values(|w: WalletReplicas| (w.wallet_id, w.replicas@)) == self.wallets(),
            r.cluster_members@ == self.members(),
            carries(r, self.peers(), self.wallets(), self.members()),
    {
        let mut known_peers: Vec<PeerInfo> = Vec::new();
        let mut i: usize = 0;
        while i < self.known_peers.len()
            invariant
                i <= self.known_peers.len(),
                known_peers@.len() == i,
                self.peers().len() == self.known_peers@.len(),
                known_peers@.map_values(|p: PeerInfo| p@) == self.peers().subrange(0, i as int),
            decreases self.known_peers.len() - i,
        {
            let ghost prev = known_peers@;
            let copy = self.known_peers[i].duplicate();
            assert(copy@ == self.peers()[i as int]);
            known_peers.push(copy);
            proof {
                assert forall|k: int| 0 <= k < i + 1 implies #[trigger] known_peers@[k]@ == self.peers()[k] by {
                    if k < i {
                        assert(known_peers@[k] == prev[k]);
                        assert(prev.map_values(|p: PeerInfo| p@)[k] == self.peers().subrange(0, i as int)[k]);
                    }
                }
            }
            i = i + 1;
            assert(known_peers@.map_values(|p: PeerInfo| p@) =~= self.peers().subrange(0, i as int));
        }
        assert(self.peers().subrange(0, i as int) =~= self.peers());
        let mut managed_wallets: Vec<WalletReplicas> = Vec::new();
        let mut j: usize = 0;
        while j < self.managed_wallets.len()
            invariant
                j <= self.managed_wallets.len(),
                managed_wallets@.len() == j,
                self.wallets().len() == self.managed_wallets@.len(),
                managed_wallets@.map_values(|w: WalletReplicas| (w.wallet_id, w.replicas@)) == self.wallets().subrange(0, j as int),
            decreases self.managed_wallets.len() - j,
        {
            let ghost prev = managed_wallets@;
            let w = &self.managed_wallets[j];
            let copy = WalletReplicas { wallet_id: w.wallet_id, replicas: copy_peers(&w.replicas) };
            assert((copy.wallet_id, copy.replicas@) == self.wallets()[j as int]);
            managed_wallets.push(copy);
            proof {
                assert forall|k: int| 0 <= k < j + 1 implies (managed_wallets@[k].wallet_id, managed_wallets@[k].replicas@) == #[trigger] self.wallets()[k] by {
                    if k < j {
                        assert(managed_wallets@[k] == prev[k]);
                        assert(prev.map_values(|w: WalletReplicas| (w.wallet_id, w.replicas@))[k] == self.wallets().subrange(0, j as int)[k]);
                    }
                }
            }
            j = j + 1;
            assert(managed_wallets@.map_values(|w: WalletReplicas| (w.wallet_id, w.replicas@)) =~= self.wallets().subrange(0, j as int));
        }
        assert(self.wallets().subrange(0, j as int) =~= self.wallets());
        HeartbeatMessage { known_peers, managed_wallets, cluster_members: copy_peers(&self.cluster_members) }
    }

    /// The peer to send the next scheduled heartbeat to, and the position to
    /// continue from: peers are visited in index order, one per time quantum,
    /// skipping the local peer and wrapping around at the end of the index
    pub fn next_heartbeat_peer(&self, peer_index: usize) -> (r: (Option<WrappedPeerId>, usize))
        ensures
            r.0 == (if peer_index < self.peers().len() && self.peers()[peer_index as int].peer_id != self.local_peer() {
                Some(self.peers()[peer_index as int].peer_id)
            } else {
                None
            }),
            r.1 == (if peer_index as int + 1 >= self.peers().len() {
                0
            } else {
                peer_index as int + 1
            }),
    {
        let count = self.known_peers.len();
        let next = if peer_index < count && self.known_peers[peer_index].peer_id != self.local_peer_id {
            assert(self.peers()[peer_index as int] == self.known_peers@[peer_index as int]@);
            Some(self.known_peers[peer_index].peer_id)
        } else {
            if peer_index < count {
                assert(self.peers()[peer_index as int] == self.known_peers@[peer_index as int]@);
            }
            None
        };
        let following = if peer_index >= count || count - peer_index <= 1 { 0 } else { peer_index + 1 };
        (next, following)
    }

    /// Adds to a replica list the offered replicas that the index knows
    fn merge_replicas(&self, reps: &mut Vec<WrappedPeerId>, offered: &Vec<WrappedPeerId>)
        ensures
            forall|p: WrappedPeerId| #[trigger] final(reps)@.contains(p) <==> (old(reps)@.contains(p) || (offered@.contains(p)
                && has_peer(self.peers(), p))),
    {
        let mut k: usize = 0;
        while k < offered.len()
            invariant
                k <= offered.len(),
                forall|p: WrappedPeerId| #[trigger] reps@.contains(p) <==> (old(reps)@.contains(p) || (offered@.subrange(0, k as int).contains(p)
                    && has_peer(self.peers(), p))),
            decreases offered.len() - k,
        {
            let r = offered[k];
            let ghost before = reps@;
            let mut present = false;
            let mut m: usize = 0;
            while m < reps.len()
                invariant
                    m <= reps.len(),
                    present == (exists|j: int| 0 <= j < m && reps@[j] == r),
                decreases reps.len() - m,
            {
                if reps[m] == r {
                    present = true;
                }
                m = m + 1;
            }
            assert(present == reps@.contains(r));
            let known = self.contains_peer(r);
            if !present && known {
                reps.push(r);
            }
            proof {
                let sub_k = offered@.subrange(0, k as int);
                let sub_k1 = offered@.subrange(0, k as int + 1);
                assert(sub_k1 =~= sub_k.push(r));
                assert forall|p: WrappedPeerId| #[trigger] sub_k1.contains(p) <==> (sub_k.contains(p) || p == r) by {
                    if sub_k.contains(p) {
                        let w = choose|w: int| 0 <= w < sub_k.len() && sub_k[w] == p;
                        assert(sub_k1[w] == p);
                    }
                    if p == r {
                        assert(sub_k1[k as int] == r);
                    }
                    if sub_k1.contains(p) && p != r {
                        let w = choose|w: int| 0 <= w < sub_k1.len() && sub_k1[w] == p;
                        assert(w < k);
                        assert(sub_k[w] == p);
                    }
                }
                if !present && known {
                    assert(reps@ =~= before.push(r));
                    assert forall|p: WrappedPeerId| #[trigger] reps@.contains(p) <==> (before.contains(p) || p == r) by {
                        if before.contains(p) {
                            let w = choose|w: int| 0 <= w < before.len() && before[w] == p;
                            assert(reps@[w] == p);
                        }
                        if p == r {
                            assert(reps@[before.len() as int] == r);
                        }
                        if reps@.contains(p) && p != r {
                            let w = choose|w: int| 0 <= w < reps@.len() && reps@[w] == p;
                            assert(w < before.len());
                            assert(before[w] == p);
                        }
                    }
                }
                assert forall|p: WrappedPeerId| #[trigger] reps@.contains(p) <==> (old(reps)@.contains(p) || (sub_k1.contains(p)
                    && has_peer(self.peers(), p))) by {
                    assert(sub_k1.contains(p) <==> (sub_k.contains(p) || p == r));
                    assert(before.contains(p) <==> (old(reps)@.contains(p) || (sub_k.contains(p) && has_peer(self.peers(), p))));
                }
            }
            k = k + 1;
        }
        assert(offered@.subrange(0, offered@.len() as int) =~= offered@);
    }

    /// Merges the replicas a heartbeat names for the locally managed
    /// wallets: each wallet's replicas become the union of its own and the
    /// offered ones, restricted to peers in the index (a peer without
    /// information cannot be dialed)
    pub fn merge_wallets(&mut self, incoming: &Vec<WalletReplicas>)
        ensures
            final(self).local_peer() == old(self).local_peer(),
            final(self).cluster() == old(self).cluster(),
            final(self).peers() == old(self).peers(),
            final(self).members() == old(self).members(),
            final(self).wallets().len() == old(self).wallets().len(),
            forall|i: int| 0 <= i < old(self).wallets().len() ==> (#[trigger] final(self).wallets()[i]).0 == old(self).wallets()[i].0,
            forall|i: int, p: WrappedPeerId| 0 <= i < old(self).wallets().len() ==> (#[trigger] final(self).wallets()[i].1.contains(p)
                <==> (old(self).wallets()[i].1.contains(p) || (offered(incoming@, old(self).wallets()[i].0, p) && has_peer(old(self).peers(), p)))),
    {
        let ghost ws0 = self.wallets();
        let n = self.managed_wallets.len();
        let mut i: usize = 0;
        while i < n
            invariant
                n == ws0.len(),
                i <= n,
                self.wallets().len() == n,
                self.local_peer() == old(self).local_peer(),
                self.cluster() == old(self).cluster(),
                self.peers() == old(self).peers(),
                self.members() == old(self).members(),
                ws0 == old(self).wallets(),
                forall|a: int| 0 <= a < n ==> (#[trigger] self.wallets()[a]).0 == ws0[a].0,
                forall|a: int, p: WrappedPeerId| 0 <= a < i ==> (#[trigger] self.wallets()[a].1.contains(p)
                    <==> (ws0[a].1.contains(p) || (offered(incoming@, ws0[a].0, p) && has_peer(self.peers(), p)))),
                forall|a: int| i <= a < n ==> #[trigger] self.wallets()[a] == ws0[a],
            decreases n - i,
        {
            let ghost cur = self.wallets();
            assert(cur[i as int] == (self.managed_wallets@[i as int].wallet_id, self.managed_wallets@[i as int].replicas@));
            assert(cur[i as int] == ws0[i as int]);
            let mut w = self.managed_wallets.remove(i);
            assert((w.wallet_id, w.replicas@) == ws0[i as int]);
            let mut j: usize = 0;
            while j < incoming.len()
                invariant
                    j <= incoming.len(),
                    w.wallet_id == ws0[i as int].0,
                    i < n,
                    n == ws0.len(),
                    forall|p: WrappedPeerId| #[trigger] w.replicas@.contains(p) <==> (ws0[i as int].1.contains(p) || (exists|jj: int|
                        0 <= jj < j && #[trigger] incoming@[jj].wallet_id == w.wallet_id && incoming@[jj].replicas@.contains(p))
                        && has_peer(self.peers(), p)),
                decreases incoming.len() - j,
            {
                let ghost before = w.replicas@;
                if incoming[j].wallet_id == w.wallet_id {
                    self.merge_replicas(&mut w.replicas, &incoming[j].replicas);
                }
                proof {
                    assert forall|p: WrappedPeerId| #[trigger] w.replicas@.contains(p) <==> (ws0[i as int].1.contains(p) || (exists|jj: int|
                        0 <= jj < j + 1 && #[trigger] incoming@[jj].wallet_id == w.wallet_id && incoming@[jj].replicas@.contains(p))
                        && has_peer(self.peers(), p)) by {
                        if exists|jj: int| 0 <= jj < j + 1 && #[trigger] incoming@[jj].wallet_id == w.wallet_id && incoming@[jj].replicas@.contains(p) {
                            let jj = choose|jj: int| 0 <= jj < j + 1 && #[trigger] incoming@[jj].wallet_id == w.wallet_id && incoming@[jj].replicas@.contains(p);
                            if jj < j {
                                assert(exists|x: int| 0 <= x < j && #[trigger] incoming@[x].wallet_id == w.wallet_id && incoming@[x].replicas@.contains(p));
                            }
                        }
                        if before.contains(p) != w.replicas@.contains(p) || (w.replicas@.contains(p) && !before.contains(p)) {
                            assert(incoming@[j as int].wallet_id == w.wallet_id);
                        }
                    }
                }
                j = j + 1;
            }
            proof {
                assert forall|p: WrappedPeerId| #[trigger] w.replicas@.contains(p) <==> (ws0[i as int].1.contains(p) || (offered(incoming@, ws0[i as int].0, p)
                    && has_peer(self.peers(), p))) by {
                    if offered(incoming@, ws0[i as int].0, p) {
                        let jj = choose|jj: int| 0 <= jj < incoming@.len() && #[trigger] incoming@[jj].wallet_id == ws0[i as int].0 && incoming@[jj].replicas@.contains(p);
                        assert(incoming@[jj].wallet_id == w.wallet_id);
                    }
                }
            }
            let ghost wv = (w.wallet_id, w.replicas@);
            self.managed_wallets.insert(i, w);
            proof {
                assert(self.wallets() =~= cur.update(i as int, wv));
            }
            i = i + 1;
        }
    }

    /// Registers wallets the local peer now replicates
    pub fn add_wallets(&mut self, wallets: Vec<WalletReplicas>)
        ensures
            final(self).local_peer() == old(self).local_peer(),
            final(self).cluster() == old(self).cluster(),
            final(self).peers() == old(self).peers(),
            final(self).members() == old(self).members(),
            final(self).wallets() == old(self).wallets() + wallets@.map_values(|w: WalletReplicas| (w.wallet_id, w.replicas@)),
    {
        let ghost ws0 = self.wallets();
        let ghost added = wallets@;
        let mut wallets = wallets;
        let mut k: usize = 0;
        let n = wallets.len();
        while wallets.len() > 0
            invariant
                n == added.len(),
                k + wallets.len() == n,
                wallets@ == added.subrange(k as int, n as int),
                self.local_peer() == old(self).local_peer(),
                self.cluster() == old(self).cluster(),
                self.peers() == old(self).peers(),
                self.members() == old(self).members(),
                self.wallets() == ws0 + added.subrange(0, k as int).map_values(|w: WalletReplicas| (w.wallet_id, w.replicas@)),
            decreases wallets.len(),
        {
            let w = wallets.remove(0);
            let ghost prev = self.wallets();
            let ghost wv = (w.wallet_id, w.replicas@);
            assert(w == added[k as int]);
            self.managed_wallets.push(w);
            k = k + 1;
            proof {
                assert(self.wallets() =~= prev.push(wv));
                assert(wallets@ =~= added.subrange(k as int, n as int));
                assert(ws0 + added.subrange(0, k as int).map_values(|w: WalletReplicas| (w.wallet_id, w.replicas@)) =~= prev.push(wv));
            }
        }
        proof {
            assert(added.subrange(0, k as int) =~= added);
        }
    }

    /// The replicas of a managed wallet; none for a wallet not managed here
    pub fn get_replicas(&self, wallet_id: WalletIdentifier) -> (r: Vec<WrappedPeerId>)
        ensures
            (exists|i: int| 0 <= i < self.wallets().len() && self.wallets()[i].0 == wallet_id) ==> exists|i: int|
                0 <= i < self.wallets().len() && self.wallets()[i].0 == wallet_id && r@ == self.wallets()[i].1 && forall|j: int|
                    0 <= j < i ==> #[trigger] self.wallets()[j].0 != wallet_id,
            !(exists|i: int| 0 <= i < self.wallets().len() && self.wallets()[i].0 == wallet_id) ==> r@.len() == 0,
    {
        let mut i: usize = 0;
        while i < self.managed_wallets.len()
            invariant
                i <= self.managed_wallets.len(),
                forall|j: int| 0 <= j < i ==> #[trigger] self.wallets()[j].0 != wallet_id,
            decreases self.managed_wallets.len() - i,
        {
            assert(self.wallets()[i as int] == (self.managed_wallets@[i as int].wallet_id, self.managed_wallets@[i as int].replicas@));
            if self.managed_wallets[i].wallet_id == wallet_id {
                return copy_peers(&self.managed_wallets[i].replicas);
            }
            i = i + 1;
        }
        Vec::new()
    }

    /// The local cluster
    pub fn cluster_id_of(&self) -> (r: ClusterId)
        ensures
            r == self.cluster(),
    {
        self.cluster_id
    }

    /// The local peer
    pub fn local_peer_id_of(&self) -> (r: WrappedPeerId)
        ensures
            r == self.local_peer(),
    {
        self.local_peer_id
    }

    /// The identifiers of the managed wallets
    pub fn managed_wallet_ids(&self) -> (r: Vec<WalletIdentifier>)
        ensures
            r@ == self.wallets().map_values(|w: (WalletIdentifier, Seq<WrappedPeerId>)| w.0),
    {
        let mut r: Vec<WalletIdentifier> = Vec::new();
        let mut i: usize = 0;
        while i < self.managed_wallets.len()
            invariant
                i <= self.managed_wallets.len(),
                r@ == self.wallets().map_values(|w: (WalletIdentifier, Seq<WrappedPeerId>)| w.0).subrange(0, i as int),
            decreases self.managed_wallets.len() - i,
        {
            r.push(self.managed_wallets[i].wallet_id);
            i = i + 1;
            assert(r@ =~= self.wallets().map_values(|w: (WalletIdentifier, Seq<WrappedPeerId>)| w.0).subrange(0, i as int));
        }
        assert(self.wallets().map_values(|w: (WalletIdentifier, Seq<WrappedPeerId>)| w.0).subrange(0, i as int)
            =~= self.wallets().map_values(|w: (WalletIdentifier, Seq<WrappedPeerId>)| w.0));
        r
    }

    /// Indexes a peer admitted to the local cluster and makes it a member
    pub fn add_single_peer(&mut self, info: &PeerInfo)
        requires
            old(self).wf(),
        ensures
            final(self).wf(),
            has_peer(final(self).peers(), info@.peer_id),
            final(self).members().contains(info@.peer_id),
            forall|id: WrappedPeerId| has_peer(old(self).peers(), id) ==> has_peer(final(self).peers(), id),
            final(self).local_peer() == old(self).local_peer(),
            final(self).cluster() == old(self).cluster(),
            final(self).wallets() == old(self).wallets(),
    {
        let id = info.peer_id;
        if self.find_peer(id).is_none() {
            let ghost ps = self.peers();
            self.known_peers.push(info.duplicate());
            proof {
                assert(self.peers() =~= ps.push(info@));
                assert(self.peers()[ps.len() as int].peer_id == id);
                assert forall|a: int, b: int| 0 <= a < self.peers().len() && 0 <= b < self.peers().len() && a != b implies #[trigger] self.peers()[a].peer_id != #[trigger] self.peers()[b].peer_id by {
                    if a < ps.len() && b < ps.len() {
                        assert(ps[a].peer_id != ps[b].peer_id);
                    } else if a < ps.len() {
                        assert(ps[a].peer_id != id);
                    } else if b < ps.len() {
                        assert(ps[b].peer_id != id);
                    }
                }
                assert forall|wid: WrappedPeerId| has_peer(ps, wid) implies has_peer(self.peers(), wid) by {
                    let i = choose|i: int| 0 <= i < ps.len() && ps[i].peer_id == wid;
                    assert(self.peers()[i] == ps[i]);
                }
            }
        }
        let mut present = false;
        let mut m: usize = 0;
        while m < self.cluster_members.len()
            invariant
                m <= self.cluster_members.len(),
                present == (exists|j: int| 0 <= j < m && self.cluster_members@[j] == id),
            decreases self.cluster_members.len() - m,
        {
            if self.cluster_members[m] == id {
                present = true;
            }
            m = m + 1;
        }
        if !present {
            self.cluster_members.push(id);
            assert(self.cluster_members@[self.cluster_members@.len() - 1] == id);
        }
    }

    /// The number of peers in the index
    pub fn peer_count(&self) -> (r: usize)
        ensures
            r == self.peers().len(),
    {
        self.known_peers.len()
    }

    /// Merges a peer's heartbeat into the local view: first its peers, then
    /// the replicas of the wallets both replicate, then its cluster members;
    /// returns the messages for the network
    pub fn merge_state_from_message(&mut self, message: &HeartbeatMessage, cache: &mut PeerExpiryCache, now: u64) -> (r: Vec<GossipOutbound>)
        requires
            old(self).wf(),
        ensures
            final(self).wf(),
            forall|id: WrappedPeerId| #[trigger] has_peer(final(self).peers(), id) <==> (has_peer(old(self).peers(), id) || (
            announces(message.known_peers@, id) && !invisible(old(cache).entries(), id, now))),
            forall|id: WrappedPeerId| #[trigger] invisible(old(cache).entries(), id, now) && !has_peer(old(self).peers(), id)
                ==> !has_peer(final(self).peers(), id),
            final(self).wallets().len() == old(self).wallets().len(),
            forall|i: int, p: WrappedPeerId| 0 <= i < old(self).wallets().len() ==> (#[trigger] final(self).wallets()[i].1.contains(p)
                <==> (old(self).wallets()[i].1.contains(p) || (offered(message.managed_wallets@, old(self).wallets()[i].0, p)
                && has_peer(final(self).peers(), p)))),
            final(self).members() == old(self).members(),
            final(self).local_peer() == old(self).local_peer(),
            final(self).cluster() == old(self).cluster(),
            final(cache).capacity() == old(cache).capacity(),
            ({
                let added = added_peers(old(self).peers(), message.known_peers@, old(cache).entries(), now);
                let auth = auth_requests(message.cluster_members@, old(self).members(), old(self).cluster());
                &&& final(self).peers() == old(self).peers() + added
                &&& r@.len() == added.len() + auth.len()
                &&& forall|j: int| 0 <= j < added.len() ==> #[trigger] registers(r@[j], added[j])
                &&& forall|j: int| 0 <= j < auth.len() ==> (#[trigger] r@[added.len() + j] matches GossipOutbound::Request {
                    peer_id,
                    message: GossipRequest::ClusterAuth { cluster_id },
                } && peer_id == auth[j] && cluster_id == old(self).cluster())
            }),
    {
        let mut out = self.merge_peer_index(&message.known_peers, cache, now);
        self.merge_wallets(&message.managed_wallets);
        let mut auth = self.merge_cluster_metadata(&message.cluster_members);
        let ghost first = out@;
        let ghost second = auth@;
        out.append(&mut auth);
        proof {
            assert(out@ =~= first + second);
            assert forall|j: int| 0 <= j < first.len() implies out@[j] == first[j] by {}
            assert forall|j: int| 0 <= j < second.len() implies out@[first.len() + j] == second[j] by {}
        }
        out
    }

    /// Adds a peer to the replicas of a managed wallet (once); a wallet not
    /// managed here is left alone
    pub fn add_replica(&mut self, wallet_id: WalletIdentifier, peer_id: WrappedPeerId)
        ensures
            final(self).peers() == old(self).peers(),
            final(self).members() == old(self).members(),
            final(self).local_peer() == old(self).local_peer(),
            final(self).wallets().len() == old(self).wallets().len(),
            forall|i: int| 0 <= i < old(self).wallets().len() ==> (#[trigger] final(self).wallets()[i]).0 == old(self).wallets()[i].0,
            forall|i: int, p: WrappedPeerId| 0 <= i < old(self).wallets().len() ==> (#[trigger] final(self).wallets()[i].1.contains(p)
                <==> (old(self).wallets()[i].1.contains(p) || (old(self).wallets()[i].0 == wallet_id && p == peer_id))),
    {
        let ghost ws0 = self.wallets();
        let n = self.managed_wallets.len();
        let mut i: usize = 0;
        while i < n
            invariant
                n == ws0.len(),
                i <= n,
                self.wallets().len() == n,
                self.peers() == old(self).peers(),
                self.members() == old(self).members(),
                self.local_peer() == old(self).local_peer(),
                ws0 == old(self).wallets(),
                forall|a: int| 0 <= a < n ==> (#[trigger] self.wallets()[a]).0 == ws0[a].0,
                forall|a: int, p: WrappedPeerId| 0 <= a < i ==> (#[trigger] self.wallets()[a].1.contains(p)
                    <==> (ws0[a].1.contains(p) || (ws0[a].0 == wallet_id && p == peer_id))),
                forall|a: int| i <= a < n ==> #[trigger] self.wallets()[a] == ws0[a],
            decreases n - i,
        {
            let ghost cur = self.wallets();
            assert(cur[i as int] == (self.managed_wallets@[i as int].wallet_id, self.managed_wallets@[i as int].replicas@));
            let mut w = self.managed_wallets.remove(i);
            if w.wallet_id == wallet_id {
                let ghost before = w.replicas@;
                let mut present = false;
                let mut m: usize = 0;
                while m < w.replicas.len()
                    invariant
                        m <= w.replicas.len(),
                        present == (exists|j: int| 0 <= j < m && w.replicas@[j] == peer_id),
                    decreases w.replicas.len() - m,
                {
                    if w.replicas[m] == peer_id {
                        present = true;
                    }
                    m = m + 1;
                }
                if !present {
                    w.replicas.push(peer_id);
                    proof {
                        assert forall|p: WrappedPeerId| #[trigger] w.replicas@.contains(p) <==> (before.contains(p) || p == peer_id) by {
                            if before.contains(p) {
                                let j = choose|j: int| 0 <= j < before.len() && before[j] == p;
                                assert(w.replicas@[j] == p);
                            }
                            if p == peer_id {
                                assert(w.replicas@[before.len() as int] == p);
                            }
                            if w.replicas@.contains(p) && p != peer_id {
                                let j = choose|j: int| 0 <= j < w.replicas@.len() && w.replicas@[j] == p;
                                assert(before[j] == p);
                            }
                        }
                    }
                } else {
                    assert(before.contains(peer_id));
                }
            }
            let ghost wv = (w.wallet_id, w.replicas@);
            self.managed_wallets.insert(i, w);
            proof {
                assert(self.wallets() =~= cur.update(i as int, wv));
            }
            i = i + 1;
        }
    }
}

} // verus!
