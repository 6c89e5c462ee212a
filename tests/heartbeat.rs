use relayer_core::expiry_cache::PeerExpiryCache;
use relayer_core::heartbeat::{GossipOutbound, GossipRequest, HeartbeatMessage, PeerInfo, RelayerState, WalletReplicas};
use relayer_core::ids::{ClusterId, WrappedPeerId};
use relayer_core::task_queue::StateTransition;

const LOCAL: WrappedPeerId = WrappedPeerId(1);
const CLUSTER: ClusterId = ClusterId(9);

fn peer(id: u64, now: u64) -> PeerInfo {
    PeerInfo::new(WrappedPeerId(id), format!("/ip4/10.0.0.{id}/udp/8000/quic-v1"), CLUSTER, now)
}

fn node(now: u64) -> RelayerState {
    RelayerState::new(LOCAL, CLUSTER, "/ip4/10.0.0.1/udp/8000/quic-v1".to_string(), now)
}

#[test]
fn heartbeat_to_self_is_a_no_op() {
    let mut state = node(100);
    let mut cache = PeerExpiryCache::new();
    let (out, reassign) = state.send_heartbeat(LOCAL, &mut cache, 1_000);
    assert!(out.is_empty());
    assert!(reassign.is_none());
    assert!(state.contains_peer(LOCAL));
    assert_eq!(cache.get(LOCAL.0), None);
}

#[test]
fn heartbeat_to_peer_sends_a_request() {
    let mut state = node(100);
    let mut cache = PeerExpiryCache::new();
    let mut out = Vec::new();
    assert!(state.add_new_peer(&peer(2, 100), &mut cache, 100, &mut out));
    assert_eq!(out.len(), 1);
    match &out[0] {
        GossipOutbound::NewAddr { peer_id, address } => {
            assert_eq!(*peer_id, WrappedPeerId(2));
            assert_eq!(address, "/ip4/10.0.0.2/udp/8000/quic-v1");
        },
        _ => panic!("expected an address registration"),
    }
    let (out, reassign) = state.send_heartbeat(WrappedPeerId(2), &mut cache, 102);
    assert_eq!(out.len(), 1);
    match &out[0] {
        GossipOutbound::Request { peer_id, message: GossipRequest::Heartbeat(msg) } => {
            assert_eq!(*peer_id, WrappedPeerId(2));
            assert_eq!(msg.known_peers.len(), 2);
            assert_eq!(msg.cluster_members, vec![LOCAL]);
        },
        _ => panic!("expected a heartbeat"),
    }
    assert!(reassign.is_none());
    assert!(state.contains_peer(WrappedPeerId(2)));
}

#[test]
fn expired_peer_is_invisible_to_gossip_within_the_window() {
    let mut state = node(100);
    let mut cache = PeerExpiryCache::new();
    let mut out = Vec::new();
    let p = WrappedPeerId(2);
    state.add_new_peer(&peer(2, 100), &mut cache, 100, &mut out);

    // no heartbeat for the failure timeout: the peer is expired
    let (_, reassign) = state.send_heartbeat(p, &mut cache, 107);
    match reassign {
        Some(StateTransition::ReassignTasks { from, to }) => {
            assert_eq!(from, p);
            assert_eq!(to, LOCAL);
        },
        _ => panic!("expected the peer's tasks to be reassigned"),
    }
    assert!(!state.contains_peer(p));
    assert_eq!(cache.get(p.0), Some(107));

    // another peer still lists it inside the invisibility window
    let incoming = vec![peer(2, 110), peer(3, 110)];
    state.merge_peer_index(&incoming, &mut cache, 117);
    assert!(!state.contains_peer(p));
    assert!(state.contains_peer(WrappedPeerId(3)));

    // after the window it may come back
    let out = state.merge_peer_index(&incoming, &mut cache, 118);
    assert!(state.contains_peer(p));
    assert_eq!(out.len(), 1);
    assert_eq!(cache.get(p.0), None);
}

#[test]
fn live_peer_is_not_expired() {
    let mut state = node(100);
    let mut cache = PeerExpiryCache::new();
    let mut out = Vec::new();
    state.add_new_peer(&peer(2, 100), &mut cache, 100, &mut out);
    state.record_heartbeat(WrappedPeerId(2), 105);
    assert!(state.maybe_expire_peer(WrappedPeerId(2), &mut cache, 111).is_none());
    assert!(state.contains_peer(WrappedPeerId(2)));
    assert!(state.maybe_expire_peer(WrappedPeerId(2), &mut cache, 112).is_some());
    assert!(!state.contains_peer(WrappedPeerId(2)));
}

#[test]
fn wallet_replicas_merge_only_known_peers() {
    let mut state = node(100);
    let mut cache = PeerExpiryCache::new();
    let mut out = Vec::new();
    state.add_new_peer(&peer(2, 100), &mut cache, 100, &mut out);
    state.add_wallets(vec![WalletReplicas { wallet_id: 40, replicas: vec![LOCAL] }]);
    let incoming = vec![
        WalletReplicas { wallet_id: 40, replicas: vec![WrappedPeerId(2), WrappedPeerId(5), LOCAL] },
        WalletReplicas { wallet_id: 41, replicas: vec![WrappedPeerId(2)] },
    ];
    state.merge_wallets(&incoming);
    assert_eq!(state.get_replicas(40), vec![LOCAL, WrappedPeerId(2)]);
    assert!(state.get_replicas(41).is_empty());
}

#[test]
fn unknown_cluster_members_are_asked_to_authenticate() {
    let state = node(100);
    let out = state.merge_cluster_metadata(&vec![LOCAL, WrappedPeerId(2), WrappedPeerId(3)]);
    let asked: Vec<WrappedPeerId> = out
        .iter()
        .map(|o| match o {
            GossipOutbound::Request { peer_id, message: GossipRequest::ClusterAuth { cluster_id } } => {
                assert_eq!(*cluster_id, CLUSTER);
                *peer_id
            },
            _ => panic!("expected an authentication request"),
        })
        .collect();
    assert_eq!(asked, vec![WrappedPeerId(2), WrappedPeerId(3)]);
}

#[test]
fn heartbeat_schedule_skips_self_and_wraps() {
    let mut state = node(100);
    let mut cache = PeerExpiryCache::new();
    let mut out = Vec::new();
    state.add_new_peer(&peer(2, 100), &mut cache, 100, &mut out);
    assert_eq!(state.next_heartbeat_peer(0), (None, 1));
    assert_eq!(state.next_heartbeat_peer(1), (Some(WrappedPeerId(2)), 0));
    assert_eq!(state.next_heartbeat_peer(5), (None, 0));
}

#[test]
fn peer_info_accessors() {
    let mut p = peer(4, 50);
    assert_eq!(p.get_peer_id(), WrappedPeerId(4));
    assert_eq!(p.get_addr(), "/ip4/10.0.0.4/udp/8000/quic-v1");
    assert_eq!(p.get_cluster_id(), CLUSTER);
    assert_eq!(p.get_last_heartbeat(), 50);
    p.successful_heartbeat(60);
    assert_eq!(p.get_last_heartbeat(), 60);
}

#[test]
fn whole_heartbeat_merges_peers_replicas_and_members() {
    let mut state = node(100);
    let mut cache = PeerExpiryCache::new();
    state.add_wallets(vec![WalletReplicas { wallet_id: 40, replicas: vec![LOCAL] }]);
    let message = HeartbeatMessage {
        known_peers: vec![peer(2, 100), peer(3, 100)],
        managed_wallets: vec![WalletReplicas { wallet_id: 40, replicas: vec![WrappedPeerId(3), WrappedPeerId(8)] }],
        cluster_members: vec![WrappedPeerId(3)],
    };
    let out = state.merge_state_from_message(&message, &mut cache, 101);
    assert!(state.contains_peer(WrappedPeerId(2)));
    assert!(state.contains_peer(WrappedPeerId(3)));
    // the replica learned in this very heartbeat can be dialed, the unknown one cannot
    assert_eq!(state.get_replicas(40), vec![LOCAL, WrappedPeerId(3)]);
    // two address registrations and one authentication request
    assert_eq!(out.len(), 3);
    assert!(matches!(out[2], GossipOutbound::Request { peer_id: WrappedPeerId(3), message: GossipRequest::ClusterAuth { .. } }));
}

#[test]
fn merged_peers_are_announced_once_each_and_hidden_ones_not_at_all() {
    let mut state = node(100);
    let mut cache = PeerExpiryCache::new();
    let mut out = Vec::new();
    state.add_new_peer(&peer(2, 100), &mut cache, 100, &mut out);
    state.send_heartbeat(WrappedPeerId(2), &mut cache, 108);
    assert!(!state.contains_peer(WrappedPeerId(2)));

    // peer 2 is hidden, peer 4 is announced twice, peer 1 is the local peer
    let incoming = vec![peer(2, 50), peer(4, 50), peer(4, 50), peer(1, 50), peer(5, 50)];
    let out = state.merge_peer_index(&incoming, &mut cache, 110);
    let announced: Vec<WrappedPeerId> = out
        .iter()
        .map(|o| match o {
            GossipOutbound::NewAddr { peer_id, .. } => *peer_id,
            _ => panic!("expected an address registration"),
        })
        .collect();
    assert_eq!(announced, vec![WrappedPeerId(4), WrappedPeerId(5)]);
    assert!(state.contains_peer(WrappedPeerId(4)));
    assert!(!state.contains_peer(WrappedPeerId(2)));
    // an added peer gets a fresh heartbeat, not the announced one
    let msg = state.build_heartbeat_message();
    let four = msg.known_peers.iter().find(|p| p.get_peer_id() == WrappedPeerId(4)).unwrap();
    assert_eq!(four.get_last_heartbeat(), 110);
    assert_eq!(four.get_addr(), "/ip4/10.0.0.4/udp/8000/quic-v1");
}
