use bikechain::p2p::network::{is_my_addr, NetAddr, LOCALHOST_V4};
use bikechain::p2p::packet::{Packet, PacketCodec};
use bikechain::p2p::peer_discovery::{static_nodes, PeerDisc, PeerDiscState, PollAction, ShuffleRespAction};

fn v4(a: u8, b: u8, c: u8, d: u8, port: u16) -> NetAddr {
    NetAddr::V4 { ip: u32::from_be_bytes([a, b, c, d]), port }
}

/// The example of the documentation: localhost addresses become addresses
/// at the origin's IP, keeping their port.
#[test]
fn test_clean_addrs() {
    let origin = v4(192, 168, 1, 10, 4000);
    let mut addrs = vec![v4(127, 0, 0, 1, 35011), v4(127, 0, 0, 1, 35012), v4(10, 0, 0, 1, 1)];
    PeerDisc::clean_addrs(&mut addrs, origin);
    assert_eq!(addrs, vec![v4(192, 168, 1, 10, 35011), v4(192, 168, 1, 10, 35012), v4(10, 0, 0, 1, 1)]);
}

#[test]
fn test_is_my_addr() {
    let me = v4(0, 0, 0, 0, 35010);
    assert!(is_my_addr(&me, &me));
    assert!(is_my_addr(&me, &v4(127, 0, 0, 1, 35010)));
    assert!(!is_my_addr(&me, &v4(127, 0, 0, 1, 35011)));
    assert_eq!(NetAddr::localhost(7), NetAddr::V4 { ip: LOCALHOST_V4, port: 7 });
    let mut a = v4(1, 2, 3, 4, 5);
    a.set_port(6);
    assert_eq!(a.port(), 6);
    assert!(Packet::CloseConnection().is_close_connection());
    let _codec = PacketCodec::new();
}

#[test]
fn test_discovery_rounds() {
    let me = v4(0, 0, 0, 0, 35010);
    let mut pd = PeerDisc::new(0);
    assert_eq!(pd.get_state(), PeerDiscState::Init);
    let statics = vec![v4(127, 0, 0, 1, 35010), v4(127, 0, 0, 1, 35011), v4(127, 0, 0, 1, 35012)];
    assert_eq!(static_nodes(), statics);
    let candidates = match pd.poll(&vec![], 0, me) {
        PollAction::Init { candidates } => candidates,
        other => panic!("unexpected {:?}", other),
    };
    assert_eq!(candidates.len(), 2, "our own address is not a candidate");
    assert!(!pd.is_init_candidate(&v4(127, 0, 0, 1, 35010)), "our own address is not a candidate");
    for c in candidates {
        if !pd.init_needs_more() {
            break;
        }
        assert!(pd.is_init_candidate(&c));
        pd.add_init_neighbor(c);
    }
    assert_eq!(pd.neighbor_count(), 1);
    let joins = pd.finish_init(10, 35010);
    assert_eq!(joins.len(), 1);
    assert!(matches!(joins[0].0, Packet::JoinReq(35010)));
    assert_eq!(pd.get_state(), PeerDiscState::Wait);
    let n = pd.get_neighbors()[0];
    // Within the timeout nothing happens; after it a shuffle is due.
    assert!(matches!(pd.poll(&vec![n], 11, me), PollAction::Nothing));
    assert_eq!(pd.get_state(), PeerDiscState::Wait);
    assert!(matches!(pd.poll(&vec![n], 20_000, me), PollAction::Nothing));
    assert_eq!(pd.get_state(), PeerDiscState::Shuffle);
    match pd.poll(&vec![n], 20_001, me) {
        PollAction::SendShuffle { close, packet, to } => {
            assert!(close.is_empty(), "a single neighbour is not set aside");
            assert_eq!(to, n);
            match packet {
                Packet::PeerShuffleReq(v) => assert_eq!(v, vec![NetAddr::localhost(35010)]),
                other => panic!("unexpected {:?}", other),
            }
        }
        other => panic!("unexpected {:?}", other),
    }
    assert!(pd.on_shuffle_req_sent(true, 20_002).is_empty());
    assert_eq!(pd.get_state(), PeerDiscState::Wait);
    // The partner answers with a peer at its localhost.
    match pd.on_peer_shuffle_resp(Some(vec![v4(127, 0, 0, 1, 9)]), n) {
        ShuffleRespAction::Accepted { connect, partner } => {
            assert_eq!(partner, n);
            assert_eq!(connect.len(), 1);
            assert_eq!(connect[0].port(), 9);
            for a in connect {
                if pd.should_connect(&a, &me) {
                    pd.on_connect_result(a, true);
                }
            }
            pd.finish_shuffle_accepted(partner, 20_003);
        }
        other => panic!("unexpected {:?}", other),
    }
    assert_eq!(pd.neighbor_count(), 1);
    assert!(!pd.get_neighbors().contains(&n));
    // An answer from a node that is not the partner is ignored.
    assert!(matches!(pd.on_peer_shuffle_resp(None, n), ShuffleRespAction::Ignore));
}

#[test]
fn test_join_and_requests() {
    let me = v4(0, 0, 0, 0, 35010);
    let mut pd = PeerDisc::new(0);
    let a = v4(10, 0, 0, 1, 1);
    assert!(pd.should_connect(&a, &me));
    pd.on_connect_result(a, true);
    assert!(!pd.should_connect(&a, &me));
    assert!(!pd.should_connect(&v4(127, 0, 0, 1, 35010), &me));
    let fwd = pd.on_join_req(4242, v4(10, 0, 0, 9, 5555));
    assert_eq!(fwd.len(), 1);
    match &fwd[0] {
        (Packet::JoinFwd(j), to) => {
            assert_eq!(*j, v4(10, 0, 0, 9, 4242));
            assert_eq!(*to, a);
        }
        other => panic!("unexpected {:?}", other),
    }
    assert_eq!(pd.on_join_fwd(a, a), vec![a]);
    assert_eq!(pd.broadcast(), vec![a]);
    // Not waiting: a shuffle request is refused.
    let r = pd.on_peer_shuffle_req(vec![], a, 5);
    assert!(matches!(r.reply, Packet::PeerShuffleResp(None)));
}
