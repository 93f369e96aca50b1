//! Peer discovery by shuffling: a node keeps a few neighbours, and now and
//! then swaps half of them with one neighbour's. These are its decisions;
//! the caller connects, closes and sends as they ask, and reports back.
//! Times are milliseconds of a monotonic clock, given by the caller.

use crate::p2p::network::{is_my_addr, spec_is_localhost_ip, spec_is_my_addr, spec_port, spec_with_port, NetAddr};
use crate::p2p::packet::Packet;
use rand::seq::SliceRandom;
use rand::Rng;
use vstd::prelude::*;

verus! {

/// How many neighbours the first connection round looks for.
pub const PEER_LIMIT: usize = 1;

/// The known peers that discovery starts from: 127.0.0.1 on ports 35010,
/// 35011 and 35012.
pub open spec fn spec_static_nodes() -> Seq<NetAddr> {
    seq![
        NetAddr::V4 { ip: crate::p2p::network::LOCALHOST_V4, port: 35010 },
        NetAddr::V4 { ip: crate::p2p::network::LOCALHOST_V4, port: 35011 },
        NetAddr::V4 { ip: crate::p2p::network::LOCALHOST_V4, port: 35012 },
    ]
}

/// The known peers that discovery starts from.
pub fn static_nodes() -> (v: Vec<NetAddr>)
    ensures
        v@ == spec_static_nodes(),
{
    let mut v: Vec<NetAddr> = Vec::new();
    v.push(NetAddr::localhost(35010));
    v.push(NetAddr::localhost(35011));
    v.push(NetAddr::localhost(35012));
    v
}

fn copy_addrs(v: &Vec<NetAddr>) -> (r: Vec<NetAddr>)
    ensures
        r@ == v@,
{
    let mut r: Vec<NetAddr> = Vec::new();
    let mut i: usize = 0;
    while i < v.len()
        invariant
            i <= v@.len(),
            r@ == v@.take(i as int),
        decreases v@.len() - i,
    {
        assert(v@.take(i + 1) =~= v@.take(i as int).push(v@[i as int]));
        r.push(v[i]);
        i = i + 1;
    }
    assert(v@.take(i as int) =~= v@);
    r
}

/// How long a shuffle request may wait for its answer, in milliseconds.
pub const RESPONSE_TIMEOUT_MS: u64 = 30_000;

/// Calls `Rng::gen_range` on the thread-local generator: a number in
/// `[low, high)`.
#[verifier::external_body]
fn random_in_range(low: u64, high: u64) -> (r: u64)
    requires
        low < high,
    ensures
        low <= r < high,
{
    rand::thread_rng().gen_range(low, high)
}

/// Calls `SliceRandom::shuffle` with the thread-local generator: the same
/// items in a random order.
#[verifier::external_body]
fn shuffle_vec<T>(v: &mut Vec<T>)
    ensures
        final(v)@.to_multiset() == old(v)@.to_multiset(),
{
    v.shuffle(&mut rand::thread_rng());
}

/// The phase of peer discovery.
#[derive(Clone, Copy, Debug, PartialEq, Eq, Structural)]
pub enum PeerDiscState {
    Init,
    Wait,
    Shuffle,
}

/// A neighbour and how many polls it has lived through.
#[derive(Clone, Copy, Debug, PartialEq, Eq, Structural)]
pub struct NodeInfo {
    pub addr: NetAddr,
    pub age: u64,
}

impl NodeInfo {
    /// A neighbour of age 0.
    pub fn new(addr: NetAddr) -> (n: NodeInfo)
        ensures
            n == (NodeInfo { addr, age: 0 }),
    {
        NodeInfo { addr, age: 0 }
    }
}

/// The addresses of a list of neighbours.
pub open spec fn addrs_of(s: Seq<NodeInfo>) -> Seq<NetAddr> {
    s.map_values(|n: NodeInfo| n.addr)
}

/// Whether some neighbour of `s` has address `a`.
pub open spec fn has_addr(s: Seq<NodeInfo>, a: NetAddr) -> bool {
    exists|i: int| 0 <= i < s.len() && #[trigger] s[i].addr == a
}

/// The neighbours of `s` other than those at `a`, in order.
pub open spec fn without_addr(s: Seq<NodeInfo>, a: NetAddr) -> Seq<NodeInfo>
    decreases s.len(),
{
    if s.len() == 0 {
        seq![]
    } else if s.last().addr == a {
        without_addr(s.drop_last(), a)
    } else {
        without_addr(s.drop_last(), a).push(s.last())
    }
}

/// The neighbours one poll older (an age stops at the largest value).
pub open spec fn aged(s: Seq<NodeInfo>) -> Seq<NodeInfo> {
    s.map_values(|n: NodeInfo| NodeInfo { addr: n.addr, age: if n.age < u64::MAX { (n.age + 1) as u64 } else { n.age } })
}

/// The pending answers that are not older than the timeout at `now`.
pub open spec fn fresh_pending(p: Seq<(NetAddr, u64)>, now: u64) -> Seq<(NetAddr, u64)>
    decreases p.len(),
{
    if p.len() == 0 {
        seq![]
    } else if elapsed(p.last().1, now) > RESPONSE_TIMEOUT_MS {
        fresh_pending(p.drop_last(), now)
    } else {
        fresh_pending(p.drop_last(), now).push(p.last())
    }
}

/// No node has two pending answers.
pub open spec fn pending_distinct(p: Seq<(NetAddr, u64)>) -> bool {
    forall|i: int, j: int| 0 <= i < j < p.len() ==> #[trigger] p[i].0 != #[trigger] p[j].0
}

/// Dropping the answers of `a` leaves none of `a`, keeps only answers of
/// `p`, and keeps the nodes distinct.
pub proof fn lemma_pending_without(p: Seq<(NetAddr, u64)>, a: NetAddr)
    ensures
        forall|k: int| 0 <= k < pending_without(p, a).len() ==> #[trigger] pending_without(p, a)[k].0 != a,
        forall|k: int|
            0 <= k < pending_without(p, a).len() ==> exists|b: int| 0 <= b < p.len() && p[b] == #[trigger] pending_without(p, a)[k],
        pending_distinct(p) ==> pending_distinct(pending_without(p, a)),
    decreases p.len(),
{
    if p.len() > 0 {
        let p1 = p.drop_last();
        lemma_pending_without(p1, a);
        let w1 = pending_without(p1, a);
        let w = pending_without(p, a);
        assert forall|k: int| 0 <= k < w.len() implies exists|b: int| 0 <= b < p.len() && p[b] == #[trigger] w[k] by {
            if k < w1.len() {
                let b = choose|b: int| 0 <= b < p1.len() && p1[b] == w1[k];
                assert(p[b] == w[k]);
            } else {
                assert(p[p.len() - 1] == w[k]);
            }
        }
        if pending_distinct(p) {
            assert(pending_distinct(p1)) by {
                assert forall|i: int, j: int| 0 <= i < j < p1.len() implies #[trigger] p1[i].0 != #[trigger] p1[j].0 by {
                    assert(p1[i] == p[i] && p1[j] == p[j]);
                }
            }
            assert forall|i: int, j: int| 0 <= i < j < w.len() implies #[trigger] w[i].0 != #[trigger] w[j].0 by {
                if j >= w1.len() {
                    let b = choose|b: int| 0 <= b < p1.len() && p1[b] == w1[i];
                    assert(p[b] == w1[i]);
                    assert(w[j] == p.last());
                }
            }
        }
    }
}

/// Dropping the stale answers keeps only answers of `p`, and keeps the
/// nodes distinct.
pub proof fn lemma_fresh_pending(p: Seq<(NetAddr, u64)>, now: u64)
    ensures
        forall|k: int|
            0 <= k < fresh_pending(p, now).len() ==> exists|b: int| 0 <= b < p.len() && p[b] == #[trigger] fresh_pending(p, now)[k],
        pending_distinct(p) ==> pending_distinct(fresh_pending(p, now)),
    decreases p.len(),
{
    if p.len() > 0 {
        let p1 = p.drop_last();
        lemma_fresh_pending(p1, now);
        let w1 = fresh_pending(p1, now);
        let w = fresh_pending(p, now);
        assert forall|k: int| 0 <= k < w.len() implies exists|b: int| 0 <= b < p.len() && p[b] == #[trigger] w[k] by {
            if k < w1.len() {
                let b = choose|b: int| 0 <= b < p1.len() && p1[b] == w1[k];
                assert(p[b] == w[k]);
            } else {
                assert(p[p.len() - 1] == w[k]);
            }
        }
        if pending_distinct(p) {
            assert(pending_distinct(p1)) by {
                assert forall|i: int, j: int| 0 <= i < j < p1.len() implies #[trigger] p1[i].0 != #[trigger] p1[j].0 by {
                    assert(p1[i] == p[i] && p1[j] == p[j]);
                }
            }
            assert forall|i: int, j: int| 0 <= i < j < w.len() implies #[trigger] w[i].0 != #[trigger] w[j].0 by {
                if j >= w1.len() {
                    let b = choose|b: int| 0 <= b < p1.len() && p1[b] == w1[i];
                    assert(p[b] == w1[i]);
                    assert(w[j] == p.last());
                }
            }
        }
    }
}

/// The pending answers without the one of `a`.
pub open spec fn pending_without(p: Seq<(NetAddr, u64)>, a: NetAddr) -> Seq<(NetAddr, u64)>
    decreases p.len(),
{
    if p.len() == 0 {
        seq![]
    } else if p.last().0 == a {
        pending_without(p.drop_last(), a)
    } else {
        pending_without(p.drop_last(), a).push(p.last())
    }
}

/// The time from `since` to `now`, or 0 if the clock went back.
pub open spec fn elapsed(since: u64, now: u64) -> u64 {
    if now >= since { (now - since) as u64 } else { 0 }
}

/// The addresses with a localhost IP taken to be at the IP of `origin`,
/// keeping their port.
pub open spec fn cleaned(addrs: Seq<NetAddr>, origin: NetAddr) -> Seq<NetAddr> {
    addrs.map_values(|a: NetAddr| if spec_is_localhost_ip(a) { spec_with_port(origin, spec_port(a)) } else { a })
}

/// The neighbours after a poll: when there are more of them than open
/// connections, those whose address is not among the connections exactly
/// once are dropped; then every one ages by one poll.
pub open spec fn polled(s: Seq<NodeInfo>, net: Seq<NetAddr>) -> Seq<NodeInfo> {
    aged(if s.len() > net.len() { only_once(s, net) } else { s })
}

/// The address that a poll asks to close, if any.
pub open spec fn closed_by(r: PollAction) -> Option<NetAddr> {
    match r {
        PollAction::Close(a) => Some(a),
        _ => None,
    }
}

/// The waiting phase, from `pre` with neighbours `n` to `post`, at `now`.
/// With no answer pending, a partner that did not answer is given up (its
/// connection is to be closed) and a new shuffle is tried. Otherwise
/// pending answers older than the answer timeout are dropped and, once no
/// answer is pending and the timeout has passed (or a shuffle is due at
/// start), the timer restarts and a shuffle is tried, or discovery starts
/// over when there are no neighbours.
pub open spec fn wait_outcome(pre: PeerDisc, n: Seq<NodeInfo>, post: PeerDisc, now: u64, close: Option<NetAddr>) -> bool {
    &&& post.spec_neighbors() == n
    &&& post.spec_shuffle_nodes() == pre.spec_shuffle_nodes()
    &&& if pre.spec_pending().len() == 0 && pre.spec_shuffle_node() is Some {
        &&& close == Some(pre.spec_shuffle_node()->0.addr)
        &&& post.spec_state() == PeerDiscState::Shuffle
        &&& post.spec_shuffle_node() is None
        &&& post.spec_pending() == pre.spec_pending()
        &&& post.spec_timer() == pre.spec_timer()
        &&& post.spec_timeout() == pre.spec_timeout()
        &&& post.spec_at_start() == pre.spec_at_start()
    } else {
        let due = pre.spec_pending().len() == 0 && (elapsed(pre.spec_timer(), now) > pre.spec_timeout()
            || pre.spec_at_start());
        &&& close is None
        &&& post.spec_shuffle_node() == pre.spec_shuffle_node()
        &&& post.spec_pending() == fresh_pending(pre.spec_pending(), now)
        &&& if due {
            &&& post.timer_reset(now)
            &&& !post.spec_at_start()
            &&& post.spec_state() == if n.len() == 0 && !pre.spec_at_start() {
                PeerDiscState::Init
            } else {
                PeerDiscState::Shuffle
            }
        } else {
            &&& post.spec_timer() == pre.spec_timer()
            &&& post.spec_timeout() == pre.spec_timeout()
            &&& post.spec_at_start() == pre.spec_at_start()
            &&& post.spec_state() == pre.spec_state()
        }
    }
}

/// The shuffle phase, from `pre` with neighbours `n` to `post`, at `now`,
/// for a node listening on `my_port`. With no neighbours discovery starts
/// over. Otherwise a shuffle is prepared (the neighbours in a random
/// order; when no nodes are set aside yet and there are at least two
/// neighbours, the second half is set aside and their connections are to
/// be closed; the first neighbour is the partner), and the request is to be
/// sent to the partner, offering the nodes set aside and our own localhost
/// address.
pub open spec fn shuffle_outcome(pre: PeerDisc, n: Seq<NodeInfo>, post: PeerDisc, now: u64, my_port: u16, r: PollAction) -> bool {
    &&& post.spec_pending() == pre.spec_pending()
    &&& post.spec_at_start() == pre.spec_at_start()
    &&& if n.len() == 0 {
        &&& r is Nothing
        &&& post.spec_state() == PeerDiscState::Init
        &&& post.timer_reset(now)
        &&& post.spec_neighbors() == n
        &&& post.spec_shuffle_nodes() == pre.spec_shuffle_nodes()
        &&& post.spec_shuffle_node() == pre.spec_shuffle_node()
    } else {
        let split = pre.spec_shuffle_nodes().len() == 0 && n.len() > 1;
        let moved = if split { post.spec_shuffle_nodes() } else { Seq::<NodeInfo>::empty() };
        &&& post.spec_state() == pre.spec_state()
        &&& post.spec_timer() == pre.spec_timer()
        &&& post.spec_timeout() == pre.spec_timeout()
        &&& post.spec_neighbors().len() > 0
        &&& post.spec_shuffle_node() == Some(post.spec_neighbors()[0])
        &&& (post.spec_neighbors() + moved).to_multiset() == n.to_multiset()
        &&& split ==> post.spec_neighbors().len() == n.len() / 2
        &&& !split ==> post.spec_shuffle_nodes() == pre.spec_shuffle_nodes()
        &&& r matches PollAction::SendShuffle { close, packet, to } && close@ == addrs_of(moved) && to
            == post.spec_neighbors()[0].addr && (packet matches Packet::PeerShuffleReq(v) && v@
            == addrs_of(post.spec_shuffle_nodes()).push(NetAddr::V4 { ip: crate::p2p::network::LOCALHOST_V4, port: my_port }))
    }
}

/// What to do after a shuffle answer.
#[derive(Debug)]
pub enum ShuffleRespAction {
    /// The answer is not awaited; nothing to do.
    Ignore,
    /// The shuffle was accepted: connect to these peers, then call
    /// `finish_shuffle_accepted` and close the connection to the shuffle
    /// partner.
    Accepted { connect: Vec<NetAddr>, partner: NetAddr },
    /// The shuffle was refused and neighbours are scarce: connect again to
    /// these peers, then call `finish_shuffle_refused`.
    RefusedReconnect { connect: Vec<NetAddr> },
    /// The shuffle was refused; another one will be tried.
    Refused,
}

/// What to do after a shuffle request: close these connections, connect
/// to these peers, then send the answer to the requester.
#[derive(Debug)]
pub struct ShuffleReqAction {
    pub close: Vec<NetAddr>,
    pub connect: Vec<NetAddr>,
    pub reply: Packet,
}

/// What a poll asks for.
#[derive(Debug)]
pub enum PollAction {
    /// Nothing.
    Nothing,
    /// Close the connection to this node.
    Close(NetAddr),
    /// Start over: try the candidates (see `init_needs_more` and
    /// `add_init_neighbor`), then call `finish_init`.
    Init { candidates: Vec<NetAddr> },
    /// Close these connections, send the shuffle request to `to`, and
    /// report whether it was sent with `on_shuffle_req_sent`.
    SendShuffle { close: Vec<NetAddr>, packet: Packet, to: NetAddr },
}

/// The state of peer discovery.
pub struct PeerDisc {
    /// Our state
    state: PeerDiscState,
    /// Our neighbouring nodes: confirmed active nodes
    neighbor_nodes: Vec<NodeInfo>,
    /// Nodes sent a request that they have not answered, with the time of the request
    pending_resp: Vec<(NetAddr, u64)>,
    /// Nodes to hand to our shuffle partner, kept in case it refuses
    shuffle_nodes: Vec<NodeInfo>,
    /// The node we shuffle with
    shuffle_node: Option<NodeInfo>,
    /// When the state last changed
    timer: u64,
    /// How long until the state changes
    shuffle_timeout: u64,
    shuffle_at_start: bool,
    /// The static peers handed out at the start of discovery
    init_candidates: Vec<NetAddr>,
}

impl PeerDisc {
    pub closed spec fn spec_state(&self) -> PeerDiscState {
        self.state
    }

    pub closed spec fn spec_neighbors(&self) -> Seq<NodeInfo> {
        self.neighbor_nodes@
    }

    pub closed spec fn spec_pending(&self) -> Seq<(NetAddr, u64)> {
        self.pending_resp@
    }

    pub closed spec fn spec_shuffle_nodes(&self) -> Seq<NodeInfo> {
        self.shuffle_nodes@
    }

    pub closed spec fn spec_shuffle_node(&self) -> Option<NodeInfo> {
        self.shuffle_node
    }

    pub closed spec fn spec_timer(&self) -> u64 {
        self.timer
    }

    pub closed spec fn spec_timeout(&self) -> u64 {
        self.shuffle_timeout
    }

    pub closed spec fn spec_at_start(&self) -> bool {
        self.shuffle_at_start
    }

    /// The candidates handed out by the last poll at the start of discovery.
    pub closed spec fn spec_candidates(&self) -> Seq<NetAddr> {
        self.init_candidates@
    }

    /// The shuffle timeout lies between 2 and 8 seconds, and no node has two
    /// pending answers.
    pub open spec fn wf(&self) -> bool {
        &&& 2000 <= self.spec_timeout() < 8000
        &&& pending_distinct(self.spec_pending())
    }

    /// Whether the timer was reset at `now`: restarted, with a timeout of
    /// 4 to 8 seconds.
    pub open spec fn timer_reset(&self, now: u64) -> bool {
        self.spec_timer() == now && 4000 <= self.spec_timeout() < 8000
    }

    /// Peer discovery at the start: no neighbours, a timeout of 2 to 7 seconds.
    pub fn new(now: u64) -> (p: PeerDisc)
        ensures
            p.wf(),
            p.spec_state() == PeerDiscState::Init,
            p.spec_neighbors().len() == 0,
            p.spec_pending().len() == 0,
            p.spec_shuffle_nodes().len() == 0,
            p.spec_shuffle_node() is None,
            p.spec_timer() == now,
            2000 <= p.spec_timeout() < 7000,
            !p.spec_at_start(),
    {
        let secs = random_in_range(2, 7);
        PeerDisc {
            state: PeerDiscState::Init,
            neighbor_nodes: Vec::new(),
            pending_resp: Vec::new(),
            shuffle_nodes: Vec::new(),
            shuffle_node: None,
            timer: now,
            shuffle_timeout: secs * 1000,
            shuffle_at_start: false,
            init_candidates: Vec::new(),
        }
    }

    /// The current phase.
    pub fn get_state(&self) -> (s: PeerDiscState)
        ensures
            s == self.spec_state(),
    {
        self.state
    }

    /// The number of neighbours.
    pub fn neighbor_count(&self) -> (n: usize)
        ensures
            n == self.spec_neighbors().len(),
    {
        self.neighbor_nodes.len()
    }

    /// The address of the shuffle partner, if there is one.
    pub fn shuffle_partner(&self) -> (r: Option<NetAddr>)
        ensures
            r == match self.spec_shuffle_node() {
                Some(n) => Some(n.addr),
                None => None::<NetAddr>,
            },
    {
        match self.shuffle_node {
            Some(n) => Some(n.addr),
            None => None,
        }
    }

    /// The addresses of our current neighbours.
    pub fn get_neighbors(&self) -> (v: Vec<NetAddr>)
        ensures
            v@ == addrs_of(self.spec_neighbors()),
    {
        addrs_from(&self.neighbor_nodes)
    }

    /// A node at the IP of `from` listening on `port` joins: every
    /// neighbour is told to connect to it.
    pub fn on_join_req(&self, port: u16, from: NetAddr) -> (r: Vec<(Packet, NetAddr)>)
        ensures
            r@.len() == self.spec_neighbors().len(),
            forall|i: int|
                0 <= i < r@.len() ==> #[trigger] r@[i] == (
                Packet::JoinFwd(spec_with_port(from, port)),
                self.spec_neighbors()[i].addr,
            ),
    {
        let mut joined_addr = from;
        joined_addr.set_port(port);
        let mut out: Vec<(Packet, NetAddr)> = Vec::new();
        let mut i: usize = 0;
        while i < self.neighbor_nodes.len()
            invariant
                i <= self.neighbor_nodes@.len(),
                joined_addr == spec_with_port(from, port),
                out@.len() == i,
                forall|k: int|
                    0 <= k < i ==> #[trigger] out@[k] == (Packet::JoinFwd(joined_addr), self.neighbor_nodes@[k].addr),
            decreases self.neighbor_nodes@.len() - i,
        {
            out.push((Packet::JoinFwd(joined_addr), self.neighbor_nodes[i].addr));
            i = i + 1;
        }
        out
    }

    /// The neighbours to which a packet is broadcast.
    pub fn broadcast(&self) -> (v: Vec<NetAddr>)
        ensures
            v@ == addrs_of(self.spec_neighbors()),
    {
        addrs_from(&self.neighbor_nodes)
    }

    /// A node suggests that we connect to `addr`: the peers to try.
    pub fn on_join_fwd(&self, addr: NetAddr, from: NetAddr) -> (v: Vec<NetAddr>)
        ensures
            v@ == seq![addr],
    {
        let mut v: Vec<NetAddr> = Vec::new();
        v.push(addr);
        v
    }

    /// Whether to connect to `addr`: it is not our own address and not a
    /// neighbour yet.
    pub fn should_connect(&self, addr: &NetAddr, my_addr: &NetAddr) -> (r: bool)
        ensures
            r == (!spec_is_my_addr(*my_addr, *addr) && !has_addr(self.spec_neighbors(), *addr)),
    {
        if is_my_addr(my_addr, addr) {
            return false;
        }
        let mut i: usize = 0;
        while i < self.neighbor_nodes.len()
            invariant
                i <= self.neighbor_nodes@.len(),
                forall|k: int| 0 <= k < i ==> #[trigger] self.neighbor_nodes@[k].addr != *addr,
            decreases self.neighbor_nodes@.len() - i,
        {
            if self.neighbor_nodes[i].addr == *addr {
                assert(has_addr(self.spec_neighbors(), *addr));
                return false;
            }
            i = i + 1;
        }
        true
    }

    /// The outcome of a connection to `addr`: a neighbour of age 0 on success.
    pub fn on_connect_result(&mut self, addr: NetAddr, connected: bool)
        requires
            old(self).wf(),
        ensures
            final(self).wf(),
            connected ==> final(self).spec_neighbors() == old(self).spec_neighbors().push(NodeInfo { addr, age: 0 }),
            !connected ==> final(self).spec_neighbors() == old(self).spec_neighbors(),
            final(self).spec_state() == old(self).spec_state(),
            final(self).spec_pending() == old(self).spec_pending(),
            final(self).spec_shuffle_nodes() == old(self).spec_shuffle_nodes(),
            final(self).spec_shuffle_node() == old(self).spec_shuffle_node(),
            final(self).spec_timer() == old(self).spec_timer(),
            final(self).spec_timeout() == old(self).spec_timeout(),
            final(self).spec_at_start() == old(self).spec_at_start(),
    {
        if connected {
            self.neighbor_nodes.push(NodeInfo::new(addr));
        }
    }

    /// Restarts the timer with a timeout of 4 to 8 seconds.
    fn reset_timer(&mut self, now: u64)
        ensures
            final(self).timer_reset(now),
            final(self).spec_state() == old(self).spec_state(),
            final(self).spec_neighbors() == old(self).spec_neighbors(),
            final(self).spec_pending() == old(self).spec_pending(),
            final(self).spec_shuffle_nodes() == old(self).spec_shuffle_nodes(),
            final(self).spec_shuffle_node() == old(self).spec_shuffle_node(),
            final(self).spec_at_start() == old(self).spec_at_start(),
    {
        self.timer = now;
        let secs = random_in_range(4, 8);
        self.shuffle_timeout = secs * 1000;
    }

    /// Maps every address at a localhost IP to the IP of `origin`, keeping
    /// its port: addresses that the sender gave as its own localhost become
    /// reachable from here.
    pub fn clean_addrs(addrs: &mut Vec<NetAddr>, origin: NetAddr)
        ensures
            final(addrs)@ == cleaned(old(addrs)@, origin),
    {
        let ghost a0 = addrs@;
        let mut i: usize = 0;
        while i < addrs.len()
            invariant
                i <= addrs@.len(),
                addrs@.len() == a0.len(),
                forall|k: int| 0 <= k < i ==> #[trigger] addrs@[k] == cleaned(a0, origin)[k],
                forall|k: int| i <= k < a0.len() ==> #[trigger] addrs@[k] == a0[k],
            decreases addrs@.len() - i,
        {
            let a = addrs[i];
            if a.is_localhost_ip() {
                let port = a.port();
                let mut b = origin;
                b.set_port(port);
                addrs.set(i, b);
            }
            i = i + 1;
        }
        assert(addrs@ =~= cleaned(a0, origin));
    }

    /// Removes the pending answer of `a`.
    fn pending_remove(&mut self, a: NetAddr)
        ensures
            final(self).spec_pending() == pending_without(old(self).spec_pending(), a),
            final(self).spec_state() == old(self).spec_state(),
            final(self).spec_neighbors() == old(self).spec_neighbors(),
            final(self).spec_shuffle_nodes() == old(self).spec_shuffle_nodes(),
            final(self).spec_shuffle_node() == old(self).spec_shuffle_node(),
            final(self).spec_timer() == old(self).spec_timer(),
            final(self).spec_timeout() == old(self).spec_timeout(),
            final(self).spec_at_start() == old(self).spec_at_start(),
    {
        let ghost p0 = self.pending_resp@;
        let mut kept: Vec<(NetAddr, u64)> = Vec::new();
        let mut i: usize = 0;
        while i < self.pending_resp.len()
            invariant
                i <= p0.len(),
                self.pending_resp@ == p0,
                kept@ == pending_without(p0.take(i as int), a),
            decreases p0.len() - i,
        {
            assert(p0.take(i + 1).drop_last() =~= p0.take(i as int));
            let e = self.pending_resp[i];
            if e.0 != a {
                kept.push(e);
            }
            i = i + 1;
        }
        assert(p0.take(i as int) =~= p0);
        self.pending_resp = kept;
    }

    /// Removes the neighbours at `a`.
    fn neighbors_remove(&mut self, a: NetAddr)
        ensures
            final(self).spec_neighbors() == without_addr(old(self).spec_neighbors(), a),
            final(self).spec_pending() == old(self).spec_pending(),
            final(self).spec_state() == old(self).spec_state(),
            final(self).spec_shuffle_nodes() == old(self).spec_shuffle_nodes(),
            final(self).spec_shuffle_node() == old(self).spec_shuffle_node(),
            final(self).spec_timer() == old(self).spec_timer(),
            final(self).spec_timeout() == old(self).spec_timeout(),
            final(self).spec_at_start() == old(self).spec_at_start(),
    {
        let ghost n0 = self.neighbor_nodes@;
        let mut kept: Vec<NodeInfo> = Vec::new();
        let mut i: usize = 0;
        while i < self.neighbor_nodes.len()
            invariant
                i <= n0.len(),
                self.neighbor_nodes@ == n0,
                kept@ == without_addr(n0.take(i as int), a),
            decreases n0.len() - i,
        {
            assert(n0.take(i + 1).drop_last() =~= n0.take(i as int));
            let e = self.neighbor_nodes[i];
            if e.addr != a {
                kept.push(e);
            }
            i = i + 1;
        }
        assert(n0.take(i as int) =~= n0);
        self.neighbor_nodes = kept;
    }

    /// A shuffle answer from `from`. Only the answer of the shuffle partner
    /// counts; its request is no longer pending. An acceptance brings peers
    /// to connect to (localhost addresses taken to be at the IP of `from`).
    /// A refusal ends the shuffle; with fewer than two neighbours left, the
    /// nodes set aside for it are connected to again, otherwise a new
    /// shuffle is tried.
    pub fn on_peer_shuffle_resp(&mut self, peers: Option<Vec<NetAddr>>, from: NetAddr) -> (r: ShuffleRespAction)
        requires
            old(self).wf(),
        ensures
            final(self).wf(),
            match old(self).spec_shuffle_node() {
                Some(sn) if sn.addr == from => {
                    &&& final(self).spec_pending() == pending_without(old(self).spec_pending(), from)
                    &&& final(self).spec_neighbors() == old(self).spec_neighbors()
                    &&& final(self).spec_shuffle_nodes() == old(self).spec_shuffle_nodes()
                    &&& final(self).spec_timer() == old(self).spec_timer()
                    &&& final(self).spec_timeout() == old(self).spec_timeout()
                    &&& final(self).spec_at_start() == old(self).spec_at_start()
                    &&& match peers {
                        Some(ps) => {
                            &&& final(self).spec_shuffle_node() == old(self).spec_shuffle_node()
                            &&& final(self).spec_state() == old(self).spec_state()
                            &&& r matches ShuffleRespAction::Accepted { connect, partner } && connect@ == cleaned(ps@, from)
                                && partner == from
                        },
                        None => {
                            &&& final(self).spec_shuffle_node() is None
                            &&& if old(self).spec_neighbors().len() < 2 {
                                &&& final(self).spec_state() == old(self).spec_state()
                                &&& r matches ShuffleRespAction::RefusedReconnect { connect } && connect@ == addrs_of(
                                    old(self).spec_shuffle_nodes(),
                                )
                            } else {
                                &&& final(self).spec_state() == PeerDiscState::Shuffle
                                &&& r is Refused
                            }
                        },
                    }
                },
                _ => r is Ignore && *final(self) == *old(self),
            },
    {
        let sn = match self.shuffle_node {
            Some(sn) => sn,
            None => return ShuffleRespAction::Ignore,
        };
        if sn.addr != from {
            return ShuffleRespAction::Ignore;
        }
        proof {
            lemma_pending_without(self.pending_resp@, from);
        }
        self.pending_remove(from);
        match peers {
            Some(mut ps) => {
                PeerDisc::clean_addrs(&mut ps, from);
                ShuffleRespAction::Accepted { connect: ps, partner: sn.addr }
            },
            None => {
                self.shuffle_node = None;
                if self.neighbor_nodes.len() < 2 {
                    ShuffleRespAction::RefusedReconnect { connect: addrs_from(&self.shuffle_nodes) }
                } else {
                    self.state = PeerDiscState::Shuffle;
                    ShuffleRespAction::Refused
                }
            },
        }
    }

    /// Ends an accepted shuffle, once its peers were tried: the partner is
    /// no longer a neighbour, the shuffle is over, the timer restarts.
    pub fn finish_shuffle_accepted(&mut self, partner: NetAddr, now: u64)
        requires
            old(self).wf(),
        ensures
            final(self).wf(),
            final(self).spec_neighbors() == without_addr(old(self).spec_neighbors(), partner),
            final(self).spec_shuffle_node() is None,
            final(self).spec_shuffle_nodes().len() == 0,
            final(self).timer_reset(now),
            final(self).spec_state() == old(self).spec_state(),
            final(self).spec_pending() == old(self).spec_pending(),
            final(self).spec_at_start() == old(self).spec_at_start(),
    {
        self.neighbors_remove(partner);
        self.shuffle_node = None;
        self.shuffle_nodes.clear();
        self.reset_timer(now);
    }

    /// Ends a refused shuffle whose nodes were connected to again.
    pub fn finish_shuffle_refused(&mut self, now: u64)
        requires
            old(self).wf(),
        ensures
            final(self).wf(),
            final(self).spec_shuffle_nodes().len() == 0,
            final(self).timer_reset(now),
            final(self).spec_neighbors() == old(self).spec_neighbors(),
            final(self).spec_shuffle_node() == old(self).spec_shuffle_node(),
            final(self).spec_state() == old(self).spec_state(),
            final(self).spec_pending() == old(self).spec_pending(),
            final(self).spec_at_start() == old(self).spec_at_start(),
    {
        self.shuffle_nodes.clear();
        self.reset_timer(now);
    }

    /// Prepares a shuffle: the neighbours are put in a random order; when
    /// no nodes are set aside yet and there are at least two neighbours,
    /// the second half of them is set aside (and their connections are to
    /// be closed); the first neighbour, if any, becomes the partner.
    fn prepare_shuffle(&mut self) -> (close: Vec<NetAddr>)
        ensures
            ({
                let split = old(self).spec_shuffle_nodes().len() == 0 && old(self).spec_neighbors().len() > 1;
                let moved = if split { final(self).spec_shuffle_nodes() } else { Seq::<NodeInfo>::empty() };
                &&& (final(self).spec_neighbors() + moved).to_multiset() == old(self).spec_neighbors().to_multiset()
                &&& split ==> final(self).spec_neighbors().len() == old(self).spec_neighbors().len() / 2
                &&& !split ==> final(self).spec_shuffle_nodes() == old(self).spec_shuffle_nodes()
                &&& close@ == addrs_of(moved)
                &&& if final(self).spec_neighbors().len() > 0 {
                    final(self).spec_shuffle_node() == Some(final(self).spec_neighbors()[0])
                } else {
                    final(self).spec_shuffle_node() == old(self).spec_shuffle_node()
                }
                &&& old(self).spec_neighbors().len() > 0 ==> final(self).spec_neighbors().len() > 0
            }),
            final(self).spec_state() == old(self).spec_state(),
            final(self).spec_pending() == old(self).spec_pending(),
            final(self).spec_timer() == old(self).spec_timer(),
            final(self).spec_timeout() == old(self).spec_timeout(),
            final(self).spec_at_start() == old(self).spec_at_start(),
    {
        shuffle_vec(&mut self.neighbor_nodes);
        let ghost shuffled = self.neighbor_nodes@;
        proof {
            vstd::seq_lib::to_multiset_len(shuffled);
            vstd::seq_lib::to_multiset_len(old(self).neighbor_nodes@);
        }
        let mut close: Vec<NetAddr> = Vec::new();
        if self.shuffle_nodes.len() == 0 && self.neighbor_nodes.len() > 1 {
            let mid = self.neighbor_nodes.len() / 2;
            self.shuffle_nodes = self.neighbor_nodes.split_off(mid);
            close = addrs_from(&self.shuffle_nodes);
            proof {
                assert(shuffled =~= self.neighbor_nodes@ + self.shuffle_nodes@);
            }
        } else {
            assert(self.neighbor_nodes@ + Seq::<NodeInfo>::empty() =~= self.neighbor_nodes@);
            assert(close@ =~= addrs_of(Seq::<NodeInfo>::empty()));
        }
        if self.neighbor_nodes.len() > 0 {
            self.shuffle_node = Some(self.neighbor_nodes[0]);
        }
        proof {
            vstd::seq_lib::lemma_multiset_commutative(self.neighbor_nodes@, self.shuffle_nodes@);
        }
        close
    }

    /// A shuffle request from `from`, which offers `peers`. It is accepted
    /// only while waiting: a shuffle is prepared, the nodes set aside are
    /// offered in return, the timer restarts, and the offered peers are to
    /// be connected to. Either way the shuffle partner is forgotten.
    pub fn on_peer_shuffle_req(&mut self, peers: Vec<NetAddr>, from: NetAddr, now: u64) -> (r: ShuffleReqAction)
        requires
            old(self).wf(),
        ensures
            final(self).wf(),
            final(self).spec_shuffle_node() is None,
            final(self).spec_state() == old(self).spec_state(),
            final(self).spec_pending() == old(self).spec_pending(),
            final(self).spec_at_start() == old(self).spec_at_start(),
            old(self).spec_state() == PeerDiscState::Wait ==> {
                let split = old(self).spec_shuffle_nodes().len() == 0 && old(self).spec_neighbors().len() > 1;
                let moved = if split { final(self).spec_shuffle_nodes() } else { Seq::<NodeInfo>::empty() };
                &&& (final(self).spec_neighbors() + moved).to_multiset() == old(self).spec_neighbors().to_multiset()
                &&& split ==> final(self).spec_neighbors().len() == old(self).spec_neighbors().len() / 2
                &&& !split ==> final(self).spec_shuffle_nodes() == old(self).spec_shuffle_nodes()
                &&& r.close@ == addrs_of(moved)
                &&& r.reply matches Packet::PeerShuffleResp(Some(v)) && v@ == addrs_of(final(self).spec_shuffle_nodes())
                &&& r.connect@ == cleaned(peers@, from)
                &&& final(self).timer_reset(now)
            },
            old(self).spec_state() != PeerDiscState::Wait ==> {
                &&& r.close@.len() == 0
                &&& r.connect@.len() == 0
                &&& r.reply == Packet::PeerShuffleResp(None)
                &&& final(self).spec_neighbors() == old(self).spec_neighbors()
                &&& final(self).spec_shuffle_nodes() == old(self).spec_shuffle_nodes()
                &&& final(self).spec_timer() == old(self).spec_timer()
                &&& final(self).spec_timeout() == old(self).spec_timeout()
            },
    {
        let r = if self.state == PeerDiscState::Wait {
            let close = self.prepare_shuffle();
            let nodes = addrs_from(&self.shuffle_nodes);
            let reply = Packet::PeerShuffleResp(Some(nodes));
            self.reset_timer(now);
            let mut ps = peers;
            PeerDisc::clean_addrs(&mut ps, from);
            ShuffleReqAction { close, connect: ps, reply }
        } else {
            ShuffleReqAction { close: Vec::new(), connect: Vec::new(), reply: Packet::PeerShuffleResp(None) }
        };
        self.shuffle_node = None;
        r
    }

    /// Drops neighbours whose connection is gone (when there are more
    /// neighbours than connections: a neighbour stays when its address is
    /// among `net_nodes` exactly once), then ages every neighbour by one poll.
    fn update_neighbors(&mut self, net_nodes: &Vec<NetAddr>)
        ensures
            final(self).spec_neighbors() == aged(
                if old(self).spec_neighbors().len() > net_nodes@.len() {
                    only_once(old(self).spec_neighbors(), net_nodes@)
                } else {
                    old(self).spec_neighbors()
                },
            ),
            final(self).spec_state() == old(self).spec_state(),
            final(self).spec_pending() == old(self).spec_pending(),
            final(self).spec_shuffle_nodes() == old(self).spec_shuffle_nodes(),
            final(self).spec_shuffle_node() == old(self).spec_shuffle_node(),
            final(self).spec_timer() == old(self).spec_timer(),
            final(self).spec_timeout() == old(self).spec_timeout(),
            final(self).spec_at_start() == old(self).spec_at_start(),
    {
        if self.neighbor_nodes.len() > net_nodes.len() {
            let ghost n0 = self.neighbor_nodes@;
            let mut kept: Vec<NodeInfo> = Vec::new();
            let mut i: usize = 0;
            while i < self.neighbor_nodes.len()
                invariant
                    i <= n0.len(),
                    self.neighbor_nodes@ == n0,
                    kept@ == only_once(n0.take(i as int), net_nodes@),
                decreases n0.len() - i,
            {
                assert(n0.take(i + 1).drop_last() =~= n0.take(i as int));
                let e = self.neighbor_nodes[i];
                if count_addr(net_nodes, &e.addr) == 1 {
                    kept.push(e);
                }
                i = i + 1;
            }
            assert(n0.take(i as int) =~= n0);
            self.neighbor_nodes = kept;
        }
        let ghost n1 = self.neighbor_nodes@;
        let mut j: usize = 0;
        while j < self.neighbor_nodes.len()
            invariant
                j <= n1.len(),
                self.neighbor_nodes@.len() == n1.len(),
                self.state == old(self).state,
                self.pending_resp == old(self).pending_resp,
                self.shuffle_nodes == old(self).shuffle_nodes,
                self.shuffle_node == old(self).shuffle_node,
                self.timer == old(self).timer,
                self.shuffle_timeout == old(self).shuffle_timeout,
                self.shuffle_at_start == old(self).shuffle_at_start,
                forall|k: int| 0 <= k < j ==> #[trigger] self.neighbor_nodes@[k] == aged(n1)[k],
                forall|k: int| j <= k < n1.len() ==> #[trigger] self.neighbor_nodes@[k] == n1[k],
            decreases n1.len() - j,
        {
            let n = self.neighbor_nodes[j];
            let age = if n.age < u64::MAX { n.age + 1 } else { n.age };
            self.neighbor_nodes.set(j, NodeInfo { addr: n.addr, age });
            j = j + 1;
        }
        assert(self.neighbor_nodes@ =~= aged(n1));
    }

    /// The waiting phase. With no answer pending: a partner that did not
    /// answer is given up (its connection is to be closed) and a new
    /// shuffle is tried; otherwise, once the timeout has passed (or a
    /// shuffle is due at start), a new shuffle is tried, or discovery
    /// starts over when there are no neighbours. Pending answers older than
    /// the answer timeout are dropped.
    fn state_wait(&mut self, now: u64) -> (close: Option<NetAddr>)
        requires
            old(self).wf(),
        ensures
            final(self).wf(),
            wait_outcome(*old(self), old(self).spec_neighbors(), *final(self), now, close),
    {
        if self.pending_resp.len() == 0 {
            if let Some(sn) = self.shuffle_node {
                self.state = PeerDiscState::Shuffle;
                self.shuffle_node = None;
                return Some(sn.addr);
            } else {
                let el = if now >= self.timer { now - self.timer } else { 0 };
                if el > self.shuffle_timeout || self.shuffle_at_start {
                    if self.neighbor_nodes.len() == 0 && !self.shuffle_at_start {
                        self.state = PeerDiscState::Init;
                    } else {
                        self.state = PeerDiscState::Shuffle;
                    }
                    self.reset_timer(now);
                    self.shuffle_at_start = false;
                }
            }
        }
        let ghost p0 = self.pending_resp@;
        proof {
            lemma_fresh_pending(p0, now);
        }
        let mut kept: Vec<(NetAddr, u64)> = Vec::new();
        let mut i: usize = 0;
        while i < self.pending_resp.len()
            invariant
                i <= p0.len(),
                self.pending_resp@ == p0,
                kept@ == fresh_pending(p0.take(i as int), now),
            decreases p0.len() - i,
        {
            assert(p0.take(i + 1).drop_last() =~= p0.take(i as int));
            let e = self.pending_resp[i];
            let el = if now >= e.1 { now - e.1 } else { 0 };
            if el <= RESPONSE_TIMEOUT_MS {
                kept.push(e);
            }
            i = i + 1;
        }
        assert(p0.take(i as int) =~= p0);
        self.pending_resp = kept;
        None
    }

    /// The shuffle phase: with no neighbours discovery starts over;
    /// otherwise a shuffle is prepared and a request is to be sent to the
    /// partner, offering the nodes set aside and our own localhost address.
    fn state_shuffle(&mut self, now: u64, my_port: u16) -> (r: PollAction)
        requires
            old(self).wf(),
        ensures
            final(self).wf(),
            shuffle_outcome(*old(self), old(self).spec_neighbors(), *final(self), now, my_port, r),
    {
        if self.neighbor_nodes.len() == 0 {
            self.state = PeerDiscState::Init;
            self.reset_timer(now);
            return PollAction::Nothing;
        }
        let close = self.prepare_shuffle();
        let mut nodes = addrs_from(&self.shuffle_nodes);
        let me = NetAddr::localhost(my_port);
        nodes.push(me);
        let to = self.neighbor_nodes[0].addr;
        PollAction::SendShuffle { close, packet: Packet::PeerShuffleReq(nodes), to }
    }

    /// Gives up the shuffle: the nodes set aside are to be connected to
    /// again, and discovery waits.
    fn abort_shuffle(&mut self, now: u64) -> (connect: Vec<NetAddr>)
        requires
            old(self).wf(),
        ensures
            final(self).wf(),
            old(self).spec_state() != PeerDiscState::Shuffle ==> connect@.len() == 0 && *final(self) == *old(self),
            old(self).spec_state() == PeerDiscState::Shuffle ==> {
                &&& connect@ == addrs_of(old(self).spec_shuffle_nodes())
                &&& final(self).spec_shuffle_node() is None
                &&& final(self).spec_shuffle_nodes().len() == 0
                &&& final(self).timer_reset(now)
                &&& final(self).spec_state() == PeerDiscState::Wait
                &&& final(self).spec_neighbors() == old(self).spec_neighbors()
                &&& final(self).spec_pending() == old(self).spec_pending()
            },
    {
        if self.state != PeerDiscState::Shuffle {
            return Vec::new();
        }
        self.shuffle_node = None;
        let connect = addrs_from(&self.shuffle_nodes);
        self.shuffle_nodes.clear();
        self.reset_timer(now);
        self.state = PeerDiscState::Wait;
        connect
    }

    /// The outcome of sending a shuffle request to the partner. When it was
    /// sent, discovery waits for the answer; when it failed, the partner is
    /// dropped and the shuffle given up (the peers returned are to be
    /// connected to again).
    pub fn on_shuffle_req_sent(&mut self, sent: bool, now: u64) -> (connect: Vec<NetAddr>)
        requires
            old(self).wf(),
            old(self).spec_shuffle_node() is Some,
        ensures
            final(self).wf(),
            sent ==> {
                &&& connect@.len() == 0
                &&& final(self).spec_state() == PeerDiscState::Wait
                &&& final(self).spec_pending() == pending_without(old(self).spec_pending(), old(self).spec_shuffle_node()->0.addr).push(
                    (old(self).spec_shuffle_node()->0.addr, now),
                )
                &&& final(self).timer_reset(now)
                &&& final(self).spec_neighbors() == old(self).spec_neighbors()
                &&& final(self).spec_shuffle_node() == old(self).spec_shuffle_node()
            },
            !sent ==> {
                &&& final(self).spec_neighbors() == without_addr(old(self).spec_neighbors(), old(self).spec_shuffle_node()->0.addr)
                &&& old(self).spec_state() == PeerDiscState::Shuffle ==> {
                    &&& connect@ == addrs_of(old(self).spec_shuffle_nodes())
                    &&& final(self).spec_shuffle_node() is None
                    &&& final(self).spec_shuffle_nodes().len() == 0
                    &&& final(self).spec_state() == PeerDiscState::Wait
                    &&& final(self).timer_reset(now)
                }
            },
    {
        let raddr = match self.shuffle_node {
            Some(sn) => sn.addr,
            None => return Vec::new(),
        };
        if !sent {
            self.neighbors_remove(raddr);
            self.abort_shuffle(now)
        } else {
            self.state = PeerDiscState::Wait;
            proof {
                lemma_pending_without(self.pending_resp@, raddr);
            }
            self.pending_remove(raddr);
            let ghost p1 = self.pending_resp@;
            self.pending_resp.push((raddr, now));
            proof {
                assert forall|i: int, j: int| 0 <= i < j < self.pending_resp@.len() implies #[trigger] self.pending_resp@[i].0
                    != #[trigger] self.pending_resp@[j].0 by {
                    if j == p1.len() {
                        assert(p1[i].0 != raddr);
                    } else {
                        assert(p1[i].0 != p1[j].0);
                    }
                }
            }
            self.reset_timer(now);
            Vec::new()
        }
    }

    /// The start of discovery: the given static peers, without our own
    /// address, in a random order.
    fn init_candidates(&self, static_peers: Vec<NetAddr>, my_addr: NetAddr) -> (v: Vec<NetAddr>)
        ensures
            v@.to_multiset() == not_mine(static_peers@, my_addr).to_multiset(),
    {
        let mut v: Vec<NetAddr> = Vec::new();
        let mut i: usize = 0;
        while i < static_peers.len()
            invariant
                i <= static_peers@.len(),
                v@ == not_mine(static_peers@.take(i as int), my_addr),
            decreases static_peers@.len() - i,
        {
            assert(static_peers@.take(i + 1).drop_last() =~= static_peers@.take(i as int));
            let a = static_peers[i];
            if !is_my_addr(&my_addr, &a) {
                v.push(a);
            }
            i = i + 1;
        }
        assert(static_peers@.take(i as int) =~= static_peers@);
        shuffle_vec(&mut v);
        v
    }

    /// Whether `addr` is one of the candidates handed out at the start of discovery.
    pub fn is_init_candidate(&self, addr: &NetAddr) -> (r: bool)
        ensures
            r == self.spec_candidates().contains(*addr),
    {
        let mut i: usize = 0;
        while i < self.init_candidates.len()
            invariant
                i <= self.init_candidates@.len(),
                forall|k: int| 0 <= k < i ==> #[trigger] self.init_candidates@[k] != *addr,
            decreases self.init_candidates@.len() - i,
        {
            if self.init_candidates[i] == *addr {
                assert(self.init_candidates@[i as int] == *addr);
                return true;
            }
            i = i + 1;
        }
        false
    }

    /// Whether the start of discovery still looks for neighbours.
    pub fn init_needs_more(&self) -> (r: bool)
        ensures
            r == (self.spec_neighbors().len() < PEER_LIMIT),
    {
        self.neighbor_nodes.len() < PEER_LIMIT
    }

    /// A static peer that the start of discovery connected to.
    pub fn add_init_neighbor(&mut self, addr: NetAddr)
        requires
            old(self).wf(),
            old(self).spec_neighbors().len() < PEER_LIMIT,
            old(self).spec_candidates().contains(addr),
        ensures
            final(self).wf(),
            final(self).spec_candidates() == old(self).spec_candidates(),
            final(self).spec_neighbors() == old(self).spec_neighbors().push(NodeInfo { addr, age: 0 }),
            final(self).spec_state() == old(self).spec_state(),
            final(self).spec_pending() == old(self).spec_pending(),
            final(self).spec_shuffle_nodes() == old(self).spec_shuffle_nodes(),
            final(self).spec_shuffle_node() == old(self).spec_shuffle_node(),
            final(self).spec_timer() == old(self).spec_timer(),
            final(self).spec_timeout() == old(self).spec_timeout(),
            final(self).spec_at_start() == old(self).spec_at_start(),
    {
        self.neighbor_nodes.push(NodeInfo::new(addr));
    }

    /// Ends the start of discovery: every neighbour is asked to let us join
    /// (we listen on `my_port`), and discovery waits.
    pub fn finish_init(&mut self, now: u64, my_port: u16) -> (r: Vec<(Packet, NetAddr)>)
        requires
            old(self).wf(),
        ensures
            final(self).wf(),
            final(self).spec_state() == PeerDiscState::Wait,
            final(self).timer_reset(now),
            final(self).spec_neighbors() == old(self).spec_neighbors(),
            r@.len() == old(self).spec_neighbors().len(),
            forall|i: int|
                0 <= i < r@.len() ==> #[trigger] r@[i] == (Packet::JoinReq(my_port), old(self).spec_neighbors()[i].addr),
    {
        let mut out: Vec<(Packet, NetAddr)> = Vec::new();
        let mut i: usize = 0;
        while i < self.neighbor_nodes.len()
            invariant
                i <= self.neighbor_nodes@.len(),
                out@.len() == i,
                forall|k: int| 0 <= k < i ==> #[trigger] out@[k] == (Packet::JoinReq(my_port), self.neighbor_nodes@[k].addr),
            decreases self.neighbor_nodes@.len() - i,
        {
            out.push((Packet::JoinReq(my_port), self.neighbor_nodes[i].addr));
            i = i + 1;
        }
        self.state = PeerDiscState::Wait;
        self.reset_timer(now);
        out
    }

    /// One poll: neighbours whose connection is gone are dropped and the
    /// others age; then the phase acts. `net_nodes` are the addresses of
    /// the open connections, `static_peers` the known peers to start from.
    pub fn poll(&mut self, net_nodes: &Vec<NetAddr>, now: u64, my_addr: NetAddr) -> (r: PollAction)
        requires
            old(self).wf(),
        ensures
            final(self).wf(),
            ({
                let n = polled(old(self).spec_neighbors(), net_nodes@);
                match old(self).spec_state() {
                    PeerDiscState::Init => {
                        &&& r matches PollAction::Init { candidates } && candidates@.to_multiset() == not_mine(
                            spec_static_nodes(),
                            my_addr,
                        ).to_multiset() && final(self).spec_candidates() == candidates@
                        &&& final(self).spec_neighbors() == n
                        &&& final(self).spec_state() == old(self).spec_state()
                        &&& final(self).spec_pending() == old(self).spec_pending()
                        &&& final(self).spec_shuffle_nodes() == old(self).spec_shuffle_nodes()
                        &&& final(self).spec_shuffle_node() == old(self).spec_shuffle_node()
                        &&& final(self).spec_timer() == old(self).spec_timer()
                        &&& final(self).spec_timeout() == old(self).spec_timeout()
                        &&& final(self).spec_at_start() == old(self).spec_at_start()
                    },
                    PeerDiscState::Wait => {
                        &&& (r is Nothing || r is Close)
                        &&& wait_outcome(*old(self), n, *final(self), now, closed_by(r))
                    },
                    PeerDiscState::Shuffle => shuffle_outcome(*old(self), n, *final(self), now, spec_port(my_addr), r),
                }
            }),
    {
        self.update_neighbors(net_nodes);
        match self.state {
            PeerDiscState::Init => {
                let candidates = self.init_candidates(static_nodes(), my_addr);
                self.init_candidates = copy_addrs(&candidates);
                PollAction::Init { candidates }
            },
            PeerDiscState::Wait => match self.state_wait(now) {
                Some(a) => PollAction::Close(a),
                None => PollAction::Nothing,
            },
            PeerDiscState::Shuffle => self.state_shuffle(now, my_addr.port()),
        }
    }
}

/// The addresses of `s` that are not our own, in order.
pub open spec fn not_mine(s: Seq<NetAddr>, my_addr: NetAddr) -> Seq<NetAddr>
    decreases s.len(),
{
    if s.len() == 0 {
        seq![]
    } else if spec_is_my_addr(my_addr, s.last()) {
        not_mine(s.drop_last(), my_addr)
    } else {
        not_mine(s.drop_last(), my_addr).push(s.last())
    }
}

/// How many times `a` occurs in `s`.
pub open spec fn occurrences(s: Seq<NetAddr>, a: NetAddr) -> nat
    decreases s.len(),
{
    if s.len() == 0 {
        0
    } else if s.last() == a {
        occurrences(s.drop_last(), a) + 1
    } else {
        occurrences(s.drop_last(), a)
    }
}

/// The neighbours of `s` whose address occurs exactly once in `keep`, in order.
pub open spec fn only_once(s: Seq<NodeInfo>, keep: Seq<NetAddr>) -> Seq<NodeInfo>
    decreases s.len(),
{
    if s.len() == 0 {
        seq![]
    } else if occurrences(keep, s.last().addr) == 1 {
        only_once(s.drop_last(), keep).push(s.last())
    } else {
        only_once(s.drop_last(), keep)
    }
}

/// How often an address occurs: zero times when it is absent, at least once
/// when present, and once when it stands at a single position.
pub proof fn lemma_occurrences(s: Seq<NetAddr>, a: NetAddr)
    ensures
        !s.contains(a) ==> occurrences(s, a) == 0,
        occurrences(s, a) >= 1 ==> s.contains(a),
        (exists|p: int| 0 <= p < s.len() && s[p] == a && forall|q: int| 0 <= q < s.len() && s[q] == a ==> q == p)
            ==> occurrences(s, a) == 1,
    decreases s.len(),
{
    if s.len() > 0 {
        let s1 = s.drop_last();
        lemma_occurrences(s1, a);
        let last = s.len() - 1;
        if !s.contains(a) {
            assert(!s1.contains(a)) by {
                if s1.contains(a) {
                    let i = choose|i: int| 0 <= i < s1.len() && s1[i] == a;
                    assert(s[i] == a);
                }
            }
            assert(s[last] != a);
        }
        if occurrences(s, a) >= 1 {
            if s.last() != a {
                let i = choose|i: int| 0 <= i < s1.len() && s1[i] == a;
                assert(s[i] == a);
            } else {
                assert(s[last] == a);
            }
        }
        if exists|p: int| 0 <= p < s.len() && s[p] == a && forall|q: int| 0 <= q < s.len() && s[q] == a ==> q == p {
            let p = choose|p: int| 0 <= p < s.len() && s[p] == a && forall|q: int| 0 <= q < s.len() && s[q] == a ==> q == p;
            if p == last {
                assert(!s1.contains(a)) by {
                    if s1.contains(a) {
                        let i = choose|i: int| 0 <= i < s1.len() && s1[i] == a;
                        assert(s[i] == a);
                    }
                }
            } else {
                assert(s1[p] == a);
                assert forall|q: int| 0 <= q < s1.len() && s1[q] == a implies q == p by {
                    assert(s[q] == a);
                }
                assert(s.last() != a);
            }
        }
    }
}

/// The neighbours kept are those whose address occurs once among `keep`,
/// and each such neighbour is kept.
proof fn lemma_only_once(s: Seq<NodeInfo>, keep: Seq<NetAddr>)
    ensures
        forall|k: int| 0 <= k < only_once(s, keep).len() ==> occurrences(keep, #[trigger] only_once(s, keep)[k].addr) == 1,
        forall|j: int| 0 <= j < s.len() && occurrences(keep, #[trigger] s[j].addr) == 1 ==> only_once(s, keep).contains(s[j]),
    decreases s.len(),
{
    if s.len() > 0 {
        let s1 = s.drop_last();
        lemma_only_once(s1, keep);
        let o1 = only_once(s1, keep);
        let o = only_once(s, keep);
        assert forall|j: int| 0 <= j < s.len() && occurrences(keep, #[trigger] s[j].addr) == 1 implies o.contains(s[j]) by {
            if j < s.len() - 1 {
                assert(s1[j] == s[j]);
                assert(occurrences(keep, s1[j].addr) == 1);
                let i = choose|i: int| 0 <= i < o1.len() && o1[i] == s1[j];
                assert(o[i] == s[j]);
            } else {
                assert(o[o.len() - 1] == s[j]);
            }
        }
        assert forall|k: int| 0 <= k < o.len() implies occurrences(keep, #[trigger] o[k].addr) == 1 by {
            if k < o1.len() {
                assert(o[k] == o1[k]);
            }
        }
    }
}

/// After a poll that finds fewer open connections than neighbours, every
/// neighbour left has an open connection, and a neighbour whose address
/// has exactly one open connection stays, one poll older.
pub proof fn lemma_poll_drops_disconnected(s: Seq<NodeInfo>, net: Seq<NetAddr>)
    requires
        s.len() > net.len(),
    ensures
        forall|k: int| 0 <= k < polled(s, net).len() ==> net.contains(#[trigger] polled(s, net)[k].addr),
        forall|j: int|
            0 <= j < s.len() && (exists|p: int|
                0 <= p < net.len() && net[p] == #[trigger] s[j].addr && forall|q: int| 0 <= q < net.len() && net[q] == s[j].addr ==> q == p)
                ==> polled(s, net).contains(
                NodeInfo { addr: s[j].addr, age: if s[j].age < u64::MAX { (s[j].age + 1) as u64 } else { s[j].age } },
            ),
{
    lemma_only_once(s, net);
    let o = only_once(s, net);
    let r = polled(s, net);
    assert forall|k: int| 0 <= k < r.len() implies net.contains(#[trigger] r[k].addr) by {
        assert(r[k].addr == o[k].addr);
        lemma_occurrences(net, o[k].addr);
    }
    assert forall|j: int|
        0 <= j < s.len() && (exists|p: int|
            0 <= p < net.len() && net[p] == #[trigger] s[j].addr && forall|q: int| 0 <= q < net.len() && net[q] == s[j].addr ==> q == p)
            implies r.contains(NodeInfo { addr: s[j].addr, age: if s[j].age < u64::MAX { (s[j].age + 1) as u64 } else { s[j].age } }) by {
        lemma_occurrences(net, s[j].addr);
        let i = choose|i: int| 0 <= i < o.len() && o[i] == s[j];
        assert(r[i] == NodeInfo { addr: s[j].addr, age: if s[j].age < u64::MAX { (s[j].age + 1) as u64 } else { s[j].age } });
    }
}

fn count_addr(v: &Vec<NetAddr>, a: &NetAddr) -> (n: usize)
    ensures
        n == occurrences(v@, *a),
{
    let mut n: usize = 0;
    let mut i: usize = 0;
    while i < v.len()
        invariant
            i <= v@.len(),
            n == occurrences(v@.take(i as int), *a),
            n <= i,
        decreases v@.len() - i,
    {
        assert(v@.take(i + 1).drop_last() =~= v@.take(i as int));
        if v[i] == *a {
            n = n + 1;
        }
        i = i + 1;
    }
    assert(v@.take(i as int) =~= v@);
    n
}

fn addrs_from(nodes: &Vec<NodeInfo>) -> (v: Vec<NetAddr>)
    ensures
        v@ == addrs_of(nodes@),
{
    let mut v: Vec<NetAddr> = Vec::new();
    let mut i: usize = 0;
    while i < nodes.len()
        invariant
            i <= nodes@.len(),
            v@ == addrs_of(nodes@.take(i as int)),
        decreases nodes@.len() - i,
    {
        assert(addrs_of(nodes@.take(i + 1)) =~= addrs_of(nodes@.take(i as int)).push(nodes@[i as int].addr));
        v.push(nodes[i].addr);
        i = i + 1;
    }
    assert(nodes@.take(i as int) =~= nodes@);
    v
}

} // verus!
