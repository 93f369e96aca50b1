//! The decisions of a node: what to do with a packet from a peer, with a
//! request from the REST front end, and with a freshly mined block. The
//! caller performs the sends that the decisions ask for.

use crate::blockchain::block::{block_eqv, lemma_eqv_hash};
use crate::blockchain::miner::{after_recv, Miner, PushResult};
use crate::blockchain::transaction::{PubKey, Transaction, TransactionView};
use crate::blockchain::{
    blocks_with_id, blocks_with_key, deref_seq, insert_block, node_index_from, nodes_wf, spec_longest, spec_push,
    walk, BlockType, Chain, ChainErr, ChainErrView,
};
use crate::p2p::network::NetAddr;
use crate::p2p::packet::Packet;
use vstd::prelude::*;

verus! {

/// The errors that a request from the front end can meet.
#[derive(Debug)]
pub enum BackendErr {
    OpCancelled,
    ChainErr(ChainErr),
}

/// A packet to send.
#[derive(Debug)]
pub enum Outgoing {
    /// To every connected node.
    Broadcast(Packet),
    /// To one node.
    Unicast(Packet, NetAddr),
}

/// What to do after a packet from a peer.
#[derive(Debug)]
pub enum PacketOutcome {
    /// Send these packets.
    Send(Vec<Outgoing>),
    /// The packet is for peer discovery.
    PeerDiscovery(Packet),
    /// The block does not fit the blockchain and nothing can be done with it.
    Fatal(ChainErr),
    /// The block was placed at `height`, not at the height `claimed` for it.
    WrongHeight { claimed: u64, height: usize },
}

/// `b` holds every block that `a` holds, at the same place.
pub open spec fn nodes_extend(a: Seq<Seq<BlockType>>, b: Seq<Seq<BlockType>>) -> bool {
    &&& a.len() <= b.len()
    &&& forall|k: int| 0 <= k < a.len() ==> #[trigger] a[k].len() <= b[k].len()
    &&& forall|k: int, j: int| 0 <= k < a.len() && 0 <= j < a[k].len() ==> #[trigger] b[k][j] == a[k][j]
}

pub proof fn lemma_extend_refl(a: Seq<Seq<BlockType>>)
    ensures
        nodes_extend(a, a),
{
}

pub proof fn lemma_extend_trans(a: Seq<Seq<BlockType>>, b: Seq<Seq<BlockType>>, c: Seq<Seq<BlockType>>)
    requires
        nodes_extend(a, b),
        nodes_extend(b, c),
    ensures
        nodes_extend(a, c),
{
    assert forall|k: int, j: int| 0 <= k < a.len() && 0 <= j < a[k].len() implies #[trigger] c[k][j] == a[k][j] by {
        assert(b[k][j] == a[k][j]);
        assert(a[k].len() <= b[k].len());
    }
    assert forall|k: int| 0 <= k < a.len() implies #[trigger] a[k].len() <= c[k].len() by {
        assert(b[k].len() <= c[k].len());
    }
}

pub proof fn lemma_insert_extends(a: Seq<Seq<BlockType>>, p: int, b: BlockType)
    requires
        0 <= p < a.len(),
    ensures
        nodes_extend(a, insert_block(a, p, b)),
{
    let m = insert_block(a, p, b);
    assert forall|k: int, j: int| 0 <= k < a.len() && 0 <= j < a[k].len() implies #[trigger] m[k][j] == a[k][j] by {
        if k == p + 1 {
            assert(m[k] == a[k].push(b));
        }
    }
    assert forall|k: int| 0 <= k < a.len() implies #[trigger] a[k].len() <= m[k].len() by {
        if k == p + 1 {
            assert(m[k] == a[k].push(b));
        }
    }
}

/// Some node of `nodes` holds `b`.
pub open spec fn chain_holds(nodes: Seq<Seq<BlockType>>, b: BlockType) -> bool {
    exists|k: int, j: int| 0 <= k < nodes.len() && 0 <= j < nodes[k].len() && #[trigger] nodes[k][j] == b
}

/// A block held before an extension is still held after it.
pub proof fn lemma_extend_holds(a: Seq<Seq<BlockType>>, b: Seq<Seq<BlockType>>, x: BlockType)
    requires
        nodes_extend(a, b),
        chain_holds(a, x),
    ensures
        chain_holds(b, x),
{
    let (k, j) = choose|k: int, j: int| 0 <= k < a.len() && 0 <= j < a[k].len() && #[trigger] a[k][j] == x;
    assert(b[k][j] == a[k][j]);
}

/// What a round of mining answers once the miner finished `b` (its
/// signature check passed when it was queued): the broadcast of `b` with its
/// height when it is pushed, nothing when its registration is no longer
/// unique, and any other refusal as the error.
pub open spec fn mined_outcome(nodes: Seq<Seq<BlockType>>, b: BlockType, r: Result<Vec<Outgoing>, ChainErr>) -> bool {
    match spec_push(nodes, b, true, true) {
        Ok(p) => r matches Ok(out) && out@ == seq![Outgoing::Broadcast(Packet::PostBlock(Some(b), (p + 1) as u64))],
        Err(ChainErrView::NonUniqueTransactionID) => r matches Ok(out) && out@.len() == 0,
        Err(e) => r matches Err(ce) && ce@ == e,
    }
}

/// The page of `s` that starts after `skip` items and holds at most `limit`.
pub open spec fn page<T>(s: Seq<T>, skip: int, limit: int) -> Seq<T> {
    let start = if skip < s.len() { skip } else { s.len() as int };
    let end = if limit < s.len() - start { start + limit } else { s.len() as int };
    s.subrange(start, end)
}

/// The size of a page of a list of `n` items: the items left after `skip`,
/// at most `limit` of them.
pub open spec fn page_len(n: int, skip: int, limit: int) -> int {
    if skip >= n {
        0
    } else if limit < n - skip {
        limit
    } else {
        n - skip
    }
}

/// A page holds the items of the list in the list's own order, starting at
/// position `skip`: its item `k` is item `skip + k` of the list, and it
/// holds as many as are left after `skip`, at most `limit`.
pub proof fn lemma_page_in_order<T>(s: Seq<T>, skip: int, limit: int)
    requires
        0 <= skip,
        0 <= limit,
    ensures
        page(s, skip, limit).len() == page_len(s.len() as int, skip, limit),
        forall|k: int| 0 <= k < page(s, skip, limit).len() ==> #[trigger] page(s, skip, limit)[k] == s[skip + k],
{
}

/// The transactions of a sequence of blocks, by contents.
pub open spec fn tx_views(s: Seq<BlockType>) -> Seq<TransactionView> {
    s.map_values(|b: BlockType| b.spec_data()@)
}

/// The contents of a sequence of transactions.
pub open spec fn tx_seq_views(s: Seq<Transaction>) -> Seq<TransactionView> {
    s.map_values(|t: Transaction| t@)
}

/// Copies the transactions of a page of blocks.
fn page_transactions(blocks: &Vec<&BlockType>, skip: usize, limit: usize) -> (r: Vec<Transaction>)
    ensures
        tx_seq_views(r@) == page(tx_views(deref_seq(blocks@)), skip as int, limit as int),
{
    let ghost s = tx_views(deref_seq(blocks@));
    let len = blocks.len();
    let start = if skip < len { skip } else { len };
    let end = if limit < len - start { start + limit } else { len };
    let mut out: Vec<Transaction> = Vec::new();
    let mut i: usize = start;
    while i < end
        invariant
            start <= i <= end <= len,
            len == blocks@.len(),
            s == tx_views(deref_seq(blocks@)),
            tx_seq_views(out@) == s.subrange(start as int, i as int),
        decreases end - i,
    {
        let ghost o0 = out@;
        let t = blocks[i].get_data().duplicate();
        assert(s[i as int] == t@);
        out.push(t);
        assert(tx_seq_views(out@) =~= tx_seq_views(o0).push(t@));
        assert(s.subrange(start as int, i + 1) =~= s.subrange(start as int, i as int).push(s[i as int]));
        i = i + 1;
    }
    out
}

/// The state of a node that the decisions need: the blockchain, the
/// miner, and the blocks waiting for their parent.
pub struct Backend {
    /// Blockchain
    chain: Chain,
    /// Miner
    miner: Miner,
    /// Block backlog, with the outcome of each block's signature check
    backlog: Vec<(BlockType, bool)>,
}

impl Backend {
    /// The blockchain.
    pub closed spec fn spec_chain(&self) -> Chain {
        self.chain
    }

    /// The miner.
    pub closed spec fn spec_miner(&self) -> Miner {
        self.miner
    }

    /// The backlog.
    pub closed spec fn spec_backlog(&self) -> Seq<(BlockType, bool)> {
        self.backlog@
    }

    /// The blockchain and the miner are well formed.
    pub open spec fn wf(&self) -> bool {
        self.spec_chain().wf() && self.spec_miner().wf()
    }

    /// A node whose blockchain holds only the genesis block with `genesis`.
    pub fn new(genesis: Transaction) -> (b: Backend)
        ensures
            b.wf(),
            b.spec_chain()@.len() == 1,
            b.spec_chain()@[0][0].spec_data() == genesis,
            b.spec_backlog().len() == 0,
    {
        Backend { chain: Chain::new(genesis), miner: Miner::new(), backlog: Vec::new() }
    }

    /// Returns the blockchain.
    pub fn get_chain(&self) -> (c: &Chain)
        ensures
            *c == self.spec_chain(),
    {
        &self.chain
    }

    /// Whether the miner is working on a block.
    pub fn is_mining(&self) -> (r: bool)
        ensures
            r == self.spec_miner().spec_mined() is Some,
    {
        self.miner.is_mining()
    }

    /// Returns the number of blocks waiting for their parent.
    pub fn backlog_len(&self) -> (n: usize)
        ensures
            n == self.spec_backlog().len(),
    {
        self.backlog.len()
    }

    /// The transactions of the longest chain for item `id`, after skipping
    /// `skip` of them, at most `limit`.
    pub fn query_id(&self, id: &str, limit: usize, skip: usize) -> (r: Vec<Transaction>)
        ensures
            tx_seq_views(r@) == page(
                tx_views(blocks_with_id(spec_longest(self.spec_chain()@), id@)),
                skip as int,
                limit as int,
            ),
            ({
                let bs = blocks_with_id(spec_longest(self.spec_chain()@), id@);
                &&& r@.len() == page_len(bs.len() as int, skip as int, limit as int)
                &&& forall|k: int| 0 <= k < r@.len() ==> #[trigger] r@[k]@ == bs[skip + k].spec_data()@
            }),
    {
        let blocks = self.chain.get_blocks_for_id(id);
        let r = page_transactions(&blocks, skip, limit);
        proof {
            let bs = blocks_with_id(spec_longest(self.spec_chain()@), id@);
            lemma_page_in_order(tx_views(bs), skip as int, limit as int);
            assert forall|k: int| 0 <= k < r@.len() implies #[trigger] r@[k]@ == bs[skip + k].spec_data()@ by {
                assert(tx_seq_views(r@)[k] == r@[k]@);
            }
        }
        r
    }

    /// The transactions of the longest chain that have `key` as input or
    /// output, after skipping `skip` of them, at most `limit`.
    pub fn query_pub_key(&self, key: &PubKey, limit: usize, skip: usize) -> (r: Vec<Transaction>)
        ensures
            tx_seq_views(r@) == page(
                tx_views(blocks_with_key(spec_longest(self.spec_chain()@), key@)),
                skip as int,
                limit as int,
            ),
            ({
                let bs = blocks_with_key(spec_longest(self.spec_chain()@), key@);
                &&& r@.len() == page_len(bs.len() as int, skip as int, limit as int)
                &&& forall|k: int| 0 <= k < r@.len() ==> #[trigger] r@[k]@ == bs[skip + k].spec_data()@
            }),
    {
        let blocks = self.chain.get_blocks_for_pub_key(key);
        let r = page_transactions(&blocks, skip, limit);
        proof {
            let bs = blocks_with_key(spec_longest(self.spec_chain()@), key@);
            lemma_page_in_order(tx_views(bs), skip as int, limit as int);
            assert forall|k: int| 0 <= k < r@.len() implies #[trigger] r@[k]@ == bs[skip + k].spec_data()@ by {
                assert(tx_seq_views(r@)[k] == r@[k]@);
            }
        }
        r
    }

    /// A new transaction from the front end: it is handed to the miner.
    /// Gives the answer for the front end (none when the parent block is
    /// missing) and the packet to broadcast (the transaction, when it was
    /// queued).
    pub fn create_transaction(&mut self, transaction: Transaction, signature_valid: bool) -> (r: (
        Option<Result<(), BackendErr>>,
        Option<Packet>,
    ))
        requires
            old(self).wf(),
        ensures
            final(self).wf(),
            final(self).spec_chain() == old(self).spec_chain(),
            final(self).spec_backlog() == old(self).spec_backlog(),
            final(self).spec_miner().spec_mined() == old(self).spec_miner().spec_mined(),
            r.1 is Some ==> {
                &&& final(self).spec_miner().spec_queue().len() == old(self).spec_miner().spec_queue().len() + 1
                &&& final(self).spec_miner().spec_queue().drop_last() == old(self).spec_miner().spec_queue()
                &&& final(self).spec_miner().spec_queue().last()@ == transaction@
            },
            r.1 is None ==> final(self).spec_miner().spec_queue() == old(self).spec_miner().spec_queue(),
            old(self).spec_miner().holds(transaction) ==> r.0 == Some(Ok::<(), BackendErr>(())) && r.1 is None,
            !old(self).spec_miner().holds(transaction) ==> match crate::blockchain::tx_check(
                old(self).spec_chain()@,
                crate::blockchain::bh(old(self).spec_chain()@.last()[0]),
                transaction@,
                signature_valid,
            ) {
                Ok(_) => r.0 == Some(Ok::<(), BackendErr>(())) && r.1 == Some(Packet::PostTx(transaction)),
                Err(ChainErrView::BadParent) => r.0 is None && r.1 is None,
                Err(e) => r.1 is None && (r.0 matches Some(Err(BackendErr::ChainErr(ce))) && ce@ == e),
            },
    {
        let copy = transaction.duplicate();
        match self.miner.push_transaction(&self.chain, copy, signature_valid) {
            PushResult::Invalid(e) => (Some(Err(BackendErr::ChainErr(e))), None),
            PushResult::Ignored => (Some(Ok(())), None),
            PushResult::MissingParent => (None, None),
            PushResult::Added => (Some(Ok(())), Some(Packet::PostTx(transaction))),
        }
    }

    /// Places every block of the backlog that now fits on the blockchain,
    /// over and over, until none of those left fits.
    pub fn handle_backlog(&mut self)
        requires
            old(self).wf(),
        ensures
            final(self).wf(),
            final(self).spec_miner() == old(self).spec_miner(),
            nodes_extend(old(self).spec_chain()@, final(self).spec_chain()@),
            forall|k: int|
                0 <= k < final(self).spec_backlog().len() ==> #[trigger] spec_push(
                    final(self).spec_chain()@,
                    final(self).spec_backlog()[k].0,
                    final(self).spec_backlog()[k].1,
                    true,
                ) is Err,
            drawn_from(final(self).spec_backlog(), old(self).spec_backlog()),
            forall|k: int|
                0 <= k < old(self).spec_backlog().len() ==> #[trigger] final(self).spec_backlog().contains(
                    old(self).spec_backlog()[k],
                ) || chain_holds(final(self).spec_chain()@, old(self).spec_backlog()[k].0),
            crate::blockchain::total_blocks(final(self).spec_chain()@) + final(self).spec_backlog().len()
                == crate::blockchain::total_blocks(old(self).spec_chain()@) + old(self).spec_backlog().len(),
    {
        let ghost orig = self.backlog@;
        let ghost orig_chain = self.chain@;
        let ghost orig_miner = self.miner;
        proof {
            lemma_extend_refl(self.chain@);
            assert forall|k: int| 0 <= k < orig.len() implies #[trigger] orig.contains(orig[k]) by {
                assert(orig[k] == orig[k]);
            }
        }
        loop
            invariant
                self.wf(),
                self.miner == orig_miner,
                nodes_extend(orig_chain, self.chain@),
                drawn_from(self.backlog@, orig),
                forall|k: int|
                    0 <= k < orig.len() ==> #[trigger] self.backlog@.contains(orig[k]) || chain_holds(self.chain@, orig[k].0),
                crate::blockchain::total_blocks(self.chain@) + self.backlog@.len()
                    == crate::blockchain::total_blocks(orig_chain) + orig.len(),
            ensures
                self.wf(),
                self.miner == orig_miner,
                nodes_extend(orig_chain, self.chain@),
                drawn_from(self.backlog@, orig),
                forall|k: int|
                    0 <= k < orig.len() ==> #[trigger] self.backlog@.contains(orig[k]) || chain_holds(self.chain@, orig[k].0),
                crate::blockchain::total_blocks(self.chain@) + self.backlog@.len()
                    == crate::blockchain::total_blocks(orig_chain) + orig.len(),
                forall|k: int|
                    0 <= k < self.backlog@.len() ==> #[trigger] spec_push(
                        self.chain@,
                        self.backlog@[k].0,
                        self.backlog@[k].1,
                        true,
                    ) is Err,
            decreases self.backlog@.len(),
        {
            let mut found: Option<usize> = None;
            let mut i: usize = 0;
            while i < self.backlog.len()
                invariant
                    i <= self.backlog@.len(),
                    self.chain.wf(),
                    found matches Some(f) ==> f < self.backlog@.len() && spec_push(
                        self.chain@,
                        self.backlog@[f as int].0,
                        self.backlog@[f as int].1,
                        true,
                    ) is Ok,
                    found is None ==> forall|k: int|
                        0 <= k < i ==> #[trigger] spec_push(
                            self.chain@,
                            self.backlog@[k].0,
                            self.backlog@[k].1,
                            true,
                        ) is Err,
                decreases self.backlog@.len() - i,
            {
                if found.is_none() {
                    let entry = &self.backlog[i];
                    if self.chain.could_push(&entry.0, false, entry.1).is_ok() {
                        found = Some(i);
                    }
                }
                i = i + 1;
            }
            match found {
                None => {
                    break;
                },
                Some(f) => {
                    let ghost c0 = self.chain@;
                    let ghost b0 = self.backlog@;
                    let (block, sig) = self.backlog.remove(f);
                    let ghost p = spec_push(c0, block, sig, true)->Ok_0;
                    proof {
                        crate::blockchain::lemma_push_adds_one_block(&self.chain, block, sig, true);
                    }
                    let r = self.chain.push(block, sig);
                    assert(r is Ok);
                    proof {
                        lemma_insert_extends(c0, p, block);
                        lemma_extend_trans(orig_chain, c0, self.chain@);
                        let m = self.chain@;
                        assert(m[p + 1][m[p + 1].len() - 1] == block);
                        assert(chain_holds(m, block));
                        assert forall|k: int| 0 <= k < orig.len() implies #[trigger] self.backlog@.contains(orig[k])
                            || chain_holds(self.chain@, orig[k].0) by {
                            if b0.contains(orig[k]) {
                                let i = choose|i: int| 0 <= i < b0.len() && b0[i] == orig[k];
                                if i < f {
                                    assert(self.backlog@[i] == b0[i]);
                                } else if i > f {
                                    assert(self.backlog@[i - 1] == b0[i]);
                                } else {
                                    assert(orig[k].0 == block);
                                }
                            } else {
                                lemma_extend_holds(c0, m, orig[k].0);
                            }
                        }
                        assert forall|k: int| 0 <= k < self.backlog@.len() implies #[trigger] orig.contains(self.backlog@[k]) by {
                            if k < f {
                                assert(self.backlog@[k] == b0[k]);
                                assert(orig.contains(b0[k]));
                            } else {
                                assert(self.backlog@[k] == b0[k + 1]);
                                assert(orig.contains(b0[k + 1]));
                            }
                        }
                    }
                },
            }
        }
    }

    /// One round of mining. A block that the miner finishes is pushed on
    /// the blockchain and broadcast with its height; its transaction passed
    /// its signature check when the miner queued it. A block whose
    /// registration is no longer unique is dropped; any other refusal is an
    /// error. The backlog is handled after a finished block.
    pub fn mine(&mut self) -> (r: Result<Vec<Outgoing>, ChainErr>)
        requires
            old(self).wf(),
        ensures
            final(self).wf(),
            nodes_extend(old(self).spec_chain()@, final(self).spec_chain()@),
            r matches Ok(out) ==> out@.len() <= 1,
            r matches Ok(out) ==> (out@.len() == 1 ==> (out@[0] matches Outgoing::Broadcast(
                Packet::PostBlock(Some(b), h),
            ) && {
                &&& crate::blockchain::hash::meets_difficulty(crate::blockchain::bh(b))
                &&& 1 <= h < final(self).spec_chain()@.len()
                &&& exists|j: int|
                    0 <= j < final(self).spec_chain()@[h as int].len() && block_eqv(
                        #[trigger] final(self).spec_chain()@[h as int][j],
                        b,
                    )
            })),
            old(self).spec_miner().spec_mined() is None && old(self).spec_miner().spec_queue().len() == 0 ==> (r matches Ok(
                out,
            ) && out@.len() == 0) && *final(self) == *old(self),
            old(self).spec_miner().spec_mined() matches Some(b) ==> if crate::blockchain::hash::meets_difficulty(
                crate::blockchain::bh(b),
            ) {
                mined_outcome(old(self).spec_chain()@, b, r)
            } else {
                &&& r matches Ok(out) && out@.len() == 0
                &&& final(self).spec_chain() == old(self).spec_chain()
                &&& final(self).spec_backlog() == old(self).spec_backlog()
            },
            old(self).spec_miner().spec_mined() is None && old(self).spec_miner().spec_queue().len() > 0 ==> {
                let t = old(self).spec_miner().spec_queue()[0];
                let parent = crate::blockchain::bh(old(self).spec_chain()@.last()[0]);
                &&& final(self).spec_miner().spec_queue() == old(self).spec_miner().spec_queue().drop_first()
                &&& match final(self).spec_miner().spec_mined() {
                    Some(m) => {
                        &&& m.spec_data() == t
                        &&& m.spec_parent()@ == parent
                        &&& m.spec_nonce() == 1
                        &&& !crate::blockchain::hash::meets_difficulty(m.hash_at_nonce(0))
                        &&& r matches Ok(out) && out@.len() == 0
                        &&& final(self).spec_chain() == old(self).spec_chain()
                        &&& final(self).spec_backlog() == old(self).spec_backlog()
                    },
                    None => exists|b: BlockType|
                        {
                            &&& b.spec_data() == t
                            &&& b.spec_parent()@ == parent
                            &&& b.spec_nonce() == 0
                            &&& crate::blockchain::hash::meets_difficulty(crate::blockchain::bh(b))
                            &&& #[trigger] mined_outcome(old(self).spec_chain()@, b, r)
                        },
                }
            },
    {
        let mut out: Vec<Outgoing> = Vec::new();
        let ghost c0 = self.chain@;
        let ghost mut witness: Option<BlockType> = None;
        proof {
            lemma_extend_refl(self.chain@);
        }
        match self.miner.mine(&self.chain) {
            Some(block) => {
                proof {
                    witness = Some(block);
                }
                let copy = block.duplicate();
                let ghost ch = self.chain;
                proof {
                    lemma_eqv_hash(copy, block);
                    assert(spec_push(c0, copy, true, true) == spec_push(c0, block, true, true));
                }
                match self.chain.push(copy, true) {
                    Ok(idx) => {
                        let ghost p = spec_push(c0, copy, true, true)->Ok_0;
                        proof {
                            crate::blockchain::lemma_push_adds_one_block(&ch, copy, true, true);
                            crate::blockchain::lemma_chain_len_bound(&ch);
                            lemma_insert_extends(c0, p, copy);
                            lemma_eqv_hash(copy, block);
                        }
                        let ghost c1 = self.chain@;
                        assert(c1 == insert_block(c0, p, copy));
                        assert(idx as int == p + 1);
                        assert(c1[p + 1].last() == copy);
                        let ghost j = c1[idx as int].len() - 1;
                        self.handle_backlog();
                        proof {
                            lemma_extend_trans(c0, c1, self.chain@);
                            assert(c1[idx as int][j] == copy);
                            assert(c1[idx as int].len() <= self.chain@[idx as int].len());
                            assert(block_eqv(self.chain@[idx as int][j], block));
                            assert(crate::blockchain::hash::meets_difficulty(crate::blockchain::bh(block)));
                        }
                        out.push(Outgoing::Broadcast(Packet::PostBlock(Some(block), idx as u64)));
                        proof {
                            let fc = self.chain@;
                            assert(1 <= idx < fc.len());
                            assert(exists|j2: int| 0 <= j2 < fc[idx as int].len() && block_eqv(#[trigger] fc[idx as int][j2], block));
                        }
                    },
                    Err(e) => {
                        match e {
                            ChainErr::NonUniqueTransactionID => {
                                self.handle_backlog();
                            },
                            _ => {
                                proof {
                                    assert(mined_outcome(c0, block, Err::<Vec<Outgoing>, ChainErr>(e)));
                                }
                                return Err(e);
                            },
                        }
                    },
                }
            },
            None => {},
        }
        let res = Ok(out);
        proof {
            if witness is Some {
                assert(mined_outcome(c0, witness->0, res));
            }
        }
        res
    }

    /// Queues a block whose parent is missing, and asks the peers for that parent.
    fn backlog_push(&mut self, block: BlockType, signature_valid: bool) -> (o: Outgoing)
        ensures
            final(self).spec_chain() == old(self).spec_chain(),
            final(self).spec_miner() == old(self).spec_miner(),
            final(self).spec_backlog() == old(self).spec_backlog().push((block, signature_valid)),
            o == Outgoing::Broadcast(Packet::GetBlockByHash(block.spec_parent())),
    {
        let packet = Packet::GetBlockByHash(*block.get_parent_hash());
        self.backlog.push((block, signature_valid));
        Outgoing::Broadcast(packet)
    }

    /// Removes from the backlog every entry equal to `block`.
    fn backlog_remove(&mut self, block: &BlockType)
        ensures
            final(self).spec_chain() == old(self).spec_chain(),
            final(self).spec_miner() == old(self).spec_miner(),
            final(self).spec_backlog() == without_block(old(self).spec_backlog(), *block),
    {
        let ghost b0 = self.backlog@;
        let mut kept: Vec<(BlockType, bool)> = Vec::new();
        let n = self.backlog.len();
        assert(b0.take(0) =~= Seq::<(BlockType, bool)>::empty());
        assert(b0.subrange(0, n as int) =~= b0);
        let mut i: usize = 0;
        while i < n
            invariant
                i <= n,
                n == b0.len(),
                self.backlog@ == b0.subrange(i as int, n as int),
                kept@ == without_block(b0.take(i as int), *block),
                self.chain == old(self).chain,
                self.miner == old(self).miner,
            decreases n - i,
        {
            let entry = self.backlog.remove(0);
            assert(entry == b0[i as int]);
            assert(self.backlog@ =~= b0.subrange(i + 1, n as int));
            let ghost tq = b0.take(i + 1);
            assert(tq.drop_last() =~= b0.take(i as int));
            assert(tq.last() == entry);
            if !entry.0.same_as(block) {
                kept.push(entry);
            }
            i = i + 1;
        }
        assert(b0.take(n as int) =~= b0);
        self.backlog = kept;
    }

    /// Handles a packet from the peer at `from`. `signature_valid` is what
    /// the signature check of the packet's transaction (the transaction of
    /// a posted block, or a posted transaction) answered.
    ///
    /// A posted block leaves the backlog; when it fits on the blockchain it
    /// is pushed (the miner forgets its transaction) and the backlog is
    /// handled; when its parent is missing it joins the backlog and the
    /// parent is asked for; otherwise nothing can be done with it. A request
    /// for a block is answered with the block, or with `None`. A posted
    /// transaction goes to the miner and, when queued, to every peer.
    /// Packets of peer discovery are handed back.
    pub fn handle_packet(&mut self, packet: Packet, from: NetAddr, signature_valid: bool) -> (r: PacketOutcome)
        requires
            old(self).wf(),
        ensures
            final(self).wf(),
            nodes_extend(old(self).spec_chain()@, final(self).spec_chain()@),
            match packet {
                Packet::PostBlock(Some(b), claimed) => if node_index_from(
                    old(self).spec_chain()@,
                    crate::blockchain::bh(b),
                    old(self).spec_chain()@.len() as int,
                ) is Some {
                    &&& final(self).spec_chain() == old(self).spec_chain()
                    &&& final(self).spec_miner() == old(self).spec_miner()
                    &&& final(self).spec_backlog() == without_block(old(self).spec_backlog(), b)
                    &&& r matches PacketOutcome::Send(v) && v@.len() == 0
                } else {
                    match spec_push(old(self).spec_chain()@, b, signature_valid, true) {
                    Err(ChainErrView::BadParent) => {
                        &&& final(self).spec_chain() == old(self).spec_chain()
                        &&& final(self).spec_miner() == old(self).spec_miner()
                        &&& final(self).spec_backlog() == without_block(old(self).spec_backlog(), b).push((b, signature_valid))
                        &&& r matches PacketOutcome::Send(v) && v@ == seq![Outgoing::Broadcast(Packet::GetBlockByHash(b.spec_parent()))]
                    },
                    Err(e) => {
                        &&& final(self).spec_chain() == old(self).spec_chain()
                        &&& final(self).spec_miner() == old(self).spec_miner()
                        &&& final(self).spec_backlog() == without_block(old(self).spec_backlog(), b)
                        &&& r matches PacketOutcome::Fatal(ce) && ce@ == e
                    },
                    Ok(p) => {
                        let placed = insert_block(old(self).spec_chain()@, p, b);
                        let waiting = without_block(old(self).spec_backlog(), b);
                        &&& nodes_extend(placed, final(self).spec_chain()@)
                        &&& after_recv(old(self).spec_miner(), final(self).spec_miner(), b)
                        &&& drawn_from(final(self).spec_backlog(), waiting)
                        &&& forall|k: int|
                            0 <= k < waiting.len() ==> #[trigger] final(self).spec_backlog().contains(waiting[k])
                                || chain_holds(final(self).spec_chain()@, waiting[k].0)
                        &&& crate::blockchain::total_blocks(final(self).spec_chain()@) + final(self).spec_backlog().len()
                            == crate::blockchain::total_blocks(old(self).spec_chain()@) + 1 + waiting.len()
                        &&& if claimed == p + 1 {
                            r matches PacketOutcome::Send(v) && v@.len() == 0
                        } else {
                            r == PacketOutcome::WrongHeight { claimed, height: (p + 1) as usize }
                        }
                        &&& forall|k: int|
                            0 <= k < final(self).spec_backlog().len() ==> #[trigger] spec_push(
                                final(self).spec_chain()@,
                                final(self).spec_backlog()[k].0,
                                final(self).spec_backlog()[k].1,
                                true,
                            ) is Err
                    },
                    }
                },
                Packet::PostBlock(None, _) => *final(self) == *old(self) && (r matches PacketOutcome::Send(v) && v@.len() == 0),
                Packet::GetBlock(idx) => {
                    let l = spec_longest(old(self).spec_chain()@);
                    &&& *final(self) == *old(self)
                    &&& r matches PacketOutcome::Send(v) && v@.len() == 1 && (v@[0] matches Outgoing::Unicast(
                        Packet::PostBlock(ob, i),
                        to,
                    ) && to == from && i == idx && if idx < l.len() {
                        ob matches Some(b) && block_eqv(b, l[idx as int])
                    } else {
                        ob is None
                    })
                },
                Packet::GetBlockByHash(h) => {
                    let w = walk(old(self).spec_chain()@, old(self).spec_chain()@.len() as int, h@);
                    &&& *final(self) == *old(self)
                    &&& r matches PacketOutcome::Send(v) && v@.len() == 1 && (v@[0] matches Outgoing::Unicast(
                        Packet::PostBlock(ob, i),
                        to,
                    ) && to == from && if w.len() > 0 {
                        i == w.len() - 1 && (ob matches Some(b) && block_eqv(b, w.last()))
                    } else {
                        i == 0 && ob is None
                    })
                },
                Packet::PostTx(t) => {
                    let added = !old(self).spec_miner().holds(t) && crate::blockchain::tx_check(
                        old(self).spec_chain()@,
                        crate::blockchain::bh(old(self).spec_chain()@.last()[0]),
                        t@,
                        signature_valid,
                    ) is Ok;
                    &&& final(self).spec_chain() == old(self).spec_chain()
                    &&& final(self).spec_backlog() == old(self).spec_backlog()
                    &&& final(self).spec_miner().spec_mined() == old(self).spec_miner().spec_mined()
                    &&& if added {
                        &&& final(self).spec_miner().spec_queue().len() == old(self).spec_miner().spec_queue().len() + 1
                        &&& final(self).spec_miner().spec_queue().drop_last() == old(self).spec_miner().spec_queue()
                        &&& final(self).spec_miner().spec_queue().last()@ == t@
                        &&& r matches PacketOutcome::Send(v) && v@ == seq![Outgoing::Broadcast(Packet::PostTx(t))]
                    } else {
                        &&& final(self).spec_miner().spec_queue() == old(self).spec_miner().spec_queue()
                        &&& r matches PacketOutcome::Send(v) && v@.len() == 0
                    }
                },
                Packet::CloseConnection() => *final(self) == *old(self) && (r matches PacketOutcome::Send(v) && v@.len() == 0),
                _ => *final(self) == *old(self) && (r matches PacketOutcome::PeerDiscovery(_)),
            },
    {
        proof {
            lemma_extend_refl(self.chain@);
        }
        match packet {
            Packet::PostBlock(block, idx) => {
                match block {
                    Some(block) => {
                        self.backlog_remove(&block);
                        let h = block.calc_hash();
                        if self.chain.contains_hash(&h) {
                            return PacketOutcome::Send(Vec::new());
                        }
                        assert(node_index_from(self.chain@, crate::blockchain::bh(block), self.chain@.len() as int) is None);
                        match self.chain.could_push(&block, false, signature_valid) {
                            Err(e) => {
                                match e {
                                    ChainErr::BadParent => {
                                        let o = self.backlog_push(block, signature_valid);
                                        let mut v: Vec<Outgoing> = Vec::new();
                                        v.push(o);
                                        PacketOutcome::Send(v)
                                    },
                                    _ => PacketOutcome::Fatal(e),
                                }
                            },
                            Ok(_) => {
                                self.miner.on_block_recv(&block);
                                let ghost c0 = self.chain@;
                                let ghost p = spec_push(c0, block, signature_valid, true)->Ok_0;
                                proof {
                                    crate::blockchain::lemma_push_adds_one_block(&self.chain, block, signature_valid, true);
                                }
                                let pushed = self.chain.push(block, signature_valid);
                                proof {
                                    lemma_insert_extends(c0, p, block);
                                }
                                let ghost c1 = self.chain@;
                                self.handle_backlog();
                                proof {
                                    lemma_extend_trans(c0, c1, self.chain@);
                                }
                                proof {
                                    crate::blockchain::lemma_chain_len_bound(&self.chain);
                                }
                                assert(pushed == Ok::<usize, ChainErr>((p + 1) as usize));
                                match pushed {
                                    Ok(height) => if idx == height as u64 {
                                        PacketOutcome::Send(Vec::new())
                                    } else {
                                        PacketOutcome::WrongHeight { claimed: idx, height }
                                    },
                                    Err(e) => PacketOutcome::Fatal(e),
                                }
                            },
                        }
                    },
                    None => PacketOutcome::Send(Vec::new()),
                }
            },
            Packet::GetBlock(idx) => {
                let longest_chain = self.chain.get_longest_chain();
                let mut v: Vec<Outgoing> = Vec::new();
                if idx < longest_chain.len() as u64 {
                    let blk = longest_chain[idx as usize].duplicate();
                    v.push(Outgoing::Unicast(Packet::PostBlock(Some(blk), idx), from));
                } else {
                    v.push(Outgoing::Unicast(Packet::PostBlock(None, idx), from));
                }
                PacketOutcome::Send(v)
            },
            Packet::GetBlockByHash(hash) => {
                let chain = self.chain.get_chain_for_block_hash(&hash);
                let mut v: Vec<Outgoing> = Vec::new();
                if chain.len() > 0 {
                    let block = chain[chain.len() - 1].duplicate();
                    v.push(Outgoing::Unicast(Packet::PostBlock(Some(block), (chain.len() - 1) as u64), from));
                } else {
                    v.push(Outgoing::Unicast(Packet::PostBlock(None, 0), from));
                }
                PacketOutcome::Send(v)
            },
            Packet::PostTx(transaction) => {
                let copy = transaction.duplicate();
                let mut v: Vec<Outgoing> = Vec::new();
                match self.miner.push_transaction(&self.chain, copy, signature_valid) {
                    PushResult::Added => {
                        v.push(Outgoing::Broadcast(Packet::PostTx(transaction)));
                    },
                    _ => {},
                }
                PacketOutcome::Send(v)
            },
            Packet::CloseConnection() => PacketOutcome::Send(Vec::new()),
            p => PacketOutcome::PeerDiscovery(p),
        }
    }

    /// A step of the first download of the blockchain from the peer at
    /// `target`, which is asked for the blocks of its longest chain one
    /// height after the other, from height 1; `cur_idx` is the height asked
    /// for. Packets from other peers are dropped. The block at the height
    /// asked for is pushed and the next height is asked for; an answer
    /// without a block ends the download. A request for a block is answered
    /// that there is none.
    pub fn sync_on_packet(
        &mut self,
        cur_idx: u64,
        packet: Packet,
        from: NetAddr,
        target: NetAddr,
        signature_valid: bool,
    ) -> (r: SyncStep)
        requires
            old(self).wf(),
            cur_idx < u64::MAX,
        ensures
            final(self).wf(),
            nodes_extend(old(self).spec_chain()@, final(self).spec_chain()@),
            from != target ==> r is Ignore && *final(self) == *old(self),
            from == target ==> match packet {
                Packet::PostBlock(Some(b), i) => if i == cur_idx {
                    &&& after_recv(old(self).spec_miner(), final(self).spec_miner(), b)
                    &&& final(self).spec_backlog() == old(self).spec_backlog()
                    &&& match spec_push(old(self).spec_chain()@, b, signature_valid, true) {
                        Ok(p) => r == SyncStep::Request((cur_idx + 1) as u64)
                            && final(self).spec_chain()@ == insert_block(old(self).spec_chain()@, p, b),
                        Err(e) => (r matches SyncStep::Fatal(ce) && ce@ == e)
                            && final(self).spec_chain()@ == old(self).spec_chain()@,
                    }
                } else {
                    r is Ignore && *final(self) == *old(self)
                },
                Packet::PostBlock(None, i) => (if i == cur_idx { r is Done } else { r is Ignore })
                    && *final(self) == *old(self),
                Packet::GetBlock(i) => r == SyncStep::Reply(Outgoing::Unicast(Packet::PostBlock(None, i), from))
                    && *final(self) == *old(self),
                _ => r is Ignore && *final(self) == *old(self),
            },
    {
        proof {
            lemma_extend_refl(self.chain@);
        }
        if from != target {
            return SyncStep::Ignore;
        }
        match packet {
            Packet::PostBlock(block, idx) => {
                if idx != cur_idx {
                    return SyncStep::Ignore;
                }
                match block {
                    Some(block) => {
                        self.miner.on_block_recv(&block);
                        let ghost c0 = self.chain@;
                        let ghost ch = self.chain;
                        match self.chain.push(block, signature_valid) {
                            Ok(_) => {
                                proof {
                                    let p = spec_push(c0, block, signature_valid, true)->Ok_0;
                                    crate::blockchain::lemma_push_adds_one_block(&ch, block, signature_valid, true);
                                    lemma_insert_extends(c0, p, block);
                                }
                                SyncStep::Request(cur_idx + 1)
                            },
                            Err(e) => SyncStep::Fatal(e),
                        }
                    },
                    None => SyncStep::Done,
                }
            },
            Packet::GetBlock(idx) => SyncStep::Reply(Outgoing::Unicast(Packet::PostBlock(None, idx), from)),
            _ => SyncStep::Ignore,
        }
    }
}

/// What the first download of the blockchain does next.
#[derive(Debug)]
pub enum SyncStep {
    /// Ask the peer for the block at this height.
    Request(u64),
    /// Send this answer.
    Reply(Outgoing),
    /// The download is complete.
    Done,
    /// Nothing to do.
    Ignore,
    /// A block of the peer does not fit the blockchain.
    Fatal(ChainErr),
}

/// The entries of a backlog that are not equal to `b`, in order.
pub open spec fn without_block(s: Seq<(BlockType, bool)>, b: BlockType) -> Seq<(BlockType, bool)>
    decreases s.len(),
{
    if s.len() == 0 {
        seq![]
    } else if same_block(s.last().0, b) {
        without_block(s.drop_last(), b)
    } else {
        without_block(s.drop_last(), b).push(s.last())
    }
}

/// Blocks are equal: the same parent, timestamp and nonces, and
/// transactions with the same signature.
pub open spec fn same_block(a: BlockType, b: BlockType) -> bool {
    &&& a.spec_parent()@ == b.spec_parent()@
    &&& a.spec_timestamp() == b.spec_timestamp()
    &&& a.spec_rand_nonce() == b.spec_rand_nonce()
    &&& a.spec_nonce() == b.spec_nonce()
    &&& a.spec_data()@.signature == b.spec_data()@.signature
}

/// Every entry of `a` is an entry of `b`.
pub open spec fn drawn_from<T>(a: Seq<T>, b: Seq<T>) -> bool {
    forall|k: int| 0 <= k < a.len() ==> #[trigger] b.contains(a[k])
}

} // verus!
