//! The miner: a queue of transactions waiting to be sealed into blocks, and
//! the block that is being mined.

use crate::blockchain::block::Block;
use crate::blockchain::hash::meets_difficulty;
use crate::blockchain::transaction::Transaction;
use crate::blockchain::{bh, tx_check, BlockType, Chain, ChainErr, ChainErrView};
use std::collections::VecDeque;
use vstd::prelude::*;

verus! {

/// What became of a transaction handed to the miner.
#[derive(Debug)]
pub enum PushResult {
    /// The transaction cannot be placed on the chain.
    Invalid(ChainErr),
    /// The parent block is missing.
    MissingParent,
    /// The transaction was queued.
    Added,
    /// The transaction is already queued or being mined.
    Ignored,
}

/// The outcome of a push, by kind: `None` for `Ignored`.
pub enum PushResultView {
    Invalid(ChainErrView),
    MissingParent,
    Added,
    Ignored,
}

impl View for PushResult {
    type V = PushResultView;

    open spec fn view(&self) -> PushResultView {
        match self {
            PushResult::Invalid(e) => PushResultView::Invalid(e@),
            PushResult::MissingParent => PushResultView::MissingParent,
            PushResult::Added => PushResultView::Added,
            PushResult::Ignored => PushResultView::Ignored,
        }
    }
}

/// The signatures of transactions in a queue.
pub open spec fn queued_sig(q: Seq<Transaction>, sig: Seq<u8>) -> bool {
    exists|i: int| 0 <= i < q.len() && #[trigger] q[i]@.signature == sig
}

/// The transactions of `q` whose signature is not `sig`, in order.
pub open spec fn without_sig(q: Seq<Transaction>, sig: Seq<u8>) -> Seq<Transaction>
    decreases q.len(),
{
    if q.len() == 0 {
        seq![]
    } else if q.last()@.signature == sig {
        without_sig(q.drop_last(), sig)
    } else {
        without_sig(q.drop_last(), sig).push(q.last())
    }
}

/// The queue without `sig` holds no transaction with that signature, holds
/// only transactions of the queue, and keeps distinct signatures distinct.
pub proof fn lemma_without_sig(q: Seq<Transaction>, sig: Seq<u8>)
    ensures
        forall|a: int| 0 <= a < without_sig(q, sig).len() ==> #[trigger] without_sig(q, sig)[a]@.signature != sig,
        forall|a: int|
            0 <= a < without_sig(q, sig).len() ==> exists|b: int| 0 <= b < q.len() && q[b] == #[trigger] without_sig(q, sig)[a],
        (forall|i: int, j: int| 0 <= i < j < q.len() ==> #[trigger] q[i]@.signature != #[trigger] q[j]@.signature)
            ==> (forall|i: int, j: int|
            0 <= i < j < without_sig(q, sig).len() ==> #[trigger] without_sig(q, sig)[i]@.signature
                != #[trigger] without_sig(q, sig)[j]@.signature),
    decreases q.len(),
{
    if q.len() > 0 {
        let q1 = q.drop_last();
        lemma_without_sig(q1, sig);
        let w1 = without_sig(q1, sig);
        let w = without_sig(q, sig);
        assert forall|a: int| 0 <= a < w.len() implies exists|b: int| 0 <= b < q.len() && q[b] == #[trigger] w[a] by {
            if a < w1.len() {
                let b = choose|b: int| 0 <= b < q1.len() && q1[b] == w1[a];
                assert(q[b] == w[a]);
            } else {
                assert(q[q.len() - 1] == w[a]);
            }
        }
        if forall|i: int, j: int| 0 <= i < j < q.len() ==> #[trigger] q[i]@.signature != #[trigger] q[j]@.signature {
            assert forall|i: int, j: int| 0 <= i < j < q1.len() implies #[trigger] q1[i]@.signature != #[trigger] q1[j]@.signature by {
                assert(q1[i] == q[i] && q1[j] == q[j]);
            }
            assert forall|i: int, j: int| 0 <= i < j < w.len() implies #[trigger] w[i]@.signature != #[trigger] w[j]@.signature by {
                if j >= w1.len() {
                    let b = choose|b: int| 0 <= b < q1.len() && q1[b] == w1[i];
                    assert(q[b] == w1[i]);
                    assert(w[j] == q.last());
                }
            }
        }
    }
}

/// The miner `post` is `pre` after `block` arrived from elsewhere: the
/// block's transaction is no longer mined nor queued.
pub open spec fn after_recv(pre: Miner, post: Miner, block: BlockType) -> bool {
    &&& post.spec_mined() == match pre.spec_mined() {
        Some(m) => if m.spec_data()@.signature == block.spec_data()@.signature {
            None
        } else {
            Some(m)
        },
        None => None,
    }
    &&& post.spec_queue() == without_sig(pre.spec_queue(), block.spec_data()@.signature)
}

/// The miner.
pub struct Miner {
    /// Transaction queue
    queue: VecDeque<Transaction>,
    /// Block being mined
    mined: Option<BlockType>,
}

impl Miner {
    /// The queued transactions, front first.
    pub closed spec fn spec_queue(&self) -> Seq<Transaction> {
        self.queue@
    }

    /// The block being mined.
    pub closed spec fn spec_mined(&self) -> Option<BlockType> {
        self.mined
    }

    /// No transaction is held twice: the queued transactions have distinct
    /// signatures, none of them that of the block being mined.
    pub open spec fn wf(&self) -> bool {
        &&& forall|i: int, j: int|
            0 <= i < j < self.spec_queue().len() ==> #[trigger] self.spec_queue()[i]@.signature
                != #[trigger] self.spec_queue()[j]@.signature
        &&& self.spec_mined() matches Some(m) ==> !queued_sig(self.spec_queue(), m.spec_data()@.signature)
    }

    /// Whether `t` is already held, queued or being mined.
    pub open spec fn holds(&self, t: Transaction) -> bool {
        ||| self.spec_mined() matches Some(m) && m.spec_data()@.signature == t@.signature
        ||| queued_sig(self.spec_queue(), t@.signature)
    }

    /// A miner with an empty queue and no block being mined.
    pub fn new() -> (m: Miner)
        ensures
            m.wf(),
            m.spec_queue() == Seq::<Transaction>::empty(),
            m.spec_mined() is None,
    {
        Miner { queue: VecDeque::new(), mined: None }
    }

    /// Whether a block is being mined.
    pub fn is_mining(&self) -> (r: bool)
        ensures
            r == self.spec_mined() is Some,
    {
        self.mined.is_some()
    }

    /// Hands a transaction to the miner. One that is already held is
    /// ignored; otherwise it is checked, as the data of a block above the
    /// last block of the longest chain, and queued when it passes.
    /// `signature_valid` is what the signature check of `transaction` answered.
    pub fn push_transaction(&mut self, chain: &Chain, transaction: Transaction, signature_valid: bool) -> (r: PushResult)
        requires
            old(self).wf(),
            chain.wf(),
        ensures
            final(self).wf(),
            final(self).spec_mined() == old(self).spec_mined(),
            old(self).holds(transaction) ==> r@ == PushResultView::Ignored && final(self).spec_queue() == old(self).spec_queue(),
            !old(self).holds(transaction) ==> match tx_check(chain@, bh(chain@.last()[0]), transaction@, signature_valid) {
                Ok(_) => r@ == PushResultView::Added && final(self).spec_queue() == old(self).spec_queue().push(transaction),
                Err(ChainErrView::BadParent) => r@ == PushResultView::MissingParent && final(self).spec_queue() == old(self).spec_queue(),
                Err(e) => r@ == PushResultView::Invalid(e) && final(self).spec_queue() == old(self).spec_queue(),
            },
    {
        let mut ignore = false;
        if let Some(mined) = &self.mined {
            if mined.get_data().same_as(&transaction) {
                ignore = true;
            }
        }
        let mut i: usize = 0;
        while i < self.queue.len()
            invariant
                i <= self.queue@.len(),
                ignore == ((self.mined matches Some(m) && m.spec_data()@.signature == transaction@.signature)
                    || exists|k: int| 0 <= k < i && #[trigger] self.queue@[k]@.signature == transaction@.signature),
            decreases self.queue@.len() - i,
        {
            if self.queue[i].same_as(&transaction) {
                ignore = true;
            }
            i = i + 1;
        }
        if !ignore {
            let last_hash = chain.get_last_block().calc_hash();
            let block = Block::new(last_hash, transaction.duplicate());
            match chain.could_push(&block, true, signature_valid) {
                Err(e) => {
                    match e {
                        ChainErr::BadParent => {
                            return PushResult::MissingParent;
                        },
                        _ => {
                            return PushResult::Invalid(e);
                        },
                    }
                },
                Ok(_) => {
                    proof {
                        assert forall|a: int, b: int|
                            0 <= a < b < self.queue@.len() + 1 implies #[trigger] self.queue@.push(transaction)[a]@.signature
                                != #[trigger] self.queue@.push(transaction)[b]@.signature by {
                            if b == self.queue@.len() {
                                assert(self.queue@[a]@.signature != transaction@.signature);
                            }
                        }
                        if self.mined is Some {
                            let m = self.mined->0;
                            assert forall|k: int| 0 <= k < self.queue@.len() + 1 implies #[trigger] self.queue@.push(transaction)[k]@.signature
                                != m.spec_data()@.signature by {
                                if k < self.queue@.len() {
                                    assert(self.queue@[k]@.signature != m.spec_data()@.signature);
                                }
                            }
                        }
                    }
                    self.queue.push_back(transaction);
                    return PushResult::Added;
                },
            }
        }
        PushResult::Ignored
    }

    /// One round of mining. When nothing is being mined, the transaction at
    /// the front of the queue is taken and placed in a new block above the
    /// last block of the longest chain. The block being mined then gets one
    /// step of proof of work; a block whose hash meets the difficulty is
    /// handed out and no longer mined.
    pub fn mine(&mut self, chain: &Chain) -> (r: Option<BlockType>)
        requires
            old(self).wf(),
            chain.wf(),
        ensures
            final(self).wf(),
            old(self).spec_mined() is None && old(self).spec_queue().len() == 0 ==> r is None && *final(self) == *old(self),
            old(self).spec_mined() is None && old(self).spec_queue().len() > 0 ==> {
                &&& final(self).spec_queue() == old(self).spec_queue().drop_first()
                &&& match r {
                    Some(b) => {
                        &&& final(self).spec_mined() is None
                        &&& meets_difficulty(bh(b))
                        &&& b.spec_data() == old(self).spec_queue()[0]
                        &&& b.spec_parent()@ == bh(chain@.last()[0])
                        &&& b.spec_nonce() == 0
                    },
                    None => (final(self).spec_mined() matches Some(m) && {
                        &&& m.spec_data() == old(self).spec_queue()[0]
                        &&& m.spec_parent()@ == bh(chain@.last()[0])
                        &&& m.spec_nonce() == 1
                        &&& !meets_difficulty(m.hash_at_nonce(0))
                    }),
                }
            },
            old(self).spec_mined() matches Some(b) ==> {
                &&& final(self).spec_queue() == old(self).spec_queue()
                &&& meets_difficulty(bh(b)) ==> r == Some(b) && final(self).spec_mined() is None
                &&& !meets_difficulty(bh(b)) ==> r is None && (final(self).spec_mined() matches Some(m) && (
                    if b.spec_nonce() < u64::MAX {
                        b.with_nonce(&m, (b.spec_nonce() + 1) as u64)
                    } else {
                        m == b
                    }))
            },
    {
        if self.queue.len() > 0 && self.mined.is_none() {
            let tx = self.queue.pop_front().unwrap();
            let last_hash = chain.get_last_block().calc_hash();
            self.mined = Some(Block::new(last_hash, tx));
        }
        let mut did_mine = false;
        if let Some(block) = &mut self.mined {
            if chain.mine_step(block) {
                did_mine = true;
            }
        }
        if did_mine {
            let block = self.mined.take();
            return block;
        }
        None
    }

    /// Handles a block that arrived from elsewhere: its transaction is no
    /// longer mined nor queued.
    pub fn on_block_recv(&mut self, block: &BlockType)
        requires
            old(self).wf(),
        ensures
            final(self).wf(),
            after_recv(*old(self), *final(self), *block),
    {
        let reset = match &self.mined {
            Some(b) => b.get_data().same_as(block.get_data()),
            None => false,
        };
        if reset {
            self.mined = None;
        }
        let ghost q0 = self.queue@;
        let ghost sig = block.spec_data()@.signature;
        let n = self.queue.len();
        let mut kept: VecDeque<Transaction> = VecDeque::new();
        let mut i: usize = 0;
        assert(q0.take(0) =~= Seq::<Transaction>::empty());
        assert(q0.subrange(0, n as int) =~= q0);
        while i < n
            invariant
                i <= n,
                n == q0.len(),
                sig == block.spec_data()@.signature,
                self.queue@ == q0.subrange(i as int, n as int),
                kept@ == without_sig(q0.take(i as int), sig),
                self.mined == if reset { None } else { old(self).mined },
            decreases n - i,
        {
            assert(q0.take(i + 1).drop_last() =~= q0.take(i as int));
            let ghost before = self.queue@;
            let t = self.queue.pop_front().unwrap();
            assert(t == before[0]);
            assert(t == q0[i as int]);
            assert(q0.take(i + 1).last() == t);
            assert(self.queue@ =~= q0.subrange(i + 1, n as int));
            let ghost k0 = kept@;
            let ghost tq = q0.take(i + 1);
            assert(tq.drop_last() =~= q0.take(i as int));
            assert(tq.last() == t);
            if !t.same_as(block.get_data()) {
                kept.push_back(t);
                assert(without_sig(tq, sig) == without_sig(tq.drop_last(), sig).push(tq.last()));
            } else {
                assert(without_sig(tq, sig) == without_sig(tq.drop_last(), sig));
            }
            i = i + 1;
        }
        assert(q0.take(i as int) =~= q0);
        self.queue = kept;
        proof {
            lemma_without_sig(q0, sig);
            if !reset && self.mined is Some {
                let m = self.mined->0;
                assert forall|k: int| 0 <= k < self.queue@.len() implies #[trigger] self.queue@[k]@.signature != m.spec_data()@.signature by {
                    let b = choose|b: int| 0 <= b < q0.len() && q0[b] == self.queue@[k];
                    assert(q0[b]@.signature != m.spec_data()@.signature);
                }
            }
        }
    }
}

} // verus!
