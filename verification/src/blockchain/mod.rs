//! The blockchain: a list of nodes, one per height, each holding the blocks
//! that stand at that height. A block at height `k + 1` has its parent at
//! height `k`; the longest chain runs from the first block of the last node
//! down to the genesis block.

pub mod block;
pub mod dot;
pub mod hash;
pub mod miner;
pub mod transaction;
pub mod util;

use crate::blockchain::block::Block;
use crate::blockchain::hash::{hash_meets_difficulty, meets_difficulty, EMPTY_HASH};
use crate::blockchain::transaction::{spec_verify, PubKey, Transaction, TransactionView};
use crate::blockchain::util::bytes_eq;
use vstd::prelude::*;

verus! {

/// The blocks that the blockchain stores.
pub type BlockType = Block<Transaction>;

/// The errors that pushing a block can meet.
#[derive(Debug)]
pub enum ChainErr {
    BadParent,
    NonUniqueTransactionID,
    BadTransaction(String),
    BadHash,
}

/// A `ChainErr`, with its message by value.
pub enum ChainErrView {
    BadParent,
    NonUniqueTransactionID,
    BadTransaction(Seq<char>),
    BadHash,
}

impl View for ChainErr {
    type V = ChainErrView;

    open spec fn view(&self) -> ChainErrView {
        match self {
            ChainErr::BadParent => ChainErrView::BadParent,
            ChainErr::NonUniqueTransactionID => ChainErrView::NonUniqueTransactionID,
            ChainErr::BadTransaction(m) => ChainErrView::BadTransaction(m@),
            ChainErr::BadHash => ChainErrView::BadHash,
        }
    }
}

/// The message of a transfer whose input is not the latest owner of the item.
pub open spec fn not_latest_msg() -> Seq<char> {
    "Transaction input referes to a transaction that is not the latest"@
}

/// The message of a transfer whose input no earlier block hands out.
pub open spec fn no_parent_msg() -> Seq<char> {
    "Transaction input refers to a transaction that does not exist in any previous block"@
}

/// The hash of a block.
pub open spec fn bh(b: BlockType) -> Seq<u8> {
    b.spec_hash()
}

/// The first index at or after `i` of a block of `s` whose hash is `h`.
pub open spec fn find_from(s: Seq<BlockType>, h: Seq<u8>, i: int) -> Option<int>
    decreases s.len() - i,
{
    if i < 0 || i >= s.len() {
        None
    } else if bh(s[i]) == h {
        Some(i)
    } else {
        find_from(s, h, i + 1)
    }
}

/// The chain that ends in the block with hash `h`, looked for in the nodes
/// below `n`: from the highest such node down, each node contributes its
/// first block with the hash sought, and the search goes on with that
/// block's parent.
pub open spec fn walk(nodes: Seq<Seq<BlockType>>, n: int, h: Seq<u8>) -> Seq<BlockType>
    decreases n,
{
    if n <= 0 {
        seq![]
    } else {
        match find_from(nodes[n - 1], h, 0) {
            Some(j) => walk(nodes, n - 1, nodes[n - 1][j].spec_parent()@).push(nodes[n - 1][j]),
            None => walk(nodes, n - 1, h),
        }
    }
}

/// The highest node below `i` that holds a block with hash `h`.
pub open spec fn node_index_from(nodes: Seq<Seq<BlockType>>, h: Seq<u8>, i: int) -> Option<int>
    decreases i,
{
    if i <= 0 {
        None
    } else if find_from(nodes[i - 1], h, 0) is Some {
        Some(i - 1)
    } else {
        node_index_from(nodes, h, i - 1)
    }
}

/// Whether some block of the blockchain has a transaction for item `id`.
pub open spec fn id_used(nodes: Seq<Seq<BlockType>>, id: Seq<char>) -> bool {
    exists|k: int, j: int|
        0 <= k < nodes.len() && 0 <= j < nodes[k].len() && #[trigger] nodes[k][j].spec_data()@.id == id
}

/// The highest index below `i` of a block of `s` for item `id`.
pub open spec fn last_with_id(s: Seq<BlockType>, id: Seq<char>, i: int) -> Option<int>
    decreases i,
{
    if i <= 0 {
        None
    } else if s[i - 1].spec_data()@.id == id {
        Some(i - 1)
    } else {
        last_with_id(s, id, i - 1)
    }
}

/// The highest index below `i` of a block of `s` whose output key is `key`.
pub open spec fn last_with_output(s: Seq<BlockType>, key: Seq<u8>, i: int) -> Option<int>
    decreases i,
{
    if i <= 0 {
        None
    } else if s[i - 1].spec_data()@.output == key {
        Some(i - 1)
    } else {
        last_with_output(s, key, i - 1)
    }
}

/// The longest chain: the chain ending in the first block of the last node.
pub open spec fn spec_longest(nodes: Seq<Seq<BlockType>>) -> Seq<BlockType> {
    if nodes.len() > 0 && nodes.last().len() > 0 {
        walk(nodes, nodes.len() as int, bh(nodes.last()[0]))
    } else {
        seq![]
    }
}

/// The number of blocks in all nodes.
pub open spec fn total_blocks(nodes: Seq<Seq<BlockType>>) -> int
    decreases nodes.len(),
{
    if nodes.len() == 0 {
        0
    } else {
        total_blocks(nodes.drop_last()) + nodes.last().len()
    }
}

/// The blocks of `s` for item `id`, in order.
pub open spec fn blocks_with_id(s: Seq<BlockType>, id: Seq<char>) -> Seq<BlockType>
    decreases s.len(),
{
    if s.len() == 0 {
        seq![]
    } else if s.last().spec_data()@.id == id {
        blocks_with_id(s.drop_last(), id).push(s.last())
    } else {
        blocks_with_id(s.drop_last(), id)
    }
}

/// Whether the transaction of `b` has `key` as input or as output.
pub open spec fn involves_key(b: BlockType, key: Seq<u8>) -> bool {
    b.spec_data()@.input == Some(key) || b.spec_data()@.output == key
}

/// The blocks of `s` whose transaction involves `key`, in order.
pub open spec fn blocks_with_key(s: Seq<BlockType>, key: Seq<u8>) -> Seq<BlockType>
    decreases s.len(),
{
    if s.len() == 0 {
        seq![]
    } else if involves_key(s.last(), key) {
        blocks_with_key(s.drop_last(), key).push(s.last())
    } else {
        blocks_with_key(s.drop_last(), key)
    }
}

/// The blocks for an item are exactly the blocks of `s` whose transaction is
/// for that item, in the order of `s`: block `k` of the result stands at
/// position `idx[k]` of `s`, the positions increase, and every block of `s`
/// for the item is among them.
pub proof fn lemma_blocks_with_id_in_order(s: Seq<BlockType>, x: Seq<char>) -> (idx: Seq<int>)
    ensures
        idx.len() == blocks_with_id(s, x).len(),
        forall|k: int|
            0 <= k < idx.len() ==> 0 <= #[trigger] idx[k] < s.len() && s[idx[k]] == blocks_with_id(s, x)[k] && s[idx[k]].spec_data()@.id == x,
        forall|k1: int, k2: int| 0 <= k1 < k2 < idx.len() ==> #[trigger] idx[k1] < #[trigger] idx[k2],
        forall|j: int| 0 <= j < s.len() && #[trigger] s[j].spec_data()@.id == x ==> idx.contains(j),
    decreases s.len(),
{
    if s.len() == 0 {
        Seq::<int>::empty()
    } else {
        let s1 = s.drop_last();
        let sub = lemma_blocks_with_id_in_order(s1, x);
        let last = s.len() - 1;
        assert forall|k: int| 0 <= k < sub.len() implies s[sub[k]] == s1[sub[k]] by {}
        if s.last().spec_data()@.id == x {
            let idx = sub.push(last);
            assert forall|j: int| 0 <= j < s.len() && #[trigger] s[j].spec_data()@.id == x implies idx.contains(j) by {
                if j < last {
                    assert(s1[j] == s[j]);
                    let k = choose|k: int| 0 <= k < sub.len() && sub[k] == j;
                    assert(idx[k] == j);
                } else {
                    assert(idx[sub.len() as int] == j);
                }
            }
            idx
        } else {
            assert forall|j: int| 0 <= j < s.len() && #[trigger] s[j].spec_data()@.id == x implies sub.contains(j) by {
                assert(j < last);
                assert(s1[j] == s[j]);
            }
            sub
        }
    }
}

/// The blocks for a key are exactly the blocks of `s` whose transaction has
/// the key as input or output, in the order of `s`: block `k` of the result
/// stands at position `idx[k]` of `s`, the positions increase, and every
/// such block of `s` is among them.
pub proof fn lemma_blocks_with_key_in_order(s: Seq<BlockType>, x: Seq<u8>) -> (idx: Seq<int>)
    ensures
        idx.len() == blocks_with_key(s, x).len(),
        forall|k: int|
            0 <= k < idx.len() ==> 0 <= #[trigger] idx[k] < s.len() && s[idx[k]] == blocks_with_key(s, x)[k] && (s[idx[k]].spec_data()@.input == Some(x) || s[idx[k]].spec_data()@.output == x),
        forall|k1: int, k2: int| 0 <= k1 < k2 < idx.len() ==> #[trigger] idx[k1] < #[trigger] idx[k2],
        forall|j: int|
            #![trigger s[j]]
            0 <= j < s.len() && (s[j].spec_data()@.input == Some(x) || s[j].spec_data()@.output == x) ==> idx.contains(j),
    decreases s.len(),
{
    if s.len() == 0 {
        Seq::<int>::empty()
    } else {
        let s1 = s.drop_last();
        let sub = lemma_blocks_with_key_in_order(s1, x);
        let last = s.len() - 1;
        assert forall|k: int| 0 <= k < sub.len() implies s[sub[k]] == s1[sub[k]] by {}
        if involves_key(s.last(), x) {
            let idx = sub.push(last);
            assert forall|j: int| #![trigger s[j]] 0 <= j < s.len() && (s[j].spec_data()@.input == Some(x) || s[j].spec_data()@.output == x) implies idx.contains(j) by {
                if j < last {
                    assert(s1[j] == s[j]);
                    let k = choose|k: int| 0 <= k < sub.len() && sub[k] == j;
                    assert(idx[k] == j);
                } else {
                    assert(idx[sub.len() as int] == j);
                }
            }
            idx
        } else {
            assert forall|j: int| #![trigger s[j]] 0 <= j < s.len() && (s[j].spec_data()@.input == Some(x) || s[j].spec_data()@.output == x) implies sub.contains(j) by {
                assert(j < last);
                assert(s1[j] == s[j]);
            }
            sub
        }
    }
}

/// The blocks that a sequence of references points at.
pub open spec fn deref_seq(s: Seq<&BlockType>) -> Seq<BlockType> {
    s.map_values(|r: &BlockType| *r)
}

/// The nodes after `b` has been placed above its parent, which stands in node `p`.
pub open spec fn insert_block(nodes: Seq<Seq<BlockType>>, p: int, b: BlockType) -> Seq<Seq<BlockType>> {
    if p + 1 >= nodes.len() {
        nodes.push(seq![b])
    } else {
        nodes.update(p + 1, nodes[p + 1].push(b))
    }
}

/// The outcome of placing a block with parent hash `parent` and
/// transaction `t`, ignoring its hash: the node of its parent, or the
/// error, given what the signature check of `t` answered.
pub open spec fn tx_check(nodes: Seq<Seq<BlockType>>, parent: Seq<u8>, t: TransactionView, signature_valid: bool) -> Result<int, ChainErrView> {
    match spec_verify(t, signature_valid) {
        Err(m) => Err(ChainErrView::BadTransaction(m)),
        Ok(_) => if t.input is None && id_used(nodes, t.id) {
            Err(ChainErrView::NonUniqueTransactionID)
        } else {
            match node_index_from(nodes, parent, nodes.len() as int) {
                None => Err(ChainErrView::BadParent),
                Some(p) => match t.input {
                    None => Ok(p),
                    Some(input) => {
                        let pc = walk(nodes, nodes.len() as int, parent);
                        match last_with_id(pc, t.id, pc.len() as int) {
                            Some(k) if pc[k].spec_data()@.output != input =>
                                Err(ChainErrView::BadTransaction(not_latest_msg())),
                            _ => if last_with_output(pc, input, pc.len() as int) is None {
                                Err(ChainErrView::BadTransaction(no_parent_msg()))
                            } else {
                                Ok(p)
                            },
                        }
                    },
                },
            }
        },
    }
}

/// The outcome of pushing `b`, ignoring its hash.
pub open spec fn push_check(nodes: Seq<Seq<BlockType>>, b: BlockType, signature_valid: bool) -> Result<int, ChainErrView> {
    tx_check(nodes, b.spec_parent()@, b.spec_data()@, signature_valid)
}

/// Well-formed nodes: there is a genesis node holding one block, no node is
/// empty, and every block above the genesis node has its parent in the node
/// just below it.
pub open spec fn nodes_wf(nodes: Seq<Seq<BlockType>>) -> bool {
    &&& nodes.len() >= 1
    &&& nodes[0].len() == 1
    &&& forall|k: int| 0 <= k < nodes.len() ==> #[trigger] nodes[k].len() >= 1
    &&& forall|k: int, j: int|
        1 <= k < nodes.len() && 0 <= j < nodes[k].len() ==> #[trigger] find_from(
            nodes[k - 1],
            nodes[k][j].spec_parent()@,
            0,
        ) is Some
}

// ---------------------------------------------------------------------------
// Lemmas on the search functions
// ---------------------------------------------------------------------------

pub proof fn lemma_find_some(s: Seq<BlockType>, h: Seq<u8>, i: int)
    ensures
        find_from(s, h, i) matches Some(j) ==> i <= j < s.len() && 0 <= j && bh(s[j]) == h,
    decreases s.len() - i,
{
    if 0 <= i < s.len() && bh(s[i]) != h {
        lemma_find_some(s, h, i + 1);
    }
}

pub proof fn lemma_find_push(s: Seq<BlockType>, h: Seq<u8>, i: int, x: BlockType)
    requires
        0 <= i,
        find_from(s, h, i) is Some,
    ensures
        find_from(s.push(x), h, i) == find_from(s, h, i),
    decreases s.len() - i,
{
    if i < s.len() && bh(s[i]) != h {
        lemma_find_push(s, h, i + 1, x);
    }
}

pub proof fn lemma_node_index_some(nodes: Seq<Seq<BlockType>>, h: Seq<u8>, i: int)
    requires
        i <= nodes.len(),
    ensures
        node_index_from(nodes, h, i) matches Some(p) ==> 0 <= p < i && find_from(nodes[p], h, 0) is Some,
    decreases i,
{
    if i > 0 && find_from(nodes[i - 1], h, 0) is None {
        lemma_node_index_some(nodes, h, i - 1);
    }
}

// ---------------------------------------------------------------------------
// Nodes
// ---------------------------------------------------------------------------

/// The blocks that stand at one height of the blockchain.
pub struct Node {
    /// The blocks at this height, in the order in which they were added.
    blocks: Vec<BlockType>,
}

impl View for Node {
    type V = Seq<BlockType>;

    closed spec fn view(&self) -> Seq<BlockType> {
        self.blocks@
    }
}

impl Node {
    /// Constructs a node without any blocks.
    pub fn new() -> (n: Node)
        ensures
            n@ == Seq::<BlockType>::empty(),
    {
        Node { blocks: Vec::new() }
    }

    /// Adds a block to the node.
    pub fn add_block(&mut self, block: BlockType)
        ensures
            final(self)@ == old(self)@.push(block),
    {
        self.blocks.push(block)
    }

    /// Returns the blocks stored at the node.
    pub fn get_blocks(&self) -> (v: &Vec<BlockType>)
        ensures
            v@ == self@,
    {
        &self.blocks
    }

    /// Returns the first block of the node whose hash is `hash`, if any.
    pub fn get_block_from_hash(&self, hash: &crate::blockchain::hash::Hash) -> (r: Option<&BlockType>)
        ensures
            match find_from(self@, hash@, 0) {
                Some(j) => r == Some(&self@[j]),
                None => r is None,
            },
    {
        let mut i: usize = 0;
        while i < self.blocks.len()
            invariant
                i <= self@.len(),
                find_from(self@, hash@, 0) == find_from(self@, hash@, i as int),
            decreases self@.len() - i,
        {
            let h = self.blocks[i].calc_hash();
            if bytes_eq(h.as_slice(), hash.as_slice()) {
                return Some(&self.blocks[i]);
            }
            i = i + 1;
        }
        None
    }
}


// ---------------------------------------------------------------------------
// Lemmas on the shape of the blockchain
// ---------------------------------------------------------------------------

/// `b` is one of the blocks of node `k`.
pub open spec fn node_holds(nodes: Seq<Seq<BlockType>>, k: int, b: BlockType) -> bool {
    exists|j: int| 0 <= j < nodes[k].len() && nodes[k][j] == b
}

/// A chain found in well-formed nodes from a hash held at height `n - 1`
/// has one block per height below `n`, ends in a block with that hash, and
/// each of its blocks names the block before it as parent.
pub proof fn lemma_walk_linked(nodes: Seq<Seq<BlockType>>, n: int, h: Seq<u8>)
    requires
        nodes_wf(nodes),
        1 <= n <= nodes.len(),
        find_from(nodes[n - 1], h, 0) is Some,
    ensures
        walk(nodes, n, h).len() == n,
        bh(walk(nodes, n, h)[n - 1]) == h,
        walk(nodes, n, h)[n - 1] == nodes[n - 1][find_from(nodes[n - 1], h, 0)->0],
        forall|i: int| 0 <= i < n - 1 ==> #[trigger] walk(nodes, n, h)[i + 1].spec_parent()@ == bh(walk(nodes, n, h)[i]),
        forall|i: int| 0 <= i < n ==> node_holds(nodes, i, #[trigger] walk(nodes, n, h)[i]),
    decreases n,
{
    let j = find_from(nodes[n - 1], h, 0)->0;
    lemma_find_some(nodes[n - 1], h, 0);
    let b = nodes[n - 1][j];
    let w = walk(nodes, n, h);
    if n > 1 {
        assert(find_from(nodes[n - 1 - 1], nodes[n - 1][j].spec_parent()@, 0) is Some);
        lemma_walk_linked(nodes, n - 1, b.spec_parent()@);
        let w1 = walk(nodes, n - 1, b.spec_parent()@);
        assert(w == w1.push(b));
        assert forall|i: int| 0 <= i < n - 1 implies #[trigger] w[i + 1].spec_parent()@ == bh(w[i]) by {
            if i < n - 2 {
                assert(w[i + 1] == w1[i + 1]);
                assert(w[i] == w1[i]);
            }
        }
        assert forall|i: int| 0 <= i < n implies node_holds(nodes, i, #[trigger] w[i]) by {
            if i < n - 1 {
                assert(w[i] == w1[i]);
            } else {
                assert(nodes[n - 1][j] == w[i]);
            }
        }
    } else {
        assert(walk(nodes, 0, b.spec_parent()@) == Seq::<BlockType>::empty());
        assert(w =~= seq![b]);
        assert(nodes[0][j] == w[0]);
    }
}

/// The number of blocks in a prefix of the nodes is at most the number in all of them.
pub proof fn lemma_total_prefix(nodes: Seq<Seq<BlockType>>, k: int)
    requires
        0 <= k <= nodes.len(),
    ensures
        0 <= total_blocks(nodes.take(k)) <= total_blocks(nodes),
    decreases nodes.len(),
{
    if k == nodes.len() {
        assert(nodes.take(k) =~= nodes);
        lemma_total_nonneg(nodes);
    } else {
        assert(nodes.take(k) =~= nodes.drop_last().take(k));
        lemma_total_prefix(nodes.drop_last(), k);
    }
}

pub proof fn lemma_total_nonneg(nodes: Seq<Seq<BlockType>>)
    ensures
        total_blocks(nodes) >= 0,
    decreases nodes.len(),
{
    if nodes.len() > 0 {
        lemma_total_nonneg(nodes.drop_last());
    }
}

/// Adding one block to one node adds one to the number of blocks.
pub proof fn lemma_total_update(nodes: Seq<Seq<BlockType>>, i: int, b: BlockType)
    requires
        0 <= i < nodes.len(),
    ensures
        total_blocks(nodes.update(i, nodes[i].push(b))) == total_blocks(nodes) + 1,
    decreases nodes.len(),
{
    let m = nodes.update(i, nodes[i].push(b));
    if i == nodes.len() - 1 {
        assert(m.drop_last() =~= nodes.drop_last());
    } else {
        assert(m.drop_last() =~= nodes.drop_last().update(i, nodes.drop_last()[i].push(b)));
        lemma_total_update(nodes.drop_last(), i, b);
    }
}

/// Placing a block above a parent that stands in node `p` keeps the nodes
/// well formed and adds one block.
pub proof fn lemma_insert_wf(nodes: Seq<Seq<BlockType>>, p: int, b: BlockType)
    requires
        nodes_wf(nodes),
        0 <= p < nodes.len(),
        find_from(nodes[p], b.spec_parent()@, 0) is Some,
    ensures
        nodes_wf(insert_block(nodes, p, b)),
        total_blocks(insert_block(nodes, p, b)) == total_blocks(nodes) + 1,
{
    let m = insert_block(nodes, p, b);
    if p + 1 >= nodes.len() {
        assert(m.drop_last() =~= nodes);
        assert forall|k: int, j: int|
            1 <= k < m.len() && 0 <= j < m[k].len() implies #[trigger] find_from(
            m[k - 1],
            m[k][j].spec_parent()@,
            0,
        ) is Some by {
            if k < nodes.len() {
                assert(m[k] == nodes[k]);
                assert(m[k - 1] == nodes[k - 1]);
                assert(find_from(nodes[k - 1], nodes[k][j].spec_parent()@, 0) is Some);
            } else {
                assert(m[k] == seq![b]);
            }
        }
        assert forall|k: int| 0 <= k < m.len() implies #[trigger] m[k].len() >= 1 by {
            if k < nodes.len() {
                assert(nodes[k].len() >= 1);
            }
        }
    } else {
        lemma_total_update(nodes, p + 1, b);
        assert forall|k: int, j: int|
            1 <= k < m.len() && 0 <= j < m[k].len() implies #[trigger] find_from(
            m[k - 1],
            m[k][j].spec_parent()@,
            0,
        ) is Some by {
            if k == p + 1 {
                if j < nodes[k].len() {
                    assert(m[k][j] == nodes[k][j]);
                    assert(find_from(nodes[k - 1], nodes[k][j].spec_parent()@, 0) is Some);
                } else {
                    assert(m[k][j] == b);
                }
            } else if k == p + 2 {
                assert(m[k] == nodes[k]);
                assert(find_from(nodes[k - 1], nodes[k][j].spec_parent()@, 0) is Some);
                lemma_find_push(nodes[k - 1], nodes[k][j].spec_parent()@, 0, b);
            } else {
                assert(m[k] == nodes[k]);
                assert(m[k - 1] == nodes[k - 1]);
                assert(find_from(nodes[k - 1], nodes[k][j].spec_parent()@, 0) is Some);
            }
        }
        assert forall|k: int| 0 <= k < m.len() implies #[trigger] m[k].len() >= 1 by {
            assert(nodes[k].len() >= 1);
        }
    }
}

/// The outcome of pushing `b` with or without the check of its hash.
pub open spec fn spec_push(nodes: Seq<Seq<BlockType>>, b: BlockType, signature_valid: bool, check_hash: bool) -> Result<int, ChainErrView> {
    if check_hash && !meets_difficulty(bh(b)) {
        Err(ChainErrView::BadHash)
    } else {
        push_check(nodes, b, signature_valid)
    }
}

/// Whether a result agrees with a spec outcome: success with success, and
/// an error with the same error.
pub open spec fn outcome_matches<T>(r: Result<T, ChainErr>, o: Result<int, ChainErrView>) -> bool {
    match o {
        Ok(_) => r is Ok,
        Err(e) => r matches Err(er) && er@ == e,
    }
}

fn owned(s: &str) -> (r: String)
    ensures
        r@ == s@,
{
    s.to_owned()
}

fn string_eq(a: &String, b: &String) -> (r: bool)
    ensures
        r == (a@ == b@),
{
    a.eq(b)
}

/// Whether no block of `pc` for item `id` stands above the last block for
/// `id` whose output differs from `input`: the last block for `id`, if
/// any, hands the item to `input`.
fn input_is_latest(pc: &Vec<&BlockType>, id: &String, input: &PubKey) -> (r: bool)
    ensures
        r == !(match last_with_id(deref_seq(pc@), id@, pc@.len() as int) {
            Some(k) => deref_seq(pc@)[k].spec_data()@.output != input@,
            None => false,
        }),
{
    let ghost s = deref_seq(pc@);
    let mut k: usize = pc.len();
    while k > 0
        invariant
            k <= pc@.len(),
            s == deref_seq(pc@),
            last_with_id(s, id@, pc@.len() as int) == last_with_id(s, id@, k as int),
        decreases k,
    {
        k = k - 1;
        let blk: &BlockType = pc[k];
        if string_eq(blk.get_data().get_id(), id) {
            return bytes_eq(blk.get_data().get_public_key_output().as_slice(), input.as_slice());
        }
    }
    true
}

/// The main blockchain structure: the list of nodes that make up the chain.
pub struct Chain {
    /// The nodes, one per height
    nodes: Vec<Node>,
}

impl View for Chain {
    type V = Seq<Seq<BlockType>>;

    closed spec fn view(&self) -> Seq<Seq<BlockType>> {
        self.nodes@.map_values(|n: Node| n@)
    }
}

impl Chain {
    /// The chain is well formed, and no two registrations are for the same item.
    pub open spec fn wf(&self) -> bool {
        nodes_wf(self@) && registrations_unique(self@)
    }

    /// Constructs a blockchain that holds only the genesis block, which
    /// carries `genesis` and has the empty hash as parent.
    pub fn new(genesis: Transaction) -> (c: Chain)
        ensures
            c.wf(),
            c@.len() == 1,
            c@[0].len() == 1,
            c@[0][0].spec_parent() == EMPTY_HASH,
            c@[0][0].spec_data() == genesis,
            c@[0][0].spec_nonce() == 0,
            total_blocks(c@) == 1,
            registrations_unique(c@),
    {
        let mut nodes: Vec<Node> = Vec::new();
        let mut node = Node::new();
        let b = Block::new(EMPTY_HASH, genesis);
        node.add_block(b);
        nodes.push(node);
        let c = Chain { nodes };
        assert(c@.drop_last() =~= Seq::<Seq<BlockType>>::empty());
        assert(total_blocks(c@.drop_last()) == 0);
        assert(c@.last().len() == 1);
        c
    }

    /// Returns the chain of blocks that ends in the block with hash `hash`,
    /// following parent hashes down to the genesis node.
    pub fn get_chain_for_block_hash(&self, hash: &crate::blockchain::hash::Hash) -> (r: Vec<&BlockType>)
        ensures
            deref_seq(r@) == walk(self@, self@.len() as int, hash@),
    {
        let mut output: Vec<&BlockType> = Vec::new();
        let mut cur: crate::blockchain::hash::Hash = *hash;
        let mut i: usize = self.nodes.len();
        assert(deref_seq(output@) =~= Seq::<BlockType>::empty());
        assert(walk(self@, self@.len() as int, hash@) =~= walk(self@, i as int, cur@) + deref_seq(output@));
        while i > 0
            invariant
                i <= self@.len(),
                walk(self@, self@.len() as int, hash@) == walk(self@, i as int, cur@) + deref_seq(output@),
            decreases i,
        {
            i = i - 1;
            let ghost before = walk(self@, (i + 1) as int, cur@);
            let ghost out0 = deref_seq(output@);
            assert(self@[i as int] == self.nodes@[i as int]@);
            match self.nodes[i].get_block_from_hash(&cur) {
                Some(block) => {
                    proof {
                        lemma_find_some(self@[i as int], cur@, 0);
                    }
                    output.insert(0, block);
                    cur = *block.get_parent_hash();
                    assert(deref_seq(output@) =~= seq![*block] + out0);
                    assert(before == walk(self@, i as int, cur@).push(*block));
                    assert(walk(self@, i as int, cur@).push(*block) + out0 =~= walk(self@, i as int, cur@) + deref_seq(output@));
                },
                None => {
                    assert(before == walk(self@, i as int, cur@));
                },
            }
        }
        assert(walk(self@, 0, cur@) + deref_seq(output@) =~= deref_seq(output@));
        output
    }

    /// Returns the blocks that make up the longest chain.
    pub fn get_longest_chain(&self) -> (r: Vec<&BlockType>)
        ensures
            deref_seq(r@) == spec_longest(self@),
    {
        let n = self.nodes.len();
        if n > 0 {
            let blocks = self.nodes[n - 1].get_blocks();
            if blocks.len() > 0 {
                let h = blocks[0].calc_hash();
                return self.get_chain_for_block_hash(&h);
            }
        }
        let r: Vec<&BlockType> = Vec::new();
        assert(deref_seq(r@) =~= Seq::<BlockType>::empty());
        r
    }

    /// Returns the number of nodes (the height of the blockchain plus one).
    pub fn node_count(&self) -> (n: usize)
        ensures
            n == self@.len(),
    {
        self.nodes.len()
    }

    /// Returns the blocks of node `i`.
    pub fn node_blocks(&self, i: usize) -> (v: &Vec<BlockType>)
        requires
            i < self@.len(),
        ensures
            v@ == self@[i as int],
    {
        self.nodes[i].get_blocks()
    }

    /// Returns the first (genesis) block of the blockchain.
    pub fn get_genesis_block(&self) -> (b: &BlockType)
        requires
            self.wf(),
        ensures
            *b == self@[0][0],
    {
        assert(self@[0] == self.nodes@[0]@);
        &self.nodes[0].get_blocks()[0]
    }

    /// Returns the last block of the longest chain: the first block of the
    /// last node.
    pub fn get_last_block(&self) -> (b: &BlockType)
        requires
            self.wf(),
        ensures
            *b == spec_longest(self@).last(),
            *b == self@.last()[0],
    {
        let longest_chain = self.get_longest_chain();
        proof {
            lemma_longest_chain_linked(self);
        }
        longest_chain[longest_chain.len() - 1]
    }

    /// Returns the number of blocks in the blockchain, counting every
    /// branch, not only the longest chain.
    pub fn block_count(&self) -> (n: usize)
        requires
            total_blocks(self@) <= usize::MAX,
        ensures
            n == total_blocks(self@),
    {
        let mut sum: usize = 0;
        let mut k: usize = 0;
        assert(self@.take(0) =~= Seq::<Seq<BlockType>>::empty());
        while k < self.nodes.len()
            invariant
                k <= self@.len(),
                self@.len() == self.nodes@.len(),
                total_blocks(self@) <= usize::MAX,
                sum == total_blocks(self@.take(k as int)),
            decreases self@.len() - k,
        {
            assert(self@.take(k + 1).drop_last() =~= self@.take(k as int));
            assert(self@[k as int] == self.nodes@[k as int]@);
            proof {
                lemma_total_prefix(self@, k + 1);
            }
            sum = sum + self.nodes[k].get_blocks().len();
            k = k + 1;
        }
        assert(self@.take(k as int) =~= self@);
        sum
    }

    /// Returns the blocks of the longest chain whose transaction is for
    /// item `id`, in chain order.
    pub fn get_blocks_for_id(&self, id: &str) -> (r: Vec<&BlockType>)
        ensures
            deref_seq(r@) == blocks_with_id(spec_longest(self@), id@),
    {
        let chain = self.get_longest_chain();
        let id_s = owned(id);
        let mut out: Vec<&BlockType> = Vec::new();
        let mut i: usize = 0;
        let ghost s = deref_seq(chain@);
        assert(deref_seq(out@) =~= blocks_with_id(s.take(0), id@));
        while i < chain.len()
            invariant
                i <= chain@.len(),
                s == deref_seq(chain@),
                id_s@ == id@,
                deref_seq(out@) == blocks_with_id(s.take(i as int), id@),
            decreases chain@.len() - i,
        {
            let b: &BlockType = chain[i];
            let ghost out0 = deref_seq(out@);
            assert(s.take(i + 1).drop_last() =~= s.take(i as int));
            assert(s.take(i + 1).last() == *b);
            if string_eq(b.get_data().get_id(), &id_s) {
                out.push(b);
                assert(deref_seq(out@) =~= out0.push(*b));
            }
            i = i + 1;
        }
        assert(s.take(i as int) =~= s);
        out
    }

    /// Returns the blocks of the longest chain whose transaction has `key`
    /// as input or as output, in chain order.
    pub fn get_blocks_for_pub_key(&self, key: &PubKey) -> (r: Vec<&BlockType>)
        ensures
            deref_seq(r@) == blocks_with_key(spec_longest(self@), key@),
    {
        let chain = self.get_longest_chain();
        let mut out: Vec<&BlockType> = Vec::new();
        let mut i: usize = 0;
        let ghost s = deref_seq(chain@);
        assert(deref_seq(out@) =~= blocks_with_key(s.take(0), key@));
        while i < chain.len()
            invariant
                i <= chain@.len(),
                s == deref_seq(chain@),
                deref_seq(out@) == blocks_with_key(s.take(i as int), key@),
            decreases chain@.len() - i,
        {
            let b: &BlockType = chain[i];
            let ghost out0 = deref_seq(out@);
            assert(s.take(i + 1).drop_last() =~= s.take(i as int));
            assert(s.take(i + 1).last() == *b);
            let mut matches = false;
            if let Some(inp) = b.get_data().get_public_key_input() {
                if bytes_eq(inp.as_slice(), key.as_slice()) {
                    matches = true;
                }
            }
            if bytes_eq(b.get_data().get_public_key_output().as_slice(), key.as_slice()) {
                matches = true;
            }
            if matches {
                out.push(b);
                assert(deref_seq(out@) =~= out0.push(*b));
            }
            i = i + 1;
        }
        assert(s.take(i as int) =~= s);
        out
    }

    /// Whether no block of the blockchain has a transaction for the item of
    /// the transaction in `block`.
    fn is_unique_id(&self, block: &BlockType) -> (r: bool)
        ensures
            r == !id_used(self@, block.spec_data()@.id),
    {
        let id = block.get_data().get_id();
        let mut k: usize = 0;
        while k < self.nodes.len()
            invariant
                k <= self@.len(),
                self@.len() == self.nodes@.len(),
                id@ == block.spec_data()@.id,
                forall|k2: int, j: int|
                    0 <= k2 < k && 0 <= j < self@[k2].len() ==> #[trigger] self@[k2][j].spec_data()@.id != id@,
            decreases self@.len() - k,
        {
            let blocks = self.nodes[k].get_blocks();
            assert(self@[k as int] == blocks@);
            let mut j: usize = 0;
            while j < blocks.len()
                invariant
                    k < self@.len(),
                    j <= blocks@.len(),
                    self@[k as int] == blocks@,
                    id@ == block.spec_data()@.id,
                    forall|j2: int| 0 <= j2 < j ==> #[trigger] blocks@[j2].spec_data()@.id != id@,
                decreases blocks@.len() - j,
            {
                if string_eq(blocks[j].get_data().get_id(), id) {
                    assert(self@[k as int][j as int].spec_data()@.id == id@);
                    assert(id_used(self@, block.spec_data()@.id));
                    return false;
                }
                j = j + 1;
            }
            k = k + 1;
        }
        true
    }

    /// Returns the index of the highest node that holds a block with hash `hash`.
    fn get_node_index_for_hash(&self, hash: &crate::blockchain::hash::Hash) -> (r: Option<usize>)
        ensures
            match node_index_from(self@, hash@, self@.len() as int) {
                Some(p) => r == Some(p as usize),
                None => r is None,
            },
            r matches Some(i) ==> node_index_from(self@, hash@, self@.len() as int) == Some(i as int),
    {
        let mut i: usize = self.nodes.len();
        while i > 0
            invariant
                i <= self@.len(),
                self@.len() == self.nodes@.len(),
                node_index_from(self@, hash@, self@.len() as int) == node_index_from(self@, hash@, i as int),
            decreases i,
        {
            i = i - 1;
            assert(self@[i as int] == self.nodes@[i as int]@);
            if let Some(_) = self.nodes[i].get_block_from_hash(hash) {
                return Some(i);
            }
        }
        None
    }

    /// Whether some node holds a block with hash `hash`.
    pub fn contains_hash(&self, hash: &crate::blockchain::hash::Hash) -> (r: bool)
        ensures
            r == (node_index_from(self@, hash@, self@.len() as int) is Some),
    {
        self.get_node_index_for_hash(hash).is_some()
    }

    /// Whether some block of the chain below `block` hands out the input key
    /// of the transaction in `block`.
    fn has_parent_block(&self, block: &BlockType) -> (r: bool)
        ensures
            r == match block.spec_data()@.input {
                Some(k) => {
                    let pc = walk(self@, self@.len() as int, block.spec_parent()@);
                    last_with_output(pc, k, pc.len() as int) is Some
                },
                None => false,
            },
    {
        let input_key = match block.get_data().get_public_key_input() {
            Some(k) => k,
            None => return false,
        };
        let chain = self.get_chain_for_block_hash(block.get_parent_hash());
        let ghost s = deref_seq(chain@);
        let mut k: usize = chain.len();
        while k > 0
            invariant
                k <= chain@.len(),
                s == deref_seq(chain@),
                s == walk(self@, self@.len() as int, block.spec_parent()@),
                block.spec_data()@.input == Some(input_key@),
                last_with_output(s, input_key@, chain@.len() as int) == last_with_output(s, input_key@, k as int),
            decreases k,
        {
            k = k - 1;
            assert(s[k as int] == *chain@[k as int]);
            if bytes_eq(chain[k].get_data().get_public_key_output().as_slice(), input_key.as_slice()) {
                assert(last_with_output(s, input_key@, k + 1) == Some(k as int));
                return true;
            }
        }
        false
    }

    /// Returns the block, below `block`, that handed out the input key of
    /// the transaction in `block`; `None` for a registration or when there
    /// is no such block.
    pub fn get_transaction_parent_block(&self, block: &BlockType) -> (r: Option<&BlockType>)
        ensures
            match block.spec_data()@.input {
                Some(key) => {
                    let pc = walk(self@, self@.len() as int, block.spec_parent()@);
                    match last_with_output(pc, key, pc.len() as int) {
                        Some(k) => 0 <= k < pc.len() && r == Some(&pc[k]),
                        None => r is None,
                    }
                },
                None => r is None,
            },
    {
        let input = match block.get_data().get_public_key_input() {
            Some(k) => k,
            None => return None,
        };
        let chain = self.get_chain_for_block_hash(block.get_parent_hash());
        let ghost s = deref_seq(chain@);
        let mut k: usize = chain.len();
        while k > 0
            invariant
                k <= chain@.len(),
                s == deref_seq(chain@),
                s == walk(self@, self@.len() as int, block.spec_parent()@),
                block.spec_data()@.input == Some(input@),
                last_with_output(s, input@, chain@.len() as int) == last_with_output(s, input@, k as int),
            decreases k,
        {
            k = k - 1;
            assert(s[k as int] == *chain@[k as int]);
            if bytes_eq(chain[k].get_data().get_public_key_output().as_slice(), input.as_slice()) {
                assert(last_with_output(s, input@, k + 1) == Some(k as int));
                return Some(chain[k]);
            }
        }
        None
    }

    /// Checks whether `block` may be pushed, ignoring its hash; gives the
    /// node of its parent.
    fn check_push(&self, block: &BlockType, signature_valid: bool) -> (r: Result<usize, ChainErr>)
        requires
            self.wf(),
        ensures
            match push_check(self@, *block, signature_valid) {
                Ok(p) => r == Ok::<usize, ChainErr>(p as usize),
                Err(e) => r matches Err(er) && er@ == e,
            },
            r matches Ok(p) ==> node_index_from(self@, block.spec_parent()@, self@.len() as int) == Some(p as int),
    {
        let tx = block.get_data();
        match tx.verify(signature_valid) {
            Err(e) => return Err(ChainErr::BadTransaction(e)),
            Ok(_) => {},
        }
        if !tx.has_input() {
            if !self.is_unique_id(block) {
                return Err(ChainErr::NonUniqueTransactionID);
            }
        }
        let parent_index = match self.get_node_index_for_hash(block.get_parent_hash()) {
            Some(i) => i,
            None => return Err(ChainErr::BadParent),
        };
        if let Some(input) = tx.get_public_key_input() {
            let parent_chain = self.get_chain_for_block_hash(block.get_parent_hash());
            if !input_is_latest(&parent_chain, tx.get_id(), input) {
                return Err(
                    ChainErr::BadTransaction(
                        owned("Transaction input referes to a transaction that is not the latest"),
                    ),
                );
            }
            if !self.has_parent_block(block) {
                return Err(
                    ChainErr::BadTransaction(
                        owned("Transaction input refers to a transaction that does not exist in any previous block"),
                    ),
                );
            }
        }
        Ok(parent_index)
    }

    /// Pushes a block, ignoring the check of its hash. The block is placed
    /// in the node above the highest node that holds its parent, and its
    /// height is returned; on an error the blockchain is unchanged.
    pub fn push_ignore_hash(&mut self, block: BlockType, signature_valid: bool) -> (r: Result<usize, ChainErr>)
        requires
            old(self).wf(),
        ensures
            final(self).wf(),
            outcome_matches(r, spec_push(old(self)@, block, signature_valid, false)),
            match spec_push(old(self)@, block, signature_valid, false) {
                Ok(p) => final(self)@ == insert_block(old(self)@, p, block) && r == Ok::<usize, ChainErr>((p + 1) as usize),
                Err(_) => final(self)@ == old(self)@,
            },
    {
        let p = match self.check_push(&block, signature_valid) {
            Ok(p) => p,
            Err(e) => return Err(e),
        };
        let ghost old_nodes = self@;
        proof {
            lemma_node_index_some(self@, block.spec_parent()@, self@.len() as int);
            lemma_insert_wf(self@, p as int, block);
            lemma_push_keeps_registrations_unique(self, block, signature_valid, false);
        }
        if p >= self.nodes.len() - 1 {
            self.nodes.push(Node::new());
        }
        let ghost mid = self.nodes@;
        self.nodes[p + 1].add_block(block);
        proof {
            if p + 1 >= old_nodes.len() {
                assert(self@ =~= old_nodes.push(seq![block]));
            } else {
                assert(self@ =~= old_nodes.update(p + 1, old_nodes[p + 1].push(block)));
            }
        }
        Ok(p + 1)
    }

    /// Pushes a block whose hash must meet the difficulty; gives its height.
    pub fn push(&mut self, block: BlockType, signature_valid: bool) -> (r: Result<usize, ChainErr>)
        requires
            old(self).wf(),
        ensures
            final(self).wf(),
            outcome_matches(r, spec_push(old(self)@, block, signature_valid, true)),
            match spec_push(old(self)@, block, signature_valid, true) {
                Ok(p) => final(self)@ == insert_block(old(self)@, p, block) && r == Ok::<usize, ChainErr>((p + 1) as usize),
                Err(_) => final(self)@ == old(self)@,
            },
    {
        let h = block.calc_hash();
        if !hash_meets_difficulty(&h) {
            return Err(ChainErr::BadHash);
        }
        self.push_ignore_hash(block, signature_valid)
    }

    /// Whether `block` could be pushed: the checks of `push` (of
    /// `push_ignore_hash` when `ignore_hash` holds) without the change.
    pub fn could_push(&self, block: &BlockType, ignore_hash: bool, signature_valid: bool) -> (r: Result<(), ChainErr>)
        requires
            self.wf(),
        ensures
            outcome_matches(r, spec_push(self@, *block, signature_valid, !ignore_hash)),
    {
        if !ignore_hash {
            let h = block.calc_hash();
            if !hash_meets_difficulty(&h) {
                return Err(ChainErr::BadHash);
            }
        }
        match self.check_push(block, signature_valid) {
            Ok(_) => Ok(()),
            Err(e) => Err(e),
        }
    }

    /// One step of proof of work on `block`: whether its hash meets the
    /// difficulty; when it does not, the nonce is incremented (unless it is
    /// already the largest nonce).
    pub fn mine_step(&self, block: &mut BlockType) -> (r: bool)
        ensures
            r == meets_difficulty(bh(*old(block))),
            r ==> *final(block) == *old(block),
            !r && old(block).spec_nonce() < u64::MAX ==> old(block).with_nonce(
                final(block),
                (old(block).spec_nonce() + 1) as u64,
            ),
            !r && old(block).spec_nonce() == u64::MAX ==> *final(block) == *old(block),
    {
        let h = block.calc_hash();
        if hash_meets_difficulty(&h) {
            return true;
        }
        if block.get_nonce() < u64::MAX {
            block.inc_nonce();
        }
        false
    }

    /// Mines a block that carries `transaction` above the last block of the
    /// longest chain: tries nonces from 0 upwards until the hash meets the
    /// difficulty, and gives `None` if no nonce does.
    pub fn mine(&self, transaction: Transaction) -> (r: Option<BlockType>)
        requires
            self.wf(),
        ensures
            r matches Some(b) ==> {
                &&& meets_difficulty(bh(b))
                &&& b.spec_parent()@ == bh(self@.last()[0])
                &&& b.spec_data() == transaction
                &&& forall|n: u64| n < b.spec_nonce() ==> !meets_difficulty(#[trigger] b.hash_at_nonce(n))
            },
            r is None ==> exists|b: BlockType|
                {
                    &&& b.spec_parent()@ == bh(self@.last()[0])
                    &&& b.spec_data() == transaction
                    &&& forall|n: u64| !meets_difficulty(#[trigger] b.hash_at_nonce(n))
                },
    {
        let last_block = self.get_last_block();
        let block = Block::new(last_block.calc_hash(), transaction);
        let ghost b0 = block;
        let r = proof_of_work(block);
        proof {
            if r is Some {
                let b = r->0;
                assert forall|n: u64| n < b.spec_nonce() implies !meets_difficulty(#[trigger] b.hash_at_nonce(n)) by {
                    assert(b.hash_at_nonce(n) == b0.hash_at_nonce(n));
                }
            }
        }
        r
    }
}

/// Proof of work on `start`: tries its nonce and each one above it, in
/// order, and gives the block with the first nonce whose hash meets the
/// difficulty, or `None` if no nonce from the block's own upwards does.
pub fn proof_of_work(start: BlockType) -> (r: Option<BlockType>)
    ensures
        match r {
            Some(b) => {
                &&& start.with_nonce(&b, b.spec_nonce())
                &&& start.spec_nonce() <= b.spec_nonce()
                &&& meets_difficulty(bh(b))
                &&& forall|n: u64|
                    start.spec_nonce() <= n < b.spec_nonce() ==> !meets_difficulty(#[trigger] start.hash_at_nonce(n))
            },
            None => forall|n: u64| start.spec_nonce() <= n ==> !meets_difficulty(#[trigger] start.hash_at_nonce(n)),
        },
{
    let mut block = start;
    loop
        invariant
            start.with_nonce(&block, block.spec_nonce()),
            start.spec_nonce() <= block.spec_nonce(),
            forall|n: u64| start.spec_nonce() <= n < block.spec_nonce() ==> !meets_difficulty(#[trigger] start.hash_at_nonce(n)),
        decreases u64::MAX - block.spec_nonce(),
    {
        let hash = block.calc_hash();
        assert(bh(block) == start.hash_at_nonce(block.spec_nonce()));
        if hash_meets_difficulty(&hash) {
            return Some(block);
        }
        if block.get_nonce() == u64::MAX {
            assert forall|n: u64| start.spec_nonce() <= n implies !meets_difficulty(#[trigger] start.hash_at_nonce(n)) by {
                if n < block.spec_nonce() {
                }
            }
            return None;
        }
        block.inc_nonce();
    }
}

/// The number of nodes fits in a `usize`.
pub proof fn lemma_chain_len_bound(chain: &Chain)
    ensures
        chain@.len() <= usize::MAX,
{
    assert(chain.nodes.len() == chain.nodes@.len());
}

/// The longest chain of a well-formed blockchain has one block per node,
/// starts with the genesis block, ends with the first block of the last
/// node, and each of its blocks names the block before it as parent.
pub proof fn lemma_longest_chain_linked(chain: &Chain)
    requires
        chain.wf(),
    ensures
        spec_longest(chain@).len() == chain@.len(),
        spec_longest(chain@)[0] == chain@[0][0],
        spec_longest(chain@).last() == chain@.last()[0],
        forall|i: int|
            0 <= i < chain@.len() - 1 ==> #[trigger] spec_longest(chain@)[i + 1].spec_parent()@ == bh(
                spec_longest(chain@)[i],
            ),
{
    let nodes = chain@;
    let n = nodes.len() as int;
    let h = bh(nodes.last()[0]);
    assert(nodes[n - 1].len() >= 1);
    assert(find_from(nodes[n - 1], h, 0) == Some(0int));
    lemma_walk_linked(nodes, n, h);
    let w = walk(nodes, n, h);
    assert(node_holds(nodes, 0, w[0]));
}


/// Where a block of the nodes after an insertion comes from: the inserted
/// block, at the end of the node above its parent, or the block at the same
/// place before.
pub proof fn lemma_insert_index(nodes: Seq<Seq<BlockType>>, p: int, b: BlockType, k: int, j: int)
    requires
        0 <= p < nodes.len(),
        0 <= k < insert_block(nodes, p, b).len(),
        0 <= j < insert_block(nodes, p, b)[k].len(),
    ensures
        (k == p + 1 && j == insert_block(nodes, p, b)[k].len() - 1) ==> insert_block(nodes, p, b)[k][j] == b,
        !(k == p + 1 && j == insert_block(nodes, p, b)[k].len() - 1) ==> {
            &&& k < nodes.len()
            &&& j < nodes[k].len()
            &&& insert_block(nodes, p, b)[k][j] == nodes[k][j]
        },
{
}

/// Registrations are unique: no two registration blocks are for the same item.
pub open spec fn registrations_unique(nodes: Seq<Seq<BlockType>>) -> bool {
    forall|k1: int, j1: int, k2: int, j2: int|
        0 <= k1 < nodes.len() && 0 <= j1 < nodes[k1].len() && 0 <= k2 < nodes.len() && 0 <= j2
            < nodes[k2].len() && (k1 != k2 || j1 != j2) && nodes[k1][j1].spec_data()@.input is None
            && nodes[k2][j2].spec_data()@.input is None ==> #[trigger] nodes[k1][j1].spec_data()@.id
            != #[trigger] nodes[k2][j2].spec_data()@.id
}

/// A push that succeeds keeps the blockchain well formed, adds exactly one
/// block, and places it at the end of the node just above a node that holds
/// its parent.
pub proof fn lemma_push_adds_one_block(chain: &Chain, b: BlockType, signature_valid: bool, check_hash: bool)
    requires
        chain.wf(),
        spec_push(chain@, b, signature_valid, check_hash) is Ok,
    ensures
        ({
            let p = spec_push(chain@, b, signature_valid, check_hash)->Ok_0;
            let m = insert_block(chain@, p, b);
            &&& 0 <= p < chain@.len()
            &&& nodes_wf(m)
            &&& total_blocks(m) == total_blocks(chain@) + 1
            &&& m[p + 1].last() == b
            &&& find_from(chain@[p], b.spec_parent()@, 0) is Some
        }),
{
    let p = spec_push(chain@, b, signature_valid, check_hash)->Ok_0;
    assert(node_index_from(chain@, b.spec_parent()@, chain@.len() as int) == Some(p));
    lemma_node_index_some(chain@, b.spec_parent()@, chain@.len() as int);
    lemma_insert_wf(chain@, p, b);
}

/// A push that succeeds keeps registrations unique: a registration is
/// accepted only for an item that no block mentions yet.
pub proof fn lemma_push_keeps_registrations_unique(
    chain: &Chain,
    b: BlockType,
    signature_valid: bool,
    check_hash: bool,
)
    requires
        chain.wf(),
        registrations_unique(chain@),
        spec_push(chain@, b, signature_valid, check_hash) is Ok,
    ensures
        registrations_unique(insert_block(chain@, spec_push(chain@, b, signature_valid, check_hash)->Ok_0, b)),
{
    let nodes = chain@;
    let p = spec_push(nodes, b, signature_valid, check_hash)->Ok_0;
    assert(node_index_from(nodes, b.spec_parent()@, nodes.len() as int) == Some(p));
    lemma_node_index_some(nodes, b.spec_parent()@, nodes.len() as int);
    let m = insert_block(nodes, p, b);
    assert forall|k1: int, j1: int, k2: int, j2: int|
        0 <= k1 < m.len() && 0 <= j1 < m[k1].len() && 0 <= k2 < m.len() && 0 <= j2 < m[k2].len() && (
        k1 != k2 || j1 != j2) && m[k1][j1].spec_data()@.input is None && m[k2][j2].spec_data()@.input
            is None implies #[trigger] m[k1][j1].spec_data()@.id != #[trigger] m[k2][j2].spec_data()@.id by {
        lemma_insert_index(nodes, p, b, k1, j1);
        lemma_insert_index(nodes, p, b, k2, j2);
        let new1 = k1 == p + 1 && j1 == m[k1].len() - 1;
        let new2 = k2 == p + 1 && j2 == m[k2].len() - 1;
        if new1 {
            assert(!id_used(nodes, b.spec_data()@.id));
            assert(nodes[k2][j2].spec_data()@.id != b.spec_data()@.id);
        } else if new2 {
            assert(!id_used(nodes, b.spec_data()@.id));
            assert(nodes[k1][j1].spec_data()@.id != b.spec_data()@.id);
        } else {
            assert(nodes[k1][j1].spec_data()@.id != nodes[k2][j2].spec_data()@.id);
        }
    }
}

} // verus!
