//! Blocks: one piece of data together with the hash of the block before it
//! and the nonces that proof of work varies.

use crate::blockchain::hash::{sha256, sha256_digest, Hashable};
use crate::blockchain::transaction::Transaction;
use crate::blockchain::util::{append_bytes, bytes_eq, make_timestamp, timestamp_or_epoch, u64_le, u64_to_le_bytes};
use vstd::prelude::*;

verus! {

/// Calls `rand::random::<u64>`: a random number. Nothing is said of it.
#[verifier::external_body]
fn random_u64() -> (r: u64) {
    rand::random::<u64>()
}

/// A block of the blockchain.
#[derive(Debug)]
pub struct Block<T: Hashable> {
    /// Hash of the parent block
    parent: crate::blockchain::hash::Hash,
    /// Timestamp for when the block was generated, in seconds since the UNIX epoch
    timestamp: u64,
    /// Random nonce
    rand_nonce: u64,
    /// Nonce, changed to produce a hash that meets the difficulty
    nonce: u64,
    /// Data
    data: T,
}

impl<T: Hashable> Block<T> {
    /// The hash of the parent block.
    pub closed spec fn spec_parent(&self) -> crate::blockchain::hash::Hash {
        self.parent
    }

    /// The creation time.
    pub closed spec fn spec_timestamp(&self) -> u64 {
        self.timestamp
    }

    /// The random nonce drawn at creation.
    pub closed spec fn spec_rand_nonce(&self) -> u64 {
        self.rand_nonce
    }

    /// The proof-of-work nonce.
    pub closed spec fn spec_nonce(&self) -> u64 {
        self.nonce
    }

    /// The data carried by the block.
    pub closed spec fn spec_data(&self) -> T {
        self.data
    }

    /// The bytes that are hashed: parent hash, timestamp, random nonce and
    /// nonce (little endian), then the hash of the data.
    pub open spec fn spec_preimage(&self) -> Seq<u8> {
        self.spec_parent()@ + u64_le(self.spec_timestamp()) + u64_le(self.spec_rand_nonce())
            + u64_le(self.spec_nonce()) + self.spec_data().spec_hash()
    }

    /// The hash of the block.
    pub open spec fn spec_hash(&self) -> Seq<u8> {
        sha256(self.spec_preimage())
    }

    /// The hash that the block would have with its nonce set to `n`.
    pub open spec fn hash_at_nonce(&self, n: u64) -> Seq<u8> {
        sha256(
            self.spec_parent()@ + u64_le(self.spec_timestamp()) + u64_le(self.spec_rand_nonce()) + u64_le(n)
                + self.spec_data().spec_hash(),
        )
    }

    /// Whether `other` equals `self` but for the nonce, which is `nonce`.
    pub open spec fn with_nonce(&self, other: &Self, nonce: u64) -> bool {
        &&& other.spec_parent() == self.spec_parent()
        &&& other.spec_timestamp() == self.spec_timestamp()
        &&& other.spec_rand_nonce() == self.spec_rand_nonce()
        &&& other.spec_data() == self.spec_data()
        &&& other.spec_nonce() == nonce
    }

    /// Creates a new block with the specified parent and data, nonce 0, the
    /// current time and a random nonce. A clock that reads a time before the
    /// UNIX epoch gives the timestamp 0.
    pub fn new(parent: crate::blockchain::hash::Hash, data: T) -> (b: Block<T>)
        ensures
            b.spec_parent() == parent,
            b.spec_data() == data,
            b.spec_nonce() == 0,
    {
        let rand_nonce = random_u64();
        let timestamp = timestamp_or_epoch(make_timestamp());
        Block::from_parts(parent, timestamp, rand_nonce, 0, data)
    }

    /// Creates a block whose parent is `parent`.
    pub fn from_parent(parent: &Block<T>, data: T) -> (b: Block<T>)
        ensures
            b.spec_parent()@ == parent.spec_hash(),
            b.spec_data() == data,
            b.spec_nonce() == 0,
    {
        let parent_hash = parent.calc_hash();
        Block::new(parent_hash, data)
    }

    /// Rebuilds a block from all of its parts (as a block received from a
    /// peer carries them).
    pub fn from_parts(parent: crate::blockchain::hash::Hash, timestamp: u64, rand_nonce: u64, nonce: u64, data: T) -> (b: Block<T>)
        ensures
            b.spec_parent() == parent,
            b.spec_timestamp() == timestamp,
            b.spec_rand_nonce() == rand_nonce,
            b.spec_nonce() == nonce,
            b.spec_data() == data,
    {
        Block { parent, timestamp, rand_nonce, nonce, data }
    }

    /// Returns the random nonce drawn when the block was created.
    pub fn get_rand_nonce(&self) -> (n: u64)
        ensures
            n == self.spec_rand_nonce(),
    {
        self.rand_nonce
    }

    /// Returns the time at which the block was created, in seconds since the UNIX epoch.
    pub fn get_timestamp(&self) -> (t: u64)
        ensures
            t == self.spec_timestamp(),
    {
        self.timestamp
    }

    /// Returns the current nonce of the block.
    pub fn get_nonce(&self) -> (n: u64)
        ensures
            n == self.spec_nonce(),
    {
        self.nonce
    }

    /// Sets the nonce to the specified value.
    pub fn set_nonce(&mut self, nonce: u64)
        ensures
            old(self).with_nonce(final(self), nonce),
    {
        self.nonce = nonce;
    }

    /// Increments the nonce by one.
    pub fn inc_nonce(&mut self)
        requires
            old(self).spec_nonce() < u64::MAX,
        ensures
            old(self).with_nonce(final(self), (old(self).spec_nonce() + 1) as u64),
    {
        let n = self.get_nonce();
        self.set_nonce(n + 1);
    }

    /// Returns the data stored in the block.
    pub fn get_data(&self) -> (d: &T)
        ensures
            *d == self.spec_data(),
    {
        &self.data
    }

    /// Returns the hash of the parent block.
    pub fn get_parent_hash(&self) -> (h: &crate::blockchain::hash::Hash)
        ensures
            *h == self.spec_parent(),
    {
        &self.parent
    }

    /// Computes the hash of the block.
    pub fn calc_hash(&self) -> (h: crate::blockchain::hash::Hash)
        ensures
            h@ == self.spec_hash(),
    {
        let mut buf: Vec<u8> = Vec::new();
        append_bytes(&mut buf, self.parent.as_slice());
        let ts = u64_to_le_bytes(self.timestamp);
        append_bytes(&mut buf, ts.as_slice());
        let rn = u64_to_le_bytes(self.rand_nonce);
        append_bytes(&mut buf, rn.as_slice());
        let n = u64_to_le_bytes(self.nonce);
        append_bytes(&mut buf, n.as_slice());
        let dh = self.data.calc_hash();
        append_bytes(&mut buf, dh.as_slice());
        sha256_digest(buf.as_slice())
    }
}

/// Two blocks agree: the same parent, timestamp, nonces, and a transaction
/// with the same contents.
pub open spec fn block_eqv(a: Block<Transaction>, b: Block<Transaction>) -> bool {
    &&& a.spec_parent() == b.spec_parent()
    &&& a.spec_timestamp() == b.spec_timestamp()
    &&& a.spec_rand_nonce() == b.spec_rand_nonce()
    &&& a.spec_nonce() == b.spec_nonce()
    &&& a.spec_data()@ == b.spec_data()@
}

impl Block<Transaction> {
    /// A copy of the block.
    pub fn duplicate(&self) -> (b: Block<Transaction>)
        ensures
            block_eqv(b, *self),
    {
        Block {
            parent: self.parent,
            timestamp: self.timestamp,
            rand_nonce: self.rand_nonce,
            nonce: self.nonce,
            data: self.data.duplicate(),
        }
    }

    /// Whether two blocks are equal: the same parent, timestamp and nonces,
    /// and transactions with the same signature.
    pub fn same_as(&self, other: &Block<Transaction>) -> (r: bool)
        ensures
            r == {
                &&& self.spec_parent()@ == other.spec_parent()@
                &&& self.spec_timestamp() == other.spec_timestamp()
                &&& self.spec_rand_nonce() == other.spec_rand_nonce()
                &&& self.spec_nonce() == other.spec_nonce()
                &&& self.spec_data()@.signature == other.spec_data()@.signature
            },
    {
        bytes_eq(self.parent.as_slice(), other.parent.as_slice()) && self.timestamp == other.timestamp
            && self.rand_nonce == other.rand_nonce && self.nonce == other.nonce && self.data.same_as(
            &other.data,
        )
    }
}

/// Blocks that agree have the same hash.
pub proof fn lemma_eqv_hash(a: Block<Transaction>, b: Block<Transaction>)
    requires
        block_eqv(a, b),
    ensures
        a.spec_hash() == b.spec_hash(),
{
}

} // verus!
