//! Transactions: the registration of a bike, or the transfer of a bike from
//! the holder of one key to the holder of another.

use crate::blockchain::hash::{bytes_to_hex, hex_char, hex_digit, obj_hash, sha256, spec_hex, string_push, Hashable};
use crate::blockchain::util::{append_bytes, bytes_eq, make_timestamp, timestamp_or_epoch, u64_le, u64_to_le_bytes, Timestamp};
use vstd::prelude::*;
use vstd::string::StringExecFns;
use vstd::string::StringSliceAdditionalSpecFns;
use vstd::utf8::encode_utf8;

verus! {

/// A public key (an Ed25519 key is 32 bytes).
pub type PubKey = Vec<u8>;

/// A signature (an Ed25519 signature is 64 bytes).
pub type Signature = Vec<u8>;

/// The length of an Ed25519 public key.
pub const PUBLIC_KEY_BYTES: usize = 32;

/// The length of an Ed25519 signature.
pub const SIGNATURE_BYTES: usize = 64;

/// The message of a verification that fails on the key.
pub open spec fn bad_key_msg() -> Seq<char> {
    "could not create public key from input"@
}

/// The message of a verification that fails on the signature's format.
pub open spec fn bad_signature_format_msg() -> Seq<char> {
    "signature has invalid format"@
}

/// The message of a verification that fails on the signature itself.
pub open spec fn signature_mismatch_msg() -> Seq<char> {
    "content does not match the signature"@
}

/// A transaction, by its contents.
pub struct TransactionView {
    pub id: Seq<char>,
    pub timestamp: u64,
    pub input: Option<Seq<u8>>,
    pub output: Seq<u8>,
    pub signature: Seq<u8>,
}

/// The bytes of an optional key, by value.
pub open spec fn opt_key_view(k: Option<PubKey>) -> Option<Seq<u8>> {
    match k {
        Some(v) => Some(v@),
        None => None,
    }
}

/// A transaction of a bike.
#[derive(Debug)]
pub struct Transaction {
    /// Serial number of the bike
    id: String,
    /// Seconds since the UNIX epoch
    timestamp: Timestamp,
    pub_key_input: Option<PubKey>,
    pub_key_output: PubKey,
    signature: Signature,
}

impl View for Transaction {
    type V = TransactionView;

    closed spec fn view(&self) -> TransactionView {
        TransactionView {
            id: self.id@,
            timestamp: self.timestamp,
            input: opt_key_view(self.pub_key_input),
            output: self.pub_key_output@,
            signature: self.signature@,
        }
    }
}

/// The key under which a transaction's signature is checked: the input key
/// of a transfer, the output key of a registration.
pub open spec fn spec_verification_key(t: TransactionView) -> Seq<u8> {
    match t.input {
        Some(k) => k,
        None => t.output,
    }
}

/// The signed content: the UTF-8 bytes of the id, the timestamp in little
/// endian, the input key if any, the output key.
pub open spec fn spec_content(t: TransactionView) -> Seq<u8> {
    encode_utf8(t.id) + u64_le(t.timestamp) + match t.input {
        Some(k) => k,
        None => seq![],
    } + t.output
}

/// The outcome of verifying `t`, given what the Ed25519 check of its
/// signature over its content under its verification key answered.
pub open spec fn spec_verify(t: TransactionView, signature_valid: bool) -> Result<(), Seq<char>> {
    if spec_verification_key(t).len() != PUBLIC_KEY_BYTES {
        Err(bad_key_msg())
    } else if t.signature.len() != SIGNATURE_BYTES {
        Err(bad_signature_format_msg())
    } else if !signature_valid {
        Err(signature_mismatch_msg())
    } else {
        Ok(())
    }
}

/// The outcome of `spec_verify`, with the message taken by value.
pub open spec fn verify_result_view(r: Result<(), String>) -> Result<(), Seq<char>> {
    match r {
        Ok(()) => Ok(()),
        Err(s) => Err(s@),
    }
}

/// The decimal digits of `n`, most significant first.
pub open spec fn spec_decimal(n: nat) -> Seq<char>
    decreases n,
{
    if n < 10 {
        seq![hex_digit(n as int)]
    } else {
        spec_decimal(n / 10).push(hex_digit((n % 10) as int))
    }
}

/// Appends the decimal digits of `n`.
fn push_decimal(s: &mut String, n: u64)
    ensures
        final(s)@ == old(s)@ + spec_decimal(n as nat),
    decreases n,
{
    let ghost s0 = s@;
    if n >= 10 {
        push_decimal(s, n / 10);
    }
    let ghost s1 = s@;
    string_push(s, hex_char((n % 10) as u8));
    proof {
        if n >= 10 {
            assert(s1 == s0 + spec_decimal((n / 10) as nat));
            assert(s@ =~= s0 + spec_decimal((n / 10) as nat).push(hex_digit((n % 10) as int)));
        } else {
            assert(s@ =~= s0 + seq![hex_digit(n as int)]);
        }
    }
}

/// The text of a transaction: its id, timestamp, and keys and signature in
/// hexadecimal within quotes (the input key reads `None` when there is none).
pub open spec fn spec_describe(t: TransactionView) -> Seq<char> {
    "Transaction:{ id: "@ + t.id + ", timestamp: "@ + spec_decimal(t.timestamp as nat)
        + ", public_key_input: \""@ + match t.input {
        Some(k) => spec_hex(k),
        None => "None"@,
    } + "\", public_key_output: \""@ + spec_hex(t.output) + "\", signature: \""@ + spec_hex(t.signature)
        + "\" }"@
}

/// Formats a byte buffer as lowercase hexadecimal.
pub fn buf_to_str(buf: &Vec<u8>) -> (s: String)
    ensures
        s@ == spec_hex(buf@),
{
    bytes_to_hex(buf.as_slice())
}

fn clone_bytes(v: &Vec<u8>) -> (r: Vec<u8>)
    ensures
        r@ == v@,
{
    let mut r: Vec<u8> = Vec::new();
    append_bytes(&mut r, v.as_slice());
    r
}

fn clone_opt_bytes(v: &Option<Vec<u8>>) -> (r: Option<Vec<u8>>)
    ensures
        opt_key_view(r) == opt_key_view(*v),
{
    match v {
        Some(k) => Some(clone_bytes(k)),
        None => None,
    }
}

fn owned(s: &str) -> (r: String)
    ensures
        r@ == s@,
{
    s.to_owned()
}

impl Transaction {
    /// Creates an unsigned transaction stamped with the current time (0 when
    /// the clock reads a time before the UNIX epoch).
    pub fn new(id: String, pub_key_input: Option<PubKey>, pub_key_output: PubKey) -> (t: Transaction)
        ensures
            t@.id == id@,
            t@.input == opt_key_view(pub_key_input),
            t@.output == pub_key_output@,
            t@.signature == Seq::<u8>::empty(),
    {
        let timestamp = timestamp_or_epoch(make_timestamp());
        Transaction::from_details(id, timestamp, pub_key_input, pub_key_output, Vec::new())
    }

    /// Creates a transaction from all of its parts.
    pub fn from_details(
        id: String,
        timestamp: Timestamp,
        pub_key_input: Option<PubKey>,
        pub_key_output: PubKey,
        signature: Signature,
    ) -> (t: Transaction)
        ensures
            t@ == (TransactionView {
                id: id@,
                timestamp: timestamp,
                input: opt_key_view(pub_key_input),
                output: pub_key_output@,
                signature: signature@,
            }),
    {
        Transaction { id, timestamp, pub_key_input, pub_key_output, signature }
    }

    /// The unsigned transfer of the item of `prev` to the holder of `pub_key_output`:
    /// same id, the current time (0 when the clock reads a time before the
    /// UNIX epoch), the output key of `prev` as input.
    pub fn make_transfer(prev: &Transaction, pub_key_output: PubKey) -> (t: Transaction)
        ensures
            t@.id == prev@.id,
            t@.input == Some(prev@.output),
            t@.output == pub_key_output@,
            t@.signature == Seq::<u8>::empty(),
    {
        let timestamp = timestamp_or_epoch(make_timestamp());
        Transaction::from_details(
            prev.id.clone(),
            timestamp,
            Some(clone_bytes(&prev.pub_key_output)),
            pub_key_output,
            Vec::new(),
        )
    }

    /// The unsigned genesis transaction: id "GENESIS", timestamp 0, no input.
    pub fn make_genesis_unsigned(pub_key_output: PubKey) -> (t: Transaction)
        ensures
            t@ == (TransactionView {
                id: "GENESIS"@,
                timestamp: 0,
                input: None,
                output: pub_key_output@,
                signature: Seq::<u8>::empty(),
            }),
    {
        Transaction {
            id: owned("GENESIS"),
            timestamp: 0,
            pub_key_input: None,
            pub_key_output: pub_key_output,
            signature: Vec::new(),
        }
    }

    /// Stores a signature in the transaction.
    pub fn set_signature(&mut self, signature: Signature)
        ensures
            final(self)@ == (TransactionView { signature: signature@, ..old(self)@ }),
    {
        self.signature = signature;
    }

    /// The key under which the signature is checked.
    pub fn verification_key(&self) -> (k: &PubKey)
        ensures
            k@ == spec_verification_key(self@),
    {
        match &self.pub_key_input {
            Some(k) => k,
            None => &self.pub_key_output,
        }
    }

    /// Verifies that this transaction is a valid next transaction after
    /// `prev_t`: it verifies and its input is the output of `prev_t`.
    pub fn verify_is_next(&self, prev_t: &Transaction, signature_valid: bool) -> (r: bool)
        ensures
            r == (spec_verify(self@, signature_valid) is Ok && self@.input == Some(prev_t@.output)),
    {
        match self.verify(signature_valid) {
            Ok(_) => match &self.pub_key_input {
                Some(key) => bytes_eq(prev_t.pub_key_output.as_slice(), key.as_slice()),
                None => false,
            },
            Err(_) => false,
        }
    }

    /// Verifies the transaction: the verification key must have the length
    /// of a public key, the signature the length of a signature, and
    /// `signature_valid` (what the Ed25519 check of the signature over
    /// `content_to_u8()` under `verification_key()` answered) must hold.
    pub fn verify(&self, signature_valid: bool) -> (r: Result<(), String>)
        ensures
            verify_result_view(r) == spec_verify(self@, signature_valid),
    {
        let key = self.verification_key();
        if key.len() != PUBLIC_KEY_BYTES {
            return Err(owned("could not create public key from input"));
        }
        if self.signature.len() != SIGNATURE_BYTES {
            return Err(owned("signature has invalid format"));
        }
        if !signature_valid {
            return Err(owned("content does not match the signature"));
        }
        Ok(())
    }

    /// The content that the signature covers.
    pub fn content_to_u8(&self) -> (buf: Vec<u8>)
        ensures
            buf@ == spec_content(self@),
    {
        let mut buf: Vec<u8> = Vec::new();
        append_bytes(&mut buf, self.id.as_str().as_bytes());
        let ts = u64_to_le_bytes(self.timestamp);
        append_bytes(&mut buf, ts.as_slice());
        if let Some(key) = &self.pub_key_input {
            append_bytes(&mut buf, key.as_slice());
        }
        append_bytes(&mut buf, self.pub_key_output.as_slice());
        buf
    }

    /// Whether the transaction has an input (a transfer) or not (a registration).
    pub fn has_input(&self) -> (r: bool)
        ensures
            r == self@.input is Some,
    {
        self.pub_key_input.is_some()
    }

    /// Returns the id of the transacted item.
    pub fn get_id(&self) -> (id: &String)
        ensures
            id@ == self@.id,
    {
        &self.id
    }

    /// Sets the id of the transaction.
    pub fn set_id(&mut self, id: &str)
        ensures
            final(self)@ == (TransactionView { id: id@, ..old(self)@ }),
    {
        self.id = owned(id)
    }

    /// Returns the timestamp.
    pub fn get_timestamp(&self) -> (t: u64)
        ensures
            t == self@.timestamp,
    {
        self.timestamp
    }

    /// Returns the input public key.
    pub fn get_public_key_input(&self) -> (k: &Option<PubKey>)
        ensures
            opt_key_view(*k) == self@.input,
    {
        &self.pub_key_input
    }

    /// Returns the output public key.
    pub fn get_public_key_output(&self) -> (k: &PubKey)
        ensures
            k@ == self@.output,
    {
        &self.pub_key_output
    }

    /// Returns the signature.
    pub fn get_signature(&self) -> (s: &Signature)
        ensures
            s@ == self@.signature,
    {
        &self.signature
    }

    /// The text of the transaction, as it is printed.
    pub fn describe(&self) -> (s: String)
        ensures
            s@ == spec_describe(self@),
    {
        let mut s = owned("Transaction:{ id: ");
        s.append(self.id.as_str());
        s.append(", timestamp: ");
        push_decimal(&mut s, self.timestamp);
        s.append(", public_key_input: \"");
        match &self.pub_key_input {
            Some(k) => {
                let hex = buf_to_str(k);
                s.append(hex.as_str());
            },
            None => s.append("None"),
        }
        s.append("\", public_key_output: \"");
        let out = buf_to_str(&self.pub_key_output);
        s.append(out.as_str());
        s.append("\", signature: \"");
        let sig = buf_to_str(&self.signature);
        s.append(sig.as_str());
        s.append("\" }");
        s
    }

    /// Two transactions are the same when their signatures are.
    pub fn same_as(&self, other: &Transaction) -> (r: bool)
        ensures
            r == (self@.signature == other@.signature),
    {
        bytes_eq(self.signature.as_slice(), other.signature.as_slice())
    }

    /// A copy of the transaction.
    pub fn duplicate(&self) -> (t: Transaction)
        ensures
            t@ == self@,
    {
        Transaction {
            id: self.id.clone(),
            timestamp: self.timestamp,
            pub_key_input: clone_opt_bytes(&self.pub_key_input),
            pub_key_output: clone_bytes(&self.pub_key_output),
            signature: clone_bytes(&self.signature),
        }
    }
}

impl Hashable for Transaction {
    open spec fn spec_hash(&self) -> Seq<u8> {
        sha256(self@.signature)
    }

    fn calc_hash(&self) -> (h: crate::blockchain::hash::Hash) {
        obj_hash(self.signature.as_slice())
    }
}

} // verus!
