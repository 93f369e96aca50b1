//! SHA-256 hashes and their lowercase hexadecimal form.

use sha2::{Digest, Sha256};
use vstd::prelude::*;
use vstd::string::StringSliceAdditionalSpecFns;

verus! {

/// A 256-bit digest.
pub type Hash = [u8; 32];

/// The all-zero hash, used as the parent of the genesis block.
pub const EMPTY_HASH: Hash = [
    0u8, 0, 0, 0, 0, 0, 0, 0, 0, 0, 0, 0, 0, 0, 0, 0,
    0, 0, 0, 0, 0, 0, 0, 0, 0, 0, 0, 0, 0, 0, 0, 0,
];

/// The SHA-256 digest of a byte string.
pub uninterp spec fn sha256(data: Seq<u8>) -> Seq<u8>;

/// Calls `sha2::Sha256::digest`: the digest of `data`, which depends on
/// `data` alone.
#[verifier::external_body]
pub(crate) fn sha256_digest(data: &[u8]) -> (res: Hash)
    ensures
        res@ == sha256(data@),
{
    let mut out = [0u8; 32];
    out.copy_from_slice(Sha256::digest(data).as_slice());
    out
}

/// Something that can be summarised by a hash.
pub trait Hashable {
    /// The bytes of the hash of `self`.
    spec fn spec_hash(&self) -> Seq<u8>;

    /// Computes the hash of `self`.
    fn calc_hash(&self) -> (h: Hash)
        ensures
            h@ == self.spec_hash(),
    ;
}

/// Hashes the bytes that represent an object.
pub fn obj_hash(data: &[u8]) -> (h: Hash)
    ensures
        h@ == sha256(data@),
{
    sha256_digest(data)
}

impl<'a> Hashable for &'a str {
    open spec fn spec_hash(&self) -> Seq<u8> {
        sha256(self.spec_bytes())
    }

    fn calc_hash(&self) -> (h: Hash) {
        obj_hash(self.as_bytes())
    }
}

/// The lowercase hexadecimal digit for a value below 16.
pub open spec fn hex_digit(n: int) -> char {
    if n == 0 { '0' }
    else if n == 1 { '1' }
    else if n == 2 { '2' }
    else if n == 3 { '3' }
    else if n == 4 { '4' }
    else if n == 5 { '5' }
    else if n == 6 { '6' }
    else if n == 7 { '7' }
    else if n == 8 { '8' }
    else if n == 9 { '9' }
    else if n == 10 { 'a' }
    else if n == 11 { 'b' }
    else if n == 12 { 'c' }
    else if n == 13 { 'd' }
    else if n == 14 { 'e' }
    else { 'f' }
}

/// Two lowercase hexadecimal digits per byte, high nibble first.
pub open spec fn spec_hex(s: Seq<u8>) -> Seq<char>
    decreases s.len(),
{
    if s.len() == 0 {
        seq![]
    } else {
        spec_hex(s.drop_last()) + seq![hex_digit(s.last() as int / 16), hex_digit(s.last() as int % 16)]
    }
}

/// The hexadecimal form has two characters per byte.
pub proof fn lemma_hex_len(s: Seq<u8>)
    ensures
        spec_hex(s).len() == 2 * s.len(),
    decreases s.len(),
{
    if s.len() > 0 {
        lemma_hex_len(s.drop_last());
    }
}

/// A hash meets the mining difficulty when its hexadecimal form ends with
/// three zeros.
pub open spec fn meets_difficulty(h: Seq<u8>) -> bool {
    let s = spec_hex(h);
    &&& s.len() >= 3
    &&& s[s.len() - 1] == '0'
    &&& s[s.len() - 2] == '0'
    &&& s[s.len() - 3] == '0'
}

/// The lowercase hexadecimal digit for a value below 16.
pub(crate) fn hex_char(n: u8) -> (c: char)
    requires
        n < 16,
    ensures
        c == hex_digit(n as int),
{
    match n {
        0 => '0',
        1 => '1',
        2 => '2',
        3 => '3',
        4 => '4',
        5 => '5',
        6 => '6',
        7 => '7',
        8 => '8',
        9 => '9',
        10 => 'a',
        11 => 'b',
        12 => 'c',
        13 => 'd',
        14 => 'e',
        _ => 'f',
    }
}

/// Calls `String::push`: appends one character.
#[verifier::external_body]
pub(crate) fn string_push(s: &mut String, c: char)
    ensures
        final(s)@ == old(s)@.push(c),
{
    s.push(c);
}

/// Formats bytes as lowercase hexadecimal, two digits per byte.
pub fn bytes_to_hex(buf: &[u8]) -> (res: String)
    ensures
        res@ == spec_hex(buf@),
{
    let mut res = String::new();
    let mut i: usize = 0;
    while i < buf.len()
        invariant
            i <= buf@.len(),
            res@ == spec_hex(buf@.take(i as int)),
        decreases buf@.len() - i,
    {
        let b = buf[i];
        string_push(&mut res, hex_char(b / 16));
        string_push(&mut res, hex_char(b % 16));
        assert(buf@.take(i + 1).drop_last() =~= buf@.take(i as int));
        i = i + 1;
    }
    assert(buf@.take(buf@.len() as int) =~= buf@);
    res
}

/// Formats a hash as 64 lowercase hexadecimal digits.
pub fn hash_to_str(h: &Hash) -> (res: String)
    ensures
        res@ == spec_hex(h@),
{
    bytes_to_hex(h.as_slice())
}

/// Whether the hexadecimal form of `h` ends with three zeros, decided on
/// the last two bytes.
pub fn hash_meets_difficulty(h: &Hash) -> (r: bool)
    ensures
        r == meets_difficulty(h@),
{
    proof {
        let s = h@;
        let d1 = s.drop_last();
        lemma_hex_len(s);
        lemma_hex_len(d1);
        lemma_hex_len(d1.drop_last());
        assert(spec_hex(s) == spec_hex(d1) + seq![hex_digit(s[31] as int / 16), hex_digit(s[31] as int % 16)]);
        assert(spec_hex(d1) == spec_hex(d1.drop_last()) + seq![hex_digit(s[30] as int / 16), hex_digit(s[30] as int % 16)]);
    }
    h[31] == 0 && h[30] % 16 == 0
}

} // verus!
