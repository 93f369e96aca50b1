//! Timestamps.

use vstd::prelude::*;

verus! {

/// Seconds since the UNIX epoch.
pub type Timestamp = u64;

/// Calls `SystemTime::elapsed` on the UNIX epoch: the whole seconds from the
/// epoch to now, or `None` when the clock reads a time before the epoch.
/// Nothing is said of the value: it is the time.
#[verifier::external_body]
fn secs_since_epoch() -> (res: Option<u64>)
{
    match std::time::UNIX_EPOCH.elapsed() {
        Ok(d) => Some(d.as_secs()),
        Err(_) => None,
    }
}

/// The current time in whole seconds since the UNIX epoch, or `None` when
/// the clock reads a time before the epoch. Nothing more is said of the
/// value: it is the time.
pub fn make_timestamp() -> (ts: Option<Timestamp>) {
    secs_since_epoch()
}

/// The timestamp for a clock reading: the reading, or 0 (the epoch) for a
/// clock that reads a time before the epoch.
pub fn timestamp_or_epoch(reading: Option<Timestamp>) -> (t: Timestamp)
    ensures
        t == match reading {
            Some(s) => s,
            None => 0,
        },
{
    match reading {
        Some(s) => s,
        None => 0,
    }
}

/// The first `n` little-endian base-256 digits of `x`.
pub open spec fn le_bytes(x: nat, n: nat) -> Seq<u8>
    decreases n,
{
    if n == 0 {
        seq![]
    } else {
        seq![(x % 256) as u8] + le_bytes(x / 256, (n - 1) as nat)
    }
}

/// The eight little-endian bytes of a `u64`.
pub open spec fn u64_le(x: u64) -> Seq<u8> {
    le_bytes(x as nat, 8)
}

/// The eight little-endian bytes of `x`, as `u64::to_le_bytes` gives them.
pub fn u64_to_le_bytes(x: u64) -> (r: Vec<u8>)
    ensures
        r@ == u64_le(x),
{
    let mut out: Vec<u8> = Vec::new();
    let mut v: u64 = x;
    let mut i: usize = 0;
    while i < 8
        invariant
            i <= 8,
            out@ + le_bytes(v as nat, (8 - i) as nat) == le_bytes(x as nat, 8),
        decreases 8 - i,
    {
        let b: u8 = (v % 256) as u8;
        proof {
            let rest = le_bytes(v as nat / 256, (8 - i - 1) as nat);
            assert(le_bytes(v as nat, (8 - i) as nat) == seq![b] + rest);
            assert(out@.push(b) + rest =~= out@ + (seq![b] + rest));
        }
        out.push(b);
        v = v / 256;
        i = i + 1;
    }
    assert(out@ + le_bytes(v as nat, 0) =~= out@);
    out
}

/// Appends the bytes of `src` to `dst`.
pub fn append_bytes(dst: &mut Vec<u8>, src: &[u8])
    ensures
        final(dst)@ == old(dst)@ + src@,
{
    let mut i: usize = 0;
    while i < src.len()
        invariant
            i <= src@.len(),
            dst@ == old(dst)@ + src@.take(i as int),
        decreases src@.len() - i,
    {
        assert(src@.take(i + 1) =~= src@.take(i as int).push(src@[i as int]));
        dst.push(src[i]);
        i = i + 1;
    }
    assert(src@.take(src@.len() as int) =~= src@);
}

/// Whether two byte strings are equal.
pub fn bytes_eq(a: &[u8], b: &[u8]) -> (r: bool)
    ensures
        r == (a@ == b@),
{
    if a.len() != b.len() {
        return false;
    }
    let mut i: usize = 0;
    while i < a.len()
        invariant
            i <= a@.len(),
            a@.len() == b@.len(),
            forall|k: int| 0 <= k < i ==> a@[k] == b@[k],
        decreases a@.len() - i,
    {
        if a[i] != b[i] {
            return false;
        }
        i = i + 1;
    }
    assert(a@ =~= b@);
    true
}

} // verus!
