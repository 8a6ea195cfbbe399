//! Cryptographic primitives the core relies on: a digest, a constant-time
//! byte comparison, and a keyed message authentication code built from the
//! digest. Access tokens are authenticated with the MAC; submitted password
//! proofs are compared against stored hashes in constant time so that a
//! failure is indistinguishable in timing from a non-existent account.
use vstd::prelude::*;

verus! {

/// What `openssl::sha::sha256` returns for the given bytes; the digest is a
/// function of its input alone.
pub uninterp spec fn sha256_of(data: Seq<u8>) -> Seq<u8>;

/// Relies on `openssl::sha::sha256`: a 32-byte digest computed from the
/// input bytes alone.
#[verifier::external_body]
fn sha256_bytes(data: &[u8]) -> (r: Vec<u8>)
    ensures
        r@ == sha256_of(data@),
        r@.len() == 32,
{
    openssl::sha::sha256(data).to_vec()
}

/// Relies on `openssl::memcmp::eq`: returns whether the two byte slices are
/// equal, in constant time; it panics unless the lengths match, so equal
/// lengths are required here.
#[verifier::external_body]
pub(crate) fn ct_eq_bytes(a: &[u8], b: &[u8]) -> (r: bool)
    requires
        a@.len() == b@.len(),
    ensures
        r == (a@ == b@),
{
    openssl::memcmp::eq(a, b)
}

/// The keyed authentication code over a message: the digest of the key
/// followed by the message.
pub open spec fn mac_of(key: Seq<u8>, msg: Seq<u8>) -> Seq<u8> {
    sha256_of(key + msg)
}

/// Appends all of `src` onto `dst`.
pub fn push_all(dst: &mut Vec<u8>, src: &[u8])
    ensures
        final(dst)@ == old(dst)@ + src@,
{
    let mut i: usize = 0;
    while i < src.len()
        invariant
            i <= src@.len(),
            dst@ == old(dst)@ + src@.take(i as int),
        decreases src@.len() - i,
    {
        dst.push(src[i]);
        proof {
            assert(old(dst)@ + src@.take(i + 1) =~= (old(dst)@ + src@.take(i as int)).push(
                src@[i as int],
            ));
        }
        i = i + 1;
    }
    proof {
        assert(src@.take(src@.len() as int) =~= src@);
    }
}

/// Computes the keyed authentication code of `msg` under `key`.
pub fn compute_mac(key: &[u8], msg: &[u8]) -> (r: Vec<u8>)
    ensures
        r@ == mac_of(key@, msg@),
        r@.len() == 32,
{
    let mut joined: Vec<u8> = Vec::new();
    push_all(&mut joined, key);
    push_all(&mut joined, msg);
    proof {
        assert(joined@ =~= key@ + msg@);
    }
    sha256_bytes(joined.as_slice())
}

/// Decides whether `sig` is the authentication code of `msg` under `key`,
/// comparing in constant time.
pub fn mac_matches(key: &[u8], msg: &[u8], sig: &[u8]) -> (r: bool)
    ensures
        r == (sig@ == mac_of(key@, msg@)),
{
    let expected = compute_mac(key, msg);
    if sig.len() != 32 {
        false
    } else {
        ct_eq_bytes(sig, expected.as_slice())
    }
}

/// The little-endian encoding of `x` into `n` bytes.
pub open spec fn le_bytes(x: nat, n: nat) -> Seq<u8>
    decreases n,
{
    if n == 0 {
        Seq::empty()
    } else {
        seq![(x % 256) as u8] + le_bytes(x / 256, (n - 1) as nat)
    }
}

/// Appends the eight-byte little-endian encoding of `x` onto `out`.
pub fn push_u64_le(out: &mut Vec<u8>, x: u64)
    ensures
        final(out)@ == old(out)@ + le_bytes(x as nat, 8),
{
    let mut cur: u64 = x;
    let mut k: usize = 0;
    while k < 8
        invariant
            k <= 8,
            out@.len() == old(out)@.len() + k,
            old(out)@ + le_bytes(x as nat, 8) == out@ + le_bytes(cur as nat, (8 - k) as nat),
        decreases 8 - k,
    {
        let b: u8 = (cur % 256) as u8;
        proof {
            assert(le_bytes(cur as nat, (8 - k) as nat) == seq![b] + le_bytes(
                cur as nat / 256,
                (8 - k - 1) as nat,
            ));
            assert(out@.push(b) + le_bytes(cur as nat / 256, (8 - k - 1) as nat) =~= out@ + (
            seq![b] + le_bytes(cur as nat / 256, (8 - k - 1) as nat)));
        }
        out.push(b);
        cur = cur / 256;
        k = k + 1;
    }
    proof {
        assert(le_bytes(cur as nat, 0) =~= Seq::<u8>::empty());
        assert(out@ + Seq::<u8>::empty() =~= out@);
    }
}

} // verus!
