//! Digests: SHA-256 of byte strings, leaf digests of integers and the
//! digest of a pair of child digests.

use sha2::Digest as _;
use vstd::prelude::*;

verus! {

/// What SHA-256 yields for a byte string.
pub uninterp spec fn sha256_of(data: Seq<u8>) -> Seq<u8>;

/// The digits of `n` in base ten, most significant first, as ASCII bytes.
pub open spec fn decimal_digits(n: nat) -> Seq<u8>
    decreases n,
{
    if n < 10 {
        seq![(48 + n) as u8]
    } else {
        decimal_digits(n / 10).push((48 + n % 10) as u8)
    }
}

/// The decimal text of an integer as ASCII bytes: a leading `-` when it is
/// negative, then its digits with no leading zero.
pub open spec fn decimal(v: int) -> Seq<u8> {
    if v < 0 {
        seq![45u8] + decimal_digits((-v) as nat)
    } else {
        decimal_digits(v as nat)
    }
}

/// The digest of a leaf: SHA-256 of the decimal text of its value.
pub open spec fn leaf_digest(v: i32) -> Seq<u8> {
    sha256_of(decimal(v as int))
}

/// The digest of an inner node: SHA-256 of the left child's bytes followed
/// by the right child's bytes.
pub open spec fn pair_digest(left: Seq<u8>, right: Seq<u8>) -> Seq<u8> {
    sha256_of(left + right)
}

/// Relies on sha2's `Sha256::digest`: a 32-byte digest that depends on the
/// bytes hashed alone.
#[verifier::external_body]
fn sha256(data: &[u8]) -> (r: [u8; 32])
    ensures
        r@ == sha256_of(data@),
{
    sha2::Sha256::digest(data).into()
}

/// Appends the decimal digits of `n` to `out`.
fn push_digits(n: u64, out: &mut Vec<u8>)
    ensures
        final(out)@ == old(out)@ + decimal_digits(n as nat),
    decreases n,
{
    if n < 10 {
        out.push((48 + n) as u8);
        assert(final(out)@ =~= old(out)@ + decimal_digits(n as nat));
    } else {
        push_digits(n / 10, out);
        out.push((48 + n % 10) as u8);
        assert(final(out)@ =~= old(out)@ + decimal_digits(n as nat));
    }
}

/// The decimal text of `v` as ASCII bytes.
pub fn decimal_bytes(v: i32) -> (r: Vec<u8>)
    ensures
        r@ == decimal(v as int),
{
    let mut out: Vec<u8> = Vec::new();
    if v < 0 {
        out.push(45u8);
        let m: i64 = v as i64;
        push_digits((-m) as u64, &mut out);
        assert(out@ =~= decimal(v as int));
    } else {
        push_digits(v as u64, &mut out);
        assert(out@ =~= decimal(v as int));
    }
    out
}

/// The leaf digest of `v`: SHA-256 of its decimal text.
pub fn hash_leaf(v: i32) -> (r: [u8; 32])
    ensures
        r@ == leaf_digest(v),
{
    let text = decimal_bytes(v);
    sha256(text.as_slice())
}

/// The digest of an inner node whose children are `left` and `right`.
pub fn hash_pair(left: &[u8; 32], right: &[u8; 32]) -> (r: [u8; 32])
    ensures
        r@ == pair_digest(left@, right@),
{
    let mut buf: Vec<u8> = Vec::new();
    let mut i: usize = 0;
    while i < 32
        invariant
            i <= 32,
            buf@ == left@.subrange(0, i as int),
        decreases 32 - i,
    {
        buf.push(left[i]);
        i = i + 1;
        assert(buf@ =~= left@.subrange(0, i as int));
    }
    let mut j: usize = 0;
    while j < 32
        invariant
            j <= 32,
            buf@ == left@ + right@.subrange(0, j as int),
        decreases 32 - j,
    {
        buf.push(right[j]);
        j = j + 1;
        assert(buf@ =~= left@ + right@.subrange(0, j as int));
    }
    assert(buf@ =~= left@ + right@);
    sha256(buf.as_slice())
}

} // verus!
