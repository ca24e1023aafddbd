use vstd::prelude::*;
use num_bigint::BigUint;

verus! {

/// The smaller of two integers.
pub open spec fn spec_min(a: int, b: int) -> int {
    if a <= b { a } else { b }
}

/// The larger of two integers.
pub open spec fn spec_max(a: int, b: int) -> int {
    if a >= b { a } else { b }
}

/// Clamp integer between a min integer and max integer
///
/// Like `x.max(minv).min(maxv)`: when `minv > maxv` the result is `maxv`.
pub fn clamp_i(x: i64, minv: i64, maxv: i64) -> (r: i64)
    ensures
        r == spec_min(spec_max(x as int, minv as int), maxv as int),
{
    let lower = if x >= minv { x } else { minv };
    if lower <= maxv { lower } else { maxv }
}

/// Max value of a BigUint 256 bit in a byte buffer
pub fn max_256_buf() -> (r: [u8; 32])
    ensures
        forall|i: int| 0 <= i < 32 ==> #[trigger] r@[i] == 0xFFu8,
{
    [0xFFu8; 32]
}

/// The slice `slice_vec` returns: empty when `start` is past the end,
/// otherwise `v[start..min(end, v.len())]`.
pub open spec fn spec_slice_vec<T>(v: Seq<T>, start: int, end: int) -> Seq<T> {
    if start >= v.len() {
        Seq::empty()
    } else {
        v.subrange(start, spec_min(end, v.len() as int))
    }
}

/// Take the part of `v` from `start` up to (not including) `end`, clamping
/// `end` to the length; a `start` past the end gives an empty slice.
pub fn slice_vec<T>(v: &[T], start: usize, end: usize) -> (r: &[T])
    requires
        start >= v@.len() || start <= spec_min(end as int, v@.len() as int),
    ensures
        r@ == spec_slice_vec(v@, start as int, end as int),
{
    if start >= v.len() {
        vstd::slice::slice_subrange(v, 0, 0)
    } else {
        let end = if end <= v.len() { end } else { v.len() };
        vstd::slice::slice_subrange(v, start, end)
    }
}

/// The first `k` pages of size `p` of `v`, one after another.
pub open spec fn pages<T>(v: Seq<T>, p: nat, k: nat) -> Seq<T>
    decreases k,
{
    if k == 0 {
        Seq::empty()
    } else {
        pages(v, p, (k - 1) as nat) + spec_slice_vec(v, (k - 1) * p, (k * p) as int)
    }
}

/// Pages taken with `slice_vec` cover a list without gaps or repeats: the
/// first `k` pages of size `p` are its first `min(k * p, len)` items, so once
/// `k * p` reaches the length they are the whole list.
pub proof fn law_pages_cover<T>(v: Seq<T>, p: nat, k: nat)
    requires
        p > 0,
    ensures
        pages(v, p, k) == v.take(spec_min((k * p) as int, v.len() as int)),
        k * p >= v.len() ==> pages(v, p, k) == v,
    decreases k,
{
    if k > 0 {
        let j = (k - 1) as nat;
        law_pages_cover(v, p, j);
        assert(k * p == j * p + p) by (nonlinear_arith)
            requires
                j == k - 1,
        ;
        assert(j * p >= 0) by (nonlinear_arith);
        let a = spec_min((j * p) as int, v.len() as int);
        let b = spec_min((k * p) as int, v.len() as int);
        if j * p >= v.len() {
            assert(pages(v, p, k) =~= v.take(b));
        } else {
            assert(v.take(a) + v.subrange((j * p) as int, b) =~= v.take(b));
        }
    }
    if k * p >= v.len() {
        assert(v.take(v.len() as int) =~= v);
    }
}

/// num-bigint's arbitrary-precision unsigned integer, carried through opaque.
#[verifier::external_type_specification]
#[verifier::external_body]
pub struct ExBigUint(BigUint);

/// What `BigUint::from_bytes_be` builds from a byte string.
pub uninterp spec fn spec_biguint_from_bytes_be(bytes: Seq<u8>) -> BigUint;

/// Calls `num_bigint::BigUint::from_bytes_be`, which reads the bytes as one
/// big-endian number. The contract only says that the result is the value that
/// function gives for these bytes; it states nothing of that number.
#[verifier::external_body]
fn biguint_from_bytes_be(bytes: &[u8]) -> (r: BigUint)
    ensures
        r == spec_biguint_from_bytes_be(bytes@),
{
    BigUint::from_bytes_be(bytes)
}

/// Max value of a BigUint 256 bit
pub fn max_256_bui() -> (r: BigUint)
    ensures
        r == spec_biguint_from_bytes_be(Seq::new(32, |i: int| 0xFFu8)),
{
    let buf = max_256_buf();
    let r = biguint_from_bytes_be(vstd::array::array_as_slice(&buf));
    assert(buf@ =~= Seq::new(32, |i: int| 0xFFu8));
    r
}

} // verus!
