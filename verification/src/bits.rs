use bit_vec::BitVec;
use vstd::prelude::*;

verus! {

/// `bit_vec::BitVec`, a growable vector of bits. Nothing inside it is
/// seen here: what it holds is spoken of through `bits_of`, and what each
/// of its methods does is taken from the functions below, which are
/// believed and not proved.
#[verifier::external_type_specification]
#[verifier::external_body]
#[verifier::reject_recursive_types(B)]
pub struct ExBitVec<B>(BitVec<B>);

/// The bits that a `BitVec` holds, index 0 first: what `BitVec::get`
/// gives for each index below `BitVec::len`.
pub uninterp spec fn bits_of(v: BitVec) -> Seq<bool>;

/// Bit `k` of a byte, bit 0 being the least significant.
pub open spec fn byte_bit(b: u8, k: u8) -> bool {
    (b >> k) & 1u8 == 1u8
}

/// `BitVec::new`: the empty vector.
#[verifier::external_body]
pub(crate) fn bv_new() -> (r: BitVec)
    ensures
        bits_of(r) == Seq::<bool>::empty(),
{
    BitVec::new()
}

/// `BitVec::from_elem`: `nbits` copies of `bit`.
#[verifier::external_body]
pub(crate) fn bv_from_elem(nbits: usize, bit: bool) -> (r: BitVec)
    ensures
        bits_of(r) == Seq::new(nbits as nat, |i: int| bit),
{
    BitVec::from_elem(nbits, bit)
}

/// `BitVec::len`: the number of bits held.
#[verifier::external_body]
pub(crate) fn bv_len(v: &BitVec) -> (n: usize)
    ensures
        n == bits_of(*v).len(),
{
    v.len()
}

/// `BitVec::get`: the bit at `i`, or `None` at and past the length.
#[verifier::external_body]
pub(crate) fn bv_get(v: &BitVec, i: usize) -> (r: Option<bool>)
    ensures
        r == if i < bits_of(*v).len() {
            Some(bits_of(*v)[i as int])
        } else {
            None
        },
{
    v.get(i)
}

/// `BitVec::set`: replaces the bit at `i`; the outside function panics
/// when `i` is out of bounds, which `requires` leaves out.
#[verifier::external_body]
pub(crate) fn bv_set(v: &mut BitVec, i: usize, x: bool)
    requires
        i < bits_of(*old(v)).len(),
    ensures
        bits_of(*final(v)) == bits_of(*old(v)).update(i as int, x),
{
    v.set(i, x)
}

/// `BitVec::push`: appends one bit; the outside function panics when the
/// length would pass `usize::MAX`, which `requires` leaves out.
#[verifier::external_body]
pub(crate) fn bv_push(v: &mut BitVec, elem: bool)
    requires
        bits_of(*old(v)).len() < usize::MAX,
    ensures
        bits_of(*final(v)) == bits_of(*old(v)).push(elem),
{
    v.push(elem)
}

/// `Clone::clone` of a `BitVec`: the same bits.
#[verifier::external_body]
pub(crate) fn bv_clone(v: &BitVec) -> (r: BitVec)
    ensures
        bits_of(r) == bits_of(*v),
{
    v.clone()
}

/// `BitVec::from_bytes`: eight bits for each byte, the most significant
/// bit of each byte first; the outside function panics when the number of
/// bits passes `usize::MAX`, which `requires` leaves out.
#[verifier::external_body]
pub(crate) fn bv_from_bytes(bytes: &Vec<u8>) -> (r: BitVec)
    requires
        bytes@.len() * 8 <= usize::MAX,
    ensures
        bits_of(r) == Seq::new(
            bytes@.len() * 8,
            |i: int| byte_bit(bytes@[i / 8], (7 - i % 8) as u8),
        ),
{
    BitVec::from_bytes(bytes)
}

/// `BitVec::truncate`: keeps the first `len` bits; a vector that is no
/// longer than `len` stays as it is.
#[verifier::external_body]
pub(crate) fn bv_truncate(v: &mut BitVec, len: usize)
    ensures
        bits_of(*final(v)) == if len < bits_of(*old(v)).len() {
            bits_of(*old(v)).take(len as int)
        } else {
            bits_of(*old(v))
        },
{
    v.truncate(len)
}

/// `PartialEq::eq` of two `BitVec`s: the same length and the same bits.
#[verifier::external_body]
pub(crate) fn bv_eq(a: &BitVec, b: &BitVec) -> (r: bool)
    ensures
        r == (bits_of(*a) == bits_of(*b)),
{
    a == b
}

} // verus!
