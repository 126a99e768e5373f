use crate::bits::{bits_of, bv_from_elem, bv_get, bv_len, bv_new, bv_push, bv_set, byte_bit};
use crate::word::{
    bits_value, inverted, lemma_inverted_value, lemma_value_bound, lemma_value_concat,
    lemma_value_injective, lemma_value_push, lemma_value_take, lemma_value_zeros,
    lemma_word_of_bits, lemma_word_of_value, word_of, zeros,
};
use bit_vec::BitVec;
use vstd::arithmetic::div_mod::{lemma_mod_self_0, lemma_small_mod};
use vstd::arithmetic::power2::{lemma2_to64, lemma_pow2_pos, lemma_pow2_unfold, pow2};
use vstd::prelude::*;
use vstd::string::StringExecFns;

verus! {

/// The `size` bits of `s` from `position` on, or `size` cleared bits
/// where that window reaches past the end of `s`.
pub open spec fn window(s: Seq<bool>, position: nat, size: nat) -> Seq<bool> {
    if position + size <= s.len() {
        s.subrange(position as int, (position + size) as int)
    } else {
        zeros(size)
    }
}

/// Copies a window of `size` bits out of `bitvec`. A window that does not
/// lie inside `bitvec` gives `size` cleared bits.
pub fn get_bitvec_subset(bitvec: &BitVec, position: usize, size: usize) -> (subset: BitVec)
    ensures
        bits_of(subset) == window(bits_of(*bitvec), position as nat, size as nat),
        bits_of(subset).len() == size,
        position + size > bits_of(*bitvec).len() ==> bits_of(subset) == zeros(size as nat),
{
    let len = bv_len(bitvec);
    if size > len || position > len - size {
        return bv_from_elem(size, false);
    }
    let mut subset = bv_new();
    let mut i: usize = 0;
    while i < size
        invariant
            len == bits_of(*bitvec).len(),
            position + size <= len,
            i <= size,
            bits_of(subset) == bits_of(*bitvec).subrange(position as int, position + i),
        decreases size - i,
    {
        let bit = bv_get(bitvec, position + i).unwrap_or(false);
        bv_push(&mut subset, bit);
        i += 1;
        assert(bits_of(subset) =~= bits_of(*bitvec).subrange(position as int, position + i));
    }
    subset
}

/// The number that `bitvec` denotes, bit 0 being the least significant;
/// `None` when that number does not fit in a `usize`.
pub fn try_bitvec_to_usize(bitvec: &BitVec) -> (value: Option<usize>)
    ensures
        value == if bits_value(bits_of(*bitvec)) <= usize::MAX {
            Some(bits_value(bits_of(*bitvec)) as usize)
        } else {
            None
        },
{
    let ghost bits = bits_of(*bitvec);
    let len = bv_len(bitvec);
    let mut value: usize = 0;
    // `weight` is 2^index for as long as that fits.
    let mut weight: usize = 1;
    let mut weight_fits = true;
    let mut index: usize = 0;
    proof {
        lemma2_to64();
        assert(bits.take(0) =~= Seq::<bool>::empty());
    }
    while index < len
        invariant
            bits == bits_of(*bitvec),
            len == bits.len(),
            index <= len,
            value == bits_value(bits.take(index as int)),
            weight_fits ==> weight == pow2(index as nat),
            !weight_fits ==> pow2(index as nat) > usize::MAX,
        decreases len - index,
    {
        let bit = bv_get(bitvec, index).unwrap_or(false);
        proof {
            assert(bits.take(index + 1) =~= bits.take(index as int).push(bits[index as int]));
            lemma_value_push(bits.take(index as int), bits[index as int]);
            lemma_value_take(bits, index + 1);
            lemma_pow2_unfold((index + 1) as nat);
        }
        if bit {
            if !weight_fits || weight > usize::MAX - value {
                return None;
            }
            value = value + weight;
        }
        if weight_fits && weight <= usize::MAX / 2 {
            weight = weight * 2;
        } else {
            weight_fits = false;
        }
        index += 1;
    }
    assert(bits.take(len as int) =~= bits);
    Some(value)
}

/// The number that `bitvec` denotes, bit 0 being the least significant.
/// The number has to fit in a `usize`.
pub fn bitvec_to_usize(bitvec: &BitVec) -> (value: usize)
    requires
        bits_value(bits_of(*bitvec)) <= usize::MAX,
    ensures
        value == bits_value(bits_of(*bitvec)),
{
    try_bitvec_to_usize(bitvec).unwrap_or(0)
}

/// The bits of the number after the one that `s` denotes, in the width of
/// `s`: past the highest number of that width comes 0.
pub open spec fn incremented(s: Seq<bool>) -> Seq<bool> {
    word_of((bits_value(s) + 1) % pow2(s.len()), s.len())
}

/// `n` set bits.
pub open spec fn ones(n: nat) -> Seq<bool> {
    Seq::new(n, |i: int| true)
}

/// What an increment gives: the same width, and the next number modulo
/// `2^width`.
pub proof fn lemma_incremented_value(s: Seq<bool>)
    ensures
        incremented(s).len() == s.len(),
        bits_value(incremented(s)) == (bits_value(s) + 1) % pow2(s.len()),
{
    let m = pow2(s.len());
    lemma_pow2_pos(s.len());
    lemma_word_of_value((bits_value(s) + 1) % m, s.len());
    vstd::arithmetic::div_mod::lemma_mod_twice((bits_value(s) + 1) as int, m as int);
}

/// The increment of all bits set is all bits cleared.
pub proof fn lemma_increment_wraps(n: nat)
    ensures
        incremented(ones(n)) == zeros(n),
{
    lemma_value_zeros(n);
    assert(inverted(zeros(n)) =~= ones(n));
    lemma_inverted_value(zeros(n));
    lemma_pow2_pos(n);
    lemma_mod_self_0(pow2(n) as int);
    lemma_incremented_value(ones(n));
    lemma_value_injective(incremented(ones(n)), zeros(n));
}

/// Adds one to the number that `bitvec` denotes, carrying from bit 0 up.
/// The width stays; when every bit was set the result is all cleared.
pub fn increment_bitset(bitvec: &mut BitVec)
    ensures
        bits_of(*final(bitvec)) == incremented(bits_of(*old(bitvec))),
        bits_of(*final(bitvec)).len() == bits_of(*old(bitvec)).len(),
        bits_value(bits_of(*final(bitvec))) == (bits_value(bits_of(*old(bitvec))) + 1) % pow2(
            bits_of(*old(bitvec)).len(),
        ),
{
    let ghost before = bits_of(*bitvec);
    let len = bv_len(bitvec);
    let mut carry = true;
    let mut i: usize = 0;
    proof {
        lemma2_to64();
        assert(before.take(0) =~= Seq::<bool>::empty());
        assert(before.skip(0) =~= before);
    }
    while carry && i < len
        invariant
            before == bits_of(*old(bitvec)),
            len == before.len(),
            bits_of(*bitvec).len() == len,
            i <= len,
            carry ==> bits_value(bits_of(*bitvec).take(i as int)) == 0,
            carry ==> bits_value(before.take(i as int)) + 1 == pow2(i as nat),
            carry ==> bits_of(*bitvec).skip(i as int) == before.skip(i as int),
            !carry ==> bits_value(bits_of(*bitvec)) == bits_value(before) + 1,
        decreases len - i,
    {
        let ghost cur = bits_of(*bitvec);
        let bit = bv_get(bitvec, i).unwrap_or(false);
        assert(cur[i as int] == cur.skip(i as int)[0]);
        assert(bit == before[i as int]);
        bv_set(bitvec, i, !bit);
        if !bit {
            carry = false;
        }
        proof {
            let now = bits_of(*bitvec);
            let rest = before.skip(i + 1);
            assert(now.take(i + 1) =~= cur.take(i as int).push(!bit));
            assert(before.take(i + 1) =~= before.take(i as int).push(bit));
            assert(now.skip(i + 1) =~= rest) by {
                assert forall|k: int| 0 <= k < rest.len() implies now.skip(i + 1)[k] == rest[k] by {
                    assert(cur.skip(i as int)[k + 1] == before.skip(i as int)[k + 1]);
                }
            }
            lemma_value_push(cur.take(i as int), !bit);
            lemma_value_push(before.take(i as int), bit);
            lemma_pow2_unfold((i + 1) as nat);
            if !bit {
                assert(now =~= now.take(i + 1) + rest);
                assert(before =~= before.take(i + 1) + rest);
                lemma_value_concat(now.take(i + 1), rest);
                lemma_value_concat(before.take(i + 1), rest);
            }
        }
        i += 1;
    }
    proof {
        let now = bits_of(*bitvec);
        let m = pow2(len as nat);
        lemma_pow2_pos(len as nat);
        if carry {
            assert(now.take(len as int) =~= now);
            assert(before.take(len as int) =~= before);
            lemma_mod_self_0(m as int);
        } else {
            lemma_value_bound(now);
            lemma_small_mod(bits_value(now), m);
        }
    }
    if carry {
        let cleared = bv_from_elem(len, false);
        proof {
            lemma_value_zeros(len as nat);
        }
        *bitvec = cleared;
    }
    proof {
        lemma_word_of_bits(bits_of(*bitvec));
    }
}

/// The set bit `1 << j` shows at index `j` and nowhere else.
proof fn lemma_or_bit(r: u8, j: u8, k: u8)
    by (bit_vector)
    requires
        j < 8,
        k < 8,
    ensures
        byte_bit(r | (1u8 << j), k) == (k == j || byte_bit(r, k)),
{
}

/// Masking with `1 << i` tests bit `i`.
proof fn lemma_mask_bit(b: u8, i: u8)
    by (bit_vector)
    requires
        i < 8,
    ensures
        (b & (1u8 << i) != 0) == byte_bit(b, i),
{
}

/// The byte 0 has no bit set.
proof fn lemma_zero_byte(k: u8)
    by (bit_vector)
    requires
        k < 8,
    ensures
        !byte_bit(0u8, k),
{
}

/// Mirrors a byte: bit `k` of the result is bit `7 - k` of `byte`.
pub fn reverse_bits_in_byte(byte: u8) -> (reversed: u8)
    ensures
        forall|k: u8| k < 8 ==> #[trigger] byte_bit(reversed, k) == byte_bit(byte, (7 - k) as u8),
{
    let mut reversed: u8 = 0u8;
    let mut i: u8 = 0;
    proof {
        assert forall|k: u8| k < 8 implies !#[trigger] byte_bit(reversed, k) by {
            lemma_zero_byte(k);
        }
    }
    while i < 8
        invariant
            i <= 8,
            forall|k: u8|
                k < 8 ==> #[trigger] byte_bit(reversed, k) == (7 - k < i && byte_bit(
                    byte,
                    (7 - k) as u8,
                )),
        decreases 8 - i,
    {
        let ghost prev = reversed;
        proof {
            lemma_mask_bit(byte, i);
        }
        if byte & (1u8 << i) != 0 {
            reversed = reversed | (1u8 << (7 - i));
            proof {
                assert forall|k: u8| k < 8 implies #[trigger] byte_bit(reversed, k) == (k == 7 - i
                    || byte_bit(prev, k)) by {
                    lemma_or_bit(prev, (7 - i) as u8, k);
                }
            }
        }
        i += 1;
    }
    reversed
}

/// The bits of a byte sequence: byte after byte, each with its least
/// significant bit first.
pub open spec fn bytes_to_bits(bytes: Seq<u8>) -> Seq<bool> {
    Seq::new(bytes.len() * 8, |i: int| byte_bit(bytes[i / 8], (i % 8) as u8))
}

/// Lays a memory image out as bits: byte after byte, each with its least
/// significant bit first.
pub fn convert_ramdump_to_bitvec(ramdump: &Vec<u8>) -> (bitvec: BitVec)
    requires
        ramdump.len() * 8 <= usize::MAX,
    ensures
        bits_of(bitvec) == bytes_to_bits(ramdump@),
{
    let mut bitvec = bv_new();
    let mut n: usize = 0;
    while n < ramdump.len()
        invariant
            n <= ramdump.len(),
            ramdump.len() * 8 <= usize::MAX,
            bits_of(bitvec) =~= bytes_to_bits(ramdump@.take(n as int)),
        decreases ramdump.len() - n,
    {
        let byte = ramdump[n];
        let reversed_byte = reverse_bits_in_byte(byte);
        let ghost done = bits_of(bitvec);
        let mut i: u8 = 0;
        while i < 8
            invariant
                i <= 8,
                n < ramdump.len(),
                ramdump.len() * 8 <= usize::MAX,
                done.len() == n * 8,
                forall|k: u8| k < 8 ==> #[trigger] byte_bit(reversed_byte, k) == byte_bit(byte, (7 - k) as u8),
                bits_of(bitvec) =~= done + Seq::new(i as nat, |k: int| byte_bit(byte, k as u8)),
            decreases 8 - i,
        {
            proof {
                lemma_mask_bit(reversed_byte, (7 - i) as u8);
                assert(byte_bit(reversed_byte, (7 - i) as u8) == byte_bit(byte, i));
            }
            bv_push(&mut bitvec, (reversed_byte & (1u8 << (7 - i))) != 0);
            i += 1;
        }
        n += 1;
        proof {
            let next = bytes_to_bits(ramdump@.take(n as int));
            assert(bits_of(bitvec).len() == next.len());
            assert forall|j: int| 0 <= j < next.len() implies bits_of(bitvec)[j] == next[j] by {
                if j < done.len() {
                    assert(ramdump@.take(n as int)[j / 8] == ramdump@.take(n - 1)[j / 8]);
                } else {
                    assert(j / 8 == n - 1);
                    assert(j % 8 == j - done.len());
                }
            }
        }
    }
    assert(ramdump@.take(n as int) =~= ramdump@);
    bitvec
}

/// A text of binary digits for a bit vector.
pub trait BinaryDisplay {
    /// The digits `'0'` and `'1'`, the highest bit first.
    fn to_bin_string(&self) -> String;
}

/// The binary digits of `s`, the highest index first.
pub open spec fn bin_digits(s: Seq<bool>) -> Seq<char> {
    Seq::new(
        s.len(),
        |i: int|
            if s[s.len() - 1 - i] {
                '1'
            } else {
                '0'
            },
    )
}

impl BinaryDisplay for BitVec {
    fn to_bin_string(&self) -> (text: String)
        ensures
            text@ == bin_digits(bits_of(*self)),
    {
        let len = bv_len(self);
        let mut text = String::new();
        let mut i: usize = 0;
        proof {
            reveal_strlit("1");
            reveal_strlit("0");
        }
        while i < len
            invariant
                len == bits_of(*self).len(),
                i <= len,
                "1"@ == seq!['1'],
                "0"@ == seq!['0'],
                text@ =~= bin_digits(bits_of(*self)).take(i as int),
            decreases len - i,
        {
            let bit = bv_get(self, len - 1 - i).unwrap_or(false);
            if bit {
                text.append("1");
            } else {
                text.append("0");
            }
            i += 1;
        }
        assert(bin_digits(bits_of(*self)).take(len as int) =~= bin_digits(bits_of(*self)));
        text
    }
}

} // verus!
