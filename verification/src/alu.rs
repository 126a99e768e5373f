use crate::bits::{bits_of, bv_get, bv_len, bv_new, bv_push};
use crate::bitvecutils::{increment_bitset, incremented};
use crate::bus::Bus;
use crate::memory::register::RWRegister;
use crate::word::{
    bit_weight, bits_value, fit, inverted, lemma_fit_value, lemma_fit_wide, lemma_inverted_value,
    lemma_value_bound, lemma_value_push, lemma_word_of_bits, lemma_word_of_value, word_of,
};
use bit_vec::BitVec;
use vstd::arithmetic::div_mod::{
    lemma_add_mod_noop, lemma_mod_add_multiples_vanish, lemma_mod_bound, lemma_mod_twice,
    lemma_small_mod, lemma_sub_mod_noop,
};
use vstd::arithmetic::power2::{lemma2_to64, lemma_pow2_pos, lemma_pow2_unfold, pow2};
use vstd::prelude::*;

verus! {

/// The longer of two lengths.
pub open spec fn longer(a: nat, b: nat) -> nat {
    if a >= b {
        a
    } else {
        b
    }
}

/// The width of a sum: that of the longer operand, and one bit more where
/// the sum does not fit in it.
pub open spec fn sum_width(a: Seq<bool>, b: Seq<bool>) -> nat {
    let width = longer(a.len(), b.len());
    if bits_value(a) + bits_value(b) >= pow2(width) {
        width + 1
    } else {
        width
    }
}

/// The bits of the sum of the numbers that `a` and `b` denote.
pub open spec fn sum_bits(a: Seq<bool>, b: Seq<bool>) -> Seq<bool> {
    word_of(bits_value(a) + bits_value(b), sum_width(a, b))
}

/// The two's complement of `s` in `width` bits: the bits of the number
/// that, added to that of `s`, gives a multiple of `2^width`.
pub open spec fn twos_complement(s: Seq<bool>, width: nat) -> Seq<bool> {
    incremented(inverted(fit(s, width)))
}

/// Adds two bit vectors from bit 0 up, carrying. The sum is as long as the
/// longer operand, and one bit longer where a carry is left at the end.
pub fn sum_bitvecs(a: &BitVec, b: &BitVec) -> (result: BitVec)
    requires
        bits_of(*a).len() < usize::MAX,
        bits_of(*b).len() < usize::MAX,
    ensures
        bits_of(result) == sum_bits(bits_of(*a), bits_of(*b)),
        bits_of(result).len() == sum_width(bits_of(*a), bits_of(*b)),
        bits_value(bits_of(result)) == bits_value(bits_of(*a)) + bits_value(bits_of(*b)),
{
    let ghost x = bits_of(*a);
    let ghost y = bits_of(*b);
    let mut result = bv_new();
    let mut carry = false;
    let len_a = bv_len(a);
    let len_b = bv_len(b);
    let max_len = if len_a >= len_b {
        len_a
    } else {
        len_b
    };
    let mut i: usize = 0;
    proof {
        lemma2_to64();
        assert(fit(x, 0) =~= Seq::<bool>::empty());
        assert(fit(y, 0) =~= Seq::<bool>::empty());
    }
    while i < max_len
        invariant
            x == bits_of(*a),
            y == bits_of(*b),
            max_len == longer(x.len(), y.len()),
            max_len < usize::MAX,
            i <= max_len,
            bits_of(result).len() == i,
            bits_value(bits_of(result)) + bit_weight(carry, i as nat) == bits_value(
                fit(x, i as nat),
            ) + bits_value(fit(y, i as nat)),
        decreases max_len - i,
    {
        let bit_a = bv_get(a, i).unwrap_or(false);
        let bit_b = bv_get(b, i).unwrap_or(false);
        let ones: u8 = (if bit_a {
            1u8
        } else {
            0u8
        }) + (if bit_b {
            1u8
        } else {
            0u8
        }) + (if carry {
            1u8
        } else {
            0u8
        });
        proof {
            assert(fit(x, (i + 1) as nat) =~= fit(x, i as nat).push(bit_a));
            assert(fit(y, (i + 1) as nat) =~= fit(y, i as nat).push(bit_b));
            lemma_value_push(fit(x, i as nat), bit_a);
            lemma_value_push(fit(y, i as nat), bit_b);
            lemma_value_push(bits_of(result), ones % 2 == 1);
            lemma_pow2_unfold((i + 1) as nat);
        }
        bv_push(&mut result, ones % 2 == 1);
        carry = ones > 1;
        i += 1;
    }
    proof {
        lemma_fit_wide(x, max_len as nat);
        lemma_fit_wide(y, max_len as nat);
        lemma_value_bound(bits_of(result));
        lemma_value_push(bits_of(result), true);
    }
    if carry {
        bv_push(&mut result, true);
    }
    proof {
        lemma_word_of_bits(bits_of(result));
    }
    result
}

/// Adds two bit vectors as `sum_bitvecs` does; `None` where an operand is
/// so long that the sum could not hold a carry.
pub fn try_sum_bitvecs(a: &BitVec, b: &BitVec) -> (result: Option<BitVec>)
    ensures
        result is Some <==> bits_of(*a).len() < usize::MAX && bits_of(*b).len() < usize::MAX,
        result is Some ==> bits_of(result->0) == sum_bits(bits_of(*a), bits_of(*b)),
{
    if bv_len(a) == usize::MAX || bv_len(b) == usize::MAX {
        None
    } else {
        Some(sum_bitvecs(a, b))
    }
}

/// The sum of two operands of one width. Cut to that width, it denotes the
/// sum of their numbers modulo `2^width`. The sum has one bit more than
/// the operands exactly when the numbers add up to `2^width` or more, and
/// that bit, the carry that the cut drops, is then set.
pub proof fn lemma_sum_of_equal_widths(a: Seq<bool>, b: Seq<bool>)
    requires
        a.len() == b.len(),
    ensures
        bits_value(fit(sum_bits(a, b), a.len())) == (bits_value(a) + bits_value(b)) % pow2(a.len()),
        sum_bits(a, b).len() == a.len() || sum_bits(a, b).len() == a.len() + 1,
        (sum_bits(a, b).len() == a.len() + 1 && sum_bits(a, b)[a.len() as int]) <==> bits_value(a)
            + bits_value(b) >= pow2(a.len()),
{
    let width = a.len();
    let total = bits_value(a) + bits_value(b);
    lemma_value_bound(a);
    lemma_value_bound(b);
    lemma_pow2_unfold(width + 1);
    lemma_pow2_pos(width);
    lemma_word_of_value(total, sum_width(a, b));
    lemma_fit_value(sum_bits(a, b), width);
    if total >= pow2(width) {
        lemma_small_mod(total, pow2(width + 1));
        vstd::arithmetic::div_mod::lemma_fundamental_div_mod_converse(
            total as int,
            pow2(width) as int,
            1,
            total - pow2(width),
        );
    } else {
        lemma_small_mod(total, pow2(width));
    }
}

/// The two's complement of `value` in `width` bits.
pub fn negate_bitvec(value: &BitVec, width: usize) -> (negated: BitVec)
    ensures
        bits_of(negated) == twos_complement(bits_of(*value), width as nat),
        bits_of(negated).len() == width,
        (bits_value(bits_of(negated)) + bits_value(fit(bits_of(*value), width as nat))) % pow2(
            width as nat,
        ) == 0,
{
    let ghost fitted = fit(bits_of(*value), width as nat);
    let mut negated = bv_new();
    let mut i: usize = 0;
    while i < width
        invariant
            i <= width,
            fitted == fit(bits_of(*value), width as nat),
            bits_of(negated) =~= inverted(fitted).take(i as int),
        decreases width - i,
    {
        let bit = bv_get(value, i).unwrap_or(false);
        bv_push(&mut negated, !bit);
        i += 1;
    }
    assert(inverted(fitted).take(width as int) =~= inverted(fitted));
    increment_bitset(&mut negated);
    proof {
        let m = pow2(width as nat) as int;
        let n = bits_value(inverted(fitted)) as int;
        let v = bits_value(fitted) as int;
        lemma_inverted_value(fitted);
        lemma_pow2_pos(width as nat);
        lemma_word_of_value(((n + 1) % m) as nat, width as nat);
        lemma_mod_bound(n + 1, m);
        lemma_mod_twice(n + 1, m);
        // (n + 1) % m + v is congruent to n + 1 + v = m
        lemma_add_mod_noop(n + 1, v, m);
        lemma_value_bound(fitted);
        lemma_small_mod(v as nat, m as nat);
        vstd::arithmetic::div_mod::lemma_mod_self_0(m);
    }
    negated
}

/// The adder. It holds nothing: it works on the operand registers and
/// drives its result onto the bus.
pub struct ALU {}

impl ALU {
    /// The adder.
    pub fn new() -> (alu: Self) {
        Self {  }
    }

    /// Drives the sum of the two registers onto the bus, cut to the width
    /// of the bus.
    pub fn add(&self, reg_a: &RWRegister, reg_b: &RWRegister, bus: &mut Bus)
        requires
            reg_a@.len() < usize::MAX,
            reg_b@.len() < usize::MAX,
        ensures
            final(bus)@ == fit(sum_bits(reg_a@, reg_b@), old(bus)@.len()),
            bits_value(final(bus)@) == (bits_value(reg_a@) + bits_value(reg_b@)) % pow2(
                old(bus)@.len(),
            ),
    {
        let sum = sum_bitvecs(&reg_a.read(), &reg_b.read());
        proof {
            lemma_fit_value(bits_of(sum), bus@.len());
        }
        bus.write(&sum);
    }

    /// Drives the difference of the two registers onto the bus: the first
    /// plus the two's complement of the second in the width of the bus,
    /// cut to that width.
    pub fn sub(&self, reg_a: &RWRegister, reg_b: &RWRegister, bus: &mut Bus)
        requires
            reg_a@.len() < usize::MAX,
            old(bus)@.len() < usize::MAX,
        ensures
            final(bus)@ == fit(
                sum_bits(reg_a@, twos_complement(reg_b@, old(bus)@.len())),
                old(bus)@.len(),
            ),
            bits_value(final(bus)@) == (bits_value(reg_a@) - bits_value(reg_b@)) % (pow2(
                old(bus)@.len(),
            ) as int),
    {
        let width = bv_len(&bus.data);
        let negated = negate_bitvec(&reg_b.read(), width);
        let sum = sum_bitvecs(&reg_a.read(), &negated);
        proof {
            let m = pow2(width as nat) as int;
            let a = bits_value(reg_a@) as int;
            let b = bits_value(reg_b@) as int;
            let n = bits_value(bits_of(negated)) as int;
            let f = bits_value(fit(reg_b@, width as nat)) as int;
            lemma_pow2_pos(width as nat);
            lemma_fit_value(bits_of(sum), width as nat);
            lemma_fit_value(reg_b@, width as nat);
            lemma_difference(a, b, n, f, m);
        }
        bus.write(&sum);
    }
}

/// Adding the complement is subtracting, modulo `m`.
proof fn lemma_difference(a: int, b: int, n: int, f: int, m: int)
    requires
        0 < m,
        f == b % m,
        (n + f) % m == 0,
    ensures
        (a + n) % m == (a - b) % m,
{
    // a + n = (a - f) + (n + f), and a - f is congruent to a - b
    lemma_add_mod_noop(a - f, n + f, m);
    lemma_add_mod_noop(a - f, 0, m);
    lemma_sub_mod_noop(a, b, m);
    lemma_sub_mod_noop(a, f, m);
    lemma_mod_twice(b, m);
}

} // verus!
