use vstd::arithmetic::div_mod::{
    lemma_fundamental_div_mod_converse, lemma_mod_breakdown, lemma_small_mod,
};
use vstd::arithmetic::power2::{
    lemma2_to64, lemma_pow2_adds, lemma_pow2_pos, lemma_pow2_strictly_increases, lemma_pow2_unfold, pow2,
};
use vstd::prelude::*;

verus! {

/// What a bit at index `i` contributes to a number: `2^i` when set.
pub open spec fn bit_weight(b: bool, i: nat) -> nat {
    if b {
        pow2(i)
    } else {
        0
    }
}

/// The number that a bit sequence denotes, index 0 being the least
/// significant bit.
pub open spec fn bits_value(s: Seq<bool>) -> nat
    decreases s.len(),
{
    if s.len() == 0 {
        0
    } else {
        bits_value(s.drop_last()) + bit_weight(s.last(), (s.len() - 1) as nat)
    }
}

/// `n` cleared bits.
pub open spec fn zeros(n: nat) -> Seq<bool> {
    Seq::new(n, |i: int| false)
}

/// `s` brought to `width` bits: the high bits are cut off when it is
/// longer, cleared bits are added above when it is shorter.
pub open spec fn fit(s: Seq<bool>, width: nat) -> Seq<bool> {
    Seq::new(
        width,
        |i: int|
            if i < s.len() {
                s[i]
            } else {
                false
            },
    )
}

/// Appending a bit adds its weight.
pub proof fn lemma_value_push(s: Seq<bool>, b: bool)
    ensures
        bits_value(s.push(b)) == bits_value(s) + bit_weight(b, s.len()),
{
    assert(s.push(b).drop_last() =~= s);
}

/// A sequence of `n` bits denotes a number below `2^n`.
pub proof fn lemma_value_bound(s: Seq<bool>)
    ensures
        bits_value(s) < pow2(s.len()),
    decreases s.len(),
{
    if s.len() == 0 {
        lemma_pow2_pos(0);
    } else {
        lemma_value_bound(s.drop_last());
        lemma_pow2_unfold(s.len());
    }
}

/// A prefix denotes no more than the whole.
pub proof fn lemma_value_take(s: Seq<bool>, k: int)
    requires
        0 <= k <= s.len(),
    ensures
        bits_value(s.take(k)) <= bits_value(s),
    decreases s.len(),
{
    if k == s.len() {
        assert(s.take(k) =~= s);
    } else {
        lemma_value_take(s.drop_last(), k);
        assert(s.drop_last().take(k) =~= s.take(k));
    }
}

/// Cleared bits denote zero.
pub proof fn lemma_value_zeros(n: nat)
    ensures
        bits_value(zeros(n)) == 0,
    decreases n,
{
    if n > 0 {
        lemma_value_zeros((n - 1) as nat);
        assert(zeros(n).drop_last() =~= zeros((n - 1) as nat));
    }
}

/// The value of a concatenation: the high part is shifted up by the
/// length of the low part.
pub proof fn lemma_value_concat(s: Seq<bool>, t: Seq<bool>)
    ensures
        bits_value(s + t) == bits_value(s) + pow2(s.len()) * bits_value(t),
    decreases t.len(),
{
    if t.len() == 0 {
        assert(s + t =~= s);
    } else {
        let ti = t.drop_last();
        lemma_value_concat(s, ti);
        assert((s + t).drop_last() =~= s + ti);
        lemma_pow2_adds(s.len(), ti.len());
        let p = pow2(s.len());
        let q = pow2(ti.len());
        let v = bits_value(ti);
        assert(p * (v + q) == p * v + p * q) by (nonlinear_arith);
        assert(p * (v + 0) == p * v) by (nonlinear_arith);
    }
}

/// Two sequences of one length that denote one number are equal: a length
/// and a value pin the bits down.
pub proof fn lemma_value_injective(s: Seq<bool>, t: Seq<bool>)
    requires
        s.len() == t.len(),
        bits_value(s) == bits_value(t),
    ensures
        s == t,
    decreases s.len(),
{
    if s.len() == 0 {
        assert(s =~= t);
    } else {
        lemma_value_bound(s.drop_last());
        lemma_value_bound(t.drop_last());
        lemma_value_injective(s.drop_last(), t.drop_last());
        assert(s =~= s.drop_last().push(s.last()));
        assert(t =~= t.drop_last().push(t.last()));
    }
}

/// Fitting to a width takes the value modulo `2^width`: cutting drops
/// the high part, and added cleared bits change nothing.
pub proof fn lemma_fit_value(s: Seq<bool>, width: nat)
    ensures
        bits_value(fit(s, width)) == bits_value(s) % pow2(width),
{
    lemma_pow2_pos(width);
    if s.len() <= width {
        let pad = zeros((width - s.len()) as nat);
        assert(fit(s, width) =~= s + pad);
        lemma_value_concat(s, pad);
        lemma_value_zeros(pad.len());
        assert(pad == zeros(pad.len()));
        assert(pow2(s.len()) * 0 == 0) by (nonlinear_arith);
        lemma_value_bound(s);
        if s.len() < width {
            lemma_pow2_strictly_increases(s.len(), width);
        }
        lemma_small_mod(bits_value(s), pow2(width));
    } else {
        let low = s.take(width as int);
        let high = s.skip(width as int);
        assert(fit(s, width) =~= low);
        assert(s =~= low + high);
        lemma_value_concat(low, high);
        lemma_value_bound(low);
        assert(low.len() == width);
        let d = pow2(width);
        let q = bits_value(high);
        assert(d * q == q * d) by (nonlinear_arith);
        lemma_fundamental_div_mod_converse(
            bits_value(s) as int,
            d as int,
            q as int,
            bits_value(low) as int,
        );
    }
}

/// A value that is no longer than `width` keeps its number when it is
/// fitted to `width`.
pub proof fn lemma_fit_wide(s: Seq<bool>, width: nat)
    requires
        s.len() <= width,
    ensures
        bits_value(fit(s, width)) == bits_value(s),
{
    lemma_fit_value(s, width);
    lemma_value_bound(s);
    lemma_pow2_pos(width);
    if s.len() < width {
        lemma_pow2_strictly_increases(s.len(), width);
    }
    lemma_small_mod(bits_value(s), pow2(width));
}

/// The `width` low binary digits of `value`, the least significant first.
pub open spec fn word_of(value: nat, width: nat) -> Seq<bool> {
    Seq::new(width, |i: int| (value / pow2(i as nat)) % 2 == 1)
}

/// The digits of `value` in `width` bits denote `value` modulo `2^width`.
pub proof fn lemma_word_of_value(value: nat, width: nat)
    ensures
        bits_value(word_of(value, width)) == value % pow2(width),
    decreases width,
{
    if width == 0 {
        lemma2_to64();
    } else {
        let low = (width - 1) as nat;
        lemma_word_of_value(value, low);
        let top = (value / pow2(low)) % 2 == 1;
        assert(word_of(value, width) =~= word_of(value, low).push(top));
        lemma_value_push(word_of(value, low), top);
        lemma_pow2_pos(low);
        lemma_pow2_unfold(width);
        lemma_mod_breakdown(value as int, pow2(low) as int, 2);
        let p = pow2(low) as int;
        let d = (value as int / p) % 2;
        assert(pow2(width) == p * 2);
        assert(d == 0 || d == 1);
        assert(p * d == (if top {
            p
        } else {
            0
        })) by (nonlinear_arith)
            requires
                d == 0 || d == 1,
                top == (d == 1),
        ;
    }
}

/// A bit sequence is the digits of its number in its length.
pub proof fn lemma_word_of_bits(s: Seq<bool>)
    ensures
        word_of(bits_value(s), s.len()) == s,
{
    lemma_word_of_value(bits_value(s), s.len());
    lemma_value_bound(s);
    lemma_small_mod(bits_value(s), pow2(s.len()));
    lemma_value_injective(word_of(bits_value(s), s.len()), s);
}

/// Each bit turned over.
pub open spec fn inverted(s: Seq<bool>) -> Seq<bool> {
    Seq::new(s.len(), |i: int| !s[i])
}

/// A sequence and its inverse add up to all bits set: `2^len - 1`.
pub proof fn lemma_inverted_value(s: Seq<bool>)
    ensures
        bits_value(inverted(s)) + bits_value(s) + 1 == pow2(s.len()),
    decreases s.len(),
{
    if s.len() == 0 {
        lemma2_to64();
    } else {
        lemma_inverted_value(s.drop_last());
        assert(inverted(s).drop_last() =~= inverted(s.drop_last()));
        lemma_pow2_unfold(s.len());
    }
}

} // verus!
