use crate::bits::{bits_of, bv_clone, bv_from_elem, bv_get, bv_len, bv_set};
use crate::bitvecutils::{get_bitvec_subset, window};
use crate::config::WORD_SIZE;
use crate::word::{bits_value, fit, lemma_fit_value, lemma_value_bound, zeros};
use bit_vec::BitVec;
use vstd::arithmetic::div_mod::lemma_small_mod;
use vstd::arithmetic::power2::{lemma_pow2_pos, lemma_pow2_strictly_increases, pow2};
use vstd::prelude::*;

verus! {

/// Which end of the bus a unit is wired to.
#[derive(Copy, Clone, PartialEq, Eq, Structural)]
pub enum BusSelector {
    /// The high-order bits.
    HSB,
    /// The low-order bits.
    LSB,
}

/// The shared data bus: one word, which holds what was last driven onto it.
pub struct Bus {
    pub data: BitVec,
}

/// The `count` bits at one end of `s`; `count` cleared bits when `s` has
/// fewer.
pub open spec fn bus_window(s: Seq<bool>, count: nat, selector: BusSelector) -> Seq<bool> {
    if count > s.len() {
        zeros(count)
    } else {
        match selector {
            BusSelector::LSB => s.subrange(0, count as int),
            BusSelector::HSB => s.subrange(s.len() - count, s.len() as int),
        }
    }
}

impl View for Bus {
    type V = Seq<bool>;

    open spec fn view(&self) -> Seq<bool> {
        bits_of(self.data)
    }
}

impl Bus {
    /// A bus of `WORD_SIZE` cleared bits.
    pub fn new() -> (bus: Self)
        ensures
            bus@ == zeros(WORD_SIZE as nat),
    {
        Self { data: bv_from_elem(WORD_SIZE, false) }
    }

    /// The `count` bits at the end of the bus that `selector` names.
    pub fn read_part(&self, count: usize, selector: BusSelector) -> (part: BitVec)
        ensures
            bits_of(part) == bus_window(self@, count as nat, selector),
    {
        let len = bv_len(&self.data);
        if count > len {
            return bv_from_elem(count, false);
        }
        let position = match selector {
            BusSelector::LSB => 0,
            BusSelector::HSB => len - count,
        };
        get_bitvec_subset(&self.data, position, count)
    }

    /// The word on the bus.
    pub fn read(&self) -> (word: BitVec)
        ensures
            bits_of(word) == self@,
    {
        bv_clone(&self.data)
    }

    /// Drives `value` onto the bus. The bus keeps its width: a longer value
    /// loses its high bits, a shorter one is extended with cleared bits.
    pub fn write(&mut self, value: &BitVec)
        ensures
            final(self)@ == fit(bits_of(*value), old(self)@.len()),
    {
        let len = bv_len(&self.data);
        let mut i: usize = 0;
        while i < len
            invariant
                len == old(self)@.len(),
                self@.len() == len,
                i <= len,
                forall|k: int| 0 <= k < i ==> self@[k] == fit(bits_of(*value), len as nat)[k],
            decreases len - i,
        {
            let bit = bv_get(value, i).unwrap_or(false);
            bv_set(&mut self.data, i, bit);
            i += 1;
        }
        assert(self@ =~= fit(bits_of(*value), len as nat));
    }
}

/// What is read after a write is the written value brought to the width of
/// the bus, whatever the bus held and however long the value is: as a
/// number it is the value modulo `2^width`, so a value that fits in the
/// bus is read back as the same number.
pub proof fn lemma_write_then_read(before: Bus, value: BitVec, after: Bus, word: BitVec)
    requires
        after@ == fit(bits_of(value), before@.len()),
        bits_of(word) == after@,
    ensures
        bits_of(word).len() == before@.len(),
        forall|i: int|
            0 <= i < before@.len() ==> bits_of(word)[i] == (i < bits_of(value).len() && bits_of(
                value,
            )[i]),
        bits_value(bits_of(word)) == bits_value(bits_of(value)) % pow2(before@.len()),
        bits_of(value).len() <= before@.len() ==> bits_value(bits_of(word)) == bits_value(
            bits_of(value),
        ),
{
    let width = before@.len();
    let v = bits_of(value);
    lemma_fit_value(v, width);
    if v.len() <= width {
        lemma_value_bound(v);
        lemma_pow2_pos(width);
        if v.len() < width {
            lemma_pow2_strictly_increases(v.len(), width);
        }
        lemma_small_mod(bits_value(v), pow2(width));
    }
}

} // verus!
