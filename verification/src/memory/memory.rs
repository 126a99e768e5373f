use crate::bits::{bits_of, bv_clone, bv_from_elem};
use crate::bitvecutils::{get_bitvec_subset, try_bitvec_to_usize, window};
use crate::bus::Bus;
use crate::config::{RAM_SIZE, WORD_SIZE};
use crate::control::control::ControlLine;
use crate::control::links::ControlLinks;
use crate::memory::register::{driven, RORegister};
use crate::word::{bits_value, zeros};
use bit_vec::BitVec;
use vstd::prelude::*;

verus! {

/// The memory: `RAM_SIZE` words, addressed by the memory address register.
pub struct RAM {
    memory: Vec<BitVec>,
}

/// The words of a memory image: word `i` is the `WORD_SIZE` bits from
/// `i * WORD_SIZE` on, and is cleared where the image ends before.
pub open spec fn image_words(image: Seq<bool>) -> Seq<Seq<bool>> {
    Seq::new(
        RAM_SIZE as nat,
        |i: int| window(image, (i * WORD_SIZE) as nat, WORD_SIZE as nat),
    )
}

/// The word at `address`; a cleared word where the memory has no such
/// address.
pub open spec fn word_at(words: Seq<Seq<bool>>, address: Seq<bool>) -> Seq<bool> {
    if bits_value(address) < words.len() {
        words[bits_value(address) as int]
    } else {
        zeros(WORD_SIZE as nat)
    }
}

/// The words after a high phase: with the input line high the word at
/// `address` has been replaced by what the bus holds; no word changes
/// where the memory has no such address.
pub open spec fn stored(
    words: Seq<Seq<bool>>,
    input_high: bool,
    address: Seq<bool>,
    bus: Seq<bool>,
) -> Seq<Seq<bool>> {
    if input_high && bits_value(address) < words.len() {
        words.update(bits_value(address) as int, bus)
    } else {
        words
    }
}

impl View for RAM {
    type V = Seq<Seq<bool>>;

    closed spec fn view(&self) -> Seq<Seq<bool>> {
        Seq::new(self.memory@.len(), |i: int| bits_of(self.memory@[i]))
    }
}

impl RAM {
    /// A memory filled from the bits of an image.
    pub fn new(ramdump: &BitVec) -> (ram: Self)
        ensures
            ram@ == image_words(bits_of(*ramdump)),
    {
        let mut mem: Vec<BitVec> = Vec::new();
        let mut i: usize = 0;
        while i < RAM_SIZE
            invariant
                i <= RAM_SIZE,
                mem@.len() == i,
                forall|k: int|
                    0 <= k < i ==> bits_of(#[trigger] mem@[k]) == window(
                        bits_of(*ramdump),
                        (k * WORD_SIZE) as nat,
                        WORD_SIZE as nat,
                    ),
            decreases RAM_SIZE - i,
        {
            mem.push(get_bitvec_subset(ramdump, i * WORD_SIZE, WORD_SIZE));
            i += 1;
        }
        let ram = Self { memory: mem };
        assert(ram@ =~= image_words(bits_of(*ramdump)));
        ram
    }

    /// How many words the memory has.
    pub fn len(&self) -> (n: usize)
        ensures
            n == self@.len(),
    {
        self.memory.len()
    }

    /// The word at place `index`; a cleared word where the memory has no
    /// such place.
    pub fn word(&self, index: usize) -> (word: BitVec)
        ensures
            bits_of(word) == if index < self@.len() {
                self@[index as int]
            } else {
                zeros(WORD_SIZE as nat)
            },
    {
        if index < self.memory.len() {
            bv_clone(&self.memory[index])
        } else {
            bv_from_elem(WORD_SIZE, false)
        }
    }

    /// One high phase. With `RI` high the word that `mar` addresses
    /// latches the bus; with `RO` high that word is then driven onto the
    /// bus. An address that the memory does not have latches nothing and
    /// drives a cleared word.
    pub fn on_clock_high(&mut self, control_links: &ControlLinks, bus: &mut Bus, mar: &RORegister)
        requires
            control_links.wf(),
        ensures
            final(self)@ == stored(
                old(self)@,
                control_links.state(ControlLine::RI),
                mar@,
                old(bus)@,
            ),
            final(bus)@ == driven(
                old(bus)@,
                control_links.state(ControlLine::RO),
                word_at(final(self)@, mar@),
            ),
    {
        let address = try_bitvec_to_usize(&mar.read());
        let size = self.memory.len();
        if control_links.get_state(ControlLine::RI) {
            if let Some(index) = address {
                if index < size {
                    self.memory[index] = bus.read();
                }
            }
        }
        assert(self@ =~= stored(
            old(self)@,
            control_links.state(ControlLine::RI),
            mar@,
            old(bus)@,
        ));
        if control_links.get_state(ControlLine::RO) {
            let index = address.unwrap_or(size);
            bus.write(&self.word(index));
        }
    }
}

} // verus!
