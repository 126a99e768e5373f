use crate::bits::{bits_of, bv_eq, bv_from_bytes, bv_truncate, byte_bit};
use crate::config::OPCODE_SIZE;
use crate::control::control::ControlLine;
use bit_vec::BitVec;
use vstd::prelude::*;

verus! {

/// The instructions of the machine.
#[derive(Clone, Copy, PartialEq, Eq, Hash, Structural, Debug)]
pub enum OpCode {
    /// No operation.
    NOP,
    /// Load register A from memory.
    LDA,
    /// Add a word of memory to register A.
    ADD,
    /// Subtract a word of memory from register A.
    SUB,
    /// Multiply; reserved.
    MUL,
    /// Copy register A to the output register.
    OUT,
    /// Halt.
    HLT,
}

/// The opcode table: the bit pattern of each instruction, as it stands in
/// the opcode field, the lowest bit of the field first.
pub struct Decoder {
    opcodes: Vec<(OpCode, BitVec)>,
}

/// A microcode program as a sequence of steps, each the lines that the
/// step asserts.
pub open spec fn program_view(program: Vec<Vec<ControlLine>>) -> Seq<Seq<ControlLine>> {
    Seq::new(program@.len(), |i: int| program@[i]@)
}

impl OpCode {
    /// The pattern of the instruction in the opcode field, the lowest bit
    /// of the field first.
    pub open spec fn pattern(self) -> Seq<bool> {
        match self {
            OpCode::NOP => seq![false, false, false, false],
            OpCode::LDA => seq![true, false, false, false],
            OpCode::ADD => seq![false, true, false, false],
            OpCode::SUB => seq![true, true, false, false],
            OpCode::MUL => seq![false, false, true, false],
            OpCode::OUT => seq![true, false, true, false],
            OpCode::HLT => seq![true, true, true, true],
        }
    }

    /// The execute steps of the instruction.
    pub open spec fn microcode(self) -> Seq<Seq<ControlLine>> {
        match self {
            OpCode::NOP => seq![],
            OpCode::LDA => seq![seq![ControlLine::MI], seq![ControlLine::RO, ControlLine::AI]],
            OpCode::ADD => seq![
                seq![ControlLine::MI],
                seq![ControlLine::RO, ControlLine::BI],
                seq![ControlLine::EO, ControlLine::AI],
            ],
            OpCode::SUB => seq![
                seq![ControlLine::MI],
                seq![ControlLine::RO, ControlLine::BI],
                seq![ControlLine::SU, ControlLine::AI],
            ],
            OpCode::MUL => seq![],
            OpCode::OUT => seq![seq![ControlLine::AO, ControlLine::OI]],
            OpCode::HLT => seq![seq![ControlLine::HLT]],
        }
    }

    /// The execute steps of the instruction.
    pub fn microcode_steps(&self) -> (program: Vec<Vec<ControlLine>>)
        ensures
            program_view(program) == self.microcode(),
    {
        let program = match self {
            OpCode::NOP => vec![],
            OpCode::LDA => vec![vec![ControlLine::MI], vec![ControlLine::RO, ControlLine::AI]],
            OpCode::ADD => vec![
                vec![ControlLine::MI],
                vec![ControlLine::RO, ControlLine::BI],
                vec![ControlLine::EO, ControlLine::AI],
            ],
            OpCode::SUB => vec![
                vec![ControlLine::MI],
                vec![ControlLine::RO, ControlLine::BI],
                vec![ControlLine::SU, ControlLine::AI],
            ],
            OpCode::MUL => vec![],
            OpCode::OUT => vec![vec![ControlLine::AO, ControlLine::OI]],
            OpCode::HLT => vec![vec![ControlLine::HLT]],
        };
        assert(program_view(program) =~~= self.microcode());
        program
    }
}

/// The instruction whose pattern `bits` is, if it is one.
pub open spec fn decode_opcode(bits: Seq<bool>) -> Option<OpCode> {
    if bits == OpCode::NOP.pattern() {
        Some(OpCode::NOP)
    } else if bits == OpCode::LDA.pattern() {
        Some(OpCode::LDA)
    } else if bits == OpCode::ADD.pattern() {
        Some(OpCode::ADD)
    } else if bits == OpCode::SUB.pattern() {
        Some(OpCode::SUB)
    } else if bits == OpCode::MUL.pattern() {
        Some(OpCode::MUL)
    } else if bits == OpCode::OUT.pattern() {
        Some(OpCode::OUT)
    } else if bits == OpCode::HLT.pattern() {
        Some(OpCode::HLT)
    } else {
        None
    }
}

/// The execute steps for the opcode field `bits`: those of its
/// instruction, none where `bits` is the pattern of no instruction.
pub open spec fn decoded_program(bits: Seq<bool>) -> Seq<Seq<ControlLine>> {
    match decode_opcode(bits) {
        Some(opcode) => opcode.microcode(),
        None => seq![],
    }
}

/// The instruction at place `n` of the table.
pub open spec fn table_opcode(n: int) -> OpCode {
    if n == 0 {
        OpCode::NOP
    } else if n == 1 {
        OpCode::LDA
    } else if n == 2 {
        OpCode::ADD
    } else if n == 3 {
        OpCode::SUB
    } else if n == 4 {
        OpCode::MUL
    } else if n == 5 {
        OpCode::OUT
    } else {
        OpCode::HLT
    }
}

/// The first `OPCODE_SIZE` bits that `BitVec::from_bytes` gives for one
/// byte: its bit 7 first.
proof fn lemma_pattern_bytes()
    by (bit_vector)
    ensures
        !byte_bit(0b00000000u8, 7) && !byte_bit(0b00000000u8, 6) && !byte_bit(0b00000000u8, 5)
            && !byte_bit(0b00000000u8, 4),
        byte_bit(0b10000000u8, 7) && !byte_bit(0b10000000u8, 6) && !byte_bit(0b10000000u8, 5)
            && !byte_bit(0b10000000u8, 4),
        !byte_bit(0b01000000u8, 7) && byte_bit(0b01000000u8, 6) && !byte_bit(0b01000000u8, 5)
            && !byte_bit(0b01000000u8, 4),
        byte_bit(0b11000000u8, 7) && byte_bit(0b11000000u8, 6) && !byte_bit(0b11000000u8, 5)
            && !byte_bit(0b11000000u8, 4),
        !byte_bit(0b00100000u8, 7) && !byte_bit(0b00100000u8, 6) && byte_bit(0b00100000u8, 5)
            && !byte_bit(0b00100000u8, 4),
        byte_bit(0b10100000u8, 7) && !byte_bit(0b10100000u8, 6) && byte_bit(0b10100000u8, 5)
            && !byte_bit(0b10100000u8, 4),
        byte_bit(0b11110000u8, 7) && byte_bit(0b11110000u8, 6) && byte_bit(0b11110000u8, 5)
            && byte_bit(0b11110000u8, 4),
{
}

/// The patterns of two instructions differ.
proof fn lemma_patterns_differ(a: OpCode, b: OpCode)
    requires
        a != b,
    ensures
        a.pattern() != b.pattern(),
{
    let p = a.pattern();
    let q = b.pattern();
    assert(p[0] != q[0] || p[1] != q[1] || p[2] != q[2] || p[3] != q[3]);
}

impl Decoder {
    /// The table holds each instruction once, with its pattern.
    pub closed spec fn wf(&self) -> bool {
        &&& self.opcodes@.len() == 7
        &&& forall|n: int|
            0 <= n < 7 ==> {
                &&& (#[trigger] self.opcodes@[n]).0 == table_opcode(n)
                &&& bits_of(self.opcodes@[n].1) == table_opcode(n).pattern()
            }
    }

    /// The opcode field that `byte` stands for: the pattern made of its
    /// four highest bits, bit 7 first.
    fn pattern_from_byte(byte: u8) -> (pattern: BitVec)
        ensures
            bits_of(pattern) == Seq::new(4, |i: int| byte_bit(byte, (7 - i) as u8)),
    {
        let mut pattern = bv_from_bytes(&vec![byte]);
        bv_truncate(&mut pattern, OPCODE_SIZE);
        assert(bits_of(pattern) =~= Seq::new(4, |i: int| byte_bit(byte, (7 - i) as u8)));
        pattern
    }

    /// The opcode table of the machine.
    pub fn new() -> (decoder: Self)
        ensures
            decoder.wf(),
    {
        let mut opcodes: Vec<(OpCode, BitVec)> = Vec::new();
        opcodes.push((OpCode::NOP, Self::pattern_from_byte(0b00000000)));
        opcodes.push((OpCode::LDA, Self::pattern_from_byte(0b10000000)));
        opcodes.push((OpCode::ADD, Self::pattern_from_byte(0b01000000)));
        opcodes.push((OpCode::SUB, Self::pattern_from_byte(0b11000000)));
        opcodes.push((OpCode::MUL, Self::pattern_from_byte(0b00100000)));
        opcodes.push((OpCode::OUT, Self::pattern_from_byte(0b10100000)));
        opcodes.push((OpCode::HLT, Self::pattern_from_byte(0b11110000)));
        proof {
            lemma_pattern_bytes();
            assert forall|n: int| 0 <= n < 7 implies bits_of((#[trigger] opcodes@[n]).1)
                == table_opcode(n).pattern() by {
                assert(bits_of(opcodes@[n].1) =~= table_opcode(n).pattern());
            }
        }
        Self { opcodes }
    }

    /// The instruction whose pattern `instruction` holds, if it is one.
    pub fn decode_opcode(&self, instruction: &BitVec) -> (opcode: Option<OpCode>)
        requires
            self.wf(),
        ensures
            opcode == decode_opcode(bits_of(*instruction)),
    {
        let mut n: usize = 0;
        while n < self.opcodes.len()
            invariant
                self.wf(),
                n <= 7,
                forall|k: int| 0 <= k < n ==> bits_of(*instruction) != table_opcode(k).pattern(),
            decreases 7 - n,
        {
            if bv_eq(instruction, &self.opcodes[n].1) {
                proof {
                    assert forall|k: int| 0 <= k < 7 && k != n implies bits_of(*instruction)
                        != table_opcode(k).pattern() by {
                        lemma_patterns_differ(table_opcode(k), table_opcode(n as int));
                    }
                    assert(table_opcode(0) == OpCode::NOP && table_opcode(1) == OpCode::LDA
                        && table_opcode(2) == OpCode::ADD && table_opcode(3) == OpCode::SUB
                        && table_opcode(4) == OpCode::MUL && table_opcode(5) == OpCode::OUT
                        && table_opcode(6) == OpCode::HLT);
                }
                return Some(self.opcodes[n].0);
            }
            n += 1;
        }
        proof {
            assert(table_opcode(0) == OpCode::NOP && table_opcode(1) == OpCode::LDA && table_opcode(
                2,
            ) == OpCode::ADD && table_opcode(3) == OpCode::SUB && table_opcode(4) == OpCode::MUL
                && table_opcode(5) == OpCode::OUT && table_opcode(6) == OpCode::HLT);
        }
        None
    }

    /// The execute steps for the opcode field `instruction`; none where it
    /// holds the pattern of no instruction.
    pub fn decode_instruction(&self, instruction: BitVec) -> (program: Vec<Vec<ControlLine>>)
        requires
            self.wf(),
        ensures
            program_view(program) == decoded_program(bits_of(instruction)),
    {
        match self.decode_opcode(&instruction) {
            Some(opcode) => opcode.microcode_steps(),
            None => {
                let program: Vec<Vec<ControlLine>> = Vec::new();
                assert(program_view(program) =~= Seq::<Seq<ControlLine>>::empty());
                program
            },
        }
    }
}

} // verus!
