use vstd::prelude::*;

verus! {

/// The named control signals of the machine.
#[derive(Clone, Copy, PartialEq, Eq, Hash, Structural, Debug)]
pub enum ControlLine {
    /// Clock
    CLK,
    /// Halt the computer.
    HLT,
    /// Load address into MAR.
    MI,
    /// Load data into RAM.
    RI,
    /// Output data from RAM.
    RO,
    /// Load instruction into IR.
    II,
    /// Output instruction from IR.
    IO,
    /// Load data into Register A.
    AI,
    /// Output data from Register A.
    AO,
    /// Output ALU result.
    EO,
    /// Set ALU to subtract.
    SU,
    /// Load data into Register B.
    BI,
    /// Output data from Register B.
    BO,
    /// Load data into Output Register.
    OI,
    /// Increment Program Counter.
    CE,
    /// Output Program Counter.
    CO,
    /// Load bus address into PC.
    J,
    /// Load data into Flags Register.
    FI,
}

/// How many control lines there are.
pub const LINE_COUNT: usize = 18;

impl ControlLine {
    /// The place of the line in the order of declaration, from 0.
    pub open spec fn number(self) -> nat {
        match self {
            ControlLine::CLK => 0,
            ControlLine::HLT => 1,
            ControlLine::MI => 2,
            ControlLine::RI => 3,
            ControlLine::RO => 4,
            ControlLine::II => 5,
            ControlLine::IO => 6,
            ControlLine::AI => 7,
            ControlLine::AO => 8,
            ControlLine::EO => 9,
            ControlLine::SU => 10,
            ControlLine::BI => 11,
            ControlLine::BO => 12,
            ControlLine::OI => 13,
            ControlLine::CE => 14,
            ControlLine::CO => 15,
            ControlLine::J => 16,
            ControlLine::FI => 17,
        }
    }

    /// The line at place `n`; `FI` for every `n` from 17 on.
    pub open spec fn at(n: nat) -> ControlLine {
        if n == 0 {
            ControlLine::CLK
        } else if n == 1 {
            ControlLine::HLT
        } else if n == 2 {
            ControlLine::MI
        } else if n == 3 {
            ControlLine::RI
        } else if n == 4 {
            ControlLine::RO
        } else if n == 5 {
            ControlLine::II
        } else if n == 6 {
            ControlLine::IO
        } else if n == 7 {
            ControlLine::AI
        } else if n == 8 {
            ControlLine::AO
        } else if n == 9 {
            ControlLine::EO
        } else if n == 10 {
            ControlLine::SU
        } else if n == 11 {
            ControlLine::BI
        } else if n == 12 {
            ControlLine::BO
        } else if n == 13 {
            ControlLine::OI
        } else if n == 14 {
            ControlLine::CE
        } else if n == 15 {
            ControlLine::CO
        } else if n == 16 {
            ControlLine::J
        } else {
            ControlLine::FI
        }
    }

    /// The name of the line as text.
    pub open spec fn label(self) -> Seq<char> {
        match self {
            ControlLine::CLK => "CLK"@,
            ControlLine::HLT => "HLT"@,
            ControlLine::MI => "MI"@,
            ControlLine::RI => "RI"@,
            ControlLine::RO => "RO"@,
            ControlLine::II => "II"@,
            ControlLine::IO => "IO"@,
            ControlLine::AI => "AI"@,
            ControlLine::AO => "AO"@,
            ControlLine::EO => "EO"@,
            ControlLine::SU => "SU"@,
            ControlLine::BI => "BI"@,
            ControlLine::BO => "BO"@,
            ControlLine::OI => "OI"@,
            ControlLine::CE => "CE"@,
            ControlLine::CO => "CO"@,
            ControlLine::J => "J"@,
            ControlLine::FI => "FI"@,
        }
    }

    /// The place of the line in the order of declaration, from 0.
    pub fn index(&self) -> (n: usize)
        ensures
            n == self.number(),
            n < LINE_COUNT,
            ControlLine::at(n as nat) == *self,
    {
        match self {
            ControlLine::CLK => 0,
            ControlLine::HLT => 1,
            ControlLine::MI => 2,
            ControlLine::RI => 3,
            ControlLine::RO => 4,
            ControlLine::II => 5,
            ControlLine::IO => 6,
            ControlLine::AI => 7,
            ControlLine::AO => 8,
            ControlLine::EO => 9,
            ControlLine::SU => 10,
            ControlLine::BI => 11,
            ControlLine::BO => 12,
            ControlLine::OI => 13,
            ControlLine::CE => 14,
            ControlLine::CO => 15,
            ControlLine::J => 16,
            ControlLine::FI => 17,
        }
    }

    /// Every line, in the order of declaration.
    pub fn all() -> (lines: Vec<ControlLine>)
        ensures
            lines@.len() == LINE_COUNT,
            forall|n: int| 0 <= n < LINE_COUNT ==> lines@[n] == ControlLine::at(n as nat),
    {
        vec![
            ControlLine::CLK,
            ControlLine::HLT,
            ControlLine::MI,
            ControlLine::RI,
            ControlLine::RO,
            ControlLine::II,
            ControlLine::IO,
            ControlLine::AI,
            ControlLine::AO,
            ControlLine::EO,
            ControlLine::SU,
            ControlLine::BI,
            ControlLine::BO,
            ControlLine::OI,
            ControlLine::CE,
            ControlLine::CO,
            ControlLine::J,
            ControlLine::FI,
        ]
    }

    /// The name of the line as text.
    pub fn to_string(&self) -> (name: String)
        ensures
            name@ == self.label(),
    {
        let s = match self {
            ControlLine::CLK => "CLK",
            ControlLine::HLT => "HLT",
            ControlLine::MI => "MI",
            ControlLine::RI => "RI",
            ControlLine::RO => "RO",
            ControlLine::II => "II",
            ControlLine::IO => "IO",
            ControlLine::AI => "AI",
            ControlLine::AO => "AO",
            ControlLine::EO => "EO",
            ControlLine::SU => "SU",
            ControlLine::BI => "BI",
            ControlLine::BO => "BO",
            ControlLine::OI => "OI",
            ControlLine::CE => "CE",
            ControlLine::CO => "CO",
            ControlLine::J => "J",
            ControlLine::FI => "FI",
        };
        s.to_owned()
    }
}

} // verus!
