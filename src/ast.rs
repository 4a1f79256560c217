//! The syntax items that the parser produces and the code generator consumes.

use crate::instructions::{operand_rules, OperandType};
use crate::lexer::{chars_of, same_chars, Span};
use vstd::prelude::*;

verus! {

/// One of the sixteen general-purpose registers.
#[derive(Debug, Clone, Copy, PartialEq, Eq, Hash, Structural)]
pub enum Register {
    R0,
    R1,
    R2,
    R3,
    R4,
    R5,
    R6,
    R7,
    R8,
    R9,
    R10,
    R11,
    R12,
    R13,
    R14,
    R15,
}

/// The register whose number is `n`; numbers above fifteen give `R15`.
pub open spec fn register_of(n: u8) -> Register {
    match n {
        0 => Register::R0,
        1 => Register::R1,
        2 => Register::R2,
        3 => Register::R3,
        4 => Register::R4,
        5 => Register::R5,
        6 => Register::R6,
        7 => Register::R7,
        8 => Register::R8,
        9 => Register::R9,
        10 => Register::R10,
        11 => Register::R11,
        12 => Register::R12,
        13 => Register::R13,
        14 => Register::R14,
        _ => Register::R15,
    }
}

/// The register named by `s`: `r` followed by a decimal number from 0 to 15,
/// written without leading zeros.
pub open spec fn register_named(s: Seq<char>) -> Option<Register> {
    if s.len() == 2 && s[0] == 'r' && '0' <= s[1] <= '9' {
        Some(register_of((s[1] as int - '0' as int) as u8))
    } else if s.len() == 3 && s[0] == 'r' && s[1] == '1' && '0' <= s[2] <= '5' {
        Some(register_of((10 + (s[2] as int - '0' as int)) as u8))
    } else {
        None
    }
}

impl Register {
    /// The register's 4-bit number.
    pub open spec fn index(self) -> u8 {
        match self {
            Register::R0 => 0,
            Register::R1 => 1,
            Register::R2 => 2,
            Register::R3 => 3,
            Register::R4 => 4,
            Register::R5 => 5,
            Register::R6 => 6,
            Register::R7 => 7,
            Register::R8 => 8,
            Register::R9 => 9,
            Register::R10 => 10,
            Register::R11 => 11,
            Register::R12 => 12,
            Register::R13 => 13,
            Register::R14 => 14,
            Register::R15 => 15,
        }
    }

    pub fn encode(self) -> (r: u8)
        ensures
            r == self.index(),
            r < 16,
    {
        match self {
            Register::R0 => 0,
            Register::R1 => 1,
            Register::R2 => 2,
            Register::R3 => 3,
            Register::R4 => 4,
            Register::R5 => 5,
            Register::R6 => 6,
            Register::R7 => 7,
            Register::R8 => 8,
            Register::R9 => 9,
            Register::R10 => 10,
            Register::R11 => 11,
            Register::R12 => 12,
            Register::R13 => 13,
            Register::R14 => 14,
            Register::R15 => 15,
        }
    }

    /// The register with number `n`.
    pub fn from_index(n: u8) -> (r: Register)
        requires
            n < 16,
        ensures
            r == register_of(n),
            r.index() == n,
    {
        match n {
            0 => Register::R0,
            1 => Register::R1,
            2 => Register::R2,
            3 => Register::R3,
            4 => Register::R4,
            5 => Register::R5,
            6 => Register::R6,
            7 => Register::R7,
            8 => Register::R8,
            9 => Register::R9,
            10 => Register::R10,
            11 => Register::R11,
            12 => Register::R12,
            13 => Register::R13,
            14 => Register::R14,
            _ => Register::R15,
        }
    }

    /// Reads a register name (`r0` to `r15`, lower case).
    pub fn try_from(name: &str) -> (r: Option<Register>)
        ensures
            r == register_named(name@),
    {
        let n = name.unicode_len();
        if n < 2 || n > 3 || name.get_char(0) != 'r' {
            return None;
        }
        let c1 = name.get_char(1);
        if n == 2 {
            if '0' <= c1 && c1 <= '9' {
                Some(Register::from_index(((c1 as u32) - ('0' as u32)) as u8))
            } else {
                None
            }
        } else {
            let c2 = name.get_char(2);
            if c1 == '1' && '0' <= c2 && c2 <= '5' {
                Some(Register::from_index((10 + (c2 as u32) - ('0' as u32)) as u8))
            } else {
                None
            }
        }
    }
}

/// One of the fifteen operation codes.
#[derive(Debug, Clone, Copy, PartialEq, Eq, Hash, Structural)]
pub enum Opcode {
    Nop,
    Add,
    Ldi,
    Sub,
    And,
    Or,
    Inv,
    Xor,
    Sr,
    Sl,
    In,
    Out,
    Jz,
    Jlt,
    J,
}

/// The opcode whose mnemonic is `s`, if any.
pub open spec fn opcode_named(s: Seq<char>) -> Option<Opcode> {
    if s == Opcode::Nop.mnemonic() {
        Some(Opcode::Nop)
    } else if s == Opcode::Add.mnemonic() {
        Some(Opcode::Add)
    } else if s == Opcode::Ldi.mnemonic() {
        Some(Opcode::Ldi)
    } else if s == Opcode::Sub.mnemonic() {
        Some(Opcode::Sub)
    } else if s == Opcode::And.mnemonic() {
        Some(Opcode::And)
    } else if s == Opcode::Or.mnemonic() {
        Some(Opcode::Or)
    } else if s == Opcode::Inv.mnemonic() {
        Some(Opcode::Inv)
    } else if s == Opcode::Xor.mnemonic() {
        Some(Opcode::Xor)
    } else if s == Opcode::Sr.mnemonic() {
        Some(Opcode::Sr)
    } else if s == Opcode::Sl.mnemonic() {
        Some(Opcode::Sl)
    } else if s == Opcode::In.mnemonic() {
        Some(Opcode::In)
    } else if s == Opcode::Out.mnemonic() {
        Some(Opcode::Out)
    } else if s == Opcode::Jz.mnemonic() {
        Some(Opcode::Jz)
    } else if s == Opcode::Jlt.mnemonic() {
        Some(Opcode::Jlt)
    } else if s == Opcode::J.mnemonic() {
        Some(Opcode::J)
    } else {
        None
    }
}

impl Opcode {
    /// The 4-bit encoding; value 4 is reserved and belongs to no opcode.
    pub open spec fn code(self) -> u8 {
        match self {
            Opcode::Nop => 0,
            Opcode::Add => 1,
            Opcode::Ldi => 2,
            Opcode::Sub => 3,
            Opcode::And => 5,
            Opcode::Or => 6,
            Opcode::Inv => 7,
            Opcode::Xor => 8,
            Opcode::Sr => 9,
            Opcode::Sl => 10,
            Opcode::In => 11,
            Opcode::Out => 12,
            Opcode::Jz => 13,
            Opcode::Jlt => 14,
            Opcode::J => 15,
        }
    }

    /// The lower-case mnemonic.
    pub open spec fn mnemonic(self) -> Seq<char> {
        match self {
            Opcode::Nop => seq!['n', 'o', 'p'],
            Opcode::Add => seq!['a', 'd', 'd'],
            Opcode::Ldi => seq!['l', 'd', 'i'],
            Opcode::Sub => seq!['s', 'u', 'b'],
            Opcode::And => seq!['a', 'n', 'd'],
            Opcode::Or => seq!['o', 'r'],
            Opcode::Inv => seq!['i', 'n', 'v'],
            Opcode::Xor => seq!['x', 'o', 'r'],
            Opcode::Sr => seq!['s', 'r'],
            Opcode::Sl => seq!['s', 'l'],
            Opcode::In => seq!['i', 'n'],
            Opcode::Out => seq!['o', 'u', 't'],
            Opcode::Jz => seq!['j', 'z'],
            Opcode::Jlt => seq!['j', 'l', 't'],
            Opcode::J => seq!['j'],
        }
    }

    /// The mnemonic as characters.
    pub fn mnemonic_chars(self) -> (r: Vec<char>)
        ensures
            r@ == self.mnemonic(),
    {
        let r = match self {
            Opcode::Nop => vec!['n', 'o', 'p'],
            Opcode::Add => vec!['a', 'd', 'd'],
            Opcode::Ldi => vec!['l', 'd', 'i'],
            Opcode::Sub => vec!['s', 'u', 'b'],
            Opcode::And => vec!['a', 'n', 'd'],
            Opcode::Or => vec!['o', 'r'],
            Opcode::Inv => vec!['i', 'n', 'v'],
            Opcode::Xor => vec!['x', 'o', 'r'],
            Opcode::Sr => vec!['s', 'r'],
            Opcode::Sl => vec!['s', 'l'],
            Opcode::In => vec!['i', 'n'],
            Opcode::Out => vec!['o', 'u', 't'],
            Opcode::Jz => vec!['j', 'z'],
            Opcode::Jlt => vec!['j', 'l', 't'],
            Opcode::J => vec!['j'],
        };
        assert(r@ =~= self.mnemonic());
        r
    }

    /// Reads a mnemonic (lower case).
    pub fn try_from(name: &str) -> (r: Option<Opcode>)
        ensures
            r == opcode_named(name@),
    {
        let v = chars_of(name);
        if same_chars(&v, &Opcode::Nop.mnemonic_chars()) {
            Some(Opcode::Nop)
        } else if same_chars(&v, &Opcode::Add.mnemonic_chars()) {
            Some(Opcode::Add)
        } else if same_chars(&v, &Opcode::Ldi.mnemonic_chars()) {
            Some(Opcode::Ldi)
        } else if same_chars(&v, &Opcode::Sub.mnemonic_chars()) {
            Some(Opcode::Sub)
        } else if same_chars(&v, &Opcode::And.mnemonic_chars()) {
            Some(Opcode::And)
        } else if same_chars(&v, &Opcode::Or.mnemonic_chars()) {
            Some(Opcode::Or)
        } else if same_chars(&v, &Opcode::Inv.mnemonic_chars()) {
            Some(Opcode::Inv)
        } else if same_chars(&v, &Opcode::Xor.mnemonic_chars()) {
            Some(Opcode::Xor)
        } else if same_chars(&v, &Opcode::Sr.mnemonic_chars()) {
            Some(Opcode::Sr)
        } else if same_chars(&v, &Opcode::Sl.mnemonic_chars()) {
            Some(Opcode::Sl)
        } else if same_chars(&v, &Opcode::In.mnemonic_chars()) {
            Some(Opcode::In)
        } else if same_chars(&v, &Opcode::Out.mnemonic_chars()) {
            Some(Opcode::Out)
        } else if same_chars(&v, &Opcode::Jz.mnemonic_chars()) {
            Some(Opcode::Jz)
        } else if same_chars(&v, &Opcode::Jlt.mnemonic_chars()) {
            Some(Opcode::Jlt)
        } else if same_chars(&v, &Opcode::J.mnemonic_chars()) {
            Some(Opcode::J)
        } else {
            None
        }
    }

    pub fn encode(self) -> (r: u8)
        ensures
            r == self.code(),
            r < 16,
    {
        match self {
            Opcode::Nop => 0,
            Opcode::Add => 1,
            Opcode::Ldi => 2,
            Opcode::Sub => 3,
            Opcode::And => 5,
            Opcode::Or => 6,
            Opcode::Inv => 7,
            Opcode::Xor => 8,
            Opcode::Sr => 9,
            Opcode::Sl => 10,
            Opcode::In => 11,
            Opcode::Out => 12,
            Opcode::Jz => 13,
            Opcode::Jlt => 14,
            Opcode::J => 15,
        }
    }
}

/// Identifies a row of the label table.
pub type LabelId = usize;

/// An instruction operand with the place in the source where it was written.
#[derive(Debug, Clone, Copy, PartialEq, Eq, Structural)]
pub enum Operand {
    Register { value: Register, span: Span },
    Integer { value: i8, span: Span },
    Label { value: LabelId, span: Span },
}

#[derive(Debug, Clone, Copy, PartialEq, Eq, Structural)]
pub enum Instruction {
    NoOperand(Opcode),
    SingleOperand(Opcode, Operand),
    DoubleOperand(Opcode, Operand, Operand),
}

/// What the parser hands to the code generator: a label marker or an instruction.
#[derive(Debug, Clone, Copy, PartialEq, Eq, Structural)]
pub enum Item {
    Label(LabelId),
    Instruction(Instruction),
}

impl Operand {
    /// The operand's kind.
    pub open spec fn kind(self) -> OperandType {
        match self {
            Operand::Register { .. } => OperandType::Register,
            Operand::Integer { .. } => OperandType::Integer,
            Operand::Label { .. } => OperandType::Label,
        }
    }
}

impl Instruction {
    pub open spec fn spec_opcode(self) -> Opcode {
        match self {
            Instruction::NoOperand(op) => op,
            Instruction::SingleOperand(op, _) => op,
            Instruction::DoubleOperand(op, _, _) => op,
        }
    }

    /// The instruction has as many operands as its opcode's rule asks for,
    /// each of a kind that its position accepts.
    pub open spec fn follows_rules(self) -> bool {
        let rules = operand_rules(self.spec_opcode());
        match self {
            Instruction::NoOperand(_) => rules.len() == 0,
            Instruction::SingleOperand(_, a) => rules.len() == 1 && rules[0].contains(a.kind()),
            Instruction::DoubleOperand(_, a, b) => {
                &&& rules.len() == 2
                &&& rules[0].contains(a.kind())
                &&& rules[1].contains(b.kind())
            },
        }
    }

    pub fn opcode(&self) -> (r: Opcode)
        ensures
            r == self.spec_opcode(),
    {
        match self {
            Instruction::NoOperand(op) => *op,
            Instruction::SingleOperand(op, _) => *op,
            Instruction::DoubleOperand(op, _, _) => *op,
        }
    }
}

} // verus!
