//! The operand rule table: for each opcode, how many operands it takes and
//! which kinds each position accepts.

use crate::ast::Opcode;
use vstd::prelude::*;

verus! {

/// The kinds of operand.
#[derive(Debug, Clone, Copy, PartialEq, Eq, Structural)]
pub enum OperandType {
    Register,
    Integer,
    Label,
}

impl OperandType {
    pub open spec fn spec_as_str(self) -> Seq<char> {
        match self {
            OperandType::Register => "register"@,
            OperandType::Integer => "integer"@,
            OperandType::Label => "label"@,
        }
    }

    pub fn as_str(self) -> (r: &'static str)
        ensures
            r@ == self.spec_as_str(),
    {
        match self {
            OperandType::Register => "register",
            OperandType::Integer => "integer",
            OperandType::Label => "label",
        }
    }
}

/// For each operand position of `op`, the kinds it accepts.
pub open spec fn operand_rules(op: Opcode) -> Seq<Seq<OperandType>> {
    match op {
        Opcode::Nop => seq![],
        Opcode::Inv => seq![seq![OperandType::Register]],
        Opcode::J => seq![seq![OperandType::Integer, OperandType::Label]],
        Opcode::Ldi | Opcode::In | Opcode::Out => seq![
            seq![OperandType::Register],
            seq![OperandType::Integer],
        ],
        Opcode::Jz | Opcode::Jlt => seq![
            seq![OperandType::Register],
            seq![OperandType::Integer, OperandType::Label],
        ],
        _ => seq![seq![OperandType::Register], seq![OperandType::Register]],
    }
}

/// The rules as plain sequences.
pub open spec fn rules_view(r: Seq<Vec<OperandType>>) -> Seq<Seq<OperandType>> {
    r.map_values(|v: Vec<OperandType>| v@)
}

/// The rule table's row for `op`.
pub fn rules_for(op: Opcode) -> (r: Vec<Vec<OperandType>>)
    ensures
        rules_view(r@) == operand_rules(op),
{
    let r = match op {
        Opcode::Nop => vec![],
        Opcode::Inv => vec![vec![OperandType::Register]],
        Opcode::J => vec![vec![OperandType::Integer, OperandType::Label]],
        Opcode::Ldi | Opcode::In | Opcode::Out => vec![
            vec![OperandType::Register],
            vec![OperandType::Integer],
        ],
        Opcode::Jz | Opcode::Jlt => vec![
            vec![OperandType::Register],
            vec![OperandType::Integer, OperandType::Label],
        ],
        _ => vec![vec![OperandType::Register], vec![OperandType::Register]],
    };
    assert(rules_view(r@) =~= operand_rules(op)) by {
        assert(rules_view(r@).len() == operand_rules(op).len());
        assert forall|i: int| 0 <= i < r@.len() implies r@[i]@ =~= operand_rules(op)[i] by {}
    }
    r
}

} // verus!
