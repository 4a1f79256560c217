//! The code generator: a layout pass that gives each label the index of the
//! instruction after it, then an encoding pass that packs each instruction
//! into two bytes.

use crate::ast::{Instruction, Item, LabelId, Opcode, Operand, Register};
use crate::labels::{with_value, LabelEntry, LabelManager};
use crate::lexer::Span;
use vstd::prelude::*;

verus! {

/// The size of the instruction memory, which the output image fills.
pub const INSTRUCTION_MEMORY_SIZE_BYTES: usize = 64;

pub const INSTRUCTION_SIZE_BYTES: usize = 2;

/// How many instructions fit in the instruction memory (64 bytes, 2 bytes each).
pub const MAX_NUM_INSTRUCTIONS: i8 = 32;

#[derive(Debug, Clone, Copy, PartialEq, Eq, Structural)]
pub enum GeneratorError {
    SourceOrSinkRangeError(Span),
    DanglingLabelError(Span),
    MaximumInstructionsError,
    UndefinedLabelError(Span),
    JumpDestinationRangeError(Span),
}

/// The number of instruction items in `items`.
pub open spec fn instruction_count(items: Seq<Item>) -> nat
    decreases items.len(),
{
    if items.len() == 0 {
        0
    } else {
        instruction_count(items.drop_last()) + (if items.last() is Instruction {
            1nat
        } else {
            0nat
        })
    }
}

/// The offset that the layout pass gives label `id`: the number of
/// instructions before its last definition, among the definitions that come
/// before the instruction that exceeds the capacity.
pub open spec fn layout_offset(items: Seq<Item>, id: LabelId) -> Option<nat>
    decreases items.len(),
{
    if items.len() == 0 {
        None
    } else if items.last() == Item::Label(id) && instruction_count(items.drop_last())
        <= MAX_NUM_INSTRUCTIONS {
        Some(instruction_count(items.drop_last()))
    } else {
        layout_offset(items.drop_last(), id)
    }
}

/// The label table after the layout pass over `items`.
pub open spec fn laid_out(items: Seq<Item>, rows: Seq<LabelEntry>) -> Seq<LabelEntry> {
    Seq::new(
        rows.len(),
        |id: int|
            match layout_offset(items, id as LabelId) {
                Some(n) => LabelEntry { name: rows[id].name, value: Some(n as i8), span: rows[id].span },
                None => rows[id],
            },
    )
}

/// The offset recorded for label `id`, if any.
pub open spec fn label_value(rows: Seq<LabelEntry>, id: LabelId) -> Option<i8> {
    if id < rows.len() {
        rows[id as int].value
    } else {
        None
    }
}

/// An encoded instruction: opcode in the high nibble and register in the low
/// nibble of the first byte, then the data byte.
pub open spec fn byte_pair(op: Opcode, r: Register, data: u8) -> Seq<u8> {
    seq![(op.code() * 16 + r.index()) as u8, data]
}

/// The register an operand names, `R0` for any other operand.
pub open spec fn operand_register(o: Operand) -> Register {
    match o {
        Operand::Register { value, .. } => value,
        _ => Register::R0,
    }
}

/// An instruction whose data byte is the offset of label `id`.
pub open spec fn label_pair(
    op: Opcode,
    r: Register,
    id: LabelId,
    span: Span,
    rows: Seq<LabelEntry>,
) -> Result<Seq<u8>, GeneratorError> {
    match label_value(rows, id) {
        Some(v) => Ok(byte_pair(op, r, v as u8)),
        None => Err(GeneratorError::UndefinedLabelError(span)),
    }
}

/// The two bytes of one instruction, given the resolved label table.
pub open spec fn encode_instruction(ins: Instruction, rows: Seq<LabelEntry>) -> Result<
    Seq<u8>,
    GeneratorError,
> {
    match ins {
        Instruction::NoOperand(op) => Ok(byte_pair(op, Register::R0, 0)),
        Instruction::SingleOperand(op, a) => match a {
            Operand::Register { value, .. } => Ok(byte_pair(op, value, 0)),
            Operand::Integer { value, .. } => Ok(byte_pair(op, Register::R0, value as u8)),
            Operand::Label { value, span } => label_pair(op, Register::R0, value, span, rows),
        },
        Instruction::DoubleOperand(op, a, b) => {
            let r = operand_register(a);
            match b {
                Operand::Register { value, .. } => Ok(byte_pair(op, r, (value.index() * 16) as u8)),
                Operand::Label { value, span } => label_pair(op, r, value, span, rows),
                Operand::Integer { value, span } => {
                    if op == Opcode::In || op == Opcode::Out {
                        if value as u8 > 15 {
                            Err(GeneratorError::SourceOrSinkRangeError(span))
                        } else {
                            Ok(byte_pair(op, r, ((value as u8) * 16) as u8))
                        }
                    } else if (op == Opcode::Jz || op == Opcode::Jlt) && value
                        >= MAX_NUM_INSTRUCTIONS {
                        Err(GeneratorError::JumpDestinationRangeError(span))
                    } else {
                        Ok(byte_pair(op, r, value as u8))
                    }
                },
            }
        },
    }
}

/// The bytes that one item adds: none for a label.
pub open spec fn item_bytes(item: Item, rows: Seq<LabelEntry>) -> Result<Seq<u8>, GeneratorError> {
    match item {
        Item::Label(_) => Ok(seq![]),
        Item::Instruction(ins) => encode_instruction(ins, rows),
    }
}

/// The encoding of every instruction in order, or the first error.
pub open spec fn encode_items(items: Seq<Item>, rows: Seq<LabelEntry>) -> Result<
    Seq<u8>,
    GeneratorError,
>
    decreases items.len(),
{
    if items.len() == 0 {
        Ok(seq![])
    } else {
        match item_bytes(items[0], rows) {
            Err(e) => Err(e),
            Ok(b) => match encode_items(items.skip(1), rows) {
                Ok(rest) => Ok(b + rest),
                Err(e) => Err(e),
            },
        }
    }
}

/// What the code generator returns for `items` and label table `rows`.
pub open spec fn generation(items: Seq<Item>, rows: Seq<LabelEntry>) -> Result<
    Seq<u8>,
    GeneratorError,
> {
    if instruction_count(items) > MAX_NUM_INSTRUCTIONS {
        Err(GeneratorError::MaximumInstructionsError)
    } else if items.len() > 0 && items.last() is Label {
        Err(GeneratorError::DanglingLabelError(rows[items.last()->Label_0 as int].span->Some_0))
    } else {
        encode_items(items, laid_out(items, rows))
    }
}

/// Each label item names a row of `rows` that records where it is defined.
pub open spec fn labels_defined(items: Seq<Item>, rows: Seq<LabelEntry>) -> bool {
    forall|k: int|
        0 <= k < items.len() && #[trigger] items[k] is Label ==> items[k]->Label_0 < rows.len()
            && rows[items[k]->Label_0 as int].span is Some
}

/// `r` is the result `g` describes, with the bytes as a sequence.
pub open spec fn result_is(r: Result<Vec<u8>, GeneratorError>, g: Result<Seq<u8>, GeneratorError>) -> bool {
    match g {
        Ok(bytes) => r is Ok && r->Ok_0@ == bytes,
        Err(e) => r == Err::<Vec<u8>, GeneratorError>(e),
    }
}

proof fn lemma_nibbles(hi: u8, lo: u8)
    requires
        hi < 16,
        lo < 16,
    ensures
        (hi << 4u8) | lo == hi * 16 + lo,
        hi << 4u8 == hi * 16,
{
    assert((hi << 4u8) | lo == hi * 16 + lo) by (bit_vector)
        requires
            hi < 16,
            lo < 16,
    ;
    assert(hi << 4u8 == hi * 16) by (bit_vector)
        requires
            hi < 16,
    ;
}

proof fn lemma_encode_step(items: Seq<Item>, rows: Seq<LabelEntry>, i: int)
    requires
        0 <= i < items.len(),
    ensures
        encode_items(items.skip(i), rows) == match item_bytes(items[i], rows) {
            Err(e) => Err(e),
            Ok(b) => match encode_items(items.skip(i + 1), rows) {
                Ok(rest) => Ok(b + rest),
                Err(e) => Err(e),
            },
        },
{
    assert(items.skip(i).skip(1) =~= items.skip(i + 1));
    assert(items.skip(i)[0] == items[i]);
}

proof fn lemma_count_front(items: Seq<Item>)
    requires
        items.len() > 0,
    ensures
        instruction_count(items) == (if items[0] is Instruction {
            1nat
        } else {
            0nat
        }) + instruction_count(items.skip(1)),
    decreases items.len(),
{
    if items.len() > 1 {
        lemma_count_front(items.drop_last());
        assert(items.drop_last().skip(1) =~= items.skip(1).drop_last());
        assert(items.skip(1).last() == items.last());
    } else {
        assert(items.skip(1) =~= seq![]);
        assert(items.drop_last() =~= seq![]);
    }
}

/// Each instruction takes two bytes of the encoding.
pub proof fn lemma_encoded_len(items: Seq<Item>, rows: Seq<LabelEntry>)
    requires
        encode_items(items, rows) is Ok,
    ensures
        encode_items(items, rows)->Ok_0.len() == 2 * instruction_count(items),
    decreases items.len(),
{
    if items.len() > 0 {
        lemma_count_front(items);
        lemma_encoded_len(items.skip(1), rows);
    }
}

proof fn lemma_count_monotone(items: Seq<Item>, a: int, b: int)
    requires
        0 <= a <= b <= items.len(),
    ensures
        instruction_count(items.take(a)) <= instruction_count(items.take(b)),
    decreases b - a,
{
    if a < b {
        assert(items.take(b).drop_last() =~= items.take(b - 1));
        lemma_count_monotone(items, a, b - 1);
    }
}

/// Once the capacity is exceeded, later items leave the layout unchanged.
proof fn lemma_layout_stops(items: Seq<Item>, i: int, n: int, id: LabelId)
    requires
        0 <= i <= n <= items.len(),
        instruction_count(items.take(i)) > MAX_NUM_INSTRUCTIONS,
    ensures
        layout_offset(items.take(n), id) == layout_offset(items.take(i), id),
    decreases n - i,
{
    if i < n {
        assert(items.take(n).drop_last() =~= items.take(n - 1));
        lemma_count_monotone(items, i, n - 1);
        lemma_layout_stops(items, i, n - 1, id);
    }
}

pub struct Generator {
    items: Vec<Item>,
    label_manager: LabelManager,
}

impl Generator {
    pub closed spec fn item_seq(&self) -> Seq<Item> {
        self.items@
    }

    pub closed spec fn label_table(&self) -> Seq<LabelEntry> {
        self.label_manager@
    }

    pub closed spec fn label_table_wf(&self) -> bool {
        self.label_manager.wf()
    }

    pub fn new(items: Vec<Item>, label_manager: LabelManager) -> (r: Generator)
        ensures
            r.item_seq() == items@,
            r.label_table() == label_manager@,
            r.label_table_wf() == label_manager.wf(),
    {
        Generator { items, label_manager }
    }

    /// Lays out the labels, then encodes every instruction; the bytes are not
    /// padded to the memory size.
    pub fn generate(&mut self) -> (r: Result<Vec<u8>, GeneratorError>)
        requires
            old(self).label_table_wf(),
            labels_defined(old(self).item_seq(), old(self).label_table()),
        ensures
            final(self).item_seq() == old(self).item_seq(),
            final(self).label_table() == laid_out(old(self).item_seq(), old(self).label_table()),
            final(self).label_table_wf(),
            result_is(r, generation(old(self).item_seq(), old(self).label_table())),
    {
        let ghost items = self.items@;
        let ghost rows = self.label_manager@;
        let mut output: Vec<u8> = Vec::new();
        let mut instr_counter: i8 = 0;
        let mut ended_on_label: Option<LabelId> = None;
        let n_labels = self.label_manager.len();
        let mut i: usize = 0;
        assert(laid_out(items.take(0), rows) =~= rows);
        while i < self.items.len()
            invariant
                items == self.items@,
                items == old(self).items@,
                rows == old(self).label_manager@,
                rows.len() == n_labels,
                0 <= i <= items.len(),
                instr_counter == instruction_count(items.take(i as int)),
                instr_counter <= MAX_NUM_INSTRUCTIONS,
                self.label_manager.wf(),
                self.label_manager@ == laid_out(items.take(i as int), rows),
                labels_defined(items, rows),
                ended_on_label == (if i > 0 && items[i - 1] is Label {
                    Some(items[i - 1]->Label_0)
                } else {
                    None
                }),
            decreases items.len() - i,
        {
            let ghost before = self.label_manager@;
            assert(items.take(i + 1).drop_last() =~= items.take(i as int));
            assert(items.take(i + 1).last() == items[i as int]);
            match self.items[i] {
                Item::Label(label_id) => {
                    ended_on_label = Some(label_id);
                    assert(items[i as int] is Label);
                    self.label_manager.set_value_of(label_id, instr_counter).unwrap();
                    assert forall|j: int| 0 <= j < rows.len() implies #[trigger] laid_out(
                        items.take(i + 1),
                        rows,
                    )[j] == with_value(before, label_id as int, instr_counter)[j] by {
                        if j != label_id {
                            assert(j as LabelId != label_id);
                        }
                    }
                    assert(self.label_manager@ =~= laid_out(items.take(i + 1), rows));
                },
                Item::Instruction(_) => {
                    ended_on_label = None;
                    instr_counter += 1;
                    assert(self.label_manager@ =~= laid_out(items.take(i + 1), rows));
                    if instr_counter > MAX_NUM_INSTRUCTIONS {
                        proof {
                            assert forall|id: LabelId| true implies layout_offset(items, id)
                                == layout_offset(items.take(i + 1), id) by {
                                lemma_layout_stops(items, i + 1, items.len() as int, id);
                                assert(items.take(items.len() as int) =~= items);
                            }
                            assert(self.label_manager@ =~= laid_out(items, rows));
                            lemma_count_monotone(items, i + 1, items.len() as int);
                            assert(items.take(items.len() as int) =~= items);
                        }
                        return Err(GeneratorError::MaximumInstructionsError);
                    }
                },
            }
            i += 1;
        }
        assert(items.take(items.len() as int) =~= items);
        if let Some(label_id) = ended_on_label {
            let span = self.label_manager.get_span_of(label_id).unwrap();
            return Err(GeneratorError::DanglingLabelError(span));
        }
        let ghost table = self.label_manager@;
        assert(generation(items, rows) == encode_items(items, table));
        assert(items.skip(0) =~= items);
        assert(output@ + seq![] =~= output@);
        let mut i: usize = 0;
        while i < self.items.len()
            invariant
                items == self.items@,
                items == old(self).items@,
                rows == old(self).label_manager@,
                0 <= i <= items.len(),
                table == self.label_manager@,
                table == laid_out(items, rows),
                generation(items, rows) == encode_items(items, table),
                self.label_manager.wf(),
                encode_items(items, table) == match encode_items(items.skip(i as int), table) {
                    Ok(rest) => Ok(output@ + rest),
                    Err(e) => Err(e),
                },
            decreases items.len() - i,
        {
            proof {
                lemma_encode_step(items, table, i as int);
            }
            let ghost prefix = output@;
            match self.items[i] {
                Item::Label(_) => {
                    assert(output@.skip(prefix.len() as int) =~= seq![]);
                },
                Item::Instruction(instruction) => {
                    match self.encode_instruction(&instruction, &mut output) {
                        Ok(()) => {
                            assert(output@.skip(prefix.len() as int) =~= encode_instruction(
                                instruction,
                                table,
                            )->Ok_0);
                        },
                        Err(e) => {
                            return Err(e);
                        },
                    }
                },
            }
            proof {
                let head = output@.skip(prefix.len() as int);
                assert(output@ =~= prefix + head);
                match encode_items(items.skip(i + 1), table) {
                    Ok(rest) => {
                        assert(encode_items(items.skip(i as int), table) == Ok::<
                            Seq<u8>,
                            GeneratorError,
                        >(head + rest));
                        assert(prefix + (head + rest) =~= output@ + rest);
                    },
                    Err(e) => {
                        assert(encode_items(items.skip(i as int), table) == Err::<
                            Seq<u8>,
                            GeneratorError,
                        >(e));
                    },
                }
            }
            i += 1;
        }
        assert(items.skip(items.len() as int) =~= seq![]);
        assert(output@ + seq![] =~= output@);
        Ok(output)
    }

    /// Appends the encoding of one instruction, or returns its error.
    fn encode_instruction(&self, instruction: &Instruction, output: &mut Vec<u8>) -> (r: Result<
        (),
        GeneratorError,
    >)
        ensures
            match encode_instruction(*instruction, self.label_manager@) {
                Ok(b) => r is Ok && final(output)@ == old(output)@ + b,
                Err(e) => r == Err::<(), GeneratorError>(e),
            },
    {
        match *instruction {
            Instruction::NoOperand(opcode) => {
                Self::generate_no_operand(output, opcode);
                Ok(())
            },
            Instruction::SingleOperand(opcode, operand) => match operand {
                Operand::Register { value: register, .. } => {
                    Self::generate_single_register(output, opcode, register);
                    Ok(())
                },
                Operand::Integer { value, .. } => {
                    // The register field is not read by the machine.
                    Self::generate_immediate(output, opcode, Register::R0, value);
                    Ok(())
                },
                Operand::Label { value: label_id, span } => {
                    self.generate_label_target(output, opcode, Register::R0, label_id, span)
                },
            },
            Instruction::DoubleOperand(opcode, operand1, operand2) => {
                let register = match operand1 {
                    Operand::Register { value, .. } => value,
                    _ => Register::R0,
                };
                match operand2 {
                    Operand::Register { value: register2, .. } => {
                        Self::generate_double_register(output, opcode, register, register2);
                        Ok(())
                    },
                    Operand::Label { value: label_id, span } => {
                        self.generate_label_target(output, opcode, register, label_id, span)
                    },
                    Operand::Integer { value, span } => {
                        if opcode == Opcode::In || opcode == Opcode::Out {
                            match Self::generate_io(output, opcode, register, value as u8) {
                                Ok(()) => Ok(()),
                                Err(()) => Err(GeneratorError::SourceOrSinkRangeError(span)),
                            }
                        } else if (opcode == Opcode::Jz || opcode == Opcode::Jlt) && value
                            >= MAX_NUM_INSTRUCTIONS {
                            Err(GeneratorError::JumpDestinationRangeError(span))
                        } else {
                            Self::generate_immediate(output, opcode, register, value);
                            Ok(())
                        }
                    },
                }
            },
        }
    }

    /// Appends an instruction whose data byte is a label's offset.
    fn generate_label_target(
        &self,
        output: &mut Vec<u8>,
        opcode: Opcode,
        register: Register,
        label_id: LabelId,
        span: Span,
    ) -> (r: Result<(), GeneratorError>)
        ensures
            match label_pair(opcode, register, label_id, span, self.label_manager@) {
                Ok(b) => r is Ok && final(output)@ == old(output)@ + b,
                Err(e) => r == Err::<(), GeneratorError>(e) && final(output)@ == old(output)@,
            },
    {
        if let Some(value) = self.label_manager.get_value_of(label_id) {
            Self::generate_immediate(output, opcode, register, value);
            Ok(())
        } else {
            Err(GeneratorError::UndefinedLabelError(span))
        }
    }

    fn generate_immediate(buffer: &mut Vec<u8>, opcode: Opcode, register: Register, value: i8)
        ensures
            final(buffer)@ == old(buffer)@ + byte_pair(opcode, register, value as u8),
    {
        let op = opcode.encode();
        let reg = register.encode();
        proof {
            lemma_nibbles(op, reg);
        }
        let first_byte = (op << 4) | reg;
        buffer.push(first_byte);
        buffer.push(value as u8);
        assert(buffer@ =~= old(buffer)@ + byte_pair(opcode, register, value as u8));
    }

    fn generate_single_register(buffer: &mut Vec<u8>, opcode: Opcode, register: Register)
        ensures
            final(buffer)@ == old(buffer)@ + byte_pair(opcode, register, 0),
    {
        // The data byte is not read by the machine.
        Self::generate_immediate(buffer, opcode, register, 0);
    }

    fn generate_double_register(
        buffer: &mut Vec<u8>,
        opcode: Opcode,
        register1: Register,
        register2: Register,
    )
        ensures
            final(buffer)@ == old(buffer)@ + byte_pair(
                opcode,
                register1,
                (register2.index() * 16) as u8,
            ),
    {
        let op = opcode.encode();
        let reg1 = register1.encode();
        let reg2 = register2.encode();
        proof {
            lemma_nibbles(op, reg1);
            lemma_nibbles(reg2, 0);
        }
        let first_byte = (op << 4) | reg1;
        let second_byte = reg2 << 4;
        buffer.push(first_byte);
        buffer.push(second_byte);
        assert(buffer@ =~= old(buffer)@ + byte_pair(
            opcode,
            register1,
            (register2.index() * 16) as u8,
        ));
    }

    /// Appends an input or output instruction; fails if the port does not fit
    /// in four bits.
    fn generate_io(buffer: &mut Vec<u8>, opcode: Opcode, register: Register, source_or_sink: u8) -> (r:
        Result<(), ()>)
        ensures
            r is Err <==> source_or_sink > 15,
            r is Ok ==> final(buffer)@ == old(buffer)@ + byte_pair(
                opcode,
                register,
                (source_or_sink * 16) as u8,
            ),
            r is Err ==> final(buffer)@ == old(buffer)@,
    {
        if source_or_sink > 0b1111 {
            return Err(());
        }
        let op = opcode.encode();
        let reg = register.encode();
        proof {
            lemma_nibbles(op, reg);
            lemma_nibbles(source_or_sink, 0);
        }
        let first_byte = (op << 4) | reg;
        buffer.push(first_byte);
        buffer.push(source_or_sink << 4);
        assert(buffer@ =~= old(buffer)@ + byte_pair(opcode, register, (source_or_sink * 16) as u8));
        Ok(())
    }

    fn generate_no_operand(buffer: &mut Vec<u8>, opcode: Opcode)
        ensures
            final(buffer)@ == old(buffer)@ + byte_pair(opcode, Register::R0, 0),
    {
        // Only the opcode is read by the machine.
        Self::generate_immediate(buffer, opcode, Register::R0, 0);
    }
}

proof fn lemma_layout_after(items: Seq<Item>, k: int, n: int, id: LabelId)
    requires
        0 <= k < n <= items.len(),
        forall|j: int| k < j < items.len() ==> items[j] != Item::Label(id),
    ensures
        layout_offset(items.take(n), id) == layout_offset(items.take(k + 1), id),
    decreases n - k,
{
    if n > k + 1 {
        assert(items.take(n).drop_last() =~= items.take(n - 1));
        assert(items.take(n).last() == items[n - 1]);
        lemma_layout_after(items, k, n - 1, id);
    }
}

/// A label resolves to the number of instructions that come before its
/// definition, wherever it is referenced from: the offset depends on the
/// instruction count alone, not on where the text mentions the label.
pub proof fn law_label_offset(items: Seq<Item>, rows: Seq<LabelEntry>, k: int)
    requires
        0 <= k < items.len(),
        items[k] is Label,
        items[k]->Label_0 < rows.len(),
        forall|j: int| k < j < items.len() ==> items[j] != items[k],
        instruction_count(items) <= MAX_NUM_INSTRUCTIONS,
    ensures
        laid_out(items, rows)[items[k]->Label_0 as int].value == Some(
            instruction_count(items.take(k)) as i8,
        ),
{
    let id = items[k]->Label_0;
    lemma_layout_after(items, k, items.len() as int, id);
    assert(items.take(items.len() as int) =~= items);
    assert(items.take(k + 1).drop_last() =~= items.take(k));
    assert(items.take(k + 1).last() == items[k]);
    lemma_count_monotone(items, k, items.len() as int);
}

} // verus!
