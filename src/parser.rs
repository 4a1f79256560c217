//! The parser: reads the filtered token stream line by line, consulting the
//! operand rule table, and builds the item sequence and the label table.

use crate::ast::{opcode_named, register_named, Instruction, Item, LabelId, Opcode, Operand, Register};
use crate::generator::labels_defined;
use crate::instructions::{operand_rules, rules_for, rules_view, OperandType};
use crate::labels::{label_index, with_span, LabelEntry, LabelManager};
use crate::lexer::{is_decimal_digit, is_digit, tokens_fit, Token, TokenType};
use crate::sources::SourceManager;
use vstd::prelude::*;
use vstd::string::*;

verus! {

/// What `str::to_lowercase` returns for `s`.
pub uninterp spec fn lower_of(s: Seq<char>) -> Seq<char>;

/// Relies on `str::to_lowercase`: the result depends on the characters alone.
#[verifier::external_body]
fn lowercase(s: &str) -> (r: String)
    ensures
        r@ == lower_of(s@),
{
    s.to_lowercase()
}

/// The first error met while parsing; each carries the offending token.
#[derive(Debug, Clone)]
pub enum ParseError {
    UnexpectedToken(TokenType, Token),
    MissingToken(TokenType),
    InvalidInstruction(Token),
    ExpectedInstructionBeforeLabel(Token),
    DuplicateLabel(Token),
    ExpectedInstruction(Token),
    ExpectedNoOperands(Token),
    ExpectedOperandFoundEOF(Token),
    ExpectedOperand(Token, String),
    ExpectedRegister(Token),
    IntegerOutOfRange(Token),
}

/// A parse error as a mathematical value.
pub enum ParseErrorView {
    UnexpectedToken(TokenType, Token),
    MissingToken(TokenType),
    InvalidInstruction(Token),
    ExpectedInstructionBeforeLabel(Token),
    DuplicateLabel(Token),
    ExpectedInstruction(Token),
    ExpectedNoOperands(Token),
    ExpectedOperandFoundEOF(Token),
    ExpectedOperand(Token, Seq<char>),
    ExpectedRegister(Token),
    IntegerOutOfRange(Token),
}

impl View for ParseError {
    type V = ParseErrorView;

    open spec fn view(&self) -> ParseErrorView {
        match self {
            ParseError::UnexpectedToken(tt, t) => ParseErrorView::UnexpectedToken(*tt, *t),
            ParseError::MissingToken(tt) => ParseErrorView::MissingToken(*tt),
            ParseError::InvalidInstruction(t) => ParseErrorView::InvalidInstruction(*t),
            ParseError::ExpectedInstructionBeforeLabel(t) => ParseErrorView::ExpectedInstructionBeforeLabel(*t),
            ParseError::DuplicateLabel(t) => ParseErrorView::DuplicateLabel(*t),
            ParseError::ExpectedInstruction(t) => ParseErrorView::ExpectedInstruction(*t),
            ParseError::ExpectedNoOperands(t) => ParseErrorView::ExpectedNoOperands(*t),
            ParseError::ExpectedOperandFoundEOF(t) => ParseErrorView::ExpectedOperandFoundEOF(*t),
            ParseError::ExpectedOperand(t, s) => ParseErrorView::ExpectedOperand(*t, s@),
            ParseError::ExpectedRegister(t) => ParseErrorView::ExpectedRegister(*t),
            ParseError::IntegerOutOfRange(t) => ParseErrorView::IntegerOutOfRange(*t),
        }
    }
}

/// The value of a string of decimal digits.
pub open spec fn decimal_value(s: Seq<char>) -> nat
    decreases s.len(),
{
    if s.len() == 0 {
        0
    } else {
        decimal_value(s.drop_last()) * 10 + (s.last() as int - '0' as int) as nat
    }
}

/// The signed 8-bit value that `s` writes in decimal, if it writes one.
pub open spec fn decimal_i8(s: Seq<char>) -> Option<i8> {
    if s.len() > 0 && (forall|j: int| 0 <= j < s.len() ==> is_decimal_digit(#[trigger] s[j]))
        && decimal_value(s) <= 127 {
        Some(decimal_value(s) as i8)
    } else {
        None
    }
}

proof fn lemma_decimal_monotone(s: Seq<char>, a: int, b: int)
    requires
        0 <= a <= b <= s.len(),
        forall|j: int| 0 <= j < s.len() ==> is_decimal_digit(#[trigger] s[j]),
    ensures
        decimal_value(s.take(a)) <= decimal_value(s.take(b)),
    decreases b - a,
{
    if a < b {
        assert(s.take(b).drop_last() =~= s.take(b - 1));
        lemma_decimal_monotone(s, a, b - 1);
    }
}

/// Reads a decimal integer made of digits alone as a signed 8-bit value.
pub fn parse_decimal_i8(s: &str) -> (r: Option<i8>)
    ensures
        r == decimal_i8(s@),
{
    let n = s.unicode_len();
    if n == 0 {
        return None;
    }
    let mut value: u32 = 0;
    let mut i: usize = 0;
    while i < n
        invariant
            n == s@.len(),
            i <= n,
            value == decimal_value(s@.take(i as int)),
            value <= 127,
            forall|j: int| 0 <= j < i ==> is_decimal_digit(#[trigger] s@[j]),
        decreases n - i,
    {
        let c = s.get_char(i);
        if !is_digit(c) {
            return None;
        }
        assert(s@.take(i + 1).drop_last() =~= s@.take(i as int));
        value = value * 10 + ((c as u32) - ('0' as u32));
        i += 1;
        if value > 127 {
            proof {
                if forall|j: int| 0 <= j < s@.len() ==> is_decimal_digit(#[trigger] s@[j]) {
                    lemma_decimal_monotone(s@, i as int, n as int);
                    assert(s@.take(n as int) =~= s@);
                }
            }
            return None;
        }
    }
    assert(s@.take(n as int) =~= s@);
    Some(value as i8)
}

/// Where the parse stands: the next token, the label table, and whether the
/// last label read still waits for its instruction.
pub struct ParseState {
    pub pos: int,
    pub rows: Seq<LabelEntry>,
    pub pending: bool,
}

pub open spec fn advance(st: ParseState) -> ParseState {
    ParseState { pos: st.pos + 1, rows: st.rows, pending: st.pending }
}

/// The text of token `t`.
pub open spec fn token_text(text: Seq<char>, t: Token) -> Seq<char> {
    text.subrange(t.span.index as int, t.span.end())
}

/// Whether a token of kind `tt` can stand for an operand that `rule` accepts.
pub open spec fn accepts_token(rule: Seq<OperandType>, tt: TokenType) -> bool {
    ||| (tt == TokenType::Integer && rule.contains(OperandType::Integer))
    ||| (tt == TokenType::Identifier && (rule.contains(OperandType::Register) || rule.contains(
        OperandType::Label,
    )))
}

/// The accepted kinds named in words: `a`, `a or b`, `a, b or c`.
pub open spec fn kinds_text(rule: Seq<OperandType>) -> Seq<char> {
    if rule.len() == 1 {
        rule[0].spec_as_str()
    } else if rule.len() == 2 {
        rule[0].spec_as_str() + " or "@ + rule[1].spec_as_str()
    } else if rule.len() == 3 {
        rule[0].spec_as_str() + ", "@ + rule[1].spec_as_str() + " or "@ + rule[2].spec_as_str()
    } else {
        seq![]
    }
}

/// The id of the label named `name`, with a forward-reference row added if
/// the name has none.
pub open spec fn reference(rows: Seq<LabelEntry>, name: Seq<char>) -> (LabelId, Seq<LabelEntry>) {
    match label_index(rows, name) {
        Some(i) => (i as LabelId, rows),
        None => (rows.len() as LabelId, rows.push(LabelEntry { name, value: None, span: None })),
    }
}

/// Reads one operand against `rule`; `instruction` is the instruction's token.
pub open spec fn parse_operand_model(
    toks: Seq<Token>,
    text: Seq<char>,
    instruction: Token,
    rule: Seq<OperandType>,
    st: ParseState,
) -> Result<(Operand, ParseState), ParseErrorView> {
    if st.pos < 0 || st.pos >= toks.len() {
        Err(ParseErrorView::ExpectedOperandFoundEOF(instruction))
    } else {
        let t = toks[st.pos];
        let next = advance(st);
        if !accepts_token(rule, t.tt) {
            Err(ParseErrorView::ExpectedOperand(t, kinds_text(rule)))
        } else if t.tt == TokenType::Identifier {
            let name = lower_of(token_text(text, t));
            if rule.contains(OperandType::Register) && register_named(name) is Some {
                Ok((Operand::Register { value: register_named(name)->Some_0, span: t.span }, next))
            } else if rule.contains(OperandType::Label) {
                let (id, rows) = reference(st.rows, name);
                Ok(
                    (
                        Operand::Label { value: id, span: t.span },
                        ParseState { pos: next.pos, rows, pending: st.pending },
                    ),
                )
            } else {
                Err(ParseErrorView::ExpectedRegister(t))
            }
        } else {
            match decimal_i8(token_text(text, t)) {
                Some(v) => Ok((Operand::Integer { value: v, span: t.span }, next)),
                None => Err(ParseErrorView::IntegerOutOfRange(t)),
            }
        }
    }
}

/// Reads one instruction, starting at a token that exists.
pub open spec fn parse_instruction_model(toks: Seq<Token>, text: Seq<char>, st: ParseState) -> Result<
    (Instruction, ParseState),
    ParseErrorView,
> {
    let t = toks[st.pos];
    let next = advance(st);
    if t.tt != TokenType::Identifier {
        Err(ParseErrorView::ExpectedInstruction(t))
    } else {
        match opcode_named(lower_of(token_text(text, t))) {
            None => Err(ParseErrorView::InvalidInstruction(t)),
            Some(op) => {
                let rules = operand_rules(op);
                if rules.len() == 0 {
                    if next.pos >= toks.len() || toks[next.pos].tt == TokenType::Newline {
                        Ok((Instruction::NoOperand(op), next))
                    } else {
                        Err(ParseErrorView::ExpectedNoOperands(toks[next.pos]))
                    }
                } else if rules.len() == 1 {
                    match parse_operand_model(toks, text, t, rules[0], next) {
                        Ok((a, st2)) => Ok((Instruction::SingleOperand(op, a), st2)),
                        Err(e) => Err(e),
                    }
                } else {
                    match parse_operand_model(toks, text, t, rules[0], next) {
                        Err(e) => Err(e),
                        Ok((a, st2)) => {
                            if st2.pos >= toks.len() {
                                Err(ParseErrorView::MissingToken(TokenType::Comma))
                            } else if toks[st2.pos].tt != TokenType::Comma {
                                Err(ParseErrorView::UnexpectedToken(TokenType::Comma, toks[st2.pos]))
                            } else {
                                match parse_operand_model(toks, text, t, rules[1], advance(st2)) {
                                    Ok((b, st3)) => Ok((Instruction::DoubleOperand(op, a, b), st3)),
                                    Err(e) => Err(e),
                                }
                            }
                        },
                    }
                }
            },
        }
    }
}

/// Ends a line: the next token, if any, must be a newline, and is consumed.
pub open spec fn finish_line(toks: Seq<Token>, items: Seq<Item>, st: ParseState) -> Result<
    (Seq<Item>, ParseState),
    ParseErrorView,
> {
    if st.pos < toks.len() {
        if toks[st.pos].tt != TokenType::Newline {
            Err(ParseErrorView::UnexpectedToken(TokenType::Newline, toks[st.pos]))
        } else {
            Ok((items, advance(st)))
        }
    } else {
        Ok((items, st))
    }
}

/// Reads an instruction and ends the line; the pending label is then attached.
pub open spec fn instruction_line(
    toks: Seq<Token>,
    text: Seq<char>,
    items: Seq<Item>,
    st: ParseState,
) -> Result<(Seq<Item>, ParseState), ParseErrorView> {
    match parse_instruction_model(toks, text, st) {
        Err(e) => Err(e),
        Ok((ins, st2)) => finish_line(
            toks,
            items.push(Item::Instruction(ins)),
            ParseState { pos: st2.pos, rows: st2.rows, pending: false },
        ),
    }
}

/// Reads one line, starting at a token that exists.
pub open spec fn parse_line_model(toks: Seq<Token>, text: Seq<char>, st: ParseState) -> Result<
    (Seq<Item>, ParseState),
    ParseErrorView,
> {
    let t = toks[st.pos];
    if t.tt == TokenType::Newline {
        Ok((seq![], advance(st)))
    } else if t.tt == TokenType::Label {
        if st.pending {
            Err(ParseErrorView::ExpectedInstructionBeforeLabel(t))
        } else {
            let name = token_text(text, t).drop_last();
            let found = label_index(st.rows, name);
            if found is Some && st.rows[found->Some_0].span is Some {
                Err(ParseErrorView::DuplicateLabel(t))
            } else {
                let (id, rows) = match found {
                    Some(i) => (i as LabelId, with_span(st.rows, i, t.span)),
                    None => (
                        st.rows.len() as LabelId,
                        st.rows.push(LabelEntry { name, value: None, span: Some(t.span) }),
                    ),
                };
                let next = ParseState { pos: st.pos + 1, rows, pending: true };
                if next.pos < toks.len() && toks[next.pos].tt != TokenType::Newline {
                    instruction_line(toks, text, seq![Item::Label(id)], next)
                } else {
                    finish_line(toks, seq![Item::Label(id)], next)
                }
            }
        }
    } else {
        instruction_line(toks, text, seq![], st)
    }
}

/// Reads the lines from `st` to the end: all items in order and the final
/// label table, or the first error.
pub open spec fn parse_model(toks: Seq<Token>, text: Seq<char>, st: ParseState) -> Result<
    (Seq<Item>, Seq<LabelEntry>),
    ParseErrorView,
>
    decreases (if 0 <= st.pos < toks.len() {
        toks.len() - st.pos
    } else {
        0
    }),
    via parse_model_decreases
{
    if st.pos < 0 || st.pos >= toks.len() {
        Ok((seq![], st.rows))
    } else {
        match parse_line_model(toks, text, st) {
            Err(e) => Err(e),
            Ok((items, st2)) => match parse_model(toks, text, st2) {
                Ok((rest, rows)) => Ok((items + rest, rows)),
                Err(e) => Err(e),
            },
        }
    }
}

#[via_fn]
proof fn parse_model_decreases(toks: Seq<Token>, text: Seq<char>, st: ParseState) {
    if 0 <= st.pos < toks.len() {
        if let Ok((items, st2)) = parse_line_model(toks, text, st) {
            lemma_line_progress(toks, text, st);
        }
    }
}

proof fn lemma_defined_grow(items: Seq<Item>, a: Seq<LabelEntry>, b: Seq<LabelEntry>)
    requires
        labels_defined(items, a),
        rows_grow(a, b),
    ensures
        labels_defined(items, b),
{
    assert forall|k: int| 0 <= k < items.len() && #[trigger] items[k] is Label implies items[k]->Label_0
        < b.len() && b[items[k]->Label_0 as int].span is Some by {
        let id = items[k]->Label_0 as int;
        assert(a[id].span is Some);
    }
}

proof fn lemma_rows_grow_trans(a: Seq<LabelEntry>, b: Seq<LabelEntry>, c: Seq<LabelEntry>)
    requires
        rows_grow(a, b),
        rows_grow(b, c),
    ensures
        rows_grow(a, c),
{
    assert forall|i: int| 0 <= i < a.len() && (#[trigger] a[i]).span is Some implies c[i].span is Some by {
        assert(b[i].span is Some);
    }
}

proof fn lemma_instruction_progress(toks: Seq<Token>, text: Seq<char>, st: ParseState)
    requires
        0 <= st.pos,
    ensures
        parse_instruction_model(toks, text, st) matches Ok((_, st2)) ==> st2.pos > st.pos,
{
}

proof fn lemma_line_progress(toks: Seq<Token>, text: Seq<char>, st: ParseState)
    requires
        0 <= st.pos < toks.len(),
    ensures
        parse_line_model(toks, text, st) matches Ok((_, st2)) ==> st2.pos > st.pos,
{
    lemma_instruction_progress(toks, text, st);
    lemma_instruction_progress(toks, text, ParseState { pos: st.pos + 1, rows: st.rows, pending: true });
    let t = toks[st.pos];
    if t.tt == TokenType::Label && !st.pending {
        let name = token_text(text, t).drop_last();
        let found = label_index(st.rows, name);
        let (id, rows) = match found {
            Some(i) => (i as LabelId, with_span(st.rows, i, t.span)),
            None => (
                st.rows.len() as LabelId,
                st.rows.push(LabelEntry { name, value: None, span: Some(t.span) }),
            ),
        };
        lemma_instruction_progress(toks, text, ParseState { pos: st.pos + 1, rows, pending: true });
    }
}

/// `r` is the outcome `m` describes; a successful parse also leaves a
/// well-formed table in which every label item is defined, and every
/// instruction follows the rule table.
pub open spec fn parse_outcome(
    r: Result<(Vec<Item>, LabelManager), ParseError>,
    m: Result<(Seq<Item>, Seq<LabelEntry>), ParseErrorView>,
) -> bool {
    match m {
        Ok((items, rows)) => {
            &&& r is Ok
            &&& r->Ok_0.0@ == items
            &&& r->Ok_0.1@ == rows
            &&& r->Ok_0.1.wf()
            &&& labels_defined(items, rows)
            &&& instructions_follow_rules(items)
        },
        Err(e) => r is Err && r->Err_0@ == e,
    }
}

/// Every instruction item has the operands that its opcode's rule asks for.
pub open spec fn instructions_follow_rules(items: Seq<Item>) -> bool {
    forall|k: int|
        0 <= k < items.len() && #[trigger] items[k] is Instruction ==> items[k]->Instruction_0.follows_rules()
}

proof fn lemma_rules_concat(a: Seq<Item>, b: Seq<Item>)
    requires
        instructions_follow_rules(a),
        instructions_follow_rules(b),
    ensures
        instructions_follow_rules(a + b),
{
    assert forall|k: int| 0 <= k < (a + b).len() && #[trigger] (a + b)[k] is Instruction implies (a
        + b)[k]->Instruction_0.follows_rules() by {
        if k < a.len() {
            assert((a + b)[k] == a[k]);
        } else {
            assert((a + b)[k] == b[k - a.len()]);
        }
    }
}

/// `m` with `prefix` put before its items.
pub open spec fn after_prefix(
    prefix: Seq<Item>,
    m: Result<(Seq<Item>, Seq<LabelEntry>), ParseErrorView>,
) -> Result<(Seq<Item>, Seq<LabelEntry>), ParseErrorView> {
    match m {
        Ok((rest, rows)) => Ok((prefix + rest, rows)),
        Err(e) => Err(e),
    }
}

proof fn lemma_after_prefix(
    a: Seq<Item>,
    b: Seq<Item>,
    m: Result<(Seq<Item>, Seq<LabelEntry>), ParseErrorView>,
)
    ensures
        after_prefix(a, after_prefix(b, m)) == after_prefix(a + b, m),
{
    if let Ok((rest, rows)) = m {
        assert(a + (b + rest) =~= (a + b) + rest);
    }
}

proof fn lemma_defined_concat(a: Seq<Item>, b: Seq<Item>, rows: Seq<LabelEntry>)
    requires
        labels_defined(a, rows),
        labels_defined(b, rows),
    ensures
        labels_defined(a + b, rows),
{
    assert forall|k: int| 0 <= k < (a + b).len() && #[trigger] (a + b)[k] is Label implies (a
        + b)[k]->Label_0 < rows.len() && rows[(a + b)[k]->Label_0 as int].span is Some by {
        if k < a.len() {
            assert((a + b)[k] == a[k]);
        } else {
            assert((a + b)[k] == b[k - a.len()]);
        }
    }
}

fn append_items(items: &mut Vec<Item>, line: Vec<Item>)
    ensures
        final(items)@ == old(items)@ + line@,
{
    let mut k: usize = 0;
    while k < line.len()
        invariant
            k <= line@.len(),
            items@ == old(items)@ + line@.take(k as int),
        decreases line@.len() - k,
    {
        items.push(line[k]);
        k += 1;
        assert(items@ =~= old(items)@ + line@.take(k as int));
    }
    assert(line@.take(k as int) =~= line@);
}

/// Each row of `a` is still in `b`, and a defined label stays defined.
pub open spec fn rows_grow(a: Seq<LabelEntry>, b: Seq<LabelEntry>) -> bool {
    &&& a.len() <= b.len()
    &&& forall|i: int| 0 <= i < a.len() && (#[trigger] a[i]).span is Some ==> b[i].span is Some
}

/// The position of `op` in the parser's rule table.
pub open spec fn rule_slot(op: Opcode) -> int {
    match op {
        Opcode::Nop => 0,
        Opcode::Add => 1,
        Opcode::Ldi => 2,
        Opcode::Sub => 3,
        Opcode::And => 4,
        Opcode::Or => 5,
        Opcode::Inv => 6,
        Opcode::Xor => 7,
        Opcode::Sr => 8,
        Opcode::Sl => 9,
        Opcode::In => 10,
        Opcode::Out => 11,
        Opcode::Jz => 12,
        Opcode::Jlt => 13,
        Opcode::J => 14,
    }
}

fn slot_of(op: Opcode) -> (r: usize)
    ensures
        r == rule_slot(op),
{
    match op {
        Opcode::Nop => 0,
        Opcode::Add => 1,
        Opcode::Ldi => 2,
        Opcode::Sub => 3,
        Opcode::And => 4,
        Opcode::Or => 5,
        Opcode::Inv => 6,
        Opcode::Xor => 7,
        Opcode::Sr => 8,
        Opcode::Sl => 9,
        Opcode::In => 10,
        Opcode::Out => 11,
        Opcode::Jz => 12,
        Opcode::Jlt => 13,
        Opcode::J => 14,
    }
}

fn copy_rule(rule: &Vec<OperandType>) -> (r: Vec<OperandType>)
    ensures
        r@ == rule@,
{
    let mut r: Vec<OperandType> = Vec::new();
    let mut i: usize = 0;
    while i < rule.len()
        invariant
            i <= rule@.len(),
            r@ == rule@.take(i as int),
        decreases rule@.len() - i,
    {
        r.push(rule[i]);
        i += 1;
        assert(r@ =~= rule@.take(i as int));
    }
    assert(rule@.take(i as int) =~= rule@);
    r
}

/// Whether `rule` holds `kind`.
fn rule_contains(rule: &Vec<OperandType>, kind: OperandType) -> (r: bool)
    ensures
        r == rule@.contains(kind),
{
    let mut i: usize = 0;
    while i < rule.len()
        invariant
            i <= rule@.len(),
            forall|j: int| 0 <= j < i ==> rule@[j] != kind,
        decreases rule@.len() - i,
    {
        if rule[i] == kind {
            return true;
        }
        i += 1;
    }
    false
}

/// The accepted kinds in words, for a message.
fn describe_kinds(rule: &Vec<OperandType>) -> (r: String)
    ensures
        r@ == kinds_text(rule@),
{
    if rule.len() == 1 {
        String::from_str(rule[0].as_str())
    } else if rule.len() == 2 {
        let mut s = String::from_str(rule[0].as_str());
        s.append(" or ");
        s.append(rule[1].as_str());
        s
    } else if rule.len() == 3 {
        let mut s = String::from_str(rule[0].as_str());
        s.append(", ");
        s.append(rule[1].as_str());
        s.append(" or ");
        s.append(rule[2].as_str());
        s
    } else {
        String::new()
    }
}

pub struct Parser<'a, 'b, 'c> {
    tokens: &'a Vec<Token>,
    pos: usize,
    source_manager: &'b SourceManager<'c>,
    parse_rules: Vec<Vec<Vec<OperandType>>>,
    label_manager: LabelManager,
    just_saw_label: bool,
}

impl<'a, 'b, 'c> Parser<'a, 'b, 'c> {
    pub closed spec fn toks(&self) -> Seq<Token> {
        self.tokens@
    }

    pub closed spec fn text(&self) -> Seq<char> {
        self.source_manager.text()
    }

    pub closed spec fn state(&self) -> ParseState {
        ParseState {
            pos: self.pos as int,
            rows: self.label_manager@,
            pending: self.just_saw_label,
        }
    }

    pub closed spec fn wf(&self) -> bool {
        &&& self.pos <= self.tokens.len()
        &&& self.label_manager.wf()
        &&& tokens_fit(self.tokens@, self.source_manager.text())
        &&& self.parse_rules@.len() == 15
        &&& forall|op: Opcode| #[trigger]
            rules_view(self.parse_rules@[rule_slot(op)]@) == operand_rules(op)
    }

    /// A parser at the first token, with an empty label table.
    pub fn new(tokens: &'a Vec<Token>, source_manager: &'b SourceManager<'c>) -> (r: Self)
        requires
            tokens_fit(tokens@, source_manager.text()),
        ensures
            r.wf(),
            r.toks() == tokens@,
            r.text() == source_manager.text(),
            r.state() == (ParseState { pos: 0, rows: Seq::<LabelEntry>::empty(), pending: false }),
    {
        let mut parse_rules: Vec<Vec<Vec<OperandType>>> = Vec::new();
        parse_rules.push(rules_for(Opcode::Nop));
        parse_rules.push(rules_for(Opcode::Add));
        parse_rules.push(rules_for(Opcode::Ldi));
        parse_rules.push(rules_for(Opcode::Sub));
        parse_rules.push(rules_for(Opcode::And));
        parse_rules.push(rules_for(Opcode::Or));
        parse_rules.push(rules_for(Opcode::Inv));
        parse_rules.push(rules_for(Opcode::Xor));
        parse_rules.push(rules_for(Opcode::Sr));
        parse_rules.push(rules_for(Opcode::Sl));
        parse_rules.push(rules_for(Opcode::In));
        parse_rules.push(rules_for(Opcode::Out));
        parse_rules.push(rules_for(Opcode::Jz));
        parse_rules.push(rules_for(Opcode::Jlt));
        parse_rules.push(rules_for(Opcode::J));
        let r = Parser {
            tokens,
            pos: 0,
            source_manager,
            parse_rules,
            label_manager: LabelManager::new(),
            just_saw_label: false,
        };
        assert forall|op: Opcode| #[trigger]
            rules_view(r.parse_rules@[rule_slot(op)]@) == operand_rules(op) by {
            match op {
                _ => {},
            }
        }
        r
    }

    /// Parses every line: the items in order and the label table, or the first error.
    pub fn parse(self) -> (r: Result<(Vec<Item>, LabelManager), ParseError>)
        requires
            self.wf(),
        ensures
            parse_outcome(r, parse_model(self.toks(), self.text(), self.state())),
    {
        let ghost toks = self.toks();
        let ghost text = self.text();
        let ghost st0 = self.state();
        let mut parser = self;
        let mut items: Vec<Item> = Vec::new();
        while parser.pos < parser.tokens.len()
            invariant
                parser.wf(),
                toks == self.toks(),
                text == self.text(),
                st0 == self.state(),
                toks == parser.tokens@,
                text == parser.source_manager.text(),
                labels_defined(items@, parser.label_manager@),
                instructions_follow_rules(items@),
                parse_model(toks, text, st0) == after_prefix(
                    items@,
                    parse_model(toks, text, parser.state()),
                ),
            decreases toks.len() - parser.pos,
        {
            let ghost st = parser.state();
            let ghost prefix = items@;
            let line = match parser.parse_line() {
                Ok(line) => line,
                Err(e) => {
                    assert(parse_model(toks, text, st) == Err::<
                        (Seq<Item>, Seq<LabelEntry>),
                        ParseErrorView,
                    >(e@));
                    return Err(e);
                },
            };
            append_items(&mut items, line);
            proof {
                lemma_defined_grow(prefix, st.rows, parser.label_manager@);
                lemma_defined_concat(prefix, line@, parser.label_manager@);
                lemma_rules_concat(prefix, line@);
                lemma_after_prefix(prefix, line@, parse_model(toks, text, parser.state()));
            }
        }
        Ok((items, parser.label_manager))
    }

    fn parse_line(&mut self) -> (r: Result<Vec<Item>, ParseError>)
        requires
            old(self).wf(),
            old(self).pos < old(self).toks().len(),
        ensures
            final(self).wf(),
            final(self).toks() == old(self).toks(),
            final(self).text() == old(self).text(),
            match parse_line_model(old(self).toks(), old(self).text(), old(self).state()) {
                Ok((items, st)) => r matches Ok(v) && v@ == items && final(self).state() == st,
                Err(e) => r matches Err(err) && err@ == e,
            },
            r is Ok ==> final(self).pos > old(self).pos && rows_grow(old(self).state().rows, final(self).state().rows)
                && labels_defined(r->Ok_0@, final(self).state().rows) && instructions_follow_rules(
                r->Ok_0@,
            ),
    {
        let ghost toks = self.tokens@;
        let ghost text = self.source_manager.text();
        let ghost st = self.state();
        let mut items: Vec<Item> = Vec::new();
        let next_token = self.tokens[self.pos];
        if next_token.tt == TokenType::Newline {
            self.pos += 1;
            return Ok(items);
        }
        if next_token.tt == TokenType::Label {
            if self.just_saw_label {
                return Err(ParseError::ExpectedInstructionBeforeLabel(next_token));
            }
            self.just_saw_label = true;
            let label_text_with_colon = self.source_manager.get_span(next_token.span).unwrap();
            let n = label_text_with_colon.unicode_len();
            let label_text = label_text_with_colon.substring_char(0, n - 1);
            assert(label_text@ =~= token_text(text, next_token).drop_last());
            let label_id = self.label_manager.get_id_of(label_text);
            match label_id {
                Some(id) => {
                    if self.label_manager.get_span_of(id).is_some() {
                        return Err(ParseError::DuplicateLabel(next_token));
                    }
                    self.label_manager.set_span_of(id, next_token.span).unwrap();
                    items.push(Item::Label(id));
                    assert(self.label_manager@[id as int].span is Some);
                    assert(items@ =~= seq![Item::Label(id)]);
                },
                None => {
                    match self.label_manager.insert_unique(label_text, next_token.span) {
                        Ok(id) => {
                            items.push(Item::Label(id));
                            assert(self.label_manager@[id as int].span is Some);
                            assert(items@ =~= seq![Item::Label(id)]);
                        },
                        Err(()) => {
                            return Err(ParseError::DuplicateLabel(next_token));
                        },
                    }
                },
            }
            self.pos += 1;
            proof {
                let rows = self.label_manager@;
                assert forall|i: int| 0 <= i < st.rows.len() && (#[trigger] st.rows[i]).span is Some implies rows[i].span is Some by {}
                assert(rows_grow(st.rows, rows));
                assert(labels_defined(items@, rows));
            }
            if self.pos >= self.tokens.len() || self.is_peek_token(TokenType::Newline) {
                match self.consume_or_eof(TokenType::Newline) {
                    Ok(()) => {},
                    Err(e) => {
                        return Err(e);
                    },
                }
                assert(items@ =~= seq![items@[0]]);
                return Ok(items);
            }
        }
        let ghost before = items@;
        let ghost label_rows = self.label_manager@;
        let instruction = match self.parse_instruction() {
            Ok(instruction) => instruction,
            Err(e) => {
                return Err(e);
            },
        };
        items.push(Item::Instruction(instruction));
        self.just_saw_label = false;
        match self.consume_or_eof(TokenType::Newline) {
            Ok(()) => {},
            Err(e) => {
                return Err(e);
            },
        }
        assert(items@ =~= before.push(Item::Instruction(instruction)));
        proof {
            lemma_rows_grow_trans(st.rows, label_rows, self.label_manager@);
            lemma_defined_grow(before, label_rows, self.label_manager@);
        }
        Ok(items)
    }

    fn parse_instruction(&mut self) -> (r: Result<Instruction, ParseError>)
        requires
            old(self).wf(),
            old(self).pos < old(self).toks().len(),
        ensures
            final(self).wf(),
            final(self).toks() == old(self).toks(),
            final(self).text() == old(self).text(),
            match parse_instruction_model(old(self).toks(), old(self).text(), old(self).state()) {
                Ok((ins, st)) => r == Ok::<Instruction, ParseError>(ins) && final(self).state() == st,
                Err(e) => r matches Err(err) && err@ == e,
            },
            r is Ok ==> rows_grow(old(self).state().rows, final(self).state().rows),
            r matches Ok(ins) ==> ins.follows_rules(),
    {
        let ghost text = self.source_manager.text();
        let next_token = self.tokens[self.pos];
        self.pos += 1;
        if next_token.tt != TokenType::Identifier {
            return Err(ParseError::ExpectedInstruction(next_token));
        }
        let text = lowercase(self.source_manager.get_span(next_token.span).unwrap());
        let opcode = match Opcode::try_from(text.as_str()) {
            Some(opcode) => opcode,
            None => {
                return Err(ParseError::InvalidInstruction(next_token));
            },
        };
        let slot = slot_of(opcode);
        let count = self.parse_rules[slot].len();
        proof {
            assert(rules_view(self.parse_rules@[rule_slot(opcode)]@) == operand_rules(opcode));
        }
        if count == 0 {
            if self.pos >= self.tokens.len() || self.is_peek_token(TokenType::Newline) {
                Ok(Instruction::NoOperand(opcode))
            } else {
                let extra = self.tokens[self.pos];
                self.pos += 1;
                Err(ParseError::ExpectedNoOperands(extra))
            }
        } else if count == 1 {
            let rule = copy_rule(&self.parse_rules[slot][0]);
            let operand = match self.parse_operand(next_token, &rule) {
                Ok(operand) => operand,
                Err(e) => {
                    return Err(e);
                },
            };
            Ok(Instruction::SingleOperand(opcode, operand))
        } else {
            let rule1 = copy_rule(&self.parse_rules[slot][0]);
            let rule2 = copy_rule(&self.parse_rules[slot][1]);
            let operand1 = match self.parse_operand(next_token, &rule1) {
                Ok(operand) => operand,
                Err(e) => {
                    return Err(e);
                },
            };
            match self.expect_token(TokenType::Comma) {
                Ok(()) => {},
                Err(e) => {
                    return Err(e);
                },
            }
            let operand2 = match self.parse_operand(next_token, &rule2) {
                Ok(operand) => operand,
                Err(e) => {
                    return Err(e);
                },
            };
            Ok(Instruction::DoubleOperand(opcode, operand1, operand2))
        }
    }

    fn parse_operand(&mut self, instruction_token: Token, operand_rule: &Vec<OperandType>) -> (r:
        Result<Operand, ParseError>)
        requires
            old(self).wf(),
        ensures
            final(self).wf(),
            final(self).toks() == old(self).toks(),
            final(self).text() == old(self).text(),
            match parse_operand_model(
                old(self).toks(),
                old(self).text(),
                instruction_token,
                operand_rule@,
                old(self).state(),
            ) {
                Ok((o, st)) => r == Ok::<Operand, ParseError>(o) && final(self).state() == st,
                Err(e) => r matches Err(err) && err@ == e,
            },
            r is Ok ==> rows_grow(old(self).state().rows, final(self).state().rows),
            r matches Ok(o) ==> operand_rule@.contains(o.kind()),
    {
        let ghost text = self.source_manager.text();
        if self.pos >= self.tokens.len() {
            return Err(ParseError::ExpectedOperandFoundEOF(instruction_token));
        }
        let next_token = self.tokens[self.pos];
        self.pos += 1;
        let wants_register = rule_contains(operand_rule, OperandType::Register);
        let wants_label = rule_contains(operand_rule, OperandType::Label);
        let wants_integer = rule_contains(operand_rule, OperandType::Integer);
        let expected = if next_token.tt == TokenType::Identifier {
            wants_register || wants_label
        } else {
            next_token.tt == TokenType::Integer && wants_integer
        };
        if !expected {
            return Err(ParseError::ExpectedOperand(next_token, describe_kinds(operand_rule)));
        }
        let raw = self.source_manager.get_span(next_token.span).unwrap();
        if next_token.tt == TokenType::Identifier {
            let text = lowercase(raw);
            if wants_register {
                if let Some(register) = Register::try_from(text.as_str()) {
                    return Ok(Operand::Register { value: register, span: next_token.span });
                }
            }
            if wants_label {
                // A label's offset is known only after layout, so any name is accepted here.
                let label_id = self.label_manager.get_or_insert_reference(text.as_str());
                Ok(Operand::Label { value: label_id, span: next_token.span })
            } else {
                Err(ParseError::ExpectedRegister(next_token))
            }
        } else {
            match parse_decimal_i8(raw) {
                Some(value) => Ok(Operand::Integer { value, span: next_token.span }),
                None => Err(ParseError::IntegerOutOfRange(next_token)),
            }
        }
    }

    fn is_peek_token(&self, tt: TokenType) -> (r: bool)
        ensures
            r == (self.pos < self.tokens@.len() && self.tokens@[self.pos as int].tt == tt),
    {
        self.pos < self.tokens.len() && self.tokens[self.pos].tt == tt
    }

    /// Consumes the next token, which must be of kind `tt`, if there is one.
    fn consume_or_eof(&mut self, tt: TokenType) -> (r: Result<(), ParseError>)
        requires
            old(self).wf(),
        ensures
            final(self).wf(),
            final(self).toks() == old(self).toks(),
            final(self).text() == old(self).text(),
            final(self).label_manager == old(self).label_manager,
            final(self).just_saw_label == old(self).just_saw_label,
            old(self).pos < old(self).tokens@.len() ==> final(self).pos == old(self).pos + 1,
            old(self).pos >= old(self).tokens@.len() ==> final(self).pos == old(self).pos,
            r is Ok <==> (old(self).pos >= old(self).tokens@.len()
                || old(self).tokens@[old(self).pos as int].tt == tt),
            r is Err ==> r->Err_0@ == ParseErrorView::UnexpectedToken(
                tt,
                old(self).tokens@[old(self).pos as int],
            ),
    {
        if self.pos < self.tokens.len() {
            let next_token = self.tokens[self.pos];
            self.pos += 1;
            if next_token.tt != tt {
                Err(ParseError::UnexpectedToken(tt, next_token))
            } else {
                Ok(())
            }
        } else {
            Ok(())
        }
    }

    /// Consumes the next token, which must exist and be of kind `tt`.
    fn expect_token(&mut self, tt: TokenType) -> (r: Result<(), ParseError>)
        requires
            old(self).wf(),
        ensures
            final(self).wf(),
            final(self).toks() == old(self).toks(),
            final(self).text() == old(self).text(),
            final(self).label_manager == old(self).label_manager,
            final(self).just_saw_label == old(self).just_saw_label,
            r is Ok <==> (old(self).pos < old(self).tokens@.len() && old(self).tokens@[old(
                self,
            ).pos as int].tt == tt),
            r is Ok ==> final(self).pos == old(self).pos + 1,
            old(self).pos >= old(self).tokens@.len() ==> (r matches Err(e) && e@
                == ParseErrorView::MissingToken(tt)),
            old(self).pos < old(self).tokens@.len() && r is Err ==> r->Err_0@
                == ParseErrorView::UnexpectedToken(tt, old(self).tokens@[old(self).pos as int]),
    {
        if self.pos < self.tokens.len() {
            let next_token = self.tokens[self.pos];
            self.pos += 1;
            if next_token.tt != tt {
                Err(ParseError::UnexpectedToken(tt, next_token))
            } else {
                Ok(())
            }
        } else {
            Err(ParseError::MissingToken(tt))
        }
    }
}

} // verus!
