//! Diagnostics: turns parse and generation errors into labelled messages,
//! and renders a message with the source line and a caret underline.

use crate::generator::{GeneratorError, MAX_NUM_INSTRUCTIONS};
use crate::lexer::{Span, Token, TokenType};
use crate::parser::{ParseError, ParseErrorView};
use crate::sources::{display_width, line_containing, SourceManager};
use vstd::prelude::*;
use vstd::string::*;

verus! {

#[derive(Debug, Clone, Copy, PartialEq, Eq, Structural)]
pub enum DiagnosticKind {
    Error,
}

impl DiagnosticKind {
    pub open spec fn spec_as_str(self) -> Seq<char> {
        match self {
            DiagnosticKind::Error => "error"@,
        }
    }

    /// The kind as it is printed.
    pub fn as_str(self) -> (r: &'static str)
        ensures
            r@ == self.spec_as_str(),
    {
        match self {
            DiagnosticKind::Error => "error",
        }
    }
}

/// One message for the user, with the place in the source it points at.
#[derive(Debug, Clone)]
pub struct Diagnostic {
    kind: DiagnosticKind,
    label: String,
    label_span: Option<Span>,
}

impl Diagnostic {
    pub closed spec fn spec_kind(&self) -> DiagnosticKind {
        self.kind
    }

    pub closed spec fn spec_label(&self) -> Seq<char> {
        self.label@
    }

    pub closed spec fn spec_label_span(&self) -> Option<Span> {
        self.label_span
    }

    pub fn new(kind: DiagnosticKind, label: String) -> (r: Diagnostic)
        ensures
            r.spec_kind() == kind,
            r.spec_label() == label@,
            r.spec_label_span() is None,
    {
        Diagnostic { kind, label, label_span: None }
    }

    pub fn new_with_span(kind: DiagnosticKind, label: String, span: Span) -> (r: Diagnostic)
        ensures
            r.spec_kind() == kind,
            r.spec_label() == label@,
            r.spec_label_span() == Some(span),
    {
        Diagnostic { kind, label, label_span: Some(span) }
    }

    pub fn error(label: String) -> (r: Diagnostic)
        ensures
            r.spec_kind() == DiagnosticKind::Error,
            r.spec_label() == label@,
            r.spec_label_span() is None,
    {
        Self::new(DiagnosticKind::Error, label)
    }

    pub fn error_with_span(label: String, span: Span) -> (r: Diagnostic)
        ensures
            r.spec_kind() == DiagnosticKind::Error,
            r.spec_label() == label@,
            r.spec_label_span() == Some(span),
    {
        Self::new_with_span(DiagnosticKind::Error, label, span)
    }

    pub fn kind(&self) -> (r: DiagnosticKind)
        ensures
            r == self.spec_kind(),
    {
        self.kind
    }

    pub fn label(&self) -> (r: &String)
        ensures
            r@ == self.spec_label(),
    {
        &self.label
    }

    pub fn label_span(&self) -> (r: Option<Span>)
        ensures
            r == self.spec_label_span(),
    {
        self.label_span
    }
}

/// `n` in decimal.
pub open spec fn decimal_chars(n: nat) -> Seq<char>
    decreases n,
{
    if n < 10 {
        seq![digit_char(n)]
    } else {
        decimal_chars(n / 10) + seq![digit_char(n % 10)]
    }
}

pub open spec fn digit_char(d: nat) -> char {
    "0123456789"@[d as int]
}

/// `n` written in decimal.
pub fn decimal_text(n: u32) -> (r: String)
    ensures
        r@ == decimal_chars(n as nat),
    decreases n,
{
    let digits = "0123456789";
    proof {
        reveal_strlit("0123456789");
    }
    let d = (n % 10) as usize;
    let last = digits.substring_char(d, d + 1);
    assert(last@ =~= seq![digit_char((n % 10) as nat)]);
    if n < 10 {
        String::from_str(last)
    } else {
        let mut s = decimal_text(n / 10);
        s.append(last);
        s
    }
}

/// The token that a parse error points at, if any.
pub open spec fn error_token(e: ParseErrorView) -> Option<Token> {
    match e {
        ParseErrorView::MissingToken(_) => None,
        ParseErrorView::UnexpectedToken(_, t) => Some(t),
        ParseErrorView::InvalidInstruction(t) => Some(t),
        ParseErrorView::ExpectedInstructionBeforeLabel(t) => Some(t),
        ParseErrorView::DuplicateLabel(t) => Some(t),
        ParseErrorView::ExpectedInstruction(t) => Some(t),
        ParseErrorView::ExpectedNoOperands(t) => Some(t),
        ParseErrorView::ExpectedOperandFoundEOF(t) => Some(t),
        ParseErrorView::ExpectedOperand(t, _) => Some(t),
        ParseErrorView::ExpectedRegister(t) => Some(t),
        ParseErrorView::IntegerOutOfRange(t) => Some(t),
    }
}

/// `text` between backquotes.
pub open spec fn quoted(text: Seq<char>) -> Seq<char> {
    "`"@ + text + "`"@
}

/// The message for a parse error; `text` is the source text.
pub open spec fn parse_error_message(e: ParseErrorView, text: Seq<char>) -> Seq<char> {
    match e {
        ParseErrorView::MissingToken(tt) => "Expected "@ + quoted(tt.spec_name())
            + ", found the end of file"@,
        ParseErrorView::UnexpectedToken(tt, t) => "Expected "@ + quoted(tt.spec_name())
            + ", found "@ + quoted(span_text(text, t.span)),
        ParseErrorView::InvalidInstruction(t) => quoted(span_text(text, t.span))
            + " is not a valid instruction"@,
        ParseErrorView::ExpectedInstructionBeforeLabel(t) => "Expected instruction after label, found second label "@
            + quoted(span_text(text, t.span)),
        ParseErrorView::DuplicateLabel(t) => "Duplicate label "@ + quoted(span_text(text, t.span)),
        ParseErrorView::ExpectedNoOperands(t) => "Instruction takes no operands, found "@ + quoted(span_text(text, t.span)),
        ParseErrorView::ExpectedInstruction(t) => "Expected an instruction, found "@ + quoted(span_text(text, t.span)),
        ParseErrorView::ExpectedOperand(t, expected) => "Expected instruction operand (one of "@
            + expected + "), found "@ + quoted(span_text(text, t.span)),
        ParseErrorView::ExpectedOperandFoundEOF(t) => "Expected instruction operand for "@ + quoted(span_text(text, t.span)) + ", found end of file"@,
        ParseErrorView::ExpectedRegister(t) => "Expected register for instruction operand, found "@
            + quoted(span_text(text, t.span)),
        ParseErrorView::IntegerOutOfRange(_) => "Value is out of range for an 8-bit signed integer value"@,
    }
}

/// The span that a generator error points at, if any.
pub open spec fn generator_error_span(e: GeneratorError) -> Option<Span> {
    match e {
        GeneratorError::SourceOrSinkRangeError(s) => Some(s),
        GeneratorError::DanglingLabelError(s) => Some(s),
        GeneratorError::MaximumInstructionsError => None,
        GeneratorError::UndefinedLabelError(s) => Some(s),
        GeneratorError::JumpDestinationRangeError(s) => Some(s),
    }
}

/// The text that span `s` covers, empty if it reaches past the end.
pub open spec fn span_text(text: Seq<char>, s: Span) -> Seq<char> {
    if s.end() <= text.len() {
        text.subrange(s.index as int, s.end())
    } else {
        seq![]
    }
}

/// The message for a generator error; `text` is the source text.
pub open spec fn generator_error_message(e: GeneratorError, text: Seq<char>) -> Seq<char> {
    match e {
        GeneratorError::DanglingLabelError(s) => "Dangling label "@ + quoted(span_text(text, s)),
        GeneratorError::SourceOrSinkRangeError(s) => "Source or sink must be in the range of 0-15, found "@
            + quoted(span_text(text, s)),
        GeneratorError::JumpDestinationRangeError(s) => "Jump destination must be in the range of 0-"@
            + decimal_chars((MAX_NUM_INSTRUCTIONS - 1) as nat) + ", found "@ + quoted(
            span_text(text, s),
        ),
        GeneratorError::MaximumInstructionsError => "Maximum number of instructions reached ("@
            + decimal_chars(MAX_NUM_INSTRUCTIONS as nat) + ")"@,
        GeneratorError::UndefinedLabelError(s) => "Label "@ + quoted(span_text(text, s))
            + " is undefined"@,
    }
}

/// Appends `text` between backquotes.
fn push_quoted(s: &mut String, text: &str)
    ensures
        final(s)@ == old(s)@ + quoted(text@),
{
    s.append("`");
    s.append(text);
    s.append("`");
    assert(final(s)@ =~= old(s)@ + quoted(text@));
}

fn span_str<'a>(source_manager: &SourceManager<'a>, span: Span) -> (r: &'a str)
    ensures
        r@ == span_text(source_manager.text(), span),
{
    match source_manager.get_span(span) {
        Ok(t) => t,
        Err(()) => {
            proof {
                reveal_strlit("");
            }
            ""
        },
    }
}

/// The diagnostic for a parse error.
pub fn parse_error_into_diagnostic(error: ParseError, source_manager: &SourceManager) -> (r: Diagnostic)
    ensures
        r.spec_kind() == DiagnosticKind::Error,
        r.spec_label() == parse_error_message(error@, source_manager.text()),
        r.spec_label_span() == (match error_token(error@) {
            Some(t) => Some(t.span),
            None => None::<Span>,
        }),
{
    let ghost text = source_manager.text();
    match error {
        ParseError::MissingToken(tt) => {
            let mut label = String::from_str("Expected ");
            push_quoted(&mut label, tt.name());
            label.append(", found the end of file");
            Diagnostic::error(label)
        },
        ParseError::UnexpectedToken(tt, t) => {
            let mut label = String::from_str("Expected ");
            push_quoted(&mut label, tt.name());
            label.append(", found ");
            push_quoted(&mut label, span_str(source_manager, t.span));
            assert(label@ =~= parse_error_message(error@, text));
            Diagnostic::error_with_span(label, t.span)
        },
        ParseError::InvalidInstruction(t) => {
            let mut label = String::new();
            push_quoted(&mut label, span_str(source_manager, t.span));
            label.append(" is not a valid instruction");
            assert(label@ =~= parse_error_message(error@, text));
            Diagnostic::error_with_span(label, t.span)
        },
        ParseError::ExpectedInstructionBeforeLabel(t) => {
            let mut label = String::from_str("Expected instruction after label, found second label ");
            push_quoted(&mut label, span_str(source_manager, t.span));
            Diagnostic::error_with_span(label, t.span)
        },
        ParseError::DuplicateLabel(t) => {
            let mut label = String::from_str("Duplicate label ");
            push_quoted(&mut label, span_str(source_manager, t.span));
            Diagnostic::error_with_span(label, t.span)
        },
        ParseError::ExpectedNoOperands(t) => {
            let mut label = String::from_str("Instruction takes no operands, found ");
            push_quoted(&mut label, span_str(source_manager, t.span));
            Diagnostic::error_with_span(label, t.span)
        },
        ParseError::ExpectedInstruction(t) => {
            let mut label = String::from_str("Expected an instruction, found ");
            push_quoted(&mut label, span_str(source_manager, t.span));
            Diagnostic::error_with_span(label, t.span)
        },
        ParseError::ExpectedOperand(t, expected) => {
            let mut label = String::from_str("Expected instruction operand (one of ");
            label.append(expected.as_str());
            label.append("), found ");
            push_quoted(&mut label, span_str(source_manager, t.span));
            assert(label@ =~= parse_error_message(error@, text));
            Diagnostic::error_with_span(label, t.span)
        },
        ParseError::ExpectedOperandFoundEOF(t) => {
            let mut label = String::from_str("Expected instruction operand for ");
            push_quoted(&mut label, span_str(source_manager, t.span));
            label.append(", found end of file");
            Diagnostic::error_with_span(label, t.span)
        },
        ParseError::ExpectedRegister(t) => {
            let mut label = String::from_str("Expected register for instruction operand, found ");
            push_quoted(&mut label, span_str(source_manager, t.span));
            Diagnostic::error_with_span(label, t.span)
        },
        ParseError::IntegerOutOfRange(t) => {
            let label = String::from_str("Value is out of range for an 8-bit signed integer value");
            Diagnostic::error_with_span(label, t.span)
        },
    }
}

/// The diagnostic for a generator error.
pub fn generator_error_into_diagnostic(error: GeneratorError, source_manager: &SourceManager) -> (r:
    Diagnostic)
    ensures
        r.spec_kind() == DiagnosticKind::Error,
        r.spec_label() == generator_error_message(error, source_manager.text()),
        r.spec_label_span() == generator_error_span(error),
{
    match error {
        GeneratorError::DanglingLabelError(span) => {
            let mut label = String::from_str("Dangling label ");
            push_quoted(&mut label, span_str(source_manager, span));
            Diagnostic::error_with_span(label, span)
        },
        GeneratorError::SourceOrSinkRangeError(span) => {
            let mut label = String::from_str("Source or sink must be in the range of 0-15, found ");
            push_quoted(&mut label, span_str(source_manager, span));
            Diagnostic::error_with_span(label, span)
        },
        GeneratorError::JumpDestinationRangeError(span) => {
            let max_destination = (MAX_NUM_INSTRUCTIONS - 1) as u32;
            let mut label = String::from_str("Jump destination must be in the range of 0-");
            let bound = decimal_text(max_destination);
            label.append(bound.as_str());
            label.append(", found ");
            push_quoted(&mut label, span_str(source_manager, span));
            assert(label@ =~= generator_error_message(error, source_manager.text()));
            Diagnostic::error_with_span(label, span)
        },
        GeneratorError::MaximumInstructionsError => {
            let mut label = String::from_str("Maximum number of instructions reached (");
            let bound = decimal_text(MAX_NUM_INSTRUCTIONS as u32);
            label.append(bound.as_str());
            label.append(")");
            Diagnostic::error(label)
        },
        GeneratorError::UndefinedLabelError(span) => {
            let mut label = String::from_str("Label ");
            push_quoted(&mut label, span_str(source_manager, span));
            label.append(" is undefined");
            assert(label@ =~= generator_error_message(error, source_manager.text()));
            Diagnostic::error_with_span(label, span)
        },
    }
}

/// `n` spaces.
pub open spec fn spaces(n: nat) -> Seq<char> {
    Seq::new(n, |i: int| ' ')
}

/// `n` carets.
pub open spec fn carets(n: nat) -> Seq<char> {
    Seq::new(n, |i: int| '^')
}

/// `s` with each tab replaced by four spaces.
pub open spec fn expand_tabs(s: Seq<char>) -> Seq<char>
    decreases s.len(),
{
    if s.len() == 0 {
        seq![]
    } else {
        expand_tabs(s.drop_last()) + if s.last() == '\t' {
            spaces(4)
        } else {
            seq![s.last()]
        }
    }
}

/// The lines that show diagnostic `d`: `kind: label`, then, where it has a
/// span that starts on a line of the source, the locator, the source line with tabs expanded, and a caret
/// underline as long as the span, below it.
pub open spec fn rendered(d: &Diagnostic, sm: &SourceManager) -> Seq<Seq<char>> {
    let head = d.spec_kind().spec_as_str() + ": "@ + d.spec_label();
    match d.spec_label_span() {
        Some(span) if line_containing(sm.line_ranges(), span.index as int, 0) is Some => {
            let lines = sm.line_ranges();
            let k = line_containing(lines, span.index as int, 0)->Some_0;
            let start = lines[k].0;
            let end = lines[k].1;
            let number = decimal_chars((k + 1) as nat);
            let pad = spaces(number.len());
            let column = display_width(sm.text().subrange(start, span.index as int));
            seq![
                head,
                " "@ + pad + " --> "@ + sm.spec_file_name() + ":"@ + number + ":"@ + decimal_chars(
                    column,
                ),
                " "@ + number + " | "@ + expand_tabs(sm.text().subrange(start, end)),
                pad + spaces(column + 4) + carets(span.len as nat),
            ]
        },
        _ => seq![head],
    }
}

/// Appends `n` copies of the one-character string `unit`.
fn push_repeated(s: &mut String, unit: &str, n: u64)
    requires
        unit@.len() == 1,
    ensures
        final(s)@ == old(s)@ + Seq::new(n as nat, |i: int| unit@[0]),
{
    let mut i: u64 = 0;
    while i < n
        invariant
            unit@.len() == 1,
            i <= n,
            s@ == old(s)@ + Seq::new(i as nat, |j: int| unit@[0]),
        decreases n - i,
    {
        s.append(unit);
        i += 1;
        assert(s@ =~= old(s)@ + Seq::new(i as nat, |j: int| unit@[0]));
    }
}

fn push_spaces(s: &mut String, n: u64)
    ensures
        final(s)@ == old(s)@ + spaces(n as nat),
{
    proof {
        reveal_strlit(" ");
    }
    push_repeated(s, " ", n);
    assert(final(s)@ =~= old(s)@ + spaces(n as nat));
}

fn push_carets(s: &mut String, n: u64)
    ensures
        final(s)@ == old(s)@ + carets(n as nat),
{
    proof {
        reveal_strlit("^");
    }
    push_repeated(s, "^", n);
    assert(final(s)@ =~= old(s)@ + carets(n as nat));
}

/// Appends `line` with each tab replaced by four spaces.
fn push_tab_expanded(s: &mut String, line: &str)
    ensures
        final(s)@ == old(s)@ + expand_tabs(line@),
{
    let n = line.unicode_len();
    let mut i: usize = 0;
    while i < n
        invariant
            n == line@.len(),
            i <= n,
            s@ == old(s)@ + expand_tabs(line@.take(i as int)),
        decreases n - i,
    {
        let ghost before = s@;
        assert(line@.take(i + 1).drop_last() =~= line@.take(i as int));
        if line.get_char(i) == '\t' {
            push_spaces(s, 4);
        } else {
            s.append(line.substring_char(i, i + 1));
            assert(line@.subrange(i as int, i + 1) =~= seq![line@[i as int]]);
        }
        i += 1;
        assert(s@ =~= old(s)@ + expand_tabs(line@.take(i as int)));
    }
    assert(line@.take(n as int) =~= line@);
}

/// The lines that show `diagnostic`.
pub fn render(diagnostic: &Diagnostic, source_manager: &SourceManager) -> (r: Vec<String>)
    ensures
        r@.len() == rendered(diagnostic, source_manager).len(),
        forall|i: int| 0 <= i < r@.len() ==> #[trigger] r@[i]@ == rendered(diagnostic, source_manager)[i],
{
    let mut out: Vec<String> = Vec::new();
    let mut head = String::from_str(diagnostic.kind().as_str());
    head.append(": ");
    head.append(diagnostic.label().as_str());
    out.push(head);
    assert(out@[0]@ =~= diagnostic.spec_kind().spec_as_str() + ": "@ + diagnostic.spec_label());
    if let Some(label_span) = diagnostic.label_span() {
        let (line, line_number, column) = match source_manager.get_span_line(label_span) {
            Ok(found) => found,
            Err(()) => {
                assert(out@[0]@ =~= rendered(diagnostic, source_manager)[0]);
                return out;
            },
        };
        let number = decimal_text(line_number);
        let width = number.as_str().unicode_len();
        let mut locator = String::from_str(" ");
        push_spaces(&mut locator, width as u64);
        locator.append(" --> ");
        locator.append(source_manager.file_name().as_str());
        locator.append(":");
        locator.append(number.as_str());
        locator.append(":");
        let col = decimal_text(column);
        locator.append(col.as_str());
        out.push(locator);
        let mut excerpt = String::from_str(" ");
        excerpt.append(number.as_str());
        excerpt.append(" | ");
        push_tab_expanded(&mut excerpt, line);
        out.push(excerpt);
        let mut pointer = String::new();
        push_spaces(&mut pointer, width as u64);
        push_spaces(&mut pointer, column as u64 + 4);
        push_carets(&mut pointer, label_span.len as u64);
        out.push(pointer);
        proof {
            let ghost lines = rendered(diagnostic, source_manager);
            assert(out@[1]@ =~= lines[1]);
            assert(out@[2]@ =~= lines[2]);
            assert(out@[3]@ =~= lines[3]);
        }
    }
    out
}

} // verus!
