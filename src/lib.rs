//! An assembler for a small fixed instruction set: sixteen registers,
//! fifteen opcodes, two-byte instructions and a 64-byte instruction memory.
//!
//! Source text goes through the lexer, the parser and the code generator;
//! `assemble` runs the whole pipeline and returns the padded image or a
//! diagnostic.

use crate::ast::{Instruction, Item, Opcode};
use crate::errors::{
    error_token, generator_error_into_diagnostic, generator_error_message, generator_error_span,
    parse_error_into_diagnostic, parse_error_message, Diagnostic, DiagnosticKind,
};
use crate::generator::{
    encode_instruction, encode_items, generation, instruction_count, laid_out, lemma_encoded_len,
    Generator, GeneratorError, INSTRUCTION_MEMORY_SIZE_BYTES, MAX_NUM_INSTRUCTIONS,
};
use crate::labels::LabelEntry;
use crate::lexer::{lemma_lex_fits, lex_from, tokens_fit, Lexer, Span, Token, TokenType};
use crate::parser::{parse_model, ParseErrorView, ParseState, Parser};
use crate::sources::{SourceManager, MAX_SOURCE_LEN};
use vstd::prelude::*;

pub mod ast;
pub mod errors;
pub mod generator;
pub mod instructions;
pub mod labels;
pub mod lexer;
pub mod parser;
pub mod sources;

verus! {

/// Whether the parser receives tokens of kind `tt`: comments and invalid
/// tokens are left out.
pub open spec fn is_parsed_kind(tt: TokenType) -> bool {
    tt != TokenType::Comment && tt != TokenType::InvalidTokenError && tt
        != TokenType::InvalidIntegerError
}

/// The tokens of `toks` that the parser receives, in order.
pub open spec fn parsed_tokens(toks: Seq<Token>) -> Seq<Token>
    decreases toks.len(),
{
    if toks.len() == 0 {
        seq![]
    } else if is_parsed_kind(toks.last().tt) {
        parsed_tokens(toks.drop_last()).push(toks.last())
    } else {
        parsed_tokens(toks.drop_last())
    }
}

proof fn lemma_parsed_tokens_fit(toks: Seq<Token>, text: Seq<char>)
    requires
        tokens_fit(toks, text),
    ensures
        tokens_fit(parsed_tokens(toks), text),
    decreases toks.len(),
{
    if toks.len() > 0 {
        let init = toks.drop_last();
        assert forall|k: int| 0 <= k < init.len() implies #[trigger] init[k].span.end() <= text.len()
            && (init[k].tt == TokenType::Label ==> init[k].span.len >= 1) by {
            assert(init[k] == toks[k]);
        }
        lemma_parsed_tokens_fit(init, text);
        let rest = parsed_tokens(init);
        let last = toks[toks.len() - 1];
        if is_parsed_kind(last.tt) {
            let all = rest.push(last);
            assert forall|k: int| 0 <= k < all.len() implies #[trigger] all[k].span.end() <= text.len()
                && (all[k].tt == TokenType::Label ==> all[k].span.len >= 1) by {
                if k < rest.len() {
                    assert(all[k] == rest[k]);
                    assert(rest[k].span.end() <= text.len());
                } else {
                    assert(all[k] == last);
                    assert(toks[toks.len() - 1].span.end() <= text.len());
                }
            }
        }
    }
}

/// Drops comments and invalid tokens, keeping the order of the rest.
pub fn valid_tokens(tokens: &Vec<Token>) -> (r: Vec<Token>)
    ensures
        r@ == parsed_tokens(tokens@),
{
    let mut r: Vec<Token> = Vec::new();
    let mut i: usize = 0;
    while i < tokens.len()
        invariant
            i <= tokens@.len(),
            r@ == parsed_tokens(tokens@.take(i as int)),
        decreases tokens@.len() - i,
    {
        let token = tokens[i];
        assert(tokens@.take(i + 1).drop_last() =~= tokens@.take(i as int));
        if token.tt != TokenType::Comment && token.tt != TokenType::InvalidTokenError && token.tt
            != TokenType::InvalidIntegerError {
            r.push(token);
        }
        i += 1;
    }
    assert(tokens@.take(i as int) =~= tokens@);
    r
}

/// The state the parser starts from.
pub open spec fn initial_state() -> ParseState {
    ParseState { pos: 0, rows: Seq::<LabelEntry>::empty(), pending: false }
}

/// `bytes` followed by zeros up to the size of the instruction memory.
pub open spec fn padded(bytes: Seq<u8>) -> Seq<u8> {
    bytes + Seq::new((INSTRUCTION_MEMORY_SIZE_BYTES - bytes.len()) as nat, |i: int| 0u8)
}

/// Why assembling failed, as a mathematical value.
pub enum AssemblyError {
    Parse(ParseErrorView),
    Generate(GeneratorError),
}

/// The item sequence and label table that the parser builds from source `s`.
pub open spec fn parsed(s: Seq<char>) -> Result<(Seq<Item>, Seq<LabelEntry>), ParseErrorView> {
    parse_model(parsed_tokens(lex_from(s, 0)), s, initial_state())
}

/// What assembling source text `s` gives: the padded image, or the first error.
pub open spec fn assembly(s: Seq<char>) -> Result<Seq<u8>, AssemblyError> {
    match parsed(s) {
        Err(e) => Err(AssemblyError::Parse(e)),
        Ok((items, rows)) => match generation(items, rows) {
            Err(e) => Err(AssemblyError::Generate(e)),
            Ok(bytes) => Ok(padded(bytes)),
        },
    }
}

/// `d` is the diagnostic for the assembly error `e` in source `s`.
pub open spec fn diagnoses(d: Diagnostic, e: AssemblyError, s: Seq<char>) -> bool {
    &&& d.spec_kind() == DiagnosticKind::Error
    &&& match e {
        AssemblyError::Parse(p) => {
            &&& d.spec_label() == parse_error_message(p, s)
            &&& d.spec_label_span() == match error_token(p) {
                Some(t) => Some(t.span),
                None => None::<Span>,
            }
        },
        AssemblyError::Generate(g) => {
            &&& d.spec_label() == generator_error_message(g, s)
            &&& d.spec_label_span() == generator_error_span(g)
        },
    }
}

/// Assembles source text into the 64-byte instruction image, or the
/// diagnostic for the first error.
pub fn assemble(source: &str) -> (r: Result<Vec<u8>, Diagnostic>)
    requires
        source@.len() <= MAX_SOURCE_LEN,
    ensures
        match assembly(source@) {
            Ok(image) => r matches Ok(v) && v@ == image,
            Err(e) => r matches Err(d) && diagnoses(d, e, source@),
        },
        r matches Ok(v) ==> v@.len() == INSTRUCTION_MEMORY_SIZE_BYTES,
{
    let source_manager = SourceManager::new(source, String::new());
    let mut lexer = Lexer::new(source);
    let tokens = lexer.lex();
    let valid = valid_tokens(&tokens);
    proof {
        lemma_lex_fits(source@, 0);
        lemma_parsed_tokens_fit(tokens@, source@);
    }
    let parser = Parser::new(&valid, &source_manager);
    let (items, label_manager) = match parser.parse() {
        Ok(parsed) => parsed,
        Err(e) => {
            return Err(parse_error_into_diagnostic(e, &source_manager));
        },
    };
    let mut generator = Generator::new(items, label_manager);
    let ghost item_seq = generator.item_seq();
    let ghost rows = generator.label_table();
    let mut output = match generator.generate() {
        Ok(output) => output,
        Err(e) => {
            return Err(generator_error_into_diagnostic(e, &source_manager));
        },
    };
    proof {
        lemma_encoded_len(item_seq, laid_out(item_seq, rows));
    }
    let ghost bytes = output@;
    while output.len() < INSTRUCTION_MEMORY_SIZE_BYTES
        invariant
            bytes.len() <= output@.len() <= INSTRUCTION_MEMORY_SIZE_BYTES,
            output@ == bytes + Seq::new((output@.len() - bytes.len()) as nat, |i: int| 0u8),
        decreases INSTRUCTION_MEMORY_SIZE_BYTES - output@.len(),
    {
        output.push(0);
        assert(output@ =~= bytes + Seq::new((output@.len() - bytes.len()) as nat, |i: int| 0u8));
    }
    Ok(output)
}

/// Every image that assembling produces is exactly 64 bytes: the program's
/// instructions encoded in order, two bytes each, then zeros to the end.
pub proof fn law_image_layout(s: Seq<char>)
    requires
        assembly(s) is Ok,
    ensures
        ({
            let items = parsed(s)->Ok_0.0;
            let rows = parsed(s)->Ok_0.1;
            let image = assembly(s)->Ok_0;
            let n = instruction_count(items);
            &&& n <= MAX_NUM_INSTRUCTIONS
            &&& image.len() == INSTRUCTION_MEMORY_SIZE_BYTES
            &&& image.take(2 * n as int) == encode_items(items, laid_out(items, rows))->Ok_0
            &&& forall|i: int| 2 * n <= i < image.len() ==> image[i] == 0
        }),
{
    let items = parsed(s)->Ok_0.0;
    let rows = parsed(s)->Ok_0.1;
    let bytes = encode_items(items, laid_out(items, rows))->Ok_0;
    lemma_encoded_len(items, laid_out(items, rows));
    assert(padded(bytes).take(bytes.len() as int) =~= bytes);
}

/// Assembling is a function of the source text: the same text always gives
/// the same image or the same error.
pub proof fn law_assembly_deterministic(a: Seq<char>, b: Seq<char>)
    requires
        a == b,
    ensures
        assembly(a) == assembly(b),
{
}

/// The item for a `nop` instruction.
pub open spec fn nop_item() -> Item {
    Item::Instruction(Instruction::NoOperand(Opcode::Nop))
}

proof fn lemma_nops(items: Seq<Item>, rows: Seq<LabelEntry>)
    requires
        forall|k: int| 0 <= k < items.len() ==> items[k] == nop_item(),
    ensures
        instruction_count(items) == items.len(),
        encode_items(items, rows) == Ok::<Seq<u8>, GeneratorError>(
            Seq::new(2 * items.len(), |i: int| 0u8),
        ),
    decreases items.len(),
{
    if items.len() == 0 {
        assert(Seq::new(0, |i: int| 0u8) =~= seq![]);
    } else {
        lemma_nops(items.drop_last(), rows);
        lemma_nops(items.skip(1), rows);
        assert(items[0] == nop_item());
        assert(items.last() == items[items.len() - 1]);
        assert(encode_instruction(Instruction::NoOperand(Opcode::Nop), rows) == Ok::<
            Seq<u8>,
            GeneratorError,
        >(seq![0u8, 0u8]));
        assert(seq![0u8, 0u8] + Seq::new(2 * (items.len() - 1) as nat, |i: int| 0u8) =~= Seq::new(
            2 * items.len(),
            |i: int| 0u8,
        ));
    }
}

/// A `nop` encodes as two zero bytes, so a program of `nop`s alone (at most
/// the capacity) gives an image of zeros only.
pub proof fn law_nop_image(items: Seq<Item>, rows: Seq<LabelEntry>)
    requires
        items.len() <= MAX_NUM_INSTRUCTIONS,
        forall|k: int| 0 <= k < items.len() ==> items[k] == nop_item(),
    ensures
        encode_instruction(Instruction::NoOperand(Opcode::Nop), rows) == Ok::<
            Seq<u8>,
            GeneratorError,
        >(seq![0u8, 0u8]),
        generation(items, rows) matches Ok(bytes) && padded(bytes) == Seq::new(
            INSTRUCTION_MEMORY_SIZE_BYTES as nat,
            |i: int| 0u8,
        ),
{
    lemma_nops(items, rows);
    lemma_nops(items, laid_out(items, rows));
    if items.len() > 0 {
        assert(items.last() == items[items.len() - 1]);
    }
    let bytes = Seq::new(2 * items.len(), |i: int| 0u8);
    assert(padded(bytes) =~= Seq::new(INSTRUCTION_MEMORY_SIZE_BYTES as nat, |i: int| 0u8));
}

} // verus!
