use assembler::ast::{Instruction, Item, Opcode, Operand, Register};
use assembler::errors::{
    decimal_text, generator_error_into_diagnostic, parse_error_into_diagnostic, render, Diagnostic,
    DiagnosticKind,
};
use assembler::generator::{Generator, GeneratorError};
use assembler::instructions::{rules_for, OperandType};
use assembler::labels::LabelManager;
use assembler::lexer::{Lexer, Span, Token, TokenType};
use assembler::parser::{parse_decimal_i8, ParseError, Parser};
use assembler::sources::SourceManager;
use assembler::valid_tokens;

fn tok(tt: TokenType, index: u32, len: u32) -> Token {
    Token { tt, span: Span { index, len } }
}

fn lex(source: &str) -> Vec<Token> {
    Lexer::new(source).lex()
}

#[test]
fn lexer_classifies_tokens() {
    let toks = lex("loop: add r1, r2 ; c\n12ab 7 $");
    assert_eq!(
        toks,
        vec![
            tok(TokenType::Label, 0, 5),
            tok(TokenType::Identifier, 6, 3),
            tok(TokenType::Identifier, 10, 2),
            tok(TokenType::Comma, 12, 1),
            tok(TokenType::Identifier, 14, 2),
            tok(TokenType::Comment, 17, 3),
            tok(TokenType::Newline, 20, 1),
            tok(TokenType::InvalidIntegerError, 21, 4),
            tok(TokenType::Integer, 26, 1),
            tok(TokenType::InvalidTokenError, 28, 1),
        ]
    );
}

#[test]
fn lexer_identifiers_take_digits_underscores_and_dashes() {
    assert_eq!(lex("a1_b-c"), vec![tok(TokenType::Identifier, 0, 6)]);
    assert_eq!(lex("x9:"), vec![tok(TokenType::Label, 0, 3)]);
}

#[test]
fn lexer_reads_non_ascii_letters() {
    assert_eq!(lex("é1"), vec![tok(TokenType::Identifier, 0, 2)]);
    assert_eq!(lex("3é"), vec![tok(TokenType::InvalidIntegerError, 0, 2)]);
}

#[test]
fn lexer_on_empty_and_blank_text() {
    assert_eq!(lex(""), vec![]);
    assert_eq!(lex(" \t\r"), vec![]);
    assert_eq!(lex(";x"), vec![tok(TokenType::Comment, 0, 2)]);
}

#[test]
fn valid_tokens_drop_comments_and_errors() {
    let toks = lex("nop ; c\n$ 1a 5");
    assert_eq!(
        valid_tokens(&toks),
        vec![
            tok(TokenType::Identifier, 0, 3),
            tok(TokenType::Newline, 7, 1),
            tok(TokenType::Integer, 13, 1),
        ]
    );
}

#[test]
fn token_type_names() {
    assert_eq!(TokenType::Newline.name(), "Newline");
    assert_eq!(TokenType::InvalidIntegerError.name(), "InvalidIntegerError");
}

#[test]
fn register_and_opcode_encodings() {
    assert_eq!(Register::R0.encode(), 0);
    assert_eq!(Register::R15.encode(), 15);
    assert_eq!(Opcode::Nop.encode(), 0);
    assert_eq!(Opcode::Sub.encode(), 3);
    assert_eq!(Opcode::And.encode(), 5);
    assert_eq!(Opcode::J.encode(), 15);
}

#[test]
fn register_and_opcode_names() {
    assert_eq!(Register::try_from("r7"), Some(Register::R7));
    assert_eq!(Register::try_from("r12"), Some(Register::R12));
    assert_eq!(Register::try_from("r16"), None);
    assert_eq!(Register::try_from("r01"), None);
    assert_eq!(Register::try_from("R1"), None);
    assert_eq!(Opcode::try_from("jlt"), Some(Opcode::Jlt));
    assert_eq!(Opcode::try_from("xor"), Some(Opcode::Xor));
    assert_eq!(Opcode::try_from("jump"), None);
    assert_eq!(Opcode::try_from(""), None);
}

#[test]
fn instruction_opcode() {
    let span = Span { index: 0, len: 1 };
    let ins = Instruction::DoubleOperand(
        Opcode::Add,
        Operand::Register { value: Register::R1, span },
        Operand::Register { value: Register::R2, span },
    );
    assert_eq!(ins.opcode(), Opcode::Add);
    assert_eq!(Instruction::NoOperand(Opcode::Nop).opcode(), Opcode::Nop);
}

#[test]
fn rule_table_rows() {
    assert_eq!(rules_for(Opcode::Nop), Vec::<Vec<OperandType>>::new());
    assert_eq!(rules_for(Opcode::Inv), vec![vec![OperandType::Register]]);
    assert_eq!(
        rules_for(Opcode::Jz),
        vec![vec![OperandType::Register], vec![OperandType::Integer, OperandType::Label]]
    );
    assert_eq!(rules_for(Opcode::J), vec![vec![OperandType::Integer, OperandType::Label]]);
    assert_eq!(OperandType::Label.as_str(), "label");
}

#[test]
fn decimal_parsing() {
    assert_eq!(parse_decimal_i8("0"), Some(0));
    assert_eq!(parse_decimal_i8("007"), Some(7));
    assert_eq!(parse_decimal_i8("127"), Some(127));
    assert_eq!(parse_decimal_i8("128"), None);
    assert_eq!(parse_decimal_i8("99999999999"), None);
    assert_eq!(parse_decimal_i8(""), None);
    assert_eq!(parse_decimal_i8("1a"), None);
}

#[test]
fn decimal_text_writes_numbers() {
    assert_eq!(decimal_text(0), "0");
    assert_eq!(decimal_text(31), "31");
    assert_eq!(decimal_text(4096), "4096");
}

#[test]
fn label_manager_rows() {
    let mut labels = LabelManager::new();
    let span = Span { index: 3, len: 4 };
    assert_eq!(labels.get_or_insert_reference("end"), 0);
    assert_eq!(labels.get_span_of(0), None);
    assert_eq!(labels.insert_unique("start", span), Ok(1));
    assert_eq!(labels.insert_unique("start", span), Err(()));
    assert_eq!(labels.get_id_of("start"), Some(1));
    assert_eq!(labels.get_id_of("none"), None);
    assert_eq!(labels.get_or_insert_reference("start"), 1);
    assert_eq!(labels.set_span_of(0, span), Ok(()));
    assert_eq!(labels.get_span_of(0), Some(span));
    assert_eq!(labels.set_value_of(1, 5), Ok(()));
    assert_eq!(labels.get_value_of(1), Some(5));
    assert_eq!(labels.get_value_of(0), None);
    assert_eq!(labels.set_value_of(9, 1), Err(()));
    assert_eq!(labels.get_value_of(9), None);
    assert_eq!(labels.len(), 2);
}

#[test]
fn generator_encodes_items() {
    let span = Span { index: 0, len: 1 };
    let mut labels = LabelManager::new();
    let id = labels.insert_unique("top", span).unwrap();
    let items = vec![
        Item::Instruction(Instruction::NoOperand(Opcode::Nop)),
        Item::Label(id),
        Item::Instruction(Instruction::DoubleOperand(
            Opcode::Out,
            Operand::Register { value: Register::R3, span },
            Operand::Integer { value: 9, span },
        )),
        Item::Instruction(Instruction::SingleOperand(
            Opcode::J,
            Operand::Label { value: id, span },
        )),
    ];
    let mut generator = Generator::new(items, labels);
    assert_eq!(generator.generate(), Ok(vec![0x00, 0x00, 0xC3, 0x90, 0xF0, 0x01]));
}

#[test]
fn generator_rejects_dangling_label() {
    let span = Span { index: 4, len: 2 };
    let mut labels = LabelManager::new();
    let id = labels.insert_unique("x", span).unwrap();
    let items = vec![Item::Instruction(Instruction::NoOperand(Opcode::Nop)), Item::Label(id)];
    let mut generator = Generator::new(items, labels);
    assert_eq!(generator.generate(), Err(GeneratorError::DanglingLabelError(span)));
}

#[test]
fn generator_rejects_negative_port() {
    let span = Span { index: 1, len: 1 };
    let items = vec![Item::Instruction(Instruction::DoubleOperand(
        Opcode::In,
        Operand::Register { value: Register::R0, span },
        Operand::Integer { value: -1, span },
    ))];
    let mut generator = Generator::new(items, LabelManager::new());
    assert_eq!(generator.generate(), Err(GeneratorError::SourceOrSinkRangeError(span)));
}

#[test]
fn parser_builds_items_and_labels() {
    let source = "j end\nend: inv r2";
    let sm = SourceManager::new(source, String::from("t.asm"));
    let toks = valid_tokens(&lex(source));
    let (items, labels) = match Parser::new(&toks, &sm).parse() {
        Ok(parsed) => parsed,
        Err(_) => panic!("parse failed"),
    };
    assert_eq!(
        items,
        vec![
            Item::Instruction(Instruction::SingleOperand(
                Opcode::J,
                Operand::Label { value: 0, span: Span { index: 2, len: 3 } },
            )),
            Item::Label(0),
            Item::Instruction(Instruction::SingleOperand(
                Opcode::Inv,
                Operand::Register { value: Register::R2, span: Span { index: 15, len: 2 } },
            )),
        ]
    );
    assert_eq!(labels.get_id_of("end"), Some(0));
    assert_eq!(labels.get_span_of(0), Some(Span { index: 6, len: 4 }));
}

#[test]
fn parser_reports_duplicate_label() {
    let source = "a: nop\na: nop";
    let sm = SourceManager::new(source, String::new());
    let toks = valid_tokens(&lex(source));
    match Parser::new(&toks, &sm).parse() {
        Err(ParseError::DuplicateLabel(t)) => assert_eq!(t, tok(TokenType::Label, 7, 2)),
        _ => panic!("expected a duplicate label"),
    }
}

#[test]
fn source_lines_and_spans() {
    let source = "ab\r\n\tc d\n\nlast";
    let sm = SourceManager::new(source, String::from("f.asm"));
    assert_eq!(sm.get_span(Span { index: 5, len: 1 }), Ok("c"));
    assert_eq!(sm.get_span(Span { index: 10, len: 4 }), Ok("last"));
    assert_eq!(sm.get_span(Span { index: 11, len: 4 }), Err(()));
    assert_eq!(sm.get_span_line(Span { index: 1, len: 1 }), Ok(("ab", 1, 1)));
    assert_eq!(sm.get_span_line(Span { index: 7, len: 1 }), Ok(("\tc d", 2, 6)));
    assert_eq!(sm.get_span_line(Span { index: 13, len: 1 }), Ok(("last", 4, 3)));
    assert_eq!(sm.get_span_line(Span { index: 3, len: 1 }), Err(()));
    assert_eq!(sm.file_name().as_str(), "f.asm");
}

#[test]
fn diagnostics_constructors() {
    let d = Diagnostic::error(String::from("boom"));
    assert_eq!(d.kind(), DiagnosticKind::Error);
    assert_eq!(d.label().as_str(), "boom");
    assert_eq!(d.label_span(), None);
    let span = Span { index: 1, len: 2 };
    let d = Diagnostic::new_with_span(DiagnosticKind::Error, String::from("x"), span);
    assert_eq!(d.label_span(), Some(span));
    assert_eq!(Diagnostic::error_with_span(String::from("y"), span).label_span(), Some(span));
    assert_eq!(Diagnostic::new(DiagnosticKind::Error, String::from("z")).label().as_str(), "z");
    assert_eq!(DiagnosticKind::Error.as_str(), "error");
}

#[test]
fn parse_error_messages() {
    let sm = SourceManager::new("foo bar", String::new());
    let t = tok(TokenType::Identifier, 4, 3);
    let d = parse_error_into_diagnostic(ParseError::UnexpectedToken(TokenType::Comma, t), &sm);
    assert_eq!(d.label().as_str(), "Expected `Comma`, found `bar`");
    assert_eq!(d.label_span(), Some(t.span));
    let d = parse_error_into_diagnostic(
        ParseError::ExpectedOperand(t, String::from("register")),
        &sm,
    );
    assert_eq!(d.label().as_str(), "Expected instruction operand (one of register), found `bar`");
    let d = parse_error_into_diagnostic(ParseError::MissingToken(TokenType::Newline), &sm);
    assert_eq!(d.label().as_str(), "Expected `Newline`, found the end of file");
    assert_eq!(d.label_span(), None);
}

#[test]
fn generator_error_messages() {
    let sm = SourceManager::new("jz r0, 40", String::new());
    let span = Span { index: 7, len: 2 };
    let d = generator_error_into_diagnostic(GeneratorError::JumpDestinationRangeError(span), &sm);
    assert_eq!(d.label().as_str(), "Jump destination must be in the range of 0-31, found `40`");
    let d = generator_error_into_diagnostic(GeneratorError::MaximumInstructionsError, &sm);
    assert_eq!(d.label().as_str(), "Maximum number of instructions reached (32)");
}

#[test]
fn render_shows_line_and_carets() {
    let sm = SourceManager::new("nop\nj missing", String::from("prog.asm"));
    let d = generator_error_into_diagnostic(
        GeneratorError::UndefinedLabelError(Span { index: 6, len: 7 }),
        &sm,
    );
    assert_eq!(
        render(&d, &sm),
        vec![
            String::from("error: Label `missing` is undefined"),
            String::from("   --> prog.asm:2:2"),
            String::from(" 2 | j missing"),
            String::from("       ^^^^^^^"),
        ]
    );
}

#[test]
fn render_expands_tabs() {
    let sm = SourceManager::new("\tfoo", String::from("t.asm"));
    let d = Diagnostic::error_with_span(String::from("bad"), Span { index: 1, len: 3 });
    assert_eq!(
        render(&d, &sm),
        vec![
            String::from("error: bad"),
            String::from("   --> t.asm:1:4"),
            String::from(" 1 |     foo"),
            String::from("         ^^^"),
        ]
    );
}

#[test]
fn render_without_span_is_one_line() {
    let sm = SourceManager::new("", String::from("t.asm"));
    let d = Diagnostic::error(String::from("Maximum number of instructions reached (32)"));
    assert_eq!(render(&d, &sm), vec![String::from("error: Maximum number of instructions reached (32)")]);
}
