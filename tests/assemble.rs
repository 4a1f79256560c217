use assembler::assemble;
use assembler::errors::Diagnostic;
use assembler::lexer::Span;

fn image(prefix: &[u8]) -> Vec<u8> {
    let mut v = prefix.to_vec();
    v.resize(64, 0);
    v
}

fn fail(source: &str) -> Diagnostic {
    match assemble(source) {
        Ok(bytes) => panic!("expected an error, got {:?}", bytes),
        Err(d) => d,
    }
}

#[test]
fn add_example_end_to_end() {
    assert_eq!(assemble("add r1, r2").unwrap(), image(&[0x11, 0x20]));
}

#[test]
fn single_nop_is_two_zero_bytes() {
    let out = assemble("nop").unwrap();
    assert_eq!(out.len(), 64);
    assert_eq!(&out[..2], &[0x00, 0x00]);
    assert!(out.iter().all(|b| *b == 0));
}

#[test]
fn thirty_two_nops_fill_memory_with_zeros() {
    let source = vec!["nop"; 32].join("\n");
    assert_eq!(assemble(&source).unwrap(), vec![0u8; 64]);
}

#[test]
fn empty_program_is_all_zeros() {
    assert_eq!(assemble("").unwrap(), vec![0u8; 64]);
    assert_eq!(assemble("\n\n; only a comment\n").unwrap(), vec![0u8; 64]);
}

#[test]
fn assembling_twice_gives_same_bytes() {
    let source = "start: ldi r1, 5\nloop: sub r1, r2\njz r1, end\nj loop\nend: out r1, 3\n";
    let a = assemble(source).unwrap();
    let b = assemble(source).unwrap();
    assert_eq!(a, b);
}

#[test]
fn forward_reference_resolves_to_following_instruction() {
    // `target` is defined before the second instruction: offset 1.
    assert_eq!(assemble("j target\ntarget: nop").unwrap(), image(&[0xF0, 0x01, 0x00, 0x00]));
}

#[test]
fn label_before_first_instruction_resolves_to_zero() {
    assert_eq!(assemble("target: nop").unwrap(), image(&[0x00, 0x00]));
    assert_eq!(assemble("target: nop\nj target").unwrap(), image(&[0x00, 0x00, 0xF0, 0x00]));
}

#[test]
fn label_offset_counts_instructions_not_lines() {
    let source = "; header\n\nnop\n\n; gap\nhere:\nnop\nj here";
    assert_eq!(
        assemble(source).unwrap(),
        image(&[0x00, 0x00, 0x00, 0x00, 0xF0, 0x01])
    );
}

#[test]
fn thirty_three_nops_exceed_capacity() {
    let source = vec!["nop"; 33].join("\n");
    let d = fail(&source);
    assert_eq!(d.label().as_str(), "Maximum number of instructions reached (32)");
    assert_eq!(d.label_span(), None);
}

#[test]
fn duplicate_label_points_at_second_definition() {
    let d = fail("a: nop\na: nop");
    assert_eq!(d.label().as_str(), "Duplicate label `a:`");
    assert_eq!(d.label_span(), Some(Span { index: 7, len: 2 }));
}

#[test]
fn undefined_label_points_at_reference() {
    let d = fail("j missing");
    assert_eq!(d.label().as_str(), "Label `missing` is undefined");
    assert_eq!(d.label_span(), Some(Span { index: 2, len: 7 }));
}

#[test]
fn port_above_fifteen_is_rejected() {
    let d = fail("in r0, 16");
    assert_eq!(d.label().as_str(), "Source or sink must be in the range of 0-15, found `16`");
    assert_eq!(d.label_span(), Some(Span { index: 7, len: 2 }));
}

#[test]
fn jump_target_of_thirty_two_is_rejected() {
    let d = fail("jz r0, 32");
    assert_eq!(d.label().as_str(), "Jump destination must be in the range of 0-31, found `32`");
}

#[test]
fn immediate_out_of_signed_byte_range_is_rejected() {
    let d = fail("ldi r0, 200");
    assert_eq!(d.label().as_str(), "Value is out of range for an 8-bit signed integer value");
    assert_eq!(d.label_span(), Some(Span { index: 8, len: 3 }));
}

#[test]
fn every_opcode_encodes() {
    let source = "nop\nadd r1, r2\nldi r3, 127\nsub r4, r5\nand r6, r7\nor r8, r9\ninv r10\n\
                  xor r11, r12\nsr r13, r14\nsl r15, r0\nin r1, 15\nout r2, 0\njz r3, 31\njlt r4, 7\nj 2";
    assert_eq!(
        assemble(source).unwrap(),
        image(&[
            0x00, 0x00, 0x11, 0x20, 0x23, 0x7F, 0x34, 0x50, 0x56, 0x70, 0x68, 0x90, 0x7A, 0x00,
            0x8B, 0xC0, 0x9D, 0xE0, 0xAF, 0x00, 0xB1, 0xF0, 0xC2, 0x00, 0xD3, 0x1F, 0xE4, 0x07,
            0xF0, 0x02,
        ])
    );
}

#[test]
fn mnemonics_and_registers_ignore_case() {
    assert_eq!(assemble("ADD R1, r2").unwrap(), assemble("add r1, r2").unwrap());
    assert_eq!(assemble("Inv R15").unwrap(), image(&[0x7F, 0x00]));
}

#[test]
fn comments_and_carriage_returns_are_ignored() {
    assert_eq!(
        assemble("add r1, r2 ; sum\r\ninv r3\r\n").unwrap(),
        image(&[0x11, 0x20, 0x73, 0x00])
    );
}

#[test]
fn dangling_label_is_rejected() {
    let d = fail("nop\nend:");
    assert_eq!(d.label().as_str(), "Dangling label `end:`");
    assert_eq!(d.label_span(), Some(Span { index: 4, len: 4 }));
}

#[test]
fn label_on_its_own_line_binds_to_next_instruction() {
    assert_eq!(assemble("nop\nhere:\n\nj here").unwrap(), image(&[0x00, 0x00, 0xF0, 0x01]));
}

#[test]
fn missing_comma_at_end_of_file() {
    let d = fail("add r1");
    assert_eq!(d.label().as_str(), "Expected `Comma`, found the end of file");
    assert_eq!(d.label_span(), None);
}

#[test]
fn unexpected_token_instead_of_comma() {
    let d = fail("add r1 r2");
    assert_eq!(d.label().as_str(), "Expected `Comma`, found `r2`");
}

#[test]
fn trailing_token_after_instruction() {
    let d = fail("add r1, r2 r3");
    assert_eq!(d.label().as_str(), "Expected `Newline`, found `r3`");
    assert_eq!(d.label_span(), Some(Span { index: 11, len: 2 }));
}

#[test]
fn unknown_mnemonic() {
    let d = fail("foo r1");
    assert_eq!(d.label().as_str(), "`foo` is not a valid instruction");
}

#[test]
fn two_labels_without_instruction() {
    let d = fail("a:\nb: nop");
    assert_eq!(
        d.label().as_str(),
        "Expected instruction after label, found second label `b:`"
    );
}

#[test]
fn labels_on_successive_instructions_are_accepted() {
    assert_eq!(
        assemble("a: nop\nb: j a\nc: j b").unwrap(),
        image(&[0x00, 0x00, 0xF0, 0x00, 0xF0, 0x01])
    );
}

#[test]
fn line_must_start_with_instruction() {
    let d = fail("5");
    assert_eq!(d.label().as_str(), "Expected an instruction, found `5`");
}

#[test]
fn nop_takes_no_operands() {
    let d = fail("nop r1");
    assert_eq!(d.label().as_str(), "Instruction takes no operands, found `r1`");
}

#[test]
fn operand_missing_at_end_of_file() {
    let d = fail("inv");
    assert_eq!(d.label().as_str(), "Expected instruction operand for `inv`, found end of file");
    assert_eq!(d.label_span(), Some(Span { index: 0, len: 3 }));
}

#[test]
fn operand_of_wrong_kind() {
    let d = fail("ldi r1, r2");
    assert_eq!(d.label().as_str(), "Expected instruction operand (one of integer), found `r2`");
    let d = fail("j ,");
    assert_eq!(
        d.label().as_str(),
        "Expected instruction operand (one of integer or label), found `,`"
    );
}

#[test]
fn register_expected() {
    let d = fail("inv foo");
    assert_eq!(d.label().as_str(), "Expected register for instruction operand, found `foo`");
    let d = fail("add r16, r1");
    assert_eq!(d.label().as_str(), "Expected register for instruction operand, found `r16`");
}

#[test]
fn invalid_tokens_are_left_out() {
    // `$` and `12ab` are reported by the caller and do not reach the parser.
    assert_eq!(assemble("$ nop").unwrap(), image(&[0x00, 0x00]));
    let d = fail("ldi r1, 12ab");
    assert_eq!(d.label().as_str(), "Expected instruction operand for `ldi`, found end of file");
}

#[test]
fn largest_immediate_and_jump_target() {
    assert_eq!(assemble("ldi r0, 127").unwrap(), image(&[0x20, 0x7F]));
    assert_eq!(assemble("jlt r2, 31").unwrap(), image(&[0xE2, 0x1F]));
    assert_eq!(assemble("ldi r0, 128").is_err(), true);
}
