use aasm::error::AssemblerError;
use aasm::instruction::{convert_instr, convert_i_instr, convert_r_instr, convert_s_instr, Instr};
use aasm::parser::parse;

fn assemble(text: &str) -> Result<Vec<u8>, AssemblerError> {
    parse(text.to_string()).map(convert_instr)
}

#[test]
fn hlt_nop_bytes() {
    assert_eq!(assemble("hlt\nnop\n").unwrap(), vec![0x00, 0xFC]);
}

#[test]
fn add_two_operand_defaults() {
    // opcode 1, size set (no suffix), reg1 = A(0), reg2 = B(1), reg3 = A(0).
    assert_eq!(assemble("add %a, %b\n").unwrap(), vec![0x06, 0x08]);
}

#[test]
fn size_suffix_clears_flag() {
    assert_eq!(assemble("addb %a, %b\n").unwrap(), vec![0x04, 0x08]);
    assert_eq!(assemble("add %a, %b\n").unwrap(), vec![0x06, 0x08]);
}

#[test]
fn three_register_line() {
    // opcode 3, size set, Z(5), Y(4), X(3).
    assert_eq!(assemble("sub %z, %y, %x\n").unwrap(), vec![0x0F, 0x63]);
}

#[test]
fn uppercase_mnemonic_accepted() {
    assert_eq!(assemble("ADD %a, %b\n").unwrap(), vec![0x06, 0x08]);
}

#[test]
fn flexible_spacing_accepted() {
    assert_eq!(assemble("add   %a ,   %b\n").unwrap(), vec![0x06, 0x08]);
}

#[test]
fn value_hex_single_byte() {
    assert_eq!(assemble("#value 0x2A\n").unwrap(), vec![0x2A]);
}

#[test]
fn value_zero_is_one_byte() {
    assert_eq!(assemble("#value 0\n").unwrap(), vec![0x00]);
}

#[test]
fn value_binary() {
    assert_eq!(assemble("#value 0b101010\n").unwrap(), vec![42]);
}

#[test]
fn value_decimal_multi_byte() {
    assert_eq!(assemble("#value 300\n").unwrap(), vec![1, 44]);
}

#[test]
fn comment_and_blank_lines_emit_nothing() {
    assert_eq!(assemble("; just a comment\n\n").unwrap(), Vec::<u8>::new());
    assert_eq!(assemble("").unwrap(), Vec::<u8>::new());
    assert_eq!(assemble("hlt\n; note\n\nnop\n").unwrap(), vec![0x00, 0xFC]);
}

#[test]
fn unknown_mnemonic_is_instruction_error() {
    assert_eq!(
        parse("xyz %a, %b\n".to_string()).unwrap_err(),
        AssemblerError::InvalidInstructionError
    );
}

#[test]
fn trailing_garbage_is_syntax_error() {
    assert_eq!(
        parse("hlt garbage".to_string()).unwrap_err(),
        AssemblerError::InvalidSyntaxError
    );
    assert_eq!(
        parse("add %a, %b garbage".to_string()).unwrap_err(),
        AssemblerError::InvalidSyntaxError
    );
}

#[test]
fn first_error_aborts_assembly() {
    assert_eq!(
        parse("hlt\n???\nnop\n".to_string()).unwrap_err(),
        AssemblerError::InvalidSyntaxError
    );
}

#[test]
fn i_shape_lines_build_nothing() {
    assert_eq!(assemble("add %a, 5\n").unwrap(), Vec::<u8>::new());
    assert_eq!(assemble("add %a, 2(%b), $0x10\n").unwrap(), Vec::<u8>::new());
    assert_eq!(assemble("sub %c, $0b11\n").unwrap(), Vec::<u8>::new());
}

#[test]
fn r_shape_priority_shadows_register_middle_operand() {
    // The R grammar matches `sub %x, %y` first, so the immediate behind it
    // counts as trailing garbage rather than an I-shape operand.
    assert_eq!(
        parse("sub %x, %y, $0b11\n".to_string()).unwrap_err(),
        AssemblerError::InvalidSyntaxError
    );
}

#[test]
fn value_string_unescaped() {
    assert_eq!(assemble("#value \"hi\"\n").unwrap(), vec![b'h', b'i']);
    assert_eq!(assemble("#value \"a\\nb\"\n").unwrap(), vec![97, 10, 98]);
}

#[test]
fn bad_escape_is_string_error() {
    assert_eq!(
        parse("#value \"a\\qb\"".to_string()).unwrap_err(),
        AssemblerError::InvalidStringError
    );
}

#[test]
fn oversized_literal_is_overflow_error() {
    assert_eq!(
        parse("#value 0x1FFFFFFFFFFFFFFFF".to_string()).unwrap_err(),
        AssemblerError::LiteralOverflowError
    );
}

#[test]
fn hex_marker_without_digits_is_syntax_error() {
    // `0x` alone matches only the decimal literal `0`, leaving `x` behind.
    assert_eq!(
        parse("#value 0x".to_string()).unwrap_err(),
        AssemblerError::InvalidSyntaxError
    );
}

#[test]
fn comment_after_instruction_accepted() {
    assert_eq!(assemble("hlt ; stop\n").unwrap(), vec![0x00]);
    assert_eq!(assemble("add %a, %b ; sum\n").unwrap(), vec![0x06, 0x08]);
}

#[test]
fn comment_may_mention_other_grammars() {
    // Classification commits to the first grammar matching at the line
    // head, so text inside a trailing comment never decides the class.
    assert_eq!(assemble("hlt ; #value 1\n").unwrap(), vec![0x00]);
    assert_eq!(assemble("nop ; add %a, %b\n").unwrap(), vec![0xFC]);
}

#[test]
fn directive_behind_an_instruction_is_trailing_garbage() {
    assert_eq!(
        parse("nop #value 5\n".to_string()).unwrap_err(),
        AssemblerError::InvalidSyntaxError
    );
}

#[test]
fn unicode_whitespace_is_trimmed() {
    assert_eq!(assemble("\u{a0}hlt\u{a0}\n").unwrap(), vec![0x00]);
    assert_eq!(assemble("\u{2003}nop\n").unwrap(), vec![0xFC]);
}

#[test]
fn assembly_is_deterministic() {
    let text = "hlt\naddb %c, %x, %z\n#value 0xBEEF\nnop\n";
    let first = assemble(text).unwrap();
    let second = assemble(text).unwrap();
    assert_eq!(first, second);
}

#[test]
fn converters_pack_fields() {
    assert_eq!(convert_s_instr(63), vec![0xFC]);
    assert_eq!(convert_r_instr(1, 1, 0, 1, 0), vec![0x06, 0x08]);
    assert_eq!(
        convert_i_instr(2, 1, 0, 1, 0x1234, 5),
        vec![0x0A, 0x08, 0x91, 0xA5]
    );
}

#[test]
fn convert_value_instruction_passes_bytes_through() {
    let program = vec![Instr::Value(vec![9, 8, 7])];
    assert_eq!(convert_instr(program), vec![9, 8, 7]);
}
