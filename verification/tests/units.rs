use aasm::error::AssemblerError;
use aasm::instruction::{RInstrIdent, RegisterIdent, SInstrIdent};
use aasm::literal::{parse_value, trim_zeros};
use aasm::parser::{
    i_instr_name_to_ident, line_to_instr, parse_line, r_instr_name_to_ident,
    register_name_to_ident, register_scalar_to_ident, s_instr_name_to_ident, LineType,
};

fn chars(s: &str) -> Vec<char> {
    s.chars().collect()
}

#[test]
fn parse_value_numeric_forms() {
    assert_eq!(parse_value(&chars("0x2A")).unwrap(), vec![0x2A]);
    assert_eq!(parse_value(&chars("0b1100")).unwrap(), vec![12]);
    assert_eq!(parse_value(&chars("256")).unwrap(), vec![1, 0]);
    assert_eq!(parse_value(&chars("0")).unwrap(), vec![0]);
    assert_eq!(parse_value(&chars("0x0000")).unwrap(), vec![0]);
}

#[test]
fn parse_value_rejects_bad_numbers() {
    assert_eq!(
        parse_value(&chars("12ab")).unwrap_err(),
        AssemblerError::LiteralOverflowError
    );
    assert_eq!(
        parse_value(&chars("")).unwrap_err(),
        AssemblerError::LiteralOverflowError
    );
    assert_eq!(
        parse_value(&chars("0x")).unwrap_err(),
        AssemblerError::LiteralOverflowError
    );
    assert_eq!(
        parse_value(&chars("0x10000000000000000")).unwrap_err(),
        AssemblerError::LiteralOverflowError
    );
}

#[test]
fn parse_value_string_forms() {
    assert_eq!(parse_value(&chars("\"ok\"")).unwrap(), vec![b'o', b'k']);
    assert_eq!(
        parse_value(&chars("\"\\q\"")).unwrap_err(),
        AssemblerError::InvalidStringError
    );
}

#[test]
fn trim_zeros_strips_leading_only() {
    assert_eq!(trim_zeros(vec![0, 0, 3, 0]), vec![3, 0]);
    assert_eq!(trim_zeros(vec![5]), vec![5]);
    assert_eq!(trim_zeros(vec![0, 0]), Vec::<u8>::new());
    assert_eq!(trim_zeros(Vec::new()), Vec::<u8>::new());
}

#[test]
fn register_lookup_accepts_the_eight_letters() {
    assert_eq!(register_name_to_ident('a').unwrap(), RegisterIdent::A);
    assert_eq!(register_name_to_ident('z').unwrap(), RegisterIdent::Z);
    assert_eq!(
        register_name_to_ident('q').unwrap_err(),
        AssemblerError::InvalidRegisterError
    );
    assert_eq!(
        register_name_to_ident('A').unwrap_err(),
        AssemblerError::InvalidRegisterError
    );
}

#[test]
fn scalar_operand_scale_must_be_two_or_four() {
    assert_eq!(
        register_scalar_to_ident(&chars("2(%a)")).unwrap(),
        (RegisterIdent::A, 2)
    );
    assert_eq!(
        register_scalar_to_ident(&chars("4(%y)")).unwrap(),
        (RegisterIdent::Y, 4)
    );
    assert_eq!(
        register_scalar_to_ident(&chars("3(%a)")).unwrap_err(),
        AssemblerError::InvalidScalarError
    );
}

#[test]
fn mnemonic_lookups_ignore_case() {
    assert_eq!(s_instr_name_to_ident(&chars("HLT")).unwrap(), SInstrIdent::HLT);
    assert_eq!(s_instr_name_to_ident(&chars("NoP")).unwrap(), SInstrIdent::NOP);
    assert_eq!(r_instr_name_to_ident(&chars("Add")).unwrap(), RInstrIdent::ADD);
    assert_eq!(
        r_instr_name_to_ident(&chars("mov")).unwrap_err(),
        AssemblerError::InvalidInstructionError
    );
    assert!(i_instr_name_to_ident(&chars("sub")).is_ok());
}

#[test]
fn parse_line_classifies_in_priority_order() {
    let (toks, ty) = parse_line(&chars("#value 42")).unwrap();
    assert_eq!(ty, LineType::Value);
    assert_eq!(toks, vec![chars("42")]);

    let (toks, ty) = parse_line(&chars("add %a, %b")).unwrap();
    assert_eq!(ty, LineType::RInstr);
    assert_eq!(toks, vec![chars("add"), chars(""), chars("%a"), chars("%b")]);

    let (toks, ty) = parse_line(&chars("add %a, 2(%b), $5")).unwrap();
    assert_eq!(ty, LineType::IInstr);
    assert_eq!(
        toks,
        vec![chars("add"), chars(""), chars("%a"), chars("2(%b)"), chars("$5")]
    );

    let (toks, ty) = parse_line(&chars("hlt ; stop here")).unwrap();
    assert_eq!(ty, LineType::SInstr);
    assert_eq!(toks, vec![chars("hlt")]);

    let (toks, ty) = parse_line(&chars("   ")).unwrap();
    assert_eq!(ty, LineType::Empty);
    assert!(toks.is_empty());
}

#[test]
fn parse_line_requires_a_match_at_the_line_head() {
    assert_eq!(
        parse_line(&chars("?? add %a, %b")).unwrap_err(),
        AssemblerError::InvalidSyntaxError
    );
    assert_eq!(
        parse_line(&chars("!!")).unwrap_err(),
        AssemblerError::InvalidSyntaxError
    );
}

#[test]
fn builder_defaults_third_register_to_first() {
    let toks = vec![chars("add"), chars(""), chars("%c"), chars("%x")];
    let built = line_to_instr(&toks, LineType::RInstr).unwrap().unwrap();
    match built {
        aasm::instruction::Instr::RInstr(id, size, r1, r2, r3) => {
            assert_eq!(id, RInstrIdent::ADD);
            assert!(size);
            assert_eq!(r1, RegisterIdent::C);
            assert_eq!(r2, RegisterIdent::X);
            assert_eq!(r3, RegisterIdent::C);
        },
        _ => panic!("expected an R-shape instruction"),
    }
}

#[test]
fn builder_emits_nothing_for_inert_classes() {
    assert!(line_to_instr(&Vec::new(), LineType::Empty).unwrap().is_none());
    assert!(line_to_instr(&Vec::new(), LineType::Label).unwrap().is_none());
    let toks = vec![chars("add"), chars(""), chars("%a"), chars("$5")];
    assert!(line_to_instr(&toks, LineType::IInstr).unwrap().is_none());
}
