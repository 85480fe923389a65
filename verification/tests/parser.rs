use rustfck::token::lex;
use rustfck::Instruction;
use rustfck::ParseError;

#[test]
fn parsing_twice_yields_structurally_equal_trees() {
    let source = "+[>+[-.]<],";
    let first = Instruction::from_tokens(lex(source)).unwrap();
    let second = Instruction::from_tokens(lex(source)).unwrap();
    assert_eq!(first, second);
}

#[test]
fn parse_builds_the_expected_tree() {
    let prog = Instruction::from_tokens(lex("+[->]<")).unwrap();
    let expected = vec![
        Instruction::CellInc,
        Instruction::TapeLoop(vec![Instruction::CellDec, Instruction::TapeRight]),
        Instruction::TapeLeft,
    ];
    assert_eq!(prog, expected);
}

#[test]
fn well_bracketed_sources_parse() {
    assert!(Instruction::from_tokens(lex("")).is_ok());
    assert!(Instruction::from_tokens(lex("+-><.,")).is_ok());
    assert!(Instruction::from_tokens(lex("[]")).is_ok());
    assert!(Instruction::from_tokens(lex("[[.][+[-]]]")).is_ok());
    assert!(Instruction::from_tokens(lex("[][][[]]")).is_ok());
}

#[test]
fn one_extra_close_is_unmatched_close() {
    assert_eq!(
        Instruction::from_tokens(lex("[]]")).unwrap_err(),
        ParseError::UnmatchedClose
    );
    assert_eq!(
        Instruction::from_tokens(lex("]")).unwrap_err(),
        ParseError::UnmatchedClose
    );
    assert_eq!(
        Instruction::from_tokens(lex("][")).unwrap_err(),
        ParseError::UnmatchedClose
    );
}

#[test]
fn one_extra_open_is_unmatched_open() {
    assert_eq!(
        Instruction::from_tokens(lex("[[]")).unwrap_err(),
        ParseError::UnmatchedOpen
    );
    assert_eq!(
        Instruction::from_tokens(lex("[")).unwrap_err(),
        ParseError::UnmatchedOpen
    );
    assert_eq!(
        Instruction::from_tokens(lex("+[+")).unwrap_err(),
        ParseError::UnmatchedOpen
    );
}

#[test]
fn different_trees_compare_unequal() {
    let a = Instruction::from_tokens(lex("[+]")).unwrap();
    let b = Instruction::from_tokens(lex("[-]")).unwrap();
    assert!(a != b);
    let c = Instruction::from_tokens(lex("[]")).unwrap();
    assert!(a != c);
}
