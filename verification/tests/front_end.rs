use stackc::lexer::{lex, Token};
use stackc::load_program;
use stackc::parser::{parse_tokens_as_op, Op};

fn texts(tokens: &Vec<Token>) -> Vec<String> {
    tokens.iter().map(|t| String::from_utf8(t.text.clone()).unwrap()).collect()
}

fn lines(tokens: &Vec<Token>) -> Vec<usize> {
    tokens.iter().map(|t| t.line).collect()
}

#[test]
fn lex_splits_on_whitespace_and_counts_lines() {
    let tokens = lex(b"1 2\n  3\t4\n\n 5");
    assert_eq!(texts(&tokens), vec!["1", "2", "3", "4", "5"]);
    assert_eq!(lines(&tokens), vec![1, 1, 2, 2, 4]);
}

#[test]
fn lex_empty_and_blank_sources() {
    assert_eq!(lex(b"").len(), 0);
    assert_eq!(lex(b"   \t \n  \n").len(), 0);
}

#[test]
fn lex_strips_carriage_returns() {
    let tokens = lex(b"1\r\n2\r\n");
    assert_eq!(texts(&tokens), vec!["1", "2"]);
    assert_eq!(lines(&tokens), vec![1, 2]);
}

#[test]
fn lex_twice_yields_identical_tokens() {
    let src = b"10 3 - dump\n5 5 ?= dump\n";
    let first = lex(src);
    let second = lex(src);
    assert_eq!(first, second);
}

#[test]
fn parse_emits_one_instruction_per_token() {
    let tokens = lex(b"1 2 + dump");
    let program = parse_tokens_as_op(&tokens).unwrap();
    assert_eq!(program.len(), tokens.len());
    assert_eq!(program.len(), 4);
}

#[test]
fn parse_maps_every_operator_and_literal() {
    let tokens = lex(b"+ - ?= dump 42 -7");
    let program = parse_tokens_as_op(&tokens).unwrap();
    assert_eq!(
        program,
        vec![Op::Add, Op::Sub, Op::Equal, Op::Dump, Op::Push(42), Op::Push(-7)]
    );
}

#[test]
fn parse_bare_minus_is_sub_not_number() {
    let tokens = lex(b"-");
    let program = parse_tokens_as_op(&tokens).unwrap();
    assert_eq!(program, vec![Op::Sub]);
}

#[test]
fn parse_accepts_leading_zeros() {
    let program = load_program(b"007 -007").unwrap();
    assert_eq!(program, vec![Op::Push(7), Op::Push(-7)]);
}

#[test]
fn parse_accepts_the_full_i64_range() {
    let program = load_program(b"9223372036854775807 -9223372036854775808").unwrap();
    assert_eq!(program, vec![Op::Push(i64::MAX), Op::Push(i64::MIN)]);
}

#[test]
fn parse_rejects_out_of_range_literals() {
    let err = load_program(b"9223372036854775808").unwrap_err();
    assert_eq!(err.token, b"9223372036854775808".to_vec());
    assert_eq!(err.line, 1);
    let err = load_program(b"-9223372036854775809").unwrap_err();
    assert_eq!(err.token, b"-9223372036854775809".to_vec());
}

#[test]
fn parse_rejects_plus_prefixed_literals() {
    let err = load_program(b"+5").unwrap_err();
    assert_eq!(err.token, b"+5".to_vec());
    assert_eq!(err.line, 1);
}

#[test]
fn parse_reports_first_invalid_token_with_its_line() {
    let err = load_program(b"1 2\nfoo 3").unwrap_err();
    assert_eq!(err.token, b"foo".to_vec());
    assert_eq!(err.line, 2);
}

#[test]
fn parse_rejects_near_keywords() {
    let err = load_program(b"dump dumpp").unwrap_err();
    assert_eq!(err.token, b"dumpp".to_vec());
    assert_eq!(err.line, 1);
}
