use kaiforth::common::error::{ForthError, ForthErrorKind, ForthPhase};
use kaiforth::compiler::parser::{from_str_radix, token_of_match, InputSource, Parser, Token, TokenMatch};

fn parser_on(text: &str) -> Parser {
    let mut p = Parser::try_new().unwrap();
    p.input_stack.push(InputSource { text: text.to_string(), ptr: 0 });
    p
}

fn all_tokens(p: &mut Parser) -> Vec<Token> {
    let mut out = Vec::new();
    while let Some(t) = p.next_token().unwrap() {
        out.push(t);
    }
    out
}

#[test]
fn test_new_parser_is_empty_base_ten() {
    let mut p = Parser::try_new().unwrap();
    assert_eq!(p.base, 10);
    assert!(p.input_stack.is_empty());
    assert_eq!(p.next_token(), Ok(None));
}

#[test]
fn test_token_kinds() {
    let mut p = parser_on("  : sq2 dup * ; 0x1F -12 3.5 \"hi there\" 42");
    assert_eq!(
        all_tokens(&mut p),
        vec![
            Token::Word(":".to_string()),
            Token::Word("sq2".to_string()),
            Token::Word("dup".to_string()),
            Token::Word("*".to_string()),
            Token::Word(";".to_string()),
            Token::Number(31),
            Token::Number(-12),
            Token::Float("3.5".to_string()),
            Token::StringLiteral("hi there".to_string()),
            Token::Number(42),
        ]
    );
    // A used-up source is dropped.
    assert!(p.input_stack.is_empty());
}

#[test]
fn test_comments_are_skipped() {
    let mut p = parser_on("1 ( a comment ) 2 \\ to the end of the line\n3");
    assert_eq!(all_tokens(&mut p), vec![Token::Number(1), Token::Number(2), Token::Number(3)]);
}

#[test]
fn test_number_in_other_base() {
    let mut p = parser_on("ff 10");
    p.base = 16;
    assert_eq!(all_tokens(&mut p), vec![Token::Word("ff".to_string()), Token::Number(16)]);
}

#[test]
fn test_number_too_large_is_an_error() {
    let mut p = parser_on("99999999999999999999 7");
    assert_eq!(p.next_token(), Err(ForthError::new(ForthErrorKind::UnknownToken, ForthPhase::Parsing)));
    // The offending text was passed over.
    assert_eq!(p.next_token(), Ok(Some(Token::Number(7))));
}

#[test]
fn test_sources_read_from_the_last() {
    let mut p = parser_on("outer");
    p.input_stack.push(InputSource { text: "inner".to_string(), ptr: 0 });
    assert_eq!(
        all_tokens(&mut p),
        vec![Token::Word("inner".to_string()), Token::Word("outer".to_string())]
    );
}

#[test]
fn test_from_str_radix_values() {
    assert_eq!(from_str_radix("123", 10), Some(123));
    assert_eq!(from_str_radix("-123", 10), Some(-123));
    assert_eq!(from_str_radix("+7", 10), Some(7));
    assert_eq!(from_str_radix("ff", 16), Some(255));
    assert_eq!(from_str_radix("FF", 16), Some(255));
    assert_eq!(from_str_radix("101", 2), Some(5));
    assert_eq!(from_str_radix("zz", 36), Some(35 * 36 + 35));
    assert_eq!(from_str_radix("9223372036854775807", 10), Some(i64::MAX));
    assert_eq!(from_str_radix("-9223372036854775808", 10), Some(i64::MIN));
}

#[test]
fn test_from_str_radix_rejects() {
    assert_eq!(from_str_radix("", 10), None);
    assert_eq!(from_str_radix("-", 10), None);
    assert_eq!(from_str_radix("12a", 10), None);
    assert_eq!(from_str_radix("2", 2), None);
    assert_eq!(from_str_radix("9223372036854775808", 10), None);
    assert_eq!(from_str_radix("-9223372036854775809", 10), None);
    assert_eq!(from_str_radix("1 ", 10), None);
}

#[test]
fn test_read_until_delimiter() {
    let mut p = parser_on("hello world) rest");
    assert_eq!(p.read_until(')'), Some("hello world".to_string()));
    assert_eq!(p.input_stack[0].ptr, 12);
    assert_eq!(p.next_token(), Ok(Some(Token::Word("rest".to_string()))));
}

#[test]
fn test_read_until_without_delimiter_takes_the_rest() {
    let mut p = parser_on("no end here");
    p.input_stack[0].ptr = 3;
    assert_eq!(p.read_until('"'), Some("end here".to_string()));
    assert_eq!(p.input_stack[0].ptr, 11);
}

#[test]
fn test_read_until_multibyte_text() {
    let mut p = parser_on("héllo|x");
    assert_eq!(p.read_until('|'), Some("héllo".to_string()));
    assert_eq!(p.input_stack[0].ptr, 7);
}

#[test]
fn test_read_until_without_source() {
    let mut p = Parser::try_new().unwrap();
    assert_eq!(p.read_until(')'), None);
}

#[test]
fn test_number_followed_by_symbol_is_a_word() {
    let mut p = parser_on("1+ 0= 2.5x 0x1Fg -3");
    assert_eq!(
        all_tokens(&mut p),
        vec![
            Token::Word("1+".to_string()),
            Token::Word("0=".to_string()),
            Token::Word("2.5x".to_string()),
            Token::Word("0x1Fg".to_string()),
            Token::Number(-3),
        ]
    );
}

fn bare_match() -> TokenMatch {
    TokenMatch { end: Some(3), word: None, int: None, num: None, hex: None, text: None }
}

#[test]
fn test_token_of_match_groups() {
    let mut m = bare_match();
    m.int = Some("ff".to_string());
    assert_eq!(token_of_match(m, 16), Some(Ok(Some(Token::Number(255)))));
    let mut m = bare_match();
    m.hex = Some("0x1F".to_string());
    assert_eq!(token_of_match(m, 10), Some(Ok(Some(Token::Number(31)))));
    let mut m = bare_match();
    m.word = Some("dup".to_string());
    assert_eq!(token_of_match(m, 10), Some(Ok(Some(Token::Word("dup".to_string())))));
    let mut m = bare_match();
    m.num = Some("1.5".to_string());
    assert_eq!(token_of_match(m, 10), Some(Ok(Some(Token::Float("1.5".to_string())))));
    let mut m = bare_match();
    m.text = Some("hi".to_string());
    assert_eq!(token_of_match(m, 10), Some(Ok(Some(Token::StringLiteral("hi".to_string())))));
    // A comment takes part in no group: nothing is read.
    assert_eq!(token_of_match(bare_match(), 10), None);
    let mut m = bare_match();
    m.int = Some("99999999999999999999".to_string());
    assert_eq!(
        token_of_match(m, 10),
        Some(Err(ForthError { kind: ForthErrorKind::UnknownToken, phase: ForthPhase::Parsing }))
    );
}
