use ddl2ts::ast::Span;
use ddl2ts::lexer::{lex, TokenKind};

#[test]
fn tokens_carry_kinds_and_byte_spans() {
    let toks = lex("CREATE TABLE t1(A INT)".as_bytes()).expect("input should lex");
    let kinds: Vec<TokenKind> = toks.iter().map(|t| t.kind).collect();
    assert_eq!(
        kinds,
        vec![
            TokenKind::Create,
            TokenKind::Table,
            TokenKind::Ident,
            TokenKind::LParen,
            TokenKind::Ident,
            TokenKind::Int,
            TokenKind::RParen,
        ]
    );
    assert_eq!(toks[0].span, Span::new(0, 6));
    assert_eq!(toks[2].span, Span::new(13, 15));
    assert_eq!(toks[6].span, Span::new(21, 22));
}

#[test]
fn keywords_match_case_insensitively() {
    let lower = lex("create table t (a int)".as_bytes()).expect("input should lex");
    let upper = lex("CREATE TABLE t (a INT)".as_bytes()).expect("input should lex");
    let lk: Vec<TokenKind> = lower.iter().map(|t| t.kind).collect();
    let uk: Vec<TokenKind> = upper.iter().map(|t| t.kind).collect();
    assert_eq!(lk, uk);
}

#[test]
fn quoted_identifier_spans_include_the_quotes() {
    let toks = lex("\"a b!\"".as_bytes()).expect("input should lex");
    assert_eq!(toks.len(), 1);
    assert_eq!(toks[0].kind, TokenKind::Ident);
    assert_eq!(toks[0].span, Span::new(0, 6));
}

#[test]
fn numeric_literals_are_their_own_token_kind() {
    let toks = lex("10 x10".as_bytes()).expect("input should lex");
    assert_eq!(toks.len(), 2);
    assert_eq!(toks[0].kind, TokenKind::Num);
    assert_eq!(toks[1].kind, TokenKind::Ident);
}

#[test]
fn whitespace_never_becomes_a_token() {
    let spaced = lex("  CREATE \n\t TABLE  ".as_bytes()).expect("input should lex");
    let tight = lex("CREATE TABLE".as_bytes()).expect("input should lex");
    assert_eq!(spaced.len(), tight.len());
    let sk: Vec<TokenKind> = spaced.iter().map(|t| t.kind).collect();
    let tk: Vec<TokenKind> = tight.iter().map(|t| t.kind).collect();
    assert_eq!(sk, tk);
}
