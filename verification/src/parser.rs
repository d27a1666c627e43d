//! Parser: recognizes the `CREATE TABLE` production over the token sequence
//! and builds the abstract syntax tree.
//!
//! The grammar, with case-insensitive keywords and whitespace free between
//! any two tokens:
//!
//! ```text
//! stmt        := CREATE TABLE table_name '(' column_list ')'
//! table_name  := ident | ident '.' ident
//! column_list := column_def (',' column_def)*
//! column_def  := ident data_type
//! data_type   := DATE | TIME | SECONDDATE | TINYINT | SMALLINT | INT
//!              | DOUBLE | TEXT | BINTEXT | VARCHAR '(' number ')'
//! ```
//!
//! [`parse_spec`] is the model: lexing followed by [`parse_toks`], a
//! recursive-descent reading of the grammar. [`parse`] is the executable
//! parser, proved to succeed with exactly the model's tree when the model
//! accepts, and to fail with a diagnostic when and only when it does not.
//! Parsing is all-or-nothing: no partial tree ever escapes. It fails fast,
//! reporting one diagnostic located at the offending span.

use crate::ast::{digits_val, ColumnDef, CreateTableStmt, DataType, Ident, Len, Span, StmtView,
    TableDef, TableName, is_digit};
use crate::lexer::{lex, lex_from, quote_end, num_end, word_end, classify_word, is_ws,
    lemma_num_end_bounds, lemma_quote_end_bounds, lemma_word_end_bounds, Token, TokenKind,
    LPAREN, RPAREN, COMMA, DOT, QUOTE};
use vstd::prelude::*;

verus! {

/// What went wrong: an unrecognizable byte sequence, a token sequence outside
/// the grammar, or a `VARCHAR` length beyond the machine word.
#[derive(Clone, Copy, PartialEq, Eq, Structural, Debug)]
pub enum DiagKind {
    Lexical,
    Syntax,
    LengthParse,
}

/// One diagnostic, locatable to a span of the source.
#[derive(Clone, Copy, PartialEq, Eq, Structural, Debug)]
pub struct Diag {
    pub kind: DiagKind,
    pub span: Span,
}

/// The source bytes a token spans.
pub open spec fn tok_bytes(s: Seq<u8>, t: Token) -> Seq<u8> {
    s.subrange(t.span.start as int, t.span.end as int)
}

/// What the scanner guarantees of every token it emits: a non-empty in-bounds
/// span, and only digits under a numeric literal.
pub open spec fn tok_ok(s: Seq<u8>, t: Token) -> bool {
    &&& t.span.wf(s.len())
    &&& t.span.start < t.span.end
    &&& (t.kind == TokenKind::Num ==> forall|k: int|
        t.span.start <= k < t.span.end ==> is_digit(#[trigger] s[k]))
}

pub open spec fn toks_wf(s: Seq<u8>, t: Seq<Token>) -> bool {
    forall|i: int| 0 <= i < t.len() ==> tok_ok(s, #[trigger] t[i])
}

proof fn lemma_with_token_wf(
    s: Seq<u8>,
    kind: TokenKind,
    start: int,
    end: int,
    rest: Option<Seq<Token>>,
)
    requires
        s.len() <= usize::MAX,
        0 <= start < end <= s.len(),
        rest is Some,
        toks_wf(s, rest.unwrap()),
        kind == TokenKind::Num ==> forall|k: int| start <= k < end ==> is_digit(#[trigger] s[k]),
    ensures
        crate::lexer::with_token(kind, start, end, rest) matches Some(t) && toks_wf(s, t),
{
    let tok = Token { kind, span: Span { start: start as usize, end: end as usize } };
    let t = seq![tok] + rest.unwrap();
    assert forall|i: int| 0 <= i < t.len() implies tok_ok(s, #[trigger] t[i]) by {
        if i == 0 {
            assert(t[0] == tok);
        } else {
            assert(t[i] == rest.unwrap()[i - 1]);
        }
    }
}

/// Every token the scanner emits satisfies [`tok_ok`].
pub proof fn lemma_lex_toks_wf(s: Seq<u8>, i: int)
    requires
        s.len() <= usize::MAX,
        0 <= i <= s.len(),
        lex_from(s, i) is Some,
    ensures
        toks_wf(s, lex_from(s, i).unwrap()),
    decreases s.len() - i,
{
    if i >= s.len() {
    } else if is_ws(s[i]) {
        lemma_lex_toks_wf(s, i + 1);
    } else if s[i] == LPAREN || s[i] == RPAREN || s[i] == COMMA || s[i] == DOT {
        lemma_lex_toks_wf(s, i + 1);
        let kind = if s[i] == LPAREN {
            TokenKind::LParen
        } else if s[i] == RPAREN {
            TokenKind::RParen
        } else if s[i] == COMMA {
            TokenKind::Comma
        } else {
            TokenKind::Dot
        };
        lemma_with_token_wf(s, kind, i, i + 1, lex_from(s, i + 1));
    } else if s[i] == QUOTE {
        lemma_quote_end_bounds(s, i + 1);
        let j = quote_end(s, i + 1).unwrap();
        lemma_lex_toks_wf(s, j + 1);
        lemma_with_token_wf(s, TokenKind::Ident, i, j + 1, lex_from(s, j + 1));
    } else if is_digit(s[i]) {
        lemma_num_end_bounds(s, i + 1);
        let j = num_end(s, i + 1);
        lemma_lex_toks_wf(s, j);
        lemma_with_token_wf(s, TokenKind::Num, i, j, lex_from(s, j));
    } else {
        lemma_word_end_bounds(s, i + 1);
        let j = word_end(s, i + 1);
        lemma_lex_toks_wf(s, j);
        lemma_with_token_wf(s, classify_word(s.subrange(i, j)), i, j, lex_from(s, j));
    }
}

/// One data type at position `q`: a simple keyword, or `VARCHAR` with a
/// parenthesized decimal length that must fit the machine word.
pub open spec fn parse_data_type(s: Seq<u8>, t: Seq<Token>, q: int) -> Option<(DataType, int)> {
    if 0 <= q < t.len() {
        match t[q].kind {
            TokenKind::Date => Some((DataType::Date, q + 1)),
            TokenKind::Time => Some((DataType::Time, q + 1)),
            TokenKind::SecondDate => Some((DataType::SecondDate, q + 1)),
            TokenKind::TinyInt => Some((DataType::TinyInt, q + 1)),
            TokenKind::SmallInt => Some((DataType::SmallInt, q + 1)),
            TokenKind::Int => Some((DataType::Int, q + 1)),
            TokenKind::Double => Some((DataType::Double, q + 1)),
            TokenKind::Text => Some((DataType::Text, q + 1)),
            TokenKind::BinText => Some((DataType::BinText, q + 1)),
            TokenKind::VarChar => {
                if q + 3 < t.len() && t[q + 1].kind == TokenKind::LParen && t[q + 2].kind
                    == TokenKind::Num && t[q + 3].kind == TokenKind::RParen {
                    let v = digits_val(tok_bytes(s, t[q + 2]));
                    if v <= usize::MAX {
                        Some((DataType::VarChar(Len(v as usize)), q + 4))
                    } else {
                        None
                    }
                } else {
                    None
                }
            },
            _ => None,
        }
    } else {
        None
    }
}

/// One column definition at position `q`: a name and a data type.
pub open spec fn parse_col(s: Seq<u8>, t: Seq<Token>, q: int) -> Option<(ColumnDef, int)> {
    if 0 <= q < t.len() && t[q].kind == TokenKind::Ident {
        match parse_data_type(s, t, q + 1) {
            Some((dt, r)) => Some(
                (ColumnDef { name: Ident { span: t[q].span }, data_type: dt }, r),
            ),
            None => None,
        }
    } else {
        None
    }
}

proof fn lemma_parse_col_bounds(s: Seq<u8>, t: Seq<Token>, q: int)
    ensures
        parse_col(s, t, q) matches Some((c, r)) ==> q < r <= t.len(),
{
}

/// A comma-separated list of one or more column definitions from position `q`.
pub open spec fn parse_cols(s: Seq<u8>, t: Seq<Token>, q: int) -> Option<(Seq<ColumnDef>, int)>
    decreases t.len() - q,
        when 0 <= q <= t.len()
        via parse_cols_decreases
{
    match parse_col(s, t, q) {
        None => None,
        Some((c, r)) => {
            if r < t.len() && t[r].kind == TokenKind::Comma {
                match parse_cols(s, t, r + 1) {
                    None => None,
                    Some((rest, e)) => Some((seq![c] + rest, e)),
                }
            } else {
                Some((seq![c], r))
            }
        },
    }
}

#[via_fn]
proof fn parse_cols_decreases(s: Seq<u8>, t: Seq<Token>, q: int) {
    lemma_parse_col_bounds(s, t, q);
}

/// The table name after `CREATE TABLE`: bare, or schema-qualified by a dot.
pub open spec fn parse_name(t: Seq<Token>) -> Option<(TableName, int)> {
    if t.len() > 2 && t[2].kind == TokenKind::Ident {
        if t.len() > 3 && t[3].kind == TokenKind::Dot {
            if t.len() > 4 && t[4].kind == TokenKind::Ident {
                Some(
                    (TableName::SchemaWithName(
                        Ident { span: t[2].span },
                        Ident { span: t[4].span },
                    ), 5),
                )
            } else {
                None
            }
        } else {
            Some((TableName::Name(Ident { span: t[2].span }), 3))
        }
    } else {
        None
    }
}

/// The whole statement: `CREATE TABLE name ( columns )`, with nothing after
/// the closing parenthesis.
pub open spec fn parse_toks(s: Seq<u8>, t: Seq<Token>) -> Option<StmtView> {
    if t.len() >= 2 && t[0].kind == TokenKind::Create && t[1].kind == TokenKind::Table {
        match parse_name(t) {
            None => None,
            Some((name, p)) => {
                if p < t.len() && t[p].kind == TokenKind::LParen {
                    match parse_cols(s, t, p + 1) {
                        None => None,
                        Some((cols, e)) => {
                            if e < t.len() && t[e].kind == TokenKind::RParen && e + 1 == t.len() {
                                Some(StmtView { name, columns: cols })
                            } else {
                                None
                            }
                        },
                    }
                } else {
                    None
                }
            },
        }
    } else {
        None
    }
}

/// The one statement a source text denotes, if it denotes one.
pub open spec fn parse_spec(s: Seq<u8>) -> Option<StmtView> {
    match lex_from(s, 0) {
        None => None,
        Some(t) => parse_toks(s, t),
    }
}

/// A syntax diagnostic at token `q`, or at the end of the source when the
/// statement broke off early.
fn syntax_diag(src: &[u8], toks: &Vec<Token>, q: usize) -> (d: Diag)
    requires
        toks_wf(src@, toks@),
    ensures
        d.kind == DiagKind::Syntax,
        d.span.wf(src@.len()),
{
    if q < toks.len() {
        let t = toks[q];
        assert(tok_ok(src@, toks@[q as int]));
        Diag { kind: DiagKind::Syntax, span: t.span }
    } else {
        Diag { kind: DiagKind::Syntax, span: Span::new(src.len(), src.len()) }
    }
}

fn p_data_type(src: &[u8], toks: &Vec<Token>, q: usize) -> (r: Result<(DataType, usize), Diag>)
    requires
        toks_wf(src@, toks@),
        q <= toks@.len(),
    ensures
        match r {
            Ok((dt, e)) => parse_data_type(src@, toks@, q as int) == Some((dt, e as int)) && q < e
                <= toks@.len(),
            Err(d) => parse_data_type(src@, toks@, q as int) is None && d.kind != DiagKind::Lexical
                && d.span.wf(src@.len()),
        },
{
    if q >= toks.len() {
        return Err(syntax_diag(src, toks, q));
    }
    let t = toks[q];
    match t.kind {
        TokenKind::Date => Ok((DataType::Date, q + 1)),
        TokenKind::Time => Ok((DataType::Time, q + 1)),
        TokenKind::SecondDate => Ok((DataType::SecondDate, q + 1)),
        TokenKind::TinyInt => Ok((DataType::TinyInt, q + 1)),
        TokenKind::SmallInt => Ok((DataType::SmallInt, q + 1)),
        TokenKind::Int => Ok((DataType::Int, q + 1)),
        TokenKind::Double => Ok((DataType::Double, q + 1)),
        TokenKind::Text => Ok((DataType::Text, q + 1)),
        TokenKind::BinText => Ok((DataType::BinText, q + 1)),
        TokenKind::VarChar => {
            if q + 1 < toks.len() && q + 2 < toks.len() && q + 3 < toks.len() {
                let lp = toks[q + 1];
                let num = toks[q + 2];
                let rp = toks[q + 3];
                if lp.kind == TokenKind::LParen && num.kind == TokenKind::Num && rp.kind
                    == TokenKind::RParen {
                    assert(tok_ok(src@, toks@[q as int + 2]));
                    let digits = vstd::slice::slice_subrange(src, num.span.start, num.span.end);
                    match Len::parse_digits(digits, num.span) {
                        Ok(l) => Ok((DataType::VarChar(l), q + 4)),
                        Err(e) => Err(Diag { kind: DiagKind::LengthParse, span: e.span }),
                    }
                } else {
                    Err(syntax_diag(src, toks, q + 1))
                }
            } else {
                Err(syntax_diag(src, toks, q))
            }
        },
        _ => Err(syntax_diag(src, toks, q)),
    }
}

fn p_col(src: &[u8], toks: &Vec<Token>, q: usize) -> (r: Result<(ColumnDef, usize), Diag>)
    requires
        toks_wf(src@, toks@),
        q <= toks@.len(),
    ensures
        match r {
            Ok((c, e)) => parse_col(src@, toks@, q as int) == Some((c, e as int)) && q < e
                <= toks@.len() && c.wf(src@.len()),
            Err(d) => parse_col(src@, toks@, q as int) is None && d.kind != DiagKind::Lexical
                && d.span.wf(src@.len()),
        },
{
    if q >= toks.len() {
        return Err(syntax_diag(src, toks, q));
    }
    let t = toks[q];
    if !matches!(t.kind, TokenKind::Ident) {
        return Err(syntax_diag(src, toks, q));
    }
    assert(tok_ok(src@, toks@[q as int]));
    match p_data_type(src, toks, q + 1) {
        Ok((dt, e)) => Ok((ColumnDef { name: Ident { span: t.span }, data_type: dt }, e)),
        Err(d) => Err(d),
    }
}

fn p_cols(src: &[u8], toks: &Vec<Token>, q: usize) -> (r: Result<(Vec<ColumnDef>, usize), Diag>)
    requires
        toks_wf(src@, toks@),
        q <= toks@.len(),
    ensures
        match r {
            Ok((cols, e)) => parse_cols(src@, toks@, q as int) == Some((cols@, e as int)) && q < e
                <= toks@.len() && forall|i: int|
                0 <= i < cols@.len() ==> (#[trigger] cols@[i]).wf(src@.len()),
            Err(d) => parse_cols(src@, toks@, q as int) is None && d.kind != DiagKind::Lexical
                && d.span.wf(src@.len()),
        },
    decreases toks@.len() - q,
{
    let (c, r) = match p_col(src, toks, q) {
        Ok(p) => p,
        Err(d) => {
            return Err(d);
        },
    };
    if r < toks.len() && matches!(toks[r].kind, TokenKind::Comma) {
        match p_cols(src, toks, r + 1) {
            Ok((mut cols, e)) => {
                let ghost pre = cols@;
                cols.insert(0, c);
                proof {
                    assert(cols@ =~= seq![c] + pre);
                }
                Ok((cols, e))
            },
            Err(d) => Err(d),
        }
    } else {
        let cols: Vec<ColumnDef> = vec![c];
        proof {
            assert(cols@ =~= seq![c]);
        }
        Ok((cols, r))
    }
}

fn p_name(src: &[u8], toks: &Vec<Token>) -> (r: Result<(TableName, usize), Diag>)
    requires
        toks_wf(src@, toks@),
    ensures
        match r {
            Ok((name, p)) => parse_name(toks@) == Some((name, p as int)) && 2 < p <= toks@.len()
                && name.wf(src@.len()),
            Err(d) => parse_name(toks@) is None && d.kind != DiagKind::Lexical && d.span.wf(
                src@.len(),
            ),
        },
{
    if toks.len() <= 2 || !matches!(toks[2].kind, TokenKind::Ident) {
        return Err(syntax_diag(src, toks, 2));
    }
    let name_tok = toks[2];
    assert(tok_ok(src@, toks@[2]));
    if toks.len() > 3 && matches!(toks[3].kind, TokenKind::Dot) {
        if toks.len() > 4 && matches!(toks[4].kind, TokenKind::Ident) {
            let schema = Ident { span: name_tok.span };
            let name_tok2 = toks[4];
            assert(tok_ok(src@, toks@[4]));
            Ok((TableName::SchemaWithName(schema, Ident { span: name_tok2.span }), 5))
        } else {
            Err(syntax_diag(src, toks, 4))
        }
    } else {
        Ok((TableName::Name(Ident { span: name_tok.span }), 3))
    }
}

fn p_stmt(src: &[u8], toks: &Vec<Token>) -> (r: Result<CreateTableStmt, Diag>)
    requires
        toks_wf(src@, toks@),
    ensures
        match r {
            Ok(stmt) => parse_toks(src@, toks@) == Some(stmt@) && stmt@.wf(src@.len()),
            Err(d) => parse_toks(src@, toks@) is None && d.kind != DiagKind::Lexical && d.span.wf(
                src@.len(),
            ),
        },
{
    if toks.len() < 2 || !matches!(toks[0].kind, TokenKind::Create) || !matches!(
        toks[1].kind,
        TokenKind::Table,
    ) {
        let q: usize = if toks.len() >= 1 && matches!(toks[0].kind, TokenKind::Create) {
            1
        } else {
            0
        };
        return Err(syntax_diag(src, toks, q));
    }
    let (name, p) = match p_name(src, toks) {
        Ok(r) => r,
        Err(d) => {
            return Err(d);
        },
    };
    if !(p < toks.len() && matches!(toks[p].kind, TokenKind::LParen)) {
        return Err(syntax_diag(src, toks, p));
    }
    let (cols, e) = match p_cols(src, toks, p + 1) {
        Ok(r) => r,
        Err(d) => {
            return Err(d);
        },
    };
    if e < toks.len() && matches!(toks[e].kind, TokenKind::RParen) && e + 1 == toks.len() {
        let stmt = CreateTableStmt { name, def: TableDef { columns: cols } };
        Ok(stmt)
    } else {
        Err(syntax_diag(src, toks, e))
    }
}

/// Parses one `CREATE TABLE` statement. Returns the statement exactly when
/// the source denotes one under [`parse_spec`] — and then every span of the
/// tree lies within the source — and otherwise one diagnostic: lexical
/// exactly when the scan itself failed, else a syntax or length diagnostic.
pub fn parse(src: &[u8]) -> (r: Result<CreateTableStmt, Vec<Diag>>)
    ensures
        match r {
            Ok(stmt) => parse_spec(src@) == Some(stmt@) && stmt@.wf(src@.len()),
            Err(ds) => parse_spec(src@) is None && ds@.len() == 1 && ds@[0].span.wf(src@.len())
                && (ds@[0].kind == DiagKind::Lexical <==> lex_from(src@, 0) is None),
        },
{
    match lex(src) {
        Err(sp) => {
            let ds: Vec<Diag> = vec![Diag { kind: DiagKind::Lexical, span: sp }];
            Err(ds)
        },
        Ok(toks) => {
            proof {
                vstd::slice::axiom_spec_len(src);
                lemma_lex_toks_wf(src@, 0);
            }
            match p_stmt(src, &toks) {
                Ok(stmt) => Ok(stmt),
                Err(d) => {
                    let ds: Vec<Diag> = vec![d];
                    Err(ds)
                },
            }
        },
    }
}

} // verus!
