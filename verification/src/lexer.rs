//! Lexical scanner: turns source bytes into a sequence of classified tokens.
//!
//! [`lex_from`] is the model: a recursive definition of the one token
//! sequence a source text denotes, or `None` on an unrecognizable byte or an
//! unterminated quoted identifier. [`lex`] is the executable scanner, proved
//! to return exactly that sequence. Keywords are matched case-insensitively;
//! quoted identifiers keep their quotes; whitespace separates tokens and is
//! never part of one; spans are byte offsets into the source.

use crate::ast::{is_digit, Span};
use vstd::prelude::*;
use vstd::string::StringSliceAdditionalSpecFns;

verus! {

/// The quote character that delimits a quoted identifier.
pub const QUOTE: u8 = 34;

pub const LPAREN: u8 = 40;

pub const RPAREN: u8 = 41;

pub const COMMA: u8 = 44;

pub const DOT: u8 = 46;

/// Whitespace: space, tab, line feed, carriage return.
pub open spec fn is_ws(b: u8) -> bool {
    b == 32 || b == 9 || b == 10 || b == 13
}

/// A byte that may start a bare identifier or keyword.
pub open spec fn is_word_start(b: u8) -> bool {
    (65 <= b <= 90) || (97 <= b <= 122) || b == 95
}

/// A byte that may continue a bare identifier or keyword.
pub open spec fn is_word_char(b: u8) -> bool {
    is_word_start(b) || is_digit(b)
}

/// ASCII upper-casing of one byte.
pub open spec fn upper(b: u8) -> u8 {
    if 97 <= b <= 122 {
        (b - 32) as u8
    } else {
        b
    }
}

/// ASCII upper-casing of a byte sequence.
pub open spec fn upper_seq(s: Seq<u8>) -> Seq<u8> {
    s.map_values(|b: u8| upper(b))
}

/// What a token is.
#[derive(Clone, Copy, PartialEq, Eq, Structural, Debug)]
pub enum TokenKind {
    Create,
    Table,
    Date,
    Time,
    SecondDate,
    TinyInt,
    SmallInt,
    Int,
    Double,
    Text,
    BinText,
    VarChar,
    Ident,
    Num,
    LParen,
    RParen,
    Comma,
    Dot,
}

/// One token: its kind and its span in the source.
#[derive(Clone, Copy, PartialEq, Eq, Structural, Debug)]
pub struct Token {
    pub kind: TokenKind,
    pub span: Span,
}

/// The kind of a bare word: a keyword when its upper-casing spells one,
/// otherwise an identifier. A quoted word is always an identifier, however it
/// is spelled.
pub open spec fn classify_word(w: Seq<u8>) -> TokenKind {
    let u = upper_seq(w);
    if u == "CREATE".spec_bytes() {
        TokenKind::Create
    } else if u == "TABLE".spec_bytes() {
        TokenKind::Table
    } else if u == "DATE".spec_bytes() {
        TokenKind::Date
    } else if u == "TIME".spec_bytes() {
        TokenKind::Time
    } else if u == "SECONDDATE".spec_bytes() {
        TokenKind::SecondDate
    } else if u == "TINYINT".spec_bytes() {
        TokenKind::TinyInt
    } else if u == "SMALLINT".spec_bytes() {
        TokenKind::SmallInt
    } else if u == "INT".spec_bytes() {
        TokenKind::Int
    } else if u == "DOUBLE".spec_bytes() {
        TokenKind::Double
    } else if u == "TEXT".spec_bytes() {
        TokenKind::Text
    } else if u == "BINTEXT".spec_bytes() {
        TokenKind::BinText
    } else if u == "VARCHAR".spec_bytes() {
        TokenKind::VarChar
    } else {
        TokenKind::Ident
    }
}

/// The position of the closing quote at or after `i`, if there is one.
pub open spec fn quote_end(s: Seq<u8>, i: int) -> Option<int>
    decreases s.len() - i,
        when 0 <= i <= s.len()
{
    if i >= s.len() {
        None
    } else if s[i] == QUOTE {
        Some(i)
    } else {
        quote_end(s, i + 1)
    }
}

pub proof fn lemma_quote_end_bounds(s: Seq<u8>, i: int)
    requires
        0 <= i <= s.len(),
    ensures
        match quote_end(s, i) {
            Some(j) => i <= j < s.len() && s[j] == QUOTE && forall|k: int|
                i <= k < j ==> s[k] != QUOTE,
            None => forall|k: int| i <= k < s.len() ==> s[k] != QUOTE,
        },
    decreases s.len() - i,
{
    if i < s.len() && s[i] != QUOTE {
        lemma_quote_end_bounds(s, i + 1);
    }
}

/// The position of the first quote characterizes `quote_end`.
pub proof fn lemma_quote_end_is(s: Seq<u8>, i: int, j: int)
    requires
        0 <= i <= j < s.len(),
        s[j] == QUOTE,
        forall|k: int| i <= k < j ==> s[k] != QUOTE,
    ensures
        quote_end(s, i) == Some(j),
    decreases j - i,
{
    if i < j {
        lemma_quote_end_is(s, i + 1, j);
    }
}

/// The end of the run of decimal digits starting at `i`.
pub open spec fn num_end(s: Seq<u8>, i: int) -> int
    decreases s.len() - i,
        when 0 <= i <= s.len()
{
    if i >= s.len() || !is_digit(s[i]) {
        i
    } else {
        num_end(s, i + 1)
    }
}

pub proof fn lemma_num_end_bounds(s: Seq<u8>, i: int)
    requires
        0 <= i <= s.len(),
    ensures
        i <= num_end(s, i) <= s.len(),
        forall|k: int| i <= k < num_end(s, i) ==> is_digit(#[trigger] s[k]),
        num_end(s, i) == s.len() || !is_digit(s[num_end(s, i)]),
    decreases s.len() - i,
{
    if i < s.len() && is_digit(s[i]) {
        lemma_num_end_bounds(s, i + 1);
    }
}

/// The end of the digit run characterizes `num_end`.
pub proof fn lemma_num_end_is(s: Seq<u8>, i: int, e: int)
    requires
        0 <= i <= e <= s.len(),
        forall|k: int| i <= k < e ==> is_digit(#[trigger] s[k]),
        e == s.len() || !is_digit(s[e]),
    ensures
        num_end(s, i) == e,
    decreases e - i,
{
    if i < e {
        lemma_num_end_is(s, i + 1, e);
    }
}

/// The end of the run of word bytes starting at `i`.
pub open spec fn word_end(s: Seq<u8>, i: int) -> int
    decreases s.len() - i,
        when 0 <= i <= s.len()
{
    if i >= s.len() || !is_word_char(s[i]) {
        i
    } else {
        word_end(s, i + 1)
    }
}

pub proof fn lemma_word_end_bounds(s: Seq<u8>, i: int)
    requires
        0 <= i <= s.len(),
    ensures
        i <= word_end(s, i) <= s.len(),
        forall|k: int| i <= k < word_end(s, i) ==> is_word_char(#[trigger] s[k]),
        word_end(s, i) == s.len() || !is_word_char(s[word_end(s, i)]),
    decreases s.len() - i,
{
    if i < s.len() && is_word_char(s[i]) {
        lemma_word_end_bounds(s, i + 1);
    }
}

/// The end of the word run characterizes `word_end`.
pub proof fn lemma_word_end_is(s: Seq<u8>, i: int, e: int)
    requires
        0 <= i <= e <= s.len(),
        forall|k: int| i <= k < e ==> is_word_char(#[trigger] s[k]),
        e == s.len() || !is_word_char(s[e]),
    ensures
        word_end(s, i) == e,
    decreases e - i,
{
    if i < e {
        lemma_word_end_is(s, i + 1, e);
    }
}

/// Prepends the token `[start, end)` of kind `k` to `rest`, or fails when
/// `rest` does.
pub open spec fn with_token(k: TokenKind, start: int, end: int, rest: Option<Seq<Token>>) -> Option<
    Seq<Token>,
> {
    match rest {
        None => None,
        Some(r) => Some(
            seq![Token { kind: k, span: Span { start: start as usize, end: end as usize } }] + r,
        ),
    }
}

/// The token sequence of the source from position `i` on: whitespace is
/// skipped; `(`, `)`, `,` and `.` stand alone; a quoted run is an identifier,
/// quotes included; a digit run is a numeric literal; a word run is a keyword
/// or an identifier. Any other byte, or an unterminated quote, fails the scan.
pub open spec fn lex_from(s: Seq<u8>, i: int) -> Option<Seq<Token>>
    decreases s.len() - i,
        when 0 <= i <= s.len()
        via lex_from_decreases
{
    if i >= s.len() {
        Some(Seq::empty())
    } else if is_ws(s[i]) {
        lex_from(s, i + 1)
    } else if s[i] == LPAREN {
        with_token(TokenKind::LParen, i, i + 1, lex_from(s, i + 1))
    } else if s[i] == RPAREN {
        with_token(TokenKind::RParen, i, i + 1, lex_from(s, i + 1))
    } else if s[i] == COMMA {
        with_token(TokenKind::Comma, i, i + 1, lex_from(s, i + 1))
    } else if s[i] == DOT {
        with_token(TokenKind::Dot, i, i + 1, lex_from(s, i + 1))
    } else if s[i] == QUOTE {
        match quote_end(s, i + 1) {
            None => None,
            Some(j) => with_token(TokenKind::Ident, i, j + 1, lex_from(s, j + 1)),
        }
    } else if is_digit(s[i]) {
        let j = num_end(s, i + 1);
        with_token(TokenKind::Num, i, j, lex_from(s, j))
    } else if is_word_start(s[i]) {
        let j = word_end(s, i + 1);
        with_token(classify_word(s.subrange(i, j)), i, j, lex_from(s, j))
    } else {
        None
    }
}

#[via_fn]
proof fn lex_from_decreases(s: Seq<u8>, i: int) {
    if 0 <= i < s.len() {
        if s[i] == QUOTE {
            lemma_quote_end_bounds(s, i + 1);
        } else {
            lemma_num_end_bounds(s, i + 1);
            lemma_word_end_bounds(s, i + 1);
        }
    }
}

fn is_ws_b(b: u8) -> (r: bool)
    ensures
        r == is_ws(b),
{
    b == 32 || b == 9 || b == 10 || b == 13
}

fn is_digit_b(b: u8) -> (r: bool)
    ensures
        r == is_digit(b),
{
    48 <= b && b <= 57
}

fn is_word_start_b(b: u8) -> (r: bool)
    ensures
        r == is_word_start(b),
{
    (65 <= b && b <= 90) || (97 <= b && b <= 122) || b == 95
}

fn is_word_char_b(b: u8) -> (r: bool)
    ensures
        r == is_word_char(b),
{
    is_word_start_b(b) || is_digit_b(b)
}

fn upper_b(b: u8) -> (r: u8)
    ensures
        r == upper(b),
{
    if 97 <= b && b <= 122 {
        b - 32
    } else {
        b
    }
}

/// Finds the closing quote at or after `i`.
fn scan_quote(src: &[u8], i: usize) -> (r: Option<usize>)
    requires
        i <= src@.len(),
    ensures
        match r {
            Some(j) => quote_end(src@, i as int) == Some(j as int) && i <= j < src@.len(),
            None => quote_end(src@, i as int) is None,
        },
{
    let mut j: usize = i;
    loop
        invariant
            i <= j <= src@.len(),
            quote_end(src@, i as int) == quote_end(src@, j as int),
        decreases src@.len() - j,
    {
        if j >= src.len() {
            return None;
        }
        let b = *vstd::slice::slice_index_get(src, j);
        if b == QUOTE {
            return Some(j);
        }
        assert(quote_end(src@, j as int) == quote_end(src@, j as int + 1));
        j = j + 1;
    }
}

/// Finds the end of the digit run starting at `i`.
fn scan_digits(src: &[u8], i: usize) -> (j: usize)
    requires
        i <= src@.len(),
    ensures
        j as int == num_end(src@, i as int),
        i <= j <= src@.len(),
{
    let mut j: usize = i;
    loop
        invariant
            i <= j <= src@.len(),
            num_end(src@, i as int) == num_end(src@, j as int),
        decreases src@.len() - j,
    {
        if j >= src.len() {
            return j;
        }
        let b = *vstd::slice::slice_index_get(src, j);
        if !is_digit_b(b) {
            return j;
        }
        assert(num_end(src@, j as int) == num_end(src@, j as int + 1));
        j = j + 1;
    }
}

/// Finds the end of the word run starting at `i`.
fn scan_word(src: &[u8], i: usize) -> (j: usize)
    requires
        i <= src@.len(),
    ensures
        j as int == word_end(src@, i as int),
        i <= j <= src@.len(),
{
    let mut j: usize = i;
    loop
        invariant
            i <= j <= src@.len(),
            word_end(src@, i as int) == word_end(src@, j as int),
        decreases src@.len() - j,
    {
        if j >= src.len() {
            return j;
        }
        let b = *vstd::slice::slice_index_get(src, j);
        if !is_word_char_b(b) {
            return j;
        }
        assert(word_end(src@, j as int) == word_end(src@, j as int + 1));
        j = j + 1;
    }
}

/// Compares the upper-casing of `src[start..end]` against `kw`.
fn word_eq_upper(src: &[u8], start: usize, end: usize, kw: &[u8]) -> (r: bool)
    requires
        start <= end <= src@.len(),
    ensures
        r == (upper_seq(src@.subrange(start as int, end as int)) == kw@),
{
    let ghost w = src@.subrange(start as int, end as int);
    let n = end - start;
    if n != kw.len() {
        assert(upper_seq(w).len() == w.len());
        return false;
    }
    let mut k: usize = 0;
    while k < n
        invariant
            0 <= k <= n,
            n == end - start,
            start <= end <= src@.len(),
            n == kw@.len(),
            w == src@.subrange(start as int, end as int),
            forall|t: int| 0 <= t < k ==> upper(#[trigger] w[t]) == kw@[t],
        decreases n - k,
    {
        let b = upper_b(*vstd::slice::slice_index_get(src, start + k));
        let c = *vstd::slice::slice_index_get(kw, k);
        proof {
            assert(w[k as int] == src@[start + k]);
            assert(upper_seq(w)[k as int] == upper(w[k as int]));
        }
        if b != c {
            return false;
        }
        k = k + 1;
    }
    proof {
        assert(upper_seq(w) =~= kw@);
    }
    true
}

/// Classifies the bare word `src[start..end]` as a keyword or an identifier.
fn classify_token(src: &[u8], start: usize, end: usize) -> (k: TokenKind)
    requires
        start <= end <= src@.len(),
    ensures
        k == classify_word(src@.subrange(start as int, end as int)),
{
    if word_eq_upper(src, start, end, "CREATE".as_bytes()) {
        TokenKind::Create
    } else if word_eq_upper(src, start, end, "TABLE".as_bytes()) {
        TokenKind::Table
    } else if word_eq_upper(src, start, end, "DATE".as_bytes()) {
        TokenKind::Date
    } else if word_eq_upper(src, start, end, "TIME".as_bytes()) {
        TokenKind::Time
    } else if word_eq_upper(src, start, end, "SECONDDATE".as_bytes()) {
        TokenKind::SecondDate
    } else if word_eq_upper(src, start, end, "TINYINT".as_bytes()) {
        TokenKind::TinyInt
    } else if word_eq_upper(src, start, end, "SMALLINT".as_bytes()) {
        TokenKind::SmallInt
    } else if word_eq_upper(src, start, end, "INT".as_bytes()) {
        TokenKind::Int
    } else if word_eq_upper(src, start, end, "DOUBLE".as_bytes()) {
        TokenKind::Double
    } else if word_eq_upper(src, start, end, "TEXT".as_bytes()) {
        TokenKind::Text
    } else if word_eq_upper(src, start, end, "BINTEXT".as_bytes()) {
        TokenKind::BinText
    } else if word_eq_upper(src, start, end, "VARCHAR".as_bytes()) {
        TokenKind::VarChar
    } else {
        TokenKind::Ident
    }
}

/// Emits one token and everything after it.
fn lex_token(src: &[u8], i: usize, kind: TokenKind, end: usize) -> (r: Result<Vec<Token>, Span>)
    requires
        i < end <= src@.len(),
    ensures
        match r {
            Ok(toks) => Some(toks@) == with_token(
                kind,
                i as int,
                end as int,
                lex_from(src@, end as int),
            ),
            Err(sp) => lex_from(src@, end as int) is None && sp.wf(src@.len()),
        },
    decreases src@.len() - i, 0int,
{
    match lex_rec(src, end) {
        Ok(mut toks) => {
            let tok = Token { kind, span: Span::new(i, end) };
            let ghost pre = toks@;
            toks.insert(0, tok);
            proof {
                assert(toks@ =~= seq![tok] + pre);
            }
            Ok(toks)
        },
        Err(sp) => Err(sp),
    }
}

/// The recursive mirror of [`lex_from`].
fn lex_rec(src: &[u8], i: usize) -> (r: Result<Vec<Token>, Span>)
    requires
        i <= src@.len(),
    ensures
        match r {
            Ok(toks) => Some(toks@) == lex_from(src@, i as int),
            Err(sp) => lex_from(src@, i as int) is None && sp.wf(src@.len()),
        },
    decreases src@.len() - i, 1int,
{
    if i >= src.len() {
        let toks: Vec<Token> = Vec::new();
        proof {
            assert(toks@ =~= Seq::<Token>::empty());
        }
        return Ok(toks);
    }
    let b = *vstd::slice::slice_index_get(src, i);
    if is_ws_b(b) {
        assert(lex_from(src@, i as int) == lex_from(src@, i as int + 1));
        lex_rec(src, i + 1)
    } else if b == LPAREN {
        lex_token(src, i, TokenKind::LParen, i + 1)
    } else if b == RPAREN {
        lex_token(src, i, TokenKind::RParen, i + 1)
    } else if b == COMMA {
        lex_token(src, i, TokenKind::Comma, i + 1)
    } else if b == DOT {
        lex_token(src, i, TokenKind::Dot, i + 1)
    } else if b == QUOTE {
        match scan_quote(src, i + 1) {
            None => Err(Span::new(i, src.len())),
            Some(j) => lex_token(src, i, TokenKind::Ident, j + 1),
        }
    } else if is_digit_b(b) {
        let j = scan_digits(src, i + 1);
        lex_token(src, i, TokenKind::Num, j)
    } else if is_word_start_b(b) {
        let j = scan_word(src, i + 1);
        let kind = classify_token(src, i, j);
        lex_token(src, i, kind, j)
    } else {
        Err(Span::new(i, i + 1))
    }
}

/// Scans the whole source. On success the result is exactly the token
/// sequence of the model; on failure the span locates the offending byte, or
/// the unterminated quoted identifier.
pub fn lex(src: &[u8]) -> (r: Result<Vec<Token>, Span>)
    ensures
        match r {
            Ok(toks) => Some(toks@) == lex_from(src@, 0),
            Err(sp) => lex_from(src@, 0) is None && sp.wf(src@.len()),
        },
{
    lex_rec(src, 0)
}

} // verus!
