//! The library-wide laws: what holds of parsing and rendering as a pair,
//! stated over the same models the function contracts use.

use crate::ast::{ident_bytes, is_digit, ColumnDef, DataType, Span, StmtView, TableName};
use crate::code_gen_ts::{column_bytes, columns_bytes, columns_rest_bytes, render_bytes,
    ts_type_bytes};
use crate::lexer::{classify_word, is_word_char, is_word_start, is_ws, lemma_num_end_bounds,
    lemma_num_end_is, lemma_quote_end_bounds, lemma_quote_end_is, lemma_word_end_bounds,
    lemma_word_end_is, lex_from, num_end, quote_end, with_token, word_end, Token, TokenKind,
    COMMA, DOT, LPAREN, QUOTE, RPAREN};
use crate::parser::{lemma_lex_toks_wf, parse_col, parse_cols, parse_data_type, parse_name,
    parse_spec, parse_toks, tok_bytes, tok_ok};
use vstd::prelude::*;
use vstd::string::StringSliceAdditionalSpecFns;
use vstd::utf8::is_ascii_chars;

verus! {

/// Parsing and rendering are deterministic: a source text denotes at most one
/// statement, and that statement renders to one byte sequence. Identical
/// input therefore yields byte-identical output.
pub proof fn lemma_parse_render_deterministic(s: Seq<u8>, a: StmtView, b: StmtView)
    requires
        parse_spec(s) == Some(a),
        parse_spec(s) == Some(b),
    ensures
        a == b,
        render_bytes(a, s) == render_bytes(b, s),
{
}

proof fn lemma_rest_order(s: Seq<u8>, cols: Seq<ColumnDef>, n: int)
    requires
        0 <= n < cols.len(),
    ensures
        columns_rest_bytes(s, cols) == columns_rest_bytes(s, cols.take(n)) + ",".spec_bytes()
            + column_bytes(s, cols[n]) + columns_rest_bytes(s, cols.skip(n + 1)),
    decreases n,
{
    if n == 0 {
        assert(cols.take(0) =~= Seq::<ColumnDef>::empty());
        assert(columns_rest_bytes(s, cols.take(0)) =~= Seq::<u8>::empty());
        assert(cols.skip(1) =~= cols.drop_first());
        assert(columns_rest_bytes(s, cols) =~= columns_rest_bytes(s, cols.take(0))
            + ",".spec_bytes() + column_bytes(s, cols[0]) + columns_rest_bytes(s, cols.skip(1)));
    } else {
        let rest = cols.drop_first();
        lemma_rest_order(s, rest, n - 1);
        assert(rest.take(n - 1) =~= cols.take(n).drop_first());
        assert(rest[n - 1] == cols[n]);
        assert(rest.skip(n) =~= cols.skip(n + 1));
        assert(cols.take(n)[0] == cols[0]);
        assert(columns_rest_bytes(s, cols.take(n)) =~= ",".spec_bytes() + column_bytes(
            s,
            cols[0],
        ) + columns_rest_bytes(s, cols.take(n).drop_first()));
        assert(columns_rest_bytes(s, cols) =~= columns_rest_bytes(s, cols.take(n))
            + ",".spec_bytes() + column_bytes(s, cols[n]) + columns_rest_bytes(
            s,
            cols.skip(n + 1),
        ));
    }
}

/// Column order is preserved end to end: in the rendered column list, the
/// bytes of the `n`th column stand exactly after the bytes of the first `n`
/// columns — and before those of the columns after it — separated by the
/// comma that the position calls for.
pub proof fn lemma_column_order(s: Seq<u8>, cols: Seq<ColumnDef>, n: int)
    requires
        0 <= n < cols.len(),
    ensures
        columns_bytes(s, cols) == columns_bytes(s, cols.take(n)) + (if n == 0 {
            Seq::<u8>::empty()
        } else {
            ",".spec_bytes()
        }) + column_bytes(s, cols[n]) + columns_rest_bytes(s, cols.skip(n + 1)),
{
    if n == 0 {
        assert(cols.take(0) =~= Seq::<ColumnDef>::empty());
        assert(columns_bytes(s, cols.take(0)) =~= Seq::<u8>::empty());
        assert(cols.skip(1) =~= cols.drop_first());
        assert(columns_bytes(s, cols) =~= columns_bytes(s, cols.take(0)) + Seq::<u8>::empty()
            + column_bytes(s, cols[0]) + columns_rest_bytes(s, cols.skip(1)));
    } else {
        let rest = cols.drop_first();
        lemma_rest_order(s, rest, n - 1);
        assert(rest.take(n - 1) =~= cols.take(n).drop_first());
        assert(rest[n - 1] == cols[n]);
        assert(rest.skip(n) =~= cols.skip(n + 1));
        assert(cols.take(n)[0] == cols[0]);
        assert(columns_bytes(s, cols.take(n)) =~= column_bytes(s, cols[0]) + columns_rest_bytes(
            s,
            cols.take(n).drop_first(),
        ));
        assert(columns_bytes(s, cols) =~= columns_bytes(s, cols.take(n)) + ",".spec_bytes()
            + column_bytes(s, cols[n]) + columns_rest_bytes(s, cols.skip(n + 1)));
    }
}

/// The data-type mapping is total: every variant renders to exactly `number`
/// or exactly `string` — six bytes either way, never an empty token. The
/// numeric kinds map to `number`, everything else to `string`.
pub proof fn lemma_data_type_total(dt: DataType)
    ensures
        dt == DataType::TinyInt || dt == DataType::SmallInt || dt == DataType::Int || dt
            == DataType::Double ==> ts_type_bytes(dt) == "number".spec_bytes(),
        !(dt == DataType::TinyInt || dt == DataType::SmallInt || dt == DataType::Int || dt
            == DataType::Double) ==> ts_type_bytes(dt) == "string".spec_bytes(),
        ts_type_bytes(dt) == "number".spec_bytes() || ts_type_bytes(dt) == "string".spec_bytes(),
        ts_type_bytes(dt).len() == 6,
{
    reveal_strlit("number");
    reveal_strlit("string");
    assert(is_ascii_chars("number"@));
    assert(is_ascii_chars("string"@));
    vstd::utf8::is_ascii_chars_encode_utf8("number"@);
    vstd::utf8::is_ascii_chars_encode_utf8("string"@);
}

/// A schema qualifier is accepted but never leaks into the output: a
/// statement qualified by any schema renders byte-identically to the same
/// statement with the bare name.
pub proof fn lemma_schema_never_leaks(s: Seq<u8>, v: StmtView)
    requires
        v.name is SchemaWithName,
    ensures
        render_bytes(v, s) == render_bytes(
            StmtView { name: TableName::Name(v.name.name_ident()), columns: v.columns },
            s,
        ),
{
}

/// Identifiers reach the output verbatim: the rendered statement is exactly
/// the fixed framing around the unaltered source bytes of the table name —
/// quotes, case and punctuation included, no escaping or sanitization — and
/// the column list.
pub proof fn lemma_name_verbatim(s: Seq<u8>, v: StmtView)
    ensures
        render_bytes(v, s) == "// generated from table `".spec_bytes() + ident_bytes(
            s,
            v.name.name_ident(),
        ) + "`\ntype ".spec_bytes() + ident_bytes(s, v.name.name_ident()) + " = {".spec_bytes()
            + columns_bytes(s, v.columns) + "\n};\n".spec_bytes(),
{
}

/// Two token sequences match when they agree kind for kind and each token
/// spans the same bytes of its own source.
pub open spec fn tokens_match(s1: Seq<u8>, t1: Seq<Token>, s2: Seq<u8>, t2: Seq<Token>) -> bool {
    t1.len() == t2.len() && forall|i: int|
        #![trigger t1[i]]
        #![trigger t2[i]]
        0 <= i < t1.len() ==> t1[i].kind == t2[i].kind && tok_bytes(s1, t1[i]) == tok_bytes(
            s2,
            t2[i],
        )
}

/// Two columns match when their data types are equal and their names resolve
/// to the same bytes against their own sources.
pub open spec fn col_matches(s1: Seq<u8>, c1: ColumnDef, s2: Seq<u8>, c2: ColumnDef) -> bool {
    c1.data_type == c2.data_type && ident_bytes(s1, c1.name) == ident_bytes(s2, c2.name)
}

pub open spec fn cols_match(
    s1: Seq<u8>,
    cs1: Seq<ColumnDef>,
    s2: Seq<u8>,
    cs2: Seq<ColumnDef>,
) -> bool {
    cs1.len() == cs2.len() && forall|i: int|
        #![trigger cs1[i]]
        #![trigger cs2[i]]
        0 <= i < cs1.len() ==> col_matches(s1, cs1[i], s2, cs2[i])
}

proof fn lemma_dt_match(s1: Seq<u8>, t1: Seq<Token>, s2: Seq<u8>, t2: Seq<Token>, q: int)
    requires
        tokens_match(s1, t1, s2, t2),
    ensures
        parse_data_type(s1, t1, q) == parse_data_type(s2, t2, q),
{
    if 0 <= q < t1.len() {
        assert(t1[q].kind == t2[q].kind);
        if t1[q].kind == TokenKind::VarChar && q + 3 < t1.len() {
            assert(t1[q + 1].kind == t2[q + 1].kind);
            assert(t1[q + 2].kind == t2[q + 2].kind);
            assert(t1[q + 3].kind == t2[q + 3].kind);
            assert(tok_bytes(s1, t1[q + 2]) == tok_bytes(s2, t2[q + 2]));
        }
    }
}

proof fn lemma_col_match(s1: Seq<u8>, t1: Seq<Token>, s2: Seq<u8>, t2: Seq<Token>, q: int)
    requires
        tokens_match(s1, t1, s2, t2),
    ensures
        match (parse_col(s1, t1, q), parse_col(s2, t2, q)) {
            (Some((c1, r1)), Some((c2, r2))) => r1 == r2 && col_matches(s1, c1, s2, c2),
            (None, None) => true,
            _ => false,
        },
{
    lemma_dt_match(s1, t1, s2, t2, q + 1);
    if 0 <= q < t1.len() {
        assert(t1[q].kind == t2[q].kind);
        assert(tok_bytes(s1, t1[q]) == tok_bytes(s2, t2[q]));
    }
}

proof fn lemma_cols_match_rec(s1: Seq<u8>, t1: Seq<Token>, s2: Seq<u8>, t2: Seq<Token>, q: int)
    requires
        tokens_match(s1, t1, s2, t2),
        0 <= q <= t1.len(),
    ensures
        match (parse_cols(s1, t1, q), parse_cols(s2, t2, q)) {
            (Some((cs1, e1)), Some((cs2, e2))) => e1 == e2 && cols_match(s1, cs1, s2, cs2),
            (None, None) => true,
            _ => false,
        },
    decreases t1.len() - q,
{
    lemma_col_match(s1, t1, s2, t2, q);
    match (parse_col(s1, t1, q), parse_col(s2, t2, q)) {
        (Some((c1, r)), Some((c2, _))) => {
            if r < t1.len() && t1[r].kind == TokenKind::Comma {
                assert(t1[r].kind == t2[r].kind);
                lemma_cols_match_rec(s1, t1, s2, t2, r + 1);
                match (parse_cols(s1, t1, r + 1), parse_cols(s2, t2, r + 1)) {
                    (Some((rest1, _)), Some((rest2, _))) => {
                        let cs1 = seq![c1] + rest1;
                        let cs2 = seq![c2] + rest2;
                        assert forall|i: int| 0 <= i < cs1.len() implies col_matches(
                            s1,
                            #[trigger] cs1[i],
                            s2,
                            #[trigger] cs2[i],
                        ) by {
                            if i == 0 {
                                assert(cs1[0] == c1);
                                assert(cs2[0] == c2);
                            } else {
                                assert(cs1[i] == rest1[i - 1]);
                                assert(cs2[i] == rest2[i - 1]);
                            }
                        }
                    },
                    _ => {},
                }
            } else {
                assert(r < t1.len() ==> t1[r].kind == t2[r].kind);
                let cs1 = seq![c1];
                let cs2 = seq![c2];
                assert(cs1[0] == c1 && cs2[0] == c2);
                assert(cols_match(s1, cs1, s2, cs2));
            }
        },
        _ => {},
    }
}

proof fn lemma_name_match(s1: Seq<u8>, t1: Seq<Token>, s2: Seq<u8>, t2: Seq<Token>)
    requires
        tokens_match(s1, t1, s2, t2),
    ensures
        match (parse_name(t1), parse_name(t2)) {
            (Some((n1, p1)), Some((n2, p2))) => p1 == p2 && ident_bytes(s1, n1.name_ident())
                == ident_bytes(s2, n2.name_ident()),
            (None, None) => true,
            _ => false,
        },
{
    if t1.len() > 2 {
        assert(t1[2].kind == t2[2].kind);
        assert(tok_bytes(s1, t1[2]) == tok_bytes(s2, t2[2]));
        if t1.len() > 3 {
            assert(t1[3].kind == t2[3].kind);
            if t1.len() > 4 {
                assert(t1[4].kind == t2[4].kind);
                assert(tok_bytes(s1, t1[4]) == tok_bytes(s2, t2[4]));
            }
        }
    }
}

proof fn lemma_cols_render_match(s1: Seq<u8>, cs1: Seq<ColumnDef>, s2: Seq<u8>, cs2: Seq<ColumnDef>)
    requires
        cols_match(s1, cs1, s2, cs2),
    ensures
        columns_bytes(s1, cs1) == columns_bytes(s2, cs2),
        columns_rest_bytes(s1, cs1) == columns_rest_bytes(s2, cs2),
    decreases cs1.len(),
{
    if cs1.len() == 0 {
    } else {
        assert(col_matches(s1, cs1[0], s2, cs2[0]));
        assert(column_bytes(s1, cs1[0]) == column_bytes(s2, cs2[0]));
        let r1 = cs1.drop_first();
        let r2 = cs2.drop_first();
        assert forall|i: int| 0 <= i < r1.len() implies col_matches(
            s1,
            #[trigger] r1[i],
            s2,
            #[trigger] r2[i],
        ) by {
            assert(r1[i] == cs1[i + 1]);
            assert(r2[i] == cs2[i + 1]);
        }
        lemma_cols_render_match(s1, r1, s2, r2);
    }
}

/// Whitespace insensitivity. Any two sources whose token sequences match —
/// same kinds, same token bytes — parse alike: both are rejected, or both
/// are accepted and render to byte-identical output. That re-spacing a
/// statement produces matching token sequences is itself proved:
/// [`lemma_ws_insertion_matches`] shows one whitespace insertion at a token
/// boundary keeps the sequences matched, and matching is transitive, so any
/// amount of whitespace added or removed between tokens leads back here.
pub proof fn lemma_whitespace_insensitive(s1: Seq<u8>, s2: Seq<u8>)
    requires
        lex_from(s1, 0) is Some,
        lex_from(s2, 0) is Some,
        tokens_match(s1, lex_from(s1, 0).unwrap(), s2, lex_from(s2, 0).unwrap()),
    ensures
        match (parse_spec(s1), parse_spec(s2)) {
            (Some(a), Some(b)) => render_bytes(a, s1) == render_bytes(b, s2),
            (None, None) => true,
            _ => false,
        },
{
    let t1 = lex_from(s1, 0).unwrap();
    let t2 = lex_from(s2, 0).unwrap();
    if t1.len() >= 2 {
        assert(t1[0].kind == t2[0].kind);
        assert(t1[1].kind == t2[1].kind);
    }
    lemma_name_match(s1, t1, s2, t2);
    match (parse_name(t1), parse_name(t2)) {
        (Some((n1, p)), Some((n2, _))) => {
            if p < t1.len() {
                assert(t1[p].kind == t2[p].kind);
            }
            if 0 <= p + 1 <= t1.len() {
                lemma_cols_match_rec(s1, t1, s2, t2, p + 1);
                match (parse_cols(s1, t1, p + 1), parse_cols(s2, t2, p + 1)) {
                    (Some((cs1, e)), Some((cs2, _))) => {
                        if 0 <= e < t1.len() {
                            assert(t1[e].kind == t2[e].kind);
                        }
                        lemma_cols_render_match(s1, cs1, s2, cs2);
                    },
                    _ => {},
                }
            }
        },
        _ => {},
    }
}

/// The token with its span moved by `d` bytes.
spec fn tok_shifted(t: Token, d: int) -> Token {
    Token {
        kind: t.kind,
        span: Span { start: (t.span.start + d) as usize, end: (t.span.end + d) as usize },
    }
}

spec fn shift_tokens(t: Seq<Token>, d: int) -> Seq<Token> {
    t.map_values(|tok: Token| tok_shifted(tok, d))
}

/// From byte `lo` on, `s2` is `s1` moved right by `d` bytes.
spec fn tails_agree(s1: Seq<u8>, s2: Seq<u8>, d: int, lo: int) -> bool {
    s2.len() == s1.len() + d && forall|j: int| lo <= j < s1.len() ==> #[trigger] s1[j] == s2[j + d]
}

proof fn lemma_num_end_shift(s1: Seq<u8>, s2: Seq<u8>, d: int, lo: int, j: int)
    requires
        tails_agree(s1, s2, d, lo),
        0 <= lo,
        0 <= lo + d,
        lo <= j <= s1.len(),
    ensures
        num_end(s2, j + d) == num_end(s1, j) + d,
    decreases s1.len() - j,
{
    if j < s1.len() {
        assert(s1[j] == s2[j + d]);
        if is_digit(s1[j]) {
            lemma_num_end_shift(s1, s2, d, lo, j + 1);
        }
    }
}

proof fn lemma_word_end_shift(s1: Seq<u8>, s2: Seq<u8>, d: int, lo: int, j: int)
    requires
        tails_agree(s1, s2, d, lo),
        0 <= lo,
        0 <= lo + d,
        lo <= j <= s1.len(),
    ensures
        word_end(s2, j + d) == word_end(s1, j) + d,
    decreases s1.len() - j,
{
    if j < s1.len() {
        assert(s1[j] == s2[j + d]);
        if is_word_char(s1[j]) {
            lemma_word_end_shift(s1, s2, d, lo, j + 1);
        }
    }
}

proof fn lemma_quote_end_shift(s1: Seq<u8>, s2: Seq<u8>, d: int, lo: int, j: int)
    requires
        tails_agree(s1, s2, d, lo),
        0 <= lo,
        0 <= lo + d,
        lo <= j <= s1.len(),
    ensures
        quote_end(s2, j + d) == match quote_end(s1, j) {
            None => None::<int>,
            Some(x) => Some(x + d),
        },
    decreases s1.len() - j,
{
    if j < s1.len() {
        assert(s1[j] == s2[j + d]);
        if s1[j] != QUOTE {
            lemma_quote_end_shift(s1, s2, d, lo, j + 1);
        }
    }
}

/// Scanning `s2` from `i + d` sees exactly the tokens of `s1` from `i`, each
/// moved right by `d` bytes.
proof fn lemma_lex_shift(s1: Seq<u8>, s2: Seq<u8>, d: int, lo: int, i: int)
    requires
        tails_agree(s1, s2, d, lo),
        0 <= lo,
        0 <= lo + d,
        lo <= i <= s1.len(),
        s1.len() <= usize::MAX,
        s2.len() <= usize::MAX,
    ensures
        match lex_from(s1, i) {
            None => lex_from(s2, i + d) is None,
            Some(t) => lex_from(s2, i + d) == Some(shift_tokens(t, d)),
        },
    decreases s1.len() - i,
{
    if i >= s1.len() {
        assert(lex_from(s2, i + d) == Some(Seq::<Token>::empty()));
        assert(shift_tokens(Seq::<Token>::empty(), d) =~= Seq::<Token>::empty());
    } else {
        assert(s1[i] == s2[i + d]);
        let b = s1[i];
        if is_ws(b) {
            lemma_lex_shift(s1, s2, d, lo, i + 1);
            assert(lex_from(s1, i) == lex_from(s1, i + 1));
            assert(lex_from(s2, i + d) == lex_from(s2, i + 1 + d));
        } else if b == LPAREN || b == RPAREN || b == COMMA || b == DOT {
            lemma_lex_shift(s1, s2, d, lo, i + 1);
            lemma_shift_cons(s1, s2, d, i, i + 1);
        } else if b == QUOTE {
            lemma_quote_end_shift(s1, s2, d, lo, i + 1);
            lemma_quote_end_bounds(s1, i + 1);
            match quote_end(s1, i + 1) {
                None => {},
                Some(j) => {
                    lemma_lex_shift(s1, s2, d, lo, j + 1);
                    lemma_shift_cons(s1, s2, d, i, j + 1);
                },
            }
        } else if is_digit(b) {
            lemma_num_end_shift(s1, s2, d, lo, i + 1);
            lemma_num_end_bounds(s1, i + 1);
            let j = num_end(s1, i + 1);
            lemma_lex_shift(s1, s2, d, lo, j);
            lemma_shift_cons(s1, s2, d, i, j);
        } else if is_word_start(b) {
            lemma_word_end_shift(s1, s2, d, lo, i + 1);
            lemma_word_end_bounds(s1, i + 1);
            let j = word_end(s1, i + 1);
            assert(s1.subrange(i, j) =~= s2.subrange(i + d, j + d));
            lemma_lex_shift(s1, s2, d, lo, j);
            lemma_shift_cons(s1, s2, d, i, j);
        } else {
        }
    }
}

/// Prepending the token `[a, b)` commutes with the shift.
proof fn lemma_shift_cons(s1: Seq<u8>, s2: Seq<u8>, d: int, a: int, b: int)
    requires
        0 <= a < b <= s1.len(),
        s1.len() <= usize::MAX,
        s1.len() + d <= usize::MAX,
        0 <= a + d,
    ensures
        forall|k: TokenKind, rest: Seq<Token>|
            #![trigger with_token(k, a, b, Some(rest))]
            with_token(k, a + d, b + d, Some(shift_tokens(rest, d))) == Some(
                shift_tokens(with_token(k, a, b, Some(rest)).unwrap(), d),
            ),
{
    assert forall|k: TokenKind, rest: Seq<Token>|
        #![trigger with_token(k, a, b, Some(rest))]
        with_token(k, a + d, b + d, Some(shift_tokens(rest, d))) == Some(
            shift_tokens(with_token(k, a, b, Some(rest)).unwrap(), d),
        ) by {
        let tok = Token { kind: k, span: Span { start: a as usize, end: b as usize } };
        let lhs = with_token(k, a + d, b + d, Some(shift_tokens(rest, d))).unwrap();
        let rhs = shift_tokens(seq![tok] + rest, d);
        assert forall|x: int| 0 <= x < lhs.len() implies lhs[x] == rhs[x] by {
            if x == 0 {
                assert((seq![tok] + rest)[0] == tok);
            } else {
                assert((seq![tok] + rest)[x] == rest[x - 1]);
            }
        }
        assert(lhs =~= rhs);
    }
}

/// Every token the scanner emits from position `i` on starts at or after `i`.
proof fn lemma_lex_token_starts(s: Seq<u8>, i: int)
    requires
        0 <= i <= s.len(),
        s.len() <= usize::MAX,
        lex_from(s, i) is Some,
    ensures
        forall|k: int|
            0 <= k < lex_from(s, i).unwrap().len() ==> (#[trigger] lex_from(
                s,
                i,
            ).unwrap()[k]).span.start >= i,
    decreases s.len() - i,
{
    if i >= s.len() {
    } else if is_ws(s[i]) {
        lemma_lex_token_starts(s, i + 1);
        assert forall|k: int| 0 <= k < lex_from(s, i).unwrap().len() implies (#[trigger] lex_from(
            s,
            i,
        ).unwrap()[k]).span.start >= i by {
            assert(lex_from(s, i).unwrap()[k] == lex_from(s, i + 1).unwrap()[k]);
        }
    } else {
        let (e, rest_at) = if s[i] == LPAREN || s[i] == RPAREN || s[i] == COMMA || s[i] == DOT {
            (i + 1, i + 1)
        } else if s[i] == QUOTE {
            lemma_quote_end_bounds(s, i + 1);
            let j = quote_end(s, i + 1).unwrap();
            (j + 1, j + 1)
        } else if is_digit(s[i]) {
            lemma_num_end_bounds(s, i + 1);
            (num_end(s, i + 1), num_end(s, i + 1))
        } else {
            lemma_word_end_bounds(s, i + 1);
            (word_end(s, i + 1), word_end(s, i + 1))
        };
        lemma_lex_token_starts(s, rest_at);
        let t = lex_from(s, i).unwrap();
        let rest = lex_from(s, rest_at).unwrap();
        assert forall|k: int| 0 <= k < t.len() implies (#[trigger] t[k]).span.start >= i by {
            if k == 0 {
            } else {
                assert(t[k] == rest[k - 1]);
            }
        }
    }
}

/// `p` falls strictly inside no token of `s` scanned from `i`: it lies
/// before all tokens, after all of them, or between two.
pub open spec fn boundary_from(s: Seq<u8>, i: int, p: int) -> bool
    recommends
        lex_from(s, i) is Some,
{
    forall|k: int|
        0 <= k < lex_from(s, i).unwrap().len() ==> !((#[trigger] lex_from(
            s,
            i,
        ).unwrap()[k]).span.start < p && p < lex_from(s, i).unwrap()[k].span.end)
}

/// `p` is a token boundary of the whole source `s`.
pub open spec fn at_token_boundary(s: Seq<u8>, p: int) -> bool
    recommends
        lex_from(s, 0) is Some,
{
    boundary_from(s, 0, p)
}

proof fn lemma_ws_insert_rec(s: Seq<u8>, p: int, w: u8, i: int)
    requires
        is_ws(w),
        s.len() < usize::MAX,
        0 <= i <= p <= s.len(),
        lex_from(s, i) is Some,
        boundary_from(s, i, p),
    ensures
        lex_from(s.insert(p, w), i) is Some,
        ({
            let t1 = lex_from(s, i).unwrap();
            let t2 = lex_from(s.insert(p, w), i).unwrap();
            t1.len() == t2.len() && forall|k: int|
                #![trigger t1[k]]
                #![trigger t2[k]]
                0 <= k < t1.len() ==> t1[k].kind == t2[k].kind && tok_bytes(s, t1[k]) == tok_bytes(
                    s.insert(p, w),
                    t2[k],
                )
        }),
    decreases p - i,
{
    let s2 = s.insert(p, w);
    s.insert_ensures(p, w);
    let t1 = lex_from(s, i).unwrap();
    if i == p {
        assert(s2[p] == w);
        assert(tails_agree(s, s2, 1, p)) by {
            assert forall|j: int| p <= j < s.len() implies s[j] == s2[j + 1] by {
                assert(s2[j + 1] == s[j]);
            }
        }
        lemma_lex_shift(s, s2, 1, p, p);
        assert(lex_from(s2, p) == lex_from(s2, p + 1));
        let t2 = shift_tokens(t1, 1);
        lemma_lex_token_starts(s, p);
        lemma_lex_toks_wf(s, p);
        assert forall|k: int|
            #![trigger t1[k]]
            #![trigger t2[k]]
            0 <= k < t1.len() implies t1[k].kind == t2[k].kind && tok_bytes(s, t1[k]) == tok_bytes(
            s2,
            t2[k],
        ) by {
            assert(t2[k] == tok_shifted(t1[k], 1));
            assert(tok_ok(s, t1[k]));
            let a = t1[k].span.start as int;
            let b = t1[k].span.end as int;
            assert(a >= p);
            assert forall|x: int| a <= x < b implies s[x] == s2[x + 1] by {
                assert(s2[x + 1] == s[x]);
            }
            assert(tok_bytes(s, t1[k]) =~= tok_bytes(s2, t2[k]));
        }
    } else {
        // i < p: the head of the scan is untouched by the insertion.
        let b0 = s[i];
        assert(s2[i] == s[i]);
        if is_ws(b0) {
            assert(lex_from(s, i) == lex_from(s, i + 1));
            assert(lex_from(s2, i) == lex_from(s2, i + 1));
            assert(boundary_from(s, i + 1, p));
            lemma_ws_insert_rec(s, p, w, i + 1);
        } else {
            // One token [i, e) with e <= p, then the rest.
            let (kind, e) = if b0 == LPAREN {
                (TokenKind::LParen, i + 1)
            } else if b0 == RPAREN {
                (TokenKind::RParen, i + 1)
            } else if b0 == COMMA {
                (TokenKind::Comma, i + 1)
            } else if b0 == DOT {
                (TokenKind::Dot, i + 1)
            } else if b0 == QUOTE {
                lemma_quote_end_bounds(s, i + 1);
                let j = quote_end(s, i + 1).unwrap();
                (TokenKind::Ident, j + 1)
            } else if is_digit(b0) {
                lemma_num_end_bounds(s, i + 1);
                (TokenKind::Num, num_end(s, i + 1))
            } else {
                lemma_word_end_bounds(s, i + 1);
                (classify_word(s.subrange(i, word_end(s, i + 1))), word_end(s, i + 1))
            };
            assert(t1[0].span.start == i && t1[0].span.end == e);
            assert(e <= p) by {
                assert(!(t1[0].span.start < p && p < t1[0].span.end));
            }
            assert forall|x: int| i <= x < e implies s2[x] == s[x] by {}
            // The head token scans identically in the inserted source.
            if b0 == QUOTE {
                let j = quote_end(s, i + 1).unwrap();
                lemma_quote_end_is(s2, i + 1, j);
            } else if is_digit(b0) {
                let e1 = num_end(s, i + 1);
                if e1 == p {
                    assert(!is_digit(s2[e1]));
                } else {
                    assert(e1 < p);
                    assert(s2[e1] == s[e1]);
                }
                lemma_num_end_is(s2, i + 1, e1);
            } else if is_word_start(b0) {
                let e1 = word_end(s, i + 1);
                if e1 == p {
                    assert(!is_word_char(s2[e1]));
                } else {
                    assert(e1 < p);
                    assert(s2[e1] == s[e1]);
                }
                lemma_word_end_is(s2, i + 1, e1);
                assert(s.subrange(i, e1) =~= s2.subrange(i, e1));
            }
            let rest1 = lex_from(s, e).unwrap();
            assert(boundary_from(s, e, p)) by {
                assert forall|k: int|
                    0 <= k < rest1.len() implies !((#[trigger] rest1[k]).span.start < p
                    && p < rest1[k].span.end) by {
                    assert(t1[k + 1] == rest1[k]);
                }
            }
            lemma_ws_insert_rec(s, p, w, e);
            let rest2 = lex_from(s2, e).unwrap();
            let t2 = lex_from(s2, i).unwrap();
            assert(t2 =~= seq![t1[0]] + rest2);
            assert forall|k: int|
                #![trigger t1[k]]
                #![trigger t2[k]]
                0 <= k < t1.len() implies t1[k].kind == t2[k].kind && tok_bytes(s, t1[k])
                == tok_bytes(s2, t2[k]) by {
                if k == 0 {
                    assert(t2[0] == t1[0]);
                    assert(tok_bytes(s, t1[0]) =~= tok_bytes(s2, t1[0]));
                } else {
                    assert(t1[k] == rest1[k - 1]);
                    assert(t2[k] == rest2[k - 1]);
                }
            }
        }
    }
}

/// The step `lemma_whitespace_insensitive` leaves open, closed: inserting
/// one whitespace byte at any token boundary — before the statement, after
/// it, or between two tokens — leaves the token sequence matched: same kinds,
/// same token bytes, whatever the spans' new offsets. Chained with that law,
/// re-spacing a statement this way never changes whether it parses, nor the
/// bytes it renders to.
pub proof fn lemma_ws_insertion_matches(s: Seq<u8>, p: int, w: u8)
    requires
        is_ws(w),
        s.len() < usize::MAX,
        0 <= p <= s.len(),
        lex_from(s, 0) is Some,
        at_token_boundary(s, p),
    ensures
        lex_from(s.insert(p, w), 0) is Some,
        tokens_match(s, lex_from(s, 0).unwrap(), s.insert(p, w), lex_from(s.insert(p, w), 0).unwrap()),
{
    lemma_ws_insert_rec(s, p, w, 0);
}

} // verus!
