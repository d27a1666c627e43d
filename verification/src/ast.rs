//! Immutable value types for the recognized `CREATE TABLE` statement.
//!
//! Identifiers are byte-offset spans into the original source buffer, so the
//! original spelling (quotes and case included) round-trips exactly. The
//! mathematical model of a statement is [`StmtView`]: the table name together
//! with the column sequence in source order.

use vstd::prelude::*;
use vstd::string::StringSliceAdditionalSpecFns;

verus! {

/// A half-open byte range `[start, end)` into the source text.
#[derive(Clone, Copy, PartialEq, Eq, Structural, Debug)]
pub struct Span {
    pub start: usize,
    pub end: usize,
}

impl Span {
    /// The span lies within a buffer of `n` bytes.
    pub open spec fn wf(self, n: nat) -> bool {
        self.start <= self.end <= n
    }

    pub fn new(start: usize, end: usize) -> (s: Span)
        ensures
            s == (Span { start, end }),
    {
        Span { start, end }
    }
}

/// One identifier token of the source, quotes included if it was quoted.
#[derive(Clone, Copy, PartialEq, Eq, Structural, Debug)]
pub struct Ident {
    pub span: Span,
}

impl Ident {
    pub fn new(span: Span) -> (i: Ident)
        ensures
            i == (Ident { span }),
    {
        Ident { span }
    }
}

/// An identifier spanning a whole string: the span `[0, len)` in bytes.
impl From<&str> for Ident {
    fn from(s: &str) -> (r: Ident) {
        Ident::new(Span::new(0, s.len()))
    }
}

impl vstd::std_specs::convert::FromSpecImpl<&str> for Ident {
    open spec fn obeys_from_spec() -> bool {
        true
    }

    open spec fn from_spec(s: &str) -> Ident {
        Ident { span: Span { start: 0, end: s.spec_bytes().len() as usize } }
    }
}

/// The bytes an identifier stands for: its span resolved against the source.
pub open spec fn ident_bytes(src: Seq<u8>, id: Ident) -> Seq<u8> {
    src.subrange(id.span.start as int, id.span.end as int)
}

/// Resolves an identifier against the source buffer, quotes and case kept.
pub fn ident_text(src: &[u8], id: &Ident) -> (r: Vec<u8>)
    requires
        id.span.wf(src@.len()),
    ensures
        r@ == ident_bytes(src@, *id),
{
    vstd::slice::slice_to_vec(vstd::slice::slice_subrange(src, id.span.start, id.span.end))
}

/// A table name, either bare or qualified by a schema.
#[derive(Clone, Copy, PartialEq, Eq, Structural, Debug)]
pub enum TableName {
    Name(Ident),
    SchemaWithName(Ident, Ident),
}

impl TableName {
    /// The name component: the schema, if any, is never part of the output.
    pub open spec fn name_ident(self) -> Ident {
        match self {
            TableName::Name(n) => n,
            TableName::SchemaWithName(_, n) => n,
        }
    }

    pub open spec fn wf(self, n: nat) -> bool {
        match self {
            TableName::Name(id) => id.span.wf(n),
            TableName::SchemaWithName(schema, id) => schema.span.wf(n) && id.span.wf(n),
        }
    }
}

/// The non-negative length parameter of `VARCHAR`.
#[derive(Clone, Copy, PartialEq, Eq, Structural, Debug)]
pub struct Len(pub usize);

/// An ASCII decimal digit.
pub open spec fn is_digit(b: u8) -> bool {
    48 <= b <= 57
}

/// The value of a big-endian sequence of ASCII decimal digits.
pub open spec fn digits_val(d: Seq<u8>) -> nat
    decreases d.len(),
{
    if d.len() == 0 {
        0
    } else {
        (digits_val(d.drop_last()) * 10 + (d.last() - 48)) as nat
    }
}

proof fn lemma_digits_val_take_step(d: Seq<u8>, k: int)
    requires
        0 <= k < d.len(),
        is_digit(d[k]),
    ensures
        digits_val(d.take(k + 1)) == digits_val(d.take(k)) * 10 + (d[k] - 48),
{
    assert(d.take(k + 1).drop_last() =~= d.take(k));
    assert(d.take(k + 1).last() == d[k]);
    assert(digits_val(d.take(k)) * 10 >= 0);
}

/// A longer digit string never has a smaller value.
proof fn lemma_digits_val_take_mono(d: Seq<u8>, k: int)
    requires
        0 <= k <= d.len(),
        forall|i: int| 0 <= i < d.len() ==> is_digit(#[trigger] d[i]),
    ensures
        digits_val(d.take(k)) <= digits_val(d),
    decreases d.len() - k,
{
    if k == d.len() {
        assert(d.take(k) =~= d);
    } else {
        lemma_digits_val_take_step(d, k);
        lemma_digits_val_take_mono(d, k + 1);
    }
}

/// A `VARCHAR` length literal that does not denote a representable
/// non-negative integer.
#[derive(Clone, Copy, PartialEq, Eq, Structural, Debug)]
pub struct LengthParseError {
    pub span: Span,
}

impl Len {
    /// Interprets a run of ASCII decimal digits as a non-negative integer.
    /// Fails exactly when the value does not fit the machine word; `span`
    /// only locates the literal for the error report.
    pub fn parse_digits(digits: &[u8], span: Span) -> (r: Result<Len, LengthParseError>)
        requires
            forall|i: int| 0 <= i < digits@.len() ==> is_digit(#[trigger] digits@[i]),
        ensures
            match r {
                Ok(l) => digits_val(digits@) <= usize::MAX && l.0 == digits_val(digits@),
                Err(e) => digits_val(digits@) > usize::MAX && e.span == span,
            },
    {
        let mut val: usize = 0;
        let mut i: usize = 0;
        while i < digits.len()
            invariant
                0 <= i <= digits@.len(),
                forall|k: int| 0 <= k < digits@.len() ==> is_digit(#[trigger] digits@[k]),
                val == digits_val(digits@.take(i as int)),
            decreases digits@.len() - i,
        {
            let b = *vstd::slice::slice_index_get(digits, i);
            let d: usize = (b - 48) as usize;
            proof {
                lemma_digits_val_take_step(digits@, i as int);
            }
            if val > (usize::MAX - d) / 10 {
                proof {
                    assert(val * 10 + d > usize::MAX) by (nonlinear_arith)
                        requires
                            val > (usize::MAX - d) / 10,
                            d <= usize::MAX,
                    ;
                    lemma_digits_val_take_mono(digits@, i + 1);
                }
                return Err(LengthParseError { span });
            }
            proof {
                assert(val * 10 + d <= usize::MAX) by (nonlinear_arith)
                    requires
                        val <= (usize::MAX - d) / 10,
                        d <= usize::MAX,
                ;
            }
            val = val * 10 + d;
            i = i + 1;
        }
        proof {
            assert(digits@.take(digits@.len() as int) =~= digits@);
        }
        Ok(Len(val))
    }
}

/// The data type of one column. Open to future variants: renderers fall back
/// to a defined default for a variant they do not know.
#[derive(Clone, Copy, PartialEq, Eq, Structural, Debug)]
#[non_exhaustive]
pub enum DataType {
    Date,
    Time,
    SecondDate,
    TinyInt,
    SmallInt,
    Int,
    Double,
    Text,
    BinText,
    VarChar(Len),
}

/// One column: its name and its data type.
#[derive(Clone, Copy, PartialEq, Eq, Structural, Debug)]
pub struct ColumnDef {
    pub name: Ident,
    pub data_type: DataType,
}

impl ColumnDef {
    pub open spec fn wf(self, n: nat) -> bool {
        self.name.span.wf(n)
    }
}

/// The column list of a table, in source order. May be empty: the data model
/// itself does not reject a table without columns.
#[derive(Debug)]
pub struct TableDef {
    pub columns: Vec<ColumnDef>,
}

impl TableDef {
    pub fn new(columns: Vec<ColumnDef>) -> (t: Self)
        ensures
            t.columns == columns,
    {
        Self { columns }
    }
}

impl View for TableDef {
    type V = Seq<ColumnDef>;

    open spec fn view(&self) -> Seq<ColumnDef> {
        self.columns@
    }
}

fn columns_eq(a: &Vec<ColumnDef>, b: &Vec<ColumnDef>) -> (r: bool)
    ensures
        r == (a@ == b@),
{
    if a.len() != b.len() {
        assert(a@ != b@);
        return false;
    }
    let mut i: usize = 0;
    while i < a.len()
        invariant
            0 <= i <= a@.len(),
            a@.len() == b@.len(),
            forall|k: int| 0 <= k < i ==> a@[k] == b@[k],
        decreases a@.len() - i,
    {
        if *vstd::slice::slice_index_get(a.as_slice(), i)
            != *vstd::slice::slice_index_get(b.as_slice(), i) {
            return false;
        }
        i = i + 1;
    }
    assert(a@ =~= b@);
    true
}

impl PartialEq for TableDef {
    fn eq(&self, other: &TableDef) -> (r: bool) {
        columns_eq(&self.columns, &other.columns)
    }
}

impl vstd::std_specs::cmp::PartialEqSpecImpl for TableDef {
    open spec fn obeys_eq_spec() -> bool {
        true
    }

    open spec fn eq_spec(&self, other: &TableDef) -> bool {
        self.columns@ == other.columns@
    }
}

/// The root node: one successfully parsed `CREATE TABLE` statement.
#[derive(Debug)]
pub struct CreateTableStmt {
    pub name: TableName,
    pub def: TableDef,
}

/// The mathematical model of a statement: the table name and the column
/// sequence in source order.
pub ghost struct StmtView {
    pub name: TableName,
    pub columns: Seq<ColumnDef>,
}

impl View for CreateTableStmt {
    type V = StmtView;

    open spec fn view(&self) -> StmtView {
        StmtView { name: self.name, columns: self.def.columns@ }
    }
}

impl StmtView {
    /// Every span of the statement lies within a source buffer of `n` bytes.
    pub open spec fn wf(self, n: nat) -> bool {
        self.name.wf(n) && forall|i: int|
            0 <= i < self.columns.len() ==> (#[trigger] self.columns[i]).wf(n)
    }
}

impl PartialEq for CreateTableStmt {
    fn eq(&self, other: &CreateTableStmt) -> (r: bool) {
        self.name == other.name && columns_eq(&self.def.columns, &other.def.columns)
    }
}

impl vstd::std_specs::cmp::PartialEqSpecImpl for CreateTableStmt {
    open spec fn obeys_eq_spec() -> bool {
        true
    }

    open spec fn eq_spec(&self, other: &CreateTableStmt) -> bool {
        self.name == other.name && self.def.columns@ == other.def.columns@
    }
}

/// Whether every span of the statement lies within the source buffer; app
/// code can test this before asking for a render.
pub fn stmt_is_wf(stmt: &CreateTableStmt, src: &[u8]) -> (b: bool)
    ensures
        b == stmt@.wf(src@.len()),
{
    let n = src.len();
    let name_ok = match &stmt.name {
        TableName::Name(id) => id.span.start <= id.span.end && id.span.end <= n,
        TableName::SchemaWithName(schema, id) => schema.span.start <= schema.span.end
            && schema.span.end <= n && id.span.start <= id.span.end && id.span.end <= n,
    };
    if !name_ok {
        return false;
    }
    let cols = &stmt.def.columns;
    let mut i: usize = 0;
    while i < cols.len()
        invariant
            0 <= i <= cols@.len(),
            cols@ == stmt.def.columns@,
            n == src@.len(),
            stmt@.name.wf(n as nat),
            forall|k: int| 0 <= k < i ==> (#[trigger] cols@[k]).wf(n as nat),
        decreases cols@.len() - i,
    {
        let c = *vstd::slice::slice_index_get(cols.as_slice(), i);
        if !(c.name.span.start <= c.name.span.end && c.name.span.end <= n) {
            assert(stmt@.columns[i as int] == c);
            assert(!stmt@.wf(src@.len()));
            return false;
        }
        i = i + 1;
    }
    true
}

} // verus!
