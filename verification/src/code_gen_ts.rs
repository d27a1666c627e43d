//! Visitor dispatch and the TypeScript code generator.
//!
//! [`Visitable`] and [`Visitor`] form a double-dispatch protocol: every node
//! accepts any object implementing one visit operation per node kind, so a
//! new renderer needs no change to the tree types. [`TypeScriptGen`] is the
//! shipped renderer; [`render_bytes`] is its model, and [`render`] is proved
//! to produce exactly those bytes.

use crate::ast::{ident_bytes, ColumnDef, CreateTableStmt, DataType, Ident, Len, StmtView,
    TableDef, TableName};
use vstd::prelude::*;
use vstd::string::StringSliceAdditionalSpecFns;

verus! {

/// The TypeScript primitive a data type maps to: `number` for the numeric
/// kinds, `string` for everything else — the defined fallback for any variant
/// a future grammar may add.
pub open spec fn ts_type_bytes(dt: DataType) -> Seq<u8> {
    match dt {
        DataType::TinyInt | DataType::SmallInt | DataType::Int | DataType::Double =>
            "number".spec_bytes(),
        _ => "string".spec_bytes(),
    }
}

/// Decimal digits of `n`, most significant first.
pub open spec fn dec_bytes(n: nat) -> Seq<u8>
    decreases n,
{
    if n < 10 {
        seq![(48 + n) as u8]
    } else {
        dec_bytes(n / 10) + seq![(48 + n % 10) as u8]
    }
}

/// The descriptive tag of a data type, as it appears in the provenance
/// comment: the variant's name, with the length spelled out for `VARCHAR`.
pub open spec fn tag_bytes(dt: DataType) -> Seq<u8> {
    match dt {
        DataType::Date => "Date".spec_bytes(),
        DataType::Time => "Time".spec_bytes(),
        DataType::SecondDate => "SecondDate".spec_bytes(),
        DataType::TinyInt => "TinyInt".spec_bytes(),
        DataType::SmallInt => "SmallInt".spec_bytes(),
        DataType::Int => "Int".spec_bytes(),
        DataType::Double => "Double".spec_bytes(),
        DataType::Text => "Text".spec_bytes(),
        DataType::BinText => "BinText".spec_bytes(),
        DataType::VarChar(l) => "VarChar(".spec_bytes() + dec_bytes(l.0 as nat)
            + ")".spec_bytes(),
    }
}

/// The output for one column: a provenance comment, then the field.
pub open spec fn column_bytes(s: Seq<u8>, c: ColumnDef) -> Seq<u8> {
    "\n  // relates to field `".spec_bytes() + ident_bytes(s, c.name) + "` of type ".spec_bytes()
        + tag_bytes(c.data_type) + "\n  ".spec_bytes() + ident_bytes(s, c.name)
        + ": ".spec_bytes() + ts_type_bytes(c.data_type)
}

/// The output for every column after the first, each preceded by the
/// separator.
pub open spec fn columns_rest_bytes(s: Seq<u8>, cols: Seq<ColumnDef>) -> Seq<u8>
    decreases cols.len(),
{
    if cols.len() == 0 {
        Seq::empty()
    } else {
        ",".spec_bytes() + column_bytes(s, cols[0]) + columns_rest_bytes(s, cols.drop_first())
    }
}

/// The output for a column list: the columns in source order, a separator
/// between — but not before the first or after the last — column.
pub open spec fn columns_bytes(s: Seq<u8>, cols: Seq<ColumnDef>) -> Seq<u8> {
    if cols.len() == 0 {
        Seq::empty()
    } else {
        column_bytes(s, cols[0]) + columns_rest_bytes(s, cols.drop_first())
    }
}

/// The whole output for a statement. Only the name component of the table
/// name is ever resolved: a schema qualifier never reaches the output.
pub open spec fn render_bytes(v: StmtView, s: Seq<u8>) -> Seq<u8> {
    let name = ident_bytes(s, v.name.name_ident());
    "// generated from table `".spec_bytes() + name + "`\ntype ".spec_bytes() + name
        + " = {".spec_bytes() + columns_bytes(s, v.columns) + "\n};\n".spec_bytes()
}

/// A visitor: one traversal operation per node kind.
pub trait Visitor {
    fn visit_create_table_stmt(&mut self, stmt: &CreateTableStmt);

    fn visit_table(&mut self, tab: &TableDef);

    fn visit_column(&mut self, col: &ColumnDef);

    fn visit_ident(&mut self, id: &Ident);

    fn visit_data_type(&mut self, datatype: &DataType);

    fn visit_len(&mut self, len: &Len);
}

/// A node that can take any visitor, dispatching to the operation of its own
/// kind.
pub trait Visitable {
    fn accept<V: Visitor>(&self, visitor: &mut V);
}

impl Visitable for CreateTableStmt {
    fn accept<V: Visitor>(&self, visitor: &mut V) {
        visitor.visit_create_table_stmt(self);
    }
}

impl Visitable for TableDef {
    fn accept<V: Visitor>(&self, visitor: &mut V) {
        visitor.visit_table(self);
    }
}

impl Visitable for ColumnDef {
    fn accept<V: Visitor>(&self, visitor: &mut V) {
        visitor.visit_column(self);
    }
}

impl Visitable for Ident {
    fn accept<V: Visitor>(&self, visitor: &mut V) {
        visitor.visit_ident(self);
    }
}

impl Visitable for DataType {
    fn accept<V: Visitor>(&self, visitor: &mut V) {
        visitor.visit_data_type(self);
    }
}

fn push_bytes(out: &mut Vec<u8>, b: &[u8])
    ensures
        final(out)@ == old(out)@ + b@,
{
    let mut i: usize = 0;
    while i < b.len()
        invariant
            0 <= i <= b@.len(),
            out@ == old(out)@ + b@.take(i as int),
        decreases b@.len() - i,
    {
        let x = *vstd::slice::slice_index_get(b, i);
        out.push(x);
        proof {
            assert(old(out)@ + b@.take(i as int + 1) =~= (old(out)@ + b@.take(i as int)).push(
                b@[i as int],
            ));
        }
        i = i + 1;
    }
    proof {
        assert(b@.take(b@.len() as int) =~= b@);
    }
}

fn push_dec(out: &mut Vec<u8>, n: usize)
    ensures
        final(out)@ == old(out)@ + dec_bytes(n as nat),
    decreases n,
{
    if n < 10 {
        out.push(48 + n as u8);
        proof {
            assert(old(out)@ + dec_bytes(n as nat) =~= old(out)@.push((48 + n) as u8));
        }
    } else {
        push_dec(out, n / 10);
        out.push(48 + (n % 10) as u8);
        proof {
            assert(old(out)@ + dec_bytes(n as nat) =~= (old(out)@ + dec_bytes(
                n as nat / 10,
            )).push((48 + n as nat % 10) as u8));
        }
    }
}

proof fn lemma_columns_rest_snoc(s: Seq<u8>, cols: Seq<ColumnDef>, c: ColumnDef)
    ensures
        columns_rest_bytes(s, cols.push(c)) == columns_rest_bytes(s, cols) + ",".spec_bytes()
            + column_bytes(s, c),
    decreases cols.len(),
{
    if cols.len() == 0 {
        assert(cols.push(c)[0] == c);
        assert(cols.push(c).drop_first() =~= Seq::<ColumnDef>::empty());
        assert(columns_rest_bytes(s, cols) =~= Seq::<u8>::empty());
        assert(columns_rest_bytes(s, cols.push(c).drop_first()) =~= Seq::<u8>::empty());
        assert(columns_rest_bytes(s, cols.push(c)) =~= ",".spec_bytes() + column_bytes(s, c)
            + columns_rest_bytes(s, cols.push(c).drop_first()));
        assert(columns_rest_bytes(s, cols.push(c)) =~= columns_rest_bytes(s, cols)
            + ",".spec_bytes() + column_bytes(s, c));
    } else {
        assert(cols.push(c)[0] == cols[0]);
        assert(cols.push(c).drop_first() =~= cols.drop_first().push(c));
        lemma_columns_rest_snoc(s, cols.drop_first(), c);
        assert(columns_rest_bytes(s, cols.push(c)) =~= columns_rest_bytes(s, cols)
            + ",".spec_bytes() + column_bytes(s, c));
    }
}

proof fn lemma_columns_bytes_snoc(s: Seq<u8>, cols: Seq<ColumnDef>, c: ColumnDef)
    ensures
        columns_bytes(s, cols.push(c)) == columns_bytes(s, cols) + (if cols.len() == 0 {
            Seq::<u8>::empty()
        } else {
            ",".spec_bytes()
        }) + column_bytes(s, c),
{
    if cols.len() == 0 {
        assert(cols.push(c)[0] == c);
        assert(cols.push(c).drop_first() =~= Seq::<ColumnDef>::empty());
        assert(columns_bytes(s, cols.push(c)) =~= columns_bytes(s, cols) + Seq::<u8>::empty()
            + column_bytes(s, c));
    } else {
        assert(cols.push(c)[0] == cols[0]);
        assert(cols.push(c).drop_first() =~= cols.drop_first().push(c));
        lemma_columns_rest_snoc(s, cols.drop_first(), c);
        assert(columns_bytes(s, cols.push(c)) =~= columns_bytes(s, cols) + ",".spec_bytes()
            + column_bytes(s, c));
    }
}

/// The shipped renderer: accumulates the emitted text and resolves each span
/// against its copy of the original source buffer.
pub struct TypeScriptGen {
    out: Vec<u8>,
    src: Vec<u8>,
}

impl TypeScriptGen {
    /// Everything emitted so far.
    pub closed spec fn rendered(&self) -> Seq<u8> {
        self.out@
    }

    /// The source buffer spans resolve against.
    pub closed spec fn source(&self) -> Seq<u8> {
        self.src@
    }

    pub fn new(src: Vec<u8>) -> (g: Self)
        ensures
            g.source() == src@,
            g.rendered() == Seq::<u8>::empty(),
    {
        let out: Vec<u8> = Vec::new();
        proof {
            assert(out@ =~= Seq::<u8>::empty());
        }
        TypeScriptGen { out, src }
    }

    /// Hands the accumulated output over.
    pub fn into_output(self) -> (out: Vec<u8>)
        ensures
            out@ == self.rendered(),
    {
        self.out
    }

    fn gen_ident(&mut self, id: &Ident)
        requires
            id.span.wf(old(self).source().len()),
        ensures
            final(self).out@ == old(self).out@ + ident_bytes(old(self).src@, *id),
            final(self).src == old(self).src,
    {
        let b = vstd::slice::slice_subrange(self.src.as_slice(), id.span.start, id.span.end);
        push_bytes(&mut self.out, b);
    }

    fn gen_data_type(&mut self, dt: &DataType)
        ensures
            final(self).out@ == old(self).out@ + ts_type_bytes(*dt),
            final(self).src == old(self).src,
    {
        match dt {
            DataType::TinyInt | DataType::SmallInt | DataType::Int | DataType::Double => {
                push_bytes(&mut self.out, "number".as_bytes());
            },
            _ => {
                push_bytes(&mut self.out, "string".as_bytes());
            },
        }
    }

    fn gen_tag(&mut self, dt: &DataType)
        ensures
            final(self).out@ == old(self).out@ + tag_bytes(*dt),
            final(self).src == old(self).src,
    {
        match dt {
            DataType::Date => push_bytes(&mut self.out, "Date".as_bytes()),
            DataType::Time => push_bytes(&mut self.out, "Time".as_bytes()),
            DataType::SecondDate => push_bytes(&mut self.out, "SecondDate".as_bytes()),
            DataType::TinyInt => push_bytes(&mut self.out, "TinyInt".as_bytes()),
            DataType::SmallInt => push_bytes(&mut self.out, "SmallInt".as_bytes()),
            DataType::Int => push_bytes(&mut self.out, "Int".as_bytes()),
            DataType::Double => push_bytes(&mut self.out, "Double".as_bytes()),
            DataType::Text => push_bytes(&mut self.out, "Text".as_bytes()),
            DataType::BinText => push_bytes(&mut self.out, "BinText".as_bytes()),
            DataType::VarChar(l) => {
                let ghost s0 = self.out@;
                push_bytes(&mut self.out, "VarChar(".as_bytes());
                push_dec(&mut self.out, l.0);
                push_bytes(&mut self.out, ")".as_bytes());
                proof {
                    assert(self.out@ =~= s0 + tag_bytes(*dt));
                }
            },
        }
    }

    fn gen_column(&mut self, col: &ColumnDef)
        requires
            col.wf(old(self).source().len()),
        ensures
            final(self).out@ == old(self).out@ + column_bytes(old(self).src@, *col),
            final(self).src == old(self).src,
    {
        let ghost s0 = self.out@;
        push_bytes(&mut self.out, "\n  // relates to field `".as_bytes());
        self.gen_ident(&col.name);
        push_bytes(&mut self.out, "` of type ".as_bytes());
        self.gen_tag(&col.data_type);
        push_bytes(&mut self.out, "\n  ".as_bytes());
        self.gen_ident(&col.name);
        push_bytes(&mut self.out, ": ".as_bytes());
        self.gen_data_type(&col.data_type);
        proof {
            assert(self.out@ =~= s0 + column_bytes(self.src@, *col));
        }
    }

    fn gen_table(&mut self, tab: &TableDef)
        requires
            forall|i: int|
                0 <= i < tab@.len() ==> (#[trigger] tab@[i]).wf(old(self).source().len()),
        ensures
            final(self).out@ == old(self).out@ + columns_bytes(old(self).src@, tab@),
            final(self).src == old(self).src,
    {
        let ghost s0 = self.out@;
        let ghost cols = tab@;
        let n = tab.columns.len();
        let mut i: usize = 0;
        while i < n
            invariant
                0 <= i <= n,
                n == tab@.len(),
                cols == tab@,
                forall|k: int| 0 <= k < tab@.len() ==> (#[trigger] tab@[k]).wf(self.source().len()),
                self.out@ == s0 + columns_bytes(self.src@, cols.take(i as int)),
                self.src == old(self).src,
            decreases n - i,
        {
            let ghost before = self.out@;
            if i > 0 {
                push_bytes(&mut self.out, ",".as_bytes());
            }
            let c = tab.columns[i];
            self.gen_column(&c);
            proof {
                assert(cols.take(i as int).push(c) =~= cols.take(i as int + 1));
                lemma_columns_bytes_snoc(self.src@, cols.take(i as int), c);
                assert(self.out@ =~= s0 + columns_bytes(self.src@, cols.take(i as int + 1)));
            }
            i = i + 1;
        }
        proof {
            assert(cols.take(n as int) =~= cols);
        }
    }

    fn gen_stmt(&mut self, stmt: &CreateTableStmt)
        requires
            stmt@.wf(old(self).source().len()),
        ensures
            final(self).out@ == old(self).out@ + render_bytes(stmt@, old(self).src@),
            final(self).src == old(self).src,
    {
        let ghost s0 = self.out@;
        let name_id = match &stmt.name {
            TableName::Name(n) => *n,
            TableName::SchemaWithName(_, n) => *n,
        };
        assert(name_id == stmt@.name.name_ident());
        push_bytes(&mut self.out, "// generated from table `".as_bytes());
        self.gen_ident(&name_id);
        push_bytes(&mut self.out, "`\ntype ".as_bytes());
        self.gen_ident(&name_id);
        push_bytes(&mut self.out, " = {".as_bytes());
        proof {
            assert forall|i: int| 0 <= i < stmt.def.columns@.len() implies (#[trigger] stmt.def
                .columns@[i]).wf(self.source().len()) by {
                assert(stmt@.columns[i] == stmt.def.columns@[i]);
            }
        }
        self.gen_table(&stmt.def);
        push_bytes(&mut self.out, "\n};\n".as_bytes());
        proof {
            assert(self.out@ =~= s0 + render_bytes(stmt@, self.src@));
        }
    }
}

fn cols_are_wf(cols: &Vec<ColumnDef>, n: usize) -> (b: bool)
    ensures
        b == forall|i: int| 0 <= i < cols@.len() ==> (#[trigger] cols@[i]).wf(n as nat),
{
    let mut i: usize = 0;
    while i < cols.len()
        invariant
            0 <= i <= cols@.len(),
            forall|k: int| 0 <= k < i ==> (#[trigger] cols@[k]).wf(n as nat),
        decreases cols@.len() - i,
    {
        let c = cols[i];
        if !(c.name.span.start <= c.name.span.end && c.name.span.end <= n) {
            assert(!(cols@[i as int]).wf(n as nat));
            return false;
        }
        i = i + 1;
    }
    true
}

/// The visitor protocol on the shipped renderer. Each operation appends
/// exactly the model's bytes for its node and touches nothing else. Spans are
/// resolved against the generator's own buffer, so each operation first tests
/// that the node's spans lie within it and emits nothing for a foreign node —
/// the contracts say so clause for clause.
impl Visitor for TypeScriptGen {
    fn visit_create_table_stmt(&mut self, stmt: &CreateTableStmt)
        ensures
            final(self).source() == old(self).source(),
            final(self).rendered() == old(self).rendered() + (if stmt@.wf(
                old(self).source().len(),
            ) {
                render_bytes(stmt@, old(self).source())
            } else {
                Seq::<u8>::empty()
            }),
    {
        if crate::ast::stmt_is_wf(stmt, self.src.as_slice()) {
            self.gen_stmt(stmt);
        } else {
            proof {
                assert(self.out@ + Seq::<u8>::empty() =~= self.out@);
            }
        }
    }

    fn visit_table(&mut self, tab: &TableDef)
        ensures
            final(self).source() == old(self).source(),
            final(self).rendered() == old(self).rendered() + (if (forall|i: int|
                0 <= i < tab@.len() ==> (#[trigger] tab@[i]).wf(old(self).source().len())) {
                columns_bytes(old(self).source(), tab@)
            } else {
                Seq::<u8>::empty()
            }),
    {
        if cols_are_wf(&tab.columns, self.src.len()) {
            self.gen_table(tab);
        } else {
            proof {
                assert(self.out@ + Seq::<u8>::empty() =~= self.out@);
            }
        }
    }

    fn visit_column(&mut self, col: &ColumnDef)
        ensures
            final(self).source() == old(self).source(),
            final(self).rendered() == old(self).rendered() + (if col.wf(
                old(self).source().len(),
            ) {
                column_bytes(old(self).source(), *col)
            } else {
                Seq::<u8>::empty()
            }),
    {
        if col.name.span.start <= col.name.span.end && col.name.span.end <= self.src.len() {
            self.gen_column(col);
        } else {
            proof {
                assert(self.out@ + Seq::<u8>::empty() =~= self.out@);
            }
        }
    }

    fn visit_ident(&mut self, id: &Ident)
        ensures
            final(self).source() == old(self).source(),
            final(self).rendered() == old(self).rendered() + (if id.span.wf(
                old(self).source().len(),
            ) {
                ident_bytes(old(self).source(), *id)
            } else {
                Seq::<u8>::empty()
            }),
    {
        if id.span.start <= id.span.end && id.span.end <= self.src.len() {
            self.gen_ident(id);
        } else {
            proof {
                assert(self.out@ + Seq::<u8>::empty() =~= self.out@);
            }
        }
    }

    fn visit_data_type(&mut self, datatype: &DataType)
        ensures
            final(self).source() == old(self).source(),
            final(self).rendered() == old(self).rendered() + ts_type_bytes(*datatype),
    {
        self.gen_data_type(datatype);
    }

    fn visit_len(&mut self, _len: &Len)
        ensures
            final(self).source() == old(self).source(),
            final(self).rendered() == old(self).rendered(),
    {
        // Part of the protocol for renderers that surface the length; this
        // renderer deliberately emits nothing for a bare length node, since
        // the target type is `string` either way.
    }
}

/// Renders a statement against its source text. The output is exactly
/// [`render_bytes`] of the statement's model.
pub fn render(stmt: &CreateTableStmt, src: &[u8]) -> (out: Vec<u8>)
    requires
        stmt@.wf(src@.len()),
    ensures
        out@ == render_bytes(stmt@, src@),
{
    let mut g = TypeScriptGen::new(vstd::slice::slice_to_vec(src));
    g.gen_stmt(stmt);
    g.into_output()
}

} // verus!
