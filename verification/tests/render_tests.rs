use ddl2ts::ast::{
    ColumnDef, CreateTableStmt, DataType, Ident, Len, Span, TableDef, TableName,
};
use ddl2ts::code_gen_ts::{render, TypeScriptGen, Visitable};
use ddl2ts::parser::parse;

fn render_to_string(sql: &str) -> String {
    let src = sql.as_bytes();
    let stmt = parse(src).expect("statement should parse");
    String::from_utf8(render(&stmt, src)).unwrap()
}

#[test]
fn should_generate_a_typescript_structure() {
    let stmt_text = "CREATE TABLE abc (a INT, b VARCHAR(10))";
    let src = stmt_text.as_bytes();
    let ast = parse(src).expect("statement should parse");

    let ast_expected = CreateTableStmt {
        name: TableName::Name(Ident::new(Span::new(13, 16))),
        def: TableDef {
            columns: vec![
                ColumnDef {
                    name: Ident::new(Span::new(18, 19)),
                    data_type: DataType::Int,
                },
                ColumnDef {
                    name: Ident::new(Span::new(25, 26)),
                    data_type: DataType::VarChar(Len(10)),
                },
            ],
        },
    };
    assert_eq!(ast_expected, ast, "AST was not as expected.");

    let mut code_generator = TypeScriptGen::new(src.to_vec());
    ast.accept(&mut code_generator);
    let out = code_generator.into_output();
    assert!(!out.is_empty());
}

#[test]
fn concrete_scenario_renders_expected_text() {
    let out = render_to_string("CREATE TABLE abc (a INT, b VARCHAR(10))");
    let expected = "// generated from table `abc`\ntype abc = {\n  // relates to field `a` of type Int\n  a: number,\n  // relates to field `b` of type VarChar(10)\n  b: string\n};\n";
    assert_eq!(out, expected);
}

#[test]
fn visitor_protocol_renders_the_same_bytes_as_render() {
    let sql = "CREATE TABLE t1 (A INT, B VARCHAR(7))";
    let src = sql.as_bytes();
    let stmt = parse(src).expect("statement should parse");
    let direct = render(&stmt, src);
    let mut g = TypeScriptGen::new(src.to_vec());
    stmt.accept(&mut g);
    assert_eq!(g.into_output(), direct);
    assert!(!direct.is_empty());
}

#[test]
fn rendering_is_deterministic() {
    let sql = "CREATE TABLE t1 (A INT, B DOUBLE)";
    let first = render_to_string(sql);
    let second = render_to_string(sql);
    assert_eq!(first, second);
}

#[test]
fn column_order_is_preserved() {
    let out = render_to_string("CREATE TABLE t1 (z TEXT, a INT, m DOUBLE)");
    let z = out.find("z: string").expect("first column missing");
    let a = out.find("a: number").expect("second column missing");
    let m = out.find("m: number").expect("third column missing");
    assert!(z < a && a < m);
}

#[test]
fn schema_qualifier_never_leaks_into_output() {
    let qualified = render_to_string("CREATE TABLE s.t (a INT)");
    let bare = render_to_string("CREATE TABLE t (a INT)");
    assert_eq!(qualified, bare);
    assert!(qualified.contains("type t = {"));
    assert!(!qualified.contains("s.t"));
}

#[test]
fn quoted_identifier_passes_through_verbatim() {
    let out = render_to_string("CREATE TABLE \"_abc!@#$%^\" (a INT)");
    assert!(out.contains("type \"_abc!@#$%^\" = {"));
    assert!(out.contains("// generated from table `\"_abc!@#$%^\"`"));
}

#[test]
fn whitespace_variants_render_identically() {
    let a = render_to_string("CREATE TABLE t1(A INT)");
    let b = render_to_string("CREATE TABLE t1 (A INT)");
    let c = render_to_string("CREATE TABLE t1\n(\n A INT\n)");
    assert_eq!(a, b);
    assert_eq!(b, c);
}

#[test]
fn every_data_type_maps_to_number_or_string() {
    let cases = [
        ("DATE", "string"),
        ("TIME", "string"),
        ("SECONDDATE", "string"),
        ("TINYINT", "number"),
        ("SMALLINT", "number"),
        ("INT", "number"),
        ("DOUBLE", "number"),
        ("TEXT", "string"),
        ("BINTEXT", "string"),
        ("VARCHAR(10)", "string"),
    ];
    for (sql_type, ts_type) in cases.iter() {
        let sql = format!("CREATE TABLE t1 (A {})", sql_type);
        let out = render_to_string(sql.as_str());
        assert!(
            out.contains(&format!("A: {}", ts_type)),
            "{} should map to {}, got: {}",
            sql_type,
            ts_type,
            out
        );
    }
}

#[test]
fn empty_table_definition_renders_bare_braces() {
    // The data model accepts a table without columns even though the grammar
    // requires at least one: a hand-built empty definition still renders.
    let src = "X".as_bytes();
    let stmt = CreateTableStmt {
        name: TableName::Name(Ident::new(Span::new(0, 1))),
        def: TableDef::new(vec![]),
    };
    let out = String::from_utf8(render(&stmt, src)).unwrap();
    assert_eq!(out, "// generated from table `X`\ntype X = {\n};\n");
}

#[test]
fn varchar_length_appears_in_the_comment_only() {
    let out = render_to_string("CREATE TABLE t1 (A VARCHAR(255))");
    assert!(out.contains("`A` of type VarChar(255)"));
    assert!(out.contains("A: string"));
    assert!(!out.contains("A: string(255)"));
}
