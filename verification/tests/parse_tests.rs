use ddl2ts::ast::{DataType, Ident, Len, Span, TableName};
use ddl2ts::ast::ident_text;
use ddl2ts::parser::{parse, DiagKind};

/// Parses `sql` and returns the rendered table-name component as text.
fn parsed_table_name(sql: &str) -> String {
    let src = sql.as_bytes();
    let stmt = match parse(src) {
        Ok(stmt) => stmt,
        Err(errs) => panic!("unexpected diagnostics for {:?}: {:?}", sql, errs),
    };
    let name = match &stmt.name {
        TableName::Name(n) => *n,
        TableName::SchemaWithName(_, n) => *n,
    };
    String::from_utf8(ident_text(src, &name)).unwrap()
}

fn assert_table_name(sql: &str, expected: &str) {
    let name = parsed_table_name(sql);
    assert_eq!(name, expected, "Table name did not match.");
}

#[test]
fn should_parse_a_table_with_1_column() {
    assert_table_name(
        "CREATE TABLE \"s!@##%1\".\"_abc!@#$%^\" (A INT)",
        "\"_abc!@#$%^\"",
    );
    assert_table_name(
        "CREATE TABLE schema.\"_abc!@#$%^\" (A INT)",
        "\"_abc!@#$%^\"",
    );
    assert_table_name("CREATE TABLE \"_abc!@#$%^\" (A INT)", "\"_abc!@#$%^\"");
    assert_table_name("create table \"_abc!@#$%^\" (A int)", "\"_abc!@#$%^\"");
    assert_table_name("CREATE TABLE t1(A INT)", "t1");
    assert_table_name("CREATE TABLE t1 (A INT)", "t1");
    assert_table_name("CREATE TABLE t1  \n (A INT)", "t1");
    assert_table_name("CREATE TABLE t1  \n (  A INT)", "t1");
    assert_table_name("CREATE TABLE t1  \n (  A INT  )", "t1");
    assert_table_name("CREATE TABLE t1  \n (\n  A INT \n )", "t1");
    assert_table_name("CREATE TABLE t1  \n (\n  A  INT \n )", "t1");
}

#[test]
fn should_parse_a_table_with_2_columns() {
    assert_table_name("CREATE TABLE t1 (A INT,B DOUBLE)", "t1");
    assert_table_name("CREATE TABLE t1 (A INT, B DOUBLE)", "t1");
    assert_table_name("CREATE TABLE t1 (A  INT,B  DOUBLE)", "t1");
    assert_table_name("CREATE TABLE t1 (A  \n INT,  \n B  DOUBLE)", "t1");
    assert_table_name("CREATE TABLE t1 (  A INT, B DOUBLE)", "t1");
    assert_table_name("CREATE TABLE t1 (  A INT, B DOUBLE  )", "t1");
    assert_table_name("CREATE TABLE t1 (\n  A INT, B DOUBLE \n )", "t1");
    assert_table_name(
        "CREATE TABLE t1\n (\n  A  \n  INT, \n  B \n  DOUBLE \n )",
        "t1",
    );
}

#[test]
fn should_support_all_hana_data_types() {
    let types: Vec<(&str, DataType)> = vec![
        ("DATE", DataType::Date),
        ("TIME", DataType::Time),
        ("SECONDDATE", DataType::SecondDate),
        ("TINYINT", DataType::TinyInt),
        ("SMALLINT", DataType::SmallInt),
        ("INT", DataType::Int),
        ("DOUBLE", DataType::Double),
        ("TEXT", DataType::Text),
        ("BINTEXT", DataType::BinText),
        ("VARCHAR(10)", DataType::VarChar(Len(10))),
        ("VARCHAR (10)", DataType::VarChar(Len(10))),
        ("VARCHAR ( 10)", DataType::VarChar(Len(10))),
        ("VARCHAR ( 10 )", DataType::VarChar(Len(10))),
        ("VARCHAR (10 )", DataType::VarChar(Len(10))),
        ("VARCHAR(10 )", DataType::VarChar(Len(10))),
    ];
    for (t, _) in types.iter() {
        let t = *t;
        let sql = format!("CREATE TABLE t1 (A {})", t);
        assert_table_name(sql.as_str(), "t1");
    }
}

#[test]
fn varchar_spacing_parses_to_the_same_length() {
    let spellings = [
        "VARCHAR(10)",
        "VARCHAR (10)",
        "VARCHAR ( 10)",
        "VARCHAR ( 10 )",
        "VARCHAR (10 )",
        "VARCHAR(10 )",
    ];
    for t in spellings.iter() {
        let sql = format!("CREATE TABLE t1 (A {})", t);
        let stmt = parse(sql.as_bytes()).expect("statement should parse");
        assert_eq!(stmt.def.columns.len(), 1);
        assert_eq!(stmt.def.columns[0].data_type, DataType::VarChar(Len(10)));
    }
}

#[test]
fn malformed_input_yields_diagnostics_and_no_ast() {
    let r = parse("CREATE TABL x".as_bytes());
    let errs = r.expect_err("a malformed statement must not parse");
    assert!(!errs.is_empty());
    assert_eq!(errs[0].kind, DiagKind::Syntax);
}

#[test]
fn unrecognized_byte_yields_a_lexical_diagnostic() {
    let r = parse("CREATE TABLE t1 (A INT) %".as_bytes());
    let errs = r.expect_err("an unrecognizable byte must fail the scan");
    assert_eq!(errs.len(), 1);
    assert_eq!(errs[0].kind, DiagKind::Lexical);
    assert_eq!(errs[0].span, Span::new(24, 25));
}

#[test]
fn unterminated_quote_yields_a_lexical_diagnostic() {
    let r = parse("CREATE TABLE \"t1 (A INT)".as_bytes());
    let errs = r.expect_err("an unterminated quote must fail the scan");
    assert_eq!(errs.len(), 1);
    assert_eq!(errs[0].kind, DiagKind::Lexical);
}

#[test]
fn oversized_varchar_length_yields_a_length_diagnostic() {
    let r = parse("CREATE TABLE t1 (A VARCHAR(99999999999999999999))".as_bytes());
    let errs = r.expect_err("an unrepresentable length must not parse");
    assert_eq!(errs.len(), 1);
    assert_eq!(errs[0].kind, DiagKind::LengthParse);
}

#[test]
fn trailing_tokens_are_rejected() {
    let r = parse("CREATE TABLE t1 (A INT) extra".as_bytes());
    let errs = r.expect_err("trailing tokens must not parse");
    assert!(!errs.is_empty());
    assert_eq!(errs[0].kind, DiagKind::Syntax);
}

#[test]
fn len_parse_digits_reads_decimal_digits() {
    let sp = Span::new(0, 2);
    assert_eq!(Len::parse_digits("10".as_bytes(), sp), Ok(Len(10)));
    assert_eq!(Len::parse_digits("007".as_bytes(), Span::new(0, 3)), Ok(Len(7)));
    let big = "99999999999999999999";
    assert!(Len::parse_digits(big.as_bytes(), Span::new(0, 20)).is_err());
}

#[test]
fn ident_from_str_spans_the_whole_string() {
    let id = Ident::from("abc");
    assert_eq!(id, Ident::new(Span::new(0, 3)));
}

#[test]
fn quoted_keyword_is_an_identifier() {
    // A quoted spelling of a keyword must lex as an identifier, quotes kept.
    assert_table_name("CREATE TABLE \"TABLE\" (A INT)", "\"TABLE\"");
}
