use sparkx::cli::{infer_format, unknown_format, InputFormat, TableSpec};
use sparkx::session::{Session, SessionConfig};
use sparkx::table::MemoryTable;
use sparkx::types::{DataType, Field, Schema};
use sparkx::SparkXError;

fn session() -> Session {
    let field = |name: &str, data_type: DataType| Field::new(name.to_owned(), data_type, true);
    let schema = Schema::new(vec![
        field("id", DataType::Int64),
        field("name", DataType::Utf8),
    ]);
    let mut session = Session::new(SessionConfig::default());
    session.register_memory("t", MemoryTable::new(schema.clone(), vec![]).unwrap());
    session.register_memory("u", MemoryTable::new(schema, vec![]).unwrap());
    session
}

fn refusal(sql: &str) -> String {
    session().sql(sql).unwrap_err().to_text()
}

#[test]
fn statements_that_are_no_single_query_are_refused() {
    assert!(matches!(session().sql("SELECT FROM"), Err(SparkXError::Sql(_))));
    assert_eq!(
        refusal("SELECT id FROM t; SELECT id FROM t"),
        "planning error: exactly one SQL statement is required"
    );
    assert_eq!(
        refusal("DROP TABLE t"),
        "unsupported operation: only SELECT queries are supported, got DROP TABLE t"
    );
}

#[test]
fn unsupported_clauses_say_so() {
    let cases = [
        ("WITH x AS (SELECT 1) SELECT id FROM t", "CTEs are not implemented yet"),
        (
            "SELECT id FROM t UNION SELECT id FROM u",
            "UNION, INTERSECT, and EXCEPT are not implemented yet",
        ),
        ("SELECT DISTINCT id FROM t", "SELECT DISTINCT"),
        ("SELECT t.* FROM t", "qualified wildcard projection"),
        ("SELECT id FROM t LIMIT 1 OFFSET 2", "LIMIT OFFSET/BY"),
        (
            "SELECT COUNT(*) FILTER (WHERE id > 1) FROM t",
            "aggregate parameters, windows, filters, null treatment, or WITHIN GROUP",
        ),
        ("SELECT COUNT(DISTINCT *) FROM t", "DISTINCT wildcard aggregate"),
        ("SELECT upper(name) FROM t", "function UPPER"),
        ("SELECT id % 2 FROM t", "operator %"),
        ("SELECT -id FROM t", "SQL expression -id"),
        ("SELECT CAST(id AS DATE) FROM t", "CAST target type DATE"),
        (
            "SELECT t.id FROM t JOIN u ON t.id > u.id",
            "join condition t.id > u.id; only equality joined with AND is supported",
        ),
        (
            "SELECT t.id FROM t JOIN u USING (id)",
            "only JOIN ... ON equality constraints are supported",
        ),
        (
            "SELECT SUM(id) + 1 FROM t",
            "aggregate expressions must be directly projected; got (SUM(#id) + 1)",
        ),
    ];
    for (sql, message) in cases {
        assert_eq!(refusal(sql), format!("unsupported operation: {message}"), "{sql}");
    }
}

#[test]
fn impossible_queries_say_why() {
    let cases = [
        (
            "SELECT id FROM t, u",
            "a SELECT must contain exactly one FROM relation",
        ),
        ("SELECT COUNT(id, name) FROM t", "COUNT requires exactly one argument"),
        ("SELECT id FROM t LIMIT 'x'", "LIMIT must be an integer literal"),
        ("SELECT id FROM t LIMIT 1.5", "invalid LIMIT 1.5"),
        (
            "SELECT 99999999999999999999 FROM t",
            "invalid integer literal 99999999999999999999",
        ),
        (
            "SELECT id FROM t WHERE id",
            "filter predicate must be Boolean, got Int64",
        ),
    ];
    for (sql, message) in cases {
        assert_eq!(refusal(sql), format!("planning error: {message}"), "{sql}");
    }
    assert_eq!(refusal("SELECT id FROM missing"), "resource not found: table 'missing'");
}

#[test]
fn plans_read_as_they_are() {
    let text = session()
        .explain("SELECT name, COUNT(*) AS n FROM t WHERE id > 1 GROUP BY name ORDER BY n DESC LIMIT 2")
        .unwrap();
    assert!(text.starts_with("== Logical Plan ==\nLimit: 2\n"));
    assert!(text.contains("\n== Physical Plan ==\nTopKExec#0: limit=2 [#n DESC]\n"));
}

#[test]
fn sides_of_a_join_go_to_their_inputs() {
    let text = session()
        .explain("SELECT t.id FROM t JOIN u ON u.id = t.id")
        .unwrap();
    assert!(text.contains("HashJoinExec#1: Inner [#t.id = #u.id]"), "{text}");
}

#[test]
fn command_lines_name_tables_and_formats() {
    let spec = TableSpec::parse("sales=./a=b.csv").unwrap();
    assert_eq!(spec.name, "sales");
    assert_eq!(spec.path, "./a=b.csv");
    assert_eq!(
        TableSpec::parse("sales").unwrap_err(),
        "table must use NAME=PATH"
    );
    assert_eq!(
        TableSpec::parse("sales= ").unwrap_err(),
        "table name and path must not be empty"
    );
    assert_eq!(infer_format("CSV"), Some(InputFormat::Csv));
    assert_eq!(infer_format("pq"), Some(InputFormat::Parquet));
    assert_eq!(infer_format("txt"), None);
    assert_eq!(
        unknown_format("x.txt").to_text(),
        "planning error: cannot infer table format for x.txt; use a .csv, .parquet, or .pq filename"
    );
}
