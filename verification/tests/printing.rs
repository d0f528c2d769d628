//! Printing: what statements are printed as, and that it is read as the same statement.
use sqlite_rs::parser::ast::{ExprKind, Literal, ResultColumn, Select, UnaryOp};
use sqlite_rs::parser::error::{
    parse_begin, parse_commit, parse_create_index, parse_create_table, parse_delete,
    parse_drop_index, parse_drop_table, parse_insert, parse_rollback, parse_select, ParseOutcome,
};

fn accepted<T: std::fmt::Debug>(outcome: ParseOutcome<T>) -> T {
    match outcome {
        ParseOutcome::Accepted(t) => *t,
        other => panic!("expected acceptance, got {other:?}"),
    }
}

/// The tree without its places in the source.
fn bare<T: std::fmt::Debug>(tree: &T) -> String {
    let text = format!("{tree:?}");
    let mut out = String::new();
    let mut rest = text.as_str();
    while let Some(at) = rest.find("Span {") {
        out.push_str(&rest[..at]);
        let end = at + rest[at..].find('}').unwrap() + 1;
        rest = &rest[end..];
    }
    out.push_str(rest);
    out
}

fn first_expr(select: &Select) -> &ExprKind {
    match &select.columns[0] {
        ResultColumn::Expr { expr, .. } => &expr.kind,
        other => panic!("expected an expression, got {other:?}"),
    }
}

fn select_again(source: &str, printed: &str) {
    let first = accepted(parse_select(source));
    assert_eq!(first.to_sql(), printed);
    let second = accepted(parse_select(printed));
    assert_eq!(bare(&second), bare(&first), "{source}");
}

#[test]
fn printed_selects_are_read_again() {
    select_again("select 1", "SELECT 1");
    select_again(
        "select distinct a x, t.b as c, *, t.* from t y left outer join u on t.x == u.x cross join v",
        "SELECT DISTINCT a AS x, t.b AS c, *, t.* FROM t AS y LEFT JOIN u ON t.x = u.x CROSS JOIN v",
    );
    select_again(
        "SELECT a FROM t WHERE a NOT NULL AND b IS NOT 3 OR c <> 4 GROUP BY a, b HAVING COUNT(*) > 2 \
         UNION ALL SELECT ALL b FROM u ORDER BY a DESC NULLS LAST, b LIMIT 10, 5;",
        "SELECT a FROM t WHERE a NOTNULL AND b IS NOT 3 OR c != 4 GROUP BY a, b HAVING COUNT(*) > 2 \
         UNION ALL SELECT ALL b FROM u ORDER BY a DESC NULLS LAST, b LIMIT 10 OFFSET 5",
    );
}

#[test]
fn printed_expressions_are_read_again() {
    select_again(
        "SELECT 1+2*3-(4||5) COLLATE nocase, ~a<<2&b, NOT x BETWEEN -1 AND +2",
        "SELECT 1 + 2 * 3 - (4 || 5) COLLATE nocase, ~a << 2 & b, NOT x BETWEEN -1 AND +2",
    );
    select_again(
        "SELECT CASE a WHEN 1 THEN 'it''s' ELSE x'00ff' END, CAST(a AS varchar(10,2)), ?, ?3, :n, @m, $k",
        "SELECT CASE a WHEN 1 THEN 'it''s' ELSE X'00FF' END, CAST(a AS varchar(10, 2)), ?, ?3, :n, @m, $k",
    );
    select_again(
        "SELECT a IN (1,2), b NOT IN (SELECT c FROM t), NOT EXISTS (SELECT 1), a LIKE 'x%' ESCAPE '!'",
        "SELECT a IN (1, 2), b NOT IN (SELECT c FROM t), NOT EXISTS (SELECT 1), a LIKE 'x%' ESCAPE '!'",
    );
    select_again(
        "SELECT count(DISTINCT a), replace(b, 1.5e3, .5), \"plain\", -9223372036854775808, 0x10",
        "SELECT count(DISTINCT a), REPLACE(b, 1500.0, 0.5), plain, -9223372036854775808, 16",
    );
}

#[test]
fn the_smallest_integer_is_read_again() {
    let first = accepted(parse_select("SELECT -9223372036854775808"));
    assert!(matches!(
        first_expr(&first),
        ExprKind::Literal(Literal::Integer(i64::MIN))
    ));
    assert_eq!(first.to_sql(), "SELECT -9223372036854775808");
    select_again("SELECT 0x8000000000000000", "SELECT -9223372036854775808");
    select_again("SELECT -0x8000000000000000", "SELECT - -9223372036854775808");
    select_again(
        "SELECT 0x8000000000000000 COLLATE c, ~0x8000000000000000",
        "SELECT -9223372036854775808 COLLATE c, ~-9223372036854775808",
    );
    assert_eq!(Literal::Integer(i64::MIN).to_sql(), "-9223372036854775808");
    // A default is one literal, with a sign or without one.
    for default in [
        "0x8000000000000000",
        "-0x8000000000000000",
        "(-9223372036854775808)",
        "-9223372036854775808.5",
    ] {
        let first = accepted(parse_create_table(&format!("CREATE TABLE t (a DEFAULT {default})")));
        let printed = first.to_sql();
        assert_eq!(bare(&accepted(parse_create_table(&printed))), bare(&first), "{printed}");
    }
}

#[test]
fn printed_writes_are_read_again() {
    for (source, printed) in [
        (
            "INSERT OR REPLACE INTO t(a,b) VALUES(1,'x'),(2,NULL)",
            "INSERT OR REPLACE INTO t (a, b) VALUES (1, 'x'), (2, NULL)",
        ),
        ("insert into t default values", "INSERT INTO t DEFAULT VALUES"),
        (
            "INSERT INTO t SELECT a FROM u WHERE b",
            "INSERT INTO t SELECT a FROM u WHERE b",
        ),
    ] {
        let first = accepted(parse_insert(source));
        assert_eq!(first.to_sql(), printed);
        assert_eq!(bare(&accepted(parse_insert(printed))), bare(&first));
    }
    let first = accepted(parse_delete("delete from t where a isnull"));
    assert_eq!(first.to_sql(), "DELETE FROM t WHERE a ISNULL");
    let second = accepted(parse_delete("DELETE FROM t WHERE a ISNULL"));
    assert_eq!(bare(&second), bare(&first));
}

#[test]
fn printed_definitions_are_read_again() {
    let first = accepted(parse_create_table(
        "create table if not exists t (id INTEGER CONSTRAINT pk PRIMARY KEY DESC AUTOINCREMENT, \
         n varchar ( 10 ) NOT NULL DEFAULT -5 COLLATE nocase, m DEFAULT (1+2) UNIQUE CHECK (m>0), \
         CONSTRAINT c UNIQUE(n ASC), PRIMARY KEY(id), CHECK(n)) without rowid",
    ));
    let printed = "CREATE TABLE IF NOT EXISTS t (id INTEGER PRIMARY KEY DESC AUTOINCREMENT, \
         n varchar(10) NOT NULL DEFAULT -5 COLLATE nocase, m DEFAULT (1 + 2) UNIQUE CHECK (m > 0), \
         UNIQUE (n ASC), PRIMARY KEY (id), CHECK (n)) WITHOUT ROWID";
    assert_eq!(first.to_sql(), printed);
    assert_eq!(bare(&accepted(parse_create_table(printed))), bare(&first));

    let strict = accepted(parse_create_table("CREATE TABLE t (a) strict"));
    assert_eq!(strict.to_sql(), "CREATE TABLE t (a) STRICT");
    assert_eq!(
        bare(&accepted(parse_create_table("CREATE TABLE t (a) STRICT"))),
        bare(&strict)
    );

    let index = accepted(parse_create_index(
        "create unique index if not exists i on t(a desc, lower(b)) where a>1",
    ));
    let printed = "CREATE UNIQUE INDEX IF NOT EXISTS i ON t (a DESC, lower(b)) WHERE a > 1";
    assert_eq!(index.to_sql(), printed);
    assert_eq!(bare(&accepted(parse_create_index(printed))), bare(&index));

    let drop = accepted(parse_drop_table("drop table if exists t"));
    assert_eq!(drop.to_sql(), "DROP TABLE IF EXISTS t");
    assert_eq!(
        bare(&accepted(parse_drop_table("DROP TABLE IF EXISTS t"))),
        bare(&drop)
    );
    let drop = accepted(parse_drop_index("drop index i"));
    assert_eq!(drop.to_sql(), "DROP INDEX i");
    assert_eq!(bare(&accepted(parse_drop_index("DROP INDEX i"))), bare(&drop));
}

#[test]
fn printed_transactions_are_read_again() {
    for (source, printed) in [
        ("begin transaction", "BEGIN"),
        ("BEGIN DEFERRED", "BEGIN DEFERRED"),
        ("BEGIN IMMEDIATE TRANSACTION", "BEGIN IMMEDIATE"),
        ("begin exclusive", "BEGIN EXCLUSIVE"),
    ] {
        let first = accepted(parse_begin(source));
        assert_eq!(first.to_sql(), printed);
        assert_eq!(accepted(parse_begin(printed)).mode, first.mode);
    }
    assert_eq!(accepted(parse_commit("END")).to_sql(), "COMMIT");
    accepted(parse_commit("COMMIT"));
    assert_eq!(
        accepted(parse_rollback("rollback transaction")).to_sql(),
        "ROLLBACK"
    );
    accepted(parse_rollback("ROLLBACK"));
}

#[test]
fn what_needs_quotes_is_printed_in_quotes() {
    select_again(
        "SELECT \"a b\", \"1\" AS [x y], `select`, \"say \"\"hi\"\"\" FROM \"order\" AS \"from\"",
        "SELECT \"a b\", \"1\" AS \"x y\", \"select\", \"say \"\"hi\"\"\" FROM \"order\" AS \"from\"",
    );
    select_again(
        "SELECT \"t 1\".\"c 1\", \"m n\".t.c, \"t 1\".* FROM \"t 1\" JOIN u ON a COLLATE \"my one\"",
        "SELECT \"t 1\".\"c 1\", \"m n\".t.c, \"t 1\".* FROM \"t 1\" JOIN u ON a COLLATE \"my one\"",
    );
    select_again(
        "SELECT \"my fn\"(1), \"CASE\"(2), \"\", \"null\"",
        "SELECT \"my fn\"(1), \"CASE\"(2), \"\", \"null\"",
    );
    select_again(
        "SELECT CAST(a AS \"my type\"), CAST(b AS \"x(-1)\"), CAST(c AS \"big int\"(8))",
        "SELECT CAST(a AS my type), CAST(b AS \"x(-1)\"), CAST(c AS big int(8))",
    );
    let first = accepted(parse_create_table(
        "CREATE TABLE \"t 1\" (\"check\" \"a-b\" DEFAULT 0xFFFFFFFFFFFFFFFF COLLATE \"c d\")",
    ));
    let printed =
        "CREATE TABLE \"t 1\" (\"check\" \"a-b\" DEFAULT 0xFFFFFFFFFFFFFFFF COLLATE \"c d\")";
    assert_eq!(first.to_sql(), printed);
    assert_eq!(bare(&accepted(parse_create_table(printed))), bare(&first));
    let first = accepted(parse_insert("INSERT INTO [a b] (\"c d\", e) DEFAULT VALUES"));
    let printed = "INSERT INTO \"a b\" (\"c d\", e) DEFAULT VALUES";
    assert_eq!(first.to_sql(), printed);
    assert_eq!(bare(&accepted(parse_insert(printed))), bare(&first));
}

#[test]
fn negative_literals_are_printed_by_their_bits() {
    select_again("SELECT 0xFFFFFFFFFFFFFFFF", "SELECT 0xFFFFFFFFFFFFFFFF");
    select_again("SELECT 0x8000000000000001", "SELECT 0x8000000000000001");
    select_again("SELECT -1", "SELECT -1");
}

#[test]
fn two_minus_signs_are_kept_apart() {
    let twice = accepted(parse_select("SELECT - -x"));
    assert!(matches!(
        first_expr(&twice),
        ExprKind::Unary {
            op: UnaryOp::Minus,
            ..
        }
    ));
    select_again("SELECT - -x, - - -1, 1 - -2, -(-3)", "SELECT - -x, - - -1, 1 - -2, -(-3)");
}

#[test]
fn floats_are_printed_by_their_shortest_decimal() {
    select_again("SELECT 1.50, .5, 1., 1e3, 0.0", "SELECT 1.5, 0.5, 1.0, 1000.0, 0.0");
    select_again("SELECT 1e19, -1e-7, 1e999", "SELECT 10000000000000000000, -0.0000001, 1e999");
    select_again("SELECT 9223372036854775808.0", "SELECT 9223372036854776000");
    let first = accepted(parse_select("SELECT 1.50"));
    assert!(matches!(
        first_expr(&first),
        ExprKind::Literal(Literal::Float(bits)) if *bits == 1.5f64.to_bits()
    ));
}

#[test]
fn functions_named_like_keywords_are_printed_bare() {
    select_again("SELECT replace(a), \"REPLACE\"(b)", "SELECT REPLACE(a), REPLACE(b)");
    select_again("SELECT \"replace\"(c), left(1), glob(2, 3)", "SELECT \"replace\"(c), LEFT(1), GLOB(2, 3)");
    select_again(
        "SELECT \"SELECT\"(1), (\"SELECT\"(2)), f(\"DISTINCT\"(3)), \"NOT\"(4)",
        "SELECT \"SELECT\"(1), (\"SELECT\"(2)), f(\"DISTINCT\"(3)), \"NOT\"(4)",
    );
}

#[test]
fn the_smallest_integer_can_be_printed_one_level_too_deep() {
    let nested = |inner: &str| format!("SELECT {}{inner}{}", "(".repeat(65), ")".repeat(65));
    select_again(&nested("+0x8000000000000000"), &nested("+-9223372036854775808"));
    let deepest = accepted(parse_select(&nested("++0x8000000000000000")));
    assert_eq!(deepest.to_sql(), nested("++-9223372036854775808"));
    match parse_select(&deepest.to_sql()) {
        ParseOutcome::Invalid { message, .. } => {
            assert_eq!(message, "expression nesting too deep");
        }
        other => panic!("expected a refusal, got {other:?}"),
    }
}
