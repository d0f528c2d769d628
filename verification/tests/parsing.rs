//! Statements: what is accepted, what is not, and how they print.
use sqlite_rs::parser::ast::{
    BinaryOp, ConflictAction, ExprKind, InsertSource, JoinOp, Literal, ResultColumn, UnaryOp,
};
use sqlite_rs::parser::error::{
    parse_begin, parse_commit, parse_create_index, parse_create_table, parse_create_view,
    parse_delete, parse_drop_index, parse_drop_table, parse_drop_view, parse_explain, parse_insert,
    parse_rollback, parse_select, parse_update, ParseOutcome,
};

fn accepted<T: std::fmt::Debug>(outcome: ParseOutcome<T>) -> T {
    match outcome {
        ParseOutcome::Accepted(t) => *t,
        other => panic!("expected acceptance, got {other:?}"),
    }
}

#[test]
fn operators_bind_by_precedence() {
    let select = accepted(parse_select("SELECT 1 + 2 * 3, -x, NOT a AND b"));
    let ResultColumn::Expr { expr, .. } = &select.columns[0] else {
        panic!("expected an expression");
    };
    let ExprKind::Binary { op, rhs, .. } = &expr.kind else {
        panic!("expected a sum");
    };
    assert_eq!(*op, BinaryOp::Add);
    assert!(matches!(
        &rhs.kind,
        ExprKind::Binary {
            op: BinaryOp::Mul,
            ..
        }
    ));
    let ResultColumn::Expr { expr, .. } = &select.columns[1] else {
        panic!("expected an expression");
    };
    assert!(matches!(
        &expr.kind,
        ExprKind::Unary {
            op: UnaryOp::Minus,
            ..
        }
    ));
}

#[test]
fn selects_print_as_they_parse() {
    for sql in [
        "SELECT 1",
        "SELECT DISTINCT a, t.b AS c, * FROM t",
        "SELECT a FROM t INNER JOIN u ON (t.x = u.x) WHERE (a > 1) GROUP BY a HAVING (COUNT(*) > 2) ORDER BY a DESC NULLS LAST LIMIT 10 OFFSET 5",
    ] {
        let first = accepted(parse_select(sql));
        let printed = first.to_sql();
        let second = accepted(parse_select(&printed));
        assert_eq!(second.to_sql(), printed, "{sql}");
    }
}

#[test]
fn joins_keep_their_kind() {
    let select = accepted(parse_select("SELECT * FROM t LEFT OUTER JOIN u ON t.a = u.a CROSS JOIN v"));
    let joins = &select.from.as_ref().unwrap().joins;
    assert_eq!(joins[0].op, JoinOp::Left);
    assert_eq!(joins[1].op, JoinOp::Cross);
}

#[test]
fn writes_parse() {
    let insert = accepted(parse_insert("INSERT OR IGNORE INTO t (a, b) VALUES (1, 'x'), (2, NULL)"));
    assert_eq!(insert.or_action, Some(ConflictAction::Ignore));
    let InsertSource::Values(rows) = &insert.source else {
        panic!("expected values");
    };
    assert_eq!(rows.len(), 2);
    assert!(matches!(
        &rows[1][1].kind,
        ExprKind::Literal(Literal::Null)
    ));
    accepted(parse_update("UPDATE t SET a = a + 1 WHERE b IN (1, 2)"));
    accepted(parse_delete("DELETE FROM t WHERE a IS NOT NULL"));
}

#[test]
fn schema_statements_parse() {
    let table = accepted(parse_create_table(
        "CREATE TABLE IF NOT EXISTS t (id INTEGER PRIMARY KEY AUTOINCREMENT, n TEXT NOT NULL DEFAULT 'x', UNIQUE (n)) WITHOUT ROWID",
    ));
    assert!(table.if_not_exists);
    assert_eq!(table.columns.len(), 2);
    accepted(parse_create_index("CREATE UNIQUE INDEX i ON t (a DESC, b)"));
    accepted(parse_create_view("CREATE VIEW v AS SELECT a FROM t"));
    accepted(parse_drop_view("DROP VIEW IF EXISTS v"));
    accepted(parse_drop_table("DROP TABLE IF EXISTS t"));
    accepted(parse_drop_index("DROP INDEX i;"));
    accepted(parse_explain("EXPLAIN QUERY PLAN SELECT 1"));
}

#[test]
fn transactions_parse() {
    accepted(parse_begin("BEGIN"));
    accepted(parse_begin("BEGIN IMMEDIATE TRANSACTION"));
    accepted(parse_commit("COMMIT"));
    accepted(parse_commit("END TRANSACTION"));
    accepted(parse_rollback("ROLLBACK"));
}

#[test]
fn what_is_no_statement_is_rejected() {
    for sql in ["", "SELECT", "SELECT 1 2 3 FROM", "SELECT (1", "SELECT 'open", "SELECT 1; SELECT 2"] {
        assert!(
            matches!(parse_select(sql), ParseOutcome::Invalid { .. }),
            "{sql}: {:?}",
            parse_select(sql)
        );
    }
    assert!(matches!(
        parse_drop_table("DROP INDEX i"),
        ParseOutcome::Invalid { .. }
    ));
}

#[test]
fn what_is_not_supported_is_told_apart() {
    for sql in ["SELECT * FROM t NATURAL JOIN u", "SELECT * FROM t, u"] {
        assert!(
            matches!(parse_select(sql), ParseOutcome::Unsupported { .. }),
            "{sql}: {:?}",
            parse_select(sql)
        );
    }
}

#[test]
fn expressions_nest_only_so_deep() {
    let deep = |n: usize| format!("SELECT {}1{}", "(".repeat(n), ")".repeat(n));
    accepted(parse_select(&deep(50)));
    assert!(!matches!(parse_select(&deep(500)), ParseOutcome::Accepted(_)));
}
