//! Reading the schema table.
use sqlite_rs::record::{encode_record, Collation, RecordError, TextEncoding, Value};
use sqlite_rs::schema::scan::mask_quotes_and_comments;
use sqlite_rs::schema::ddl_reader::{
    column_defs, column_type, index_schema, read_schema, read_table_and_view_names, read_views,
    rowid_alias_column, table_schema, DdlError, TableSchema,
};

fn text(s: &str) -> Value {
    Value::Text(s.to_string())
}

fn master(kind: &str, name: &str, table: &str, root: i64, sql: Value) -> Vec<u8> {
    encode_record(
        &[text(kind), text(name), text(table), Value::Integer(root), sql],
        TextEncoding::Utf8,
    )
}

fn table(name: &str, root: i64, sql: &str) -> Vec<u8> {
    master("table", name, name, root, text(sql))
}

/// The schema table of the named fixture.
fn payloads(name: &str) -> Vec<Vec<u8>> {
    match name {
        "table_single_page.db" => vec![table("t", 2, "CREATE TABLE t(a, b)")],
        "without_rowid.db" => vec![table(
            "t",
            2,
            "CREATE TABLE t(k TEXT PRIMARY KEY, v) WITHOUT ROWID",
        )],
        "strict_generated.db" => vec![table(
            "t",
            2,
            "CREATE TABLE t(a INTEGER, b INTEGER GENERATED ALWAYS AS (a*2) STORED) STRICT",
        )],
        "autovacuum.db" => vec![table("t", 3, "CREATE TABLE t(a INTEGER PRIMARY KEY, b TEXT)")],
        "fts5.db" => vec![
            table("t", 0, "CREATE VIRTUAL TABLE t USING fts5(c)"),
            table(
                "t_data",
                2,
                "CREATE TABLE 't_data'(id INTEGER PRIMARY KEY, block BLOB)",
            ),
            table(
                "t_idx",
                3,
                "CREATE TABLE 't_idx'(segid, term, pgno, PRIMARY KEY(segid, term)) WITHOUT ROWID",
            ),
            table(
                "t_content",
                4,
                "CREATE TABLE 't_content'(id INTEGER PRIMARY KEY, c0)",
            ),
            table(
                "t_docsize",
                5,
                "CREATE TABLE 't_docsize'(id INTEGER PRIMARY KEY, sz BLOB)",
            ),
            table(
                "t_config",
                6,
                "CREATE TABLE 't_config'(k PRIMARY KEY, v) WITHOUT ROWID",
            ),
        ],
        "rtree.db" => vec![
            table("t", 0, "CREATE VIRTUAL TABLE t USING rtree(id, x0, x1)"),
            table(
                "t_rowid",
                2,
                "CREATE TABLE \"t_rowid\"(rowid INTEGER PRIMARY KEY,nodeno)",
            ),
            table(
                "t_node",
                3,
                "CREATE TABLE \"t_node\"(nodeno INTEGER PRIMARY KEY,data)",
            ),
            table(
                "t_parent",
                4,
                "CREATE TABLE \"t_parent\"(nodeno INTEGER PRIMARY KEY,parentnode)",
            ),
        ],
        "index.db" => vec![
            table("t", 2, "CREATE TABLE t(a, b)"),
            master("index", "idx_b", "t", 3, text("CREATE INDEX idx_b ON t(b)")),
        ],
        other => panic!("no fixture {other}"),
    }
}

fn read_fixture(_family: &str, name: &str) -> Vec<TableSchema> {
    read_schema(&payloads(name), &None, TextEncoding::Utf8).unwrap()
}

fn find(schemas: &[TableSchema], name: &str) -> TableSchema {
    schemas
        .iter()
        .find(|s| s.name == name)
        .cloned()
        .unwrap_or_else(|| panic!("no table named {name} in {schemas:?}"))
}

fn parsed(sql: &str) -> TableSchema {
    table_schema(&[
        text("table"),
        text("t"),
        text("t"),
        Value::Integer(2),
        text(sql),
    ])
}

#[test]
fn plain_table_columns_and_rootpage() {
    let schemas = read_fixture("btrees", "table_single_page.db");
    assert_eq!(schemas.len(), 1);
    let t = find(&schemas, "t");
    assert_eq!(t.columns, vec!["a", "b"]);
    assert_eq!(t.root_page, 2);
    assert!(!t.without_rowid);
    assert!(!t.strict);
    assert!(!t.is_virtual);
}

#[test]
fn without_rowid_marker_detected() {
    let schemas = read_fixture("btrees", "without_rowid.db");
    let t = find(&schemas, "t");
    assert_eq!(t.columns, vec!["k", "v"]);
    assert!(t.without_rowid);
}

#[test]
fn strict_marker_detected_and_generated_column_named_correctly() {
    let schemas = read_fixture("features", "strict_generated.db");
    let t = find(&schemas, "t");
    assert_eq!(t.columns, vec!["a", "b"]);
    assert!(t.strict);
    assert!(!t.without_rowid);
}

#[test]
fn autovacuum_fixture_plain_table_unaffected_by_pointer_map_page() {
    let schemas = read_fixture("features", "autovacuum.db");
    let t = find(&schemas, "t");
    assert_eq!(t.columns, vec!["a", "b"]);
}

#[test]
fn fts5_virtual_table_is_graceful_unknown_shadow_tables_are_readable() {
    let schemas = read_fixture("features", "fts5.db");

    let virtual_entry = find(&schemas, "t");
    assert!(virtual_entry.is_virtual);
    assert!(virtual_entry.columns.is_empty());
    assert_eq!(virtual_entry.root_page, 0);

    assert_eq!(find(&schemas, "t_data").columns, vec!["id", "block"]);
    assert!(!find(&schemas, "t_data").without_rowid);

    let t_idx = find(&schemas, "t_idx");
    assert_eq!(t_idx.columns, vec!["segid", "term", "pgno"]);
    assert!(t_idx.without_rowid);

    assert_eq!(find(&schemas, "t_content").columns, vec!["id", "c0"]);
    assert_eq!(find(&schemas, "t_docsize").columns, vec!["id", "sz"]);

    let t_config = find(&schemas, "t_config");
    assert_eq!(t_config.columns, vec!["k", "v"]);
    assert!(t_config.without_rowid);
}

#[test]
fn rtree_virtual_table_is_graceful_unknown_shadow_tables_are_readable() {
    let schemas = read_fixture("features", "rtree.db");

    let virtual_entry = find(&schemas, "t");
    assert!(virtual_entry.is_virtual);
    assert!(virtual_entry.columns.is_empty());

    assert_eq!(find(&schemas, "t_rowid").columns, vec!["rowid", "nodeno"]);
    assert_eq!(find(&schemas, "t_node").columns, vec!["nodeno", "data"]);
    assert_eq!(
        find(&schemas, "t_parent").columns,
        vec!["nodeno", "parentnode"]
    );
}

#[test]
fn unparseable_non_virtual_ddl_degrades_gracefully_never_errors() {
    let values = vec![
        Value::Text("table".to_string()),
        Value::Text("weird".to_string()),
        Value::Text("weird".to_string()),
        Value::Integer(5),
        Value::Text("garbage with no parens".to_string()),
    ];
    let schema = table_schema(&values);
    assert_eq!(schema.name, "weird");
    assert_eq!(schema.root_page, 5);
    assert!(schema.columns.is_empty());
    assert!(!schema.is_virtual);
}

#[test]
fn non_table_entries_are_excluded() {
    let schemas = read_fixture("btrees", "index.db");
    assert_eq!(schemas.len(), 1);
    assert_eq!(schemas[0].name, "t");
    assert_eq!(schemas[0].indexes.len(), 1);
    assert_eq!(schemas[0].indexes[0].name, "idx_b");
    assert!(!schemas[0].indexes[0].unique);
    assert_eq!(schemas[0].indexes[0].columns.len(), 1);
    assert_eq!(schemas[0].indexes[0].columns[0].name, "b");
    assert!(!schemas[0].indexes[0].columns[0].desc);
}

#[test]
fn unique_index_with_multiple_columns_and_desc() {
    let sql = "CREATE UNIQUE INDEX idx_ab ON t(a DESC, b)";
    let (table_name, index) = index_schema(&[
        Value::Null,
        Value::Text("idx_ab".to_string()),
        Value::Text("t".to_string()),
        Value::Integer(0),
        Value::Text(sql.to_string()),
    ])
    .expect("index_schema should parse a simple CREATE UNIQUE INDEX");
    assert_eq!(table_name, "t");
    assert!(index.unique);
    assert_eq!(index.columns.len(), 2);
    assert_eq!(index.columns[0].name, "a");
    assert!(index.columns[0].desc);
    assert_eq!(index.columns[1].name, "b");
    assert!(!index.columns[1].desc);
}

#[test]
fn auto_index_with_null_sql_is_omitted() {
    let result = index_schema(&[
        Value::Null,
        Value::Text("sqlite_autoindex_t_1".to_string()),
        Value::Text("t".to_string()),
        Value::Integer(0),
        Value::Null,
    ]);
    assert!(result.is_none());
}

#[test]
fn quoted_text_and_comments_are_no_syntax() {
    let t = parsed(
        "CREATE TABLE t(a TEXT DEFAULT 'x,y)' /* , z */, \"b\" INT -- , w\n DEFAULT ')', [c] CHECK(c IN (1,2)))",
    );
    assert_eq!(t.columns, vec!["a", "b", "c"]);
    assert_eq!(t.column_types[0], "TEXT");
    assert_eq!(t.column_types[2], "");
    let t = parsed("CREATE TABLE t(a DEFAULT 'it''s, ok', b)");
    assert_eq!(t.columns, vec!["a", "b"]);
    let t = parsed("CREATE TABLE t(a, 'open");
    assert!(t.columns.is_empty());
}

#[test]
fn declared_types_end_at_the_first_constraint() {
    assert_eq!(column_type("x UNSIGNED BIG INT NOT NULL"), "UNSIGNED BIG INT");
    assert_eq!(column_type("x DECIMAL(10,5) CHECK(x > 0)"), "DECIMAL(10,5)");
    assert_eq!(column_type("x  double   precision default 1"), "double precision");
    assert_eq!(column_type("x"), "");
    assert_eq!(column_type("x references y(z)"), "");
    assert_eq!(column_type(""), "");
}

#[test]
fn column_definitions_agree_with_the_columns() {
    let t = parsed(
        "CREATE TABLE t(id INTEGER PRIMARY KEY, n TEXT COLLATE nocase, m COLLATE \"rtrim\", UNIQUE(n), CHECK (m > 0))",
    );
    assert_eq!(
        column_defs(&t),
        vec![
            "id INTEGER PRIMARY KEY",
            "n TEXT COLLATE nocase",
            "m COLLATE \"rtrim\""
        ]
    );
    assert_eq!(t.columns, vec!["id", "n", "m"]);
    assert_eq!(
        t.column_collations,
        vec![Collation::Binary, Collation::NoCase, Collation::RTrim]
    );
    assert_eq!(rowid_alias_column(&t), Some(0));
}

#[test]
fn rowid_aliases_are_integer_primary_keys() {
    for (sql, wanted) in [
        ("CREATE TABLE t(a, b INTEGER PRIMARY KEY)", Some(1)),
        ("CREATE TABLE t(a integer primary key autoincrement)", Some(0)),
        ("CREATE TABLE t(a INT PRIMARY KEY)", None),
        ("CREATE TABLE t(a INTEGER PRIMARY KEY DESC)", None),
        ("CREATE TABLE t(a INTEGER DEFAULT 'primary key')", None),
        ("CREATE TABLE t(a INTEGER PRIMARY KEY) WITHOUT ROWID", None),
        ("CREATE TABLE t(a INTEGER, PRIMARY KEY(A))", Some(0)),
        ("CREATE TABLE t(a INTEGER, b, PRIMARY KEY(a))", None),
        ("CREATE TABLE t(a TEXT, PRIMARY KEY(a))", None),
        ("CREATE TABLE t(a INTEGER, PRIMARY KEY(a, a))", None),
    ] {
        assert_eq!(rowid_alias_column(&parsed(sql)), wanted, "{sql}");
    }
}

#[test]
fn index_columns_carry_direction_and_collation() {
    let row = |sql: &str| {
        index_schema(&[text("index"), text("i"), text("t"), Value::Integer(9), text(sql)])
            .unwrap()
            .1
    };
    let index = row("CREATE INDEX i ON t(\"a\" COLLATE NOCASE ASC, lower(b) desc, [c])");
    assert_eq!(index.root_page, 9);
    assert_eq!(index.columns[0].name, "a");
    assert_eq!(index.columns[0].collation, Collation::NoCase);
    assert!(!index.columns[0].desc);
    assert_eq!(index.columns[1].name, "lower(b)");
    assert!(index.columns[1].desc);
    assert_eq!(index.columns[2].name, "c");
}

#[test]
fn indexes_go_to_the_first_table_of_their_name() {
    let rows = vec![
        master("index", "i", "u", 5, text("CREATE INDEX i ON u(x)")),
        table("t", 2, "CREATE TABLE t(x)"),
        table("u", 3, "CREATE TABLE u(x)"),
        table("u", 4, "CREATE TABLE u(y)"),
        master("index", "lost", "w", 6, text("CREATE INDEX lost ON w(x)")),
        master("trigger", "g", "t", 0, text("CREATE TRIGGER g")),
    ];
    let schemas = read_schema(&rows, &None, TextEncoding::Utf8).unwrap();
    let counts: Vec<usize> = schemas.iter().map(|t| t.indexes.len()).collect();
    assert_eq!(counts, vec![0, 1, 0]);
}

#[test]
fn views_and_names_are_listed_in_order() {
    let rows = vec![
        table("t", 2, "CREATE TABLE t(x)"),
        master("view", "v", "v", 0, text("CREATE VIEW v AS SELECT 1")),
        master("index", "i", "t", 3, text("CREATE INDEX i ON t(x)")),
        table("u", 4, "CREATE TABLE u(x)"),
    ];
    assert_eq!(
        read_table_and_view_names(&rows, &None, TextEncoding::Utf8).unwrap(),
        vec!["t", "v", "u"]
    );
    let views = read_views(&rows, &None, TextEncoding::Utf8).unwrap();
    assert_eq!(views.len(), 1);
    assert_eq!(views[0].name, "v");
    assert_eq!(views[0].sql, "CREATE VIEW v AS SELECT 1");
}

#[test]
fn broken_schema_tables_are_reported() {
    let short = encode_record(&vec![Value::Null; 4], TextEncoding::Utf8);
    let good = table("t", 2, "CREATE TABLE t(x)");
    let err = read_schema(&vec![good.clone(), short], &None, TextEncoding::Utf8).unwrap_err();
    assert_eq!(err, DdlError::MalformedRow(4));
    assert_eq!(err.describe(), "sqlite_master row has 4 columns, expected 5");
    let err = read_views(&vec![vec![]], &None, TextEncoding::Utf8).unwrap_err();
    assert_eq!(err, DdlError::Record(RecordError::UnexpectedEof { offset: 0 }));
    assert_eq!(
        err.describe(),
        "decoding a sqlite_master row: unexpected end of input at byte offset 0"
    );
    let failure = Some("page 7 is damaged".to_string());
    let err =
        read_table_and_view_names(&vec![good], &failure, TextEncoding::Utf8).unwrap_err();
    assert_eq!(err.describe(), "walking sqlite_master: page 7 is damaged");
}

#[test]
fn a_column_named_like_a_constraint_is_a_column() {
    let sql = "CREATE TABLE t(check_date TEXT, unique_id INT, constraint_name TEXT, primary keys, \
               foreign keyed, CHECKS, check$ BLOB COLLATE NOCASE, CHECK (unique_id > 0), \
               primary key(check_date, unique_id), UNIQUE(unique_id), CONSTRAINT c UNIQUE (CHECKS))";
    let t = parsed(sql);
    assert_eq!(
        t.columns,
        [
            "check_date",
            "unique_id",
            "constraint_name",
            "primary",
            "foreign",
            "CHECKS",
            "check$"
        ]
    );
    assert_eq!(t.column_types[0], "TEXT");
    assert_eq!(t.column_types[1], "INT");
    assert_eq!(t.column_collations[6], Collation::NoCase);
    let defs = column_defs(&t);
    assert_eq!(defs.len(), 7);
    assert_eq!(defs[0], "check_date TEXT");
}

#[test]
fn views_keep_the_order_of_their_rows() {
    let rows = vec![
        master("view", "v1", "v1", 0, text("CREATE VIEW v1 AS SELECT 1")),
        table("t", 2, "CREATE TABLE t(x)"),
        master("index", "i", "t", 3, text("CREATE INDEX i ON t(x)")),
        master("view", "v2", "v2", 0, text("CREATE VIEW v2 AS SELECT 2")),
    ];
    let views = read_views(&rows, &None, TextEncoding::Utf8).unwrap();
    let names: Vec<&str> = views.iter().map(|v| v.name.as_str()).collect();
    assert_eq!(names, ["v1", "v2"]);
    assert_eq!(
        read_table_and_view_names(&rows, &None, TextEncoding::Utf8).unwrap(),
        ["v1", "t", "v2"]
    );
}

#[test]
fn masking_twice_is_masking_once() {
    let blank = |n: usize| " ".repeat(n);
    for (sql, masked) in [
        ("a 'b''c' \"d\" [e] `f` g", format!("a{}g", blank(20))),
        ("x -- y\nz /* w */ -", format!("x{}\nz{}-", blank(5), blank(9))),
        ("'open", blank(5)),
        ("-/-/*", "-/-  ".to_string()),
    ] {
        let once = mask_quotes_and_comments(&sql.chars().collect());
        assert_eq!(once.iter().collect::<String>(), masked);
        assert_eq!(mask_quotes_and_comments(&once), once);
    }
}
