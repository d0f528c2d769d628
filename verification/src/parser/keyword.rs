//! The reserved words, their spelling, and the table they are looked up in.
use crate::text;
use vstd::prelude::*;

verus! {

/// SQLite reserved words, excluding `NULL`/`TRUE`/`FALSE`, which are literals with
/// token kinds of their own.
#[derive(Debug, Clone, Copy, PartialEq, Eq, Structural)]
#[allow(non_camel_case_types)]
pub enum Keyword {
    ABORT,
    ACTION,
    ADD,
    AFTER,
    ALL,
    ALTER,
    ALWAYS,
    ANALYZE,
    AND,
    AS,
    ASC,
    ATTACH,
    AUTOINCREMENT,
    BEFORE,
    BEGIN,
    BETWEEN,
    BY,
    CASCADE,
    CASE,
    CAST,
    CHECK,
    COLLATE,
    COLUMN,
    COMMIT,
    CONFLICT,
    CONSTRAINT,
    CREATE,
    CROSS,
    CURRENT,
    CURRENT_DATE,
    CURRENT_TIME,
    CURRENT_TIMESTAMP,
    DATABASE,
    DEFAULT,
    DEFERRABLE,
    DEFERRED,
    DELETE,
    DESC,
    DETACH,
    DISTINCT,
    DO,
    DROP,
    EACH,
    ELSE,
    END,
    ESCAPE,
    EXCEPT,
    EXCLUDE,
    EXCLUSIVE,
    EXISTS,
    EXPLAIN,
    FAIL,
    FILTER,
    FIRST,
    FOLLOWING,
    FOR,
    FOREIGN,
    FROM,
    FULL,
    GENERATED,
    GLOB,
    GROUP,
    GROUPS,
    HAVING,
    IF,
    IGNORE,
    IMMEDIATE,
    IN,
    INDEX,
    INDEXED,
    INITIALLY,
    INNER,
    INSERT,
    INSTEAD,
    INTERSECT,
    INTO,
    IS,
    ISNULL,
    JOIN,
    KEY,
    LAST,
    LEFT,
    LIKE,
    LIMIT,
    MATCH,
    MATERIALIZED,
    NATURAL,
    NO,
    NOT,
    NOTHING,
    NOTNULL,
    NULLS,
    OF,
    OFFSET,
    ON,
    OR,
    ORDER,
    OTHERS,
    OUTER,
    OVER,
    PARTITION,
    PLAN,
    PRAGMA,
    PRECEDING,
    PRIMARY,
    QUERY,
    RAISE,
    RANGE,
    RECURSIVE,
    REFERENCES,
    REGEXP,
    REINDEX,
    RELEASE,
    RENAME,
    REPLACE,
    RESTRICT,
    RETURNING,
    RIGHT,
    ROLLBACK,
    ROW,
    ROWS,
    SAVEPOINT,
    SELECT,
    SET,
    TABLE,
    TEMP,
    TEMPORARY,
    THEN,
    TIES,
    TO,
    TRANSACTION,
    TRIGGER,
    UNBOUNDED,
    UNION,
    UNIQUE,
    UPDATE,
    USING,
    VACUUM,
    VALUES,
    VIEW,
    VIRTUAL,
    WHEN,
    WHERE,
    WINDOW,
    WITH,
    WITHOUT,
}

impl Keyword {
    /// The word's spelling.
    #[verifier::opaque]
    pub open spec fn name(self) -> Seq<char> {
        match self {
            Keyword::ABORT => "ABORT"@,
            Keyword::ACTION => "ACTION"@,
            Keyword::ADD => "ADD"@,
            Keyword::AFTER => "AFTER"@,
            Keyword::ALL => "ALL"@,
            Keyword::ALTER => "ALTER"@,
            Keyword::ALWAYS => "ALWAYS"@,
            Keyword::ANALYZE => "ANALYZE"@,
            Keyword::AND => "AND"@,
            Keyword::AS => "AS"@,
            Keyword::ASC => "ASC"@,
            Keyword::ATTACH => "ATTACH"@,
            Keyword::AUTOINCREMENT => "AUTOINCREMENT"@,
            Keyword::BEFORE => "BEFORE"@,
            Keyword::BEGIN => "BEGIN"@,
            Keyword::BETWEEN => "BETWEEN"@,
            Keyword::BY => "BY"@,
            Keyword::CASCADE => "CASCADE"@,
            Keyword::CASE => "CASE"@,
            Keyword::CAST => "CAST"@,
            Keyword::CHECK => "CHECK"@,
            Keyword::COLLATE => "COLLATE"@,
            Keyword::COLUMN => "COLUMN"@,
            Keyword::COMMIT => "COMMIT"@,
            Keyword::CONFLICT => "CONFLICT"@,
            Keyword::CONSTRAINT => "CONSTRAINT"@,
            Keyword::CREATE => "CREATE"@,
            Keyword::CROSS => "CROSS"@,
            Keyword::CURRENT => "CURRENT"@,
            Keyword::CURRENT_DATE => "CURRENT_DATE"@,
            Keyword::CURRENT_TIME => "CURRENT_TIME"@,
            Keyword::CURRENT_TIMESTAMP => "CURRENT_TIMESTAMP"@,
            Keyword::DATABASE => "DATABASE"@,
            Keyword::DEFAULT => "DEFAULT"@,
            Keyword::DEFERRABLE => "DEFERRABLE"@,
            Keyword::DEFERRED => "DEFERRED"@,
            Keyword::DELETE => "DELETE"@,
            Keyword::DESC => "DESC"@,
            Keyword::DETACH => "DETACH"@,
            Keyword::DISTINCT => "DISTINCT"@,
            Keyword::DO => "DO"@,
            Keyword::DROP => "DROP"@,
            Keyword::EACH => "EACH"@,
            Keyword::ELSE => "ELSE"@,
            Keyword::END => "END"@,
            Keyword::ESCAPE => "ESCAPE"@,
            Keyword::EXCEPT => "EXCEPT"@,
            Keyword::EXCLUDE => "EXCLUDE"@,
            Keyword::EXCLUSIVE => "EXCLUSIVE"@,
            Keyword::EXISTS => "EXISTS"@,
            Keyword::EXPLAIN => "EXPLAIN"@,
            Keyword::FAIL => "FAIL"@,
            Keyword::FILTER => "FILTER"@,
            Keyword::FIRST => "FIRST"@,
            Keyword::FOLLOWING => "FOLLOWING"@,
            Keyword::FOR => "FOR"@,
            Keyword::FOREIGN => "FOREIGN"@,
            Keyword::FROM => "FROM"@,
            Keyword::FULL => "FULL"@,
            Keyword::GENERATED => "GENERATED"@,
            Keyword::GLOB => "GLOB"@,
            Keyword::GROUP => "GROUP"@,
            Keyword::GROUPS => "GROUPS"@,
            Keyword::HAVING => "HAVING"@,
            Keyword::IF => "IF"@,
            Keyword::IGNORE => "IGNORE"@,
            Keyword::IMMEDIATE => "IMMEDIATE"@,
            Keyword::IN => "IN"@,
            Keyword::INDEX => "INDEX"@,
            Keyword::INDEXED => "INDEXED"@,
            Keyword::INITIALLY => "INITIALLY"@,
            Keyword::INNER => "INNER"@,
            Keyword::INSERT => "INSERT"@,
            Keyword::INSTEAD => "INSTEAD"@,
            Keyword::INTERSECT => "INTERSECT"@,
            Keyword::INTO => "INTO"@,
            Keyword::IS => "IS"@,
            Keyword::ISNULL => "ISNULL"@,
            Keyword::JOIN => "JOIN"@,
            Keyword::KEY => "KEY"@,
            Keyword::LAST => "LAST"@,
            Keyword::LEFT => "LEFT"@,
            Keyword::LIKE => "LIKE"@,
            Keyword::LIMIT => "LIMIT"@,
            Keyword::MATCH => "MATCH"@,
            Keyword::MATERIALIZED => "MATERIALIZED"@,
            Keyword::NATURAL => "NATURAL"@,
            Keyword::NO => "NO"@,
            Keyword::NOT => "NOT"@,
            Keyword::NOTHING => "NOTHING"@,
            Keyword::NOTNULL => "NOTNULL"@,
            Keyword::NULLS => "NULLS"@,
            Keyword::OF => "OF"@,
            Keyword::OFFSET => "OFFSET"@,
            Keyword::ON => "ON"@,
            Keyword::OR => "OR"@,
            Keyword::ORDER => "ORDER"@,
            Keyword::OTHERS => "OTHERS"@,
            Keyword::OUTER => "OUTER"@,
            Keyword::OVER => "OVER"@,
            Keyword::PARTITION => "PARTITION"@,
            Keyword::PLAN => "PLAN"@,
            Keyword::PRAGMA => "PRAGMA"@,
            Keyword::PRECEDING => "PRECEDING"@,
            Keyword::PRIMARY => "PRIMARY"@,
            Keyword::QUERY => "QUERY"@,
            Keyword::RAISE => "RAISE"@,
            Keyword::RANGE => "RANGE"@,
            Keyword::RECURSIVE => "RECURSIVE"@,
            Keyword::REFERENCES => "REFERENCES"@,
            Keyword::REGEXP => "REGEXP"@,
            Keyword::REINDEX => "REINDEX"@,
            Keyword::RELEASE => "RELEASE"@,
            Keyword::RENAME => "RENAME"@,
            Keyword::REPLACE => "REPLACE"@,
            Keyword::RESTRICT => "RESTRICT"@,
            Keyword::RETURNING => "RETURNING"@,
            Keyword::RIGHT => "RIGHT"@,
            Keyword::ROLLBACK => "ROLLBACK"@,
            Keyword::ROW => "ROW"@,
            Keyword::ROWS => "ROWS"@,
            Keyword::SAVEPOINT => "SAVEPOINT"@,
            Keyword::SELECT => "SELECT"@,
            Keyword::SET => "SET"@,
            Keyword::TABLE => "TABLE"@,
            Keyword::TEMP => "TEMP"@,
            Keyword::TEMPORARY => "TEMPORARY"@,
            Keyword::THEN => "THEN"@,
            Keyword::TIES => "TIES"@,
            Keyword::TO => "TO"@,
            Keyword::TRANSACTION => "TRANSACTION"@,
            Keyword::TRIGGER => "TRIGGER"@,
            Keyword::UNBOUNDED => "UNBOUNDED"@,
            Keyword::UNION => "UNION"@,
            Keyword::UNIQUE => "UNIQUE"@,
            Keyword::UPDATE => "UPDATE"@,
            Keyword::USING => "USING"@,
            Keyword::VACUUM => "VACUUM"@,
            Keyword::VALUES => "VALUES"@,
            Keyword::VIEW => "VIEW"@,
            Keyword::VIRTUAL => "VIRTUAL"@,
            Keyword::WHEN => "WHEN"@,
            Keyword::WHERE => "WHERE"@,
            Keyword::WINDOW => "WINDOW"@,
            Keyword::WITH => "WITH"@,
            Keyword::WITHOUT => "WITHOUT"@,
        }
    }

    /// The word's place in the table.
    pub open spec fn rank(self) -> int {
        match self {
            Keyword::ABORT => 0,
            Keyword::ACTION => 1,
            Keyword::ADD => 2,
            Keyword::AFTER => 3,
            Keyword::ALL => 4,
            Keyword::ALTER => 5,
            Keyword::ALWAYS => 6,
            Keyword::ANALYZE => 7,
            Keyword::AND => 8,
            Keyword::AS => 9,
            Keyword::ASC => 10,
            Keyword::ATTACH => 11,
            Keyword::AUTOINCREMENT => 12,
            Keyword::BEFORE => 13,
            Keyword::BEGIN => 14,
            Keyword::BETWEEN => 15,
            Keyword::BY => 16,
            Keyword::CASCADE => 17,
            Keyword::CASE => 18,
            Keyword::CAST => 19,
            Keyword::CHECK => 20,
            Keyword::COLLATE => 21,
            Keyword::COLUMN => 22,
            Keyword::COMMIT => 23,
            Keyword::CONFLICT => 24,
            Keyword::CONSTRAINT => 25,
            Keyword::CREATE => 26,
            Keyword::CROSS => 27,
            Keyword::CURRENT => 28,
            Keyword::CURRENT_DATE => 29,
            Keyword::CURRENT_TIME => 30,
            Keyword::CURRENT_TIMESTAMP => 31,
            Keyword::DATABASE => 32,
            Keyword::DEFAULT => 33,
            Keyword::DEFERRABLE => 34,
            Keyword::DEFERRED => 35,
            Keyword::DELETE => 36,
            Keyword::DESC => 37,
            Keyword::DETACH => 38,
            Keyword::DISTINCT => 39,
            Keyword::DO => 40,
            Keyword::DROP => 41,
            Keyword::EACH => 42,
            Keyword::ELSE => 43,
            Keyword::END => 44,
            Keyword::ESCAPE => 45,
            Keyword::EXCEPT => 46,
            Keyword::EXCLUDE => 47,
            Keyword::EXCLUSIVE => 48,
            Keyword::EXISTS => 49,
            Keyword::EXPLAIN => 50,
            Keyword::FAIL => 51,
            Keyword::FILTER => 52,
            Keyword::FIRST => 53,
            Keyword::FOLLOWING => 54,
            Keyword::FOR => 55,
            Keyword::FOREIGN => 56,
            Keyword::FROM => 57,
            Keyword::FULL => 58,
            Keyword::GENERATED => 59,
            Keyword::GLOB => 60,
            Keyword::GROUP => 61,
            Keyword::GROUPS => 62,
            Keyword::HAVING => 63,
            Keyword::IF => 64,
            Keyword::IGNORE => 65,
            Keyword::IMMEDIATE => 66,
            Keyword::IN => 67,
            Keyword::INDEX => 68,
            Keyword::INDEXED => 69,
            Keyword::INITIALLY => 70,
            Keyword::INNER => 71,
            Keyword::INSERT => 72,
            Keyword::INSTEAD => 73,
            Keyword::INTERSECT => 74,
            Keyword::INTO => 75,
            Keyword::IS => 76,
            Keyword::ISNULL => 77,
            Keyword::JOIN => 78,
            Keyword::KEY => 79,
            Keyword::LAST => 80,
            Keyword::LEFT => 81,
            Keyword::LIKE => 82,
            Keyword::LIMIT => 83,
            Keyword::MATCH => 84,
            Keyword::MATERIALIZED => 85,
            Keyword::NATURAL => 86,
            Keyword::NO => 87,
            Keyword::NOT => 88,
            Keyword::NOTHING => 89,
            Keyword::NOTNULL => 90,
            Keyword::NULLS => 91,
            Keyword::OF => 92,
            Keyword::OFFSET => 93,
            Keyword::ON => 94,
            Keyword::OR => 95,
            Keyword::ORDER => 96,
            Keyword::OTHERS => 97,
            Keyword::OUTER => 98,
            Keyword::OVER => 99,
            Keyword::PARTITION => 100,
            Keyword::PLAN => 101,
            Keyword::PRAGMA => 102,
            Keyword::PRECEDING => 103,
            Keyword::PRIMARY => 104,
            Keyword::QUERY => 105,
            Keyword::RAISE => 106,
            Keyword::RANGE => 107,
            Keyword::RECURSIVE => 108,
            Keyword::REFERENCES => 109,
            Keyword::REGEXP => 110,
            Keyword::REINDEX => 111,
            Keyword::RELEASE => 112,
            Keyword::RENAME => 113,
            Keyword::REPLACE => 114,
            Keyword::RESTRICT => 115,
            Keyword::RETURNING => 116,
            Keyword::RIGHT => 117,
            Keyword::ROLLBACK => 118,
            Keyword::ROW => 119,
            Keyword::ROWS => 120,
            Keyword::SAVEPOINT => 121,
            Keyword::SELECT => 122,
            Keyword::SET => 123,
            Keyword::TABLE => 124,
            Keyword::TEMP => 125,
            Keyword::TEMPORARY => 126,
            Keyword::THEN => 127,
            Keyword::TIES => 128,
            Keyword::TO => 129,
            Keyword::TRANSACTION => 130,
            Keyword::TRIGGER => 131,
            Keyword::UNBOUNDED => 132,
            Keyword::UNION => 133,
            Keyword::UNIQUE => 134,
            Keyword::UPDATE => 135,
            Keyword::USING => 136,
            Keyword::VACUUM => 137,
            Keyword::VALUES => 138,
            Keyword::VIEW => 139,
            Keyword::VIRTUAL => 140,
            Keyword::WHEN => 141,
            Keyword::WHERE => 142,
            Keyword::WINDOW => 143,
            Keyword::WITH => 144,
            Keyword::WITHOUT => 145,
        }
    }

    /// The word's spelling, in capitals.
    pub fn text(self) -> (s: &'static str)
        ensures
            s@ == self.name(),
    {
        proof {
            reveal(Keyword::name);
        }
        match self {
            Keyword::ABORT => "ABORT",
            Keyword::ACTION => "ACTION",
            Keyword::ADD => "ADD",
            Keyword::AFTER => "AFTER",
            Keyword::ALL => "ALL",
            Keyword::ALTER => "ALTER",
            Keyword::ALWAYS => "ALWAYS",
            Keyword::ANALYZE => "ANALYZE",
            Keyword::AND => "AND",
            Keyword::AS => "AS",
            Keyword::ASC => "ASC",
            Keyword::ATTACH => "ATTACH",
            Keyword::AUTOINCREMENT => "AUTOINCREMENT",
            Keyword::BEFORE => "BEFORE",
            Keyword::BEGIN => "BEGIN",
            Keyword::BETWEEN => "BETWEEN",
            Keyword::BY => "BY",
            Keyword::CASCADE => "CASCADE",
            Keyword::CASE => "CASE",
            Keyword::CAST => "CAST",
            Keyword::CHECK => "CHECK",
            Keyword::COLLATE => "COLLATE",
            Keyword::COLUMN => "COLUMN",
            Keyword::COMMIT => "COMMIT",
            Keyword::CONFLICT => "CONFLICT",
            Keyword::CONSTRAINT => "CONSTRAINT",
            Keyword::CREATE => "CREATE",
            Keyword::CROSS => "CROSS",
            Keyword::CURRENT => "CURRENT",
            Keyword::CURRENT_DATE => "CURRENT_DATE",
            Keyword::CURRENT_TIME => "CURRENT_TIME",
            Keyword::CURRENT_TIMESTAMP => "CURRENT_TIMESTAMP",
            Keyword::DATABASE => "DATABASE",
            Keyword::DEFAULT => "DEFAULT",
            Keyword::DEFERRABLE => "DEFERRABLE",
            Keyword::DEFERRED => "DEFERRED",
            Keyword::DELETE => "DELETE",
            Keyword::DESC => "DESC",
            Keyword::DETACH => "DETACH",
            Keyword::DISTINCT => "DISTINCT",
            Keyword::DO => "DO",
            Keyword::DROP => "DROP",
            Keyword::EACH => "EACH",
            Keyword::ELSE => "ELSE",
            Keyword::END => "END",
            Keyword::ESCAPE => "ESCAPE",
            Keyword::EXCEPT => "EXCEPT",
            Keyword::EXCLUDE => "EXCLUDE",
            Keyword::EXCLUSIVE => "EXCLUSIVE",
            Keyword::EXISTS => "EXISTS",
            Keyword::EXPLAIN => "EXPLAIN",
            Keyword::FAIL => "FAIL",
            Keyword::FILTER => "FILTER",
            Keyword::FIRST => "FIRST",
            Keyword::FOLLOWING => "FOLLOWING",
            Keyword::FOR => "FOR",
            Keyword::FOREIGN => "FOREIGN",
            Keyword::FROM => "FROM",
            Keyword::FULL => "FULL",
            Keyword::GENERATED => "GENERATED",
            Keyword::GLOB => "GLOB",
            Keyword::GROUP => "GROUP",
            Keyword::GROUPS => "GROUPS",
            Keyword::HAVING => "HAVING",
            Keyword::IF => "IF",
            Keyword::IGNORE => "IGNORE",
            Keyword::IMMEDIATE => "IMMEDIATE",
            Keyword::IN => "IN",
            Keyword::INDEX => "INDEX",
            Keyword::INDEXED => "INDEXED",
            Keyword::INITIALLY => "INITIALLY",
            Keyword::INNER => "INNER",
            Keyword::INSERT => "INSERT",
            Keyword::INSTEAD => "INSTEAD",
            Keyword::INTERSECT => "INTERSECT",
            Keyword::INTO => "INTO",
            Keyword::IS => "IS",
            Keyword::ISNULL => "ISNULL",
            Keyword::JOIN => "JOIN",
            Keyword::KEY => "KEY",
            Keyword::LAST => "LAST",
            Keyword::LEFT => "LEFT",
            Keyword::LIKE => "LIKE",
            Keyword::LIMIT => "LIMIT",
            Keyword::MATCH => "MATCH",
            Keyword::MATERIALIZED => "MATERIALIZED",
            Keyword::NATURAL => "NATURAL",
            Keyword::NO => "NO",
            Keyword::NOT => "NOT",
            Keyword::NOTHING => "NOTHING",
            Keyword::NOTNULL => "NOTNULL",
            Keyword::NULLS => "NULLS",
            Keyword::OF => "OF",
            Keyword::OFFSET => "OFFSET",
            Keyword::ON => "ON",
            Keyword::OR => "OR",
            Keyword::ORDER => "ORDER",
            Keyword::OTHERS => "OTHERS",
            Keyword::OUTER => "OUTER",
            Keyword::OVER => "OVER",
            Keyword::PARTITION => "PARTITION",
            Keyword::PLAN => "PLAN",
            Keyword::PRAGMA => "PRAGMA",
            Keyword::PRECEDING => "PRECEDING",
            Keyword::PRIMARY => "PRIMARY",
            Keyword::QUERY => "QUERY",
            Keyword::RAISE => "RAISE",
            Keyword::RANGE => "RANGE",
            Keyword::RECURSIVE => "RECURSIVE",
            Keyword::REFERENCES => "REFERENCES",
            Keyword::REGEXP => "REGEXP",
            Keyword::REINDEX => "REINDEX",
            Keyword::RELEASE => "RELEASE",
            Keyword::RENAME => "RENAME",
            Keyword::REPLACE => "REPLACE",
            Keyword::RESTRICT => "RESTRICT",
            Keyword::RETURNING => "RETURNING",
            Keyword::RIGHT => "RIGHT",
            Keyword::ROLLBACK => "ROLLBACK",
            Keyword::ROW => "ROW",
            Keyword::ROWS => "ROWS",
            Keyword::SAVEPOINT => "SAVEPOINT",
            Keyword::SELECT => "SELECT",
            Keyword::SET => "SET",
            Keyword::TABLE => "TABLE",
            Keyword::TEMP => "TEMP",
            Keyword::TEMPORARY => "TEMPORARY",
            Keyword::THEN => "THEN",
            Keyword::TIES => "TIES",
            Keyword::TO => "TO",
            Keyword::TRANSACTION => "TRANSACTION",
            Keyword::TRIGGER => "TRIGGER",
            Keyword::UNBOUNDED => "UNBOUNDED",
            Keyword::UNION => "UNION",
            Keyword::UNIQUE => "UNIQUE",
            Keyword::UPDATE => "UPDATE",
            Keyword::USING => "USING",
            Keyword::VACUUM => "VACUUM",
            Keyword::VALUES => "VALUES",
            Keyword::VIEW => "VIEW",
            Keyword::VIRTUAL => "VIRTUAL",
            Keyword::WHEN => "WHEN",
            Keyword::WHERE => "WHERE",
            Keyword::WINDOW => "WINDOW",
            Keyword::WITH => "WITH",
            Keyword::WITHOUT => "WITHOUT",
        }
    }
}

/// How many reserved words there are.
pub const KEYWORD_COUNT: usize = 146;

/// The word at place `i` of the table.
pub open spec fn ranked(i: int) -> Keyword {
    match i as usize {
        0 => Keyword::ABORT,
        1 => Keyword::ACTION,
        2 => Keyword::ADD,
        3 => Keyword::AFTER,
        4 => Keyword::ALL,
        5 => Keyword::ALTER,
        6 => Keyword::ALWAYS,
        7 => Keyword::ANALYZE,
        8 => Keyword::AND,
        9 => Keyword::AS,
        10 => Keyword::ASC,
        11 => Keyword::ATTACH,
        12 => Keyword::AUTOINCREMENT,
        13 => Keyword::BEFORE,
        14 => Keyword::BEGIN,
        15 => Keyword::BETWEEN,
        16 => Keyword::BY,
        17 => Keyword::CASCADE,
        18 => Keyword::CASE,
        19 => Keyword::CAST,
        20 => Keyword::CHECK,
        21 => Keyword::COLLATE,
        22 => Keyword::COLUMN,
        23 => Keyword::COMMIT,
        24 => Keyword::CONFLICT,
        25 => Keyword::CONSTRAINT,
        26 => Keyword::CREATE,
        27 => Keyword::CROSS,
        28 => Keyword::CURRENT,
        29 => Keyword::CURRENT_DATE,
        30 => Keyword::CURRENT_TIME,
        31 => Keyword::CURRENT_TIMESTAMP,
        32 => Keyword::DATABASE,
        33 => Keyword::DEFAULT,
        34 => Keyword::DEFERRABLE,
        35 => Keyword::DEFERRED,
        36 => Keyword::DELETE,
        37 => Keyword::DESC,
        38 => Keyword::DETACH,
        39 => Keyword::DISTINCT,
        40 => Keyword::DO,
        41 => Keyword::DROP,
        42 => Keyword::EACH,
        43 => Keyword::ELSE,
        44 => Keyword::END,
        45 => Keyword::ESCAPE,
        46 => Keyword::EXCEPT,
        47 => Keyword::EXCLUDE,
        48 => Keyword::EXCLUSIVE,
        49 => Keyword::EXISTS,
        50 => Keyword::EXPLAIN,
        51 => Keyword::FAIL,
        52 => Keyword::FILTER,
        53 => Keyword::FIRST,
        54 => Keyword::FOLLOWING,
        55 => Keyword::FOR,
        56 => Keyword::FOREIGN,
        57 => Keyword::FROM,
        58 => Keyword::FULL,
        59 => Keyword::GENERATED,
        60 => Keyword::GLOB,
        61 => Keyword::GROUP,
        62 => Keyword::GROUPS,
        63 => Keyword::HAVING,
        64 => Keyword::IF,
        65 => Keyword::IGNORE,
        66 => Keyword::IMMEDIATE,
        67 => Keyword::IN,
        68 => Keyword::INDEX,
        69 => Keyword::INDEXED,
        70 => Keyword::INITIALLY,
        71 => Keyword::INNER,
        72 => Keyword::INSERT,
        73 => Keyword::INSTEAD,
        74 => Keyword::INTERSECT,
        75 => Keyword::INTO,
        76 => Keyword::IS,
        77 => Keyword::ISNULL,
        78 => Keyword::JOIN,
        79 => Keyword::KEY,
        80 => Keyword::LAST,
        81 => Keyword::LEFT,
        82 => Keyword::LIKE,
        83 => Keyword::LIMIT,
        84 => Keyword::MATCH,
        85 => Keyword::MATERIALIZED,
        86 => Keyword::NATURAL,
        87 => Keyword::NO,
        88 => Keyword::NOT,
        89 => Keyword::NOTHING,
        90 => Keyword::NOTNULL,
        91 => Keyword::NULLS,
        92 => Keyword::OF,
        93 => Keyword::OFFSET,
        94 => Keyword::ON,
        95 => Keyword::OR,
        96 => Keyword::ORDER,
        97 => Keyword::OTHERS,
        98 => Keyword::OUTER,
        99 => Keyword::OVER,
        100 => Keyword::PARTITION,
        101 => Keyword::PLAN,
        102 => Keyword::PRAGMA,
        103 => Keyword::PRECEDING,
        104 => Keyword::PRIMARY,
        105 => Keyword::QUERY,
        106 => Keyword::RAISE,
        107 => Keyword::RANGE,
        108 => Keyword::RECURSIVE,
        109 => Keyword::REFERENCES,
        110 => Keyword::REGEXP,
        111 => Keyword::REINDEX,
        112 => Keyword::RELEASE,
        113 => Keyword::RENAME,
        114 => Keyword::REPLACE,
        115 => Keyword::RESTRICT,
        116 => Keyword::RETURNING,
        117 => Keyword::RIGHT,
        118 => Keyword::ROLLBACK,
        119 => Keyword::ROW,
        120 => Keyword::ROWS,
        121 => Keyword::SAVEPOINT,
        122 => Keyword::SELECT,
        123 => Keyword::SET,
        124 => Keyword::TABLE,
        125 => Keyword::TEMP,
        126 => Keyword::TEMPORARY,
        127 => Keyword::THEN,
        128 => Keyword::TIES,
        129 => Keyword::TO,
        130 => Keyword::TRANSACTION,
        131 => Keyword::TRIGGER,
        132 => Keyword::UNBOUNDED,
        133 => Keyword::UNION,
        134 => Keyword::UNIQUE,
        135 => Keyword::UPDATE,
        136 => Keyword::USING,
        137 => Keyword::VACUUM,
        138 => Keyword::VALUES,
        139 => Keyword::VIEW,
        140 => Keyword::VIRTUAL,
        141 => Keyword::WHEN,
        142 => Keyword::WHERE,
        143 => Keyword::WINDOW,
        144 => Keyword::WITH,
        _ => Keyword::WITHOUT,
    }
}

/// The word at place `i` of the table.
pub fn keyword_at(i: usize) -> (k: Keyword)
    requires
        i < KEYWORD_COUNT,
    ensures
        k == ranked(i as int),
{
    match i {
        0 => Keyword::ABORT,
        1 => Keyword::ACTION,
        2 => Keyword::ADD,
        3 => Keyword::AFTER,
        4 => Keyword::ALL,
        5 => Keyword::ALTER,
        6 => Keyword::ALWAYS,
        7 => Keyword::ANALYZE,
        8 => Keyword::AND,
        9 => Keyword::AS,
        10 => Keyword::ASC,
        11 => Keyword::ATTACH,
        12 => Keyword::AUTOINCREMENT,
        13 => Keyword::BEFORE,
        14 => Keyword::BEGIN,
        15 => Keyword::BETWEEN,
        16 => Keyword::BY,
        17 => Keyword::CASCADE,
        18 => Keyword::CASE,
        19 => Keyword::CAST,
        20 => Keyword::CHECK,
        21 => Keyword::COLLATE,
        22 => Keyword::COLUMN,
        23 => Keyword::COMMIT,
        24 => Keyword::CONFLICT,
        25 => Keyword::CONSTRAINT,
        26 => Keyword::CREATE,
        27 => Keyword::CROSS,
        28 => Keyword::CURRENT,
        29 => Keyword::CURRENT_DATE,
        30 => Keyword::CURRENT_TIME,
        31 => Keyword::CURRENT_TIMESTAMP,
        32 => Keyword::DATABASE,
        33 => Keyword::DEFAULT,
        34 => Keyword::DEFERRABLE,
        35 => Keyword::DEFERRED,
        36 => Keyword::DELETE,
        37 => Keyword::DESC,
        38 => Keyword::DETACH,
        39 => Keyword::DISTINCT,
        40 => Keyword::DO,
        41 => Keyword::DROP,
        42 => Keyword::EACH,
        43 => Keyword::ELSE,
        44 => Keyword::END,
        45 => Keyword::ESCAPE,
        46 => Keyword::EXCEPT,
        47 => Keyword::EXCLUDE,
        48 => Keyword::EXCLUSIVE,
        49 => Keyword::EXISTS,
        50 => Keyword::EXPLAIN,
        51 => Keyword::FAIL,
        52 => Keyword::FILTER,
        53 => Keyword::FIRST,
        54 => Keyword::FOLLOWING,
        55 => Keyword::FOR,
        56 => Keyword::FOREIGN,
        57 => Keyword::FROM,
        58 => Keyword::FULL,
        59 => Keyword::GENERATED,
        60 => Keyword::GLOB,
        61 => Keyword::GROUP,
        62 => Keyword::GROUPS,
        63 => Keyword::HAVING,
        64 => Keyword::IF,
        65 => Keyword::IGNORE,
        66 => Keyword::IMMEDIATE,
        67 => Keyword::IN,
        68 => Keyword::INDEX,
        69 => Keyword::INDEXED,
        70 => Keyword::INITIALLY,
        71 => Keyword::INNER,
        72 => Keyword::INSERT,
        73 => Keyword::INSTEAD,
        74 => Keyword::INTERSECT,
        75 => Keyword::INTO,
        76 => Keyword::IS,
        77 => Keyword::ISNULL,
        78 => Keyword::JOIN,
        79 => Keyword::KEY,
        80 => Keyword::LAST,
        81 => Keyword::LEFT,
        82 => Keyword::LIKE,
        83 => Keyword::LIMIT,
        84 => Keyword::MATCH,
        85 => Keyword::MATERIALIZED,
        86 => Keyword::NATURAL,
        87 => Keyword::NO,
        88 => Keyword::NOT,
        89 => Keyword::NOTHING,
        90 => Keyword::NOTNULL,
        91 => Keyword::NULLS,
        92 => Keyword::OF,
        93 => Keyword::OFFSET,
        94 => Keyword::ON,
        95 => Keyword::OR,
        96 => Keyword::ORDER,
        97 => Keyword::OTHERS,
        98 => Keyword::OUTER,
        99 => Keyword::OVER,
        100 => Keyword::PARTITION,
        101 => Keyword::PLAN,
        102 => Keyword::PRAGMA,
        103 => Keyword::PRECEDING,
        104 => Keyword::PRIMARY,
        105 => Keyword::QUERY,
        106 => Keyword::RAISE,
        107 => Keyword::RANGE,
        108 => Keyword::RECURSIVE,
        109 => Keyword::REFERENCES,
        110 => Keyword::REGEXP,
        111 => Keyword::REINDEX,
        112 => Keyword::RELEASE,
        113 => Keyword::RENAME,
        114 => Keyword::REPLACE,
        115 => Keyword::RESTRICT,
        116 => Keyword::RETURNING,
        117 => Keyword::RIGHT,
        118 => Keyword::ROLLBACK,
        119 => Keyword::ROW,
        120 => Keyword::ROWS,
        121 => Keyword::SAVEPOINT,
        122 => Keyword::SELECT,
        123 => Keyword::SET,
        124 => Keyword::TABLE,
        125 => Keyword::TEMP,
        126 => Keyword::TEMPORARY,
        127 => Keyword::THEN,
        128 => Keyword::TIES,
        129 => Keyword::TO,
        130 => Keyword::TRANSACTION,
        131 => Keyword::TRIGGER,
        132 => Keyword::UNBOUNDED,
        133 => Keyword::UNION,
        134 => Keyword::UNIQUE,
        135 => Keyword::UPDATE,
        136 => Keyword::USING,
        137 => Keyword::VACUUM,
        138 => Keyword::VALUES,
        139 => Keyword::VIEW,
        140 => Keyword::VIRTUAL,
        141 => Keyword::WHEN,
        142 => Keyword::WHERE,
        143 => Keyword::WINDOW,
        144 => Keyword::WITH,
        _ => Keyword::WITHOUT,
    }
}

/// Every word stands in the table, at its rank and nowhere else.
pub proof fn law_table_complete(k: Keyword, i: int)
    requires
        0 <= i < KEYWORD_COUNT,
    ensures
        0 <= k.rank() < KEYWORD_COUNT,
        ranked(k.rank()) == k,
        ranked(i).rank() == i,
{
}


proof fn sorted_from_0(i: int)
    requires
        0 <= i < 12,
    ensures
        text::before(ranked(i).name(), ranked(i + 1).name()),
{
    reveal(Keyword::name);
    if i == 0 {
        reveal_strlit("ABORT");
        reveal_strlit("ACTION");
        assert(text::splits_at("ABORT"@, "ACTION"@, 1));
    } else if i == 1 {
        reveal_strlit("ACTION");
        reveal_strlit("ADD");
        assert(text::splits_at("ACTION"@, "ADD"@, 1));
    } else if i == 2 {
        reveal_strlit("ADD");
        reveal_strlit("AFTER");
        assert(text::splits_at("ADD"@, "AFTER"@, 1));
    } else if i == 3 {
        reveal_strlit("AFTER");
        reveal_strlit("ALL");
        assert(text::splits_at("AFTER"@, "ALL"@, 1));
    } else if i == 4 {
        reveal_strlit("ALL");
        reveal_strlit("ALTER");
        assert(text::splits_at("ALL"@, "ALTER"@, 2));
    } else if i == 5 {
        reveal_strlit("ALTER");
        reveal_strlit("ALWAYS");
        assert(text::splits_at("ALTER"@, "ALWAYS"@, 2));
    } else if i == 6 {
        reveal_strlit("ALWAYS");
        reveal_strlit("ANALYZE");
        assert(text::splits_at("ALWAYS"@, "ANALYZE"@, 1));
    } else if i == 7 {
        reveal_strlit("ANALYZE");
        reveal_strlit("AND");
        assert(text::splits_at("ANALYZE"@, "AND"@, 2));
    } else if i == 8 {
        reveal_strlit("AND");
        reveal_strlit("AS");
        assert(text::splits_at("AND"@, "AS"@, 1));
    } else if i == 9 {
        reveal_strlit("AS");
        reveal_strlit("ASC");
        assert(text::splits_at("AS"@, "ASC"@, 2));
    } else if i == 10 {
        reveal_strlit("ASC");
        reveal_strlit("ATTACH");
        assert(text::splits_at("ASC"@, "ATTACH"@, 1));
    } else if i == 11 {
        reveal_strlit("ATTACH");
        reveal_strlit("AUTOINCREMENT");
        assert(text::splits_at("ATTACH"@, "AUTOINCREMENT"@, 1));
    }
}

proof fn sorted_from_12(i: int)
    requires
        12 <= i < 24,
    ensures
        text::before(ranked(i).name(), ranked(i + 1).name()),
{
    reveal(Keyword::name);
    if i == 12 {
        reveal_strlit("AUTOINCREMENT");
        reveal_strlit("BEFORE");
        assert(text::splits_at("AUTOINCREMENT"@, "BEFORE"@, 0));
    } else if i == 13 {
        reveal_strlit("BEFORE");
        reveal_strlit("BEGIN");
        assert(text::splits_at("BEFORE"@, "BEGIN"@, 2));
    } else if i == 14 {
        reveal_strlit("BEGIN");
        reveal_strlit("BETWEEN");
        assert(text::splits_at("BEGIN"@, "BETWEEN"@, 2));
    } else if i == 15 {
        reveal_strlit("BETWEEN");
        reveal_strlit("BY");
        assert(text::splits_at("BETWEEN"@, "BY"@, 1));
    } else if i == 16 {
        reveal_strlit("BY");
        reveal_strlit("CASCADE");
        assert(text::splits_at("BY"@, "CASCADE"@, 0));
    } else if i == 17 {
        reveal_strlit("CASCADE");
        reveal_strlit("CASE");
        assert(text::splits_at("CASCADE"@, "CASE"@, 3));
    } else if i == 18 {
        reveal_strlit("CASE");
        reveal_strlit("CAST");
        assert(text::splits_at("CASE"@, "CAST"@, 3));
    } else if i == 19 {
        reveal_strlit("CAST");
        reveal_strlit("CHECK");
        assert(text::splits_at("CAST"@, "CHECK"@, 1));
    } else if i == 20 {
        reveal_strlit("CHECK");
        reveal_strlit("COLLATE");
        assert(text::splits_at("CHECK"@, "COLLATE"@, 1));
    } else if i == 21 {
        reveal_strlit("COLLATE");
        reveal_strlit("COLUMN");
        assert(text::splits_at("COLLATE"@, "COLUMN"@, 3));
    } else if i == 22 {
        reveal_strlit("COLUMN");
        reveal_strlit("COMMIT");
        assert(text::splits_at("COLUMN"@, "COMMIT"@, 2));
    } else if i == 23 {
        reveal_strlit("COMMIT");
        reveal_strlit("CONFLICT");
        assert(text::splits_at("COMMIT"@, "CONFLICT"@, 2));
    }
}

proof fn sorted_from_24(i: int)
    requires
        24 <= i < 36,
    ensures
        text::before(ranked(i).name(), ranked(i + 1).name()),
{
    reveal(Keyword::name);
    if i == 24 {
        reveal_strlit("CONFLICT");
        reveal_strlit("CONSTRAINT");
        assert(text::splits_at("CONFLICT"@, "CONSTRAINT"@, 3));
    } else if i == 25 {
        reveal_strlit("CONSTRAINT");
        reveal_strlit("CREATE");
        assert(text::splits_at("CONSTRAINT"@, "CREATE"@, 1));
    } else if i == 26 {
        reveal_strlit("CREATE");
        reveal_strlit("CROSS");
        assert(text::splits_at("CREATE"@, "CROSS"@, 2));
    } else if i == 27 {
        reveal_strlit("CROSS");
        reveal_strlit("CURRENT");
        assert(text::splits_at("CROSS"@, "CURRENT"@, 1));
    } else if i == 28 {
        reveal_strlit("CURRENT");
        reveal_strlit("CURRENT_DATE");
        assert(text::splits_at("CURRENT"@, "CURRENT_DATE"@, 7));
    } else if i == 29 {
        reveal_strlit("CURRENT_DATE");
        reveal_strlit("CURRENT_TIME");
        assert(text::splits_at("CURRENT_DATE"@, "CURRENT_TIME"@, 8));
    } else if i == 30 {
        reveal_strlit("CURRENT_TIME");
        reveal_strlit("CURRENT_TIMESTAMP");
        assert(text::splits_at("CURRENT_TIME"@, "CURRENT_TIMESTAMP"@, 12));
    } else if i == 31 {
        reveal_strlit("CURRENT_TIMESTAMP");
        reveal_strlit("DATABASE");
        assert(text::splits_at("CURRENT_TIMESTAMP"@, "DATABASE"@, 0));
    } else if i == 32 {
        reveal_strlit("DATABASE");
        reveal_strlit("DEFAULT");
        assert(text::splits_at("DATABASE"@, "DEFAULT"@, 1));
    } else if i == 33 {
        reveal_strlit("DEFAULT");
        reveal_strlit("DEFERRABLE");
        assert(text::splits_at("DEFAULT"@, "DEFERRABLE"@, 3));
    } else if i == 34 {
        reveal_strlit("DEFERRABLE");
        reveal_strlit("DEFERRED");
        assert(text::splits_at("DEFERRABLE"@, "DEFERRED"@, 6));
    } else if i == 35 {
        reveal_strlit("DEFERRED");
        reveal_strlit("DELETE");
        assert(text::splits_at("DEFERRED"@, "DELETE"@, 2));
    }
}

proof fn sorted_from_36(i: int)
    requires
        36 <= i < 48,
    ensures
        text::before(ranked(i).name(), ranked(i + 1).name()),
{
    reveal(Keyword::name);
    if i == 36 {
        reveal_strlit("DELETE");
        reveal_strlit("DESC");
        assert(text::splits_at("DELETE"@, "DESC"@, 2));
    } else if i == 37 {
        reveal_strlit("DESC");
        reveal_strlit("DETACH");
        assert(text::splits_at("DESC"@, "DETACH"@, 2));
    } else if i == 38 {
        reveal_strlit("DETACH");
        reveal_strlit("DISTINCT");
        assert(text::splits_at("DETACH"@, "DISTINCT"@, 1));
    } else if i == 39 {
        reveal_strlit("DISTINCT");
        reveal_strlit("DO");
        assert(text::splits_at("DISTINCT"@, "DO"@, 1));
    } else if i == 40 {
        reveal_strlit("DO");
        reveal_strlit("DROP");
        assert(text::splits_at("DO"@, "DROP"@, 1));
    } else if i == 41 {
        reveal_strlit("DROP");
        reveal_strlit("EACH");
        assert(text::splits_at("DROP"@, "EACH"@, 0));
    } else if i == 42 {
        reveal_strlit("EACH");
        reveal_strlit("ELSE");
        assert(text::splits_at("EACH"@, "ELSE"@, 1));
    } else if i == 43 {
        reveal_strlit("ELSE");
        reveal_strlit("END");
        assert(text::splits_at("ELSE"@, "END"@, 1));
    } else if i == 44 {
        reveal_strlit("END");
        reveal_strlit("ESCAPE");
        assert(text::splits_at("END"@, "ESCAPE"@, 1));
    } else if i == 45 {
        reveal_strlit("ESCAPE");
        reveal_strlit("EXCEPT");
        assert(text::splits_at("ESCAPE"@, "EXCEPT"@, 1));
    } else if i == 46 {
        reveal_strlit("EXCEPT");
        reveal_strlit("EXCLUDE");
        assert(text::splits_at("EXCEPT"@, "EXCLUDE"@, 3));
    } else if i == 47 {
        reveal_strlit("EXCLUDE");
        reveal_strlit("EXCLUSIVE");
        assert(text::splits_at("EXCLUDE"@, "EXCLUSIVE"@, 5));
    }
}

proof fn sorted_from_48(i: int)
    requires
        48 <= i < 60,
    ensures
        text::before(ranked(i).name(), ranked(i + 1).name()),
{
    reveal(Keyword::name);
    if i == 48 {
        reveal_strlit("EXCLUSIVE");
        reveal_strlit("EXISTS");
        assert(text::splits_at("EXCLUSIVE"@, "EXISTS"@, 2));
    } else if i == 49 {
        reveal_strlit("EXISTS");
        reveal_strlit("EXPLAIN");
        assert(text::splits_at("EXISTS"@, "EXPLAIN"@, 2));
    } else if i == 50 {
        reveal_strlit("EXPLAIN");
        reveal_strlit("FAIL");
        assert(text::splits_at("EXPLAIN"@, "FAIL"@, 0));
    } else if i == 51 {
        reveal_strlit("FAIL");
        reveal_strlit("FILTER");
        assert(text::splits_at("FAIL"@, "FILTER"@, 1));
    } else if i == 52 {
        reveal_strlit("FILTER");
        reveal_strlit("FIRST");
        assert(text::splits_at("FILTER"@, "FIRST"@, 2));
    } else if i == 53 {
        reveal_strlit("FIRST");
        reveal_strlit("FOLLOWING");
        assert(text::splits_at("FIRST"@, "FOLLOWING"@, 1));
    } else if i == 54 {
        reveal_strlit("FOLLOWING");
        reveal_strlit("FOR");
        assert(text::splits_at("FOLLOWING"@, "FOR"@, 2));
    } else if i == 55 {
        reveal_strlit("FOR");
        reveal_strlit("FOREIGN");
        assert(text::splits_at("FOR"@, "FOREIGN"@, 3));
    } else if i == 56 {
        reveal_strlit("FOREIGN");
        reveal_strlit("FROM");
        assert(text::splits_at("FOREIGN"@, "FROM"@, 1));
    } else if i == 57 {
        reveal_strlit("FROM");
        reveal_strlit("FULL");
        assert(text::splits_at("FROM"@, "FULL"@, 1));
    } else if i == 58 {
        reveal_strlit("FULL");
        reveal_strlit("GENERATED");
        assert(text::splits_at("FULL"@, "GENERATED"@, 0));
    } else if i == 59 {
        reveal_strlit("GENERATED");
        reveal_strlit("GLOB");
        assert(text::splits_at("GENERATED"@, "GLOB"@, 1));
    }
}

proof fn sorted_from_60(i: int)
    requires
        60 <= i < 72,
    ensures
        text::before(ranked(i).name(), ranked(i + 1).name()),
{
    reveal(Keyword::name);
    if i == 60 {
        reveal_strlit("GLOB");
        reveal_strlit("GROUP");
        assert(text::splits_at("GLOB"@, "GROUP"@, 1));
    } else if i == 61 {
        reveal_strlit("GROUP");
        reveal_strlit("GROUPS");
        assert(text::splits_at("GROUP"@, "GROUPS"@, 5));
    } else if i == 62 {
        reveal_strlit("GROUPS");
        reveal_strlit("HAVING");
        assert(text::splits_at("GROUPS"@, "HAVING"@, 0));
    } else if i == 63 {
        reveal_strlit("HAVING");
        reveal_strlit("IF");
        assert(text::splits_at("HAVING"@, "IF"@, 0));
    } else if i == 64 {
        reveal_strlit("IF");
        reveal_strlit("IGNORE");
        assert(text::splits_at("IF"@, "IGNORE"@, 1));
    } else if i == 65 {
        reveal_strlit("IGNORE");
        reveal_strlit("IMMEDIATE");
        assert(text::splits_at("IGNORE"@, "IMMEDIATE"@, 1));
    } else if i == 66 {
        reveal_strlit("IMMEDIATE");
        reveal_strlit("IN");
        assert(text::splits_at("IMMEDIATE"@, "IN"@, 1));
    } else if i == 67 {
        reveal_strlit("IN");
        reveal_strlit("INDEX");
        assert(text::splits_at("IN"@, "INDEX"@, 2));
    } else if i == 68 {
        reveal_strlit("INDEX");
        reveal_strlit("INDEXED");
        assert(text::splits_at("INDEX"@, "INDEXED"@, 5));
    } else if i == 69 {
        reveal_strlit("INDEXED");
        reveal_strlit("INITIALLY");
        assert(text::splits_at("INDEXED"@, "INITIALLY"@, 2));
    } else if i == 70 {
        reveal_strlit("INITIALLY");
        reveal_strlit("INNER");
        assert(text::splits_at("INITIALLY"@, "INNER"@, 2));
    } else if i == 71 {
        reveal_strlit("INNER");
        reveal_strlit("INSERT");
        assert(text::splits_at("INNER"@, "INSERT"@, 2));
    }
}

proof fn sorted_from_72(i: int)
    requires
        72 <= i < 84,
    ensures
        text::before(ranked(i).name(), ranked(i + 1).name()),
{
    reveal(Keyword::name);
    if i == 72 {
        reveal_strlit("INSERT");
        reveal_strlit("INSTEAD");
        assert(text::splits_at("INSERT"@, "INSTEAD"@, 3));
    } else if i == 73 {
        reveal_strlit("INSTEAD");
        reveal_strlit("INTERSECT");
        assert(text::splits_at("INSTEAD"@, "INTERSECT"@, 2));
    } else if i == 74 {
        reveal_strlit("INTERSECT");
        reveal_strlit("INTO");
        assert(text::splits_at("INTERSECT"@, "INTO"@, 3));
    } else if i == 75 {
        reveal_strlit("INTO");
        reveal_strlit("IS");
        assert(text::splits_at("INTO"@, "IS"@, 1));
    } else if i == 76 {
        reveal_strlit("IS");
        reveal_strlit("ISNULL");
        assert(text::splits_at("IS"@, "ISNULL"@, 2));
    } else if i == 77 {
        reveal_strlit("ISNULL");
        reveal_strlit("JOIN");
        assert(text::splits_at("ISNULL"@, "JOIN"@, 0));
    } else if i == 78 {
        reveal_strlit("JOIN");
        reveal_strlit("KEY");
        assert(text::splits_at("JOIN"@, "KEY"@, 0));
    } else if i == 79 {
        reveal_strlit("KEY");
        reveal_strlit("LAST");
        assert(text::splits_at("KEY"@, "LAST"@, 0));
    } else if i == 80 {
        reveal_strlit("LAST");
        reveal_strlit("LEFT");
        assert(text::splits_at("LAST"@, "LEFT"@, 1));
    } else if i == 81 {
        reveal_strlit("LEFT");
        reveal_strlit("LIKE");
        assert(text::splits_at("LEFT"@, "LIKE"@, 1));
    } else if i == 82 {
        reveal_strlit("LIKE");
        reveal_strlit("LIMIT");
        assert(text::splits_at("LIKE"@, "LIMIT"@, 2));
    } else if i == 83 {
        reveal_strlit("LIMIT");
        reveal_strlit("MATCH");
        assert(text::splits_at("LIMIT"@, "MATCH"@, 0));
    }
}

proof fn sorted_from_84(i: int)
    requires
        84 <= i < 96,
    ensures
        text::before(ranked(i).name(), ranked(i + 1).name()),
{
    reveal(Keyword::name);
    if i == 84 {
        reveal_strlit("MATCH");
        reveal_strlit("MATERIALIZED");
        assert(text::splits_at("MATCH"@, "MATERIALIZED"@, 3));
    } else if i == 85 {
        reveal_strlit("MATERIALIZED");
        reveal_strlit("NATURAL");
        assert(text::splits_at("MATERIALIZED"@, "NATURAL"@, 0));
    } else if i == 86 {
        reveal_strlit("NATURAL");
        reveal_strlit("NO");
        assert(text::splits_at("NATURAL"@, "NO"@, 1));
    } else if i == 87 {
        reveal_strlit("NO");
        reveal_strlit("NOT");
        assert(text::splits_at("NO"@, "NOT"@, 2));
    } else if i == 88 {
        reveal_strlit("NOT");
        reveal_strlit("NOTHING");
        assert(text::splits_at("NOT"@, "NOTHING"@, 3));
    } else if i == 89 {
        reveal_strlit("NOTHING");
        reveal_strlit("NOTNULL");
        assert(text::splits_at("NOTHING"@, "NOTNULL"@, 3));
    } else if i == 90 {
        reveal_strlit("NOTNULL");
        reveal_strlit("NULLS");
        assert(text::splits_at("NOTNULL"@, "NULLS"@, 1));
    } else if i == 91 {
        reveal_strlit("NULLS");
        reveal_strlit("OF");
        assert(text::splits_at("NULLS"@, "OF"@, 0));
    } else if i == 92 {
        reveal_strlit("OF");
        reveal_strlit("OFFSET");
        assert(text::splits_at("OF"@, "OFFSET"@, 2));
    } else if i == 93 {
        reveal_strlit("OFFSET");
        reveal_strlit("ON");
        assert(text::splits_at("OFFSET"@, "ON"@, 1));
    } else if i == 94 {
        reveal_strlit("ON");
        reveal_strlit("OR");
        assert(text::splits_at("ON"@, "OR"@, 1));
    } else if i == 95 {
        reveal_strlit("OR");
        reveal_strlit("ORDER");
        assert(text::splits_at("OR"@, "ORDER"@, 2));
    }
}

proof fn sorted_from_96(i: int)
    requires
        96 <= i < 108,
    ensures
        text::before(ranked(i).name(), ranked(i + 1).name()),
{
    reveal(Keyword::name);
    if i == 96 {
        reveal_strlit("ORDER");
        reveal_strlit("OTHERS");
        assert(text::splits_at("ORDER"@, "OTHERS"@, 1));
    } else if i == 97 {
        reveal_strlit("OTHERS");
        reveal_strlit("OUTER");
        assert(text::splits_at("OTHERS"@, "OUTER"@, 1));
    } else if i == 98 {
        reveal_strlit("OUTER");
        reveal_strlit("OVER");
        assert(text::splits_at("OUTER"@, "OVER"@, 1));
    } else if i == 99 {
        reveal_strlit("OVER");
        reveal_strlit("PARTITION");
        assert(text::splits_at("OVER"@, "PARTITION"@, 0));
    } else if i == 100 {
        reveal_strlit("PARTITION");
        reveal_strlit("PLAN");
        assert(text::splits_at("PARTITION"@, "PLAN"@, 1));
    } else if i == 101 {
        reveal_strlit("PLAN");
        reveal_strlit("PRAGMA");
        assert(text::splits_at("PLAN"@, "PRAGMA"@, 1));
    } else if i == 102 {
        reveal_strlit("PRAGMA");
        reveal_strlit("PRECEDING");
        assert(text::splits_at("PRAGMA"@, "PRECEDING"@, 2));
    } else if i == 103 {
        reveal_strlit("PRECEDING");
        reveal_strlit("PRIMARY");
        assert(text::splits_at("PRECEDING"@, "PRIMARY"@, 2));
    } else if i == 104 {
        reveal_strlit("PRIMARY");
        reveal_strlit("QUERY");
        assert(text::splits_at("PRIMARY"@, "QUERY"@, 0));
    } else if i == 105 {
        reveal_strlit("QUERY");
        reveal_strlit("RAISE");
        assert(text::splits_at("QUERY"@, "RAISE"@, 0));
    } else if i == 106 {
        reveal_strlit("RAISE");
        reveal_strlit("RANGE");
        assert(text::splits_at("RAISE"@, "RANGE"@, 2));
    } else if i == 107 {
        reveal_strlit("RANGE");
        reveal_strlit("RECURSIVE");
        assert(text::splits_at("RANGE"@, "RECURSIVE"@, 1));
    }
}

proof fn sorted_from_108(i: int)
    requires
        108 <= i < 120,
    ensures
        text::before(ranked(i).name(), ranked(i + 1).name()),
{
    reveal(Keyword::name);
    if i == 108 {
        reveal_strlit("RECURSIVE");
        reveal_strlit("REFERENCES");
        assert(text::splits_at("RECURSIVE"@, "REFERENCES"@, 2));
    } else if i == 109 {
        reveal_strlit("REFERENCES");
        reveal_strlit("REGEXP");
        assert(text::splits_at("REFERENCES"@, "REGEXP"@, 2));
    } else if i == 110 {
        reveal_strlit("REGEXP");
        reveal_strlit("REINDEX");
        assert(text::splits_at("REGEXP"@, "REINDEX"@, 2));
    } else if i == 111 {
        reveal_strlit("REINDEX");
        reveal_strlit("RELEASE");
        assert(text::splits_at("REINDEX"@, "RELEASE"@, 2));
    } else if i == 112 {
        reveal_strlit("RELEASE");
        reveal_strlit("RENAME");
        assert(text::splits_at("RELEASE"@, "RENAME"@, 2));
    } else if i == 113 {
        reveal_strlit("RENAME");
        reveal_strlit("REPLACE");
        assert(text::splits_at("RENAME"@, "REPLACE"@, 2));
    } else if i == 114 {
        reveal_strlit("REPLACE");
        reveal_strlit("RESTRICT");
        assert(text::splits_at("REPLACE"@, "RESTRICT"@, 2));
    } else if i == 115 {
        reveal_strlit("RESTRICT");
        reveal_strlit("RETURNING");
        assert(text::splits_at("RESTRICT"@, "RETURNING"@, 2));
    } else if i == 116 {
        reveal_strlit("RETURNING");
        reveal_strlit("RIGHT");
        assert(text::splits_at("RETURNING"@, "RIGHT"@, 1));
    } else if i == 117 {
        reveal_strlit("RIGHT");
        reveal_strlit("ROLLBACK");
        assert(text::splits_at("RIGHT"@, "ROLLBACK"@, 1));
    } else if i == 118 {
        reveal_strlit("ROLLBACK");
        reveal_strlit("ROW");
        assert(text::splits_at("ROLLBACK"@, "ROW"@, 2));
    } else if i == 119 {
        reveal_strlit("ROW");
        reveal_strlit("ROWS");
        assert(text::splits_at("ROW"@, "ROWS"@, 3));
    }
}

proof fn sorted_from_120(i: int)
    requires
        120 <= i < 132,
    ensures
        text::before(ranked(i).name(), ranked(i + 1).name()),
{
    reveal(Keyword::name);
    if i == 120 {
        reveal_strlit("ROWS");
        reveal_strlit("SAVEPOINT");
        assert(text::splits_at("ROWS"@, "SAVEPOINT"@, 0));
    } else if i == 121 {
        reveal_strlit("SAVEPOINT");
        reveal_strlit("SELECT");
        assert(text::splits_at("SAVEPOINT"@, "SELECT"@, 1));
    } else if i == 122 {
        reveal_strlit("SELECT");
        reveal_strlit("SET");
        assert(text::splits_at("SELECT"@, "SET"@, 2));
    } else if i == 123 {
        reveal_strlit("SET");
        reveal_strlit("TABLE");
        assert(text::splits_at("SET"@, "TABLE"@, 0));
    } else if i == 124 {
        reveal_strlit("TABLE");
        reveal_strlit("TEMP");
        assert(text::splits_at("TABLE"@, "TEMP"@, 1));
    } else if i == 125 {
        reveal_strlit("TEMP");
        reveal_strlit("TEMPORARY");
        assert(text::splits_at("TEMP"@, "TEMPORARY"@, 4));
    } else if i == 126 {
        reveal_strlit("TEMPORARY");
        reveal_strlit("THEN");
        assert(text::splits_at("TEMPORARY"@, "THEN"@, 1));
    } else if i == 127 {
        reveal_strlit("THEN");
        reveal_strlit("TIES");
        assert(text::splits_at("THEN"@, "TIES"@, 1));
    } else if i == 128 {
        reveal_strlit("TIES");
        reveal_strlit("TO");
        assert(text::splits_at("TIES"@, "TO"@, 1));
    } else if i == 129 {
        reveal_strlit("TO");
        reveal_strlit("TRANSACTION");
        assert(text::splits_at("TO"@, "TRANSACTION"@, 1));
    } else if i == 130 {
        reveal_strlit("TRANSACTION");
        reveal_strlit("TRIGGER");
        assert(text::splits_at("TRANSACTION"@, "TRIGGER"@, 2));
    } else if i == 131 {
        reveal_strlit("TRIGGER");
        reveal_strlit("UNBOUNDED");
        assert(text::splits_at("TRIGGER"@, "UNBOUNDED"@, 0));
    }
}

proof fn sorted_from_132(i: int)
    requires
        132 <= i < 144,
    ensures
        text::before(ranked(i).name(), ranked(i + 1).name()),
{
    reveal(Keyword::name);
    if i == 132 {
        reveal_strlit("UNBOUNDED");
        reveal_strlit("UNION");
        assert(text::splits_at("UNBOUNDED"@, "UNION"@, 2));
    } else if i == 133 {
        reveal_strlit("UNION");
        reveal_strlit("UNIQUE");
        assert(text::splits_at("UNION"@, "UNIQUE"@, 3));
    } else if i == 134 {
        reveal_strlit("UNIQUE");
        reveal_strlit("UPDATE");
        assert(text::splits_at("UNIQUE"@, "UPDATE"@, 1));
    } else if i == 135 {
        reveal_strlit("UPDATE");
        reveal_strlit("USING");
        assert(text::splits_at("UPDATE"@, "USING"@, 1));
    } else if i == 136 {
        reveal_strlit("USING");
        reveal_strlit("VACUUM");
        assert(text::splits_at("USING"@, "VACUUM"@, 0));
    } else if i == 137 {
        reveal_strlit("VACUUM");
        reveal_strlit("VALUES");
        assert(text::splits_at("VACUUM"@, "VALUES"@, 2));
    } else if i == 138 {
        reveal_strlit("VALUES");
        reveal_strlit("VIEW");
        assert(text::splits_at("VALUES"@, "VIEW"@, 1));
    } else if i == 139 {
        reveal_strlit("VIEW");
        reveal_strlit("VIRTUAL");
        assert(text::splits_at("VIEW"@, "VIRTUAL"@, 2));
    } else if i == 140 {
        reveal_strlit("VIRTUAL");
        reveal_strlit("WHEN");
        assert(text::splits_at("VIRTUAL"@, "WHEN"@, 0));
    } else if i == 141 {
        reveal_strlit("WHEN");
        reveal_strlit("WHERE");
        assert(text::splits_at("WHEN"@, "WHERE"@, 3));
    } else if i == 142 {
        reveal_strlit("WHERE");
        reveal_strlit("WINDOW");
        assert(text::splits_at("WHERE"@, "WINDOW"@, 1));
    } else if i == 143 {
        reveal_strlit("WINDOW");
        reveal_strlit("WITH");
        assert(text::splits_at("WINDOW"@, "WITH"@, 2));
    }
}

proof fn sorted_from_144(i: int)
    requires
        144 <= i < 145,
    ensures
        text::before(ranked(i).name(), ranked(i + 1).name()),
{
    reveal(Keyword::name);
    if i == 144 {
        reveal_strlit("WITH");
        reveal_strlit("WITHOUT");
        assert(text::splits_at("WITH"@, "WITHOUT"@, 4));
    }
}

/// The table lists the words in strictly ascending order of their spelling.
pub proof fn law_table_sorted(i: int, j: int)
    requires
        0 <= i < j < KEYWORD_COUNT,
    ensures
        text::before(ranked(i).name(), ranked(j).name()),
    decreases j,
{
    let h = j - 1;
    if h < 12 {
        sorted_from_0(h);
    } else if h < 24 {
        sorted_from_12(h);
    } else if h < 36 {
        sorted_from_24(h);
    } else if h < 48 {
        sorted_from_36(h);
    } else if h < 60 {
        sorted_from_48(h);
    } else if h < 72 {
        sorted_from_60(h);
    } else if h < 84 {
        sorted_from_72(h);
    } else if h < 96 {
        sorted_from_84(h);
    } else if h < 108 {
        sorted_from_96(h);
    } else if h < 120 {
        sorted_from_108(h);
    } else if h < 132 {
        sorted_from_120(h);
    } else if h < 144 {
        sorted_from_132(h);
    } else if h < 145 {
        sorted_from_144(h);
    }
    if i < h {
        law_table_sorted(i, h);
        text::lemma_before_transitive(ranked(i).name(), ranked(h).name(), ranked(j).name());
    }
}

/// No two words share a spelling.
pub proof fn law_names_distinct(a: Keyword, b: Keyword)
    ensures
        a.name() == b.name() ==> a == b,
{
    law_table_complete(a, 0);
    law_table_complete(b, 0);
    if a.rank() < b.rank() {
        law_table_sorted(a.rank(), b.rank());
        text::lemma_before_irreflexive(a.name());
    } else if b.rank() < a.rank() {
        law_table_sorted(b.rank(), a.rank());
        text::lemma_before_irreflexive(a.name());
    }
}

/// The word spelled `word`, if there is one.
pub open spec fn keyword_named(word: Seq<char>) -> Option<Keyword> {
    if exists|k: Keyword| k.name() == word {
        Some(choose|k: Keyword| k.name() == word)
    } else {
        None
    }
}

/// Every word is found under its own spelling.
pub proof fn law_keyword_named(k: Keyword)
    ensures
        keyword_named(k.name()) == Some(k),
{
    law_names_distinct(k, choose|x: Keyword| x.name() == k.name());
}

/// What stands between two neighbours of the table is no word of it.
pub proof fn lemma_between_words(word: Seq<char>, i: int)
    requires
        0 <= i < KEYWORD_COUNT - 1,
        text::before(ranked(i).name(), word),
        text::before(word, ranked(i + 1).name()),
    ensures
        keyword_named(word) is None,
{
    if exists|k: Keyword| k.name() == word {
        let k = choose|k: Keyword| k.name() == word;
        law_table_complete(k, i);
        text::lemma_before_irreflexive(word);
        if k.rank() < i {
            law_table_sorted(k.rank(), i);
            text::lemma_before_transitive(word, ranked(i).name(), word);
        } else if k.rank() > i + 1 {
            law_table_sorted(i + 1, k.rank());
            text::lemma_before_transitive(word, ranked(i + 1).name(), word);
        }
    }
}

/// Finds the word spelled `word` (in capitals) by binary search.
pub fn find_keyword(word: &Vec<char>) -> (found: Option<Keyword>)
    ensures
        found == keyword_named(word@),
{
    let mut low: usize = 0;
    let mut high: usize = KEYWORD_COUNT;
    while low < high
        invariant
            low <= high <= KEYWORD_COUNT,
            forall|i: int| 0 <= i < low ==> ranked(i).name() != word@,
            forall|i: int| high <= i < KEYWORD_COUNT ==> ranked(i).name() != word@,
        decreases high - low,
    {
        let middle: usize = low + (high - low) / 2;
        let k = keyword_at(middle);
        let order = text::compare_chars(word, k.text());
        if order == text::Sorted::Same {
            proof {
                law_keyword_named(k);
            }
            return Some(k);
        }
        proof {
            assert forall|i: int| 0 <= i < KEYWORD_COUNT && (if order == text::Sorted::Before {
                middle <= i
            } else {
                i <= middle
            }) implies ranked(i).name() != word@ by {
                if middle < i {
                    law_table_sorted(middle as int, i);
                } else if i < middle {
                    law_table_sorted(i, middle as int);
                }
                if ranked(i).name() == word@ {
                    if order == text::Sorted::Before {
                        if middle < i {
                            text::lemma_before_transitive(word@, k.name(), word@);
                        }
                        text::lemma_before_irreflexive(word@);
                    } else {
                        if i < middle {
                            text::lemma_before_transitive(word@, k.name(), word@);
                        }
                        text::lemma_before_irreflexive(word@);
                    }
                }
            }
        }
        if order == text::Sorted::Before {
            high = middle;
        } else {
            low = middle + 1;
        }
    }
    proof {
        assert forall|k: Keyword| k.name() != word@ by {
            law_table_complete(k, 0);
        }
    }
    None
}

} // verus!
