//! Pretty-printer for the syntax trees. Always emits explicit parentheses around
//! [`ExprKind::Paren`] nodes and normalizes whitespace and casing, so the output is not
//! expected to match the original source text verbatim — only to reparse to the same
//! tree. So a name or a type that is not read as itself is printed in double quotes, a
//! negative integer literal but the smallest as the hexadecimal literal that it can only come
//! from, and two minus signs with a space between.
use crate::decimal;
use crate::parser::ast;
use crate::parser::ast::{
    Begin, BinaryOp, ColumnConstraint, ColumnConstraintView, ColumnDef, ColumnDefView, Commit,
    CompoundOp, CompoundSelect, CompoundSelectView, ConflictAction, CreateIndex, CreateIndexView,
    CreateTable, CreateTableView, DefaultValue, DefaultValueView, Delete, DeleteView, Distinctness,
    DropIndex, DropIndexView, DropTable, DropTableView, Expr, ExprKind, ExprKindView, ExprView,
    FromClause, FromClauseView, FunctionArgs, FunctionArgsView, IndexedColumn, IndexedColumnView,
    Insert, InsertSource, InsertSourceView, InsertView, Join, JoinConstraint, JoinConstraintView,
    JoinOp, JoinView, Limit, LimitView, Literal, LiteralView, OrderingTerm, OrderingTermView,
    ParamKind, ParamKindView, ResultColumn, ResultColumnView, Rollback, Select, SelectView,
    TableConstraint, TableConstraintView, TableRef, TableRefKind, TableRefKindView, TableRefView,
    TransactionMode, UnaryOp,
};
use crate::parser::grammar;
use crate::parser::rules;
use crate::parser::tokenizer;
use crate::parser::tokenizer::{Keyword, KindView};
use crate::text;
use vstd::prelude::*;

verus! {

// ---- what is printed ---------------------------------------------------------

/// The parts behind `head`, with commas between; nothing where there are none.
pub open spec fn list_clause(head: Seq<char>, parts: Seq<Seq<char>>) -> Seq<char> {
    if parts.len() == 0 {
        ""@
    } else {
        head + text::join(parts, ", "@)
    }
}

pub open spec fn distinct_text(d: Option<Distinctness>) -> Seq<char> {
    match d {
        Some(Distinctness::Distinct) => " DISTINCT"@,
        Some(Distinctness::All) => " ALL"@,
        None => ""@,
    }
}

pub open spec fn direction_text(desc: Option<bool>) -> Seq<char> {
    match desc {
        Some(false) => " ASC"@,
        Some(true) => " DESC"@,
        None => ""@,
    }
}

pub open spec fn nulls_text(nulls_last: Option<bool>) -> Seq<char> {
    match nulls_last {
        Some(false) => " NULLS FIRST"@,
        Some(true) => " NULLS LAST"@,
        None => ""@,
    }
}

pub open spec fn not_text(negated: bool) -> Seq<char> {
    if negated {
        "NOT "@
    } else {
        ""@
    }
}

pub open spec fn alias_text(alias: Option<Seq<char>>) -> Seq<char> {
    match alias {
        Some(name) => " AS "@ + name_text(name),
        None => ""@,
    }
}

pub open spec fn qualifier_text(name: Option<Seq<char>>) -> Seq<char> {
    match name {
        Some(n) => name_text(n) + "."@,
        None => ""@,
    }
}

pub open spec fn join_op_text(op: JoinOp) -> Seq<char> {
    match op {
        JoinOp::Inner => "JOIN "@,
        JoinOp::Left => "LEFT JOIN "@,
        JoinOp::Cross => "CROSS JOIN "@,
        JoinOp::Right => "RIGHT JOIN "@,
        JoinOp::Full => "FULL JOIN "@,
    }
}

pub open spec fn unary_op_text(op: UnaryOp) -> Seq<char> {
    match op {
        UnaryOp::Not => "NOT "@,
        UnaryOp::Plus => "+"@,
        UnaryOp::Minus => "-"@,
        UnaryOp::BitNot => "~"@,
    }
}

pub open spec fn binary_op_text(op: BinaryOp) -> Seq<char> {
    match op {
        BinaryOp::Or => "OR"@,
        BinaryOp::And => "AND"@,
        BinaryOp::Eq => "="@,
        BinaryOp::Ne => "!="@,
        BinaryOp::Lt => "<"@,
        BinaryOp::Le => "<="@,
        BinaryOp::Gt => ">"@,
        BinaryOp::Ge => ">="@,
        BinaryOp::BitAnd => "&"@,
        BinaryOp::BitOr => "|"@,
        BinaryOp::Shl => "<<"@,
        BinaryOp::Shr => ">>"@,
        BinaryOp::Add => "+"@,
        BinaryOp::Sub => "-"@,
        BinaryOp::Mul => "*"@,
        BinaryOp::Div => "/"@,
        BinaryOp::Mod => "%"@,
        BinaryOp::Concat => "||"@,
    }
}

/// `s` with each `mark` doubled.
pub open spec fn doubled(s: Seq<char>, mark: char) -> Seq<char>
    decreases s.len(),
{
    if s.len() == 0 {
        ""@
    } else if s.last() == mark {
        doubled(s.drop_last(), mark).push(mark).push(mark)
    } else {
        doubled(s.drop_last(), mark).push(s.last())
    }
}

/// A text in double quotes, with the quotes in it doubled.
pub open spec fn quoted_text(s: Seq<char>) -> Seq<char> {
    "\""@ + doubled(s, '"') + "\""@
}

/// A name as it is printed: bare where it is read as itself, and else in double quotes.
pub open spec fn name_text(name: Seq<char>) -> Seq<char> {
    if tokenizer::is_plain(name) {
        name
    } else {
        quoted_text(name)
    }
}

/// The names of a list, each as it is printed.
/// Whether a function can be called by a keyword wherever an expression can stand: it is none
/// of those that begin something else there.
pub open spec fn calls(k: Keyword) -> bool {
    match k {
        Keyword::CASE | Keyword::CAST | Keyword::EXISTS | Keyword::NOT | Keyword::SELECT
        | Keyword::DISTINCT | Keyword::ALL | Keyword::WHEN | Keyword::CURRENT_TIME
        | Keyword::CURRENT_DATE | Keyword::CURRENT_TIMESTAMP => false,
        _ => true,
    }
}

/// Whether a function's name is read as itself in front of a parenthesis though it is a
/// keyword.
pub open spec fn is_call_word(name: Seq<char>) -> bool {
    tokenizer::keyword_of(name) is Some && calls(tokenizer::keyword_of(name)->0)
}

/// A function's name as it is printed in front of its arguments.
pub open spec fn call_text(name: Seq<char>) -> Seq<char> {
    if is_call_word(name) {
        name
    } else {
        name_text(name)
    }
}

pub open spec fn name_texts(names: Seq<Seq<char>>) -> Seq<Seq<char>> {
    names.map_values(|n: Seq<char>| name_text(n))
}

/// Whether a token can be part of a type that is printed bare.
pub open spec fn is_type_token(k: KindView) -> bool {
    match k {
        KindView::Identifier(word) => tokenizer::is_plain(word),
        KindView::Integer(v) => v >= 0,
        _ => true,
    }
}

/// Whether a type is read as itself where it stands without quotes.
#[verifier::opaque]
pub open spec fn is_plain_type(s: Seq<char>) -> bool {
    let t = tokenizer::tokens_of(s);
    &&& forall|i: int| 0 <= i < t.len() ==> is_type_token((#[trigger] t[i]).kind)
    &&& match rules::declared_type(t, 0) {
        Ok((words, e)) => words == s && rules::kind(t, e) == KindView::Eof,
        Err(_) => false,
    }
}

/// A type as it is printed: bare where it is read as itself, and else as one name in
/// double quotes.
pub open spec fn type_text(s: Seq<char>) -> Seq<char> {
    if is_plain_type(s) {
        s
    } else {
        quoted_text(s)
    }
}

/// What stands between a prefix operator and its operand: a space where two minus signs
/// would make a comment.
pub open spec fn gap_text(op: UnaryOp, operand: Seq<char>) -> Seq<char> {
    if op == UnaryOp::Minus && operand.len() > 0 && operand[0] == '-' {
        " "@
    } else {
        ""@
    }
}

/// The last `digits` hexadecimal digits of `n`.
pub open spec fn hex_digits_of(n: nat, digits: nat) -> Seq<char>
    decreases digits,
{
    if digits == 0 {
        ""@
    } else {
        hex_digits_of(n / 16, (digits - 1) as nat).push(hex_char((n % 16) as int))
    }
}

/// An integer literal: in decimal, or, where it is negative, as the hexadecimal literal of
/// its 64 bits.
pub open spec fn integer_text(v: i64) -> Seq<char> {
    if v >= 0 {
        text::decimal(v as nat)
    } else {
        "0x"@ + hex_digits_of((v as u64) as nat, 16)
    }
}

pub open spec fn hex_char(n: int) -> char {
    if n < 10 {
        ((48 + n) as u32) as char
    } else {
        ((55 + n) as u32) as char
    }
}

/// Two capital hexadecimal digits for each byte.
pub open spec fn hex_text(bytes: Seq<u8>) -> Seq<char>
    decreases bytes.len(),
{
    if bytes.len() == 0 {
        ""@
    } else {
        hex_text(bytes.drop_last()).push(hex_char(bytes.last() as int / 16)).push(
            hex_char(bytes.last() as int % 16),
        )
    }
}

impl LiteralView {
    /// The literal as it is printed: as one token, but for the smallest integer, which is
    /// written in decimal with a minus sign.
    pub open spec fn text(self) -> Seq<char> {
        if self == LiteralView::Integer(i64::MIN) {
            text::signed_decimal(i64::MIN as int)
        } else {
            self.token_text()
        }
    }

    /// The literal as one token.
    pub open spec fn token_text(self) -> Seq<char> {
        match self {
            LiteralView::Integer(v) => integer_text(v),
            LiteralView::Float(bits) => decimal::literal_text(bits),
            LiteralView::Str(s) => "'"@ + doubled(s, '\'') + "'"@,
            LiteralView::Blob(bytes) => "X'"@ + hex_text(bytes) + "'"@,
            LiteralView::Null => "NULL"@,
            LiteralView::True => "TRUE"@,
            LiteralView::False => "FALSE"@,
        }
    }
}

impl ParamKindView {
    pub open spec fn text(self) -> Seq<char> {
        match self {
            ParamKindView::Anonymous => "?"@,
            ParamKindView::Numbered(n) => "?"@ + text::decimal(n as nat),
            ParamKindView::Colon(s) => ":"@ + s,
            ParamKindView::At(s) => "@"@ + s,
            ParamKindView::Dollar(s) => "$"@ + s,
        }
    }
}

/// The expressions of a list, each as it is printed.
pub open spec fn expr_texts(v: Seq<ExprView>) -> Seq<Seq<char>>
    decreases v,
{
    Seq::new(
        v.len(),
        |i: int|
            if 0 <= i < v.len() {
                v[i].text()
            } else {
                arbitrary()
            },
    )
}

/// An expression behind `head`; nothing where there is none.
pub open spec fn expr_clause(head: Seq<char>, e: Option<ExprView>) -> Seq<char>
    decreases e,
{
    match e {
        Some(x) => head + x.text(),
        None => ""@,
    }
}

/// The branches of a `CASE`, each as it is printed.
pub open spec fn when_texts(v: Seq<(ExprView, ExprView)>) -> Seq<Seq<char>>
    decreases v,
{
    Seq::new(
        v.len(),
        |i: int|
            if 0 <= i < v.len() {
                v[i].0.text() + " THEN "@ + v[i].1.text()
            } else {
                arbitrary()
            },
    )
}

impl FunctionArgsView {
    pub open spec fn text(self) -> Seq<char>
        decreases self,
    {
        match self {
            FunctionArgsView::Star => "*"@,
            FunctionArgsView::List(list) => text::join(expr_texts(list), ", "@),
        }
    }
}

impl ExprView {
    /// The expression as it is printed.
    pub open spec fn text(self) -> Seq<char>
        decreases self,
    {
        match self.kind {
            ExprKindView::Literal(l) => l.text(),
            ExprKindView::Param(p) => p.text(),
            ExprKindView::Column { table, catalog, name } => qualifier_text(catalog)
                + qualifier_text(table) + name_text(name),
            ExprKindView::FunctionCall { name, distinct, args } => call_text(name) + "("@
                + (if distinct {
                "DISTINCT "@
            } else {
                ""@
            }) + args.text() + ")"@,
            ExprKindView::Unary { op, expr } => unary_op_text(op) + gap_text(op, expr.text())
                + expr.text(),
            ExprKindView::Binary { op, lhs, rhs } => lhs.text() + " "@ + binary_op_text(op) + " "@
                + rhs.text(),
            ExprKindView::Is { lhs, rhs, negated } => lhs.text() + " IS "@ + not_text(negated)
                + rhs.text(),
            ExprKindView::IsNull { expr, negated } => expr.text() + (if negated {
                " NOTNULL"@
            } else {
                " ISNULL"@
            }),
            ExprKindView::Between { expr, lo, hi, negated } => expr.text() + " "@ + not_text(
                negated,
            ) + "BETWEEN "@ + lo.text() + " AND "@ + hi.text(),
            ExprKindView::In { expr, list, negated } => expr.text() + " "@ + not_text(negated)
                + "IN ("@ + text::join(expr_texts(list), ", "@) + ")"@,
            ExprKindView::Like { expr, pattern, glob, negated, escape } => expr.text() + " "@
                + not_text(negated) + (if glob {
                "GLOB "@
            } else {
                "LIKE "@
            }) + pattern.text() + (match escape {
                Some(e) => " ESCAPE "@ + e.text(),
                None => ""@,
            }),
            ExprKindView::Case { operand, whens, else_ } => "CASE"@ + (match operand {
                Some(e) => " "@ + e.text(),
                None => ""@,
            }) + text::each_behind(" WHEN "@, when_texts(whens)) + (match else_ {
                Some(e) => " ELSE "@ + e.text(),
                None => ""@,
            }) + " END"@,
            ExprKindView::Cast { expr, declared_type } => "CAST("@ + expr.text() + " AS "@
                + type_text(declared_type) + ")"@,
            ExprKindView::Collate { expr, collation } => expr.text() + " COLLATE "@
                + name_text(collation),
            ExprKindView::Paren(inner) => "("@ + inner.text() + ")"@,
            ExprKindView::Subquery(select) => "("@ + select.text() + ")"@,
            ExprKindView::Exists { subquery, negated } => not_text(negated) + "EXISTS ("@
                + subquery.text() + ")"@,
            ExprKindView::InSubquery { expr, subquery, negated } => expr.text() + " "@ + not_text(
                negated,
            ) + "IN ("@ + subquery.text() + ")"@,
            ExprKindView::InSubqueryMulti { exprs, subquery, negated } => "("@ + text::join(
                expr_texts(exprs),
                ", "@,
            ) + ") "@ + not_text(negated) + "IN ("@ + subquery.text() + ")"@,
        }
    }
}

impl ResultColumnView {
    pub open spec fn text(self) -> Seq<char>
        decreases self,
    {
        match self {
            ResultColumnView::Star => "*"@,
            ResultColumnView::TableStar { table } => name_text(table) + ".*"@,
            ResultColumnView::Expr { expr, alias } => expr.text() + alias_text(alias),
        }
    }
}

pub open spec fn result_column_texts(v: Seq<ResultColumnView>) -> Seq<Seq<char>>
    decreases v,
{
    Seq::new(
        v.len(),
        |i: int|
            if 0 <= i < v.len() {
                v[i].text()
            } else {
                arbitrary()
            },
    )
}

impl TableRefView {
    pub open spec fn text(self) -> Seq<char>
        decreases self,
    {
        (match self.kind {
            TableRefKindView::Name(name) => name_text(name),
            TableRefKindView::Subquery(select) => "("@ + select.text() + ")"@,
        }) + alias_text(self.alias)
    }
}

impl JoinView {
    pub open spec fn text(self) -> Seq<char>
        decreases self,
    {
        (if self.natural {
            "NATURAL "@
        } else {
            ""@
        }) + join_op_text(self.op) + self.table.text() + (match self.constraint {
            Some(JoinConstraintView::On(e)) => " ON "@ + e.text(),
            Some(JoinConstraintView::Using(columns)) => " USING ("@ + text::join(
                name_texts(columns),
                ", "@,
            )
                + ")"@,
            None => ""@,
        })
    }
}

pub open spec fn join_texts(v: Seq<JoinView>) -> Seq<Seq<char>>
    decreases v,
{
    Seq::new(
        v.len(),
        |i: int|
            if 0 <= i < v.len() {
                v[i].text()
            } else {
                arbitrary()
            },
    )
}

impl FromClauseView {
    pub open spec fn text(self) -> Seq<char>
        decreases self,
    {
        self.first.text() + text::each_behind(" "@, join_texts(self.joins))
    }
}

/// A `FROM` clause behind its keyword; nothing where there is none.
pub open spec fn from_text(from: Option<FromClauseView>) -> Seq<char>
    decreases from,
{
    match from {
        Some(f) => " FROM "@ + f.text(),
        None => ""@,
    }
}

impl OrderingTermView {
    pub open spec fn text(self) -> Seq<char>
        decreases self,
    {
        self.expr.text() + direction_text(self.desc) + nulls_text(self.nulls_last)
    }
}

pub open spec fn ordering_term_texts(v: Seq<OrderingTermView>) -> Seq<Seq<char>>
    decreases v,
{
    Seq::new(
        v.len(),
        |i: int|
            if 0 <= i < v.len() {
                v[i].text()
            } else {
                arbitrary()
            },
    )
}

impl LimitView {
    pub open spec fn text(self) -> Seq<char>
        decreases self,
    {
        " LIMIT "@ + self.limit.text() + expr_clause(" OFFSET "@, self.offset)
    }
}

impl CompoundSelectView {
    pub open spec fn text(self) -> Seq<char>
        decreases self,
    {
        "UNION ALL SELECT"@ + distinct_text(self.distinct) + list_clause(
            " "@,
            result_column_texts(self.columns),
        ) + from_text(self.from) + expr_clause(" WHERE "@, self.where_clause) + list_clause(
            " GROUP BY "@,
            expr_texts(self.group_by),
        ) + expr_clause(" HAVING "@, self.having)
    }
}

pub open spec fn compound_texts(v: Seq<CompoundSelectView>) -> Seq<Seq<char>>
    decreases v,
{
    Seq::new(
        v.len(),
        |i: int|
            if 0 <= i < v.len() {
                v[i].text()
            } else {
                arbitrary()
            },
    )
}

impl SelectView {
    /// The statement as it is printed.
    pub open spec fn text(self) -> Seq<char>
        decreases self,
    {
        "SELECT"@ + distinct_text(self.distinct) + list_clause(
            " "@,
            result_column_texts(self.columns),
        ) + from_text(self.from) + expr_clause(" WHERE "@, self.where_clause) + list_clause(
            " GROUP BY "@,
            expr_texts(self.group_by),
        ) + expr_clause(" HAVING "@, self.having) + text::each_behind(
            " "@,
            compound_texts(self.compound),
        ) + list_clause(" ORDER BY "@, ordering_term_texts(self.order_by)) + (match self.limit {
            Some(l) => l.text(),
            None => ""@,
        })
    }
}

pub open spec fn conflict_text(action: Option<ConflictAction>) -> Seq<char> {
    match action {
        Some(ConflictAction::Replace) => " OR REPLACE"@,
        Some(ConflictAction::Ignore) => " OR IGNORE"@,
        Some(ConflictAction::Abort) => " OR ABORT"@,
        Some(ConflictAction::Rollback) => " OR ROLLBACK"@,
        Some(ConflictAction::Fail) => " OR FAIL"@,
        None => ""@,
    }
}

/// The rows of a `VALUES` list, each as it is printed.
pub open spec fn row_texts(rows: Seq<Seq<ExprView>>) -> Seq<Seq<char>> {
    Seq::new(rows.len(), |i: int| "("@ + text::join(expr_texts(rows[i]), ", "@) + ")"@)
}

impl InsertSourceView {
    pub open spec fn text(self) -> Seq<char> {
        match self {
            InsertSourceView::DefaultValues => " DEFAULT VALUES"@,
            InsertSourceView::Values(rows) => " VALUES "@ + text::join(row_texts(rows), ", "@),
            InsertSourceView::Select(select) => " "@ + select.text(),
        }
    }
}

/// A column list in parentheses; nothing where there is none.
pub open spec fn names_text(names: Option<Seq<Seq<char>>>) -> Seq<char> {
    match names {
        Some(n) => " ("@ + text::join(name_texts(n), ", "@) + ")"@,
        None => ""@,
    }
}

impl InsertView {
    pub open spec fn text(self) -> Seq<char> {
        "INSERT"@ + conflict_text(self.or_action) + " INTO "@ + name_text(self.table) + names_text(
            self.columns,
        ) + self.source.text()
    }
}

impl DeleteView {
    pub open spec fn text(self) -> Seq<char> {
        "DELETE FROM "@ + name_text(self.table) + expr_clause(" WHERE "@, self.where_clause)
    }
}

/// A default that is a literal, or one with a sign, as it is printed: there a literal is one
/// token.
pub open spec fn default_text(e: ExprView) -> Seq<char> {
    match e.kind {
        ExprKindView::Literal(l) => l.token_text(),
        ExprKindView::Unary { op, expr } => match expr.kind {
            ExprKindView::Literal(l) => unary_op_text(op) + l.token_text(),
            _ => e.text(),
        },
        _ => e.text(),
    }
}

impl DefaultValueView {
    pub open spec fn text(self) -> Seq<char> {
        match self {
            DefaultValueView::Literal(e) => default_text(e),
            DefaultValueView::Paren(e) => "("@ + e.text() + ")"@,
        }
    }
}

impl ColumnConstraintView {
    pub open spec fn text(self) -> Seq<char> {
        match self {
            ColumnConstraintView::NotNull => "NOT NULL"@,
            ColumnConstraintView::PrimaryKey { desc, autoincrement } => "PRIMARY KEY"@
                + direction_text(desc) + (if autoincrement {
                " AUTOINCREMENT"@
            } else {
                ""@
            }),
            ColumnConstraintView::Unique => "UNIQUE"@,
            ColumnConstraintView::Default(value) => "DEFAULT "@ + value.text(),
            ColumnConstraintView::Check(e) => "CHECK ("@ + e.text() + ")"@,
            ColumnConstraintView::Collate(name) => "COLLATE "@ + name_text(name),
        }
    }
}

pub open spec fn column_constraint_texts(v: Seq<ColumnConstraintView>) -> Seq<Seq<char>> {
    Seq::new(v.len(), |i: int| v[i].text())
}

impl ColumnDefView {
    pub open spec fn text(self) -> Seq<char> {
        name_text(self.name) + (match self.declared_type {
            Some(words) => " "@ + type_text(words),
            None => ""@,
        }) + text::each_behind(" "@, column_constraint_texts(self.constraints))
    }
}

pub open spec fn column_def_texts(v: Seq<ColumnDefView>) -> Seq<Seq<char>> {
    Seq::new(v.len(), |i: int| v[i].text())
}

impl IndexedColumnView {
    pub open spec fn text(self) -> Seq<char> {
        self.expr.text() + direction_text(self.desc)
    }
}

pub open spec fn indexed_column_texts(v: Seq<IndexedColumnView>) -> Seq<Seq<char>> {
    Seq::new(v.len(), |i: int| v[i].text())
}

impl TableConstraintView {
    pub open spec fn text(self) -> Seq<char> {
        match self {
            TableConstraintView::PrimaryKey(columns) => "PRIMARY KEY ("@ + text::join(
                indexed_column_texts(columns),
                ", "@,
            ) + ")"@,
            TableConstraintView::Unique(columns) => "UNIQUE ("@ + text::join(
                indexed_column_texts(columns),
                ", "@,
            ) + ")"@,
            TableConstraintView::Check(e) => "CHECK ("@ + e.text() + ")"@,
        }
    }
}

pub open spec fn table_constraint_texts(v: Seq<TableConstraintView>) -> Seq<Seq<char>> {
    Seq::new(v.len(), |i: int| v[i].text())
}

pub open spec fn if_not_exists_text(flag: bool) -> Seq<char> {
    if flag {
        "IF NOT EXISTS "@
    } else {
        ""@
    }
}

pub open spec fn if_exists_text(flag: bool) -> Seq<char> {
    if flag {
        "IF EXISTS "@
    } else {
        ""@
    }
}

impl CreateTableView {
    pub open spec fn text(self) -> Seq<char> {
        "CREATE TABLE "@ + if_not_exists_text(self.if_not_exists) + name_text(self.name) + " ("@
            + text::join(
            column_def_texts(self.columns),
            ", "@,
        ) + text::each_behind(", "@, table_constraint_texts(self.constraints)) + ")"@
            + (if self.without_rowid {
            " WITHOUT ROWID"@
        } else if self.strict {
            " STRICT"@
        } else {
            ""@
        })
    }
}

impl CreateIndexView {
    pub open spec fn text(self) -> Seq<char> {
        "CREATE "@ + (if self.unique {
            "UNIQUE "@
        } else {
            ""@
        }) + "INDEX "@ + if_not_exists_text(self.if_not_exists) + name_text(self.name) + " ON "@
            + name_text(self.table)
            + " ("@ + text::join(indexed_column_texts(self.columns), ", "@) + ")"@ + expr_clause(
            " WHERE "@,
            self.where_clause,
        )
    }
}

impl DropTableView {
    pub open spec fn text(self) -> Seq<char> {
        "DROP TABLE "@ + if_exists_text(self.if_exists) + name_text(self.name)
    }
}

impl DropIndexView {
    pub open spec fn text(self) -> Seq<char> {
        "DROP INDEX "@ + if_exists_text(self.if_exists) + name_text(self.name)
    }
}

pub open spec fn mode_text(mode: TransactionMode) -> Seq<char> {
    match mode {
        TransactionMode::Deferred => "DEFERRED"@,
        TransactionMode::Immediate => "IMMEDIATE"@,
        TransactionMode::Exclusive => "EXCLUSIVE"@,
    }
}

pub open spec fn begin_text(begin: Begin) -> Seq<char> {
    "BEGIN"@ + (match begin.mode {
        Some(mode) => " "@ + mode_text(mode),
        None => ""@,
    })
}

// ---- printing ------------------------------------------------------------------

fn distinct(d: Option<Distinctness>) -> (s: &'static str)
    ensures
        s@ == distinct_text(d),
{
    match d {
        Some(Distinctness::Distinct) => " DISTINCT",
        Some(Distinctness::All) => " ALL",
        None => "",
    }
}

fn direction(desc: Option<bool>) -> (s: &'static str)
    ensures
        s@ == direction_text(desc),
{
    match desc {
        Some(false) => " ASC",
        Some(true) => " DESC",
        None => "",
    }
}

fn nulls(nulls_last: Option<bool>) -> (s: &'static str)
    ensures
        s@ == nulls_text(nulls_last),
{
    match nulls_last {
        Some(false) => " NULLS FIRST",
        Some(true) => " NULLS LAST",
        None => "",
    }
}

fn not_word(negated: bool) -> (s: &'static str)
    ensures
        s@ == not_text(negated),
{
    if negated {
        "NOT "
    } else {
        ""
    }
}

fn join_op_str(op: JoinOp) -> (s: &'static str)
    ensures
        s@ == join_op_text(op),
{
    match op {
        JoinOp::Inner => "JOIN ",
        JoinOp::Left => "LEFT JOIN ",
        JoinOp::Cross => "CROSS JOIN ",
        JoinOp::Right => "RIGHT JOIN ",
        JoinOp::Full => "FULL JOIN ",
    }
}

fn unary_op_str(op: UnaryOp) -> (s: &'static str)
    ensures
        s@ == unary_op_text(op),
{
    match op {
        UnaryOp::Not => "NOT ",
        UnaryOp::Plus => "+",
        UnaryOp::Minus => "-",
        UnaryOp::BitNot => "~",
    }
}

fn binop_str(op: BinaryOp) -> (s: &'static str)
    ensures
        s@ == binary_op_text(op),
{
    match op {
        BinaryOp::Or => "OR",
        BinaryOp::And => "AND",
        BinaryOp::Eq => "=",
        BinaryOp::Ne => "!=",
        BinaryOp::Lt => "<",
        BinaryOp::Le => "<=",
        BinaryOp::Gt => ">",
        BinaryOp::Ge => ">=",
        BinaryOp::BitAnd => "&",
        BinaryOp::BitOr => "|",
        BinaryOp::Shl => "<<",
        BinaryOp::Shr => ">>",
        BinaryOp::Add => "+",
        BinaryOp::Sub => "-",
        BinaryOp::Mul => "*",
        BinaryOp::Div => "/",
        BinaryOp::Mod => "%",
        BinaryOp::Concat => "||",
    }
}

fn conflict(action: Option<ConflictAction>) -> (s: &'static str)
    ensures
        s@ == conflict_text(action),
{
    match action {
        Some(ConflictAction::Replace) => " OR REPLACE",
        Some(ConflictAction::Ignore) => " OR IGNORE",
        Some(ConflictAction::Abort) => " OR ABORT",
        Some(ConflictAction::Rollback) => " OR ROLLBACK",
        Some(ConflictAction::Fail) => " OR FAIL",
        None => "",
    }
}

fn if_not_exists_str(flag: bool) -> (s: &'static str)
    ensures
        s@ == if_not_exists_text(flag),
{
    if flag {
        "IF NOT EXISTS "
    } else {
        ""
    }
}

fn if_exists_str(flag: bool) -> (s: &'static str)
    ensures
        s@ == if_exists_text(flag),
{
    if flag {
        "IF EXISTS "
    } else {
        ""
    }
}

/// `head` and `rest` in one.
fn joined(head: &str, rest: &str) -> (s: String)
    ensures
        s@ == head@ + rest@,
{
    let mut s = head.to_owned();
    s.append(rest);
    s
}

/// `open`, `inner` and `close` in one.
fn wrapped(open: &str, inner: &str, close: &str) -> (s: String)
    ensures
        s@ == open@ + inner@ + close@,
{
    let mut s = open.to_owned();
    s.append(inner);
    s.append(close);
    s
}

fn list_behind(head: &str, parts: &Vec<String>) -> (s: String)
    ensures
        s@ == list_clause(head@, text::texts(parts@)),
{
    assert(text::texts(parts@).len() == parts@.len());
    if parts.len() == 0 {
        "".to_owned()
    } else {
        joined(head, text::join_texts(parts, ", ").as_str())
    }
}

fn alias_behind(alias: &Option<String>) -> (s: String)
    ensures
        s@ == alias_text(
            match alias {
                Some(name) => Some(name@),
                None => None,
            },
        ),
{
    match alias {
        Some(name) => joined(" AS ", print_name(name.as_str()).as_str()),
        None => "".to_owned(),
    }
}

fn qualifier(name: &Option<String>) -> (s: String)
    ensures
        s@ == qualifier_text(
            match name {
                Some(n) => Some(n@),
                None => None,
            },
        ),
{
    match name {
        Some(n) => joined(print_name(n.as_str()).as_str(), "."),
        None => "".to_owned(),
    }
}

fn names_behind(names: &Option<Vec<String>>) -> (s: String)
    ensures
        s@ == names_text(
            match names {
                Some(n) => Some(text::texts(n@)),
                None => None,
            },
        ),
{
    match names {
        Some(n) => wrapped(" (", text::join_texts(&print_names(n), ", ").as_str(), ")"),
        None => "".to_owned(),
    }
}

/// `value` with each `mark` doubled.
fn double_marks(value: &str, mark: char) -> (s: String)
    ensures
        s@ == doubled(value@, mark),
{
    let mut s = "".to_owned();
    let chars = text::chars_of(value);
    let mut i: usize = 0;
    assert(value@.take(0).len() == 0);
    while i < chars.len()
        invariant
            i <= chars.len(),
            chars@ == value@,
            s@ == doubled(value@.take(i as int), mark),
        decreases chars.len() - i,
    {
        assert(value@.take(i + 1).drop_last() =~= value@.take(i as int));
        if chars[i] == mark {
            s.push(mark);
            s.push(mark);
        } else {
            s.push(chars[i]);
        }
        i = i + 1;
    }
    assert(value@.take(i as int) =~= value@);
    s
}

fn quoted(value: &str) -> (s: String)
    ensures
        s@ == quoted_text(value@),
{
    wrapped("\"", double_marks(value, '"').as_str(), "\"")
}

/// A name, in quotes where it needs them.
fn print_name(name: &str) -> (s: String)
    ensures
        s@ == name_text(name@),
{
    if tokenizer::is_plain_name(name) {
        name.to_owned()
    } else {
        quoted(name)
    }
}

fn can_call(k: Keyword) -> (b: bool)
    ensures
        b == calls(k),
{
    match k {
        Keyword::CASE | Keyword::CAST | Keyword::EXISTS | Keyword::NOT | Keyword::SELECT
        | Keyword::DISTINCT | Keyword::ALL | Keyword::WHEN | Keyword::CURRENT_TIME
        | Keyword::CURRENT_DATE | Keyword::CURRENT_TIMESTAMP => false,
        _ => true,
    }
}

fn print_call_name(name: &str) -> (s: String)
    ensures
        s@ == call_text(name@),
{
    match tokenizer::find_word(name) {
        Some(k) => {
            if can_call(k) {
                return name.to_owned();
            }
        },
        None => {},
    }
    print_name(name)
}

fn print_names(names: &Vec<String>) -> (r: Vec<String>)
    ensures
        text::texts(r@) == name_texts(text::texts(names@)),
{
    let mut r: Vec<String> = Vec::new();
    let mut i: usize = 0;
    while i < names.len()
        invariant
            i <= names.len(),
            r@.len() == i,
            forall|k: int| 0 <= k < i ==> (#[trigger] r@[k])@ == name_text(names@[k]@),
        decreases names.len() - i,
    {
        r.push(print_name(names[i].as_str()));
        i = i + 1;
    }
    assert(text::texts(r@) =~= name_texts(text::texts(names@)));
    r
}

/// A type, in quotes where it needs them.
fn print_type(words: &str) -> (s: String)
    ensures
        s@ == type_text(words@),
{
    if grammar::is_type_name(words) {
        words.to_owned()
    } else {
        quoted(words)
    }
}

/// A prefix operator in front of its operand.
fn prefixed(op: UnaryOp, operand: &str) -> (s: String)
    ensures
        s@ == unary_op_text(op) + gap_text(op, operand@) + operand@,
{
    let chars = text::chars_of(operand);
    let mut s = unary_op_str(op).to_owned();
    s.append(
        if op == UnaryOp::Minus && chars.len() > 0 && chars[0] == '-' {
            " "
        } else {
            ""
        },
    );
    s.append(operand);
    s
}

/// The last hexadecimal digits of `n`.
fn push_hex(s: &mut String, n: u64, digits: u32)
    ensures
        final(s)@ == old(s)@ + hex_digits_of(n as nat, digits as nat),
    decreases digits,
{
    proof {
        reveal_strlit("");
    }
    if digits > 0 {
        push_hex(s, n / 16, digits - 1);
        s.push(hex_digit((n % 16) as u8));
    }
    assert(s@ =~= old(s)@ + hex_digits_of(n as nat, digits as nat));
}

fn print_integer(v: i64) -> (s: String)
    ensures
        s@ == integer_text(v),
{
    if v >= 0 {
        text::unsigned_to_text(v as u64)
    } else {
        let mut s = "0x".to_owned();
        push_hex(&mut s, v as u64, 16);
        s
    }
}

fn hex_digit(n: u8) -> (c: char)
    requires
        n < 16,
    ensures
        c == hex_char(n as int),
{
    if n < 10 {
        (48 + n) as char
    } else {
        (55 + n) as char
    }
}

fn hex_digits(bytes: &Vec<u8>) -> (s: String)
    ensures
        s@ == hex_text(bytes@),
{
    let mut s = "".to_owned();
    let mut i: usize = 0;
    assert(bytes@.take(0).len() == 0);
    while i < bytes.len()
        invariant
            i <= bytes.len(),
            s@ == hex_text(bytes@.take(i as int)),
        decreases bytes.len() - i,
    {
        assert(bytes@.take(i + 1).drop_last() =~= bytes@.take(i as int));
        s.push(hex_digit(bytes[i] / 16));
        s.push(hex_digit(bytes[i] % 16));
        i = i + 1;
    }
    assert(bytes@.take(i as int) =~= bytes@);
    s
}

impl Literal {
    /// The literal as SQL.
    pub fn to_sql(&self) -> (s: String)
        ensures
            s@ == self@.text(),
    {
        match self {
            Literal::Integer(v) if *v == i64::MIN => text::signed_to_text(*v),
            _ => self.to_token(),
        }
    }

    /// The literal as one token.
    fn to_token(&self) -> (s: String)
        ensures
            s@ == self@.token_text(),
    {
        match self {
            Literal::Integer(v) => print_integer(*v),
            Literal::Float(bits) => decimal::print_double(*bits),
            Literal::Str(v) => wrapped("'", double_marks(v.as_str(), '\'').as_str(), "'"),
            Literal::Blob(bytes) => wrapped("X'", hex_digits(bytes).as_str(), "'"),
            Literal::Null => "NULL".to_owned(),
            Literal::True => "TRUE".to_owned(),
            Literal::False => "FALSE".to_owned(),
        }
    }
}

impl ParamKind {
    /// The parameter as SQL.
    pub fn to_sql(&self) -> (s: String)
        ensures
            s@ == self@.text(),
    {
        match self {
            ParamKind::Anonymous => "?".to_owned(),
            ParamKind::Numbered(n) => joined("?", text::unsigned_to_text(*n as u64).as_str()),
            ParamKind::Colon(name) => joined(":", name.as_str()),
            ParamKind::At(name) => joined("@", name.as_str()),
            ParamKind::Dollar(name) => joined("$", name.as_str()),
        }
    }
}

fn print_exprs(v: &Vec<Expr>) -> (r: Vec<String>)
    ensures
        text::texts(r@) == expr_texts(ast::expr_list(v@)),
    decreases v, 1int,
{
    let mut r: Vec<String> = Vec::new();
    let mut i: usize = 0;
    while i < v.len()
        invariant
            i <= v.len(),
            r@.len() == i,
            forall|k: int| 0 <= k < i ==> (#[trigger] r@[k])@ == expr_texts(ast::expr_list(v@))[k],
        decreases v.len() - i,
    {
        let part = v[i].to_sql();
        r.push(part);
        i = i + 1;
    }
    assert(text::texts(r@) =~= expr_texts(ast::expr_list(v@)));
    r
}

fn print_whens(v: &Vec<(Expr, Expr)>) -> (r: Vec<String>)
    ensures
        text::texts(r@) == when_texts(ast::expr_pairs(v@)),
    decreases v, 1int,
{
    let mut r: Vec<String> = Vec::new();
    let mut i: usize = 0;
    while i < v.len()
        invariant
            i <= v.len(),
            r@.len() == i,
            forall|k: int| 0 <= k < i ==> (#[trigger] r@[k])@ == when_texts(ast::expr_pairs(v@))[k],
        decreases v.len() - i,
    {
        let part = {
            let mut branch = v[i].0.to_sql();
            branch.append(" THEN ");
            branch.append(v[i].1.to_sql().as_str());
            branch
        };
        r.push(part);
        i = i + 1;
    }
    assert(text::texts(r@) =~= when_texts(ast::expr_pairs(v@)));
    r
}

fn print_columns(v: &Vec<ResultColumn>) -> (r: Vec<String>)
    ensures
        text::texts(r@) == result_column_texts(ast::result_columns(v@)),
    decreases v, 1int,
{
    let mut r: Vec<String> = Vec::new();
    let mut i: usize = 0;
    while i < v.len()
        invariant
            i <= v.len(),
            r@.len() == i,
            forall|k: int| 0 <= k < i ==> (#[trigger] r@[k])@
                == result_column_texts(ast::result_columns(v@))[k],
        decreases v.len() - i,
    {
        let part = v[i].to_sql();
        r.push(part);
        i = i + 1;
    }
    assert(text::texts(r@) =~= result_column_texts(ast::result_columns(v@)));
    r
}

fn print_joins(v: &Vec<Join>) -> (r: Vec<String>)
    ensures
        text::texts(r@) == join_texts(ast::joins(v@)),
    decreases v, 1int,
{
    let mut r: Vec<String> = Vec::new();
    let mut i: usize = 0;
    while i < v.len()
        invariant
            i <= v.len(),
            r@.len() == i,
            forall|k: int| 0 <= k < i ==> (#[trigger] r@[k])@ == join_texts(ast::joins(v@))[k],
        decreases v.len() - i,
    {
        let part = v[i].to_sql();
        r.push(part);
        i = i + 1;
    }
    assert(text::texts(r@) =~= join_texts(ast::joins(v@)));
    r
}

fn print_terms(v: &Vec<OrderingTerm>) -> (r: Vec<String>)
    ensures
        text::texts(r@) == ordering_term_texts(ast::ordering_terms(v@)),
    decreases v, 1int,
{
    let mut r: Vec<String> = Vec::new();
    let mut i: usize = 0;
    while i < v.len()
        invariant
            i <= v.len(),
            r@.len() == i,
            forall|k: int| 0 <= k < i ==> (#[trigger] r@[k])@
                == ordering_term_texts(ast::ordering_terms(v@))[k],
        decreases v.len() - i,
    {
        let part = v[i].to_sql();
        r.push(part);
        i = i + 1;
    }
    assert(text::texts(r@) =~= ordering_term_texts(ast::ordering_terms(v@)));
    r
}

fn print_arms(v: &Vec<CompoundSelect>) -> (r: Vec<String>)
    ensures
        text::texts(r@) == compound_texts(ast::compounds(v@)),
    decreases v, 1int,
{
    let mut r: Vec<String> = Vec::new();
    let mut i: usize = 0;
    while i < v.len()
        invariant
            i <= v.len(),
            r@.len() == i,
            forall|k: int| 0 <= k < i ==> (#[trigger] r@[k])@
                == compound_texts(ast::compounds(v@))[k],
        decreases v.len() - i,
    {
        let part = v[i].to_sql();
        r.push(part);
        i = i + 1;
    }
    assert(text::texts(r@) =~= compound_texts(ast::compounds(v@)));
    r
}

/// An expression behind `head`; nothing where there is none.
fn expr_behind(head: &str, e: &Option<Expr>) -> (s: String)
    ensures
        s@ == expr_clause(
            head@,
            match e {
                Some(x) => Some(x@),
                None => None,
            },
        ),
    decreases e, 1int,
{
    match e {
        Some(x) => joined(head, x.to_sql().as_str()),
        None => "".to_owned(),
    }
}

/// A boxed expression behind `head`; nothing where there is none.
fn boxed_behind(head: &str, e: &Option<Box<Expr>>) -> (s: String)
    ensures
        s@ == (match e {
            Some(x) => head@ + x@.text(),
            None => ""@,
        }),
    decreases e, 1int,
{
    match e {
        Some(x) => joined(head, x.to_sql().as_str()),
        None => "".to_owned(),
    }
}

fn from_behind(from: &Option<FromClause>) -> (s: String)
    ensures
        s@ == from_text(
            match from {
                Some(f) => Some(f@),
                None => None,
            },
        ),
    decreases from, 1int,
{
    match from {
        Some(f) => joined(" FROM ", f.to_sql().as_str()),
        None => "".to_owned(),
    }
}

fn limit_behind(limit: &Option<Limit>) -> (s: String)
    ensures
        s@ == (match limit {
            Some(l) => l@.text(),
            None => ""@,
        }),
    decreases limit, 1int,
{
    match limit {
        Some(l) => l.to_sql(),
        None => "".to_owned(),
    }
}

impl FunctionArgs {
    /// The text of this node, as SQL.
    pub fn to_sql(&self) -> (s: String)
        ensures
            s@ == self@.text(),
        decreases self, 0int,
    {
        match self {
            FunctionArgs::Star => "*".to_owned(),
            FunctionArgs::List(list) => text::join_texts(&print_exprs(list), ", "),
        }
    }
}

impl Expr {
    /// The text of this node, as SQL.
    #[verifier::rlimit(40)]
    pub fn to_sql(&self) -> (s: String)
        ensures
            s@ == self@.text(),
        decreases self, 0int,
    {
        match &self.kind {
            ExprKind::Literal(l) => l.to_sql(),
            ExprKind::Param(p) => p.to_sql(),
            ExprKind::Column { table, catalog, name } => {
                let mut s = qualifier(catalog);
                s.append(qualifier(table).as_str());
                s.append(print_name(name.as_str()).as_str());
                s
            },
            ExprKind::FunctionCall { name, distinct, args } => {
                let mut s = print_call_name(name.as_str());
                s.append("(");
                s.append(
                    if *distinct {
                        "DISTINCT "
                    } else {
                        ""
                    },
                );
                s.append(args.to_sql().as_str());
                s.append(")");
                s
            },
            ExprKind::Unary { op, expr } => prefixed(*op, expr.to_sql().as_str()),
            ExprKind::Binary { op, lhs, rhs } => {
                let mut s = lhs.to_sql();
                s.append(" ");
                s.append(binop_str(*op));
                s.append(" ");
                s.append(rhs.to_sql().as_str());
                s
            },
            ExprKind::Is { lhs, rhs, negated } => {
                let mut s = lhs.to_sql();
                s.append(" IS ");
                s.append(not_word(*negated));
                s.append(rhs.to_sql().as_str());
                s
            },
            ExprKind::IsNull { expr, negated } => {
                let mut s = expr.to_sql();
                s.append(
                    if *negated {
                        " NOTNULL"
                    } else {
                        " ISNULL"
                    },
                );
                s
            },
            ExprKind::Between { expr, lo, hi, negated } => {
                let mut s = expr.to_sql();
                s.append(" ");
                s.append(not_word(*negated));
                s.append("BETWEEN ");
                s.append(lo.to_sql().as_str());
                s.append(" AND ");
                s.append(hi.to_sql().as_str());
                s
            },
            ExprKind::In { expr, list, negated } => {
                let mut s = expr.to_sql();
                s.append(" ");
                s.append(not_word(*negated));
                s.append("IN (");
                s.append(text::join_texts(&print_exprs(list), ", ").as_str());
                s.append(")");
                s
            },
            ExprKind::Like { expr, pattern, glob, negated, escape } => {
                let mut s = expr.to_sql();
                s.append(" ");
                s.append(not_word(*negated));
                s.append(
                    if *glob {
                        "GLOB "
                    } else {
                        "LIKE "
                    },
                );
                s.append(pattern.to_sql().as_str());
                s.append(boxed_behind(" ESCAPE ", escape).as_str());
                s
            },
            ExprKind::Case { operand, whens, else_ } => {
                let mut s = "CASE".to_owned();
                s.append(boxed_behind(" ", operand).as_str());
                s.append(text::texts_behind(" WHEN ", &print_whens(whens)).as_str());
                s.append(boxed_behind(" ELSE ", else_).as_str());
                s.append(" END");
                s
            },
            ExprKind::Cast { expr, declared_type } => {
                let mut s = "CAST(".to_owned();
                s.append(expr.to_sql().as_str());
                s.append(" AS ");
                s.append(print_type(declared_type.as_str()).as_str());
                s.append(")");
                s
            },
            ExprKind::Collate { expr, collation } => {
                let mut s = expr.to_sql();
                s.append(" COLLATE ");
                s.append(print_name(collation.as_str()).as_str());
                s
            },
            ExprKind::Paren(inner) => wrapped("(", inner.to_sql().as_str(), ")"),
            ExprKind::Subquery(select) => wrapped("(", select.to_sql().as_str(), ")"),
            ExprKind::Exists { subquery, negated } => {
                let mut s = not_word(*negated).to_owned();
                s.append("EXISTS (");
                s.append(subquery.to_sql().as_str());
                s.append(")");
                s
            },
            ExprKind::InSubquery { expr, subquery, negated } => {
                let mut s = expr.to_sql();
                s.append(" ");
                s.append(not_word(*negated));
                s.append("IN (");
                s.append(subquery.to_sql().as_str());
                s.append(")");
                s
            },
            ExprKind::InSubqueryMulti { exprs, subquery, negated } => {
                let mut s = "(".to_owned();
                s.append(text::join_texts(&print_exprs(exprs), ", ").as_str());
                s.append(") ");
                s.append(not_word(*negated));
                s.append("IN (");
                s.append(subquery.to_sql().as_str());
                s.append(")");
                s
            },
        }
    }
}

impl ResultColumn {
    /// The text of this node, as SQL.
    pub fn to_sql(&self) -> (s: String)
        ensures
            s@ == self@.text(),
        decreases self, 0int,
    {
        match self {
            ResultColumn::Star => "*".to_owned(),
            ResultColumn::TableStar { table } => joined(print_name(table.as_str()).as_str(), ".*"),
            ResultColumn::Expr { expr, alias } => {
                let mut s = expr.to_sql();
                s.append(alias_behind(alias).as_str());
                s
            },
        }
    }
}

impl TableRef {
    /// The text of this node, as SQL.
    pub fn to_sql(&self) -> (s: String)
        ensures
            s@ == self@.text(),
        decreases self, 0int,
    {
        let mut s = match &self.kind {
            TableRefKind::Name(name) => print_name(name.as_str()),
            TableRefKind::Subquery(select) => wrapped("(", select.to_sql().as_str(), ")"),
        };
        s.append(alias_behind(&self.alias).as_str());
        s
    }
}

impl FromClause {
    /// The text of this node, as SQL.
    pub fn to_sql(&self) -> (s: String)
        ensures
            s@ == self@.text(),
        decreases self, 0int,
    {
        let mut s = self.first.to_sql();
        s.append(text::texts_behind(" ", &print_joins(&self.joins)).as_str());
        s
    }
}

impl Join {
    /// The text of this node, as SQL.
    pub fn to_sql(&self) -> (s: String)
        ensures
            s@ == self@.text(),
        decreases self, 0int,
    {
        let mut s = (if self.natural {
            "NATURAL "
        } else {
            ""
        }).to_owned();
        s.append(join_op_str(self.op));
        s.append(self.table.to_sql().as_str());
        let condition = match &self.constraint {
            Some(JoinConstraint::On(e)) => joined(" ON ", e.to_sql().as_str()),
            Some(JoinConstraint::Using(columns)) => wrapped(
                " USING (",
                text::join_texts(&print_names(columns), ", ").as_str(),
                ")",
            ),
            None => "".to_owned(),
        };
        s.append(condition.as_str());
        s
    }
}

impl OrderingTerm {
    /// The text of this node, as SQL.
    pub fn to_sql(&self) -> (s: String)
        ensures
            s@ == self@.text(),
        decreases self, 0int,
    {
        let mut s = self.expr.to_sql();
        s.append(direction(self.desc));
        s.append(nulls(self.nulls_last));
        s
    }
}

impl Limit {
    /// The text of this node, as SQL.
    pub fn to_sql(&self) -> (s: String)
        ensures
            s@ == self@.text(),
        decreases self, 0int,
    {
        let mut s = " LIMIT ".to_owned();
        s.append(self.limit.to_sql().as_str());
        s.append(expr_behind(" OFFSET ", &self.offset).as_str());
        s
    }
}

impl CompoundSelect {
    /// The text of this node, as SQL.
    pub fn to_sql(&self) -> (s: String)
        ensures
            s@ == self@.text(),
        decreases self, 0int,
    {
        let mut s = match self.op {
            CompoundOp::UnionAll => "UNION ALL SELECT".to_owned(),
        };
        s.append(distinct(self.distinct));
        s.append(list_behind(" ", &print_columns(&self.columns)).as_str());
        s.append(from_behind(&self.from).as_str());
        s.append(expr_behind(" WHERE ", &self.where_clause).as_str());
        s.append(list_behind(" GROUP BY ", &print_exprs(&self.group_by)).as_str());
        s.append(expr_behind(" HAVING ", &self.having).as_str());
        s
    }
}

impl Select {
    /// The text of this node, as SQL.
    pub fn to_sql(&self) -> (s: String)
        ensures
            s@ == self@.text(),
        decreases self, 0int,
    {
        let mut s = "SELECT".to_owned();
        s.append(distinct(self.distinct));
        s.append(list_behind(" ", &print_columns(&self.columns)).as_str());
        s.append(from_behind(&self.from).as_str());
        s.append(expr_behind(" WHERE ", &self.where_clause).as_str());
        s.append(list_behind(" GROUP BY ", &print_exprs(&self.group_by)).as_str());
        s.append(expr_behind(" HAVING ", &self.having).as_str());
        s.append(text::texts_behind(" ", &print_arms(&self.compound)).as_str());
        s.append(list_behind(" ORDER BY ", &print_terms(&self.order_by)).as_str());
        s.append(limit_behind(&self.limit).as_str());
        s
    }
}

fn print_rows(rows: &Vec<Vec<Expr>>) -> (r: Vec<String>)
    ensures
        text::texts(r@) == row_texts(ast::expr_rows(rows@)),
{
    let mut r: Vec<String> = Vec::new();
    let mut i: usize = 0;
    while i < rows.len()
        invariant
            i <= rows.len(),
            r@.len() == i,
            forall|k: int|
                0 <= k < i ==> (#[trigger] r@[k])@ == row_texts(ast::expr_rows(rows@))[k],
        decreases rows.len() - i,
    {
        let row = wrapped("(", text::join_texts(&print_exprs(&rows[i]), ", ").as_str(), ")");
        r.push(row);
        i = i + 1;
    }
    assert(text::texts(r@) =~= row_texts(ast::expr_rows(rows@)));
    r
}

impl InsertSource {
    /// The text of this node, as SQL.
    pub fn to_sql(&self) -> (s: String)
        ensures
            s@ == self@.text(),
    {
        match self {
            InsertSource::DefaultValues => " DEFAULT VALUES".to_owned(),
            InsertSource::Values(rows) => joined(
                " VALUES ",
                text::join_texts(&print_rows(rows), ", ").as_str(),
            ),
            InsertSource::Select(select) => joined(" ", select.to_sql().as_str()),
        }
    }
}

impl Insert {
    /// The text of this node, as SQL.
    pub fn to_sql(&self) -> (s: String)
        ensures
            s@ == self@.text(),
    {
        let mut s = "INSERT".to_owned();
        s.append(conflict(self.or_action));
        s.append(" INTO ");
        s.append(print_name(self.table.as_str()).as_str());
        s.append(names_behind(&self.columns).as_str());
        s.append(self.source.to_sql().as_str());
        s
    }
}

impl Delete {
    /// The text of this node, as SQL.
    pub fn to_sql(&self) -> (s: String)
        ensures
            s@ == self@.text(),
    {
        let mut s = "DELETE FROM ".to_owned();
        s.append(print_name(self.table.as_str()).as_str());
        s.append(expr_behind(" WHERE ", &self.where_clause).as_str());
        s
    }
}

fn print_default(e: &Expr) -> (s: String)
    ensures
        s@ == default_text(e@),
{
    match &e.kind {
        ExprKind::Literal(l) => l.to_token(),
        ExprKind::Unary { op, expr } => print_default_operand(e, *op, expr),
        _ => e.to_sql(),
    }
}

fn print_default_operand(e: &Expr, op: UnaryOp, expr: &Expr) -> (s: String)
    requires
        e@.kind == (ExprKindView::Unary { op, expr: Box::new(expr@) }),
    ensures
        s@ == default_text(e@),
{
    match &expr.kind {
        ExprKind::Literal(l) => joined(unary_op_str(op), l.to_token().as_str()),
        _ => e.to_sql(),
    }
}

impl DefaultValue {
    /// The text of this node, as SQL.
    pub fn to_sql(&self) -> (s: String)
        ensures
            s@ == self@.text(),
    {
        match self {
            DefaultValue::Literal(e) => print_default(e),
            DefaultValue::Paren(e) => wrapped("(", e.to_sql().as_str(), ")"),
        }
    }
}

impl ColumnConstraint {
    /// The text of this node, as SQL.
    pub fn to_sql(&self) -> (s: String)
        ensures
            s@ == self@.text(),
    {
        match self {
            ColumnConstraint::NotNull => "NOT NULL".to_owned(),
            ColumnConstraint::PrimaryKey { desc, autoincrement } => {
                let mut s = "PRIMARY KEY".to_owned();
                s.append(direction(*desc));
                s.append(
                    if *autoincrement {
                        " AUTOINCREMENT"
                    } else {
                        ""
                    },
                );
                s
            },
            ColumnConstraint::Unique => "UNIQUE".to_owned(),
            ColumnConstraint::Default(value) => joined("DEFAULT ", value.to_sql().as_str()),
            ColumnConstraint::Check(e) => wrapped("CHECK (", e.to_sql().as_str(), ")"),
            ColumnConstraint::Collate(name) => joined("COLLATE ",
                print_name(name.as_str()).as_str()),
        }
    }
}

fn print_column_constraints(v: &Vec<ColumnConstraint>) -> (r: Vec<String>)
    ensures
        text::texts(r@) == column_constraint_texts(ast::column_constraints(v@)),
{
    let mut r: Vec<String> = Vec::new();
    let mut i: usize = 0;
    while i < v.len()
        invariant
            i <= v.len(),
            r@.len() == i,
            forall|k: int| 0 <= k < i ==> (#[trigger] r@[k])@
                == column_constraint_texts(ast::column_constraints(v@))[k],
        decreases v.len() - i,
    {
        let part = v[i].to_sql();
        r.push(part);
        i = i + 1;
    }
    assert(text::texts(r@) =~= column_constraint_texts(ast::column_constraints(v@)));
    r
}

impl ColumnDef {
    /// The text of this node, as SQL.
    pub fn to_sql(&self) -> (s: String)
        ensures
            s@ == self@.text(),
    {
        let mut s = print_name(self.name.as_str());
        let words = match &self.declared_type {
            Some(words) => joined(" ", print_type(words.as_str()).as_str()),
            None => "".to_owned(),
        };
        s.append(words.as_str());
        s.append(text::texts_behind(" ", &print_column_constraints(&self.constraints)).as_str());
        s
    }
}

fn print_column_defs(v: &Vec<ColumnDef>) -> (r: Vec<String>)
    ensures
        text::texts(r@) == column_def_texts(ast::column_defs(v@)),
{
    let mut r: Vec<String> = Vec::new();
    let mut i: usize = 0;
    while i < v.len()
        invariant
            i <= v.len(),
            r@.len() == i,
            forall|k: int| 0 <= k < i ==> (#[trigger] r@[k])@
                == column_def_texts(ast::column_defs(v@))[k],
        decreases v.len() - i,
    {
        let part = v[i].to_sql();
        r.push(part);
        i = i + 1;
    }
    assert(text::texts(r@) =~= column_def_texts(ast::column_defs(v@)));
    r
}

impl IndexedColumn {
    /// The text of this node, as SQL.
    pub fn to_sql(&self) -> (s: String)
        ensures
            s@ == self@.text(),
    {
        let mut s = self.expr.to_sql();
        s.append(direction(self.desc));
        s
    }
}

fn print_indexed_columns(v: &Vec<IndexedColumn>) -> (r: Vec<String>)
    ensures
        text::texts(r@) == indexed_column_texts(ast::indexed_columns(v@)),
{
    let mut r: Vec<String> = Vec::new();
    let mut i: usize = 0;
    while i < v.len()
        invariant
            i <= v.len(),
            r@.len() == i,
            forall|k: int| 0 <= k < i ==> (#[trigger] r@[k])@
                == indexed_column_texts(ast::indexed_columns(v@))[k],
        decreases v.len() - i,
    {
        let part = v[i].to_sql();
        r.push(part);
        i = i + 1;
    }
    assert(text::texts(r@) =~= indexed_column_texts(ast::indexed_columns(v@)));
    r
}

impl TableConstraint {
    /// The text of this node, as SQL.
    pub fn to_sql(&self) -> (s: String)
        ensures
            s@ == self@.text(),
    {
        match self {
            TableConstraint::PrimaryKey(cols) => wrapped(
                "PRIMARY KEY (",
                text::join_texts(&print_indexed_columns(cols), ", ").as_str(),
                ")",
            ),
            TableConstraint::Unique(cols) => wrapped(
                "UNIQUE (",
                text::join_texts(&print_indexed_columns(cols), ", ").as_str(),
                ")",
            ),
            TableConstraint::Check(e) => wrapped("CHECK (", e.to_sql().as_str(), ")"),
        }
    }
}

fn print_table_constraints(v: &Vec<TableConstraint>) -> (r: Vec<String>)
    ensures
        text::texts(r@) == table_constraint_texts(ast::table_constraints(v@)),
{
    let mut r: Vec<String> = Vec::new();
    let mut i: usize = 0;
    while i < v.len()
        invariant
            i <= v.len(),
            r@.len() == i,
            forall|k: int| 0 <= k < i ==> (#[trigger] r@[k])@
                == table_constraint_texts(ast::table_constraints(v@))[k],
        decreases v.len() - i,
    {
        let part = v[i].to_sql();
        r.push(part);
        i = i + 1;
    }
    assert(text::texts(r@) =~= table_constraint_texts(ast::table_constraints(v@)));
    r
}

impl CreateTable {
    /// The text of this node, as SQL.
    pub fn to_sql(&self) -> (s: String)
        ensures
            s@ == self@.text(),
    {
        let mut s = "CREATE TABLE ".to_owned();
        s.append(if_not_exists_str(self.if_not_exists));
        s.append(print_name(self.name.as_str()).as_str());
        s.append(" (");
        s.append(text::join_texts(&print_column_defs(&self.columns), ", ").as_str());
        s.append(
            text::texts_behind(", ", &print_table_constraints(&self.constraints)).as_str(),
        );
        s.append(")");
        s.append(
            if self.without_rowid {
                " WITHOUT ROWID"
            } else if self.strict {
                " STRICT"
            } else {
                ""
            },
        );
        s
    }
}

impl CreateIndex {
    /// The text of this node, as SQL.
    pub fn to_sql(&self) -> (s: String)
        ensures
            s@ == self@.text(),
    {
        let mut s = "CREATE ".to_owned();
        s.append(
            if self.unique {
                "UNIQUE "
            } else {
                ""
            },
        );
        s.append("INDEX ");
        s.append(if_not_exists_str(self.if_not_exists));
        s.append(print_name(self.name.as_str()).as_str());
        s.append(" ON ");
        s.append(print_name(self.table.as_str()).as_str());
        s.append(" (");
        s.append(text::join_texts(&print_indexed_columns(&self.columns), ", ").as_str());
        s.append(")");
        s.append(expr_behind(" WHERE ", &self.where_clause).as_str());
        s
    }
}

impl DropTable {
    /// The text of this node, as SQL.
    pub fn to_sql(&self) -> (s: String)
        ensures
            s@ == self@.text(),
    {
        let mut s = "DROP TABLE ".to_owned();
        s.append(if_exists_str(self.if_exists));
        s.append(print_name(self.name.as_str()).as_str());
        s
    }
}

impl DropIndex {
    /// The text of this node, as SQL.
    pub fn to_sql(&self) -> (s: String)
        ensures
            s@ == self@.text(),
    {
        let mut s = "DROP INDEX ".to_owned();
        s.append(if_exists_str(self.if_exists));
        s.append(print_name(self.name.as_str()).as_str());
        s
    }
}

impl TransactionMode {
    /// The text of this node, as SQL.
    pub fn to_sql(&self) -> (s: String)
        ensures
            s@ == mode_text(*self),
    {
        match self {
            TransactionMode::Deferred => "DEFERRED".to_owned(),
            TransactionMode::Immediate => "IMMEDIATE".to_owned(),
            TransactionMode::Exclusive => "EXCLUSIVE".to_owned(),
        }
    }
}

impl Begin {
    /// The text of this node, as SQL.
    pub fn to_sql(&self) -> (s: String)
        ensures
            s@ == begin_text(*self),
    {
        let mode = match self.mode {
            Some(mode) => joined(" ", mode.to_sql().as_str()),
            None => "".to_owned(),
        };
        joined("BEGIN", mode.as_str())
    }
}

impl Commit {
    /// The text of this node, as SQL.
    pub fn to_sql(&self) -> (s: String)
        ensures
            s@ == "COMMIT"@,
    {
        "COMMIT".to_owned()
    }
}

impl Rollback {
    /// The text of this node, as SQL.
    pub fn to_sql(&self) -> (s: String)
        ensures
            s@ == "ROLLBACK"@,
    {
        "ROLLBACK".to_owned()
    }
}

} // verus!
