//! Syntax trees for the SELECT core, the DML and DDL statements, joins, subquery
//! expressions, GROUP BY/HAVING and transaction control.
//!
//! Every statement and expression carries a [`Span`], and parenthesized expressions are
//! preserved explicitly via [`ExprKind::Paren`] rather than discarded, so
//! `SELECT (a + b) * c` keeps its grouping.
//!
//! Beside each tree type stands its mathematical counterpart, named after it with
//! `View` behind: the same tree over sequences of characters in place of strings and
//! sequences of nodes in place of vectors.
use crate::parser::tokenizer::Span;
use crate::text;
use vstd::prelude::*;

verus! {

#[derive(Debug, PartialEq)]
pub struct Update {
    pub or_action: Option<ConflictAction>,
    pub table: String,
    pub assignments: Vec<Assignment>,
    pub where_clause: Option<Expr>,
    pub span: Span,
}

#[derive(Debug, PartialEq)]
pub struct Assignment {
    /// One column for `col = expr`; the tuple form `(col1, col2) = (expr1, expr2)` is
    /// expanded into one [`Assignment`] per column, each carrying its paired expr from
    /// the right-hand list.
    pub columns: Vec<String>,
    pub value: Expr,
}

#[derive(Debug, PartialEq)]
pub struct Select {
    pub distinct: Option<Distinctness>,
    pub columns: Vec<ResultColumn>,
    pub from: Option<FromClause>,
    pub where_clause: Option<Expr>,
    pub group_by: Vec<Expr>,
    pub having: Option<Expr>,
    /// `UNION ALL` arms chained after this `Select`'s own core. `order_by`/`limit` below
    /// apply to the whole compound statement, not to any individual arm.
    pub compound: Vec<CompoundSelect>,
    pub order_by: Vec<OrderingTerm>,
    pub limit: Option<Limit>,
    pub span: Span,
}

/// One `UNION ALL SELECT ...` arm of a compound `SELECT`. Same shape as `Select`'s own
/// core, minus `order_by`/`limit`.
#[derive(Debug, PartialEq)]
pub struct CompoundSelect {
    pub op: CompoundOp,
    pub distinct: Option<Distinctness>,
    pub columns: Vec<ResultColumn>,
    pub from: Option<FromClause>,
    pub where_clause: Option<Expr>,
    pub group_by: Vec<Expr>,
    pub having: Option<Expr>,
    pub span: Span,
}

/// Only `UnionAll` is implemented; plain `UNION` (dedup), `INTERSECT` and `EXCEPT` are
/// not.
#[derive(Debug, Clone, Copy, PartialEq, Eq, Structural)]
pub enum CompoundOp {
    UnionAll,
}

/// `EXPLAIN QUERY PLAN select-stmt`.
#[derive(Debug, PartialEq)]
pub struct Explain {
    pub query_plan: bool,
    pub select: Box<Select>,
}

#[derive(Debug, Clone, Copy, PartialEq, Eq, Structural)]
pub enum Distinctness {
    Distinct,
    All,
}

#[derive(Debug, PartialEq)]
pub enum ResultColumn {
    Star,
    TableStar { table: String },
    Expr { expr: Expr, alias: Option<String> },
}

/// A `FROM`-clause table entry: either a real catalog table by name, or a parenthesized
/// `select-stmt`.
#[derive(Debug, PartialEq)]
pub enum TableRefKind {
    Name(String),
    Subquery(Box<Select>),
}

#[derive(Debug, PartialEq)]
pub struct TableRef {
    pub kind: TableRefKind,
    pub alias: Option<String>,
    pub span: Span,
}

/// A `FROM` clause: the first table plus zero or more joins, evaluated left-to-right.
#[derive(Debug, PartialEq)]
pub struct FromClause {
    pub first: TableRef,
    pub joins: Vec<Join>,
}

/// One `[NATURAL] <join_op> <table> [ON <expr> | USING (col, ...)]` step of a
/// [`FromClause`].
#[derive(Debug, PartialEq)]
pub struct Join {
    pub op: JoinOp,
    pub table: TableRef,
    pub constraint: Option<JoinConstraint>,
    pub natural: bool,
}

#[derive(Debug, Clone, Copy, PartialEq, Eq, Structural)]
pub enum JoinOp {
    Inner,
    Left,
    Cross,
    Right,
    Full,
}

/// The join's matching condition: `ON <expr>` or `USING (col, ...)`.
#[derive(Debug, PartialEq)]
pub enum JoinConstraint {
    On(Expr),
    Using(Vec<String>),
}

#[derive(Debug, PartialEq)]
pub struct OrderingTerm {
    pub expr: Expr,
    /// `None` = no ASC/DESC given, `Some(true)` = DESC.
    pub desc: Option<bool>,
    /// `None` = no NULLS FIRST/LAST given, `Some(true)` = NULLS LAST.
    pub nulls_last: Option<bool>,
}

#[derive(Debug, PartialEq)]
pub struct Limit {
    pub limit: Expr,
    pub offset: Option<Expr>,
}

#[derive(Debug, PartialEq)]
pub struct Expr {
    pub kind: ExprKind,
    pub span: Span,
}

#[derive(Debug, PartialEq)]
pub enum ExprKind {
    Literal(Literal),
    Param(ParamKind),
    Column { table: Option<String>, catalog: Option<String>, name: String },
    FunctionCall { name: String, distinct: bool, args: FunctionArgs },
    Unary { op: UnaryOp, expr: Box<Expr> },
    Binary { op: BinaryOp, lhs: Box<Expr>, rhs: Box<Expr> },
    Is { lhs: Box<Expr>, rhs: Box<Expr>, negated: bool },
    IsNull { expr: Box<Expr>, negated: bool },
    Between { expr: Box<Expr>, lo: Box<Expr>, hi: Box<Expr>, negated: bool },
    In { expr: Box<Expr>, list: Vec<Expr>, negated: bool },
    Like {
        expr: Box<Expr>,
        pattern: Box<Expr>,
        glob: bool,
        negated: bool,
        escape: Option<Box<Expr>>,
    },
    Case { operand: Option<Box<Expr>>, whens: Vec<(Expr, Expr)>, else_: Option<Box<Expr>> },
    Cast { expr: Box<Expr>, declared_type: String },
    Collate { expr: Box<Expr>, collation: String },
    /// A parenthesized expression, preserved explicitly.
    Paren(Box<Expr>),
    /// A scalar subquery `(SELECT ...)`.
    Subquery(Box<Select>),
    /// `EXISTS (SELECT ...)` / `NOT EXISTS (SELECT ...)`.
    Exists { subquery: Box<Select>, negated: bool },
    /// `expr IN (SELECT ...)` / `expr NOT IN (SELECT ...)`.
    InSubquery { expr: Box<Expr>, subquery: Box<Select>, negated: bool },
    /// `(a, b) IN (SELECT x, y FROM ...)` / `... NOT IN (...)`. `exprs` is the left-hand
    /// tuple, of two or more.
    InSubqueryMulti { exprs: Vec<Expr>, subquery: Box<Select>, negated: bool },
}

#[derive(Debug, PartialEq)]
pub enum FunctionArgs {
    /// `f(*)`.
    Star,
    List(Vec<Expr>),
}

#[derive(Debug, Clone, PartialEq)]
pub enum Literal {
    Integer(i64),
    /// A floating-point literal, by the bit pattern of its double.
    Float(u64),
    Str(String),
    Blob(Vec<u8>),
    Null,
    True,
    False,
}

#[derive(Debug, Clone, PartialEq)]
pub enum ParamKind {
    /// Bare `?`.
    Anonymous,
    /// `?NNN`.
    Numbered(u32),
    /// `:name`.
    Colon(String),
    /// `@name`.
    At(String),
    /// `$name`.
    Dollar(String),
}

#[derive(Debug, Clone, Copy, PartialEq, Eq, Structural)]
pub enum UnaryOp {
    Not,
    Plus,
    Minus,
    BitNot,
}

#[derive(Debug, PartialEq)]
pub struct Insert {
    pub or_action: Option<ConflictAction>,
    pub table: String,
    pub columns: Option<Vec<String>>,
    pub source: InsertSource,
    pub span: Span,
}

#[derive(Debug, Clone, Copy, PartialEq, Eq, Structural)]
pub enum ConflictAction {
    Replace,
    Ignore,
    Abort,
    Rollback,
    Fail,
}

#[derive(Debug, PartialEq)]
pub enum InsertSource {
    Values(Vec<Vec<Expr>>),
    Select(Box<Select>),
    DefaultValues,
}

#[derive(Debug, PartialEq)]
pub struct Delete {
    pub table: String,
    pub where_clause: Option<Expr>,
    pub span: Span,
}

#[derive(Debug, PartialEq)]
pub struct CreateTable {
    pub if_not_exists: bool,
    pub name: String,
    pub columns: Vec<ColumnDef>,
    pub constraints: Vec<TableConstraint>,
    pub without_rowid: bool,
    pub strict: bool,
    pub span: Span,
}

#[derive(Debug, PartialEq)]
pub struct ColumnDef {
    pub name: String,
    pub declared_type: Option<String>,
    pub constraints: Vec<ColumnConstraint>,
}

#[derive(Debug, PartialEq)]
pub enum ColumnConstraint {
    NotNull,
    PrimaryKey {
        /// `None` = no ASC/DESC given, `Some(true)` = DESC.
        desc: Option<bool>,
        autoincrement: bool,
    },
    Unique,
    Default(DefaultValue),
    Check(Expr),
    Collate(String),
}

/// `DEFAULT` accepts either a bare literal or a parenthesized expression (never a bare
/// non-literal expression) — kept as separate variants so the printer knows which form
/// reparses correctly.
#[derive(Debug, PartialEq)]
pub enum DefaultValue {
    Literal(Expr),
    Paren(Expr),
}

#[derive(Debug, PartialEq)]
pub enum TableConstraint {
    PrimaryKey(Vec<IndexedColumn>),
    Unique(Vec<IndexedColumn>),
    Check(Expr),
}

/// An indexed-column: an expression (bare column ref, `COLLATE`-qualified, or a general
/// expression for functional indexes), plus optional ASC/DESC. Shared by `CREATE INDEX`
/// and `PRIMARY KEY`/`UNIQUE` table constraints.
#[derive(Debug, PartialEq)]
pub struct IndexedColumn {
    pub expr: Expr,
    pub desc: Option<bool>,
}

#[derive(Debug, PartialEq)]
pub struct CreateIndex {
    pub unique: bool,
    pub if_not_exists: bool,
    pub name: String,
    pub table: String,
    pub columns: Vec<IndexedColumn>,
    pub where_clause: Option<Expr>,
    pub span: Span,
}

/// `CREATE VIEW [IF NOT EXISTS] name [(column, ...)] AS select-stmt`.
#[derive(Debug, PartialEq)]
pub struct CreateView {
    pub if_not_exists: bool,
    pub name: String,
    pub columns: Option<Vec<String>>,
    pub query: Box<Select>,
    pub span: Span,
}

#[derive(Debug, Clone, PartialEq)]
pub struct DropTable {
    pub if_exists: bool,
    pub name: String,
    pub span: Span,
}

#[derive(Debug, Clone, PartialEq)]
pub struct DropIndex {
    pub if_exists: bool,
    pub name: String,
    pub span: Span,
}

#[derive(Debug, Clone, PartialEq)]
pub struct DropView {
    pub if_exists: bool,
    pub name: String,
    pub span: Span,
}

#[derive(Debug, Clone, Copy, PartialEq, Eq, Structural)]
pub enum TransactionMode {
    Deferred,
    Immediate,
    Exclusive,
}

/// `BEGIN [DEFERRED | IMMEDIATE | EXCLUSIVE] [TRANSACTION]`.
#[derive(Debug, Clone, Copy, PartialEq, Eq, Structural)]
pub struct Begin {
    pub mode: Option<TransactionMode>,
    pub span: Span,
}

/// `COMMIT [TRANSACTION]` / `END [TRANSACTION]`.
#[derive(Debug, Clone, Copy, PartialEq, Eq, Structural)]
pub struct Commit {
    pub span: Span,
}

/// `ROLLBACK [TRANSACTION]`.
#[derive(Debug, Clone, Copy, PartialEq, Eq, Structural)]
pub struct Rollback {
    pub span: Span,
}

#[derive(Debug, Clone, Copy, PartialEq, Eq, Structural)]
pub enum BinaryOp {
    Or,
    And,
    Eq,
    Ne,
    Lt,
    Le,
    Gt,
    Ge,
    BitAnd,
    BitOr,
    Shl,
    Shr,
    Add,
    Sub,
    Mul,
    Div,
    Mod,
    Concat,
}

#[verifier::ext_equal]
pub struct UpdateView {
    pub or_action: Option<ConflictAction>,
    pub table: Seq<char>,
    pub assignments: Seq<AssignmentView>,
    pub where_clause: Option<ExprView>,
    pub span: Span,
}

impl Update {
    pub open spec fn view(&self) -> UpdateView
        decreases self,
    {
        UpdateView {
            or_action: self.or_action,
            table: self.table@,
            assignments: assignments(self.assignments@),
            where_clause: match self.where_clause { Some(v) => Some(v.view()), None => None },
            span: self.span,
        }
    }
}

#[verifier::ext_equal]
pub struct AssignmentView {
    pub columns: Seq<Seq<char>>,
    pub value: ExprView,
}

impl Assignment {
    pub open spec fn view(&self) -> AssignmentView
        decreases self,
    {
        AssignmentView {
            columns: text::texts(self.columns@),
            value: self.value.view(),
        }
    }
}

#[verifier::ext_equal]
pub struct SelectView {
    pub distinct: Option<Distinctness>,
    pub columns: Seq<ResultColumnView>,
    pub from: Option<FromClauseView>,
    pub where_clause: Option<ExprView>,
    pub group_by: Seq<ExprView>,
    pub having: Option<ExprView>,
    pub compound: Seq<CompoundSelectView>,
    pub order_by: Seq<OrderingTermView>,
    pub limit: Option<LimitView>,
    pub span: Span,
}

impl Select {
    pub open spec fn view(&self) -> SelectView
        decreases self,
    {
        SelectView {
            distinct: self.distinct,
            columns: result_columns(self.columns@),
            from: match self.from { Some(v) => Some(v.view()), None => None },
            where_clause: match self.where_clause { Some(v) => Some(v.view()), None => None },
            group_by: expr_list(self.group_by@),
            having: match self.having { Some(v) => Some(v.view()), None => None },
            compound: compounds(self.compound@),
            order_by: ordering_terms(self.order_by@),
            limit: match self.limit { Some(v) => Some(v.view()), None => None },
            span: self.span,
        }
    }
}

#[verifier::ext_equal]
pub struct CompoundSelectView {
    pub op: CompoundOp,
    pub distinct: Option<Distinctness>,
    pub columns: Seq<ResultColumnView>,
    pub from: Option<FromClauseView>,
    pub where_clause: Option<ExprView>,
    pub group_by: Seq<ExprView>,
    pub having: Option<ExprView>,
    pub span: Span,
}

impl CompoundSelect {
    pub open spec fn view(&self) -> CompoundSelectView
        decreases self,
    {
        CompoundSelectView {
            op: self.op,
            distinct: self.distinct,
            columns: result_columns(self.columns@),
            from: match self.from { Some(v) => Some(v.view()), None => None },
            where_clause: match self.where_clause { Some(v) => Some(v.view()), None => None },
            group_by: expr_list(self.group_by@),
            having: match self.having { Some(v) => Some(v.view()), None => None },
            span: self.span,
        }
    }
}

#[verifier::ext_equal]
pub struct ExplainView {
    pub query_plan: bool,
    pub select: Box<SelectView>,
}

impl Explain {
    pub open spec fn view(&self) -> ExplainView
        decreases self,
    {
        ExplainView {
            query_plan: self.query_plan,
            select: Box::new(self.select.view()),
        }
    }
}

#[verifier::ext_equal]
pub enum ResultColumnView {
    Star,
    TableStar { table: Seq<char> },
    Expr { expr: ExprView, alias: Option<Seq<char>> },
}

impl ResultColumn {
    pub open spec fn view(&self) -> ResultColumnView
        decreases self,
    {
        match self {
            ResultColumn::Star => ResultColumnView::Star,
            ResultColumn::TableStar { table } => ResultColumnView::TableStar {
                table: table@,
            },
            ResultColumn::Expr { expr, alias } => ResultColumnView::Expr {
                expr: expr.view(),
                alias: match alias { Some(v) => Some(v@), None => None },
            },
        }
    }
}

#[verifier::ext_equal]
pub enum TableRefKindView {
    Name(Seq<char>),
    Subquery(Box<SelectView>),
}

impl TableRefKind {
    pub open spec fn view(&self) -> TableRefKindView
        decreases self,
    {
        match self {
            TableRefKind::Name(x) => TableRefKindView::Name(x@),
            TableRefKind::Subquery(x) => TableRefKindView::Subquery(Box::new(x.view())),
        }
    }
}

#[verifier::ext_equal]
pub struct TableRefView {
    pub kind: TableRefKindView,
    pub alias: Option<Seq<char>>,
    pub span: Span,
}

impl TableRef {
    pub open spec fn view(&self) -> TableRefView
        decreases self,
    {
        TableRefView {
            kind: self.kind.view(),
            alias: match self.alias { Some(v) => Some(v@), None => None },
            span: self.span,
        }
    }
}

#[verifier::ext_equal]
pub struct FromClauseView {
    pub first: TableRefView,
    pub joins: Seq<JoinView>,
}

impl FromClause {
    pub open spec fn view(&self) -> FromClauseView
        decreases self,
    {
        FromClauseView {
            first: self.first.view(),
            joins: joins(self.joins@),
        }
    }
}

#[verifier::ext_equal]
pub struct JoinView {
    pub op: JoinOp,
    pub table: TableRefView,
    pub constraint: Option<JoinConstraintView>,
    pub natural: bool,
}

impl Join {
    pub open spec fn view(&self) -> JoinView
        decreases self,
    {
        JoinView {
            op: self.op,
            table: self.table.view(),
            constraint: match self.constraint { Some(v) => Some(v.view()), None => None },
            natural: self.natural,
        }
    }
}

#[verifier::ext_equal]
pub enum JoinConstraintView {
    On(ExprView),
    Using(Seq<Seq<char>>),
}

impl JoinConstraint {
    pub open spec fn view(&self) -> JoinConstraintView
        decreases self,
    {
        match self {
            JoinConstraint::On(x) => JoinConstraintView::On(x.view()),
            JoinConstraint::Using(x) => JoinConstraintView::Using(text::texts(x@)),
        }
    }
}

#[verifier::ext_equal]
pub struct OrderingTermView {
    pub expr: ExprView,
    pub desc: Option<bool>,
    pub nulls_last: Option<bool>,
}

impl OrderingTerm {
    pub open spec fn view(&self) -> OrderingTermView
        decreases self,
    {
        OrderingTermView {
            expr: self.expr.view(),
            desc: self.desc,
            nulls_last: self.nulls_last,
        }
    }
}

#[verifier::ext_equal]
pub struct LimitView {
    pub limit: ExprView,
    pub offset: Option<ExprView>,
}

impl Limit {
    pub open spec fn view(&self) -> LimitView
        decreases self,
    {
        LimitView {
            limit: self.limit.view(),
            offset: match self.offset { Some(v) => Some(v.view()), None => None },
        }
    }
}

#[verifier::ext_equal]
pub struct ExprView {
    pub kind: ExprKindView,
    pub span: Span,
}

impl Expr {
    pub open spec fn view(&self) -> ExprView
        decreases self,
    {
        ExprView {
            kind: self.kind.view(),
            span: self.span,
        }
    }
}

#[verifier::ext_equal]
pub enum ExprKindView {
    Literal(LiteralView),
    Param(ParamKindView),
    Column { table: Option<Seq<char>>, catalog: Option<Seq<char>>, name: Seq<char> },
    FunctionCall { name: Seq<char>, distinct: bool, args: FunctionArgsView },
    Unary { op: UnaryOp, expr: Box<ExprView> },
    Binary { op: BinaryOp, lhs: Box<ExprView>, rhs: Box<ExprView> },
    Is { lhs: Box<ExprView>, rhs: Box<ExprView>, negated: bool },
    IsNull { expr: Box<ExprView>, negated: bool },
    Between { expr: Box<ExprView>, lo: Box<ExprView>, hi: Box<ExprView>, negated: bool },
    In { expr: Box<ExprView>, list: Seq<ExprView>, negated: bool },
    Like { expr: Box<ExprView>, pattern: Box<ExprView>, glob: bool, negated: bool,
        escape: Option<Box<ExprView>> },
    Case { operand: Option<Box<ExprView>>, whens: Seq<(ExprView, ExprView)>,
        else_: Option<Box<ExprView>> },
    Cast { expr: Box<ExprView>, declared_type: Seq<char> },
    Collate { expr: Box<ExprView>, collation: Seq<char> },
    Paren(Box<ExprView>),
    Subquery(Box<SelectView>),
    Exists { subquery: Box<SelectView>, negated: bool },
    InSubquery { expr: Box<ExprView>, subquery: Box<SelectView>, negated: bool },
    InSubqueryMulti { exprs: Seq<ExprView>, subquery: Box<SelectView>, negated: bool },
}

impl ExprKind {
    pub open spec fn view(&self) -> ExprKindView
        decreases self,
    {
        match self {
            ExprKind::Literal(x) => ExprKindView::Literal(x.view()),
            ExprKind::Param(x) => ExprKindView::Param(x.view()),
            ExprKind::Column { table, catalog, name } => ExprKindView::Column {
                table: match table { Some(v) => Some(v@), None => None },
                catalog: match catalog { Some(v) => Some(v@), None => None },
                name: name@,
            },
            ExprKind::FunctionCall { name, distinct, args } => ExprKindView::FunctionCall {
                name: name@,
                distinct: *distinct,
                args: args.view(),
            },
            ExprKind::Unary { op, expr } => ExprKindView::Unary {
                op: *op,
                expr: Box::new(expr.view()),
            },
            ExprKind::Binary { op, lhs, rhs } => ExprKindView::Binary {
                op: *op,
                lhs: Box::new(lhs.view()),
                rhs: Box::new(rhs.view()),
            },
            ExprKind::Is { lhs, rhs, negated } => ExprKindView::Is {
                lhs: Box::new(lhs.view()),
                rhs: Box::new(rhs.view()),
                negated: *negated,
            },
            ExprKind::IsNull { expr, negated } => ExprKindView::IsNull {
                expr: Box::new(expr.view()),
                negated: *negated,
            },
            ExprKind::Between { expr, lo, hi, negated } => ExprKindView::Between {
                expr: Box::new(expr.view()),
                lo: Box::new(lo.view()),
                hi: Box::new(hi.view()),
                negated: *negated,
            },
            ExprKind::In { expr, list, negated } => ExprKindView::In {
                expr: Box::new(expr.view()),
                list: expr_list(list@),
                negated: *negated,
            },
            ExprKind::Like { expr, pattern, glob, negated, escape } => ExprKindView::Like {
                expr: Box::new(expr.view()),
                pattern: Box::new(pattern.view()),
                glob: *glob,
                negated: *negated,
                escape: match escape { Some(v) => Some(Box::new(v.view())), None => None },
            },
            ExprKind::Case { operand, whens, else_ } => ExprKindView::Case {
                operand: match operand { Some(v) => Some(Box::new(v.view())), None => None },
                whens: expr_pairs(whens@),
                else_: match else_ { Some(v) => Some(Box::new(v.view())), None => None },
            },
            ExprKind::Cast { expr, declared_type } => ExprKindView::Cast {
                expr: Box::new(expr.view()),
                declared_type: declared_type@,
            },
            ExprKind::Collate { expr, collation } => ExprKindView::Collate {
                expr: Box::new(expr.view()),
                collation: collation@,
            },
            ExprKind::Paren(x) => ExprKindView::Paren(Box::new(x.view())),
            ExprKind::Subquery(x) => ExprKindView::Subquery(Box::new(x.view())),
            ExprKind::Exists { subquery, negated } => ExprKindView::Exists {
                subquery: Box::new(subquery.view()),
                negated: *negated,
            },
            ExprKind::InSubquery { expr, subquery, negated } => ExprKindView::InSubquery {
                expr: Box::new(expr.view()),
                subquery: Box::new(subquery.view()),
                negated: *negated,
            },
            ExprKind::InSubqueryMulti { exprs, subquery, negated } =>
                ExprKindView::InSubqueryMulti {
                exprs: expr_list(exprs@),
                subquery: Box::new(subquery.view()),
                negated: *negated,
            },
        }
    }
}

#[verifier::ext_equal]
pub enum FunctionArgsView {
    Star,
    List(Seq<ExprView>),
}

impl FunctionArgs {
    pub open spec fn view(&self) -> FunctionArgsView
        decreases self,
    {
        match self {
            FunctionArgs::Star => FunctionArgsView::Star,
            FunctionArgs::List(x) => FunctionArgsView::List(expr_list(x@)),
        }
    }
}

#[verifier::ext_equal]
pub enum LiteralView {
    Integer(i64),
    Float(u64),
    Str(Seq<char>),
    Blob(Seq<u8>),
    Null,
    True,
    False,
}

impl Literal {
    pub open spec fn view(&self) -> LiteralView
        decreases self,
    {
        match self {
            Literal::Integer(x) => LiteralView::Integer(*x),
            Literal::Float(bits) => LiteralView::Float(*bits),
            Literal::Str(x) => LiteralView::Str(x@),
            Literal::Blob(x) => LiteralView::Blob(x@),
            Literal::Null => LiteralView::Null,
            Literal::True => LiteralView::True,
            Literal::False => LiteralView::False,
        }
    }
}

#[verifier::ext_equal]
pub enum ParamKindView {
    Anonymous,
    Numbered(u32),
    Colon(Seq<char>),
    At(Seq<char>),
    Dollar(Seq<char>),
}

impl ParamKind {
    pub open spec fn view(&self) -> ParamKindView
        decreases self,
    {
        match self {
            ParamKind::Anonymous => ParamKindView::Anonymous,
            ParamKind::Numbered(x) => ParamKindView::Numbered(*x),
            ParamKind::Colon(x) => ParamKindView::Colon(x@),
            ParamKind::At(x) => ParamKindView::At(x@),
            ParamKind::Dollar(x) => ParamKindView::Dollar(x@),
        }
    }
}

#[verifier::ext_equal]
pub struct InsertView {
    pub or_action: Option<ConflictAction>,
    pub table: Seq<char>,
    pub columns: Option<Seq<Seq<char>>>,
    pub source: InsertSourceView,
    pub span: Span,
}

impl Insert {
    pub open spec fn view(&self) -> InsertView
        decreases self,
    {
        InsertView {
            or_action: self.or_action,
            table: self.table@,
            columns: match self.columns { Some(v) => Some(text::texts(v@)), None => None },
            source: self.source.view(),
            span: self.span,
        }
    }
}

#[verifier::ext_equal]
pub enum InsertSourceView {
    Values(Seq<Seq<ExprView>>),
    Select(Box<SelectView>),
    DefaultValues,
}

impl InsertSource {
    pub open spec fn view(&self) -> InsertSourceView
        decreases self,
    {
        match self {
            InsertSource::Values(x) => InsertSourceView::Values(expr_rows(x@)),
            InsertSource::Select(x) => InsertSourceView::Select(Box::new(x.view())),
            InsertSource::DefaultValues => InsertSourceView::DefaultValues,
        }
    }
}

#[verifier::ext_equal]
pub struct DeleteView {
    pub table: Seq<char>,
    pub where_clause: Option<ExprView>,
    pub span: Span,
}

impl Delete {
    pub open spec fn view(&self) -> DeleteView
        decreases self,
    {
        DeleteView {
            table: self.table@,
            where_clause: match self.where_clause { Some(v) => Some(v.view()), None => None },
            span: self.span,
        }
    }
}

#[verifier::ext_equal]
pub struct CreateTableView {
    pub if_not_exists: bool,
    pub name: Seq<char>,
    pub columns: Seq<ColumnDefView>,
    pub constraints: Seq<TableConstraintView>,
    pub without_rowid: bool,
    pub strict: bool,
    pub span: Span,
}

impl CreateTable {
    pub open spec fn view(&self) -> CreateTableView
        decreases self,
    {
        CreateTableView {
            if_not_exists: self.if_not_exists,
            name: self.name@,
            columns: column_defs(self.columns@),
            constraints: table_constraints(self.constraints@),
            without_rowid: self.without_rowid,
            strict: self.strict,
            span: self.span,
        }
    }
}

#[verifier::ext_equal]
pub struct ColumnDefView {
    pub name: Seq<char>,
    pub declared_type: Option<Seq<char>>,
    pub constraints: Seq<ColumnConstraintView>,
}

impl ColumnDef {
    pub open spec fn view(&self) -> ColumnDefView
        decreases self,
    {
        ColumnDefView {
            name: self.name@,
            declared_type: match self.declared_type { Some(v) => Some(v@), None => None },
            constraints: column_constraints(self.constraints@),
        }
    }
}

#[verifier::ext_equal]
pub enum ColumnConstraintView {
    NotNull,
    PrimaryKey { desc: Option<bool>, autoincrement: bool },
    Unique,
    Default(DefaultValueView),
    Check(ExprView),
    Collate(Seq<char>),
}

impl ColumnConstraint {
    pub open spec fn view(&self) -> ColumnConstraintView
        decreases self,
    {
        match self {
            ColumnConstraint::NotNull => ColumnConstraintView::NotNull,
            ColumnConstraint::PrimaryKey { desc, autoincrement } =>
                ColumnConstraintView::PrimaryKey {
                desc: *desc,
                autoincrement: *autoincrement,
            },
            ColumnConstraint::Unique => ColumnConstraintView::Unique,
            ColumnConstraint::Default(x) => ColumnConstraintView::Default(x.view()),
            ColumnConstraint::Check(x) => ColumnConstraintView::Check(x.view()),
            ColumnConstraint::Collate(x) => ColumnConstraintView::Collate(x@),
        }
    }
}

#[verifier::ext_equal]
pub enum DefaultValueView {
    Literal(ExprView),
    Paren(ExprView),
}

impl DefaultValue {
    pub open spec fn view(&self) -> DefaultValueView
        decreases self,
    {
        match self {
            DefaultValue::Literal(x) => DefaultValueView::Literal(x.view()),
            DefaultValue::Paren(x) => DefaultValueView::Paren(x.view()),
        }
    }
}

#[verifier::ext_equal]
pub enum TableConstraintView {
    PrimaryKey(Seq<IndexedColumnView>),
    Unique(Seq<IndexedColumnView>),
    Check(ExprView),
}

impl TableConstraint {
    pub open spec fn view(&self) -> TableConstraintView
        decreases self,
    {
        match self {
            TableConstraint::PrimaryKey(x) => TableConstraintView::PrimaryKey(indexed_columns(x@)),
            TableConstraint::Unique(x) => TableConstraintView::Unique(indexed_columns(x@)),
            TableConstraint::Check(x) => TableConstraintView::Check(x.view()),
        }
    }
}

#[verifier::ext_equal]
pub struct IndexedColumnView {
    pub expr: ExprView,
    pub desc: Option<bool>,
}

impl IndexedColumn {
    pub open spec fn view(&self) -> IndexedColumnView
        decreases self,
    {
        IndexedColumnView {
            expr: self.expr.view(),
            desc: self.desc,
        }
    }
}

#[verifier::ext_equal]
pub struct CreateIndexView {
    pub unique: bool,
    pub if_not_exists: bool,
    pub name: Seq<char>,
    pub table: Seq<char>,
    pub columns: Seq<IndexedColumnView>,
    pub where_clause: Option<ExprView>,
    pub span: Span,
}

impl CreateIndex {
    pub open spec fn view(&self) -> CreateIndexView
        decreases self,
    {
        CreateIndexView {
            unique: self.unique,
            if_not_exists: self.if_not_exists,
            name: self.name@,
            table: self.table@,
            columns: indexed_columns(self.columns@),
            where_clause: match self.where_clause { Some(v) => Some(v.view()), None => None },
            span: self.span,
        }
    }
}

#[verifier::ext_equal]
pub struct CreateViewView {
    pub if_not_exists: bool,
    pub name: Seq<char>,
    pub columns: Option<Seq<Seq<char>>>,
    pub query: Box<SelectView>,
    pub span: Span,
}

impl CreateView {
    pub open spec fn view(&self) -> CreateViewView
        decreases self,
    {
        CreateViewView {
            if_not_exists: self.if_not_exists,
            name: self.name@,
            columns: match self.columns { Some(v) => Some(text::texts(v@)), None => None },
            query: Box::new(self.query.view()),
            span: self.span,
        }
    }
}

#[verifier::ext_equal]
pub struct DropTableView {
    pub if_exists: bool,
    pub name: Seq<char>,
    pub span: Span,
}

impl DropTable {
    pub open spec fn view(&self) -> DropTableView
        decreases self,
    {
        DropTableView {
            if_exists: self.if_exists,
            name: self.name@,
            span: self.span,
        }
    }
}

#[verifier::ext_equal]
pub struct DropIndexView {
    pub if_exists: bool,
    pub name: Seq<char>,
    pub span: Span,
}

impl DropIndex {
    pub open spec fn view(&self) -> DropIndexView
        decreases self,
    {
        DropIndexView {
            if_exists: self.if_exists,
            name: self.name@,
            span: self.span,
        }
    }
}

#[verifier::ext_equal]
pub struct DropViewView {
    pub if_exists: bool,
    pub name: Seq<char>,
    pub span: Span,
}

impl DropView {
    pub open spec fn view(&self) -> DropViewView
        decreases self,
    {
        DropViewView {
            if_exists: self.if_exists,
            name: self.name@,
            span: self.span,
        }
    }
}

/// The nodes of a list, each as what it stands for.
pub open spec fn assignments(v: Seq<Assignment>) -> Seq<AssignmentView>
    decreases v,
{
    Seq::new(
        v.len(),
        |i: int|
            if 0 <= i < v.len() {
                v[i].view()
            } else {
                arbitrary()
            },
    )
}

/// The nodes of a list, each as what it stands for.
pub open spec fn result_columns(v: Seq<ResultColumn>) -> Seq<ResultColumnView>
    decreases v,
{
    Seq::new(
        v.len(),
        |i: int|
            if 0 <= i < v.len() {
                v[i].view()
            } else {
                arbitrary()
            },
    )
}

pub broadcast proof fn result_columns_push(v: Seq<ResultColumn>, x: ResultColumn)
    ensures
        #[trigger] result_columns(v.push(x)) == result_columns(v).push(x.view()),
{
    assert(result_columns(v.push(x)) =~= result_columns(v).push(x.view()));
}

/// The nodes of a list, each as what it stands for.
pub open spec fn expr_list(v: Seq<Expr>) -> Seq<ExprView>
    decreases v,
{
    Seq::new(
        v.len(),
        |i: int|
            if 0 <= i < v.len() {
                v[i].view()
            } else {
                arbitrary()
            },
    )
}

pub broadcast proof fn expr_list_push(v: Seq<Expr>, x: Expr)
    ensures
        #[trigger] expr_list(v.push(x)) == expr_list(v).push(x.view()),
{
    assert(expr_list(v.push(x)) =~= expr_list(v).push(x.view()));
}

/// The nodes of a list, each as what it stands for.
pub open spec fn compounds(v: Seq<CompoundSelect>) -> Seq<CompoundSelectView>
    decreases v,
{
    Seq::new(
        v.len(),
        |i: int|
            if 0 <= i < v.len() {
                v[i].view()
            } else {
                arbitrary()
            },
    )
}

pub broadcast proof fn compounds_push(v: Seq<CompoundSelect>, x: CompoundSelect)
    ensures
        #[trigger] compounds(v.push(x)) == compounds(v).push(x.view()),
{
    assert(compounds(v.push(x)) =~= compounds(v).push(x.view()));
}

/// The nodes of a list, each as what it stands for.
pub open spec fn ordering_terms(v: Seq<OrderingTerm>) -> Seq<OrderingTermView>
    decreases v,
{
    Seq::new(
        v.len(),
        |i: int|
            if 0 <= i < v.len() {
                v[i].view()
            } else {
                arbitrary()
            },
    )
}

pub broadcast proof fn ordering_terms_push(v: Seq<OrderingTerm>, x: OrderingTerm)
    ensures
        #[trigger] ordering_terms(v.push(x)) == ordering_terms(v).push(x.view()),
{
    assert(ordering_terms(v.push(x)) =~= ordering_terms(v).push(x.view()));
}

/// The nodes of a list, each as what it stands for.
pub open spec fn joins(v: Seq<Join>) -> Seq<JoinView>
    decreases v,
{
    Seq::new(
        v.len(),
        |i: int|
            if 0 <= i < v.len() {
                v[i].view()
            } else {
                arbitrary()
            },
    )
}

pub broadcast proof fn joins_push(v: Seq<Join>, x: Join)
    ensures
        #[trigger] joins(v.push(x)) == joins(v).push(x.view()),
{
    assert(joins(v.push(x)) =~= joins(v).push(x.view()));
}

/// The nodes of a list, each as what it stands for.
pub open spec fn expr_pairs(v: Seq<(Expr, Expr)>) -> Seq<(ExprView, ExprView)>
    decreases v,
{
    Seq::new(
        v.len(),
        |i: int|
            if 0 <= i < v.len() {
                (v[i].0.view(), v[i].1.view())
            } else {
                arbitrary()
            },
    )
}

pub broadcast proof fn expr_pairs_push(v: Seq<(Expr, Expr)>, x: (Expr, Expr))
    ensures
        #[trigger] expr_pairs(v.push(x)) == expr_pairs(v).push((x.0.view(), x.1.view())),
{
    assert(expr_pairs(v.push(x)) =~= expr_pairs(v).push((x.0.view(), x.1.view())));
}

/// The nodes of a list, each as what it stands for.
pub open spec fn expr_rows(v: Seq<Vec<Expr>>) -> Seq<Seq<ExprView>>
    decreases v,
{
    Seq::new(
        v.len(),
        |i: int|
            if 0 <= i < v.len() {
                expr_list(v[i]@)
            } else {
                arbitrary()
            },
    )
}

pub broadcast proof fn expr_rows_push(v: Seq<Vec<Expr>>, x: Vec<Expr>)
    ensures
        #[trigger] expr_rows(v.push(x)) == expr_rows(v).push(expr_list(x@)),
{
    assert(expr_rows(v.push(x)) =~= expr_rows(v).push(expr_list(x@)));
}

/// The nodes of a list, each as what it stands for.
pub open spec fn column_defs(v: Seq<ColumnDef>) -> Seq<ColumnDefView>
    decreases v,
{
    Seq::new(
        v.len(),
        |i: int|
            if 0 <= i < v.len() {
                v[i].view()
            } else {
                arbitrary()
            },
    )
}

pub broadcast proof fn column_defs_push(v: Seq<ColumnDef>, x: ColumnDef)
    ensures
        #[trigger] column_defs(v.push(x)) == column_defs(v).push(x.view()),
{
    assert(column_defs(v.push(x)) =~= column_defs(v).push(x.view()));
}

/// The nodes of a list, each as what it stands for.
pub open spec fn table_constraints(v: Seq<TableConstraint>) -> Seq<TableConstraintView>
    decreases v,
{
    Seq::new(
        v.len(),
        |i: int|
            if 0 <= i < v.len() {
                v[i].view()
            } else {
                arbitrary()
            },
    )
}

pub broadcast proof fn table_constraints_push(v: Seq<TableConstraint>, x: TableConstraint)
    ensures
        #[trigger] table_constraints(v.push(x)) == table_constraints(v).push(x.view()),
{
    assert(table_constraints(v.push(x)) =~= table_constraints(v).push(x.view()));
}

/// The nodes of a list, each as what it stands for.
pub open spec fn column_constraints(v: Seq<ColumnConstraint>) -> Seq<ColumnConstraintView>
    decreases v,
{
    Seq::new(
        v.len(),
        |i: int|
            if 0 <= i < v.len() {
                v[i].view()
            } else {
                arbitrary()
            },
    )
}

pub broadcast proof fn column_constraints_push(v: Seq<ColumnConstraint>, x: ColumnConstraint)
    ensures
        #[trigger] column_constraints(v.push(x)) == column_constraints(v).push(x.view()),
{
    assert(column_constraints(v.push(x)) =~= column_constraints(v).push(x.view()));
}

/// The nodes of a list, each as what it stands for.
pub open spec fn indexed_columns(v: Seq<IndexedColumn>) -> Seq<IndexedColumnView>
    decreases v,
{
    Seq::new(
        v.len(),
        |i: int|
            if 0 <= i < v.len() {
                v[i].view()
            } else {
                arbitrary()
            },
    )
}

pub broadcast proof fn indexed_columns_push(v: Seq<IndexedColumn>, x: IndexedColumn)
    ensures
        #[trigger] indexed_columns(v.push(x)) == indexed_columns(v).push(x.view()),
{
    assert(indexed_columns(v.push(x)) =~= indexed_columns(v).push(x.view()));
}

impl TableRef {
    /// The catalog name to resolve this table against, or `None` for a subquery (which
    /// has no catalog entry).
    pub fn name(&self) -> (name: Option<&str>)
        ensures
            match self.kind {
                TableRefKind::Name(n) => name is Some && name->0@ == n@,
                TableRefKind::Subquery(_) => name is None,
            },
    {
        match &self.kind {
            TableRefKind::Name(name) => Some(name.as_str()),
            TableRefKind::Subquery(_) => None,
        }
    }
}

} // verus!
