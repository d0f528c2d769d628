//! The grammar as mathematics: what each rule makes of a token sequence.
//!
//! A rule takes the tokens `t`, a place `p` and, where it can nest, the depth `d` that
//! expressions are nested to already. It gives the tree it reads and the place behind
//! it, or the failure it reports. Operator precedence from loosest to tightest: `OR`,
//! `AND`, `NOT`, equality and its relatives, comparison, bitwise, additive,
//! multiplicative, `||`, `COLLATE`, unary.
use crate::double::TWO_POW_63;
use crate::parser::ast::{
    AssignmentView, Begin, BinaryOp, ColumnConstraintView, ColumnDefView, Commit, CompoundOp,
    CompoundSelectView, ConflictAction, CreateIndexView, CreateTableView, CreateViewView,
    DefaultValueView, DeleteView, Distinctness, DropIndexView, DropTableView, DropViewView,
    ExplainView, ExprKindView, ExprView, FromClauseView, FunctionArgsView, IndexedColumnView,
    InsertSourceView, InsertView, JoinConstraintView, JoinOp, JoinView, LimitView, LiteralView,
    OrderingTermView, ParamKindView, ResultColumnView, Rollback, SelectView, TableConstraintView,
    TableRefKindView, TableRefView, TransactionMode, UnaryOp, UpdateView,
};
use crate::parser::tokenizer::{Keyword, KindView, ParamView, Span, TokenView};
use crate::text;
use vstd::prelude::*;

verus! {

/// What a failure stands for.
#[verifier::ext_equal]
pub struct FailView {
    /// Recognized SQL that is not implemented, as opposed to malformed SQL.
    pub unsupported: bool,
    pub message: Seq<char>,
    pub span: Span,
}

/// A tree and the place behind it, or a failure.
pub type Parsed<T> = Result<(T, int), FailView>;

/// How deep expressions may nest.
pub const MAX_EXPR_DEPTH: usize = 200;

// ---- tokens -----------------------------------------------------------------

/// The token at `p`; the last one where the tokens do not reach that far.
pub open spec fn tok(t: Seq<TokenView>, p: int) -> TokenView {
    if 0 <= p < t.len() {
        t[p]
    } else {
        t.last()
    }
}

pub open spec fn kind(t: Seq<TokenView>, p: int) -> KindView {
    tok(t, p).kind
}

pub open spec fn span(t: Seq<TokenView>, p: int) -> Span {
    tok(t, p).span
}

/// How many tokens are left at `p`.
pub open spec fn left(t: Seq<TokenView>, p: int) -> nat {
    if 0 <= p < t.len() {
        (t.len() - p) as nat
    } else {
        0
    }
}

pub open spec fn at_kw(t: Seq<TokenView>, p: int, k: Keyword) -> bool {
    kind(t, p) == KindView::Keyword(k)
}

/// The place behind the keyword `k` where it stands at `p`; otherwise `p`.
pub open spec fn skip_kw(t: Seq<TokenView>, p: int, k: Keyword) -> int {
    if at_kw(t, p, k) {
        p + 1
    } else {
        p
    }
}

/// The span of the token in front of `p`.
pub open spec fn last_span(t: Seq<TokenView>, p: int) -> Span {
    span(t, if p > 0 { p - 1 } else { 0 })
}

/// From the start of `a` to the end of `b`.
pub open spec fn join_span(a: Span, b: Span) -> Span {
    let end = if b.offset + b.len <= u32::MAX {
        b.offset + b.len
    } else {
        u32::MAX as int
    };
    Span {
        line: a.line,
        column: a.column,
        offset: a.offset,
        len: if end >= a.offset {
            (end - a.offset) as u32
        } else {
            0
        },
    }
}

pub open spec fn invalid<T>(t: Seq<TokenView>, p: int, message: Seq<char>) -> Parsed<T> {
    Err(FailView { unsupported: false, message, span: span(t, p) })
}

pub open spec fn unsupported<T>(t: Seq<TokenView>, p: int, message: Seq<char>) -> Parsed<T> {
    Err(FailView { unsupported: true, message, span: span(t, p) })
}

/// The failure that names what was looked for and what stands at `p`.
pub open spec fn expected<T>(t: Seq<TokenView>, p: int, what: Seq<char>) -> Parsed<T> {
    invalid(t, p, "expected "@ + what + ", found "@ + kind(t, p).described())
}

pub open spec fn expect_kw(t: Seq<TokenView>, p: int, k: Keyword) -> Parsed<Span> {
    if at_kw(t, p, k) {
        Ok((span(t, p), p + 1))
    } else {
        expected(t, p, k.name())
    }
}

pub open spec fn expect_punct(t: Seq<TokenView>, p: int, k: KindView, what: Seq<char>) -> Parsed<
    Span,
> {
    if kind(t, p) == k {
        Ok((span(t, p), p + 1))
    } else {
        expected(t, p, what)
    }
}

pub open spec fn identifier(t: Seq<TokenView>, p: int) -> Parsed<(Seq<char>, Span)> {
    match kind(t, p) {
        KindView::Identifier(name) => Ok(((name, span(t, p)), p + 1)),
        _ => expected(t, p, "identifier"@),
    }
}

/// The place of the first token from `p` on that is no `;`.
pub open spec fn skip_semicolons(t: Seq<TokenView>, p: int) -> int
    decreases left(t, p),
{
    if 0 <= p < t.len() && t[p].kind == KindView::Semicolon {
        skip_semicolons(t, p + 1)
    } else {
        p
    }
}

pub open spec fn at_compound_op(t: Seq<TokenView>, p: int) -> bool {
    at_kw(t, p, Keyword::UNION) || at_kw(t, p, Keyword::INTERSECT) || at_kw(t, p, Keyword::EXCEPT)
}

/// After a statement only `;` and the end of input are allowed.
pub open spec fn end_of_statement(t: Seq<TokenView>, p: int) -> Parsed<()> {
    let q = skip_semicolons(t, p);
    if kind(t, q) == KindView::Eof {
        Ok(((), q))
    } else if at_compound_op(t, q) {
        unsupported(t, q, "compound SELECT (UNION/INTERSECT/EXCEPT) not yet supported"@)
    } else {
        invalid(t, q, "unexpected trailing token "@ + kind(t, q).described())
    }
}

/// `{ "," identifier }`, behind the names `names`.
pub open spec fn more_names(t: Seq<TokenView>, p: int, names: Seq<Seq<char>>) -> Parsed<
    Seq<Seq<char>>,
>
    decreases left(t, p),
{
    if 0 <= p < t.len() && t[p].kind == KindView::Comma {
        match identifier(t, p + 1) {
            Err(f) => Err(f),
            Ok(((name, _), q)) => more_names(t, q, names.push(name)),
        }
    } else {
        Ok((names, p))
    }
}

/// `identifier { "," identifier }`.
pub open spec fn name_list(t: Seq<TokenView>, p: int) -> Parsed<Seq<Seq<char>>> {
    match identifier(t, p) {
        Err(f) => Err(f),
        Ok(((name, _), q)) => more_names(t, q, seq![name]),
    }
}

/// `[ "ASC" | "DESC" ]`.
pub open spec fn direction(t: Seq<TokenView>, p: int) -> (Option<bool>, int) {
    if at_kw(t, p, Keyword::ASC) {
        (Some(false), p + 1)
    } else if at_kw(t, p, Keyword::DESC) {
        (Some(true), p + 1)
    } else {
        (None, p)
    }
}

/// `[ [ "AS" ] identifier ]` — a bare identifier only counts as an alias, never a keyword.
pub open spec fn opt_alias(t: Seq<TokenView>, p: int) -> Parsed<Option<Seq<char>>> {
    if at_kw(t, p, Keyword::AS) {
        match identifier(t, p + 1) {
            Err(f) => Err(f),
            Ok(((name, _), q)) => Ok((Some(name), q)),
        }
    } else {
        match kind(t, p) {
            KindView::Identifier(name) => Ok((Some(name), p + 1)),
            _ => Ok((None, p)),
        }
    }
}

// ---- expressions -------------------------------------------------------------

pub open spec fn deeper_allowed(d: nat) -> bool {
    d < MAX_EXPR_DEPTH
}

pub open spec fn bin(op: BinaryOp, lhs: ExprView, rhs: ExprView) -> ExprView {
    ExprView {
        kind: ExprKindView::Binary { op, lhs: Box::new(lhs), rhs: Box::new(rhs) },
        span: join_span(lhs.span, rhs.span),
    }
}

pub open spec fn expr(t: Seq<TokenView>, p: int, d: nat) -> Parsed<ExprView>
    decreases MAX_EXPR_DEPTH - d, 0int, 0nat,
{
    if deeper_allowed(d) {
        bool_expr(t, p, d + 1, false)
    } else {
        invalid(t, p, "expression nesting too deep"@)
    }
}

/// `OR` and `AND`, of which `AND` binds tighter; with `and_only`, `AND` alone.
pub open spec fn bool_expr(t: Seq<TokenView>, p: int, d: nat, and_only: bool) -> Parsed<ExprView>
    decreases MAX_EXPR_DEPTH - d, (if and_only { 42int } else { 44 }), 0nat,
{
    match not_expr(t, p, d) {
        Err(f) => Err(f),
        Ok((lhs, q)) => bool_rest(t, q, d, and_only, lhs),
    }
}

/// `{ ("AND" | "OR") operand }`, behind the operand `lhs`.
pub open spec fn bool_rest(
    t: Seq<TokenView>,
    p: int,
    d: nat,
    and_only: bool,
    lhs: ExprView,
) -> Parsed<ExprView>
    decreases MAX_EXPR_DEPTH - d, (if and_only { 41int } else { 43 }), left(t, p),
{
    if at_kw(t, p, Keyword::AND) {
        match not_expr(t, p + 1, d) {
            Err(f) => Err(f),
            Ok((rhs, q)) => if left(t, q) < left(t, p) {
                bool_rest(t, q, d, and_only, bin(BinaryOp::And, lhs, rhs))
            } else {
                arbitrary()
            },
        }
    } else if at_kw(t, p, Keyword::OR) && !and_only {
        match bool_expr(t, p + 1, d, true) {
            Err(f) => Err(f),
            Ok((rhs, q)) => if left(t, q) < left(t, p) {
                bool_rest(t, q, d, and_only, bin(BinaryOp::Or, lhs, rhs))
            } else {
                arbitrary()
            },
        }
    } else {
        Ok((lhs, p))
    }
}

pub open spec fn not_expr(t: Seq<TokenView>, p: int, d: nat) -> Parsed<ExprView>
    decreases MAX_EXPR_DEPTH - d, 1int, 0nat,
{
    if !deeper_allowed(d) {
        invalid(t, p, "expression nesting too deep"@)
    } else if at_kw(t, p, Keyword::NOT) {
        if at_kw(t, p + 1, Keyword::EXISTS) {
            exists_tail(t, p + 2, d + 1, span(t, p), true)
        } else {
            match not_expr(t, p + 1, d + 1) {
                Err(f) => Err(f),
                Ok((inner, q)) => Ok(
                    (
                        ExprView {
                            kind: ExprKindView::Unary { op: UnaryOp::Not, expr: Box::new(inner) },
                            span: join_span(span(t, p), inner.span),
                        },
                        q,
                    ),
                ),
            }
        }
    } else {
        equality_expr(t, p, d + 1)
    }
}

pub open spec fn equality_expr(t: Seq<TokenView>, p: int, d: nat) -> Parsed<ExprView>
    decreases MAX_EXPR_DEPTH - d, 38int, 0nat,
{
    match binary_expr(t, p, d, 1) {
        Err(f) => Err(f),
        Ok((lhs, q)) => equality_rest(t, q, d, lhs),
    }
}

/// Whether `NOT` at `p` belongs to an operator such as `NOT IN`, behind an operand.
pub open spec fn at_negated_op(t: Seq<TokenView>, p: int) -> bool {
    at_kw(t, p, Keyword::NOT) && (at_kw(t, p + 1, Keyword::BETWEEN) || at_kw(
        t,
        p + 1,
        Keyword::IN,
    ) || at_kw(t, p + 1, Keyword::LIKE) || at_kw(t, p + 1, Keyword::GLOB))
}

/// The operators of the equality level, each with its right-hand side, behind `lhs`.
pub open spec fn equality_rest(t: Seq<TokenView>, p: int, d: nat, lhs: ExprView) -> Parsed<
    ExprView,
>
    decreases MAX_EXPR_DEPTH - d, 37int, left(t, p),
{
    let step = equality_step(t, p, d, lhs);
    match step {
        None => Ok((lhs, p)),
        Some(Err(f)) => Err(f),
        Some(Ok((e, q))) => if left(t, q) < left(t, p) {
            equality_rest(t, q, d, e)
        } else {
            arbitrary()
        },
    }
}

pub open spec fn is_null(lhs: ExprView, negated: bool, end: Span) -> ExprView {
    ExprView {
        kind: ExprKindView::IsNull { expr: Box::new(lhs), negated },
        span: join_span(lhs.span, end),
    }
}

/// One operator of the equality level with its right-hand side; `None` where there is
/// none at `p`.
pub open spec fn equality_step(t: Seq<TokenView>, p: int, d: nat, lhs: ExprView) -> Option<
    Parsed<ExprView>,
>
    decreases MAX_EXPR_DEPTH - d, 36int, 1nat,
{
    if kind(t, p) == KindView::Eq || kind(t, p) == KindView::Ne {
        let op = if kind(t, p) == KindView::Eq {
            BinaryOp::Eq
        } else {
            BinaryOp::Ne
        };
        Some(
            match binary_expr(t, p + 1, d, 1) {
                Err(f) => Err(f),
                Ok((rhs, q)) => Ok((bin(op, lhs, rhs), q)),
            },
        )
    } else if at_kw(t, p, Keyword::IS) {
        Some(
            match binary_expr(t, skip_kw(t, p + 1, Keyword::NOT), d, 1) {
                Err(f) => Err(f),
                Ok((rhs, q)) => Ok(
                    (
                        ExprView {
                            kind: ExprKindView::Is {
                                lhs: Box::new(lhs),
                                rhs: Box::new(rhs),
                                negated: at_kw(t, p + 1, Keyword::NOT),
                            },
                            span: join_span(lhs.span, rhs.span),
                        },
                        q,
                    ),
                ),
            },
        )
    } else if at_kw(t, p, Keyword::ISNULL) {
        Some(Ok((is_null(lhs, false, span(t, p)), p + 1)))
    } else if at_kw(t, p, Keyword::NOTNULL) {
        Some(Ok((is_null(lhs, true, span(t, p)), p + 1)))
    } else if at_kw(t, p, Keyword::NOT) && kind(t, p + 1) == KindView::Null {
        Some(Ok((is_null(lhs, true, span(t, p + 1)), p + 2)))
    } else {
        let negated = at_negated_op(t, p);
        let o = if negated {
            p + 1
        } else {
            p
        };
        if at_kw(t, o, Keyword::BETWEEN) {
            Some(between_tail(t, o + 1, d, lhs, negated))
        } else if at_kw(t, o, Keyword::IN) {
            Some(in_tail(t, o + 1, d, lhs, negated))
        } else if at_kw(t, o, Keyword::LIKE) || at_kw(t, o, Keyword::GLOB) {
            Some(like_tail(t, o + 1, d, lhs, at_kw(t, o, Keyword::GLOB), negated))
        } else {
            None
        }
    }
}

/// `lo "AND" hi`, behind `lhs [ "NOT" ] "BETWEEN"`.
pub open spec fn between_tail(
    t: Seq<TokenView>,
    p: int,
    d: nat,
    lhs: ExprView,
    negated: bool,
) -> Parsed<ExprView>
    decreases MAX_EXPR_DEPTH - d, 36int, 0nat,
{
    match binary_expr(t, p, d, 1) {
        Err(f) => Err(f),
        Ok((lo, q)) => match expect_kw(t, q, Keyword::AND) {
            Err(f) => Err(f),
            Ok((_, r)) => match binary_expr(t, r, d, 1) {
                Err(f) => Err(f),
                Ok((hi, e)) => Ok(
                    (
                        ExprView {
                            kind: ExprKindView::Between {
                                expr: Box::new(lhs),
                                lo: Box::new(lo),
                                hi: Box::new(hi),
                                negated,
                            },
                            span: join_span(lhs.span, hi.span),
                        },
                        e,
                    ),
                ),
            },
        },
    }
}

/// `pattern [ "ESCAPE" expr ]`, behind `lhs [ "NOT" ] ("LIKE" | "GLOB")`.
pub open spec fn like_tail(
    t: Seq<TokenView>,
    p: int,
    d: nat,
    lhs: ExprView,
    glob: bool,
    negated: bool,
) -> Parsed<ExprView>
    decreases MAX_EXPR_DEPTH - d, 36int, 0nat,
{
    match binary_expr(t, p, d, 1) {
        Err(f) => Err(f),
        Ok((pattern, q)) => {
            let short = join_span(lhs.span, pattern.span);
            if at_kw(t, q, Keyword::ESCAPE) {
                match binary_expr(t, q + 1, d, 1) {
                    Err(f) => Err(f),
                    Ok((escape, r)) => Ok(
                        (
                            ExprView {
                                kind: ExprKindView::Like {
                                    expr: Box::new(lhs),
                                    pattern: Box::new(pattern),
                                    glob,
                                    negated,
                                    escape: Some(Box::new(escape)),
                                },
                                span: join_span(short, escape.span),
                            },
                            r,
                        ),
                    ),
                }
            } else {
                Ok(
                    (
                        ExprView {
                            kind: ExprKindView::Like {
                                expr: Box::new(lhs),
                                pattern: Box::new(pattern),
                                glob,
                                negated,
                                escape: None,
                            },
                            span: short,
                        },
                        q,
                    ),
                )
            }
        },
    }
}

/// `select-stmt ")"`, behind a `(`; gives the subquery and the span of the `)`.
pub open spec fn subquery(t: Seq<TokenView>, p: int, d: nat, what: Seq<char>) -> Parsed<
    (SelectView, Span),
>
    decreases MAX_EXPR_DEPTH - d, 15int, 0nat,
{
    match select(t, p, d) {
        Err(f) => Err(f),
        Ok((query, q)) => if at_compound_op(t, q) {
            unsupported(t, q, "compound SELECT (UNION/INTERSECT/EXCEPT) not yet supported"@)
        } else {
            match expect_punct(t, q, KindView::RParen, what) {
                Err(f) => Err(f),
                Ok((end, r)) => Ok(((query, end), r)),
            }
        },
    }
}

/// `"(" select-stmt ")"`, behind `[ "NOT" ] "EXISTS"`.
pub open spec fn exists_tail(t: Seq<TokenView>, p: int, d: nat, start: Span, negated: bool)
    -> Parsed<
    ExprView,
>
    decreases MAX_EXPR_DEPTH - d, 16int, 0nat,
{
    match expect_punct(t, p, KindView::LParen, "'(' after EXISTS"@) {
        Err(f) => Err(f),
        Ok((_, q)) => if !at_kw(t, q, Keyword::SELECT) {
            unsupported(t, q, "EXISTS ( ... ) requires a SELECT subquery"@)
        } else {
            match subquery(t, q, d, "')' to close EXISTS subquery"@) {
                Err(f) => Err(f),
                Ok(((query, end), r)) => Ok(
                    (
                        ExprView {
                            kind: ExprKindView::Exists { subquery: Box::new(query), negated },
                            span: join_span(start, end),
                        },
                        r,
                    ),
                ),
            }
        },
    }
}

/// The parenthesized list or subquery behind `lhs [ "NOT" ] "IN"`.
pub open spec fn in_tail(t: Seq<TokenView>, p: int, d: nat, lhs: ExprView, negated: bool) -> Parsed<
    ExprView,
>
    decreases MAX_EXPR_DEPTH - d, 36int, 0nat,
{
    if kind(t, p) != KindView::LParen {
        unsupported(t, p, "IN <table-name> not yet supported"@)
    } else if at_kw(t, p + 1, Keyword::SELECT) {
        match subquery(t, p + 1, d, "')' to close IN subquery"@) {
            Err(f) => Err(f),
            Ok(((query, end), r)) => Ok(
                (
                    ExprView {
                        kind: ExprKindView::InSubquery {
                            expr: Box::new(lhs),
                            subquery: Box::new(query),
                            negated,
                        },
                        span: join_span(lhs.span, end),
                    },
                    r,
                ),
            ),
        }
    } else {
        match opt_expr_list(t, p + 1, d) {
            Err(f) => Err(f),
            Ok((list, q)) => match expect_punct(t, q, KindView::RParen, "')' to close IN list"@) {
                Err(f) => Err(f),
                Ok((end, r)) => Ok(
                    (
                        ExprView {
                            kind: ExprKindView::In { expr: Box::new(lhs), list, negated },
                            span: join_span(lhs.span, end),
                        },
                        r,
                    ),
                ),
            },
        }
    }
}

/// The binary operator a token stands for, with its precedence.
pub open spec fn binary_op(k: KindView) -> Option<(BinaryOp, int)> {
    match k {
        KindView::Lt => Some((BinaryOp::Lt, 1)),
        KindView::Le => Some((BinaryOp::Le, 1)),
        KindView::Gt => Some((BinaryOp::Gt, 1)),
        KindView::Ge => Some((BinaryOp::Ge, 1)),
        KindView::BitAnd => Some((BinaryOp::BitAnd, 2)),
        KindView::BitOr => Some((BinaryOp::BitOr, 2)),
        KindView::Shl => Some((BinaryOp::Shl, 2)),
        KindView::Shr => Some((BinaryOp::Shr, 2)),
        KindView::Plus => Some((BinaryOp::Add, 3)),
        KindView::Minus => Some((BinaryOp::Sub, 3)),
        KindView::Star => Some((BinaryOp::Mul, 4)),
        KindView::Slash => Some((BinaryOp::Div, 4)),
        KindView::Percent => Some((BinaryOp::Mod, 4)),
        KindView::Concat => Some((BinaryOp::Concat, 5)),
        _ => None,
    }
}

/// Left-associative operators of precedence `min` and tighter.
pub open spec fn binary_expr(t: Seq<TokenView>, p: int, d: nat, min: int) -> Parsed<ExprView>
    decreases MAX_EXPR_DEPTH - d, (if min <= 6 { 36 - 2 * min } else { 24 }), 0nat,
    when 1 <= min <= 6
{
    match arrow_expr(t, p, d) {
        Err(f) => Err(f),
        Ok((lhs, q)) => binary_rest(t, q, d, min, lhs),
    }
}

/// `{ operator operand }`, behind the operand `lhs`.
pub open spec fn binary_rest(t: Seq<TokenView>, p: int, d: nat, min: int, lhs: ExprView) -> Parsed<
    ExprView,
>
    decreases MAX_EXPR_DEPTH - d, (if min <= 6 { 35 - 2 * min } else { 23 }), left(t, p),
    when 1 <= min <= 6
{
    match binary_op(kind(t, p)) {
        None => Ok((lhs, p)),
        Some((op, precedence)) => if precedence < min {
            Ok((lhs, p))
        } else {
            match binary_expr(t, p + 1, d, precedence + 1) {
                Err(f) => Err(f),
                Ok((rhs, q)) => if left(t, q) < left(t, p) {
                    binary_rest(t, q, d, min, bin(op, lhs, rhs))
                } else {
                    arbitrary()
                },
            }
        },
    }
}

/// `->` and `->>` are recognized so that they are reported as unsupported.
pub open spec fn arrow_expr(t: Seq<TokenView>, p: int, d: nat) -> Parsed<ExprView>
    decreases MAX_EXPR_DEPTH - d, 21int, 0nat,
{
    match collate_expr(t, p, d) {
        Err(f) => Err(f),
        Ok((lhs, q)) => if kind(t, q) == KindView::Arrow || kind(t, q) == KindView::ArrowArrow {
            unsupported(t, q, "-> / ->> operators not yet supported"@)
        } else {
            Ok((lhs, q))
        },
    }
}

pub open spec fn collate_expr(t: Seq<TokenView>, p: int, d: nat) -> Parsed<ExprView>
    decreases MAX_EXPR_DEPTH - d, 20int, 0nat,
{
    match unary_expr(t, p, d) {
        Err(f) => Err(f),
        Ok((lhs, q)) => collate_rest(t, q, lhs),
    }
}

/// `{ "COLLATE" identifier }`, behind the operand `lhs`.
pub open spec fn collate_rest(t: Seq<TokenView>, p: int, lhs: ExprView) -> Parsed<ExprView>
    decreases left(t, p),
{
    if 0 <= p < t.len() && at_kw(t, p, Keyword::COLLATE) {
        match identifier(t, p + 1) {
            Err(f) => Err(f),
            Ok(((name, end), q)) => collate_rest(
                t,
                q,
                ExprView {
                    kind: ExprKindView::Collate { expr: Box::new(lhs), collation: name },
                    span: join_span(lhs.span, end),
                },
            ),
        }
    } else {
        Ok((lhs, p))
    }
}

/// The prefix operator a token stands for.
pub open spec fn unary_op(k: KindView) -> Option<UnaryOp> {
    match k {
        KindView::Plus => Some(UnaryOp::Plus),
        KindView::Minus => Some(UnaryOp::Minus),
        KindView::BitNot => Some(UnaryOp::BitNot),
        _ => None,
    }
}

/// A prefix operator with its operand. The literal for two to the power of 63 has no
/// positive integer representation and is a floating-point literal; negated, it is
/// exactly the smallest integer.
pub open spec fn unary(op: UnaryOp, inner: ExprView, at: Span) -> ExprView {
    let folded = match inner.kind {
        ExprKindView::Literal(LiteralView::Float(bits)) => op == UnaryOp::Minus && bits
            == TWO_POW_63,
        _ => false,
    };
    ExprView {
        kind: if folded {
            ExprKindView::Literal(LiteralView::Integer(i64::MIN))
        } else {
            ExprKindView::Unary { op, expr: Box::new(inner) }
        },
        span: join_span(at, inner.span),
    }
}

pub open spec fn unary_expr(t: Seq<TokenView>, p: int, d: nat) -> Parsed<ExprView>
    decreases MAX_EXPR_DEPTH - d, 1int, 0nat,
{
    if !deeper_allowed(d) {
        invalid(t, p, "expression nesting too deep"@)
    } else {
        match unary_op(kind(t, p)) {
            Some(op) => match unary_expr(t, p + 1, d + 1) {
                Err(f) => Err(f),
                Ok((inner, q)) => Ok((unary(op, inner, span(t, p)), q)),
            },
            None => primary_expr(t, p, d + 1),
        }
    }
}

/// Whether a failure says that an expression is nested too deep.
pub open spec fn is_too_deep(f: FailView) -> bool {
    !f.unsupported && f.message == "expression nesting too deep"@
}

/// Whether the smallest integer is spelled as one token, in hexadecimal.
pub open spec fn spells_smallest(t: Seq<TokenView>) -> bool {
    exists|i: int| 0 <= i < t.len() && (#[trigger] t[i]).kind == KindView::Integer(i64::MIN)
}

/// The literal a token stands for.
pub open spec fn literal_of(k: KindView) -> Option<LiteralView> {
    match k {
        KindView::Integer(v) => Some(LiteralView::Integer(v)),
        KindView::Float(v) => Some(LiteralView::Float(v)),
        KindView::Str(v) => Some(LiteralView::Str(v)),
        KindView::Blob(v) => Some(LiteralView::Blob(v)),
        KindView::Null => Some(LiteralView::Null),
        KindView::True => Some(LiteralView::True),
        KindView::False => Some(LiteralView::False),
        _ => None,
    }
}

pub open spec fn param_of(p: ParamView) -> ParamKindView {
    match p {
        ParamView::Anonymous => ParamKindView::Anonymous,
        ParamView::Numbered(n) => ParamKindView::Numbered(n),
        ParamView::Colon(s) => ParamKindView::Colon(s),
        ParamView::At(s) => ParamKindView::At(s),
        ParamView::Dollar(s) => ParamKindView::Dollar(s),
    }
}

pub open spec fn at_current_time(t: Seq<TokenView>, p: int) -> bool {
    at_kw(t, p, Keyword::CURRENT_TIME) || at_kw(t, p, Keyword::CURRENT_DATE) || at_kw(
        t,
        p,
        Keyword::CURRENT_TIMESTAMP,
    )
}

pub open spec fn primary_expr(t: Seq<TokenView>, p: int, d: nat) -> Parsed<ExprView>
    decreases MAX_EXPR_DEPTH - d, 18int, 0nat,
{
    let at = span(t, p);
    match literal_of(kind(t, p)) {
        Some(literal) => Ok((ExprView { kind: ExprKindView::Literal(literal), span: at }, p + 1)),
        None => match kind(t, p) {
            KindView::Param(param) => Ok(
                (ExprView { kind: ExprKindView::Param(param_of(param)), span: at }, p + 1),
            ),
            KindView::Identifier(name) => if kind(t, p + 1) == KindView::LParen {
                function_call(t, p + 1, d, name, at)
            } else {
                column_ref(t, p)
            },
            KindView::LParen => if at_kw(t, p + 1, Keyword::SELECT) {
                match subquery(t, p + 1, d, "')' to close subquery"@) {
                    Err(f) => Err(f),
                    Ok(((query, end), r)) => Ok(
                        (
                            ExprView {
                                kind: ExprKindView::Subquery(Box::new(query)),
                                span: join_span(at, end),
                            },
                            r,
                        ),
                    ),
                }
            } else {
                match expr(t, p + 1, d) {
                    Err(f) => Err(f),
                    Ok((inner, q)) => match expect_punct(
                        t,
                        q,
                        KindView::RParen,
                        "')' to close expression"@,
                    ) {
                        Err(f) => Err(f),
                        Ok((end, r)) => Ok(
                            (
                                ExprView {
                                    kind: ExprKindView::Paren(Box::new(inner)),
                                    span: join_span(at, end),
                                },
                                r,
                            ),
                        ),
                    },
                }
            },
            KindView::Keyword(k) => if at_current_time(t, p) {
                unsupported(t, p, "CURRENT_TIME/CURRENT_DATE/CURRENT_TIMESTAMP not yet supported"@)
            } else if k == Keyword::CASE {
                case_expr(t, p, d)
            } else if k == Keyword::CAST {
                cast_expr(t, p, d)
            } else if k == Keyword::EXISTS {
                exists_tail(t, p + 1, d, at, false)
            } else if kind(t, p + 1) == KindView::LParen {
                function_call(t, p + 1, d, k.name(), at)
            } else {
                expected(t, p, "column or expression"@)
            },
            _ => expected(t, p, "column or expression"@),
        },
    }
}

/// `identifier [ "." identifier [ "." identifier ] ]`.
pub open spec fn column_ref(t: Seq<TokenView>, p: int) -> Parsed<ExprView> {
    match identifier(t, p) {
        Err(f) => Err(f),
        Ok(((first, at), q)) => if kind(t, q) != KindView::Dot {
            Ok(
                (
                    ExprView {
                        kind: ExprKindView::Column { table: None, catalog: None, name: first },
                        span: join_span(at, last_span(t, q)),
                    },
                    q,
                ),
            )
        } else {
            match identifier(t, q + 1) {
                Err(f) => Err(f),
                Ok(((second, _), r)) => if kind(t, r) != KindView::Dot {
                    Ok(
                        (
                            ExprView {
                                kind: ExprKindView::Column {
                                    table: Some(first),
                                    catalog: None,
                                    name: second,
                                },
                                span: join_span(at, last_span(t, r)),
                            },
                            r,
                        ),
                    )
                } else {
                    match identifier(t, r + 1) {
                        Err(f) => Err(f),
                        Ok(((third, _), e)) => Ok(
                            (
                                ExprView {
                                    kind: ExprKindView::Column {
                                        table: Some(second),
                                        catalog: Some(first),
                                        name: third,
                                    },
                                    span: join_span(at, last_span(t, e)),
                                },
                                e,
                            ),
                        ),
                    }
                },
            }
        },
    }
}

/// `( [ "DISTINCT" ] [ "*" | expr-list ] )`, behind the function's name.
pub open spec fn function_call(
    t: Seq<TokenView>,
    p: int,
    d: nat,
    name: Seq<char>,
    start: Span,
) -> Parsed<ExprView>
    decreases MAX_EXPR_DEPTH - d, 16int, 0nat,
{
    match expect_punct(t, p, KindView::LParen, "'(' after function name"@) {
        Err(f) => Err(f),
        Ok((_, q)) => match function_args(t, skip_kw(t, q, Keyword::DISTINCT), d) {
            Err(f) => Err(f),
            Ok((args, r)) => match expect_punct(
                t,
                r,
                KindView::RParen,
                "')' to close function call"@,
            ) {
                Err(f) => Err(f),
                Ok((end, e)) => if at_kw(t, e, Keyword::OVER) || at_kw(t, e, Keyword::FILTER) {
                    unsupported(t, e, "window functions (OVER/FILTER) not yet supported"@)
                } else {
                    Ok(
                        (
                            ExprView {
                                kind: ExprKindView::FunctionCall {
                                    name,
                                    distinct: at_kw(t, q, Keyword::DISTINCT),
                                    args,
                                },
                                span: join_span(
                                    start,
                                    Span {
                                        len: if end.len == 0 {
                                            1
                                        } else {
                                            end.len
                                        },
                                        ..end
                                    },
                                ),
                            },
                            e,
                        ),
                    )
                },
            },
        },
    }
}

pub open spec fn function_args(t: Seq<TokenView>, p: int, d: nat) -> Parsed<FunctionArgsView>
    decreases MAX_EXPR_DEPTH - d, 5int, 0nat,
{
    if kind(t, p) == KindView::Star {
        Ok((FunctionArgsView::Star, p + 1))
    } else {
        match opt_expr_list(t, p, d) {
            Err(f) => Err(f),
            Ok((list, q)) => Ok((FunctionArgsView::List(list), q)),
        }
    }
}

/// An expression list, empty in front of a `)`.
pub open spec fn opt_expr_list(t: Seq<TokenView>, p: int, d: nat) -> Parsed<Seq<ExprView>>
    decreases MAX_EXPR_DEPTH - d, 4int, 0nat,
{
    if kind(t, p) == KindView::RParen {
        Ok((seq![], p))
    } else {
        expr_list(t, p, d)
    }
}

pub open spec fn expr_list(t: Seq<TokenView>, p: int, d: nat) -> Parsed<Seq<ExprView>>
    decreases MAX_EXPR_DEPTH - d, 3int, 0nat,
{
    match expr(t, p, d) {
        Err(f) => Err(f),
        Ok((e, q)) => more_exprs(t, q, d, seq![e]),
    }
}

/// `{ "," expr }`, behind the expressions `list`.
pub open spec fn more_exprs(t: Seq<TokenView>, p: int, d: nat, list: Seq<ExprView>) -> Parsed<
    Seq<ExprView>,
>
    decreases MAX_EXPR_DEPTH - d, 2int, left(t, p),
{
    if kind(t, p) == KindView::Comma {
        match expr(t, p + 1, d) {
            Err(f) => Err(f),
            Ok((e, q)) => if left(t, q) < left(t, p) {
                more_exprs(t, q, d, list.push(e))
            } else {
                arbitrary()
            },
        }
    } else {
        Ok((list, p))
    }
}

/// `[ keyword expr ]`.
pub open spec fn opt_expr(t: Seq<TokenView>, p: int, d: nat, k: Keyword) -> Parsed<Option<ExprView>>
    decreases MAX_EXPR_DEPTH - d, 2int, 0nat,
{
    if at_kw(t, p, k) {
        match expr(t, p + 1, d) {
            Err(f) => Err(f),
            Ok((e, q)) => Ok((Some(e), q)),
        }
    } else {
        Ok((None, p))
    }
}

pub open spec fn boxed(e: Option<ExprView>) -> Option<Box<ExprView>> {
    match e {
        Some(x) => Some(Box::new(x)),
        None => None,
    }
}

pub open spec fn case_of(
    operand: Option<ExprView>,
    whens: Seq<(ExprView, ExprView)>,
    otherwise: Option<ExprView>,
    span: Span,
) -> ExprView {
    ExprView {
        kind: ExprKindView::Case { operand: boxed(operand), whens, else_: boxed(otherwise) },
        span,
    }
}

/// `CASE [ expr ] { "WHEN" expr "THEN" expr } [ "ELSE" expr ] "END"`.
pub open spec fn case_expr(t: Seq<TokenView>, p: int, d: nat) -> Parsed<ExprView>
    decreases MAX_EXPR_DEPTH - d, 16int, 0nat,
{
    match case_operand(t, p + 1, d) {
        Err(f) => Err(f),
        Ok((operand, q)) => match more_whens(t, q, d, seq![]) {
            Err(f) => Err(f),
            Ok((whens, r)) => if whens.len() == 0 {
                invalid(t, r, "expected WHEN in CASE expression"@)
            } else {
                match opt_expr(t, r, d, Keyword::ELSE) {
                    Err(f) => Err(f),
                    Ok((otherwise, s)) => match expect_kw(t, s, Keyword::END) {
                        Err(f) => Err(f),
                        Ok((end, e)) => Ok(
                            (case_of(operand, whens, otherwise, join_span(span(t, p), end)), e),
                        ),
                    },
                }
            },
        },
    }
}

pub open spec fn case_operand(t: Seq<TokenView>, p: int, d: nat) -> Parsed<Option<ExprView>>
    decreases MAX_EXPR_DEPTH - d, 2int, 0nat,
{
    if at_kw(t, p, Keyword::WHEN) {
        Ok((None, p))
    } else {
        match expr(t, p, d) {
            Err(f) => Err(f),
            Ok((e, q)) => Ok((Some(e), q)),
        }
    }
}

/// `{ "WHEN" expr "THEN" expr }`, behind the branches `whens`.
pub open spec fn more_whens(
    t: Seq<TokenView>,
    p: int,
    d: nat,
    whens: Seq<(ExprView, ExprView)>,
) -> Parsed<Seq<(ExprView, ExprView)>>
    decreases MAX_EXPR_DEPTH - d, 2int, left(t, p),
{
    if at_kw(t, p, Keyword::WHEN) {
        match expr(t, p + 1, d) {
            Err(f) => Err(f),
            Ok((condition, q)) => match expect_kw(t, q, Keyword::THEN) {
                Err(f) => Err(f),
                Ok((_, r)) => match expr(t, r, d) {
                    Err(f) => Err(f),
                    Ok((result, e)) => if left(t, e) < left(t, p) {
                        more_whens(t, e, d, whens.push((condition, result)))
                    } else {
                        arbitrary()
                    },
                },
            },
        }
    } else {
        Ok((whens, p))
    }
}

/// `CAST "(" expr "AS" type-name ")"`.
pub open spec fn cast_expr(t: Seq<TokenView>, p: int, d: nat) -> Parsed<ExprView>
    decreases MAX_EXPR_DEPTH - d, 16int, 0nat,
{
    match expect_punct(t, p + 1, KindView::LParen, "'(' after CAST"@) {
        Err(f) => Err(f),
        Ok((_, q)) => match expr(t, q, d) {
            Err(f) => Err(f),
            Ok((inner, r)) => match expect_kw(t, r, Keyword::AS) {
                Err(f) => Err(f),
                Ok((_, s)) => match declared_type(t, s) {
                    Err(f) => Err(f),
                    Ok((type_text, u)) => match expect_punct(
                        t,
                        u,
                        KindView::RParen,
                        "')' to close CAST"@,
                    ) {
                        Err(f) => Err(f),
                        Ok((end, e)) => Ok(
                            (
                                ExprView {
                                    kind: ExprKindView::Cast {
                                        expr: Box::new(inner),
                                        declared_type: type_text,
                                    },
                                    span: join_span(span(t, p), end),
                                },
                                e,
                            ),
                        ),
                    },
                },
            },
        },
    }
}

/// `identifier { identifier } [ "(" NUMBER [ "," NUMBER ] ")" ]`, with single spaces.
pub open spec fn declared_type(t: Seq<TokenView>, p: int) -> Parsed<Seq<char>> {
    match identifier(t, p) {
        Err(f) => Err(f),
        Ok(((first, _), q)) => {
            let (words, r) = more_words(t, q, first);
            if kind(t, r) != KindView::LParen {
                Ok((words, r))
            } else {
                match number_literal(t, r + 1) {
                    Err(f) => Err(f),
                    Ok((n1, u)) => if kind(t, u) == KindView::Comma {
                        match number_literal(t, u + 1) {
                            Err(f) => Err(f),
                            Ok((n2, w)) => close_type(
                                t,
                                w,
                                words + "("@ + n1 + ", "@ + n2,
                            ),
                        }
                    } else {
                        close_type(t, u, words + "("@ + n1)
                    },
                }
            }
        },
    }
}

pub open spec fn close_type(t: Seq<TokenView>, p: int, head: Seq<char>) -> Parsed<Seq<char>> {
    match expect_punct(t, p, KindView::RParen, "')' to close type size"@) {
        Err(f) => Err(f),
        Ok((_, q)) => Ok((head + ")"@, q)),
    }
}

/// `{ identifier }`, behind the words `words`.
pub open spec fn more_words(t: Seq<TokenView>, p: int, words: Seq<char>) -> (Seq<char>, int)
    decreases left(t, p),
{
    if 0 <= p < t.len() {
        match t[p].kind {
            KindView::Identifier(word) => more_words(t, p + 1, words + " "@ + word),
            _ => (words, p),
        }
    } else {
        (words, p)
    }
}

pub open spec fn number_literal(t: Seq<TokenView>, p: int) -> Parsed<Seq<char>> {
    match kind(t, p) {
        KindView::Integer(v) => Ok((text::signed_decimal(v as int), p + 1)),
        _ => expected(t, p, "number"@),
    }
}

// ---- SELECT ------------------------------------------------------------------

/// What a `SELECT` and each arm of a compound `SELECT` consist of.
#[verifier::ext_equal]
pub struct CoreView {
    pub distinct: Option<Distinctness>,
    pub columns: Seq<ResultColumnView>,
    pub from: Option<FromClauseView>,
    pub where_clause: Option<ExprView>,
    pub group_by: Seq<ExprView>,
    pub having: Option<ExprView>,
}

pub open spec fn distinctness(t: Seq<TokenView>, p: int) -> (Option<Distinctness>, int) {
    if at_kw(t, p, Keyword::DISTINCT) {
        (Some(Distinctness::Distinct), p + 1)
    } else if at_kw(t, p, Keyword::ALL) {
        (Some(Distinctness::All), p + 1)
    } else {
        (None, p)
    }
}

/// A result column: `*`, `table.*`, or an expression with an optional alias.
pub open spec fn result_column(t: Seq<TokenView>, p: int, d: nat) -> Parsed<ResultColumnView>
    decreases MAX_EXPR_DEPTH - d, 2int, 0nat,
{
    if kind(t, p) == KindView::Star {
        Ok((ResultColumnView::Star, p + 1))
    } else if kind(t, p) is Identifier && kind(t, p + 1) == KindView::Dot && kind(t, p + 2)
        == KindView::Star {
        Ok((ResultColumnView::TableStar { table: kind(t, p)->Identifier_0 }, p + 3))
    } else {
        match expr(t, p, d) {
            Err(f) => Err(f),
            Ok((e, q)) => match opt_alias(t, q) {
                Err(f) => Err(f),
                Ok((alias, r)) => Ok((ResultColumnView::Expr { expr: e, alias }, r)),
            },
        }
    }
}

/// `{ "," result-column }`, behind the columns `columns`.
pub open spec fn more_columns(
    t: Seq<TokenView>,
    p: int,
    d: nat,
    columns: Seq<ResultColumnView>,
) -> Parsed<Seq<ResultColumnView>>
    decreases MAX_EXPR_DEPTH - d, 3int, left(t, p),
{
    if kind(t, p) == KindView::Comma {
        match result_column(t, p + 1, d) {
            Err(f) => Err(f),
            Ok((c, q)) => if left(t, q) < left(t, p) {
                more_columns(t, q, d, columns.push(c))
            } else {
                arbitrary()
            },
        }
    } else {
        Ok((columns, p))
    }
}

/// A table name with an optional alias.
pub open spec fn table_ref(t: Seq<TokenView>, p: int) -> Parsed<TableRefView> {
    if kind(t, p) == KindView::LParen {
        unsupported(t, p, "table-valued functions / subqueries in FROM not yet supported"@)
    } else {
        match identifier(t, p) {
            Err(f) => Err(f),
            Ok(((name, start), q)) => if kind(t, q) == KindView::Dot {
                unsupported(t, q, "schema-qualified table names not yet supported"@)
            } else {
                match opt_alias(t, q) {
                    Err(f) => Err(f),
                    Ok((alias, r)) => if at_kw(t, r, Keyword::INDEXED) {
                        unsupported(t, r, "INDEXED BY not yet supported"@)
                    } else if at_kw(t, r, Keyword::NOT) && at_kw(t, r + 1, Keyword::INDEXED) {
                        unsupported(t, r, "NOT INDEXED not yet supported"@)
                    } else if kind(t, r) == KindView::LParen {
                        unsupported(
                            t,
                            r,
                            "table-valued functions / subqueries in FROM not yet supported"@,
                        )
                    } else {
                        Ok(
                            (
                                TableRefView {
                                    kind: TableRefKindView::Name(name),
                                    alias,
                                    span: if alias is Some {
                                        join_span(start, last_span(t, r))
                                    } else {
                                        start
                                    },
                                },
                                r,
                            ),
                        )
                    },
                }
            },
        }
    }
}

/// The join operator at `p` and the place behind it: a `JOIN`, `INNER JOIN`, or
/// `LEFT [OUTER] JOIN`; `None` where there is none.
pub open spec fn join_op(t: Seq<TokenView>, p: int) -> Parsed<Option<JoinOp>> {
    if at_kw(t, p, Keyword::LEFT) {
        match expect_kw(t, skip_kw(t, p + 1, Keyword::OUTER), Keyword::JOIN) {
            Err(f) => Err(f),
            Ok((_, q)) => Ok((Some(JoinOp::Left), q)),
        }
    } else if at_kw(t, p, Keyword::INNER) {
        match expect_kw(t, p + 1, Keyword::JOIN) {
            Err(f) => Err(f),
            Ok((_, q)) => Ok((Some(JoinOp::Inner), q)),
        }
    } else if at_kw(t, p, Keyword::JOIN) {
        Ok((Some(JoinOp::Inner), p + 1))
    } else {
        Ok((None, p))
    }
}

/// One join with its table and condition; `None` where no join stands at `p`.
pub open spec fn one_join(t: Seq<TokenView>, p: int, d: nat) -> Parsed<Option<JoinView>>
    decreases MAX_EXPR_DEPTH - d, 2int, 0nat,
{
    if kind(t, p) == KindView::Comma {
        unsupported(t, p, "comma-style JOIN (FROM a, b) not yet supported"@)
    } else if at_kw(t, p, Keyword::NATURAL) {
        unsupported(t, p, "NATURAL joins not yet supported"@)
    } else if at_kw(t, p, Keyword::RIGHT) {
        unsupported(t, p, "RIGHT joins not yet supported"@)
    } else if at_kw(t, p, Keyword::FULL) {
        unsupported(t, p, "FULL joins not yet supported"@)
    } else if at_kw(t, p, Keyword::OUTER) {
        unsupported(t, p, "OUTER without a preceding LEFT/RIGHT/FULL not yet supported"@)
    } else if at_kw(t, p, Keyword::CROSS) {
        match expect_kw(t, p + 1, Keyword::JOIN) {
            Err(f) => Err(f),
            Ok((_, q)) => match table_ref(t, q) {
                Err(f) => Err(f),
                Ok((table, r)) => if at_kw(t, r, Keyword::ON) {
                    unsupported(t, r, "CROSS JOIN with an ON clause not yet supported"@)
                } else if at_kw(t, r, Keyword::USING) {
                    unsupported(t, r, "USING clause not yet supported"@)
                } else {
                    Ok(
                        (
                            Some(
                                JoinView {
                                    op: JoinOp::Cross,
                                    table,
                                    constraint: None,
                                    natural: false,
                                },
                            ),
                            r,
                        ),
                    )
                },
            },
        }
    } else {
        match join_op(t, p) {
            Err(f) => Err(f),
            Ok((None, q)) => Ok((None, q)),
            Ok((Some(op), q)) => match table_ref(t, q) {
                Err(f) => Err(f),
                Ok((table, r)) => if at_kw(t, r, Keyword::USING) {
                    unsupported(t, r, "USING clause not yet supported"@)
                } else if !at_kw(t, r, Keyword::ON) {
                    unsupported(t, r, "JOIN without an ON/USING clause not yet supported"@)
                } else {
                    match expr(t, r + 1, d) {
                        Err(f) => Err(f),
                        Ok((on, e)) => Ok(
                            (
                                Some(
                                    JoinView {
                                        op,
                                        table,
                                        constraint: Some(JoinConstraintView::On(on)),
                                        natural: false,
                                    },
                                ),
                                e,
                            ),
                        ),
                    }
                },
            },
        }
    }
}

/// `{ join }`, behind the joins `joins`.
pub open spec fn more_joins(t: Seq<TokenView>, p: int, d: nat, joins: Seq<JoinView>) -> Parsed<
    Seq<JoinView>,
>
    decreases MAX_EXPR_DEPTH - d, 3int, left(t, p),
{
    match one_join(t, p, d) {
        Err(f) => Err(f),
        Ok((None, q)) => Ok((joins, q)),
        Ok((Some(join), q)) => if left(t, q) < left(t, p) {
            more_joins(t, q, d, joins.push(join))
        } else {
            arbitrary()
        },
    }
}

pub open spec fn from_clause(t: Seq<TokenView>, p: int, d: nat) -> Parsed<FromClauseView>
    decreases MAX_EXPR_DEPTH - d, 4int, 0nat,
{
    match table_ref(t, p) {
        Err(f) => Err(f),
        Ok((first, q)) => match more_joins(t, q, d, seq![]) {
            Err(f) => Err(f),
            Ok((joins, r)) => Ok((FromClauseView { first, joins }, r)),
        },
    }
}

/// `[ "FROM" from-clause ]`.
pub open spec fn opt_from(t: Seq<TokenView>, p: int, d: nat) -> Parsed<Option<FromClauseView>>
    decreases MAX_EXPR_DEPTH - d, 5int, 0nat,
{
    if at_kw(t, p, Keyword::FROM) {
        match from_clause(t, p + 1, d) {
            Err(f) => Err(f),
            Ok((from, q)) => Ok((Some(from), q)),
        }
    } else {
        Ok((None, p))
    }
}

/// `[ "GROUP" "BY" expr-list [ "HAVING" expr ] ]`.
pub open spec fn opt_group(t: Seq<TokenView>, p: int, d: nat) -> Parsed<
    (Seq<ExprView>, Option<ExprView>),
>
    decreases MAX_EXPR_DEPTH - d, 5int, 0nat,
{
    if at_kw(t, p, Keyword::GROUP) {
        match expect_kw(t, p + 1, Keyword::BY) {
            Err(f) => Err(f),
            Ok((_, q)) => match expr_list(t, q, d) {
                Err(f) => Err(f),
                Ok((group_by, r)) => match opt_expr(t, r, d, Keyword::HAVING) {
                    Err(f) => Err(f),
                    Ok((having, e)) => Ok(((group_by, having), e)),
                },
            },
        }
    } else if at_kw(t, p, Keyword::HAVING) {
        unsupported(t, p, "HAVING without GROUP BY not yet supported"@)
    } else {
        Ok(((seq![], None), p))
    }
}

/// What follows the word `SELECT`, up to and with `HAVING`.
pub open spec fn select_core(t: Seq<TokenView>, p: int, d: nat) -> Parsed<CoreView>
    decreases MAX_EXPR_DEPTH - d, 6int, 0nat,
{
    let (distinct, p1) = distinctness(t, p);
    match result_column(t, p1, d) {
        Err(f) => Err(f),
        Ok((first, p2)) => match more_columns(t, p2, d, seq![first]) {
            Err(f) => Err(f),
            Ok((columns, p3)) => match opt_from(t, p3, d) {
                Err(f) => Err(f),
                Ok((from, p4)) => if at_kw(t, p4, Keyword::WINDOW) {
                    unsupported(t, p4, "WINDOW clause not yet supported"@)
                } else {
                    match opt_expr(t, p4, d, Keyword::WHERE) {
                        Err(f) => Err(f),
                        Ok((where_clause, p5)) => match opt_group(t, p5, d) {
                            Err(f) => Err(f),
                            Ok(((group_by, having), p6)) => Ok(
                                (
                                    CoreView {
                                        distinct,
                                        columns,
                                        from,
                                        where_clause,
                                        group_by,
                                        having,
                                    },
                                    p6,
                                ),
                            ),
                        },
                    }
                },
            },
        },
    }
}

/// One arm behind `UNION ALL`; `start` is the span of `UNION`.
pub open spec fn compound_arm(t: Seq<TokenView>, p: int, d: nat, start: Span) -> Parsed<
    CompoundSelectView,
>
    decreases MAX_EXPR_DEPTH - d, 7int, 0nat,
{
    if at_kw(t, p, Keyword::VALUES) {
        unsupported(t, p, "UNION ALL VALUES (...) not yet supported"@)
    } else {
        match expect_kw(t, p, Keyword::SELECT) {
            Err(f) => Err(f),
            Ok((_, q)) => match select_core(t, q, d) {
                Err(f) => Err(f),
                Ok((core, r)) => Ok(
                    (
                        CompoundSelectView {
                            op: CompoundOp::UnionAll,
                            distinct: core.distinct,
                            columns: core.columns,
                            from: core.from,
                            where_clause: core.where_clause,
                            group_by: core.group_by,
                            having: core.having,
                            span: join_span(start, last_span(t, r)),
                        },
                        r,
                    ),
                ),
            },
        }
    }
}

/// `{ "UNION" "ALL" arm }`, behind the arms `arms`.
pub open spec fn more_arms(
    t: Seq<TokenView>,
    p: int,
    d: nat,
    arms: Seq<CompoundSelectView>,
) -> Parsed<Seq<CompoundSelectView>>
    decreases MAX_EXPR_DEPTH - d, 8int, left(t, p),
{
    if at_kw(t, p, Keyword::INTERSECT) || at_kw(t, p, Keyword::EXCEPT) {
        unsupported(t, p, "compound SELECT (INTERSECT/EXCEPT) not yet supported"@)
    } else if !at_kw(t, p, Keyword::UNION) {
        Ok((arms, p))
    } else if !at_kw(t, p + 1, Keyword::ALL) {
        unsupported(
            t,
            p + 1,
            "compound SELECT (plain UNION, with dedup) not yet supported; use UNION ALL"@,
        )
    } else {
        match compound_arm(t, p + 2, d, span(t, p)) {
            Err(f) => Err(f),
            Ok((arm, q)) => if left(t, q) < left(t, p) {
                more_arms(t, q, d, arms.push(arm))
            } else {
                arbitrary()
            },
        }
    }
}

/// `[ "NULLS" ("FIRST" | "LAST") ]`.
pub open spec fn opt_nulls(t: Seq<TokenView>, p: int) -> Parsed<Option<bool>> {
    if !at_kw(t, p, Keyword::NULLS) {
        Ok((None, p))
    } else if at_kw(t, p + 1, Keyword::FIRST) {
        Ok((Some(false), p + 2))
    } else if at_kw(t, p + 1, Keyword::LAST) {
        Ok((Some(true), p + 2))
    } else {
        invalid(t, p + 1, "expected FIRST or LAST after NULLS"@)
    }
}

pub open spec fn ordering_term(t: Seq<TokenView>, p: int, d: nat) -> Parsed<OrderingTermView>
    decreases MAX_EXPR_DEPTH - d, 2int, 0nat,
{
    match expr(t, p, d) {
        Err(f) => Err(f),
        Ok((e, q)) => {
            let (desc, r) = direction(t, q);
            match opt_nulls(t, r) {
                Err(f) => Err(f),
                Ok((nulls_last, s)) => Ok((OrderingTermView { expr: e, desc, nulls_last }, s)),
            }
        },
    }
}

/// `{ "," ordering-term }`, behind the terms `terms`.
pub open spec fn more_terms(t: Seq<TokenView>, p: int, d: nat, terms: Seq<OrderingTermView>)
    -> Parsed<
    Seq<OrderingTermView>,
>
    decreases MAX_EXPR_DEPTH - d, 3int, left(t, p),
{
    if kind(t, p) == KindView::Comma {
        match ordering_term(t, p + 1, d) {
            Err(f) => Err(f),
            Ok((term, q)) => if left(t, q) < left(t, p) {
                more_terms(t, q, d, terms.push(term))
            } else {
                arbitrary()
            },
        }
    } else {
        Ok((terms, p))
    }
}

/// `[ "ORDER" "BY" ordering-term { "," ordering-term } ]`.
pub open spec fn opt_order(t: Seq<TokenView>, p: int, d: nat) -> Parsed<Seq<OrderingTermView>>
    decreases MAX_EXPR_DEPTH - d, 4int, 0nat,
{
    if at_kw(t, p, Keyword::ORDER) {
        match expect_kw(t, p + 1, Keyword::BY) {
            Err(f) => Err(f),
            Ok((_, q)) => match ordering_term(t, q, d) {
                Err(f) => Err(f),
                Ok((term, r)) => more_terms(t, r, d, seq![term]),
            },
        }
    } else {
        Ok((seq![], p))
    }
}

/// `[ "LIMIT" expr [ ("OFFSET" | ",") expr ] ]`.
pub open spec fn opt_limit(t: Seq<TokenView>, p: int, d: nat) -> Parsed<Option<LimitView>>
    decreases MAX_EXPR_DEPTH - d, 4int, 0nat,
{
    if at_kw(t, p, Keyword::LIMIT) {
        match expr(t, p + 1, d) {
            Err(f) => Err(f),
            Ok((limit, q)) => if at_kw(t, q, Keyword::OFFSET) || kind(t, q) == KindView::Comma {
                match expr(t, q + 1, d) {
                    Err(f) => Err(f),
                    Ok((offset, r)) => Ok((Some(LimitView { limit, offset: Some(offset) }), r)),
                }
            } else {
                Ok((Some(LimitView { limit, offset: None }), q))
            },
        }
    } else {
        Ok((None, p))
    }
}

pub open spec fn select(t: Seq<TokenView>, p: int, d: nat) -> Parsed<SelectView>
    decreases MAX_EXPR_DEPTH - d, 14int, 0nat,
{
    if at_kw(t, p, Keyword::WITH) {
        unsupported(t, p, "WITH / CTEs not yet supported"@)
    } else if at_kw(t, p, Keyword::VALUES) {
        unsupported(t, p, "bare VALUES not yet supported"@)
    } else {
        match expect_kw(t, p, Keyword::SELECT) {
            Err(f) => Err(f),
            Ok((start, p1)) => match select_core(t, p1, d) {
                Err(f) => Err(f),
                Ok((core, p2)) => match more_arms(t, p2, d, seq![]) {
                    Err(f) => Err(f),
                    Ok((compound, p3)) => match opt_order(t, p3, d) {
                        Err(f) => Err(f),
                        Ok((order_by, p4)) => match opt_limit(t, p4, d) {
                            Err(f) => Err(f),
                            Ok((limit, p5)) => Ok(
                                (
                                    SelectView {
                                        distinct: core.distinct,
                                        columns: core.columns,
                                        from: core.from,
                                        where_clause: core.where_clause,
                                        group_by: core.group_by,
                                        having: core.having,
                                        compound,
                                        order_by,
                                        limit,
                                        span: join_span(start, last_span(t, p5)),
                                    },
                                    p5,
                                ),
                            ),
                        },
                    },
                },
            },
        }
    }
}

/// `EXPLAIN QUERY PLAN select-stmt`.
pub open spec fn explain(t: Seq<TokenView>, p: int, d: nat) -> Parsed<ExplainView> {
    match expect_kw(t, p, Keyword::EXPLAIN) {
        Err(f) => Err(f),
        Ok((_, q)) => if !at_kw(t, q, Keyword::QUERY) {
            unsupported(
                t,
                q,
                "bare EXPLAIN (opcode dump) not supported here — use the CLI's -explain flag"@,
            )
        } else {
            match expect_kw(t, q + 1, Keyword::PLAN) {
                Err(f) => Err(f),
                Ok((_, r)) => match select(t, r, d) {
                    Err(f) => Err(f),
                    Ok((query, e)) => Ok(
                        (ExplainView { query_plan: true, select: Box::new(query) }, e),
                    ),
                },
            }
        },
    }
}

// ---- INSERT, DELETE, UPDATE ----------------------------------------------------

pub open spec fn conflict_action(t: Seq<TokenView>, p: int) -> Parsed<ConflictAction> {
    if at_kw(t, p, Keyword::REPLACE) {
        Ok((ConflictAction::Replace, p + 1))
    } else if at_kw(t, p, Keyword::IGNORE) {
        Ok((ConflictAction::Ignore, p + 1))
    } else if at_kw(t, p, Keyword::ABORT) {
        Ok((ConflictAction::Abort, p + 1))
    } else if at_kw(t, p, Keyword::ROLLBACK) {
        Ok((ConflictAction::Rollback, p + 1))
    } else if at_kw(t, p, Keyword::FAIL) {
        Ok((ConflictAction::Fail, p + 1))
    } else {
        invalid(t, p, "expected REPLACE, IGNORE, ABORT, ROLLBACK, or FAIL after OR"@)
    }
}

/// `[ "OR" conflict-action ]`.
pub open spec fn opt_conflict_action(t: Seq<TokenView>, p: int) -> Parsed<Option<ConflictAction>> {
    if at_kw(t, p, Keyword::OR) {
        match conflict_action(t, p + 1) {
            Err(f) => Err(f),
            Ok((action, q)) => Ok((Some(action), q)),
        }
    } else {
        Ok((None, p))
    }
}

/// `name-list ")"`, behind a `(`.
pub open spec fn closed_names(t: Seq<TokenView>, p: int, what: Seq<char>) -> Parsed<
    Seq<Seq<char>>,
> {
    match name_list(t, p) {
        Err(f) => Err(f),
        Ok((names, q)) => match expect_punct(t, q, KindView::RParen, what) {
            Err(f) => Err(f),
            Ok((_, r)) => Ok((names, r)),
        },
    }
}

/// `[ "(" name-list ")" ]`.
pub open spec fn opt_names(t: Seq<TokenView>, p: int) -> Parsed<Option<Seq<Seq<char>>>> {
    if kind(t, p) == KindView::LParen {
        match closed_names(t, p + 1, "')'"@) {
            Err(f) => Err(f),
            Ok((names, q)) => Ok((Some(names), q)),
        }
    } else {
        Ok((None, p))
    }
}

/// `"(" expr-list ")"`.
pub open spec fn value_row(t: Seq<TokenView>, p: int, d: nat) -> Parsed<Seq<ExprView>> {
    match expect_punct(t, p, KindView::LParen, "'('"@) {
        Err(f) => Err(f),
        Ok((_, q)) => match expr_list(t, q, d) {
            Err(f) => Err(f),
            Ok((list, r)) => match expect_punct(t, r, KindView::RParen, "')'"@) {
                Err(f) => Err(f),
                Ok((_, e)) => Ok((list, e)),
            },
        },
    }
}

/// `{ "," value-row }`, behind the rows `rows`.
pub open spec fn more_rows(t: Seq<TokenView>, p: int, d: nat, rows: Seq<Seq<ExprView>>) -> Parsed<
    Seq<Seq<ExprView>>,
>
    decreases left(t, p),
{
    if kind(t, p) == KindView::Comma {
        match value_row(t, p + 1, d) {
            Err(f) => Err(f),
            Ok((row, q)) => if left(t, q) < left(t, p) {
                more_rows(t, q, d, rows.push(row))
            } else {
                arbitrary()
            },
        }
    } else {
        Ok((rows, p))
    }
}

/// What is inserted, and the span it ends with.
pub open spec fn insert_source(t: Seq<TokenView>, p: int, d: nat) -> Parsed<
    (InsertSourceView, Span),
> {
    if at_kw(t, p, Keyword::DEFAULT) {
        match expect_kw(t, p + 1, Keyword::VALUES) {
            Err(f) => Err(f),
            Ok((end, q)) => Ok(((InsertSourceView::DefaultValues, end), q)),
        }
    } else if at_kw(t, p, Keyword::VALUES) {
        match value_row(t, p + 1, d) {
            Err(f) => Err(f),
            Ok((first, q)) => match more_rows(t, q, d, seq![first]) {
                Err(f) => Err(f),
                Ok((rows, r)) => Ok(
                    ((InsertSourceView::Values(rows), rows.last().last().span), r),
                ),
            },
        }
    } else if at_kw(t, p, Keyword::SELECT) || at_kw(t, p, Keyword::WITH) {
        match select(t, p, d) {
            Err(f) => Err(f),
            Ok((query, q)) => Ok(((InsertSourceView::Select(Box::new(query)), query.span), q)),
        }
    } else {
        invalid(t, p, "expected VALUES, DEFAULT VALUES, or SELECT after INSERT INTO"@)
    }
}

/// `INSERT [ "OR" conflict-action ] "INTO" table-name [ "(" name-list ")" ] source`.
pub open spec fn insert(t: Seq<TokenView>, p: int, d: nat) -> Parsed<InsertView> {
    match expect_kw(t, p, Keyword::INSERT) {
        Err(f) => Err(f),
        Ok((start, p1)) => match opt_conflict_action(t, p1) {
            Err(f) => Err(f),
            Ok((or_action, p2)) => match expect_kw(t, p2, Keyword::INTO) {
                Err(f) => Err(f),
                Ok((_, p3)) => match identifier(t, p3) {
                    Err(f) => Err(f),
                    Ok(((table, _), p4)) => match opt_names(t, p4) {
                        Err(f) => Err(f),
                        Ok((columns, p5)) => match insert_source(t, p5, d) {
                            Err(f) => Err(f),
                            Ok(((source, end), p6)) => Ok(
                                (
                                    InsertView {
                                        or_action,
                                        table,
                                        columns,
                                        source,
                                        span: join_span(start, end),
                                    },
                                    p6,
                                ),
                            ),
                        },
                    },
                },
            },
        },
    }
}

/// `DELETE "FROM" table-name [ "WHERE" expr ]`.
pub open spec fn delete(t: Seq<TokenView>, p: int, d: nat) -> Parsed<DeleteView> {
    match expect_kw(t, p, Keyword::DELETE) {
        Err(f) => Err(f),
        Ok((start, p1)) => match expect_kw(t, p1, Keyword::FROM) {
            Err(f) => Err(f),
            Ok((_, p2)) => match identifier(t, p2) {
                Err(f) => Err(f),
                Ok(((table, table_span), p3)) => match opt_expr(t, p3, d, Keyword::WHERE) {
                    Err(f) => Err(f),
                    Ok((where_clause, p4)) => Ok(
                        (
                            DeleteView {
                                table,
                                where_clause,
                                span: join_span(
                                    start,
                                    match where_clause {
                                        Some(e) => e.span,
                                        None => table_span,
                                    },
                                ),
                            },
                            p4,
                        ),
                    ),
                },
            },
        },
    }
}

/// Each column with its value.
pub open spec fn paired(columns: Seq<Seq<char>>, values: Seq<ExprView>) -> Seq<AssignmentView> {
    Seq::new(
        columns.len(),
        |i: int| AssignmentView { columns: seq![columns[i]], value: values[i] },
    )
}

/// `column "=" expr`, or `"(" name-list ")" "=" "(" expr-list ")"` with as many values as
/// columns.
pub open spec fn assignment(t: Seq<TokenView>, p: int, d: nat) -> Parsed<Seq<AssignmentView>> {
    if kind(t, p) == KindView::LParen {
        match closed_names(t, p + 1, "')' to close column list"@) {
            Err(f) => Err(f),
            Ok((columns, q)) => match expect_punct(
                t,
                q,
                KindView::Eq,
                "'=' in tuple assignment"@,
            ) {
                Err(f) => Err(f),
                Ok((_, r)) => if kind(t, r) != KindView::LParen {
                    unsupported(t, r, "tuple assignment RHS must be a parenthesized expr-list"@)
                } else if at_kw(t, r + 1, Keyword::SELECT) {
                    unsupported(t, r + 1, "tuple assignment RHS subquery not yet supported"@)
                } else {
                    match expr_list(t, r + 1, d) {
                        Err(f) => Err(f),
                        Ok((values, u)) => match expect_punct(
                            t,
                            u,
                            KindView::RParen,
                            "')' to close tuple assignment"@,
                        ) {
                            Err(f) => Err(f),
                            Ok((_, e)) => if values.len() != columns.len() {
                                invalid(t, e, "tuple assignment column/value count mismatch"@)
                            } else {
                                Ok((paired(columns, values), e))
                            },
                        },
                    }
                },
            },
        }
    } else {
        match identifier(t, p) {
            Err(f) => Err(f),
            Ok(((name, _), q)) => match expect_punct(t, q, KindView::Eq, "'=' in assignment"@) {
                Err(f) => Err(f),
                Ok((_, r)) => match expr(t, r, d) {
                    Err(f) => Err(f),
                    Ok((value, e)) => Ok(
                        (seq![AssignmentView { columns: seq![name], value }], e),
                    ),
                },
            },
        }
    }
}

/// `{ "," assignment }`, behind the assignments `list`.
pub open spec fn more_assignments(
    t: Seq<TokenView>,
    p: int,
    d: nat,
    list: Seq<AssignmentView>,
) -> Parsed<Seq<AssignmentView>>
    decreases left(t, p),
{
    if kind(t, p) == KindView::Comma {
        match assignment(t, p + 1, d) {
            Err(f) => Err(f),
            Ok((more, q)) => if left(t, q) < left(t, p) {
                more_assignments(t, q, d, list + more)
            } else {
                arbitrary()
            },
        }
    } else {
        Ok((list, p))
    }
}

/// `UPDATE [ "OR" conflict-action ] table-name "SET" assignment { "," assignment }
/// [ "WHERE" expr ]`.
pub open spec fn update(t: Seq<TokenView>, p: int, d: nat) -> Parsed<UpdateView> {
    match expect_kw(t, p, Keyword::UPDATE) {
        Err(f) => Err(f),
        Ok((start, p1)) => match opt_conflict_action(t, p1) {
            Err(f) => Err(f),
            Ok((or_action, p2)) => match identifier(t, p2) {
                Err(f) => Err(f),
                Ok(((table, _), p3)) => match expect_kw(t, p3, Keyword::SET) {
                    Err(f) => Err(f),
                    Ok((_, p4)) => match assignment(t, p4, d) {
                        Err(f) => Err(f),
                        Ok((first, p5)) => match more_assignments(t, p5, d, first) {
                            Err(f) => Err(f),
                            Ok((assignments, p6)) => match opt_expr(t, p6, d, Keyword::WHERE) {
                                Err(f) => Err(f),
                                Ok((where_clause, p7)) => Ok(
                                    (
                                        UpdateView {
                                            or_action,
                                            table,
                                            assignments,
                                            where_clause,
                                            span: join_span(start, last_span(t, p7)),
                                        },
                                        p7,
                                    ),
                                ),
                            },
                        },
                    },
                },
            },
        },
    }
}

// ---- CREATE and DROP ------------------------------------------------------------

/// `[ "IF" "NOT" "EXISTS" ]`.
pub open spec fn opt_if_not_exists(t: Seq<TokenView>, p: int) -> Parsed<bool> {
    if at_kw(t, p, Keyword::IF) {
        match expect_kw(t, p + 1, Keyword::NOT) {
            Err(f) => Err(f),
            Ok((_, q)) => match expect_kw(t, q, Keyword::EXISTS) {
                Err(f) => Err(f),
                Ok((_, r)) => Ok((true, r)),
            },
        }
    } else {
        Ok((false, p))
    }
}

/// `[ "IF" "EXISTS" ]`.
pub open spec fn opt_if_exists(t: Seq<TokenView>, p: int) -> Parsed<bool> {
    if at_kw(t, p, Keyword::IF) {
        match expect_kw(t, p + 1, Keyword::EXISTS) {
            Err(f) => Err(f),
            Ok((_, q)) => Ok((true, q)),
        }
    } else {
        Ok((false, p))
    }
}

/// Whether the contextual keyword `word` stands at `p`: an identifier with that
/// spelling, in any case.
pub open spec fn at_word(t: Seq<TokenView>, p: int, word: Seq<char>) -> bool {
    match kind(t, p) {
        KindView::Identifier(id) => text::upper(id) == text::upper(word),
        _ => false,
    }
}

/// A name that no `.` follows.
pub open spec fn plain_name(t: Seq<TokenView>, p: int) -> Parsed<(Seq<char>, Span)> {
    match identifier(t, p) {
        Err(f) => Err(f),
        Ok((name, q)) => if kind(t, q) == KindView::Dot {
            unsupported(t, q, "schema-qualified names not yet supported"@)
        } else {
            Ok((name, q))
        },
    }
}

/// `ON CONFLICT` is recognized so that it is reported as unsupported.
pub open spec fn no_conflict_clause(t: Seq<TokenView>, p: int) -> Parsed<()> {
    if at_kw(t, p, Keyword::ON) && at_kw(t, p + 1, Keyword::CONFLICT) {
        unsupported(t, p, "ON CONFLICT resolution clause not yet supported"@)
    } else {
        Ok(((), p))
    }
}

/// A literal value, as the bare form of `DEFAULT` takes it.
pub open spec fn literal_value(t: Seq<TokenView>, p: int) -> Parsed<ExprView> {
    match literal_of(kind(t, p)) {
        Some(literal) => Ok(
            (ExprView { kind: ExprKindView::Literal(literal), span: span(t, p) }, p + 1),
        ),
        None => if at_current_time(t, p) {
            unsupported(t, p, "CURRENT_TIME/CURRENT_DATE/CURRENT_TIMESTAMP not yet supported"@)
        } else {
            invalid(t, p, "expected literal value after DEFAULT"@)
        },
    }
}

/// `"(" expr ")"`, `("+" | "-") literal-value`, or `literal-value`.
pub open spec fn default_value(t: Seq<TokenView>, p: int, d: nat) -> Parsed<DefaultValueView> {
    if kind(t, p) == KindView::LParen {
        match expr(t, p + 1, d) {
            Err(f) => Err(f),
            Ok((e, q)) => match expect_punct(
                t,
                q,
                KindView::RParen,
                "')' to close DEFAULT expression"@,
            ) {
                Err(f) => Err(f),
                Ok((_, r)) => Ok((DefaultValueView::Paren(e), r)),
            },
        }
    } else if kind(t, p) == KindView::Plus || kind(t, p) == KindView::Minus {
        match literal_value(t, p + 1) {
            Err(f) => Err(f),
            Ok((inner, q)) => Ok(
                (
                    DefaultValueView::Literal(
                        ExprView {
                            kind: ExprKindView::Unary {
                                op: if kind(t, p) == KindView::Minus {
                                    UnaryOp::Minus
                                } else {
                                    UnaryOp::Plus
                                },
                                expr: Box::new(inner),
                            },
                            span: join_span(span(t, p), inner.span),
                        },
                    ),
                    q,
                ),
            ),
        }
    } else {
        match literal_value(t, p) {
            Err(f) => Err(f),
            Ok((e, q)) => Ok((DefaultValueView::Literal(e), q)),
        }
    }
}

/// `"(" expr ")"`, behind `CHECK`.
pub open spec fn check_condition(t: Seq<TokenView>, p: int, d: nat) -> Parsed<ExprView> {
    match expect_punct(t, p, KindView::LParen, "'(' after CHECK"@) {
        Err(f) => Err(f),
        Ok((_, q)) => match expr(t, q, d) {
            Err(f) => Err(f),
            Ok((e, r)) => match expect_punct(t, r, KindView::RParen, "')' to close CHECK"@) {
                Err(f) => Err(f),
                Ok((_, s)) => Ok((e, s)),
            },
        },
    }
}

/// `[ "CONSTRAINT" identifier ]`: whether it is there.
pub open spec fn opt_constraint_name(t: Seq<TokenView>, p: int) -> Parsed<bool> {
    if at_kw(t, p, Keyword::CONSTRAINT) {
        match identifier(t, p + 1) {
            Err(f) => Err(f),
            Ok((_, q)) => Ok((true, q)),
        }
    } else {
        Ok((false, p))
    }
}

/// A column constraint behind its optional name; `None` where none stands at `p`.
pub open spec fn column_constraint_at(t: Seq<TokenView>, p: int, d: nat, named: bool) -> Parsed<
    Option<ColumnConstraintView>,
> {
    if at_kw(t, p, Keyword::NOT) {
        match expect_punct(t, p + 1, KindView::Null, "NULL"@) {
            Err(f) => Err(f),
            Ok((_, q)) => match no_conflict_clause(t, q) {
                Err(f) => Err(f),
                Ok((_, r)) => Ok((Some(ColumnConstraintView::NotNull), r)),
            },
        }
    } else if kind(t, p) == KindView::Null {
        unsupported(t, p, "bare NULL column constraint not yet supported"@)
    } else if at_kw(t, p, Keyword::PRIMARY) {
        match expect_kw(t, p + 1, Keyword::KEY) {
            Err(f) => Err(f),
            Ok((_, q)) => {
                let (desc, r) = direction(t, q);
                match no_conflict_clause(t, r) {
                    Err(f) => Err(f),
                    Ok((_, s)) => Ok(
                        (
                            Some(
                                ColumnConstraintView::PrimaryKey {
                                    desc,
                                    autoincrement: at_kw(t, s, Keyword::AUTOINCREMENT),
                                },
                            ),
                            skip_kw(t, s, Keyword::AUTOINCREMENT),
                        ),
                    ),
                }
            },
        }
    } else if at_kw(t, p, Keyword::UNIQUE) {
        match no_conflict_clause(t, p + 1) {
            Err(f) => Err(f),
            Ok((_, q)) => Ok((Some(ColumnConstraintView::Unique), q)),
        }
    } else if at_kw(t, p, Keyword::CHECK) {
        match check_condition(t, p + 1, d) {
            Err(f) => Err(f),
            Ok((e, q)) => Ok((Some(ColumnConstraintView::Check(e)), q)),
        }
    } else if at_kw(t, p, Keyword::DEFAULT) {
        match default_value(t, p + 1, d) {
            Err(f) => Err(f),
            Ok((v, q)) => Ok((Some(ColumnConstraintView::Default(v)), q)),
        }
    } else if at_kw(t, p, Keyword::COLLATE) {
        match identifier(t, p + 1) {
            Err(f) => Err(f),
            Ok(((name, _), q)) => Ok((Some(ColumnConstraintView::Collate(name)), q)),
        }
    } else if at_kw(t, p, Keyword::REFERENCES) {
        unsupported(t, p, "REFERENCES (foreign key) column constraint not yet supported"@)
    } else if at_kw(t, p, Keyword::GENERATED) || (at_kw(t, p, Keyword::AS) && kind(t, p + 1)
        == KindView::LParen) {
        unsupported(t, p, "GENERATED ALWAYS AS not yet supported"@)
    } else if named {
        invalid(t, p, "expected column constraint after CONSTRAINT name"@)
    } else {
        Ok((None, p))
    }
}

pub open spec fn opt_column_constraint(t: Seq<TokenView>, p: int, d: nat) -> Parsed<
    Option<ColumnConstraintView>,
> {
    match opt_constraint_name(t, p) {
        Err(f) => Err(f),
        Ok((named, q)) => column_constraint_at(t, q, d, named),
    }
}

/// `{ column-constraint }`, behind the constraints `list`.
pub open spec fn more_column_constraints(
    t: Seq<TokenView>,
    p: int,
    d: nat,
    list: Seq<ColumnConstraintView>,
) -> Parsed<Seq<ColumnConstraintView>>
    decreases left(t, p),
{
    match opt_column_constraint(t, p, d) {
        Err(f) => Err(f),
        Ok((None, q)) => Ok((list, q)),
        Ok((Some(c), q)) => if left(t, q) < left(t, p) {
            more_column_constraints(t, q, d, list.push(c))
        } else {
            arbitrary()
        },
    }
}

/// `[ type-name ]`.
pub open spec fn opt_declared_type(t: Seq<TokenView>, p: int) -> Parsed<Option<Seq<char>>> {
    if kind(t, p) is Identifier {
        match declared_type(t, p) {
            Err(f) => Err(f),
            Ok((words, q)) => Ok((Some(words), q)),
        }
    } else {
        Ok((None, p))
    }
}

/// `column-name [ type-name ] { column-constraint }`.
pub open spec fn column_def(t: Seq<TokenView>, p: int, d: nat) -> Parsed<ColumnDefView> {
    match identifier(t, p) {
        Err(f) => Err(f),
        Ok(((name, _), q)) => match opt_declared_type(t, q) {
            Err(f) => Err(f),
            Ok((type_text, r)) => match more_column_constraints(t, r, d, seq![]) {
                Err(f) => Err(f),
                Ok((constraints, s)) => Ok(
                    (ColumnDefView { name, declared_type: type_text, constraints }, s),
                ),
            },
        },
    }
}

/// `expr [ "ASC" | "DESC" ]`.
pub open spec fn indexed_column(t: Seq<TokenView>, p: int, d: nat) -> Parsed<IndexedColumnView> {
    match expr(t, p, d) {
        Err(f) => Err(f),
        Ok((e, q)) => {
            let (desc, r) = direction(t, q);
            Ok((IndexedColumnView { expr: e, desc }, r))
        },
    }
}

/// `{ "," indexed-column }`, behind the columns `list`.
pub open spec fn more_indexed_columns(
    t: Seq<TokenView>,
    p: int,
    d: nat,
    list: Seq<IndexedColumnView>,
) -> Parsed<Seq<IndexedColumnView>>
    decreases left(t, p),
{
    if kind(t, p) == KindView::Comma {
        match indexed_column(t, p + 1, d) {
            Err(f) => Err(f),
            Ok((c, q)) => if left(t, q) < left(t, p) {
                more_indexed_columns(t, q, d, list.push(c))
            } else {
                arbitrary()
            },
        }
    } else {
        Ok((list, p))
    }
}

/// `"(" indexed-column { "," indexed-column } ")"`.
pub open spec fn indexed_column_list(t: Seq<TokenView>, p: int, d: nat) -> Parsed<
    Seq<IndexedColumnView>,
> {
    match expect_punct(t, p, KindView::LParen, "'(' after PRIMARY KEY/UNIQUE"@) {
        Err(f) => Err(f),
        Ok((_, q)) => match indexed_column(t, q, d) {
            Err(f) => Err(f),
            Ok((c, r)) => match more_indexed_columns(t, r, d, seq![c]) {
                Err(f) => Err(f),
                Ok((list, s)) => match expect_punct(
                    t,
                    s,
                    KindView::RParen,
                    "')' to close column list"@,
                ) {
                    Err(f) => Err(f),
                    Ok((_, e)) => Ok((list, e)),
                },
            },
        },
    }
}

pub open spec fn at_table_constraint_start(t: Seq<TokenView>, p: int) -> bool {
    at_kw(t, p, Keyword::CONSTRAINT) || at_kw(t, p, Keyword::PRIMARY) || at_kw(
        t,
        p,
        Keyword::UNIQUE,
    ) || at_kw(t, p, Keyword::CHECK) || at_kw(t, p, Keyword::FOREIGN)
}

/// An indexed-column list that no `ON CONFLICT` follows.
pub open spec fn key_columns(t: Seq<TokenView>, p: int, d: nat) -> Parsed<Seq<IndexedColumnView>> {
    match indexed_column_list(t, p, d) {
        Err(f) => Err(f),
        Ok((list, q)) => match no_conflict_clause(t, q) {
            Err(f) => Err(f),
            Ok((_, r)) => Ok((list, r)),
        },
    }
}

pub open spec fn table_constraint(t: Seq<TokenView>, p: int, d: nat) -> Parsed<
    TableConstraintView,
> {
    match opt_constraint_name(t, p) {
        Err(f) => Err(f),
        Ok((_, q)) => if at_kw(t, q, Keyword::PRIMARY) {
            match expect_kw(t, q + 1, Keyword::KEY) {
                Err(f) => Err(f),
                Ok((_, r)) => match key_columns(t, r, d) {
                    Err(f) => Err(f),
                    Ok((list, s)) => Ok((TableConstraintView::PrimaryKey(list), s)),
                },
            }
        } else if at_kw(t, q, Keyword::UNIQUE) {
            match key_columns(t, q + 1, d) {
                Err(f) => Err(f),
                Ok((list, s)) => Ok((TableConstraintView::Unique(list), s)),
            }
        } else if at_kw(t, q, Keyword::CHECK) {
            match check_condition(t, q + 1, d) {
                Err(f) => Err(f),
                Ok((e, s)) => Ok((TableConstraintView::Check(e), s)),
            }
        } else if at_kw(t, q, Keyword::FOREIGN) {
            unsupported(t, q, "FOREIGN KEY table constraint not yet supported"@)
        } else {
            invalid(
                t,
                q,
                "expected PRIMARY KEY, UNIQUE, CHECK, or FOREIGN KEY table constraint"@,
            )
        },
    }
}

/// `{ "," table-constraint }`, behind the constraints `list`.
pub open spec fn more_table_constraints(
    t: Seq<TokenView>,
    p: int,
    d: nat,
    list: Seq<TableConstraintView>,
) -> Parsed<Seq<TableConstraintView>>
    decreases left(t, p),
{
    if kind(t, p) == KindView::Comma {
        match table_constraint(t, p + 1, d) {
            Err(f) => Err(f),
            Ok((c, q)) => if left(t, q) < left(t, p) {
                more_table_constraints(t, q, d, list.push(c))
            } else {
                arbitrary()
            },
        }
    } else {
        Ok((list, p))
    }
}

/// `{ "," column-def } { "," table-constraint }`, behind the columns `columns`.
pub open spec fn more_table_items(
    t: Seq<TokenView>,
    p: int,
    d: nat,
    columns: Seq<ColumnDefView>,
) -> Parsed<(Seq<ColumnDefView>, Seq<TableConstraintView>)>
    decreases left(t, p),
{
    if kind(t, p) != KindView::Comma {
        Ok(((columns, seq![]), p))
    } else if at_table_constraint_start(t, p + 1) {
        match more_table_constraints(t, p, d, seq![]) {
            Err(f) => Err(f),
            Ok((constraints, q)) => Ok(((columns, constraints), q)),
        }
    } else {
        match column_def(t, p + 1, d) {
            Err(f) => Err(f),
            Ok((c, q)) => if left(t, q) < left(t, p) {
                more_table_items(t, q, d, columns.push(c))
            } else {
                arbitrary()
            },
        }
    }
}

/// `[ "WITHOUT" "ROWID" | "STRICT" ]`: both flags, and the span the table ends with.
pub open spec fn table_options(t: Seq<TokenView>, p: int, end: Span) -> Parsed<
    (bool, bool, Span),
> {
    if at_kw(t, p, Keyword::WITHOUT) {
        if at_word(t, p + 1, "ROWID"@) {
            Ok(((true, false, span(t, p + 1)), p + 2))
        } else {
            invalid(t, p + 1, "expected ROWID after WITHOUT"@)
        }
    } else if at_word(t, p, "STRICT"@) {
        Ok(((false, true, span(t, p)), p + 1))
    } else {
        Ok(((false, false, end), p))
    }
}

/// `CREATE TABLE [ "IF" "NOT" "EXISTS" ] name "(" items ")" [ options ]`.
pub open spec fn create_table(t: Seq<TokenView>, p: int, d: nat) -> Parsed<CreateTableView> {
    match expect_kw(t, p, Keyword::CREATE) {
        Err(f) => Err(f),
        Ok((start, p1)) => if at_kw(t, p1, Keyword::TEMP) || at_kw(t, p1, Keyword::TEMPORARY) {
            unsupported(t, p1, "CREATE TEMP/TEMPORARY TABLE not yet supported"@)
        } else if at_kw(t, p1, Keyword::VIRTUAL) {
            unsupported(t, p1, "CREATE VIRTUAL TABLE not yet supported"@)
        } else {
            match expect_kw(t, p1, Keyword::TABLE) {
                Err(f) => Err(f),
                Ok((_, p2)) => match opt_if_not_exists(t, p2) {
                    Err(f) => Err(f),
                    Ok((if_not_exists, p3)) => match plain_name(t, p3) {
                        Err(f) => Err(f),
                        Ok(((name, _), p4)) => create_table_body(
                            t,
                            p4,
                            d,
                            start,
                            if_not_exists,
                            name,
                        ),
                    },
                },
            }
        },
    }
}

/// What follows the name in `CREATE TABLE`.
pub open spec fn create_table_body(
    t: Seq<TokenView>,
    p: int,
    d: nat,
    start: Span,
    if_not_exists: bool,
    name: Seq<char>,
) -> Parsed<CreateTableView> {
    if at_kw(t, p, Keyword::AS) {
        unsupported(t, p, "CREATE TABLE ... AS select-stmt not yet supported"@)
    } else {
        match expect_punct(t, p, KindView::LParen, "'(' after table name"@) {
            Err(f) => Err(f),
            Ok((_, p1)) => match column_def(t, p1, d) {
                Err(f) => Err(f),
                Ok((first, p2)) => match more_table_items(t, p2, d, seq![first]) {
                    Err(f) => Err(f),
                    Ok(((columns, constraints), p3)) => match expect_punct(
                        t,
                        p3,
                        KindView::RParen,
                        "')' to close column list"@,
                    ) {
                        Err(f) => Err(f),
                        Ok((close, p4)) => match table_options(t, p4, close) {
                            Err(f) => Err(f),
                            Ok(((without_rowid, strict, end), p5)) => Ok(
                                (
                                    CreateTableView {
                                        if_not_exists,
                                        name,
                                        columns,
                                        constraints,
                                        without_rowid,
                                        strict,
                                        span: join_span(start, end),
                                    },
                                    p5,
                                ),
                            ),
                        },
                    },
                },
            },
        }
    }
}

/// `CREATE [ "UNIQUE" ] "INDEX" [ "IF" "NOT" "EXISTS" ] name "ON" table columns
/// [ "WHERE" expr ]`.
pub open spec fn create_index(t: Seq<TokenView>, p: int, d: nat) -> Parsed<CreateIndexView> {
    match expect_kw(t, p, Keyword::CREATE) {
        Err(f) => Err(f),
        Ok((start, p1)) => match expect_kw(t, skip_kw(t, p1, Keyword::UNIQUE), Keyword::INDEX) {
            Err(f) => Err(f),
            Ok((_, p2)) => match opt_if_not_exists(t, p2) {
                Err(f) => Err(f),
                Ok((if_not_exists, p3)) => match plain_name(t, p3) {
                    Err(f) => Err(f),
                    Ok(((name, _), p4)) => match expect_kw(t, p4, Keyword::ON) {
                        Err(f) => Err(f),
                        Ok((_, p5)) => match plain_name(t, p5) {
                            Err(f) => Err(f),
                            Ok(((table, _), p6)) => match indexed_column_list(t, p6, d) {
                                Err(f) => Err(f),
                                Ok((columns, p7)) => match opt_expr(t, p7, d, Keyword::WHERE) {
                                    Err(f) => Err(f),
                                    Ok((where_clause, p8)) => Ok(
                                        (
                                            CreateIndexView {
                                                unique: at_kw(t, p1, Keyword::UNIQUE),
                                                if_not_exists,
                                                name,
                                                table,
                                                columns,
                                                where_clause,
                                                span: join_span(
                                                    start,
                                                    match where_clause {
                                                        Some(e) => e.span,
                                                        None => last_span(t, p7),
                                                    },
                                                ),
                                            },
                                            p8,
                                        ),
                                    ),
                                },
                            },
                        },
                    },
                },
            },
        },
    }
}

/// `CREATE VIEW [ "IF" "NOT" "EXISTS" ] name [ "(" name-list ")" ] "AS" select-stmt`.
pub open spec fn create_view(t: Seq<TokenView>, p: int, d: nat) -> Parsed<CreateViewView> {
    match expect_kw(t, p, Keyword::CREATE) {
        Err(f) => Err(f),
        Ok((start, p1)) => if at_kw(t, p1, Keyword::TEMP) || at_kw(t, p1, Keyword::TEMPORARY) {
            unsupported(t, p1, "CREATE TEMP/TEMPORARY VIEW not yet supported"@)
        } else {
            match expect_kw(t, p1, Keyword::VIEW) {
                Err(f) => Err(f),
                Ok((_, p2)) => match opt_if_not_exists(t, p2) {
                    Err(f) => Err(f),
                    Ok((if_not_exists, p3)) => match plain_name(t, p3) {
                        Err(f) => Err(f),
                        Ok(((name, _), p4)) => match opt_names(t, p4) {
                            Err(f) => Err(f),
                            Ok((columns, p5)) => match expect_kw(t, p5, Keyword::AS) {
                                Err(f) => Err(f),
                                Ok((_, p6)) => match select(t, p6, d) {
                                    Err(f) => Err(f),
                                    Ok((query, p7)) => Ok(
                                        (
                                            CreateViewView {
                                                if_not_exists,
                                                name,
                                                columns,
                                                query: Box::new(query),
                                                span: join_span(start, query.span),
                                            },
                                            p7,
                                        ),
                                    ),
                                },
                            },
                        },
                    },
                },
            }
        },
    }
}

/// `DROP keyword [ "IF" "EXISTS" ] name`: the flag, the name and the statement's span.
pub open spec fn drop_object(t: Seq<TokenView>, p: int, what: Keyword) -> Parsed<
    (bool, Seq<char>, Span),
> {
    match expect_kw(t, p, Keyword::DROP) {
        Err(f) => Err(f),
        Ok((start, p1)) => match expect_kw(t, p1, what) {
            Err(f) => Err(f),
            Ok((_, p2)) => match opt_if_exists(t, p2) {
                Err(f) => Err(f),
                Ok((if_exists, p3)) => match plain_name(t, p3) {
                    Err(f) => Err(f),
                    Ok(((name, end), p4)) => Ok(((if_exists, name, join_span(start, end)), p4)),
                },
            },
        },
    }
}

pub open spec fn drop_table(t: Seq<TokenView>, p: int) -> Parsed<DropTableView> {
    match drop_object(t, p, Keyword::TABLE) {
        Err(f) => Err(f),
        Ok(((if_exists, name, span), q)) => Ok((DropTableView { if_exists, name, span }, q)),
    }
}

pub open spec fn drop_index(t: Seq<TokenView>, p: int) -> Parsed<DropIndexView> {
    match drop_object(t, p, Keyword::INDEX) {
        Err(f) => Err(f),
        Ok(((if_exists, name, span), q)) => Ok((DropIndexView { if_exists, name, span }, q)),
    }
}

pub open spec fn drop_view(t: Seq<TokenView>, p: int) -> Parsed<DropViewView> {
    match drop_object(t, p, Keyword::VIEW) {
        Err(f) => Err(f),
        Ok(((if_exists, name, span), q)) => Ok((DropViewView { if_exists, name, span }, q)),
    }
}

// ---- transactions ----------------------------------------------------------------

pub open spec fn transaction_mode(t: Seq<TokenView>, p: int) -> (Option<TransactionMode>, int) {
    if at_kw(t, p, Keyword::DEFERRED) {
        (Some(TransactionMode::Deferred), p + 1)
    } else if at_kw(t, p, Keyword::IMMEDIATE) {
        (Some(TransactionMode::Immediate), p + 1)
    } else if at_kw(t, p, Keyword::EXCLUSIVE) {
        (Some(TransactionMode::Exclusive), p + 1)
    } else {
        (None, p)
    }
}

/// `BEGIN [ "DEFERRED" | "IMMEDIATE" | "EXCLUSIVE" ] [ "TRANSACTION" ]`.
pub open spec fn begin(t: Seq<TokenView>, p: int) -> Parsed<Begin> {
    match expect_kw(t, p, Keyword::BEGIN) {
        Err(f) => Err(f),
        Ok((start, q)) => {
            let (mode, r) = transaction_mode(t, q);
            let e = skip_kw(t, r, Keyword::TRANSACTION);
            Ok((Begin { mode, span: join_span(start, last_span(t, e)) }, e))
        },
    }
}

/// `( "COMMIT" | "END" ) [ "TRANSACTION" ]`.
pub open spec fn commit(t: Seq<TokenView>, p: int) -> Parsed<Commit> {
    match expect_kw(
        t,
        p,
        if at_kw(t, p, Keyword::END) {
            Keyword::END
        } else {
            Keyword::COMMIT
        },
    ) {
        Err(f) => Err(f),
        Ok((start, q)) => {
            let e = skip_kw(t, q, Keyword::TRANSACTION);
            Ok((Commit { span: join_span(start, last_span(t, e)) }, e))
        },
    }
}

/// `ROLLBACK [ "TRANSACTION" ]`; `ROLLBACK TO` is recognized so that it is reported as
/// unsupported.
pub open spec fn rollback(t: Seq<TokenView>, p: int) -> Parsed<Rollback> {
    match expect_kw(t, p, Keyword::ROLLBACK) {
        Err(f) => Err(f),
        Ok((start, q)) => {
            let e = skip_kw(t, q, Keyword::TRANSACTION);
            if at_kw(t, e, Keyword::TO) {
                unsupported(t, e, "ROLLBACK TO savepoint not yet supported"@)
            } else {
                Ok((Rollback { span: join_span(start, last_span(t, e)) }, e))
            }
        },
    }
}

/// A statement with nothing but `;` behind it.
pub open spec fn whole<T>(t: Seq<TokenView>, r: Parsed<T>) -> Result<T, FailView> {
    match r {
        Err(f) => Err(f),
        Ok((x, p)) => match end_of_statement(t, p) {
            Err(f) => Err(f),
            Ok(_) => Ok(x),
        },
    }
}

} // verus!
