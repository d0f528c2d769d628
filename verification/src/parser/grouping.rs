//! How operators group: which of them takes an operand that stands between two.
use crate::parser::ast::{BinaryOp, ExprKindView, ExprView, LiteralView, ParamKindView, UnaryOp};
use crate::parser::round_trip::hidden;
use crate::parser::round_trip::matching;
use crate::parser::round_trip::origin;
use crate::parser::round_trip::replay_binary;
use crate::parser::round_trip::replay_equality;
use crate::parser::round_trip::replay_expr;
use crate::parser::rules;
use crate::parser::rules::{Parsed, MAX_EXPR_DEPTH};
use crate::parser::tokenizer;
use crate::parser::tokenizer::{Keyword, KindView, ParamView, TokenView};
use vstd::prelude::*;

verus! {

/// How tight a binary operator binds: `OR`, `AND`, equality, comparison, bitwise, additive,
/// multiplicative, concatenation.
pub open spec fn tightness_of(op: BinaryOp) -> int {
    match op {
        BinaryOp::Or => 0,
        BinaryOp::And => 1,
        BinaryOp::Eq | BinaryOp::Ne => 3,
        BinaryOp::Lt | BinaryOp::Le | BinaryOp::Gt | BinaryOp::Ge => 4,
        BinaryOp::BitAnd | BinaryOp::BitOr | BinaryOp::Shl | BinaryOp::Shr => 5,
        BinaryOp::Add | BinaryOp::Sub => 6,
        BinaryOp::Mul | BinaryOp::Div | BinaryOp::Mod => 7,
        BinaryOp::Concat => 8,
    }
}

/// How tight the operator at the root of a tree binds. `NOT` stands between `AND` and
/// equality; `IS`, `BETWEEN`, `IN`, `LIKE` and their like are of equality; `COLLATE` and the
/// signs bind tighter than every binary operator; what is no operator cannot be divided.
pub open spec fn tightness(e: ExprView) -> int {
    match e.kind {
        ExprKindView::Binary { op, .. } => tightness_of(op),
        ExprKindView::Unary { op, .. } => if op == UnaryOp::Not {
            2
        } else {
            10
        },
        ExprKindView::Is { .. } | ExprKindView::IsNull { .. } | ExprKindView::Between { .. }
        | ExprKindView::In { .. } | ExprKindView::Like { .. }
        | ExprKindView::InSubquery { .. } => 3,
        ExprKindView::Collate { .. } => 9,
        _ => 11,
    }
}

/// Whether no operator of a tree holds one that binds less tight, outside parentheses: the
/// left operand of a binary operator binds at least as tight as it, so that operators of one
/// tightness go from left to right, and the right one tighter.
pub open spec fn is_grouped(e: ExprView) -> bool
    decreases e,
{
    match e.kind {
        ExprKindView::Binary { op, lhs, rhs } => {
            &&& tightness(*lhs) >= tightness_of(op)
            &&& tightness(*rhs) > tightness_of(op)
            &&& is_grouped(*lhs)
            &&& is_grouped(*rhs)
        },
        ExprKindView::Unary { op, expr } => {
            &&& tightness(*expr) >= (if op == UnaryOp::Not {
                2int
            } else {
                10
            })
            &&& is_grouped(*expr)
        },
        ExprKindView::Is { lhs, rhs, .. } => {
            &&& tightness(*lhs) >= 3
            &&& tightness(*rhs) > 3
            &&& is_grouped(*lhs)
            &&& is_grouped(*rhs)
        },
        ExprKindView::IsNull { expr, .. } => tightness(*expr) >= 3 && is_grouped(*expr),
        ExprKindView::Between { expr, lo, hi, .. } => {
            &&& tightness(*expr) >= 3
            &&& tightness(*lo) > 3
            &&& tightness(*hi) > 3
            &&& is_grouped(*expr)
            &&& is_grouped(*lo)
            &&& is_grouped(*hi)
        },
        ExprKindView::In { expr, .. } => tightness(*expr) >= 3 && is_grouped(*expr),
        ExprKindView::InSubquery { expr, .. } => tightness(*expr) >= 3 && is_grouped(*expr),
        ExprKindView::Like { expr, pattern, escape, .. } => {
            &&& tightness(*expr) >= 3
            &&& tightness(*pattern) > 3
            &&& is_grouped(*expr)
            &&& is_grouped(*pattern)
            &&& match escape {
                Some(e) => tightness(*e) > 3 && is_grouped(*e),
                None => true,
            }
        },
        ExprKindView::Collate { expr, .. } => tightness(*expr) >= 9 && is_grouped(*expr),
        _ => true,
    }
}

proof fn lemma_primary_is_whole(t: Seq<TokenView>, p: int, d: nat)
    requires
        rules::primary_expr(t, p, d) is Ok,
    ensures
        tightness(rules::primary_expr(t, p, d)->Ok_0.0) == 11,
        is_grouped(rules::primary_expr(t, p, d)->Ok_0.0),
{
}

proof fn group_unary(t: Seq<TokenView>, p: int, d: nat)
    requires
        rules::unary_expr(t, p, d) is Ok,
    ensures
        tightness(rules::unary_expr(t, p, d)->Ok_0.0) >= 10,
        is_grouped(rules::unary_expr(t, p, d)->Ok_0.0),
    decreases MAX_EXPR_DEPTH - d,
{
    match rules::unary_op(rules::kind(t, p)) {
        Some(op) => {
            group_unary(t, p + 1, d + 1);
        },
        None => {
            lemma_primary_is_whole(t, p, d + 1);
        },
    }
}

proof fn group_collate(t: Seq<TokenView>, p: int, lhs: ExprView)
    requires
        rules::collate_rest(t, p, lhs) is Ok,
        tightness(lhs) >= 9,
        is_grouped(lhs),
        0 <= p,
    ensures
        ({
            let (e, q) = rules::collate_rest(t, p, lhs)->Ok_0;
            tightness(e) >= 9 && is_grouped(e) && p <= q
        }),
    decreases rules::left(t, p),
{
    if 0 <= p < t.len() && rules::at_kw(t, p, Keyword::COLLATE) {
        let ((name, end), q) = rules::identifier(t, p + 1)->Ok_0;
        let next = ExprView {
            kind: ExprKindView::Collate { expr: Box::new(lhs), collation: name },
            span: rules::join_span(lhs.span, end),
        };
        assert(tightness(next) == 9 && is_grouped(next));
        group_collate(t, q, next);
    }
}

proof fn group_arrow(t: Seq<TokenView>, p: int, d: nat)
    requires
        matching::ended(t),
        matching::sound(t),
        0 <= p,
        rules::arrow_expr(t, p, d) is Ok,
    ensures
        ({
            let (e, q) = rules::arrow_expr(t, p, d)->Ok_0;
            tightness(e) >= 9 && is_grouped(e) && p < q
        }),
{
    group_unary(t, p, d);
    replay_binary::replay_unary(t, p, d, t, p);
    let (lhs, q) = rules::unary_expr(t, p, d)->Ok_0;
    group_collate(t, q, lhs);
}

/// A token of a binary operator of precedence `min` or more.
spec fn continues(t: Seq<TokenView>, p: int, min: int) -> bool {
    match rules::binary_op(rules::kind(t, p)) {
        Some((op, precedence)) => precedence >= min,
        None => false,
    }
}

proof fn group_binary(t: Seq<TokenView>, p: int, d: nat, min: int)
    requires
        matching::ended(t),
        matching::sound(t),
        0 <= p,
        1 <= min <= 6,
        rules::binary_expr(t, p, d, min) is Ok,
    ensures
        ({
            let (e, q) = rules::binary_expr(t, p, d, min)->Ok_0;
            tightness(e) >= min + 3 && is_grouped(e) && p < q && !continues(t, q, min)
        }),
    decreases 7 - min, rules::left(t, p), 1int,
{
    group_arrow(t, p, d);
    let (lhs, q) = rules::arrow_expr(t, p, d)->Ok_0;
    group_rest(t, q, d, min, lhs);
}

proof fn group_rest(t: Seq<TokenView>, p: int, d: nat, min: int, lhs: ExprView)
    requires
        matching::ended(t),
        matching::sound(t),
        0 <= p,
        1 <= min <= 6,
        rules::binary_rest(t, p, d, min, lhs) is Ok,
        tightness(lhs) >= min + 3,
        is_grouped(lhs),
        match rules::binary_op(rules::kind(t, p)) {
            Some((op, precedence)) => tightness(lhs) >= precedence + 3,
            None => true,
        },
    ensures
        ({
            let (e, q) = rules::binary_rest(t, p, d, min, lhs)->Ok_0;
            tightness(e) >= min + 3 && is_grouped(e) && p <= q && !continues(t, q, min)
        }),
    decreases 7 - min, rules::left(t, p), 0int,
{
    if continues(t, p, min) {
        let (op, precedence) = rules::binary_op(rules::kind(t, p))->0;
        assert(tightness_of(op) == precedence + 3);
        assert(precedence <= 5);
        group_binary(t, p + 1, d, precedence + 1);
        let (rhs, q) = rules::binary_expr(t, p + 1, d, precedence + 1)->Ok_0;
        matching::lemma_progress(t, p, q);
        let next = rules::bin(op, lhs, rhs);
        assert(tightness(next) == precedence + 3);
        assert(is_grouped(next));
        group_rest(t, q, d, min, next);
    }
}

proof fn group_step(t: Seq<TokenView>, p: int, d: nat, lhs: ExprView)
    requires
        matching::ended(t),
        matching::sound(t),
        0 <= p,
        hidden::step(t, p, d, lhs) is Some,
        hidden::step(t, p, d, lhs)->0 is Ok,
        tightness(lhs) >= 3,
        is_grouped(lhs),
    ensures
        ({
            let (e, q) = hidden::step(t, p, d, lhs)->0->Ok_0;
            tightness(e) == 3 && is_grouped(e)
        }),
{
    hidden::lemma_is_step(t, p, d, lhs);
    let o = if rules::at_negated_op(t, p) {
        p + 1
    } else {
        p
    };
    if rules::kind(t, p) == KindView::Eq || rules::kind(t, p) == KindView::Ne {
        group_binary(t, p + 1, d, 1);
    } else if rules::at_kw(t, p, Keyword::IS) {
        group_binary(t, rules::skip_kw(t, p + 1, Keyword::NOT), d, 1);
    } else if rules::at_kw(t, p, Keyword::ISNULL) || rules::at_kw(t, p, Keyword::NOTNULL) || (
    rules::at_kw(t, p, Keyword::NOT) && rules::kind(t, p + 1) == KindView::Null) {
    } else if rules::at_kw(t, o, Keyword::BETWEEN) {
        group_binary(t, o + 1, d, 1);
        let (lo, q) = rules::binary_expr(t, o + 1, d, 1)->Ok_0;
        group_binary(t, q + 1, d, 1);
    } else if rules::at_kw(t, o, Keyword::IN) {
    } else {
        group_binary(t, o + 1, d, 1);
        let (pattern, q) = rules::binary_expr(t, o + 1, d, 1)->Ok_0;
        if rules::at_kw(t, q, Keyword::ESCAPE) {
            group_binary(t, q + 1, d, 1);
        }
    }
}

proof fn group_equality_rest(t: Seq<TokenView>, p: int, d: nat, lhs: ExprView)
    requires
        matching::ended(t),
        matching::sound(t),
        0 <= p,
        rules::equality_rest(t, p, d, lhs) is Ok,
        tightness(lhs) >= 3,
        is_grouped(lhs),
    ensures
        tightness(rules::equality_rest(t, p, d, lhs)->Ok_0.0) >= 3,
        is_grouped(rules::equality_rest(t, p, d, lhs)->Ok_0.0),
    decreases rules::left(t, p),
{
    hidden::lemma_equality_rest(t, p, d, lhs);
    let step = hidden::step(t, p, d, lhs);
    if step is Some {
        let (e, q) = step->0->Ok_0;
        group_step(t, p, d, lhs);
        let _ = replay_equality::replay_step(t, p, d, lhs, t, p, lhs);
        matching::lemma_progress(t, p, q);
        group_equality_rest(t, q, d, e);
    }
}

#[verifier::rlimit(60)]
proof fn group_not(t: Seq<TokenView>, p: int, d: nat)
    requires
        matching::ended(t),
        matching::sound(t),
        0 <= p,
        rules::not_expr(t, p, d) is Ok,
    ensures
        tightness(rules::not_expr(t, p, d)->Ok_0.0) >= 2,
        is_grouped(rules::not_expr(t, p, d)->Ok_0.0),
    decreases MAX_EXPR_DEPTH - d,
{
    let r = rules::not_expr(t, p, d)->Ok_0.0;
    if rules::at_kw(t, p, Keyword::NOT) {
        if rules::at_kw(t, p + 1, Keyword::EXISTS) {
            lemma_exists_is_whole(t, p + 2, d + 1, rules::span(t, p), true);
            assert(r == rules::exists_tail(t, p + 2, d + 1, rules::span(t, p), true)->Ok_0.0);
        } else {
            group_not(t, p + 1, d + 1);
            let inner = rules::not_expr(t, p + 1, d + 1)->Ok_0.0;
            assert(r.kind == (ExprKindView::Unary { op: UnaryOp::Not, expr: Box::new(inner) }));
        }
    } else {
        group_equality(t, p, d + 1);
        assert(r == rules::equality_expr(t, p, d + 1)->Ok_0.0);
    }
}

proof fn lemma_exists_is_whole(
    t: Seq<TokenView>,
    p: int,
    d: nat,
    start: crate::parser::tokenizer::Span,
    negated: bool,
)
    requires
        rules::exists_tail(t, p, d, start, negated) is Ok,
    ensures
        tightness(rules::exists_tail(t, p, d, start, negated)->Ok_0.0) == 11,
        is_grouped(rules::exists_tail(t, p, d, start, negated)->Ok_0.0),
{
}

proof fn group_equality(t: Seq<TokenView>, p: int, d: nat)
    requires
        matching::ended(t),
        matching::sound(t),
        0 <= p,
        rules::equality_expr(t, p, d) is Ok,
    ensures
        tightness(rules::equality_expr(t, p, d)->Ok_0.0) >= 3,
        is_grouped(rules::equality_expr(t, p, d)->Ok_0.0),
{
    group_binary(t, p, d, 1);
    let (lhs, q) = rules::binary_expr(t, p, d, 1)->Ok_0;
    group_equality_rest(t, q, d, lhs);
}

proof fn group_bool(t: Seq<TokenView>, p: int, d: nat, and_only: bool)
    requires
        matching::ended(t),
        matching::sound(t),
        0 <= p,
        rules::bool_expr(t, p, d, and_only) is Ok,
    ensures
        ({
            let (e, q) = rules::bool_expr(t, p, d, and_only)->Ok_0;
            &&& is_grouped(e)
            &&& and_only ==> tightness(e) >= 1
            &&& !rules::at_kw(t, q, Keyword::AND)
            &&& p < q
        }),
    decreases (if and_only { 0int } else { 1 }), rules::left(t, p), 1int,
{
    group_not(t, p, d);
    replay_expr::replay_not(t, p, d, t, p);
    let (lhs, q) = rules::not_expr(t, p, d)->Ok_0;
    group_bool_rest(t, q, d, and_only, lhs);
}

proof fn group_bool_rest(t: Seq<TokenView>, p: int, d: nat, and_only: bool, lhs: ExprView)
    requires
        matching::ended(t),
        matching::sound(t),
        0 <= p,
        rules::bool_rest(t, p, d, and_only, lhs) is Ok,
        is_grouped(lhs),
        tightness(lhs) >= 0,
        and_only ==> tightness(lhs) >= 1,
        rules::at_kw(t, p, Keyword::AND) ==> tightness(lhs) >= 1,
    ensures
        ({
            let (e, q) = rules::bool_rest(t, p, d, and_only, lhs)->Ok_0;
            &&& is_grouped(e)
            &&& and_only ==> tightness(e) >= 1
            &&& !rules::at_kw(t, q, Keyword::AND)
            &&& p <= q
        }),
    decreases (if and_only { 0int } else { 1 }), rules::left(t, p), 0int,
{
    if rules::at_kw(t, p, Keyword::AND) {
        group_not(t, p + 1, d);
        replay_expr::replay_not(t, p + 1, d, t, p + 1);
        let (rhs, q) = rules::not_expr(t, p + 1, d)->Ok_0;
        matching::lemma_progress(t, p, q);
        let next = rules::bin(BinaryOp::And, lhs, rhs);
        assert(tightness(next) == 1 && is_grouped(next));
        group_bool_rest(t, q, d, and_only, next);
    } else if rules::at_kw(t, p, Keyword::OR) && !and_only {
        group_bool(t, p + 1, d, true);
        let (rhs, q) = rules::bool_expr(t, p + 1, d, true)->Ok_0;
        matching::lemma_progress(t, p, q);
        let next = rules::bin(BinaryOp::Or, lhs, rhs);
        assert(tightness(next) == 0 && is_grouped(next));
        group_bool_rest(t, q, d, and_only, next);
    }
}

/// Every expression of a source is read so that its operators group: multiplication, division
/// and remainder bind tighter than addition and subtraction, these tighter than the bitwise
/// operators, these tighter than comparisons, these tighter than equality and its like, and
/// these tighter than `NOT`, `AND` and `OR`, in this order. Operators that bind alike go from
/// left to right.
pub proof fn law_operators_group(src: Seq<char>, p: int, d: nat)
    requires
        0 <= p,
        rules::expr(tokenizer::tokens_of(src), p, d) is Ok,
    ensures
        is_grouped(rules::expr(tokenizer::tokens_of(src), p, d)->Ok_0.0),
{
    let t = tokenizer::tokens_of(src);
    tokenizer::law_tokens_end(src, 0);
    origin::lemma_spelled(src, 0);
    matching::lemma_sound(t);
    group_bool(t, p, d + 1, false);
}

/// The operator that a token stands for between two operands.
pub open spec fn operator_of(k: KindView) -> Option<BinaryOp> {
    match k {
        KindView::Lt => Some(BinaryOp::Lt),
        KindView::Le => Some(BinaryOp::Le),
        KindView::Gt => Some(BinaryOp::Gt),
        KindView::Ge => Some(BinaryOp::Ge),
        KindView::BitAnd => Some(BinaryOp::BitAnd),
        KindView::BitOr => Some(BinaryOp::BitOr),
        KindView::Shl => Some(BinaryOp::Shl),
        KindView::Shr => Some(BinaryOp::Shr),
        KindView::Plus => Some(BinaryOp::Add),
        KindView::Minus => Some(BinaryOp::Sub),
        KindView::Star => Some(BinaryOp::Mul),
        KindView::Slash => Some(BinaryOp::Div),
        KindView::Percent => Some(BinaryOp::Mod),
        KindView::Concat => Some(BinaryOp::Concat),
        _ => None,
    }
}

/// Whether the token `k`, alone, is an operand.
pub open spec fn is_operand(k: KindView) -> bool {
    match k {
        KindView::Integer(_) => true,
        KindView::Float(_) => true,
        KindView::Str(_) => true,
        KindView::Blob(_) => true,
        KindView::Null => true,
        KindView::True => true,
        KindView::False => true,
        KindView::Param(_) => true,
        KindView::Identifier(_) => true,
        _ => false,
    }
}

/// Whether `e` is the tree of the one token `k`.
pub open spec fn is_tree_of(e: ExprView, k: KindView) -> bool {
    match k {
        KindView::Integer(v) => e.kind == ExprKindView::Literal(LiteralView::Integer(v)),
        KindView::Float(v) => e.kind == ExprKindView::Literal(LiteralView::Float(v)),
        KindView::Str(v) => e.kind == ExprKindView::Literal(LiteralView::Str(v)),
        KindView::Blob(v) => e.kind == ExprKindView::Literal(LiteralView::Blob(v)),
        KindView::Null => e.kind == ExprKindView::Literal(LiteralView::Null),
        KindView::True => e.kind == ExprKindView::Literal(LiteralView::True),
        KindView::False => e.kind == ExprKindView::Literal(LiteralView::False),
        KindView::Param(ParamView::Anonymous) => e.kind == ExprKindView::Param(
            ParamKindView::Anonymous,
        ),
        KindView::Param(ParamView::Numbered(n)) => e.kind == ExprKindView::Param(
            ParamKindView::Numbered(n),
        ),
        KindView::Param(ParamView::Colon(s)) => e.kind == ExprKindView::Param(
            ParamKindView::Colon(s),
        ),
        KindView::Param(ParamView::At(s)) => e.kind == ExprKindView::Param(ParamKindView::At(s)),
        KindView::Param(ParamView::Dollar(s)) => e.kind == ExprKindView::Param(
            ParamKindView::Dollar(s),
        ),
        KindView::Identifier(s) => e.kind == ExprKindView::Column {
            table: None,
            catalog: None,
            name: s,
        },
        _ => false,
    }
}

/// Whether an expression ends before the token `k`, whatever stands before it.
pub open spec fn ends_any(k: KindView) -> bool {
    k == KindView::Eof || k == KindView::RParen || k == KindView::Comma || k == KindView::Semicolon
}

/// Whether `e` is the tree with the operator `op` at its root, between the trees `lhs` and
/// `rhs`.
pub open spec fn joins(e: ExprView, op: BinaryOp, lhs: ExprView, rhs: ExprView) -> bool {
    e.kind == ExprKindView::Binary { op, lhs: Box::new(lhs), rhs: Box::new(rhs) }
}

proof fn lemma_single(t: Seq<TokenView>, p: int, d: nat)
    requires
        rules::deeper_allowed(d),
        is_operand(rules::kind(t, p)),
        ends_any(rules::kind(t, p + 1)) || operator_of(rules::kind(t, p + 1)) is Some,
    ensures
        rules::arrow_expr(t, p, d) is Ok,
        rules::arrow_expr(t, p, d)->Ok_0.1 == p + 1,
        is_tree_of(rules::arrow_expr(t, p, d)->Ok_0.0, rules::kind(t, p)),
{
    assert(rules::unary_expr(t, p, d) == rules::primary_expr(t, p, d + 1));
    assert(rules::primary_expr(t, p, d + 1) is Ok);
    let (lhs, q) = rules::primary_expr(t, p, d + 1)->Ok_0;
    assert(q == p + 1 && is_tree_of(lhs, rules::kind(t, p)));
    assert(rules::collate_rest(t, q, lhs) == Parsed::<ExprView>::Ok((lhs, q)));
    assert(rules::collate_expr(t, p, d) == Parsed::<ExprView>::Ok((lhs, q)));
}

/// The operands of an operator that begin at `p`, where the tokens `k1 y k2 z` follow the
/// operand `x`.
#[verifier::rlimit(60)]
proof fn lemma_two_operators(t: Seq<TokenView>, p: int, d: nat) -> (parts: (
    ExprView,
    ExprView,
    ExprView,
))
    requires
        matching::ended(t),
        0 <= p,
        rules::deeper_allowed(d),
        is_operand(rules::kind(t, p)),
        operator_of(rules::kind(t, p + 1)) is Some,
        is_operand(rules::kind(t, p + 2)),
        operator_of(rules::kind(t, p + 3)) is Some,
        is_operand(rules::kind(t, p + 4)),
        ends_any(rules::kind(t, p + 5)),
    ensures
        rules::binary_expr(t, p, d, 1) is Ok,
        ({
            let (x, y, z) = parts;
            let (e, q) = rules::binary_expr(t, p, d, 1)->Ok_0;
            let first = operator_of(rules::kind(t, p + 1))->0;
            let second = operator_of(rules::kind(t, p + 3))->0;
            &&& q == p + 5
            &&& is_tree_of(x, rules::kind(t, p))
            &&& is_tree_of(y, rules::kind(t, p + 2))
            &&& is_tree_of(z, rules::kind(t, p + 4))
            &&& if tightness_of(first) < tightness_of(second) {
                joins(e, first, x, rules::bin(second, y, z))
            } else {
                joins(e, second, rules::bin(first, x, y), z)
            }
        }),
{
    let (first, one) = rules::binary_op(rules::kind(t, p + 1))->0;
    let (second, two) = rules::binary_op(rules::kind(t, p + 3))->0;
    assert(operator_of(rules::kind(t, p + 1)) == Some(first));
    assert(operator_of(rules::kind(t, p + 3)) == Some(second));
    assert(tightness_of(first) == one + 3 && tightness_of(second) == two + 3);
    lemma_single(t, p, d);
    lemma_single(t, p + 2, d);
    lemma_single(t, p + 4, d);
    let x = rules::arrow_expr(t, p, d)->Ok_0.0;
    let y = rules::arrow_expr(t, p + 2, d)->Ok_0.0;
    let z = rules::arrow_expr(t, p + 4, d)->Ok_0.0;
    matching::lemma_progress(t, p + 1, p + 3);
    matching::lemma_progress(t, p + 1, p + 5);
    matching::lemma_progress(t, p + 3, p + 5);
    assert(rules::binary_rest(t, p + 5, d, two + 1, z) == Parsed::<ExprView>::Ok((z, p + 5)));
    assert(rules::binary_expr(t, p + 4, d, two + 1) == Parsed::<ExprView>::Ok((z, p + 5)));
    if one < two {
        let yz = rules::bin(second, y, z);
        assert(rules::binary_rest(t, p + 5, d, one + 1, yz) == Parsed::<ExprView>::Ok((yz, p + 5)));
        assert(rules::binary_rest(t, p + 3, d, one + 1, y) == Parsed::<ExprView>::Ok((yz, p + 5)));
        assert(rules::binary_expr(t, p + 2, d, one + 1) == Parsed::<ExprView>::Ok((yz, p + 5)));
        let all = rules::bin(first, x, yz);
        assert(rules::binary_rest(t, p + 5, d, 1, all) == Parsed::<ExprView>::Ok((all, p + 5)));
        assert(rules::binary_rest(t, p + 1, d, 1, x) == Parsed::<ExprView>::Ok((all, p + 5)));
    } else {
        assert(rules::binary_rest(t, p + 3, d, one + 1, y) == Parsed::<ExprView>::Ok((y, p + 3)));
        assert(rules::binary_expr(t, p + 2, d, one + 1) == Parsed::<ExprView>::Ok((y, p + 3)));
        let xy = rules::bin(first, x, y);
        let all = rules::bin(second, xy, z);
        assert(rules::binary_rest(t, p + 5, d, 1, all) == Parsed::<ExprView>::Ok((all, p + 5)));
        assert(rules::binary_rest(t, p + 3, d, 1, xy) == Parsed::<ExprView>::Ok((all, p + 5)));
        assert(rules::binary_rest(t, p + 1, d, 1, x) == Parsed::<ExprView>::Ok((all, p + 5)));
    }
    (x, y, z)
}

/// Before a token that ends every expression, what was read as an operand is the whole.
proof fn lemma_nothing_follows(t: Seq<TokenView>, p: int, d: nat)
    requires
        rules::deeper_allowed(d + 1),
        is_operand(rules::kind(t, p)),
        rules::binary_expr(t, p, d + 2, 1) is Ok,
        ends_any(rules::kind(t, rules::binary_expr(t, p, d + 2, 1)->Ok_0.1)),
    ensures
        rules::expr(t, p, d) == rules::binary_expr(t, p, d + 2, 1),
{
    let m: nat = d + 2;
    let (e, q) = rules::binary_expr(t, p, m, 1)->Ok_0;
    hidden::lemma_step_cases(t, q, m, e);
    assert(hidden::behind_not(t, q) == q);
    hidden::lemma_equality_rest(t, q, m, e);
    assert(rules::equality_expr(t, p, m) == Parsed::<ExprView>::Ok((e, q)));
    assert(rules::not_expr(t, p, d + 1) == rules::equality_expr(t, p, m));
    assert(rules::bool_rest(t, q, d + 1, false, e) == Parsed::<ExprView>::Ok((e, q)));
    assert(rules::bool_expr(t, p, d + 1, false) == Parsed::<ExprView>::Ok((e, q)));
}

/// Whether `e` is a tree of the tokens `a k1 b k2 c`, three operands with two operators, in
/// which the tighter operator, or the first of two that are alike, has the operands beside it.
pub open spec fn takes_tighter_first(
    e: ExprView,
    a: KindView,
    k1: KindView,
    b: KindView,
    k2: KindView,
    c: KindView,
) -> bool {
    exists|x: ExprView, y: ExprView, z: ExprView|
        {
            &&& #[trigger] is_tree_of(x, a)
            &&& #[trigger] is_tree_of(y, b)
            &&& #[trigger] is_tree_of(z, c)
            &&& if tightness_of(operator_of(k1)->0) < tightness_of(operator_of(k2)->0) {
                exists|inner: ExprView|
                    joins(inner, operator_of(k2)->0, y, z) && #[trigger] joins(
                        e,
                        operator_of(k1)->0,
                        x,
                        inner,
                    )
            } else {
                exists|inner: ExprView|
                    joins(inner, operator_of(k1)->0, x, y) && #[trigger] joins(
                        e,
                        operator_of(k2)->0,
                        inner,
                        z,
                    )
            }
        }
}

proof fn lemma_takes_tighter_first(t: Seq<TokenView>, p: int, d: nat)
    requires
        matching::ended(t),
        0 <= p,
        d + 2 < MAX_EXPR_DEPTH,
        is_operand(rules::kind(t, p)),
        operator_of(rules::kind(t, p + 1)) is Some,
        is_operand(rules::kind(t, p + 2)),
        operator_of(rules::kind(t, p + 3)) is Some,
        is_operand(rules::kind(t, p + 4)),
        ends_any(rules::kind(t, p + 5)),
    ensures
        rules::expr(t, p, d) is Ok,
        rules::expr(t, p, d)->Ok_0.1 == p + 5,
        takes_tighter_first(
            rules::expr(t, p, d)->Ok_0.0,
            rules::kind(t, p),
            rules::kind(t, p + 1),
            rules::kind(t, p + 2),
            rules::kind(t, p + 3),
            rules::kind(t, p + 4),
        ),
{
    let (x, y, z) = lemma_two_operators(t, p, d + 2);
    lemma_nothing_follows(t, p, d);
    let e = rules::expr(t, p, d)->Ok_0.0;
    let first = operator_of(rules::kind(t, p + 1))->0;
    let second = operator_of(rules::kind(t, p + 3))->0;
    if tightness_of(first) < tightness_of(second) {
        let inner = rules::bin(second, y, z);
        assert(joins(inner, second, y, z) && joins(e, first, x, inner));
    } else {
        let inner = rules::bin(first, x, y);
        assert(joins(inner, first, x, y) && joins(e, second, inner, z));
    }
}

/// Of two operators between three operands of one token each, the tighter one takes the
/// operands beside it, and its tree is an operand of the other: `1 + 6 / 2` is the sum of `1`
/// and the quotient of `6` and `2`. Where neither is tighter, the first one is the operand. It is
/// read unless it stands too deep.
pub proof fn law_tighter_operator_first(src: Seq<char>, p: int, d: nat)
    requires
        0 <= p,
        d + 2 < MAX_EXPR_DEPTH,
        is_operand(rules::kind(tokenizer::tokens_of(src), p)),
        operator_of(rules::kind(tokenizer::tokens_of(src), p + 1)) is Some,
        is_operand(rules::kind(tokenizer::tokens_of(src), p + 2)),
        operator_of(rules::kind(tokenizer::tokens_of(src), p + 3)) is Some,
        is_operand(rules::kind(tokenizer::tokens_of(src), p + 4)),
        ends_any(rules::kind(tokenizer::tokens_of(src), p + 5)),
    ensures
        ({
            let t = tokenizer::tokens_of(src);
            let (e, q) = rules::expr(t, p, d)->Ok_0;
            &&& rules::expr(t, p, d) is Ok
            &&& q == p + 5
            &&& takes_tighter_first(
                e,
                rules::kind(t, p),
                rules::kind(t, p + 1),
                rules::kind(t, p + 2),
                rules::kind(t, p + 3),
                rules::kind(t, p + 4),
            )
        }),
{
    tokenizer::law_tokens_end(src, 0);
    lemma_takes_tighter_first(tokenizer::tokens_of(src), p, d);
}

/// Two conditions that `AND` or `OR` joins, with nothing behind them, are the tree of both.
pub proof fn law_conditions_are_joined(
    t: Seq<TokenView>,
    p: int,
    d: nat,
    a: ExprView,
    q: int,
    b: ExprView,
    r: int,
)
    requires
        matching::ended(t),
        0 <= p,
        p < q,
        q + 1 < r,
        rules::not_expr(t, p, d) == Parsed::<ExprView>::Ok((a, q)),
        rules::not_expr(t, q + 1, d) == Parsed::<ExprView>::Ok((b, r)),
        ends_any(rules::kind(t, r)),
    ensures
        ({
            let read = rules::bool_expr(t, p, d, false);
            &&& rules::at_kw(t, q, Keyword::AND) || rules::at_kw(t, q, Keyword::OR) ==> read is Ok
                && read->Ok_0.1 == r
            &&& rules::at_kw(t, q, Keyword::AND) ==> joins(read->Ok_0.0, BinaryOp::And, a, b)
            &&& rules::at_kw(t, q, Keyword::OR) ==> joins(read->Ok_0.0, BinaryOp::Or, a, b)
        }),
{
    if rules::at_kw(t, q, Keyword::AND) {
        matching::lemma_progress(t, q, r);
        let e = rules::bin(BinaryOp::And, a, b);
        assert(rules::bool_rest(t, r, d, false, e) == Parsed::<ExprView>::Ok((e, r)));
        assert(rules::bool_rest(t, q, d, false, a) == Parsed::<ExprView>::Ok((e, r)));
    } else if rules::at_kw(t, q, Keyword::OR) {
        matching::lemma_progress(t, q, r);
        let e = rules::bin(BinaryOp::Or, a, b);
        assert(rules::bool_rest(t, r, d, true, b) == Parsed::<ExprView>::Ok((b, r)));
        assert(rules::bool_expr(t, q + 1, d, true) == Parsed::<ExprView>::Ok((b, r)));
        assert(rules::bool_rest(t, r, d, false, e) == Parsed::<ExprView>::Ok((e, r)));
        assert(rules::bool_rest(t, q, d, false, a) == Parsed::<ExprView>::Ok((e, r)));
    }
}

/// `NOT` before a condition is its negation.
pub proof fn law_not_is_read(t: Seq<TokenView>, p: int, d: nat, a: ExprView, q: int)
    requires
        d < MAX_EXPR_DEPTH,
        rules::at_kw(t, p, Keyword::NOT),
        !rules::at_kw(t, p + 1, Keyword::EXISTS),
        rules::not_expr(t, p + 1, d + 1) == Parsed::<ExprView>::Ok((a, q)),
    ensures
        rules::not_expr(t, p, d) is Ok,
        rules::not_expr(t, p, d)->Ok_0.1 == q,
        rules::not_expr(t, p, d)->Ok_0.0.kind == (ExprKindView::Unary {
            op: UnaryOp::Not,
            expr: Box::new(a),
        }),
{
}

} // verus!
