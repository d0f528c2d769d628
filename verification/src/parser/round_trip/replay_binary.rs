//! Operands and the operators between them, printed, are read again.
use crate::double::TWO_POW_63;
use crate::parser::ast::{ExprKindView, ExprView, LiteralView, UnaryOp};
use crate::parser::round_trip::hidden;
use crate::parser::round_trip::leaves;
use crate::parser::round_trip::matching;
use crate::parser::round_trip::replay_expr;
use crate::parser::round_trip::replay_primary;
use crate::parser::round_trip::shape;
use crate::parser::rules;
use crate::parser::rules::MAX_EXPR_DEPTH;
use crate::parser::tokenizer::{Keyword, KindView, Span, TokenView};
use vstd::prelude::*;

verus! {

broadcast use matching::at_one;

#[verifier::rlimit(60)]
pub proof fn replay_binary(t: Seq<TokenView>, p: int, d: nat, min: int, t2: Seq<TokenView>, p2: int)
    requires
        matching::ended(t),
        matching::sound(t),
        matching::ended(t2),
        0 <= p,
        1 <= min <= 6,
        rules::binary_expr(t, p, d, min) is Ok,
    ensures
        replay_expr::reads_well(rules::binary_expr(t, p, d, min), t, p),
        ({
            let (a, q) = rules::binary_expr(t, p, d, min)->Ok_0;
            &&& match rules::binary_op(rules::kind(t, q)) {
                Some((_, precedence)) => precedence < min,
                None => true,
            }
            &&& replay_expr::replays(
                t,
                a,
                t2,
                p2,
                matching::ends_binary(rules::kind(t2, p2 + a.kinds().len()), min),
                rules::binary_expr(t2, p2, d, min),
            )
        }),
    decreases MAX_EXPR_DEPTH - d, (if min <= 6 { 36 - 2 * min } else { 24 }), 0nat,
{
    reveal(matching::ends_primary);
    reveal(matching::ends_operand);
    reveal(matching::ends_binary);
    replay_operand(t, p, d, t2, p2);
    let (lhs, q) = rules::arrow_expr(t, p, d)->Ok_0;
    let q2: int = p2 + lhs.kinds().len();
    let lhs2 = rules::arrow_expr(t2, p2, d)->Ok_0.0;
    let suffix = replay_binary_rest(t, q, d, min, lhs, t2, q2, lhs2);
    matching::lemma_opens(lhs.kinds(), suffix, rules::kind(t, p));
    matching::split2(t2, p2, lhs.kinds(), suffix);
    let a = rules::binary_expr(t, p, d, min)->Ok_0.0;
    if matching::at(t2, p2, a.kinds()) {
        matching::lemma_at_head(t2, q2, suffix);
    }
}

pub proof fn replay_binary_rest(
    t: Seq<TokenView>,
    p: int,
    d: nat,
    min: int,
    lhs: ExprView,
    t2: Seq<TokenView>,
    p2: int,
    lhs2: ExprView,
) -> (suffix: Seq<KindView>)
    requires
        matching::ended(t),
        matching::sound(t),
        matching::ended(t2),
        0 <= p,
        1 <= min <= 6,
        rules::binary_rest(t, p, d, min, lhs) is Ok,
    ensures
        replay_expr::extends(rules::binary_rest(t, p, d, min, lhs), p, lhs, suffix),
        suffix.len() > 0 ==> suffix[0] == rules::kind(t, p) && rules::binary_op(
            rules::kind(t, p),
        ) is Some,
        ({
            let (a, q) = rules::binary_rest(t, p, d, min, lhs)->Ok_0;
            &&& match rules::binary_op(rules::kind(t, q)) {
                Some((_, precedence)) => precedence < min,
                None => true,
            }
            &&& replay_expr::resumes(
                t,
                a,
                lhs,
                lhs2,
                suffix,
                t2,
                p2,
                matching::ends_binary(rules::kind(t2, p2 + suffix.len()), min),
                rules::binary_rest(t2, p2, d, min, lhs2),
            )
        }),
    decreases
            MAX_EXPR_DEPTH - d,
            (if min <= 6 { 35 - 2 * min } else { 23 }),
            rules::left(t, p),
{
    reveal(matching::ends_primary);
    reveal(matching::ends_operand);
    reveal(matching::ends_binary);
    let a = rules::binary_rest(t, p, d, min, lhs)->Ok_0.0;
    let k = rules::kind(t, p);
    match rules::binary_op(k) {
        Some((op, precedence)) if precedence >= min => {
            replay_binary(t, p + 1, d, precedence + 1, t2, p2 + 1);
            let (rhs, q) = rules::binary_expr(t, p + 1, d, precedence + 1)->Ok_0;
            let rhs2 = rules::binary_expr(t2, p2 + 1, d, precedence + 1)->Ok_0.0;
            matching::lemma_progress(t, p, q);
            let e = rules::bin(op, lhs, rhs);
            let e2 = rules::bin(op, lhs2, rhs2);
            shape::shape_binary(e, op, lhs, rhs);
            shape::shape_binary(e2, op, lhs2, rhs2);
            let q2: int = p2 + 1 + rhs.kinds().len();
            let rest = replay_binary_rest(t, q, d, min, e, t2, q2, e2);
            let suffix = seq![k] + rhs.kinds() + rest;
            matching::split3(t2, p2, seq![k], rhs.kinds(), rest);
            assert(shape::binary_kind(op) == k);
            assert(a.kinds() =~= lhs.kinds() + suffix);
            assert(suffix[0] == k);
            if matching::at(t2, p2, suffix) {
                matching::lemma_at_head(t2, q2, rest);
                matching::lemma_progress(t2, p2, q2);
            }
            suffix
        },
        _ => {
            leaves::lemma_nothing_more(lhs.kinds());
            seq![]
        },
    }
}

pub proof fn replay_operand(t: Seq<TokenView>, p: int, d: nat, t2: Seq<TokenView>, p2: int)
    requires
        matching::ended(t),
        matching::sound(t),
        matching::ended(t2),
        0 <= p,
        rules::arrow_expr(t, p, d) is Ok,
    ensures
        replay_expr::reads_well(rules::arrow_expr(t, p, d), t, p),
        ({
            let a = rules::arrow_expr(t, p, d)->Ok_0.0;
            replay_expr::replays(
                t,
                a,
                t2,
                p2,
                matching::ends_operand(rules::kind(t2, p2 + a.kinds().len())),
                rules::arrow_expr(t2, p2, d),
            )
        }),
    decreases MAX_EXPR_DEPTH - d, 21int, 0nat,
{
    reveal(matching::ends_primary);
    reveal(matching::ends_operand);
    replay_unary(t, p, d, t2, p2);
    let (lhs, q) = rules::unary_expr(t, p, d)->Ok_0;
    let q2: int = p2 + lhs.kinds().len();
    let lhs2 = rules::unary_expr(t2, p2, d)->Ok_0.0;
    let suffix = replay_collate(t, q, lhs, t2, q2, lhs2);
    matching::lemma_opens(lhs.kinds(), suffix, rules::kind(t, p));
    matching::split2(t2, p2, lhs.kinds(), suffix);
    let a = rules::arrow_expr(t, p, d)->Ok_0.0;
    if matching::at(t2, p2, a.kinds()) {
        matching::lemma_at_head(t2, q2, suffix);
    }
}

pub proof fn replay_collate(
    t: Seq<TokenView>,
    p: int,
    lhs: ExprView,
    t2: Seq<TokenView>,
    p2: int,
    lhs2: ExprView,
) -> (suffix: Seq<KindView>)
    requires
        matching::ended(t),
        matching::ended(t2),
        0 <= p,
        rules::collate_rest(t, p, lhs) is Ok,
    ensures
        replay_expr::extends(rules::collate_rest(t, p, lhs), p, lhs, suffix),
        suffix.len() > 0 ==> matching::is_kw(suffix[0], Keyword::COLLATE),
        replay_expr::resumes(
            t,
            rules::collate_rest(t, p, lhs)->Ok_0.0,
            lhs,
            lhs2,
            suffix,
            t2,
            p2,
            !matching::is_kw(rules::kind(t2, p2 + suffix.len()), Keyword::COLLATE),
            rules::collate_rest(t2, p2, lhs2),
        ),
    decreases rules::left(t, p),
{
    let a = rules::collate_rest(t, p, lhs)->Ok_0.0;
    if p < t.len() && rules::at_kw(t, p, Keyword::COLLATE) {
        let ((name, end), q) = rules::identifier(t, p + 1)->Ok_0;
        let e = ExprView {
            kind: ExprKindView::Collate { expr: Box::new(lhs), collation: name },
            span: rules::join_span(lhs.span, end),
        };
        let e2 = ExprView {
            kind: ExprKindView::Collate { expr: Box::new(lhs2), collation: name },
            span: rules::join_span(lhs2.span, rules::span(t2, p2 + 1)),
        };
        shape::shape_collate(e, lhs, name);
        shape::shape_collate(e2, lhs2, name);
        let rest = replay_collate(t, q, e, t2, p2 + 2, e2);
        let suffix = shape::kw(Keyword::COLLATE) + shape::name_kinds(name) + rest;
        matching::split3(t2, p2, shape::kw(Keyword::COLLATE), shape::name_kinds(name), rest);
        assert(a.kinds() =~= lhs.kinds() + suffix);
        assert(suffix[0] == KindView::Keyword(Keyword::COLLATE));
        if matching::at(t2, p2, suffix) {
            assert(rules::identifier(t2, p2 + 1) is Ok);
        }
        suffix
    } else {
        leaves::lemma_nothing_more(lhs.kinds());
        seq![]
    }
}

pub proof fn replay_unary(t: Seq<TokenView>, p: int, d: nat, t2: Seq<TokenView>, p2: int)
    requires
        matching::ended(t),
        matching::sound(t),
        matching::ended(t2),
        0 <= p,
        rules::unary_expr(t, p, d) is Ok,
    ensures
        replay_expr::reads_well(rules::unary_expr(t, p, d), t, p),
        ({
            let a = rules::unary_expr(t, p, d)->Ok_0.0;
            replay_expr::replays(
                t,
                a,
                t2,
                p2,
                matching::ends_primary(rules::kind(t2, p2 + a.kinds().len())),
                rules::unary_expr(t2, p2, d),
            )
        }),
    decreases MAX_EXPR_DEPTH - d, 1int, 0nat,
{
    reveal(matching::dotted);
    let a = rules::unary_expr(t, p, d)->Ok_0.0;
    hidden::lemma_unary(t, p, d);
    match rules::unary_op(rules::kind(t, p)) {
        Some(op) => {
            replay_unary(t, p + 1, d + 1, t2, p2 + 1);
            hidden::lemma_unary(t, p + 1, d + 1);
            let inner = rules::unary_expr(t, p + 1, d + 1)->Ok_0.0;
            if a.kind is Literal {
                shape::shape_literal(a, LiteralView::Integer(i64::MIN));
                assert(a.kinds()[0] == KindView::Minus);
                lemma_smallest_again(t, t2, p2, d, a);
            } else {
                assert(shape::unary_kind(op) == rules::kind(t, p));
                shape::shape_unary(a, op, inner);
                assert(a.kinds()[0] == shape::unary_kind(op));
                let inner2 = rules::unary_expr(t2, p2 + 1, d + 1)->Ok_0.0;
                matching::split2(t2, p2, seq![shape::unary_kind(op)], inner.kinds());
                if matching::at(t2, p2, a.kinds()) && inner2.bare() == inner.bare() {
                    hidden::lemma_unary(t2, p2, d);
                    lemma_unary_again(op, inner, inner2, rules::span(t2, p2));
                    let a2 = rules::unary(op, inner2, rules::span(t2, p2));
                    shape::shape_unary(a2, op, inner2);
                }
            }
        },
        None => {
            if rules::kind(t, p) == KindView::Integer(i64::MIN) {
                hidden::lemma_literal(t, p, d + 1);
                shape::shape_literal(a, LiteralView::Integer(i64::MIN));
                assert(a.kinds()[0] == KindView::Minus);
                matching::lemma_not_total(t, p);
                lemma_smallest_again(t, t2, p2, d, a);
            } else {
                replay_primary::replay_primary(t, p, d + 1, t2, p2);
                if matching::at(t2, p2, a.kinds()) {
                    matching::lemma_at_head(t2, p2, a.kinds());
                    hidden::lemma_unary(t2, p2, d);
                }
            }
        },
    }
}

/// The smallest integer, printed, is read again, unless it stands too deep.
pub proof fn lemma_smallest_again(
    src: Seq<TokenView>,
    t: Seq<TokenView>,
    p: int,
    d: nat,
    a: ExprView,
)
    requires
        a.kind == ExprKindView::Literal(LiteralView::Integer(i64::MIN)),
        rules::deeper_allowed(d),
        rules::deeper_allowed(d + 1) || !matching::total(src),
    ensures
        matching::at(t, p, a.kinds()) ==> replay_expr::again(
            src,
            rules::unary_expr(t, p, d),
            a,
            p + a.kinds().len(),
        ),
        a.kinds().len() == 2,
{
    shape::shape_literal(a, LiteralView::Integer(i64::MIN));
    let minus = seq![KindView::Minus];
    let digits = seq![KindView::Float(TWO_POW_63)];
    matching::split2(t, p, minus, digits);
    if matching::at(t, p, a.kinds()) {
        hidden::lemma_unary(t, p, d);
        hidden::lemma_unary(t, p + 1, d + 1);
        hidden::lemma_literal(t, p + 1, d + 2);
        if rules::unary_expr(t, p, d) is Err {
            matching::lemma_refused(src, rules::unary_expr(t, p, d)->Err_0);
        } else {
            let a2 = rules::unary_expr(t, p, d)->Ok_0.0;
            shape::shape_literal(a2, LiteralView::Integer(i64::MIN));
        }
    }
}

/// Whether an operator is folded into its operand depends on no place.
pub proof fn lemma_unary_again(op: UnaryOp, inner: ExprView, inner2: ExprView, at2: Span)
    requires
        inner.bare() == inner2.bare(),
        rules::unary(op, inner, at2).kind is Unary,
    ensures
        rules::unary(op, inner2, at2).kind is Unary,
{
    reveal(ExprView::bare);
    match inner2.kind {
        ExprKindView::Literal(LiteralView::Float(literal)) => {
            assert(inner2.bare().kind == ExprKindView::Literal(LiteralView::Float(literal)));
            assert(inner.kind == ExprKindView::Literal(LiteralView::Float(literal)));
        },
        _ => {},
    }
}

} // verus!
