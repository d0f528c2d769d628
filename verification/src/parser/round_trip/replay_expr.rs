//! An expression that was read is, printed, read again: rule by rule, wherever the
//! tokens that it is printed as stand and what follows ends it.
use crate::parser::ast::{BinaryOp, ExprView, UnaryOp};
use crate::parser::round_trip::hidden;
use crate::parser::round_trip::leaves;
use crate::parser::round_trip::matching;
use crate::parser::round_trip::replay_equality;
use crate::parser::round_trip::replay_query;
use crate::parser::round_trip::shape;
use crate::parser::rules;
use crate::parser::rules::{Parsed, MAX_EXPR_DEPTH};
use crate::parser::tokenizer::{Keyword, KindView, Span, TokenView};
use vstd::prelude::*;

verus! {

broadcast use matching::at_one;

/// Whether what was read is the expression `a`, its places aside, up to `e`.
pub open spec fn again(src: Seq<TokenView>, r: Parsed<ExprView>, a: ExprView, e: int) -> bool {
    match r {
        Ok((b, q)) => b.bare() == a.bare() && q == e,
        Err(f) => matching::refused(src, f),
    }
}

/// Whether the expression `a`, printed at `p` and ended there, is read again.
pub open spec fn replays(
    src: Seq<TokenView>,
    a: ExprView,
    t: Seq<TokenView>,
    p: int,
    stop: bool,
    r: Parsed<ExprView>,
) -> bool {
    matching::at(t, p, a.kinds()) && stop ==> again(
        src,
        r,
        a,
        p + a.kinds().len(),
    )
}

/// What holds of an expression read at `p`.
pub open spec fn reads_well(r: Parsed<ExprView>, t: Seq<TokenView>, p: int) -> bool {
    match r {
        Ok((a, q)) => p < q && a.holds() && matching::opens(
            a.kinds(),
            rules::kind(t, p),
        ),
        Err(_) => false,
    }
}

/// What holds of an expression that begins with `lhs` and goes on from `p` with `suffix`.
pub open spec fn extends(
    r: Parsed<ExprView>,
    p: int,
    lhs: ExprView,
    suffix: Seq<KindView>,
) -> bool {
    match r {
        Ok((a, q)) => {
            &&& p <= q
            &&& a.kinds() == lhs.kinds() + suffix
            &&& lhs.holds() ==> a.holds()
        },
        Err(_) => false,
    }
}

/// Whether `suffix`, printed at `p` behind what stands for `lhs`, makes it `a` again.
pub open spec fn resumes(
    src: Seq<TokenView>,
    a: ExprView,
    lhs: ExprView,
    lhs2: ExprView,
    suffix: Seq<KindView>,
    t: Seq<TokenView>,
    p: int,
    stop: bool,
    r: Parsed<ExprView>,
) -> bool {
    lhs2.bare() == lhs.bare() && matching::at(t, p, suffix) && stop
        ==> again(src, r, a, p + suffix.len())
}

pub proof fn replay_expr(t: Seq<TokenView>, p: int, d: nat, t2: Seq<TokenView>, p2: int)
    requires
        matching::ended(t),
        matching::sound(t),
        matching::ended(t2),
        0 <= p,
        rules::expr(t, p, d) is Ok,
    ensures
        reads_well(rules::expr(t, p, d), t, p),
        ({
            let a = rules::expr(t, p, d)->Ok_0.0;
            replays(
                t,
                a,
                t2,
                p2,
                matching::ends_expr(rules::kind(t2, p2 + a.kinds().len())),
                rules::expr(t2, p2, d),
            )
        }),
    decreases MAX_EXPR_DEPTH - d, 0int, 0nat,
{
    reveal(matching::ends_expr);
    replay_bool(t, p, d + 1, false, t2, p2);
}

pub proof fn replay_bool(
    t: Seq<TokenView>,
    p: int,
    d: nat,
    and_only: bool,
    t2: Seq<TokenView>,
    p2: int,
)
    requires
        matching::ended(t),
        matching::sound(t),
        matching::ended(t2),
        0 <= p,
        rules::bool_expr(t, p, d, and_only) is Ok,
    ensures
        reads_well(rules::bool_expr(t, p, d, and_only), t, p),
        ({
            let (a, q) = rules::bool_expr(t, p, d, and_only)->Ok_0;
            &&& !rules::at_kw(t, q, Keyword::AND)
            &&& replays(
                t,
                a,
                t2,
                p2,
                matching::ends_bool(rules::kind(t2, p2 + a.kinds().len()), and_only),
                rules::bool_expr(t2, p2, d, and_only),
            )
        }),
    decreases MAX_EXPR_DEPTH - d, (if and_only { 42int } else { 44 }), 0nat,
{
    reveal(matching::ends_primary);
    reveal(matching::ends_operand);
    reveal(matching::ends_binary);
    reveal(matching::ends_equality);
    reveal(matching::is_equality);
    reveal(matching::ends_bool);
    reveal(matching::ends_expr);
    replay_not(t, p, d, t2, p2);
    let (lhs, q) = rules::not_expr(t, p, d)->Ok_0;
    let q2: int = p2 + lhs.kinds().len();
    let lhs2 = rules::not_expr(t2, p2, d)->Ok_0.0;
    let suffix = replay_bool_rest(t, q, d, and_only, lhs, t2, q2, lhs2);
    matching::lemma_opens(lhs.kinds(), suffix, rules::kind(t, p));
    matching::split2(t2, p2, lhs.kinds(), suffix);
    let a = rules::bool_expr(t, p, d, and_only)->Ok_0.0;
    if matching::at(t2, p2, a.kinds()) {
        matching::lemma_at_head(t2, q2, suffix);
    }
}

pub proof fn replay_bool_rest(
    t: Seq<TokenView>,
    p: int,
    d: nat,
    and_only: bool,
    lhs: ExprView,
    t2: Seq<TokenView>,
    p2: int,
    lhs2: ExprView,
) -> (suffix: Seq<KindView>)
    requires
        matching::ended(t),
        matching::sound(t),
        matching::ended(t2),
        0 <= p,
        rules::bool_rest(t, p, d, and_only, lhs) is Ok,
    ensures
        extends(rules::bool_rest(t, p, d, and_only, lhs), p, lhs, suffix),
        suffix.len() > 0 ==> suffix[0] == rules::kind(t, p) && (rules::at_kw(t, p, Keyword::AND)
            || (!and_only && rules::at_kw(t, p, Keyword::OR))),
        ({
            let (a, q) = rules::bool_rest(t, p, d, and_only, lhs)->Ok_0;
            &&& !rules::at_kw(t, q, Keyword::AND)
            &&& resumes(
                t,
                a,
                lhs,
                lhs2,
                suffix,
                t2,
                p2,
                matching::ends_bool(rules::kind(t2, p2 + suffix.len()), and_only),
                rules::bool_rest(t2, p2, d, and_only, lhs2),
            )
        }),
    decreases MAX_EXPR_DEPTH - d, (if and_only { 41int } else { 43 }), rules::left(t, p),
{
    reveal(matching::ends_primary);
    reveal(matching::ends_operand);
    reveal(matching::ends_binary);
    reveal(matching::ends_equality);
    reveal(matching::is_equality);
    reveal(matching::ends_bool);
    reveal(matching::ends_expr);
    let a = rules::bool_rest(t, p, d, and_only, lhs)->Ok_0.0;
    if rules::at_kw(t, p, Keyword::AND) {
        replay_not(t, p + 1, d, t2, p2 + 1);
        let (rhs, q) = rules::not_expr(t, p + 1, d)->Ok_0;
        let rhs2 = rules::not_expr(t2, p2 + 1, d)->Ok_0.0;
        matching::lemma_progress(t, p, q);
        let e = rules::bin(BinaryOp::And, lhs, rhs);
        let e2 = rules::bin(BinaryOp::And, lhs2, rhs2);
        shape::shape_binary(e, BinaryOp::And, lhs, rhs);
        shape::shape_binary(e2, BinaryOp::And, lhs2, rhs2);
        let q2: int = p2 + 1 + rhs.kinds().len();
        let rest = replay_bool_rest(t, q, d, and_only, e, t2, q2, e2);
        let suffix = shape::kw(Keyword::AND) + rhs.kinds() + rest;
        assert(a.kinds() =~= lhs.kinds() + suffix);
        assert(suffix[0] == KindView::Keyword(Keyword::AND));
        matching::split3(t2, p2, shape::kw(Keyword::AND), rhs.kinds(), rest);
        if matching::at(t2, p2, suffix) {
            matching::lemma_at_head(t2, q2, rest);
            matching::lemma_progress(t2, p2, q2);
        }
        suffix
    } else if rules::at_kw(t, p, Keyword::OR) && !and_only {
        replay_bool(t, p + 1, d, true, t2, p2 + 1);
        let (rhs, q) = rules::bool_expr(t, p + 1, d, true)->Ok_0;
        let rhs2 = rules::bool_expr(t2, p2 + 1, d, true)->Ok_0.0;
        matching::lemma_progress(t, p, q);
        let e = rules::bin(BinaryOp::Or, lhs, rhs);
        let e2 = rules::bin(BinaryOp::Or, lhs2, rhs2);
        shape::shape_binary(e, BinaryOp::Or, lhs, rhs);
        shape::shape_binary(e2, BinaryOp::Or, lhs2, rhs2);
        let q2: int = p2 + 1 + rhs.kinds().len();
        let rest = replay_bool_rest(t, q, d, and_only, e, t2, q2, e2);
        let suffix = shape::kw(Keyword::OR) + rhs.kinds() + rest;
        assert(a.kinds() =~= lhs.kinds() + suffix);
        assert(suffix[0] == KindView::Keyword(Keyword::OR));
        matching::split3(t2, p2, shape::kw(Keyword::OR), rhs.kinds(), rest);
        if matching::at(t2, p2, suffix) {
            matching::lemma_at_head(t2, q2, rest);
            matching::lemma_progress(t2, p2, q2);
        }
        suffix
    } else {
        leaves::lemma_nothing_more(lhs.kinds());
        seq![]
    }
}

pub proof fn replay_not(t: Seq<TokenView>, p: int, d: nat, t2: Seq<TokenView>, p2: int)
    requires
        matching::ended(t),
        matching::sound(t),
        matching::ended(t2),
        0 <= p,
        rules::not_expr(t, p, d) is Ok,
    ensures
        reads_well(rules::not_expr(t, p, d), t, p),
        ({
            let a = rules::not_expr(t, p, d)->Ok_0.0;
            replays(
                t,
                a,
                t2,
                p2,
                matching::ends_equality(rules::kind(t2, p2 + a.kinds().len())),
                rules::not_expr(t2, p2, d),
            )
        }),
    decreases MAX_EXPR_DEPTH - d, 1int, 0nat,
{
    reveal(matching::dotted);
    let a = rules::not_expr(t, p, d)->Ok_0.0;
    if rules::at_kw(t, p, Keyword::NOT) {
        if rules::at_kw(t, p + 1, Keyword::EXISTS) {
            let tail = replay_exists(
                t,
                p + 2,
                d + 1,
                rules::span(t, p),
                true,
                t2,
                p2 + 2,
                rules::span(t2, p2),
            );
            assert(a.kinds()[0] == KindView::Keyword(Keyword::NOT));
            matching::split3(t2, p2, shape::kw(Keyword::NOT), shape::kw(Keyword::EXISTS), tail);
        } else {
            replay_not(t, p + 1, d + 1, t2, p2 + 1);
            let inner = rules::not_expr(t, p + 1, d + 1)->Ok_0.0;
            shape::shape_unary(a, UnaryOp::Not, inner);
            matching::split2(t2, p2, shape::kw(Keyword::NOT), inner.kinds());
            assert(a.kinds()[0] == KindView::Keyword(Keyword::NOT));
            if matching::at(t2, p2, a.kinds()) {
                matching::lemma_at_head(t2, p2 + 1, inner.kinds());
                if matching::ends_equality(rules::kind(t2, p2 + a.kinds().len())) {
                    let inner2 = rules::not_expr(t2, p2 + 1, d + 1)->Ok_0.0;
                    let a2 = rules::not_expr(t2, p2, d)->Ok_0.0;
                    if rules::not_expr(t2, p2, d) is Ok {
                        shape::shape_unary(a2, UnaryOp::Not, inner2);
                    }
                }
            }
        }
    } else {
        replay_equality::replay_equality(t, p, d + 1, t2, p2);
        if matching::at(t2, p2, a.kinds()) {
            matching::lemma_at_head(t2, p2, a.kinds());
        }
    }
}

pub proof fn replay_exists(
    t: Seq<TokenView>,
    p: int,
    d: nat,
    start: Span,
    negated: bool,
    t2: Seq<TokenView>,
    p2: int,
    start2: Span,
) -> (tail: Seq<KindView>)
    requires
        matching::ended(t),
        matching::sound(t),
        matching::ended(t2),
        0 <= p,
        rules::exists_tail(t, p, d, start, negated) is Ok,
    ensures
        ({
            let (a, q) = rules::exists_tail(t, p, d, start, negated)->Ok_0;
            &&& p < q
            &&& a.holds()
            &&& a.kinds() == shape::flag_kinds(negated, Keyword::NOT) + shape::kw(Keyword::EXISTS)
                + tail
            &&& matching::at(t2, p2, tail) ==> again(
                t,
                rules::exists_tail(t2, p2, d, start2, negated),
                a,
                p2 + tail.len(),
            )
        }),
    decreases MAX_EXPR_DEPTH - d, 16int, 0nat,
{
    let close = "')' to close EXISTS subquery"@;
    hidden::lemma_subquery(t, p + 1, d, close);
    hidden::lemma_subquery(t2, p2 + 1, d, close);
    replay_query::replay_select(t, p + 1, d, t2, p2 + 1);
    let query = hidden::query(t, p + 1, d)->Ok_0.0;
    let tail = shape::in_parens(query.kinds());
    matching::split_parens(t2, p2, query.kinds());
    let a = rules::exists_tail(t, p, d, start, negated)->Ok_0.0;
    shape::shape_exists(a, query, negated);
    if matching::at(t2, p2, tail) {
        matching::lemma_at_head(t2, p2 + 1, query.kinds());
        let query2 = hidden::query(t2, p2 + 1, d)->Ok_0.0;
        let a2 = rules::exists_tail(t2, p2, d, start2, negated)->Ok_0.0;
        if rules::exists_tail(t2, p2, d, start2, negated) is Ok {
            shape::shape_exists(a2, query2, negated);
        }
    }
    tail
}

} // verus!
