//! The operators of the equality level, printed, are read again.
use crate::parser::ast::{BinaryOp, ExprView};
use crate::parser::round_trip::hidden;
use crate::parser::round_trip::leaves;
use crate::parser::round_trip::matching;
use crate::parser::round_trip::replay_binary;
use crate::parser::round_trip::replay_expr;
use crate::parser::round_trip::replay_list;
use crate::parser::round_trip::replay_query;
use crate::parser::round_trip::shape;
use crate::parser::rules;
use crate::parser::rules::{Parsed, MAX_EXPR_DEPTH};
use crate::parser::tokenizer::{Keyword, KindView, TokenView};
use vstd::prelude::*;

verus! {

broadcast use matching::at_one;

pub proof fn replay_equality(t: Seq<TokenView>, p: int, d: nat, t2: Seq<TokenView>, p2: int)
    requires
        matching::ended(t),
        matching::sound(t),
        matching::ended(t2),
        0 <= p,
        rules::equality_expr(t, p, d) is Ok,
    ensures
        replay_expr::reads_well(rules::equality_expr(t, p, d), t, p),
        ({
            let a = rules::equality_expr(t, p, d)->Ok_0.0;
            replay_expr::replays(
                t,
                a,
                t2,
                p2,
                matching::ends_equality(rules::kind(t2, p2 + a.kinds().len())),
                rules::equality_expr(t2, p2, d),
            )
        }),
    decreases MAX_EXPR_DEPTH - d, 38int, 0nat,
{
    lemma_step_follows();
    replay_binary::replay_binary(t, p, d, 1, t2, p2);
    let (lhs, q) = rules::binary_expr(t, p, d, 1)->Ok_0;
    let q2: int = p2 + lhs.kinds().len();
    let lhs2 = rules::binary_expr(t2, p2, d, 1)->Ok_0.0;
    let suffix = replay_equality_rest(t, q, d, lhs, t2, q2, lhs2);
    if suffix.len() > 0 {
        lemma_no_dot(suffix[0]);
    }
    matching::lemma_opens(lhs.kinds(), suffix, rules::kind(t, p));
    matching::split2(t2, p2, lhs.kinds(), suffix);
    let a = rules::equality_expr(t, p, d)->Ok_0.0;
    if matching::at(t2, p2, a.kinds()) {
        matching::lemma_at_head(t2, q2, suffix);
    }
}

pub proof fn lemma_no_dot(k: KindView)
    requires
        matching::is_equality(k),
    ensures
        k != KindView::Dot,
{
    reveal(matching::is_equality);
}

pub proof fn replay_equality_rest(
    t: Seq<TokenView>,
    p: int,
    d: nat,
    lhs: ExprView,
    t2: Seq<TokenView>,
    p2: int,
    lhs2: ExprView,
) -> (suffix: Seq<KindView>)
    requires
        matching::ended(t),
        matching::sound(t),
        matching::ended(t2),
        0 <= p,
        rules::equality_rest(t, p, d, lhs) is Ok,
    ensures
        replay_expr::extends(rules::equality_rest(t, p, d, lhs), p, lhs, suffix),
        suffix.len() > 0 ==> matching::is_equality(suffix[0]),
        replay_expr::resumes(
            t,
            rules::equality_rest(t, p, d, lhs)->Ok_0.0,
            lhs,
            lhs2,
            suffix,
            t2,
            p2,
            matching::ends_equality(rules::kind(t2, p2 + suffix.len())),
            rules::equality_rest(t2, p2, d, lhs2),
        ),
    decreases MAX_EXPR_DEPTH - d, 37int, rules::left(t, p),
{
    let a = rules::equality_rest(t, p, d, lhs)->Ok_0.0;
    hidden::lemma_equality_rest(t, p, d, lhs);
    hidden::lemma_equality_rest(t2, p2, d, lhs2);
    if hidden::step(t, p, d, lhs) is None {
        leaves::lemma_nothing_more(lhs.kinds());
        lemma_no_step(t2, p2, d, lhs2);
        seq![]
    } else {
        let part = replay_step(t, p, d, lhs, t2, p2, lhs2);
        let (e, q) = hidden::step(t, p, d, lhs)->0->Ok_0;
        matching::lemma_progress(t, p, q);
        let q2: int = p2 + part.len();
        let e2 = hidden::step(t2, p2, d, lhs2)->0->Ok_0.0;
        let rest = replay_equality_rest(t, q, d, e, t2, q2, e2);
        let suffix = part + rest;
        matching::split2(t2, p2, part, rest);
        leaves::lemma_regroup3(lhs.kinds(), part, rest);
        assert(suffix[0] == part[0]);
        lemma_step_follows();
        if matching::at(t2, p2, suffix) {
            matching::lemma_at_head(t2, p2, part);
            matching::lemma_at_head(t2, q2, rest);
            matching::lemma_progress(t2, p2, q2);
        }
        suffix
    }
}

/// Nothing that ends the operators of the equality level is read as one.
pub proof fn lemma_no_step(t: Seq<TokenView>, p: int, d: nat, lhs: ExprView)
    ensures
        matching::ends_equality(rules::kind(t, p)) ==> hidden::step(t, p, d, lhs) is None,
{
    reveal(matching::ends_equality);
    reveal(matching::is_equality);
    hidden::lemma_step_cases(t, p, d, lhs);
}

/// An operator of the equality level ends the operand in front of it.
pub proof fn lemma_step_follows()
    ensures
        forall|k: KindView| #[trigger]
            matching::is_equality(k) ==> matching::ends_binary(k, 1) && k != KindView::Eof
                && !matching::is_kw(k, Keyword::ESCAPE),
        forall|k: KindView| #[trigger]
            matching::ends_equality(k) ==> matching::ends_binary(k, 1) && !matching::is_kw(
                k,
                Keyword::ESCAPE,
            ),
{
    reveal(matching::ends_primary);
    reveal(matching::ends_operand);
    reveal(matching::ends_binary);
    reveal(matching::ends_equality);
    reveal(matching::is_equality);
}

/// Whether one operator of the equality level with its right-hand side, printed at `p`,
/// makes `a` of what stands for `lhs`.
pub open spec fn steps(
    src: Seq<TokenView>,
    a: ExprView,
    lhs: ExprView,
    lhs2: ExprView,
    part: Seq<KindView>,
    t: Seq<TokenView>,
    p: int,
    r: Option<Parsed<ExprView>>,
) -> bool {
    let end = rules::kind(t, p + part.len());
    lhs2.bare() == lhs.bare() && matching::at(t, p, part)
        && matching::ends_binary(end, 1) && !matching::is_kw(end, Keyword::ESCAPE) ==> match r {
        Some(x) => replay_expr::again(src, x, a, p + part.len()),
        None => false,
    }
}

pub proof fn replay_step(
    t: Seq<TokenView>,
    p: int,
    d: nat,
    lhs: ExprView,
    t2: Seq<TokenView>,
    p2: int,
    lhs2: ExprView,
) -> (part: Seq<KindView>)
    requires
        matching::ended(t),
        matching::sound(t),
        matching::ended(t2),
        0 <= p,
        match hidden::step(t, p, d, lhs) {
            Some(step) => step is Ok,
            None => false,
        },
    ensures
        ({
            let step = hidden::step(t, p, d, lhs)->0;
            &&& replay_expr::extends(step, p, lhs, part)
            &&& p < step->Ok_0.1
            &&& rules::kind(t, p) != KindView::Eof
            &&& part.len() > 0
            &&& matching::is_equality(part[0])
            &&& steps(
                t,
                step->Ok_0.0,
                lhs,
                lhs2,
                part,
                t2,
                p2,
                hidden::step(t2, p2, d, lhs2),
            )
        }),
    decreases MAX_EXPR_DEPTH - d, 36int, 2nat,
{
    reveal(matching::is_equality);
    hidden::lemma_step_cases(t, p, d, lhs);
    let k = rules::kind(t, p);
    if k == KindView::Eq || k == KindView::Ne {
        replay_compare(t, p, d, lhs, t2, p2, lhs2)
    } else if rules::at_kw(t, p, Keyword::IS) {
        replay_is(t, p, d, lhs, t2, p2, lhs2)
    } else if rules::at_kw(t, p, Keyword::ISNULL) || rules::at_kw(t, p, Keyword::NOTNULL) || (
    rules::at_kw(t, p, Keyword::NOT) && rules::kind(t, p + 1) == KindView::Null) {
        replay_null(t, p, d, lhs, t2, p2, lhs2)
    } else {
        replay_word(t, p, d, lhs, t2, p2, lhs2)
    }
}

pub proof fn replay_compare(
    t: Seq<TokenView>,
    p: int,
    d: nat,
    lhs: ExprView,
    t2: Seq<TokenView>,
    p2: int,
    lhs2: ExprView,
) -> (part: Seq<KindView>)
    requires
        matching::ended(t),
        matching::sound(t),
        matching::ended(t2),
        0 <= p,
        rules::kind(t, p) == KindView::Eq || rules::kind(t, p) == KindView::Ne,
        match hidden::step(t, p, d, lhs) {
            Some(step) => step is Ok,
            None => false,
        },
    ensures
        ({
            let step = hidden::step(t, p, d, lhs)->0;
            &&& replay_expr::extends(step, p, lhs, part)
            &&& p < step->Ok_0.1
            &&& rules::kind(t, p) != KindView::Eof
            &&& part.len() > 0
            &&& matching::is_equality(part[0])
            &&& steps(
                t,
                step->Ok_0.0,
                lhs,
                lhs2,
                part,
                t2,
                p2,
                hidden::step(t2, p2, d, lhs2),
            )
        }),
    decreases MAX_EXPR_DEPTH - d, 36int, 0nat,
{
    reveal(matching::is_equality);
    let a = hidden::step(t, p, d, lhs)->0->Ok_0.0;
    let k = rules::kind(t, p);
    hidden::lemma_step_compare(t, p, d, lhs);
    replay_binary::replay_binary(t, p + 1, d, 1, t2, p2 + 1);
    let rhs = rules::binary_expr(t, p + 1, d, 1)->Ok_0.0;
    let rhs2 = rules::binary_expr(t2, p2 + 1, d, 1)->Ok_0.0;
    let op = if k == KindView::Eq {
        BinaryOp::Eq
    } else {
        BinaryOp::Ne
    };
    shape::shape_binary(a, op, lhs, rhs);
    shape::shape_binary(rules::bin(op, lhs2, rhs2), op, lhs2, rhs2);
    let part = seq![k] + rhs.kinds();
    leaves::lemma_regroup3(lhs.kinds(), seq![k], rhs.kinds());
    matching::split2(t2, p2, seq![k], rhs.kinds());
    assert(part[0] == k);
    if matching::at(t2, p2, part) {
        hidden::lemma_step_compare(t2, p2, d, lhs2);
    }
    part
}

pub proof fn replay_is(
    t: Seq<TokenView>,
    p: int,
    d: nat,
    lhs: ExprView,
    t2: Seq<TokenView>,
    p2: int,
    lhs2: ExprView,
) -> (part: Seq<KindView>)
    requires
        matching::ended(t),
        matching::sound(t),
        matching::ended(t2),
        0 <= p,
        rules::at_kw(t, p, Keyword::IS),
        match hidden::step(t, p, d, lhs) {
            Some(step) => step is Ok,
            None => false,
        },
    ensures
        ({
            let step = hidden::step(t, p, d, lhs)->0;
            &&& replay_expr::extends(step, p, lhs, part)
            &&& p < step->Ok_0.1
            &&& rules::kind(t, p) != KindView::Eof
            &&& part.len() > 0
            &&& matching::is_equality(part[0])
            &&& steps(
                t,
                step->Ok_0.0,
                lhs,
                lhs2,
                part,
                t2,
                p2,
                hidden::step(t2, p2, d, lhs2),
            )
        }),
    decreases MAX_EXPR_DEPTH - d, 36int, 0nat,
{
    reveal(matching::is_equality);
    let a = hidden::step(t, p, d, lhs)->0->Ok_0.0;
    let k = rules::kind(t, p);
    hidden::lemma_step_is(t, p, d, lhs);
    let negated = rules::at_kw(t, p + 1, Keyword::NOT);
    let s = rules::skip_kw(t, p + 1, Keyword::NOT);
    let s2: int = if negated {
        p2 + 2
    } else {
        p2 + 1
    };
    replay_binary::replay_binary(t, s, d, 1, t2, s2);
    let rhs = rules::binary_expr(t, s, d, 1)->Ok_0.0;
    let rhs2 = rules::binary_expr(t2, s2, d, 1)->Ok_0.0;
    shape::shape_is(a, lhs, rhs, negated);
    let flag = shape::flag_kinds(negated, Keyword::NOT);
    let part = shape::kw(Keyword::IS) + flag + rhs.kinds();
    matching::split3(t2, p2, shape::kw(Keyword::IS), flag, rhs.kinds());
    leaves::lemma_regroup(lhs.kinds(), shape::kw(Keyword::IS), flag, rhs.kinds());
    assert(part[0] == k);
    if matching::at(t2, p2, part) && matching::ends_binary(
        rules::kind(t2, p2 + part.len()),
        1,
    ) {
        matching::lemma_at_head(t2, s2, rhs.kinds());
        hidden::lemma_step_is(t2, p2, d, lhs2);
        assert(rules::skip_kw(t2, p2 + 1, Keyword::NOT) == s2);
        if hidden::step(t2, p2, d, lhs2)->0 is Ok {
            shape::shape_is(hidden::step(t2, p2, d, lhs2)->0->Ok_0.0, lhs2, rhs2, negated);
        }
    }
    part
}

pub proof fn replay_null(
    t: Seq<TokenView>,
    p: int,
    d: nat,
    lhs: ExprView,
    t2: Seq<TokenView>,
    p2: int,
    lhs2: ExprView,
) -> (part: Seq<KindView>)
    requires
        matching::ended(t),
        matching::sound(t),
        matching::ended(t2),
        0 <= p,
        rules::at_kw(t, p, Keyword::ISNULL) || rules::at_kw(t, p, Keyword::NOTNULL) || (
        rules::at_kw(t, p, Keyword::NOT) && rules::kind(t, p + 1) == KindView::Null),
        match hidden::step(t, p, d, lhs) {
            Some(step) => step is Ok,
            None => false,
        },
    ensures
        ({
            let step = hidden::step(t, p, d, lhs)->0;
            &&& replay_expr::extends(step, p, lhs, part)
            &&& p < step->Ok_0.1
            &&& rules::kind(t, p) != KindView::Eof
            &&& part.len() > 0
            &&& matching::is_equality(part[0])
            &&& steps(
                t,
                step->Ok_0.0,
                lhs,
                lhs2,
                part,
                t2,
                p2,
                hidden::step(t2, p2, d, lhs2),
            )
        }),
    decreases MAX_EXPR_DEPTH - d, 36int, 0nat,
{
    reveal(matching::is_equality);
    let a = hidden::step(t, p, d, lhs)->0->Ok_0.0;
    hidden::lemma_step_null(t, p, d, lhs);
    let negated = !rules::at_kw(t, p, Keyword::ISNULL);
    let word = if negated {
        Keyword::NOTNULL
    } else {
        Keyword::ISNULL
    };
    let part = shape::kw(word);
    assert(part[0] == KindView::Keyword(word));
    let a2 = rules::is_null(lhs2, negated, rules::span(t2, p2));
    shape::shape_is_null(a, lhs, negated);
    shape::shape_is_null(a2, lhs2, negated);
    if matching::at(t2, p2, part) {
        hidden::lemma_step_null(t2, p2, d, lhs2);
    }
    part
}

pub proof fn replay_word(
    t: Seq<TokenView>,
    p: int,
    d: nat,
    lhs: ExprView,
    t2: Seq<TokenView>,
    p2: int,
    lhs2: ExprView,
) -> (part: Seq<KindView>)
    requires
        matching::ended(t),
        matching::sound(t),
        matching::ended(t2),
        0 <= p,
        rules::at_kw(t, hidden::behind_not(t, p), Keyword::BETWEEN) || rules::at_kw(
            t,
            hidden::behind_not(t, p),
            Keyword::IN,
        ) || rules::at_kw(t, hidden::behind_not(t, p), Keyword::LIKE) || rules::at_kw(
            t,
            hidden::behind_not(t, p),
            Keyword::GLOB,
        ),
        match hidden::step(t, p, d, lhs) {
            Some(step) => step is Ok,
            None => false,
        },
    ensures
        ({
            let step = hidden::step(t, p, d, lhs)->0;
            &&& replay_expr::extends(step, p, lhs, part)
            &&& p < step->Ok_0.1
            &&& rules::kind(t, p) != KindView::Eof
            &&& part.len() > 0
            &&& matching::is_equality(part[0])
            &&& steps(
                t,
                step->Ok_0.0,
                lhs,
                lhs2,
                part,
                t2,
                p2,
                hidden::step(t2, p2, d, lhs2),
            )
        }),
    decreases MAX_EXPR_DEPTH - d, 36int, 1nat,
{
    reveal(matching::is_equality);
    let a = hidden::step(t, p, d, lhs)->0->Ok_0.0;
    let k = rules::kind(t, p);
    hidden::lemma_step_cases(t, p, d, lhs);
    hidden::lemma_step_word(t, p, d, lhs);
    let negated = rules::at_negated_op(t, p);
    let o = hidden::behind_not(t, p);
    let o2: int = if negated {
        p2 + 1
    } else {
        p2
    };
    let lead = shape::flag_kinds(negated, Keyword::NOT);
    let word = if rules::at_kw(t, o, Keyword::BETWEEN) {
        Keyword::BETWEEN
    } else if rules::at_kw(t, o, Keyword::IN) {
        Keyword::IN
    } else if rules::at_kw(t, o, Keyword::GLOB) {
        Keyword::GLOB
    } else {
        Keyword::LIKE
    };
    let tail = if word == Keyword::BETWEEN {
        replay_between(t, o + 1, d, lhs, negated, t2, o2 + 1, lhs2)
    } else if word == Keyword::IN {
        replay_in(t, o + 1, d, lhs, negated, t2, o2 + 1, lhs2)
    } else {
        replay_like(t, o + 1, d, lhs, word == Keyword::GLOB, negated, t2, o2 + 1, lhs2)
    };
    let part = lead + shape::kw(word) + tail;
    matching::split3(t2, p2, lead, shape::kw(word), tail);
    assert(part[0] == k);
    if matching::at(t2, p2, part) {
        assert(rules::at_negated_op(t2, p2) == negated);
        hidden::lemma_step_word(t2, p2, d, lhs2);
    }
    part
}

pub proof fn replay_between(
    t: Seq<TokenView>,
    p: int,
    d: nat,
    lhs: ExprView,
    negated: bool,
    t2: Seq<TokenView>,
    p2: int,
    lhs2: ExprView,
) -> (tail: Seq<KindView>)
    requires
        matching::ended(t),
        matching::sound(t),
        matching::ended(t2),
        0 <= p,
        hidden::between(t, p, d, lhs, negated) is Ok,
    ensures
        ({
            let lead = shape::flag_kinds(negated, Keyword::NOT) + shape::kw(Keyword::BETWEEN);
            let r = hidden::between(t, p, d, lhs, negated);
            &&& replay_expr::extends(r, p, lhs, lead + tail)
            &&& p < r->Ok_0.1
            &&& replay_expr::resumes(
                t,
                r->Ok_0.0,
                lhs,
                lhs2,
                tail,
                t2,
                p2,
                matching::ends_binary(rules::kind(t2, p2 + tail.len()), 1),
                hidden::between(t2, p2, d, lhs2, negated),
            )
        }),
    decreases MAX_EXPR_DEPTH - d, 36int, 0nat,
{
    reveal(matching::ends_primary);
    reveal(matching::ends_operand);
    reveal(matching::ends_binary);
    hidden::lemma_between(t, p, d, lhs, negated);
    hidden::lemma_between(t2, p2, d, lhs2, negated);
    replay_binary::replay_binary(t, p, d, 1, t2, p2);
    let (lo, q) = rules::binary_expr(t, p, d, 1)->Ok_0;
    let q2: int = p2 + lo.kinds().len();
    replay_binary::replay_binary(t, q + 1, d, 1, t2, q2 + 1);
    let hi = rules::binary_expr(t, q + 1, d, 1)->Ok_0.0;
    let tail = lo.kinds() + shape::kw(Keyword::AND) + hi.kinds();
    matching::split3(t2, p2, lo.kinds(), shape::kw(Keyword::AND), hi.kinds());
    let lead = shape::flag_kinds(negated, Keyword::NOT) + shape::kw(Keyword::BETWEEN);
    let a = hidden::between(t, p, d, lhs, negated)->Ok_0.0;
    shape::shape_between(a, lhs, lo, hi, negated);
    let flag = shape::flag_kinds(negated, Keyword::NOT);
    let word = shape::kw(Keyword::BETWEEN);
    let and = shape::kw(Keyword::AND);
    leaves::lemma_regroup6(lhs.kinds(), flag, word, lo.kinds(), and, hi.kinds());
    leaves::lemma_regroup(lead, lo.kinds(), and, hi.kinds());
    assert(a.kinds() == lhs.kinds() + (lead + tail));
    if matching::at(t2, p2, tail) && matching::ends_binary(
        rules::kind(t2, p2 + tail.len()),
        1,
    ) {
        let lo2 = rules::binary_expr(t2, p2, d, 1)->Ok_0.0;
        let hi2 = rules::binary_expr(t2, q2 + 1, d, 1)->Ok_0.0;
        let a2 = hidden::between(t2, p2, d, lhs2, negated)->Ok_0.0;
        if hidden::between(t2, p2, d, lhs2, negated) is Ok {
            shape::shape_between(a2, lhs2, lo2, hi2, negated);
        }
    }
    tail
}

pub proof fn replay_like(
    t: Seq<TokenView>,
    p: int,
    d: nat,
    lhs: ExprView,
    glob: bool,
    negated: bool,
    t2: Seq<TokenView>,
    p2: int,
    lhs2: ExprView,
) -> (tail: Seq<KindView>)
    requires
        matching::ended(t),
        matching::sound(t),
        matching::ended(t2),
        0 <= p,
        hidden::like(t, p, d, lhs, glob, negated) is Ok,
    ensures
        ({
            let word = if glob {
                Keyword::GLOB
            } else {
                Keyword::LIKE
            };
            let lead = shape::flag_kinds(negated, Keyword::NOT) + shape::kw(word);
            let r = hidden::like(t, p, d, lhs, glob, negated);
            let end = rules::kind(t2, p2 + tail.len());
            &&& replay_expr::extends(r, p, lhs, lead + tail)
            &&& p < r->Ok_0.1
            &&& replay_expr::resumes(
                t,
                r->Ok_0.0,
                lhs,
                lhs2,
                tail,
                t2,
                p2,
                matching::ends_binary(end, 1) && !matching::is_kw(end, Keyword::ESCAPE),
                hidden::like(t2, p2, d, lhs2, glob, negated),
            )
        }),
    decreases MAX_EXPR_DEPTH - d, 36int, 0nat,
{
    reveal(matching::ends_primary);
    reveal(matching::ends_operand);
    reveal(matching::ends_binary);
    hidden::lemma_like(t, p, d, lhs, glob, negated);
    hidden::lemma_like(t2, p2, d, lhs2, glob, negated);
    replay_binary::replay_binary(t, p, d, 1, t2, p2);
    let (pattern, q) = rules::binary_expr(t, p, d, 1)->Ok_0;
    let q2: int = p2 + pattern.kinds().len();
    let word = if glob {
        Keyword::GLOB
    } else {
        Keyword::LIKE
    };
    let lead = shape::flag_kinds(negated, Keyword::NOT) + shape::kw(word);
    let a = hidden::like(t, p, d, lhs, glob, negated)->Ok_0.0;
    if rules::at_kw(t, q, Keyword::ESCAPE) {
        replay_binary::replay_binary(t, q + 1, d, 1, t2, q2 + 1);
        let escape = rules::binary_expr(t, q + 1, d, 1)->Ok_0.0;
        let escaped = shape::kw(Keyword::ESCAPE) + escape.kinds();
        let tail = pattern.kinds() + escaped;
        matching::split2(t2, p2, pattern.kinds(), escaped);
        matching::split2(t2, q2, shape::kw(Keyword::ESCAPE), escape.kinds());
        shape::shape_like(a, lhs, pattern, glob, negated, Some(Box::new(escape)));
        let flag = shape::flag_kinds(negated, Keyword::NOT);
        leaves::lemma_regroup5(lhs.kinds(), flag, shape::kw(word), pattern.kinds(), escaped);
        leaves::lemma_regroup3(lead, pattern.kinds(), escaped);
        assert(a.kinds() == lhs.kinds() + (lead + tail));
        if matching::at(t2, p2, tail) && matching::ends_binary(
            rules::kind(t2, p2 + tail.len()),
            1,
        ) {
            let pattern2 = rules::binary_expr(t2, p2, d, 1)->Ok_0.0;
            let escape2 = rules::binary_expr(t2, q2 + 1, d, 1)->Ok_0.0;
            let a2 = hidden::like(t2, p2, d, lhs2, glob, negated)->Ok_0.0;
            if hidden::like(t2, p2, d, lhs2, glob, negated) is Ok {
                shape::shape_like(a2, lhs2, pattern2, glob, negated, Some(Box::new(escape2)));
            }
        }
        tail
    } else {
        let tail = pattern.kinds();
        shape::shape_like(a, lhs, pattern, glob, negated, None);
        let flag = shape::flag_kinds(negated, Keyword::NOT);
        leaves::lemma_nothing_more(lhs.kinds() + flag + shape::kw(word) + pattern.kinds());
        leaves::lemma_regroup(lhs.kinds(), flag, shape::kw(word), pattern.kinds());
        assert(a.kinds() == lhs.kinds() + (lead + tail));
        let end = rules::kind(t2, p2 + tail.len());
        if matching::at(t2, p2, tail) && matching::ends_binary(end, 1)
            && !matching::is_kw(end, Keyword::ESCAPE) {
            let pattern2 = rules::binary_expr(t2, p2, d, 1)->Ok_0.0;
            let a2 = hidden::like(t2, p2, d, lhs2, glob, negated)->Ok_0.0;
            if hidden::like(t2, p2, d, lhs2, glob, negated) is Ok {
                shape::shape_like(a2, lhs2, pattern2, glob, negated, None);
            }
        }
        tail
    }
}

pub proof fn replay_in(
    t: Seq<TokenView>,
    p: int,
    d: nat,
    lhs: ExprView,
    negated: bool,
    t2: Seq<TokenView>,
    p2: int,
    lhs2: ExprView,
) -> (tail: Seq<KindView>)
    requires
        matching::ended(t),
        matching::sound(t),
        matching::ended(t2),
        0 <= p,
        hidden::inside(t, p, d, lhs, negated) is Ok,
    ensures
        ({
            let lead = shape::flag_kinds(negated, Keyword::NOT) + shape::kw(Keyword::IN);
            let r = hidden::inside(t, p, d, lhs, negated);
            &&& replay_expr::extends(r, p, lhs, lead + tail)
            &&& p < r->Ok_0.1
            &&& replay_expr::resumes(
                t,
                r->Ok_0.0,
                lhs,
                lhs2,
                tail,
                t2,
                p2,
                true,
                hidden::inside(t2, p2, d, lhs2, negated),
            )
        }),
    decreases MAX_EXPR_DEPTH - d, 36int, 0nat,
{
    matching::lemma_stops();
    let lead = shape::flag_kinds(negated, Keyword::NOT) + shape::kw(Keyword::IN);
    let a = hidden::inside(t, p, d, lhs, negated)->Ok_0.0;
    hidden::lemma_inside(t, p, d, lhs, negated);
    if rules::at_kw(t, p + 1, Keyword::SELECT) {
        hidden::lemma_inside_query(t, p, d, lhs, negated);
        hidden::lemma_inside_query(t2, p2, d, lhs2, negated);
        replay_query::replay_select(t, p + 1, d, t2, p2 + 1);
        let query = hidden::query(t, p + 1, d)->Ok_0.0;
        let tail = shape::in_parens(query.kinds());
        matching::split_parens(t2, p2, query.kinds());
        shape::shape_in_subquery(a, lhs, query, negated);
        assert(a.kinds() =~= lhs.kinds() + (lead + tail));
        if matching::at(t2, p2, tail) {
            matching::lemma_at_head(t2, p2 + 1, query.kinds());
            let query2 = hidden::query(t2, p2 + 1, d)->Ok_0.0;
            let a2 = hidden::inside(t2, p2, d, lhs2, negated)->Ok_0.0;
            if hidden::inside(t2, p2, d, lhs2, negated) is Ok {
                shape::shape_in_subquery(a2, lhs2, query2, negated);
            }
        }
        tail
    } else {
        hidden::lemma_inside(t2, p2, d, lhs2, negated);
        replay_list::replay_opt_list(t, p + 1, d, t2, p2 + 1);
        let list = hidden::optional_list(t, p + 1, d)->Ok_0.0;
        let inner = shape::commas(shape::exprs_kinds(list));
        let tail = shape::in_parens(inner);
        matching::split_parens(t2, p2, inner);
        shape::shape_in(a, lhs, list, negated);
        assert(a.kinds() =~= lhs.kinds() + (lead + tail));
        if matching::at(t2, p2, tail) {
            matching::lemma_at_head(t2, p2 + 1, inner);
            let list2 = hidden::optional_list(t2, p2 + 1, d)->Ok_0.0;
            let a2 = hidden::inside(t2, p2, d, lhs2, negated)->Ok_0.0;
            if hidden::inside(t2, p2, d, lhs2, negated) is Ok {
                shape::shape_in(a2, lhs2, list2, negated);
            }
        }
        tail
    }
}

} // verus!
