//! Lists of expressions and optional expressions, printed, are read again.
use crate::parser::ast::ExprView;
use crate::parser::round_trip::hidden;
use crate::parser::round_trip::leaves;
use crate::parser::round_trip::matching;
use crate::parser::round_trip::replay_expr;
use crate::parser::round_trip::shape;
use crate::parser::rules;
use crate::parser::rules::{Parsed, MAX_EXPR_DEPTH};
use crate::parser::tokenizer::{Keyword, KindView, TokenView};
use vstd::prelude::*;

verus! {

broadcast use matching::at_one;

/// Whether what was read are the expressions `a`, their places aside, up to `e`.
pub open spec fn list_again(src: Seq<TokenView>, r: Parsed<Seq<ExprView>>, a: Seq<ExprView>,
    e: int) -> bool {
    match r {
        Ok((b, q)) => shape::bare_exprs(b) == shape::bare_exprs(a) && b.len() == a.len() && q == e,
        Err(f) => matching::refused(src, f),
    }
}

/// What ends an expression and a list of them.
pub open spec fn ends_list(k: KindView) -> bool {
    matching::ends_expr(k) && k != KindView::Comma
}

pub proof fn replay_opt_list(t: Seq<TokenView>, p: int, d: nat, t2: Seq<TokenView>, p2: int)
    requires
        matching::ended(t),
        matching::sound(t),
        matching::ended(t2),
        0 <= p,
        hidden::optional_list(t, p, d) is Ok,
    ensures
        ({
            let (list, q) = hidden::optional_list(t, p, d)->Ok_0;
            let kinds = shape::commas(shape::exprs_kinds(list));
            &&& p <= q
            &&& shape::exprs_hold(list)
            &&& kinds.len() > 0 ==> matching::same_head(kinds[0], rules::kind(t, p))
            &&& matching::at(t2, p2, kinds)
                && rules::kind(t2, p2 + kinds.len()) == KindView::RParen ==> list_again(
                t,
                hidden::optional_list(t2, p2, d),
                list,
                p2 + kinds.len(),
            )
        }),
    decreases MAX_EXPR_DEPTH - d, 4int, 0nat,
{
    matching::lemma_stops();
    hidden::lemma_optional_list(t, p, d);
    hidden::lemma_optional_list(t2, p2, d);
    if rules::kind(t, p) == KindView::RParen {
        shape::lemma_exprs_empty();
        leaves::lemma_empty_lists(seq![]);
    } else {
        replay_list(t, p, d, t2, p2);
        let list = hidden::list(t, p, d)->Ok_0.0;
        let kinds = shape::commas(shape::exprs_kinds(list));
        if matching::at(t2, p2, kinds) {
            matching::lemma_at_head(t2, p2, kinds);
        }
    }
}

pub proof fn replay_list(t: Seq<TokenView>, p: int, d: nat, t2: Seq<TokenView>, p2: int)
    requires
        matching::ended(t),
        matching::sound(t),
        matching::ended(t2),
        0 <= p,
        hidden::list(t, p, d) is Ok,
    ensures
        ({
            let (list, q) = hidden::list(t, p, d)->Ok_0;
            let kinds = shape::commas(shape::exprs_kinds(list));
            &&& p < q
            &&& list.len() > 0
            &&& shape::exprs_hold(list)
            &&& kinds.len() > 0
            &&& matching::same_head(kinds[0], rules::kind(t, p))
            &&& matching::at(t2, p2, kinds)
                && ends_list(rules::kind(t2, p2 + kinds.len())) ==> list_again(
                t,
                hidden::list(t2, p2, d),
                list,
                p2 + kinds.len(),
            )
        }),
    decreases MAX_EXPR_DEPTH - d, 3int, 0nat,
{
    matching::lemma_stops();
    hidden::lemma_list(t, p, d);
    hidden::lemma_list(t2, p2, d);
    replay_expr::replay_expr(t, p, d, t2, p2);
    let (first, q) = rules::expr(t, p, d)->Ok_0;
    let first2 = rules::expr(t2, p2, d)->Ok_0.0;
    let none = Seq::<ExprView>::empty();
    let none2 = Seq::<ExprView>::empty();
    assert(none.push(first) =~= seq![first]);
    shape::lemma_exprs_empty();
    shape::lemma_exprs_push(none, first);
    shape::lemma_exprs_push(none2, first2);
    leaves::lemma_commas_push(shape::exprs_kinds(none), first.kinds());
    let q2: int = p2 + first.kinds().len();
    let suffix = replay_more(t, q, d, seq![first], t2, q2, seq![first2]);
    matching::split2(t2, p2, first.kinds(), suffix);
    let list = hidden::list(t, p, d)->Ok_0.0;
    let kinds = shape::commas(shape::exprs_kinds(list));
    assert(kinds[0] == first.kinds()[0]);
    if matching::at(t2, p2, kinds) {
        matching::lemma_at_head(t2, q2, suffix);
    }
}

#[verifier::rlimit(60)]
pub proof fn replay_more(
    t: Seq<TokenView>,
    p: int,
    d: nat,
    list: Seq<ExprView>,
    t2: Seq<TokenView>,
    p2: int,
    list2: Seq<ExprView>,
) -> (suffix: Seq<KindView>)
    requires
        matching::ended(t),
        matching::sound(t),
        matching::ended(t2),
        0 <= p,
        list.len() > 0,
        hidden::more(t, p, d, list) is Ok,
    ensures
        ({
            let (all, q) = hidden::more(t, p, d, list)->Ok_0;
            &&& p <= q
            &&& all.len() > 0
            &&& shape::commas(shape::exprs_kinds(all)) == shape::commas(shape::exprs_kinds(list))
                + suffix
            &&& shape::exprs_hold(list) ==> shape::exprs_hold(
                all)
            &&& suffix.len() > 0 ==> suffix[0] == KindView::Comma
            &&& shape::bare_exprs(list2)
                == shape::bare_exprs(list) && list2.len() == list.len() && matching::at(
                t2,
                p2,
                suffix,
            ) && ends_list(rules::kind(t2, p2 + suffix.len())) ==> list_again(
                t,
                hidden::more(t2, p2, d, list2),
                all,
                p2 + suffix.len(),
            )
        }),
    decreases MAX_EXPR_DEPTH - d, 2int, rules::left(t, p),
{
    matching::lemma_stops();
    hidden::lemma_more(t, p, d, list);
    hidden::lemma_more(t2, p2, d, list2);
    let all = hidden::more(t, p, d, list)->Ok_0.0;
    if rules::kind(t, p) == KindView::Comma {
        replay_expr::replay_expr(t, p + 1, d, t2, p2 + 1);
        let (e, q) = rules::expr(t, p + 1, d)->Ok_0;
        let e2 = rules::expr(t2, p2 + 1, d)->Ok_0.0;
        matching::lemma_progress(t, p, q);
        shape::lemma_exprs_len(list);
        shape::lemma_exprs_push(list, e);
        shape::lemma_exprs_push(list2, e2);
        leaves::lemma_commas_push(shape::exprs_kinds(list), e.kinds());
        let q2: int = p2 + 1 + e.kinds().len();
        let rest = replay_more(t, q, d, list.push(e), t2, q2, list2.push(e2));
        let suffix = seq![KindView::Comma] + e.kinds() + rest;
        matching::split3(t2, p2, seq![KindView::Comma], e.kinds(), rest);
        leaves::lemma_regroup(
            shape::commas(shape::exprs_kinds(list)),
            seq![KindView::Comma],
            e.kinds(),
            rest,
        );
        assert(shape::commas(shape::exprs_kinds(all)) == shape::commas(shape::exprs_kinds(list))
            + suffix);
        assert(suffix[0] == KindView::Comma);
        if matching::at(t2, p2, suffix) && shape::bare_exprs(list2) == shape::bare_exprs(list)
            && list2.len() == list.len()
            && ends_list(rules::kind(t2, p2 + suffix.len())) {
            assert(matching::at(t2, p2 + 1, e.kinds()));
            assert(matching::at(t2, q2, rest));
            matching::lemma_at_head(t2, q2, rest);
            assert(matching::ends_expr(rules::kind(t2, q2)));
            assert(replay_expr::again(t, rules::expr(t2, p2 + 1, d), e, q2));
            matching::lemma_progress(t2, p2, q2);
            if rules::expr(t2, p2 + 1, d) is Ok {
                assert(hidden::more(t2, p2, d, list2) == hidden::more(
                    t2,
                    q2,
                    d,
                    list2.push(e2),
                ));
            }
        }
        suffix
    } else {
        assert(shape::commas(shape::exprs_kinds(list)) =~= shape::commas(shape::exprs_kinds(list))
            + Seq::<KindView>::empty());
        seq![]
    }
}

/// Whether what was read is the optional expression `a`, its places aside, up to `e`.
pub open spec fn optional_again(
    src: Seq<TokenView>,
    r: Parsed<Option<ExprView>>,
    a: Option<ExprView>,
    e: int,
) -> bool {
    match r {
        Ok((b, q)) => shape::bare_optional(b) == shape::bare_optional(a) && q == e,
        Err(f) => matching::refused(src, f),
    }
}

pub proof fn replay_optional(
    t: Seq<TokenView>,
    p: int,
    d: nat,
    word: Keyword,
    t2: Seq<TokenView>,
    p2: int,
)
    requires
        matching::ended(t),
        matching::sound(t),
        matching::ended(t2),
        0 <= p,
        hidden::optional(t, p, d, word) is Ok,
    ensures
        ({
            let (e, q) = hidden::optional(t, p, d, word)->Ok_0;
            let kinds = shape::optional_kinds(word, e);
            let end = rules::kind(t2, p2 + kinds.len());
            &&& p <= q
            &&& shape::optional_holds(e)
            &&& e is Some ==> p < q
            &&& kinds.len() > 0 ==> matching::is_kw(kinds[0], word)
            &&& matching::at(t2, p2, kinds)
                && matching::ends_expr(end) && !matching::is_kw(end, word) ==> optional_again(
                t,
                hidden::optional(t2, p2, d, word),
                e,
                p2 + kinds.len(),
            )
        }),
    decreases MAX_EXPR_DEPTH - d, 2int, 0nat,
{
    let e = hidden::optional(t, p, d, word)->Ok_0.0;
    hidden::lemma_optional(t, p, d, word);
    hidden::lemma_optional(t2, p2, d, word);
    if rules::at_kw(t, p, word) {
        replay_expr::replay_expr(t, p + 1, d, t2, p2 + 1);
        shape::lemma_optional(word, e->0);
        matching::split2(t2, p2, shape::kw(word), e->0.kinds());
        shape::lemma_optional(word, rules::expr(t2, p2 + 1, d)->Ok_0.0);
        assert(shape::optional_kinds(word, e)[0] == KindView::Keyword(word));
    } else {
        shape::lemma_optional(word, arbitrary());
    }
}

} // verus!
