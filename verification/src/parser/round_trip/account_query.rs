//! A `SELECT` that was read has the letters of its tokens.
use crate::parser::ast::{
    CompoundSelectView, JoinView, OrderingTermView, ResultColumnView,
};
use crate::parser::round_trip::account;
use crate::parser::round_trip::account::{before, kept, load};
use crate::parser::round_trip::account_expr;
use crate::parser::round_trip::account_expr::counts;
use crate::parser::round_trip::hidden;
use crate::parser::round_trip::hidden_query;
use crate::parser::round_trip::leaves;
use crate::parser::round_trip::matching;
use crate::parser::round_trip::shape;
use crate::parser::rules;
use crate::parser::rules::MAX_EXPR_DEPTH;
use crate::parser::tokenizer::{Keyword, KindView, TokenView};
use vstd::prelude::*;

verus! {

broadcast use {account::load_sum, account::load_one, account::load_none};

pub proof fn count_select(t: Seq<TokenView>, p: int, d: nat, c: char)
    requires
        counts(t, p, c),
        hidden::query(t, p, d) is Ok,
    ensures
        ({
            let (a, q) = hidden::query(t, p, d)->Ok_0;
            p < q && kept(t, p, q, a.kinds(), c)
        }),
    decreases MAX_EXPR_DEPTH - d, 14int, 0nat,
{
    hidden_query::lemma_select(t, p, d);
    let a = hidden::query(t, p, d)->Ok_0.0;
    account::one(t, p, c);
    count_core(t, p + 1, d, c);
    let (body, q) = hidden_query::select_core(t, p + 1, d)->Ok_0;
    count_arms(t, q, d, seq![], c);
    shape::lemma_arms_empty();
    leaves::lemma_empty_lists(seq![]);
    let (arms, r) = hidden_query::arms(t, q, d, seq![])->Ok_0;
    count_order(t, r, d, c);
    let (terms, s) = hidden_query::order(t, r, d)->Ok_0;
    count_limit(t, s, d, c);
    shape::shape_of_core(body);
    shape::shape_of_select(a);
}

proof fn count_core(t: Seq<TokenView>, p: int, d: nat, c: char)
    requires
        counts(t, p, c),
        hidden_query::select_core(t, p, d) is Ok,
    ensures
        ({
            let (a, q) = hidden_query::select_core(t, p, d)->Ok_0;
            p < q && kept(t, p, q, a.kinds(), c)
        }),
    decreases MAX_EXPR_DEPTH - d, 6int, 0nat,
{
    hidden_query::lemma_core(t, p, d);
    let a = hidden_query::select_core(t, p, d)->Ok_0.0;
    let (distinct, p1) = rules::distinctness(t, p);
    account::one(t, p, c);
    count_column(t, p1, d, c);
    let (first, p2) = hidden_query::column(t, p1, d)->Ok_0;
    let none = Seq::<ResultColumnView>::empty();
    assert(none.push(first) =~= seq![first]);
    shape::lemma_columns_empty();
    shape::lemma_columns_push(none, first);
    leaves::lemma_commas_push(shape::columns_kinds(none), first.kinds());
    count_columns(t, p2, d, seq![first], c);
    let (all, p3) = hidden_query::columns(t, p2, d, seq![first])->Ok_0;
    count_from(t, p3, d, c);
    let (source, p4) = hidden_query::from(t, p3, d)->Ok_0;
    account_expr::count_optional(t, p4, d, Keyword::WHERE, c);
    let (condition, p5) = hidden::optional(t, p4, d, Keyword::WHERE)->Ok_0;
    count_group(t, p5, d, c);
    shape::shape_of_core(a);
}

proof fn count_alias(t: Seq<TokenView>, p: int, c: char)
    requires
        counts(t, p, c),
        rules::opt_alias(t, p) is Ok,
    ensures
        ({
            let (alias, q) = rules::opt_alias(t, p)->Ok_0;
            kept(t, p, q, shape::alias_kinds(alias), c)
        }),
{
    account::one(t, p, c);
    account::one(t, p + 1, c);
    account::lemma_weights(c);
}

proof fn count_column(t: Seq<TokenView>, p: int, d: nat, c: char)
    requires
        counts(t, p, c),
        hidden_query::column(t, p, d) is Ok,
    ensures
        ({
            let (a, q) = hidden_query::column(t, p, d)->Ok_0;
            p < q && kept(t, p, q, a.kinds(), c)
        }),
    decreases MAX_EXPR_DEPTH - d, 2int, 0nat,
{
    hidden_query::lemma_column(t, p, d);
    let a = hidden_query::column(t, p, d)->Ok_0.0;
    shape::shape_of_result_column(a);
    account::one(t, p, c);
    account::one(t, p + 1, c);
    account::one(t, p + 2, c);
    assert(seq![KindView::Dot, KindView::Star] =~= seq![KindView::Dot] + seq![KindView::Star]);
    if rules::kind(t, p) != KindView::Star && !hidden_query::at_table_star(t, p) {
        account_expr::count_expr(t, p, d, c);
        let q = rules::expr(t, p, d)->Ok_0.1;
        count_alias(t, q, c);
    }
}

proof fn count_columns(t: Seq<TokenView>, p: int, d: nat, list: Seq<ResultColumnView>, c: char)
    requires
        counts(t, p, c),
        list.len() > 0,
        hidden_query::columns(t, p, d, list) is Ok,
    ensures
        ({
            let (all, q) = hidden_query::columns(t, p, d, list)->Ok_0;
            &&& p <= q
            &&& before(t, q, c) + load(shape::commas(shape::columns_kinds(list)), c) == before(
                t,
                p,
                c,
            ) + load(shape::commas(shape::columns_kinds(all)), c)
        }),
    decreases MAX_EXPR_DEPTH - d, 3int, rules::left(t, p),
{
    hidden_query::lemma_columns(t, p, d, list);
    if rules::kind(t, p) == KindView::Comma {
        account::one(t, p, c);
        count_column(t, p + 1, d, c);
        let (item, q) = hidden_query::column(t, p + 1, d)->Ok_0;
        matching::lemma_progress(t, p, q);
        shape::lemma_columns_len(list);
        shape::lemma_columns_push(list, item);
        leaves::lemma_commas_push(shape::columns_kinds(list), item.kinds());
        count_columns(t, q, d, list.push(item), c);
    }
}

proof fn count_table(t: Seq<TokenView>, p: int, c: char)
    requires
        counts(t, p, c),
        hidden_query::table(t, p) is Ok,
    ensures
        ({
            let (a, q) = hidden_query::table(t, p)->Ok_0;
            p < q && kept(t, p, q, a.kinds(), c)
        }),
{
    hidden_query::lemma_table(t, p);
    let a = hidden_query::table(t, p)->Ok_0.0;
    account::one(t, p, c);
    count_alias(t, p + 1, c);
    shape::shape_of_table_ref(a);
}

proof fn count_join_op(t: Seq<TokenView>, p: int, c: char)
    requires
        counts(t, p, c),
        rules::join_op(t, p) is Ok,
    ensures
        ({
            let (op, q) = rules::join_op(t, p)->Ok_0;
            match op {
                Some(op) => p < q && kept(t, p, q, shape::join_op_kinds(op), c) && rules::kind(t, p)
                    != KindView::Eof,
                None => q == p,
            }
        }),
{
    account::one(t, p, c);
    account::one(t, p + 1, c);
    account::one(t, p + 2, c);
    account::lemma_weights(c);
}

proof fn count_join(t: Seq<TokenView>, p: int, d: nat, c: char)
    requires
        counts(t, p, c),
        hidden_query::join(t, p, d) is Ok,
    ensures
        ({
            let (a, q) = hidden_query::join(t, p, d)->Ok_0;
            match a {
                Some(a) => p < q && kept(t, p, q, a.kinds(), c) && rules::kind(t, p)
                    != KindView::Eof,
                None => q == p,
            }
        }),
    decreases MAX_EXPR_DEPTH - d, 2int, 0nat,
{
    let a = hidden_query::join(t, p, d)->Ok_0.0;
    account::one(t, p, c);
    account::one(t, p + 1, c);
    if rules::at_kw(t, p, Keyword::CROSS) {
        hidden_query::lemma_cross(t, p, d);
        count_table(t, p + 2, c);
        shape::shape_of_join(a->0);
    } else {
        hidden_query::lemma_join(t, p, d);
        count_join_op(t, p, c);
        let (op, r) = rules::join_op(t, p)->Ok_0;
        if op is Some {
            count_table(t, r, c);
            let q = hidden_query::table(t, r)->Ok_0.1;
            account::one(t, q, c);
            account_expr::count_expr(t, q + 1, d, c);
            shape::shape_of_join(a->0);
        }
    }
}

proof fn count_joins(t: Seq<TokenView>, p: int, d: nat, list: Seq<JoinView>, c: char)
    requires
        counts(t, p, c),
        hidden_query::joins(t, p, d, list) is Ok,
    ensures
        ({
            let (all, q) = hidden_query::joins(t, p, d, list)->Ok_0;
            &&& p <= q
            &&& before(t, q, c) + load(shape::each_after(seq![], shape::joins_kinds(list)), c)
                == before(t, p, c) + load(shape::each_after(seq![], shape::joins_kinds(all)), c)
        }),
    decreases MAX_EXPR_DEPTH - d, 3int, rules::left(t, p),
{
    hidden_query::lemma_joins(t, p, d, list);
    count_join(t, p, d, c);
    let (item, q) = hidden_query::join(t, p, d)->Ok_0;
    if item is Some {
        matching::lemma_progress(t, p, q);
        shape::lemma_joins_push(list, item->0);
        leaves::lemma_each_push(seq![], shape::joins_kinds(list), item->0.kinds());
        count_joins(t, q, d, list.push(item->0), c);
    }
}

proof fn count_from(t: Seq<TokenView>, p: int, d: nat, c: char)
    requires
        counts(t, p, c),
        hidden_query::from(t, p, d) is Ok,
    ensures
        ({
            let (a, q) = hidden_query::from(t, p, d)->Ok_0;
            kept(t, p, q, shape::from_kinds(a), c)
        }),
    decreases MAX_EXPR_DEPTH - d, 5int, 0nat,
{
    hidden_query::lemma_from(t, p, d);
    let a = hidden_query::from(t, p, d)->Ok_0.0;
    account::one(t, p, c);
    if rules::at_kw(t, p, Keyword::FROM) {
        count_table(t, p + 1, c);
        let q = hidden_query::table(t, p + 1)->Ok_0.1;
        count_joins(t, q, d, seq![], c);
        shape::lemma_joins_empty();
        leaves::lemma_empty_lists(seq![]);
        shape::lemma_from(a->0);
        shape::shape_of_from_clause(a->0);
    } else {
        shape::lemma_from(arbitrary());
    }
}

proof fn count_group(t: Seq<TokenView>, p: int, d: nat, c: char)
    requires
        counts(t, p, c),
        hidden_query::group(t, p, d) is Ok,
    ensures
        ({
            let ((by, having), q) = hidden_query::group(t, p, d)->Ok_0;
            kept(
                t,
                p,
                q,
                shape::clause_kinds(
                    shape::kw(Keyword::GROUP) + shape::kw(Keyword::BY),
                    shape::exprs_kinds(by),
                ) + shape::optional_kinds(Keyword::HAVING, having),
                c,
            )
        }),
    decreases MAX_EXPR_DEPTH - d, 5int, 0nat,
{
    hidden_query::lemma_group(t, p, d);
    let ((by, having), q) = hidden_query::group(t, p, d)->Ok_0;
    shape::lemma_exprs_len(by);
    shape::lemma_optional(Keyword::HAVING, having->0);
    if rules::at_kw(t, p, Keyword::GROUP) {
        account::one(t, p, c);
        account::one(t, p + 1, c);
        account_expr::count_list(t, p + 2, d, c);
        let r = hidden::list(t, p + 2, d)->Ok_0.1;
        account_expr::count_optional(t, r, d, Keyword::HAVING, c);
    }
}

proof fn count_arms(t: Seq<TokenView>, p: int, d: nat, list: Seq<CompoundSelectView>, c: char)
    requires
        counts(t, p, c),
        hidden_query::arms(t, p, d, list) is Ok,
    ensures
        ({
            let (all, q) = hidden_query::arms(t, p, d, list)->Ok_0;
            &&& p <= q
            &&& before(t, q, c) + load(shape::each_after(seq![], shape::arms_kinds(list)), c)
                == before(t, p, c) + load(shape::each_after(seq![], shape::arms_kinds(all)), c)
        }),
    decreases MAX_EXPR_DEPTH - d, 8int, rules::left(t, p),
{
    hidden_query::lemma_arms(t, p, d, list);
    if rules::at_kw(t, p, Keyword::UNION) {
        account::one(t, p, c);
        account::one(t, p + 1, c);
        account::one(t, p + 2, c);
        count_core(t, p + 3, d, c);
        let (body, q) = hidden_query::select_core(t, p + 3, d)->Ok_0;
        matching::lemma_progress(t, p, q);
        let arm = hidden_query::arm_of(
            body,
            rules::join_span(rules::span(t, p), rules::last_span(t, q)),
        );
        shape::shape_of_core(body);
        shape::shape_of_compound_select(arm);
        shape::lemma_arms_push(list, arm);
        leaves::lemma_each_push(seq![], shape::arms_kinds(list), arm.kinds());
        count_arms(t, q, d, list.push(arm), c);
    }
}

proof fn count_nulls(t: Seq<TokenView>, p: int, c: char)
    requires
        counts(t, p, c),
        rules::opt_nulls(t, p) is Ok,
    ensures
        ({
            let (nulls, q) = rules::opt_nulls(t, p)->Ok_0;
            kept(t, p, q, shape::nulls_kinds(nulls), c)
        }),
{
    account::one(t, p, c);
    account::one(t, p + 1, c);
}

proof fn count_term(t: Seq<TokenView>, p: int, d: nat, c: char)
    requires
        counts(t, p, c),
        hidden_query::term(t, p, d) is Ok,
    ensures
        ({
            let (a, q) = hidden_query::term(t, p, d)->Ok_0;
            p < q && kept(t, p, q, a.kinds(), c)
        }),
    decreases MAX_EXPR_DEPTH - d, 2int, 0nat,
{
    hidden_query::lemma_term(t, p, d);
    let a = hidden_query::term(t, p, d)->Ok_0.0;
    account_expr::count_expr(t, p, d, c);
    let q = rules::expr(t, p, d)->Ok_0.1;
    account::one(t, q, c);
    count_nulls(t, rules::direction(t, q).1, c);
    shape::shape_of_ordering_term(a);
}

proof fn count_terms(t: Seq<TokenView>, p: int, d: nat, list: Seq<OrderingTermView>, c: char)
    requires
        counts(t, p, c),
        list.len() > 0,
        hidden_query::terms(t, p, d, list) is Ok,
    ensures
        ({
            let (all, q) = hidden_query::terms(t, p, d, list)->Ok_0;
            &&& p <= q
            &&& all.len() > 0
            &&& before(t, q, c) + load(shape::commas(shape::terms_kinds(list)), c) == before(
                t,
                p,
                c,
            ) + load(shape::commas(shape::terms_kinds(all)), c)
        }),
    decreases MAX_EXPR_DEPTH - d, 3int, rules::left(t, p),
{
    hidden_query::lemma_terms(t, p, d, list);
    if rules::kind(t, p) == KindView::Comma {
        account::one(t, p, c);
        count_term(t, p + 1, d, c);
        let (item, q) = hidden_query::term(t, p + 1, d)->Ok_0;
        matching::lemma_progress(t, p, q);
        shape::lemma_terms_len(list);
        shape::lemma_terms_push(list, item);
        leaves::lemma_commas_push(shape::terms_kinds(list), item.kinds());
        count_terms(t, q, d, list.push(item), c);
    }
}

proof fn count_order(t: Seq<TokenView>, p: int, d: nat, c: char)
    requires
        counts(t, p, c),
        hidden_query::order(t, p, d) is Ok,
    ensures
        ({
            let (terms, q) = hidden_query::order(t, p, d)->Ok_0;
            kept(
                t,
                p,
                q,
                shape::clause_kinds(
                    shape::kw(Keyword::ORDER) + shape::kw(Keyword::BY),
                    shape::terms_kinds(terms),
                ),
                c,
            )
        }),
    decreases MAX_EXPR_DEPTH - d, 4int, 0nat,
{
    hidden_query::lemma_order(t, p, d);
    let (terms, q) = hidden_query::order(t, p, d)->Ok_0;
    shape::lemma_terms_len(terms);
    if rules::at_kw(t, p, Keyword::ORDER) {
        account::one(t, p, c);
        account::one(t, p + 1, c);
        count_term(t, p + 2, d, c);
        let (first, r) = hidden_query::term(t, p + 2, d)->Ok_0;
        let none = Seq::<OrderingTermView>::empty();
        assert(none.push(first) =~= seq![first]);
        shape::lemma_terms_empty();
        shape::lemma_terms_push(none, first);
        leaves::lemma_commas_push(shape::terms_kinds(none), first.kinds());
        count_terms(t, r, d, seq![first], c);
    }
}

proof fn count_limit(t: Seq<TokenView>, p: int, d: nat, c: char)
    requires
        counts(t, p, c),
        hidden_query::limit(t, p, d) is Ok,
    ensures
        ({
            let (a, q) = hidden_query::limit(t, p, d)->Ok_0;
            kept(
                t,
                p,
                q,
                match a {
                    Some(l) => l.kinds(),
                    None => seq![],
                },
                c,
            )
        }),
    decreases MAX_EXPR_DEPTH - d, 4int, 0nat,
{
    hidden_query::lemma_limit(t, p, d);
    let a = hidden_query::limit(t, p, d)->Ok_0.0;
    account::lemma_weights(c);
    if rules::at_kw(t, p, Keyword::LIMIT) {
        account::one(t, p, c);
        account_expr::count_expr(t, p + 1, d, c);
        let q = rules::expr(t, p + 1, d)->Ok_0.1;
        shape::shape_of_limit(a->0);
        shape::lemma_optional(Keyword::OFFSET, a->0.offset->0);
        if rules::at_kw(t, q, Keyword::OFFSET) || rules::kind(t, q) == KindView::Comma {
            account::one(t, q, c);
            account_expr::count_expr(t, q + 1, d, c);
        }
    }
}

} // verus!
