//! The rules of `SELECT` under names that do not unfold, with what each makes of one
//! case.
use crate::parser::ast::{
    CompoundOp, CompoundSelectView, ExprView, FromClauseView, JoinConstraintView, JoinOp, JoinView,
    LimitView, OrderingTermView, ResultColumnView, SelectView, TableRefKindView, TableRefView,
};
use crate::parser::round_trip::hidden;
use crate::parser::rules;
use crate::parser::rules::{CoreView, FailView, Parsed};
use crate::parser::tokenizer::{Keyword, KindView, Span, TokenView};
use vstd::prelude::*;

verus! {

pub closed spec fn column(t: Seq<TokenView>, p: int, d: nat) -> Parsed<ResultColumnView> {
    rules::result_column(t, p, d)
}

pub closed spec fn term(t: Seq<TokenView>, p: int, d: nat) -> Parsed<OrderingTermView> {
    rules::ordering_term(t, p, d)
}

pub closed spec fn table(t: Seq<TokenView>, p: int) -> Parsed<TableRefView> {
    rules::table_ref(t, p)
}

pub closed spec fn join(t: Seq<TokenView>, p: int, d: nat) -> Parsed<Option<JoinView>> {
    rules::one_join(t, p, d)
}

pub closed spec fn joins(t: Seq<TokenView>, p: int, d: nat, list: Seq<JoinView>) -> Parsed<
    Seq<JoinView>,
> {
    rules::more_joins(t, p, d, list)
}

pub closed spec fn from(t: Seq<TokenView>, p: int, d: nat) -> Parsed<Option<FromClauseView>> {
    rules::opt_from(t, p, d)
}

pub closed spec fn group(t: Seq<TokenView>, p: int, d: nat) -> Parsed<
    (Seq<ExprView>, Option<ExprView>),
> {
    rules::opt_group(t, p, d)
}

pub closed spec fn select_core(t: Seq<TokenView>, p: int, d: nat) -> Parsed<CoreView> {
    rules::select_core(t, p, d)
}

pub closed spec fn arms(
    t: Seq<TokenView>,
    p: int,
    d: nat,
    list: Seq<CompoundSelectView>,
) -> Parsed<Seq<CompoundSelectView>> {
    rules::more_arms(t, p, d, list)
}

pub closed spec fn order(t: Seq<TokenView>, p: int, d: nat) -> Parsed<Seq<OrderingTermView>> {
    rules::opt_order(t, p, d)
}

pub closed spec fn limit(t: Seq<TokenView>, p: int, d: nat) -> Parsed<Option<LimitView>> {
    rules::opt_limit(t, p, d)
}

/// A result column that begins with a name, a dot and a star.
pub open spec fn at_table_star(t: Seq<TokenView>, p: int) -> bool {
    rules::kind(t, p) is Identifier && rules::kind(t, p + 1) == KindView::Dot && rules::kind(
        t,
        p + 2,
    ) == KindView::Star
}

pub proof fn lemma_column(t: Seq<TokenView>, p: int, d: nat)
    ensures
        ({
            let e = rules::expr(t, p, d);
            let alias = rules::opt_alias(t, e->Ok_0.1);
            let r = column(t, p, d);
            let plain = rules::kind(t, p) != KindView::Star && !at_table_star(t, p);
            &&& rules::kind(t, p) == KindView::Star ==> r == Ok::<(ResultColumnView, int),
                FailView>(
                (ResultColumnView::Star, p + 1),
            )
            &&& at_table_star(t, p) ==> r == Ok::<(ResultColumnView, int), FailView>(
                (ResultColumnView::TableStar { table: rules::kind(t, p)->Identifier_0 }, p + 3),
            )
            &&& plain ==> (r is Ok <==> e is Ok && alias is Ok)
            &&& plain && r is Ok ==> r->Ok_0 == (
                ResultColumnView::Expr { expr: e->Ok_0.0, alias: alias->Ok_0.0 },
                alias->Ok_0.1,
            )
            &&& plain && e is Err ==> r is Err && r->Err_0 == e->Err_0
        }),
{
}

pub proof fn lemma_term(t: Seq<TokenView>, p: int, d: nat)
    ensures
        ({
            let e = rules::expr(t, p, d);
            let (desc, q) = rules::direction(t, e->Ok_0.1);
            let nulls = rules::opt_nulls(t, q);
            let r = term(t, p, d);
            &&& r is Ok <==> e is Ok && nulls is Ok
            &&& r is Ok ==> r->Ok_0 == (
                OrderingTermView { expr: e->Ok_0.0, desc, nulls_last: nulls->Ok_0.0 },
                nulls->Ok_0.1,
            )
            &&& e is Err ==> r is Err && r->Err_0 == e->Err_0
        }),
{
}

/// What may not stand behind a table and its alias.
pub open spec fn bars_table(t: Seq<TokenView>, p: int) -> bool {
    rules::at_kw(t, p, Keyword::INDEXED) || (rules::at_kw(t, p, Keyword::NOT) && rules::at_kw(
        t,
        p + 1,
        Keyword::INDEXED,
    )) || rules::kind(t, p) == KindView::LParen
}

pub proof fn lemma_table(t: Seq<TokenView>, p: int)
    ensures
        ({
            let alias = rules::opt_alias(t, p + 1);
            let r = table(t, p);
            &&& r is Ok <==> rules::kind(t, p) is Identifier && rules::kind(t, p + 1)
                != KindView::Dot && alias is Ok && !bars_table(t, alias->Ok_0.1)
            &&& r is Ok ==> r->Ok_0.1 == alias->Ok_0.1 && r->Ok_0.0.alias == alias->Ok_0.0
                && r->Ok_0.0.kind == TableRefKindView::Name(rules::kind(t, p)->Identifier_0)
        }),
{
}

/// What no join begins with, and no table is followed by where joins may follow.
pub open spec fn bars_join(k: KindView) -> bool {
    k == KindView::Comma || k == KindView::Keyword(Keyword::NATURAL) || k == KindView::Keyword(
        Keyword::RIGHT,
    ) || k == KindView::Keyword(Keyword::FULL) || k == KindView::Keyword(Keyword::OUTER)
}

pub proof fn lemma_cross(t: Seq<TokenView>, p: int, d: nat)
    requires
        rules::at_kw(t, p, Keyword::CROSS),
    ensures
        ({
            let right = table(t, p + 2);
            let q = right->Ok_0.1;
            let r = join(t, p, d);
            &&& r is Ok <==> rules::at_kw(t, p + 1, Keyword::JOIN) && right is Ok && !rules::at_kw(
                t,
                q,
                Keyword::ON,
            ) && !rules::at_kw(t, q, Keyword::USING)
            &&& r is Ok ==> r->Ok_0 == (
                Some(
                    JoinView {
                        op: JoinOp::Cross,
                        table: right->Ok_0.0,
                        constraint: None,
                        natural: false,
                    },
                ),
                q,
            )
        }),
{
}

pub proof fn lemma_join(t: Seq<TokenView>, p: int, d: nat)
    requires
        !rules::at_kw(t, p, Keyword::CROSS),
    ensures
        ({
            let op = rules::join_op(t, p);
            let right = table(t, op->Ok_0.1);
            let q = right->Ok_0.1;
            let on = rules::expr(t, q + 1, d);
            let r = join(t, p, d);
            &&& r is Ok ==> !bars_join(rules::kind(t, p)) && op is Ok
            &&& !bars_join(rules::kind(t, p)) && op is Ok && op->Ok_0.0 is None ==> r == Ok::<
                (Option<JoinView>, int),
                FailView,
            >((None, op->Ok_0.1))
            &&& r is Ok && op->Ok_0.0 is Some ==> right is Ok && rules::at_kw(t, q, Keyword::ON)
                && on is Ok
            &&& !bars_join(rules::kind(t, p)) && op is Ok && op->Ok_0.0 is Some && right is Ok
                && rules::at_kw(t, q, Keyword::ON) && on is Err ==> r is Err && r->Err_0
                == on->Err_0
            &&& !bars_join(rules::kind(t, p)) && op is Ok && op->Ok_0.0 is Some && right is Ok
                && rules::at_kw(t, q, Keyword::ON) && on is Ok ==> r is Ok
            &&& r is Ok && op->Ok_0.0 is Some ==> r->Ok_0 == (
                Some(
                    JoinView {
                        op: op->Ok_0.0->0,
                        table: right->Ok_0.0,
                        constraint: Some(JoinConstraintView::On(on->Ok_0.0)),
                        natural: false,
                    },
                ),
                on->Ok_0.1,
            )
        }),
{
}

pub proof fn lemma_joins(t: Seq<TokenView>, p: int, d: nat, list: Seq<JoinView>)
    ensures
        ({
            let item = join(t, p, d);
            let r = joins(t, p, d, list);
            &&& r is Ok ==> item is Ok
            &&& item is Ok && item->Ok_0.0 is None ==> r == Ok::<(Seq<JoinView>, int), FailView>(
                (list, item->Ok_0.1),
            )
            &&& item is Ok && item->Ok_0.0 is Some && rules::left(t, item->Ok_0.1) < rules::left(
                t,
                p,
            ) ==> r == joins(t, item->Ok_0.1, d, list.push(item->Ok_0.0->0))
            &&& item is Err ==> r is Err && r->Err_0 == item->Err_0
        }),
{
}

pub proof fn lemma_from(t: Seq<TokenView>, p: int, d: nat)
    ensures
        ({
            let first = table(t, p + 1);
            let more = joins(t, first->Ok_0.1, d, seq![]);
            let r = from(t, p, d);
            let there = rules::at_kw(t, p, Keyword::FROM);
            &&& !there ==> r == Ok::<(Option<FromClauseView>, int), FailView>((None, p))
            &&& there ==> (r is Ok <==> first is Ok && more is Ok)
            &&& there && r is Ok ==> r->Ok_0 == (
                Some(FromClauseView { first: first->Ok_0.0, joins: more->Ok_0.0 }),
                more->Ok_0.1,
            )
            &&& there && first is Err ==> r is Err && r->Err_0 == first->Err_0
            &&& there && first is Ok && more is Err ==> r is Err && r->Err_0 == more->Err_0
        }),
{
}

pub proof fn lemma_group(t: Seq<TokenView>, p: int, d: nat)
    ensures
        ({
            let list = hidden::list(t, p + 2, d);
            let having = hidden::optional(t, list->Ok_0.1, d, Keyword::HAVING);
            let r = group(t, p, d);
            let there = rules::at_kw(t, p, Keyword::GROUP);
            &&& !there ==> (r is Ok <==> !rules::at_kw(t, p, Keyword::HAVING))
            &&& !there && r is Ok ==> r->Ok_0 == ((Seq::<ExprView>::empty(), None::<ExprView>), p)
            &&& there ==> (r is Ok <==> rules::at_kw(t, p + 1, Keyword::BY) && list is Ok
                && having is Ok)
            &&& there && r is Ok ==> r->Ok_0 == (
                (list->Ok_0.0, having->Ok_0.0),
                having->Ok_0.1,
            )
            &&& there && rules::at_kw(t, p + 1, Keyword::BY) && list is Err ==> r is Err
                && r->Err_0 == list->Err_0
            &&& there && rules::at_kw(t, p + 1, Keyword::BY) && list is Ok && having is Err ==>
                r is Err && r->Err_0 == having->Err_0
        }),
{
    hidden::lemma_is_list(t, p + 2, d);
    hidden::lemma_is_optional(
        t,
        hidden::list(t, p + 2, d)->Ok_0.1,
        d,
        Keyword::HAVING,
    );
}

pub proof fn lemma_core(t: Seq<TokenView>, p: int, d: nat)
    ensures
        ({
            let (distinct, p1) = rules::distinctness(t, p);
            let first = column(t, p1, d);
            let all = columns(t, first->Ok_0.1, d, seq![first->Ok_0.0]);
            let source = from(t, all->Ok_0.1, d);
            let condition = hidden::optional(t, source->Ok_0.1, d, Keyword::WHERE);
            let groups = group(t, condition->Ok_0.1, d);
            let r = select_core(t, p, d);
            &&& r is Ok <==> first is Ok && all is Ok && source is Ok && !rules::at_kw(
                t,
                source->Ok_0.1,
                Keyword::WINDOW,
            ) && condition is Ok && groups is Ok
            &&& r is Ok ==> r->Ok_0.1 == groups->Ok_0.1 && r->Ok_0.0 == (CoreView {
                distinct,
                columns: all->Ok_0.0,
                from: source->Ok_0.0,
                where_clause: condition->Ok_0.0,
                group_by: groups->Ok_0.0.0,
                having: groups->Ok_0.0.1,
            })
            &&& first is Err ==> r is Err && r->Err_0 == first->Err_0
            &&& first is Ok && all is Err ==> r is Err && r->Err_0 == all->Err_0
            &&& first is Ok && all is Ok && source is Err ==> r is Err && r->Err_0 == source->Err_0
            &&& first is Ok && all is Ok && source is Ok && !rules::at_kw(t, source->Ok_0.1,
                Keyword::WINDOW) && condition is Err ==> r is Err && r->Err_0 == condition->Err_0
            &&& first is Ok && all is Ok && source is Ok && !rules::at_kw(t, source->Ok_0.1,
                Keyword::WINDOW) && condition is Ok && groups is Err ==> r is Err && r->Err_0
                == groups->Err_0
        }),
{
    let (distinct, p1) = rules::distinctness(t, p);
    let first = column(t, p1, d);
    let all = columns(t, first->Ok_0.1, d, seq![first->Ok_0.0]);
    let source = from(t, all->Ok_0.1, d);
    hidden::lemma_is_optional(t, source->Ok_0.1, d, Keyword::WHERE);
}

/// An arm of a compound `SELECT`.
pub open spec fn arm_of(body: CoreView, span: Span) -> CompoundSelectView {
    CompoundSelectView {
        op: CompoundOp::UnionAll,
        distinct: body.distinct,
        columns: body.columns,
        from: body.from,
        where_clause: body.where_clause,
        group_by: body.group_by,
        having: body.having,
        span,
    }
}

pub proof fn lemma_arms(t: Seq<TokenView>, p: int, d: nat, list: Seq<CompoundSelectView>)
    ensures
        ({
            let inner = select_core(t, p + 3, d);
            let q = inner->Ok_0.1;
            let r = arms(t, p, d, list);
            let there = rules::at_kw(t, p, Keyword::UNION);
            let arm = arm_of(
                inner->Ok_0.0,
                rules::join_span(rules::span(t, p), rules::last_span(t, q)),
            );
            let good = rules::at_kw(t, p + 1, Keyword::ALL) && rules::at_kw(
                t,
                p + 2,
                Keyword::SELECT,
            ) && inner is Ok;
            &&& !there ==> (r is Ok <==> !rules::at_compound_op(t, p))
            &&& !there && r is Ok ==> r->Ok_0 == (list, p)
            &&& there && r is Ok ==> good
            &&& there && rules::at_kw(t, p + 1, Keyword::ALL) && rules::at_kw(
                t,
                p + 2,
                Keyword::SELECT,
            ) && inner is Err ==> r is Err && r->Err_0 == inner->Err_0
            &&& there && good && rules::left(t, q) < rules::left(t, p) ==> r == arms(
                t,
                q,
                d,
                list.push(arm),
            )
        }),
{
    let one = rules::compound_arm(t, p + 2, d, rules::span(t, p));
    let inner = select_core(t, p + 3, d);
    assert(one is Ok <==> rules::at_kw(t, p + 2, Keyword::SELECT) && inner is Ok);
}

pub proof fn lemma_order(t: Seq<TokenView>, p: int, d: nat)
    ensures
        ({
            let first = term(t, p + 2, d);
            let all = terms(t, first->Ok_0.1, d, seq![first->Ok_0.0]);
            let r = order(t, p, d);
            let there = rules::at_kw(t, p, Keyword::ORDER);
            &&& !there ==> r == Ok::<(Seq<OrderingTermView>, int), FailView>((seq![], p))
            &&& there ==> (r is Ok <==> rules::at_kw(t, p + 1, Keyword::BY) && first is Ok
                && all is Ok)
            &&& there && r is Ok ==> r == all
            &&& there && rules::at_kw(t, p + 1, Keyword::BY) && first is Err ==> r is Err
                && r->Err_0 == first->Err_0
            &&& there && rules::at_kw(t, p + 1, Keyword::BY) && first is Ok && all is Err ==>
                r is Err && r->Err_0 == all->Err_0
        }),
{
}

pub proof fn lemma_limit(t: Seq<TokenView>, p: int, d: nat)
    ensures
        ({
            let bound = rules::expr(t, p + 1, d);
            let q = bound->Ok_0.1;
            let more = rules::at_kw(t, q, Keyword::OFFSET) || rules::kind(t, q) == KindView::Comma;
            let offset = rules::expr(t, q + 1, d);
            let r = limit(t, p, d);
            let there = rules::at_kw(t, p, Keyword::LIMIT);
            &&& !there ==> r == Ok::<(Option<LimitView>, int), FailView>((None, p))
            &&& there ==> (r is Ok <==> bound is Ok && (more ==> offset is Ok))
            &&& there && bound is Ok && more && offset is Err ==> r is Err && r->Err_0
                == offset->Err_0
            &&& there && r is Ok && more ==> r->Ok_0 == (
                Some(LimitView { limit: bound->Ok_0.0, offset: Some(offset->Ok_0.0) }),
                offset->Ok_0.1,
            )
            &&& there && r is Ok && !more ==> r->Ok_0 == (
                Some(LimitView { limit: bound->Ok_0.0, offset: None }),
                q,
            )
            &&& there && bound is Err ==> r is Err && r->Err_0 == bound->Err_0
        }),
{
}

pub proof fn lemma_select(t: Seq<TokenView>, p: int, d: nat)
    ensures
        ({
            let inner = select_core(t, p + 1, d);
            let more = arms(t, inner->Ok_0.1, d, seq![]);
            let sorted = order(t, more->Ok_0.1, d);
            let bound = limit(t, sorted->Ok_0.1, d);
            let r = hidden::query(t, p, d);
            &&& r is Ok <==> rules::at_kw(t, p, Keyword::SELECT) && inner is Ok && more is Ok
                && sorted is Ok && bound is Ok
            &&& r is Ok ==> r->Ok_0.1 == bound->Ok_0.1 && r->Ok_0.0 == (SelectView {
                distinct: inner->Ok_0.0.distinct,
                columns: inner->Ok_0.0.columns,
                from: inner->Ok_0.0.from,
                where_clause: inner->Ok_0.0.where_clause,
                group_by: inner->Ok_0.0.group_by,
                having: inner->Ok_0.0.having,
                compound: more->Ok_0.0,
                order_by: sorted->Ok_0.0,
                limit: bound->Ok_0.0,
                span: rules::join_span(rules::span(t, p), rules::last_span(t, bound->Ok_0.1)),
            })
            &&& rules::at_kw(t, p, Keyword::SELECT) && inner is Err ==> r is Err && r->Err_0
                == inner->Err_0
            &&& rules::at_kw(t, p, Keyword::SELECT) && inner is Ok && more is Err ==> r is Err
                && r->Err_0 == more->Err_0
            &&& rules::at_kw(t, p, Keyword::SELECT) && inner is Ok && more is Ok && sorted is Err
                ==> r is Err && r->Err_0 == sorted->Err_0
            &&& rules::at_kw(t, p, Keyword::SELECT) && inner is Ok && more is Ok && sorted is Ok
                && bound is Err ==> r is Err && r->Err_0 == bound->Err_0
        }),
{
    hidden::lemma_query(t, p, d);
}

pub closed spec fn columns(t: Seq<TokenView>, p: int, d: nat, list: Seq<ResultColumnView>)
    -> Parsed<
    Seq<ResultColumnView>,
> {
    rules::more_columns(t, p, d, list)
}

pub proof fn lemma_columns(t: Seq<TokenView>, p: int, d: nat, list: Seq<ResultColumnView>)
    ensures
        ({
            let item = column(t, p + 1, d);
            let more = rules::kind(t, p) == KindView::Comma;
            let r = columns(t, p, d, list);
            &&& !more ==> r == Ok::<(Seq<ResultColumnView>, int), FailView>((list, p))
            &&& more && r is Ok ==> item is Ok
            &&& more && item is Ok && rules::left(t, item->Ok_0.1) < rules::left(t, p) ==> r
                == columns(t, item->Ok_0.1, d, list.push(item->Ok_0.0))
            &&& more && item is Err ==> r is Err && r->Err_0 == item->Err_0
        }),
{
}

pub closed spec fn terms(t: Seq<TokenView>, p: int, d: nat, list: Seq<OrderingTermView>) -> Parsed<
    Seq<OrderingTermView>,
> {
    rules::more_terms(t, p, d, list)
}

pub proof fn lemma_terms(t: Seq<TokenView>, p: int, d: nat, list: Seq<OrderingTermView>)
    ensures
        ({
            let item = term(t, p + 1, d);
            let more = rules::kind(t, p) == KindView::Comma;
            let r = terms(t, p, d, list);
            &&& !more ==> r == Ok::<(Seq<OrderingTermView>, int), FailView>((list, p))
            &&& more && r is Ok ==> item is Ok
            &&& more && item is Ok && rules::left(t, item->Ok_0.1) < rules::left(t, p) ==> r
                == terms(t, item->Ok_0.1, d, list.push(item->Ok_0.0))
            &&& more && item is Err ==> r is Err && r->Err_0 == item->Err_0
        }),
{
}

} // verus!
