//! A `SELECT` that was read is, printed, read again.
use crate::parser::ast::{
    CompoundSelectView, ExprView, FromClauseView, JoinConstraintView, JoinOp, JoinView, LimitView,
    OrderingTermView, ResultColumnView, SelectView, TableRefView,
};
use crate::parser::round_trip::hidden;
use crate::parser::round_trip::hidden_query;
use crate::parser::round_trip::leaves;
use crate::parser::round_trip::matching;
use crate::parser::round_trip::replay_expr;
use crate::parser::round_trip::replay_list;
use crate::parser::round_trip::shape;
use crate::parser::rules;
use crate::parser::rules::{CoreView, Parsed, MAX_EXPR_DEPTH};
use crate::parser::tokenizer::{Keyword, KindView, TokenView};
use vstd::prelude::*;

verus! {

broadcast use matching::at_one;

// ---- result columns -------------------------------------------------------------

/// What ends a result column.
proof fn lemma_column_ends(k: KindView)
    requires
        matching::ends_column(k),
    ensures
        matching::ends_expr(k),
        !matching::is_kw(k, Keyword::AS),
        !(k is Identifier),
        k != KindView::Dot,
        !matching::is_kw(k, Keyword::WINDOW),
{
    matching::lemma_stops();
}

/// An optional alias, printed, is read again.
proof fn alias_again(t: Seq<TokenView>, p: int, alias: Option<Seq<char>>)
    requires
        matching::at(t, p, shape::alias_kinds(alias)),
        alias is None ==> !matching::is_kw(rules::kind(t, p), Keyword::AS) && !(rules::kind(
            t,
            p,
        ) is Identifier),
    ensures
        rules::opt_alias(t, p) == Ok::<(Option<Seq<char>>, int), rules::FailView>(
            (alias, p + shape::alias_kinds(alias).len()),
        ),
        alias is Some ==> rules::at_kw(t, p, Keyword::AS),
{
    match alias {
        Some(name) => {
            matching::split2(t, p, shape::kw(Keyword::AS), shape::name_kinds(name));
        },
        None => {},
    }
}

pub proof fn replay_result(t: Seq<TokenView>, p: int, d: nat, t2: Seq<TokenView>, p2: int)
    requires
        matching::ended(t),
        matching::sound(t),
        matching::ended(t2),
        0 <= p,
        hidden_query::column(t, p, d) is Ok,
    ensures
        ({
            let (x, q) = hidden_query::column(t, p, d)->Ok_0;
            &&& p < q
            &&& x.holds()
            &&& x.kinds().len() > 0
            &&& matching::same_head(x.kinds()[0], rules::kind(t, p))
            &&& columns_item_replays(t, x, t2, p2, d)
        }),
    decreases MAX_EXPR_DEPTH - d, 2int, 0nat,
{
    let x = hidden_query::column(t, p, d)->Ok_0.0;
    hidden_query::lemma_column(t, p, d);
    shape::shape_of_result_column(x);
    match x {
        ResultColumnView::Star => {
            assert(x.kinds()[0] == KindView::Star);
            if matching::at(t2, p2, x.kinds()) {
                hidden_query::lemma_column(t2, p2, d);
            }
        },
        ResultColumnView::TableStar { table } => {
            assert(x.kinds()[0] == KindView::Identifier(table));
            assert(x.kinds() =~= shape::name_kinds(table) + seq![KindView::Dot]
                + seq![KindView::Star]);
            matching::split3(
                t2,
                p2,
                shape::name_kinds(table),
                seq![KindView::Dot],
                seq![KindView::Star],
            );
            if matching::at(t2, p2, x.kinds()) {
                hidden_query::lemma_column(t2, p2, d);
            }
        },
        ResultColumnView::Expr { expr, alias } => {
            replay_expr::replay_expr(t, p, d, t2, p2);
            assert(x.kinds()[0] == expr.kinds()[0]);
            if matching::at(t2, p2, x.kinds()) && matching::ends_column(
                rules::kind(t2, p2 + x.kinds().len()),
            ) {
                result_again(t, t2, p2, d, expr, alias);
                if hidden_query::column(t2, p2, d) is Ok {
                    shape::shape_of_result_column(hidden_query::column(t2, p2, d)->Ok_0.0);
                }
            }
        },
    }
}

/// A result column that is an expression, printed, is read again.
proof fn result_again(
    src: Seq<TokenView>,
    t: Seq<TokenView>,
    p: int,
    d: nat,
    e: ExprView,
    alias: Option<Seq<char>>,
)
    requires
        matching::ended(t),
        matching::at(t, p, e.kinds() + shape::alias_kinds(alias)),
        matching::ends_column(rules::kind(t, p + (e.kinds() + shape::alias_kinds(alias)).len())),
        e.kinds().len() > 0,
        e.kinds()[0] != KindView::Star,
        matching::dotted(e.kinds()),
        replay_expr::replays(
            src,
            e,
            t,
            p,
            matching::ends_expr(rules::kind(t, p + e.kinds().len())),
            rules::expr(t, p, d),
        ),
    ensures
        match rules::expr(t, p, d) {
            Ok((expr, _)) => hidden_query::column(t, p, d) == Ok::<
                (ResultColumnView, int),
                rules::FailView,
            >(
                (
                    ResultColumnView::Expr { expr, alias },
                    p + (e.kinds() + shape::alias_kinds(alias)).len(),
                ),
            ) && expr.bare() == e.bare(),
            Err(f) => hidden_query::column(t, p, d) == Err::<
                (ResultColumnView, int),
                rules::FailView,
            >(f) && matching::refused(src, f),
        },
{
    reveal(matching::dotted);
    let q: int = p + e.kinds().len();
    let last = shape::alias_kinds(alias);
    let end = rules::kind(t, p + (e.kinds() + last).len());
    lemma_column_ends(end);
    matching::lemma_stops();
    matching::split2(t, p, e.kinds(), last);
    matching::lemma_at_head(t, p, e.kinds());
    matching::lemma_at_three(t, p, e.kinds());
    alias_again(t, q, alias);
    hidden_query::lemma_column(t, p, d);
}

/// Whether what was read is the list `a`, its places aside, up to `e`.
pub open spec fn columns_again(src: Seq<TokenView>, r: Parsed<Seq<ResultColumnView>>,
    a: Seq<ResultColumnView>, e: int)
    -> bool {
    match r {
        Ok((b, q)) => shape::bare_columns(b) == shape::bare_columns(a) && b.len() == a.len() && q
            == e,
        Err(f) => matching::refused(src, f),
    }
}

pub proof fn replay_more_columns(
    t: Seq<TokenView>,
    p: int,
    d: nat,
    list: Seq<ResultColumnView>,
    t2: Seq<TokenView>,
    p2: int,
    list2: Seq<ResultColumnView>,
) -> (suffix: Seq<KindView>)
    requires
        matching::ended(t),
        matching::sound(t),
        matching::ended(t2),
        0 <= p,
        list.len() > 0,
        hidden_query::columns(t, p, d, list) is Ok,
    ensures
        ({
            let (all, q) = hidden_query::columns(t, p, d, list)->Ok_0;
            &&& p <= q
            &&& all.len() > 0
            &&& shape::commas(shape::columns_kinds(all))
                == shape::commas(shape::columns_kinds(list))
                + suffix
            &&& shape::columns_hold(list) ==> shape::columns_hold(all)
            &&& suffix.len() > 0 ==> suffix[0] == KindView::Comma
            &&& shape::bare_columns(list2)
                == shape::bare_columns(list) && list2.len() == list.len() && matching::at(
                t2,
                p2,
                suffix,
            ) && matching::ends_columns(rules::kind(t2, p2 + suffix.len())) ==> columns_again(
                t,
                hidden_query::columns(t2, p2, d, list2),
                all,
                p2 + suffix.len(),
            )
        }),
    decreases MAX_EXPR_DEPTH - d, 3int, rules::left(t, p),
{
    let all = hidden_query::columns(t, p, d, list)->Ok_0.0;
    hidden_query::lemma_columns(t, p, d, list);
    if rules::kind(t, p) == KindView::Comma {
        replay_result(t, p + 1, d, t2, p2 + 1);
        let (x, q) = hidden_query::column(t, p + 1, d)->Ok_0;
        let x2 = hidden_query::column(t2, p2 + 1, d)->Ok_0.0;
        matching::lemma_progress(t, p, q);
        shape::lemma_columns_len(list);
        shape::lemma_columns_push(list, x);
        shape::lemma_columns_push(list2, x2);
        leaves::lemma_commas_push(shape::columns_kinds(list), x.kinds());
        let q2: int = p2 + 1 + x.kinds().len();
        let rest = replay_more_columns(t, q, d, list.push(x), t2, q2, list2.push(x2));
        let suffix = seq![KindView::Comma] + x.kinds() + rest;
        leaves::lemma_regroup(
            shape::commas(shape::columns_kinds(list)),
            seq![KindView::Comma],
            x.kinds(),
            rest,
        );
        assert(suffix[0] == KindView::Comma);
        let end = rules::kind(t2, p2 + suffix.len());
        if matching::at(t2, p2, suffix) && matching::ends_columns(end) {
            columns_item_again(t, t2, p2, d, list2, x, rest);
        }
        suffix
    } else {
        hidden_query::lemma_columns(t2, p2, d, list2);
        leaves::lemma_nothing_more(shape::commas(shape::columns_kinds(list)));
        seq![]
    }
}

/// One item behind a comma, printed, is read again in front of the others.
proof fn columns_item_again(
    src: Seq<TokenView>,
    t: Seq<TokenView>,
    p: int,
    d: nat,
    list: Seq<ResultColumnView>,
    x: ResultColumnView,
    rest: Seq<KindView>,
)
    requires
        matching::ended(t),
        rest.len() > 0 ==> rest[0] == KindView::Comma,
        matching::at(t, p, seq![KindView::Comma] + x.kinds() + rest),
        matching::ends_columns(rules::kind(t, p + (seq![KindView::Comma] + x.kinds()
            + rest).len())),
        columns_item_replays(src, x, t, p + 1, d),
    ensures
        ({
            let q = p + 1 + x.kinds().len();
            let x2 = hidden_query::column(t, p + 1, d)->Ok_0.0;
            let good = hidden_query::column(t, p + 1, d) is Ok;
            &&& good ==> hidden_query::columns(t, p, d, list) == hidden_query::columns(t, q, d,
                list.push(x2))
            &&& good ==> x2.bare() == x.bare()
            &&& !good ==> hidden_query::columns(t, p, d, list) is Err && matching::refused(src,
                hidden_query::columns(t, p, d, list)->Err_0)
            &&& matching::at(t, q, rest)
            &&& q + rest.len() == p + (seq![KindView::Comma] + x.kinds() + rest).len()
        }),
{
    hidden_query::lemma_columns(t, p, d, list);
    let q: int = p + 1 + x.kinds().len();
    matching::split3(t, p, seq![KindView::Comma], x.kinds(), rest);
    matching::lemma_at_head(t, q, rest);
    matching::lemma_progress(t, p, q);
}

/// Whether the item `x`, printed at `p`, is read again.
pub open spec fn columns_item_replays(src: Seq<TokenView>, x: ResultColumnView, t: Seq<TokenView>,
    p: int, d: nat)
    -> bool {
    matching::at(t, p, x.kinds()) && matching::ends_column(rules::kind(t,
        p + x.kinds().len())) ==> match hidden_query::column(t, p, d) {
        Ok((y, q)) => y.bare() == x.bare() && q == p + x.kinds().len(),
        Err(f) => matching::refused(src, f),
    }
}

// ---- tables and joins -------------------------------------------------------------

/// Whether what was read is the table `a`, its places aside, up to `e`.
pub open spec fn table_again(r: Parsed<TableRefView>, a: TableRefView, e: int) -> bool {
    match r {
        Ok((b, q)) => b.bare() == a.bare() && q == e,
        Err(_) => false,
    }
}

/// What ends a table in `FROM`.
pub open spec fn ends_table(k: KindView) -> bool {
    matching::ends_join(k) || matching::is_kw(k, Keyword::ON)
}

proof fn replay_table(t: Seq<TokenView>, p: int, t2: Seq<TokenView>, p2: int)
    requires
        0 <= p,
        hidden_query::table(t, p) is Ok,
    ensures
        ({
            let (x, q) = hidden_query::table(t, p)->Ok_0;
            &&& p < q
            &&& x.holds()
            &&& matching::at(t2, p2, x.kinds()) && ends_table(
                rules::kind(t2, p2 + x.kinds().len()),
            ) ==> table_again(hidden_query::table(t2, p2), x, p2 + x.kinds().len())
        }),
{
    let x = hidden_query::table(t, p)->Ok_0.0;
    hidden_query::lemma_table(t, p);
    shape::shape_of_table_ref(x);
    let name = x.kind->Name_0;
    let last = shape::alias_kinds(x.alias);
    matching::split2(t2, p2, shape::name_kinds(name), last);
    if matching::at(t2, p2, x.kinds()) && ends_table(rules::kind(t2, p2 + x.kinds().len())) {
        alias_again(t2, p2 + 1, x.alias);
        hidden_query::lemma_table(t2, p2);
        if hidden_query::table(t2, p2) is Ok {
            shape::shape_of_table_ref(hidden_query::table(t2, p2)->Ok_0.0);
        }
    }
}

/// Whether what was read is the join `a`, its places aside, up to `e`.
pub open spec fn join_again(src: Seq<TokenView>, r: Parsed<Option<JoinView>>, a: JoinView, e: int)
    -> bool {
    match r {
        Ok((Some(b), q)) => b.bare() == a.bare() && q == e,
        Ok(_) => false,
        Err(f) => matching::refused(src, f),
    }
}

/// What a join begins with.
pub open spec fn is_join(k: KindView) -> bool {
    matching::is_kw(k, Keyword::JOIN) || matching::is_kw(k, Keyword::LEFT) || matching::is_kw(
        k,
        Keyword::CROSS,
    )
}

proof fn replay_join(t: Seq<TokenView>, p: int, d: nat, t2: Seq<TokenView>, p2: int)
    requires
        matching::ended(t),
        matching::sound(t),
        matching::ended(t2),
        0 <= p,
        hidden_query::join(t, p, d) is Ok,
        hidden_query::join(t, p, d)->Ok_0.0 is Some,
    ensures
        ({
            let (item, q) = hidden_query::join(t, p, d)->Ok_0;
            let x = item->0;
            &&& p < q
            &&& rules::kind(t, p) != KindView::Eof
            &&& x.holds()
            &&& x.kinds().len() > 0
            &&& is_join(x.kinds()[0])
            &&& matching::at(t2, p2, x.kinds()) && matching::ends_join(
                rules::kind(t2, p2 + x.kinds().len()),
            ) ==> join_again(t, hidden_query::join(t2, p2, d), x, p2 + x.kinds().len())
        }),
    decreases MAX_EXPR_DEPTH - d, 2int, 0nat,
{
    if rules::at_kw(t, p, Keyword::CROSS) {
        replay_cross(t, p, d, t2, p2);
    } else {
        replay_on(t, p, d, t2, p2);
    }
}

proof fn replay_cross(t: Seq<TokenView>, p: int, d: nat, t2: Seq<TokenView>, p2: int)
    requires
        matching::ended(t),
        matching::sound(t),
        matching::ended(t2),
        0 <= p,
        rules::at_kw(t, p, Keyword::CROSS),
        hidden_query::join(t, p, d) is Ok,
    ensures
        ({
            let (item, q) = hidden_query::join(t, p, d)->Ok_0;
            let x = item->0;
            &&& item is Some
            &&& p < q
            &&& x.holds()
            &&& x.kinds().len() > 0
            &&& is_join(x.kinds()[0])
            &&& matching::at(t2, p2, x.kinds()) && matching::ends_join(
                rules::kind(t2, p2 + x.kinds().len()),
            ) ==> join_again(t, hidden_query::join(t2, p2, d), x, p2 + x.kinds().len())
        }),
{
    hidden_query::lemma_cross(t, p, d);
    let x = hidden_query::join(t, p, d)->Ok_0.0->0;
    replay_table(t, p + 2, t2, p2 + 2);
    shape::shape_of_join(x);
    let k = x.table.kinds();
    leaves::lemma_nothing_more(
        shape::flag_kinds(false, Keyword::NATURAL) + shape::join_op_kinds(JoinOp::Cross) + k,
    );
    assert(x.kinds() =~= shape::kw(Keyword::CROSS) + shape::kw(Keyword::JOIN) + k);
    assert(x.kinds()[0] == KindView::Keyword(Keyword::CROSS));
    matching::split3(t2, p2, shape::kw(Keyword::CROSS), shape::kw(Keyword::JOIN), k);
    if matching::at(t2, p2, x.kinds()) {
        hidden_query::lemma_cross(t2, p2, d);
        shape::shape_of_join(hidden_query::join(t2, p2, d)->Ok_0.0->0);
    }
}

#[verifier::rlimit(60)]
proof fn replay_on(t: Seq<TokenView>, p: int, d: nat, t2: Seq<TokenView>, p2: int)
    requires
        matching::ended(t),
        matching::sound(t),
        matching::ended(t2),
        0 <= p,
        !rules::at_kw(t, p, Keyword::CROSS),
        hidden_query::join(t, p, d) is Ok,
        hidden_query::join(t, p, d)->Ok_0.0 is Some,
    ensures
        ({
            let (item, q) = hidden_query::join(t, p, d)->Ok_0;
            let x = item->0;
            &&& p < q
            &&& rules::kind(t, p) != KindView::Eof
            &&& x.holds()
            &&& x.kinds().len() > 0
            &&& is_join(x.kinds()[0])
            &&& matching::at(t2, p2, x.kinds()) && matching::ends_join(
                rules::kind(t2, p2 + x.kinds().len()),
            ) ==> join_again(t, hidden_query::join(t2, p2, d), x, p2 + x.kinds().len())
        }),
    decreases MAX_EXPR_DEPTH - d, 1int, 0nat,
{
    hidden_query::lemma_join(t, p, d);
    let x = hidden_query::join(t, p, d)->Ok_0.0->0;
    let (found, q) = rules::join_op(t, p)->Ok_0;
    let op = found->0;
    let word = shape::join_op_kinds(op);
    let q2: int = p2 + word.len();
    replay_table(t, q, t2, q2);
    let (right, r) = hidden_query::table(t, q)->Ok_0;
    let r2: int = q2 + right.kinds().len();
    replay_expr::replay_expr(t, r + 1, d, t2, r2 + 1);
    let on = rules::expr(t, r + 1, d)->Ok_0.0;
    shape::shape_of_join(x);
    leaves::lemma_nothing_before(word);
    leaves::lemma_regroup3(word + right.kinds(), shape::kw(Keyword::ON), on.kinds());
    assert(x.kinds() == word + right.kinds() + shape::kw(Keyword::ON) + on.kinds());
    assert(is_join(word[0]));
    assert(x.kinds()[0] == word[0]);
    if matching::at(t2, p2, x.kinds()) && matching::ends_join(
        rules::kind(t2, p2 + x.kinds().len()),
    ) {
        matching::split4(t2, p2, word, right.kinds(), shape::kw(Keyword::ON), on.kinds());
        matching::lemma_stops();
        assert(hidden_query::table(t2, q2) is Ok);
        on_again(t, t2, p2, d, op, right, on);
    }
}

/// A join with its condition, printed, is read again.
proof fn on_again(
    src: Seq<TokenView>,
    t: Seq<TokenView>,
    p: int,
    d: nat,
    op: JoinOp,
    right: TableRefView,
    on: ExprView,
)
    requires
        op == JoinOp::Left || op == JoinOp::Inner,
        matching::at(t, p, shape::join_op_kinds(op)),
        ({
            let q = p + shape::join_op_kinds(op).len();
            let r = q + right.kinds().len();
            &&& table_again(hidden_query::table(t, q), right, r)
            &&& rules::at_kw(t, r, Keyword::ON)
            &&& replay_expr::again(src, rules::expr(t, r + 1, d), on, r + 1 + on.kinds().len())
        }),
    ensures
        ({
            let r = p + shape::join_op_kinds(op).len() + right.kinds().len();
            join_again(
                src,
                hidden_query::join(t, p, d),
                (JoinView {
                    op,
                    table: right,
                    constraint: Some(JoinConstraintView::On(on)),
                    natural: false,
                }),
                r + 1 + on.kinds().len(),
            )
        }),
{
    let q: int = p + shape::join_op_kinds(op).len();
    if op == JoinOp::Left {
        matching::split2(t, p, shape::kw(Keyword::LEFT), shape::kw(Keyword::JOIN));
    }
    hidden_query::lemma_join(t, p, d);
    assert(rules::join_op(t, p) == Ok::<(Option<JoinOp>, int), rules::FailView>((Some(op), q)));
    let a = JoinView {
        op,
        table: right,
        constraint: Some(JoinConstraintView::On(on)),
        natural: false,
    };
    shape::shape_of_join(a);
    if hidden_query::join(t, p, d) is Ok {
        shape::shape_of_join(hidden_query::join(t, p, d)->Ok_0.0->0);
    }
}

/// Whether what was read are the joins `a`, their places aside, up to `e`.
pub open spec fn joins_again(src: Seq<TokenView>, r: Parsed<Seq<JoinView>>, a: Seq<JoinView>,
    e: int) -> bool {
    match r {
        Ok((b, q)) => shape::bare_joins(b) == shape::bare_joins(a) && q == e,
        Err(f) => matching::refused(src, f),
    }
}

/// Where a `FROM` clause ends no join begins.
proof fn lemma_no_join(src: Seq<TokenView>, t: Seq<TokenView>, p: int, d: nat, list: Seq<JoinView>)
    requires
        matching::ends_from(rules::kind(t, p)),
    ensures
        joins_again(src, hidden_query::joins(t, p, d, list), list, p),
{
    hidden_query::lemma_joins(t, p, d, list);
    hidden_query::lemma_join(t, p, d);
}

proof fn replay_joins(
    t: Seq<TokenView>,
    p: int,
    d: nat,
    list: Seq<JoinView>,
    t2: Seq<TokenView>,
    p2: int,
    list2: Seq<JoinView>,
) -> (suffix: Seq<KindView>)
    requires
        matching::ended(t),
        matching::sound(t),
        matching::ended(t2),
        0 <= p,
        hidden_query::joins(t, p, d, list) is Ok,
    ensures
        ({
            let (all, q) = hidden_query::joins(t, p, d, list)->Ok_0;
            &&& p <= q
            &&& shape::each_after(seq![], shape::joins_kinds(all)) == shape::each_after(
                seq![],
                shape::joins_kinds(list),
            ) + suffix
            &&& shape::joins_hold(list) ==> shape::joins_hold(
                all)
            &&& suffix.len() > 0 ==> is_join(suffix[0])
            &&& shape::bare_joins(list2)
                == shape::bare_joins(list) && matching::at(t2, p2, suffix) && matching::ends_from(
                rules::kind(t2, p2 + suffix.len()),
            ) ==> joins_again(
                t,
                hidden_query::joins(t2, p2, d, list2),
                all,
                p2 + suffix.len(),
            )
        }),
    decreases MAX_EXPR_DEPTH - d, 3int, rules::left(t, p),
{
    let all = hidden_query::joins(t, p, d, list)->Ok_0.0;
    let nothing = Seq::<KindView>::empty();
    hidden_query::lemma_joins(t, p, d, list);
    let (item, q) = hidden_query::join(t, p, d)->Ok_0;
    match item {
        Some(x) => {
            replay_join(t, p, d, t2, p2);
            let x2 = hidden_query::join(t2, p2, d)->Ok_0.0->0;
            matching::lemma_progress(t, p, q);
            shape::lemma_joins_push(list, x);
            shape::lemma_joins_push(list2, x2);
            let q2: int = p2 + x.kinds().len();
            let rest = replay_joins(t, q, d, list.push(x), t2, q2, list2.push(x2));
            let suffix = x.kinds() + rest;
            let before = shape::each_after(nothing, shape::joins_kinds(list));
            leaves::lemma_each_push(nothing, shape::joins_kinds(list), x.kinds());
            leaves::lemma_nothing_more(before);
            leaves::lemma_regroup3(before, x.kinds(), rest);
            assert(suffix[0] == x.kinds()[0]);
            matching::split2(t2, p2, x.kinds(), rest);
            if matching::at(t2, p2, suffix) && matching::ends_from(rules::kind(t2, p2
                + suffix.len())) {
                matching::lemma_at_head(t2, p2, x.kinds());
                matching::lemma_at_head(t2, q2, rest);
                matching::lemma_progress(t2, p2, q2);
                hidden_query::lemma_joins(t2, p2, d, list2);
            }
            suffix
        },
        None => {
            leaves::lemma_nothing_more(shape::each_after(nothing, shape::joins_kinds(list)));
            lemma_join_place(t, p, d);
            if matching::ends_from(rules::kind(t2, p2)) {
                lemma_no_join(t, t2, p2, d, list2);
            }
            nothing
        },
    }
}

/// Where no join is read nothing is.
proof fn lemma_join_place(t: Seq<TokenView>, p: int, d: nat)
    requires
        hidden_query::join(t, p, d) is Ok,
        hidden_query::join(t, p, d)->Ok_0.0 is None,
    ensures
        hidden_query::join(t, p, d)->Ok_0.1 == p,
{
    if rules::at_kw(t, p, Keyword::CROSS) {
        hidden_query::lemma_cross(t, p, d);
    } else {
        hidden_query::lemma_join(t, p, d);
    }
}

/// Whether what was read is the `FROM` clause `a`, its places aside, up to `e`.
pub open spec fn from_again(
    src: Seq<TokenView>,
    r: Parsed<Option<FromClauseView>>,
    a: Option<FromClauseView>,
    e: int,
) -> bool {
    match r {
        Ok((b, q)) => shape::bare_from(b) == shape::bare_from(a) && q == e,
        Err(f) => matching::refused(src, f),
    }
}

proof fn replay_from(t: Seq<TokenView>, p: int, d: nat, t2: Seq<TokenView>, p2: int)
    requires
        matching::ended(t),
        matching::sound(t),
        matching::ended(t2),
        0 <= p,
        hidden_query::from(t, p, d) is Ok,
    ensures
        ({
            let (x, q) = hidden_query::from(t, p, d)->Ok_0;
            let kinds = shape::from_kinds(x);
            &&& p <= q
            &&& shape::from_holds(x)
            &&& kinds.len() > 0 ==> matching::is_kw(kinds[0], Keyword::FROM)
            &&& matching::at(t2, p2, kinds)
                && matching::ends_from(rules::kind(t2, p2 + kinds.len())) ==> from_again(
                t,
                hidden_query::from(t2, p2, d),
                x,
                p2 + kinds.len(),
            )
        }),
    decreases MAX_EXPR_DEPTH - d, 5int, 0nat,
{
    let x = hidden_query::from(t, p, d)->Ok_0.0;
    hidden_query::lemma_from(t, p, d);
    shape::lemma_from(x->0);
    match x {
        Some(clause) => {
            let nothing = Seq::<KindView>::empty();
            replay_table(t, p + 1, t2, p2 + 1);
            let (first, q) = hidden_query::table(t, p + 1)->Ok_0;
            let q2: int = p2 + 1 + first.kinds().len();
            shape::lemma_joins_empty();
            leaves::lemma_empty_lists(nothing);
            let suffix = replay_joins(t, q, d, seq![], t2, q2, seq![]);
            assert(suffix =~= shape::each_after(nothing, shape::joins_kinds(clause.joins)));
            shape::shape_of_from_clause(clause);
            let kinds = shape::from_kinds(x);
            assert(kinds[0] == KindView::Keyword(Keyword::FROM));
            matching::split2(t2, p2, shape::kw(Keyword::FROM), clause.kinds());
            matching::split2(t2, p2 + 1, first.kinds(), suffix);
            if matching::at(t2, p2, kinds) && matching::ends_from(rules::kind(t2, p2
                + kinds.len())) {
                matching::lemma_at_head(t2, q2, suffix);
                hidden_query::lemma_from(t2, p2, d);
                let clause2 = hidden_query::from(t2, p2, d)->Ok_0.0->0;
                shape::lemma_from(clause2);
                shape::shape_of_from_clause(clause2);
            }
        },
        None => {
            hidden_query::lemma_from(t2, p2, d);
        },
    }
}

// ---- grouping ----------------------------------------------------------------------

/// The kinds of `GROUP BY` and `HAVING`.
pub open spec fn group_kinds(group_by: Seq<ExprView>, having: Option<ExprView>) -> Seq<KindView> {
    shape::clause_kinds(
        shape::kw(Keyword::GROUP) + shape::kw(Keyword::BY),
        shape::exprs_kinds(group_by),
    ) + shape::optional_kinds(Keyword::HAVING, having)
}

/// Whether what was read are these groups, their places aside, up to `e`.
pub open spec fn group_again(
    src: Seq<TokenView>,
    r: Parsed<(Seq<ExprView>, Option<ExprView>)>,
    a: (Seq<ExprView>, Option<ExprView>),
    e: int,
) -> bool {
    match r {
        Ok((b, q)) => shape::bare_exprs(b.0) == shape::bare_exprs(a.0) && shape::bare_optional(b.1)
            == shape::bare_optional(a.1) && q == e,
        Err(f) => matching::refused(src, f),
    }
}

proof fn replay_group(t: Seq<TokenView>, p: int, d: nat, t2: Seq<TokenView>, p2: int)
    requires
        matching::ended(t),
        matching::sound(t),
        matching::ended(t2),
        0 <= p,
        hidden_query::group(t, p, d) is Ok,
    ensures
        ({
            let (x, q) = hidden_query::group(t, p, d)->Ok_0;
            let kinds = group_kinds(x.0, x.1);
            &&& p <= q
            &&& shape::exprs_hold(x.0)
            &&& shape::optional_holds(x.1)
            &&& kinds.len() > 0 ==> matching::is_kw(kinds[0], Keyword::GROUP)
            &&& matching::at(t2, p2, kinds) && matching::ends_core(
                rules::kind(t2, p2 + kinds.len()),
            ) ==> group_again(t, hidden_query::group(t2, p2, d), x, p2 + kinds.len())
        }),
    decreases MAX_EXPR_DEPTH - d, 5int, 0nat,
{
    let (x, e) = hidden_query::group(t, p, d)->Ok_0;
    hidden_query::lemma_group(t, p, d);
    shape::lemma_exprs_len(x.0);
    if rules::at_kw(t, p, Keyword::GROUP) {
        replay_list::replay_list(t, p + 2, d, t2, p2 + 2);
        let (list, q) = hidden::list(t, p + 2, d)->Ok_0;
        let keys = shape::commas(shape::exprs_kinds(list));
        let q2: int = p2 + 2 + keys.len();
        replay_list::replay_optional(t, q, d, Keyword::HAVING, t2, q2);
        let last = shape::optional_kinds(Keyword::HAVING, x.1);
        let head = shape::kw(Keyword::GROUP) + shape::kw(Keyword::BY);
        let kinds = group_kinds(x.0, x.1);
        assert(kinds == head + keys + last);
        assert(kinds[0] == KindView::Keyword(Keyword::GROUP));
        matching::split4(
            t2,
            p2,
            shape::kw(Keyword::GROUP),
            shape::kw(Keyword::BY),
            keys,
            last,
        );
        if matching::at(t2, p2, kinds) {
            matching::lemma_stops();
            matching::lemma_at_head(t2, q2, last);
            hidden_query::lemma_group(t2, p2, d);
        }
    } else {
        hidden_query::lemma_group(t2, p2, d);
        shape::lemma_exprs_empty();
        shape::lemma_optional(Keyword::HAVING, arbitrary());
        leaves::lemma_nothing_more(seq![]);
    }
}

// ---- SELECT ------------------------------------------------------------------------

/// Whether what was read is `a`, its places aside, up to `e`.
pub open spec fn core_again(src: Seq<TokenView>, r: Parsed<CoreView>, a: CoreView, e: int) -> bool {
    match r {
        Ok((b, q)) => b.bare() == a.bare() && q == e,
        Err(f) => matching::refused(src, f),
    }
}

proof fn replay_core(t: Seq<TokenView>, p: int, d: nat, t2: Seq<TokenView>, p2: int)
    requires
        matching::ended(t),
        matching::sound(t),
        matching::ended(t2),
        0 <= p,
        hidden_query::select_core(t, p, d) is Ok,
    ensures
        ({
            let (x, q) = hidden_query::select_core(t, p, d)->Ok_0;
            &&& p < q
            &&& x.holds()
            &&& matching::at(t2, p2, x.kinds()) && matching::ends_core(
                rules::kind(t2, p2 + x.kinds().len()),
            ) ==> core_again(t, hidden_query::select_core(t2, p2, d), x, p2 + x.kinds().len())
        }),
    decreases MAX_EXPR_DEPTH - d, 6int, 0nat,
{
    let x = hidden_query::select_core(t, p, d)->Ok_0.0;
    hidden_query::lemma_core(t, p, d);
    let (distinct, p1) = rules::distinctness(t, p);
    let k0 = shape::distinct_kinds(distinct);
    let a1: int = p2 + k0.len();
    replay_result(t, p1, d, t2, a1);
    let (first, o2) = hidden_query::column(t, p1, d)->Ok_0;
    let first2 = hidden_query::column(t2, a1, d)->Ok_0.0;
    let a2: int = a1 + first.kinds().len();
    let none = Seq::<ResultColumnView>::empty();
    assert(none.push(first) =~= seq![first]);
    shape::lemma_columns_empty();
    shape::lemma_columns_push(none, first);
    shape::lemma_columns_push(none, first2);
    leaves::lemma_commas_push(shape::columns_kinds(none), first.kinds());
    let suffix = replay_more_columns(t, o2, d, seq![first], t2, a2, seq![first2]);
    let k1 = shape::commas(shape::columns_kinds(x.columns));
    let a3: int = a1 + k1.len();
    let o3 = hidden_query::columns(t, o2, d, seq![first])->Ok_0.1;
    replay_from(t, o3, d, t2, a3);
    let k2 = shape::from_kinds(x.from);
    let a4: int = a3 + k2.len();
    let o4 = hidden_query::from(t, o3, d)->Ok_0.1;
    replay_list::replay_optional(t, o4, d, Keyword::WHERE, t2, a4);
    let k3 = shape::optional_kinds(Keyword::WHERE, x.where_clause);
    let a5: int = a4 + k3.len();
    let o5 = hidden::optional(t, o4, d, Keyword::WHERE)->Ok_0.1;
    replay_group(t, o5, d, t2, a5);
    let k4 = group_kinds(x.group_by, x.having);
    shape::shape_of_core(x);
    lemma_core_kinds(x);
    assert(x.kinds() == k0 + k1 + k2 + k3 + k4);
    if matching::at(t2, p2, x.kinds()) && matching::ends_core(
        rules::kind(t2, p2 + x.kinds().len()),
    ) {
        matching::lemma_stops();
        matching::split5(t2, p2, k0, k1, k2, k3, k4);
        matching::split2(t2, a1, first.kinds(), suffix);
        matching::lemma_at_head(t2, a1, k1);
        matching::lemma_at_head(t2, a2, suffix);
        matching::lemma_at_head(t2, a3, k2);
        matching::lemma_at_head(t2, a4, k3);
        matching::lemma_at_head(t2, a5, k4);
        assert(k1[0] == first.kinds()[0]);
        assert(rules::distinctness(t2, p2) == (distinct, a1));
        assert(matching::ends_where(rules::kind(t2, a5)));
        assert(matching::ends_from(rules::kind(t2, a4)));
        assert(matching::ends_columns(rules::kind(t2, a3)));
        if hidden_query::column(t2, a1, d) is Ok {
            assert(columns_again(
                t,
                hidden_query::columns(t2, a2, d, seq![first2]),
                x.columns,
                a3,
            ));
        }
        assert(from_again(t, hidden_query::from(t2, a3, d), x.from, a4));
        hidden_query::lemma_core(t2, p2, d);
        if hidden_query::select_core(t2, p2, d) is Ok {
            shape::shape_of_core(hidden_query::select_core(t2, p2, d)->Ok_0.0);
        }
    }
}

/// What a `SELECT` behind its keyword is printed as, clause by clause.
proof fn lemma_core_kinds(x: CoreView)
    ensures
        x.kinds() == shape::distinct_kinds(x.distinct) + shape::commas(
            shape::columns_kinds(x.columns),
        ) + shape::from_kinds(x.from) + shape::optional_kinds(Keyword::WHERE, x.where_clause)
            + group_kinds(x.group_by, x.having),
{
    shape::shape_of_core(x);
    let before = shape::distinct_kinds(x.distinct) + shape::commas(
        shape::columns_kinds(x.columns),
    ) + shape::from_kinds(x.from) + shape::optional_kinds(Keyword::WHERE, x.where_clause);
    leaves::lemma_regroup3(
        before,
        shape::clause_kinds(
            shape::kw(Keyword::GROUP) + shape::kw(Keyword::BY),
            shape::exprs_kinds(x.group_by),
        ),
        shape::optional_kinds(Keyword::HAVING, x.having),
    );
}

/// Whether what was read are the arms `a`, their places aside, up to `e`.
pub open spec fn arms_again(
    src: Seq<TokenView>,
    r: Parsed<Seq<CompoundSelectView>>,
    a: Seq<CompoundSelectView>,
    e: int,
) -> bool {
    match r {
        Ok((b, q)) => shape::bare_arms(b) == shape::bare_arms(a) && q == e,
        Err(f) => matching::refused(src, f),
    }
}

/// An arm is printed as its core behind `UNION ALL SELECT`.
proof fn lemma_arm(body: CoreView, at: crate::parser::tokenizer::Span)
    ensures
        ({
            let arm = hidden_query::arm_of(body, at);
            let lead = shape::kw(Keyword::UNION) + shape::kw(Keyword::ALL) + shape::kw(
                Keyword::SELECT,
            );
            &&& arm.kinds() == lead + body.kinds()
            &&& arm.holds() == body.holds()
            &&& arm.bare() == hidden_query::arm_of(body.bare(), shape::nowhere())
        }),
{
    shape::shape_of_core(body);
    shape::shape_of_compound_select(hidden_query::arm_of(body, at));
}

proof fn replay_arms(
    t: Seq<TokenView>,
    p: int,
    d: nat,
    list: Seq<CompoundSelectView>,
    t2: Seq<TokenView>,
    p2: int,
    list2: Seq<CompoundSelectView>,
) -> (suffix: Seq<KindView>)
    requires
        matching::ended(t),
        matching::sound(t),
        matching::ended(t2),
        0 <= p,
        hidden_query::arms(t, p, d, list) is Ok,
    ensures
        ({
            let (all, q) = hidden_query::arms(t, p, d, list)->Ok_0;
            &&& p <= q
            &&& shape::each_after(seq![], shape::arms_kinds(all)) == shape::each_after(
                seq![],
                shape::arms_kinds(list),
            ) + suffix
            &&& shape::arms_hold(list) ==> shape::arms_hold(
                all)
            &&& suffix.len() > 0 ==> matching::is_kw(suffix[0], Keyword::UNION)
            &&& shape::bare_arms(list2)
                == shape::bare_arms(list) && matching::at(t2, p2, suffix) && matching::ends_arms(
                rules::kind(t2, p2 + suffix.len()),
            ) ==> arms_again(t, hidden_query::arms(t2, p2, d, list2), all, p2 + suffix.len())
        }),
    decreases MAX_EXPR_DEPTH - d, 8int, rules::left(t, p),
{
    let all = hidden_query::arms(t, p, d, list)->Ok_0.0;
    let nothing = Seq::<KindView>::empty();
    hidden_query::lemma_arms(t, p, d, list);
    let before = shape::each_after(nothing, shape::arms_kinds(list));
    if rules::at_kw(t, p, Keyword::UNION) {
        replay_core(t, p + 3, d, t2, p2 + 3);
        let (body, q) = hidden_query::select_core(t, p + 3, d)->Ok_0;
        let at = rules::join_span(rules::span(t, p), rules::last_span(t, q));
        let arm = hidden_query::arm_of(body, at);
        lemma_arm(body, at);
        let q2: int = p2 + 3 + body.kinds().len();
        let body2 = hidden_query::select_core(t2, p2 + 3, d)->Ok_0.0;
        let at2 = rules::join_span(rules::span(t2, p2), rules::last_span(t2, q2));
        let arm2 = hidden_query::arm_of(body2, at2);
        lemma_arm(body2, at2);
        matching::lemma_progress(t, p, q);
        shape::lemma_arms_push(list, arm);
        shape::lemma_arms_push(list2, arm2);
        let rest = replay_arms(t, q, d, list.push(arm), t2, q2, list2.push(arm2));
        let suffix = arm.kinds() + rest;
        leaves::lemma_each_push(nothing, shape::arms_kinds(list), arm.kinds());
        leaves::lemma_nothing_more(before);
        leaves::lemma_regroup3(before, arm.kinds(), rest);
        assert(suffix[0] == KindView::Keyword(Keyword::UNION));
        if matching::at(t2, p2, suffix) && matching::ends_arms(rules::kind(t2, p2 + suffix.len())) {
            matching::split2(t2, p2, arm.kinds(), rest);
            matching::split4(
                t2,
                p2,
                shape::kw(Keyword::UNION),
                shape::kw(Keyword::ALL),
                shape::kw(Keyword::SELECT),
                body.kinds(),
            );
            matching::lemma_at_head(t2, q2, rest);
            matching::lemma_progress(t2, p2, q2);
            hidden_query::lemma_arms(t2, p2, d, list2);
        }
        suffix
    } else {
        leaves::lemma_nothing_more(before);
        hidden_query::lemma_arms(t2, p2, d, list2);
        nothing
    }
}

// ---- ORDER BY and LIMIT --------------------------------------------------------------

/// What ends an ordering term.
pub open spec fn ends_term(k: KindView) -> bool {
    k == KindView::Comma || matching::ends_terms(k)
}

#[verifier::rlimit(60)]
pub proof fn replay_term(t: Seq<TokenView>, p: int, d: nat, t2: Seq<TokenView>, p2: int)
    requires
        matching::ended(t),
        matching::sound(t),
        matching::ended(t2),
        0 <= p,
        hidden_query::term(t, p, d) is Ok,
    ensures
        ({
            let (x, q) = hidden_query::term(t, p, d)->Ok_0;
            &&& p < q
            &&& x.holds()
            &&& x.kinds().len() > 0
            &&& terms_item_replays(t, x, t2, p2, d)
        }),
    decreases MAX_EXPR_DEPTH - d, 2int, 0nat,
{
    let x = hidden_query::term(t, p, d)->Ok_0.0;
    hidden_query::lemma_term(t, p, d);
    replay_expr::replay_expr(t, p, d, t2, p2);
    shape::shape_of_ordering_term(x);
    let k1 = shape::direction_kinds(x.desc);
    let k2 = shape::nulls_kinds(x.nulls_last);
    let q2: int = p2 + x.expr.kinds().len();
    let r2: int = q2 + k1.len();
    matching::split3(t2, p2, x.expr.kinds(), k1, k2);
    if x.nulls_last is Some {
        let word = if x.nulls_last == Some(true) {
            Keyword::LAST
        } else {
            Keyword::FIRST
        };
        assert(k2 == shape::kw(Keyword::NULLS) + shape::kw(word));
        matching::split2(t2, r2, shape::kw(Keyword::NULLS), shape::kw(word));
    }
    if matching::at(t2, p2, x.kinds()) && ends_term(
        rules::kind(t2, p2 + x.kinds().len()),
    ) {
        matching::lemma_stops();
        matching::lemma_at_head(t2, q2, k1);
        matching::lemma_at_head(t2, r2, k2);
        assert(rules::direction(t2, q2) == (x.desc, r2));
        assert(rules::opt_nulls(t2, r2) == Ok::<(Option<bool>, int), rules::FailView>(
            (x.nulls_last, r2 + k2.len()),
        ));
        hidden_query::lemma_term(t2, p2, d);
        if hidden_query::term(t2, p2, d) is Ok {
            shape::shape_of_ordering_term(hidden_query::term(t2, p2, d)->Ok_0.0);
        }
    }
}

/// Whether what was read is the list `a`, its places aside, up to `e`.
pub open spec fn terms_again(src: Seq<TokenView>, r: Parsed<Seq<OrderingTermView>>,
    a: Seq<OrderingTermView>, e: int)
    -> bool {
    match r {
        Ok((b, q)) => shape::bare_terms(b) == shape::bare_terms(a) && b.len() == a.len() && q == e,
        Err(f) => matching::refused(src, f),
    }
}

pub proof fn replay_more_terms(
    t: Seq<TokenView>,
    p: int,
    d: nat,
    list: Seq<OrderingTermView>,
    t2: Seq<TokenView>,
    p2: int,
    list2: Seq<OrderingTermView>,
) -> (suffix: Seq<KindView>)
    requires
        matching::ended(t),
        matching::sound(t),
        matching::ended(t2),
        0 <= p,
        list.len() > 0,
        hidden_query::terms(t, p, d, list) is Ok,
    ensures
        ({
            let (all, q) = hidden_query::terms(t, p, d, list)->Ok_0;
            &&& p <= q
            &&& all.len() > 0
            &&& shape::commas(shape::terms_kinds(all)) == shape::commas(shape::terms_kinds(list))
                + suffix
            &&& shape::terms_hold(list) ==> shape::terms_hold(all)
            &&& suffix.len() > 0 ==> suffix[0] == KindView::Comma
            &&& shape::bare_terms(list2)
                == shape::bare_terms(list) && list2.len() == list.len() && matching::at(
                t2,
                p2,
                suffix,
            ) && matching::ends_terms(rules::kind(t2, p2 + suffix.len())) ==> terms_again(
                t,
                hidden_query::terms(t2, p2, d, list2),
                all,
                p2 + suffix.len(),
            )
        }),
    decreases MAX_EXPR_DEPTH - d, 3int, rules::left(t, p),
{
    let all = hidden_query::terms(t, p, d, list)->Ok_0.0;
    hidden_query::lemma_terms(t, p, d, list);
    if rules::kind(t, p) == KindView::Comma {
        replay_term(t, p + 1, d, t2, p2 + 1);
        let (x, q) = hidden_query::term(t, p + 1, d)->Ok_0;
        let x2 = hidden_query::term(t2, p2 + 1, d)->Ok_0.0;
        matching::lemma_progress(t, p, q);
        shape::lemma_terms_len(list);
        shape::lemma_terms_push(list, x);
        shape::lemma_terms_push(list2, x2);
        leaves::lemma_commas_push(shape::terms_kinds(list), x.kinds());
        let q2: int = p2 + 1 + x.kinds().len();
        let rest = replay_more_terms(t, q, d, list.push(x), t2, q2, list2.push(x2));
        let suffix = seq![KindView::Comma] + x.kinds() + rest;
        leaves::lemma_regroup(
            shape::commas(shape::terms_kinds(list)),
            seq![KindView::Comma],
            x.kinds(),
            rest,
        );
        assert(suffix[0] == KindView::Comma);
        let end = rules::kind(t2, p2 + suffix.len());
        if matching::at(t2, p2, suffix) && matching::ends_terms(end) {
            terms_item_again(t, t2, p2, d, list2, x, rest);
        }
        suffix
    } else {
        hidden_query::lemma_terms(t2, p2, d, list2);
        leaves::lemma_nothing_more(shape::commas(shape::terms_kinds(list)));
        seq![]
    }
}

/// One item behind a comma, printed, is read again in front of the others.
proof fn terms_item_again(
    src: Seq<TokenView>,
    t: Seq<TokenView>,
    p: int,
    d: nat,
    list: Seq<OrderingTermView>,
    x: OrderingTermView,
    rest: Seq<KindView>,
)
    requires
        matching::ended(t),
        rest.len() > 0 ==> rest[0] == KindView::Comma,
        matching::at(t, p, seq![KindView::Comma] + x.kinds() + rest),
        matching::ends_terms(rules::kind(t, p + (seq![KindView::Comma] + x.kinds() + rest).len())),
        terms_item_replays(src, x, t, p + 1, d),
    ensures
        ({
            let q = p + 1 + x.kinds().len();
            let x2 = hidden_query::term(t, p + 1, d)->Ok_0.0;
            let good = hidden_query::term(t, p + 1, d) is Ok;
            &&& good ==> hidden_query::terms(t, p, d, list) == hidden_query::terms(t, q, d,
                list.push(x2))
            &&& good ==> x2.bare() == x.bare()
            &&& !good ==> hidden_query::terms(t, p, d, list) is Err && matching::refused(src,
                hidden_query::terms(t, p, d, list)->Err_0)
            &&& matching::at(t, q, rest)
            &&& q + rest.len() == p + (seq![KindView::Comma] + x.kinds() + rest).len()
        }),
{
    hidden_query::lemma_terms(t, p, d, list);
    let q: int = p + 1 + x.kinds().len();
    matching::split3(t, p, seq![KindView::Comma], x.kinds(), rest);
    matching::lemma_at_head(t, q, rest);
    matching::lemma_progress(t, p, q);
}

/// Whether the item `x`, printed at `p`, is read again.
pub open spec fn terms_item_replays(src: Seq<TokenView>, x: OrderingTermView, t: Seq<TokenView>,
    p: int, d: nat)
    -> bool {
    matching::at(t, p, x.kinds()) && ends_term(rules::kind(t, p
        + x.kinds().len())) ==> match hidden_query::term(t, p, d) {
        Ok((y, q)) => y.bare() == x.bare() && q == p + x.kinds().len(),
        Err(f) => matching::refused(src, f),
    }
}

proof fn replay_order(t: Seq<TokenView>, p: int, d: nat, t2: Seq<TokenView>, p2: int)
    requires
        matching::ended(t),
        matching::sound(t),
        matching::ended(t2),
        0 <= p,
        hidden_query::order(t, p, d) is Ok,
    ensures
        ({
            let (x, q) = hidden_query::order(t, p, d)->Ok_0;
            let head = shape::kw(Keyword::ORDER) + shape::kw(Keyword::BY);
            let kinds = shape::clause_kinds(head, shape::terms_kinds(x));
            &&& p <= q
            &&& shape::terms_hold(x)
            &&& kinds.len() > 0 ==> matching::is_kw(kinds[0], Keyword::ORDER)
            &&& matching::at(t2, p2, kinds)
                && matching::ends_terms(rules::kind(t2, p2 + kinds.len())) ==> terms_again(
                t,
                hidden_query::order(t2, p2, d),
                x,
                p2 + kinds.len(),
            )
        }),
    decreases MAX_EXPR_DEPTH - d, 4int, 0nat,
{
    let x = hidden_query::order(t, p, d)->Ok_0.0;
    hidden_query::lemma_order(t, p, d);
    let head = shape::kw(Keyword::ORDER) + shape::kw(Keyword::BY);
    let kinds = shape::clause_kinds(head, shape::terms_kinds(x));
    shape::lemma_terms_empty();
    shape::lemma_terms_len(x);
    if rules::at_kw(t, p, Keyword::ORDER) {
        replay_term(t, p + 2, d, t2, p2 + 2);
        let (first, q) = hidden_query::term(t, p + 2, d)->Ok_0;
        let first2 = hidden_query::term(t2, p2 + 2, d)->Ok_0.0;
        let q2: int = p2 + 2 + first.kinds().len();
        let none = Seq::<OrderingTermView>::empty();
        assert(none.push(first) =~= seq![first]);
        shape::lemma_terms_push(none, first);
        shape::lemma_terms_push(none, first2);
        leaves::lemma_commas_push(shape::terms_kinds(none), first.kinds());
        let suffix = replay_more_terms(t, q, d, seq![first], t2, q2, seq![first2]);
        let all = shape::commas(shape::terms_kinds(x));
        assert(kinds == head + all);
        assert(kinds[0] == KindView::Keyword(Keyword::ORDER));
        if matching::at(t2, p2, kinds) && matching::ends_terms(rules::kind(t2, p2 + kinds.len())) {
            matching::split3(t2, p2, shape::kw(Keyword::ORDER), shape::kw(Keyword::BY), all);
            matching::split2(t2, p2 + 2, first.kinds(), suffix);
            matching::lemma_at_head(t2, q2, suffix);
            hidden_query::lemma_order(t2, p2, d);
        }
    } else {
        hidden_query::lemma_order(t2, p2, d);
    }
}

pub open spec fn limit_kinds(x: Option<LimitView>) -> Seq<KindView> {
    match x {
        Some(l) => l.kinds(),
        None => seq![],
    }
}

pub open spec fn limit_holds(x: Option<LimitView>) -> bool {
    match x {
        Some(l) => l.holds(),
        None => true,
    }
}

/// Whether what was read is the limit `a`, its places aside, up to `e`.
pub open spec fn limit_again(src: Seq<TokenView>, r: Parsed<Option<LimitView>>,
    a: Option<LimitView>, e: int) -> bool {
    match r {
        Ok((b, q)) => q == e && match (a, b) {
            (Some(x), Some(y)) => x.bare() == y.bare(),
            (None, None) => true,
            _ => false,
        },
        Err(f) => matching::refused(src, f),
    }
}

#[verifier::rlimit(60)]
proof fn replay_limit(t: Seq<TokenView>, p: int, d: nat, t2: Seq<TokenView>, p2: int)
    requires
        matching::ended(t),
        matching::sound(t),
        matching::ended(t2),
        0 <= p,
        hidden_query::limit(t, p, d) is Ok,
    ensures
        ({
            let (x, q) = hidden_query::limit(t, p, d)->Ok_0;
            let kinds = limit_kinds(x);
            &&& p <= q
            &&& limit_holds(x)
            &&& kinds.len() > 0 ==> matching::is_kw(kinds[0], Keyword::LIMIT)
            &&& matching::at(t2, p2, kinds)
                && matching::ends_select(rules::kind(t2, p2 + kinds.len())) ==> limit_again(
                t,
                hidden_query::limit(t2, p2, d),
                x,
                p2 + kinds.len(),
            )
        }),
    decreases MAX_EXPR_DEPTH - d, 4int, 0nat,
{
    let x = hidden_query::limit(t, p, d)->Ok_0.0;
    hidden_query::lemma_limit(t, p, d);
    match x {
        Some(l) => {
            shape::shape_of_limit(l);
            replay_expr::replay_expr(t, p + 1, d, t2, p2 + 1);
            let (bound, q) = rules::expr(t, p + 1, d)->Ok_0;
            let q2: int = p2 + 1 + bound.kinds().len();
            let last = shape::optional_kinds(Keyword::OFFSET, l.offset);
            shape::lemma_optional(Keyword::OFFSET, l.offset->0);
            if l.offset is Some {
                replay_expr::replay_expr(t, q + 1, d, t2, q2 + 1);
                matching::split2(t2, q2, shape::kw(Keyword::OFFSET), l.offset->0.kinds());
            }
            matching::split3(t2, p2, shape::kw(Keyword::LIMIT), bound.kinds(), last);
            assert(l.kinds()[0] == KindView::Keyword(Keyword::LIMIT));
            if matching::at(t2, p2, l.kinds()) && matching::ends_select(
                rules::kind(t2, p2 + l.kinds().len()),
            ) {
                matching::lemma_stops();
                matching::lemma_at_head(t2, q2, last);
                hidden_query::lemma_limit(t2, p2, d);
                let l2 = hidden_query::limit(t2, p2, d)->Ok_0.0->0;
                shape::shape_of_limit(l2);
                shape::lemma_optional(Keyword::OFFSET, l2.offset->0);
            }
        },
        None => {
            hidden_query::lemma_limit(t2, p2, d);
        },
    }
}

/// Whether what was read is the statement `a`, its places aside, up to `e`.
pub open spec fn select_again(src: Seq<TokenView>, r: Parsed<SelectView>, a: SelectView, e: int)
    -> bool {
    match r {
        Ok((b, q)) => b.bare() == a.bare() && q == e,
        Err(f) => matching::refused(src, f),
    }
}

/// What a `SELECT` has in common with an arm.
pub open spec fn core_of(a: SelectView) -> CoreView {
    CoreView {
        distinct: a.distinct,
        columns: a.columns,
        from: a.from,
        where_clause: a.where_clause,
        group_by: a.group_by,
        having: a.having,
    }
}

/// A `SELECT` is printed as its core, its arms, its order and its limit.
proof fn lemma_select_shape(a: SelectView)
    ensures
        ({
            let by = shape::kw(Keyword::ORDER) + shape::kw(Keyword::BY);
            a.kinds() == shape::kw(Keyword::SELECT) + core_of(a).kinds() + shape::each_after(
                seq![],
                shape::arms_kinds(a.compound),
            ) + shape::clause_kinds(by, shape::terms_kinds(a.order_by)) + limit_kinds(a.limit)
        }),
        a.holds() == (core_of(a).holds() && shape::arms_hold(a.compound) && shape::terms_hold(
            a.order_by,
        ) && limit_holds(a.limit)),
{
    shape::shape_of_select(a);
    shape::shape_of_core(core_of(a));
}

/// Two `SELECT`s whose parts agree agree.
proof fn lemma_select_bare(a: SelectView, b: SelectView)
    requires
        core_of(a).bare() == core_of(b).bare(),
        shape::bare_arms(a.compound) == shape::bare_arms(b.compound),
        shape::bare_terms(a.order_by) == shape::bare_terms(b.order_by),
        match (a.limit, b.limit) {
            (Some(x), Some(y)) => x.bare() == y.bare(),
            (None, None) => true,
            _ => false,
        },
    ensures
        a.bare() == b.bare(),
{
    shape::shape_of_select(a);
    shape::shape_of_select(b);
    shape::shape_of_core(core_of(a));
    shape::shape_of_core(core_of(b));
}

pub proof fn replay_select(t: Seq<TokenView>, p: int, d: nat, t2: Seq<TokenView>, p2: int)
    requires
        matching::ended(t),
        matching::sound(t),
        matching::ended(t2),
        0 <= p,
        hidden::query(t, p, d) is Ok,
    ensures
        ({
            let (a, q) = hidden::query(t, p, d)->Ok_0;
            &&& p < q
            &&& a.holds()
            &&& a.kinds().len() > 0
            &&& matching::is_kw(a.kinds()[0], Keyword::SELECT)
            &&& matching::at(t2, p2, a.kinds()) && matching::ends_select(
                rules::kind(t2, p2 + a.kinds().len()),
            ) ==> select_again(t, hidden::query(t2, p2, d), a, p2 + a.kinds().len())
        }),
    decreases MAX_EXPR_DEPTH - d, 14int, 0nat,
{
    let a = hidden::query(t, p, d)->Ok_0.0;
    hidden_query::lemma_select(t, p, d);
    replay_core(t, p + 1, d, t2, p2 + 1);
    let (body, o1) = hidden_query::select_core(t, p + 1, d)->Ok_0;
    assert(core_of(a) == body);
    let k1 = body.kinds();
    let a1: int = p2 + 1 + k1.len();
    shape::lemma_arms_empty();
    leaves::lemma_empty_lists(seq![]);
    let k2 = replay_arms(t, o1, d, seq![], t2, a1, seq![]);
    assert(k2 =~= shape::each_after(seq![], shape::arms_kinds(a.compound)));
    let o2 = hidden_query::arms(t, o1, d, seq![])->Ok_0.1;
    let a2: int = a1 + k2.len();
    replay_order(t, o2, d, t2, a2);
    let by = shape::kw(Keyword::ORDER) + shape::kw(Keyword::BY);
    let k3 = shape::clause_kinds(by, shape::terms_kinds(a.order_by));
    let o3 = hidden_query::order(t, o2, d)->Ok_0.1;
    let a3: int = a2 + k3.len();
    replay_limit(t, o3, d, t2, a3);
    let k4 = limit_kinds(a.limit);
    lemma_select_shape(a);
    assert(a.kinds()[0] == KindView::Keyword(Keyword::SELECT));
    if matching::at(t2, p2, a.kinds()) && matching::ends_select(
        rules::kind(t2, p2 + a.kinds().len()),
    ) {
        matching::split5(t2, p2, shape::kw(Keyword::SELECT), k1, k2, k3, k4);
        matching::lemma_at_head(t2, a1, k2);
        matching::lemma_at_head(t2, a2, k3);
        matching::lemma_at_head(t2, a3, k4);
        assert(matching::ends_terms(rules::kind(t2, a3)));
        assert(matching::ends_arms(rules::kind(t2, a2)));
        assert(matching::ends_core(rules::kind(t2, a1)));
        hidden_query::lemma_select(t2, p2, d);
        let b = hidden::query(t2, p2, d)->Ok_0.0;
        if hidden::query(t2, p2, d) is Ok {
            assert(core_of(b) == hidden_query::select_core(t2, p2 + 1, d)->Ok_0.0);
            lemma_select_bare(a, b);
        }
    }
}

} // verus!
