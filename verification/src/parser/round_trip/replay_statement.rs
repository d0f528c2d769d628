//! The statements other than `SELECT` that were read are, printed, read again.
use crate::parser::ast::{
    ColumnConstraintView, ColumnDefView, ConflictAction, CreateTableView, DefaultValueView,
    ExprKindView, ExprView, IndexedColumnView, InsertSourceView, TableConstraintView, UnaryOp,
};
use crate::parser::round_trip::hidden_statement;
use crate::parser::round_trip::leaves;
use crate::parser::round_trip::matching;
use crate::parser::round_trip::replay_expr;
use crate::parser::round_trip::replay_list;
use crate::parser::round_trip::replay_query;
use crate::parser::round_trip::shape;
use crate::parser::rules;
use crate::parser::rules::Parsed;
use crate::parser::tokenizer::{Keyword, KindView, Span, TokenView};
use vstd::prelude::*;

verus! {

broadcast use matching::at_one;

// ---- INSERT and DELETE ---------------------------------------------------------------

/// The kinds of a row of values.
pub open spec fn row_kinds(row: Seq<ExprView>) -> Seq<KindView> {
    shape::in_parens(shape::commas(shape::exprs_kinds(row)))
}

proof fn replay_row(t: Seq<TokenView>, p: int, d: nat, t2: Seq<TokenView>, p2: int)
    requires
        matching::ended(t),
        matching::sound(t),
        matching::ended(t2),
        0 <= p,
        hidden_statement::row(t, p, d) is Ok,
    ensures
        ({
            let (x, q) = hidden_statement::row(t, p, d)->Ok_0;
            &&& p < q
            &&& shape::exprs_hold(x)
            &&& rows_item_replays(t, x, t2, p2, d)
        }),
{
    hidden_statement::lemma_row(t, p, d);
    replay_list::replay_list(t, p + 1, d, t2, p2 + 1);
    let x = hidden_statement::row(t, p, d)->Ok_0.0;
    let inner = shape::commas(shape::exprs_kinds(x));
    matching::split_parens(t2, p2, inner);
    if matching::at(t2, p2, row_kinds(x)) {
        matching::lemma_stops();
        hidden_statement::lemma_row(t2, p2, d);
    }
}

/// Whether what was read is the list `a`, its places aside, up to `e`.
pub open spec fn rows_again(src: Seq<TokenView>, r: Parsed<Seq<Seq<ExprView>>>,
    a: Seq<Seq<ExprView>>, e: int) -> bool {
    match r {
        Ok((b, q)) => shape::bare_rows(b) == shape::bare_rows(a) && b.len() == a.len() && q == e,
        Err(f) => matching::refused(src, f),
    }
}

pub proof fn replay_more_rows(
    t: Seq<TokenView>,
    p: int,
    d: nat,
    list: Seq<Seq<ExprView>>,
    t2: Seq<TokenView>,
    p2: int,
    list2: Seq<Seq<ExprView>>,
) -> (suffix: Seq<KindView>)
    requires
        matching::ended(t),
        matching::sound(t),
        matching::ended(t2),
        0 <= p,
        list.len() > 0,
        hidden_statement::rows(t, p, d, list) is Ok,
    ensures
        ({
            let (all, q) = hidden_statement::rows(t, p, d, list)->Ok_0;
            &&& p <= q
            &&& all.len() > 0
            &&& shape::commas(shape::rows_kinds(all)) == shape::commas(shape::rows_kinds(list))
                + suffix
            &&& shape::rows_hold(list) ==> shape::rows_hold(all)
            &&& suffix.len() > 0 ==> suffix[0] == KindView::Comma
            &&& shape::bare_rows(list2)
                == shape::bare_rows(list) && list2.len() == list.len() && matching::at(
                t2,
                p2,
                suffix,
            ) && rules::kind(t2, p2 + suffix.len()) != KindView::Comma ==> rows_again(
                t,
                hidden_statement::rows(t2, p2, d, list2),
                all,
                p2 + suffix.len(),
            )
        }),
    decreases rules::left(t, p),
{
    let all = hidden_statement::rows(t, p, d, list)->Ok_0.0;
    hidden_statement::lemma_rows(t, p, d, list);
    if rules::kind(t, p) == KindView::Comma {
        replay_row(t, p + 1, d, t2, p2 + 1);
        let (x, q) = hidden_statement::row(t, p + 1, d)->Ok_0;
        let x2 = hidden_statement::row(t2, p2 + 1, d)->Ok_0.0;
        matching::lemma_progress(t, p, q);
        shape::lemma_rows_len(list);
        shape::lemma_rows_push(list, x);
        shape::lemma_rows_push(list2, x2);
        leaves::lemma_commas_push(shape::rows_kinds(list), row_kinds(x));
        let q2: int = p2 + 1 + row_kinds(x).len();
        let rest = replay_more_rows(t, q, d, list.push(x), t2, q2, list2.push(x2));
        let suffix = seq![KindView::Comma] + row_kinds(x) + rest;
        leaves::lemma_regroup(
            shape::commas(shape::rows_kinds(list)),
            seq![KindView::Comma],
            row_kinds(x),
            rest,
        );
        assert(suffix[0] == KindView::Comma);
        let end = rules::kind(t2, p2 + suffix.len());
        if matching::at(t2, p2, suffix) && end != KindView::Comma {
            rows_item_again(t, t2, p2, d, list2, x, rest);
        }
        suffix
    } else {
        hidden_statement::lemma_rows(t2, p2, d, list2);
        leaves::lemma_nothing_more(shape::commas(shape::rows_kinds(list)));
        seq![]
    }
}

/// One item behind a comma, printed, is read again in front of the others.
proof fn rows_item_again(
    src: Seq<TokenView>,
    t: Seq<TokenView>,
    p: int,
    d: nat,
    list: Seq<Seq<ExprView>>,
    x: Seq<ExprView>,
    rest: Seq<KindView>,
)
    requires
        matching::ended(t),
        rest.len() > 0 ==> rest[0] == KindView::Comma,
        matching::at(t, p, seq![KindView::Comma] + row_kinds(x) + rest),
        rules::kind(t, p + (seq![KindView::Comma] + row_kinds(x) + rest).len()) != KindView::Comma,
        rows_item_replays(src, x, t, p + 1, d),
    ensures
        ({
            let q = p + 1 + row_kinds(x).len();
            let x2 = hidden_statement::row(t, p + 1, d)->Ok_0.0;
            let good = hidden_statement::row(t, p + 1, d) is Ok;
            &&& good ==> hidden_statement::rows(t, p, d, list) == hidden_statement::rows(t, q, d,
                list.push(x2))
            &&& good ==> shape::bare_exprs(x2) == shape::bare_exprs(x)
            &&& !good ==> hidden_statement::rows(t, p, d, list) is Err && matching::refused(src,
                hidden_statement::rows(t, p, d, list)->Err_0)
            &&& matching::at(t, q, rest)
            &&& q + rest.len() == p + (seq![KindView::Comma] + row_kinds(x) + rest).len()
        }),
{
    hidden_statement::lemma_rows(t, p, d, list);
    let q: int = p + 1 + row_kinds(x).len();
    matching::split3(t, p, seq![KindView::Comma], row_kinds(x), rest);
    matching::lemma_at_head(t, q, rest);
    matching::lemma_progress(t, p, q);
}

/// Whether the item `x`, printed at `p`, is read again.
pub open spec fn rows_item_replays(src: Seq<TokenView>, x: Seq<ExprView>, t: Seq<TokenView>,
    p: int, d: nat) -> bool {
    matching::at(t, p, row_kinds(x)) && true ==>
        match hidden_statement::row(t, p, d) {
        Ok((y, q)) => shape::bare_exprs(y) == shape::bare_exprs(x) && q == p + row_kinds(x).len(),
        Err(f) => matching::refused(src, f),
    }
}

/// Whether what was read is `a`, its places aside, up to `e`.
pub open spec fn source_again(
    src: Seq<TokenView>,
    r: Parsed<(InsertSourceView, Span)>,
    a: InsertSourceView,
    e: int,
) -> bool {
    match r {
        Ok((b, q)) => b.0.bare() == a.bare() && q == e,
        Err(f) => matching::refused(src, f),
    }
}

proof fn replay_source(t: Seq<TokenView>, p: int, d: nat, t2: Seq<TokenView>, p2: int)
    requires
        matching::ended(t),
        matching::sound(t),
        matching::ended(t2),
        0 <= p,
        hidden_statement::source(t, p, d) is Ok,
    ensures
        ({
            let (found, q) = hidden_statement::source(t, p, d)->Ok_0;
            let x = found.0;
            &&& p < q
            &&& x.holds()
            &&& x.kinds().len() > 0
            &&& x.kinds()[0] != KindView::LParen
            &&& matching::at(t2, p2, x.kinds()) && rules::kind(
                t2,
                p2 + x.kinds().len(),
            ) == KindView::Eof ==> source_again(
                t,
                hidden_statement::source(t2, p2, d),
                x,
                p2 + x.kinds().len(),
            )
        }),
{
    hidden_statement::lemma_source(t, p, d);
    let x = hidden_statement::source(t, p, d)->Ok_0.0.0;
    shape::shape_of_insert_source(x);
    if rules::at_kw(t, p, Keyword::DEFAULT) {
        assert(x.kinds()[0] == KindView::Keyword(Keyword::DEFAULT));
        matching::split2(t2, p2, shape::kw(Keyword::DEFAULT), shape::kw(Keyword::VALUES));
        if matching::at(t2, p2, x.kinds()) {
            hidden_statement::lemma_source(t2, p2, d);
        }
    } else if rules::at_kw(t, p, Keyword::VALUES) {
        let rows = x->Values_0;
        replay_row(t, p + 1, d, t2, p2 + 1);
        let (first, q) = hidden_statement::row(t, p + 1, d)->Ok_0;
        let first2 = hidden_statement::row(t2, p2 + 1, d)->Ok_0.0;
        let q2: int = p2 + 1 + row_kinds(first).len();
        let none = Seq::<Seq<ExprView>>::empty();
        assert(none.push(first) =~= seq![first]);
        shape::lemma_rows_empty();
        shape::lemma_rows_push(none, first);
        shape::lemma_rows_push(none, first2);
        leaves::lemma_commas_push(shape::rows_kinds(none), row_kinds(first));
        let suffix = replay_more_rows(t, q, d, seq![first], t2, q2, seq![first2]);
        let all = shape::commas(shape::rows_kinds(rows));
        assert(x.kinds()[0] == KindView::Keyword(Keyword::VALUES));
        if matching::at(t2, p2, x.kinds()) && rules::kind(
            t2,
            p2 + x.kinds().len(),
        ) == KindView::Eof {
            matching::split2(t2, p2, shape::kw(Keyword::VALUES), all);
            matching::split2(t2, p2 + 1, row_kinds(first), suffix);
            hidden_statement::lemma_source(t2, p2, d);
            if hidden_statement::source(t2, p2, d) is Ok {
                shape::shape_of_insert_source(hidden_statement::source(t2, p2, d)->Ok_0.0.0);
            }
        }
    } else {
        replay_query::replay_select(t, p, d, t2, p2);
        if matching::at(t2, p2, x.kinds()) && rules::kind(
            t2,
            p2 + x.kinds().len(),
        ) == KindView::Eof {
            matching::lemma_at_head(t2, p2, x.kinds());
            hidden_statement::lemma_source(t2, p2, d);
            if hidden_statement::source(t2, p2, d) is Ok {
                shape::shape_of_insert_source(hidden_statement::source(t2, p2, d)->Ok_0.0.0);
            }
        }
    }
}

proof fn lemma_names_push(list: Seq<Seq<char>>, name: Seq<char>)
    ensures
        shape::names_list(list.push(name)) == shape::names_list(list).push(shape::name_kinds(name)),
        shape::names_list(list).len() == list.len(),
{
    assert(shape::names_list(list.push(name)) =~= shape::names_list(list).push(
        shape::name_kinds(name),
    ));
}

proof fn replay_names(
    t: Seq<TokenView>,
    p: int,
    list: Seq<Seq<char>>,
    t2: Seq<TokenView>,
    p2: int,
) -> (suffix: Seq<KindView>)
    requires
        matching::ended(t),
        matching::ended(t2),
        0 <= p,
        0 <= p2,
        list.len() > 0,
        hidden_statement::names(t, p, list) is Ok,
    ensures
        ({
            let (all, q) = hidden_statement::names(t, p, list)->Ok_0;
            &&& p <= q
            &&& shape::commas(shape::names_list(all)) == shape::commas(shape::names_list(list))
                + suffix
            &&& matching::at(t2, p2, suffix) && rules::kind(t2, p2 + suffix.len())
                != KindView::Comma ==> hidden_statement::names(t2, p2, list) == Ok::<
                (Seq<Seq<char>>, int),
                rules::FailView,
            >((all, p2 + suffix.len()))
        }),
    decreases rules::left(t, p),
{
    hidden_statement::lemma_names(t, p, list);
    if rules::kind(t, p) == KindView::Comma {
        let name = rules::kind(t, p + 1)->Identifier_0;
        matching::lemma_progress(t, p, p + 2);
        lemma_names_push(list, name);
        leaves::lemma_commas_push(shape::names_list(list), shape::name_kinds(name));
        let rest = replay_names(t, p + 2, list.push(name), t2, p2 + 2);
        let suffix = seq![KindView::Comma] + shape::name_kinds(name) + rest;
        leaves::lemma_regroup(
            shape::commas(shape::names_list(list)),
            seq![KindView::Comma],
            shape::name_kinds(name),
            rest,
        );
        matching::split3(t2, p2, seq![KindView::Comma], shape::name_kinds(name), rest);
        if matching::at(t2, p2, suffix) {
            hidden_statement::lemma_names(t2, p2, list);
        }
        suffix
    } else {
        leaves::lemma_nothing_more(shape::commas(shape::names_list(list)));
        hidden_statement::lemma_names(t2, p2, list);
        seq![]
    }
}

proof fn replay_optional_names(t: Seq<TokenView>, p: int, t2: Seq<TokenView>, p2: int)
    requires
        matching::ended(t),
        matching::ended(t2),
        0 <= p,
        0 <= p2,
        hidden_statement::optional_names(t, p) is Ok,
    ensures
        ({
            let (x, q) = hidden_statement::optional_names(t, p)->Ok_0;
            let kinds = shape::optional_names_kinds(x);
            &&& p <= q
            &&& matching::at(t2, p2, kinds) && (x is None ==> rules::kind(t2, p2)
                != KindView::LParen) ==> hidden_statement::optional_names(t2, p2) == Ok::<
                (Option<Seq<Seq<char>>>, int),
                rules::FailView,
            >((x, p2 + kinds.len()))
        }),
{
    hidden_statement::lemma_optional_names(t, p);
    hidden_statement::lemma_optional_names(t2, p2);
    let x = hidden_statement::optional_names(t, p)->Ok_0.0;
    match x {
        Some(all) => {
            let first = rules::kind(t, p + 1)->Identifier_0;
            let none = Seq::<Seq<char>>::empty();
            assert(none.push(first) =~= seq![first]);
            lemma_names_push(none, first);
            leaves::lemma_commas_push(shape::names_list(none), shape::name_kinds(first));
            let suffix = replay_names(t, p + 2, seq![first], t2, p2 + 2);
            let inner = shape::commas(shape::names_list(all));
            matching::split_parens(t2, p2, inner);
            matching::split2(t2, p2 + 1, shape::name_kinds(first), suffix);
        },
        None => {},
    }
}

proof fn replay_conflict(t: Seq<TokenView>, p: int, t2: Seq<TokenView>, p2: int)
    requires
        hidden_statement::conflict(t, p) is Ok,
    ensures
        ({
            let (x, q) = hidden_statement::conflict(t, p)->Ok_0;
            let kinds = shape::conflict_kinds(x);
            &&& p <= q
            &&& matching::at(t2, p2, kinds) && rules::at_kw(t2, p2 + kinds.len(), Keyword::INTO)
                ==> hidden_statement::conflict(t2, p2) == Ok::<
                (Option<ConflictAction>, int),
                rules::FailView,
            >((x, p2 + kinds.len()))
        }),
{
    hidden_statement::lemma_conflict(t, p);
    hidden_statement::lemma_conflict(t2, p2);
    let x = hidden_statement::conflict(t, p)->Ok_0.0;
    match x {
        Some(action) => {
            let word = match action {
                ConflictAction::Replace => Keyword::REPLACE,
                ConflictAction::Ignore => Keyword::IGNORE,
                ConflictAction::Abort => Keyword::ABORT,
                ConflictAction::Rollback => Keyword::ROLLBACK,
                ConflictAction::Fail => Keyword::FAIL,
            };
            assert(shape::conflict_kinds(x) == shape::kw(Keyword::OR) + shape::kw(word));
            matching::split2(t2, p2, shape::kw(Keyword::OR), shape::kw(word));
        },
        None => {},
    }
}

pub proof fn replay_insert(t: Seq<TokenView>, p: int, d: nat, t2: Seq<TokenView>, p2: int)
    requires
        matching::ended(t),
        matching::sound(t),
        matching::ended(t2),
        0 <= p,
        hidden_statement::insert(t, p, d) is Ok,
    ensures
        ({
            let a = hidden_statement::insert(t, p, d)->Ok_0.0;
            let e = p2 + a.kinds().len();
            &&& a.holds()
            &&& matching::at(t2, p2, a.kinds()) && rules::kind(t2, e)
                == KindView::Eof ==> match hidden_statement::insert(t2, p2, d) {
                Ok((b, q)) => b.bare() == a.bare() && q == e,
                Err(f) => matching::refused(t, f),
            }
        }),
{
    hidden_statement::lemma_insert(t, p, d);
    let a = hidden_statement::insert(t, p, d)->Ok_0.0;
    let k1 = shape::conflict_kinds(a.or_action);
    let a1: int = p2 + 1 + k1.len();
    replay_conflict(t, p + 1, t2, p2 + 1);
    let q = hidden_statement::conflict(t, p + 1)->Ok_0.1;
    let k2 = shape::optional_names_kinds(a.columns);
    let a2: int = a1 + 2 + k2.len();
    shape::shape_of_insert(a);
    let o2 = hidden_statement::optional_names(t, q + 2)->Ok_0.1;
    if a1 >= 0 {
        replay_optional_names(t, q + 2, t2, a1 + 2);
    }
    lemma_names_advance(t, q + 2);
    replay_source(t, o2, d, t2, a2);
    if matching::at(t2, p2, a.kinds()) && rules::kind(
        t2,
        p2 + a.kinds().len(),
    ) == KindView::Eof {
        matching::split6(
            t2,
            p2,
            shape::kw(Keyword::INSERT),
            k1,
            shape::kw(Keyword::INTO),
            shape::name_kinds(a.table),
            k2,
            a.source.kinds(),
        );
        matching::lemma_at_head(t2, a2, a.source.kinds());
        hidden_statement::lemma_insert(t2, p2, d);
        if hidden_statement::insert(t2, p2, d) is Ok {
            shape::shape_of_insert(hidden_statement::insert(t2, p2, d)->Ok_0.0);
        }
    }
}

/// Reading names never goes back.
proof fn lemma_names_advance(t: Seq<TokenView>, p: int)
    requires
        matching::ended(t),
        0 <= p,
        hidden_statement::optional_names(t, p) is Ok,
    ensures
        hidden_statement::optional_names(t, p)->Ok_0.1 >= p,
{
    replay_optional_names(t, p, t, 0);
}

pub proof fn replay_delete(t: Seq<TokenView>, p: int, d: nat, t2: Seq<TokenView>, p2: int)
    requires
        matching::ended(t),
        matching::sound(t),
        matching::ended(t2),
        0 <= p,
        hidden_statement::delete(t, p, d) is Ok,
    ensures
        ({
            let a = hidden_statement::delete(t, p, d)->Ok_0.0;
            let e = p2 + a.kinds().len();
            &&& a.holds()
            &&& matching::at(t2, p2, a.kinds()) && rules::kind(t2, e)
                == KindView::Eof ==> match hidden_statement::delete(t2, p2, d) {
                Ok((b, q)) => b.bare() == a.bare() && q == e,
                Err(f) => matching::refused(t, f),
            }
        }),
{
    hidden_statement::lemma_delete(t, p, d);
    let a = hidden_statement::delete(t, p, d)->Ok_0.0;
    replay_list::replay_optional(t, p + 3, d, Keyword::WHERE, t2, p2 + 3);
    shape::shape_of_delete(a);
    let last = shape::optional_kinds(Keyword::WHERE, a.where_clause);
    matching::split4(
        t2,
        p2,
        shape::kw(Keyword::DELETE),
        shape::kw(Keyword::FROM),
        shape::name_kinds(a.table),
        last,
    );
    if matching::at(t2, p2, a.kinds()) && rules::kind(
        t2,
        p2 + a.kinds().len(),
    ) == KindView::Eof {
        matching::lemma_stops();
        hidden_statement::lemma_delete(t2, p2, d);
        if hidden_statement::delete(t2, p2, d) is Ok {
            shape::shape_of_delete(hidden_statement::delete(t2, p2, d)->Ok_0.0);
        }
    }
}

// ---- keys ------------------------------------------------------------------------------

proof fn replay_key(t: Seq<TokenView>, p: int, d: nat, t2: Seq<TokenView>, p2: int)
    requires
        matching::ended(t),
        matching::sound(t),
        matching::ended(t2),
        0 <= p,
        hidden_statement::key(t, p, d) is Ok,
    ensures
        ({
            let (x, q) = hidden_statement::key(t, p, d)->Ok_0;
            &&& p < q
            &&& x.holds()
            &&& keys_item_replays(t, x, t2, p2, d)
        }),
{
    let x = hidden_statement::key(t, p, d)->Ok_0.0;
    hidden_statement::lemma_key(t, p, d);
    replay_expr::replay_expr(t, p, d, t2, p2);
    shape::shape_of_indexed_column(x);
    let k1 = shape::direction_kinds(x.desc);
    let q2: int = p2 + x.expr.kinds().len();
    matching::split2(t2, p2, x.expr.kinds(), k1);
    if matching::at(t2, p2, x.kinds()) && ends_key(
        rules::kind(t2, p2 + x.kinds().len()),
    ) {
        matching::lemma_stops();
        matching::lemma_at_head(t2, q2, k1);
        hidden_statement::lemma_key(t2, p2, d);
        if hidden_statement::key(t2, p2, d) is Ok {
            shape::shape_of_indexed_column(hidden_statement::key(t2, p2, d)->Ok_0.0);
        }
    }
}

/// What ends a key column.
pub open spec fn ends_key(k: KindView) -> bool {
    k == KindView::Comma || k == KindView::RParen
}

/// Whether what was read is the list `a`, its places aside, up to `e`.
pub open spec fn keys_again(src: Seq<TokenView>, r: Parsed<Seq<IndexedColumnView>>,
    a: Seq<IndexedColumnView>, e: int)
    -> bool {
    match r {
        Ok((b, q)) => shape::bare_keys(b) == shape::bare_keys(a) && b.len() == a.len() && q == e,
        Err(f) => matching::refused(src, f),
    }
}

pub proof fn replay_more_keys(
    t: Seq<TokenView>,
    p: int,
    d: nat,
    list: Seq<IndexedColumnView>,
    t2: Seq<TokenView>,
    p2: int,
    list2: Seq<IndexedColumnView>,
) -> (suffix: Seq<KindView>)
    requires
        matching::ended(t),
        matching::sound(t),
        matching::ended(t2),
        0 <= p,
        list.len() > 0,
        hidden_statement::keys(t, p, d, list) is Ok,
    ensures
        ({
            let (all, q) = hidden_statement::keys(t, p, d, list)->Ok_0;
            &&& p <= q
            &&& all.len() > 0
            &&& shape::commas(shape::keys_kinds(all)) == shape::commas(shape::keys_kinds(list))
                + suffix
            &&& shape::keys_hold(list) ==> shape::keys_hold(all)
            &&& suffix.len() > 0 ==> suffix[0] == KindView::Comma
            &&& shape::bare_keys(list2)
                == shape::bare_keys(list) && list2.len() == list.len() && matching::at(
                t2,
                p2,
                suffix,
            ) && rules::kind(t2, p2 + suffix.len()) == KindView::RParen ==> keys_again(
                t,
                hidden_statement::keys(t2, p2, d, list2),
                all,
                p2 + suffix.len(),
            )
        }),
    decreases rules::left(t, p),
{
    let all = hidden_statement::keys(t, p, d, list)->Ok_0.0;
    hidden_statement::lemma_keys(t, p, d, list);
    if rules::kind(t, p) == KindView::Comma {
        replay_key(t, p + 1, d, t2, p2 + 1);
        let (x, q) = hidden_statement::key(t, p + 1, d)->Ok_0;
        let x2 = hidden_statement::key(t2, p2 + 1, d)->Ok_0.0;
        matching::lemma_progress(t, p, q);
        shape::lemma_keys_len(list);
        shape::lemma_keys_push(list, x);
        shape::lemma_keys_push(list2, x2);
        leaves::lemma_commas_push(shape::keys_kinds(list), x.kinds());
        let q2: int = p2 + 1 + x.kinds().len();
        let rest = replay_more_keys(t, q, d, list.push(x), t2, q2, list2.push(x2));
        let suffix = seq![KindView::Comma] + x.kinds() + rest;
        leaves::lemma_regroup(
            shape::commas(shape::keys_kinds(list)),
            seq![KindView::Comma],
            x.kinds(),
            rest,
        );
        assert(suffix[0] == KindView::Comma);
        let end = rules::kind(t2, p2 + suffix.len());
        if matching::at(t2, p2, suffix) && end
            == KindView::RParen {
            keys_item_again(t, t2, p2, d, list2, x, rest);
        }
        suffix
    } else {
        hidden_statement::lemma_keys(t2, p2, d, list2);
        leaves::lemma_nothing_more(shape::commas(shape::keys_kinds(list)));
        seq![]
    }
}

/// One item behind a comma, printed, is read again in front of the others.
proof fn keys_item_again(
    src: Seq<TokenView>,
    t: Seq<TokenView>,
    p: int,
    d: nat,
    list: Seq<IndexedColumnView>,
    x: IndexedColumnView,
    rest: Seq<KindView>,
)
    requires
        matching::ended(t),
        rest.len() > 0 ==> rest[0] == KindView::Comma,
        matching::at(t, p, seq![KindView::Comma] + x.kinds() + rest),
        rules::kind(t, p + (seq![KindView::Comma] + x.kinds() + rest).len()) == KindView::RParen,
        keys_item_replays(src, x, t, p + 1, d),
    ensures
        ({
            let q = p + 1 + x.kinds().len();
            let x2 = hidden_statement::key(t, p + 1, d)->Ok_0.0;
            let good = hidden_statement::key(t, p + 1, d) is Ok;
            &&& good ==> hidden_statement::keys(t, p, d, list) == hidden_statement::keys(t, q, d,
                list.push(x2))
            &&& good ==> x2.bare() == x.bare()
            &&& !good ==> hidden_statement::keys(t, p, d, list) is Err && matching::refused(src,
                hidden_statement::keys(t, p, d, list)->Err_0)
            &&& matching::at(t, q, rest)
            &&& q + rest.len() == p + (seq![KindView::Comma] + x.kinds() + rest).len()
        }),
{
    hidden_statement::lemma_keys(t, p, d, list);
    let q: int = p + 1 + x.kinds().len();
    matching::split3(t, p, seq![KindView::Comma], x.kinds(), rest);
    matching::lemma_at_head(t, q, rest);
    matching::lemma_progress(t, p, q);
}

/// Whether the item `x`, printed at `p`, is read again.
pub open spec fn keys_item_replays(src: Seq<TokenView>, x: IndexedColumnView, t: Seq<TokenView>,
    p: int, d: nat)
    -> bool {
    matching::at(t, p, x.kinds()) && ends_key(rules::kind(t, p
        + x.kinds().len())) ==> match hidden_statement::key(t, p, d) {
        Ok((y, q)) => y.bare() == x.bare() && q == p + x.kinds().len(),
        Err(f) => matching::refused(src, f),
    }
}

proof fn replay_key_list(t: Seq<TokenView>, p: int, d: nat, t2: Seq<TokenView>, p2: int)
    requires
        matching::ended(t),
        matching::sound(t),
        matching::ended(t2),
        0 <= p,
        hidden_statement::key_list(t, p, d) is Ok,
    ensures
        ({
            let (x, q) = hidden_statement::key_list(t, p, d)->Ok_0;
            let kinds = shape::in_parens(shape::commas(shape::keys_kinds(x)));
            &&& p < q
            &&& shape::keys_hold(x)
            &&& matching::at(t2, p2, kinds) ==> keys_again(
                t,
                hidden_statement::key_list(t2, p2, d),
                x,
                p2 + kinds.len(),
            )
        }),
{
    hidden_statement::lemma_key_list(t, p, d);
    let x = hidden_statement::key_list(t, p, d)->Ok_0.0;
    replay_key(t, p + 1, d, t2, p2 + 1);
    let (first, q) = hidden_statement::key(t, p + 1, d)->Ok_0;
    let first2 = hidden_statement::key(t2, p2 + 1, d)->Ok_0.0;
    let q2: int = p2 + 1 + first.kinds().len();
    let none = Seq::<IndexedColumnView>::empty();
    assert(none.push(first) =~= seq![first]);
    shape::lemma_keys_empty();
    shape::lemma_keys_push(none, first);
    shape::lemma_keys_push(none, first2);
    leaves::lemma_commas_push(shape::keys_kinds(none), first.kinds());
    let suffix = replay_more_keys(t, q, d, seq![first], t2, q2, seq![first2]);
    let inner = shape::commas(shape::keys_kinds(x));
    let kinds = shape::in_parens(inner);
    if matching::at(t2, p2, kinds) {
        matching::split_parens(t2, p2, inner);
        matching::split2(t2, p2 + 1, first.kinds(), suffix);
        matching::lemma_at_head(t2, q2, suffix);
        hidden_statement::lemma_key_list(t2, p2, d);
    }
}

// ---- column constraints ----------------------------------------------------------------

proof fn replay_check(t: Seq<TokenView>, p: int, d: nat, t2: Seq<TokenView>, p2: int)
    requires
        matching::ended(t),
        matching::sound(t),
        matching::ended(t2),
        0 <= p,
        hidden_statement::check(t, p, d) is Ok,
    ensures
        ({
            let (x, q) = hidden_statement::check(t, p, d)->Ok_0;
            let kinds = shape::in_parens(x.kinds());
            &&& p < q
            &&& x.holds()
            &&& matching::at(t2, p2, kinds) ==> replay_expr::again(
                t,
                hidden_statement::check(t2, p2, d),
                x,
                p2 + kinds.len(),
            )
        }),
{
    hidden_statement::lemma_check(t, p, d);
    let x = hidden_statement::check(t, p, d)->Ok_0.0;
    replay_expr::replay_expr(t, p + 1, d, t2, p2 + 1);
    matching::split_parens(t2, p2, x.kinds());
    if matching::at(t2, p2, shape::in_parens(x.kinds())) {
        matching::lemma_stops();
        hidden_statement::lemma_check(t2, p2, d);
    }
}

/// Whether what was read is the default `a`, its places aside, up to `e`.
pub open spec fn default_again(src: Seq<TokenView>, r: Parsed<DefaultValueView>,
    a: DefaultValueView, e: int) -> bool {
    match r {
        Ok((b, q)) => b.bare() == a.bare() && q == e,
        Err(f) => matching::refused(src, f),
    }
}

proof fn replay_default(t: Seq<TokenView>, p: int, d: nat, t2: Seq<TokenView>, p2: int)
    requires
        matching::ended(t),
        matching::sound(t),
        matching::ended(t2),
        0 <= p,
        hidden_statement::default(t, p, d) is Ok,
    ensures
        ({
            let (x, q) = hidden_statement::default(t, p, d)->Ok_0;
            &&& p < q
            &&& x.holds()
            &&& matching::at(t2, p2, x.kinds()) ==> default_again(
                t,
                hidden_statement::default(t2, p2, d),
                x,
                p2 + x.kinds().len(),
            )
        }),
{
    let x = hidden_statement::default(t, p, d)->Ok_0.0;
    shape::shape_of_default_value(x);
    if rules::kind(t, p) == KindView::LParen {
        hidden_statement::lemma_default_paren(t, p, d);
        replay_expr::replay_expr(t, p + 1, d, t2, p2 + 1);
        let e = rules::expr(t, p + 1, d)->Ok_0.0;
        matching::split_parens(t2, p2, e.kinds());
        if matching::at(t2, p2, x.kinds()) {
            matching::lemma_stops();
            hidden_statement::lemma_default_paren(t2, p2, d);
            if hidden_statement::default(t2, p2, d) is Ok {
                shape::shape_of_default_value(hidden_statement::default(t2, p2, d)->Ok_0.0);
            }
        }
    } else {
        hidden_statement::lemma_is_default(t, p, d);
        let signed = rules::kind(t, p) == KindView::Plus || rules::kind(t, p) == KindView::Minus;
        let s: int = if signed {
            p + 1
        } else {
            p
        };
        let k = rules::kind(t, s);
        let literal = rules::literal_of(k)->0;
        matching::lemma_sound_at(t, s);
        let inner = ExprView { kind: ExprKindView::Literal(literal), span: rules::span(t, s) };
        shape::shape_literal(inner, literal);
        assert(literal.token() == k);
        let e = x->Literal_0;
        if signed {
            let op = if rules::kind(t, p) == KindView::Minus {
                UnaryOp::Minus
            } else {
                UnaryOp::Plus
            };
            shape::shape_unary(e, op, inner);
            default_signed_again(t, t2, p2, d, op, k, x);
        } else {
            assert(e == inner);
            default_plain_again(t, t2, p2, d, k, x);
        }
    }
}

proof fn default_plain_again(
    src: Seq<TokenView>,
    t: Seq<TokenView>,
    p: int,
    d: nat,
    k: KindView,
    x: DefaultValueView,
)
    requires
        rules::literal_of(k) is Some,
        x is Literal,
        x->Literal_0.kind == ExprKindView::Literal(rules::literal_of(k)->0),
        x.kinds() == seq![k],
    ensures
        matching::at(t, p, seq![k]) ==> default_again(
            src,
            hidden_statement::default(t, p, d),
            x,
            p + 1,
        ),
{
    let literal = rules::literal_of(k)->0;
    if matching::at(t, p, seq![k]) {
        hidden_statement::lemma_is_default(t, p, d);
        let y = ExprView { kind: ExprKindView::Literal(literal), span: rules::span(t, p) };
        shape::shape_literal(y, literal);
        shape::shape_literal(x->Literal_0, literal);
        shape::shape_of_default_value(x);
        shape::shape_of_default_value(DefaultValueView::Literal(y));
    }
}

proof fn default_signed_again(
    src: Seq<TokenView>,
    t: Seq<TokenView>,
    p: int,
    d: nat,
    op: UnaryOp,
    k: KindView,
    x: DefaultValueView,
)
    requires
        op == UnaryOp::Plus || op == UnaryOp::Minus,
        rules::literal_of(k) is Some,
        x is Literal,
        ({
            let inner = x->Literal_0.kind->Unary_expr;
            &&& x->Literal_0.kind == (ExprKindView::Unary { op, expr: inner })
            &&& inner.kind == ExprKindView::Literal(rules::literal_of(k)->0)
        }),
        x.kinds() == seq![shape::unary_kind(op)] + seq![k],
    ensures
        matching::at(t, p, x.kinds()) ==> default_again(
            src,
            hidden_statement::default(t, p, d),
            x,
            p + 2,
        ),
{
    let literal = rules::literal_of(k)->0;
    matching::split2(t, p, seq![shape::unary_kind(op)], seq![k]);
    if matching::at(t, p, x.kinds()) {
        hidden_statement::lemma_is_default(t, p, d);
        let z = ExprView { kind: ExprKindView::Literal(literal), span: rules::span(t, p + 1) };
        let y = ExprView {
            kind: ExprKindView::Unary { op, expr: Box::new(z) },
            span: rules::join_span(rules::span(t, p), z.span),
        };
        let inner = x->Literal_0.kind->Unary_expr;
        shape::shape_literal(z, literal);
        shape::shape_literal(*inner, literal);
        shape::shape_unary(y, op, z);
        shape::shape_unary(x->Literal_0, op, *inner);
        shape::shape_of_default_value(x);
        shape::shape_of_default_value(DefaultValueView::Literal(y));
    }
}

/// What a column constraint begins with.
pub open spec fn is_constraint(k: KindView) -> bool {
    matching::is_kw(k, Keyword::NOT) || matching::is_kw(k, Keyword::PRIMARY) || matching::is_kw(
        k,
        Keyword::UNIQUE,
    ) || matching::is_kw(k, Keyword::CHECK) || matching::is_kw(k, Keyword::DEFAULT)
        || matching::is_kw(k, Keyword::COLLATE)
}

/// What ends a column constraint.
pub open spec fn ends_constraint(k: KindView) -> bool {
    ends_key(k) || is_constraint(k)
}

/// Whether what was read is the constraint `a`, its places aside, up to `e`.
pub open spec fn constraint_again(
    src: Seq<TokenView>,
    r: Parsed<Option<ColumnConstraintView>>,
    a: ColumnConstraintView,
    e: int,
) -> bool {
    match r {
        Ok((Some(b), q)) => b.bare() == a.bare() && q == e,
        Ok(_) => false,
        Err(f) => matching::refused(src, f),
    }
}

proof fn replay_constraint(t: Seq<TokenView>, p: int, d: nat, t2: Seq<TokenView>, p2: int)
    requires
        matching::ended(t),
        matching::sound(t),
        matching::ended(t2),
        0 <= p,
        hidden_statement::constraint(t, p, d) is Ok,
        hidden_statement::constraint(t, p, d)->Ok_0.0 is Some,
    ensures
        ({
            let (item, q) = hidden_statement::constraint(t, p, d)->Ok_0;
            let x = item->0;
            &&& p < q
            &&& rules::kind(t, p) != KindView::Eof
            &&& x.holds()
            &&& x.kinds().len() > 0
            &&& is_constraint(x.kinds()[0])
            &&& matching::at(t2, p2, x.kinds()) && ends_constraint(
                rules::kind(t2, p2 + x.kinds().len()),
            ) ==> constraint_again(
                t,
                hidden_statement::constraint(t2, p2, d),
                x,
                p2 + x.kinds().len(),
            )
        }),
{
    hidden_statement::lemma_constraint(t, p, d);
    let (named, o) = rules::opt_constraint_name(t, p)->Ok_0;
    let x = hidden_statement::constraint(t, p, d)->Ok_0.0->0;
    hidden_statement::lemma_constraint_words(t, o, d, named);
    if rules::at_kw(t, o, Keyword::NOT) || rules::at_kw(t, o, Keyword::PRIMARY) || rules::at_kw(
        t,
        o,
        Keyword::UNIQUE,
    ) {
        replay_plain_constraint(t, o, d, named, t2, p2);
    } else {
        replay_nested_constraint(t, o, d, named, t2, p2);
    }
    if matching::at(t2, p2, x.kinds()) {
        matching::lemma_at_head(t2, p2, x.kinds());
        hidden_statement::lemma_constraint(t2, p2, d);
    }
}

proof fn replay_plain_constraint(
    t: Seq<TokenView>,
    p: int,
    d: nat,
    named: bool,
    t2: Seq<TokenView>,
    p2: int,
)
    requires
        0 <= p,
        rules::at_kw(t, p, Keyword::NOT) || rules::at_kw(t, p, Keyword::PRIMARY) || rules::at_kw(
            t,
            p,
            Keyword::UNIQUE,
        ),
        hidden_statement::constraint_at(t, p, d, named) is Ok,
    ensures
        ({
            let (item, q) = hidden_statement::constraint_at(t, p, d, named)->Ok_0;
            let x = item->0;
            &&& item is Some
            &&& p < q
            &&& x.holds()
            &&& x.kinds().len() > 0
            &&& is_constraint(x.kinds()[0])
            &&& matching::at(t2, p2, x.kinds()) && ends_constraint(
                rules::kind(t2, p2 + x.kinds().len()),
            ) ==> constraint_again(
                t,
                hidden_statement::constraint_at(t2, p2, d, false),
                x,
                p2 + x.kinds().len(),
            )
        }),
{
    hidden_statement::lemma_constraint_plain(t, p, d, named);
    let x = hidden_statement::constraint_at(t, p, d, named)->Ok_0.0->0;
    shape::shape_of_column_constraint(x);
    match x {
        ColumnConstraintView::NotNull => {
            assert(x.kinds()[0] == KindView::Keyword(Keyword::NOT));
            matching::split2(t2, p2, shape::kw(Keyword::NOT), seq![KindView::Null]);
        },
        ColumnConstraintView::PrimaryKey { desc, autoincrement } => {
            assert(x.kinds()[0] == KindView::Keyword(Keyword::PRIMARY));
            let k1 = shape::direction_kinds(desc);
            let k2 = shape::flag_kinds(autoincrement, Keyword::AUTOINCREMENT);
            matching::split4(
                t2,
                p2,
                shape::kw(Keyword::PRIMARY),
                shape::kw(Keyword::KEY),
                k1,
                k2,
            );
            if matching::at(t2, p2, x.kinds()) {
                matching::lemma_at_head(t2, p2 + 2, k1);
                matching::lemma_at_head(t2, p2 + 2 + k1.len(), k2);
            }
        },
        _ => {
            assert(x.kinds()[0] == KindView::Keyword(Keyword::UNIQUE));
        },
    }
    if matching::at(t2, p2, x.kinds()) {
        hidden_statement::lemma_constraint_plain(t2, p2, d, false);
    }
}

proof fn replay_nested_constraint(
    t: Seq<TokenView>,
    p: int,
    d: nat,
    named: bool,
    t2: Seq<TokenView>,
    p2: int,
)
    requires
        matching::ended(t),
        matching::sound(t),
        matching::ended(t2),
        0 <= p,
        rules::at_kw(t, p, Keyword::CHECK) || rules::at_kw(t, p, Keyword::DEFAULT) || rules::at_kw(
            t,
            p,
            Keyword::COLLATE,
        ),
        hidden_statement::constraint_at(t, p, d, named) is Ok,
    ensures
        ({
            let (item, q) = hidden_statement::constraint_at(t, p, d, named)->Ok_0;
            let x = item->0;
            &&& item is Some
            &&& p < q
            &&& x.holds()
            &&& x.kinds().len() > 0
            &&& is_constraint(x.kinds()[0])
            &&& matching::at(t2, p2, x.kinds()) ==> constraint_again(
                t,
                hidden_statement::constraint_at(t2, p2, d, false),
                x,
                p2 + x.kinds().len(),
            )
        }),
{
    hidden_statement::lemma_constraint_nested(t, p, d, named);
    let x = hidden_statement::constraint_at(t, p, d, named)->Ok_0.0->0;
    shape::shape_of_column_constraint(x);
    match x {
        ColumnConstraintView::Check(e) => {
            replay_check(t, p + 1, d, t2, p2 + 1);
            assert(x.kinds()[0] == KindView::Keyword(Keyword::CHECK));
            matching::split2(t2, p2, shape::kw(Keyword::CHECK), shape::in_parens(e.kinds()));
        },
        ColumnConstraintView::Default(value) => {
            replay_default(t, p + 1, d, t2, p2 + 1);
            assert(x.kinds()[0] == KindView::Keyword(Keyword::DEFAULT));
            matching::split2(t2, p2, shape::kw(Keyword::DEFAULT), value.kinds());
        },
        ColumnConstraintView::Collate(name) => {
            assert(x.kinds()[0] == KindView::Keyword(Keyword::COLLATE));
            matching::split2(t2, p2, shape::kw(Keyword::COLLATE), shape::name_kinds(name));
        },
        _ => {},
    }
    if matching::at(t2, p2, x.kinds()) {
        hidden_statement::lemma_constraint_nested(t2, p2, d, false);
        shape::shape_of_column_constraint(
            hidden_statement::constraint_at(t2, p2, d, false)->Ok_0.0->0,
        );
    }
}

/// Whether what was read are the constraints `a`, their places aside, up to `e`.
pub open spec fn constraints_again(
    src: Seq<TokenView>,
    r: Parsed<Seq<ColumnConstraintView>>,
    a: Seq<ColumnConstraintView>,
    e: int,
) -> bool {
    match r {
        Ok((b, q)) => shape::bare_constraints(b) == shape::bare_constraints(a) && q == e,
        Err(f) => matching::refused(src, f),
    }
}

proof fn replay_constraints(
    t: Seq<TokenView>,
    p: int,
    d: nat,
    list: Seq<ColumnConstraintView>,
    t2: Seq<TokenView>,
    p2: int,
    list2: Seq<ColumnConstraintView>,
) -> (suffix: Seq<KindView>)
    requires
        matching::ended(t),
        matching::sound(t),
        matching::ended(t2),
        0 <= p,
        hidden_statement::constraints(t, p, d, list) is Ok,
    ensures
        ({
            let (all, q) = hidden_statement::constraints(t, p, d, list)->Ok_0;
            &&& p <= q
            &&& shape::each_after(seq![], shape::constraints_kinds(all)) == shape::each_after(
                seq![],
                shape::constraints_kinds(list),
            ) + suffix
            &&& shape::constraints_hold(list) ==> shape::constraints_hold(
                all)
            &&& suffix.len() > 0 ==> is_constraint(suffix[0])
            &&& shape::bare_constraints(list2)
                == shape::bare_constraints(list) && matching::at(t2, p2, suffix) && ends_key(
                rules::kind(t2, p2 + suffix.len()),
            ) ==> constraints_again(
                t,
                hidden_statement::constraints(t2, p2, d, list2),
                all,
                p2 + suffix.len(),
            )
        }),
    decreases rules::left(t, p),
{
    let all = hidden_statement::constraints(t, p, d, list)->Ok_0.0;
    let nothing = Seq::<KindView>::empty();
    hidden_statement::lemma_constraints(t, p, d, list);
    let before = shape::each_after(nothing, shape::constraints_kinds(list));
    let (item, q) = hidden_statement::constraint(t, p, d)->Ok_0;
    match item {
        Some(x) => {
            replay_constraint(t, p, d, t2, p2);
            let x2 = hidden_statement::constraint(t2, p2, d)->Ok_0.0->0;
            matching::lemma_progress(t, p, q);
            shape::lemma_constraints_push(list, x);
            shape::lemma_constraints_push(list2, x2);
            let q2: int = p2 + x.kinds().len();
            let rest = replay_constraints(t, q, d, list.push(x), t2, q2, list2.push(x2));
            let suffix = x.kinds() + rest;
            leaves::lemma_each_push(nothing, shape::constraints_kinds(list), x.kinds());
            leaves::lemma_nothing_more(before);
            leaves::lemma_regroup3(before, x.kinds(), rest);
            assert(suffix[0] == x.kinds()[0]);
            matching::split2(t2, p2, x.kinds(), rest);
            if matching::at(t2, p2, suffix) && ends_key(rules::kind(t2, p2 + suffix.len())) {
                matching::lemma_at_head(t2, p2, x.kinds());
                matching::lemma_at_head(t2, q2, rest);
                matching::lemma_progress(t2, p2, q2);
                hidden_statement::lemma_constraints(t2, p2, d, list2);
            }
            suffix
        },
        None => {
            leaves::lemma_nothing_more(before);
            hidden_statement::lemma_constraint(t, p, d);
            let (named, o) = rules::opt_constraint_name(t, p)->Ok_0;
            hidden_statement::lemma_constraint_words(t, o, d, named);
            hidden_statement::lemma_constraint(t2, p2, d);
            hidden_statement::lemma_constraint_words(t2, p2, d, false);
            hidden_statement::lemma_constraints(t2, p2, d, list2);
            nothing
        },
    }
}

// ---- CREATE TABLE ------------------------------------------------------------------------

pub open spec fn optional_type_kinds(words: Option<Seq<char>>) -> Seq<KindView> {
    match words {
        Some(w) => shape::type_kinds(w),
        None => seq![],
    }
}

/// Whether what was read is the column `a`, its places aside, up to `e`.
pub open spec fn def_again(src: Seq<TokenView>, r: Parsed<ColumnDefView>, a: ColumnDefView, e: int)
    -> bool {
    match r {
        Ok((b, q)) => b.bare() == a.bare() && q == e,
        Err(f) => matching::refused(src, f),
    }
}

proof fn replay_def(t: Seq<TokenView>, p: int, d: nat, t2: Seq<TokenView>, p2: int)
    requires
        matching::ended(t),
        matching::sound(t),
        matching::ended(t2),
        0 <= p,
        hidden_statement::def(t, p, d) is Ok,
    ensures
        ({
            let (x, q) = hidden_statement::def(t, p, d)->Ok_0;
            &&& p < q
            &&& x.holds()
            &&& x.kinds().len() > 0
            &&& x.kinds()[0] is Identifier
            &&& matching::at(t2, p2, x.kinds()) && ends_key(
                rules::kind(t2, p2 + x.kinds().len()),
            ) ==> def_again(t, hidden_statement::def(t2, p2, d), x, p2 + x.kinds().len())
        }),
{
    let x = hidden_statement::def(t, p, d)->Ok_0.0;
    hidden_statement::lemma_def(t, p, d);
    shape::shape_of_column_def(x);
    let nothing = Seq::<KindView>::empty();
    if rules::kind(t, p + 1) is Identifier {
        leaves::lemma_type_advances(t, p + 1);
    }
    let q = rules::opt_declared_type(t, p + 1)->Ok_0.1;
    let k1 = optional_type_kinds(x.declared_type);
    let q2: int = p2 + 1 + k1.len();
    shape::lemma_constraints_empty();
    leaves::lemma_empty_lists(nothing);
    let k2 = replay_constraints(t, q, d, seq![], t2, q2, seq![]);
    assert(k2 =~= shape::each_after(nothing, shape::constraints_kinds(x.constraints)));
    assert(x.kinds()[0] == KindView::Identifier(x.name));
    if matching::at(t2, p2, x.kinds()) && ends_key(
        rules::kind(t2, p2 + x.kinds().len()),
    ) {
        matching::split3(t2, p2, shape::name_kinds(x.name), k1, k2);
        matching::lemma_at_head(t2, q2, k2);
        match x.declared_type {
            Some(w) => {
                leaves::lemma_type(t2, p2 + 1, w);
                matching::lemma_at_head(t2, p2 + 1, k1);
            },
            None => {},
        }
        hidden_statement::lemma_def(t2, p2, d);
        if hidden_statement::def(t2, p2, d) is Ok {
            shape::shape_of_column_def(hidden_statement::def(t2, p2, d)->Ok_0.0);
        }
    }
}

/// What a table constraint begins with.
pub open spec fn is_rule(k: KindView) -> bool {
    matching::is_kw(k, Keyword::PRIMARY) || matching::is_kw(k, Keyword::UNIQUE) || matching::is_kw(
        k,
        Keyword::CHECK,
    )
}

/// Whether what was read is the table constraint `a`, its places aside, up to `e`.
pub open spec fn rule_again(
    src: Seq<TokenView>,
    r: Parsed<TableConstraintView>,
    a: TableConstraintView,
    e: int,
) -> bool {
    match r {
        Ok((b, q)) => b.bare() == a.bare() && q == e,
        Err(f) => matching::refused(src, f),
    }
}

proof fn replay_rule(t: Seq<TokenView>, p: int, d: nat, t2: Seq<TokenView>, p2: int)
    requires
        matching::ended(t),
        matching::sound(t),
        matching::ended(t2),
        0 <= p,
        hidden_statement::rule(t, p, d) is Ok,
    ensures
        ({
            let (x, q) = hidden_statement::rule(t, p, d)->Ok_0;
            &&& p < q
            &&& x.holds()
            &&& x.kinds().len() > 0
            &&& is_rule(x.kinds()[0])
            &&& matching::at(t2, p2, x.kinds()) && ends_key(
                rules::kind(t2, p2 + x.kinds().len()),
            ) ==> rule_again(t, hidden_statement::rule(t2, p2, d), x, p2 + x.kinds().len())
        }),
{
    let x = hidden_statement::rule(t, p, d)->Ok_0.0;
    hidden_statement::lemma_rule(t, p, d);
    let o = rules::opt_constraint_name(t, p)->Ok_0.1;
    shape::shape_of_table_constraint(x);
    match x {
        TableConstraintView::PrimaryKey(keys) => {
            replay_key_list(t, o + 2, d, t2, p2 + 2);
            assert(x.kinds()[0] == KindView::Keyword(Keyword::PRIMARY));
            matching::split3(
                t2,
                p2,
                shape::kw(Keyword::PRIMARY),
                shape::kw(Keyword::KEY),
                shape::in_parens(shape::commas(shape::keys_kinds(keys))),
            );
        },
        TableConstraintView::Unique(keys) => {
            replay_key_list(t, o + 1, d, t2, p2 + 1);
            assert(x.kinds()[0] == KindView::Keyword(Keyword::UNIQUE));
            matching::split2(
                t2,
                p2,
                shape::kw(Keyword::UNIQUE),
                shape::in_parens(shape::commas(shape::keys_kinds(keys))),
            );
        },
        TableConstraintView::Check(e) => {
            replay_check(t, o + 1, d, t2, p2 + 1);
            assert(x.kinds()[0] == KindView::Keyword(Keyword::CHECK));
            matching::split2(t2, p2, shape::kw(Keyword::CHECK), shape::in_parens(e.kinds()));
        },
    }
    if matching::at(t2, p2, x.kinds()) && ends_key(
        rules::kind(t2, p2 + x.kinds().len()),
    ) {
        hidden_statement::lemma_rule(t2, p2, d);
        if hidden_statement::rule(t2, p2, d) is Ok {
            shape::shape_of_table_constraint(hidden_statement::rule(t2, p2, d)->Ok_0.0);
        }
    }
}

/// Whether what was read are the table constraints `a`, their places aside, up to `e`.
pub open spec fn rules_again(
    src: Seq<TokenView>,
    r: Parsed<Seq<TableConstraintView>>,
    a: Seq<TableConstraintView>,
    e: int,
) -> bool {
    match r {
        Ok((b, q)) => shape::bare_rules(b) == shape::bare_rules(a) && q == e,
        Err(f) => matching::refused(src, f),
    }
}

proof fn replay_rules(
    t: Seq<TokenView>,
    p: int,
    d: nat,
    list: Seq<TableConstraintView>,
    t2: Seq<TokenView>,
    p2: int,
    list2: Seq<TableConstraintView>,
) -> (suffix: Seq<KindView>)
    requires
        matching::ended(t),
        matching::sound(t),
        matching::ended(t2),
        0 <= p,
        hidden_statement::table_rules(t, p, d, list) is Ok,
    ensures
        ({
            let lead = seq![KindView::Comma];
            let (all, q) = hidden_statement::table_rules(t, p, d, list)->Ok_0;
            &&& p <= q
            &&& shape::each_after(lead, shape::rules_kinds(all)) == shape::each_after(
                lead,
                shape::rules_kinds(list),
            ) + suffix
            &&& shape::rules_hold(list) ==> shape::rules_hold(
                all)
            &&& rules::kind(t, p) == KindView::Comma ==> suffix.len() > 1
            &&& suffix.len() > 0 ==> suffix.len() > 1 && suffix[0] == KindView::Comma && is_rule(
                suffix[1],
            )
            &&& shape::bare_rules(list2)
                == shape::bare_rules(list) && matching::at(t2, p2, suffix) && rules::kind(
                t2,
                p2 + suffix.len(),
            ) == KindView::RParen ==> rules_again(
                t,
                hidden_statement::table_rules(t2, p2, d, list2),
                all,
                p2 + suffix.len(),
            )
        }),
    decreases rules::left(t, p),
{
    let lead = seq![KindView::Comma];
    let all = hidden_statement::table_rules(t, p, d, list)->Ok_0.0;
    hidden_statement::lemma_table_rules(t, p, d, list);
    let before = shape::each_after(lead, shape::rules_kinds(list));
    if rules::kind(t, p) == KindView::Comma {
        replay_rule(t, p + 1, d, t2, p2 + 1);
        let (x, q) = hidden_statement::rule(t, p + 1, d)->Ok_0;
        let x2 = hidden_statement::rule(t2, p2 + 1, d)->Ok_0.0;
        matching::lemma_progress(t, p, q);
        shape::lemma_rules_push(list, x);
        shape::lemma_rules_push(list2, x2);
        let q2: int = p2 + 1 + x.kinds().len();
        let rest = replay_rules(t, q, d, list.push(x), t2, q2, list2.push(x2));
        let suffix = lead + x.kinds() + rest;
        leaves::lemma_each_push(lead, shape::rules_kinds(list), x.kinds());
        leaves::lemma_regroup(before, lead, x.kinds(), rest);
        assert(suffix[0] == KindView::Comma);
        assert(suffix[1] == x.kinds()[0]);
        matching::split3(t2, p2, lead, x.kinds(), rest);
        if matching::at(t2, p2, suffix) && rules::kind(
            t2,
            p2 + suffix.len(),
        ) == KindView::RParen {
            matching::lemma_at_head(t2, q2, rest);
            matching::lemma_progress(t2, p2, q2);
            hidden_statement::lemma_table_rules(t2, p2, d, list2);
        }
        suffix
    } else {
        leaves::lemma_nothing_more(before);
        hidden_statement::lemma_table_rules(t2, p2, d, list2);
        seq![]
    }
}

/// Whether what was read are these columns and table constraints, their places aside, up
/// to `e`.
pub open spec fn items_again(
    src: Seq<TokenView>,
    r: Parsed<(Seq<ColumnDefView>, Seq<TableConstraintView>)>,
    a: (Seq<ColumnDefView>, Seq<TableConstraintView>),
    e: int,
) -> bool {
    match r {
        Ok((b, q)) => shape::bare_defs(b.0) == shape::bare_defs(a.0) && shape::bare_rules(b.1)
            == shape::bare_rules(a.1) && q == e,
        Err(f) => matching::refused(src, f),
    }
}

/// The kinds of columns and table constraints.
pub open spec fn items_kinds(x: (Seq<ColumnDefView>, Seq<TableConstraintView>)) -> Seq<KindView> {
    shape::commas(shape::defs_kinds(x.0)) + shape::each_after(
        seq![KindView::Comma],
        shape::rules_kinds(x.1),
    )
}

pub open spec fn items_hold(x: (Seq<ColumnDefView>, Seq<TableConstraintView>)) -> bool {
    shape::defs_hold(x.0) && shape::rules_hold(x.1)
}

proof fn replay_items(
    t: Seq<TokenView>,
    p: int,
    d: nat,
    list: Seq<ColumnDefView>,
    t2: Seq<TokenView>,
    p2: int,
    list2: Seq<ColumnDefView>,
) -> (suffix: Seq<KindView>)
    requires
        matching::ended(t),
        matching::sound(t),
        matching::ended(t2),
        0 <= p,
        list.len() > 0,
        hidden_statement::items(t, p, d, list) is Ok,
    ensures
        ({
            let (all, q) = hidden_statement::items(t, p, d, list)->Ok_0;
            &&& p <= q
            &&& items_kinds(all) == shape::commas(shape::defs_kinds(list)) + suffix
            &&& shape::defs_hold(list) ==> items_hold(all)
            &&& suffix.len() > 0 ==> suffix[0] == KindView::Comma
            &&& shape::bare_defs(list2) == shape::bare_defs(list)
                && matching::at(t2, p2, suffix) && rules::kind(t2, p2 + suffix.len())
                == KindView::RParen ==> items_again(
                t,
                hidden_statement::items(t2, p2, d, list2),
                all,
                p2 + suffix.len(),
            )
        }),
    decreases rules::left(t, p),
{
    let all = hidden_statement::items(t, p, d, list)->Ok_0.0;
    hidden_statement::lemma_items(t, p, d, list);
    let before = shape::commas(shape::defs_kinds(list));
    let lead = seq![KindView::Comma];
    shape::lemma_rules_empty();
    leaves::lemma_empty_lists(lead);
    if rules::kind(t, p) != KindView::Comma {
        hidden_statement::lemma_items(t2, p2, d, list2);
        seq![]
    } else if rules::at_table_constraint_start(t, p + 1) {
        let suffix = replay_rules(t, p, d, seq![], t2, p2, seq![]);
        assert(suffix =~= shape::each_after(lead, shape::rules_kinds(all.1)));
        if matching::at(t2, p2, suffix) {
            matching::lemma_at_head(t2, p2, suffix);
            matching::lemma_at_three(t2, p2, suffix);
            hidden_statement::lemma_items(t2, p2, d, list2);
        }
        suffix
    } else {
        replay_def(t, p + 1, d, t2, p2 + 1);
        let (x, q) = hidden_statement::def(t, p + 1, d)->Ok_0;
        let x2 = hidden_statement::def(t2, p2 + 1, d)->Ok_0.0;
        matching::lemma_progress(t, p, q);
        shape::lemma_defs_len(list);
        shape::lemma_defs_push(list, x);
        shape::lemma_defs_push(list2, x2);
        leaves::lemma_commas_push(shape::defs_kinds(list), x.kinds());
        let q2: int = p2 + 1 + x.kinds().len();
        let rest = replay_items(t, q, d, list.push(x), t2, q2, list2.push(x2));
        let suffix = lead + x.kinds() + rest;
        leaves::lemma_regroup(before, lead, x.kinds(), rest);
        assert(suffix[0] == KindView::Comma);
        if matching::at(t2, p2, suffix) && rules::kind(
            t2,
            p2 + suffix.len(),
        ) == KindView::RParen {
            matching::split3(t2, p2, lead, x.kinds(), rest);
            matching::lemma_at_head(t2, p2 + 1, x.kinds());
            matching::lemma_at_head(t2, q2, rest);
            matching::lemma_progress(t2, p2, q2);
            hidden_statement::lemma_items(t2, p2, d, list2);
        }
        suffix
    }
}

proof fn replay_if_not_exists(t: Seq<TokenView>, p: int, t2: Seq<TokenView>, p2: int)
    requires
        hidden_statement::if_not_exists(t, p) is Ok,
    ensures
        ({
            let (x, q) = hidden_statement::if_not_exists(t, p)->Ok_0;
            let kinds = shape::if_not_exists_kinds(x);
            &&& p <= q
            &&& matching::at(t2, p2, kinds) && rules::kind(t2, p2 + kinds.len()) is Identifier
                ==> hidden_statement::if_not_exists(t2, p2) == Ok::<(bool, int), rules::FailView>(
                (x, p2 + kinds.len()),
            )
        }),
{
    hidden_statement::lemma_if_not_exists(t, p);
    hidden_statement::lemma_if_not_exists(t2, p2);
    matching::split3(
        t2,
        p2,
        shape::kw(Keyword::IF),
        shape::kw(Keyword::NOT),
        shape::kw(Keyword::EXISTS),
    );
}

proof fn options_again(t: Seq<TokenView>, p: int, without_rowid: bool, strict: bool, end: Span)
    requires
        !(without_rowid && strict),
        matching::at(t, p, shape::table_options_kinds(without_rowid, strict)),
        rules::kind(t, p + shape::table_options_kinds(without_rowid, strict).len())
            == KindView::Eof,
    ensures
        match rules::table_options(t, p, end) {
            Ok((x, q)) => x.0 == without_rowid && x.1 == strict && q == p
                + shape::table_options_kinds(without_rowid, strict).len(),
            Err(_) => false,
        },
{
    matching::split2(t, p, shape::kw(Keyword::WITHOUT), shape::name_kinds("ROWID"@));
}

pub proof fn replay_create_table(t: Seq<TokenView>, p: int, d: nat, t2: Seq<TokenView>, p2: int)
    requires
        matching::ended(t),
        matching::sound(t),
        matching::ended(t2),
        0 <= p,
        hidden_statement::create_table(t, p, d) is Ok,
    ensures
        ({
            let a = hidden_statement::create_table(t, p, d)->Ok_0.0;
            let e = p2 + a.kinds().len();
            &&& a.holds()
            &&& matching::at(t2, p2, a.kinds()) && rules::kind(t2, e)
                == KindView::Eof ==> match hidden_statement::create_table(t2, p2, d) {
                Ok((b, q)) => b.bare() == a.bare() && q == e,
                Err(f) => matching::refused(t, f),
            }
        }),
{
    hidden_statement::lemma_create_table(t, p, d);
    let a = hidden_statement::create_table(t, p, d)->Ok_0.0;
    let k1 = shape::if_not_exists_kinds(a.if_not_exists);
    let a1: int = p2 + 2 + k1.len();
    replay_if_not_exists(t, p + 2, t2, p2 + 2);
    let q = hidden_statement::if_not_exists(t, p + 2)->Ok_0.1;
    replay_def(t, q + 2, d, t2, a1 + 2);
    let (first, r) = hidden_statement::def(t, q + 2, d)->Ok_0;
    let first2 = hidden_statement::def(t2, a1 + 2, d)->Ok_0.0;
    let a2: int = a1 + 2 + first.kinds().len();
    let none = Seq::<ColumnDefView>::empty();
    assert(none.push(first) =~= seq![first]);
    shape::lemma_defs_empty();
    shape::lemma_defs_push(none, first);
    shape::lemma_defs_push(none, first2);
    leaves::lemma_commas_push(shape::defs_kinds(none), first.kinds());
    let suffix = replay_items(t, r, d, seq![first], t2, a2, seq![first2]);
    let k2 = items_kinds((a.columns, a.constraints));
    let a3: int = a1 + 2 + k2.len();
    let k3 = shape::table_options_kinds(a.without_rowid, a.strict);
    shape::shape_of_create_table(a);
    create_table_kinds(a);
    if matching::at(t2, p2, a.kinds()) && rules::kind(
        t2,
        p2 + a.kinds().len(),
    ) == KindView::Eof {
        matching::split8(
            t2,
            p2,
            shape::kw(Keyword::CREATE),
            shape::kw(Keyword::TABLE),
            k1,
            shape::name_kinds(a.name),
            seq![KindView::LParen],
            k2,
            seq![KindView::RParen],
            k3,
        );
        matching::split2(t2, a1 + 2, first.kinds(), suffix);
        matching::lemma_at_head(t2, a2, suffix);
        assert(rules::kind(t2, a3) == KindView::RParen);
        options_again(t2, a3 + 1, a.without_rowid, a.strict, rules::span(t2, a3));
        hidden_statement::lemma_create_table(t2, p2, d);
        if hidden_statement::create_table(t2, p2, d) is Ok {
            shape::shape_of_create_table(hidden_statement::create_table(t2, p2, d)->Ok_0.0);
        }
    }
}

/// What `CREATE TABLE` is printed as, part by part.
proof fn create_table_kinds(a: CreateTableView)
    ensures
        a.kinds() == shape::kw(Keyword::CREATE) + shape::kw(Keyword::TABLE)
            + shape::if_not_exists_kinds(a.if_not_exists) + shape::name_kinds(a.name)
            + seq![KindView::LParen] + items_kinds((a.columns, a.constraints))
            + seq![KindView::RParen] + shape::table_options_kinds(a.without_rowid, a.strict),
{
    shape::shape_of_create_table(a);
    let before = shape::kw(Keyword::CREATE) + shape::kw(Keyword::TABLE)
        + shape::if_not_exists_kinds(a.if_not_exists) + shape::name_kinds(a.name)
        + seq![KindView::LParen];
    leaves::lemma_regroup3(
        before,
        shape::commas(shape::defs_kinds(a.columns)),
        shape::each_after(seq![KindView::Comma], shape::rules_kinds(a.constraints)),
    );
}

pub proof fn replay_create_index(t: Seq<TokenView>, p: int, d: nat, t2: Seq<TokenView>, p2: int)
    requires
        matching::ended(t),
        matching::sound(t),
        matching::ended(t2),
        0 <= p,
        hidden_statement::create_index(t, p, d) is Ok,
    ensures
        ({
            let a = hidden_statement::create_index(t, p, d)->Ok_0.0;
            let e = p2 + a.kinds().len();
            &&& a.holds()
            &&& matching::at(t2, p2, a.kinds()) && rules::kind(t2, e)
                == KindView::Eof ==> match hidden_statement::create_index(t2, p2, d) {
                Ok((b, q)) => b.bare() == a.bare() && q == e,
                Err(f) => matching::refused(t, f),
            }
        }),
{
    hidden_statement::lemma_create_index(t, p, d);
    let a = hidden_statement::create_index(t, p, d)->Ok_0.0;
    let k0 = shape::flag_kinds(a.unique, Keyword::UNIQUE);
    let s = rules::skip_kw(t, p + 1, Keyword::UNIQUE);
    let a0: int = p2 + 1 + k0.len();
    let k1 = shape::if_not_exists_kinds(a.if_not_exists);
    let a1: int = a0 + 1 + k1.len();
    replay_if_not_exists(t, s + 1, t2, a0 + 1);
    let q = hidden_statement::if_not_exists(t, s + 1)->Ok_0.1;
    replay_key_list(t, q + 3, d, t2, a1 + 3);
    let r = hidden_statement::key_list(t, q + 3, d)->Ok_0.1;
    let k2 = shape::in_parens(shape::commas(shape::keys_kinds(a.columns)));
    let a2: int = a1 + 3 + k2.len();
    replay_list::replay_optional(t, r, d, Keyword::WHERE, t2, a2);
    let k3 = shape::optional_kinds(Keyword::WHERE, a.where_clause);
    shape::shape_of_create_index(a);
    if matching::at(t2, p2, a.kinds()) && rules::kind(
        t2,
        p2 + a.kinds().len(),
    ) == KindView::Eof {
        matching::split9(
            t2,
            p2,
            shape::kw(Keyword::CREATE),
            k0,
            shape::kw(Keyword::INDEX),
            k1,
            shape::name_kinds(a.name),
            shape::kw(Keyword::ON),
            shape::name_kinds(a.table),
            k2,
            k3,
        );
        matching::lemma_stops();
        matching::lemma_at_head(t2, a2, k3);
        assert(rules::skip_kw(t2, p2 + 1, Keyword::UNIQUE) == a0);
        hidden_statement::lemma_create_index(t2, p2, d);
        matching::split_parens(t2, a1 + 3, shape::commas(shape::keys_kinds(a.columns)));
        hidden_statement::lemma_create_index_fails(t2, p2, d);
        if hidden_statement::create_index(t2, p2, d) is Ok {
            shape::shape_of_create_index(hidden_statement::create_index(t2, p2, d)->Ok_0.0);
        }
    }
}

// ---- DROP --------------------------------------------------------------------------------

/// The kinds of a `DROP` statement.
pub open spec fn drop_kinds(what: Keyword, if_exists: bool, name: Seq<char>) -> Seq<KindView> {
    shape::kw(Keyword::DROP) + shape::kw(what) + shape::if_exists_kinds(if_exists)
        + shape::name_kinds(name)
}

proof fn drop_again(t: Seq<TokenView>, p: int, what: Keyword, if_exists: bool, name: Seq<char>)
    requires
        matching::at(t, p, drop_kinds(what, if_exists, name)),
        rules::kind(t, p + drop_kinds(what, if_exists, name).len()) == KindView::Eof,
    ensures
        match rules::drop_object(t, p, what) {
            Ok((x, q)) => x.0 == if_exists && x.1 == name && q == p + drop_kinds(
                what,
                if_exists,
                name,
            ).len(),
            Err(_) => false,
        },
{
    let k1 = shape::if_exists_kinds(if_exists);
    matching::split4(
        t,
        p,
        shape::kw(Keyword::DROP),
        shape::kw(what),
        k1,
        shape::name_kinds(name),
    );
    matching::split2(t, p + 2, shape::kw(Keyword::IF), shape::kw(Keyword::EXISTS));
    hidden_statement::lemma_drop(t, p, what);
}

pub proof fn replay_drop_table(t: Seq<TokenView>, p: int, t2: Seq<TokenView>, p2: int)
    requires
        rules::drop_table(t, p) is Ok,
    ensures
        ({
            let a = rules::drop_table(t, p)->Ok_0.0;
            let e = p2 + a.kinds().len();
            matching::at(t2, p2, a.kinds()) && rules::kind(t2, e) == KindView::Eof
                ==> match rules::drop_table(t2, p2) {
                Ok((b, q)) => b.bare() == a.bare() && q == e,
                Err(_) => false,
            }
        }),
{
    let a = rules::drop_table(t, p)->Ok_0.0;
    shape::shape_of_drop_table(a);
    if matching::at(t2, p2, a.kinds()) && rules::kind(t2, p2 + a.kinds().len()) == KindView::Eof {
        drop_again(t2, p2, Keyword::TABLE, a.if_exists, a.name);
        if rules::drop_table(t2, p2) is Ok {
            shape::shape_of_drop_table(rules::drop_table(t2, p2)->Ok_0.0);
        }
    }
}

pub proof fn replay_drop_index(t: Seq<TokenView>, p: int, t2: Seq<TokenView>, p2: int)
    requires
        rules::drop_index(t, p) is Ok,
    ensures
        ({
            let a = rules::drop_index(t, p)->Ok_0.0;
            let e = p2 + a.kinds().len();
            matching::at(t2, p2, a.kinds()) && rules::kind(t2, e) == KindView::Eof
                ==> match rules::drop_index(t2, p2) {
                Ok((b, q)) => b.bare() == a.bare() && q == e,
                Err(_) => false,
            }
        }),
{
    let a = rules::drop_index(t, p)->Ok_0.0;
    shape::shape_of_drop_index(a);
    if matching::at(t2, p2, a.kinds()) && rules::kind(t2, p2 + a.kinds().len()) == KindView::Eof {
        drop_again(t2, p2, Keyword::INDEX, a.if_exists, a.name);
        if rules::drop_index(t2, p2) is Ok {
            shape::shape_of_drop_index(rules::drop_index(t2, p2)->Ok_0.0);
        }
    }
}

} // verus!
