//! The rules of the other statements under names that do not unfold, with what each makes
//! of one case.
use crate::parser::ast::{
    AssignmentView, ColumnConstraintView, ColumnDefView, ConflictAction, CreateIndexView,
    CreateTableView, CreateViewView, DefaultValueView, DeleteView, ExprView, IndexedColumnView,
    InsertSourceView, InsertView, TableConstraintView, UpdateView,
};
use crate::parser::clauses;
use crate::parser::round_trip::hidden;
use crate::parser::rules;
use crate::parser::rules::{FailView, Parsed};
use crate::parser::tokenizer::{Keyword, KindView, Span, TokenView};
use vstd::prelude::*;

verus! {

// ---- INSERT and DELETE ---------------------------------------------------------------

pub closed spec fn row(t: Seq<TokenView>, p: int, d: nat) -> Parsed<Seq<ExprView>> {
    rules::value_row(t, p, d)
}

pub proof fn lemma_row(t: Seq<TokenView>, p: int, d: nat)
    ensures
        ({
            let inner = hidden::list(t, p + 1, d);
            let r = row(t, p, d);
            &&& r is Ok <==> rules::kind(t, p) == KindView::LParen && inner is Ok && rules::kind(
                t,
                inner->Ok_0.1,
            ) == KindView::RParen
            &&& r is Ok ==> r->Ok_0 == (inner->Ok_0.0, inner->Ok_0.1 + 1)
            &&& rules::kind(t, p) == KindView::LParen && inner is Err ==> r is Err && r->Err_0
                == inner->Err_0
        }),
{
    hidden::lemma_is_list(t, p + 1, d);
}

pub closed spec fn rows(t: Seq<TokenView>, p: int, d: nat, list: Seq<Seq<ExprView>>) -> Parsed<
    Seq<Seq<ExprView>>,
> {
    rules::more_rows(t, p, d, list)
}

pub proof fn lemma_rows(t: Seq<TokenView>, p: int, d: nat, list: Seq<Seq<ExprView>>)
    ensures
        ({
            let item = row(t, p + 1, d);
            let more = rules::kind(t, p) == KindView::Comma;
            let r = rows(t, p, d, list);
            &&& !more ==> r == Ok::<(Seq<Seq<ExprView>>, int), FailView>((list, p))
            &&& more && r is Ok ==> item is Ok
            &&& more && item is Ok && rules::left(t, item->Ok_0.1) < rules::left(t, p) ==> r
                == rows(t, item->Ok_0.1, d, list.push(item->Ok_0.0))
            &&& more && item is Err ==> r is Err && r->Err_0 == item->Err_0
        }),
{
}

pub closed spec fn source(t: Seq<TokenView>, p: int, d: nat) -> Parsed<
    (InsertSourceView, Span),
> {
    rules::insert_source(t, p, d)
}

pub proof fn lemma_source(t: Seq<TokenView>, p: int, d: nat)
    ensures
        ({
            let r = source(t, p, d);
            let first = row(t, p + 1, d);
            let all = rows(t, first->Ok_0.1, d, seq![first->Ok_0.0]);
            let inner = hidden::query(t, p, d);
            &&& r is Ok ==> rules::at_kw(t, p, Keyword::DEFAULT) || rules::at_kw(
                t,
                p,
                Keyword::VALUES,
            ) || rules::at_kw(t, p, Keyword::SELECT) || rules::at_kw(t, p, Keyword::WITH)
            &&& rules::at_kw(t, p, Keyword::DEFAULT) ==> (r is Ok <==> rules::at_kw(
                t,
                p + 1,
                Keyword::VALUES,
            ))
            &&& rules::at_kw(t, p, Keyword::DEFAULT) && r is Ok ==> r->Ok_0.0.0
                == InsertSourceView::DefaultValues && r->Ok_0.1 == p + 2
            &&& rules::at_kw(t, p, Keyword::VALUES) ==> (r is Ok <==> first is Ok && all is Ok)
            &&& rules::at_kw(t, p, Keyword::VALUES) && r is Ok ==> r->Ok_0.0.0
                == InsertSourceView::Values(all->Ok_0.0) && r->Ok_0.1 == all->Ok_0.1
            &&& rules::at_kw(t, p, Keyword::SELECT) || rules::at_kw(t, p, Keyword::WITH) ==> (
            r is Ok <==> inner is Ok)
            &&& (rules::at_kw(t, p, Keyword::SELECT) || rules::at_kw(t, p, Keyword::WITH))
                && r is Ok ==> r->Ok_0.0.0 == InsertSourceView::Select(Box::new(inner->Ok_0.0))
                && r->Ok_0.1 == inner->Ok_0.1
            &&& rules::at_kw(t, p, Keyword::VALUES) && first is Err ==> r is Err && r->Err_0
                == first->Err_0
            &&& rules::at_kw(t, p, Keyword::VALUES) && first is Ok && all is Err ==> r is Err
                && r->Err_0 == all->Err_0
            &&& (rules::at_kw(t, p, Keyword::SELECT) || rules::at_kw(t, p, Keyword::WITH))
                && inner is Err ==> r is Err && r->Err_0 == inner->Err_0
        }),
{
    hidden::lemma_query(t, p, d);
}

/// `{ "," identifier }`, behind the names `list`.
pub closed spec fn names(t: Seq<TokenView>, p: int, list: Seq<Seq<char>>)
    -> Parsed<Seq<Seq<char>>> {
    rules::more_names(t, p, list)
}

pub proof fn lemma_names(t: Seq<TokenView>, p: int, list: Seq<Seq<char>>)
    requires
        0 <= p,
        t.len() > 0,
        t.last().kind == KindView::Eof,
    ensures
        ({
            let r = names(t, p, list);
            let more = rules::kind(t, p) == KindView::Comma;
            &&& !more ==> r == Ok::<(Seq<Seq<char>>, int), FailView>((list, p))
            &&& more && r is Ok ==> rules::kind(t, p + 1) is Identifier
            &&& more && rules::kind(t, p + 1) is Identifier ==> r == names(
                t,
                p + 2,
                list.push(rules::kind(t, p + 1)->Identifier_0),
            )
        }),
{
}

pub closed spec fn optional_names(t: Seq<TokenView>, p: int) -> Parsed<Option<Seq<Seq<char>>>> {
    rules::opt_names(t, p)
}

pub proof fn lemma_optional_names(t: Seq<TokenView>, p: int)
    ensures
        ({
            let r = optional_names(t, p);
            let there = rules::kind(t, p) == KindView::LParen;
            let all = names(t, p + 2, seq![rules::kind(t, p + 1)->Identifier_0]);
            &&& !there ==> r == Ok::<(Option<Seq<Seq<char>>>, int), FailView>((None, p))
            &&& there ==> (r is Ok <==> rules::kind(t, p + 1) is Identifier && all is Ok
                && rules::kind(t, all->Ok_0.1) == KindView::RParen)
            &&& there && r is Ok ==> r->Ok_0 == (Some(all->Ok_0.0), all->Ok_0.1 + 1)
        }),
{
}

pub closed spec fn conflict(t: Seq<TokenView>, p: int) -> Parsed<Option<ConflictAction>> {
    rules::opt_conflict_action(t, p)
}

pub proof fn lemma_conflict(t: Seq<TokenView>, p: int)
    ensures
        conflict(t, p) == rules::opt_conflict_action(t, p),
{
}

pub closed spec fn insert(t: Seq<TokenView>, p: int, d: nat) -> Parsed<InsertView> {
    rules::insert(t, p, d)
}

pub proof fn lemma_is_insert(t: Seq<TokenView>, p: int, d: nat)
    ensures
        insert(t, p, d) == rules::insert(t, p, d),
{
}

pub proof fn lemma_insert(t: Seq<TokenView>, p: int, d: nat)
    ensures
        ({
            let r = insert(t, p, d);
            let action = conflict(t, p + 1);
            let q = action->Ok_0.1;
            let columns = optional_names(t, q + 2);
            let last = source(t, columns->Ok_0.1, d);
            &&& r is Ok <==> rules::at_kw(t, p, Keyword::INSERT) && action is Ok && rules::at_kw(
                t,
                q,
                Keyword::INTO,
            ) && rules::kind(t, q + 1) is Identifier && columns is Ok && last is Ok
            &&& r is Ok ==> r->Ok_0.1 == last->Ok_0.1 && r->Ok_0.0 == (InsertView {
                or_action: action->Ok_0.0,
                table: rules::kind(t, q + 1)->Identifier_0,
                columns: columns->Ok_0.0,
                source: last->Ok_0.0.0,
                span: rules::join_span(rules::span(t, p), last->Ok_0.0.1),
            })
            &&& rules::at_kw(t, p, Keyword::INSERT) && action is Ok && rules::at_kw(t, q,
                Keyword::INTO) && rules::kind(t, q + 1) is Identifier && columns is Ok
                && last is Err ==> r is Err && r->Err_0 == last->Err_0
        }),
{
}

pub closed spec fn delete(t: Seq<TokenView>, p: int, d: nat) -> Parsed<DeleteView> {
    rules::delete(t, p, d)
}

pub proof fn lemma_is_delete(t: Seq<TokenView>, p: int, d: nat)
    ensures
        delete(t, p, d) == rules::delete(t, p, d),
{
}

pub proof fn lemma_delete(t: Seq<TokenView>, p: int, d: nat)
    ensures
        ({
            let r = delete(t, p, d);
            let condition = hidden::optional(t, p + 3, d, Keyword::WHERE);
            &&& r is Ok <==> rules::at_kw(t, p, Keyword::DELETE) && rules::at_kw(
                t,
                p + 1,
                Keyword::FROM,
            ) && rules::kind(t, p + 2) is Identifier && condition is Ok
            &&& r is Ok ==> r->Ok_0.1 == condition->Ok_0.1 && r->Ok_0.0.table == rules::kind(
                t,
                p + 2,
            )->Identifier_0 && r->Ok_0.0.where_clause == condition->Ok_0.0
            &&& rules::at_kw(t, p, Keyword::DELETE) && rules::at_kw(t, p + 1, Keyword::FROM)
                && rules::kind(t, p + 2) is Identifier && condition is Err ==> r is Err && r->Err_0
                == condition->Err_0
        }),
{
    hidden::lemma_is_optional(t, p + 3, d, Keyword::WHERE);
}

// ---- UPDATE ----------------------------------------------------------------------------

pub closed spec fn assigned(t: Seq<TokenView>, p: int) -> Parsed<Seq<AssignmentView>> {
    rules::assignment(t, p, 0)
}

pub closed spec fn assigned_more(t: Seq<TokenView>, p: int, list: Seq<AssignmentView>) -> Parsed<
    Seq<AssignmentView>,
> {
    rules::more_assignments(t, p, 0, list)
}

pub closed spec fn updated(t: Seq<TokenView>) -> Parsed<UpdateView> {
    rules::update(t, 0, 0)
}

pub proof fn lemma_is_updated(t: Seq<TokenView>)
    ensures
        updated(t) == rules::update(t, 0, 0),
{
}

pub proof fn lemma_first_of(t: Seq<TokenView>, p: int) -> (first: (ExprView, int))
    requires
        hidden::list(t, p, 0) is Ok,
    ensures
        clauses::is_expr_at(t, p, first.1, first.0),
        hidden::list(t, p, 0) == hidden::more(t, first.1, 0, seq![first.0]),
{
    reveal(clauses::is_expr_at);
    hidden::lemma_list(t, p, 0);
    rules::expr(t, p, 0)->Ok_0
}

pub proof fn lemma_one_more(t: Seq<TokenView>, p: int, list: Seq<ExprView>) -> (next: (
    ExprView,
    int,
))
    requires
        rules::kind(t, p) == KindView::Comma,
        hidden::more(t, p, 0, list) is Ok,
    ensures
        clauses::is_expr_at(t, p + 1, next.1, next.0),
        rules::left(t, next.1) < rules::left(t, p) ==> hidden::more(t, p, 0, list) == hidden::more(
            t,
            next.1,
            0,
            list.push(next.0),
        ),
{
    reveal(clauses::is_expr_at);
    hidden::lemma_more(t, p, 0, list);
    rules::expr(t, p + 1, 0)->Ok_0
}

pub proof fn lemma_assigned_tuple(t: Seq<TokenView>, p: int)
    requires
        assigned(t, p) is Ok,
        rules::kind(t, p) == KindView::LParen,
    ensures
        ({
            let (list, q) = assigned(t, p)->Ok_0;
            let (columns, m) = rules::name_list(t, p + 1)->Ok_0;
            let (values, u) = hidden::list(t, m + 3, 0)->Ok_0;
            &&& rules::name_list(t, p + 1) is Ok
            &&& rules::kind(t, m) == KindView::RParen
            &&& rules::kind(t, m + 1) == KindView::Eq
            &&& rules::kind(t, m + 2) == KindView::LParen
            &&& hidden::list(t, m + 3, 0) is Ok
            &&& rules::kind(t, u) == KindView::RParen
            &&& q == u + 1
            &&& values.len() == columns.len()
            &&& list == rules::paired(columns, values)
        }),
{
    let m = rules::name_list(t, p + 1)->Ok_0.1;
    hidden::lemma_is_list(t, m + 3, 0);
}

pub proof fn lemma_assigned_single(t: Seq<TokenView>, p: int)
    requires
        assigned(t, p) is Ok,
        rules::kind(t, p) != KindView::LParen,
    ensures
        ({
            let (list, q) = assigned(t, p)->Ok_0;
            &&& list.len() == 1
            &&& list[0].columns.len() == 1
            &&& rules::kind(t, p) == KindView::Identifier(list[0].columns[0])
            &&& rules::kind(t, p + 1) == KindView::Eq
            &&& clauses::is_expr_at(t, p + 2, q, list[0].value)
        }),
{
    reveal(clauses::is_expr_at);
}

pub proof fn lemma_assigned_more(t: Seq<TokenView>, p: int, list: Seq<AssignmentView>)
    requires
        assigned_more(t, p, list) is Ok,
    ensures
        rules::kind(t, p) != KindView::Comma ==> assigned_more(t, p, list) == Parsed::<
            Seq<AssignmentView>,
        >::Ok((list, p)),
        rules::kind(t, p) == KindView::Comma ==> assigned(t, p + 1) is Ok,
        rules::kind(t, p) == KindView::Comma && rules::left(t, assigned(t, p + 1)->Ok_0.1)
            < rules::left(t, p) ==> assigned_more(t, p, list) == assigned_more(
            t,
            assigned(t, p + 1)->Ok_0.1,
            list + assigned(t, p + 1)->Ok_0.0,
        ),
{
}

pub proof fn lemma_updated(t: Seq<TokenView>)
    requires
        updated(t) is Ok,
    ensures
        ({
            let (x, z) = updated(t)->Ok_0;
            let (action, s) = rules::opt_conflict_action(t, 1)->Ok_0;
            let (first, m) = assigned(t, s + 2)->Ok_0;
            let (all, e) = assigned_more(t, m, first)->Ok_0;
            &&& rules::kind(t, 0) == KindView::Keyword(Keyword::UPDATE)
            &&& rules::opt_conflict_action(t, 1) is Ok
            &&& x.or_action == action
            &&& rules::kind(t, s) == KindView::Identifier(x.table)
            &&& rules::kind(t, s + 1) == KindView::Keyword(Keyword::SET)
            &&& assigned(t, s + 2) is Ok
            &&& assigned_more(t, m, first) is Ok
            &&& x.assignments == all
            &&& if rules::kind(t, e) == KindView::Keyword(Keyword::WHERE) {
                x.where_clause is Some && clauses::is_expr_at(t, e + 1, z, x.where_clause->0)
            } else {
                x.where_clause is None && z == e
            }
        }),
{
    reveal(clauses::is_expr_at);
}

pub proof fn lemma_accepts_update(
    t: Seq<TokenView>,
    table: Seq<char>,
    column: Seq<char>,
    value: ExprView,
    e: int,
    condition: ExprView,
    z: int,
)
    requires
        rules::at_kw(t, 0, Keyword::UPDATE),
        rules::kind(t, 1) == KindView::Identifier(table),
        rules::at_kw(t, 2, Keyword::SET),
        rules::kind(t, 3) == KindView::Identifier(column),
        rules::kind(t, 4) == KindView::Eq,
        clauses::is_expr_at(t, 5, e, value),
        rules::kind(t, e) != KindView::Comma,
        rules::at_kw(t, e, Keyword::WHERE) ==> clauses::is_expr_at(t, e + 1, z, condition),
        !rules::at_kw(t, e, Keyword::WHERE) ==> z == e,
    ensures
        ({
            let read = updated(t);
            &&& read is Ok
            &&& read->Ok_0.1 == z
            &&& read->Ok_0.0.or_action is None
            &&& read->Ok_0.0.table == table
            &&& read->Ok_0.0.assignments == seq![AssignmentView { columns: seq![column], value }]
            &&& read->Ok_0.0.where_clause == (if rules::at_kw(t, e, Keyword::WHERE) {
                Some(condition)
            } else {
                None
            })
        }),
{
    reveal(clauses::is_expr_at);
    let first = seq![AssignmentView { columns: seq![column], value }];
    assert(assigned(t, 3) == Parsed::<Seq<AssignmentView>>::Ok((first, e)));
    assert(assigned_more(t, e, first) == Parsed::<Seq<AssignmentView>>::Ok((first, e)));
}

// ---- CREATE TABLE and CREATE INDEX -----------------------------------------------------

pub closed spec fn key(t: Seq<TokenView>, p: int, d: nat) -> Parsed<IndexedColumnView> {
    rules::indexed_column(t, p, d)
}

pub proof fn lemma_key(t: Seq<TokenView>, p: int, d: nat)
    ensures
        ({
            let e = rules::expr(t, p, d);
            let (desc, q) = rules::direction(t, e->Ok_0.1);
            let r = key(t, p, d);
            &&& r is Ok <==> e is Ok
            &&& r is Ok ==> r->Ok_0 == (IndexedColumnView { expr: e->Ok_0.0, desc }, q)
            &&& e is Err ==> r is Err && r->Err_0 == e->Err_0
        }),
{
}

pub closed spec fn keys(t: Seq<TokenView>, p: int, d: nat, list: Seq<IndexedColumnView>) -> Parsed<
    Seq<IndexedColumnView>,
> {
    rules::more_indexed_columns(t, p, d, list)
}

pub proof fn lemma_keys(t: Seq<TokenView>, p: int, d: nat, list: Seq<IndexedColumnView>)
    ensures
        ({
            let item = key(t, p + 1, d);
            let more = rules::kind(t, p) == KindView::Comma;
            let r = keys(t, p, d, list);
            &&& !more ==> r == Ok::<(Seq<IndexedColumnView>, int), FailView>((list, p))
            &&& more && r is Ok ==> item is Ok
            &&& more && item is Ok && rules::left(t, item->Ok_0.1) < rules::left(t, p) ==> r
                == keys(t, item->Ok_0.1, d, list.push(item->Ok_0.0))
            &&& more && item is Err ==> r is Err && r->Err_0 == item->Err_0
        }),
{
}

/// `"(" indexed-column { "," indexed-column } ")"`.
pub closed spec fn key_list(t: Seq<TokenView>, p: int, d: nat) -> Parsed<Seq<IndexedColumnView>> {
    rules::indexed_column_list(t, p, d)
}

pub proof fn lemma_key_list(t: Seq<TokenView>, p: int, d: nat)
    ensures
        ({
            let first = key(t, p + 1, d);
            let all = keys(t, first->Ok_0.1, d, seq![first->Ok_0.0]);
            let r = key_list(t, p, d);
            &&& r is Ok <==> rules::kind(t, p) == KindView::LParen && first is Ok && all is Ok
                && rules::kind(t, all->Ok_0.1) == KindView::RParen
            &&& r is Ok ==> r->Ok_0 == (all->Ok_0.0, all->Ok_0.1 + 1)
            &&& rules::kind(t, p) == KindView::LParen && first is Err ==> r is Err && r->Err_0
                == first->Err_0
            &&& rules::kind(t, p) == KindView::LParen && first is Ok && all is Err ==> r is Err
                && r->Err_0 == all->Err_0
        }),
{
}

pub closed spec fn check(t: Seq<TokenView>, p: int, d: nat) -> Parsed<ExprView> {
    rules::check_condition(t, p, d)
}

pub proof fn lemma_check(t: Seq<TokenView>, p: int, d: nat)
    ensures
        ({
            let e = rules::expr(t, p + 1, d);
            let r = check(t, p, d);
            &&& r is Ok <==> rules::kind(t, p) == KindView::LParen && e is Ok && rules::kind(
                t,
                e->Ok_0.1,
            ) == KindView::RParen
            &&& r is Ok ==> r->Ok_0 == (e->Ok_0.0, e->Ok_0.1 + 1)
            &&& rules::kind(t, p) == KindView::LParen && e is Err ==> r is Err && r->Err_0
                == e->Err_0
        }),
{
}

pub closed spec fn default(t: Seq<TokenView>, p: int, d: nat) -> Parsed<DefaultValueView> {
    rules::default_value(t, p, d)
}

pub proof fn lemma_default_paren(t: Seq<TokenView>, p: int, d: nat)
    requires
        rules::kind(t, p) == KindView::LParen,
    ensures
        ({
            let e = rules::expr(t, p + 1, d);
            let r = default(t, p, d);
            &&& r is Ok <==> e is Ok && rules::kind(t, e->Ok_0.1) == KindView::RParen
            &&& r is Ok ==> r->Ok_0 == (DefaultValueView::Paren(e->Ok_0.0), e->Ok_0.1 + 1)
            &&& e is Err ==> r is Err && r->Err_0 == e->Err_0
        }),
{
}

pub proof fn lemma_is_default(t: Seq<TokenView>, p: int, d: nat)
    ensures
        default(t, p, d) == rules::default_value(t, p, d),
{
}

pub closed spec fn constraint(t: Seq<TokenView>, p: int, d: nat) -> Parsed<
    Option<ColumnConstraintView>,
> {
    rules::opt_column_constraint(t, p, d)
}

/// A column constraint behind its optional name.
pub closed spec fn constraint_at(t: Seq<TokenView>, p: int, d: nat, named: bool) -> Parsed<
    Option<ColumnConstraintView>,
> {
    rules::column_constraint_at(t, p, d, named)
}

pub proof fn lemma_constraint(t: Seq<TokenView>, p: int, d: nat)
    ensures
        ({
            let named = rules::opt_constraint_name(t, p);
            let r = constraint(t, p, d);
            &&& r is Ok ==> named is Ok
            &&& named is Ok ==> r == constraint_at(t, named->Ok_0.1, d, named->Ok_0.0)
        }),
{
}

/// A column constraint is read only where one of its words stands.
pub proof fn lemma_constraint_words(t: Seq<TokenView>, p: int, d: nat, named: bool)
    ensures
        ({
            let r = constraint_at(t, p, d, named);
            &&& r is Ok && r->Ok_0.0 is Some ==> rules::at_kw(t, p, Keyword::NOT) || rules::at_kw(
                t,
                p,
                Keyword::PRIMARY,
            ) || rules::at_kw(t, p, Keyword::UNIQUE) || rules::at_kw(t, p, Keyword::CHECK)
                || rules::at_kw(t, p, Keyword::DEFAULT) || rules::at_kw(t, p, Keyword::COLLATE)
            &&& r is Ok && r->Ok_0.0 is None ==> r->Ok_0.1 == p && !named
            &&& (rules::kind(t, p) == KindView::Comma || rules::kind(t, p) == KindView::RParen)
                && !named ==> r == Ok::<(Option<ColumnConstraintView>, int), FailView>((None, p))
        }),
{
}

/// Whether `ON CONFLICT` stands at `p`.
pub open spec fn at_conflict(t: Seq<TokenView>, p: int) -> bool {
    rules::at_kw(t, p, Keyword::ON) && rules::at_kw(t, p + 1, Keyword::CONFLICT)
}

pub proof fn lemma_constraint_plain(t: Seq<TokenView>, p: int, d: nat, named: bool)
    ensures
        ({
            let r = constraint_at(t, p, d, named);
            let (desc, q) = rules::direction(t, p + 2);
            &&& rules::at_kw(t, p, Keyword::NOT) ==> (r is Ok <==> rules::kind(t, p + 1)
                == KindView::Null && !at_conflict(t, p + 2))
            &&& rules::at_kw(t, p, Keyword::NOT) && r is Ok ==> r->Ok_0 == (
                Some(ColumnConstraintView::NotNull),
                p + 2,
            )
            &&& rules::at_kw(t, p, Keyword::PRIMARY) ==> (r is Ok <==> rules::at_kw(
                t,
                p + 1,
                Keyword::KEY,
            ) && !at_conflict(t, q))
            &&& rules::at_kw(t, p, Keyword::PRIMARY) && r is Ok ==> r->Ok_0 == (
                Some(
                    ColumnConstraintView::PrimaryKey {
                        desc,
                        autoincrement: rules::at_kw(t, q, Keyword::AUTOINCREMENT),
                    },
                ),
                rules::skip_kw(t, q, Keyword::AUTOINCREMENT),
            )
            &&& rules::at_kw(t, p, Keyword::UNIQUE) ==> (r is Ok <==> !at_conflict(t, p + 1))
            &&& rules::at_kw(t, p, Keyword::UNIQUE) && r is Ok ==> r->Ok_0 == (
                Some(ColumnConstraintView::Unique),
                p + 1,
            )
        }),
{
}

pub proof fn lemma_constraint_nested(t: Seq<TokenView>, p: int, d: nat, named: bool)
    ensures
        ({
            let r = constraint_at(t, p, d, named);
            let condition = check(t, p + 1, d);
            let value = default(t, p + 1, d);
            &&& rules::at_kw(t, p, Keyword::CHECK) ==> (r is Ok <==> condition is Ok)
            &&& rules::at_kw(t, p, Keyword::CHECK) && r is Ok ==> r->Ok_0 == (
                Some(ColumnConstraintView::Check(condition->Ok_0.0)),
                condition->Ok_0.1,
            )
            &&& rules::at_kw(t, p, Keyword::DEFAULT) ==> (r is Ok <==> value is Ok)
            &&& rules::at_kw(t, p, Keyword::DEFAULT) && r is Ok ==> r->Ok_0 == (
                Some(ColumnConstraintView::Default(value->Ok_0.0)),
                value->Ok_0.1,
            )
            &&& rules::at_kw(t, p, Keyword::COLLATE) ==> (r is Ok <==> rules::kind(
                t,
                p + 1,
            ) is Identifier)
            &&& rules::at_kw(t, p, Keyword::COLLATE) && r is Ok ==> r->Ok_0 == (
                Some(ColumnConstraintView::Collate(rules::kind(t, p + 1)->Identifier_0)),
                p + 2,
            )
            &&& rules::at_kw(t, p, Keyword::CHECK) && condition is Err ==> r is Err && r->Err_0
                == condition->Err_0
            &&& rules::at_kw(t, p, Keyword::DEFAULT) && value is Err ==> r is Err && r->Err_0
                == value->Err_0
        }),
{
}

pub closed spec fn constraints(
    t: Seq<TokenView>,
    p: int,
    d: nat,
    list: Seq<ColumnConstraintView>,
) -> Parsed<Seq<ColumnConstraintView>> {
    rules::more_column_constraints(t, p, d, list)
}

pub proof fn lemma_constraints(
    t: Seq<TokenView>,
    p: int,
    d: nat,
    list: Seq<ColumnConstraintView>,
)
    ensures
        ({
            let item = constraint(t, p, d);
            let r = constraints(t, p, d, list);
            &&& r is Ok ==> item is Ok
            &&& item is Ok && item->Ok_0.0 is None ==> r == Ok::<
                (Seq<ColumnConstraintView>, int),
                FailView,
            >((list, item->Ok_0.1))
            &&& item is Ok && item->Ok_0.0 is Some && rules::left(t, item->Ok_0.1) < rules::left(
                t,
                p,
            ) ==> r == constraints(t, item->Ok_0.1, d, list.push(item->Ok_0.0->0))
            &&& item is Err ==> r is Err && r->Err_0 == item->Err_0
        }),
{
}

pub closed spec fn def(t: Seq<TokenView>, p: int, d: nat) -> Parsed<ColumnDefView> {
    rules::column_def(t, p, d)
}

pub proof fn lemma_def(t: Seq<TokenView>, p: int, d: nat)
    ensures
        ({
            let words = rules::opt_declared_type(t, p + 1);
            let all = constraints(t, words->Ok_0.1, d, seq![]);
            let r = def(t, p, d);
            &&& r is Ok <==> rules::kind(t, p) is Identifier && words is Ok && all is Ok
            &&& r is Ok ==> r->Ok_0.1 == all->Ok_0.1 && r->Ok_0.0 == (ColumnDefView {
                name: rules::kind(t, p)->Identifier_0,
                declared_type: words->Ok_0.0,
                constraints: all->Ok_0.0,
            })
            &&& rules::kind(t, p) is Identifier && words is Ok && all is Err ==> r is Err
                && r->Err_0 == all->Err_0
        }),
{
}

pub closed spec fn rule(t: Seq<TokenView>, p: int, d: nat) -> Parsed<TableConstraintView> {
    rules::table_constraint(t, p, d)
}

pub proof fn lemma_rule(t: Seq<TokenView>, p: int, d: nat)
    ensures
        ({
            let named = rules::opt_constraint_name(t, p);
            let q = named->Ok_0.1;
            let primary = key_list(t, q + 2, d);
            let unique = key_list(t, q + 1, d);
            let condition = check(t, q + 1, d);
            let r = rule(t, p, d);
            &&& r is Ok ==> named is Ok && (rules::at_kw(t, q, Keyword::PRIMARY) || rules::at_kw(
                t,
                q,
                Keyword::UNIQUE,
            ) || rules::at_kw(t, q, Keyword::CHECK))
            &&& named is Ok && rules::at_kw(t, q, Keyword::PRIMARY) ==> (r is Ok <==> rules::at_kw(
                t,
                q + 1,
                Keyword::KEY,
            ) && primary is Ok && !at_conflict(t, primary->Ok_0.1))
            &&& named is Ok && rules::at_kw(t, q, Keyword::PRIMARY) && r is Ok ==> r->Ok_0 == (
                TableConstraintView::PrimaryKey(primary->Ok_0.0),
                primary->Ok_0.1,
            )
            &&& named is Ok && rules::at_kw(t, q, Keyword::UNIQUE) ==> (r is Ok <==> unique is Ok
                && !at_conflict(t, unique->Ok_0.1))
            &&& named is Ok && rules::at_kw(t, q, Keyword::UNIQUE) && r is Ok ==> r->Ok_0 == (
                TableConstraintView::Unique(unique->Ok_0.0),
                unique->Ok_0.1,
            )
            &&& named is Ok && rules::at_kw(t, q, Keyword::CHECK) ==> (r is Ok <==> condition is Ok)
            &&& named is Ok && rules::at_kw(t, q, Keyword::CHECK) && r is Ok ==> r->Ok_0 == (
                TableConstraintView::Check(condition->Ok_0.0),
                condition->Ok_0.1,
            )
            &&& named is Ok && rules::at_kw(t, q, Keyword::PRIMARY) && rules::at_kw(t, q + 1,
                Keyword::KEY) && primary is Err ==> r is Err && r->Err_0 == primary->Err_0
            &&& named is Ok && rules::at_kw(t, q, Keyword::UNIQUE) && unique is Err ==> r is Err
                && r->Err_0 == unique->Err_0
            &&& named is Ok && rules::at_kw(t, q, Keyword::CHECK) && condition is Err ==> r is Err
                && r->Err_0 == condition->Err_0
        }),
{
}

pub closed spec fn table_rules(t: Seq<TokenView>, p: int, d: nat, list: Seq<TableConstraintView>)
    -> Parsed<
    Seq<TableConstraintView>,
> {
    rules::more_table_constraints(t, p, d, list)
}

pub proof fn lemma_table_rules(t: Seq<TokenView>, p: int, d: nat, list: Seq<TableConstraintView>)
    ensures
        ({
            let item = rule(t, p + 1, d);
            let more = rules::kind(t, p) == KindView::Comma;
            let r = table_rules(t, p, d, list);
            &&& !more ==> r == Ok::<(Seq<TableConstraintView>, int), FailView>((list, p))
            &&& more && r is Ok ==> item is Ok
            &&& more && item is Ok && rules::left(t, item->Ok_0.1) < rules::left(t, p) ==> r
                == table_rules(t, item->Ok_0.1, d, list.push(item->Ok_0.0))
            &&& more && item is Err ==> r is Err && r->Err_0 == item->Err_0
        }),
{
}

pub closed spec fn items(t: Seq<TokenView>, p: int, d: nat, list: Seq<ColumnDefView>) -> Parsed<
    (Seq<ColumnDefView>, Seq<TableConstraintView>),
> {
    rules::more_table_items(t, p, d, list)
}

pub proof fn lemma_items(t: Seq<TokenView>, p: int, d: nat, list: Seq<ColumnDefView>)
    ensures
        ({
            let r = items(t, p, d, list);
            let more = rules::kind(t, p) == KindView::Comma;
            let ends = rules::at_table_constraint_start(t, p + 1);
            let last = table_rules(t, p, d, seq![]);
            let item = def(t, p + 1, d);
            &&& !more ==> r == Ok::<
                ((Seq<ColumnDefView>, Seq<TableConstraintView>), int),
                FailView,
            >(((list, seq![]), p))
            &&& more && ends ==> (r is Ok <==> last is Ok)
            &&& more && ends && r is Ok ==> r->Ok_0 == ((list, last->Ok_0.0), last->Ok_0.1)
            &&& more && !ends && r is Ok ==> item is Ok
            &&& more && !ends && item is Ok && rules::left(t, item->Ok_0.1) < rules::left(t, p)
                ==> r == items(t, item->Ok_0.1, d, list.push(item->Ok_0.0))
            &&& more && ends && last is Err ==> r is Err && r->Err_0 == last->Err_0
            &&& more && !ends && item is Err ==> r is Err && r->Err_0 == item->Err_0
        }),
{
}

pub closed spec fn if_not_exists(t: Seq<TokenView>, p: int) -> Parsed<bool> {
    rules::opt_if_not_exists(t, p)
}

pub proof fn lemma_if_not_exists(t: Seq<TokenView>, p: int)
    ensures
        !rules::at_kw(t, p, Keyword::IF) ==> if_not_exists(t, p) == Ok::<(bool, int), FailView>(
            (false, p),
        ),
        rules::at_kw(t, p, Keyword::IF) ==> (if_not_exists(t, p) is Ok <==> rules::at_kw(
            t,
            p + 1,
            Keyword::NOT,
        ) && rules::at_kw(t, p + 2, Keyword::EXISTS)),
        rules::at_kw(t, p, Keyword::IF) && if_not_exists(t, p) is Ok ==> if_not_exists(t, p)->Ok_0
            == (true, p + 3),
{
}

pub closed spec fn create_table(t: Seq<TokenView>, p: int, d: nat) -> Parsed<CreateTableView> {
    rules::create_table(t, p, d)
}

pub proof fn lemma_is_create_table(t: Seq<TokenView>, p: int, d: nat)
    ensures
        create_table(t, p, d) == rules::create_table(t, p, d),
{
}

pub proof fn lemma_create_table(t: Seq<TokenView>, p: int, d: nat)
    ensures
        ({
            let r = create_table(t, p, d);
            let absent = if_not_exists(t, p + 2);
            let q = absent->Ok_0.1;
            let first = def(t, q + 2, d);
            let all = items(t, first->Ok_0.1, d, seq![first->Ok_0.0]);
            let e = all->Ok_0.1;
            let options = rules::table_options(t, e + 1, rules::span(t, e));
            &&& r is Ok <==> rules::at_kw(t, p, Keyword::CREATE) && rules::at_kw(
                t,
                p + 1,
                Keyword::TABLE,
            ) && absent is Ok && rules::kind(t, q) is Identifier && rules::kind(t, q + 1)
                == KindView::LParen && first is Ok && all is Ok && rules::kind(t, e)
                == KindView::RParen && options is Ok
            &&& r is Ok ==> r->Ok_0.1 == options->Ok_0.1 && r->Ok_0.0 == (CreateTableView {
                if_not_exists: absent->Ok_0.0,
                name: rules::kind(t, q)->Identifier_0,
                columns: all->Ok_0.0.0,
                constraints: all->Ok_0.0.1,
                without_rowid: options->Ok_0.0.0,
                strict: options->Ok_0.0.1,
                span: rules::join_span(rules::span(t, p), options->Ok_0.0.2),
            })
            &&& rules::at_kw(t, p, Keyword::CREATE) && rules::at_kw(t, p + 1, Keyword::TABLE)
                && absent is Ok && rules::kind(t, q) is Identifier && rules::kind(t, q + 1)
                == KindView::LParen && first is Err ==> r is Err && r->Err_0 == first->Err_0
            &&& rules::at_kw(t, p, Keyword::CREATE) && rules::at_kw(t, p + 1, Keyword::TABLE)
                && absent is Ok && rules::kind(t, q) is Identifier && rules::kind(t, q + 1)
                == KindView::LParen && first is Ok && all is Err ==> r is Err && r->Err_0
                == all->Err_0
        }),
{
}

pub closed spec fn create_index(t: Seq<TokenView>, p: int, d: nat) -> Parsed<CreateIndexView> {
    rules::create_index(t, p, d)
}

pub proof fn lemma_is_create_index(t: Seq<TokenView>, p: int, d: nat)
    ensures
        create_index(t, p, d) == rules::create_index(t, p, d),
{
}

pub proof fn lemma_create_index(t: Seq<TokenView>, p: int, d: nat)
    ensures
        ({
            let r = create_index(t, p, d);
            let s = rules::skip_kw(t, p + 1, Keyword::UNIQUE);
            let absent = if_not_exists(t, s + 1);
            let q = absent->Ok_0.1;
            let columns = key_list(t, q + 3, d);
            let condition = hidden::optional(t, columns->Ok_0.1, d, Keyword::WHERE);
            &&& r is Ok <==> rules::at_kw(t, p, Keyword::CREATE) && rules::at_kw(
                t,
                s,
                Keyword::INDEX,
            ) && absent is Ok && rules::kind(t, q) is Identifier && rules::at_kw(
                t,
                q + 1,
                Keyword::ON,
            ) && rules::kind(t, q + 2) is Identifier && columns is Ok && condition is Ok
            &&& r is Ok ==> r->Ok_0.1 == condition->Ok_0.1 && r->Ok_0.0.unique == rules::at_kw(
                t,
                p + 1,
                Keyword::UNIQUE,
            ) && r->Ok_0.0.if_not_exists == absent->Ok_0.0 && r->Ok_0.0.name == rules::kind(
                t,
                q,
            )->Identifier_0 && r->Ok_0.0.table == rules::kind(t, q + 2)->Identifier_0
                && r->Ok_0.0.columns == columns->Ok_0.0 && r->Ok_0.0.where_clause
                == condition->Ok_0.0
        }),
{
    let s = rules::skip_kw(t, p + 1, Keyword::UNIQUE);
    let q = if_not_exists(t, s + 1)->Ok_0.1;
    let columns = key_list(t, q + 3, d);
    hidden::lemma_is_optional(t, columns->Ok_0.1, d, Keyword::WHERE);
}

/// What an index begins with, up to the list of its columns.
pub open spec fn index_head(t: Seq<TokenView>, p: int) -> bool {
    let s = rules::skip_kw(t, p + 1, Keyword::UNIQUE);
    let absent = if_not_exists(t, s + 1);
    let q = absent->Ok_0.1;
    rules::at_kw(t, p, Keyword::CREATE) && rules::at_kw(t, s, Keyword::INDEX) && absent is Ok
        && rules::kind(t, q) is Identifier && rules::at_kw(t, q + 1, Keyword::ON) && rules::kind(
        t,
        q + 2,
    ) is Identifier && rules::kind(t, q + 3) == KindView::LParen
}

/// A failure in a part of an index is the failure of the whole.
pub proof fn lemma_create_index_fails(t: Seq<TokenView>, p: int, d: nat)
    requires
        index_head(t, p),
    ensures
        ({
            let r = create_index(t, p, d);
            let s = rules::skip_kw(t, p + 1, Keyword::UNIQUE);
            let q = if_not_exists(t, s + 1)->Ok_0.1;
            let columns = key_list(t, q + 3, d);
            let condition = hidden::optional(t, columns->Ok_0.1, d, Keyword::WHERE);
            &&& columns is Err ==> r is Err && r->Err_0 == columns->Err_0
            &&& columns is Ok && condition is Err ==> r is Err && r->Err_0 == condition->Err_0
        }),
{
    let s = rules::skip_kw(t, p + 1, Keyword::UNIQUE);
    let absent = if_not_exists(t, s + 1);
    let q = absent->Ok_0.1;
    let columns = key_list(t, q + 3, d);
    let r = create_index(t, p, d);
    hidden::lemma_is_optional(t, columns->Ok_0.1, d, Keyword::WHERE);
    let start = rules::expect_kw(t, p, Keyword::CREATE);
    assert(start is Ok && start->Ok_0.1 == p + 1);
    let word = rules::expect_kw(t, s, Keyword::INDEX);
    assert(word is Ok && word->Ok_0.1 == s + 1);
    assert(rules::opt_if_not_exists(t, s + 1) == absent);
    let name = rules::plain_name(t, q);
    assert(name is Ok && name->Ok_0.1 == q + 1);
    let on = rules::expect_kw(t, q + 1, Keyword::ON);
    assert(on is Ok && on->Ok_0.1 == q + 2);
    let table = rules::plain_name(t, q + 2);
    assert(table is Ok && table->Ok_0.1 == q + 3);
    assert(rules::indexed_column_list(t, q + 3, d) == columns);
}

pub closed spec fn create_view(t: Seq<TokenView>) -> Parsed<CreateViewView> {
    rules::create_view(t, 0, 0)
}

pub proof fn lemma_is_create_view(t: Seq<TokenView>)
    ensures
        create_view(t) == rules::create_view(t, 0, 0),
{
}

pub proof fn lemma_create_view(t: Seq<TokenView>)
    requires
        create_view(t) is Ok,
    ensures
        ({
            let (x, e) = create_view(t)->Ok_0;
            let (absent, q) = if_not_exists(t, 2)->Ok_0;
            let (columns, r) = optional_names(t, q + 1)->Ok_0;
            let (query, z) = hidden::query(t, r + 1, 0)->Ok_0;
            &&& rules::at_kw(t, 0, Keyword::CREATE)
            &&& rules::at_kw(t, 1, Keyword::VIEW)
            &&& if_not_exists(t, 2) is Ok
            &&& x.if_not_exists == absent
            &&& rules::kind(t, q) == KindView::Identifier(x.name)
            &&& optional_names(t, q + 1) is Ok
            &&& x.columns == columns
            &&& rules::at_kw(t, r, Keyword::AS)
            &&& hidden::query(t, r + 1, 0) is Ok
            &&& *x.query == query
            &&& e == z
        }),
{
    let q = if_not_exists(t, 2)->Ok_0.1;
    let r = optional_names(t, q + 1)->Ok_0.1;
    hidden::lemma_query(t, r + 1, 0);
}

pub proof fn lemma_drop(t: Seq<TokenView>, p: int, what: Keyword)
    ensures
        ({
            let r = rules::drop_object(t, p, what);
            let there = rules::opt_if_exists(t, p + 2);
            let q = there->Ok_0.1;
            &&& r is Ok <==> rules::at_kw(t, p, Keyword::DROP) && rules::at_kw(t, p + 1, what)
                && there is Ok && rules::kind(t, q) is Identifier && rules::kind(t, q + 1)
                != KindView::Dot
            &&& r is Ok ==> r->Ok_0.1 == q + 1 && r->Ok_0.0.0 == there->Ok_0.0 && r->Ok_0.0.1
                == rules::kind(t, q)->Identifier_0
        }),
{
}

} // verus!
