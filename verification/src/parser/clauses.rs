//! Where the clauses of a statement stand among its tokens.
use crate::parser::ast::{
    AssignmentView, ConflictAction, Distinctness, ExprKindView, ExprView, JoinOp, TransactionMode,
    UpdateView,
};
use crate::parser::round_trip::hidden;
use crate::parser::round_trip::hidden_statement;
use crate::parser::round_trip::matching;
use crate::parser::round_trip::origin;
use crate::parser::round_trip::replay_expr;
use crate::parser::rules;
use crate::parser::rules::Parsed;
use crate::parser::tokenizer;
use crate::parser::tokenizer::{Keyword, KindView, TokenView};
use vstd::prelude::*;

verus! {

/// Whether the tokens from `p` to before `q` are the names `names`, with commas between them.
pub open spec fn are_names_at(t: Seq<TokenView>, p: int, q: int, names: Seq<Seq<char>>) -> bool
    decreases names.len(),
{
    &&& names.len() > 0
    &&& rules::kind(t, p) == KindView::Identifier(names[0])
    &&& if names.len() == 1 {
        q == p + 1
    } else {
        rules::kind(t, p + 1) == KindView::Comma && are_names_at(t, p + 2, q, names.drop_first())
    }
}

/// Whether the tokens from `p` to before `q` are the expression `e`.
#[verifier::opaque]
pub open spec fn is_expr_at(t: Seq<TokenView>, p: int, q: int, e: ExprView) -> bool {
    rules::expr(t, p, 0) == Parsed::<ExprView>::Ok((e, q))
}

/// Whether the tokens from `p` to before `q` are the expressions `list`, with commas between
/// them.
pub open spec fn are_exprs_at(t: Seq<TokenView>, p: int, q: int, list: Seq<ExprView>) -> bool
    decreases list.len(),
{
    exists|m: int|
        list.len() > 0 && #[trigger] is_expr_at(t, p, m, list[0]) && if list.len() == 1 {
            q == m
        } else {
            rules::kind(t, m) == KindView::Comma && are_exprs_at(t, m + 1, q, list.drop_first())
        }
}

/// Whether the tokens from `p` to before `q` are a column, `=` and a value.
pub open spec fn is_single_at(t: Seq<TokenView>, p: int, q: int, list: Seq<AssignmentView>)
    -> bool {
    &&& list.len() == 1
    &&& list[0].columns.len() == 1
    &&& rules::kind(t, p) == KindView::Identifier(list[0].columns[0])
    &&& rules::kind(t, p + 1) == KindView::Eq
    &&& is_expr_at(t, p + 2, q, list[0].value)
}

/// Whether the tokens from `p` to before `q` are the columns `columns` in parentheses, `=`, and
/// as many values in parentheses; `m` is the place of the first `)`.
pub open spec fn is_tuple_at(
    t: Seq<TokenView>,
    p: int,
    m: int,
    q: int,
    columns: Seq<Seq<char>>,
    values: Seq<ExprView>,
) -> bool {
    &&& columns.len() == values.len()
    &&& rules::kind(t, p) == KindView::LParen
    &&& are_names_at(t, p + 1, m, columns)
    &&& rules::kind(t, m) == KindView::RParen
    &&& rules::kind(t, m + 1) == KindView::Eq
    &&& rules::kind(t, m + 2) == KindView::LParen
    &&& are_exprs_at(t, m + 3, q - 1, values)
    &&& rules::kind(t, q - 1) == KindView::RParen
}

/// Whether `list` gives each of `columns`, in their order, the value of the same place in
/// `values`.
pub open spec fn assigns_each(
    list: Seq<AssignmentView>,
    columns: Seq<Seq<char>>,
    values: Seq<ExprView>,
) -> bool {
    &&& list.len() == columns.len()
    &&& forall|i: int|
        0 <= i < list.len() ==> (#[trigger] list[i]).columns == seq![columns[i]] && list[i].value
            == values[i]
}

/// Whether the tokens from `p` to before `q` are one assignment, which gives `list`.
pub open spec fn is_assignment_at(
    t: Seq<TokenView>,
    p: int,
    q: int,
    list: Seq<AssignmentView>,
) -> bool {
    is_single_at(t, p, q, list) || exists|
        m: int,
        columns: Seq<Seq<char>>,
        values: Seq<ExprView>,
    |
        #[trigger] is_tuple_at(t, p, m, q, columns, values) && assigns_each(list, columns, values)
}

/// Whether the tokens from `p` to before `q` are the assignments `list`, with commas between
/// them.
pub open spec fn are_assignments_at(
    t: Seq<TokenView>,
    p: int,
    q: int,
    list: Seq<AssignmentView>,
) -> bool
    decreases list.len(),
{
    exists|n: int, m: int|
        0 < n <= list.len() && #[trigger] is_assignment_at(t, p, m, list.take(n)) && (if n
            == list.len() {
            m == q
        } else {
            rules::kind(t, m) == KindView::Comma && are_assignments_at(t, m + 1, q, list.skip(n))
        })
}

/// Whether nothing but `;` stands from `p` on up to the end of input.
pub open spec fn only_semicolons(t: Seq<TokenView>, p: int) -> bool {
    exists|end: int|
        p <= end && #[trigger] rules::kind(t, end) == KindView::Eof && forall|i: int|
            p <= i < end ==> #[trigger] rules::kind(t, i) == KindView::Semicolon
}

/// The keyword that names a conflict action.
pub open spec fn names_action(k: KindView, action: ConflictAction) -> bool {
    match action {
        ConflictAction::Replace => k == KindView::Keyword(Keyword::REPLACE),
        ConflictAction::Ignore => k == KindView::Keyword(Keyword::IGNORE),
        ConflictAction::Abort => k == KindView::Keyword(Keyword::ABORT),
        ConflictAction::Rollback => k == KindView::Keyword(Keyword::ROLLBACK),
        ConflictAction::Fail => k == KindView::Keyword(Keyword::FAIL),
    }
}

/// Whether `UPDATE` stands at the start of the tokens `t`, the table's name at `s`, the
/// assignments from behind `SET` to before `e`, and the `WHERE` clause, where there is one, from
/// `e` to before `z`.
pub open spec fn is_update_at(t: Seq<TokenView>, s: int, e: int, z: int, x: UpdateView) -> bool {
    &&& rules::kind(t, 0) == KindView::Keyword(Keyword::UPDATE)
    &&& match x.or_action {
        Some(action) => s == 3 && rules::kind(t, 1) == KindView::Keyword(Keyword::OR)
            && names_action(rules::kind(t, 2), action),
        None => s == 1,
    }
    &&& rules::kind(t, s) == KindView::Identifier(x.table)
    &&& rules::kind(t, s + 1) == KindView::Keyword(Keyword::SET)
    &&& are_assignments_at(t, s + 2, e, x.assignments)
    &&& x.where_clause is Some <==> rules::kind(t, e) == KindView::Keyword(Keyword::WHERE)
    &&& match x.where_clause {
        Some(condition) => is_expr_at(t, e + 1, z, condition),
        None => z == e,
    }
    &&& only_semicolons(t, z)
}

proof fn lemma_names_at(t: Seq<TokenView>, p: int, names: Seq<Seq<char>>) -> (rest: Seq<Seq<char>>)
    requires
        matching::ended(t),
        0 <= p,
        rules::more_names(t, p, names) is Ok,
    ensures
        ({
            let (all, q) = rules::more_names(t, p, names)->Ok_0;
            &&& all == names + rest
            &&& p <= q
            &&& if rest.len() == 0 {
                q == p
            } else {
                rules::kind(t, p) == KindView::Comma && are_names_at(t, p + 1, q, rest)
            }
        }),
    decreases rules::left(t, p),
{
    if p < t.len() && t[p].kind == KindView::Comma {
        let ((name, _), q) = rules::identifier(t, p + 1)->Ok_0;
        let more = lemma_names_at(t, q, names.push(name));
        let rest = seq![name] + more;
        assert(names.push(name) + more =~= names + rest);
        assert(rest.drop_first() =~= more);
        rest
    } else {
        assert(names + Seq::<Seq<char>>::empty() =~= names);
        seq![]
    }
}

proof fn lemma_name_list_at(t: Seq<TokenView>, p: int)
    requires
        matching::ended(t),
        0 <= p,
        rules::name_list(t, p) is Ok,
    ensures
        are_names_at(t, p, rules::name_list(t, p)->Ok_0.1, rules::name_list(t, p)->Ok_0.0),
        p < rules::name_list(t, p)->Ok_0.1,
{
    let ((name, _), q) = rules::identifier(t, p)->Ok_0;
    let rest = lemma_names_at(t, q, seq![name]);
    assert((seq![name] + rest).drop_first() =~= rest);
}

/// An expression has at least one token.
proof fn lemma_expr_at(t: Seq<TokenView>, p: int, q: int, e: ExprView)
    requires
        matching::ended(t),
        matching::sound(t),
        0 <= p,
        is_expr_at(t, p, q, e),
    ensures
        p < q,
{
    reveal(is_expr_at);
    replay_expr::replay_expr(t, p, 0, t, p);
}

proof fn lemma_exprs_at(t: Seq<TokenView>, p: int, list: Seq<ExprView>) -> (rest: Seq<ExprView>)
    requires
        matching::ended(t),
        matching::sound(t),
        0 <= p,
        hidden::more(t, p, 0, list) is Ok,
    ensures
        ({
            let (all, q) = hidden::more(t, p, 0, list)->Ok_0;
            &&& all == list + rest
            &&& p <= q
            &&& if rest.len() == 0 {
                q == p
            } else {
                rules::kind(t, p) == KindView::Comma && are_exprs_at(t, p + 1, q, rest)
            }
        }),
    decreases rules::left(t, p),
{
    if rules::kind(t, p) == KindView::Comma {
        let (e, q) = hidden_statement::lemma_one_more(t, p, list);
        lemma_expr_at(t, p + 1, q, e);
        matching::lemma_progress(t, p, q);
        let more = lemma_exprs_at(t, q, list.push(e));
        let rest = seq![e] + more;
        assert(list.push(e) + more =~= list + rest);
        assert(rest.drop_first() =~= more);
        assert(rest[0] == e);
        rest
    } else {
        hidden::lemma_more(t, p, 0, list);
        assert(list + Seq::<ExprView>::empty() =~= list);
        seq![]
    }
}

proof fn lemma_expr_list_at(t: Seq<TokenView>, p: int)
    requires
        matching::ended(t),
        matching::sound(t),
        0 <= p,
        hidden::list(t, p, 0) is Ok,
    ensures
        are_exprs_at(t, p, hidden::list(t, p, 0)->Ok_0.1, hidden::list(t, p, 0)->Ok_0.0),
        p < hidden::list(t, p, 0)->Ok_0.1,
{
    let (e, q) = hidden_statement::lemma_first_of(t, p);
    lemma_expr_at(t, p, q, e);
    let rest = lemma_exprs_at(t, q, seq![e]);
    let all = seq![e] + rest;
    assert(all.drop_first() =~= rest);
    assert(all[0] == e);
}

proof fn lemma_assignment_at(t: Seq<TokenView>, p: int)
    requires
        matching::ended(t),
        matching::sound(t),
        0 <= p,
        hidden_statement::assigned(t, p) is Ok,
    ensures
        ({
            let (list, q) = hidden_statement::assigned(t, p)->Ok_0;
            &&& is_assignment_at(t, p, q, list)
            &&& list.len() > 0
            &&& p < q
        }),
{
    let (list, q) = hidden_statement::assigned(t, p)->Ok_0;
    if rules::kind(t, p) == KindView::LParen {
        hidden_statement::lemma_assigned_tuple(t, p);
        lemma_name_list_at(t, p + 1);
        let (columns, m) = rules::name_list(t, p + 1)->Ok_0;
        lemma_expr_list_at(t, m + 3);
        let values = hidden::list(t, m + 3, 0)->Ok_0.0;
        assert(is_tuple_at(t, p, m, q, columns, values));
        assert(assigns_each(list, columns, values));
        assert(columns.len() > 0);
    } else {
        hidden_statement::lemma_assigned_single(t, p);
        lemma_expr_at(t, p + 2, q, list[0].value);
        assert(is_single_at(t, p, q, list));
    }
}

proof fn lemma_assignments_at(t: Seq<TokenView>, p: int, list: Seq<AssignmentView>) -> (rest: Seq<
    AssignmentView,
>)
    requires
        matching::ended(t),
        matching::sound(t),
        0 <= p,
        hidden_statement::assigned_more(t, p, list) is Ok,
    ensures
        ({
            let (all, q) = hidden_statement::assigned_more(t, p, list)->Ok_0;
            &&& all == list + rest
            &&& p <= q
            &&& if rest.len() == 0 {
                q == p
            } else {
                rules::kind(t, p) == KindView::Comma && are_assignments_at(t, p + 1, q, rest)
            }
        }),
    decreases rules::left(t, p),
{
    hidden_statement::lemma_assigned_more(t, p, list);
    if rules::kind(t, p) == KindView::Comma {
        lemma_assignment_at(t, p + 1);
        let (first, m) = hidden_statement::assigned(t, p + 1)->Ok_0;
        matching::lemma_progress(t, p, m);
        let more = lemma_assignments_at(t, m, list + first);
        let rest = first + more;
        assert((list + first) + more =~= list + rest);
        let q = hidden_statement::assigned_more(t, p, list)->Ok_0.1;
        lemma_join_assignments(t, p + 1, m, q, first, more);
        rest
    } else {
        assert(list + Seq::<AssignmentView>::empty() =~= list);
        seq![]
    }
}

proof fn lemma_join_assignments(
    t: Seq<TokenView>,
    p: int,
    m: int,
    q: int,
    first: Seq<AssignmentView>,
    rest: Seq<AssignmentView>,
)
    requires
        is_assignment_at(t, p, m, first),
        first.len() > 0,
        if rest.len() == 0 {
            q == m
        } else {
            rules::kind(t, m) == KindView::Comma && are_assignments_at(t, m + 1, q, rest)
        },
    ensures
        are_assignments_at(t, p, q, first + rest),
{
    let all = first + rest;
    let n: int = first.len() as int;
    assert(all.take(n) == first);
    assert(all.skip(n) == rest);
    assert(is_assignment_at(t, p, m, all.take(n)));
}

proof fn lemma_only_semicolons(t: Seq<TokenView>, p: int)
    requires
        matching::ended(t),
        0 <= p,
        rules::end_of_statement(t, p) is Ok,
    ensures
        only_semicolons(t, p),
    decreases rules::left(t, p),
{
    if p < t.len() && t[p].kind == KindView::Semicolon {
        lemma_only_semicolons(t, p + 1);
        let end = choose|end: int|
            p + 1 <= end && #[trigger] rules::kind(t, end) == KindView::Eof && forall|i: int|
                p + 1 <= i < end ==> #[trigger] rules::kind(t, i) == KindView::Semicolon;
        assert forall|i: int| p <= i < end implies #[trigger] rules::kind(t, i)
            == KindView::Semicolon by {}
    } else {
        assert(rules::kind(t, p) == KindView::Eof);
    }
}

proof fn lemma_update_at(t: Seq<TokenView>)
    requires
        matching::ended(t),
        matching::sound(t),
        rules::whole(t, hidden_statement::updated(t)) is Ok,
    ensures
        exists|s: int, e: int, z: int| #[trigger]
            is_update_at(t, s, e, z, rules::whole(t, hidden_statement::updated(t))->Ok_0),
{
    let (x, z) = hidden_statement::updated(t)->Ok_0;
    hidden_statement::lemma_updated(t);
    let s = rules::opt_conflict_action(t, 1)->Ok_0.1;
    lemma_assignment_at(t, s + 2);
    let (first, m) = hidden_statement::assigned(t, s + 2)->Ok_0;
    let rest = lemma_assignments_at(t, m, first);
    let (all, e) = hidden_statement::assigned_more(t, m, first)->Ok_0;
    lemma_join_assignments(t, s + 2, m, e, first, rest);
    if rules::kind(t, e) == KindView::Keyword(Keyword::WHERE) {
        lemma_expr_at(t, e + 1, z, x.where_clause->0);
    }
    lemma_only_semicolons(t, z);
    assert(rules::whole(t, hidden_statement::updated(t))->Ok_0 == x);
    assert(is_update_at(t, s, e, z, x));
}

/// An `UPDATE` that was read has the conflict action, the table and the assignments that its
/// tokens name, and a condition exactly where `WHERE` stands behind the assignments: the
/// expression of the tokens behind it, up to the end of the statement.
pub proof fn law_update_is_its_clauses(src: Seq<char>)
    requires
        ({
            let t = tokenizer::tokens_of(src);
            rules::whole(t, rules::update(t, 0, 0)) is Ok
        }),
    ensures
        ({
            let t = tokenizer::tokens_of(src);
            let x = rules::whole(t, rules::update(t, 0, 0))->Ok_0;
            exists|s: int, e: int, z: int| #[trigger] is_update_at(t, s, e, z, x)
        }),
{
    let t = tokenizer::tokens_of(src);
    tokenizer::law_tokens_end(src, 0);
    origin::lemma_spelled(src, 0);
    matching::lemma_sound(t);
    hidden_statement::lemma_is_updated(t);
    lemma_update_at(t);
}

// ---- the small words of the clauses ------------------------------------------------------

/// Whether the keyword `word` stands at `p`.
pub open spec fn says(t: Seq<TokenView>, p: int, word: Keyword) -> bool {
    rules::kind(t, p) == KindView::Keyword(word)
}

/// `ASC` and `DESC`, `DISTINCT` and `ALL`, and the modes of a transaction are read as what they
/// say, and where none of them stands nothing is read.
pub proof fn law_words_are_taken(t: Seq<TokenView>, p: int)
    ensures
        rules::direction(t, p) == (if says(t, p, Keyword::ASC) {
            (Some(false), p + 1)
        } else if says(t, p, Keyword::DESC) {
            (Some(true), p + 1)
        } else {
            (None, p)
        }),
        says(t, p, Keyword::DISTINCT) ==> rules::distinctness(t, p) == (
            Some(Distinctness::Distinct),
            p + 1,
        ),
        says(t, p, Keyword::ALL) ==> rules::distinctness(t, p) == (Some(Distinctness::All), p + 1),
        !says(t, p, Keyword::DISTINCT) && !says(t, p, Keyword::ALL) ==> rules::distinctness(t, p)
            == (None::<Distinctness>, p),
        says(t, p, Keyword::DEFERRED) ==> rules::transaction_mode(t, p) == (
            Some(TransactionMode::Deferred),
            p + 1,
        ),
        says(t, p, Keyword::IMMEDIATE) ==> rules::transaction_mode(t, p) == (
            Some(TransactionMode::Immediate),
            p + 1,
        ),
        says(t, p, Keyword::EXCLUSIVE) ==> rules::transaction_mode(t, p) == (
            Some(TransactionMode::Exclusive),
            p + 1,
        ),
        says(t, p, Keyword::NULLS) && says(t, p + 1, Keyword::FIRST) ==> rules::opt_nulls(t, p)
            == Parsed::<Option<bool>>::Ok((Some(false), p + 2)),
        says(t, p, Keyword::NULLS) && says(t, p + 1, Keyword::LAST) ==> rules::opt_nulls(t, p)
            == Parsed::<Option<bool>>::Ok((Some(true), p + 2)),
        !says(t, p, Keyword::NULLS) ==> rules::opt_nulls(t, p) == Parsed::<Option<bool>>::Ok(
            (None, p),
        ),
{
}

/// A join is an inner one behind `JOIN` or `INNER JOIN`, and one that keeps the rows of its left
/// table behind `LEFT JOIN` or `LEFT OUTER JOIN`.
pub proof fn law_joins_are_named(t: Seq<TokenView>, p: int)
    ensures
        says(t, p, Keyword::JOIN) ==> rules::join_op(t, p) == Parsed::<Option<JoinOp>>::Ok(
            (Some(JoinOp::Inner), p + 1),
        ),
        says(t, p, Keyword::INNER) && says(t, p + 1, Keyword::JOIN) ==> rules::join_op(t, p)
            == Parsed::<Option<JoinOp>>::Ok((Some(JoinOp::Inner), p + 2)),
        says(t, p, Keyword::LEFT) && says(t, p + 1, Keyword::JOIN) ==> rules::join_op(t, p)
            == Parsed::<Option<JoinOp>>::Ok((Some(JoinOp::Left), p + 2)),
        says(t, p, Keyword::LEFT) && says(t, p + 1, Keyword::OUTER) && says(t, p + 2, Keyword::JOIN)
            ==> rules::join_op(t, p) == Parsed::<Option<JoinOp>>::Ok((Some(JoinOp::Left), p + 3)),
{
}

/// A name, with or without `AS` before it, is an alias; without a name there is none.
pub proof fn law_aliases_are_names(t: Seq<TokenView>, p: int, name: Seq<char>)
    ensures
        rules::kind(t, p) == KindView::Identifier(name) ==> rules::opt_alias(t, p) == Parsed::<
            Option<Seq<char>>,
        >::Ok((Some(name), p + 1)),
        says(t, p, Keyword::AS) && rules::kind(t, p + 1) == KindView::Identifier(name)
            ==> rules::opt_alias(t, p) == Parsed::<Option<Seq<char>>>::Ok((Some(name), p + 2)),
        !says(t, p, Keyword::AS) && !(rules::kind(t, p) is Identifier) ==> rules::opt_alias(t, p)
            == Parsed::<Option<Seq<char>>>::Ok((None, p)),
{
}

/// A column is named by itself, behind its table, or behind its database and its table.
pub proof fn law_columns_are_named(
    t: Seq<TokenView>,
    p: int,
    a: Seq<char>,
    b: Seq<char>,
    c: Seq<char>,
)
    requires
        rules::kind(t, p) == KindView::Identifier(a),
    ensures
        ({
            let read = rules::column_ref(t, p);
            let dotted = rules::kind(t, p + 1) == KindView::Dot && rules::kind(t, p + 2)
                == KindView::Identifier(b);
            let twice = rules::kind(t, p + 3) == KindView::Dot && rules::kind(t, p + 4)
                == KindView::Identifier(c);
            &&& rules::kind(t, p + 1) != KindView::Dot ==> read is Ok && read->Ok_0.1 == p + 1
                && read->Ok_0.0.kind == (ExprKindView::Column {
                table: None,
                catalog: None,
                name: a,
            })
            &&& dotted && rules::kind(t, p + 3) != KindView::Dot ==> read is Ok && read->Ok_0.1 == p
                + 3 && read->Ok_0.0.kind == (ExprKindView::Column {
                table: Some(a),
                catalog: None,
                name: b,
            })
            &&& dotted && twice ==> read is Ok && read->Ok_0.1 == p + 5 && read->Ok_0.0.kind == (
            ExprKindView::Column { table: Some(b), catalog: Some(a), name: c })
        }),
{
}

/// `IF NOT EXISTS`, `IF EXISTS` and `OR` with a conflict action are read where they stand.
pub proof fn law_conditions_are_read(t: Seq<TokenView>, p: int, action: ConflictAction)
    ensures
        says(t, p, Keyword::IF) && says(t, p + 1, Keyword::NOT) && says(t, p + 2, Keyword::EXISTS)
            ==> rules::opt_if_not_exists(t, p) == Parsed::<bool>::Ok((true, p + 3)),
        says(t, p, Keyword::IF) && says(t, p + 1, Keyword::EXISTS) ==> rules::opt_if_exists(t, p)
            == Parsed::<bool>::Ok((true, p + 2)),
        !says(t, p, Keyword::IF) ==> rules::opt_if_not_exists(t, p) == Parsed::<bool>::Ok(
            (false, p),
        ) && rules::opt_if_exists(t, p) == Parsed::<bool>::Ok((false, p)),
        says(t, p, Keyword::OR) && names_action(rules::kind(t, p + 1), action)
            ==> rules::opt_conflict_action(t, p) == Parsed::<Option<ConflictAction>>::Ok(
            (Some(action), p + 2),
        ),
        !says(t, p, Keyword::OR) ==> rules::opt_conflict_action(t, p) == Parsed::<
            Option<ConflictAction>,
        >::Ok((None, p)),
{
}

/// `BEGIN` with or without a mode and `TRANSACTION`, `COMMIT` and `END`, and `ROLLBACK` are read
/// to their end.
pub proof fn law_transactions_are_read(t: Seq<TokenView>)
    ensures
        says(t, 0, Keyword::BEGIN) ==> rules::begin(t, 0) is Ok && rules::begin(t, 0)->Ok_0.0.mode
            == rules::transaction_mode(t, 1).0,
        says(t, 0, Keyword::COMMIT) || says(t, 0, Keyword::END) ==> rules::commit(t, 0) is Ok
            && rules::commit(t, 0)->Ok_0.1 == (if says(t, 1, Keyword::TRANSACTION) {
            2int
        } else {
            1
        }),
        says(t, 0, Keyword::ROLLBACK) && !says(t, 1, Keyword::TRANSACTION) && !says(
            t,
            1,
            Keyword::TO,
        ) ==> rules::rollback(t, 0) is Ok && rules::rollback(t, 0)->Ok_0.1 == 1,
        says(t, 0, Keyword::ROLLBACK) && says(t, 1, Keyword::TRANSACTION) && !says(
            t,
            2,
            Keyword::TO,
        ) ==> rules::rollback(t, 0) is Ok && rules::rollback(t, 0)->Ok_0.1 == 2,
{
}

// ---- what is accepted ------------------------------------------------------------------

/// `UPDATE` of a table with one assignment, and a condition or none, is read where its value and
/// its condition are, and nothing but `;` follows.
pub proof fn law_update_is_accepted(
    t: Seq<TokenView>,
    table: Seq<char>,
    column: Seq<char>,
    value: ExprView,
    e: int,
    condition: ExprView,
    z: int,
)
    requires
        matching::ended(t),
        matching::sound(t),
        says(t, 0, Keyword::UPDATE),
        rules::kind(t, 1) == KindView::Identifier(table),
        says(t, 2, Keyword::SET),
        rules::kind(t, 3) == KindView::Identifier(column),
        rules::kind(t, 4) == KindView::Eq,
        is_expr_at(t, 5, e, value),
        rules::kind(t, e) != KindView::Comma,
        says(t, e, Keyword::WHERE) ==> is_expr_at(t, e + 1, z, condition),
        !says(t, e, Keyword::WHERE) ==> z == e,
        rules::end_of_statement(t, z) is Ok,
    ensures
        ({
            let read = rules::whole(t, rules::update(t, 0, 0));
            &&& read is Ok
            &&& read->Ok_0.or_action is None
            &&& read->Ok_0.table == table
            &&& read->Ok_0.assignments == seq![AssignmentView { columns: seq![column], value }]
            &&& read->Ok_0.where_clause == (if says(t, e, Keyword::WHERE) {
                Some(condition)
            } else {
                None
            })
        }),
{
    hidden_statement::lemma_is_updated(t);
    hidden_statement::lemma_accepts_update(t, table, column, value, e, condition, z);
}

/// `EXPLAIN QUERY PLAN` is read with the `SELECT` behind it.
pub proof fn law_explain_has_its_select(t: Seq<TokenView>)
    requires
        says(t, 0, Keyword::EXPLAIN),
        says(t, 1, Keyword::QUERY),
        says(t, 2, Keyword::PLAN),
        hidden::query(t, 3, 0) is Ok,
    ensures
        rules::explain(t, 0, 0) is Ok,
        *rules::explain(t, 0, 0)->Ok_0.0.select == hidden::query(t, 3, 0)->Ok_0.0,
        rules::explain(t, 0, 0)->Ok_0.1 == hidden::query(t, 3, 0)->Ok_0.1,
        rules::explain(t, 0, 0)->Ok_0.0.query_plan,
{
    hidden::lemma_query(t, 3, 0);
}

} // verus!
