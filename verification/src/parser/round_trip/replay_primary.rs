//! What stands between operators, printed, is read again.
use crate::parser::ast::{ExprKindView, ExprView, FunctionArgsView};
use crate::parser::printer;
use crate::parser::round_trip::hidden;
use crate::parser::round_trip::leaves;
use crate::parser::round_trip::matching;
use crate::parser::round_trip::replay_expr;
use crate::parser::round_trip::replay_list;
use crate::parser::round_trip::replay_query;
use crate::parser::round_trip::shape;
use crate::parser::rules;
use crate::parser::rules::{Parsed, MAX_EXPR_DEPTH};
use crate::parser::tokenizer;
use crate::parser::tokenizer::{Keyword, KindView, Span, TokenView};
use vstd::prelude::*;

verus! {

broadcast use matching::at_one;

pub proof fn replay_primary(t: Seq<TokenView>, p: int, d: nat, t2: Seq<TokenView>, p2: int)
    requires
        matching::ended(t),
        matching::sound(t),
        matching::ended(t2),
        0 <= p,
        hidden::primary(t, p, d) is Ok,
        rules::kind(t, p) != KindView::Integer(i64::MIN),
    ensures
        replay_expr::reads_well(hidden::primary(t, p, d), t, p),
        ({
            let a = hidden::primary(t, p, d)->Ok_0.0;
            replay_expr::replays(
                t,
                a,
                t2,
                p2,
                matching::ends_primary(rules::kind(t2, p2 + a.kinds().len())),
                hidden::primary(t2, p2, d),
            )
        }),
    decreases MAX_EXPR_DEPTH - d, 18int, 0nat,
{
    reveal(matching::dotted);
    let a = hidden::primary(t, p, d)->Ok_0.0;
    let k = rules::kind(t, p);
    matching::lemma_sound_at(t, p);
    hidden::lemma_no_primary(t, p, d);
    match rules::literal_of(k) {
        Some(literal) => {
            hidden::lemma_literal(t, p, d);
            shape::shape_literal(a, literal);
            assert(a.kinds() == seq![k]);
            assert(a.kinds()[0] == k);
            if matching::at(t2, p2, seq![k]) {
                hidden::lemma_literal(t2, p2, d);
                if hidden::primary(t2, p2, d) is Ok {
                    shape::shape_literal(hidden::primary(t2, p2, d)->Ok_0.0, literal);
                }
            }
        },
        None => match k {
            KindView::Param(param) => {
                hidden::lemma_param(t, p, d, param);
                let param_kind = rules::param_of(param);
                shape::shape_param(a, param_kind);
                assert(a.kinds() == seq![k]);
                assert(a.kinds()[0] == k);
                if matching::at(t2, p2, seq![k]) {
                    hidden::lemma_param(t2, p2, d, param);
                    if hidden::primary(t2, p2, d) is Ok {
                        shape::shape_param(hidden::primary(t2, p2, d)->Ok_0.0, param_kind);
                    }
                }
            },
            KindView::Identifier(name) => replay_name(t, p, d, name, t2, p2),
            KindView::LParen => replay_paren(t, p, d, t2, p2),
            KindView::Keyword(word) => replay_keyword(t, p, d, word, t2, p2),
            _ => {},
        },
    }
}

pub proof fn replay_name(
    t: Seq<TokenView>,
    p: int,
    d: nat,
    name: Seq<char>,
    t2: Seq<TokenView>,
    p2: int,
)
    requires
        matching::ended(t),
        matching::sound(t),
        matching::ended(t2),
        0 <= p,
        rules::kind(t, p) == KindView::Identifier(name),
        hidden::primary(t, p, d) is Ok,
    ensures
        replay_expr::reads_well(hidden::primary(t, p, d), t, p),
        ({
            let a = hidden::primary(t, p, d)->Ok_0.0;
            replay_expr::replays(
                t,
                a,
                t2,
                p2,
                matching::ends_primary(rules::kind(t2, p2 + a.kinds().len())),
                hidden::primary(t2, p2, d),
            )
        }),
    decreases MAX_EXPR_DEPTH - d, 17int, 0nat,
{
    reveal(matching::dotted);
    reveal(matching::ends_primary);
    let a = hidden::primary(t, p, d)->Ok_0.0;
    let k = rules::kind(t, p);
    matching::lemma_sound_at(t, p);
    hidden::lemma_name(t, p, d, name);
    if rules::kind(t, p + 1) == KindView::LParen {
        replay_call(t, p + 1, d, name, rules::span(t, p), t2, p2 + 1, rules::span(t2, p2));
        lemma_called(t2, p2, d, a);
    } else {
        replay_column(t, p, t2, p2);
        if matching::at(t2, p2, a.kinds()) {
            matching::lemma_at_head(t2, p2, a.kinds());
            matching::lemma_at_three(t2, p2, a.kinds());
            hidden::lemma_name(t2, p2, d, name);
        }
    }
}

pub proof fn replay_paren(
    t: Seq<TokenView>,
    p: int,
    d: nat,
    t2: Seq<TokenView>,
    p2: int,
)
    requires
        matching::ended(t),
        matching::sound(t),
        matching::ended(t2),
        0 <= p,
        rules::kind(t, p) == KindView::LParen,
        hidden::primary(t, p, d) is Ok,
    ensures
        replay_expr::reads_well(hidden::primary(t, p, d), t, p),
        ({
            let a = hidden::primary(t, p, d)->Ok_0.0;
            replay_expr::replays(
                t,
                a,
                t2,
                p2,
                matching::ends_primary(rules::kind(t2, p2 + a.kinds().len())),
                hidden::primary(t2, p2, d),
            )
        }),
    decreases MAX_EXPR_DEPTH - d, 17int, 0nat,
{
    reveal(matching::dotted);
    matching::lemma_stops();
    let a = hidden::primary(t, p, d)->Ok_0.0;
    if rules::at_kw(t, p + 1, Keyword::SELECT) {
        hidden::lemma_paren_query(t, p, d);
        replay_query::replay_select(t, p + 1, d, t2, p2 + 1);
        let query = hidden::query(t, p + 1, d)->Ok_0.0;
        shape::shape_subquery(a, query);
        matching::split_parens(t2, p2, query.kinds());
        assert(a.kinds()[0] == KindView::LParen);
        if matching::at(t2, p2, a.kinds()) {
            matching::lemma_at_head(t2, p2 + 1, query.kinds());
            hidden::lemma_paren_query(t2, p2, d);
            let query2 = hidden::query(t2, p2 + 1, d)->Ok_0.0;
            if hidden::primary(t2, p2, d) is Ok {
                shape::shape_subquery(hidden::primary(t2, p2, d)->Ok_0.0, query2);
            }
        }
    } else {
        hidden::lemma_paren(t, p, d);
        replay_expr::replay_expr(t, p + 1, d, t2, p2 + 1);
        let inner = rules::expr(t, p + 1, d)->Ok_0.0;
        shape::shape_paren(a, inner);
        matching::split_parens(t2, p2, inner.kinds());
        assert(a.kinds()[0] == KindView::LParen);
        if matching::at(t2, p2, a.kinds()) {
            matching::lemma_at_head(t2, p2 + 1, inner.kinds());
            hidden::lemma_paren(t2, p2, d);
            let inner2 = rules::expr(t2, p2 + 1, d)->Ok_0.0;
            if hidden::primary(t2, p2, d) is Ok {
                shape::shape_paren(hidden::primary(t2, p2, d)->Ok_0.0, inner2);
            }
        }
    }
}

pub proof fn replay_keyword(
    t: Seq<TokenView>,
    p: int,
    d: nat,
    word: Keyword,
    t2: Seq<TokenView>,
    p2: int,
)
    requires
        matching::ended(t),
        matching::sound(t),
        matching::ended(t2),
        0 <= p,
        rules::kind(t, p) == KindView::Keyword(word),
        hidden::primary(t, p, d) is Ok,
    ensures
        replay_expr::reads_well(hidden::primary(t, p, d), t, p),
        ({
            let a = hidden::primary(t, p, d)->Ok_0.0;
            replay_expr::replays(
                t,
                a,
                t2,
                p2,
                matching::ends_primary(rules::kind(t2, p2 + a.kinds().len())),
                hidden::primary(t2, p2, d),
            )
        }),
    decreases MAX_EXPR_DEPTH - d, 17int, 0nat,
{
    reveal(matching::dotted);
    reveal(matching::ends_primary);
    let a = hidden::primary(t, p, d)->Ok_0.0;
    let k = rules::kind(t, p);
    matching::lemma_sound_at(t, p);
    hidden::lemma_word(t, p, d, word);
    if word == Keyword::CASE {
        replay_case(t, p, d, t2, p2);
        if matching::at(t2, p2, a.kinds()) {
            matching::lemma_at_head(t2, p2, a.kinds());
            hidden::lemma_word(t2, p2, d, word);
        }
    } else if word == Keyword::CAST {
        replay_cast(t, p, d, t2, p2);
        if matching::at(t2, p2, a.kinds()) {
            matching::lemma_at_head(t2, p2, a.kinds());
            hidden::lemma_word(t2, p2, d, word);
        }
    } else if word == Keyword::EXISTS {
        let at = rules::span(t, p);
        let at2 = rules::span(t2, p2);
        let tail = replay_expr::replay_exists(t, p + 1, d, at, false, t2, p2 + 1, at2);
        assert(a.kinds() =~= seq![k] + tail);
        matching::split2(t2, p2, seq![k], tail);
        assert(a.kinds()[0] == k);
        if matching::at(t2, p2, a.kinds()) {
            hidden::lemma_word(t2, p2, d, word);
        }
    } else {
        let at = rules::span(t, p);
        let at2 = rules::span(t2, p2);
        let name = word.name();
        replay_call(t, p + 1, d, name, at, t2, p2 + 1, at2);
        lemma_called(t2, p2, d, a);
    }
}

/// A function's name in front of its arguments is read as the beginning of a call.
proof fn lemma_called(t: Seq<TokenView>, p: int, d: nat, a: ExprView)
    requires
        a.kind is FunctionCall,
        a.kinds() == shape::call_kinds(a.kind->FunctionCall_name) + call_tail(a),
    ensures
        a.kinds().len() > 1,
        a.kinds()[0] is Identifier || matching::is_call(a.kinds()[0]),
        a.kinds()[1] == KindView::LParen,
        a.kinds().len() == 1 + call_tail(a).len(),
        matching::at(t, p, a.kinds()) ==> matching::at(t, p + 1, call_tail(a)) && hidden::primary(
            t,
            p,
            d,
        ) == hidden::call(t, p + 1, d, a.kind->FunctionCall_name, rules::span(t, p)),
{
    let name = a.kind->FunctionCall_name;
    let head = shape::call_kinds(name);
    matching::split2(t, p, head, call_tail(a));
    assert(a.kinds()[0] == head[0]);
    assert(call_tail(a)[0] == KindView::LParen);
    assert(a.kinds()[1] == KindView::LParen);
    if matching::at(t, p, a.kinds()) {
        matching::lemma_at_head(t, p, head);
        matching::lemma_at_head(t, p + 1, call_tail(a));
        if printer::is_call_word(name) {
            hidden::lemma_word(t, p, d, tokenizer::keyword_of(name)->0);
        } else {
            hidden::lemma_name(t, p, d, name);
        }
    }
}

pub proof fn replay_column(t: Seq<TokenView>, p: int, t2: Seq<TokenView>, p2: int)
    requires
        matching::ended(t),
        matching::ended(t2),
        0 <= p,
        rules::column_ref(t, p) is Ok,
    ensures
        replay_expr::reads_well(rules::column_ref(t, p), t, p),
        ({
            let a = rules::column_ref(t, p)->Ok_0.0;
            &&& a.kinds().len() == 1 || a.kinds()[1] == KindView::Dot
            &&& a.kinds()[0] == rules::kind(t, p)
            &&& replay_expr::replays(
                t,
                a,
                t2,
                p2,
                matching::ends_primary(rules::kind(t2, p2 + a.kinds().len())),
                rules::column_ref(t2, p2),
            )
        }),
{
    reveal(matching::dotted);
    reveal(matching::ends_primary);
    let a = rules::column_ref(t, p)->Ok_0.0;
    match a.kind {
        ExprKindView::Column { table, catalog, name } => {
            shape::shape_column(a, table, catalog, name);
            match table {
                None => {
                    assert(a.kinds() =~= seq![KindView::Identifier(name)]);
                },
                Some(n) => match catalog {
                    None => {
                        assert(a.kinds() =~= seq![KindView::Identifier(n)] + seq![KindView::Dot]
                            + seq![KindView::Identifier(name)]);
                        matching::split3(
                            t2,
                            p2,
                            seq![KindView::Identifier(n)],
                            seq![KindView::Dot],
                            seq![KindView::Identifier(name)],
                        );
                        assert(a.kinds()[1] == KindView::Dot);
                    },
                    Some(c) => {
                        assert(a.kinds() =~= seq![KindView::Identifier(c)] + seq![KindView::Dot]
                            + seq![KindView::Identifier(n)] + seq![KindView::Dot]
                            + seq![KindView::Identifier(name)]);
                        matching::split5(
                            t2,
                            p2,
                            seq![KindView::Identifier(c)],
                            seq![KindView::Dot],
                            seq![KindView::Identifier(n)],
                            seq![KindView::Dot],
                            seq![KindView::Identifier(name)],
                        );
                        assert(a.kinds()[1] == KindView::Dot);
                    },
                },
            }
            if matching::at(t2, p2, a.kinds()) && matching::ends_primary(
                rules::kind(t2, p2 + a.kinds().len()),
            ) {
                let a2 = rules::column_ref(t2, p2)->Ok_0.0;
                if rules::column_ref(t2, p2) is Ok {
                    shape::shape_column(a2, table, catalog, name);
                }
            }
        },
        _ => {},
    }
}

/// What follows the name in a function call.
pub open spec fn call_tail(a: ExprView) -> Seq<KindView> {
    seq![KindView::LParen] + shape::flag_kinds(a.kind->FunctionCall_distinct, Keyword::DISTINCT)
        + a.kind->FunctionCall_args.kinds() + seq![KindView::RParen]
}

pub proof fn replay_call(
    t: Seq<TokenView>,
    p: int,
    d: nat,
    name: Seq<char>,
    start: Span,
    t2: Seq<TokenView>,
    p2: int,
    start2: Span,
)
    requires
        matching::ended(t),
        matching::sound(t),
        matching::ended(t2),
        0 <= p,
        hidden::call(t, p, d, name, start) is Ok,
    ensures
        ({
            let (a, q) = hidden::call(t, p, d, name, start)->Ok_0;
            let tail = call_tail(a);
            let end = rules::kind(t2, p2 + tail.len());
            &&& p < q
            &&& a.kind is FunctionCall
            &&& a.kind->FunctionCall_name == name
            &&& a.holds()
            &&& a.kinds() == shape::call_kinds(name) + tail
            &&& matching::at(t2, p2, tail) && !matching::is_kw(
                end,
                Keyword::OVER,
            ) && !matching::is_kw(end, Keyword::FILTER) ==> replay_expr::again(
                t,
                hidden::call(t2, p2, d, name, start2),
                a,
                p2 + tail.len(),
            )
        }),
    decreases MAX_EXPR_DEPTH - d, 16int, 0nat,
{
    matching::lemma_stops();
    hidden::lemma_call(t, p, d, name, start);
    hidden::lemma_call(t2, p2, d, name, start2);
    let (a, e) = hidden::call(t, p, d, name, start)->Ok_0;
    let distinct = rules::at_kw(t, p + 1, Keyword::DISTINCT);
    let s = rules::skip_kw(t, p + 1, Keyword::DISTINCT);
    let s2: int = if distinct {
        p2 + 2
    } else {
        p2 + 1
    };
    let (args, q) = hidden::arguments(t, s, d)->Ok_0;
    hidden::lemma_arguments(t, s, d);
    hidden::lemma_arguments(t2, s2, d);
    let flag = shape::flag_kinds(distinct, Keyword::DISTINCT);
    let tail = seq![KindView::LParen] + flag + args.kinds() + seq![KindView::RParen];
    matching::split4(
        t2,
        p2,
        seq![KindView::LParen],
        flag,
        args.kinds(),
        seq![KindView::RParen],
    );
    assert(tail == call_tail(a));
    shape::shape_function_call(a, name, distinct, args);
    leaves::lemma_regroup5(
        shape::call_kinds(name),
        seq![KindView::LParen],
        flag,
        args.kinds(),
        seq![KindView::RParen],
    );
    assert(a.kinds() == shape::call_kinds(name) + tail);
    let end = rules::kind(t2, p2 + tail.len());
    let ends = !matching::is_kw(end, Keyword::OVER) && !matching::is_kw(end, Keyword::FILTER);
    shape::shape_of_function_args(args);
    if rules::kind(t, s) == KindView::Star {
        assert(args == FunctionArgsView::Star);
    } else {
        replay_list::replay_opt_list(t, s, d, t2, s2);
        let list = hidden::optional_list(t, s, d)->Ok_0.0;
        assert(args == FunctionArgsView::List(list));
        if matching::at(t2, p2, tail) {
            matching::lemma_at_head(t2, s2, shape::commas(shape::exprs_kinds(list)));
        }
    }
    if matching::at(t2, p2, tail) && ends {
        let args2 = hidden::arguments(t2, s2, d)->Ok_0.0;
        let a2 = hidden::call(t2, p2, d, name, start2)->Ok_0.0;
        if hidden::arguments(t2, s2, d) is Ok {
            shape::shape_of_function_args(args2);
            assert(args2.bare() == args.bare());
        }
        if hidden::call(t2, p2, d, name, start2) is Ok {
            shape::shape_function_call(a2, name, distinct, args2);
        }
    }
}

pub open spec fn whens_again(
    src: Seq<TokenView>,
    r: Parsed<Seq<(ExprView, ExprView)>>,
    a: Seq<(ExprView, ExprView)>,
    e: int,
) -> bool {
    match r {
        Ok((b, q)) => shape::bare_whens(b) == shape::bare_whens(a) && b.len() == a.len() && q == e,
        Err(f) => matching::refused(src, f),
    }
}

pub proof fn replay_case(t: Seq<TokenView>, p: int, d: nat, t2: Seq<TokenView>, p2: int)
    requires
        matching::ended(t),
        matching::sound(t),
        matching::ended(t2),
        0 <= p,
        rules::at_kw(t, p, Keyword::CASE),
        hidden::cases(t, p, d) is Ok,
    ensures
        matching::is_kw(hidden::cases(t, p, d)->Ok_0.0.kinds()[0], Keyword::CASE),
        replay_expr::reads_well(hidden::cases(t, p, d), t, p),
        ({
            let a = hidden::cases(t, p, d)->Ok_0.0;
            replay_expr::replays(t, a, t2, p2, true, hidden::cases(t2, p2, d))
        }),
    decreases MAX_EXPR_DEPTH - d, 16int, 0nat,
{
    reveal(matching::dotted);
    let a = hidden::cases(t, p, d)->Ok_0.0;
    hidden::lemma_case(t, p, d);
    let (operand, q) = hidden::operand(t, p + 1, d)->Ok_0;
    let first = replay_operand_of(t, p + 1, d, t2, p2 + 1);
    let q2: int = p2 + 1 + first.len();
    let (whens, r) = hidden::whens(t, q, d, seq![])->Ok_0;
    let branches = replay_whens(t, q, d, seq![], t2, q2, seq![]);
    shape::lemma_whens_empty();
    leaves::lemma_empty_lists(shape::kw(Keyword::WHEN));
    assert(branches =~= shape::each_after(shape::kw(Keyword::WHEN), shape::whens_kinds(whens)));
    let r2: int = q2 + branches.len();
    replay_list::replay_optional(t, r, d, Keyword::ELSE, t2, r2);
    let (otherwise, s) = hidden::optional(t, r, d, Keyword::ELSE)->Ok_0;
    let last = shape::optional_kinds(Keyword::ELSE, otherwise);
    shape::lemma_optional(Keyword::ELSE, otherwise->0);
    shape::lemma_optional(Keyword::ELSE, operand->0);
    shape::shape_case(a, rules::boxed(operand), whens, rules::boxed(otherwise));
    let end = shape::kw(Keyword::END);
    assert(a.kinds() == shape::kw(Keyword::CASE) + first + branches + last + end);
    assert(a.kinds()[0] == KindView::Keyword(Keyword::CASE));
    matching::split5(t2, p2, shape::kw(Keyword::CASE), first, branches, last, end);
    if matching::at(t2, p2, a.kinds()) {
        matching::lemma_stops();
        matching::lemma_at_head(t2, q2, branches);
        matching::lemma_at_head(t2, r2, last);
        assert(replay_list::optional_again(t, hidden::operand(t2, p2 + 1, d), operand, q2));
        assert(whens_again(t, hidden::whens(t2, q2, d, seq![]), whens, r2));
        assert(replay_list::optional_again(
            t,
            hidden::optional(t2, r2, d, Keyword::ELSE),
            otherwise,
            r2 + last.len(),
        ));
        hidden::lemma_case(t2, p2, d);
        if hidden::cases(t2, p2, d) is Ok {
            case_again(
                a,
                hidden::cases(t2, p2, d)->Ok_0.0,
                (operand, hidden::operand(t2, p2 + 1, d)->Ok_0.0),
                (whens, hidden::whens(t2, q2, d, seq![])->Ok_0.0),
                (otherwise, hidden::optional(t2, r2, d, Keyword::ELSE)->Ok_0.0),
            );
        }
    }
}

/// Two `CASE` expressions whose parts agree agree.
pub proof fn case_again(
    a: ExprView,
    b: ExprView,
    operands: (Option<ExprView>, Option<ExprView>),
    whens: (Seq<(ExprView, ExprView)>, Seq<(ExprView, ExprView)>),
    others: (Option<ExprView>, Option<ExprView>),
)
    requires
        a.kind == (ExprKindView::Case {
            operand: rules::boxed(operands.0),
            whens: whens.0,
            else_: rules::boxed(others.0),
        }),
        b.kind == (ExprKindView::Case {
            operand: rules::boxed(operands.1),
            whens: whens.1,
            else_: rules::boxed(others.1),
        }),
        shape::bare_optional(operands.0) == shape::bare_optional(operands.1),
        shape::bare_whens(whens.0) == shape::bare_whens(whens.1),
        shape::bare_optional(others.0) == shape::bare_optional(others.1),
    ensures
        a.bare() == b.bare(),
{
    shape::shape_case(a, rules::boxed(operands.0), whens.0, rules::boxed(others.0));
    shape::shape_case(b, rules::boxed(operands.1), whens.1, rules::boxed(others.1));
    shape::lemma_optional(Keyword::ELSE, operands.0->0);
    shape::lemma_optional(Keyword::ELSE, operands.1->0);
    shape::lemma_optional(Keyword::ELSE, others.0->0);
    shape::lemma_optional(Keyword::ELSE, others.1->0);
}

/// The operand of a `CASE`, printed, is read again in front of a branch.
pub proof fn replay_operand_of(t: Seq<TokenView>, p: int, d: nat, t2: Seq<TokenView>, p2: int)
    -> (first:
    Seq<KindView>)
    requires
        matching::ended(t),
        matching::sound(t),
        matching::ended(t2),
        0 <= p,
        hidden::operand(t, p, d) is Ok,
    ensures
        ({
            let (operand, q) = hidden::operand(t, p, d)->Ok_0;
            &&& p <= q
            &&& shape::optional_holds(operand)
            &&& first == (match operand {
                Some(e) => e.kinds(),
                None => seq![],
            })
            &&& matching::at(t2, p2, first)
                && rules::at_kw(t2, p2 + first.len(), Keyword::WHEN) ==>
                    replay_list::optional_again(
                t,
                hidden::operand(t2, p2, d),
                operand,
                p2 + first.len(),
            )
        }),
    decreases MAX_EXPR_DEPTH - d, 2int, 0nat,
{
    matching::lemma_stops();
    hidden::lemma_operand(t, p, d);
    hidden::lemma_operand(t2, p2, d);
    let operand = hidden::operand(t, p, d)->Ok_0.0;
    shape::lemma_optional(Keyword::ELSE, operand->0);
    match operand {
        Some(e) => {
            replay_expr::replay_expr(t, p, d, t2, p2);
            shape::lemma_optional(Keyword::ELSE, rules::expr(t2, p2, d)->Ok_0.0);
            if matching::at(t2, p2, e.kinds()) {
                matching::lemma_at_head(t2, p2, e.kinds());
            }
            e.kinds()
        },
        None => seq![],
    }
}

pub proof fn replay_whens(
    t: Seq<TokenView>,
    p: int,
    d: nat,
    list: Seq<(ExprView, ExprView)>,
    t2: Seq<TokenView>,
    p2: int,
    list2: Seq<(ExprView, ExprView)>,
) -> (suffix: Seq<KindView>)
    requires
        matching::ended(t),
        matching::sound(t),
        matching::ended(t2),
        0 <= p,
        hidden::whens(t, p, d, list) is Ok,
    ensures
        ({
            let lead = shape::kw(Keyword::WHEN);
            let (all, q) = hidden::whens(t, p, d, list)->Ok_0;
            let end = rules::kind(t2, p2 + suffix.len());
            &&& p <= q
            &&& all.len() > list.len() ==> suffix.len() > 0
            &&& all.len() >= list.len()
            &&& shape::each_after(lead, shape::whens_kinds(all)) == shape::each_after(
                lead,
                shape::whens_kinds(list),
            ) + suffix
            &&& shape::whens_hold(list) ==> shape::whens_hold(
                all)
            &&& suffix.len() > 0 ==> matching::is_kw(suffix[0], Keyword::WHEN)
            &&& shape::bare_whens(list2)
                == shape::bare_whens(list) && list2.len() == list.len() && matching::at(
                t2,
                p2,
                suffix,
            ) && matching::ends_expr(end) && !matching::is_kw(end, Keyword::WHEN) ==> whens_again(
                t,
                hidden::whens(t2, p2, d, list2),
                all,
                p2 + suffix.len(),
            )
        }),
    decreases MAX_EXPR_DEPTH - d, 2int, rules::left(t, p),
{
    hidden::lemma_when(t, p, d, list);
    let lead = shape::kw(Keyword::WHEN);
    let all = hidden::whens(t, p, d, list)->Ok_0.0;
    if rules::at_kw(t, p, Keyword::WHEN) {
        replay_expr::replay_expr(t, p + 1, d, t2, p2 + 1);
        let (condition, q) = rules::expr(t, p + 1, d)->Ok_0;
        let condition2 = rules::expr(t2, p2 + 1, d)->Ok_0.0;
        let q2: int = p2 + 1 + condition.kinds().len();
        replay_expr::replay_expr(t, q + 1, d, t2, q2 + 1);
        let (result, r) = rules::expr(t, q + 1, d)->Ok_0;
        let result2 = rules::expr(t2, q2 + 1, d)->Ok_0.0;
        let r2: int = q2 + 1 + result.kinds().len();
        matching::lemma_progress(t, p, r);
        let pair = (condition, result);
        let pair2 = (condition2, result2);
        shape::lemma_whens_push(list, pair);
        shape::lemma_whens_push(list2, pair2);
        let rest = replay_whens(t, r, d, list.push(pair), t2, r2, list2.push(pair2));
        let suffix = lead + when_kinds(pair) + rest;
        leaves::lemma_each_push(lead, shape::whens_kinds(list), when_kinds(pair));
        leaves::lemma_regroup(
            shape::each_after(lead, shape::whens_kinds(list)),
            lead,
            when_kinds(pair),
            rest,
        );
        assert(suffix[0] == KindView::Keyword(Keyword::WHEN));
        let end = rules::kind(t2, p2 + suffix.len());
        if matching::at(t2, p2, suffix) && matching::ends_expr(end) && !matching::is_kw(end,
            Keyword::WHEN) {
            when_again(t, t2, p2, d, list2, pair, rest);
        }
        suffix
    } else {
        hidden::lemma_when(t2, p2, d, list2);
        leaves::lemma_nothing_more(shape::each_after(lead, shape::whens_kinds(list)));
        seq![]
    }
}

/// A branch of a `CASE` behind its `WHEN`.
pub open spec fn when_kinds(pair: (ExprView, ExprView)) -> Seq<KindView> {
    pair.0.kinds() + shape::kw(Keyword::THEN) + pair.1.kinds()
}

/// One branch of a `CASE`, printed, is read again in front of the others.
pub proof fn when_again(
    src: Seq<TokenView>,
    t: Seq<TokenView>,
    p: int,
    d: nat,
    list: Seq<(ExprView, ExprView)>,
    pair: (ExprView, ExprView),
    rest: Seq<KindView>,
)
    requires
        matching::ended(t),
        rest.len() > 0 ==> matching::is_kw(rest[0], Keyword::WHEN),
        matching::at(t, p, shape::kw(Keyword::WHEN) + when_kinds(pair) + rest),
        matching::ends_expr(
            rules::kind(t, p + (shape::kw(Keyword::WHEN) + when_kinds(pair) + rest).len()),
        ),
        replay_expr::replays(
            src,
            pair.0,
            t,
            p + 1,
            matching::ends_expr(rules::kind(t, p + 1 + pair.0.kinds().len())),
            rules::expr(t, p + 1, d),
        ),
        replay_expr::replays(
            src,
            pair.1,
            t,
            p + 1 + pair.0.kinds().len() + 1,
            matching::ends_expr(
                rules::kind(t, p + 1 + pair.0.kinds().len() + 1 + pair.1.kinds().len()),
            ),
            rules::expr(t, p + 1 + pair.0.kinds().len() + 1, d),
        ),
    ensures
        ({
            let q = p + 1 + pair.0.kinds().len();
            let r = q + 1 + pair.1.kinds().len();
            let first = rules::expr(t, p + 1, d)->Ok_0.0;
            let second = rules::expr(t, q + 1, d)->Ok_0.0;
            let good = rules::expr(t, p + 1, d) is Ok && rules::expr(t, q + 1, d) is Ok;
            &&& good ==> hidden::whens(t, p, d, list) == hidden::whens(
                t,
                r,
                d,
                list.push((first, second)),
            )
            &&& good ==> first.bare() == pair.0.bare()
            &&& good ==> second.bare() == pair.1.bare()
            &&& !good ==> hidden::whens(t, p, d, list) is Err && matching::refused(src,
                hidden::whens(t, p, d, list)->Err_0)
            &&& matching::at(t, r, rest)
            &&& r + rest.len() == p + (shape::kw(Keyword::WHEN) + when_kinds(pair) + rest).len()
        }),
{
    matching::lemma_stops();
    hidden::lemma_when(t, p, d, list);
    let word = shape::kw(Keyword::THEN);
    let q: int = p + 1 + pair.0.kinds().len();
    let r: int = q + 1 + pair.1.kinds().len();
    matching::split3(t, p, shape::kw(Keyword::WHEN), when_kinds(pair), rest);
    matching::split3(t, p + 1, pair.0.kinds(), word, pair.1.kinds());
    matching::lemma_at_head(t, r, rest);
    matching::lemma_progress(t, p, r);
}

pub proof fn replay_cast(t: Seq<TokenView>, p: int, d: nat, t2: Seq<TokenView>, p2: int)
    requires
        matching::ended(t),
        matching::sound(t),
        matching::ended(t2),
        0 <= p,
        rules::at_kw(t, p, Keyword::CAST),
        hidden::cast(t, p, d) is Ok,
    ensures
        matching::is_kw(hidden::cast(t, p, d)->Ok_0.0.kinds()[0], Keyword::CAST),
        replay_expr::reads_well(hidden::cast(t, p, d), t, p),
        ({
            let a = hidden::cast(t, p, d)->Ok_0.0;
            replay_expr::replays(t, a, t2, p2, true, hidden::cast(t2, p2, d))
        }),
    decreases MAX_EXPR_DEPTH - d, 16int, 0nat,
{
    reveal(matching::dotted);
    matching::lemma_stops();
    let a = hidden::cast(t, p, d)->Ok_0.0;
    hidden::lemma_cast(t, p, d);
    hidden::lemma_cast(t2, p2, d);
    replay_expr::replay_expr(t, p + 2, d, t2, p2 + 2);
    let (inner, q) = rules::expr(t, p + 2, d)->Ok_0;
    let q2: int = p2 + 2 + inner.kinds().len();
    leaves::lemma_type_advances(t, q + 1);
    let type_text = rules::declared_type(t, q + 1)->Ok_0.0;
    let kinds = shape::type_kinds(type_text);
    shape::shape_cast(a, inner, type_text);
    assert(a.kinds() == shape::kw(Keyword::CAST) + seq![KindView::LParen] + inner.kinds()
        + shape::kw(Keyword::AS) + kinds + seq![KindView::RParen]);
    assert(a.kinds()[0] == KindView::Keyword(Keyword::CAST));
    matching::split6(
        t2,
        p2,
        shape::kw(Keyword::CAST),
        seq![KindView::LParen],
        inner.kinds(),
        shape::kw(Keyword::AS),
        kinds,
        seq![KindView::RParen],
    );
    if matching::at(t2, p2, a.kinds()) {
        leaves::lemma_type(t2, q2 + 1, type_text);
        let inner2 = rules::expr(t2, p2 + 2, d)->Ok_0.0;
        let a2 = hidden::cast(t2, p2, d)->Ok_0.0;
        if hidden::cast(t2, p2, d) is Ok {
            shape::shape_cast(a2, inner2, type_text);
        }
    }
}

} // verus!
