//! The longest rules under names that do not unfold, with what each makes of one case.
use crate::parser::ast::{ExprKindView, ExprView, FunctionArgsView, SelectView};
use crate::parser::rules;
use crate::parser::rules::{FailView, Parsed};
use crate::parser::tokenizer::{Keyword, KindView, ParamView, Span, TokenView};
use vstd::prelude::*;

verus! {

pub closed spec fn primary(t: Seq<TokenView>, p: int, d: nat) -> Parsed<ExprView> {
    rules::primary_expr(t, p, d)
}

pub closed spec fn step(t: Seq<TokenView>, p: int, d: nat, lhs: ExprView) -> Option<
    Parsed<ExprView>,
> {
    rules::equality_step(t, p, d, lhs)
}

pub closed spec fn query(t: Seq<TokenView>, p: int, d: nat) -> Parsed<SelectView> {
    rules::select(t, p, d)
}

pub closed spec fn call(
    t: Seq<TokenView>,
    p: int,
    d: nat,
    name: Seq<char>,
    start: Span,
) -> Parsed<ExprView> {
    rules::function_call(t, p, d, name, start)
}

pub closed spec fn cast(t: Seq<TokenView>, p: int, d: nat) -> Parsed<ExprView> {
    rules::cast_expr(t, p, d)
}

pub closed spec fn whens(
    t: Seq<TokenView>,
    p: int,
    d: nat,
    list: Seq<(ExprView, ExprView)>,
) -> Parsed<Seq<(ExprView, ExprView)>> {
    rules::more_whens(t, p, d, list)
}

pub closed spec fn between(
    t: Seq<TokenView>,
    p: int,
    d: nat,
    lhs: ExprView,
    negated: bool,
) -> Parsed<ExprView> {
    rules::between_tail(t, p, d, lhs, negated)
}

pub closed spec fn inside(
    t: Seq<TokenView>,
    p: int,
    d: nat,
    lhs: ExprView,
    negated: bool,
) -> Parsed<ExprView> {
    rules::in_tail(t, p, d, lhs, negated)
}

pub closed spec fn like(
    t: Seq<TokenView>,
    p: int,
    d: nat,
    lhs: ExprView,
    glob: bool,
    negated: bool,
) -> Parsed<ExprView> {
    rules::like_tail(t, p, d, lhs, glob, negated)
}

pub closed spec fn arguments(t: Seq<TokenView>, p: int, d: nat) -> Parsed<FunctionArgsView> {
    rules::function_args(t, p, d)
}

pub closed spec fn more(t: Seq<TokenView>, p: int, d: nat, list: Seq<ExprView>) -> Parsed<
    Seq<ExprView>,
> {
    rules::more_exprs(t, p, d, list)
}

pub closed spec fn list(t: Seq<TokenView>, p: int, d: nat) -> Parsed<Seq<ExprView>> {
    rules::expr_list(t, p, d)
}

pub closed spec fn optional_list(t: Seq<TokenView>, p: int, d: nat) -> Parsed<Seq<ExprView>> {
    rules::opt_expr_list(t, p, d)
}

pub closed spec fn operand(t: Seq<TokenView>, p: int, d: nat) -> Parsed<Option<ExprView>> {
    rules::case_operand(t, p, d)
}

pub closed spec fn cases(t: Seq<TokenView>, p: int, d: nat) -> Parsed<ExprView> {
    rules::case_expr(t, p, d)
}

pub proof fn lemma_operand(t: Seq<TokenView>, p: int, d: nat)
    ensures
        rules::at_kw(t, p, Keyword::WHEN) ==> operand(t, p, d) == Ok::<
            (Option<ExprView>, int),
            FailView,
        >((None, p)),
        !rules::at_kw(t, p, Keyword::WHEN) ==> (operand(t, p, d) is Ok <==> rules::expr(
            t,
            p,
            d,
        ) is Ok),
        !rules::at_kw(t, p, Keyword::WHEN) && operand(t, p, d) is Ok ==> operand(t, p, d)->Ok_0 == (
            Some(rules::expr(t, p, d)->Ok_0.0),
            rules::expr(t, p, d)->Ok_0.1,
        ),
        !rules::at_kw(t, p, Keyword::WHEN) && rules::expr(t, p, d) is Err ==> operand(t, p,
            d) is Err
            && operand(t, p, d)->Err_0 == rules::expr(t, p, d)->Err_0,
{
}

pub closed spec fn optional(t: Seq<TokenView>, p: int, d: nat, word: Keyword) -> Parsed<
    Option<ExprView>,
> {
    rules::opt_expr(t, p, d, word)
}

pub proof fn lemma_optional(t: Seq<TokenView>, p: int, d: nat, word: Keyword)
    ensures
        !rules::at_kw(t, p, word) ==> optional(t, p, d, word) == Ok::<
            (Option<ExprView>, int),
            FailView,
        >((None, p)),
        rules::at_kw(t, p, word) ==> (optional(t, p, d, word) is Ok <==> rules::expr(
            t,
            p + 1,
            d,
        ) is Ok),
        rules::at_kw(t, p, word) && optional(t, p, d, word) is Ok ==> optional(t, p, d, word)->Ok_0
            == (Some(rules::expr(t, p + 1, d)->Ok_0.0), rules::expr(t, p + 1, d)->Ok_0.1),
        rules::at_kw(t, p, word) && rules::expr(t, p + 1, d) is Err ==> optional(t, p, d, word)
            is Err && optional(t, p, d, word)->Err_0 == rules::expr(t, p + 1, d)->Err_0,
{
}

pub proof fn lemma_is_optional(t: Seq<TokenView>, p: int, d: nat, word: Keyword)
    ensures
        optional(t, p, d, word) == rules::opt_expr(t, p, d, word),
{
}

pub proof fn lemma_query(t: Seq<TokenView>, p: int, d: nat)
    ensures
        query(t, p, d) == rules::select(t, p, d),
{
}

/// A subquery in parentheses.
pub proof fn lemma_subquery(t: Seq<TokenView>, p: int, d: nat, what: Seq<char>)
    ensures
        rules::subquery(t, p, d, what) is Ok <==> query(t, p, d) is Ok && rules::kind(
            t,
            query(t, p, d)->Ok_0.1,
        ) == KindView::RParen,
        rules::subquery(t, p, d, what) is Ok ==> rules::subquery(t, p, d, what)->Ok_0 == (
            (query(t, p, d)->Ok_0.0, rules::span(t, query(t, p, d)->Ok_0.1)),
            query(t, p, d)->Ok_0.1 + 1,
        ),
        query(t, p, d) is Err ==> rules::subquery(t, p, d, what) is Err && rules::subquery(
            t,
            p,
            d,
            what,
        )->Err_0 == query(t, p, d)->Err_0,
{
}

pub proof fn lemma_unary(t: Seq<TokenView>, p: int, d: nat)
    ensures
        rules::unary_op(rules::kind(t, p)) is None && rules::deeper_allowed(d)
            ==> rules::unary_expr(t, p, d) == primary(t, p, d + 1),
        rules::unary_expr(t, p, d) is Ok ==> rules::deeper_allowed(d),
        rules::unary_op(rules::kind(t, p)) is Some ==> (rules::unary_expr(t, p, d) is Ok <==> (
        rules::deeper_allowed(d) && rules::unary_expr(t, p + 1, d + 1) is Ok)),
        rules::unary_op(rules::kind(t, p)) is Some && rules::unary_expr(t, p, d) is Ok
            ==> rules::unary_expr(t, p, d)->Ok_0 == (
            rules::unary(
                rules::unary_op(rules::kind(t, p))->0,
                rules::unary_expr(t, p + 1, d + 1)->Ok_0.0,
                rules::span(t, p),
            ),
            rules::unary_expr(t, p + 1, d + 1)->Ok_0.1,
        ),
        rules::unary_op(rules::kind(t, p)) is Some && rules::deeper_allowed(d)
            && rules::unary_expr(t, p + 1, d + 1) is Err ==> rules::unary_expr(t, p, d) is Err
            && rules::unary_expr(t, p, d)->Err_0 == rules::unary_expr(t, p + 1, d + 1)->Err_0,
        !rules::deeper_allowed(d) ==> rules::unary_expr(t, p, d) == rules::invalid::<ExprView>(
            t,
            p,
            "expression nesting too deep"@,
        ),
{
}

pub proof fn lemma_is_step(t: Seq<TokenView>, p: int, d: nat, lhs: ExprView)
    ensures
        step(t, p, d, lhs) == rules::equality_step(t, p, d, lhs),
{
}

pub proof fn lemma_equality_rest(t: Seq<TokenView>, p: int, d: nat, lhs: ExprView)
    ensures
        step(t, p, d, lhs) is None ==> rules::equality_rest(t, p, d, lhs) == Ok::<
            (ExprView, int),
            FailView,
        >((lhs, p)),
        step(t, p, d, lhs) is Some && rules::equality_rest(t, p, d, lhs) is Ok && rules::left(
            t,
            step(t, p, d, lhs)->0->Ok_0.1,
        ) < rules::left(t, p) ==> step(t, p, d, lhs)->0 is Ok && rules::equality_rest(t, p, d, lhs)
            == rules::equality_rest(
            t,
            step(t, p, d, lhs)->0->Ok_0.1,
            d,
            step(t, p, d, lhs)->0->Ok_0.0,
        ),
        step(t, p, d, lhs) is Some && step(t, p, d, lhs)->0 is Ok && rules::left(
            t,
            step(t, p, d, lhs)->0->Ok_0.1,
        ) < rules::left(t, p) ==> rules::equality_rest(t, p, d, lhs) == rules::equality_rest(
            t,
            step(t, p, d, lhs)->0->Ok_0.1,
            d,
            step(t, p, d, lhs)->0->Ok_0.0,
        ),
        step(t, p, d, lhs) is Some && step(t, p, d, lhs)->0 is Err ==> rules::equality_rest(
            t,
            p,
            d,
            lhs,
        ) is Err && rules::equality_rest(t, p, d, lhs)->Err_0 == step(t, p, d, lhs)->0->Err_0,
{
}

// ---- the cases of a primary expression -----------------------------------------------

pub proof fn lemma_literal(t: Seq<TokenView>, p: int, d: nat)
    ensures
        rules::literal_of(rules::kind(t, p)) is Some ==> primary(t, p, d) == Ok::<
            (ExprView, int),
            FailView,
        >(
            (
                ExprView {
                    kind: ExprKindView::Literal(rules::literal_of(rules::kind(t, p))->0),
                    span: rules::span(t, p),
                },
                p + 1,
            ),
        ),
{
}

pub proof fn lemma_param(t: Seq<TokenView>, p: int, d: nat, param: ParamView)
    requires
        rules::kind(t, p) == KindView::Param(param),
    ensures
        primary(t, p, d) == Ok::<(ExprView, int), FailView>(
            (
                ExprView {
                    kind: ExprKindView::Param(rules::param_of(param)),
                    span: rules::span(t, p),
                },
                p + 1,
            ),
        ),
{
}

pub proof fn lemma_name(t: Seq<TokenView>, p: int, d: nat, name: Seq<char>)
    requires
        rules::kind(t, p) == KindView::Identifier(name),
    ensures
        rules::kind(t, p + 1) == KindView::LParen ==> primary(t, p, d) == call(
            t,
            p + 1,
            d,
            name,
            rules::span(t, p),
        ),
        rules::kind(t, p + 1) != KindView::LParen ==> primary(t, p, d) == rules::column_ref(t, p),
{
}

pub proof fn lemma_paren(t: Seq<TokenView>, p: int, d: nat)
    requires
        rules::kind(t, p) == KindView::LParen,
        !rules::at_kw(t, p + 1, Keyword::SELECT),
    ensures
        ({
            let inner = rules::expr(t, p + 1, d);
            &&& primary(t, p, d) is Ok <==> inner is Ok && rules::kind(t, inner->Ok_0.1)
                == KindView::RParen
            &&& primary(t, p, d) is Ok ==> primary(t, p, d)->Ok_0.0.kind == ExprKindView::Paren(
                Box::new(inner->Ok_0.0),
            ) && primary(t, p, d)->Ok_0.1 == inner->Ok_0.1 + 1
            &&& inner is Err ==> primary(t, p, d) is Err && primary(t, p, d)->Err_0 == inner->Err_0
        }),
{
}

pub proof fn lemma_paren_query(t: Seq<TokenView>, p: int, d: nat)
    requires
        rules::kind(t, p) == KindView::LParen,
        rules::at_kw(t, p + 1, Keyword::SELECT),
    ensures
        ({
            let inner = query(t, p + 1, d);
            &&& primary(t, p, d) is Ok <==> inner is Ok && rules::kind(t, inner->Ok_0.1)
                == KindView::RParen
            &&& primary(t, p, d) is Ok ==> primary(t, p, d)->Ok_0.0.kind == ExprKindView::Subquery(
                Box::new(inner->Ok_0.0),
            ) && primary(t, p, d)->Ok_0.1 == inner->Ok_0.1 + 1
            &&& inner is Err ==> primary(t, p, d) is Err && primary(t, p, d)->Err_0 == inner->Err_0
        }),
{
    lemma_subquery(t, p + 1, d, "')' to close subquery"@);
}

pub proof fn lemma_word(t: Seq<TokenView>, p: int, d: nat, word: Keyword)
    requires
        rules::kind(t, p) == KindView::Keyword(word),
    ensures
        word == Keyword::CASE ==> primary(t, p, d) == cases(t, p, d),
        word == Keyword::CAST ==> primary(t, p, d) == cast(t, p, d),
        word == Keyword::EXISTS ==> primary(t, p, d) == rules::exists_tail(
            t,
            p + 1,
            d,
            rules::span(t, p),
            false,
        ),
        word != Keyword::CASE && word != Keyword::CAST && word != Keyword::EXISTS && primary(
            t,
            p,
            d,
        ) is Ok ==> rules::kind(t, p + 1) == KindView::LParen && !rules::at_current_time(t, p),
        word != Keyword::CASE && word != Keyword::CAST && word != Keyword::EXISTS && rules::kind(
            t,
            p + 1,
        ) == KindView::LParen && !rules::at_current_time(t, p) ==> primary(t, p, d)
            == call(t, p + 1, d, word.name(), rules::span(t, p)),
{
}

pub proof fn lemma_no_primary(t: Seq<TokenView>, p: int, d: nat)
    requires
        primary(t, p, d) is Ok,
    ensures
        rules::literal_of(rules::kind(t, p)) is Some || rules::kind(t, p) is Param || rules::kind(
            t,
            p,
        ) is Identifier || rules::kind(t, p) is LParen || rules::kind(t, p) is Keyword,
{
}

pub proof fn lemma_call(t: Seq<TokenView>, p: int, d: nat, name: Seq<char>, start: Span)
    ensures
        ({
            let args = arguments(t, rules::skip_kw(t, p + 1, Keyword::DISTINCT), d);
            let e = args->Ok_0.1;
            let r = call(t, p, d, name, start);
            &&& r is Ok <==> rules::kind(t, p) == KindView::LParen && args is Ok && rules::kind(
                t,
                e,
            ) == KindView::RParen && !rules::at_kw(t, e + 1, Keyword::OVER) && !rules::at_kw(
                t,
                e + 1,
                Keyword::FILTER,
            )
            &&& r is Ok ==> r->Ok_0.1 == e + 1 && r->Ok_0.0.kind == (ExprKindView::FunctionCall {
                name,
                distinct: rules::at_kw(t, p + 1, Keyword::DISTINCT),
                args: args->Ok_0.0,
            })
            &&& rules::kind(t, p) == KindView::LParen && args is Err ==> r is Err && r->Err_0
                == args->Err_0
        }),
{
}

pub proof fn lemma_arguments(t: Seq<TokenView>, p: int, d: nat)
    ensures
        rules::kind(t, p) == KindView::Star ==> arguments(t, p, d) == Ok::<
            (FunctionArgsView, int),
            FailView,
        >((FunctionArgsView::Star, p + 1)),
        rules::kind(t, p) != KindView::Star ==> (arguments(t, p, d) is Ok <==> optional_list(
            t,
            p,
            d,
        ) is Ok),
        rules::kind(t, p) != KindView::Star && arguments(t, p, d) is Ok ==> arguments(t, p, d)->Ok_0
            == (
            FunctionArgsView::List(optional_list(t, p, d)->Ok_0.0),
            optional_list(t, p, d)->Ok_0.1,
        ),
        rules::kind(t, p) != KindView::Star && optional_list(t, p, d) is Err ==> arguments(t, p, d)
            is Err && arguments(t, p, d)->Err_0 == optional_list(t, p, d)->Err_0,
{
}

pub proof fn lemma_optional_list(t: Seq<TokenView>, p: int, d: nat)
    ensures
        rules::kind(t, p) == KindView::RParen ==> optional_list(t, p, d) == Ok::<
            (Seq<ExprView>, int),
            FailView,
        >((seq![], p)),
        rules::kind(t, p) != KindView::RParen ==> optional_list(t, p, d) == list(t, p, d),
{
}

pub proof fn lemma_list(t: Seq<TokenView>, p: int, d: nat)
    ensures
        list(t, p, d) is Ok ==> rules::expr(t, p, d) is Ok,
        rules::expr(t, p, d) is Ok ==> list(t, p, d) == more(
            t,
            rules::expr(t, p, d)->Ok_0.1,
            d,
            seq![rules::expr(t, p, d)->Ok_0.0],
        ),
        rules::expr(t, p, d) is Err ==> list(t, p, d) is Err && list(t, p, d)->Err_0 == rules::expr(
            t,
            p,
            d,
        )->Err_0,
{
}

pub proof fn lemma_is_list(t: Seq<TokenView>, p: int, d: nat)
    ensures
        list(t, p, d) == rules::expr_list(t, p, d),
{
}

pub proof fn lemma_more(t: Seq<TokenView>, p: int, d: nat, list: Seq<ExprView>)
    ensures
        rules::kind(t, p) != KindView::Comma ==> more(t, p, d, list) == Ok::<
            (Seq<ExprView>, int),
            FailView,
        >((list, p)),
        rules::kind(t, p) == KindView::Comma && more(t, p, d, list) is Ok ==> rules::expr(
            t,
            p + 1,
            d,
        ) is Ok,
        rules::kind(t, p) == KindView::Comma && rules::expr(t, p + 1, d) is Ok && rules::left(
            t,
            rules::expr(t, p + 1, d)->Ok_0.1,
        ) < rules::left(t, p) ==> more(t, p, d, list) == more(
            t,
            rules::expr(t, p + 1, d)->Ok_0.1,
            d,
            list.push(rules::expr(t, p + 1, d)->Ok_0.0),
        ),
        rules::kind(t, p) == KindView::Comma && rules::expr(t, p + 1, d) is Err ==> more(
            t,
            p,
            d,
            list,
        ) is Err && more(t, p, d, list)->Err_0 == rules::expr(t, p + 1, d)->Err_0,
{
}

pub proof fn lemma_cast(t: Seq<TokenView>, p: int, d: nat)
    ensures
        ({
            let inner = rules::expr(t, p + 2, d);
            let q = inner->Ok_0.1;
            let words = rules::declared_type(t, q + 1);
            let e = words->Ok_0.1;
            let r = cast(t, p, d);
            &&& r is Ok <==> rules::kind(t, p + 1) == KindView::LParen && inner is Ok
                && rules::at_kw(t, q, Keyword::AS) && words is Ok && rules::kind(t, e)
                == KindView::RParen
            &&& r is Ok ==> r->Ok_0.1 == e + 1 && r->Ok_0.0.kind == (ExprKindView::Cast {
                expr: Box::new(inner->Ok_0.0),
                declared_type: words->Ok_0.0,
            })
            &&& rules::kind(t, p + 1) == KindView::LParen && inner is Err ==> r is Err && r->Err_0
                == inner->Err_0
        }),
{
}

pub proof fn lemma_case(t: Seq<TokenView>, p: int, d: nat)
    ensures
        ({
            let first = operand(t, p + 1, d);
            let list = whens(t, first->Ok_0.1, d, seq![]);
            let otherwise = optional(t, list->Ok_0.1, d, Keyword::ELSE);
            let e = otherwise->Ok_0.1;
            let r = cases(t, p, d);
            &&& r is Ok <==> first is Ok && list is Ok && list->Ok_0.0.len() > 0 && otherwise is Ok
                && rules::at_kw(t, e, Keyword::END)
            &&& r is Ok ==> r->Ok_0.1 == e + 1 && r->Ok_0.0.kind == (ExprKindView::Case {
                operand: rules::boxed(first->Ok_0.0),
                whens: list->Ok_0.0,
                else_: rules::boxed(otherwise->Ok_0.0),
            })
            &&& first is Err ==> r is Err && r->Err_0 == first->Err_0
            &&& first is Ok && list is Err ==> r is Err && r->Err_0 == list->Err_0
            &&& first is Ok && list is Ok && list->Ok_0.0.len() > 0 && otherwise is Err ==>
                r is Err && r->Err_0 == otherwise->Err_0
        }),
{
}

/// One branch of a `CASE` in front of the others.
pub proof fn lemma_when(t: Seq<TokenView>, p: int, d: nat, list: Seq<(ExprView, ExprView)>)
    ensures
        ({
            let condition = rules::expr(t, p + 1, d);
            let result = rules::expr(t, condition->Ok_0.1 + 1, d);
            let more = rules::at_kw(t, p, Keyword::WHEN);
            let good = condition is Ok && rules::at_kw(t, condition->Ok_0.1, Keyword::THEN)
                && result is Ok;
            let shorter = rules::left(t, result->Ok_0.1) < rules::left(t, p);
            &&& !more ==> whens(t, p, d, list) == Ok::<(Seq<(ExprView, ExprView)>, int), FailView>(
                (list, p),
            )
            &&& more && whens(t, p, d, list) is Ok ==> good
            &&& more && condition is Err ==> whens(t, p, d, list) is Err && whens(
                t,
                p,
                d,
                list,
            )->Err_0 == condition->Err_0
            &&& more && condition is Ok && rules::at_kw(t, condition->Ok_0.1, Keyword::THEN)
                && result is Err ==> whens(t, p, d, list) is Err && whens(t, p, d, list)->Err_0
                == result->Err_0
            &&& more && good && shorter ==> whens(t, p, d, list) == whens(
                t,
                result->Ok_0.1,
                d,
                list.push((condition->Ok_0.0, result->Ok_0.0)),
            )
        }),
{
}

// ---- the cases of an operator of the equality level ------------------------------------

pub proof fn lemma_step_compare(t: Seq<TokenView>, p: int, d: nat, lhs: ExprView)
    requires
        rules::kind(t, p) == KindView::Eq || rules::kind(t, p) == KindView::Ne,
    ensures
        ({
            let rhs = rules::binary_expr(t, p + 1, d, 1);
            let s = step(t, p, d, lhs);
            &&& s is Some
            &&& s->0 is Ok <==> rhs is Ok
            &&& s->0 is Ok ==> s->0->Ok_0 == (
                rules::bin(
                    if rules::kind(t, p) == KindView::Eq {
                        crate::parser::ast::BinaryOp::Eq
                    } else {
                        crate::parser::ast::BinaryOp::Ne
                    },
                    lhs,
                    rhs->Ok_0.0,
                ),
                rhs->Ok_0.1,
            )
            &&& rhs is Err ==> s->0 is Err && s->0->Err_0 == rhs->Err_0
        }),
{
}

pub proof fn lemma_step_is(t: Seq<TokenView>, p: int, d: nat, lhs: ExprView)
    requires
        rules::at_kw(t, p, Keyword::IS),
    ensures
        ({
            let rhs = rules::binary_expr(t, rules::skip_kw(t, p + 1, Keyword::NOT), d, 1);
            let s = step(t, p, d, lhs);
            &&& s is Some
            &&& s->0 is Ok <==> rhs is Ok
            &&& s->0 is Ok ==> s->0->Ok_0.0.kind == (ExprKindView::Is {
                lhs: Box::new(lhs),
                rhs: Box::new(rhs->Ok_0.0),
                negated: rules::at_kw(t, p + 1, Keyword::NOT),
            }) && s->0->Ok_0.1 == rhs->Ok_0.1
            &&& rhs is Err ==> s->0 is Err && s->0->Err_0 == rhs->Err_0
        }),
{
}

pub proof fn lemma_step_null(t: Seq<TokenView>, p: int, d: nat, lhs: ExprView)
    ensures
        rules::at_kw(t, p, Keyword::ISNULL) ==> step(t, p, d, lhs) == Some(
            Ok::<(ExprView, int), FailView>((rules::is_null(lhs, false, rules::span(t, p)), p + 1)),
        ),
        rules::at_kw(t, p, Keyword::NOTNULL) ==> step(t, p, d, lhs) == Some(
            Ok::<(ExprView, int), FailView>((rules::is_null(lhs, true, rules::span(t, p)), p + 1)),
        ),
        rules::at_kw(t, p, Keyword::NOT) && rules::kind(t, p + 1) == KindView::Null ==> step(
            t,
            p,
            d,
            lhs,
        ) == Some(
            Ok::<(ExprView, int), FailView>(
                (rules::is_null(lhs, true, rules::span(t, p + 1)), p + 2),
            ),
        ),
{
}

/// The place of the word behind an optional `NOT`.
pub open spec fn behind_not(t: Seq<TokenView>, p: int) -> int {
    if rules::at_negated_op(t, p) {
        p + 1
    } else {
        p
    }
}

pub proof fn lemma_step_word(t: Seq<TokenView>, p: int, d: nat, lhs: ExprView)
    ensures
        ({
            let o = behind_not(t, p);
            let negated = rules::at_negated_op(t, p);
            &&& rules::at_kw(t, o, Keyword::BETWEEN) ==> step(t, p, d, lhs) == Some(
                between(t, o + 1, d, lhs, negated),
            )
            &&& rules::at_kw(t, o, Keyword::IN) ==> step(t, p, d, lhs) == Some(
                inside(t, o + 1, d, lhs, negated),
            )
            &&& rules::at_kw(t, o, Keyword::LIKE) ==> step(t, p, d, lhs) == Some(
                like(t, o + 1, d, lhs, false, negated),
            )
            &&& rules::at_kw(t, o, Keyword::GLOB) ==> step(t, p, d, lhs) == Some(
                like(t, o + 1, d, lhs, true, negated),
            )
        }),
{
}

pub proof fn lemma_between(
    t: Seq<TokenView>,
    p: int,
    d: nat,
    lhs: ExprView,
    negated: bool,
)
    ensures
        ({
            let lo = rules::binary_expr(t, p, d, 1);
            let q = lo->Ok_0.1;
            let hi = rules::binary_expr(t, q + 1, d, 1);
            let r = between(t, p, d, lhs, negated);
            &&& r is Ok <==> lo is Ok && rules::at_kw(t, q, Keyword::AND) && hi is Ok
            &&& r is Ok ==> r->Ok_0.1 == hi->Ok_0.1 && r->Ok_0.0.kind == (ExprKindView::Between {
                expr: Box::new(lhs),
                lo: Box::new(lo->Ok_0.0),
                hi: Box::new(hi->Ok_0.0),
                negated,
            })
            &&& lo is Err ==> r is Err && r->Err_0 == lo->Err_0
            &&& lo is Ok && rules::at_kw(t, q, Keyword::AND) && hi is Err ==> r is Err && r->Err_0
                == hi->Err_0
        }),
{
}

pub proof fn lemma_like(
    t: Seq<TokenView>,
    p: int,
    d: nat,
    lhs: ExprView,
    glob: bool,
    negated: bool,
)
    ensures
        ({
            let pattern = rules::binary_expr(t, p, d, 1);
            let q = pattern->Ok_0.1;
            let escaped = rules::at_kw(t, q, Keyword::ESCAPE);
            let escape = rules::binary_expr(t, q + 1, d, 1);
            let r = like(t, p, d, lhs, glob, negated);
            &&& r is Ok <==> pattern is Ok && (escaped ==> escape is Ok)
            &&& pattern is Ok && escaped && escape is Err ==> r is Err && r->Err_0 == escape->Err_0
            &&& r is Ok ==> r->Ok_0.1 == (if escaped {
                escape->Ok_0.1
            } else {
                q
            }) && r->Ok_0.0.kind == (ExprKindView::Like {
                expr: Box::new(lhs),
                pattern: Box::new(pattern->Ok_0.0),
                glob,
                negated,
                escape: if escaped {
                    Some(Box::new(escape->Ok_0.0))
                } else {
                    None
                },
            })
            &&& pattern is Err ==> r is Err && r->Err_0 == pattern->Err_0
        }),
{
}

pub proof fn lemma_inside(
    t: Seq<TokenView>,
    p: int,
    d: nat,
    lhs: ExprView,
    negated: bool,
)
    ensures
        ({
            let list = optional_list(t, p + 1, d);
            let q = list->Ok_0.1;
            let r = inside(t, p, d, lhs, negated);
            &&& r is Ok ==> rules::kind(t, p) == KindView::LParen
            &&& !rules::at_kw(t, p + 1, Keyword::SELECT) ==> (r is Ok <==> rules::kind(t, p)
                == KindView::LParen && list is Ok && rules::kind(t, q) == KindView::RParen)
            &&& r is Ok && !rules::at_kw(t, p + 1, Keyword::SELECT) ==> r->Ok_0.1 == q + 1
                && r->Ok_0.0.kind == (ExprKindView::In {
                expr: Box::new(lhs),
                list: list->Ok_0.0,
                negated,
            })
            &&& !rules::at_kw(t, p + 1, Keyword::SELECT) && rules::kind(t, p) == KindView::LParen
                && list is Err ==> r is Err && r->Err_0 == list->Err_0
        }),
{
}

pub proof fn lemma_inside_query(
    t: Seq<TokenView>,
    p: int,
    d: nat,
    lhs: ExprView,
    negated: bool,
)
    ensures
        ({
            let inner = query(t, p + 1, d);
            let r = inside(t, p, d, lhs, negated);
            &&& rules::at_kw(t, p + 1, Keyword::SELECT) ==> (r is Ok <==> rules::kind(t, p)
                == KindView::LParen && inner is Ok && rules::kind(t, inner->Ok_0.1)
                == KindView::RParen)
            &&& r is Ok && rules::at_kw(t, p + 1, Keyword::SELECT) ==> r->Ok_0.1 == inner->Ok_0.1
                + 1 && r->Ok_0.0.kind == (ExprKindView::InSubquery {
                expr: Box::new(lhs),
                subquery: Box::new(inner->Ok_0.0),
                negated,
            })
            &&& rules::at_kw(t, p + 1, Keyword::SELECT) && rules::kind(t, p) == KindView::LParen
                && inner is Err ==> r is Err && r->Err_0 == inner->Err_0
        }),
{
    lemma_subquery(t, p + 1, d, "')' to close IN subquery"@);
}

/// Where an operator of the equality level is read, one of its words stands.
pub proof fn lemma_step_cases(t: Seq<TokenView>, p: int, d: nat, lhs: ExprView)
    ensures
        ({
            let o = behind_not(t, p);
            step(t, p, d, lhs) is Some <==> rules::kind(t, p) == KindView::Eq || rules::kind(t, p)
                == KindView::Ne || rules::at_kw(t, p, Keyword::IS) || rules::at_kw(
                t,
                p,
                Keyword::ISNULL,
            ) || rules::at_kw(t, p, Keyword::NOTNULL) || (rules::at_kw(t, p, Keyword::NOT)
                && rules::kind(t, p + 1) == KindView::Null) || rules::at_kw(t, o, Keyword::BETWEEN)
                || rules::at_kw(t, o, Keyword::IN) || rules::at_kw(t, o, Keyword::LIKE)
                || rules::at_kw(t, o, Keyword::GLOB)
        }),
{
}

} // verus!
