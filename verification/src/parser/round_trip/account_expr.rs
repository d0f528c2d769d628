//! An expression that was read has the letters of its tokens.
use crate::double::TWO_POW_63;
use crate::parser::ast::{BinaryOp, ExprKindView, ExprView, LiteralView};
use crate::parser::round_trip::account;
use crate::parser::round_trip::account::{before, kept, load, weight};
use crate::parser::round_trip::account_query;
use crate::parser::round_trip::hidden;
use crate::parser::round_trip::leaves;
use crate::parser::round_trip::matching;
use crate::parser::round_trip::shape;
use crate::parser::rules;
use crate::parser::rules::{Parsed, MAX_EXPR_DEPTH};
use crate::parser::tokenizer::{Keyword, KindView, Span, TokenView};
use vstd::prelude::*;

verus! {

broadcast use {account::load_sum, account::load_one, account::load_none};

/// What holds of the tokens that are counted, and of the letter that is counted in them.
pub open spec fn counts(t: Seq<TokenView>, p: int, c: char) -> bool {
    matching::ended(t) && account::no_name_is_left_out(t) && 0 <= p && c != ' '
}

/// Whether what was read at `p` has the letters of its tokens.
pub open spec fn is_kept(r: Parsed<ExprView>, t: Seq<TokenView>, p: int, c: char) -> bool {
    match r {
        Ok((a, q)) => p < q && kept(t, p, q, a.kinds(), c),
        Err(_) => true,
    }
}

/// Whether what was read at `p` behind `lhs` has the letters of `lhs` and of its tokens.
pub open spec fn is_kept_behind(
    r: Parsed<ExprView>,
    t: Seq<TokenView>,
    p: int,
    lhs: ExprView,
    c: char,
) -> bool {
    match r {
        Ok((a, q)) => p <= q && before(t, q, c) + load(lhs.kinds(), c) == before(t, p, c) + load(
            a.kinds(),
            c,
        ),
        Err(_) => true,
    }
}

pub proof fn count_expr(t: Seq<TokenView>, p: int, d: nat, c: char)
    requires
        counts(t, p, c),
        rules::expr(t, p, d) is Ok,
    ensures
        is_kept(rules::expr(t, p, d), t, p, c),
    decreases MAX_EXPR_DEPTH - d, 0int, 0nat,
{
    count_bool(t, p, d + 1, false, c);
}

proof fn count_bool(t: Seq<TokenView>, p: int, d: nat, and_only: bool, c: char)
    requires
        counts(t, p, c),
        rules::bool_expr(t, p, d, and_only) is Ok,
    ensures
        is_kept(rules::bool_expr(t, p, d, and_only), t, p, c),
    decreases MAX_EXPR_DEPTH - d, (if and_only { 42int } else { 44 }), 0nat,
{
    count_not(t, p, d, c);
    let (lhs, q) = rules::not_expr(t, p, d)->Ok_0;
    count_bool_rest(t, q, d, and_only, lhs, c);
}

proof fn count_bool_rest(
    t: Seq<TokenView>,
    p: int,
    d: nat,
    and_only: bool,
    lhs: ExprView,
    c: char,
)
    requires
        counts(t, p, c),
        rules::bool_rest(t, p, d, and_only, lhs) is Ok,
    ensures
        is_kept_behind(rules::bool_rest(t, p, d, and_only, lhs), t, p, lhs, c),
    decreases MAX_EXPR_DEPTH - d, (if and_only { 41int } else { 43 }), rules::left(t, p),
{
    account::one(t, p, c);
    if rules::at_kw(t, p, Keyword::AND) {
        count_not(t, p + 1, d, c);
        let (rhs, q) = rules::not_expr(t, p + 1, d)->Ok_0;
        matching::lemma_progress(t, p, q);
        let e = rules::bin(BinaryOp::And, lhs, rhs);
        shape::shape_binary(e, BinaryOp::And, lhs, rhs);
        count_bool_rest(t, q, d, and_only, e, c);
    } else if rules::at_kw(t, p, Keyword::OR) && !and_only {
        count_bool(t, p + 1, d, true, c);
        let (rhs, q) = rules::bool_expr(t, p + 1, d, true)->Ok_0;
        matching::lemma_progress(t, p, q);
        let e = rules::bin(BinaryOp::Or, lhs, rhs);
        shape::shape_binary(e, BinaryOp::Or, lhs, rhs);
        count_bool_rest(t, q, d, and_only, e, c);
    }
}

#[verifier::rlimit(40)]
proof fn count_not(t: Seq<TokenView>, p: int, d: nat, c: char)
    requires
        counts(t, p, c),
        rules::not_expr(t, p, d) is Ok,
    ensures
        is_kept(rules::not_expr(t, p, d), t, p, c),
    decreases MAX_EXPR_DEPTH - d, 1int, 0nat,
{
    let a = rules::not_expr(t, p, d)->Ok_0.0;
    account::one(t, p, c);
    if rules::at_kw(t, p, Keyword::NOT) {
        if rules::at_kw(t, p + 1, Keyword::EXISTS) {
            account::one(t, p + 1, c);
            count_exists(t, p + 2, d + 1, rules::span(t, p), true, c);
        } else {
            count_not(t, p + 1, d + 1, c);
            let inner = rules::not_expr(t, p + 1, d + 1)->Ok_0.0;
            shape::shape_unary(a, crate::parser::ast::UnaryOp::Not, inner);
        }
    } else {
        count_equality(t, p, d + 1, c);
    }
}

/// Behind `EXISTS`, the subquery in parentheses.
proof fn count_exists(t: Seq<TokenView>, p: int, d: nat, start: Span, negated: bool, c: char)
    requires
        counts(t, p, c),
        rules::exists_tail(t, p, d, start, negated) is Ok,
    ensures
        ({
            let (a, q) = rules::exists_tail(t, p, d, start, negated)->Ok_0;
            &&& p < q
            &&& before(t, q, c) + load(shape::flag_kinds(negated, Keyword::NOT), c) + load(
                shape::kw(Keyword::EXISTS),
                c,
            ) == before(t, p, c) + load(a.kinds(), c)
        }),
    decreases MAX_EXPR_DEPTH - d, 16int, 0nat,
{
    let close = "')' to close EXISTS subquery"@;
    hidden::lemma_subquery(t, p + 1, d, close);
    account_query::count_select(t, p + 1, d, c);
    let (query, q) = hidden::query(t, p + 1, d)->Ok_0;
    account::one(t, p, c);
    account::one(t, q, c);
    let a = rules::exists_tail(t, p, d, start, negated)->Ok_0.0;
    shape::shape_exists(a, query, negated);
}

proof fn count_equality(t: Seq<TokenView>, p: int, d: nat, c: char)
    requires
        counts(t, p, c),
        rules::equality_expr(t, p, d) is Ok,
    ensures
        is_kept(rules::equality_expr(t, p, d), t, p, c),
    decreases MAX_EXPR_DEPTH - d, 38int, 0nat,
{
    count_binary(t, p, d, 1, c);
    let (lhs, q) = rules::binary_expr(t, p, d, 1)->Ok_0;
    count_equality_rest(t, q, d, lhs, c);
}

proof fn count_equality_rest(t: Seq<TokenView>, p: int, d: nat, lhs: ExprView, c: char)
    requires
        counts(t, p, c),
        rules::equality_rest(t, p, d, lhs) is Ok,
    ensures
        is_kept_behind(rules::equality_rest(t, p, d, lhs), t, p, lhs, c),
    decreases MAX_EXPR_DEPTH - d, 37int, rules::left(t, p),
{
    hidden::lemma_equality_rest(t, p, d, lhs);
    let step = hidden::step(t, p, d, lhs);
    if step is Some {
        hidden::lemma_step_cases(t, p, d, lhs);
        let (e, q) = step->0->Ok_0;
        count_step(t, p, d, lhs, c);
        matching::lemma_progress(t, p, q);
        count_equality_rest(t, q, d, e, c);
    }
}

proof fn count_step(t: Seq<TokenView>, p: int, d: nat, lhs: ExprView, c: char)
    requires
        counts(t, p, c),
        hidden::step(t, p, d, lhs) is Some,
        hidden::step(t, p, d, lhs)->0 is Ok,
    ensures
        is_kept_behind(hidden::step(t, p, d, lhs)->0, t, p, lhs, c),
        p < hidden::step(t, p, d, lhs)->0->Ok_0.1,
        rules::kind(t, p) != KindView::Eof,
    decreases MAX_EXPR_DEPTH - d, 36int, 2nat,
{
    hidden::lemma_step_cases(t, p, d, lhs);
    let k = rules::kind(t, p);
    let a = hidden::step(t, p, d, lhs)->0->Ok_0.0;
    account::one(t, p, c);
    if k == KindView::Eq || k == KindView::Ne {
        hidden::lemma_step_compare(t, p, d, lhs);
        count_binary(t, p + 1, d, 1, c);
        let rhs = rules::binary_expr(t, p + 1, d, 1)->Ok_0.0;
        let op = if k == KindView::Eq {
            BinaryOp::Eq
        } else {
            BinaryOp::Ne
        };
        shape::shape_binary(a, op, lhs, rhs);
    } else if rules::at_kw(t, p, Keyword::IS) {
        hidden::lemma_step_is(t, p, d, lhs);
        account::one(t, p + 1, c);
        let negated = rules::at_kw(t, p + 1, Keyword::NOT);
        let s = rules::skip_kw(t, p + 1, Keyword::NOT);
        count_binary(t, s, d, 1, c);
        let rhs = rules::binary_expr(t, s, d, 1)->Ok_0.0;
        shape::shape_is(a, lhs, rhs, negated);
    } else if rules::at_kw(t, p, Keyword::ISNULL) || rules::at_kw(t, p, Keyword::NOTNULL) || (
    rules::at_kw(t, p, Keyword::NOT) && rules::kind(t, p + 1) == KindView::Null) {
        hidden::lemma_step_null(t, p, d, lhs);
        account::one(t, p + 1, c);
        account::lemma_weights(c);
        let negated = !rules::at_kw(t, p, Keyword::ISNULL);
        shape::shape_is_null(a, lhs, negated);
    } else {
        count_word(t, p, d, lhs, c);
    }
}

proof fn count_word(t: Seq<TokenView>, p: int, d: nat, lhs: ExprView, c: char)
    requires
        counts(t, p, c),
        ({
            let o = hidden::behind_not(t, p);
            rules::at_kw(t, o, Keyword::BETWEEN) || rules::at_kw(t, o, Keyword::IN)
                || rules::at_kw(t, o, Keyword::LIKE) || rules::at_kw(t, o, Keyword::GLOB)
        }),
        hidden::step(t, p, d, lhs) is Some,
        hidden::step(t, p, d, lhs)->0 is Ok,
    ensures
        is_kept_behind(hidden::step(t, p, d, lhs)->0, t, p, lhs, c),
        p < hidden::step(t, p, d, lhs)->0->Ok_0.1,
        rules::kind(t, p) != KindView::Eof,
    decreases MAX_EXPR_DEPTH - d, 36int, 1nat,
{
    hidden::lemma_step_word(t, p, d, lhs);
    let negated = rules::at_negated_op(t, p);
    let o = hidden::behind_not(t, p);
    account::one(t, p, c);
    account::one(t, o, c);
    if rules::at_kw(t, o, Keyword::BETWEEN) {
        count_between(t, o + 1, d, lhs, negated, c);
    } else if rules::at_kw(t, o, Keyword::IN) {
        count_in(t, o + 1, d, lhs, negated, c);
    } else if rules::at_kw(t, o, Keyword::GLOB) {
        count_like(t, o + 1, d, lhs, true, negated, c);
    } else {
        count_like(t, o + 1, d, lhs, false, negated, c);
    }
}

/// What the words of an operator count, with the operand before it.
spec fn led(lhs: ExprView, negated: bool, word: Keyword, c: char) -> nat {
    load(lhs.kinds(), c) + load(shape::flag_kinds(negated, Keyword::NOT), c) + weight(
        KindView::Keyword(word),
        c,
    )
}

proof fn count_between(t: Seq<TokenView>, p: int, d: nat, lhs: ExprView, negated: bool, c: char)
    requires
        counts(t, p, c),
        hidden::between(t, p, d, lhs, negated) is Ok,
    ensures
        ({
            let (a, q) = hidden::between(t, p, d, lhs, negated)->Ok_0;
            &&& p < q
            &&& before(t, q, c) + led(lhs, negated, Keyword::BETWEEN, c) == before(t, p, c) + load(
                a.kinds(),
                c,
            )
        }),
    decreases MAX_EXPR_DEPTH - d, 36int, 0nat,
{
    hidden::lemma_between(t, p, d, lhs, negated);
    count_binary(t, p, d, 1, c);
    let (lo, q) = rules::binary_expr(t, p, d, 1)->Ok_0;
    account::one(t, q, c);
    count_binary(t, q + 1, d, 1, c);
    let hi = rules::binary_expr(t, q + 1, d, 1)->Ok_0.0;
    let a = hidden::between(t, p, d, lhs, negated)->Ok_0.0;
    shape::shape_between(a, lhs, lo, hi, negated);
}

proof fn count_like(
    t: Seq<TokenView>,
    p: int,
    d: nat,
    lhs: ExprView,
    glob: bool,
    negated: bool,
    c: char,
)
    requires
        counts(t, p, c),
        hidden::like(t, p, d, lhs, glob, negated) is Ok,
    ensures
        ({
            let (a, q) = hidden::like(t, p, d, lhs, glob, negated)->Ok_0;
            let word = if glob {
                Keyword::GLOB
            } else {
                Keyword::LIKE
            };
            &&& p < q
            &&& before(t, q, c) + led(lhs, negated, word, c) == before(t, p, c) + load(
                a.kinds(),
                c,
            )
        }),
    decreases MAX_EXPR_DEPTH - d, 36int, 0nat,
{
    hidden::lemma_like(t, p, d, lhs, glob, negated);
    count_binary(t, p, d, 1, c);
    let (pattern, q) = rules::binary_expr(t, p, d, 1)->Ok_0;
    let a = hidden::like(t, p, d, lhs, glob, negated)->Ok_0.0;
    if rules::at_kw(t, q, Keyword::ESCAPE) {
        account::one(t, q, c);
        count_binary(t, q + 1, d, 1, c);
        let escape = rules::binary_expr(t, q + 1, d, 1)->Ok_0.0;
        shape::shape_like(a, lhs, pattern, glob, negated, Some(Box::new(escape)));
    } else {
        shape::shape_like(a, lhs, pattern, glob, negated, None);
    }
}

proof fn count_in(t: Seq<TokenView>, p: int, d: nat, lhs: ExprView, negated: bool, c: char)
    requires
        counts(t, p, c),
        hidden::inside(t, p, d, lhs, negated) is Ok,
    ensures
        ({
            let (a, q) = hidden::inside(t, p, d, lhs, negated)->Ok_0;
            &&& p < q
            &&& before(t, q, c) + led(lhs, negated, Keyword::IN, c) == before(t, p, c) + load(
                a.kinds(),
                c,
            )
        }),
    decreases MAX_EXPR_DEPTH - d, 36int, 0nat,
{
    let (a, e) = hidden::inside(t, p, d, lhs, negated)->Ok_0;
    hidden::lemma_inside(t, p, d, lhs, negated);
    account::one(t, p, c);
    if rules::at_kw(t, p + 1, Keyword::SELECT) {
        hidden::lemma_inside_query(t, p, d, lhs, negated);
        account_query::count_select(t, p + 1, d, c);
        account::one(t, e - 1, c);
        let query = hidden::query(t, p + 1, d)->Ok_0.0;
        shape::shape_in_subquery(a, lhs, query, negated);
    } else {
        count_opt_list(t, p + 1, d, c);
        account::one(t, e - 1, c);
        let list = hidden::optional_list(t, p + 1, d)->Ok_0.0;
        shape::shape_in(a, lhs, list, negated);
    }
}

proof fn count_binary(t: Seq<TokenView>, p: int, d: nat, min: int, c: char)
    requires
        counts(t, p, c),
        1 <= min <= 6,
        rules::binary_expr(t, p, d, min) is Ok,
    ensures
        is_kept(rules::binary_expr(t, p, d, min), t, p, c),
    decreases MAX_EXPR_DEPTH - d, (if min <= 6 { 36 - 2 * min } else { 24 }), 0nat,
{
    count_arrow(t, p, d, c);
    let (lhs, q) = rules::arrow_expr(t, p, d)->Ok_0;
    count_binary_rest(t, q, d, min, lhs, c);
}

proof fn count_binary_rest(t: Seq<TokenView>, p: int, d: nat, min: int, lhs: ExprView, c: char)
    requires
        counts(t, p, c),
        1 <= min <= 6,
        rules::binary_rest(t, p, d, min, lhs) is Ok,
    ensures
        is_kept_behind(rules::binary_rest(t, p, d, min, lhs), t, p, lhs, c),
    decreases
            MAX_EXPR_DEPTH - d,
            (if min <= 6 { 35 - 2 * min } else { 23 }),
            rules::left(t, p),
{
    let k = rules::kind(t, p);
    account::one(t, p, c);
    match rules::binary_op(k) {
        Some((op, precedence)) if precedence >= min => {
            count_binary(t, p + 1, d, precedence + 1, c);
            let (rhs, q) = rules::binary_expr(t, p + 1, d, precedence + 1)->Ok_0;
            matching::lemma_progress(t, p, q);
            let e = rules::bin(op, lhs, rhs);
            shape::shape_binary(e, op, lhs, rhs);
            assert(shape::binary_kind(op) == k);
            count_binary_rest(t, q, d, min, e, c);
        },
        _ => {},
    }
}

proof fn count_arrow(t: Seq<TokenView>, p: int, d: nat, c: char)
    requires
        counts(t, p, c),
        rules::arrow_expr(t, p, d) is Ok,
    ensures
        is_kept(rules::arrow_expr(t, p, d), t, p, c),
    decreases MAX_EXPR_DEPTH - d, 21int, 0nat,
{
    count_unary(t, p, d, c);
    let (lhs, q) = rules::unary_expr(t, p, d)->Ok_0;
    count_collate(t, q, lhs, c);
}

proof fn count_collate(t: Seq<TokenView>, p: int, lhs: ExprView, c: char)
    requires
        counts(t, p, c),
        rules::collate_rest(t, p, lhs) is Ok,
    ensures
        is_kept_behind(rules::collate_rest(t, p, lhs), t, p, lhs, c),
    decreases rules::left(t, p),
{
    if p < t.len() && rules::at_kw(t, p, Keyword::COLLATE) {
        let ((name, end), q) = rules::identifier(t, p + 1)->Ok_0;
        let e = ExprView {
            kind: ExprKindView::Collate { expr: Box::new(lhs), collation: name },
            span: rules::join_span(lhs.span, end),
        };
        account::one(t, p, c);
        account::one(t, p + 1, c);
        shape::shape_collate(e, lhs, name);
        count_collate(t, q, e, c);
    }
}

proof fn count_unary(t: Seq<TokenView>, p: int, d: nat, c: char)
    requires
        counts(t, p, c),
        rules::unary_expr(t, p, d) is Ok,
    ensures
        is_kept(rules::unary_expr(t, p, d), t, p, c),
    decreases MAX_EXPR_DEPTH - d, 1int, 0nat,
{
    let a = rules::unary_expr(t, p, d)->Ok_0.0;
    hidden::lemma_unary(t, p, d);
    account::one(t, p, c);
    account::lemma_weights(c);
    match rules::unary_op(rules::kind(t, p)) {
        Some(op) => {
            count_unary(t, p + 1, d + 1, c);
            let inner = rules::unary_expr(t, p + 1, d + 1)->Ok_0.0;
            if a.kind is Literal {
                shape::shape_literal(a, LiteralView::Integer(i64::MIN));
                shape::shape_literal(inner, LiteralView::Float(TWO_POW_63));
                assert(shape::smallest_kinds() =~= seq![KindView::Minus] + seq![
                    KindView::Float(TWO_POW_63),
                ]);
            } else {
                assert(shape::unary_kind(op) == rules::kind(t, p));
                shape::shape_unary(a, op, inner);
            }
        },
        None => {
            count_primary(t, p, d + 1, c);
        },
    }
}

proof fn count_primary(t: Seq<TokenView>, p: int, d: nat, c: char)
    requires
        counts(t, p, c),
        hidden::primary(t, p, d) is Ok,
    ensures
        is_kept(hidden::primary(t, p, d), t, p, c),
    decreases MAX_EXPR_DEPTH - d, 18int, 0nat,
{
    let a = hidden::primary(t, p, d)->Ok_0.0;
    let k = rules::kind(t, p);
    hidden::lemma_no_primary(t, p, d);
    account::one(t, p, c);
    match rules::literal_of(k) {
        Some(literal) => {
            hidden::lemma_literal(t, p, d);
            shape::shape_literal(a, literal);
            account::lemma_weights(c);
            assert(shape::smallest_kinds() =~= seq![KindView::Minus] + seq![
                KindView::Float(TWO_POW_63),
            ]);
        },
        None => match k {
            KindView::Param(param) => {
                hidden::lemma_param(t, p, d, param);
                shape::shape_param(a, rules::param_of(param));
            },
            KindView::Identifier(name) => {
                hidden::lemma_name(t, p, d, name);
                if rules::kind(t, p + 1) == KindView::LParen {
                    count_call(t, p + 1, d, name, rules::span(t, p), c);
                } else {
                    count_column(t, p, c);
                }
            },
            KindView::LParen => count_paren(t, p, d, c),
            KindView::Keyword(word) => count_keyword(t, p, d, word, c),
            _ => {},
        },
    }
}

proof fn count_paren(t: Seq<TokenView>, p: int, d: nat, c: char)
    requires
        counts(t, p, c),
        rules::kind(t, p) == KindView::LParen,
        hidden::primary(t, p, d) is Ok,
    ensures
        is_kept(hidden::primary(t, p, d), t, p, c),
    decreases MAX_EXPR_DEPTH - d, 17int, 0nat,
{
    let (a, e) = hidden::primary(t, p, d)->Ok_0;
    account::one(t, p, c);
    if rules::at_kw(t, p + 1, Keyword::SELECT) {
        hidden::lemma_paren_query(t, p, d);
        account_query::count_select(t, p + 1, d, c);
        account::one(t, e - 1, c);
        let query = hidden::query(t, p + 1, d)->Ok_0.0;
        shape::shape_subquery(a, query);
    } else {
        hidden::lemma_paren(t, p, d);
        count_expr(t, p + 1, d, c);
        account::one(t, e - 1, c);
        let inner = rules::expr(t, p + 1, d)->Ok_0.0;
        shape::shape_paren(a, inner);
    }
}

proof fn count_keyword(t: Seq<TokenView>, p: int, d: nat, word: Keyword, c: char)
    requires
        counts(t, p, c),
        rules::kind(t, p) == KindView::Keyword(word),
        hidden::primary(t, p, d) is Ok,
    ensures
        is_kept(hidden::primary(t, p, d), t, p, c),
    decreases MAX_EXPR_DEPTH - d, 17int, 0nat,
{
    hidden::lemma_word(t, p, d, word);
    account::one(t, p, c);
    if word == Keyword::CASE {
        count_case(t, p, d, c);
    } else if word == Keyword::CAST {
        count_cast(t, p, d, c);
    } else if word == Keyword::EXISTS {
        count_exists(t, p + 1, d, rules::span(t, p), false, c);
    } else {
        account::lemma_word_weight(word, c);
        count_call(t, p + 1, d, word.name(), rules::span(t, p), c);
    }
}

proof fn count_column(t: Seq<TokenView>, p: int, c: char)
    requires
        counts(t, p, c),
        rules::column_ref(t, p) is Ok,
    ensures
        is_kept(rules::column_ref(t, p), t, p, c),
{
    let a = rules::column_ref(t, p)->Ok_0.0;
    account::one(t, p, c);
    account::one(t, p + 1, c);
    account::one(t, p + 2, c);
    account::one(t, p + 3, c);
    account::one(t, p + 4, c);
    match a.kind {
        ExprKindView::Column { table, catalog, name } => {
            shape::shape_column(a, table, catalog, name);
        },
        _ => {},
    }
}

proof fn count_call(t: Seq<TokenView>, p: int, d: nat, name: Seq<char>, start: Span, c: char)
    requires
        counts(t, p, c),
        hidden::call(t, p, d, name, start) is Ok,
    ensures
        ({
            let (a, q) = hidden::call(t, p, d, name, start)->Ok_0;
            &&& p < q
            &&& before(t, q, c) + weight(KindView::Identifier(name), c) == before(t, p, c) + load(
                a.kinds(),
                c,
            )
        }),
    decreases MAX_EXPR_DEPTH - d, 16int, 0nat,
{
    hidden::lemma_call(t, p, d, name, start);
    let (a, e) = hidden::call(t, p, d, name, start)->Ok_0;
    let distinct = rules::at_kw(t, p + 1, Keyword::DISTINCT);
    let s = rules::skip_kw(t, p + 1, Keyword::DISTINCT);
    let (args, q) = hidden::arguments(t, s, d)->Ok_0;
    hidden::lemma_arguments(t, s, d);
    account::one(t, p, c);
    account::one(t, p + 1, c);
    account::one(t, s, c);
    account::lemma_call_weight(name, c);
    shape::shape_function_call(a, name, distinct, args);
    shape::shape_of_function_args(args);
    if rules::kind(t, s) != KindView::Star {
        count_opt_list(t, s, d, c);
    }
    account::one(t, q, c);
}

proof fn count_case(t: Seq<TokenView>, p: int, d: nat, c: char)
    requires
        counts(t, p, c),
        rules::at_kw(t, p, Keyword::CASE),
        hidden::cases(t, p, d) is Ok,
    ensures
        is_kept(hidden::cases(t, p, d), t, p, c),
    decreases MAX_EXPR_DEPTH - d, 16int, 0nat,
{
    let a = hidden::cases(t, p, d)->Ok_0.0;
    hidden::lemma_case(t, p, d);
    account::one(t, p, c);
    let (operand, q) = hidden::operand(t, p + 1, d)->Ok_0;
    hidden::lemma_operand(t, p + 1, d);
    if !rules::at_kw(t, p + 1, Keyword::WHEN) {
        count_expr(t, p + 1, d, c);
    }
    let (whens, r) = hidden::whens(t, q, d, seq![])->Ok_0;
    count_whens(t, q, d, seq![], c);
    shape::lemma_whens_empty();
    leaves::lemma_empty_lists(shape::kw(Keyword::WHEN));
    count_optional(t, r, d, Keyword::ELSE, c);
    let (otherwise, s) = hidden::optional(t, r, d, Keyword::ELSE)->Ok_0;
    account::one(t, s, c);
    shape::lemma_optional(Keyword::ELSE, otherwise->0);
    shape::lemma_optional(Keyword::ELSE, operand->0);
    shape::shape_case(a, rules::boxed(operand), whens, rules::boxed(otherwise));
}

proof fn count_whens(
    t: Seq<TokenView>,
    p: int,
    d: nat,
    list: Seq<(ExprView, ExprView)>,
    c: char,
)
    requires
        counts(t, p, c),
        hidden::whens(t, p, d, list) is Ok,
    ensures
        ({
            let lead = shape::kw(Keyword::WHEN);
            let (all, q) = hidden::whens(t, p, d, list)->Ok_0;
            &&& p <= q
            &&& before(t, q, c) + load(shape::each_after(lead, shape::whens_kinds(list)), c)
                == before(t, p, c) + load(shape::each_after(lead, shape::whens_kinds(all)), c)
        }),
    decreases MAX_EXPR_DEPTH - d, 2int, rules::left(t, p),
{
    hidden::lemma_when(t, p, d, list);
    let lead = shape::kw(Keyword::WHEN);
    if rules::at_kw(t, p, Keyword::WHEN) {
        account::one(t, p, c);
        count_expr(t, p + 1, d, c);
        let (condition, q) = rules::expr(t, p + 1, d)->Ok_0;
        account::one(t, q, c);
        count_expr(t, q + 1, d, c);
        let (result, r) = rules::expr(t, q + 1, d)->Ok_0;
        matching::lemma_progress(t, p, r);
        let pair = (condition, result);
        shape::lemma_whens_push(list, pair);
        leaves::lemma_each_push(
            lead,
            shape::whens_kinds(list),
            condition.kinds() + shape::kw(Keyword::THEN) + result.kinds(),
        );
        count_whens(t, r, d, list.push(pair), c);
    }
}

proof fn count_cast(t: Seq<TokenView>, p: int, d: nat, c: char)
    requires
        counts(t, p, c),
        rules::at_kw(t, p, Keyword::CAST),
        hidden::cast(t, p, d) is Ok,
    ensures
        is_kept(hidden::cast(t, p, d), t, p, c),
    decreases MAX_EXPR_DEPTH - d, 16int, 0nat,
{
    let (a, e) = hidden::cast(t, p, d)->Ok_0;
    hidden::lemma_cast(t, p, d);
    account::one(t, p, c);
    account::one(t, p + 1, c);
    count_expr(t, p + 2, d, c);
    let (inner, q) = rules::expr(t, p + 2, d)->Ok_0;
    account::one(t, q, c);
    account::count_type(t, q + 1, c);
    let type_text = rules::declared_type(t, q + 1)->Ok_0.0;
    account::one(t, e - 1, c);
    shape::shape_cast(a, inner, type_text);
}

pub proof fn count_opt_list(t: Seq<TokenView>, p: int, d: nat, c: char)
    requires
        counts(t, p, c),
        hidden::optional_list(t, p, d) is Ok,
    ensures
        ({
            let (list, q) = hidden::optional_list(t, p, d)->Ok_0;
            kept(t, p, q, shape::commas(shape::exprs_kinds(list)), c)
        }),
    decreases MAX_EXPR_DEPTH - d, 4int, 0nat,
{
    hidden::lemma_optional_list(t, p, d);
    if rules::kind(t, p) == KindView::RParen {
        shape::lemma_exprs_empty();
        leaves::lemma_empty_lists(seq![]);
    } else {
        count_list(t, p, d, c);
    }
}

pub proof fn count_list(t: Seq<TokenView>, p: int, d: nat, c: char)
    requires
        counts(t, p, c),
        hidden::list(t, p, d) is Ok,
    ensures
        ({
            let (list, q) = hidden::list(t, p, d)->Ok_0;
            &&& p < q
            &&& list.len() > 0
            &&& kept(t, p, q, shape::commas(shape::exprs_kinds(list)), c)
        }),
    decreases MAX_EXPR_DEPTH - d, 3int, 0nat,
{
    hidden::lemma_list(t, p, d);
    count_expr(t, p, d, c);
    let (first, q) = rules::expr(t, p, d)->Ok_0;
    let none = Seq::<ExprView>::empty();
    assert(none.push(first) =~= seq![first]);
    shape::lemma_exprs_empty();
    shape::lemma_exprs_push(none, first);
    leaves::lemma_commas_push(shape::exprs_kinds(none), first.kinds());
    count_more(t, q, d, seq![first], c);
}

proof fn count_more(t: Seq<TokenView>, p: int, d: nat, list: Seq<ExprView>, c: char)
    requires
        counts(t, p, c),
        list.len() > 0,
        hidden::more(t, p, d, list) is Ok,
    ensures
        ({
            let (all, q) = hidden::more(t, p, d, list)->Ok_0;
            &&& p <= q
            &&& all.len() > 0
            &&& before(t, q, c) + load(shape::commas(shape::exprs_kinds(list)), c) == before(
                t,
                p,
                c,
            ) + load(shape::commas(shape::exprs_kinds(all)), c)
        }),
    decreases MAX_EXPR_DEPTH - d, 2int, rules::left(t, p),
{
    hidden::lemma_more(t, p, d, list);
    if rules::kind(t, p) == KindView::Comma {
        account::one(t, p, c);
        count_expr(t, p + 1, d, c);
        let (e, q) = rules::expr(t, p + 1, d)->Ok_0;
        matching::lemma_progress(t, p, q);
        shape::lemma_exprs_len(list);
        shape::lemma_exprs_push(list, e);
        leaves::lemma_commas_push(shape::exprs_kinds(list), e.kinds());
        count_more(t, q, d, list.push(e), c);
    }
}

pub proof fn count_optional(t: Seq<TokenView>, p: int, d: nat, word: Keyword, c: char)
    requires
        counts(t, p, c),
        hidden::optional(t, p, d, word) is Ok,
    ensures
        ({
            let (e, q) = hidden::optional(t, p, d, word)->Ok_0;
            kept(t, p, q, shape::optional_kinds(word, e), c)
        }),
    decreases MAX_EXPR_DEPTH - d, 2int, 0nat,
{
    let e = hidden::optional(t, p, d, word)->Ok_0.0;
    hidden::lemma_optional(t, p, d, word);
    if rules::at_kw(t, p, word) {
        account::one(t, p, c);
        count_expr(t, p + 1, d, c);
        shape::lemma_optional(word, e->0);
    } else {
        shape::lemma_optional(word, arbitrary());
    }
}

} // verus!
