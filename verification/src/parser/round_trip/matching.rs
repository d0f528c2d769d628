//! Where given kinds of tokens stand in a token sequence, and which tokens end a
//! construct of the grammar.
use crate::parser::printer;
use crate::parser::round_trip::shape;
use crate::parser::rules;
use crate::parser::rules::FailView;
use crate::parser::tokenizer::{Keyword, KindView, TokenView};
use vstd::prelude::*;

verus! {

/// Whether the end of input is the last token.
pub open spec fn ended(t: Seq<TokenView>) -> bool {
    t.len() > 0 && t.last().kind == KindView::Eof
}

/// Whether the tokens from `p` on have these kinds.
pub closed spec fn at(t: Seq<TokenView>, p: int, kinds: Seq<KindView>) -> bool {
    &&& 0 <= p
    &&& p + kinds.len() <= t.len()
    &&& forall|i: int| 0 <= i < kinds.len() ==> #[trigger] kinds[i] == t[p + i].kind
}

pub proof fn at_both(t: Seq<TokenView>, p: int, a: Seq<KindView>, b: Seq<KindView>)
    ensures
        at(t, p, a + b) == (at(t, p, a) && at(t, p + a.len(), b)),
{
    let ab = a + b;
    if at(t, p, ab) {
        assert forall|i: int| 0 <= i < a.len() implies #[trigger] a[i] == t[p + i].kind by {
            assert(ab[i] == t[p + i].kind);
        }
        assert forall|i: int| 0 <= i < b.len() implies #[trigger] b[i] == t[p + a.len()
            + i].kind by {
            assert(ab[a.len() + i] == t[p + (a.len() + i)].kind);
        }
    }
    if at(t, p, a) && at(t, p + a.len(), b) {
        assert forall|i: int| 0 <= i < ab.len() implies #[trigger] ab[i] == t[p + i].kind by {
            if i >= a.len() {
                assert(b[i - a.len()] == t[p + a.len() + (i - a.len())].kind);
            } else {
                assert(a[i] == t[p + i].kind);
            }
        }
    }
}

pub broadcast proof fn at_one(t: Seq<TokenView>, p: int, k: KindView)
    ensures
        #[trigger] at(t, p, seq![k]) == (0 <= p < t.len() && rules::kind(t, p) == k),
{
    assert(seq![k][0] == k);
    if 0 <= p < t.len() && t[p].kind == k {
        assert forall|i: int| 0 <= i < 1 implies #[trigger] seq![k][i] == t[p + i].kind by {
            assert(i == 0);
        }
    }
}

pub proof fn split2(t: Seq<TokenView>, p: int, a: Seq<KindView>, b: Seq<KindView>)
    ensures
        at(t, p, a + b) == (at(t, p, a) && at(t, p + a.len(), b)),
        (a + b).len() == a.len() + b.len(),
{
    at_both(t, p, a, b);
}

pub proof fn split3(t: Seq<TokenView>, p: int, a: Seq<KindView>, b: Seq<KindView>, c: Seq<KindView>)
    ensures
        at(t, p, a + b + c) == (at(t, p, a) && at(t, p + a.len(), b) && at(t, p + a.len()
            + b.len(), c)),
        (a + b + c).len() == a.len() + b.len() + c.len(),
{
    at_both(t, p, a + b, c);
    at_both(t, p, a, b);
}

pub proof fn split4(t: Seq<TokenView>, p: int, a: Seq<KindView>, b: Seq<KindView>,
    c: Seq<KindView>, d: Seq<KindView>)
    ensures
        at(t, p, a + b + c + d) == (at(t, p, a) && at(t, p + a.len(), b) && at(t, p + a.len()
            + b.len(), c) && at(t, p + a.len() + b.len() + c.len(), d)),
        (a + b + c + d).len() == a.len() + b.len() + c.len() + d.len(),
{
    at_both(t, p, a + b + c, d);
    at_both(t, p, a + b, c);
    at_both(t, p, a, b);
}

pub proof fn split5(t: Seq<TokenView>, p: int, a: Seq<KindView>, b: Seq<KindView>,
    c: Seq<KindView>, d: Seq<KindView>, e: Seq<KindView>)
    ensures
        at(t, p, a + b + c + d + e) == (at(t, p, a) && at(t, p + a.len(), b) && at(t, p + a.len()
            + b.len(), c) && at(t, p + a.len() + b.len() + c.len(), d) && at(t, p + a.len()
            + b.len() + c.len() + d.len(), e)),
        (a + b + c + d + e).len() == a.len() + b.len() + c.len() + d.len() + e.len(),
{
    at_both(t, p, a + b + c + d, e);
    at_both(t, p, a + b + c, d);
    at_both(t, p, a + b, c);
    at_both(t, p, a, b);
}

pub proof fn split6(t: Seq<TokenView>, p: int, a: Seq<KindView>, b: Seq<KindView>,
    c: Seq<KindView>, d: Seq<KindView>, e: Seq<KindView>, f: Seq<KindView>)
    ensures
        at(t, p, a + b + c + d + e + f) == (at(t, p, a) && at(t, p + a.len(), b) && at(t, p
            + a.len() + b.len(), c) && at(t, p + a.len() + b.len() + c.len(), d) && at(t, p
            + a.len() + b.len() + c.len() + d.len(), e) && at(t, p + a.len() + b.len() + c.len()
            + d.len() + e.len(), f)),
        (a + b + c + d + e + f).len() == a.len() + b.len() + c.len() + d.len() + e.len() + f.len(),
{
    at_both(t, p, a + b + c + d + e, f);
    at_both(t, p, a + b + c + d, e);
    at_both(t, p, a + b + c, d);
    at_both(t, p, a + b, c);
    at_both(t, p, a, b);
}

pub proof fn split8(t: Seq<TokenView>, p: int, a: Seq<KindView>, b: Seq<KindView>,
    c: Seq<KindView>, d: Seq<KindView>, e: Seq<KindView>, f: Seq<KindView>, g: Seq<KindView>,
    h: Seq<KindView>)
    ensures
        at(t, p, a + b + c + d + e + f + g + h) == (at(t, p, a) && at(t, p + a.len(), b) && at(t, p
            + a.len() + b.len(), c) && at(t, p + a.len() + b.len() + c.len(), d) && at(t, p
            + a.len() + b.len() + c.len() + d.len(), e) && at(t, p + a.len() + b.len() + c.len()
            + d.len() + e.len(), f) && at(t, p + a.len() + b.len() + c.len() + d.len() + e.len()
            + f.len(), g) && at(t, p + a.len() + b.len() + c.len() + d.len() + e.len() + f.len()
            + g.len(), h)),
        (a + b + c + d + e + f + g + h).len() == a.len() + b.len() + c.len() + d.len() + e.len()
            + f.len() + g.len() + h.len(),
{
    at_both(t, p, a + b + c + d + e + f + g, h);
    at_both(t, p, a + b + c + d + e + f, g);
    at_both(t, p, a + b + c + d + e, f);
    at_both(t, p, a + b + c + d, e);
    at_both(t, p, a + b + c, d);
    at_both(t, p, a + b, c);
    at_both(t, p, a, b);
}

pub proof fn split9(t: Seq<TokenView>, p: int, a: Seq<KindView>, b: Seq<KindView>,
    c: Seq<KindView>, d: Seq<KindView>, e: Seq<KindView>, f: Seq<KindView>, g: Seq<KindView>,
    h: Seq<KindView>, i: Seq<KindView>)
    ensures
        at(t, p, a + b + c + d + e + f + g + h + i) == (at(t, p, a) && at(t, p + a.len(), b)
            && at(t, p + a.len() + b.len(), c) && at(t, p + a.len() + b.len() + c.len(), d)
            && at(t, p + a.len() + b.len() + c.len() + d.len(), e) && at(t, p + a.len() + b.len()
            + c.len() + d.len() + e.len(), f) && at(t, p + a.len() + b.len() + c.len() + d.len()
            + e.len() + f.len(), g) && at(t, p + a.len() + b.len() + c.len() + d.len() + e.len()
            + f.len() + g.len(), h) && at(t, p + a.len() + b.len() + c.len() + d.len() + e.len()
            + f.len() + g.len() + h.len(), i)),
        (a + b + c + d + e + f + g + h + i).len() == a.len() + b.len() + c.len() + d.len()
            + e.len() + f.len() + g.len() + h.len() + i.len(),
{
    at_both(t, p, a + b + c + d + e + f + g + h, i);
    at_both(t, p, a + b + c + d + e + f + g, h);
    at_both(t, p, a + b + c + d + e + f, g);
    at_both(t, p, a + b + c + d + e, f);
    at_both(t, p, a + b + c + d, e);
    at_both(t, p, a + b + c, d);
    at_both(t, p, a + b, c);
    at_both(t, p, a, b);
}

pub proof fn split_parens(t: Seq<TokenView>, p: int, inner: Seq<KindView>)
    ensures
        at(t, p, shape::in_parens(inner)) == (0 <= p < t.len() && rules::kind(t, p)
            == KindView::LParen && at(t, p + 1, inner) && p + 1 + inner.len() < t.len()
            && rules::kind(t, p + 1 + inner.len()) == KindView::RParen),
        shape::in_parens(inner).len() == inner.len() + 2,
{
    split3(t, p, seq![KindView::LParen], inner, seq![KindView::RParen]);
    at_one(t, p, KindView::LParen);
    at_one(t, p + 1 + inner.len(), KindView::RParen);
}

/// Kinds that are those of all tokens but the last stand at the front.
pub proof fn lemma_at_all(t: Seq<TokenView>, kinds: Seq<KindView>)
    requires
        t.len() == kinds.len() + 1,
        forall|k: int| 0 <= k < kinds.len() ==> (#[trigger] t[k]).kind == kinds[k],
    ensures
        at(t, 0, kinds),
{
    assert forall|i: int| 0 <= i < kinds.len() implies #[trigger] kinds[i] == t[0 + i].kind by {
        assert(t[i].kind == kinds[i]);
    }
}

/// The first of the kinds stands where they begin.
pub proof fn lemma_at_head(t: Seq<TokenView>, p: int, kinds: Seq<KindView>)
    requires
        at(t, p, kinds),
    ensures
        0 <= p,
        kinds.len() > 0 ==> p < t.len() && rules::kind(t, p) == kinds[0],
{
    if kinds.len() > 0 {
        assert(kinds[0] == t[p + 0].kind);
    }
}

/// So do the second and the third.
pub proof fn lemma_at_three(t: Seq<TokenView>, p: int, kinds: Seq<KindView>)
    requires
        at(t, p, kinds),
    ensures
        kinds.len() > 1 ==> rules::kind(t, p + 1) == kinds[1],
        kinds.len() > 2 ==> rules::kind(t, p + 2) == kinds[2],
{
    if kinds.len() > 1 {
        assert(kinds[1] == t[p + 1].kind);
    }
    if kinds.len() > 2 {
        assert(kinds[2] == t[p + 2].kind);
    }
}

/// Where `t` has a token that is not the end of input, behind it fewer tokens are left.
pub proof fn lemma_progress(t: Seq<TokenView>, p: int, q: int)
    requires
        ended(t),
        0 <= p < q,
        rules::kind(t, p) != KindView::Eof,
    ensures
        p < t.len(),
        rules::left(t, q) < rules::left(t, p),
{
}

// ---- the tokens of a source ----------------------------------------------------

/// Whether a token's literal is spelled as a token is.
pub open spec fn is_token(k: KindView) -> bool {
    match k {
        KindView::Float(v) => shape::is_float(v),
        KindView::Param(p) => shape::is_param(p),
        _ => true,
    }
}

/// Whether the smallest integer is nowhere spelled as one token, in hexadecimal.
pub closed spec fn total(t: Seq<TokenView>) -> bool {
    forall|i: int| 0 <= i < t.len() ==> (#[trigger] t[i]).kind != KindView::Integer(i64::MIN)
}

/// Whether a failure to read what is printed of `src` says that it is nested too deep, which
/// it can be where `src` spells the smallest integer as one token.
pub closed spec fn refused(src: Seq<TokenView>, f: FailView) -> bool {
    !total(src) && rules::is_too_deep(f)
}

pub proof fn lemma_refused(src: Seq<TokenView>, f: FailView)
    ensures
        refused(src, f) <==> !total(src) && rules::is_too_deep(f),
{
}

pub proof fn lemma_not_total(t: Seq<TokenView>, p: int)
    requires
        ended(t),
        0 <= p,
        rules::kind(t, p) == KindView::Integer(i64::MIN),
    ensures
        !total(t),
{
    assert(t[if p < t.len() { p } else { t.len() - 1 }].kind == KindView::Integer(i64::MIN));
}

pub proof fn lemma_total(t: Seq<TokenView>)
    ensures
        total(t) <==> !rules::spells_smallest(t),
{
}

/// Whether each literal is spelled as a token is.
pub closed spec fn sound(t: Seq<TokenView>) -> bool {
    forall|i: int| 0 <= i < t.len() ==> is_token((#[trigger] t[i]).kind)
}

pub proof fn lemma_sound(t: Seq<TokenView>)
    requires
        forall|i: int| 0 <= i < t.len() ==> is_token((#[trigger] t[i]).kind),
    ensures
        sound(t),
{
}

pub proof fn lemma_sound_at(t: Seq<TokenView>, p: int)
    requires
        ended(t),
        sound(t),
        0 <= p,
    ensures
        is_token(rules::kind(t, p)),
{
    if p < t.len() {
        assert(is_token(t[p].kind));
    } else {
        assert(is_token(t[t.len() - 1].kind));
    }
}

// ---- what ends a construct ------------------------------------------------------

pub open spec fn is_kw(k: KindView, word: Keyword) -> bool {
    k == KindView::Keyword(word)
}

/// What does not go on with a name, a call or a literal.
#[verifier::opaque]
pub open spec fn ends_primary(k: KindView) -> bool {
    k != KindView::LParen && k != KindView::Dot && !is_kw(k, Keyword::OVER) && !is_kw(
        k,
        Keyword::FILTER,
    )
}

/// What does not go on with an operand of a binary operator.
#[verifier::opaque]
pub open spec fn ends_operand(k: KindView) -> bool {
    ends_primary(k) && !is_kw(k, Keyword::COLLATE) && k != KindView::Arrow && k
        != KindView::ArrowArrow
}

/// What does not go on with operators of precedence `min` and tighter.
#[verifier::opaque]
pub open spec fn ends_binary(k: KindView, min: int) -> bool {
    ends_operand(k) && match rules::binary_op(k) {
        Some((_, precedence)) => precedence < min,
        None => true,
    }
}

/// What an operator of the equality level begins with.
#[verifier::opaque]
pub open spec fn is_equality(k: KindView) -> bool {
    k == KindView::Eq || k == KindView::Ne || is_kw(k, Keyword::IS) || is_kw(k, Keyword::ISNULL)
        || is_kw(k, Keyword::NOTNULL) || is_kw(k, Keyword::NOT) || is_kw(k, Keyword::BETWEEN)
        || is_kw(k, Keyword::IN) || is_kw(k, Keyword::LIKE) || is_kw(k, Keyword::GLOB)
}

/// What does not go on with operators of the equality level.
#[verifier::opaque]
pub open spec fn ends_equality(k: KindView) -> bool {
    ends_binary(k, 1) && !is_equality(k) && !is_kw(k, Keyword::ESCAPE)
}

/// What does not go on with `AND`, nor, unless `and_only` holds, with `OR`.
#[verifier::opaque]
pub open spec fn ends_bool(k: KindView, and_only: bool) -> bool {
    ends_equality(k) && !is_kw(k, Keyword::AND) && (and_only || !is_kw(k, Keyword::OR))
}

/// What does not go on with an expression.
#[verifier::opaque]
pub open spec fn ends_expr(k: KindView) -> bool {
    ends_bool(k, false)
}

/// What a `SELECT` in front of `)` or the end of input, and each of its clauses, ends at.
pub open spec fn ends_select(k: KindView) -> bool {
    k == KindView::RParen || k == KindView::Eof
}

pub open spec fn ends_terms(k: KindView) -> bool {
    ends_select(k) || is_kw(k, Keyword::LIMIT)
}

pub open spec fn ends_arms(k: KindView) -> bool {
    ends_terms(k) || is_kw(k, Keyword::ORDER)
}

pub open spec fn ends_core(k: KindView) -> bool {
    ends_arms(k) || is_kw(k, Keyword::UNION)
}

pub open spec fn ends_where(k: KindView) -> bool {
    ends_core(k) || is_kw(k, Keyword::GROUP)
}

pub open spec fn ends_from(k: KindView) -> bool {
    ends_where(k) || is_kw(k, Keyword::WHERE)
}

pub open spec fn ends_join(k: KindView) -> bool {
    ends_from(k) || is_kw(k, Keyword::JOIN) || is_kw(k, Keyword::LEFT) || is_kw(k, Keyword::CROSS)
}

pub open spec fn ends_columns(k: KindView) -> bool {
    ends_from(k) || is_kw(k, Keyword::FROM)
}

pub open spec fn ends_column(k: KindView) -> bool {
    ends_columns(k) || k == KindView::Comma
}

/// None of the tokens that are printed behind an expression goes on with it.
pub proof fn lemma_stops()
    ensures
        ends_expr(KindView::Comma),
        ends_expr(KindView::RParen),
        ends_expr(KindView::Eof),
        ends_expr(KindView::Keyword(Keyword::AS)),
        ends_expr(KindView::Keyword(Keyword::THEN)),
        ends_expr(KindView::Keyword(Keyword::WHEN)),
        ends_expr(KindView::Keyword(Keyword::ELSE)),
        ends_expr(KindView::Keyword(Keyword::END)),
        ends_expr(KindView::Keyword(Keyword::FROM)),
        ends_expr(KindView::Keyword(Keyword::WHERE)),
        ends_expr(KindView::Keyword(Keyword::GROUP)),
        ends_expr(KindView::Keyword(Keyword::HAVING)),
        ends_expr(KindView::Keyword(Keyword::ORDER)),
        ends_expr(KindView::Keyword(Keyword::LIMIT)),
        ends_expr(KindView::Keyword(Keyword::OFFSET)),
        ends_expr(KindView::Keyword(Keyword::UNION)),
        ends_expr(KindView::Keyword(Keyword::ASC)),
        ends_expr(KindView::Keyword(Keyword::DESC)),
        ends_expr(KindView::Keyword(Keyword::NULLS)),
        ends_expr(KindView::Keyword(Keyword::JOIN)),
        ends_expr(KindView::Keyword(Keyword::LEFT)),
        ends_expr(KindView::Keyword(Keyword::CROSS)),
{
    reveal(ends_primary);
    reveal(ends_operand);
    reveal(ends_binary);
    reveal(ends_equality);
    reveal(ends_bool);
    reveal(ends_expr);
    reveal(is_equality);
}

// ---- what a construct begins with -------------------------------------------------

/// Whether a name and a dot in front are followed by a name.
#[verifier::opaque]
pub open spec fn dotted(kinds: Seq<KindView>) -> bool {
    kinds.len() > 1 && kinds[0] is Identifier && kinds[1] == KindView::Dot ==> kinds.len() > 2
        && kinds[2] is Identifier
}

/// Whether a function can be called by the token, a keyword.
pub open spec fn is_call(k: KindView) -> bool {
    match k {
        KindView::Keyword(word) => printer::calls(word),
        _ => false,
    }
}

/// Whether `a` is what is printed for a token `k` at the beginning: the token itself, another
/// spelling of the name of a function that is called, or a minus sign in front of the smallest
/// integer.
pub open spec fn same_head(a: KindView, k: KindView) -> bool {
    a == k || ((a is Identifier || is_call(a)) && (k is Identifier || k is Keyword)) || (
    a == KindView::Minus && k == KindView::Integer(i64::MIN))
}

/// Whether the kinds of an expression begin as `k` is printed.
pub open spec fn opens(kinds: Seq<KindView>, k: KindView) -> bool {
    kinds.len() > 0 && same_head(kinds[0], k) && dotted(kinds)
}

/// What is no dot can stand behind an expression without changing how it begins.
pub proof fn lemma_opens(a: Seq<KindView>, b: Seq<KindView>, k: KindView)
    requires
        opens(a, k),
        b.len() > 0 ==> b[0] != KindView::Dot,
    ensures
        opens(a + b, k),
{
    reveal(dotted);
    let ab = a + b;
    assert(ab[0] == a[0]);
    if ab.len() > 1 {
        assert(ab[1] == if a.len() > 1 { a[1] } else { b[0] });
    }
    if a.len() > 2 {
        assert(ab[2] == a[2]);
    }
}

} // verus!
