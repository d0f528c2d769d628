//! How lists grow, and what is read again of a type.
use crate::parser::printer;
use crate::parser::round_trip::matching;
use crate::parser::round_trip::shape;
use crate::parser::rules;
use crate::parser::tokenizer;
use crate::parser::tokenizer::{KindView, TokenView};
use crate::text;
use vstd::prelude::*;

verus! {

broadcast use matching::at_one;

pub proof fn lemma_commas_push(parts: Seq<Seq<KindView>>, x: Seq<KindView>)
    ensures
        parts.len() > 0 ==> shape::commas(parts.push(x)) == shape::commas(parts)
            + seq![KindView::Comma] + x,
        parts.len() == 0 ==> shape::commas(parts.push(x)) == x,
{
    reveal(shape::commas);
    assert(parts.push(x).drop_last() =~= parts);
}

pub proof fn lemma_each_push(lead: Seq<KindView>, parts: Seq<Seq<KindView>>, x: Seq<KindView>)
    ensures
        shape::each_after(lead, parts.push(x)) == shape::each_after(lead, parts) + lead + x,
{
    reveal(shape::each_after);
    assert(parts.push(x).drop_last() =~= parts);
}

/// How four parts are put together does not matter.
pub proof fn lemma_regroup(
    a: Seq<KindView>,
    b: Seq<KindView>,
    c: Seq<KindView>,
    d: Seq<KindView>,
)
    ensures
        a + b + c + d == a + (b + c + d),
{
    assert(a + b + c + d =~= a + (b + c + d));
}

pub proof fn lemma_regroup3(a: Seq<KindView>, b: Seq<KindView>, c: Seq<KindView>)
    ensures
        a + b + c == a + (b + c),
{
    assert(a + b + c =~= a + (b + c));
}

pub proof fn lemma_regroup5(
    a: Seq<KindView>,
    b: Seq<KindView>,
    c: Seq<KindView>,
    d: Seq<KindView>,
    e: Seq<KindView>,
)
    ensures
        a + b + c + d + e == a + (b + c + d + e),
{
    lemma_regroup(a, b, c, d);
    lemma_regroup3(a, b + c + d, e);
}

pub proof fn lemma_regroup6(
    a: Seq<KindView>,
    b: Seq<KindView>,
    c: Seq<KindView>,
    d: Seq<KindView>,
    e: Seq<KindView>,
    f: Seq<KindView>,
)
    ensures
        a + b + c + d + e + f == a + (b + c + d + e + f),
{
    lemma_regroup5(a, b, c, d, e);
    lemma_regroup3(a, b + c + d + e, f);
}

pub proof fn lemma_regroup7(
    a: Seq<KindView>,
    b: Seq<KindView>,
    c: Seq<KindView>,
    d: Seq<KindView>,
    e: Seq<KindView>,
    f: Seq<KindView>,
    g: Seq<KindView>,
)
    ensures
        a + b + c + d + e + f + g == a + (b + c + d + e + f + g),
{
    lemma_regroup6(a, b, c, d, e, f);
    lemma_regroup3(a, b + c + d + e + f, g);
}

pub proof fn lemma_nothing_more(a: Seq<KindView>)
    ensures
        a + Seq::<KindView>::empty() == a,
{
    assert(a + Seq::<KindView>::empty() =~= a);
}

pub proof fn lemma_nothing_before(a: Seq<KindView>)
    ensures
        Seq::<KindView>::empty() + a == a,
{
    assert(Seq::<KindView>::empty() + a =~= a);
}

pub proof fn lemma_empty_lists(lead: Seq<KindView>)
    ensures
        shape::commas(seq![]) == Seq::<KindView>::empty(),
        shape::each_after(lead, seq![]) == Seq::<KindView>::empty(),
{
    reveal(shape::commas);
    reveal(shape::each_after);
}

pub proof fn lemma_join_push(parts: Seq<Seq<char>>, sep: Seq<char>, x: Seq<char>)
    ensures
        parts.len() > 0 ==> text::join(parts.push(x), sep) == text::join(parts, sep) + sep + x,
        parts.len() == 0 ==> text::join(parts.push(x), sep) == x,
{
    assert(parts.push(x).drop_last() =~= parts);
}

// ---- types -----------------------------------------------------------------------

proof fn lemma_words(
    t: Seq<TokenView>,
    p: int,
    head: Seq<Seq<char>>,
    tail: Seq<Seq<char>>,
)
    requires
        matching::ended(t),
        head.len() > 0,
        matching::at(t, p, shape::words_kinds(tail)),
        !(rules::kind(t, p + tail.len()) is Identifier),
    ensures
        rules::more_words(t, p, text::join(head, " "@)) == (
            text::join(head + tail, " "@),
            p + tail.len(),
        ),
    decreases tail.len(),
{
    matching::lemma_at_head(t, p, shape::words_kinds(tail));
    if tail.len() == 0 {
        assert(head + tail =~= head);
    } else {
        let w = tail[0];
        let rest = tail.skip(1);
        assert(shape::words_kinds(tail) =~= seq![KindView::Identifier(w)] + shape::words_kinds(
            rest,
        ));
        matching::split2(t, p, seq![KindView::Identifier(w)], shape::words_kinds(rest));
        lemma_join_push(head, " "@, w);
        lemma_words(t, p + 1, head.push(w), rest);
        assert(head.push(w) + rest =~= head + tail);
    }
}

/// A type that is printed bare has words that are plain names, and sizes.
pub proof fn lemma_plain_type(s: Seq<char>)
    requires
        printer::is_plain_type(s),
    ensures
        shape::is_type(s),
{
    reveal(printer::is_plain_type);
    let t = tokenizer::tokens_of(s);
    let first = rules::kind(t, 0)->Identifier_0;
    tokenizer::law_tokens_end(s, 0);
    assert(printer::is_type_token(t[0].kind));
    let head = seq![first];
    assert(text::join(head, " "@) == first);
    let tail = lemma_words_read(t, 1, head);
    let words = head + tail;
    assert(words[0] == first);
    assert forall|i: int| 0 <= i < words.len() implies tokenizer::is_plain(
        #[trigger] words[i],
    ) by {
        if i > 0 {
            assert(words[i] == tail[i - 1]);
        }
    }
    let r = rules::more_words(t, 1, first).1;
    let joined = text::join(words, " "@);
    if rules::kind(t, r) != KindView::LParen {
        let none = Seq::<i64>::empty();
        assert(joined + shape::sizes_text(none) =~= joined);
        assert(shape::is_type_of(words, none, s));
    } else {
        lemma_type_token_at(t, r + 1);
        let v = rules::kind(t, r + 1)->Integer_0;
        let x = text::signed_decimal(v as int);
        if rules::kind(t, r + 2) == KindView::Comma {
            lemma_type_token_at(t, r + 3);
            let w = rules::kind(t, r + 3)->Integer_0;
            let y = text::signed_decimal(w as int);
            let sizes = seq![v, w];
            assert(joined + ("("@ + x + ", "@ + y + ")"@) =~= joined + "("@ + x + ", "@ + y + ")"@);
            assert(shape::is_type_of(words, sizes, s));
        } else {
            let sizes = seq![v];
            assert(joined + ("("@ + x + ")"@) =~= joined + "("@ + x + ")"@);
            assert(shape::is_type_of(words, sizes, s));
        }
    }
}

proof fn lemma_type_token_at(t: Seq<TokenView>, p: int)
    requires
        matching::ended(t),
        0 <= p,
        forall|i: int| 0 <= i < t.len() ==> printer::is_type_token((#[trigger] t[i]).kind),
    ensures
        printer::is_type_token(rules::kind(t, p)),
{
    if p < t.len() {
        assert(printer::is_type_token(t[p].kind));
    } else {
        assert(printer::is_type_token(t[t.len() - 1].kind));
    }
}

/// The words that are read are the identifiers that stand there.
proof fn lemma_words_read(t: Seq<TokenView>, p: int, head: Seq<Seq<char>>) -> (tail: Seq<Seq<char>>)
    requires
        0 <= p,
        head.len() > 0,
        forall|i: int| 0 <= i < t.len() ==> printer::is_type_token((#[trigger] t[i]).kind),
    ensures
        rules::more_words(t, p, text::join(head, " "@)) == (
            text::join(head + tail, " "@),
            p + tail.len(),
        ),
        shape::all_plain(tail),
    decreases rules::left(t, p),
{
    let none = Seq::<Seq<char>>::empty();
    assert(head + none =~= head);
    if p < t.len() {
        match t[p].kind {
            KindView::Identifier(word) => {
                assert(printer::is_type_token(t[p].kind));
                lemma_join_push(head, " "@, word);
                let rest = lemma_words_read(t, p + 1, head.push(word));
                let tail = seq![word] + rest;
                assert(head.push(word) + rest =~= head + tail);
                assert forall|i: int| 0 <= i < tail.len() implies tokenizer::is_plain(
                    #[trigger] tail[i],
                ) by {
                    if i > 0 {
                        assert(tail[i] == rest[i - 1]);
                    }
                }
                tail
            },
            _ => none,
        }
    } else {
        none
    }
}

/// A type that is printed bare is read again.
proof fn lemma_bare_type(t: Seq<TokenView>, p: int, s: Seq<char>)
    requires
        matching::ended(t),
        shape::is_type(s),
        printer::is_plain_type(s),
        matching::at(t, p, shape::type_kinds(s)),
        !(rules::kind(t, p + shape::type_kinds(s).len()) is Identifier),
        rules::kind(t, p + shape::type_kinds(s).len()) != KindView::LParen,
    ensures
        rules::declared_type(t, p) == Ok::<(Seq<char>, int), rules::FailView>(
            (s, p + shape::type_kinds(s).len()),
        ),
        shape::type_kinds(s).len() > 0,
        shape::type_kinds(s)[0] is Identifier,
{
    shape::lemma_type_parts(s);
    let (words, sizes) = shape::type_parts(s);
    let kinds = shape::type_kinds(s);
    let sized = shape::sizes_kinds(sizes);
    let n: int = words.len() as int;
    matching::split2(t, p, shape::words_kinds(words), sized);
    matching::lemma_at_head(t, p, kinds);
    matching::lemma_at_head(t, p + n, sized);
    let head = seq![words[0]];
    let tail = words.skip(1);
    assert(shape::words_kinds(words) =~= seq![KindView::Identifier(words[0])]
        + shape::words_kinds(tail));
    matching::split2(t, p, seq![KindView::Identifier(words[0])], shape::words_kinds(tail));
    assert(kinds[0] == KindView::Identifier(words[0]));
    lemma_words(t, p + 1, head, tail);
    assert(head + tail =~= words);
    assert(text::join(head, " "@) == words[0]);
    if sizes.len() == 0 {
        assert(text::join(words, " "@) + shape::sizes_text(sizes) =~= text::join(words, " "@));
    } else if sizes.len() == 1 {
        assert(sized =~= seq![KindView::LParen] + seq![KindView::Integer(sizes[0])]
            + seq![KindView::RParen]);
        matching::split3(
            t,
            p + n,
            seq![KindView::LParen],
            seq![KindView::Integer(sizes[0])],
            seq![KindView::RParen],
        );
        assert(text::join(words, " "@) + ("("@ + text::signed_decimal(sizes[0] as int) + ")"@)
            =~= text::join(words, " "@) + "("@ + text::signed_decimal(sizes[0] as int) + ")"@);
    } else {
        assert(sized =~= seq![KindView::LParen] + seq![KindView::Integer(sizes[0])]
            + seq![KindView::Comma] + seq![KindView::Integer(sizes[1])] + seq![KindView::RParen]);
        matching::split5(
            t,
            p + n,
            seq![KindView::LParen],
            seq![KindView::Integer(sizes[0])],
            seq![KindView::Comma],
            seq![KindView::Integer(sizes[1])],
            seq![KindView::RParen],
        );
        assert(text::join(words, " "@) + ("("@ + text::signed_decimal(sizes[0] as int) + ", "@
            + text::signed_decimal(sizes[1] as int) + ")"@) =~= text::join(words, " "@) + "("@
            + text::signed_decimal(sizes[0] as int) + ", "@ + text::signed_decimal(
            sizes[1] as int,
        ) + ")"@);
    }
}

/// A type is read again as it is printed.
pub proof fn lemma_type(t: Seq<TokenView>, p: int, s: Seq<char>)
    requires
        matching::ended(t),
        matching::at(t, p, shape::type_kinds(s)),
        !(rules::kind(t, p + shape::type_kinds(s).len()) is Identifier),
        rules::kind(t, p + shape::type_kinds(s).len()) != KindView::LParen,
    ensures
        rules::declared_type(t, p) == Ok::<(Seq<char>, int), rules::FailView>(
            (s, p + shape::type_kinds(s).len()),
        ),
        shape::type_kinds(s).len() > 0,
        shape::type_kinds(s)[0] is Identifier,
{
    if printer::is_plain_type(s) {
        lemma_plain_type(s);
        lemma_bare_type(t, p, s);
    } else {
        assert(shape::type_kinds(s)[0] == KindView::Identifier(s));
    }
}

proof fn lemma_words_advance(t: Seq<TokenView>, p: int, words: Seq<char>)
    requires
        0 <= p,
    ensures
        rules::more_words(t, p, words).1 >= p,
    decreases rules::left(t, p),
{
    if p < t.len() {
        match t[p].kind {
            KindView::Identifier(word) => lemma_words_advance(t, p + 1, words + " "@ + word),
            _ => {},
        }
    }
}

pub proof fn lemma_type_advances(t: Seq<TokenView>, p: int)
    requires
        0 <= p,
        rules::declared_type(t, p) is Ok,
    ensures
        rules::declared_type(t, p)->Ok_0.1 > p,
        rules::kind(t, p) is Identifier,
{
    match rules::kind(t, p) {
        KindView::Identifier(first) => lemma_words_advance(t, p + 1, first),
        _ => {},
    }
}

} // verus!
