//! The letters of tokens, counted. What a source is read as has all the letters of its tokens.
use crate::double::TWO_POW_63;
use crate::parser::printer;
use crate::parser::round_trip::leaves;
use crate::parser::round_trip::shape;
use crate::parser::rules;
use crate::parser::tokenizer;
use crate::parser::tokenizer::{Keyword, KindView, ParamView, TokenView};
use crate::text;
use vstd::prelude::*;

verus! {

/// The letters of a word that must be found again in what is read. `AS`, `INNER` and `OUTER` say
/// nothing that stands nowhere else; `OFFSET` and a comma say the same.
pub open spec fn word_letters(word: Seq<char>) -> Seq<char> {
    if word == Keyword::AS.name() || word == Keyword::INNER.name() || word
        == Keyword::OUTER.name() {
        seq![]
    } else if word == Keyword::OFFSET.name() {
        seq![',']
    } else {
        word
    }
}

/// The letters of a token that must be found again in what is read. A double is told by its bit
/// pattern, but for the one that the smallest integer is made of.
pub open spec fn letters(k: KindView) -> Seq<char> {
    match k {
        KindView::Integer(v) => text::signed_decimal(v as int),
        KindView::Float(bits) => if bits == TWO_POW_63 {
            text::decimal(0x8000_0000_0000_0000)
        } else {
            text::decimal(bits as nat)
        },
        KindView::Str(s) => "'"@ + s,
        KindView::Blob(b) => "x'"@ + Seq::new(b.len(), |i: int| b[i] as char),
        KindView::Null => "NULL"@,
        KindView::True => "TRUE"@,
        KindView::False => "FALSE"@,
        KindView::Identifier(s) => word_letters(s),
        KindView::Keyword(word) => word_letters(word.name()),
        KindView::Param(ParamView::Anonymous) => "?"@,
        KindView::Param(ParamView::Numbered(n)) => "?"@ + text::decimal(n as nat),
        KindView::Param(ParamView::Colon(s)) => ":"@ + s,
        KindView::Param(ParamView::At(s)) => "@"@ + s,
        KindView::Param(ParamView::Dollar(s)) => "$"@ + s,
        KindView::Star => seq!['*'],
        KindView::Comma => seq![','],
        KindView::Semicolon => seq![],
        KindView::LParen => seq!['('],
        KindView::RParen => seq![')'],
        KindView::Dot => seq!['.'],
        KindView::Plus => seq!['+'],
        KindView::Minus => seq!['-'],
        KindView::Slash => seq!['/'],
        KindView::Percent => seq!['%'],
        KindView::Eq => seq!['='],
        KindView::Ne => seq!['!', '='],
        KindView::Lt => seq!['<'],
        KindView::Le => seq!['<', '='],
        KindView::Gt => seq!['>'],
        KindView::Ge => seq!['>', '='],
        KindView::Concat => seq!['|', '|'],
        KindView::Arrow => seq!['-', '>'],
        KindView::ArrowArrow => seq!['-', '>', '>'],
        KindView::BitAnd => seq!['&'],
        KindView::BitOr => seq!['|'],
        KindView::BitNot => seq!['~'],
        KindView::Shl => seq!['<', '<'],
        KindView::Shr => seq!['>', '>'],
        KindView::Error(s) => s,
        KindView::Eof => seq![],
    }
}

/// How often `c` stands in `s`.
pub open spec fn occurs(s: Seq<char>, c: char) -> nat
    decreases s.len(),
{
    if s.len() == 0 {
        0
    } else {
        occurs(s.drop_last(), c) + (if s.last() == c {
            1nat
        } else {
            0
        })
    }
}

/// How often `c` is a letter of the token `k`.
#[verifier::opaque]
pub open spec fn weight(k: KindView, c: char) -> nat {
    occurs(letters(k), c)
}

/// How often `c` is a letter of the tokens `kinds`.
#[verifier::opaque]
pub open spec fn load(kinds: Seq<KindView>, c: char) -> nat
    decreases kinds.len(),
{
    if kinds.len() == 0 {
        0
    } else {
        load(kinds.drop_last(), c) + weight(kinds.last(), c)
    }
}

/// How often `c` is a letter of the tokens of `t` before place `p`.
#[verifier::opaque]
pub open spec fn before(t: Seq<TokenView>, p: int, c: char) -> nat
    decreases p,
{
    if p <= 0 {
        0
    } else {
        before(t, p - 1, c) + weight(rules::kind(t, p - 1), c)
    }
}

/// Whether `c` is as often a letter of the tokens from `p` to before `q` as of `kinds`.
pub open spec fn kept(t: Seq<TokenView>, p: int, q: int, kinds: Seq<KindView>, c: char) -> bool {
    p <= q && before(t, q, c) == before(t, p, c) + load(kinds, c)
}

pub proof fn lemma_occurs_sum(a: Seq<char>, b: Seq<char>, c: char)
    ensures
        occurs(a + b, c) == occurs(a, c) + occurs(b, c),
    decreases b.len(),
{
    if b.len() == 0 {
        assert(a + b =~= a);
    } else {
        assert((a + b).drop_last() =~= a + b.drop_last());
        lemma_occurs_sum(a, b.drop_last(), c);
    }
}

pub broadcast proof fn load_sum(a: Seq<KindView>, b: Seq<KindView>, c: char)
    ensures
        #[trigger] load(a + b, c) == load(a, c) + load(b, c),
    decreases b.len(),
{
    reveal(load);
    if b.len() == 0 {
        assert(a + b =~= a);
    } else {
        assert((a + b).drop_last() =~= a + b.drop_last());
        load_sum(a, b.drop_last(), c);
    }
}

pub broadcast proof fn load_one(k: KindView, c: char)
    ensures
        #[trigger] load(seq![k], c) == weight(k, c),
{
    reveal(load);
    reveal_with_fuel(load, 2);
    assert(seq![k].drop_last() =~= Seq::<KindView>::empty());
}

pub broadcast proof fn load_none(c: char)
    ensures
        #[trigger] load(Seq::<KindView>::empty(), c) == 0,
{
    reveal(load);
}

/// The token at `p` is one of those before the next place.
pub proof fn one(t: Seq<TokenView>, p: int, c: char)
    requires
        0 <= p,
    ensures
        before(t, p + 1, c) == before(t, p, c) + weight(rules::kind(t, p), c),
{
    reveal(before);
}

/// What the words that need not be there, and those that stand for others, count.
pub proof fn lemma_weights(c: char)
    ensures
        weight(KindView::Semicolon, c) == 0,
        weight(KindView::Eof, c) == 0,
        weight(KindView::Keyword(Keyword::AS), c) == 0,
        weight(KindView::Keyword(Keyword::INNER), c) == 0,
        weight(KindView::Keyword(Keyword::OUTER), c) == 0,
        weight(KindView::Keyword(Keyword::OFFSET), c) == weight(KindView::Comma, c),
        weight(KindView::Keyword(Keyword::NOTNULL), c) == weight(
            KindView::Keyword(Keyword::NOT),
            c,
        ) + weight(KindView::Null, c),
        weight(KindView::Integer(i64::MIN), c) == weight(KindView::Minus, c) + weight(
            KindView::Float(TWO_POW_63),
            c,
        ),
{
    reveal(weight);
    reveal(Keyword::name);
    reveal_strlit("AS");
    reveal_strlit("INNER");
    reveal_strlit("OUTER");
    reveal_strlit("OFFSET");
    reveal_strlit("NOT");
    reveal_strlit("NULL");
    reveal_strlit("NOTNULL");
    assert(Keyword::OFFSET.name().len() == 6);
    assert(Keyword::AS.name().len() == 2);
    assert(Keyword::INNER.name().len() == 5);
    assert(Keyword::OUTER.name().len() == 5);
    assert(Keyword::NOTNULL.name() =~= Keyword::NOT.name() + "NULL"@);
    lemma_occurs_sum(Keyword::NOT.name(), "NULL"@, c);
    lemma_occurs_sum(seq!['-'], text::decimal(0x8000_0000_0000_0000), c);
}

/// A keyword counts as its name does.
pub proof fn lemma_word_weight(word: Keyword, c: char)
    ensures
        weight(KindView::Keyword(word), c) == weight(KindView::Identifier(word.name()), c),
{
    reveal(weight);
}

/// A function's name counts the same however it is printed.
pub proof fn lemma_call_weight(name: Seq<char>, c: char)
    ensures
        load(shape::call_kinds(name), c) == weight(KindView::Identifier(name), c),
{
    broadcast use load_one;

    if printer::is_call_word(name) {
        lemma_word_weight(tokenizer::keyword_of(name)->0, c);
    }
}

// ---- types -----------------------------------------------------------------------------

/// Whether no name is spelled as one of the words that are not counted.
pub open spec fn no_name_is_left_out(t: Seq<TokenView>) -> bool {
    forall|i: int|
        0 <= i < t.len() && #[trigger] t[i].kind is Identifier ==> word_letters(
            t[i].kind->Identifier_0,
        ) == t[i].kind->Identifier_0
}

proof fn lemma_name_counts(t: Seq<TokenView>, p: int, c: char)
    requires
        t.len() > 0,
        no_name_is_left_out(t),
        0 <= p,
        rules::kind(t, p) is Identifier,
    ensures
        weight(rules::kind(t, p), c) == occurs(rules::kind(t, p)->Identifier_0, c),
{
    reveal(weight);
    assert(t[if p < t.len() { p } else { t.len() - 1 }].kind is Identifier);
}

proof fn lemma_blank(c: char)
    requires
        c != ' ',
    ensures
        occurs(" "@, c) == 0,
        occurs("("@, c) == weight(KindView::LParen, c),
        occurs(")"@, c) == weight(KindView::RParen, c),
        occurs(", "@, c) == weight(KindView::Comma, c),
{
    reveal(weight);
    reveal_strlit(" ");
    reveal_strlit("(");
    reveal_strlit(")");
    reveal_strlit(", ");
    reveal_with_fuel(occurs, 3);
    assert(" "@ =~= seq![' ']);
    assert("("@ =~= seq!['(']);
    assert(")"@ =~= seq![')']);
    assert(", "@ =~= seq![',', ' ']);
    assert(seq![',', ' '].drop_last() =~= seq![',']);
}

proof fn lemma_more_words(t: Seq<TokenView>, p: int, words: Seq<char>, c: char)
    requires
        t.len() > 0,
        no_name_is_left_out(t),
        0 <= p,
        c != ' ',
    ensures
        ({
            let (all, q) = rules::more_words(t, p, words);
            &&& p <= q
            &&& before(t, q, c) + occurs(words, c) == before(t, p, c) + occurs(all, c)
        }),
    decreases rules::left(t, p),
{
    if p < t.len() {
        match t[p].kind {
            KindView::Identifier(word) => {
                lemma_name_counts(t, p, c);
                lemma_blank(c);
                lemma_occurs_sum(words + " "@, word, c);
                lemma_occurs_sum(words, " "@, c);
                one(t, p, c);
                lemma_more_words(t, p + 1, words + " "@ + word, c);
            },
            _ => {},
        }
    }
}

/// The letters of a type are those of its tokens.
proof fn lemma_type_letters(t: Seq<TokenView>, p: int, c: char)
    requires
        t.len() > 0,
        no_name_is_left_out(t),
        0 <= p,
        c != ' ',
        rules::declared_type(t, p) is Ok,
    ensures
        ({
            let (s, q) = rules::declared_type(t, p)->Ok_0;
            &&& p < q
            &&& before(t, q, c) == before(t, p, c) + occurs(s, c)
        }),
{
    reveal(weight);
    let first = rules::kind(t, p)->Identifier_0;
    lemma_name_counts(t, p, c);
    lemma_blank(c);
    one(t, p, c);
    lemma_more_words(t, p + 1, first, c);
    let (words, r) = rules::more_words(t, p + 1, first);
    if rules::kind(t, r) == KindView::LParen {
        let (n1, u) = rules::number_literal(t, r + 1)->Ok_0;
        one(t, r, c);
        one(t, r + 1, c);
        one(t, r + 2, c);
        lemma_occurs_sum(words, "("@, c);
        lemma_occurs_sum(words + "("@, n1, c);
        if rules::kind(t, u) == KindView::Comma {
            let (n2, w) = rules::number_literal(t, u + 1)->Ok_0;
            one(t, r + 3, c);
            one(t, r + 4, c);
            lemma_occurs_sum(words + "("@ + n1, ", "@, c);
            lemma_occurs_sum(words + "("@ + n1 + ", "@, n2, c);
            lemma_occurs_sum(words + "("@ + n1 + ", "@ + n2, ")"@, c);
        } else {
            lemma_occurs_sum(words + "("@ + n1, ")"@, c);
        }
    }
}

/// Plain words count as they are.
proof fn lemma_words_load(words: Seq<Seq<char>>, c: char)
    requires
        c != ' ',
        shape::all_plain(words),
    ensures
        load(shape::words_kinds(words), c) == occurs(text::join(words, " "@), c),
    decreases words.len(),
{
    broadcast use {load_sum, load_one};

    let n = words.len();
    if n == 0 {
        reveal(load);
        reveal_strlit("");
    } else {
        let last = words.last();
        assert(tokenizer::is_plain(words[n - 1]));
        lemma_plain_counts(last, c);
        assert(shape::words_kinds(words) =~= shape::words_kinds(words.drop_last())
            + shape::name_kinds(last));
        assert forall|i: int| 0 <= i < n - 1 implies tokenizer::is_plain(
            #[trigger] words.drop_last()[i],
        ) by {
            assert(words.drop_last()[i] == words[i]);
        }
        lemma_words_load(words.drop_last(), c);
        if n == 1 {
            assert(words.drop_last() =~= Seq::<Seq<char>>::empty());
            assert(text::join(words, " "@) == last);
            reveal_strlit("");
        } else {
            lemma_blank(c);
            lemma_occurs_sum(text::join(words.drop_last(), " "@) + " "@, last, c);
            lemma_occurs_sum(text::join(words.drop_last(), " "@), " "@, c);
        }
    }
}

proof fn lemma_plain_counts(name: Seq<char>, c: char)
    requires
        tokenizer::is_plain(name),
    ensures
        weight(KindView::Identifier(name), c) == occurs(name, c),
{
    reveal(weight);
    lemma_plain_is_no_word(name, Keyword::AS);
    lemma_plain_is_no_word(name, Keyword::INNER);
    lemma_plain_is_no_word(name, Keyword::OUTER);
    lemma_plain_is_no_word(name, Keyword::OFFSET);
}

proof fn lemma_plain_is_no_word(name: Seq<char>, word: Keyword)
    requires
        tokenizer::is_plain(name),
        word == Keyword::AS || word == Keyword::INNER || word == Keyword::OUTER || word
            == Keyword::OFFSET,
    ensures
        name != word.name(),
{
    reveal(tokenizer::word_kind);
    reveal(Keyword::name);
    reveal_strlit("AS");
    reveal_strlit("INNER");
    reveal_strlit("OUTER");
    reveal_strlit("OFFSET");
    reveal_strlit("NULL");
    reveal_strlit("TRUE");
    reveal_strlit("FALSE");
    if name == word.name() {
        assert(text::upper(name) =~= name);
        crate::parser::keyword::law_keyword_named(word);
    }
}

/// A type that is printed has the letters of its tokens.
pub proof fn count_type(t: Seq<TokenView>, p: int, c: char)
    requires
        t.len() > 0,
        no_name_is_left_out(t),
        0 <= p,
        c != ' ',
        rules::declared_type(t, p) is Ok,
    ensures
        ({
            let (s, q) = rules::declared_type(t, p)->Ok_0;
            &&& p < q
            &&& kept(t, p, q, shape::type_kinds(s), c)
        }),
{
    broadcast use {load_sum, load_one};

    lemma_type_letters(t, p, c);
    let (s, q) = rules::declared_type(t, p)->Ok_0;
    if printer::is_plain_type(s) {
        leaves::lemma_plain_type(s);
        shape::lemma_type_parts(s);
        let (words, sizes) = shape::type_parts(s);
        lemma_words_load(words, c);
        lemma_occurs_sum(text::join(words, " "@), shape::sizes_text(sizes), c);
        lemma_sizes_load(sizes, c);
    } else {
        lemma_whole_type(t, p, c);
    }
}

proof fn lemma_sizes_load(sizes: Seq<i64>, c: char)
    requires
        c != ' ',
        sizes.len() <= 2,
    ensures
        load(shape::sizes_kinds(sizes), c) == occurs(shape::sizes_text(sizes), c),
{
    broadcast use {load_sum, load_one};

    reveal(weight);
    lemma_blank(c);
    if sizes.len() == 0 {
        reveal(load);
    } else {
        let n1 = text::signed_decimal(sizes[0] as int);
        lemma_occurs_sum("("@, n1, c);
        if sizes.len() == 1 {
            lemma_occurs_sum("("@ + n1, ")"@, c);
            assert(shape::sizes_kinds(sizes) =~= seq![KindView::LParen] + seq![
                KindView::Integer(sizes[0]),
            ] + seq![KindView::RParen]);
        } else {
            let n2 = text::signed_decimal(sizes[1] as int);
            lemma_occurs_sum("("@ + n1, ", "@, c);
            lemma_occurs_sum("("@ + n1 + ", "@, n2, c);
            lemma_occurs_sum("("@ + n1 + ", "@ + n2, ")"@, c);
            assert(shape::sizes_kinds(sizes) =~= seq![KindView::LParen] + seq![
                KindView::Integer(sizes[0]),
            ] + seq![KindView::Comma] + seq![KindView::Integer(sizes[1])] + seq![
                KindView::RParen,
            ]);
        }
    }
}

/// A type as one name is none of the words that are not counted.
proof fn lemma_whole_type(t: Seq<TokenView>, p: int, c: char)
    requires
        t.len() > 0,
        no_name_is_left_out(t),
        0 <= p,
        rules::declared_type(t, p) is Ok,
    ensures
        weight(KindView::Identifier(rules::declared_type(t, p)->Ok_0.0), c) == occurs(
            rules::declared_type(t, p)->Ok_0.0,
            c,
        ),
{
    reveal(weight);
    let first = rules::kind(t, p)->Identifier_0;
    let (words, r) = rules::more_words(t, p + 1, first);
    let s = rules::declared_type(t, p)->Ok_0.0;
    lemma_words_or_blank(t, p + 1, first);
    if words == first && rules::kind(t, r) != KindView::LParen {
        assert(t[if p < t.len() { p } else { t.len() - 1 }].kind is Identifier);
    } else {
        lemma_words_hold_no_mark();
        reveal_strlit("(");
        if words == first {
            assert(s[words.len() as int] == '(');
        } else {
            let k = choose|k: int| 0 <= k < words.len() && words[k] == ' ';
            assert(s[k] == ' ');
        }
    }
}

proof fn lemma_words_or_blank(t: Seq<TokenView>, p: int, words: Seq<char>)
    requires
        0 <= p,
    ensures
        ({
            let all = rules::more_words(t, p, words).0;
            &&& all.len() >= words.len()
            &&& forall|i: int| 0 <= i < words.len() ==> all[i] == words[i]
            &&& all == words || exists|k: int| 0 <= k < all.len() && all[k] == ' '
        }),
    decreases rules::left(t, p),
{
    if p < t.len() {
        match t[p].kind {
            KindView::Identifier(word) => {
                let more = words + " "@ + word;
                reveal_strlit(" ");
                assert(more[words.len() as int] == ' ');
                lemma_words_or_blank(t, p + 1, more);
                let all = rules::more_words(t, p, words).0;
                assert(all[words.len() as int] == ' ');
                assert forall|i: int| 0 <= i < words.len() implies all[i] == words[i] by {
                    assert(more[i] == words[i]);
                }
            },
            _ => {},
        }
    }
}

/// No blank and no parenthesis stands in the words that are not counted.
proof fn lemma_words_hold_no_mark()
    ensures
        forall|i: int| 0 <= i < Keyword::AS.name().len() ==> #[trigger] Keyword::AS.name()[i] != ' '
            && Keyword::AS.name()[i] != '(',
        forall|i: int|
            0 <= i < Keyword::INNER.name().len() ==> #[trigger] Keyword::INNER.name()[i] != ' '
                && Keyword::INNER.name()[i] != '(',
        forall|i: int|
            0 <= i < Keyword::OUTER.name().len() ==> #[trigger] Keyword::OUTER.name()[i] != ' '
                && Keyword::OUTER.name()[i] != '(',
        forall|i: int|
            0 <= i < Keyword::OFFSET.name().len() ==> #[trigger] Keyword::OFFSET.name()[i] != ' '
                && Keyword::OFFSET.name()[i] != '(',
{
    reveal(Keyword::name);
    reveal_strlit("AS");
    reveal_strlit("INNER");
    reveal_strlit("OUTER");
    reveal_strlit("OFFSET");
}

} // verus!
