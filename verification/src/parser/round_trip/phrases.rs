//! How phrases of printed text are read: words between and in front of texts, lists,
//! names with their qualifiers, types.
use crate::parser::round_trip::leaves;
use crate::parser::round_trip::lexing;
use crate::parser::round_trip::literals;
use crate::parser::round_trip::shape;
use crate::parser::round_trip::spelling;
use crate::parser::tokenizer;
use crate::parser::tokenizer::{Class, Keyword, KindView};
use crate::parser::printer;
use crate::text;
use vstd::prelude::*;

verus! {

/// A word in front of a text.
pub proof fn reads_lead(k: Keyword, mark: Seq<char>, y: Seq<char>, b: Seq<KindView>)
    requires
        spelling::is_printed(k),
        mark == k.name() + " "@,
        lexing::reads(y, b),
        b.len() > 0,
    ensures
        lexing::reads(mark + y, shape::kw(k) + b),
{
    spelling::reads_keyword(k);
    lexing::reads_gap(k.name(), shape::kw(k), y, b);
}

/// A space and a word in front of a text.
pub proof fn reads_clause(k: Keyword, mark: Seq<char>, y: Seq<char>, b: Seq<KindView>)
    requires
        spelling::is_printed(k),
        mark == " "@ + k.name() + " "@,
        lexing::reads(y, b),
        b.len() > 0,
    ensures
        lexing::reads(mark + y, shape::kw(k) + b),
{
    reads_lead(k, k.name() + " "@, y, b);
    lexing::reads_space(k.name() + " "@ + y, shape::kw(k) + b);
    assert(" "@ + (k.name() + " "@ + y) =~= mark + y);
}

/// A word between two texts.
pub proof fn reads_infix(
    x: Seq<char>,
    a: Seq<KindView>,
    k: Keyword,
    mark: Seq<char>,
    y: Seq<char>,
    b: Seq<KindView>,
)
    requires
        spelling::is_printed(k),
        mark == " "@ + k.name() + " "@,
        lexing::reads(x, a),
        lexing::reads(y, b),
        b.len() > 0,
    ensures
        lexing::reads(x + mark + y, a + shape::kw(k) + b),
{
    reveal_strlit(" ");
    reads_clause(k, mark, y, b);
    assert((mark + y)[0] == ' ');
    lexing::reads_tight(x, a, mark + y, shape::kw(k) + b);
    assert(x + (mark + y) =~= x + mark + y);
    leaves::lemma_regroup3(a, shape::kw(k), b);
}

/// A space and a word behind a text.
pub proof fn reads_trail(x: Seq<char>, a: Seq<KindView>, k: Keyword, mark: Seq<char>)
    requires
        spelling::is_printed(k),
        mark == " "@ + k.name(),
        lexing::reads(x, a),
    ensures
        lexing::reads(x + mark, a + shape::kw(k)),
        lexing::reads(mark, shape::kw(k)),
{
    spelling::reads_keyword(k);
    lexing::reads_gap(x, a, k.name(), shape::kw(k));
    assert(x + mark =~= x + " "@ + k.name());
    lexing::reads_space(k.name(), shape::kw(k));
}

/// `NOT` in front of a text, where it is negated.
pub proof fn reads_not(negated: bool, y: Seq<char>, b: Seq<KindView>)
    requires
        lexing::reads(y, b),
        b.len() > 0,
    ensures
        lexing::reads(
            printer::not_text(negated) + y,
            shape::flag_kinds(negated, Keyword::NOT) + b,
        ),
{
    reveal(Keyword::name);
    reveal_strlit("NOT ");
    reveal_strlit("NOT");
    reveal_strlit(" ");
    reveal_strlit("");
    if negated {
        assert("NOT "@ =~= "NOT"@ + " "@);
        reads_lead(Keyword::NOT, "NOT "@, y, b);
    } else {
        assert(""@ + y =~= y);
        leaves::lemma_nothing_before(b);
    }
}

/// A text in parentheses.
pub proof fn reads_parens(x: Seq<char>, a: Seq<KindView>)
    requires
        lexing::reads(x, a),
    ensures
        lexing::reads("("@ + x + ")"@, shape::in_parens(a)),
{
    reveal_strlit(")");
    literals::lemma_signs();
    lexing::reads_tight(x, a, ")"@, seq![KindView::RParen]);
    lexing::reads_alone("("@, seq![KindView::LParen], x + ")"@, a + seq![KindView::RParen]);
    assert("("@ + (x + ")"@) =~= "("@ + x + ")"@);
    leaves::lemma_regroup3(seq![KindView::LParen], a, seq![KindView::RParen]);
}

/// A word and a text in parentheses, with a space between.
pub proof fn reads_word_parens(k: Keyword, mark: Seq<char>, x: Seq<char>, a: Seq<KindView>)
    requires
        spelling::is_printed(k),
        mark == k.name() + " ("@,
        lexing::reads(x, a),
    ensures
        lexing::reads(mark + x + ")"@, shape::kw(k) + shape::in_parens(a)),
{
    reveal_strlit(" (");
    reveal_strlit(" ");
    reveal_strlit("(");
    reads_parens(x, a);
    reads_lead(k, k.name() + " "@, "("@ + x + ")"@, shape::in_parens(a));
    assert(" ("@ =~= " "@ + "("@);
    assert(k.name() + " "@ + ("("@ + x + ")"@) =~= mark + x + ")"@);
}

/// Two texts with a comma between.
pub proof fn reads_comma(x: Seq<char>, a: Seq<KindView>, y: Seq<char>, b: Seq<KindView>)
    requires
        lexing::reads(x, a),
        lexing::reads(y, b),
        b.len() > 0,
    ensures
        lexing::reads(x + ", "@ + y, a + seq![KindView::Comma] + b),
        lexing::reads(", "@ + y, seq![KindView::Comma] + b),
{
    reveal_strlit(", ");
    reveal_strlit(",");
    reveal_strlit(" ");
    literals::lemma_signs();
    lexing::reads_space(y, b);
    lexing::reads_alone(","@, seq![KindView::Comma], " "@ + y, b);
    assert(","@ + (" "@ + y) =~= ", "@ + y);
    assert((", "@ + y)[0] == ',');
    lexing::reads_tight(x, a, ", "@ + y, seq![KindView::Comma] + b);
    assert(x + (", "@ + y) =~= x + ", "@ + y);
    leaves::lemma_regroup3(a, seq![KindView::Comma], b);
}

/// Whether each text is read as the kinds beside it.
pub open spec fn all_read(texts: Seq<Seq<char>>, kinds: Seq<Seq<KindView>>) -> bool {
    &&& texts.len() == kinds.len()
    &&& forall|i: int|
        0 <= i < texts.len() ==> lexing::reads(#[trigger] texts[i], kinds[i]) && kinds[i].len() > 0
}

/// A list with commas.
pub proof fn reads_join(texts: Seq<Seq<char>>, kinds: Seq<Seq<KindView>>)
    requires
        all_read(texts, kinds),
    ensures
        lexing::reads(text::join(texts, ", "@), shape::commas(kinds)),
        texts.len() > 0 ==> shape::commas(kinds).len() > 0,
    decreases texts.len(),
{
    reveal(shape::commas);
    if texts.len() == 0 {
        lexing::reads_nothing();
    } else if texts.len() == 1 {
        assert(lexing::reads(texts[0], kinds[0]));
    } else {
        let n: int = texts.len() - 1;
        assert forall|i: int| 0 <= i < n implies lexing::reads(
            #[trigger] texts.drop_last()[i],
            kinds.drop_last()[i],
        ) && kinds.drop_last()[i].len() > 0 by {
            assert(lexing::reads(texts[i], kinds[i]));
        }
        reads_join(texts.drop_last(), kinds.drop_last());
        assert(lexing::reads(texts[n], kinds[n]));
        reads_comma(
            text::join(texts.drop_last(), ", "@),
            shape::commas(kinds.drop_last()),
            texts.last(),
            kinds.last(),
        );
    }
}

/// A list in which each text stands behind `lead`.
pub proof fn reads_each(
    lead: Seq<char>,
    a: Seq<KindView>,
    texts: Seq<Seq<char>>,
    kinds: Seq<Seq<KindView>>,
)
    requires
        lead.len() > 0,
        lead[0] == ' ' || lead[0] == ',',
        texts.len() == kinds.len(),
        forall|i: int|
            0 <= i < texts.len() ==> lexing::reads(lead + #[trigger] texts[i], a + kinds[i]),
    ensures
        lexing::reads(text::each_behind(lead, texts), shape::each_after(a, kinds)),
        text::each_behind(lead, texts).len() > 0 ==> text::each_behind(lead, texts)[0] == lead[0],
    decreases texts.len(),
{
    reveal(shape::each_after);
    reveal_strlit("");
    if texts.len() == 0 {
        lexing::reads_nothing();
    } else {
        let n: int = texts.len() - 1;
        assert forall|i: int| 0 <= i < n implies lexing::reads(
            lead + #[trigger] texts.drop_last()[i],
            a + kinds.drop_last()[i],
        ) by {
            assert(lexing::reads(lead + texts[i], a + kinds[i]));
        }
        reads_each(lead, a, texts.drop_last(), kinds.drop_last());
        let front = text::each_behind(lead, texts.drop_last());
        let done = shape::each_after(a, kinds.drop_last());
        assert(lexing::reads(lead + texts[n], a + kinds[n]));
        assert((lead + texts[n])[0] == lead[0]);
        lexing::reads_tight(front, done, lead + texts[n], a + kinds[n]);
        assert(front + (lead + texts[n]) =~= front + lead + texts.last());
        leaves::lemma_regroup3(done, a, kinds.last());
        if front.len() > 0 {
            assert((front + lead + texts.last())[0] == front[0]);
        } else {
            assert((front + lead + texts.last())[0] == lead[0]);
        }
    }
}

/// The parts behind a clause's head, with commas between.
pub proof fn reads_list_clause(
    mark: Seq<char>,
    head: Seq<KindView>,
    texts: Seq<Seq<char>>,
    kinds: Seq<Seq<KindView>>,
)
    requires
        all_read(texts, kinds),
        mark.len() > 0,
        forall|y: Seq<char>, b: Seq<KindView>|
            lexing::reads(y, b) && b.len() > 0 ==> #[trigger] lexing::reads(mark + y, head + b),
    ensures
        lexing::reads(printer::list_clause(mark, texts), shape::clause_kinds(head, kinds)),
        printer::list_clause(mark, texts).len() > 0 ==> printer::list_clause(mark, texts)[0]
            == mark[0],
{
    reads_join(texts, kinds);
    lexing::reads_nothing();
    reveal_strlit("");
    if texts.len() > 0 {
        let y = text::join(texts, ", "@);
        assert(lexing::reads(mark + y, head + shape::commas(kinds)));
        assert((mark + y)[0] == mark[0]);
    }
}

/// A name where it stands, in front of what is neither of a word nor a quote.
pub proof fn lemma_name_at(s: Seq<char>, i: int, name: Seq<char>)
    requires
        text::stands_at(s, printer::name_text(name), i),
        ({
            let e = i + printer::name_text(name).len();
            e < s.len() ==> !tokenizer::in_class(s[e], Class::Word) && s[e] != '\'' && s[e] != '"'
        }),
    ensures
        lexing::lexes(s, i, shape::name_kinds(name), i + printer::name_text(name).len()),
{
    if tokenizer::is_plain(name) {
        spelling::lemma_word_at(s, i, name);
    } else {
        literals::lemma_quoted_name_at(s, i, name);
    }
}

/// What a printed name begins with.
pub open spec fn begins_name(x: Seq<char>) -> bool {
    x.len() > 0 && !text::is_digit(x[0]) && x[0] != '-' && x[0] != '>'
}

pub proof fn lemma_name_begins(name: Seq<char>)
    ensures
        begins_name(printer::name_text(name)),
{
    reveal_strlit("\"");
}

/// A name, in quotes where it needs them.
pub proof fn reads_name(name: Seq<char>)
    ensures
        lexing::reads(printer::name_text(name), shape::name_kinds(name)),
        begins_name(printer::name_text(name)),
{
    let x = printer::name_text(name);
    let kinds = shape::name_kinds(name);
    lemma_name_begins(name);
    lexing::lemma_reads_by(x, kinds);
    assert forall|s: Seq<char>, i: int| #[trigger]
        text::stands_at(s, x, i) && lexing::is_free(s, i + x.len()) implies lexing::lexes(
        s,
        i,
        kinds,
        i + x.len(),
    ) by {
        lemma_name_at(s, i, name);
    }
}

/// A name, a dot and a text.
pub proof fn reads_dotted(name: Seq<char>, y: Seq<char>, b: Seq<KindView>)
    requires
        lexing::reads(y, b),
        y.len() > 0,
        !text::is_digit(y[0]),
    ensures
        lexing::reads(
            printer::name_text(name) + "."@ + y,
            shape::name_kinds(name) + seq![KindView::Dot] + b,
        ),
{
    reveal_strlit(".");
    let dot = "."@;
    let x = printer::name_text(name);
    assert forall|s: Seq<char>, i: int| #[trigger]
        text::stands_at(s, dot, i) && i + dot.len() < s.len() && s[i + dot.len()] == y[0] implies
        lexing::lexes(s, i, seq![KindView::Dot], i + dot.len()) by {
        lexing::lemma_stands_char(s, dot, i, 0);
        lexing::lemma_starts(s, i);
        lexing::lemma_lexes_one(s, i, KindView::Dot, i + 1);
    }
    lexing::reads_before(dot, seq![KindView::Dot], y, b);
    let z = dot + y;
    assert(z[0] == '.');
    assert forall|s: Seq<char>, i: int| #[trigger]
        text::stands_at(s, x, i) && i + x.len() < s.len() && s[i + x.len()] == z[0] implies
        lexing::lexes(s, i, shape::name_kinds(name), i + x.len()) by {
        lemma_name_at(s, i, name);
    }
    lexing::reads_before(x, shape::name_kinds(name), z, seq![KindView::Dot] + b);
    assert(x + (dot + y) =~= x + "."@ + y);
    leaves::lemma_regroup3(shape::name_kinds(name), seq![KindView::Dot], b);
}

/// A word directly in front of an opening parenthesis.
pub proof fn alone_word_call(w: Seq<char>)
    requires
        tokenizer::is_word(w),
    ensures
        lexing::stands_alone(w + "("@, seq![tokenizer::word_kind(w)] + seq![KindView::LParen]),
{
    reveal_strlit("(");
    literals::lemma_signs();
    let y = "("@;
    let k = seq![tokenizer::word_kind(w)];
    assert forall|s: Seq<char>, i: int| #[trigger]
        text::stands_at(s, w, i) && i + w.len() < s.len() && s[i + w.len()] == y[0] implies
        lexing::lexes(s, i, k, i + w.len()) by {
        spelling::lemma_word_at(s, i, w);
    }
    lexing::alone_before(w, k, y, seq![KindView::LParen]);
}

/// A function's name directly in front of an opening parenthesis.
pub proof fn alone_call(name: Seq<char>)
    ensures
        lexing::stands_alone(
            printer::call_text(name) + "("@,
            shape::call_kinds(name) + seq![KindView::LParen],
        ),
        begins_name(printer::call_text(name)),
{
    reveal_strlit("(");
    literals::lemma_signs();
    lemma_name_begins(name);
    if printer::is_call_word(name) {
        alone_word_call(name);
    } else {
        let y = "("@;
        let x = printer::name_text(name);
        let k = shape::name_kinds(name);
        assert forall|s: Seq<char>, i: int| #[trigger]
            text::stands_at(s, x, i) && i + x.len() < s.len() && s[i + x.len()] == y[0] implies
            lexing::lexes(s, i, k, i + x.len()) by {
            lemma_name_at(s, i, name);
        }
        lexing::alone_before(x, k, y, seq![KindView::LParen]);
    }
}

/// A first character that neither is a sign nor makes one of a sign in front.
pub open spec fn begins(x: Seq<char>, kinds: Seq<KindView>) -> bool {
    &&& x.len() > 0
    &&& kinds.len() > 0
    &&& x[0] == '-' ==> kinds[0] == KindView::Minus
    &&& x[0] != '>'
}

// ---- types -----------------------------------------------------------------------------

proof fn reads_words(words: Seq<Seq<char>>)
    requires
        words.len() > 0,
        shape::all_plain(words),
    ensures
        lexing::reads(text::join(words, " "@), shape::words_kinds(words)),
    decreases words.len(),
{
    let n: int = words.len() - 1;
    assert(tokenizer::is_plain(words[n]));
    reads_plain(words[n]);
    if n == 0 {
        assert(shape::words_kinds(words) =~= shape::name_kinds(words[0]));
    } else {
        let front = words.drop_last();
        assert forall|i: int| 0 <= i < front.len() implies tokenizer::is_plain(#[trigger] front[i]) by {
            assert(tokenizer::is_plain(words[i]));
        }
        reads_words(front);
        lexing::reads_gap(
            text::join(front, " "@),
            shape::words_kinds(front),
            words[n],
            shape::name_kinds(words[n]),
        );
        assert(shape::words_kinds(words) =~= shape::words_kinds(front) + shape::name_kinds(
            words[n],
        ));
    }
}

proof fn reads_plain(name: Seq<char>)
    requires
        tokenizer::is_plain(name),
    ensures
        lexing::reads(name, shape::name_kinds(name)),
{
    spelling::reads_word(name);
}

/// A word with sizes behind it.
proof fn reads_sized(word: Seq<char>, sizes: Seq<i64>)
    requires
        tokenizer::is_plain(word),
        0 < sizes.len() <= 2,
        forall|i: int| 0 <= i < sizes.len() ==> #[trigger] sizes[i] >= 0,
    ensures
        lexing::reads(
            word + shape::sizes_text(sizes),
            shape::name_kinds(word) + shape::sizes_kinds(sizes),
        ),
{
    reveal_strlit(")");
    literals::lemma_signs();
    alone_word_call(word);
    let first = text::decimal(sizes[0] as nat);
    assert(sizes[0] >= 0);
    literals::reads_integer(sizes[0]);
    let close = seq![KindView::RParen];
    let one = seq![KindView::Integer(sizes[0])];
    let open = shape::name_kinds(word) + seq![KindView::LParen];
    if sizes.len() == 1 {
        lexing::reads_tight(first, one, ")"@, close);
        lexing::reads_alone(word + "("@, open, first + ")"@, one + close);
        assert(word + "("@ + (first + ")"@) =~= word + shape::sizes_text(sizes));
        assert(open + (one + close) =~= shape::name_kinds(word) + shape::sizes_kinds(sizes));
    } else {
        let second = text::decimal(sizes[1] as nat);
        let two = seq![KindView::Integer(sizes[1])];
        assert(sizes[1] >= 0);
        literals::reads_integer(sizes[1]);
        reads_comma(first, one, second, two);
        let both = first + ", "@ + second;
        let inner = one + seq![KindView::Comma] + two;
        lexing::reads_tight(both, inner, ")"@, close);
        lexing::reads_alone(word + "("@, open, both + ")"@, inner + close);
        assert(word + "("@ + (both + ")"@) =~= word + shape::sizes_text(sizes));
        assert(open + (inner + close) =~= shape::name_kinds(word) + shape::sizes_kinds(sizes));
    }
}

/// A type, in quotes where it needs them.
pub proof fn reads_type(s: Seq<char>)
    ensures
        lexing::reads(printer::type_text(s), shape::type_kinds(s)),
        shape::type_kinds(s).len() > 0,
{
    if printer::is_plain_type(s) {
        reads_plain_type(s);
    } else {
        let x = printer::quoted_text(s);
        let kinds = shape::name_kinds(s);
        lexing::lemma_reads_by(x, kinds);
        assert forall|t: Seq<char>, i: int| #[trigger]
            text::stands_at(t, x, i) && lexing::is_free(t, i + x.len()) implies lexing::lexes(
            t,
            i,
            kinds,
            i + x.len(),
        ) by {
            literals::lemma_quoted_name_at(t, i, s);
        }
    }
}

proof fn reads_plain_type(s: Seq<char>)
    requires
        printer::is_plain_type(s),
    ensures
        lexing::reads(s, shape::type_kinds(s)),
        shape::type_kinds(s).len() > 0,
{
    leaves::lemma_plain_type(s);
    shape::lemma_type_parts(s);
    let (words, sizes) = shape::type_parts(s);
    let n: int = words.len() - 1;
    assert(tokenizer::is_plain(words[n]));
    if sizes.len() == 0 {
        reads_words(words);
        assert(shape::type_text(words, sizes) =~= text::join(words, " "@));
        assert(shape::type_kinds(s) =~= shape::words_kinds(words));
    } else {
        reads_sized(words[n], sizes);
        let last = words[n] + shape::sizes_text(sizes);
        let kinds = shape::name_kinds(words[n]) + shape::sizes_kinds(sizes);
        if n == 0 {
            assert(shape::type_text(words, sizes) =~= last);
            assert(shape::type_kinds(s) =~= kinds);
        } else {
            let front = words.drop_last();
            assert forall|i: int| 0 <= i < front.len() implies tokenizer::is_plain(
                #[trigger] front[i],
            ) by {
                assert(tokenizer::is_plain(words[i]));
            }
            reads_words(front);
            lexing::reads_gap(text::join(front, " "@), shape::words_kinds(front), last, kinds);
            assert(text::join(front, " "@) + " "@ + last =~= shape::type_text(words, sizes));
            assert(shape::words_kinds(front) + kinds =~= shape::type_kinds(s));
        }
    }
}

} // verus!
