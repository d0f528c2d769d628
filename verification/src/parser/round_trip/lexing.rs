//! How the tokens of a text are the tokens of its parts.
use crate::parser::round_trip::matching;
use crate::parser::tokenizer;
use crate::parser::tokenizer::KindView;
use crate::text;
use vstd::prelude::*;

verus! {

/// Whether the tokens from place `i` on have these kinds, the last of them up to `e`.
pub open spec fn lexes(s: Seq<char>, i: int, kinds: Seq<KindView>, e: int) -> bool
    decreases kinds.len(),
{
    if kinds.len() == 0 {
        i == e
    } else {
        &&& 0 <= i <= s.len()
        &&& tokenizer::token_at(s, i).0.kind == kinds[0]
        &&& kinds[0] != KindView::Eof
        &&& lexes(s, tokenizer::token_at(s, i).1, kinds.drop_first(), e)
    }
}

/// Whether no token goes on at `e`: the text ends there, or a space, a comma or a closing
/// parenthesis follows.
pub open spec fn is_free(s: Seq<char>, e: int) -> bool {
    e == s.len() || (0 <= e < s.len() && (s[e] == ' ' || s[e] == ',' || s[e] == ')'))
}

/// Whether `x` is read as tokens of these kinds wherever it stands and none goes on
/// behind it.
pub closed spec fn reads(x: Seq<char>, kinds: Seq<KindView>) -> bool {
    forall|s: Seq<char>, i: int| #[trigger]
        text::stands_at(s, x, i) && is_free(s, i + x.len()) ==> lexes(s, i, kinds, i + x.len())
}

/// Whether `x` is read as tokens of these kinds wherever it stands.
pub closed spec fn stands_alone(x: Seq<char>, kinds: Seq<KindView>) -> bool {
    forall|s: Seq<char>, i: int| #[trigger]
        text::stands_at(s, x, i) ==> lexes(s, i, kinds, i + x.len())
}

pub proof fn lemma_lexes_both(
    s: Seq<char>,
    i: int,
    a: Seq<KindView>,
    m: int,
    b: Seq<KindView>,
    e: int,
)
    requires
        lexes(s, i, a, m),
        lexes(s, m, b, e),
    ensures
        lexes(s, i, a + b, e),
    decreases a.len(),
{
    if a.len() == 0 {
        assert(a + b =~= b);
    } else {
        lemma_lexes_both(s, tokenizer::token_at(s, i).1, a.drop_first(), m, b, e);
        assert((a + b).drop_first() =~= a.drop_first() + b);
        assert((a + b)[0] == a[0]);
    }
}

pub proof fn lemma_lexes_one(s: Seq<char>, i: int, k: KindView, e: int)
    requires
        0 <= i <= s.len(),
        k != KindView::Eof,
        tokenizer::token_at(s, i).0.kind == k,
        tokenizer::token_at(s, i).1 == e,
    ensures
        lexes(s, i, seq![k], e),
{
    assert(seq![k].drop_first() =~= seq![]);
    assert(lexes(s, e, seq![], e));
}

/// Where a token begins at `i`, it is what is read there.
pub proof fn lemma_starts(s: Seq<char>, i: int)
    requires
        0 <= i < s.len(),
        !text::is_space(s[i]),
        s[i] == '-' ==> tokenizer::char_at(s, i + 1) != Some('-'),
        s[i] == '/' ==> tokenizer::char_at(s, i + 1) != Some('*'),
    ensures
        tokenizer::token_at(s, i).0.kind == tokenizer::kind_at(s, i).0,
        tokenizer::token_at(s, i).1 == tokenizer::kind_at(s, i).1,
{
    assert(tokenizer::trivia_end(s, i) == Some(i));
}

/// A space in front changes no token.
pub proof fn lemma_lexes_space(s: Seq<char>, i: int, kinds: Seq<KindView>, e: int)
    requires
        0 <= i < s.len(),
        s[i] == ' ',
        kinds.len() > 0,
        lexes(s, i + 1, kinds, e),
    ensures
        lexes(s, i, kinds, e),
{
    assert(text::is_space(s[i]));
    assert(tokenizer::trivia_end(s, i) == tokenizer::trivia_end(s, i + 1));
}

/// A part of what stands at `i` stands where it does in it.
pub proof fn lemma_stands_part(s: Seq<char>, x: Seq<char>, y: Seq<char>, i: int)
    requires
        text::stands_at(s, x + y, i),
    ensures
        text::stands_at(s, x, i),
        text::stands_at(s, y, i + x.len()),
        y.len() > 0 ==> s[i + x.len()] == y[0],
{
    let xy = x + y;
    let cut = s.subrange(i, i + xy.len());
    assert(cut == xy);
    assert(s.subrange(i, i + x.len()) =~= x) by {
        assert forall|k: int| 0 <= k < x.len() implies s[i + k] == x[k] by {
            assert(cut[k] == xy[k]);
        }
    }
    assert(s.subrange(i + x.len(), i + x.len() + y.len()) =~= y) by {
        assert forall|k: int| 0 <= k < y.len() implies s[i + x.len() + k] == y[k] by {
            assert(cut[x.len() + k] == xy[x.len() + k]);
        }
    }
    if y.len() > 0 {
        assert(cut[x.len() as int] == xy[x.len() as int]);
    }
}

/// Two texts with nothing between, the second beginning with what ends a token.
pub proof fn reads_tight(x: Seq<char>, a: Seq<KindView>, y: Seq<char>, b: Seq<KindView>)
    requires
        reads(x, a),
        reads(y, b),
        y.len() > 0 ==> y[0] == ' ' || y[0] == ',' || y[0] == ')',
    ensures
        reads(x + y, a + b),
{
    assert forall|s: Seq<char>, i: int| #[trigger]
        text::stands_at(s, x + y, i) && is_free(s, i + (x + y).len()) implies lexes(
        s,
        i,
        a + b,
        i + (x + y).len(),
    ) by {
        lemma_stands_part(s, x, y, i);
        assert(is_free(s, i + x.len()));
        assert(i + x.len() + y.len() == i + (x + y).len());
        lemma_lexes_both(s, i, a, i + x.len(), b, i + (x + y).len());
    }
}

/// Two texts, the first of which needs nothing to end it.
pub proof fn reads_alone(x: Seq<char>, a: Seq<KindView>, y: Seq<char>, b: Seq<KindView>)
    requires
        stands_alone(x, a),
        reads(y, b),
    ensures
        reads(x + y, a + b),
{
    assert forall|s: Seq<char>, i: int| #[trigger]
        text::stands_at(s, x + y, i) && is_free(s, i + (x + y).len()) implies lexes(
        s,
        i,
        a + b,
        i + (x + y).len(),
    ) by {
        lemma_stands_part(s, x, y, i);
        assert(i + x.len() + y.len() == i + (x + y).len());
        lemma_lexes_both(s, i, a, i + x.len(), b, i + (x + y).len());
    }
}

pub proof fn reads_of_alone(x: Seq<char>, a: Seq<KindView>)
    requires
        stands_alone(x, a),
    ensures
        reads(x, a),
{
}

/// A space in front.
pub proof fn reads_space(y: Seq<char>, b: Seq<KindView>)
    requires
        reads(y, b),
        b.len() > 0,
    ensures
        reads(" "@ + y, b),
{
    reveal_strlit(" ");
    assert forall|s: Seq<char>, i: int| #[trigger]
        text::stands_at(s, " "@ + y, i) && is_free(s, i + (" "@ + y).len()) implies lexes(
        s,
        i,
        b,
        i + (" "@ + y).len(),
    ) by {
        lemma_stands_part(s, " "@, y, i);
        lemma_stands_part(s, seq![], " "@ + y, i);
        assert(seq![] + (" "@ + y) =~= " "@ + y);
        assert(s.subrange(i, i + 1)[0] == s[i]);
        assert(s[i] == ' ');
        assert(i + 1 + y.len() == i + (" "@ + y).len());
        lemma_lexes_space(s, i, b, i + (" "@ + y).len());
    }
}

/// Two texts with a space between.
pub proof fn reads_gap(x: Seq<char>, a: Seq<KindView>, y: Seq<char>, b: Seq<KindView>)
    requires
        reads(x, a),
        reads(y, b),
        b.len() > 0,
    ensures
        reads(x + " "@ + y, a + b),
{
    reveal_strlit(" ");
    reads_space(y, b);
    reads_tight(x, a, " "@ + y, b);
    assert(x + (" "@ + y) =~= x + " "@ + y);
}

/// What it takes to show that a text is read.
pub proof fn lemma_reads_by(x: Seq<char>, a: Seq<KindView>)
    ensures
        (forall|s: Seq<char>, i: int| #[trigger]
            text::stands_at(s, x, i) && is_free(s, i + x.len()) ==> lexes(s, i, a, i + x.len()))
            ==> reads(x, a),
        reads(x, a) ==> forall|s: Seq<char>, i: int| #[trigger]
            text::stands_at(s, x, i) && is_free(s, i + x.len()) ==> lexes(s, i, a, i + x.len()),
{
}

/// Nothing at all.
pub proof fn reads_nothing()
    ensures
        reads(seq![], seq![]),
        reads(""@, seq![]),
{
    reveal_strlit("");
    assert(""@ =~= seq![]);
}

/// A text that is read to its end has these tokens and the end of input.
pub proof fn lemma_tokens(s: Seq<char>, i: int, kinds: Seq<KindView>)
    requires
        0 <= i <= s.len(),
        lexes(s, i, kinds, s.len() as int),
    ensures
        ({
            let t = tokenizer::tokens_from(s, i);
            &&& t.len() == kinds.len() + 1
            &&& t.last().kind == KindView::Eof
            &&& forall|k: int| 0 <= k < kinds.len() ==> (#[trigger] t[k]).kind == kinds[k]
        }),
    decreases kinds.len(),
{
    let t = tokenizer::tokens_from(s, i);
    if kinds.len() == 0 {
        assert(tokenizer::trivia_end(s, i) == Some(i));
        assert(t =~= seq![tokenizer::token_at(s, i).0]);
    } else {
        let (token, e) = tokenizer::token_at(s, i);
        tokenizer::lemma_token_advances(s, i);
        lemma_tokens(s, e, kinds.drop_first());
        let rest = tokenizer::tokens_from(s, e);
        assert(t == seq![token] + rest);
        assert forall|k: int| 0 <= k < kinds.len() implies (#[trigger] t[k]).kind == kinds[k] by {
            if k > 0 {
                assert(t[k] == rest[k - 1]);
                assert(kinds.drop_first()[k - 1] == kinds[k]);
            }
        }
        assert(t.last() == rest.last());
    }
}

/// A text that is read has these tokens and the end of input.
pub proof fn lemma_tokens_of(x: Seq<char>, kinds: Seq<KindView>)
    requires
        reads(x, kinds),
    ensures
        ({
            let t = tokenizer::tokens_of(x);
            &&& matching::ended(t)
            &&& matching::at(t, 0, kinds)
            &&& crate::parser::rules::kind(t, kinds.len() as int) == KindView::Eof
        }),
{
    assert(x.subrange(0, x.len() as int) =~= x);
    assert(text::stands_at(x, x, 0));
    lemma_tokens(x, 0, kinds);
    matching::lemma_at_all(tokenizer::tokens_of(x), kinds);
}

// ---- single tokens -------------------------------------------------------------------

/// One token at the place where it stands.
pub proof fn reads_token(x: Seq<char>, k: KindView)
    requires
        x.len() > 0,
        k != KindView::Eof,
        !text::is_space(x[0]),
        x[0] == '-' ==> x.len() > 1 ==> x[1] != '-',
        x[0] == '/' ==> x.len() > 1 ==> x[1] != '*',
        forall|s: Seq<char>, i: int| #[trigger]
            text::stands_at(s, x, i) && is_free(s, i + x.len()) ==> tokenizer::kind_at(s, i) == (
                k,
                i + x.len(),
            ),
    ensures
        reads(x, seq![k]),
{
    assert forall|s: Seq<char>, i: int| #[trigger]
        text::stands_at(s, x, i) && is_free(s, i + x.len()) implies lexes(
        s,
        i,
        seq![k],
        i + x.len(),
    ) by {
        lemma_stands_char(s, x, i, 0);
        if x.len() > 1 {
            lemma_stands_char(s, x, i, 1);
        }
        lemma_starts(s, i);
        assert(tokenizer::kind_at(s, i) == (k, i + x.len()));
        lemma_lexes_one(s, i, k, i + x.len());
    }
}

/// One token at the place where it stands, whatever follows.
pub proof fn alone_token(x: Seq<char>, k: KindView)
    requires
        x.len() > 0,
        k != KindView::Eof,
        !text::is_space(x[0]),
        x[0] != '-',
        x[0] != '/',
        forall|s: Seq<char>, i: int| #[trigger]
            text::stands_at(s, x, i) ==> tokenizer::kind_at(s, i) == (k, i + x.len()),
    ensures
        stands_alone(x, seq![k]),
{
    assert forall|s: Seq<char>, i: int| #[trigger]
        text::stands_at(s, x, i) implies lexes(s, i, seq![k], i + x.len()) by {
        lemma_stands_char(s, x, i, 0);
        lemma_starts(s, i);
        assert(tokenizer::kind_at(s, i) == (k, i + x.len()));
        lemma_lexes_one(s, i, k, i + x.len());
    }
}

pub proof fn lemma_stands_char(s: Seq<char>, x: Seq<char>, i: int, k: int)
    requires
        text::stands_at(s, x, i),
        0 <= k < x.len(),
    ensures
        s[i + k] == x[k],
{
    assert(s.subrange(i, i + x.len())[k] == x[k]);
}

/// What is read where something of a given beginning follows stands alone together with it.
pub proof fn alone_before(
    x: Seq<char>,
    a: Seq<KindView>,
    y: Seq<char>,
    b: Seq<KindView>,
)
    requires
        y.len() > 0,
        stands_alone(y, b),
        forall|s: Seq<char>, i: int| #[trigger]
            text::stands_at(s, x, i) && i + x.len() < s.len() && s[i + x.len()] == y[0] ==> lexes(
                s,
                i,
                a,
                i + x.len(),
            ),
    ensures
        stands_alone(x + y, a + b),
{
    assert forall|s: Seq<char>, i: int| #[trigger]
        text::stands_at(s, x + y, i) implies lexes(s, i, a + b, i + (x + y).len()) by {
        lemma_stands_part(s, x, y, i);
        assert(i + x.len() + y.len() == i + (x + y).len());
        assert(lexes(s, i, a, i + x.len()));
        lemma_lexes_both(s, i, a, i + x.len(), b, i + (x + y).len());
    }
}

/// The same in front of what is read.
pub proof fn reads_before(
    x: Seq<char>,
    a: Seq<KindView>,
    y: Seq<char>,
    b: Seq<KindView>,
)
    requires
        y.len() > 0,
        reads(y, b),
        forall|s: Seq<char>, i: int| #[trigger]
            text::stands_at(s, x, i) && i + x.len() < s.len() && s[i + x.len()] == y[0] ==> lexes(
                s,
                i,
                a,
                i + x.len(),
            ),
    ensures
        reads(x + y, a + b),
{
    assert forall|s: Seq<char>, i: int| #[trigger]
        text::stands_at(s, x + y, i) && is_free(s, i + (x + y).len()) implies lexes(
        s,
        i,
        a + b,
        i + (x + y).len(),
    ) by {
        lemma_stands_part(s, x, y, i);
        assert(i + x.len() + y.len() == i + (x + y).len());
        assert(lexes(s, i, a, i + x.len()));
        lemma_lexes_both(s, i, a, i + x.len(), b, i + (x + y).len());
    }
}

} // verus!
