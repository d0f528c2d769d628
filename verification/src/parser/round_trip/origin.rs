//! What the tokens of every source have in common: how their literals are spelled.
use crate::parser::round_trip::literals;
use crate::parser::round_trip::matching;
use crate::parser::tokenizer;
use crate::parser::tokenizer::{Class, KindView};
use crate::text;
use vstd::prelude::*;

verus! {

proof fn lemma_param_spelled(s: Seq<char>, i: int)
    requires
        0 <= i < s.len(),
    ensures
        matching::is_token(tokenizer::named_param_at(s, i).0),
{
    let e = tokenizer::run_end(s, i + 1, Class::Word);
    tokenizer::lemma_run_end(s, i + 1, Class::Word);
    let name = s.subrange(i + 1, e);
    assert(tokenizer::is_run(name, Class::Word)) by {
        assert forall|k: int| 0 <= k < name.len() implies tokenizer::in_class(
            #[trigger] name[k],
            Class::Word,
        ) by {
            assert(name[k] == s[i + 1 + k]);
        }
    }
}

proof fn lemma_kind_spelled(s: Seq<char>, i: int)
    requires
        0 <= i < s.len(),
    ensures
        matching::is_token(tokenizer::kind_at(s, i).0),
{
    reveal(tokenizer::word_kind);
    let c = s[i];
    if text::is_digit(c) || (c == '.' && tokenizer::digit_at(s, i + 1)) {
        if tokenizer::number_at(s, i).0 is Float {
            literals::lemma_float_cut(s, i);
        }
    } else if c == ':' || c == '@' || c == '$' {
        lemma_param_spelled(s, i);
    }
}

/// The tokens of every source are spelled as tokens are.
pub proof fn lemma_spelled(s: Seq<char>, i: int)
    requires
        0 <= i <= s.len(),
    ensures
        forall|k: int|
            0 <= k < tokenizer::tokens_from(s, i).len() ==> matching::is_token(
                (#[trigger] tokenizer::tokens_from(s, i)[k]).kind,
            ),
    decreases s.len() - i,
{
    let t = tokenizer::tokens_from(s, i);
    let (token, e) = tokenizer::token_at(s, i);
    tokenizer::lemma_token_advances(s, i);
    tokenizer::lemma_trivia_end(s, i);
    match tokenizer::trivia_end(s, i) {
        Some(start) => if start < s.len() {
            lemma_kind_spelled(s, start);
        },
        None => {},
    }
    assert(matching::is_token(token.kind));
    if token.kind != KindView::Eof {
        lemma_spelled(s, e);
        let rest = tokenizer::tokens_from(s, e);
        assert(t == seq![token] + rest);
        assert forall|k: int| 0 <= k < t.len() implies matching::is_token((#[trigger] t[k]).kind) by {
            if k > 0 {
                assert(t[k] == rest[k - 1]);
            }
        }
    }
}

} // verus!
