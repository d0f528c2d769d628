//! How the literals and operators that are printed are read as tokens.
use crate::decimal;
use crate::double::TWO_POW_63;
use crate::parser::ast::{BinaryOp, LiteralView, ParamKindView};
use crate::parser::printer;
use crate::parser::round_trip::lexing;
use crate::parser::round_trip::shape;
use crate::parser::round_trip::spelling;
use crate::parser::tokenizer;
use crate::parser::tokenizer::{Class, Keyword, KindView};
use crate::text;
use vstd::prelude::*;

verus! {

// ---- numbers ---------------------------------------------------------------------------

/// The decimal digits of a number spell it.
pub proof fn lemma_decimal(n: nat)
    ensures
        text::decimal(n).len() > 0,
        tokenizer::is_run(text::decimal(n), Class::Digit),
        text::number(text::decimal(n), 10) == n,
    decreases n,
{
    if n < 10 {
        assert(text::decimal(n).drop_last() =~= seq![]);
        assert(text::number(text::decimal(n).drop_last(), 10) == 0);
    } else {
        lemma_decimal(n / 10);
        let front = text::decimal(n / 10);
        let last = text::digit_char(n % 10);
        let all = text::decimal(n);
        assert(all == front.push(last));
        assert(all.drop_last() =~= front);
        assert forall|i: int| 0 <= i < all.len() implies tokenizer::in_class(
            #[trigger] all[i],
            Class::Digit,
        ) by {
            if i < front.len() {
                assert(all[i] == front[i]);
            }
        }
    }
}

/// Digits where they stand, up to what is free.
proof fn lemma_digits_at(s: Seq<char>, i: int, x: Seq<char>)
    requires
        text::stands_at(s, x, i),
        x.len() > 0,
        tokenizer::is_run(x, Class::Digit),
        lexing::is_free(s, i + x.len()),
    ensures
        tokenizer::run_end(s, i, Class::Digit) == i + x.len(),
        tokenizer::kind_at(s, i) == tokenizer::number_at(s, i),
        tokenizer::number_at(s, i) == if text::number(x, 10) > i64::MAX {
            (KindView::Float(decimal::double_of(x)), i + x.len())
        } else {
            (KindView::Integer(text::number(x, 10) as i64), i + x.len())
        },
        !text::is_space(s[i]),
{
    assert forall|k: int| i <= k < i + x.len() implies tokenizer::in_class(
        #[trigger] s[k],
        Class::Digit,
    ) by {
        lexing::lemma_stands_char(s, x, i, k - i);
        assert(tokenizer::in_class(x[k - i], Class::Digit));
    }
    spelling::lemma_run_to(s, i, i + x.len(), Class::Digit);
    assert(tokenizer::in_class(s[i], Class::Digit));
    if x.len() > 1 {
        assert(tokenizer::in_class(s[i + 1], Class::Digit));
    }
    assert(s.subrange(i, i + x.len()) == x);
}

pub proof fn reads_integer(v: i64)
    requires
        v >= 0,
    ensures
        lexing::reads(text::decimal(v as nat), seq![KindView::Integer(v)]),
{
    let x = text::decimal(v as nat);
    lemma_decimal(v as nat);
    assert(tokenizer::in_class(x[0], Class::Digit));
    assert forall|s: Seq<char>, i: int| #[trigger]
        text::stands_at(s, x, i) && lexing::is_free(s, i + x.len()) implies tokenizer::kind_at(s, i)
        == (KindView::Integer(v), i + x.len()) by {
        lemma_digits_at(s, i, x);
    }
    lexing::reads_token(x, KindView::Integer(v));
}

/// Sixteen to the power of `k`.
pub open spec fn sixteens(k: nat) -> nat
    decreases k,
{
    if k == 0 {
        1
    } else {
        16 * sixteens((k - 1) as nat)
    }
}

/// The hexadecimal digits of a number spell it.
proof fn lemma_hex_digits(n: nat, k: nat)
    requires
        n < sixteens(k),
    ensures
        printer::hex_digits_of(n, k).len() == k,
        tokenizer::is_run(printer::hex_digits_of(n, k), Class::Hex),
        text::number(printer::hex_digits_of(n, k), 16) == n,
    decreases k,
{
    reveal_strlit("");
    let all = printer::hex_digits_of(n, k);
    if k > 0 {
        let j = (k - 1) as nat;
        assert(n / 16 < sixteens(j));
        lemma_hex_digits(n / 16, j);
        let front = printer::hex_digits_of(n / 16, j);
        let last = printer::hex_char((n % 16) as int);
        lemma_hex_char((n % 16) as int);
        assert(all == front.push(last));
        assert(all.drop_last() =~= front);
        assert forall|i: int| 0 <= i < all.len() implies tokenizer::in_class(
            #[trigger] all[i],
            Class::Hex,
        ) by {
            if i < front.len() {
                assert(all[i] == front[i]);
            }
        }
    }
}

/// A negative integer, as the hexadecimal literal of its bits.
pub proof fn reads_negative(v: i64)
    requires
        v < 0,
    ensures
        lexing::reads(printer::integer_text(v), seq![KindView::Integer(v)]),
        printer::integer_text(v).len() > 0,
        printer::integer_text(v)[0] == '0',
{
    reveal_strlit("0x");
    let n = (v as u64) as nat;
    let digits = printer::hex_digits_of(n, 16);
    let x = printer::integer_text(v);
    reveal_with_fuel(sixteens, 17);
    assert(sixteens(16) == 18446744073709551616);
    lemma_hex_digits(n, 16);
    assert((v as u64) as i64 == v) by (bit_vector);
    assert(x == "0x"@ + digits);
    assert forall|s: Seq<char>, i: int| #[trigger]
        text::stands_at(s, x, i) && lexing::is_free(s, i + x.len()) implies tokenizer::kind_at(s, i)
        == (KindView::Integer(v), i + x.len()) by {
        lexing::lemma_stands_part(s, "0x"@, digits, i);
        lexing::lemma_stands_char(s, x, i, 0);
        lexing::lemma_stands_char(s, x, i, 1);
        assert forall|k: int| i + 2 <= k < i + 2 + digits.len() implies tokenizer::in_class(
            #[trigger] s[k],
            Class::Hex,
        ) by {
            lexing::lemma_stands_char(s, digits, i + 2, k - i - 2);
            assert(tokenizer::in_class(digits[k - i - 2], Class::Hex));
        }
        spelling::lemma_run_to(s, i + 2, i + 2 + digits.len(), Class::Hex);
        assert(s.subrange(i + 2, i + 2 + digits.len()) == digits);
    }
    lexing::reads_token(x, KindView::Integer(v));
}

/// A run of digits in `v` ends where it does in `s`, where what follows `v` is no digit.
proof fn lemma_digit_run(s: Seq<char>, i: int, v: Seq<char>, k: int)
    requires
        text::stands_at(s, v, i),
        0 <= k <= v.len(),
        i + v.len() < s.len() ==> !text::is_digit(s[i + v.len()]),
    ensures
        tokenizer::run_end(s, i + k, Class::Digit) == i + tokenizer::run_end(v, k, Class::Digit),
        k <= tokenizer::run_end(v, k, Class::Digit) <= v.len(),
{
    spelling::lemma_run_moves(s, i, v, k, Class::Digit);
    tokenizer::lemma_run_end(s, i + k, Class::Digit);
    tokenizer::lemma_run_end(v, k, Class::Digit);
    if tokenizer::run_end(s, i + k, Class::Digit) > i + v.len() {
        assert(tokenizer::in_class(s[i + v.len()], Class::Digit));
    }
}

/// The exponent at place `k` of `v` ends where it does in `s`.
proof fn lemma_exponent_moves(s: Seq<char>, i: int, v: Seq<char>, k: int)
    requires
        text::stands_at(s, v, i),
        0 <= k <= v.len(),
        lexing::is_free(s, i + v.len()),
    ensures
        tokenizer::exponent_end(s, i + k) == i + tokenizer::exponent_end(v, k),
{
    if k < v.len() {
        lexing::lemma_stands_char(s, v, i, k);
    }
    if k + 1 < v.len() {
        lexing::lemma_stands_char(s, v, i, k + 1);
    }
    if k + 2 < v.len() {
        lexing::lemma_stands_char(s, v, i, k + 2);
    }
    if k + 1 <= v.len() {
        lemma_digit_run(s, i, v, k + 1);
    }
    if k + 2 <= v.len() {
        lemma_digit_run(s, i, v, k + 2);
    }
}

pub proof fn reads_float(bits: u64)
    requires
        shape::is_float(bits),
    ensures
        lexing::reads(decimal::literal_text(bits), seq![KindView::Float(bits)]),
        text::is_digit(decimal::literal_text(bits)[0]),
        decimal::literal_text(bits).len() > 0,
{
    let v = decimal::literal_text(bits);
    let k = KindView::Float(bits);
    lemma_float_text(bits);
    assert forall|s: Seq<char>, i: int| #[trigger]
        text::stands_at(s, v, i) && lexing::is_free(s, i + v.len()) implies tokenizer::kind_at(s, i)
        == (k, i + v.len()) by {
        lemma_float_at(s, i, v, k);
    }
    lexing::reads_token(v, k);
}

/// The literal for a double is spelled as one.
proof fn lemma_float_text(bits: u64)
    requires
        shape::is_float(bits),
    ensures
        shape::is_float_text(decimal::literal_text(bits), KindView::Float(bits)),
{
    let v = decimal::literal_text(bits);
    let n = v.len() as int;
    decimal::law_literal_is_read_back(bits);
    assert(v.subrange(0, n) =~= v);
    if bits == decimal::INFINITE {
        reveal_strlit("1e999");
        assert(v =~= seq!['1', 'e', '9', '9', '9']);
        spelling::lemma_run_to(v, 0, 1, Class::Digit);
        spelling::lemma_run_to(v, 2, 5, Class::Digit);
    } else {
        let (a, c) = decimal::lemma_literal_form(bits);
        let w = a.len() as int;
        assert forall|k: int| 0 <= k < w implies tokenizer::in_class(
            #[trigger] v[k],
            Class::Digit,
        ) by {
            assert(v[k] == a[k]);
        }
        spelling::lemma_run_to(v, 0, w, Class::Digit);
        assert(text::is_digit(v[0]));
        if w > 1 {
            assert(tokenizer::in_class(v[1], Class::Digit));
        }
        match c {
            Some(tail) => {
                assert(v[w] == '.');
                assert forall|k: int| w + 1 <= k < n implies tokenizer::in_class(
                    #[trigger] v[k],
                    Class::Digit,
                ) by {
                    assert(v[k] == tail[k - w - 1]);
                }
                spelling::lemma_run_to(v, w + 1, n, Class::Digit);
            },
            None => {},
        }
    }
}

proof fn lemma_float_at(s: Seq<char>, i: int, v: Seq<char>, k: KindView)
    requires
        shape::is_float_text(v, k),
        text::stands_at(s, v, i),
        lexing::is_free(s, i + v.len()),
    ensures
        tokenizer::kind_at(s, i) == (k, i + v.len()),
{
    lexing::lemma_stands_char(s, v, i, 0);
    if v.len() > 1 {
        lexing::lemma_stands_char(s, v, i, 1);
    }
    lemma_digit_run(s, i, v, 0);
    let whole = tokenizer::run_end(v, 0, Class::Digit);
    if whole < v.len() {
        lexing::lemma_stands_char(s, v, i, whole);
    }
    let point = tokenizer::char_at(v, whole) == Some('.');
    assert(point == (tokenizer::char_at(s, i + whole) == Some('.')));
    if point {
        lemma_digit_run(s, i, v, whole + 1);
    }
    let fraction = if point {
        tokenizer::run_end(v, whole + 1, Class::Digit)
    } else {
        whole
    };
    lemma_exponent_moves(s, i, v, fraction);
    let e = tokenizer::exponent_end(v, fraction);
    assert(e == v.len());
    assert(v.subrange(0, e) =~= v);
    assert(s.subrange(i, i + e) == v);
}

/// A floating-point token has the pattern of a double that is not negative.
pub proof fn lemma_float_cut(s: Seq<char>, i: int)
    requires
        0 <= i < s.len(),
        tokenizer::number_at(s, i).0 is Float,
    ensures
        shape::is_float(tokenizer::number_at(s, i).0->Float_0),
{
    let whole = tokenizer::run_end(s, i, Class::Digit);
    let point = tokenizer::char_at(s, whole) == Some('.');
    let fraction = if point {
        tokenizer::run_end(s, whole + 1, Class::Digit)
    } else {
        whole
    };
    let v = s.subrange(i, tokenizer::exponent_end(s, fraction));
    decimal::lemma_nearest_exists(decimal::significand(v), decimal::scale(v));
}

// ---- strings and blobs -----------------------------------------------------------------

/// A character as it is printed between marks.
pub open spec fn doubled_char(c: char, mark: char) -> Seq<char> {
    if c == mark {
        seq![mark, mark]
    } else {
        seq![c]
    }
}

pub proof fn lemma_doubled_front(c: char, x: Seq<char>, mark: char)
    ensures
        printer::doubled(seq![c] + x, mark) == doubled_char(c, mark) + printer::doubled(x, mark),
    decreases x.len(),
{
    let all = seq![c] + x;
    reveal_strlit("");
    if x.len() == 0 {
        assert(all.drop_last() =~= seq![]);
        assert(printer::doubled(all.drop_last(), mark) =~= seq![]);
        assert(printer::doubled(all, mark) =~= doubled_char(c, mark) + printer::doubled(x, mark));
    } else {
        lemma_doubled_front(c, x.drop_last(), mark);
        assert(all.drop_last() =~= seq![c] + x.drop_last());
        assert(all.last() == x.last());
        assert(printer::doubled(all, mark) =~= doubled_char(c, mark) + printer::doubled(x, mark));
    }
}

/// A doubled text with its closing mark is read as the text.
proof fn lemma_quoted_at(s: Seq<char>, j: int, x: Seq<char>, mark: char)
    requires
        text::stands_at(s, printer::doubled(x, mark) + seq![mark], j),
        tokenizer::char_at(s, j + printer::doubled(x, mark).len() + 1) != Some(mark),
    ensures
        tokenizer::quoted(s, j, mark, true) == Some(
            (x, j + printer::doubled(x, mark).len() + 1),
        ),
    decreases x.len(),
{
    reveal_strlit("");
    let y = printer::doubled(x, mark) + seq![mark];
    lexing::lemma_stands_char(s, y, j, 0);
    if x.len() == 0 {
        assert(printer::doubled(x, mark) =~= seq![]);
        assert(y =~= seq![mark]);
        assert(x =~= seq![]);
    } else {
        let c = x[0];
        let rest = x.skip(1);
        assert(seq![c] + rest =~= x);
        lemma_doubled_front(c, rest, mark);
        let front = doubled_char(c, mark);
        let tail = printer::doubled(rest, mark) + seq![mark];
        assert(y =~= front + tail);
        lexing::lemma_stands_part(s, front, tail, j);
        lexing::lemma_stands_char(s, front, j, 0);
        lemma_quoted_at(s, j + front.len(), rest, mark);
        if c == mark {
            lexing::lemma_stands_char(s, front, j, 1);
        }
        assert(seq![c] + rest == x);
    }
}

pub proof fn reads_string(x: Seq<char>)
    ensures
        lexing::reads("'"@ + printer::doubled(x, '\'') + "'"@, seq![KindView::Str(x)]),
{
    reveal_strlit("'");
    let y = "'"@ + printer::doubled(x, '\'') + "'"@;
    let tail = printer::doubled(x, '\'') + seq!['\''];
    assert(y =~= "'"@ + tail);
    assert("'"@ =~= seq!['\'']);
    assert forall|s: Seq<char>, i: int| #[trigger]
        text::stands_at(s, y, i) && lexing::is_free(s, i + y.len()) implies tokenizer::kind_at(s, i)
        == (KindView::Str(x), i + y.len()) by {
        lexing::lemma_stands_part(s, "'"@, tail, i);
        lexing::lemma_stands_char(s, y, i, 0);
        lemma_quoted_at(s, i + 1, x, '\'');
    }
    lexing::reads_token(y, KindView::Str(x));
}

/// A quoted name where it stands, in front of what is no double quote.
pub proof fn lemma_quoted_name_at(s: Seq<char>, i: int, name: Seq<char>)
    requires
        text::stands_at(s, printer::quoted_text(name), i),
        tokenizer::char_at(s, i + printer::quoted_text(name).len()) != Some('"'),
    ensures
        lexing::lexes(
            s,
            i,
            seq![KindView::Identifier(name)],
            i + printer::quoted_text(name).len(),
        ),
{
    reveal_strlit("\"");
    let y = printer::quoted_text(name);
    let tail = printer::doubled(name, '"') + seq!['"'];
    assert(y =~= "\""@ + tail);
    assert("\""@ =~= seq!['"']);
    lexing::lemma_stands_part(s, "\""@, tail, i);
    lexing::lemma_stands_char(s, y, i, 0);
    lemma_quoted_at(s, i + 1, name, '"');
    lexing::lemma_starts(s, i);
    lexing::lemma_lexes_one(s, i, KindView::Identifier(name), i + y.len());
}

pub proof fn lemma_hex_text(bytes: Seq<u8>)
    ensures
        printer::hex_text(bytes).len() == 2 * bytes.len(),
        tokenizer::all_hex(printer::hex_text(bytes)),
        tokenizer::hex_bytes(printer::hex_text(bytes)) == bytes,
    decreases bytes.len(),
{
    reveal_strlit("");
    let all = printer::hex_text(bytes);
    if bytes.len() == 0 {
        assert(tokenizer::hex_bytes(all) =~= bytes);
    } else {
        let front = printer::hex_text(bytes.drop_last());
        lemma_hex_text(bytes.drop_last());
        let b: int = bytes.last() as int;
        let high = printer::hex_char(b / 16);
        let low = printer::hex_char(b % 16);
        assert(all == front.push(high).push(low));
        lemma_hex_char(b / 16);
        lemma_hex_char(b % 16);
        assert forall|k: int| 0 <= k < all.len() implies text::is_hex_digit(#[trigger] all[k]) by {
            if k < front.len() {
                assert(all[k] == front[k]);
            }
        }
        let read = tokenizer::hex_bytes(all);
        assert(read.len() == bytes.len());
        assert forall|k: int| 0 <= k < bytes.len() implies #[trigger] read[k] == bytes[k] by {
            if k < bytes.len() - 1 {
                assert(all[2 * k] == front[2 * k]);
                assert(all[2 * k + 1] == front[2 * k + 1]);
                assert(tokenizer::hex_bytes(front)[k] == bytes.drop_last()[k]);
            } else {
                assert(all[2 * k] == high);
                assert(all[2 * k + 1] == low);
                assert(b / 16 * 16 + b % 16 == b);
            }
        }
        assert(read =~= bytes);
    }
}

proof fn lemma_hex_char(n: int)
    requires
        0 <= n < 16,
    ensures
        text::is_hex_digit(printer::hex_char(n)),
        text::digit_value(printer::hex_char(n)) == n,
        printer::hex_char(n) != '\'',
{
}

/// A text without the closing mark, in front of it.
proof fn lemma_unescaped_at(s: Seq<char>, j: int, y: Seq<char>, close: char)
    requires
        text::stands_at(s, y, j),
        j + y.len() < s.len(),
        s[j + y.len()] == close,
        forall|k: int| 0 <= k < y.len() ==> #[trigger] y[k] != close,
    ensures
        tokenizer::quoted(s, j, close, false) == Some((y, j + y.len() + 1)),
    decreases y.len(),
{
    if y.len() == 0 {
        assert(y =~= seq![]);
    } else {
        lexing::lemma_stands_char(s, y, j, 0);
        let rest = y.skip(1);
        assert(seq![y[0]] + rest =~= y);
        lexing::lemma_stands_part(s, seq![y[0]], rest, j);
        assert forall|k: int| 0 <= k < rest.len() implies #[trigger] rest[k] != close by {
            assert(rest[k] == y[k + 1]);
        }
        lemma_unescaped_at(s, j + 1, rest, close);
    }
}

pub proof fn reads_blob(bytes: Seq<u8>)
    ensures
        lexing::reads("X'"@ + printer::hex_text(bytes) + "'"@, seq![KindView::Blob(bytes)]),
{
    reveal_strlit("X'");
    reveal_strlit("'");
    let hex = printer::hex_text(bytes);
    let y = "X'"@ + hex + "'"@;
    lemma_hex_text(bytes);
    assert forall|s: Seq<char>, i: int| #[trigger]
        text::stands_at(s, y, i) && lexing::is_free(s, i + y.len()) implies tokenizer::kind_at(s, i)
        == (KindView::Blob(bytes), i + y.len()) by {
        lexing::lemma_stands_part(s, "X'"@ + hex, "'"@, i);
        lexing::lemma_stands_part(s, "X'"@, hex, i);
        lexing::lemma_stands_char(s, y, i, 0);
        lexing::lemma_stands_char(s, y, i, 1);
        assert forall|k: int| 0 <= k < hex.len() implies #[trigger] hex[k] != '\'' by {
            assert(text::is_hex_digit(hex[k]));
        }
        lemma_unescaped_at(s, i + 2, hex, '\'');
    }
    lexing::reads_token(y, KindView::Blob(bytes));
}

pub proof fn reads_token_literal(l: LiteralView)
    requires
        l.is_spelled(),
    ensures
        lexing::reads(l.token_text(), seq![l.token()]),
        l.token_text().len() > 0,
        l.token_text()[0] != '-',
        l.token_text()[0] != '>',
{
    match l {
        LiteralView::Integer(v) => if v >= 0 {
            lemma_decimal(v as nat);
            assert(tokenizer::in_class(text::decimal(v as nat)[0], Class::Digit));
            reads_integer(v);
        } else {
            reveal_strlit("0x");
            reads_negative(v);
        },
        LiteralView::Float(v) => {
            reads_float(v);
        },
        LiteralView::Str(x) => {
            reveal_strlit("'");
            reads_string(x);
        },
        LiteralView::Blob(bytes) => {
            reveal_strlit("X'");
            reads_blob(bytes);
        },
        LiteralView::Null => {
            reveal_strlit("NULL");
            spelling::reads_constants();
        },
        LiteralView::True => {
            reveal_strlit("TRUE");
            spelling::reads_constants();
        },
        LiteralView::False => {
            reveal_strlit("FALSE");
            spelling::reads_constants();
        },
    }
}

pub proof fn reads_literal(l: LiteralView)
    requires
        l.is_spelled(),
    ensures
        lexing::reads(l.text(), l.kinds()),
        l.text().len() > 0,
        l.kinds().len() > 0,
        l.text()[0] == '-' ==> l.kinds()[0] == KindView::Minus,
        l.text()[0] != '>',
{
    if l == LiteralView::Integer(i64::MIN) {
        let n: nat = 0x8000_0000_0000_0000;
        let x = text::decimal(n);
        let k = KindView::Float(TWO_POW_63);
        lemma_decimal(n);
        decimal::lemma_two_pow_63();
        assert(tokenizer::in_class(x[0], Class::Digit));
        assert forall|s: Seq<char>, i: int| #[trigger]
            text::stands_at(s, x, i) && lexing::is_free(s, i + x.len()) implies tokenizer::kind_at(
            s,
            i,
        ) == (k, i + x.len()) by {
            lemma_digits_at(s, i, x);
        }
        lexing::reads_token(x, k);
        reads_minus(x, seq![k]);
        reveal_strlit("-");
        assert("-"@ + x =~= seq!['-'] + x);
        assert(l.kinds()[0] == KindView::Minus);
    } else {
        reads_token_literal(l);
    }
}

/// A minus sign in front of what does not turn it into something else.
pub proof fn reads_minus(y: Seq<char>, b: Seq<KindView>)
    requires
        lexing::reads(y, b),
        y.len() > 0,
        y[0] != '-',
        y[0] != '>',
    ensures
        lexing::reads("-"@ + y, seq![KindView::Minus] + b),
{
    reveal_strlit("-");
    let x = "-"@;
    assert forall|s: Seq<char>, i: int| #[trigger]
        text::stands_at(s, x, i) && i + x.len() < s.len() && s[i + x.len()] == y[0] implies
        lexing::lexes(s, i, seq![KindView::Minus], i + x.len()) by {
        lexing::lemma_stands_char(s, x, i, 0);
        lexing::lemma_starts(s, i);
        lexing::lemma_lexes_one(s, i, KindView::Minus, i + 1);
    }
    lexing::reads_before(x, seq![KindView::Minus], y, b);
}

// ---- parameters ------------------------------------------------------------------------

pub proof fn reads_param(p: ParamKindView)
    requires
        shape::is_param(shape::param_token(p)),
    ensures
        lexing::reads(p.text(), seq![KindView::Param(shape::param_token(p))]),
        p.text().len() > 0,
        p.text()[0] != '-',
        p.text()[0] != '>',
{
    let x = p.text();
    let k = KindView::Param(shape::param_token(p));
    reveal_strlit("?");
    reveal_strlit(":");
    reveal_strlit("@");
    reveal_strlit("$");
    assert forall|s: Seq<char>, i: int| #[trigger]
        text::stands_at(s, x, i) && lexing::is_free(s, i + x.len()) implies tokenizer::kind_at(s, i)
        == (k, i + x.len()) by {
        lexing::lemma_stands_char(s, x, i, 0);
        match p {
            ParamKindView::Anonymous => {
                assert(s.subrange(i + 1, i + 1) =~= seq![]);
                spelling::lemma_run_to(s, i + 1, i + 1, Class::Digit);
            },
            ParamKindView::Numbered(n) => {
                let y = text::decimal(n as nat);
                lemma_decimal(n as nat);
                lexing::lemma_stands_part(s, "?"@, y, i);
                lemma_digits_at(s, i + 1, y);
            },
            ParamKindView::Colon(name) => lemma_param_name(s, i, ":"@, name),
            ParamKindView::At(name) => lemma_param_name(s, i, "@"@, name),
            ParamKindView::Dollar(name) => lemma_param_name(s, i, "$"@, name),
        }
    }
    lexing::reads_token(x, k);
}

proof fn lemma_param_name(s: Seq<char>, i: int, mark: Seq<char>, name: Seq<char>)
    requires
        mark.len() == 1,
        text::stands_at(s, mark + name, i),
        lexing::is_free(s, i + 1 + name.len()),
        tokenizer::is_run(name, Class::Word),
    ensures
        tokenizer::run_end(s, i + 1, Class::Word) == i + 1 + name.len(),
        s.subrange(i + 1, i + 1 + name.len()) == name,
{
    lexing::lemma_stands_part(s, mark, name, i);
    assert forall|k: int| i + 1 <= k < i + 1 + name.len() implies tokenizer::in_class(
        #[trigger] s[k],
        Class::Word,
    ) by {
        lexing::lemma_stands_char(s, name, i + 1, k - i - 1);
        assert(tokenizer::in_class(name[k - i - 1], Class::Word));
    }
    spelling::lemma_run_to(s, i + 1, i + 1 + name.len(), Class::Word);
}

// ---- operators and punctuation -----------------------------------------------------------

/// An operator of one character, in front of what is free.
proof fn reads_sign(x: Seq<char>, k: KindView)
    requires
        x.len() == 1,
        (x[0] == '=' && k == KindView::Eq) || (x[0] == '<' && k == KindView::Lt) || (x[0] == '>'
            && k == KindView::Gt) || (x[0] == '&' && k == KindView::BitAnd) || (x[0] == '|' && k
            == KindView::BitOr) || (x[0] == '+' && k == KindView::Plus) || (x[0] == '-' && k
            == KindView::Minus) || (x[0] == '*' && k == KindView::Star) || (x[0] == '/' && k
            == KindView::Slash) || (x[0] == '%' && k == KindView::Percent),
    ensures
        lexing::reads(x, seq![k]),
{
    assert forall|s: Seq<char>, i: int| #[trigger]
        text::stands_at(s, x, i) && lexing::is_free(s, i + x.len()) implies lexing::lexes(
        s,
        i,
        seq![k],
        i + x.len(),
    ) by {
        lexing::lemma_stands_char(s, x, i, 0);
        lexing::lemma_starts(s, i);
        lexing::lemma_lexes_one(s, i, k, i + 1);
    }
    lexing::lemma_reads_by(x, seq![k]);
}

/// An operator of two characters.
proof fn reads_signs(x: Seq<char>, k: KindView)
    requires
        x.len() == 2,
        (x[0] == '!' && x[1] == '=' && k == KindView::Ne) || (x[0] == '<' && x[1] == '=' && k
            == KindView::Le) || (x[0] == '>' && x[1] == '=' && k == KindView::Ge) || (x[0] == '<'
            && x[1] == '<' && k == KindView::Shl) || (x[0] == '>' && x[1] == '>' && k
            == KindView::Shr) || (x[0] == '|' && x[1] == '|' && k == KindView::Concat),
    ensures
        lexing::reads(x, seq![k]),
{
    assert forall|s: Seq<char>, i: int| #[trigger]
        text::stands_at(s, x, i) && lexing::is_free(s, i + x.len()) implies tokenizer::kind_at(s, i)
        == (k, i + x.len()) by {
        lexing::lemma_stands_char(s, x, i, 0);
        lexing::lemma_stands_char(s, x, i, 1);
    }
    lexing::reads_token(x, k);
}

pub proof fn reads_operator(op: BinaryOp)
    ensures
        lexing::reads(printer::binary_op_text(op), seq![shape::binary_kind(op)]),
{
    let x = printer::binary_op_text(op);
    let k = shape::binary_kind(op);
    match op {
        BinaryOp::Or => {
            reveal(Keyword::name);
            spelling::reads_keyword(Keyword::OR);
        },
        BinaryOp::And => {
            reveal(Keyword::name);
            spelling::reads_keyword(Keyword::AND);
        },
        BinaryOp::Eq => {
            reveal_strlit("=");
            reads_sign(x, k);
        },
        BinaryOp::Ne => {
            reveal_strlit("!=");
            reads_signs(x, k);
        },
        BinaryOp::Lt => {
            reveal_strlit("<");
            reads_sign(x, k);
        },
        BinaryOp::Le => {
            reveal_strlit("<=");
            reads_signs(x, k);
        },
        BinaryOp::Gt => {
            reveal_strlit(">");
            reads_sign(x, k);
        },
        BinaryOp::Ge => {
            reveal_strlit(">=");
            reads_signs(x, k);
        },
        BinaryOp::BitAnd => {
            reveal_strlit("&");
            reads_sign(x, k);
        },
        BinaryOp::BitOr => {
            reveal_strlit("|");
            reads_sign(x, k);
        },
        BinaryOp::Shl => {
            reveal_strlit("<<");
            reads_signs(x, k);
        },
        BinaryOp::Shr => {
            reveal_strlit(">>");
            reads_signs(x, k);
        },
        BinaryOp::Add => {
            reveal_strlit("+");
            reads_sign(x, k);
        },
        BinaryOp::Sub => {
            reveal_strlit("-");
            reads_sign(x, k);
        },
        BinaryOp::Mul => {
            reveal_strlit("*");
            reads_sign(x, k);
        },
        BinaryOp::Div => {
            reveal_strlit("/");
            reads_sign(x, k);
        },
        BinaryOp::Mod => {
            reveal_strlit("%");
            reads_sign(x, k);
        },
        BinaryOp::Concat => {
            reveal_strlit("||");
            reads_signs(x, k);
        },
    }
}

/// The signs that nothing behind them changes.
proof fn alone_sign(x: Seq<char>, k: KindView)
    requires
        x.len() == 1,
        (x[0] == '(' && k == KindView::LParen) || (x[0] == ')' && k == KindView::RParen) || (x[0]
            == ',' && k == KindView::Comma) || (x[0] == '+' && k == KindView::Plus) || (x[0] == '~'
            && k == KindView::BitNot) || (x[0] == '*' && k == KindView::Star),
    ensures
        lexing::stands_alone(x, seq![k]),
{
    assert forall|s: Seq<char>, i: int| #[trigger] text::stands_at(s, x, i) implies
        tokenizer::kind_at(s, i) == (k, i + x.len()) by {
        lexing::lemma_stands_char(s, x, i, 0);
    }
    lexing::alone_token(x, k);
}

pub proof fn lemma_signs()
    ensures
        lexing::stands_alone("("@, seq![KindView::LParen]),
        lexing::stands_alone(")"@, seq![KindView::RParen]),
        lexing::stands_alone(","@, seq![KindView::Comma]),
        lexing::stands_alone("+"@, seq![KindView::Plus]),
        lexing::stands_alone("~"@, seq![KindView::BitNot]),
        lexing::stands_alone("*"@, seq![KindView::Star]),
        lexing::reads(")"@, seq![KindView::RParen]),
        lexing::reads("*"@, seq![KindView::Star]),
{
    reveal_strlit("(");
    reveal_strlit(")");
    reveal_strlit(",");
    reveal_strlit("+");
    reveal_strlit("~");
    reveal_strlit("*");
    alone_sign("("@, KindView::LParen);
    alone_sign(")"@, KindView::RParen);
    alone_sign(","@, KindView::Comma);
    alone_sign("+"@, KindView::Plus);
    alone_sign("~"@, KindView::BitNot);
    alone_sign("*"@, KindView::Star);
    lexing::reads_of_alone(")"@, seq![KindView::RParen]);
    lexing::reads_of_alone("*"@, seq![KindView::Star]);
}

} // verus!
