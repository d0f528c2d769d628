//! SQL tokenizer.
//!
//! Converts SQL source text into a stream of [`Token`]s, each carrying a [`Span`] for
//! error reporting. Malformed input never panics: it produces a [`TokenKind::Error`]
//! token and scanning continues.
use crate::decimal;
pub use crate::parser::keyword::Keyword;
use crate::parser::keyword;
use crate::text;
use vstd::prelude::*;

verus! {

/// Source location of a token: 1-based line/column of its first character, plus the
/// byte range `[offset, offset + len)` in the original source.
#[derive(Debug, Clone, Copy, PartialEq, Eq, Structural)]
pub struct Span {
    /// 1-based line number of the token's first character.
    pub line: u32,
    /// 1-based column number of the token's first character.
    pub column: u32,
    /// Byte offset of the token's first character in the source.
    pub offset: u32,
    /// Length in bytes of the token's source text.
    pub len: u32,
}

/// A single lexed unit of SQL source: its [`TokenKind`] plus the [`Span`] it occupies in
/// the original text.
#[derive(Debug, Clone, PartialEq)]
pub struct Token {
    /// The kind of token and any associated literal value.
    pub kind: TokenKind,
    /// Source location this token was scanned from.
    pub span: Span,
}

/// A `?NNN`/`:name`/`@name`/`$name` bind parameter.
#[derive(Debug, Clone, PartialEq, Eq)]
pub enum Param {
    /// Bare `?`.
    Anonymous,
    /// `?NNN`.
    Numbered(u32),
    /// `:name`.
    Colon(String),
    /// `@name`.
    At(String),
    /// `$name`.
    Dollar(String),
}

/// The kind of a scanned [`Token`], carrying any literal value it holds.
#[derive(Debug, Clone, PartialEq)]
pub enum TokenKind {
    /// Integer literal.
    Integer(i64),
    /// Floating-point literal, by the bit pattern of its double.
    Float(u64),
    /// String literal (quotes stripped, escapes resolved).
    String(String),
    /// `X'...'` blob literal, decoded to raw bytes.
    Blob(Vec<u8>),
    /// The `NULL` literal.
    Null,
    /// The `TRUE` literal.
    True,
    /// The `FALSE` literal.
    False,
    /// An unquoted or quoted identifier (table/column/etc. name).
    Identifier(String),
    /// A reserved SQL keyword.
    Keyword(Keyword),
    /// A bind parameter (`?`, `?NNN`, `:name`, `@name`, `$name`).
    Param(Param),
    /// `*`
    Star,
    /// `,`
    Comma,
    /// `;`
    Semicolon,
    /// `(`
    LParen,
    /// `)`
    RParen,
    /// `.`
    Dot,
    /// `+`
    Plus,
    /// `-`
    Minus,
    /// `/`
    Slash,
    /// `%`
    Percent,
    /// `=` or `==`
    Eq,
    /// `!=` or `<>`
    Ne,
    /// `<`
    Lt,
    /// `<=`
    Le,
    /// `>`
    Gt,
    /// `>=`
    Ge,
    /// `||`
    Concat,
    /// `->`
    Arrow,
    /// `->>`
    ArrowArrow,
    /// `&`
    BitAnd,
    /// `|`
    BitOr,
    /// `~`
    BitNot,
    /// `<<`
    Shl,
    /// `>>`
    Shr,
    /// Malformed input; `String` is a human-readable reason.
    Error(String),
    /// End of input.
    Eof,
}

/// What a [`Param`] stands for: its sigil and the text behind it.
#[verifier::ext_equal]
pub enum ParamView {
    Anonymous,
    Numbered(u32),
    Colon(Seq<char>),
    At(Seq<char>),
    Dollar(Seq<char>),
}

/// What a [`TokenKind`] stands for.
#[verifier::ext_equal]
pub enum KindView {
    Integer(i64),
    Float(u64),
    Str(Seq<char>),
    Blob(Seq<u8>),
    Null,
    True,
    False,
    Identifier(Seq<char>),
    Keyword(Keyword),
    Param(ParamView),
    Star,
    Comma,
    Semicolon,
    LParen,
    RParen,
    Dot,
    Plus,
    Minus,
    Slash,
    Percent,
    Eq,
    Ne,
    Lt,
    Le,
    Gt,
    Ge,
    Concat,
    Arrow,
    ArrowArrow,
    BitAnd,
    BitOr,
    BitNot,
    Shl,
    Shr,
    Error(Seq<char>),
    Eof,
}

/// What a [`Token`] stands for.
#[verifier::ext_equal]
pub struct TokenView {
    pub kind: KindView,
    pub span: Span,
}

impl Param {
    pub open spec fn view(&self) -> ParamView {
        match self {
            Param::Anonymous => ParamView::Anonymous,
            Param::Numbered(n) => ParamView::Numbered(*n),
            Param::Colon(s) => ParamView::Colon(s@),
            Param::At(s) => ParamView::At(s@),
            Param::Dollar(s) => ParamView::Dollar(s@),
        }
    }
}

impl TokenKind {
    pub open spec fn view(&self) -> KindView {
        match self {
            TokenKind::Integer(n) => KindView::Integer(*n),
            TokenKind::Float(bits) => KindView::Float(*bits),
            TokenKind::String(s) => KindView::Str(s@),
            TokenKind::Blob(b) => KindView::Blob(b@),
            TokenKind::Null => KindView::Null,
            TokenKind::True => KindView::True,
            TokenKind::False => KindView::False,
            TokenKind::Identifier(s) => KindView::Identifier(s@),
            TokenKind::Keyword(k) => KindView::Keyword(*k),
            TokenKind::Param(p) => KindView::Param(p@),
            TokenKind::Star => KindView::Star,
            TokenKind::Comma => KindView::Comma,
            TokenKind::Semicolon => KindView::Semicolon,
            TokenKind::LParen => KindView::LParen,
            TokenKind::RParen => KindView::RParen,
            TokenKind::Dot => KindView::Dot,
            TokenKind::Plus => KindView::Plus,
            TokenKind::Minus => KindView::Minus,
            TokenKind::Slash => KindView::Slash,
            TokenKind::Percent => KindView::Percent,
            TokenKind::Eq => KindView::Eq,
            TokenKind::Ne => KindView::Ne,
            TokenKind::Lt => KindView::Lt,
            TokenKind::Le => KindView::Le,
            TokenKind::Gt => KindView::Gt,
            TokenKind::Ge => KindView::Ge,
            TokenKind::Concat => KindView::Concat,
            TokenKind::Arrow => KindView::Arrow,
            TokenKind::ArrowArrow => KindView::ArrowArrow,
            TokenKind::BitAnd => KindView::BitAnd,
            TokenKind::BitOr => KindView::BitOr,
            TokenKind::BitNot => KindView::BitNot,
            TokenKind::Shl => KindView::Shl,
            TokenKind::Shr => KindView::Shr,
            TokenKind::Error(s) => KindView::Error(s@),
            TokenKind::Eof => KindView::Eof,
        }
    }
}

impl Token {
    pub open spec fn view(&self) -> TokenView {
        TokenView { kind: self.kind@, span: self.span }
    }
}

/// The tokens of a list, each as what it stands for.
pub open spec fn token_views(tokens: Seq<Token>) -> Seq<TokenView> {
    tokens.map_values(|t: Token| t@)
}

// ---- places in the source ----------------------------------------------

/// The character at place `i`, if the source reaches that far.
pub open spec fn char_at(s: Seq<char>, i: int) -> Option<char> {
    if 0 <= i < s.len() {
        Some(s[i])
    } else {
        None
    }
}

/// How many bytes UTF-8 takes for `c`.
pub open spec fn width(c: char) -> nat {
    if (c as u32) < 0x80 {
        1
    } else if (c as u32) < 0x800 {
        2
    } else if (c as u32) < 0x10000 {
        3
    } else {
        4
    }
}

/// How many bytes UTF-8 takes for `s`.
pub open spec fn byte_len(s: Seq<char>) -> nat
    decreases s.len(),
{
    if s.len() == 0 {
        0
    } else {
        byte_len(s.drop_last()) + width(s.last())
    }
}

/// How many line feeds `s` holds.
pub open spec fn newlines(s: Seq<char>) -> nat
    decreases s.len(),
{
    if s.len() == 0 {
        0
    } else if s.last() == '\n' {
        newlines(s.drop_last()) + 1
    } else {
        newlines(s.drop_last())
    }
}

/// How many characters follow the last line feed of `s`.
pub open spec fn last_line_len(s: Seq<char>) -> nat
    decreases s.len(),
{
    if s.len() == 0 || s.last() == '\n' {
        0
    } else {
        last_line_len(s.drop_last()) + 1
    }
}

/// `n`, or the largest 32-bit number where `n` is larger.
pub open spec fn capped(n: nat) -> u32 {
    if n <= u32::MAX {
        n as u32
    } else {
        u32::MAX
    }
}

/// The 1-based line of place `i`.
pub open spec fn line_at(s: Seq<char>, i: int) -> u32 {
    capped(1 + newlines(s.take(i)))
}

/// The 1-based column of place `i`.
pub open spec fn column_at(s: Seq<char>, i: int) -> u32 {
    capped(1 + last_line_len(s.take(i)))
}

/// The byte offset of place `i`, in 32 bits.
pub open spec fn offset_at(s: Seq<char>, i: int) -> u32 {
    (byte_len(s.take(i)) % 0x1_0000_0000) as u32
}

/// The span from place `a` to place `b`.
pub open spec fn span_between(s: Seq<char>, a: int, b: int) -> Span {
    Span {
        line: line_at(s, a),
        column: column_at(s, a),
        offset: offset_at(s, a),
        len: if offset_at(s, b) >= offset_at(s, a) {
            (offset_at(s, b) - offset_at(s, a)) as u32
        } else {
            0
        },
    }
}

// ---- what stands at a place --------------------------------------------

/// The sorts of characters that tokens are made of runs of.
#[derive(Debug, Clone, Copy, PartialEq, Eq, Structural)]
pub enum Class {
    Digit,
    Hex,
    Word,
}

/// Whether an unquoted word can begin with `c`.
pub open spec fn starts_word(c: char) -> bool {
    c == '_' || text::is_letter(c)
}

/// Whether `c` is of the class.
pub open spec fn in_class(c: char, class: Class) -> bool {
    match class {
        Class::Digit => text::is_digit(c),
        Class::Hex => text::is_hex_digit(c),
        Class::Word => c == '_' || text::is_letter_or_digit(c),
    }
}

/// Where the run of characters of the class that begins at `i` ends.
pub open spec fn run_end(s: Seq<char>, i: int, class: Class) -> int
    decreases s.len() - i,
{
    if 0 <= i < s.len() && in_class(s[i], class) {
        run_end(s, i + 1, class)
    } else {
        i
    }
}

/// The place of the first line feed from `i` on, or the end of the source.
pub open spec fn line_end(s: Seq<char>, i: int) -> int
    decreases s.len() - i,
{
    if 0 <= i < s.len() && s[i] != '\n' {
        line_end(s, i + 1)
    } else {
        i
    }
}

/// The place behind the first `*/` from `i` on, if there is one.
pub open spec fn comment_end(s: Seq<char>, i: int) -> Option<int>
    decreases s.len() - i,
{
    if i < 0 || i >= s.len() {
        None
    } else if s[i] == '*' && char_at(s, i + 1) == Some('/') {
        Some(i + 2)
    } else {
        comment_end(s, i + 1)
    }
}

/// What the white space and comments at `i` lead to: the place of the next token, or
/// `None` where a block comment runs to the end of the source.
pub open spec fn trivia_end(s: Seq<char>, i: int) -> Option<int>
    decreases s.len() - i,
{
    if i < 0 || i >= s.len() {
        Some(i)
    } else if text::is_space(s[i]) {
        trivia_end(s, i + 1)
    } else if s[i] == '-' && char_at(s, i + 1) == Some('-') {
        proof {
            lemma_line_end(s, i + 2);
        }
        trivia_end(s, line_end(s, i + 2))
    } else if s[i] == '/' && char_at(s, i + 1) == Some('*') {
        proof {
            lemma_comment_end(s, i + 2);
        }
        match comment_end(s, i + 2) {
            Some(e) => trivia_end(s, e),
            None => None,
        }
    } else {
        Some(i)
    }
}

/// The content of a quoted text from `i` up to its closing quote, and the place behind
/// that quote. Where `doubling` holds, a doubled quote stands for the quote itself.
pub open spec fn quoted(s: Seq<char>, i: int, close: char, doubling: bool) -> Option<
    (Seq<char>, int),
>
    decreases s.len() - i,
{
    if i < 0 || i >= s.len() {
        None
    } else if s[i] != close {
        match quoted(s, i + 1, close, doubling) {
            Some((rest, e)) => Some((seq![s[i]] + rest, e)),
            None => None,
        }
    } else if doubling && char_at(s, i + 1) == Some(close) {
        match quoted(s, i + 2, close, doubling) {
            Some((rest, e)) => Some((seq![close] + rest, e)),
            None => None,
        }
    } else {
        Some((seq![], i + 1))
    }
}

/// The bytes that pairs of hexadecimal digits spell.
pub open spec fn hex_bytes(s: Seq<char>) -> Seq<u8> {
    Seq::new(
        s.len() / 2,
        |k: int| (text::digit_value(s[2 * k]) * 16 + text::digit_value(s[2 * k + 1])) as u8,
    )
}

pub open spec fn all_hex(s: Seq<char>) -> bool {
    forall|k: int| 0 <= k < s.len() ==> text::is_hex_digit(#[trigger] s[k])
}

/// How an unquoted word is classed: as a keyword, a literal, or an identifier.
#[verifier::opaque]
pub open spec fn word_kind(word: Seq<char>) -> KindView {
    let upper = text::upper(word);
    if upper == "NULL"@ {
        KindView::Null
    } else if upper == "TRUE"@ {
        KindView::True
    } else if upper == "FALSE"@ {
        KindView::False
    } else {
        match keyword::keyword_named(upper) {
            Some(k) => KindView::Keyword(k),
            None => KindView::Identifier(word),
        }
    }
}

/// Whether `s` is a run of characters of the class.
pub open spec fn is_run(s: Seq<char>, class: Class) -> bool {
    forall|i: int| 0 <= i < s.len() ==> in_class(#[trigger] s[i], class)
}

/// Whether `s` can stand as an unquoted word.
pub open spec fn is_word(s: Seq<char>) -> bool {
    s.len() > 0 && starts_word(s[0]) && !text::is_space(s[0]) && is_run(s, Class::Word)
}

/// Whether a name is read as that name where it stands without quotes: it is a word, and
/// neither a keyword nor a literal.
pub open spec fn is_plain(name: Seq<char>) -> bool {
    is_word(name) && word_kind(name) == KindView::Identifier(name)
}

/// The keyword whose name a text is.
pub open spec fn keyword_of(name: Seq<char>) -> Option<Keyword> {
    match word_kind(name) {
        KindView::Keyword(k) => if is_word(name) && k.name() == name {
            Some(k)
        } else {
            None
        },
        _ => None,
    }
}

/// The word at `i`.
pub open spec fn word_at(s: Seq<char>, i: int) -> (KindView, int) {
    let e = run_end(s, i, Class::Word);
    (word_kind(s.subrange(i, e)), e)
}

/// The blob literal at `i`, or the word at `i` where the `x` is not followed by a quote.
pub open spec fn blob_at(s: Seq<char>, i: int) -> (KindView, int) {
    if char_at(s, i + 1) == Some('\'') {
        match quoted(s, i + 2, '\'', false) {
            None => (
                KindView::Error("unterminated blob literal starting with "@ + seq![s[i], '\'']),
                s.len() as int,
            ),
            Some((hex, e)) => if hex.len() % 2 == 0 && all_hex(hex) {
                (KindView::Blob(hex_bytes(hex)), e)
            } else {
                (
                    KindView::Error(
                        "invalid blob literal hex digits: "@ + text::debug_of_text(hex),
                    ),
                    e,
                )
            },
        }
    } else {
        word_at(s, i)
    }
}

/// The string literal whose opening quote stands at `i`.
pub open spec fn string_at(s: Seq<char>, i: int) -> (KindView, int) {
    match quoted(s, i + 1, '\'', true) {
        None => (KindView::Error("unterminated string literal"@), s.len() as int),
        Some((value, e)) => (KindView::Str(value), e),
    }
}

/// The quoted identifier whose opening delimiter stands at `i`. `"` and the backtick
/// escape their closing delimiter by doubling it; `[...]` has no escape.
pub open spec fn quoted_identifier_at(s: Seq<char>, i: int, close: char) -> (KindView, int) {
    match quoted(s, i + 1, close, s[i] == close) {
        None => (
            KindView::Error(
                "unterminated quoted identifier starting with "@ + text::debug_of_char(s[i]),
            ),
            s.len() as int,
        ),
        Some((value, e)) => (KindView::Identifier(value), e),
    }
}

/// The `?` or `?NNN` at `i`.
pub open spec fn question_at(s: Seq<char>, i: int) -> (KindView, int) {
    let e = run_end(s, i + 1, Class::Digit);
    let digits = s.subrange(i + 1, e);
    let n = text::number(digits, 10);
    if e == i + 1 {
        (KindView::Param(ParamView::Anonymous), e)
    } else if n <= u32::MAX {
        (KindView::Param(ParamView::Numbered(n as u32)), e)
    } else {
        (KindView::Error("parameter number out of range: "@ + digits), e)
    }
}

/// The `:name`, `@name` or `$name` at `i`.
pub open spec fn named_param_at(s: Seq<char>, i: int) -> (KindView, int) {
    let e = run_end(s, i + 1, Class::Word);
    let name = s.subrange(i + 1, e);
    if e == i + 1 {
        (KindView::Error("expected parameter name after "@ + text::debug_of_char(s[i])), e)
    } else if s[i] == ':' {
        (KindView::Param(ParamView::Colon(name)), e)
    } else if s[i] == '@' {
        (KindView::Param(ParamView::At(name)), e)
    } else {
        (KindView::Param(ParamView::Dollar(name)), e)
    }
}

pub open spec fn digit_at(s: Seq<char>, i: int) -> bool {
    0 <= i < s.len() && text::is_digit(s[i])
}

/// Where the exponent that begins at `i` ends; `i` itself where there is none.
pub open spec fn exponent_end(s: Seq<char>, i: int) -> int {
    if char_at(s, i) == Some('e') || char_at(s, i) == Some('E') {
        let d = if char_at(s, i + 1) == Some('+') || char_at(s, i + 1) == Some('-') {
            i + 2
        } else {
            i + 1
        };
        if digit_at(s, d) {
            run_end(s, d, Class::Digit)
        } else {
            i
        }
    } else {
        i
    }
}

/// The number literal at `i`. Hexadecimal integers have 64 bits and are read as two's
/// complement; a decimal integer beyond that range becomes a floating-point literal.
pub open spec fn number_at(s: Seq<char>, i: int) -> (KindView, int) {
    if s[i] == '0' && (char_at(s, i + 1) == Some('x') || char_at(s, i + 1) == Some('X')) {
        let e = run_end(s, i + 2, Class::Hex);
        let n = text::number(s.subrange(i + 2, e), 16);
        if e == i + 2 {
            (KindView::Error("hex literal has no digits"@), e)
        } else if n <= u64::MAX {
            (KindView::Integer((n as u64) as i64), e)
        } else {
            (
                KindView::Error("invalid hex literal: number too large to fit in target type"@),
                e,
            )
        }
    } else {
        let whole = run_end(s, i, Class::Digit);
        let point = char_at(s, whole) == Some('.');
        let fraction = if point {
            run_end(s, whole + 1, Class::Digit)
        } else {
            whole
        };
        let e = exponent_end(s, fraction);
        let literal = s.subrange(i, e);
        let n = text::number(literal, 10);
        if point || e > fraction || n > i64::MAX {
            (KindView::Float(decimal::double_of(literal)), e)
        } else {
            (KindView::Integer(n as i64), e)
        }
    }
}

/// The operator or punctuation at `i`.
pub open spec fn operator_at(s: Seq<char>, i: int) -> (KindView, int) {
    let c = s[i];
    let next = char_at(s, i + 1);
    if c == '*' {
        (KindView::Star, i + 1)
    } else if c == ',' {
        (KindView::Comma, i + 1)
    } else if c == ';' {
        (KindView::Semicolon, i + 1)
    } else if c == '(' {
        (KindView::LParen, i + 1)
    } else if c == ')' {
        (KindView::RParen, i + 1)
    } else if c == '+' {
        (KindView::Plus, i + 1)
    } else if c == '/' {
        (KindView::Slash, i + 1)
    } else if c == '%' {
        (KindView::Percent, i + 1)
    } else if c == '~' {
        (KindView::BitNot, i + 1)
    } else if c == '-' {
        if next == Some('>') {
            if char_at(s, i + 2) == Some('>') {
                (KindView::ArrowArrow, i + 3)
            } else {
                (KindView::Arrow, i + 2)
            }
        } else {
            (KindView::Minus, i + 1)
        }
    } else if c == '=' {
        (KindView::Eq, if next == Some('=') { i + 2 } else { i + 1 })
    } else if c == '!' {
        if next == Some('=') {
            (KindView::Ne, i + 2)
        } else {
            (KindView::Error("expected '=' after '!'"@), i + 1)
        }
    } else if c == '<' {
        if next == Some('=') {
            (KindView::Le, i + 2)
        } else if next == Some('>') {
            (KindView::Ne, i + 2)
        } else if next == Some('<') {
            (KindView::Shl, i + 2)
        } else {
            (KindView::Lt, i + 1)
        }
    } else if c == '>' {
        if next == Some('=') {
            (KindView::Ge, i + 2)
        } else if next == Some('>') {
            (KindView::Shr, i + 2)
        } else {
            (KindView::Gt, i + 1)
        }
    } else if c == '|' {
        if next == Some('|') {
            (KindView::Concat, i + 2)
        } else {
            (KindView::BitOr, i + 1)
        }
    } else if c == '&' {
        (KindView::BitAnd, i + 1)
    } else {
        (KindView::Error("unexpected character "@ + text::debug_of_char(c)), i + 1)
    }
}

/// The token that begins at `i`, where neither white space nor a comment does, and the
/// place behind it.
pub open spec fn kind_at(s: Seq<char>, i: int) -> (KindView, int) {
    let c = s[i];
    if text::is_digit(c) || (c == '.' && digit_at(s, i + 1)) {
        number_at(s, i)
    } else if c == '.' {
        (KindView::Dot, i + 1)
    } else if c == '\'' {
        string_at(s, i)
    } else if c == '"' || c == '`' {
        quoted_identifier_at(s, i, c)
    } else if c == '[' {
        quoted_identifier_at(s, i, ']')
    } else if c == '?' {
        question_at(s, i)
    } else if c == ':' || c == '@' || c == '$' {
        named_param_at(s, i)
    } else if c == 'x' || c == 'X' {
        blob_at(s, i)
    } else if starts_word(c) {
        word_at(s, i)
    } else {
        operator_at(s, i)
    }
}

/// The next token from place `i` on, and the place behind it.
pub open spec fn token_at(s: Seq<char>, i: int) -> (TokenView, int) {
    match trivia_end(s, i) {
        None => (
            TokenView {
                kind: KindView::Error("unterminated block comment"@),
                span: span_between(s, i, s.len() as int),
            },
            s.len() as int,
        ),
        Some(start) => if start >= s.len() {
            (TokenView { kind: KindView::Eof, span: span_between(s, start, start) }, start)
        } else {
            let (kind, e) = kind_at(s, start);
            (TokenView { kind, span: span_between(s, start, e) }, e)
        },
    }
}

/// The tokens from place `i` on, up to and with the end of input.
pub open spec fn tokens_from(s: Seq<char>, i: int) -> Seq<TokenView>
    decreases s.len() - i,
    when 0 <= i <= s.len()
{
    let (token, e) = token_at(s, i);
    if token.kind == KindView::Eof {
        seq![token]
    } else {
        proof {
            lemma_token_advances(s, i);
        }
        seq![token] + tokens_from(s, e)
    }
}

/// The tokens of a source text.
pub open spec fn tokens_of(s: Seq<char>) -> Seq<TokenView> {
    tokens_from(s, 0)
}

pub proof fn lemma_run_end(s: Seq<char>, i: int, class: Class)
    requires
        0 <= i <= s.len(),
    ensures
        i <= run_end(s, i, class) <= s.len(),
        forall|k: int| i <= k < run_end(s, i, class) ==> in_class(#[trigger] s[k], class),
        run_end(s, i, class) < s.len() ==> !in_class(s[run_end(s, i, class)], class),
    decreases s.len() - i,
{
    if i < s.len() && in_class(s[i], class) {
        lemma_run_end(s, i + 1, class);
    }
}

pub proof fn lemma_line_end(s: Seq<char>, i: int)
    requires
        0 <= i <= s.len(),
    ensures
        i <= line_end(s, i) <= s.len(),
    decreases s.len() - i,
{
    if i < s.len() && s[i] != '\n' {
        lemma_line_end(s, i + 1);
    }
}

pub proof fn lemma_comment_end(s: Seq<char>, i: int)
    requires
        0 <= i <= s.len(),
    ensures
        match comment_end(s, i) {
            Some(e) => i <= e <= s.len(),
            None => true,
        },
    decreases s.len() - i,
{
    if i < s.len() && !(s[i] == '*' && char_at(s, i + 1) == Some('/')) {
        lemma_comment_end(s, i + 1);
    }
}

pub proof fn lemma_quoted(s: Seq<char>, i: int, close: char, doubling: bool)
    requires
        0 <= i <= s.len(),
    ensures
        match quoted(s, i, close, doubling) {
            Some((value, e)) => i < e <= s.len(),
            None => true,
        },
    decreases s.len() - i,
{
    if i < s.len() {
        if s[i] != close {
            lemma_quoted(s, i + 1, close, doubling);
        } else if doubling && char_at(s, i + 1) == Some(close) {
            lemma_quoted(s, i + 2, close, doubling);
        }
    }
}

pub proof fn lemma_trivia_end(s: Seq<char>, i: int)
    requires
        0 <= i <= s.len(),
    ensures
        match trivia_end(s, i) {
            Some(e) => i <= e <= s.len(),
            None => i < s.len(),
        },
    decreases s.len() - i,
{
    if i < s.len() {
        if text::is_space(s[i]) {
            lemma_trivia_end(s, i + 1);
        } else if s[i] == '-' && char_at(s, i + 1) == Some('-') {
            lemma_line_end(s, i + 2);
            lemma_trivia_end(s, line_end(s, i + 2));
        } else if s[i] == '/' && char_at(s, i + 1) == Some('*') {
            lemma_comment_end(s, i + 2);
            match comment_end(s, i + 2) {
                Some(e) => lemma_trivia_end(s, e),
                None => {},
            }
        }
    }
}

/// A token takes at least one character.
pub proof fn lemma_kind_advances(s: Seq<char>, i: int)
    requires
        0 <= i < s.len(),
    ensures
        i < kind_at(s, i).1 <= s.len(),
        kind_at(s, i).0 != KindView::Eof,
{
    reveal(word_kind);
    let c = s[i];
    if text::is_digit(c) || (c == '.' && digit_at(s, i + 1)) {
        if c == '0' && (char_at(s, i + 1) == Some('x') || char_at(s, i + 1) == Some('X')) {
            lemma_run_end(s, i + 2, Class::Hex);
        } else {
            lemma_run_end(s, i, Class::Digit);
            let whole = run_end(s, i, Class::Digit);
            if char_at(s, whole) == Some('.') {
                lemma_run_end(s, whole + 1, Class::Digit);
            }
            let fraction = if char_at(s, whole) == Some('.') {
                run_end(s, whole + 1, Class::Digit)
            } else {
                whole
            };
            lemma_exponent_end(s, fraction);
        }
    } else if c == '\'' {
        lemma_quoted(s, i + 1, '\'', true);
    } else if c == '"' || c == '`' {
        lemma_quoted(s, i + 1, c, s[i] == c);
    } else if c == '[' {
        lemma_quoted(s, i + 1, ']', s[i] == ']');
    } else if c == '?' {
        lemma_run_end(s, i + 1, Class::Digit);
    } else if c == ':' || c == '@' || c == '$' {
        lemma_run_end(s, i + 1, Class::Word);
    } else if c == 'x' || c == 'X' {
        if char_at(s, i + 1) == Some('\'') {
            lemma_quoted(s, i + 2, '\'', false);
        } else {
            lemma_run_end(s, i + 1, Class::Word);
        }
    } else if starts_word(c) {
        lemma_run_end(s, i + 1, Class::Word);
    }
}

pub proof fn lemma_exponent_end(s: Seq<char>, i: int)
    requires
        0 <= i <= s.len(),
    ensures
        i <= exponent_end(s, i) <= s.len(),
{
    lemma_run_end(s, if i + 1 <= s.len() { i + 1 } else { i }, Class::Digit);
    lemma_run_end(s, if i + 2 <= s.len() { i + 2 } else { i }, Class::Digit);
}

/// Every token but the end of input takes at least one character, and none reaches
/// beyond the source.
pub proof fn lemma_token_advances(s: Seq<char>, i: int)
    requires
        0 <= i <= s.len(),
    ensures
        i <= token_at(s, i).1 <= s.len(),
        token_at(s, i).0.kind != KindView::Eof ==> i < token_at(s, i).1,
        token_at(s, i).0.kind == KindView::Eof ==> token_at(s, i).1 == s.len(),
{
    lemma_trivia_end(s, i);
    match trivia_end(s, i) {
        Some(start) => if start < s.len() {
            lemma_kind_advances(s, start);
        },
        None => {},
    }
}

/// Whatever the source, its tokens end with the end of input, and it stands nowhere else.
pub proof fn law_tokens_end(s: Seq<char>, i: int)
    requires
        0 <= i <= s.len(),
    ensures
        tokens_from(s, i).len() > 0,
        tokens_from(s, i).last().kind == KindView::Eof,
        forall|k: int|
            0 <= k < tokens_from(s, i).len() - 1 ==> (#[trigger] tokens_from(s, i)[k]).kind
                != KindView::Eof,
    decreases s.len() - i,
{
    lemma_token_advances(s, i);
    let (token, e) = token_at(s, i);
    if token.kind != KindView::Eof {
        law_tokens_end(s, e);
        let rest = tokens_from(s, e);
        assert(tokens_from(s, i) == seq![token] + rest);
        assert forall|k: int| 0 <= k < tokens_from(s, i).len() - 1 implies (
        #[trigger] tokens_from(s, i)[k]).kind != KindView::Eof by {
            if k > 0 {
                assert(tokens_from(s, i)[k] == rest[k - 1]);
            }
        }
    }
}

// ---- scanning ------------------------------------------------------------

fn is_ident_start(c: char) -> (b: bool)
    ensures
        b == starts_word(c),
{
    c == '_' || c.is_alphabetic()
}

fn is_ident_continue(c: char) -> (b: bool)
    ensures
        b == in_class(c, Class::Word),
{
    c == '_' || c.is_alphanumeric()
}

fn is_of(c: char, class: Class) -> (b: bool)
    ensures
        b == in_class(c, class),
{
    match class {
        Class::Digit => '0' <= c && c <= '9',
        Class::Hex => ('0' <= c && c <= '9') || ('a' <= c && c <= 'f') || ('A' <= c && c <= 'F'),
        Class::Word => is_ident_continue(c),
    }
}

/// The source text with the scanner's place in it. The source is held as its
/// characters; the byte offset of the place is kept beside it.
pub struct Tokenizer {
    chars: Vec<char>,
    pos: usize,
    offset: u32,
    line: u32,
    column: u32,
}

/// Classifies an identifier-shaped word as a keyword, `NULL`/`TRUE`/`FALSE` literal, or
/// plain identifier.
fn lookup_word(chars: &Vec<char>, from: usize, to: usize) -> (kind: TokenKind)
    requires
        from <= to <= chars@.len(),
    ensures
        kind@ == word_kind(chars@.subrange(from as int, to as int)),
{
    proof {
        reveal(word_kind);
    }
    let upper = text::to_upper(chars, from, to);
    if text::spells(&upper, "NULL") {
        return TokenKind::Null;
    }
    if text::spells(&upper, "TRUE") {
        return TokenKind::True;
    }
    if text::spells(&upper, "FALSE") {
        return TokenKind::False;
    }
    match keyword::find_keyword(&upper) {
        Some(k) => TokenKind::Keyword(k),
        None => TokenKind::Identifier(text::text_of(chars, from, to)),
    }
}

/// What a name is read as where it stands without quotes, if it can stand so.
fn read_word(name: &str) -> (r: Option<TokenKind>)
    ensures
        match r {
            Some(kind) => is_word(name@) && kind@ == word_kind(name@),
            None => !is_word(name@),
        },
{
    let chars = text::chars_of(name);
    let n: usize = chars.len();
    if n == 0 || !is_ident_start(chars[0]) || chars[0].is_whitespace() {
        return None;
    }
    let mut i: usize = 0;
    while i < n
        invariant
            i <= n,
            n == chars.len(),
            chars@ == name@,
            forall|k: int| 0 <= k < i ==> in_class(#[trigger] name@[k], Class::Word),
        decreases n - i,
    {
        if !is_ident_continue(chars[i]) {
            return None;
        }
        i = i + 1;
    }
    let kind = lookup_word(&chars, 0, n);
    assert(chars@.subrange(0, n as int) =~= name@);
    Some(kind)
}

/// Whether a name needs no quotes.
pub fn is_plain_name(name: &str) -> (b: bool)
    ensures
        b == is_plain(name@),
{
    proof {
        reveal(word_kind);
    }
    match read_word(name) {
        Some(TokenKind::Identifier(_)) => true,
        _ => false,
    }
}

/// The keyword whose name a text is.
pub fn find_word(name: &str) -> (r: Option<Keyword>)
    ensures
        r == keyword_of(name@),
{
    match read_word(name) {
        Some(TokenKind::Keyword(k)) => {
            if text::spells(&text::chars_of(name), k.text()) {
                Some(k)
            } else {
                None
            }
        },
        _ => None,
    }
}

impl Tokenizer {
    /// The source text.
    pub closed spec fn source(&self) -> Seq<char> {
        self.chars@
    }

    /// The place the next token is looked for at.
    pub closed spec fn place(&self) -> int {
        self.pos as int
    }

    /// The place lies in the source, and line, column and offset are its own.
    pub closed spec fn wf(&self) -> bool {
        &&& self.pos <= self.chars@.len()
        &&& self.line == line_at(self.chars@, self.pos as int)
        &&& self.column == column_at(self.chars@, self.pos as int)
        &&& self.offset == offset_at(self.chars@, self.pos as int)
    }

    /// Creates a tokenizer positioned at the start of `src`.
    pub fn new(src: &str) -> (t: Self)
        ensures
            t.wf(),
            t.source() == src@,
            t.place() == 0,
    {
        let chars = text::chars_of(src);
        assert(chars@.take(0) =~= seq![]);
        Tokenizer { chars, pos: 0, offset: 0, line: 1, column: 1 }
    }

    /// Tokenizes the whole input, including the trailing [`TokenKind::Eof`].
    pub fn tokenize(src: &str) -> (tokens: Vec<Token>)
        ensures
            token_views(tokens@) == tokens_of(src@),
    {
        let mut out: Vec<Token> = Vec::new();
        let mut tokenizer = Tokenizer::new(src);
        assert(token_views(out@) =~= seq![]);
        loop
            invariant
                tokenizer.wf(),
                tokenizer.source() == src@,
                0 <= tokenizer.place() <= src@.len(),
                token_views(out@) + tokens_from(src@, tokenizer.place()) == tokens_of(src@),
            decreases src@.len() - tokenizer.place(),
        {
            let ghost before = tokenizer.place();
            let ghost so_far = token_views(out@);
            proof {
                lemma_token_advances(src@, before);
            }
            let tok = tokenizer.next_token();
            let is_eof = matches!(tok.kind, TokenKind::Eof);
            out.push(tok);
            proof {
                assert(token_views(out@) =~= so_far.push(tok@));
                if is_eof {
                    assert(token_views(out@) =~= so_far + tokens_from(src@, before));
                } else {
                    assert(so_far + tokens_from(src@, before) =~= token_views(out@)
                        + tokens_from(src@, tokenizer.place()));
                }
            }
            if is_eof {
                return out;
            }
        }
    }

    /// Looks `ahead` places past `i`.
    fn peek_at(&self, i: usize, ahead: usize) -> (c: Option<char>)
        ensures
            c == char_at(self.chars@, i + ahead),
    {
        if i < self.chars.len() && ahead < self.chars.len() - i {
            Some(self.chars[i + ahead])
        } else {
            None
        }
    }

    /// Takes the character at the place.
    fn bump(&mut self)
        requires
            old(self).wf(),
            old(self).pos < old(self).chars.len(),
        ensures
            final(self).wf(),
            final(self).chars@ == old(self).chars@,
            final(self).pos == old(self).pos + 1,
    {
        let c = self.chars[self.pos];
        let ghost past = self.chars@.take(self.pos as int);
        let ghost now = self.chars@.take(self.pos + 1);
        proof {
            assert(now.drop_last() =~= past);
            assert(now.last() == c);
        }
        let width: u32 = if (c as u32) < 0x80 {
            1
        } else if (c as u32) < 0x800 {
            2
        } else if (c as u32) < 0x10000 {
            3
        } else {
            4
        };
        let wide: u64 = (self.offset as u64) + (width as u64);
        proof {
            let n = byte_len(past) as int;
            assert((n % 0x1_0000_0000 + width) % 0x1_0000_0000 == (n + width) % 0x1_0000_0000) by {
                vstd::arithmetic::div_mod::lemma_add_mod_noop(n, width as int, 0x1_0000_0000);
                vstd::arithmetic::div_mod::lemma_small_mod(width as nat, 0x1_0000_0000);
            }
        }
        self.offset = (wide % 0x1_0000_0000) as u32;
        self.pos = self.pos + 1;
        if c == '\n' {
            if self.line < u32::MAX {
                self.line = self.line + 1;
            }
            self.column = 1;
        } else {
            if self.column < u32::MAX {
                self.column = self.column + 1;
            }
        }
    }

    /// Takes the characters up to `end`.
    fn advance_to(&mut self, end: usize)
        requires
            old(self).wf(),
            old(self).pos <= end <= old(self).chars@.len(),
        ensures
            final(self).wf(),
            final(self).chars@ == old(self).chars@,
            final(self).pos == end,
    {
        while self.pos < end
            invariant
                self.wf(),
                self.chars@ == old(self).chars@,
                self.pos <= end <= self.chars@.len(),
            decreases end - self.pos,
        {
            self.bump();
        }
    }

    fn current_pos(&self) -> (p: (u32, u32, u32))
        ensures
            p == (self.line, self.column, self.offset),
    {
        (self.line, self.column, self.offset)
    }

    fn span_from(&self, start: (u32, u32, u32)) -> (span: Span)
        ensures
            span == (Span {
                line: start.0,
                column: start.1,
                offset: start.2,
                len: if self.offset >= start.2 {
                    (self.offset - start.2) as u32
                } else {
                    0
                },
            }),
    {
        Span {
            line: start.0,
            column: start.1,
            offset: start.2,
            len: self.offset.saturating_sub(start.2),
        }
    }

    /// Where the run of characters of the class at `from` ends.
    fn run(&self, from: usize, class: Class) -> (end: usize)
        requires
            from <= self.chars@.len(),
        ensures
            end == run_end(self.chars@, from as int, class),
            from <= end <= self.chars@.len(),
            forall|k: int| from <= k < end ==> in_class(#[trigger] self.chars@[k], class),
    {
        let mut i: usize = from;
        while i < self.chars.len() && is_of(self.chars[i], class)
            invariant
                from <= i <= self.chars@.len(),
                run_end(self.chars@, from as int, class) == run_end(self.chars@, i as int, class),
                forall|k: int| from <= k < i ==> in_class(#[trigger] self.chars@[k], class),
            decreases self.chars@.len() - i,
        {
            i = i + 1;
        }
        i
    }

    /// Skips whitespace and comments. Returns `None` if an unterminated block comment ran
    /// to the end of input.
    fn skip_trivia(&self) -> (end: Option<usize>)
        requires
            self.pos <= self.chars@.len(),
        ensures
            match end {
                Some(e) => trivia_end(self.chars@, self.pos as int) == Some(e as int)
                    && self.pos <= e <= self.chars@.len(),
                None => trivia_end(self.chars@, self.pos as int) is None,
            },
    {
        let n = self.chars.len();
        let mut i: usize = self.pos;
        while i < n
            invariant
                n == self.chars@.len(),
                self.pos <= i <= n,
                trivia_end(self.chars@, self.pos as int) == trivia_end(self.chars@, i as int),
            decreases n - i,
        {
            let c = self.chars[i];
            if c.is_whitespace() {
                i = i + 1;
            } else if c == '-' && self.peek_at(i, 1) == Some('-') {
                i = i + 2;
                let ghost begin = i as int;
                while i < n && self.chars[i] != '\n'
                    invariant
                        n == self.chars@.len(),
                        self.pos <= i <= n,
                        begin <= i,
                        line_end(self.chars@, begin) == line_end(self.chars@, i as int),
                    decreases n - i,
                {
                    i = i + 1;
                }
            } else if c == '/' && self.peek_at(i, 1) == Some('*') {
                i = i + 2;
                let ghost begin = i as int;
                let mut closed = false;
                while i < n && !closed
                    invariant
                        n == self.chars@.len(),
                        self.pos <= i <= n,
                        begin <= i,
                        closed ==> comment_end(self.chars@, begin) == Some(i as int),
                        !closed ==> comment_end(self.chars@, begin) == comment_end(
                            self.chars@,
                            i as int,
                        ),
                    decreases n - i,
                {
                    if self.chars[i] == '*' && self.peek_at(i, 1) == Some('/') {
                        i = i + 2;
                        closed = true;
                    } else {
                        i = i + 1;
                    }
                }
                if !closed {
                    return None;
                }
            } else {
                return Some(i);
            }
        }
        Some(n)
    }

    /// Scans and returns the next [`Token`], including trivia skipping. Returns
    /// [`TokenKind::Eof`] once the input is exhausted; never panics.
    pub fn next_token(&mut self) -> (token: Token)
        requires
            old(self).wf(),
        ensures
            final(self).wf(),
            final(self).source() == old(self).source(),
            token@ == token_at(old(self).source(), old(self).place()).0,
            final(self).place() == token_at(old(self).source(), old(self).place()).1,
    {
        let trivia_start = self.current_pos();
        let begin = match self.skip_trivia() {
            None => {
                let n = self.chars.len();
                self.advance_to(n);
                let reason = "unterminated block comment".to_owned();
                return Token { kind: TokenKind::Error(reason), span: self.span_from(trivia_start) };
            },
            Some(e) => e,
        };
        self.advance_to(begin);
        let start = self.current_pos();
        if begin >= self.chars.len() {
            return Token { kind: TokenKind::Eof, span: self.span_from(start) };
        }
        proof {
            lemma_kind_advances(self.chars@, begin as int);
        }
        let (kind, end) = self.scan_kind(begin);
        self.advance_to(end);
        Token { kind, span: self.span_from(start) }
    }

    /// Scans the token that begins at `i`.
    fn scan_kind(&self, i: usize) -> (r: (TokenKind, usize))
        requires
            i < self.chars.len(),
        ensures
            (r.0@, r.1 as int) == kind_at(self.chars@, i as int),
    {
        let c = self.chars[i];
        if '0' <= c && c <= '9' {
            return self.scan_number(i);
        }
        if c == '.' {
            return match self.peek_at(i, 1) {
                Some(d) if '0' <= d && d <= '9' => self.scan_number(i),
                _ => (TokenKind::Dot, i + 1),
            };
        }
        if c == '\'' {
            self.scan_string(i)
        } else if c == '"' || c == '`' {
            self.scan_quoted_identifier(i, c)
        } else if c == '[' {
            self.scan_quoted_identifier(i, ']')
        } else if c == '?' {
            self.scan_param_question(i)
        } else if c == ':' || c == '@' || c == '$' {
            self.scan_param_named(i)
        } else if c == 'x' || c == 'X' {
            self.scan_maybe_blob(i)
        } else if is_ident_start(c) {
            self.scan_identifier_or_keyword(i)
        } else {
            self.scan_operator(i)
        }
    }

    fn scan_identifier_or_keyword(&self, i: usize) -> (r: (TokenKind, usize))
        requires
            i < self.chars.len(),
        ensures
            (r.0@, r.1 as int) == word_at(self.chars@, i as int),
    {
        let e = self.run(i, Class::Word);
        (lookup_word(&self.chars, i, e), e)
    }

    /// Reads quoted text from `from` up to `close`.
    fn read_quoted(&self, from: usize, close: char, doubling: bool) -> (r: Option<
        (Vec<char>, usize),
    >)
        requires
            from <= self.chars@.len(),
        ensures
            match r {
                Some((value, e)) => quoted(self.chars@, from as int, close, doubling) == Some(
                    (value@, e as int),
                ),
                None => quoted(self.chars@, from as int, close, doubling) is None,
            },
    {
        let n = self.chars.len();
        let mut value: Vec<char> = Vec::new();
        let mut i: usize = from;
        let ghost whole = quoted(self.chars@, from as int, close, doubling);
        while i < n
            invariant
                n == self.chars@.len(),
                from <= i <= n,
                whole == quoted(self.chars@, from as int, close, doubling),
                match quoted(self.chars@, i as int, close, doubling) {
                    Some((rest, e)) => whole == Some((value@ + rest, e)),
                    None => whole is None,
                },
            decreases n - i,
        {
            let c = self.chars[i];
            let ghost so_far = value@;
            if c != close {
                value.push(c);
                proof {
                    if let Some((rest, e)) = quoted(self.chars@, i + 1, close, doubling) {
                        assert(so_far + (seq![c] + rest) =~= value@ + rest);
                    }
                }
                i = i + 1;
            } else if doubling && self.peek_at(i, 1) == Some(close) {
                value.push(close);
                proof {
                    if let Some((rest, e)) = quoted(self.chars@, i + 2, close, doubling) {
                        assert(so_far + (seq![close] + rest) =~= value@ + rest);
                    }
                }
                i = i + 2;
            } else {
                assert(so_far + seq![] =~= so_far);
                return Some((value, i + 1));
            }
        }
        None
    }

    /// `X'...'`/`x'...'` blob literal, or falls back to a plain identifier/keyword
    /// starting with `x`/`X`.
    fn scan_maybe_blob(&self, i: usize) -> (r: (TokenKind, usize))
        requires
            i < self.chars.len(),
        ensures
            (r.0@, r.1 as int) == blob_at(self.chars@, i as int),
    {
        if self.peek_at(i, 1) != Some('\'') {
            return self.scan_identifier_or_keyword(i);
        }
        match self.read_quoted(i + 2, '\'', false) {
            None => {
                let mut message = "unterminated blob literal starting with ".to_owned();
                let ghost head = message@;
                message.push(self.chars[i]);
                message.push('\'');
                assert(message@ =~= head + seq![self.chars@[i as int], '\'']);
                (TokenKind::Error(message), self.chars.len())
            },
            Some((hex, e)) => {
                let mut k: usize = 0;
                let mut valid = hex.len() % 2 == 0;
                while k < hex.len() && valid
                    invariant
                        k <= hex@.len(),
                        valid ==> hex@.len() % 2 == 0,
                        valid ==> forall|j: int| 0 <= j < k ==>
                            text::is_hex_digit(#[trigger] hex@[j]),
                        !valid ==> !(hex@.len() % 2 == 0 && all_hex(hex@)),
                    decreases hex@.len() - k, (if valid { 1int } else { 0int }),
                {
                    if is_of(hex[k], Class::Hex) {
                        k = k + 1;
                    } else {
                        valid = false;
                    }
                }
                if !valid {
                    let content = text::text_of(&hex, 0, hex.len());
                    assert(hex@.subrange(0, hex@.len() as int) =~= hex@);
                    let mut message = "invalid blob literal hex digits: ".to_owned();
                    message.append(text::debug_text(content.as_str()).as_str());
                    return (TokenKind::Error(message), e);
                }
                let mut bytes: Vec<u8> = Vec::new();
                let mut j: usize = 0;
                while j < hex.len()
                    invariant
                        j <= hex@.len(),
                        j % 2 == 0,
                        hex@.len() % 2 == 0,
                        all_hex(hex@),
                        bytes@.len() == j / 2,
                        forall|m: int| 0 <= m < bytes@.len() ==> #[trigger] bytes@[m] == hex_bytes(
                            hex@,
                        )[m],
                    decreases hex@.len() - j,
                {
                    let high = text::to_digit_value(hex[j]);
                    let low = text::to_digit_value(hex[j + 1]);
                    bytes.push((high * 16 + low) as u8);
                    j = j + 2;
                }
                assert(bytes@ =~= hex_bytes(hex@));
                (TokenKind::Blob(bytes), e)
            },
        }
    }

    fn scan_string(&self, i: usize) -> (r: (TokenKind, usize))
        requires
            i < self.chars.len(),
        ensures
            (r.0@, r.1 as int) == string_at(self.chars@, i as int),
    {
        match self.read_quoted(i + 1, '\'', true) {
            None => (
                TokenKind::Error("unterminated string literal".to_owned()),
                self.chars.len(),
            ),
            Some((value, e)) => {
                assert(value@.subrange(0, value@.len() as int) =~= value@);
                (TokenKind::String(text::text_of(&value, 0, value.len())), e)
            },
        }
    }

    /// Quoted identifier that ends with `close`.
    fn scan_quoted_identifier(&self, i: usize, close: char) -> (r: (TokenKind, usize))
        requires
            i < self.chars.len(),
        ensures
            (r.0@, r.1 as int) == quoted_identifier_at(self.chars@, i as int, close),
    {
        let open = self.chars[i];
        match self.read_quoted(i + 1, close, open == close) {
            None => {
                let mut message = "unterminated quoted identifier starting with ".to_owned();
                message.append(text::debug_char(open).as_str());
                (TokenKind::Error(message), self.chars.len())
            },
            Some((value, e)) => {
                assert(value@.subrange(0, value@.len() as int) =~= value@);
                (TokenKind::Identifier(text::text_of(&value, 0, value.len())), e)
            },
        }
    }

    fn scan_param_question(&self, i: usize) -> (r: (TokenKind, usize))
        requires
            i < self.chars.len(),
        ensures
            (r.0@, r.1 as int) == question_at(self.chars@, i as int),
    {
        let e = self.run(i + 1, Class::Digit);
        if e == i + 1 {
            return (TokenKind::Param(Param::Anonymous), e);
        }
        match text::parse_number(&self.chars, i + 1, e, 10) {
            Some(n) if n <= 0xffff_ffff => (TokenKind::Param(Param::Numbered(n as u32)), e),
            _ => {
                let mut message = "parameter number out of range: ".to_owned();
                message.append(text::text_of(&self.chars, i + 1, e).as_str());
                (TokenKind::Error(message), e)
            },
        }
    }

    fn scan_param_named(&self, i: usize) -> (r: (TokenKind, usize))
        requires
            i < self.chars.len(),
        ensures
            (r.0@, r.1 as int) == named_param_at(self.chars@, i as int),
    {
        let sigil = self.chars[i];
        let e = self.run(i + 1, Class::Word);
        if e == i + 1 {
            let mut message = "expected parameter name after ".to_owned();
            message.append(text::debug_char(sigil).as_str());
            return (TokenKind::Error(message), e);
        }
        let name = text::text_of(&self.chars, i + 1, e);
        if sigil == ':' {
            (TokenKind::Param(Param::Colon(name)), e)
        } else if sigil == '@' {
            (TokenKind::Param(Param::At(name)), e)
        } else {
            (TokenKind::Param(Param::Dollar(name)), e)
        }
    }

    /// Where the exponent at `i` ends, if one begins there.
    fn exponent(&self, i: usize) -> (end: usize)
        requires
            i <= self.chars.len(),
        ensures
            end == exponent_end(self.chars@, i as int),
            i <= end <= self.chars@.len(),
    {
        let head = self.peek_at(i, 0);
        if head != Some('e') && head != Some('E') {
            return i;
        }
        let sign = self.peek_at(i, 1);
        let ahead: usize = if sign == Some('+') || sign == Some('-') {
            2
        } else {
            1
        };
        match self.peek_at(i, ahead) {
            Some(d) if '0' <= d && d <= '9' => self.run(i + ahead, Class::Digit),
            _ => i,
        }
    }

    fn scan_number(&self, i: usize) -> (r: (TokenKind, usize))
        requires
            i < self.chars.len(),
        ensures
            (r.0@, r.1 as int) == number_at(self.chars@, i as int),
    {
        let mark = self.peek_at(i, 1);
        if self.chars[i] == '0' && (mark == Some('x') || mark == Some('X')) {
            let e = self.run(i + 2, Class::Hex);
            if e == i + 2 {
                return (TokenKind::Error("hex literal has no digits".to_owned()), e);
            }
            return match text::parse_number(&self.chars, i + 2, e, 16) {
                Some(n) => (TokenKind::Integer(n as i64), e),
                None => (
                    TokenKind::Error(
                        "invalid hex literal: number too large to fit in target type".to_owned(),
                    ),
                    e,
                ),
            };
        }
        let whole = self.run(i, Class::Digit);
        let point = self.peek_at(whole, 0) == Some('.');
        let fraction = if point {
            self.run(whole + 1, Class::Digit)
        } else {
            whole
        };
        let e = self.exponent(fraction);
        if !point && e == fraction {
            match text::parse_number(&self.chars, i, e, 10) {
                Some(n) if n <= 0x7fff_ffff_ffff_ffff => {
                    return (TokenKind::Integer(n as i64), e);
                },
                _ => {},
            }
        }
        (TokenKind::Float(decimal::read_double(text::text_of(&self.chars, i, e).as_str())), e)
    }

    fn scan_operator(&self, i: usize) -> (r: (TokenKind, usize))
        requires
            i < self.chars.len(),
        ensures
            (r.0@, r.1 as int) == operator_at(self.chars@, i as int),
    {
        let c = self.chars[i];
        let next = self.peek_at(i, 1);
        match c {
            '*' => (TokenKind::Star, i + 1),
            ',' => (TokenKind::Comma, i + 1),
            ';' => (TokenKind::Semicolon, i + 1),
            '(' => (TokenKind::LParen, i + 1),
            ')' => (TokenKind::RParen, i + 1),
            '+' => (TokenKind::Plus, i + 1),
            '/' => (TokenKind::Slash, i + 1),
            '%' => (TokenKind::Percent, i + 1),
            '~' => (TokenKind::BitNot, i + 1),
            '-' => {
                if next == Some('>') {
                    if self.peek_at(i, 2) == Some('>') {
                        (TokenKind::ArrowArrow, i + 3)
                    } else {
                        (TokenKind::Arrow, i + 2)
                    }
                } else {
                    (TokenKind::Minus, i + 1)
                }
            },
            '=' => {
                if next == Some('=') {
                    (TokenKind::Eq, i + 2)
                } else {
                    (TokenKind::Eq, i + 1)
                }
            },
            '!' => {
                if next == Some('=') {
                    (TokenKind::Ne, i + 2)
                } else {
                    (TokenKind::Error("expected '=' after '!'".to_owned()), i + 1)
                }
            },
            '<' => match next {
                Some('=') => (TokenKind::Le, i + 2),
                Some('>') => (TokenKind::Ne, i + 2),
                Some('<') => (TokenKind::Shl, i + 2),
                _ => (TokenKind::Lt, i + 1),
            },
            '>' => match next {
                Some('=') => (TokenKind::Ge, i + 2),
                Some('>') => (TokenKind::Shr, i + 2),
                _ => (TokenKind::Gt, i + 1),
            },
            '|' => {
                if next == Some('|') {
                    (TokenKind::Concat, i + 2)
                } else {
                    (TokenKind::BitOr, i + 1)
                }
            },
            '&' => (TokenKind::BitAnd, i + 1),
            other => {
                let mut message = "unexpected character ".to_owned();
                message.append(text::debug_char(other).as_str());
                (TokenKind::Error(message), i + 1)
            },
        }
    }
}

/// `piece` without the white space around it, as a list; nothing where nothing is left.
pub open spec fn kept(piece: Seq<char>) -> Seq<Seq<char>> {
    if text::trim(piece).len() == 0 {
        seq![]
    } else {
        seq![text::trim(piece)]
    }
}

/// The statements of a script, where the current one began at `begin` and the tokens
/// up to `i` have been looked at.
pub open spec fn statements_from(s: Seq<char>, begin: int, i: int) -> Seq<Seq<char>>
    decreases s.len() - i,
    when 0 <= i <= s.len()
{
    let (token, e) = token_at(s, i);
    if token.kind == KindView::Eof {
        kept(s.subrange(begin, s.len() as int))
    } else {
        proof {
            lemma_token_advances(s, i);
        }
        if token.kind == KindView::Semicolon {
            kept(s.subrange(begin, e - 1)) + statements_from(s, e, e)
        } else {
            statements_from(s, begin, e)
        }
    }
}

/// Whether the last token before the end of input is a `;`.
pub open spec fn is_finished(s: Seq<char>) -> bool {
    let tokens = tokens_of(s);
    tokens.len() >= 2 && tokens[tokens.len() - 2].kind == KindView::Semicolon
}

/// Whether `sql` ends (ignoring trailing whitespace/comments) with a top-level `;` — the
/// "has the user finished typing a statement, or do we need another line" test. It goes
/// through the tokenizer, so a `;` inside a string/blob literal never counts. Empty
/// input is never complete.
pub fn ends_with_semicolon(sql: &str) -> (r: bool)
    ensures
        r == is_finished(sql@),
{
    let tokens = Tokenizer::tokenize(sql);
    let n = tokens.len();
    assert(token_views(tokens@).len() == n);
    if n < 2 {
        return false;
    }
    assert(token_views(tokens@)[n - 2] == tokens@[n - 2]@);
    matches!(tokens[n - 2].kind, TokenKind::Semicolon)
}

/// Splits a multi-statement script into individual statement source slices at top-level
/// `;` boundaries — a `;` inside a string/blob literal or a comment never splits, since
/// this goes through the real tokenizer. Empty statements (a bare `;`, leading/trailing
/// whitespace-only) are dropped.
pub fn split_statements(sql: &str) -> (statements: Vec<String>)
    ensures
        text::texts(statements@) == statements_from(sql@, 0, 0),
{
    let mut tokenizer = Tokenizer::new(sql);
    let mut statements: Vec<String> = Vec::new();
    let mut start: usize = 0;
    assert(text::texts(statements@) =~= seq![]);
    assert(statements_from(sql@, 0, 0) =~= text::texts(statements@) + statements_from(sql@, 0, 0));
    loop
        invariant
            tokenizer.wf(),
            tokenizer.source() == sql@,
            start <= tokenizer.place() <= sql@.len(),
            statements_from(sql@, 0, 0) == text::texts(statements@) + statements_from(
                sql@,
                start as int,
                tokenizer.place(),
            ),
        decreases sql@.len() - tokenizer.place(),
    {
        let ghost before = tokenizer.place();
        let ghost so_far = text::texts(statements@);
        proof {
            lemma_token_advances(sql@, before);
        }
        let tok = tokenizer.next_token();
        match tok.kind {
            TokenKind::Semicolon => {
                let end = tokenizer.pos - 1;
                proof {
                    lemma_semicolon_is_one_char(sql@, before);
                }
                push_trimmed(&mut statements, &tokenizer.chars, start, end);
                proof {
                    let next = tokenizer.place();
                    let piece = kept(sql@.subrange(start as int, end as int));
                    let rest = statements_from(sql@, next, next);
                    assert(so_far + (piece + rest) =~= text::texts(statements@) + rest);
                }
                start = tokenizer.pos;
            },
            TokenKind::Eof => {
                let end = tokenizer.chars.len();
                push_trimmed(&mut statements, &tokenizer.chars, start, end);
                return statements;
            },
            _ => {},
        }
    }
}

/// A `;` token takes one character.
pub proof fn lemma_semicolon_is_one_char(s: Seq<char>, i: int)
    requires
        0 <= i <= s.len(),
        token_at(s, i).0.kind == KindView::Semicolon,
    ensures
        i < token_at(s, i).1,
        trivia_end(s, i) == Some(token_at(s, i).1 - 1),
{
    reveal(word_kind);
    lemma_trivia_end(s, i);
}

// ---- laws ---------------------------------------------------------------------------------

/// At the end of the source there is nothing but the end of input, however often it is
/// asked for.
pub proof fn law_end_is_final(s: Seq<char>)
    ensures
        token_at(s, s.len() as int).0.kind == KindView::Eof,
        token_at(s, s.len() as int).1 == s.len(),
{
}

/// Keywords and the words of literals are recognized in any mix of cases.
pub proof fn law_case_is_ignored(a: Seq<char>, b: Seq<char>)
    requires
        text::upper(a) == text::upper(b),
        !(word_kind(a) is Identifier),
    ensures
        word_kind(b) == word_kind(a),
{
    reveal(word_kind);
}

proof fn lemma_trim_start(s: Seq<char>)
    ensures
        text::trim_start(s).len() > 0 ==> !text::is_space(text::trim_start(s)[0]),
    decreases s.len(),
{
    if s.len() > 0 && text::is_space(s[0]) {
        lemma_trim_start(s.drop_first());
    }
}

proof fn lemma_trim_end(s: Seq<char>)
    ensures
        text::trim_end(s).len() > 0 ==> !text::is_space(text::trim_end(s).last())
            && text::trim_end(s)[0] == s[0],
        text::trim_end(s).len() <= s.len(),
    decreases s.len(),
{
    if s.len() > 0 && text::is_space(s.last()) {
        lemma_trim_end(s.drop_last());
    }
}

/// Whether a statement is there and has no white space around it.
pub open spec fn is_trimmed(statement: Seq<char>) -> bool {
    statement.len() > 0 && !text::is_space(statement[0]) && !text::is_space(statement.last())
}

pub(crate) proof fn lemma_kept(piece: Seq<char>)
    ensures
        forall|k: int| 0 <= k < kept(piece).len() ==> is_trimmed(#[trigger] kept(piece)[k]),
{
    lemma_trim_start(piece);
    lemma_trim_end(text::trim_start(piece));
}

/// No statement of a script is empty, and none has white space around it.
pub proof fn law_statements_are_trimmed(s: Seq<char>, begin: int, i: int)
    requires
        0 <= begin <= i <= s.len(),
    ensures
        forall|k: int|
            0 <= k < statements_from(s, begin, i).len() ==> is_trimmed(
                #[trigger] statements_from(s, begin, i)[k],
            ),
    decreases s.len() - i,
{
    let (token, e) = token_at(s, i);
    lemma_token_advances(s, i);
    if token.kind == KindView::Eof {
        let last = s.subrange(begin, s.len() as int);
        lemma_kept(last);
        assert(statements_from(s, begin, i) == kept(last));
    } else if token.kind == KindView::Semicolon {
        let front = kept(s.subrange(begin, e - 1));
        lemma_kept(s.subrange(begin, e - 1));
        law_statements_are_trimmed(s, e, e);
        let rest = statements_from(s, e, e);
        assert forall|k: int| 0 <= k < (front + rest).len() implies is_trimmed(
            #[trigger] (front + rest)[k],
        ) by {
            if k < front.len() {
                assert((front + rest)[k] == front[k]);
            } else {
                assert((front + rest)[k] == rest[k - front.len()]);
            }
        }
        assert(statements_from(s, begin, i) == front + rest);
    } else {
        law_statements_are_trimmed(s, begin, e);
        assert(statements_from(s, begin, i) == statements_from(s, begin, e));
    }
}

/// Only a `;` that is a token splits a script: without one it is a single statement,
/// whatever stands in its strings and comments.
pub proof fn law_only_semicolons_split(s: Seq<char>, begin: int, i: int)
    requires
        0 <= begin <= i <= s.len(),
        forall|k: int|
            0 <= k < tokens_from(s, i).len() ==> (#[trigger] tokens_from(s, i)[k]).kind
                != KindView::Semicolon,
    ensures
        statements_from(s, begin, i) == kept(s.subrange(begin, s.len() as int)),
    decreases s.len() - i,
{
    let (token, e) = token_at(s, i);
    lemma_token_advances(s, i);
    let t = tokens_from(s, i);
    assert(t[0] == token);
    if token.kind != KindView::Eof {
        let rest = tokens_from(s, e);
        assert(t == seq![token] + rest);
        assert forall|k: int| 0 <= k < rest.len() implies (#[trigger] rest[k]).kind
            != KindView::Semicolon by {
            assert(t[k + 1] == rest[k]);
        }
        law_only_semicolons_split(s, begin, e);
    }
}

fn push_trimmed(statements: &mut Vec<String>, chars: &Vec<char>, from: usize, to: usize)
    requires
        from <= to <= chars.len(),
    ensures
        text::texts(final(statements)@) == text::texts(old(statements)@) + kept(
            chars@.subrange(from as int, to as int),
        ),
{
    let (a, b) = text::trim_range(chars, from, to);
    if a < b {
        let statement = text::text_of(chars, a, b);
        proof {
            text::lemma_texts_push(statements@, statement);
        }
        statements.push(statement);
    }
    assert(text::texts(statements@) =~= text::texts(old(statements)@) + kept(
        chars@.subrange(from as int, to as int),
    ));
}

// ---- naming tokens in messages --------------------------------------------

/// `bytes[..count]` in decimal, with commas between.
pub open spec fn byte_list(bytes: Seq<u8>, count: int) -> Seq<char>
    decreases count,
{
    if count <= 0 {
        seq![]
    } else if count == 1 {
        text::decimal(bytes[0] as nat)
    } else {
        byte_list(bytes, count - 1) + ", "@ + text::decimal(bytes[count - 1] as nat)
    }
}

/// `name(inner)`.
pub open spec fn applied(name: Seq<char>, inner: Seq<char>) -> Seq<char> {
    name + "("@ + inner + ")"@
}

impl ParamView {
    /// How messages name a parameter.
    pub open spec fn described(self) -> Seq<char> {
        match self {
            ParamView::Anonymous => "Anonymous"@,
            ParamView::Numbered(n) => applied("Numbered"@, text::decimal(n as nat)),
            ParamView::Colon(s) => applied("Colon"@, text::debug_of_text(s)),
            ParamView::At(s) => applied("At"@, text::debug_of_text(s)),
            ParamView::Dollar(s) => applied("Dollar"@, text::debug_of_text(s)),
        }
    }
}

impl KindView {
    /// How messages name a token.
    #[verifier::opaque]
    pub open spec fn described(self) -> Seq<char> {
        match self {
            KindView::Integer(n) => applied("Integer"@, text::signed_decimal(n as int)),
            KindView::Float(bits) => applied("Float"@, decimal::shown(bits)),
            KindView::Str(s) => applied("String"@, text::debug_of_text(s)),
            KindView::Blob(b) => applied("Blob"@, "["@ + byte_list(b, b.len() as int) + "]"@),
            KindView::Identifier(s) => applied("Identifier"@, text::debug_of_text(s)),
            KindView::Keyword(k) => applied("Keyword"@, k.name()),
            KindView::Param(p) => applied("Param"@, p.described()),
            KindView::Error(s) => applied("Error"@, text::debug_of_text(s)),
            KindView::Null => "Null"@,
            KindView::True => "True"@,
            KindView::False => "False"@,
            KindView::Star => "Star"@,
            KindView::Comma => "Comma"@,
            KindView::Semicolon => "Semicolon"@,
            KindView::LParen => "LParen"@,
            KindView::RParen => "RParen"@,
            KindView::Dot => "Dot"@,
            KindView::Plus => "Plus"@,
            KindView::Minus => "Minus"@,
            KindView::Slash => "Slash"@,
            KindView::Percent => "Percent"@,
            KindView::Eq => "Eq"@,
            KindView::Ne => "Ne"@,
            KindView::Lt => "Lt"@,
            KindView::Le => "Le"@,
            KindView::Gt => "Gt"@,
            KindView::Ge => "Ge"@,
            KindView::Concat => "Concat"@,
            KindView::Arrow => "Arrow"@,
            KindView::ArrowArrow => "ArrowArrow"@,
            KindView::BitAnd => "BitAnd"@,
            KindView::BitOr => "BitOr"@,
            KindView::BitNot => "BitNot"@,
            KindView::Shl => "Shl"@,
            KindView::Shr => "Shr"@,
            KindView::Eof => "Eof"@,
        }
    }
}

fn apply_name(name: &str, inner: &str) -> (r: String)
    ensures
        r@ == applied(name@, inner@),
{
    let mut r = name.to_owned();
    r.append("(");
    r.append(inner);
    r.append(")");
    r
}

impl Param {
    /// How messages name this parameter.
    pub fn describe(&self) -> (r: String)
        ensures
            r@ == self@.described(),
    {
        match self {
            Param::Anonymous => "Anonymous".to_owned(),
            Param::Numbered(n) => apply_name(
                "Numbered",
                text::unsigned_to_text(*n as u64).as_str(),
            ),
            Param::Colon(s) => apply_name("Colon", text::debug_text(s.as_str()).as_str()),
            Param::At(s) => apply_name("At", text::debug_text(s.as_str()).as_str()),
            Param::Dollar(s) => apply_name("Dollar", text::debug_text(s.as_str()).as_str()),
        }
    }
}

fn list_bytes(bytes: &Vec<u8>) -> (r: String)
    ensures
        r@ == byte_list(bytes@, bytes@.len() as int),
{
    let mut r = String::new();
    let mut i: usize = 0;
    while i < bytes.len()
        invariant
            i <= bytes.len(),
            r@ == byte_list(bytes@, i as int),
        decreases bytes.len() - i,
    {
        let ghost past = r@;
        if i > 0 {
            r.append(", ");
        }
        let digits = text::unsigned_to_text(bytes[i] as u64);
        r.append(digits.as_str());
        assert(i == 0 ==> past + digits@ =~= digits@);
        i = i + 1;
    }
    r
}

impl TokenKind {
    /// How messages name this token.
    pub fn describe(&self) -> (r: String)
        ensures
            r@ == self@.described(),
    {
        proof {
            reveal(KindView::described);
        }
        match self {
            TokenKind::Integer(n) => apply_name("Integer", text::signed_to_text(*n).as_str()),
            TokenKind::Float(bits) => apply_name("Float", decimal::show_double(*bits).as_str()),
            TokenKind::String(s) => apply_name("String", text::debug_text(s.as_str()).as_str()),
            TokenKind::Blob(b) => {
                let mut list = "[".to_owned();
                list.append(list_bytes(b).as_str());
                list.append("]");
                apply_name("Blob", list.as_str())
            },
            TokenKind::Identifier(s) => apply_name(
                "Identifier",
                text::debug_text(s.as_str()).as_str(),
            ),
            TokenKind::Keyword(k) => apply_name("Keyword", k.text()),
            TokenKind::Param(p) => apply_name("Param", p.describe().as_str()),
            TokenKind::Error(s) => apply_name("Error", text::debug_text(s.as_str()).as_str()),
            TokenKind::Null => "Null".to_owned(),
            TokenKind::True => "True".to_owned(),
            TokenKind::False => "False".to_owned(),
            TokenKind::Star => "Star".to_owned(),
            TokenKind::Comma => "Comma".to_owned(),
            TokenKind::Semicolon => "Semicolon".to_owned(),
            TokenKind::LParen => "LParen".to_owned(),
            TokenKind::RParen => "RParen".to_owned(),
            TokenKind::Dot => "Dot".to_owned(),
            TokenKind::Plus => "Plus".to_owned(),
            TokenKind::Minus => "Minus".to_owned(),
            TokenKind::Slash => "Slash".to_owned(),
            TokenKind::Percent => "Percent".to_owned(),
            TokenKind::Eq => "Eq".to_owned(),
            TokenKind::Ne => "Ne".to_owned(),
            TokenKind::Lt => "Lt".to_owned(),
            TokenKind::Le => "Le".to_owned(),
            TokenKind::Gt => "Gt".to_owned(),
            TokenKind::Ge => "Ge".to_owned(),
            TokenKind::Concat => "Concat".to_owned(),
            TokenKind::Arrow => "Arrow".to_owned(),
            TokenKind::ArrowArrow => "ArrowArrow".to_owned(),
            TokenKind::BitAnd => "BitAnd".to_owned(),
            TokenKind::BitOr => "BitOr".to_owned(),
            TokenKind::BitNot => "BitNot".to_owned(),
            TokenKind::Shl => "Shl".to_owned(),
            TokenKind::Shr => "Shr".to_owned(),
            TokenKind::Eof => "Eof".to_owned(),
        }
    }
}

} // verus!
