//! Recursive-descent parser.
//!
//! Descending-precedence call order: `expr` (guarded) -> `bool_expr` (OR/AND) ->
//! `not_expr` (guarded) -> `equality_expr` -> `binary_expr`
//! (relational/bitwise/additive/multiplicative/concat, precedence-climbing) ->
//! `arrow_expr` -> `collate_expr` -> `unary_expr` (guarded) -> `primary_expr`.
use crate::double;
use crate::parser::ast;
use crate::parser::ast::{Assignment, AssignmentView, BinaryOp, Distinctness, Expr, ExprKind,
    ExprView, FromClause, Literal, ParamKind, ResultColumn, UnaryOp};
use crate::parser::error::{PResult, ParseFail};
use crate::parser::rules;
use crate::parser::rules::{CoreView, FailView, Parsed};
use crate::parser::tokenizer;
use crate::parser::tokenizer::{Keyword, KindView, Param, Span, Token, TokenKind, TokenView};
use crate::text;
use vstd::prelude::*;

mod change;
mod define;
mod expression;
mod query;

pub(crate) use crate::parser::grammar::expression::is_type_name;

verus! {

/// The tokens of a statement with the parser's place among them.
pub struct Parser {
    tokens: Vec<Token>,
    pos: usize,
    depth: usize,
}

pub(super) fn join_span(a: Span, b: Span) -> (r: Span)
    ensures
        r == rules::join_span(a, b),
{
    Span {
        line: a.line,
        column: a.column,
        offset: a.offset,
        len: b.offset.saturating_add(b.len).saturating_sub(a.offset),
    }
}

/// The token kinds that carry no value and are looked for by name.
#[derive(Debug, Clone, Copy, PartialEq, Eq, Structural)]
pub(super) enum Punct {
    Star,
    Comma,
    Semicolon,
    LParen,
    RParen,
    Dot,
    Eq,
    Null,
    Eof,
}

impl Punct {
    pub(super) open spec fn kind(self) -> KindView {
        match self {
            Punct::Star => KindView::Star,
            Punct::Comma => KindView::Comma,
            Punct::Semicolon => KindView::Semicolon,
            Punct::LParen => KindView::LParen,
            Punct::RParen => KindView::RParen,
            Punct::Dot => KindView::Dot,
            Punct::Eq => KindView::Eq,
            Punct::Null => KindView::Null,
            Punct::Eof => KindView::Eof,
        }
    }
}

pub(super) open spec fn some_expr(x: Option<Expr>) -> Option<ExprView> {
    match x {
        Some(e) => Some(e@),
        None => None,
    }
}

pub(super) open spec fn some_text(x: Option<String>) -> Option<Seq<char>> {
    match x {
        Some(s) => Some(s@),
        None => None,
    }
}

/// A `SELECT` or an arm of a compound one, in the making.
pub(super) struct Core {
    pub(super) distinct: Option<Distinctness>,
    pub(super) columns: Vec<ResultColumn>,
    pub(super) from: Option<FromClause>,
    pub(super) where_clause: Option<Expr>,
    pub(super) group_by: Vec<Expr>,
    pub(super) having: Option<Expr>,
}

impl Core {
    pub(super) open spec fn view(&self) -> CoreView {
        CoreView {
            distinct: self.distinct,
            columns: ast::result_columns(self.columns@),
            from: match self.from {
                Some(v) => Some(v@),
                None => None,
            },
            where_clause: some_expr(self.where_clause),
            group_by: ast::expr_list(self.group_by@),
            having: some_expr(self.having),
        }
    }
}

impl Parser {
    /// The tokens, each as what it stands for.
    pub closed spec fn toks(&self) -> Seq<TokenView> {
        tokenizer::token_views(self.tokens@)
    }

    /// The place of the next token.
    pub closed spec fn at(&self) -> int {
        self.pos as int
    }

    /// How deep the expressions around the place are nested.
    pub closed spec fn level(&self) -> nat {
        self.depth as nat
    }

    /// The tokens end with the end of input, and the place is one of them.
    pub closed spec fn wf(&self) -> bool {
        &&& self.pos < self.tokens.len()
        &&& self.tokens@.last().kind == TokenKind::Eof
    }

    /// Holds the same tokens as `before`.
    pub closed spec fn keeps(&self, before: &Parser) -> bool {
        self.tokens == before.tokens
    }

    /// Same tokens, same nesting, at `before`'s place or behind it.
    pub open spec fn follows(&self, before: &Parser) -> bool {
        &&& self.wf()
        &&& self.keeps(before)
        &&& self.toks() == before.toks()
        &&& self.level() == before.level()
        &&& self.at() >= before.at()
    }

    /// A parser in front of the first of `tokens`.
    pub fn new(tokens: Vec<Token>) -> (parser: Self)
        ensures
            parser.toks() == tokenizer::token_views(tokens@),
            parser.at() == 0,
            parser.level() == 0,
            (tokens@.len() > 0 && tokens@.last()@.kind == KindView::Eof) ==> parser.wf(),
    {
        Parser { tokens, pos: 0, depth: 0 }
    }

    // ---- token stream helpers ----------------------------------------

    pub(super) fn peek(&self) -> (token: &Token)
        requires
            self.wf(),
        ensures
            token@ == rules::tok(self.toks(), self.at()),
    {
        &self.tokens[self.pos]
    }

    pub(super) fn peek_at(&self, ahead: usize) -> (token: &Token)
        requires
            self.wf(),
        ensures
            token@ == rules::tok(self.toks(), self.at() + ahead),
    {
        if ahead < self.tokens.len() - self.pos {
            &self.tokens[self.pos + ahead]
        } else {
            &self.tokens[self.tokens.len() - 1]
        }
    }

    /// The span of the next token.
    pub(super) fn here(&self) -> (span: Span)
        requires
            self.wf(),
        ensures
            span == rules::span(self.toks(), self.at()),
    {
        self.peek().span
    }

    /// The span of the token in front of the place.
    pub(super) fn behind(&self) -> (span: Span)
        requires
            self.wf(),
        ensures
            span == rules::last_span(self.toks(), self.at()),
    {
        if self.pos > 0 {
            self.tokens[self.pos - 1].span
        } else {
            self.tokens[0].span
        }
    }

    /// Moves behind the next token, which is not the end of input.
    pub(super) fn advance(&mut self)
        requires
            old(self).wf(),
            rules::kind(old(self).toks(), old(self).at()) != KindView::Eof,
        ensures
            final(self).follows(old(self)),
            final(self).at() == old(self).at() + 1,
    {
        assert(self.toks()[self.pos as int] == self.tokens@[self.pos as int]@);
        self.pos = self.pos + 1;
    }

    pub(super) fn at_kw_ahead(&self, ahead: usize, kw: Keyword) -> (b: bool)
        requires
            self.wf(),
        ensures
            b == rules::at_kw(self.toks(), self.at() + ahead, kw),
    {
        match &self.peek_at(ahead).kind {
            TokenKind::Keyword(k) => *k == kw,
            _ => false,
        }
    }

    pub(super) fn at_kw(&self, kw: Keyword) -> (b: bool)
        requires
            self.wf(),
        ensures
            b == rules::at_kw(self.toks(), self.at(), kw),
    {
        self.at_kw_ahead(0, kw)
    }

    pub(super) fn eat_kw(&mut self, kw: Keyword) -> (b: bool)
        requires
            old(self).wf(),
        ensures
            final(self).follows(old(self)),
            b == rules::at_kw(old(self).toks(), old(self).at(), kw),
            final(self).at() == rules::skip_kw(old(self).toks(), old(self).at(), kw),
    {
        if self.at_kw(kw) {
            self.advance();
            true
        } else {
            false
        }
    }

    pub(super) fn at_punct_ahead(&self, ahead: usize, punct: Punct) -> (b: bool)
        requires
            self.wf(),
        ensures
            b == (rules::kind(self.toks(), self.at() + ahead) == punct.kind()),
    {
        let kind = &self.peek_at(ahead).kind;
        match punct {
            Punct::Star => matches!(kind, TokenKind::Star),
            Punct::Comma => matches!(kind, TokenKind::Comma),
            Punct::Semicolon => matches!(kind, TokenKind::Semicolon),
            Punct::LParen => matches!(kind, TokenKind::LParen),
            Punct::RParen => matches!(kind, TokenKind::RParen),
            Punct::Dot => matches!(kind, TokenKind::Dot),
            Punct::Eq => matches!(kind, TokenKind::Eq),
            Punct::Null => matches!(kind, TokenKind::Null),
            Punct::Eof => matches!(kind, TokenKind::Eof),
        }
    }

    pub(super) fn at_punct(&self, punct: Punct) -> (b: bool)
        requires
            self.wf(),
        ensures
            b == (rules::kind(self.toks(), self.at()) == punct.kind()),
    {
        self.at_punct_ahead(0, punct)
    }

    pub(super) fn eat_punct(&mut self, punct: Punct) -> (b: bool)
        requires
            old(self).wf(),
            punct != Punct::Eof,
        ensures
            final(self).follows(old(self)),
            b == (rules::kind(old(self).toks(), old(self).at()) == punct.kind()),
            final(self).at() == old(self).at() + (if b { 1int } else { 0 }),
    {
        if self.at_punct(punct) {
            self.advance();
            true
        } else {
            false
        }
    }

    pub(super) fn invalid(&self, message: &str) -> (f: ParseFail)
        requires
            self.wf(),
        ensures
            f@ == (FailView {
                unsupported: false,
                message: message@,
                span: rules::span(self.toks(), self.at()),
            }),
    {
        ParseFail::Invalid { message: message.to_owned(), span: self.here() }
    }

    pub(super) fn unsupported(&self, message: &str) -> (f: ParseFail)
        requires
            self.wf(),
        ensures
            f@ == (FailView {
                unsupported: true,
                message: message@,
                span: rules::span(self.toks(), self.at()),
            }),
    {
        ParseFail::Unsupported { message: message.to_owned(), span: self.here() }
    }

    /// The failure that names what was looked for and what stands at the place.
    pub(super) fn expected(&self, what: &str) -> (f: ParseFail)
        requires
            self.wf(),
        ensures
            rules::expected::<()>(self.toks(), self.at(), what@) == Parsed::<()>::Err(f@),
    {
        let mut message = "expected ".to_owned();
        message.append(what);
        message.append(", found ");
        message.append(self.peek().kind.describe().as_str());
        ParseFail::Invalid { message, span: self.here() }
    }

    /// The name at the place, where an identifier stands there.
    pub(super) fn name_here(&self) -> (name: Option<String>)
        requires
            self.wf(),
        ensures
            match name {
                Some(s) => rules::kind(self.toks(), self.at()) == KindView::Identifier(s@),
                None => !(rules::kind(self.toks(), self.at()) is Identifier),
            },
    {
        match &self.peek().kind {
            TokenKind::Identifier(name) => Some(name.clone()),
            _ => None,
        }
    }

    /// Whether the contextual keyword `word` stands at the place.
    pub(super) fn at_word(&self, word: &str) -> (b: bool)
        requires
            self.wf(),
        ensures
            b == rules::at_word(self.toks(), self.at(), word@),
    {
        match &self.peek().kind {
            TokenKind::Identifier(id) => text::same_ignoring_case(id.as_str(), word),
            _ => false,
        }
    }

    /// The literal that the token at the place stands for.
    pub(super) fn literal_here(&self) -> (literal: Option<Literal>)
        requires
            self.wf(),
        ensures
            match literal {
                Some(l) => rules::literal_of(rules::kind(self.toks(), self.at())) == Some(l@),
                None => rules::literal_of(rules::kind(self.toks(), self.at())) is None,
            },
    {
        match &self.peek().kind {
            TokenKind::Integer(v) => Some(Literal::Integer(*v)),
            TokenKind::Float(v) => Some(Literal::Float(*v)),
            TokenKind::String(v) => Some(Literal::Str(v.clone())),
            TokenKind::Blob(v) => Some(Literal::Blob(copy_bytes(v))),
            TokenKind::Null => Some(Literal::Null),
            TokenKind::True => Some(Literal::True),
            TokenKind::False => Some(Literal::False),
            _ => None,
        }
    }

    pub(super) fn keyword_here(&self) -> (kw: Option<Keyword>)
        requires
            self.wf(),
        ensures
            match kw {
                Some(k) => rules::kind(self.toks(), self.at()) == KindView::Keyword(k),
                None => !(rules::kind(self.toks(), self.at()) is Keyword),
            },
    {
        match &self.peek().kind {
            TokenKind::Keyword(k) => Some(*k),
            _ => None,
        }
    }

    pub(super) fn param_here(&self) -> (param: Option<ParamKind>)
        requires
            self.wf(),
        ensures
            match param {
                Some(p) => rules::kind(self.toks(), self.at()) is Param && p@ == rules::param_of(
                    rules::kind(self.toks(), self.at())->Param_0,
                ),
                None => !(rules::kind(self.toks(), self.at()) is Param),
            },
    {
        match &self.peek().kind {
            TokenKind::Param(p) => Some(
                match p {
                    Param::Anonymous => ParamKind::Anonymous,
                    Param::Numbered(n) => ParamKind::Numbered(*n),
                    Param::Colon(s) => ParamKind::Colon(s.clone()),
                    Param::At(s) => ParamKind::At(s.clone()),
                    Param::Dollar(s) => ParamKind::Dollar(s.clone()),
                },
            ),
            _ => None,
        }
    }

    pub(super) fn at_compound_op(&self) -> (b: bool)
        requires
            self.wf(),
        ensures
            b == rules::at_compound_op(self.toks(), self.at()),
    {
        self.at_kw(Keyword::UNION) || self.at_kw(Keyword::INTERSECT) || self.at_kw(
            Keyword::EXCEPT,
        )
    }

    pub(super) fn at_current_time(&self) -> (b: bool)
        requires
            self.wf(),
        ensures
            b == rules::at_current_time(self.toks(), self.at()),
    {
        self.at_kw(Keyword::CURRENT_TIME) || self.at_kw(Keyword::CURRENT_DATE) || self.at_kw(
            Keyword::CURRENT_TIMESTAMP,
        )
    }

    pub(super) fn direction(&mut self) -> (desc: Option<bool>)
        requires
            old(self).wf(),
        ensures
            final(self).follows(old(self)),
            (desc, final(self).at()) == rules::direction(old(self).toks(), old(self).at()),
    {
        if self.eat_kw(Keyword::ASC) {
            Some(false)
        } else if self.eat_kw(Keyword::DESC) {
            Some(true)
        } else {
            None
        }
    }

    pub(super) fn distinctness(&mut self) -> (r: Option<Distinctness>)
        requires
            old(self).wf(),
        ensures
            final(self).follows(old(self)),
            (r, final(self).at()) == rules::distinctness(old(self).toks(), old(self).at()),
    {
        if self.eat_kw(Keyword::DISTINCT) {
            Some(Distinctness::Distinct)
        } else if self.eat_kw(Keyword::ALL) {
            Some(Distinctness::All)
        } else {
            None
        }
    }

    pub(super) fn expect_kw(&mut self, kw: Keyword) -> (r: PResult<Span>)
        requires
            old(self).wf(),
        ensures
            final(self).follows(old(self)),
            r is Ok ==> final(self).at() > old(self).at(),
            match r {
                Ok(x) => rules::expect_kw(old(self).toks(), old(self).at(), kw)
                    == Parsed::<Span>::Ok((x, final(self).at())),
                Err(f) => rules::expect_kw(old(self).toks(), old(self).at(), kw)
                    == Parsed::<Span>::Err(f@),
            },
    {
        if self.at_kw(kw) {
            let span = self.here();
            self.advance();
            Ok(span)
        } else {
            Err(self.expected(kw.text()))
        }
    }

    pub(super) fn expect_punct(&mut self, punct: Punct, what: &str) -> (r: PResult<Span>)
        requires
            old(self).wf(),
            punct != Punct::Eof,
        ensures
            final(self).follows(old(self)),
            r is Ok ==> final(self).at() > old(self).at(),
            match r {
                Ok(x) => rules::expect_punct(old(self).toks(), old(self).at(), punct.kind(), what@)
                    == Parsed::<Span>::Ok((x, final(self).at())),
                Err(f) => rules::expect_punct(old(self).toks(), old(self).at(), punct.kind(),
                    what@) == Parsed::<Span>::Err(f@),
            },
    {
        if self.at_punct(punct) {
            let span = self.here();
            self.advance();
            Ok(span)
        } else {
            Err(self.expected(what))
        }
    }

    /// After a full statement is parsed, only a trailing `;` (optionally repeated) and the
    /// end of input are allowed.
    pub(crate) fn expect_end(&mut self) -> (r: PResult<()>)
        requires
            old(self).wf(),
        ensures
            final(self).follows(old(self)),
            match r {
                Ok(x) => rules::end_of_statement(old(self).toks(), old(self).at())
                    == Parsed::<()>::Ok(((), final(self).at())),
                Err(f) => rules::end_of_statement(old(self).toks(), old(self).at())
                    == Parsed::<()>::Err(f@),
            },
    {
        let ghost t = self.toks();
        while self.at_punct(Punct::Semicolon)
            invariant
                self.follows(old(self)),
                t == self.toks(),
                t == old(self).toks(),
                rules::skip_semicolons(t, self.at()) == rules::skip_semicolons(t, old(self).at()),
            decreases self.tokens.len() - self.pos,
        {
            self.advance();
        }
        if self.at_punct(Punct::Eof) {
            Ok(())
        } else if self.at_compound_op() {
            Err(
                self.unsupported("compound SELECT (UNION/INTERSECT/EXCEPT) not yet supported"),
            )
        } else {
            let mut message = "unexpected trailing token ".to_owned();
            message.append(self.peek().kind.describe().as_str());
            Err(ParseFail::Invalid { message, span: self.here() })
        }
    }

    pub(super) fn identifier(&mut self) -> (r: PResult<(String, Span)>)
        requires
            old(self).wf(),
        ensures
            final(self).follows(old(self)),
            r is Ok ==> final(self).at() > old(self).at(),
            match r {
                Ok(x) => rules::identifier(old(self).toks(), old(self).at())
                    == Parsed::<(Seq<char>, Span)>::Ok(((x.0@, x.1), final(self).at())),
                Err(f) => rules::identifier(old(self).toks(), old(self).at())
                    == Parsed::<(Seq<char>, Span)>::Err(f@),
            },
    {
        match self.name_here() {
            Some(name) => {
                let span = self.here();
                self.advance();
                Ok((name, span))
            },
            None => Err(self.expected("identifier")),
        }
    }

    /// `identifier { "," identifier }`.
    pub(super) fn name_list(&mut self) -> (r: PResult<Vec<String>>)
        requires
            old(self).wf(),
        ensures
            final(self).follows(old(self)),
            r is Ok ==> final(self).at() > old(self).at(),
            match r {
                Ok(x) => rules::name_list(old(self).toks(), old(self).at())
                    == Parsed::<Seq<Seq<char>>>::Ok((text::texts(x@), final(self).at())),
                Err(f) => rules::name_list(old(self).toks(), old(self).at())
                    == Parsed::<Seq<Seq<char>>>::Err(f@),
            },
    {
        let (first, _) = self.identifier()?;
        let mut names: Vec<String> = Vec::new();
        let ghost t = self.toks();
        names.push(first);
        assert(text::texts(names@) =~= seq![first@]);
        while self.at_punct(Punct::Comma)
            invariant
                self.follows(old(self)),
                self.pos > old(self).pos,
                t == self.toks(),
                rules::name_list(t, old(self).at()) == rules::more_names(
                    t,
                    self.at(),
                    text::texts(names@),
                ),
            decreases self.tokens.len() - self.pos,
        {
            self.advance();
            let (name, _) = self.identifier()?;
            proof {
                text::lemma_texts_push(names@, name);
            }
            names.push(name);
        }
        Ok(names)
    }

    /// `[ [ "AS" ] identifier ]`.
    pub(super) fn opt_alias(&mut self) -> (r: PResult<Option<String>>)
        requires
            old(self).wf(),
        ensures
            final(self).follows(old(self)),
            match r {
                Ok(x) => rules::opt_alias(old(self).toks(), old(self).at())
                    == Parsed::<Option<Seq<char>>>::Ok((some_text(x), final(self).at())),
                Err(f) => rules::opt_alias(old(self).toks(), old(self).at())
                    == Parsed::<Option<Seq<char>>>::Err(f@),
            },
    {
        if self.eat_kw(Keyword::AS) {
            let (name, _) = self.identifier()?;
            return Ok(Some(name));
        }
        match self.name_here() {
            Some(name) => {
                self.advance();
                Ok(Some(name))
            },
            None => Ok(None),
        }
    }
}

/// The binary operator a token stands for, with its precedence.
pub(super) fn binary_op(kind: &TokenKind) -> (r: Option<(BinaryOp, u8)>)
    ensures
        match r {
            Some((op, prec)) => rules::binary_op(kind@) == Some((op, prec as int)) && 1 <= prec
                <= 5,
            None => rules::binary_op(kind@) is None,
        },
{
    match kind {
        TokenKind::Lt => Some((BinaryOp::Lt, 1)),
        TokenKind::Le => Some((BinaryOp::Le, 1)),
        TokenKind::Gt => Some((BinaryOp::Gt, 1)),
        TokenKind::Ge => Some((BinaryOp::Ge, 1)),
        TokenKind::BitAnd => Some((BinaryOp::BitAnd, 2)),
        TokenKind::BitOr => Some((BinaryOp::BitOr, 2)),
        TokenKind::Shl => Some((BinaryOp::Shl, 2)),
        TokenKind::Shr => Some((BinaryOp::Shr, 2)),
        TokenKind::Plus => Some((BinaryOp::Add, 3)),
        TokenKind::Minus => Some((BinaryOp::Sub, 3)),
        TokenKind::Star => Some((BinaryOp::Mul, 4)),
        TokenKind::Slash => Some((BinaryOp::Div, 4)),
        TokenKind::Percent => Some((BinaryOp::Mod, 4)),
        TokenKind::Concat => Some((BinaryOp::Concat, 5)),
        _ => None,
    }
}

pub(super) fn bin(op: BinaryOp, lhs: Expr, rhs: Expr) -> (e: Expr)
    ensures
        e@ == rules::bin(op, lhs@, rhs@),
{
    let span = join_span(lhs.span, rhs.span);
    Expr { kind: ExprKind::Binary { op, lhs: Box::new(lhs), rhs: Box::new(rhs) }, span }
}

pub(super) fn case_of(
    operand: Option<Expr>,
    whens: Vec<(Expr, Expr)>,
    otherwise: Option<Expr>,
    span: Span,
) -> (e: Expr)
    ensures
        e@ == rules::case_of(
            some_expr(operand),
            ast::expr_pairs(whens@),
            some_expr(otherwise),
            span,
        ),
{
    let operand = match operand {
        Some(x) => Some(Box::new(x)),
        None => None,
    };
    let else_ = match otherwise {
        Some(x) => Some(Box::new(x)),
        None => None,
    };
    Expr { kind: ExprKind::Case { operand, whens, else_ }, span }
}

pub(super) fn is_null(lhs: Expr, negated: bool, end: Span) -> (e: Expr)
    ensures
        e@ == rules::is_null(lhs@, negated, end),
{
    let span = join_span(lhs.span, end);
    Expr { kind: ExprKind::IsNull { expr: Box::new(lhs), negated }, span }
}

pub(super) fn unary(op: UnaryOp, inner: Expr, at: Span) -> (e: Expr)
    ensures
        e@ == rules::unary(op, inner@, at),
{
    let span = join_span(at, inner.span);
    if op == UnaryOp::Minus {
        if let ExprKind::Literal(Literal::Float(bits)) = &inner.kind {
            if *bits == double::TWO_POW_63 {
                return Expr { kind: ExprKind::Literal(Literal::Integer(i64::MIN)), span };
            }
        }
    }
    Expr { kind: ExprKind::Unary { op, expr: Box::new(inner) }, span }
}

pub(super) fn copy_bytes(v: &Vec<u8>) -> (r: Vec<u8>)
    ensures
        r@ == v@,
{
    let mut r: Vec<u8> = Vec::new();
    r.extend_from_slice(v.as_slice());
    assert(r@ =~= v@);
    r
}

/// Each column with its value.
pub(super) fn pair_up(columns: Vec<String>, values: Vec<Expr>) -> (list: Vec<Assignment>)
    requires
        columns.len() == values.len(),
    ensures
        ast::assignments(list@) == rules::paired(text::texts(columns@), ast::expr_list(values@)),
{
    let ghost names = columns@;
    let ghost nodes = values@;
    let mut columns = columns;
    let mut values = values;
    let mut backwards: Vec<Assignment> = Vec::new();
    let n = columns.len();
    while columns.len() > 0
        invariant
            names.len() == nodes.len() == n,
            columns@.len() == values@.len() <= n,
            columns@ == names.take(columns@.len() as int),
            values@ == nodes.take(values@.len() as int),
            backwards@.len() == n - columns@.len(),
            forall|i: int|
                0 <= i < backwards@.len() ==> (#[trigger] backwards@[i])@ == (AssignmentView {
                    columns: seq![names[n - 1 - i]@],
                    value: nodes[n - 1 - i]@,
                }),
        decreases columns@.len(),
    {
        let name = columns.pop().unwrap();
        let value = values.pop().unwrap();
        let mut one: Vec<String> = Vec::new();
        one.push(name);
        assert(text::texts(one@) =~= seq![name@]);
        backwards.push(Assignment { columns: one, value });
    }
    let mut list: Vec<Assignment> = Vec::new();
    while backwards.len() > 0
        invariant
            names.len() == nodes.len() == n,
            backwards@.len() + list@.len() == n,
            forall|i: int|
                0 <= i < backwards@.len() ==> (#[trigger] backwards@[i])@ == (AssignmentView {
                    columns: seq![names[n - 1 - i]@],
                    value: nodes[n - 1 - i]@,
                }),
            forall|i: int|
                0 <= i < list@.len() ==> (#[trigger] list@[i])@ == (AssignmentView {
                    columns: seq![names[i]@],
                    value: nodes[i]@,
                }),
        decreases backwards@.len(),
    {
        let last = backwards.pop().unwrap();
        list.push(last);
    }
    assert(ast::assignments(list@) =~= rules::paired(text::texts(names), ast::expr_list(nodes)));
    list
}

} // verus!
