//! Expressions, in order of precedence.
use crate::parser::ast;
use crate::parser::ast::{BinaryOp, Expr, ExprKind, ExprView, FunctionArgs, FunctionArgsView,
    Literal, Select, SelectView, UnaryOp};
use crate::parser::error::{PResult};
use crate::parser::grammar::{bin, binary_op, case_of, is_null, join_span, some_expr, unary, Parser,
    Punct};
use crate::parser::printer;
use crate::parser::rules;
use crate::parser::rules::{Parsed, MAX_EXPR_DEPTH};
use crate::parser::tokenizer;
use crate::parser::tokenizer::{Keyword, KindView, Param, Span, TokenKind, Tokenizer};
use crate::text;
use vstd::prelude::*;

verus! {

impl Parser {
    pub(crate) fn expr(&mut self) -> (r: PResult<Expr>)
        requires
            old(self).wf(),
        ensures
            final(self).follows(old(self)),
            r is Ok ==> final(self).at() > old(self).at(),
            match r {
                Ok(x) => rules::expr(old(self).toks(), old(self).at(), old(self).level())
                    == Parsed::<ExprView>::Ok((x@, final(self).at())),
                Err(f) => rules::expr(old(self).toks(), old(self).at(), old(self).level())
                    == Parsed::<ExprView>::Err(f@),
            },
        decreases MAX_EXPR_DEPTH - old(self).level(), 0int, 0nat,
    {
        if self.depth >= MAX_EXPR_DEPTH {
            return Err(self.invalid("expression nesting too deep"));
        }
        self.depth = self.depth + 1;
        let r = self.bool_expr(false);
        self.depth = self.depth - 1;
        r
    }

    /// `OR` and `AND`, of which `AND` binds tighter; with `and_only`, `AND` alone.
    pub(super) fn bool_expr(&mut self, and_only: bool) -> (r: PResult<Expr>)
        requires
            old(self).wf(),
        ensures
            final(self).follows(old(self)),
            r is Ok ==> final(self).at() > old(self).at(),
            match r {
                Ok(x) => rules::bool_expr(old(self).toks(), old(self).at(), old(self).level(),
                    and_only) == Parsed::<ExprView>::Ok((x@, final(self).at())),
                Err(f) => rules::bool_expr(old(self).toks(), old(self).at(), old(self).level(),
                    and_only) == Parsed::<ExprView>::Err(f@),
            },
        decreases MAX_EXPR_DEPTH - old(self).level(), (if and_only { 42int } else { 44 }), 0nat,
    {
        let mut lhs = self.not_expr()?;
        let ghost t = self.toks();
        let ghost d = self.level();
        loop
            invariant
                self.follows(old(self)),
                self.pos > old(self).pos,
                t == self.toks(),
                d == self.level(),
                t == old(self).toks(),
                d == old(self).level(),
                rules::bool_expr(t, old(self).at(), d, and_only) == rules::bool_rest(
                    t,
                    self.at(),
                    d,
                    and_only,
                    lhs@,
                ),
            decreases self.tokens.len() - self.pos,
        {
            if self.at_kw(Keyword::AND) {
                self.advance();
                let rhs = self.not_expr()?;
                lhs = bin(BinaryOp::And, lhs, rhs);
            } else if self.at_kw(Keyword::OR) && !and_only {
                self.advance();
                let rhs = self.bool_expr(true)?;
                lhs = bin(BinaryOp::Or, lhs, rhs);
            } else {
                return Ok(lhs);
            }
        }
    }

    pub(super) fn not_expr(&mut self) -> (r: PResult<Expr>)
        requires
            old(self).wf(),
        ensures
            final(self).follows(old(self)),
            r is Ok ==> final(self).at() > old(self).at(),
            match r {
                Ok(x) => rules::not_expr(old(self).toks(), old(self).at(), old(self).level())
                    == Parsed::<ExprView>::Ok((x@, final(self).at())),
                Err(f) => rules::not_expr(old(self).toks(), old(self).at(), old(self).level())
                    == Parsed::<ExprView>::Err(f@),
            },
        decreases MAX_EXPR_DEPTH - old(self).level(), 1int, 0nat,
    {
        if self.depth >= MAX_EXPR_DEPTH {
            return Err(self.invalid("expression nesting too deep"));
        }
        self.depth = self.depth + 1;
        let r = self.not_operand();
        self.depth = self.depth - 1;
        r
    }

    /// What `not_expr` reads, one level down.
    #[verifier::rlimit(40)]
    pub(super) fn not_operand(&mut self) -> (r: PResult<Expr>)
        requires
            old(self).wf(),
            1 <= old(self).depth <= MAX_EXPR_DEPTH,
        ensures
            final(self).follows(old(self)),
            r is Ok ==> final(self).at() > old(self).at(),
            ({
                let rule = rules::not_expr(
                    old(self).toks(),
                    old(self).at(),
                    (old(self).level() - 1) as nat,
                );
                match r {
                    Ok(x) => rule == Parsed::<ExprView>::Ok((x@, final(self).at())),
                    Err(f) => rule == Parsed::<ExprView>::Err(f@),
                }
            }),
        decreases MAX_EXPR_DEPTH - old(self).level(), 39int, 0nat,
    {
        if !self.at_kw(Keyword::NOT) {
            return self.equality_expr();
        }
        let start = self.here();
        self.advance();
        if self.eat_kw(Keyword::EXISTS) {
            return self.exists_tail(start, true);
        }
        let inner = self.not_expr()?;
        let span = join_span(start, inner.span);
        Ok(Expr { kind: ExprKind::Unary { op: UnaryOp::Not, expr: Box::new(inner) }, span })
    }

    pub(super) fn equality_expr(&mut self) -> (r: PResult<Expr>)
        requires
            old(self).wf(),
        ensures
            final(self).follows(old(self)),
            r is Ok ==> final(self).at() > old(self).at(),
            match r {
                Ok(x) => rules::equality_expr(old(self).toks(), old(self).at(), old(self).level())
                    == Parsed::<ExprView>::Ok((x@, final(self).at())),
                Err(f) => rules::equality_expr(old(self).toks(), old(self).at(), old(self).level())
                    == Parsed::<ExprView>::Err(f@),
            },
        decreases MAX_EXPR_DEPTH - old(self).level(), 38int, 0nat,
    {
        let mut lhs = self.binary_expr(1)?;
        let ghost t = self.toks();
        let ghost d = self.level();
        loop
            invariant
                self.follows(old(self)),
                self.pos > old(self).pos,
                t == self.toks(),
                d == self.level(),
                t == old(self).toks(),
                d == old(self).level(),
                rules::equality_expr(t, old(self).at(), d) == rules::equality_rest(
                    t,
                    self.at(),
                    d,
                    lhs@,
                ),
            decreases self.tokens.len() - self.pos,
        {
            match self.equality_step(lhs)? {
                Ok(e) => {
                    lhs = e;
                },
                Err(e) => {
                    return Ok(e);
                },
            }
        }
    }

    /// One operator of the equality level with its right-hand side, applied to `lhs`; gives
    /// `lhs` back as `Err` where there is none at the place.
    #[verifier::rlimit(40)]
    pub(super) fn equality_step(&mut self, lhs: Expr) -> (r: PResult<Result<Expr, Expr>>)
        requires
            old(self).wf(),
        ensures
            final(self).follows(old(self)),
            ({
                let step = rules::equality_step(
                    old(self).toks(),
                    old(self).at(),
                    old(self).level(),
                    lhs@,
                );
                match r {
                    Ok(Ok(x)) => step == Some(Parsed::<ExprView>::Ok((x@, final(self).at())))
                        && final(self).at() > old(self).at(),
                    Ok(Err(x)) => step is None && x == lhs && final(self).at() == old(self).at(),
                    Err(f) => step == Some(Parsed::<ExprView>::Err(f@)),
                }
            }),
        decreases MAX_EXPR_DEPTH - old(self).level(), 37int, 0nat,
    {
        let at_eq = self.at_punct(Punct::Eq);
        if at_eq || matches!(self.peek().kind, TokenKind::Ne) {
            self.advance();
            let rhs = self.binary_expr(1)?;
            let op = if at_eq {
                BinaryOp::Eq
            } else {
                BinaryOp::Ne
            };
            return Ok(Ok(bin(op, lhs, rhs)));
        }
        if self.eat_kw(Keyword::IS) {
            let negated = self.eat_kw(Keyword::NOT);
            let rhs = self.binary_expr(1)?;
            let span = join_span(lhs.span, rhs.span);
            return Ok(
                Ok(
                    Expr {
                        kind: ExprKind::Is { lhs: Box::new(lhs), rhs: Box::new(rhs), negated },
                        span,
                    },
                ),
            );
        }
        let end = self.here();
        if self.eat_kw(Keyword::ISNULL) {
            return Ok(Ok(is_null(lhs, false, end)));
        }
        if self.eat_kw(Keyword::NOTNULL) {
            return Ok(Ok(is_null(lhs, true, end)));
        }
        let at_not = self.at_kw(Keyword::NOT);
        if at_not && self.at_punct_ahead(1, Punct::Null) {
            self.advance();
            let null = self.here();
            self.advance();
            return Ok(Ok(is_null(lhs, true, null)));
        }
        let negated = at_not && (self.at_kw_ahead(1, Keyword::BETWEEN) || self.at_kw_ahead(
            1,
            Keyword::IN,
        ) || self.at_kw_ahead(1, Keyword::LIKE) || self.at_kw_ahead(1, Keyword::GLOB));
        if negated {
            self.advance();
        }
        if self.eat_kw(Keyword::BETWEEN) {
            return Ok(Ok(self.between_tail(lhs, negated)?));
        }
        if self.eat_kw(Keyword::IN) {
            return Ok(Ok(self.in_tail(lhs, negated)?));
        }
        let glob = self.at_kw(Keyword::GLOB);
        if glob || self.at_kw(Keyword::LIKE) {
            self.advance();
            return Ok(Ok(self.like_tail(lhs, glob, negated)?));
        }
        Ok(Err(lhs))
    }

    pub(super) fn between_tail(&mut self, lhs: Expr, negated: bool) -> (r: PResult<Expr>)
        requires
            old(self).wf(),
        ensures
            final(self).follows(old(self)),
            r is Ok ==> final(self).at() > old(self).at(),
            match r {
                Ok(x) => rules::between_tail(old(self).toks(), old(self).at(), old(self).level(),
                    lhs@, negated) == Parsed::<ExprView>::Ok((x@, final(self).at())),
                Err(f) => rules::between_tail(old(self).toks(), old(self).at(), old(self).level(),
                    lhs@, negated) == Parsed::<ExprView>::Err(f@),
            },
        decreases MAX_EXPR_DEPTH - old(self).level(), 36int, 0nat,
    {
        let lo = self.binary_expr(1)?;
        self.expect_kw(Keyword::AND)?;
        let hi = self.binary_expr(1)?;
        let span = join_span(lhs.span, hi.span);
        Ok(
            Expr {
                kind: ExprKind::Between {
                    expr: Box::new(lhs),
                    lo: Box::new(lo),
                    hi: Box::new(hi),
                    negated,
                },
                span,
            },
        )
    }

    pub(super) fn like_tail(&mut self, lhs: Expr, glob: bool, negated: bool) -> (r: PResult<Expr>)
        requires
            old(self).wf(),
        ensures
            final(self).follows(old(self)),
            r is Ok ==> final(self).at() > old(self).at(),
            match r {
                Ok(x) => rules::like_tail(old(self).toks(), old(self).at(), old(self).level(),
                    lhs@, glob, negated) == Parsed::<ExprView>::Ok((x@, final(self).at())),
                Err(f) => rules::like_tail(old(self).toks(), old(self).at(), old(self).level(),
                    lhs@, glob, negated) == Parsed::<ExprView>::Err(f@),
            },
        decreases MAX_EXPR_DEPTH - old(self).level(), 36int, 0nat,
    {
        let pattern = self.binary_expr(1)?;
        let mut span = join_span(lhs.span, pattern.span);
        let escape = if self.eat_kw(Keyword::ESCAPE) {
            let e = self.binary_expr(1)?;
            span = join_span(span, e.span);
            Some(Box::new(e))
        } else {
            None
        };
        Ok(
            Expr {
                kind: ExprKind::Like {
                    expr: Box::new(lhs),
                    pattern: Box::new(pattern),
                    glob,
                    negated,
                    escape,
                },
                span,
            },
        )
    }

    /// `select-stmt ")"`, behind a `(`.
    pub(super) fn subquery(&mut self, what: &str) -> (r: PResult<(Select, Span)>)
        requires
            old(self).wf(),
        ensures
            final(self).follows(old(self)),
            r is Ok ==> final(self).at() > old(self).at(),
            match r {
                Ok(x) => rules::subquery(old(self).toks(), old(self).at(), old(self).level(),
                    what@) == Parsed::<(SelectView, Span)>::Ok(((x.0@, x.1), final(self).at())),
                Err(f) => rules::subquery(old(self).toks(), old(self).at(), old(self).level(),
                    what@) == Parsed::<(SelectView, Span)>::Err(f@),
            },
        decreases MAX_EXPR_DEPTH - old(self).level(), 15int, 0nat,
    {
        let query = self.parse_select_stmt()?;
        if self.at_compound_op() {
            return Err(
                self.unsupported("compound SELECT (UNION/INTERSECT/EXCEPT) not yet supported"),
            );
        }
        let end = self.expect_punct(Punct::RParen, what)?;
        Ok((query, end))
    }

    /// `EXISTS (SELECT ...)` / `NOT EXISTS (SELECT ...)` — `start` is the span of the
    /// `EXISTS`/`NOT` token this tail follows.
    pub(super) fn exists_tail(&mut self, start: Span, negated: bool) -> (r: PResult<Expr>)
        requires
            old(self).wf(),
        ensures
            final(self).follows(old(self)),
            r is Ok ==> final(self).at() > old(self).at(),
            match r {
                Ok(x) => rules::exists_tail(old(self).toks(), old(self).at(), old(self).level(),
                    start, negated) == Parsed::<ExprView>::Ok((x@, final(self).at())),
                Err(f) => rules::exists_tail(old(self).toks(), old(self).at(), old(self).level(),
                    start, negated) == Parsed::<ExprView>::Err(f@),
            },
        decreases MAX_EXPR_DEPTH - old(self).level(), 16int, 0nat,
    {
        self.expect_punct(Punct::LParen, "'(' after EXISTS")?;
        if !self.at_kw(Keyword::SELECT) {
            return Err(self.unsupported("EXISTS ( ... ) requires a SELECT subquery"));
        }
        let (query, end) = self.subquery("')' to close EXISTS subquery")?;
        let span = join_span(start, end);
        Ok(Expr { kind: ExprKind::Exists { subquery: Box::new(query), negated }, span })
    }

    pub(super) fn in_tail(&mut self, lhs: Expr, negated: bool) -> (r: PResult<Expr>)
        requires
            old(self).wf(),
        ensures
            final(self).follows(old(self)),
            r is Ok ==> final(self).at() > old(self).at(),
            match r {
                Ok(x) => rules::in_tail(old(self).toks(), old(self).at(), old(self).level(), lhs@,
                    negated) == Parsed::<ExprView>::Ok((x@, final(self).at())),
                Err(f) => rules::in_tail(old(self).toks(), old(self).at(), old(self).level(), lhs@,
                    negated) == Parsed::<ExprView>::Err(f@),
            },
        decreases MAX_EXPR_DEPTH - old(self).level(), 36int, 0nat,
    {
        if !self.at_punct(Punct::LParen) {
            return Err(self.unsupported("IN <table-name> not yet supported"));
        }
        self.advance();
        if self.at_kw(Keyword::SELECT) {
            let (query, end) = self.subquery("')' to close IN subquery")?;
            let span = join_span(lhs.span, end);
            return Ok(
                Expr {
                    kind: ExprKind::InSubquery {
                        expr: Box::new(lhs),
                        subquery: Box::new(query),
                        negated,
                    },
                    span,
                },
            );
        }
        let list = self.opt_expr_list()?;
        let end = self.expect_punct(Punct::RParen, "')' to close IN list")?;
        let span = join_span(lhs.span, end);
        Ok(Expr { kind: ExprKind::In { expr: Box::new(lhs), list, negated }, span })
    }

    /// Precedence climb over the left-associative operators of precedence `min_prec` and
    /// tighter.
    pub(super) fn binary_expr(&mut self, min_prec: u8) -> (r: PResult<Expr>)
        requires
            old(self).wf(),
            1 <= min_prec <= 6,
        ensures
            final(self).follows(old(self)),
            r is Ok ==> final(self).at() > old(self).at(),
            match r {
                Ok(x) => rules::binary_expr(old(self).toks(), old(self).at(), old(self).level(),
                    min_prec as int) == Parsed::<ExprView>::Ok((x@, final(self).at())),
                Err(f) => rules::binary_expr(old(self).toks(), old(self).at(), old(self).level(),
                    min_prec as int) == Parsed::<ExprView>::Err(f@),
            },
        decreases MAX_EXPR_DEPTH - old(self).level(), 36 - 2 * min_prec, 0nat,
    {
        let mut lhs = self.arrow_expr()?;
        let ghost t = self.toks();
        let ghost d = self.level();
        loop
            invariant
                self.follows(old(self)),
                self.pos > old(self).pos,
                t == self.toks(),
                d == self.level(),
                t == old(self).toks(),
                d == old(self).level(),
                1 <= min_prec <= 6,
                rules::binary_expr(t, old(self).at(), d, min_prec as int) == rules::binary_rest(
                    t,
                    self.at(),
                    d,
                    min_prec as int,
                    lhs@,
                ),
            decreases self.tokens.len() - self.pos,
        {
            let (op, prec) = match binary_op(&self.peek().kind) {
                Some(next) => next,
                None => {
                    return Ok(lhs);
                },
            };
            if prec < min_prec {
                return Ok(lhs);
            }
            self.advance();
            let rhs = self.binary_expr(prec + 1)?;
            lhs = bin(op, lhs, rhs);
        }
    }

    pub(super) fn arrow_expr(&mut self) -> (r: PResult<Expr>)
        requires
            old(self).wf(),
        ensures
            final(self).follows(old(self)),
            r is Ok ==> final(self).at() > old(self).at(),
            match r {
                Ok(x) => rules::arrow_expr(old(self).toks(), old(self).at(), old(self).level())
                    == Parsed::<ExprView>::Ok((x@, final(self).at())),
                Err(f) => rules::arrow_expr(old(self).toks(), old(self).at(), old(self).level())
                    == Parsed::<ExprView>::Err(f@),
            },
        decreases MAX_EXPR_DEPTH - old(self).level(), 21int, 0nat,
    {
        let lhs = self.collate_expr()?;
        if matches!(self.peek().kind, TokenKind::Arrow | TokenKind::ArrowArrow) {
            return Err(self.unsupported("-> / ->> operators not yet supported"));
        }
        Ok(lhs)
    }

    pub(super) fn collate_expr(&mut self) -> (r: PResult<Expr>)
        requires
            old(self).wf(),
        ensures
            final(self).follows(old(self)),
            r is Ok ==> final(self).at() > old(self).at(),
            match r {
                Ok(x) => rules::collate_expr(old(self).toks(), old(self).at(), old(self).level())
                    == Parsed::<ExprView>::Ok((x@, final(self).at())),
                Err(f) => rules::collate_expr(old(self).toks(), old(self).at(), old(self).level())
                    == Parsed::<ExprView>::Err(f@),
            },
        decreases MAX_EXPR_DEPTH - old(self).level(), 20int, 0nat,
    {
        let mut lhs = self.unary_expr()?;
        let ghost t = self.toks();
        let ghost d = self.level();
        while self.at_kw(Keyword::COLLATE)
            invariant
                self.follows(old(self)),
                self.pos > old(self).pos,
                t == self.toks(),
                t == old(self).toks(),
                d == old(self).level(),
                rules::collate_expr(t, old(self).at(), d) == rules::collate_rest(
                    t,
                    self.at(),
                    lhs@,
                ),
            decreases self.tokens.len() - self.pos,
        {
            self.advance();
            let (name, end) = self.identifier()?;
            let span = join_span(lhs.span, end);
            lhs = Expr { kind: ExprKind::Collate { expr: Box::new(lhs), collation: name }, span };
        }
        Ok(lhs)
    }

    pub(super) fn unary_expr(&mut self) -> (r: PResult<Expr>)
        requires
            old(self).wf(),
        ensures
            final(self).follows(old(self)),
            r is Ok ==> final(self).at() > old(self).at(),
            match r {
                Ok(x) => rules::unary_expr(old(self).toks(), old(self).at(), old(self).level())
                    == Parsed::<ExprView>::Ok((x@, final(self).at())),
                Err(f) => rules::unary_expr(old(self).toks(), old(self).at(), old(self).level())
                    == Parsed::<ExprView>::Err(f@),
            },
        decreases MAX_EXPR_DEPTH - old(self).level(), 1int, 0nat,
    {
        if self.depth >= MAX_EXPR_DEPTH {
            return Err(self.invalid("expression nesting too deep"));
        }
        self.depth = self.depth + 1;
        let r = self.unary_operand();
        self.depth = self.depth - 1;
        r
    }

    /// What `unary_expr` reads, one level down.
    pub(super) fn unary_operand(&mut self) -> (r: PResult<Expr>)
        requires
            old(self).wf(),
            1 <= old(self).depth <= MAX_EXPR_DEPTH,
        ensures
            final(self).follows(old(self)),
            r is Ok ==> final(self).at() > old(self).at(),
            ({
                let rule = rules::unary_expr(
                    old(self).toks(),
                    old(self).at(),
                    (old(self).level() - 1) as nat,
                );
                match r {
                    Ok(x) => rule == Parsed::<ExprView>::Ok((x@, final(self).at())),
                    Err(f) => rule == Parsed::<ExprView>::Err(f@),
                }
            }),
        decreases MAX_EXPR_DEPTH - old(self).level(), 19int, 0nat,
    {
        let op = match self.peek().kind {
            TokenKind::Plus => UnaryOp::Plus,
            TokenKind::Minus => UnaryOp::Minus,
            TokenKind::BitNot => UnaryOp::BitNot,
            _ => {
                return self.primary_expr();
            },
        };
        let start = self.here();
        self.advance();
        let inner = self.unary_expr()?;
        Ok(unary(op, inner, start))
    }

    #[verifier::rlimit(40)]
    pub(super) fn primary_expr(&mut self) -> (r: PResult<Expr>)
        requires
            old(self).wf(),
        ensures
            final(self).follows(old(self)),
            r is Ok ==> final(self).at() > old(self).at(),
            match r {
                Ok(x) => rules::primary_expr(old(self).toks(), old(self).at(), old(self).level())
                    == Parsed::<ExprView>::Ok((x@, final(self).at())),
                Err(f) => rules::primary_expr(old(self).toks(), old(self).at(), old(self).level())
                    == Parsed::<ExprView>::Err(f@),
            },
        decreases MAX_EXPR_DEPTH - old(self).level(), 18int, 0nat,
    {
        let at = self.here();
        if let Some(literal) = self.literal_here() {
            self.advance();
            return Ok(Expr { kind: ExprKind::Literal(literal), span: at });
        }
        if let Some(param) = self.param_here() {
            self.advance();
            return Ok(Expr { kind: ExprKind::Param(param), span: at });
        }
        if let Some(name) = self.name_here() {
            if self.at_punct_ahead(1, Punct::LParen) {
                self.advance();
                return self.function_call(name, at);
            }
            return self.column_ref();
        }
        if self.eat_punct(Punct::LParen) {
            if self.at_kw(Keyword::SELECT) {
                let (query, end) = self.subquery("')' to close subquery")?;
                let span = join_span(at, end);
                return Ok(Expr { kind: ExprKind::Subquery(Box::new(query)), span });
            }
            let inner = self.expr()?;
            let end = self.expect_punct(Punct::RParen, "')' to close expression")?;
            let span = join_span(at, end);
            return Ok(Expr { kind: ExprKind::Paren(Box::new(inner)), span });
        }
        if self.at_current_time() {
            return Err(
                self.unsupported("CURRENT_TIME/CURRENT_DATE/CURRENT_TIMESTAMP not yet supported"),
            );
        }
        if self.at_kw(Keyword::CASE) {
            return self.case_expr();
        }
        if self.at_kw(Keyword::CAST) {
            return self.cast_expr();
        }
        if self.eat_kw(Keyword::EXISTS) {
            return self.exists_tail(at, false);
        }
        // Most keywords are usable as function names when followed by `(`.
        if let Some(kw) = self.keyword_here() {
            if self.at_punct_ahead(1, Punct::LParen) {
                self.advance();
                return self.function_call(kw.text().to_owned(), at);
            }
        }
        Err(self.expected("column or expression"))
    }

    /// `identifier [ "." identifier [ "." identifier ] ]`.
    pub(super) fn column_ref(&mut self) -> (r: PResult<Expr>)
        requires
            old(self).wf(),
        ensures
            final(self).follows(old(self)),
            r is Ok ==> final(self).at() > old(self).at(),
            match r {
                Ok(x) => rules::column_ref(old(self).toks(), old(self).at())
                    == Parsed::<ExprView>::Ok((x@, final(self).at())),
                Err(f) => rules::column_ref(old(self).toks(), old(self).at())
                    == Parsed::<ExprView>::Err(f@),
            },
    {
        let (first, at) = self.identifier()?;
        if !self.eat_punct(Punct::Dot) {
            let span = join_span(at, self.behind());
            return Ok(
                Expr {
                    kind: ExprKind::Column { table: None, catalog: None, name: first },
                    span,
                },
            );
        }
        let (second, _) = self.identifier()?;
        if !self.eat_punct(Punct::Dot) {
            let span = join_span(at, self.behind());
            return Ok(
                Expr {
                    kind: ExprKind::Column { table: Some(first), catalog: None, name: second },
                    span,
                },
            );
        }
        let (third, _) = self.identifier()?;
        let span = join_span(at, self.behind());
        Ok(
            Expr {
                kind: ExprKind::Column { table: Some(second), catalog: Some(first), name: third },
                span,
            },
        )
    }

    pub(super) fn function_call(&mut self, name: String, start: Span) -> (r: PResult<Expr>)
        requires
            old(self).wf(),
        ensures
            final(self).follows(old(self)),
            r is Ok ==> final(self).at() > old(self).at(),
            match r {
                Ok(x) => rules::function_call(old(self).toks(), old(self).at(), old(self).level(),
                    name@, start) == Parsed::<ExprView>::Ok((x@, final(self).at())),
                Err(f) => rules::function_call(old(self).toks(), old(self).at(), old(self).level(),
                    name@, start) == Parsed::<ExprView>::Err(f@),
            },
        decreases MAX_EXPR_DEPTH - old(self).level(), 16int, 0nat,
    {
        self.expect_punct(Punct::LParen, "'(' after function name")?;
        let distinct = self.eat_kw(Keyword::DISTINCT);
        let args = self.function_args()?;
        let mut end = self.expect_punct(Punct::RParen, "')' to close function call")?;
        if self.at_kw(Keyword::OVER) || self.at_kw(Keyword::FILTER) {
            return Err(self.unsupported("window functions (OVER/FILTER) not yet supported"));
        }
        if end.len == 0 {
            end.len = 1;
        }
        let span = join_span(start, end);
        Ok(Expr { kind: ExprKind::FunctionCall { name, distinct, args }, span })
    }

    pub(super) fn function_args(&mut self) -> (r: PResult<FunctionArgs>)
        requires
            old(self).wf(),
        ensures
            final(self).follows(old(self)),
            match r {
                Ok(x) => rules::function_args(old(self).toks(), old(self).at(), old(self).level())
                    == Parsed::<FunctionArgsView>::Ok((x@, final(self).at())),
                Err(f) => rules::function_args(old(self).toks(), old(self).at(), old(self).level())
                    == Parsed::<FunctionArgsView>::Err(f@),
            },
        decreases MAX_EXPR_DEPTH - old(self).level(), 5int, 0nat,
    {
        if self.eat_punct(Punct::Star) {
            Ok(FunctionArgs::Star)
        } else {
            Ok(FunctionArgs::List(self.opt_expr_list()?))
        }
    }

    /// An expression list, empty in front of a `)`.
    pub(super) fn opt_expr_list(&mut self) -> (r: PResult<Vec<Expr>>)
        requires
            old(self).wf(),
        ensures
            final(self).follows(old(self)),
            match r {
                Ok(x) => rules::opt_expr_list(old(self).toks(), old(self).at(), old(self).level())
                    == Parsed::<Seq<ExprView>>::Ok((ast::expr_list(x@), final(self).at())),
                Err(f) => rules::opt_expr_list(old(self).toks(), old(self).at(), old(self).level())
                    == Parsed::<Seq<ExprView>>::Err(f@),
            },
        decreases MAX_EXPR_DEPTH - old(self).level(), 4int, 0nat,
    {
        if self.at_punct(Punct::RParen) {
            let none: Vec<Expr> = Vec::new();
            assert(ast::expr_list(none@) =~= seq![]);
            Ok(none)
        } else {
            self.expr_list()
        }
    }

    pub(super) fn expr_list(&mut self) -> (r: PResult<Vec<Expr>>)
        requires
            old(self).wf(),
        ensures
            final(self).follows(old(self)),
            r is Ok ==> final(self).at() > old(self).at(),
            r is Ok ==> r->Ok_0@.len() > 0,
            match r {
                Ok(x) => rules::expr_list(old(self).toks(), old(self).at(), old(self).level())
                    == Parsed::<Seq<ExprView>>::Ok((ast::expr_list(x@), final(self).at())),
                Err(f) => rules::expr_list(old(self).toks(), old(self).at(), old(self).level())
                    == Parsed::<Seq<ExprView>>::Err(f@),
            },
        decreases MAX_EXPR_DEPTH - old(self).level(), 3int, 0nat,
    {
        let first = self.expr()?;
        let ghost t = self.toks();
        let ghost d = self.level();
        let mut list: Vec<Expr> = Vec::new();
        list.push(first);
        assert(ast::expr_list(list@) =~= seq![first@]);
        while self.at_punct(Punct::Comma)
            invariant
                self.follows(old(self)),
                self.pos > old(self).pos,
                list@.len() > 0,
                t == self.toks(),
                d == self.level(),
                t == old(self).toks(),
                d == old(self).level(),
                rules::expr_list(t, old(self).at(), d) == rules::more_exprs(
                    t,
                    self.at(),
                    d,
                    ast::expr_list(list@),
                ),
            decreases self.tokens.len() - self.pos,
        {
            self.advance();
            let e = self.expr()?;
            proof {
                ast::expr_list_push(list@, e);
            }
            list.push(e);
        }
        Ok(list)
    }

    /// `[ keyword expr ]`.
    pub(super) fn opt_expr(&mut self, kw: Keyword) -> (r: PResult<Option<Expr>>)
        requires
            old(self).wf(),
        ensures
            final(self).follows(old(self)),
            match r {
                Ok(x) => rules::opt_expr(old(self).toks(), old(self).at(), old(self).level(), kw)
                    == Parsed::<Option<ExprView>>::Ok((some_expr(x), final(self).at())),
                Err(f) => rules::opt_expr(old(self).toks(), old(self).at(), old(self).level(), kw)
                    == Parsed::<Option<ExprView>>::Err(f@),
            },
        decreases MAX_EXPR_DEPTH - old(self).level(), 2int, 0nat,
    {
        if self.eat_kw(kw) {
            Ok(Some(self.expr()?))
        } else {
            Ok(None)
        }
    }

    pub(super) fn case_expr(&mut self) -> (r: PResult<Expr>)
        requires
            old(self).wf(),
            rules::kind(old(self).toks(), old(self).at()) != KindView::Eof,
        ensures
            final(self).follows(old(self)),
            r is Ok ==> final(self).at() > old(self).at(),
            match r {
                Ok(x) => rules::case_expr(old(self).toks(), old(self).at(), old(self).level())
                    == Parsed::<ExprView>::Ok((x@, final(self).at())),
                Err(f) => rules::case_expr(old(self).toks(), old(self).at(), old(self).level())
                    == Parsed::<ExprView>::Err(f@),
            },
        decreases MAX_EXPR_DEPTH - old(self).level(), 16int, 0nat,
    {
        let start = self.here();
        self.advance();
        let operand = self.case_operand()?;
        let whens = self.whens()?;
        assert(ast::expr_pairs(whens@).len() == whens@.len());
        if whens.len() == 0 {
            return Err(self.invalid("expected WHEN in CASE expression"));
        }
        let otherwise = self.opt_expr(Keyword::ELSE)?;
        let end = self.expect_kw(Keyword::END)?;
        Ok(case_of(operand, whens, otherwise, join_span(start, end)))
    }

    pub(super) fn case_operand(&mut self) -> (r: PResult<Option<Expr>>)
        requires
            old(self).wf(),
        ensures
            final(self).follows(old(self)),
            match r {
                Ok(x) => rules::case_operand(old(self).toks(), old(self).at(), old(self).level())
                    == Parsed::<Option<ExprView>>::Ok((some_expr(x), final(self).at())),
                Err(f) => rules::case_operand(old(self).toks(), old(self).at(), old(self).level())
                    == Parsed::<Option<ExprView>>::Err(f@),
            },
        decreases MAX_EXPR_DEPTH - old(self).level(), 2int, 0nat,
    {
        if self.at_kw(Keyword::WHEN) {
            Ok(None)
        } else {
            Ok(Some(self.expr()?))
        }
    }

    /// `{ "WHEN" expr "THEN" expr }`.
    pub(super) fn whens(&mut self) -> (r: PResult<Vec<(Expr, Expr)>>)
        requires
            old(self).wf(),
        ensures
            final(self).follows(old(self)),
            match r {
                Ok(x) => rules::more_whens(old(self).toks(), old(self).at(), old(self).level(),
                    seq![]) == Parsed::<Seq<(ExprView, ExprView)>>::Ok((ast::expr_pairs(x@),
                    final(self).at())),
                Err(f) => rules::more_whens(old(self).toks(), old(self).at(), old(self).level(),
                    seq![]) == Parsed::<Seq<(ExprView, ExprView)>>::Err(f@),
            },
        decreases MAX_EXPR_DEPTH - old(self).level(), 3int, 0nat,
    {
        let ghost t = self.toks();
        let ghost d = self.level();
        let mut whens: Vec<(Expr, Expr)> = Vec::new();
        assert(ast::expr_pairs(whens@) =~= seq![]);
        while self.at_kw(Keyword::WHEN)
            invariant
                self.follows(old(self)),
                t == self.toks(),
                d == self.level(),
                t == old(self).toks(),
                d == old(self).level(),
                rules::more_whens(t, old(self).at(), d, seq![]) == rules::more_whens(
                    t,
                    self.at(),
                    d,
                    ast::expr_pairs(whens@),
                ),
            decreases self.tokens.len() - self.pos,
        {
            self.advance();
            let cond = self.expr()?;
            self.expect_kw(Keyword::THEN)?;
            let res = self.expr()?;
            proof {
                ast::expr_pairs_push(whens@, (cond, res));
            }
            whens.push((cond, res));
        }
        Ok(whens)
    }

    pub(super) fn cast_expr(&mut self) -> (r: PResult<Expr>)
        requires
            old(self).wf(),
            rules::kind(old(self).toks(), old(self).at()) != KindView::Eof,
        ensures
            final(self).follows(old(self)),
            r is Ok ==> final(self).at() > old(self).at(),
            match r {
                Ok(x) => rules::cast_expr(old(self).toks(), old(self).at(), old(self).level())
                    == Parsed::<ExprView>::Ok((x@, final(self).at())),
                Err(f) => rules::cast_expr(old(self).toks(), old(self).at(), old(self).level())
                    == Parsed::<ExprView>::Err(f@),
            },
        decreases MAX_EXPR_DEPTH - old(self).level(), 16int, 0nat,
    {
        let start = self.here();
        self.advance();
        self.expect_punct(Punct::LParen, "'(' after CAST")?;
        let inner = self.expr()?;
        self.expect_kw(Keyword::AS)?;
        let declared_type = self.declared_type()?;
        let end = self.expect_punct(Punct::RParen, "')' to close CAST")?;
        Ok(
            Expr {
                kind: ExprKind::Cast { expr: Box::new(inner), declared_type },
                span: join_span(start, end),
            },
        )
    }

    /// `type-name ::= identifier { identifier } [ "(" NUMBER [ "," NUMBER ] ")" ]`
    pub(super) fn declared_type(&mut self) -> (r: PResult<String>)
        requires
            old(self).wf(),
        ensures
            final(self).follows(old(self)),
            r is Ok ==> final(self).at() > old(self).at(),
            match r {
                Ok(x) => rules::declared_type(old(self).toks(), old(self).at())
                    == Parsed::<Seq<char>>::Ok((x@, final(self).at())),
                Err(f) => rules::declared_type(old(self).toks(), old(self).at())
                    == Parsed::<Seq<char>>::Err(f@),
            },
    {
        let (first, _) = self.identifier()?;
        let mut name = self.more_words(first);
        if self.eat_punct(Punct::LParen) {
            let n1 = self.number_literal()?;
            name.append("(");
            name.append(n1.as_str());
            if self.eat_punct(Punct::Comma) {
                let n2 = self.number_literal()?;
                name.append(", ");
                name.append(n2.as_str());
            }
            self.expect_punct(Punct::RParen, "')' to close type size")?;
            name.append(")");
        }
        Ok(name)
    }

    /// `{ identifier }`, joined to `first` with single spaces.
    pub(super) fn more_words(&mut self, first: String) -> (words: String)
        requires
            old(self).wf(),
        ensures
            final(self).follows(old(self)),
            (words@, final(self).at()) == rules::more_words(
                old(self).toks(),
                old(self).at(),
                first@,
            ),
    {
        let ghost t = self.toks();
        let ghost head = first@;
        let mut words = first;
        loop
            invariant
                self.follows(old(self)),
                t == self.toks(),
                t == old(self).toks(),
                head == first@,
                rules::more_words(t, old(self).at(), head) == rules::more_words(
                    t,
                    self.at(),
                    words@,
                ),
            decreases self.tokens.len() - self.pos,
        {
            let next = self.name_here();
            match next {
                Some(part) => {
                    self.advance();
                    words.append(" ");
                    words.append(part.as_str());
                },
                None => {
                    return words;
                },
            }
        }
    }

    pub(super) fn number_literal(&mut self) -> (r: PResult<String>)
        requires
            old(self).wf(),
        ensures
            final(self).follows(old(self)),
            r is Ok ==> final(self).at() > old(self).at(),
            match r {
                Ok(x) => rules::number_literal(old(self).toks(), old(self).at())
                    == Parsed::<Seq<char>>::Ok((x@, final(self).at())),
                Err(f) => rules::number_literal(old(self).toks(), old(self).at())
                    == Parsed::<Seq<char>>::Err(f@),
            },
    {
        match &self.peek().kind {
            TokenKind::Integer(v) => {
                let digits = text::signed_to_text(*v);
                self.advance();
                Ok(digits)
            },
            _ => Err(self.expected("number")),
        }
    }
}

/// Whether a type needs no quotes: it is read as itself.
pub(crate) fn is_type_name(words: &str) -> (b: bool)
    ensures
        b == printer::is_plain_type(words@),
{
    proof {
        reveal(printer::is_plain_type);
    }
    let tokens = Tokenizer::tokenize(words);
    let n: usize = tokens.len();
    assert(tokenizer::token_views(tokens@).len() == n);
    let mut i: usize = 0;
    while i < n
        invariant
            i <= n,
            n == tokens.len(),
            tokenizer::token_views(tokens@) == tokenizer::tokens_of(words@),
            forall|k: int|
                0 <= k < i ==> printer::is_type_token(
                    (#[trigger] tokenizer::tokens_of(words@)[k]).kind,
                ),
        decreases n - i,
    {
        assert(tokenizer::token_views(tokens@)[i as int] == tokens@[i as int]@);
        let fits = match &tokens[i].kind {
            TokenKind::Identifier(word) => tokenizer::is_plain_name(word.as_str()),
            TokenKind::Integer(v) => *v >= 0,
            _ => true,
        };
        if !fits {
            proof {
                reveal(printer::is_plain_type);
                assert(!printer::is_type_token(tokenizer::tokens_of(words@)[i as int].kind));
            }
            return false;
        }
        i = i + 1;
    }
    proof {
        tokenizer::law_tokens_end(words@, 0);
        assert(tokenizer::token_views(tokens@).last() == tokens@.last()@);
    }
    let mut parser = Parser::new(tokens);
    match parser.declared_type() {
        Ok(read) => {
            let chars = text::chars_of(read.as_str());
            text::spells(&chars, words) && matches!(parser.peek().kind, TokenKind::Eof)
        },
        Err(_) => false,
    }
}

} // verus!
