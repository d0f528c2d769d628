//! `SELECT` and its clauses.
use crate::parser::ast;
use crate::parser::ast::{CompoundOp, CompoundSelect, CompoundSelectView, Explain, ExplainView,
    Expr, ExprView, FromClause, FromClauseView, Join, JoinConstraint, JoinOp, JoinView, Limit,
    LimitView, OrderingTerm, OrderingTermView, ResultColumn, ResultColumnView, Select, SelectView,
    TableRef, TableRefKind, TableRefView};
use crate::parser::error::{PResult};
use crate::parser::grammar::{join_span, some_expr, Core, Parser, Punct};
use crate::parser::rules;
use crate::parser::rules::{CoreView, Parsed, MAX_EXPR_DEPTH};
use crate::parser::tokenizer::{Keyword, Span};
use vstd::prelude::*;

verus! {

impl Parser {
    pub(super) fn result_column(&mut self) -> (r: PResult<ResultColumn>)
        requires
            old(self).wf(),
        ensures
            final(self).follows(old(self)),
            r is Ok ==> final(self).at() > old(self).at(),
            match r {
                Ok(x) => rules::result_column(old(self).toks(), old(self).at(), old(self).level())
                    == Parsed::<ResultColumnView>::Ok((x@, final(self).at())),
                Err(f) => rules::result_column(old(self).toks(), old(self).at(), old(self).level())
                    == Parsed::<ResultColumnView>::Err(f@),
            },
        decreases MAX_EXPR_DEPTH - old(self).level(), 2int, 0nat,
    {
        if self.eat_punct(Punct::Star) {
            return Ok(ResultColumn::Star);
        }
        if let Some(name) = self.name_here() {
            if self.at_punct_ahead(1, Punct::Dot) && self.at_punct_ahead(2, Punct::Star) {
                self.advance();
                self.advance();
                self.advance();
                return Ok(ResultColumn::TableStar { table: name });
            }
        }
        let expr = self.expr()?;
        let alias = self.opt_alias()?;
        Ok(ResultColumn::Expr { expr, alias })
    }

    /// `{ "," result-column }`, behind the column `first`.
    pub(super) fn more_columns(&mut self, first: ResultColumn) -> (r: PResult<Vec<ResultColumn>>)
        requires
            old(self).wf(),
        ensures
            final(self).follows(old(self)),
            match r {
                Ok(x) => rules::more_columns(old(self).toks(), old(self).at(), old(self).level(),
                    seq![first@]) == Parsed::<Seq<ResultColumnView>>::Ok((ast::result_columns(x@),
                    final(self).at())),
                Err(f) => rules::more_columns(old(self).toks(), old(self).at(), old(self).level(),
                    seq![first@]) == Parsed::<Seq<ResultColumnView>>::Err(f@),
            },
        decreases MAX_EXPR_DEPTH - old(self).level(), 3int, 0nat,
    {
        let ghost t = self.toks();
        let ghost d = self.level();
        let mut list: Vec<ResultColumn> = Vec::new();
        list.push(first);
        assert(ast::result_columns(list@) =~= seq![first@]);
        while self.at_punct(Punct::Comma)
            invariant
                self.follows(old(self)),
                t == self.toks(),
                d == self.level(),
                t == old(self).toks(),
                d == old(self).level(),
                rules::more_columns(t, old(self).at(), d, seq![first@]) == rules::more_columns(
                    t,
                    self.at(),
                    d,
                    ast::result_columns(list@),
                ),
            decreases self.tokens.len() - self.pos,
        {
            self.advance();
            let item = self.result_column()?;
            proof {
                ast::result_columns_push(list@, item);
            }
            list.push(item);
        }
        Ok(list)
    }

    pub(super) fn table_ref(&mut self) -> (r: PResult<TableRef>)
        requires
            old(self).wf(),
        ensures
            final(self).follows(old(self)),
            r is Ok ==> final(self).at() > old(self).at(),
            match r {
                Ok(x) => rules::table_ref(old(self).toks(), old(self).at())
                    == Parsed::<TableRefView>::Ok((x@, final(self).at())),
                Err(f) => rules::table_ref(old(self).toks(), old(self).at())
                    == Parsed::<TableRefView>::Err(f@),
            },
    {
        if self.at_punct(Punct::LParen) {
            return Err(
                self.unsupported("table-valued functions / subqueries in FROM not yet supported"),
            );
        }
        let (name, start) = self.identifier()?;
        if self.at_punct(Punct::Dot) {
            return Err(self.unsupported("schema-qualified table names not yet supported"));
        }
        let alias = self.opt_alias()?;
        let span = if alias.is_some() {
            join_span(start, self.behind())
        } else {
            start
        };
        if self.at_kw(Keyword::INDEXED) {
            return Err(self.unsupported("INDEXED BY not yet supported"));
        }
        if self.at_kw(Keyword::NOT) && self.at_kw_ahead(1, Keyword::INDEXED) {
            return Err(self.unsupported("NOT INDEXED not yet supported"));
        }
        if self.at_punct(Punct::LParen) {
            return Err(
                self.unsupported("table-valued functions / subqueries in FROM not yet supported"),
            );
        }
        Ok(TableRef { kind: TableRefKind::Name(name), alias, span })
    }

    pub(super) fn join_op(&mut self) -> (r: PResult<Option<JoinOp>>)
        requires
            old(self).wf(),
        ensures
            final(self).follows(old(self)),
            r == PResult::<Option<JoinOp>>::Ok(None) ==> final(self).at() == old(self).at(),
            match r {
                Ok(x) => rules::join_op(old(self).toks(), old(self).at())
                    == Parsed::<Option<JoinOp>>::Ok((x, final(self).at())),
                Err(f) => rules::join_op(old(self).toks(), old(self).at())
                    == Parsed::<Option<JoinOp>>::Err(f@),
            },
    {
        if self.eat_kw(Keyword::LEFT) {
            self.eat_kw(Keyword::OUTER);
            self.expect_kw(Keyword::JOIN)?;
            Ok(Some(JoinOp::Left))
        } else if self.eat_kw(Keyword::INNER) {
            self.expect_kw(Keyword::JOIN)?;
            Ok(Some(JoinOp::Inner))
        } else if self.eat_kw(Keyword::JOIN) {
            Ok(Some(JoinOp::Inner))
        } else {
            Ok(None)
        }
    }

    /// One join with its table and condition; `None` where no join stands at the place.
    pub(super) fn one_join(&mut self) -> (r: PResult<Option<Join>>)
        requires
            old(self).wf(),
        ensures
            final(self).follows(old(self)),
            match r {
                Ok(Some(_)) => final(self).at() > old(self).at(),
                Ok(None) => final(self).at() == old(self).at(),
                Err(_) => true,
            },
            match r {
                Ok(x) => rules::one_join(old(self).toks(), old(self).at(), old(self).level())
                    == Parsed::<Option<JoinView>>::Ok(((match x { Some(j) => Some(j@), None =>
                    None }), final(self).at())),
                Err(f) => rules::one_join(old(self).toks(), old(self).at(), old(self).level())
                    == Parsed::<Option<JoinView>>::Err(f@),
            },
        decreases MAX_EXPR_DEPTH - old(self).level(), 2int, 0nat,
    {
        if self.at_punct(Punct::Comma) {
            return Err(self.unsupported("comma-style JOIN (FROM a, b) not yet supported"));
        }
        if self.at_kw(Keyword::NATURAL) {
            return Err(self.unsupported("NATURAL joins not yet supported"));
        }
        if self.at_kw(Keyword::RIGHT) {
            return Err(self.unsupported("RIGHT joins not yet supported"));
        }
        if self.at_kw(Keyword::FULL) {
            return Err(self.unsupported("FULL joins not yet supported"));
        }
        // A bare `OUTER` only ever appears right after `LEFT`/`RIGHT`/`FULL`; reporting it
        // as unsupported keeps it out of the "unexpected trailing token" failures.
        if self.at_kw(Keyword::OUTER) {
            return Err(
                self.unsupported("OUTER without a preceding LEFT/RIGHT/FULL not yet supported"),
            );
        }
        if self.eat_kw(Keyword::CROSS) {
            self.expect_kw(Keyword::JOIN)?;
            let table = self.table_ref()?;
            if self.at_kw(Keyword::ON) {
                return Err(self.unsupported("CROSS JOIN with an ON clause not yet supported"));
            }
            if self.at_kw(Keyword::USING) {
                return Err(self.unsupported("USING clause not yet supported"));
            }
            return Ok(Some(Join { op: JoinOp::Cross, table, constraint: None, natural: false }));
        }
        let op = match self.join_op()? {
            Some(op) => op,
            None => {
                return Ok(None);
            },
        };
        let table = self.table_ref()?;
        if self.at_kw(Keyword::USING) {
            return Err(self.unsupported("USING clause not yet supported"));
        }
        if !self.at_kw(Keyword::ON) {
            return Err(self.unsupported("JOIN without an ON/USING clause not yet supported"));
        }
        self.expect_kw(Keyword::ON)?;
        let on_expr = self.expr()?;
        Ok(Some(Join { op, table, constraint: Some(JoinConstraint::On(on_expr)), natural: false }))
    }

    /// `FROM <table_ref> (<join_op> <table_ref> [ON <expr>])*`, behind the word `FROM`.
    pub(super) fn parse_from_clause(&mut self) -> (r: PResult<FromClause>)
        requires
            old(self).wf(),
        ensures
            final(self).follows(old(self)),
            r is Ok ==> final(self).at() > old(self).at(),
            match r {
                Ok(x) => rules::from_clause(old(self).toks(), old(self).at(), old(self).level())
                    == Parsed::<FromClauseView>::Ok((x@, final(self).at())),
                Err(f) => rules::from_clause(old(self).toks(), old(self).at(), old(self).level())
                    == Parsed::<FromClauseView>::Err(f@),
            },
        decreases MAX_EXPR_DEPTH - old(self).level(), 4int, 0nat,
    {
        let first = self.table_ref()?;
        let ghost t = self.toks();
        let ghost d = self.level();
        let ghost begin = self.at();
        let mut joins: Vec<Join> = Vec::new();
        assert(ast::joins(joins@) =~= seq![]);
        loop
            invariant
                self.follows(old(self)),
                self.pos > old(self).pos,
                t == self.toks(),
                d == self.level(),
                t == old(self).toks(),
                d == old(self).level(),
                rules::table_ref(t, old(self).at()) == Parsed::<TableRefView>::Ok((first@, begin)),
                rules::more_joins(t, begin, d, seq![]) == rules::more_joins(
                    t,
                    self.at(),
                    d,
                    ast::joins(joins@),
                ),
            decreases self.tokens.len() - self.pos,
        {
            match self.one_join()? {
                Some(join) => {
                    proof {
                        ast::joins_push(joins@, join);
                    }
                    joins.push(join);
                },
                None => {
                    return Ok(FromClause { first, joins });
                },
            }
        }
    }

    pub(super) fn opt_group(&mut self) -> (r: PResult<(Vec<Expr>, Option<Expr>)>)
        requires
            old(self).wf(),
        ensures
            final(self).follows(old(self)),
            match r {
                Ok(x) => rules::opt_group(old(self).toks(), old(self).at(), old(self).level())
                    == Parsed::<(Seq<ExprView>, Option<ExprView>)>::Ok(((ast::expr_list(x.0@),
                    some_expr(x.1)), final(self).at())),
                Err(f) => rules::opt_group(old(self).toks(), old(self).at(), old(self).level())
                    == Parsed::<(Seq<ExprView>, Option<ExprView>)>::Err(f@),
            },
        decreases MAX_EXPR_DEPTH - old(self).level(), 5int, 0nat,
    {
        if self.eat_kw(Keyword::GROUP) {
            self.expect_kw(Keyword::BY)?;
            let group_by = self.expr_list()?;
            let having = self.opt_expr(Keyword::HAVING)?;
            return Ok((group_by, having));
        }
        if self.at_kw(Keyword::HAVING) {
            return Err(self.unsupported("HAVING without GROUP BY not yet supported"));
        }
        let none: Vec<Expr> = Vec::new();
        assert(ast::expr_list(none@) =~= seq![]);
        Ok((none, None))
    }

    /// What follows the word `SELECT`, up to and with `HAVING`.
    pub(super) fn select_core(&mut self) -> (r: PResult<Core>)
        requires
            old(self).wf(),
        ensures
            final(self).follows(old(self)),
            r is Ok ==> final(self).at() > old(self).at(),
            match r {
                Ok(x) => rules::select_core(old(self).toks(), old(self).at(), old(self).level())
                    == Parsed::<CoreView>::Ok((x@, final(self).at())),
                Err(f) => rules::select_core(old(self).toks(), old(self).at(), old(self).level())
                    == Parsed::<CoreView>::Err(f@),
            },
        decreases MAX_EXPR_DEPTH - old(self).level(), 6int, 0nat,
    {
        let distinct = self.distinctness();
        let first = self.result_column()?;
        let columns = self.more_columns(first)?;
        let from = if self.eat_kw(Keyword::FROM) {
            Some(self.parse_from_clause()?)
        } else {
            None
        };
        if self.at_kw(Keyword::WINDOW) {
            return Err(self.unsupported("WINDOW clause not yet supported"));
        }
        let where_clause = self.opt_expr(Keyword::WHERE)?;
        let (group_by, having) = self.opt_group()?;
        Ok(Core { distinct, columns, from, where_clause, group_by, having })
    }

    /// One `UNION ALL SELECT ...` arm: same core shape as [`Self::parse_select_stmt`] minus
    /// ORDER BY/LIMIT, which bind to the whole compound statement.
    pub(super) fn parse_compound_select_arm(&mut self, union_start: Span)
        -> (r: PResult<CompoundSelect>)
        requires
            old(self).wf(),
        ensures
            final(self).follows(old(self)),
            r is Ok ==> final(self).at() > old(self).at(),
            match r {
                Ok(x) => rules::compound_arm(old(self).toks(), old(self).at(), old(self).level(),
                    union_start) == Parsed::<CompoundSelectView>::Ok((x@, final(self).at())),
                Err(f) => rules::compound_arm(old(self).toks(), old(self).at(), old(self).level(),
                    union_start) == Parsed::<CompoundSelectView>::Err(f@),
            },
        decreases MAX_EXPR_DEPTH - old(self).level(), 7int, 0nat,
    {
        if self.at_kw(Keyword::VALUES) {
            return Err(self.unsupported("UNION ALL VALUES (...) not yet supported"));
        }
        self.expect_kw(Keyword::SELECT)?;
        let core = self.select_core()?;
        Ok(
            CompoundSelect {
                op: CompoundOp::UnionAll,
                distinct: core.distinct,
                columns: core.columns,
                from: core.from,
                where_clause: core.where_clause,
                group_by: core.group_by,
                having: core.having,
                span: join_span(union_start, self.behind()),
            },
        )
    }

    pub(super) fn compound_arms(&mut self) -> (r: PResult<Vec<CompoundSelect>>)
        requires
            old(self).wf(),
        ensures
            final(self).follows(old(self)),
            match r {
                Ok(x) => rules::more_arms(old(self).toks(), old(self).at(), old(self).level(),
                    seq![]) == Parsed::<Seq<CompoundSelectView>>::Ok((ast::compounds(x@),
                    final(self).at())),
                Err(f) => rules::more_arms(old(self).toks(), old(self).at(), old(self).level(),
                    seq![]) == Parsed::<Seq<CompoundSelectView>>::Err(f@),
            },
        decreases MAX_EXPR_DEPTH - old(self).level(), 8int, 0nat,
    {
        let ghost t = self.toks();
        let ghost d = self.level();
        let mut arms: Vec<CompoundSelect> = Vec::new();
        assert(ast::compounds(arms@) =~= seq![]);
        loop
            invariant
                self.follows(old(self)),
                t == self.toks(),
                d == self.level(),
                t == old(self).toks(),
                d == old(self).level(),
                rules::more_arms(t, old(self).at(), d, seq![]) == rules::more_arms(
                    t,
                    self.at(),
                    d,
                    ast::compounds(arms@),
                ),
            decreases self.tokens.len() - self.pos,
        {
            if self.at_kw(Keyword::INTERSECT) || self.at_kw(Keyword::EXCEPT) {
                return Err(
                    self.unsupported("compound SELECT (INTERSECT/EXCEPT) not yet supported"),
                );
            }
            if !self.at_kw(Keyword::UNION) {
                return Ok(arms);
            }
            let union_start = self.here();
            self.advance();
            if !self.eat_kw(Keyword::ALL) {
                return Err(
                    self.unsupported(
                        "compound SELECT (plain UNION, with dedup) not yet supported; use UNION ALL",
                    ),
                );
            }
            let arm = self.parse_compound_select_arm(union_start)?;
            proof {
                ast::compounds_push(arms@, arm);
            }
            arms.push(arm);
        }
    }

    pub(super) fn opt_nulls(&mut self) -> (r: PResult<Option<bool>>)
        requires
            old(self).wf(),
        ensures
            final(self).follows(old(self)),
            match r {
                Ok(x) => rules::opt_nulls(old(self).toks(), old(self).at())
                    == Parsed::<Option<bool>>::Ok((x, final(self).at())),
                Err(f) => rules::opt_nulls(old(self).toks(), old(self).at())
                    == Parsed::<Option<bool>>::Err(f@),
            },
    {
        if !self.eat_kw(Keyword::NULLS) {
            Ok(None)
        } else if self.eat_kw(Keyword::FIRST) {
            Ok(Some(false))
        } else if self.eat_kw(Keyword::LAST) {
            Ok(Some(true))
        } else {
            Err(self.invalid("expected FIRST or LAST after NULLS"))
        }
    }

    pub(super) fn ordering_term(&mut self) -> (r: PResult<OrderingTerm>)
        requires
            old(self).wf(),
        ensures
            final(self).follows(old(self)),
            r is Ok ==> final(self).at() > old(self).at(),
            match r {
                Ok(x) => rules::ordering_term(old(self).toks(), old(self).at(), old(self).level())
                    == Parsed::<OrderingTermView>::Ok((x@, final(self).at())),
                Err(f) => rules::ordering_term(old(self).toks(), old(self).at(), old(self).level())
                    == Parsed::<OrderingTermView>::Err(f@),
            },
        decreases MAX_EXPR_DEPTH - old(self).level(), 2int, 0nat,
    {
        let expr = self.expr()?;
        let desc = self.direction();
        let nulls_last = self.opt_nulls()?;
        Ok(OrderingTerm { expr, desc, nulls_last })
    }

    /// `{ "," ordering-term }`, behind the term `first`.
    pub(super) fn more_terms(&mut self, first: OrderingTerm) -> (r: PResult<Vec<OrderingTerm>>)
        requires
            old(self).wf(),
        ensures
            final(self).follows(old(self)),
            match r {
                Ok(x) => rules::more_terms(old(self).toks(), old(self).at(), old(self).level(),
                    seq![first@]) == Parsed::<Seq<OrderingTermView>>::Ok((ast::ordering_terms(x@),
                    final(self).at())),
                Err(f) => rules::more_terms(old(self).toks(), old(self).at(), old(self).level(),
                    seq![first@]) == Parsed::<Seq<OrderingTermView>>::Err(f@),
            },
        decreases MAX_EXPR_DEPTH - old(self).level(), 3int, 0nat,
    {
        let ghost t = self.toks();
        let ghost d = self.level();
        let mut list: Vec<OrderingTerm> = Vec::new();
        list.push(first);
        assert(ast::ordering_terms(list@) =~= seq![first@]);
        while self.at_punct(Punct::Comma)
            invariant
                self.follows(old(self)),
                t == self.toks(),
                d == self.level(),
                t == old(self).toks(),
                d == old(self).level(),
                rules::more_terms(t, old(self).at(), d, seq![first@]) == rules::more_terms(
                    t,
                    self.at(),
                    d,
                    ast::ordering_terms(list@),
                ),
            decreases self.tokens.len() - self.pos,
        {
            self.advance();
            let item = self.ordering_term()?;
            proof {
                ast::ordering_terms_push(list@, item);
            }
            list.push(item);
        }
        Ok(list)
    }

    pub(super) fn opt_order(&mut self) -> (r: PResult<Vec<OrderingTerm>>)
        requires
            old(self).wf(),
        ensures
            final(self).follows(old(self)),
            match r {
                Ok(x) => rules::opt_order(old(self).toks(), old(self).at(), old(self).level())
                    == Parsed::<Seq<OrderingTermView>>::Ok((ast::ordering_terms(x@),
                    final(self).at())),
                Err(f) => rules::opt_order(old(self).toks(), old(self).at(), old(self).level())
                    == Parsed::<Seq<OrderingTermView>>::Err(f@),
            },
        decreases MAX_EXPR_DEPTH - old(self).level(), 4int, 0nat,
    {
        if self.eat_kw(Keyword::ORDER) {
            self.expect_kw(Keyword::BY)?;
            let first = self.ordering_term()?;
            return self.more_terms(first);
        }
        let none: Vec<OrderingTerm> = Vec::new();
        assert(ast::ordering_terms(none@) =~= seq![]);
        Ok(none)
    }

    pub(super) fn opt_limit(&mut self) -> (r: PResult<Option<Limit>>)
        requires
            old(self).wf(),
        ensures
            final(self).follows(old(self)),
            match r {
                Ok(x) => rules::opt_limit(old(self).toks(), old(self).at(), old(self).level())
                    == Parsed::<Option<LimitView>>::Ok(((match x { Some(l) => Some(l@), None =>
                    None }), final(self).at())),
                Err(f) => rules::opt_limit(old(self).toks(), old(self).at(), old(self).level())
                    == Parsed::<Option<LimitView>>::Err(f@),
            },
        decreases MAX_EXPR_DEPTH - old(self).level(), 4int, 0nat,
    {
        if !self.eat_kw(Keyword::LIMIT) {
            return Ok(None);
        }
        let limit = self.expr()?;
        let offset = if self.eat_kw(Keyword::OFFSET) || self.eat_punct(Punct::Comma) {
            Some(self.expr()?)
        } else {
            None
        };
        Ok(Some(Limit { limit, offset }))
    }

    pub(crate) fn parse_select_stmt(&mut self) -> (r: PResult<Select>)
        requires
            old(self).wf(),
        ensures
            final(self).follows(old(self)),
            r is Ok ==> final(self).at() > old(self).at(),
            match r {
                Ok(x) => rules::select(old(self).toks(), old(self).at(), old(self).level())
                    == Parsed::<SelectView>::Ok((x@, final(self).at())),
                Err(f) => rules::select(old(self).toks(), old(self).at(), old(self).level())
                    == Parsed::<SelectView>::Err(f@),
            },
        decreases MAX_EXPR_DEPTH - old(self).level(), 14int, 0nat,
    {
        if self.at_kw(Keyword::WITH) {
            return Err(self.unsupported("WITH / CTEs not yet supported"));
        }
        if self.at_kw(Keyword::VALUES) {
            return Err(self.unsupported("bare VALUES not yet supported"));
        }
        let start = self.expect_kw(Keyword::SELECT)?;
        let core = self.select_core()?;
        let compound = self.compound_arms()?;
        let order_by = self.opt_order()?;
        let limit = self.opt_limit()?;
        Ok(
            Select {
                distinct: core.distinct,
                columns: core.columns,
                from: core.from,
                where_clause: core.where_clause,
                group_by: core.group_by,
                having: core.having,
                compound,
                order_by,
                limit,
                span: join_span(start, self.behind()),
            },
        )
    }

    /// `EXPLAIN QUERY PLAN select-stmt`.
    pub(crate) fn parse_explain_stmt(&mut self) -> (r: PResult<Explain>)
        requires
            old(self).wf(),
        ensures
            final(self).follows(old(self)),
            r is Ok ==> final(self).at() > old(self).at(),
            match r {
                Ok(x) => rules::explain(old(self).toks(), old(self).at(), old(self).level())
                    == Parsed::<ExplainView>::Ok((x@, final(self).at())),
                Err(f) => rules::explain(old(self).toks(), old(self).at(), old(self).level())
                    == Parsed::<ExplainView>::Err(f@),
            },
    {
        self.expect_kw(Keyword::EXPLAIN)?;
        if !self.eat_kw(Keyword::QUERY) {
            return Err(
                self.unsupported(
                    "bare EXPLAIN (opcode dump) not supported here — use the CLI's -explain flag",
                ),
            );
        }
        self.expect_kw(Keyword::PLAN)?;
        let select = self.parse_select_stmt()?;
        Ok(Explain { query_plan: true, select: Box::new(select) })
    }
}

} // verus!
