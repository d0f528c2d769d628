//! `INSERT`, `DELETE` and `UPDATE`.
use crate::parser::ast;
use crate::parser::ast::{Assignment, AssignmentView, ConflictAction, Delete, DeleteView, Expr,
    ExprView, Insert, InsertSource, InsertSourceView, InsertView, Rollback, Select, Update,
    UpdateView};
use crate::parser::error::{PResult};
use crate::parser::grammar::{join_span, pair_up, Parser, Punct};
use crate::parser::rules;
use crate::parser::rules::{Parsed};
use crate::parser::tokenizer::{Keyword, Span};
use crate::text;
use vstd::prelude::*;

verus! {

impl Parser {
    pub(super) fn conflict_action(&mut self) -> (r: PResult<ConflictAction>)
        requires
            old(self).wf(),
        ensures
            final(self).follows(old(self)),
            match r {
                Ok(x) => rules::conflict_action(old(self).toks(), old(self).at())
                    == Parsed::<ConflictAction>::Ok((x, final(self).at())),
                Err(f) => rules::conflict_action(old(self).toks(), old(self).at())
                    == Parsed::<ConflictAction>::Err(f@),
            },
    {
        if self.eat_kw(Keyword::REPLACE) {
            Ok(ConflictAction::Replace)
        } else if self.eat_kw(Keyword::IGNORE) {
            Ok(ConflictAction::Ignore)
        } else if self.eat_kw(Keyword::ABORT) {
            Ok(ConflictAction::Abort)
        } else if self.eat_kw(Keyword::ROLLBACK) {
            Ok(ConflictAction::Rollback)
        } else if self.eat_kw(Keyword::FAIL) {
            Ok(ConflictAction::Fail)
        } else {
            Err(self.invalid("expected REPLACE, IGNORE, ABORT, ROLLBACK, or FAIL after OR"))
        }
    }

    pub(super) fn opt_conflict_action(&mut self) -> (r: PResult<Option<ConflictAction>>)
        requires
            old(self).wf(),
        ensures
            final(self).follows(old(self)),
            match r {
                Ok(x) => rules::opt_conflict_action(old(self).toks(), old(self).at())
                    == Parsed::<Option<ConflictAction>>::Ok((x, final(self).at())),
                Err(f) => rules::opt_conflict_action(old(self).toks(), old(self).at())
                    == Parsed::<Option<ConflictAction>>::Err(f@),
            },
    {
        if self.eat_kw(Keyword::OR) {
            Ok(Some(self.conflict_action()?))
        } else {
            Ok(None)
        }
    }

    /// `name-list ")"`, behind a `(`.
    pub(super) fn closed_names(&mut self, what: &str) -> (r: PResult<Vec<String>>)
        requires
            old(self).wf(),
        ensures
            final(self).follows(old(self)),
            r is Ok ==> final(self).at() > old(self).at(),
            match r {
                Ok(x) => rules::closed_names(old(self).toks(), old(self).at(), what@)
                    == Parsed::<Seq<Seq<char>>>::Ok((text::texts(x@), final(self).at())),
                Err(f) => rules::closed_names(old(self).toks(), old(self).at(), what@)
                    == Parsed::<Seq<Seq<char>>>::Err(f@),
            },
    {
        let names = self.name_list()?;
        self.expect_punct(Punct::RParen, what)?;
        Ok(names)
    }

    pub(super) fn opt_names(&mut self) -> (r: PResult<Option<Vec<String>>>)
        requires
            old(self).wf(),
        ensures
            final(self).follows(old(self)),
            match r {
                Ok(x) => rules::opt_names(old(self).toks(), old(self).at())
                    == Parsed::<Option<Seq<Seq<char>>>>::Ok(((match x { Some(v) =>
                    Some(text::texts(v@)), None => None }), final(self).at())),
                Err(f) => rules::opt_names(old(self).toks(), old(self).at())
                    == Parsed::<Option<Seq<Seq<char>>>>::Err(f@),
            },
    {
        if self.eat_punct(Punct::LParen) {
            Ok(Some(self.closed_names("')'")?))
        } else {
            Ok(None)
        }
    }

    pub(super) fn value_row(&mut self) -> (r: PResult<Vec<Expr>>)
        requires
            old(self).wf(),
        ensures
            final(self).follows(old(self)),
            r is Ok ==> final(self).at() > old(self).at(),
            r is Ok ==> r->Ok_0@.len() > 0,
            match r {
                Ok(x) => rules::value_row(old(self).toks(), old(self).at(), old(self).level())
                    == Parsed::<Seq<ExprView>>::Ok((ast::expr_list(x@), final(self).at())),
                Err(f) => rules::value_row(old(self).toks(), old(self).at(), old(self).level())
                    == Parsed::<Seq<ExprView>>::Err(f@),
            },
    {
        self.expect_punct(Punct::LParen, "'('")?;
        let list = self.expr_list()?;
        self.expect_punct(Punct::RParen, "')'")?;
        Ok(list)
    }

    /// `value-row { "," value-row }`, and the span of the last value.
    pub(super) fn value_rows(&mut self) -> (r: PResult<(Vec<Vec<Expr>>, Span)>)
        requires
            old(self).wf(),
        ensures
            final(self).follows(old(self)),
            ({
                let t = old(self).toks();
                let d = old(self).level();
                match rules::value_row(t, old(self).at(), d) {
                    Err(f) => r is Err && r->Err_0@ == f,
                    Ok((first, q)) => match r {
                        Ok((rows, end)) => rules::more_rows(t, q, d, seq![first]) == Parsed::<
                            Seq<Seq<ExprView>>,
                        >::Ok((ast::expr_rows(rows@), final(self).at())) && end == ast::expr_rows(
                            rows@,
                        ).last().last().span,
                        Err(f) => rules::more_rows(t, q, d, seq![first]) == Parsed::<
                            Seq<Seq<ExprView>>,
                        >::Err(f@),
                    },
                }
            }),
    {
        let first = self.value_row()?;
        let ghost t = self.toks();
        let ghost d = self.level();
        let ghost head = ast::expr_list(first@);
        let ghost begin = self.at();
        let mut end = first[first.len() - 1].span;
        let mut rows: Vec<Vec<Expr>> = Vec::new();
        proof {
            ast::expr_rows_push(rows@, first);
            assert(ast::expr_rows(rows@) =~= seq![]);
        }
        rows.push(first);
        assert(ast::expr_rows(rows@) =~= seq![head]);
        while self.at_punct(Punct::Comma)
            invariant
                self.follows(old(self)),
                t == self.toks(),
                d == self.level(),
                t == old(self).toks(),
                d == old(self).level(),
                rows@.len() > 0,
                end == ast::expr_rows(rows@).last().last().span,
                rules::value_row(t, old(self).at(), d) == Parsed::<Seq<ExprView>>::Ok(
                    (head, begin),
                ),
                rules::more_rows(t, begin, d, seq![head]) == rules::more_rows(
                    t,
                    self.at(),
                    d,
                    ast::expr_rows(rows@),
                ),
            decreases self.tokens.len() - self.pos,
        {
            self.advance();
            let row = self.value_row()?;
            end = row[row.len() - 1].span;
            proof {
                ast::expr_rows_push(rows@, row);
            }
            rows.push(row);
        }
        Ok((rows, end))
    }

    pub(super) fn insert_source(&mut self) -> (r: PResult<(InsertSource, Span)>)
        requires
            old(self).wf(),
        ensures
            final(self).follows(old(self)),
            match r {
                Ok(x) => rules::insert_source(old(self).toks(), old(self).at(), old(self).level())
                    == Parsed::<(InsertSourceView, Span)>::Ok(((x.0@, x.1), final(self).at())),
                Err(f) => rules::insert_source(old(self).toks(), old(self).at(), old(self).level())
                    == Parsed::<(InsertSourceView, Span)>::Err(f@),
            },
    {
        if self.eat_kw(Keyword::DEFAULT) {
            let end = self.expect_kw(Keyword::VALUES)?;
            return Ok((InsertSource::DefaultValues, end));
        }
        if self.eat_kw(Keyword::VALUES) {
            let (rows, end) = self.value_rows()?;
            return Ok((InsertSource::Values(rows), end));
        }
        if self.at_kw(Keyword::SELECT) || self.at_kw(Keyword::WITH) {
            let select = self.parse_select_stmt()?;
            let end = select.span;
            return Ok((InsertSource::Select(Box::new(select)), end));
        }
        Err(self.invalid("expected VALUES, DEFAULT VALUES, or SELECT after INSERT INTO"))
    }

    pub(crate) fn parse_insert_stmt(&mut self) -> (r: PResult<Insert>)
        requires
            old(self).wf(),
        ensures
            final(self).follows(old(self)),
            match r {
                Ok(x) => rules::insert(old(self).toks(), old(self).at(), old(self).level())
                    == Parsed::<InsertView>::Ok((x@, final(self).at())),
                Err(f) => rules::insert(old(self).toks(), old(self).at(), old(self).level())
                    == Parsed::<InsertView>::Err(f@),
            },
    {
        let start = self.expect_kw(Keyword::INSERT)?;
        let or_action = self.opt_conflict_action()?;
        self.expect_kw(Keyword::INTO)?;
        let (table, _) = self.identifier()?;
        let columns = self.opt_names()?;
        let (source, end) = self.insert_source()?;
        Ok(Insert { or_action, table, columns, source, span: join_span(start, end) })
    }

    pub(crate) fn parse_delete_stmt(&mut self) -> (r: PResult<Delete>)
        requires
            old(self).wf(),
        ensures
            final(self).follows(old(self)),
            match r {
                Ok(x) => rules::delete(old(self).toks(), old(self).at(), old(self).level())
                    == Parsed::<DeleteView>::Ok((x@, final(self).at())),
                Err(f) => rules::delete(old(self).toks(), old(self).at(), old(self).level())
                    == Parsed::<DeleteView>::Err(f@),
            },
    {
        let start = self.expect_kw(Keyword::DELETE)?;
        self.expect_kw(Keyword::FROM)?;
        let (table, table_span) = self.identifier()?;
        let where_clause = self.opt_expr(Keyword::WHERE)?;
        let end = match &where_clause {
            Some(e) => e.span,
            None => table_span,
        };
        Ok(Delete { table, where_clause, span: join_span(start, end) })
    }

    /// One assignment: `column-name "=" expr`, or the tuple form, which requires a
    /// matching-arity parenthesized expr-list and expands into one [`Assignment`] per
    /// column.
    pub(super) fn assignment(&mut self) -> (r: PResult<Vec<Assignment>>)
        requires
            old(self).wf(),
        ensures
            final(self).follows(old(self)),
            r is Ok ==> final(self).at() > old(self).at(),
            match r {
                Ok(x) => rules::assignment(old(self).toks(), old(self).at(), old(self).level())
                    == Parsed::<Seq<AssignmentView>>::Ok((ast::assignments(x@), final(self).at())),
                Err(f) => rules::assignment(old(self).toks(), old(self).at(), old(self).level())
                    == Parsed::<Seq<AssignmentView>>::Err(f@),
            },
    {
        if self.eat_punct(Punct::LParen) {
            let columns = self.closed_names("')' to close column list")?;
            self.expect_punct(Punct::Eq, "'=' in tuple assignment")?;
            if !self.at_punct(Punct::LParen) {
                return Err(
                    self.unsupported("tuple assignment RHS must be a parenthesized expr-list"),
                );
            }
            self.advance();
            if self.at_kw(Keyword::SELECT) {
                return Err(self.unsupported("tuple assignment RHS subquery not yet supported"));
            }
            let values = self.expr_list()?;
            self.expect_punct(Punct::RParen, "')' to close tuple assignment")?;
            assert(text::texts(columns@).len() == columns@.len());
            if values.len() != columns.len() {
                return Err(self.invalid("tuple assignment column/value count mismatch"));
            }
            return Ok(pair_up(columns, values));
        }
        let (name, _) = self.identifier()?;
        self.expect_punct(Punct::Eq, "'=' in assignment")?;
        let value = self.expr()?;
        let mut columns: Vec<String> = Vec::new();
        columns.push(name);
        let mut list: Vec<Assignment> = Vec::new();
        assert(text::texts(columns@) =~= seq![name@]);
        let one = Assignment { columns, value };
        list.push(one);
        assert(ast::assignments(list@) =~= seq![one@]);
        Ok(list)
    }

    pub(crate) fn parse_update_stmt(&mut self) -> (r: PResult<Update>)
        requires
            old(self).wf(),
        ensures
            final(self).follows(old(self)),
            match r {
                Ok(x) => rules::update(old(self).toks(), old(self).at(), old(self).level())
                    == Parsed::<UpdateView>::Ok((x@, final(self).at())),
                Err(f) => rules::update(old(self).toks(), old(self).at(), old(self).level())
                    == Parsed::<UpdateView>::Err(f@),
            },
    {
        let start = self.expect_kw(Keyword::UPDATE)?;
        let or_action = self.opt_conflict_action()?;
        let (table, _) = self.identifier()?;
        self.expect_kw(Keyword::SET)?;
        let assignments = self.assignments()?;
        let where_clause = self.opt_expr(Keyword::WHERE)?;
        let span = join_span(start, self.behind());
        Ok(Update { or_action, table, assignments, where_clause, span })
    }

    /// `assignment { "," assignment }`.
    pub(super) fn assignments(&mut self) -> (r: PResult<Vec<Assignment>>)
        requires
            old(self).wf(),
        ensures
            final(self).follows(old(self)),
            ({
                let t = old(self).toks();
                let d = old(self).level();
                match rules::assignment(t, old(self).at(), d) {
                    Err(f) => r is Err && r->Err_0@ == f,
                    Ok((first, q)) => match r {
                        Ok(x) => rules::more_assignments(t, q, d, first) == Parsed::<
                            Seq<AssignmentView>,
                        >::Ok((ast::assignments(x@), final(self).at())),
                        Err(f) => rules::more_assignments(t, q, d, first) == Parsed::<
                            Seq<AssignmentView>,
                        >::Err(f@),
                    },
                }
            }),
    {
        let mut list = self.assignment()?;
        let ghost t = self.toks();
        let ghost d = self.level();
        let ghost first = ast::assignments(list@);
        let ghost begin = self.at();
        while self.at_punct(Punct::Comma)
            invariant
                self.follows(old(self)),
                t == self.toks(),
                d == self.level(),
                t == old(self).toks(),
                d == old(self).level(),
                rules::assignment(t, old(self).at(), d) == Parsed::<Seq<AssignmentView>>::Ok(
                    (first, begin),
                ),
                rules::more_assignments(t, begin, d, first) == rules::more_assignments(
                    t,
                    self.at(),
                    d,
                    ast::assignments(list@),
                ),
            decreases self.tokens.len() - self.pos,
        {
            self.advance();
            let mut more = self.assignment()?;
            let ghost past = list@;
            let ghost new = more@;
            list.append(&mut more);
            assert(ast::assignments(list@) =~= ast::assignments(past) + ast::assignments(new));
        }
        Ok(list)
    }
}

} // verus!
