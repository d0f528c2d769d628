//! `CREATE`, `DROP` and transaction control.
use crate::parser::ast;
use crate::parser::ast::{Begin, ColumnConstraint, ColumnConstraintView, ColumnDef, ColumnDefView,
    Commit, CreateIndex, CreateIndexView, CreateTable, CreateTableView, CreateView, CreateViewView,
    DefaultValue, DefaultValueView, DropIndex, DropIndexView, DropTable, DropTableView, DropView,
    DropViewView, Expr, ExprKind, ExprView, IndexedColumn, IndexedColumnView, Literal, Rollback,
    TableConstraint, TableConstraintView, TransactionMode, UnaryOp};
use crate::parser::error::{PResult};
use crate::parser::grammar::{join_span, Parser, Punct};
use crate::parser::rules;
use crate::parser::rules::{Parsed};
use crate::parser::tokenizer::{Keyword, KindView, Span, TokenKind};
use vstd::prelude::*;

verus! {

impl Parser {
    pub(super) fn opt_if_not_exists(&mut self) -> (r: PResult<bool>)
        requires
            old(self).wf(),
        ensures
            final(self).follows(old(self)),
            match r {
                Ok(x) => rules::opt_if_not_exists(old(self).toks(), old(self).at())
                    == Parsed::<bool>::Ok((x, final(self).at())),
                Err(f) => rules::opt_if_not_exists(old(self).toks(), old(self).at())
                    == Parsed::<bool>::Err(f@),
            },
    {
        if self.eat_kw(Keyword::IF) {
            self.expect_kw(Keyword::NOT)?;
            self.expect_kw(Keyword::EXISTS)?;
            Ok(true)
        } else {
            Ok(false)
        }
    }

    pub(super) fn opt_if_exists(&mut self) -> (r: PResult<bool>)
        requires
            old(self).wf(),
        ensures
            final(self).follows(old(self)),
            match r {
                Ok(x) => rules::opt_if_exists(old(self).toks(), old(self).at())
                    == Parsed::<bool>::Ok((x, final(self).at())),
                Err(f) => rules::opt_if_exists(old(self).toks(), old(self).at())
                    == Parsed::<bool>::Err(f@),
            },
    {
        if self.eat_kw(Keyword::IF) {
            self.expect_kw(Keyword::EXISTS)?;
            Ok(true)
        } else {
            Ok(false)
        }
    }

    /// A name that no `.` follows.
    pub(super) fn plain_name(&mut self) -> (r: PResult<(String, Span)>)
        requires
            old(self).wf(),
        ensures
            final(self).follows(old(self)),
            r is Ok ==> final(self).at() > old(self).at(),
            match r {
                Ok(x) => rules::plain_name(old(self).toks(), old(self).at())
                    == Parsed::<(Seq<char>, Span)>::Ok(((x.0@, x.1), final(self).at())),
                Err(f) => rules::plain_name(old(self).toks(), old(self).at())
                    == Parsed::<(Seq<char>, Span)>::Err(f@),
            },
    {
        let name = self.identifier()?;
        self.check_no_schema_qualifier()?;
        Ok(name)
    }

    /// Fails with `Unsupported` if a `.` follows.
    pub(super) fn check_no_schema_qualifier(&self) -> (r: PResult<()>)
        requires
            self.wf(),
        ensures
            match r {
                Ok(_) => rules::kind(self.toks(), self.at()) != KindView::Dot,
                Err(f) => rules::kind(self.toks(), self.at()) == KindView::Dot
                    && rules::unsupported::<()>(
                    self.toks(),
                    self.at(),
                    "schema-qualified names not yet supported"@,
                ) == Parsed::<()>::Err(f@),
            },
    {
        if self.at_punct(Punct::Dot) {
            return Err(self.unsupported("schema-qualified names not yet supported"));
        }
        Ok(())
    }

    /// Fails with `Unsupported` if an `ON CONFLICT` resolution clause follows.
    pub(super) fn check_no_conflict_clause(&mut self) -> (r: PResult<()>)
        requires
            old(self).wf(),
        ensures
            final(self).follows(old(self)),
            match r {
                Ok(x) => rules::no_conflict_clause(old(self).toks(), old(self).at())
                    == Parsed::<()>::Ok(((), final(self).at())),
                Err(f) => rules::no_conflict_clause(old(self).toks(), old(self).at())
                    == Parsed::<()>::Err(f@),
            },
    {
        if self.at_kw(Keyword::ON) && self.at_kw_ahead(1, Keyword::CONFLICT) {
            return Err(self.unsupported("ON CONFLICT resolution clause not yet supported"));
        }
        Ok(())
    }

    pub(super) fn literal_value(&mut self) -> (r: PResult<Expr>)
        requires
            old(self).wf(),
        ensures
            final(self).follows(old(self)),
            r is Ok ==> final(self).at() > old(self).at(),
            match r {
                Ok(x) => rules::literal_value(old(self).toks(), old(self).at())
                    == Parsed::<ExprView>::Ok((x@, final(self).at())),
                Err(f) => rules::literal_value(old(self).toks(), old(self).at())
                    == Parsed::<ExprView>::Err(f@),
            },
    {
        let span = self.here();
        if let Some(literal) = self.literal_here() {
            self.advance();
            return Ok(Expr { kind: ExprKind::Literal(literal), span });
        }
        if self.at_current_time() {
            return Err(
                self.unsupported("CURRENT_TIME/CURRENT_DATE/CURRENT_TIMESTAMP not yet supported"),
            );
        }
        Err(self.invalid("expected literal value after DEFAULT"))
    }

    pub(super) fn default_value(&mut self) -> (r: PResult<DefaultValue>)
        requires
            old(self).wf(),
        ensures
            final(self).follows(old(self)),
            r is Ok ==> final(self).at() > old(self).at(),
            match r {
                Ok(x) => rules::default_value(old(self).toks(), old(self).at(), old(self).level())
                    == Parsed::<DefaultValueView>::Ok((x@, final(self).at())),
                Err(f) => rules::default_value(old(self).toks(), old(self).at(), old(self).level())
                    == Parsed::<DefaultValueView>::Err(f@),
            },
    {
        if self.eat_punct(Punct::LParen) {
            let expr = self.expr()?;
            self.expect_punct(Punct::RParen, "')' to close DEFAULT expression")?;
            return Ok(DefaultValue::Paren(expr));
        }
        let minus = matches!(self.peek().kind, TokenKind::Minus);
        if minus || matches!(self.peek().kind, TokenKind::Plus) {
            let op = if minus {
                UnaryOp::Minus
            } else {
                UnaryOp::Plus
            };
            let start = self.here();
            self.advance();
            let inner = self.literal_value()?;
            let span = join_span(start, inner.span);
            return Ok(
                DefaultValue::Literal(
                    Expr { kind: ExprKind::Unary { op, expr: Box::new(inner) }, span },
                ),
            );
        }
        Ok(DefaultValue::Literal(self.literal_value()?))
    }

    pub(super) fn check_condition(&mut self) -> (r: PResult<Expr>)
        requires
            old(self).wf(),
        ensures
            final(self).follows(old(self)),
            r is Ok ==> final(self).at() > old(self).at(),
            match r {
                Ok(x) => rules::check_condition(old(self).toks(), old(self).at(),
                    old(self).level()) == Parsed::<ExprView>::Ok((x@, final(self).at())),
                Err(f) => rules::check_condition(old(self).toks(), old(self).at(),
                    old(self).level()) == Parsed::<ExprView>::Err(f@),
            },
    {
        self.expect_punct(Punct::LParen, "'(' after CHECK")?;
        let expr = self.expr()?;
        self.expect_punct(Punct::RParen, "')' to close CHECK")?;
        Ok(expr)
    }

    pub(super) fn opt_constraint_name(&mut self) -> (r: PResult<bool>)
        requires
            old(self).wf(),
        ensures
            final(self).follows(old(self)),
            r == PResult::<bool>::Ok(false) ==> final(self).at() == old(self).at(),
            match r {
                Ok(x) => rules::opt_constraint_name(old(self).toks(), old(self).at())
                    == Parsed::<bool>::Ok((x, final(self).at())),
                Err(f) => rules::opt_constraint_name(old(self).toks(), old(self).at())
                    == Parsed::<bool>::Err(f@),
            },
    {
        if self.eat_kw(Keyword::CONSTRAINT) {
            self.identifier()?;
            Ok(true)
        } else {
            Ok(false)
        }
    }

    pub(super) fn opt_column_constraint(&mut self) -> (r: PResult<Option<ColumnConstraint>>)
        requires
            old(self).wf(),
        ensures
            final(self).follows(old(self)),
            match r {
                Ok(Some(_)) => final(self).at() > old(self).at(),
                Ok(None) => final(self).at() == old(self).at(),
                Err(_) => true,
            },
            match r {
                Ok(x) => rules::opt_column_constraint(old(self).toks(), old(self).at(),
                    old(self).level()) == Parsed::<Option<ColumnConstraintView>>::Ok(((match x {
                    Some(c) => Some(c@), None => None }), final(self).at())),
                Err(f) => rules::opt_column_constraint(old(self).toks(), old(self).at(),
                    old(self).level()) == Parsed::<Option<ColumnConstraintView>>::Err(f@),
            },
    {
        let named = self.opt_constraint_name()?;
        if self.eat_kw(Keyword::NOT) {
            self.expect_punct(Punct::Null, "NULL")?;
            self.check_no_conflict_clause()?;
            return Ok(Some(ColumnConstraint::NotNull));
        }
        if self.at_punct(Punct::Null) {
            return Err(self.unsupported("bare NULL column constraint not yet supported"));
        }
        if self.eat_kw(Keyword::PRIMARY) {
            self.expect_kw(Keyword::KEY)?;
            let desc = self.direction();
            self.check_no_conflict_clause()?;
            let autoincrement = self.eat_kw(Keyword::AUTOINCREMENT);
            return Ok(Some(ColumnConstraint::PrimaryKey { desc, autoincrement }));
        }
        if self.eat_kw(Keyword::UNIQUE) {
            self.check_no_conflict_clause()?;
            return Ok(Some(ColumnConstraint::Unique));
        }
        if self.eat_kw(Keyword::CHECK) {
            return Ok(Some(ColumnConstraint::Check(self.check_condition()?)));
        }
        if self.eat_kw(Keyword::DEFAULT) {
            return Ok(Some(ColumnConstraint::Default(self.default_value()?)));
        }
        if self.eat_kw(Keyword::COLLATE) {
            let (name, _) = self.identifier()?;
            return Ok(Some(ColumnConstraint::Collate(name)));
        }
        if self.at_kw(Keyword::REFERENCES) {
            return Err(
                self.unsupported("REFERENCES (foreign key) column constraint not yet supported"),
            );
        }
        if self.at_kw(Keyword::GENERATED) || (self.at_kw(Keyword::AS) && self.at_punct_ahead(
            1,
            Punct::LParen,
        )) {
            return Err(self.unsupported("GENERATED ALWAYS AS not yet supported"));
        }
        if named {
            return Err(self.invalid("expected column constraint after CONSTRAINT name"));
        }
        Ok(None)
    }

    pub(super) fn column_def(&mut self) -> (r: PResult<ColumnDef>)
        requires
            old(self).wf(),
        ensures
            final(self).follows(old(self)),
            r is Ok ==> final(self).at() > old(self).at(),
            match r {
                Ok(x) => rules::column_def(old(self).toks(), old(self).at(), old(self).level())
                    == Parsed::<ColumnDefView>::Ok((x@, final(self).at())),
                Err(f) => rules::column_def(old(self).toks(), old(self).at(), old(self).level())
                    == Parsed::<ColumnDefView>::Err(f@),
            },
    {
        let (name, _) = self.identifier()?;
        let declared_type = if matches!(self.peek().kind, TokenKind::Identifier(_)) {
            Some(self.declared_type()?)
        } else {
            None
        };
        let constraints = self.column_constraints()?;
        Ok(ColumnDef { name, declared_type, constraints })
    }

    /// `{ column-constraint }`.
    pub(super) fn column_constraints(&mut self) -> (r: PResult<Vec<ColumnConstraint>>)
        requires
            old(self).wf(),
        ensures
            final(self).follows(old(self)),
            match r {
                Ok(x) => rules::more_column_constraints(old(self).toks(), old(self).at(),
                    old(self).level(), seq![])
                    == Parsed::<Seq<ColumnConstraintView>>::Ok((ast::column_constraints(x@),
                    final(self).at())),
                Err(f) => rules::more_column_constraints(old(self).toks(), old(self).at(),
                    old(self).level(), seq![]) == Parsed::<Seq<ColumnConstraintView>>::Err(f@),
            },
    {
        let ghost t = self.toks();
        let ghost d = self.level();
        let mut constraints: Vec<ColumnConstraint> = Vec::new();
        assert(ast::column_constraints(constraints@) =~= seq![]);
        loop
            invariant
                self.follows(old(self)),
                t == self.toks(),
                d == self.level(),
                t == old(self).toks(),
                d == old(self).level(),
                rules::more_column_constraints(t, old(self).at(), d, seq![])
                    == rules::more_column_constraints(
                    t,
                    self.at(),
                    d,
                    ast::column_constraints(constraints@),
                ),
            decreases self.tokens.len() - self.pos,
        {
            match self.opt_column_constraint()? {
                Some(c) => {
                    proof {
                        ast::column_constraints_push(constraints@, c);
                    }
                    constraints.push(c);
                },
                None => {
                    return Ok(constraints);
                },
            }
        }
    }

    pub(super) fn indexed_column(&mut self) -> (r: PResult<IndexedColumn>)
        requires
            old(self).wf(),
        ensures
            final(self).follows(old(self)),
            r is Ok ==> final(self).at() > old(self).at(),
            match r {
                Ok(x) => rules::indexed_column(old(self).toks(), old(self).at(), old(self).level())
                    == Parsed::<IndexedColumnView>::Ok((x@, final(self).at())),
                Err(f) => rules::indexed_column(old(self).toks(), old(self).at(),
                    old(self).level()) == Parsed::<IndexedColumnView>::Err(f@),
            },
    {
        let expr = self.expr()?;
        let desc = self.direction();
        Ok(IndexedColumn { expr, desc })
    }

    /// `{ "," indexed-column }`, behind the column `first`.
    pub(super) fn more_indexed_columns(&mut self, first: IndexedColumn)
        -> (r: PResult<Vec<IndexedColumn>>)
        requires
            old(self).wf(),
        ensures
            final(self).follows(old(self)),
            match r {
                Ok(x) => rules::more_indexed_columns(old(self).toks(), old(self).at(),
                    old(self).level(), seq![first@])
                    == Parsed::<Seq<IndexedColumnView>>::Ok((ast::indexed_columns(x@),
                    final(self).at())),
                Err(f) => rules::more_indexed_columns(old(self).toks(), old(self).at(),
                    old(self).level(), seq![first@]) == Parsed::<Seq<IndexedColumnView>>::Err(f@),
            },
    {
        let ghost t = self.toks();
        let ghost d = self.level();
        let mut list: Vec<IndexedColumn> = Vec::new();
        list.push(first);
        assert(ast::indexed_columns(list@) =~= seq![first@]);
        while self.at_punct(Punct::Comma)
            invariant
                self.follows(old(self)),
                t == self.toks(),
                d == self.level(),
                t == old(self).toks(),
                d == old(self).level(),
                rules::more_indexed_columns(t, old(self).at(), d, seq![first@])
                    == rules::more_indexed_columns(
                    t,
                    self.at(),
                    d,
                    ast::indexed_columns(list@),
                ),
            decreases self.tokens.len() - self.pos,
        {
            self.advance();
            let item = self.indexed_column()?;
            proof {
                ast::indexed_columns_push(list@, item);
            }
            list.push(item);
        }
        Ok(list)
    }

    pub(super) fn indexed_column_list(&mut self) -> (r: PResult<Vec<IndexedColumn>>)
        requires
            old(self).wf(),
        ensures
            final(self).follows(old(self)),
            r is Ok ==> final(self).at() > old(self).at(),
            match r {
                Ok(x) => rules::indexed_column_list(old(self).toks(), old(self).at(),
                    old(self).level())
                    == Parsed::<Seq<IndexedColumnView>>::Ok((ast::indexed_columns(x@),
                    final(self).at())),
                Err(f) => rules::indexed_column_list(old(self).toks(), old(self).at(),
                    old(self).level()) == Parsed::<Seq<IndexedColumnView>>::Err(f@),
            },
    {
        self.expect_punct(Punct::LParen, "'(' after PRIMARY KEY/UNIQUE")?;
        let first = self.indexed_column()?;
        let cols = self.more_indexed_columns(first)?;
        self.expect_punct(Punct::RParen, "')' to close column list")?;
        Ok(cols)
    }

    pub(super) fn at_table_constraint_start(&self) -> (b: bool)
        requires
            self.wf(),
        ensures
            b == rules::at_table_constraint_start(self.toks(), self.at()),
    {
        self.at_kw(Keyword::CONSTRAINT) || self.at_kw(Keyword::PRIMARY) || self.at_kw(
            Keyword::UNIQUE,
        ) || self.at_kw(Keyword::CHECK) || self.at_kw(Keyword::FOREIGN)
    }

    pub(super) fn table_constraint(&mut self) -> (r: PResult<TableConstraint>)
        requires
            old(self).wf(),
        ensures
            final(self).follows(old(self)),
            r is Ok ==> final(self).at() > old(self).at(),
            match r {
                Ok(x) => rules::table_constraint(old(self).toks(), old(self).at(),
                    old(self).level()) == Parsed::<TableConstraintView>::Ok((x@, final(self).at())),
                Err(f) => rules::table_constraint(old(self).toks(), old(self).at(),
                    old(self).level()) == Parsed::<TableConstraintView>::Err(f@),
            },
    {
        self.opt_constraint_name()?;
        if self.eat_kw(Keyword::PRIMARY) {
            self.expect_kw(Keyword::KEY)?;
            let cols = self.indexed_column_list()?;
            self.check_no_conflict_clause()?;
            return Ok(TableConstraint::PrimaryKey(cols));
        }
        if self.eat_kw(Keyword::UNIQUE) {
            let cols = self.indexed_column_list()?;
            self.check_no_conflict_clause()?;
            return Ok(TableConstraint::Unique(cols));
        }
        if self.eat_kw(Keyword::CHECK) {
            return Ok(TableConstraint::Check(self.check_condition()?));
        }
        if self.at_kw(Keyword::FOREIGN) {
            return Err(self.unsupported("FOREIGN KEY table constraint not yet supported"));
        }
        Err(
            self.invalid("expected PRIMARY KEY, UNIQUE, CHECK, or FOREIGN KEY table constraint"),
        )
    }

    /// `{ "," table-constraint }`.
    pub(super) fn table_constraints(&mut self) -> (r: PResult<Vec<TableConstraint>>)
        requires
            old(self).wf(),
        ensures
            final(self).follows(old(self)),
            match r {
                Ok(x) => rules::more_table_constraints(old(self).toks(), old(self).at(),
                    old(self).level(), seq![])
                    == Parsed::<Seq<TableConstraintView>>::Ok((ast::table_constraints(x@),
                    final(self).at())),
                Err(f) => rules::more_table_constraints(old(self).toks(), old(self).at(),
                    old(self).level(), seq![]) == Parsed::<Seq<TableConstraintView>>::Err(f@),
            },
    {
        let ghost t = self.toks();
        let ghost d = self.level();
        let mut list: Vec<TableConstraint> = Vec::new();
        assert(ast::table_constraints(list@) =~= seq![]);
        while self.at_punct(Punct::Comma)
            invariant
                self.follows(old(self)),
                t == self.toks(),
                d == self.level(),
                t == old(self).toks(),
                d == old(self).level(),
                rules::more_table_constraints(t, old(self).at(), d, seq![])
                    == rules::more_table_constraints(
                    t,
                    self.at(),
                    d,
                    ast::table_constraints(list@),
                ),
            decreases self.tokens.len() - self.pos,
        {
            self.advance();
            let item = self.table_constraint()?;
            proof {
                ast::table_constraints_push(list@, item);
            }
            list.push(item);
        }
        Ok(list)
    }

    /// `{ "," column-def } { "," table-constraint }`, behind the column `first`.
    pub(super) fn table_items(&mut self, first: ColumnDef) -> (r: PResult<(Vec<ColumnDef>,
        Vec<TableConstraint>)>)
        requires
            old(self).wf(),
        ensures
            final(self).follows(old(self)),
            match r {
                Ok(x) => rules::more_table_items(old(self).toks(), old(self).at(),
                    old(self).level(), seq![first@]) == Parsed::<(Seq<ColumnDefView>,
                    Seq<TableConstraintView>)>::Ok(((ast::column_defs(x.0@),
                    ast::table_constraints(x.1@)), final(self).at())),
                Err(f) => rules::more_table_items(old(self).toks(), old(self).at(),
                    old(self).level(), seq![first@]) == Parsed::<(Seq<ColumnDefView>,
                    Seq<TableConstraintView>)>::Err(f@),
            },
    {
        let ghost t = self.toks();
        let ghost d = self.level();
        let mut columns: Vec<ColumnDef> = Vec::new();
        columns.push(first);
        assert(ast::column_defs(columns@) =~= seq![first@]);
        while self.at_punct(Punct::Comma)
            invariant
                self.follows(old(self)),
                t == self.toks(),
                d == self.level(),
                t == old(self).toks(),
                d == old(self).level(),
                rules::more_table_items(t, old(self).at(), d, seq![first@])
                    == rules::more_table_items(t, self.at(), d, ast::column_defs(columns@)),
            decreases self.tokens.len() - self.pos,
        {
            let constraint_follows = self.at_kw_ahead(1, Keyword::CONSTRAINT) || self.at_kw_ahead(
                1,
                Keyword::PRIMARY,
            ) || self.at_kw_ahead(1, Keyword::UNIQUE) || self.at_kw_ahead(1, Keyword::CHECK)
                || self.at_kw_ahead(1, Keyword::FOREIGN);
            if constraint_follows {
                let constraints = self.table_constraints()?;
                return Ok((columns, constraints));
            }
            self.advance();
            let item = self.column_def()?;
            proof {
                ast::column_defs_push(columns@, item);
            }
            columns.push(item);
        }
        let none: Vec<TableConstraint> = Vec::new();
        assert(ast::table_constraints(none@) =~= seq![]);
        Ok((columns, none))
    }

    /// `[ "WITHOUT" "ROWID" | "STRICT" ]`: both flags, and the span the table ends with.
    pub(super) fn table_options(&mut self, end: Span) -> (r: PResult<(bool, bool, Span)>)
        requires
            old(self).wf(),
        ensures
            final(self).follows(old(self)),
            match r {
                Ok(x) => rules::table_options(old(self).toks(), old(self).at(), end)
                    == Parsed::<(bool, bool, Span)>::Ok((x, final(self).at())),
                Err(f) => rules::table_options(old(self).toks(), old(self).at(), end)
                    == Parsed::<(bool, bool, Span)>::Err(f@),
            },
    {
        if self.eat_kw(Keyword::WITHOUT) {
            if !self.at_word("ROWID") {
                return Err(self.invalid("expected ROWID after WITHOUT"));
            }
            let last = self.here();
            self.advance();
            return Ok((true, false, last));
        }
        if self.at_word("STRICT") {
            let last = self.here();
            self.advance();
            return Ok((false, true, last));
        }
        Ok((false, false, end))
    }

    pub(crate) fn parse_create_table_stmt(&mut self) -> (r: PResult<CreateTable>)
        requires
            old(self).wf(),
        ensures
            final(self).follows(old(self)),
            match r {
                Ok(x) => rules::create_table(old(self).toks(), old(self).at(), old(self).level())
                    == Parsed::<CreateTableView>::Ok((x@, final(self).at())),
                Err(f) => rules::create_table(old(self).toks(), old(self).at(), old(self).level())
                    == Parsed::<CreateTableView>::Err(f@),
            },
    {
        let start = self.expect_kw(Keyword::CREATE)?;
        if self.at_kw(Keyword::TEMP) || self.at_kw(Keyword::TEMPORARY) {
            return Err(self.unsupported("CREATE TEMP/TEMPORARY TABLE not yet supported"));
        }
        if self.at_kw(Keyword::VIRTUAL) {
            return Err(self.unsupported("CREATE VIRTUAL TABLE not yet supported"));
        }
        self.expect_kw(Keyword::TABLE)?;
        let if_not_exists = self.opt_if_not_exists()?;
        let (name, _) = self.plain_name()?;
        if self.at_kw(Keyword::AS) {
            return Err(self.unsupported("CREATE TABLE ... AS select-stmt not yet supported"));
        }
        self.expect_punct(Punct::LParen, "'(' after table name")?;
        let first = self.column_def()?;
        let (columns, constraints) = self.table_items(first)?;
        let close = self.expect_punct(Punct::RParen, "')' to close column list")?;
        let (without_rowid, strict, end) = self.table_options(close)?;
        Ok(
            CreateTable {
                if_not_exists,
                name,
                columns,
                constraints,
                without_rowid,
                strict,
                span: join_span(start, end),
            },
        )
    }

    pub(crate) fn parse_create_index_stmt(&mut self) -> (r: PResult<CreateIndex>)
        requires
            old(self).wf(),
        ensures
            final(self).follows(old(self)),
            match r {
                Ok(x) => rules::create_index(old(self).toks(), old(self).at(), old(self).level())
                    == Parsed::<CreateIndexView>::Ok((x@, final(self).at())),
                Err(f) => rules::create_index(old(self).toks(), old(self).at(), old(self).level())
                    == Parsed::<CreateIndexView>::Err(f@),
            },
    {
        let start = self.expect_kw(Keyword::CREATE)?;
        let unique = self.eat_kw(Keyword::UNIQUE);
        self.expect_kw(Keyword::INDEX)?;
        let if_not_exists = self.opt_if_not_exists()?;
        let (name, _) = self.plain_name()?;
        self.expect_kw(Keyword::ON)?;
        let (table, _) = self.plain_name()?;
        let columns = self.indexed_column_list()?;
        let close = self.behind();
        let where_clause = self.opt_expr(Keyword::WHERE)?;
        let end = match &where_clause {
            Some(e) => e.span,
            None => close,
        };
        Ok(
            CreateIndex {
                unique,
                if_not_exists,
                name,
                table,
                columns,
                where_clause,
                span: join_span(start, end),
            },
        )
    }

    pub(crate) fn parse_create_view_stmt(&mut self) -> (r: PResult<CreateView>)
        requires
            old(self).wf(),
        ensures
            final(self).follows(old(self)),
            match r {
                Ok(x) => rules::create_view(old(self).toks(), old(self).at(), old(self).level())
                    == Parsed::<CreateViewView>::Ok((x@, final(self).at())),
                Err(f) => rules::create_view(old(self).toks(), old(self).at(), old(self).level())
                    == Parsed::<CreateViewView>::Err(f@),
            },
    {
        let start = self.expect_kw(Keyword::CREATE)?;
        if self.at_kw(Keyword::TEMP) || self.at_kw(Keyword::TEMPORARY) {
            return Err(self.unsupported("CREATE TEMP/TEMPORARY VIEW not yet supported"));
        }
        self.expect_kw(Keyword::VIEW)?;
        let if_not_exists = self.opt_if_not_exists()?;
        let (name, _) = self.plain_name()?;
        let columns = self.opt_names()?;
        self.expect_kw(Keyword::AS)?;
        let query = self.parse_select_stmt()?;
        let span = join_span(start, query.span);
        Ok(CreateView { if_not_exists, name, columns, query: Box::new(query), span })
    }

    pub(super) fn drop_object(&mut self, what: Keyword) -> (r: PResult<(bool, String, Span)>)
        requires
            old(self).wf(),
        ensures
            final(self).follows(old(self)),
            match r {
                Ok(x) => rules::drop_object(old(self).toks(), old(self).at(), what)
                    == Parsed::<(bool, Seq<char>, Span)>::Ok(((x.0, x.1@, x.2), final(self).at())),
                Err(f) => rules::drop_object(old(self).toks(), old(self).at(), what)
                    == Parsed::<(bool, Seq<char>, Span)>::Err(f@),
            },
    {
        let start = self.expect_kw(Keyword::DROP)?;
        self.expect_kw(what)?;
        let if_exists = self.opt_if_exists()?;
        let (name, end) = self.plain_name()?;
        Ok((if_exists, name, join_span(start, end)))
    }

    pub(crate) fn parse_drop_table_stmt(&mut self) -> (r: PResult<DropTable>)
        requires
            old(self).wf(),
        ensures
            final(self).follows(old(self)),
            match r {
                Ok(x) => rules::drop_table(old(self).toks(), old(self).at())
                    == Parsed::<DropTableView>::Ok((x@, final(self).at())),
                Err(f) => rules::drop_table(old(self).toks(), old(self).at())
                    == Parsed::<DropTableView>::Err(f@),
            },
    {
        let (if_exists, name, span) = self.drop_object(Keyword::TABLE)?;
        Ok(DropTable { if_exists, name, span })
    }

    pub(crate) fn parse_drop_index_stmt(&mut self) -> (r: PResult<DropIndex>)
        requires
            old(self).wf(),
        ensures
            final(self).follows(old(self)),
            match r {
                Ok(x) => rules::drop_index(old(self).toks(), old(self).at())
                    == Parsed::<DropIndexView>::Ok((x@, final(self).at())),
                Err(f) => rules::drop_index(old(self).toks(), old(self).at())
                    == Parsed::<DropIndexView>::Err(f@),
            },
    {
        let (if_exists, name, span) = self.drop_object(Keyword::INDEX)?;
        Ok(DropIndex { if_exists, name, span })
    }

    pub(crate) fn parse_drop_view_stmt(&mut self) -> (r: PResult<DropView>)
        requires
            old(self).wf(),
        ensures
            final(self).follows(old(self)),
            match r {
                Ok(x) => rules::drop_view(old(self).toks(), old(self).at())
                    == Parsed::<DropViewView>::Ok((x@, final(self).at())),
                Err(f) => rules::drop_view(old(self).toks(), old(self).at())
                    == Parsed::<DropViewView>::Err(f@),
            },
    {
        let (if_exists, name, span) = self.drop_object(Keyword::VIEW)?;
        Ok(DropView { if_exists, name, span })
    }

    // ---- transactions ---------------------------------------------------------

    pub(crate) fn parse_begin_stmt(&mut self) -> (r: PResult<Begin>)
        requires
            old(self).wf(),
        ensures
            final(self).follows(old(self)),
            match r {
                Ok(x) => rules::begin(old(self).toks(), old(self).at()) == Parsed::<Begin>::Ok((x,
                    final(self).at())),
                Err(f) => rules::begin(old(self).toks(), old(self).at())
                    == Parsed::<Begin>::Err(f@),
            },
    {
        let start = self.expect_kw(Keyword::BEGIN)?;
        let mode = if self.eat_kw(Keyword::DEFERRED) {
            Some(TransactionMode::Deferred)
        } else if self.eat_kw(Keyword::IMMEDIATE) {
            Some(TransactionMode::Immediate)
        } else if self.eat_kw(Keyword::EXCLUSIVE) {
            Some(TransactionMode::Exclusive)
        } else {
            None
        };
        self.eat_kw(Keyword::TRANSACTION);
        let span = join_span(start, self.behind());
        Ok(Begin { mode, span })
    }

    pub(crate) fn parse_commit_stmt(&mut self) -> (r: PResult<Commit>)
        requires
            old(self).wf(),
        ensures
            final(self).follows(old(self)),
            match r {
                Ok(x) => rules::commit(old(self).toks(), old(self).at())
                    == Parsed::<Commit>::Ok((x, final(self).at())),
                Err(f) => rules::commit(old(self).toks(), old(self).at())
                    == Parsed::<Commit>::Err(f@),
            },
    {
        let word = if self.at_kw(Keyword::END) {
            Keyword::END
        } else {
            Keyword::COMMIT
        };
        let start = self.expect_kw(word)?;
        self.eat_kw(Keyword::TRANSACTION);
        let span = join_span(start, self.behind());
        Ok(Commit { span })
    }

    pub(crate) fn parse_rollback_stmt(&mut self) -> (r: PResult<Rollback>)
        requires
            old(self).wf(),
        ensures
            final(self).follows(old(self)),
            match r {
                Ok(x) => rules::rollback(old(self).toks(), old(self).at())
                    == Parsed::<Rollback>::Ok((x, final(self).at())),
                Err(f) => rules::rollback(old(self).toks(), old(self).at())
                    == Parsed::<Rollback>::Err(f@),
            },
    {
        let start = self.expect_kw(Keyword::ROLLBACK)?;
        self.eat_kw(Keyword::TRANSACTION);
        if self.at_kw(Keyword::TO) {
            return Err(self.unsupported("ROLLBACK TO savepoint not yet supported"));
        }
        let span = join_span(start, self.behind());
        Ok(Rollback { span })
    }
}

} // verus!
