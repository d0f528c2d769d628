//! The three-way parse outcome: accepted, recognized but not implemented, or malformed —
//! so that a not-yet-built feature never reads like a typo.
use crate::parser::ast::{
    Begin, Commit, CreateIndex, CreateIndexView, CreateTable, CreateTableView, CreateView,
    CreateViewView, Delete, DeleteView, DropIndex, DropIndexView, DropTable, DropTableView,
    DropView, DropViewView, Explain, ExplainView, Insert, InsertView, Rollback, Select, SelectView,
    Update, UpdateView,
};
use crate::parser::grammar::Parser;
use crate::parser::rules;
use crate::parser::rules::FailView;
use crate::parser::tokenizer;
use crate::parser::tokenizer::{Span, Tokenizer};
use vstd::prelude::*;

verus! {

#[derive(Debug, PartialEq)]
pub enum ParseOutcome<T> {
    /// Parsed successfully into a `T` (e.g. [`Select`], [`Update`]).
    Accepted(Box<T>),
    /// Syntactically-recognized SQL this parser doesn't implement yet. `span` points at the
    /// token that triggered the unsupported construct.
    Unsupported { message: String, span: Span },
    /// Malformed SQL: a genuine syntax error. `span` points at the offending token.
    Invalid { message: String, span: Span },
}

impl<T> ParseOutcome<T> {
    /// The failure that a refusal reports.
    pub open spec fn failure(&self) -> FailView {
        match self {
            ParseOutcome::Accepted(_) => arbitrary(),
            ParseOutcome::Unsupported { message, span } => FailView {
                unsupported: true,
                message: message@,
                span: *span,
            },
            ParseOutcome::Invalid { message, span } => FailView {
                unsupported: false,
                message: message@,
                span: *span,
            },
        }
    }
}

/// Failure carried internally by the recursive-descent parser; folded into
/// [`ParseOutcome::Unsupported`]/[`ParseOutcome::Invalid`] at the end.
#[derive(Debug, Clone, PartialEq)]
pub(crate) enum ParseFail {
    Unsupported { message: String, span: Span },
    Invalid { message: String, span: Span },
}

impl ParseFail {
    pub(crate) open spec fn view(&self) -> FailView {
        match self {
            ParseFail::Unsupported { message, span } => FailView {
                unsupported: true,
                message: message@,
                span: *span,
            },
            ParseFail::Invalid { message, span } => FailView {
                unsupported: false,
                message: message@,
                span: *span,
            },
        }
    }
}

pub(crate) type PResult<T> = Result<T, ParseFail>;

fn refused<T>(f: ParseFail) -> (r: ParseOutcome<T>)
    ensures
        !(r is Accepted),
        r.failure() == f@,
{
    match f {
        ParseFail::Unsupported { message, span } => ParseOutcome::Unsupported { message, span },
        ParseFail::Invalid { message, span } => ParseOutcome::Invalid { message, span },
    }
}

/// A parser in front of the tokens of `src`.
fn parser_for(src: &str) -> (parser: Parser)
    ensures
        parser.wf(),
        parser.toks() == tokenizer::tokens_of(src@),
        parser.at() == 0,
        parser.level() == 0,
{
    let tokens = Tokenizer::tokenize(src);
    proof {
        tokenizer::law_tokens_end(src@, 0);
        assert(tokenizer::token_views(tokens@).last() == tokens@.last()@);
    }
    Parser::new(tokens)
}

/// Parses a single SELECT statement. Any input produces one of the three
/// [`ParseOutcome`] variants.
pub fn parse_select(src: &str) -> (r: ParseOutcome<Select>)
    ensures
        ({
            let t = tokenizer::tokens_of(src@);
            let want = rules::whole(t, rules::select(t, 0, 0));
            match r {
                ParseOutcome::Accepted(x) => want == Result::<SelectView, FailView>::Ok(x@),
                _ => want == Result::<SelectView, FailView>::Err(r.failure()),
            }
        }),
{
    let mut parser = parser_for(src);
    let stmt = match parser.parse_select_stmt() {
        Ok(stmt) => stmt,
        Err(f) => {
            return refused(f);
        },
    };
    match parser.expect_end() {
        Ok(_) => ParseOutcome::Accepted(Box::new(stmt)),
        Err(f) => refused(f),
    }
}

/// Parses `EXPLAIN QUERY PLAN select-stmt`. Bare `EXPLAIN` (no `QUERY PLAN`) is `Unsupported`, not `Invalid`. Any input produces one of the three
/// [`ParseOutcome`] variants.
pub fn parse_explain(src: &str) -> (r: ParseOutcome<Explain>)
    ensures
        ({
            let t = tokenizer::tokens_of(src@);
            let want = rules::whole(t, rules::explain(t, 0, 0));
            match r {
                ParseOutcome::Accepted(x) => want == Result::<ExplainView, FailView>::Ok(x@),
                _ => want == Result::<ExplainView, FailView>::Err(r.failure()),
            }
        }),
{
    let mut parser = parser_for(src);
    let stmt = match parser.parse_explain_stmt() {
        Ok(stmt) => stmt,
        Err(f) => {
            return refused(f);
        },
    };
    match parser.expect_end() {
        Ok(_) => ParseOutcome::Accepted(Box::new(stmt)),
        Err(f) => refused(f),
    }
}

/// Parses a single INSERT statement. Any input produces one of the three
/// [`ParseOutcome`] variants.
pub fn parse_insert(src: &str) -> (r: ParseOutcome<Insert>)
    ensures
        ({
            let t = tokenizer::tokens_of(src@);
            let want = rules::whole(t, rules::insert(t, 0, 0));
            match r {
                ParseOutcome::Accepted(x) => want == Result::<InsertView, FailView>::Ok(x@),
                _ => want == Result::<InsertView, FailView>::Err(r.failure()),
            }
        }),
{
    let mut parser = parser_for(src);
    let stmt = match parser.parse_insert_stmt() {
        Ok(stmt) => stmt,
        Err(f) => {
            return refused(f);
        },
    };
    match parser.expect_end() {
        Ok(_) => ParseOutcome::Accepted(Box::new(stmt)),
        Err(f) => refused(f),
    }
}

/// Parses a single DELETE statement. Any input produces one of the three
/// [`ParseOutcome`] variants.
pub fn parse_delete(src: &str) -> (r: ParseOutcome<Delete>)
    ensures
        ({
            let t = tokenizer::tokens_of(src@);
            let want = rules::whole(t, rules::delete(t, 0, 0));
            match r {
                ParseOutcome::Accepted(x) => want == Result::<DeleteView, FailView>::Ok(x@),
                _ => want == Result::<DeleteView, FailView>::Err(r.failure()),
            }
        }),
{
    let mut parser = parser_for(src);
    let stmt = match parser.parse_delete_stmt() {
        Ok(stmt) => stmt,
        Err(f) => {
            return refused(f);
        },
    };
    match parser.expect_end() {
        Ok(_) => ParseOutcome::Accepted(Box::new(stmt)),
        Err(f) => refused(f),
    }
}

/// Parses a single UPDATE statement. Any input produces one of the three
/// [`ParseOutcome`] variants.
pub fn parse_update(src: &str) -> (r: ParseOutcome<Update>)
    ensures
        ({
            let t = tokenizer::tokens_of(src@);
            let want = rules::whole(t, rules::update(t, 0, 0));
            match r {
                ParseOutcome::Accepted(x) => want == Result::<UpdateView, FailView>::Ok(x@),
                _ => want == Result::<UpdateView, FailView>::Err(r.failure()),
            }
        }),
{
    let mut parser = parser_for(src);
    let stmt = match parser.parse_update_stmt() {
        Ok(stmt) => stmt,
        Err(f) => {
            return refused(f);
        },
    };
    match parser.expect_end() {
        Ok(_) => ParseOutcome::Accepted(Box::new(stmt)),
        Err(f) => refused(f),
    }
}

/// Parses a single CREATE TABLE statement. Any input produces one of the three
/// [`ParseOutcome`] variants.
pub fn parse_create_table(src: &str) -> (r: ParseOutcome<CreateTable>)
    ensures
        ({
            let t = tokenizer::tokens_of(src@);
            let want = rules::whole(t, rules::create_table(t, 0, 0));
            match r {
                ParseOutcome::Accepted(x) => want == Result::<CreateTableView, FailView>::Ok(x@),
                _ => want == Result::<CreateTableView, FailView>::Err(r.failure()),
            }
        }),
{
    let mut parser = parser_for(src);
    let stmt = match parser.parse_create_table_stmt() {
        Ok(stmt) => stmt,
        Err(f) => {
            return refused(f);
        },
    };
    match parser.expect_end() {
        Ok(_) => ParseOutcome::Accepted(Box::new(stmt)),
        Err(f) => refused(f),
    }
}

/// Parses a single CREATE INDEX statement. Any input produces one of the three
/// [`ParseOutcome`] variants.
pub fn parse_create_index(src: &str) -> (r: ParseOutcome<CreateIndex>)
    ensures
        ({
            let t = tokenizer::tokens_of(src@);
            let want = rules::whole(t, rules::create_index(t, 0, 0));
            match r {
                ParseOutcome::Accepted(x) => want == Result::<CreateIndexView, FailView>::Ok(x@),
                _ => want == Result::<CreateIndexView, FailView>::Err(r.failure()),
            }
        }),
{
    let mut parser = parser_for(src);
    let stmt = match parser.parse_create_index_stmt() {
        Ok(stmt) => stmt,
        Err(f) => {
            return refused(f);
        },
    };
    match parser.expect_end() {
        Ok(_) => ParseOutcome::Accepted(Box::new(stmt)),
        Err(f) => refused(f),
    }
}

/// Parses a single CREATE VIEW statement. Any input produces one of the three
/// [`ParseOutcome`] variants.
pub fn parse_create_view(src: &str) -> (r: ParseOutcome<CreateView>)
    ensures
        ({
            let t = tokenizer::tokens_of(src@);
            let want = rules::whole(t, rules::create_view(t, 0, 0));
            match r {
                ParseOutcome::Accepted(x) => want == Result::<CreateViewView, FailView>::Ok(x@),
                _ => want == Result::<CreateViewView, FailView>::Err(r.failure()),
            }
        }),
{
    let mut parser = parser_for(src);
    let stmt = match parser.parse_create_view_stmt() {
        Ok(stmt) => stmt,
        Err(f) => {
            return refused(f);
        },
    };
    match parser.expect_end() {
        Ok(_) => ParseOutcome::Accepted(Box::new(stmt)),
        Err(f) => refused(f),
    }
}

/// Parses a single DROP VIEW statement. Any input produces one of the three
/// [`ParseOutcome`] variants.
pub fn parse_drop_view(src: &str) -> (r: ParseOutcome<DropView>)
    ensures
        ({
            let t = tokenizer::tokens_of(src@);
            let want = rules::whole(t, rules::drop_view(t, 0));
            match r {
                ParseOutcome::Accepted(x) => want == Result::<DropViewView, FailView>::Ok(x@),
                _ => want == Result::<DropViewView, FailView>::Err(r.failure()),
            }
        }),
{
    let mut parser = parser_for(src);
    let stmt = match parser.parse_drop_view_stmt() {
        Ok(stmt) => stmt,
        Err(f) => {
            return refused(f);
        },
    };
    match parser.expect_end() {
        Ok(_) => ParseOutcome::Accepted(Box::new(stmt)),
        Err(f) => refused(f),
    }
}

/// Parses a single DROP TABLE statement. Any input produces one of the three
/// [`ParseOutcome`] variants.
pub fn parse_drop_table(src: &str) -> (r: ParseOutcome<DropTable>)
    ensures
        ({
            let t = tokenizer::tokens_of(src@);
            let want = rules::whole(t, rules::drop_table(t, 0));
            match r {
                ParseOutcome::Accepted(x) => want == Result::<DropTableView, FailView>::Ok(x@),
                _ => want == Result::<DropTableView, FailView>::Err(r.failure()),
            }
        }),
{
    let mut parser = parser_for(src);
    let stmt = match parser.parse_drop_table_stmt() {
        Ok(stmt) => stmt,
        Err(f) => {
            return refused(f);
        },
    };
    match parser.expect_end() {
        Ok(_) => ParseOutcome::Accepted(Box::new(stmt)),
        Err(f) => refused(f),
    }
}

/// Parses a single DROP INDEX statement. Any input produces one of the three
/// [`ParseOutcome`] variants.
pub fn parse_drop_index(src: &str) -> (r: ParseOutcome<DropIndex>)
    ensures
        ({
            let t = tokenizer::tokens_of(src@);
            let want = rules::whole(t, rules::drop_index(t, 0));
            match r {
                ParseOutcome::Accepted(x) => want == Result::<DropIndexView, FailView>::Ok(x@),
                _ => want == Result::<DropIndexView, FailView>::Err(r.failure()),
            }
        }),
{
    let mut parser = parser_for(src);
    let stmt = match parser.parse_drop_index_stmt() {
        Ok(stmt) => stmt,
        Err(f) => {
            return refused(f);
        },
    };
    match parser.expect_end() {
        Ok(_) => ParseOutcome::Accepted(Box::new(stmt)),
        Err(f) => refused(f),
    }
}

/// Parses a single BEGIN statement. Any input produces one of the three
/// [`ParseOutcome`] variants.
pub fn parse_begin(src: &str) -> (r: ParseOutcome<Begin>)
    ensures
        ({
            let t = tokenizer::tokens_of(src@);
            let want = rules::whole(t, rules::begin(t, 0));
            match r {
                ParseOutcome::Accepted(x) => want == Result::<Begin, FailView>::Ok(*x),
                _ => want == Result::<Begin, FailView>::Err(r.failure()),
            }
        }),
{
    let mut parser = parser_for(src);
    let stmt = match parser.parse_begin_stmt() {
        Ok(stmt) => stmt,
        Err(f) => {
            return refused(f);
        },
    };
    match parser.expect_end() {
        Ok(_) => ParseOutcome::Accepted(Box::new(stmt)),
        Err(f) => refused(f),
    }
}

/// Parses a single COMMIT/END statement. Any input produces one of the three
/// [`ParseOutcome`] variants.
pub fn parse_commit(src: &str) -> (r: ParseOutcome<Commit>)
    ensures
        ({
            let t = tokenizer::tokens_of(src@);
            let want = rules::whole(t, rules::commit(t, 0));
            match r {
                ParseOutcome::Accepted(x) => want == Result::<Commit, FailView>::Ok(*x),
                _ => want == Result::<Commit, FailView>::Err(r.failure()),
            }
        }),
{
    let mut parser = parser_for(src);
    let stmt = match parser.parse_commit_stmt() {
        Ok(stmt) => stmt,
        Err(f) => {
            return refused(f);
        },
    };
    match parser.expect_end() {
        Ok(_) => ParseOutcome::Accepted(Box::new(stmt)),
        Err(f) => refused(f),
    }
}

/// Parses a single ROLLBACK statement. Any input produces one of the three
/// [`ParseOutcome`] variants.
pub fn parse_rollback(src: &str) -> (r: ParseOutcome<Rollback>)
    ensures
        ({
            let t = tokenizer::tokens_of(src@);
            let want = rules::whole(t, rules::rollback(t, 0));
            match r {
                ParseOutcome::Accepted(x) => want == Result::<Rollback, FailView>::Ok(*x),
                _ => want == Result::<Rollback, FailView>::Err(r.failure()),
            }
        }),
{
    let mut parser = parser_for(src);
    let stmt = match parser.parse_rollback_stmt() {
        Ok(stmt) => stmt,
        Err(f) => {
            return refused(f);
        },
    };
    match parser.expect_end() {
        Ok(_) => ParseOutcome::Accepted(Box::new(stmt)),
        Err(f) => refused(f),
    }
}

} // verus!
