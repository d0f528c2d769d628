//! What is printed of the statements other than `SELECT` is read as the tokens they stand
//! for.
use crate::parser::ast::{
    ColumnConstraintView, ColumnDefView, ConflictAction, CreateIndexView, CreateTableView,
    DefaultValueView, DeleteView, DropIndexView, DropTableView, ExprKindView, ExprView,
    IndexedColumnView,
    InsertSourceView, InsertView, TableConstraintView,
};
use crate::parser::keyword;
use crate::parser::printer;
use crate::parser::round_trip::leaves;
use crate::parser::round_trip::lexing;
use crate::parser::round_trip::literals;
use crate::parser::round_trip::phrases;
use crate::parser::round_trip::print_expr;
use crate::parser::round_trip::print_query;
use crate::parser::round_trip::shape;
use crate::parser::round_trip::spelling;
use crate::parser::tokenizer;
use crate::parser::tokenizer::{Keyword, KindView};
use crate::text;
use vstd::prelude::*;

verus! {

// ---- INSERT and DELETE ------------------------------------------------------------------------

/// The word that stands for an action behind `OR`.
pub open spec fn action_word(action: ConflictAction) -> Keyword {
    match action {
        ConflictAction::Replace => Keyword::REPLACE,
        ConflictAction::Ignore => Keyword::IGNORE,
        ConflictAction::Abort => Keyword::ABORT,
        ConflictAction::Rollback => Keyword::ROLLBACK,
        ConflictAction::Fail => Keyword::FAIL,
    }
}

proof fn lemma_conflict_text(action: ConflictAction)
    ensures
        printer::conflict_text(Some(action)) == " "@ + Keyword::OR.name() + (" "@ + action_word(
            action,
        ).name()),
{
    reveal(Keyword::name);
    reveal_strlit(" OR REPLACE");
    reveal_strlit("REPLACE");
    reveal_strlit(" OR IGNORE");
    reveal_strlit("IGNORE");
    reveal_strlit(" OR ABORT");
    reveal_strlit("ABORT");
    reveal_strlit(" OR ROLLBACK");
    reveal_strlit("ROLLBACK");
    reveal_strlit(" OR FAIL");
    reveal_strlit("FAIL");
    reveal_strlit("OR");
    reveal_strlit(" ");
    assert(printer::conflict_text(Some(action)) =~= " "@ + "OR"@ + (" "@ + action_word(
        action,
    ).name()));
}

proof fn reads_conflict(x: Seq<char>, k: Seq<KindView>, action: Option<ConflictAction>)
    requires
        lexing::reads(x, k),
    ensures
        lexing::reads(x + printer::conflict_text(action), k + shape::conflict_kinds(action)),
{
    reveal_strlit("");
    match action {
        Some(c) => {
            lemma_conflict_text(c);
            let word = action_word(c);
            phrases::reads_trail(x, k, Keyword::OR, " "@ + Keyword::OR.name());
            let y = x + (" "@ + Keyword::OR.name());
            let or = shape::kw(Keyword::OR);
            phrases::reads_trail(y, k + or, word, " "@ + word.name());
            assert(y + (" "@ + word.name()) =~= x + printer::conflict_text(action));
            leaves::lemma_regroup3(k, or, shape::kw(word));
        },
        None => {
            assert(x + ""@ =~= x);
            leaves::lemma_nothing_more(k);
        },
    }
}

proof fn print_rows(rows: Seq<Seq<ExprView>>)
    requires
        shape::rows_hold(rows),
    ensures
        phrases::all_read(printer::row_texts(rows), shape::rows_kinds(rows)),
{
    let texts = printer::row_texts(rows);
    let kinds = shape::rows_kinds(rows);
    shape::lemma_rows_len(rows);
    assert forall|i: int| 0 <= i < texts.len() implies lexing::reads(#[trigger] texts[i], kinds[i])
        && kinds[i].len() > 0 by {
        shape::lemma_rows_at(rows, i);
        print_query::print_list(rows[i]);
        phrases::reads_parens(
            text::join(printer::expr_texts(rows[i]), ", "@),
            shape::commas(shape::exprs_kinds(rows[i])),
        );
    }
}

proof fn print_source(x: InsertSourceView)
    requires
        x.holds(),
    ensures
        lexing::reads(x.text(), x.kinds()),
        x.text().len() > 0,
        x.text()[0] == ' ',
{
    reveal(Keyword::name);
    reveal_strlit(" DEFAULT VALUES");
    reveal_strlit("DEFAULT");
    reveal_strlit(" VALUES ");
    reveal_strlit("VALUES");
    reveal_strlit(" ");
    shape::shape_of_insert_source(x);
    match x {
        InsertSourceView::DefaultValues => {
            let values = shape::kw(Keyword::VALUES);
            spelling::reads_keyword(Keyword::VALUES);
            phrases::reads_clause(Keyword::DEFAULT, " "@ + "DEFAULT"@ + " "@, "VALUES"@, values);
            assert(" "@ + "DEFAULT"@ + " "@ + "VALUES"@ =~= x.text());
        },
        InsertSourceView::Values(rows) => {
            print_rows(rows);
            let texts = printer::row_texts(rows);
            let kinds = shape::rows_kinds(rows);
            phrases::reads_join(texts, kinds);
            shape::lemma_rows_len(rows);
            assert(" VALUES "@ =~= " "@ + "VALUES"@ + " "@);
            phrases::reads_clause(
                Keyword::VALUES,
                " VALUES "@,
                text::join(texts, ", "@),
                shape::commas(kinds),
            );
        },
        InsertSourceView::Select(select) => {
            print_query::print_select(*select);
            shape::shape_of_select(*select);
            lexing::reads_space(select.text(), select.kinds());
        },
    }
}

/// Names in parentheses behind a text.
proof fn reads_names(x: Seq<char>, k: Seq<KindView>, names: Option<Seq<Seq<char>>>)
    requires
        lexing::reads(x, k),
    ensures
        lexing::reads(x + printer::names_text(names), k + shape::optional_names_kinds(names)),
{
    reveal_strlit(" (");
    reveal_strlit("(");
    reveal_strlit(" ");
    reveal_strlit("");
    match names {
        Some(n) => {
            print_query::print_names(n);
            let inner = text::join(printer::name_texts(n), ", "@);
            let kinds = shape::commas(shape::names_list(n));
            phrases::reads_parens(inner, kinds);
            lexing::reads_gap(x, k, "("@ + inner + ")"@, shape::in_parens(kinds));
            assert(x + " "@ + ("("@ + inner + ")"@) =~= x + printer::names_text(names));
        },
        None => {
            assert(x + ""@ =~= x);
            leaves::lemma_nothing_more(k);
        },
    }
}

pub proof fn print_insert(a: InsertView)
    requires
        a.holds(),
    ensures
        lexing::reads(a.text(), a.kinds()),
{
    reveal(Keyword::name);
    reveal_strlit("INSERT");
    reveal_strlit(" INTO ");
    reveal_strlit("INTO");
    reveal_strlit(" ");
    shape::shape_of_insert(a);
    spelling::reads_keyword(Keyword::INSERT);
    let k0 = shape::kw(Keyword::INSERT);
    reads_conflict("INSERT"@, k0, a.or_action);
    let x1 = "INSERT"@ + printer::conflict_text(a.or_action);
    let k1 = k0 + shape::conflict_kinds(a.or_action);
    phrases::reads_name(a.table);
    assert(" INTO "@ =~= " "@ + "INTO"@ + " "@);
    let table = printer::name_text(a.table);
    phrases::reads_infix(x1, k1, Keyword::INTO, " INTO "@, table, shape::name_kinds(a.table));
    let x2 = x1 + " INTO "@ + table;
    let k2 = k1 + shape::kw(Keyword::INTO) + shape::name_kinds(a.table);
    reads_names(x2, k2, a.columns);
    print_source(a.source);
    lexing::reads_tight(
        x2 + printer::names_text(a.columns),
        k2 + shape::optional_names_kinds(a.columns),
        a.source.text(),
        a.source.kinds(),
    );
}

pub proof fn print_delete(a: DeleteView)
    requires
        a.holds(),
    ensures
        lexing::reads(a.text(), a.kinds()),
{
    reveal(Keyword::name);
    reveal_strlit("DELETE FROM ");
    reveal_strlit("DELETE");
    reveal_strlit("FROM");
    reveal_strlit(" WHERE ");
    reveal_strlit("WHERE");
    reveal_strlit(" ");
    shape::shape_of_delete(a);
    phrases::reads_name(a.table);
    let n = shape::name_kinds(a.table);
    let table = printer::name_text(a.table);
    phrases::reads_lead(Keyword::FROM, "FROM"@ + " "@, table, n);
    let y = "FROM"@ + " "@ + table;
    let from = shape::kw(Keyword::FROM);
    phrases::reads_lead(Keyword::DELETE, "DELETE"@ + " "@, y, from + n);
    assert("DELETE"@ + " "@ + y =~= "DELETE FROM "@ + table);
    leaves::lemma_regroup3(shape::kw(Keyword::DELETE), from, n);
    assert(" WHERE "@ =~= " "@ + "WHERE"@ + " "@);
    print_query::print_optional(Keyword::WHERE, " WHERE "@, a.where_clause);
    lexing::reads_tight(
        "DELETE FROM "@ + table,
        shape::kw(Keyword::DELETE) + from + n,
        printer::expr_clause(" WHERE "@, a.where_clause),
        shape::optional_kinds(Keyword::WHERE, a.where_clause),
    );
}

// ---- columns and their constraints -----------------------------------------------------------------

proof fn print_key(x: IndexedColumnView)
    requires
        x.holds(),
    ensures
        lexing::reads(x.text(), x.kinds()),
        x.kinds().len() > 0,
{
    shape::shape_of_indexed_column(x);
    print_query::print(x.expr);
    print_query::reads_direction(x.expr.text(), x.expr.kinds(), x.desc);
}

proof fn print_keys(v: Seq<IndexedColumnView>)
    requires
        shape::keys_hold(v),
    ensures
        lexing::reads(
            text::join(printer::indexed_column_texts(v), ", "@),
            shape::commas(shape::keys_kinds(v)),
        ),
{
    let texts = printer::indexed_column_texts(v);
    let kinds = shape::keys_kinds(v);
    shape::lemma_keys_len(v);
    assert forall|i: int| 0 <= i < texts.len() implies lexing::reads(#[trigger] texts[i], kinds[i])
        && kinds[i].len() > 0 by {
        shape::lemma_keys_at(v, i);
        print_key(v[i]);
    }
    phrases::reads_join(texts, kinds);
}

/// `PRIMARY KEY` and a word behind it.
proof fn reads_primary_key()
    ensures
        lexing::reads("PRIMARY KEY"@, shape::kw(Keyword::PRIMARY) + shape::kw(Keyword::KEY)),
        "PRIMARY KEY"@[0] == 'P',
{
    reveal(Keyword::name);
    reveal_strlit("PRIMARY KEY");
    reveal_strlit("PRIMARY");
    reveal_strlit("KEY");
    reveal_strlit(" ");
    spelling::reads_keyword(Keyword::KEY);
    phrases::reads_lead(Keyword::PRIMARY, "PRIMARY"@ + " "@, "KEY"@, shape::kw(Keyword::KEY));
    assert("PRIMARY"@ + " "@ + "KEY"@ =~= "PRIMARY KEY"@);
}

proof fn print_default(x: DefaultValueView)
    requires
        x.holds(),
    ensures
        lexing::reads(x.text(), x.kinds()),
        x.kinds().len() > 0,
{
    shape::shape_of_default_value(x);
    match x {
        DefaultValueView::Literal(e) => match e.kind {
            ExprKindView::Literal(l) => {
                shape::shape_literal(e, l);
                literals::reads_token_literal(l);
            },
            ExprKindView::Unary { op, expr } => match expr.kind {
                ExprKindView::Literal(l) => {
                    shape::shape_unary(e, op, *expr);
                    shape::shape_literal(*expr, l);
                    literals::reads_token_literal(l);
                    print_expr::print_signed(op, l);
                },
                _ => {
                    print_query::print(e);
                },
            },
            _ => {
                print_query::print(e);
            },
        },
        DefaultValueView::Paren(e) => {
            print_query::print(e);
            phrases::reads_parens(e.text(), e.kinds());
        },
    }
}

proof fn print_constraint(x: ColumnConstraintView)
    requires
        x.holds(),
    ensures
        lexing::reads(x.text(), x.kinds()),
        x.kinds().len() > 0,
{
    reveal(Keyword::name);
    reveal_strlit(" ");
    shape::shape_of_column_constraint(x);
    match x {
        ColumnConstraintView::NotNull => {
            reveal_strlit("NOT NULL");
            reveal_strlit("NOT");
            reveal_strlit("NULL");
            spelling::reads_constants();
            phrases::reads_lead(Keyword::NOT, "NOT"@ + " "@, "NULL"@, seq![KindView::Null]);
            assert("NOT"@ + " "@ + "NULL"@ =~= "NOT NULL"@);
        },
        ColumnConstraintView::PrimaryKey { desc, autoincrement } => {
            reveal_strlit(" AUTOINCREMENT");
            reveal_strlit("AUTOINCREMENT");
            reveal_strlit("");
            reads_primary_key();
            let k = shape::kw(Keyword::PRIMARY) + shape::kw(Keyword::KEY);
            print_query::reads_direction("PRIMARY KEY"@, k, desc);
            let y = "PRIMARY KEY"@ + printer::direction_text(desc);
            let k1 = k + shape::direction_kinds(desc);
            if autoincrement {
                assert(" AUTOINCREMENT"@ =~= " "@ + "AUTOINCREMENT"@);
                phrases::reads_trail(y, k1, Keyword::AUTOINCREMENT, " AUTOINCREMENT"@);
            } else {
                assert(y + ""@ =~= y);
                leaves::lemma_nothing_more(k1);
            }
        },
        ColumnConstraintView::Unique => {
            spelling::reads_keyword(Keyword::UNIQUE);
        },
        ColumnConstraintView::Default(value) => {
            reveal_strlit("DEFAULT ");
            reveal_strlit("DEFAULT");
            print_default(value);
            assert("DEFAULT "@ =~= "DEFAULT"@ + " "@);
            phrases::reads_lead(Keyword::DEFAULT, "DEFAULT "@, value.text(), value.kinds());
        },
        ColumnConstraintView::Check(e) => {
            reveal_strlit("CHECK (");
            reveal_strlit("CHECK");
            reveal_strlit(" (");
            print_query::print(e);
            assert("CHECK ("@ =~= "CHECK"@ + " ("@);
            phrases::reads_word_parens(Keyword::CHECK, "CHECK ("@, e.text(), e.kinds());
        },
        ColumnConstraintView::Collate(name) => {
            reveal_strlit("COLLATE ");
            reveal_strlit("COLLATE");
            phrases::reads_name(name);
            assert("COLLATE "@ =~= "COLLATE"@ + " "@);
            phrases::reads_lead(
                Keyword::COLLATE,
                "COLLATE "@,
                printer::name_text(name),
                shape::name_kinds(name),
            );
        },
    }
}

proof fn print_constraints(v: Seq<ColumnConstraintView>)
    requires
        shape::constraints_hold(v),
    ensures
        ({
            let x = text::each_behind(" "@, printer::column_constraint_texts(v));
            &&& lexing::reads(x, shape::each_after(seq![], shape::constraints_kinds(v)))
            &&& x.len() > 0 ==> x[0] == ' '
        }),
{
    reveal_strlit(" ");
    let texts = printer::column_constraint_texts(v);
    let kinds = shape::constraints_kinds(v);
    let nothing = Seq::<KindView>::empty();
    shape::lemma_constraints_len(v);
    assert forall|i: int| 0 <= i < texts.len() implies lexing::reads(
        " "@ + #[trigger] texts[i],
        nothing + kinds[i],
    ) by {
        shape::lemma_constraints_at(v, i);
        print_constraint(v[i]);
        lexing::reads_space(texts[i], kinds[i]);
        leaves::lemma_nothing_before(kinds[i]);
    }
    phrases::reads_each(" "@, nothing, texts, kinds);
}

proof fn print_def(x: ColumnDefView)
    requires
        x.holds(),
    ensures
        lexing::reads(x.text(), x.kinds()),
        x.kinds().len() > 0,
{
    reveal_strlit(" ");
    reveal_strlit("");
    shape::shape_of_column_def(x);
    phrases::reads_name(x.name);
    let n = shape::name_kinds(x.name);
    let name = printer::name_text(x.name);
    let words = match x.declared_type {
        Some(w) => " "@ + printer::type_text(w),
        None => ""@,
    };
    let k1 = match x.declared_type {
        Some(w) => shape::type_kinds(w),
        None => seq![],
    };
    match x.declared_type {
        Some(w) => {
            phrases::reads_type(w);
            lexing::reads_gap(name, n, printer::type_text(w), shape::type_kinds(w));
            assert(name + " "@ + printer::type_text(w) =~= name + words);
        },
        None => {
            assert(name + words =~= name);
            leaves::lemma_nothing_more(n);
        },
    }
    print_constraints(x.constraints);
    lexing::reads_tight(
        name + words,
        n + k1,
        text::each_behind(" "@, printer::column_constraint_texts(x.constraints)),
        shape::each_after(seq![], shape::constraints_kinds(x.constraints)),
    );
}

proof fn print_defs(v: Seq<ColumnDefView>)
    requires
        shape::defs_hold(v),
    ensures
        lexing::reads(
            text::join(printer::column_def_texts(v), ", "@),
            shape::commas(shape::defs_kinds(v)),
        ),
{
    let texts = printer::column_def_texts(v);
    let kinds = shape::defs_kinds(v);
    shape::lemma_defs_len(v);
    assert forall|i: int| 0 <= i < texts.len() implies lexing::reads(#[trigger] texts[i], kinds[i])
        && kinds[i].len() > 0 by {
        shape::lemma_defs_at(v, i);
        print_def(v[i]);
    }
    phrases::reads_join(texts, kinds);
}

proof fn print_rule(x: TableConstraintView)
    requires
        x.holds(),
    ensures
        lexing::reads(x.text(), x.kinds()),
        x.kinds().len() > 0,
{
    reveal(Keyword::name);
    reveal_strlit(" (");
    reveal_strlit(" ");
    shape::shape_of_table_constraint(x);
    match x {
        TableConstraintView::PrimaryKey(keys) => {
            reveal_strlit("PRIMARY KEY (");
            reveal_strlit("PRIMARY KEY");
            reveal_strlit("(");
            print_keys(keys);
            reads_primary_key();
            let inner = text::join(printer::indexed_column_texts(keys), ", "@);
            let kinds = shape::commas(shape::keys_kinds(keys));
            phrases::reads_parens(inner, kinds);
            let y = "("@ + inner + ")"@;
            let k = shape::kw(Keyword::PRIMARY) + shape::kw(Keyword::KEY);
            lexing::reads_gap("PRIMARY KEY"@, k, y, shape::in_parens(kinds));
            assert("PRIMARY KEY"@ + " "@ + y =~= x.text());
        },
        TableConstraintView::Unique(keys) => {
            reveal_strlit("UNIQUE (");
            reveal_strlit("UNIQUE");
            print_keys(keys);
            let inner = text::join(printer::indexed_column_texts(keys), ", "@);
            let kinds = shape::commas(shape::keys_kinds(keys));
            assert("UNIQUE ("@ =~= "UNIQUE"@ + " ("@);
            phrases::reads_word_parens(Keyword::UNIQUE, "UNIQUE ("@, inner, kinds);
        },
        TableConstraintView::Check(e) => {
            reveal_strlit("CHECK (");
            reveal_strlit("CHECK");
            print_query::print(e);
            assert("CHECK ("@ =~= "CHECK"@ + " ("@);
            phrases::reads_word_parens(Keyword::CHECK, "CHECK ("@, e.text(), e.kinds());
        },
    }
}

proof fn print_rules(v: Seq<TableConstraintView>)
    requires
        shape::rules_hold(v),
    ensures
        ({
            let x = text::each_behind(", "@, printer::table_constraint_texts(v));
            &&& lexing::reads(
                x,
                shape::each_after(seq![KindView::Comma], shape::rules_kinds(v)),
            )
            &&& x.len() > 0 ==> x[0] == ','
        }),
{
    reveal_strlit(", ");
    let texts = printer::table_constraint_texts(v);
    let kinds = shape::rules_kinds(v);
    let lead = seq![KindView::Comma];
    shape::lemma_rules_len(v);
    assert forall|i: int| 0 <= i < texts.len() implies lexing::reads(
        ", "@ + #[trigger] texts[i],
        lead + kinds[i],
    ) by {
        shape::lemma_rules_at(v, i);
        print_rule(v[i]);
        lexing::reads_nothing();
        phrases::reads_comma(seq![], seq![], texts[i], kinds[i]);
    }
    phrases::reads_each(", "@, lead, texts, kinds);
}

// ---- CREATE and DROP -----------------------------------------------------------------------------

/// `IF NOT EXISTS` in front of a text.
proof fn reads_if_not_exists(flag: bool, y: Seq<char>, b: Seq<KindView>)
    requires
        lexing::reads(y, b),
        b.len() > 0,
    ensures
        lexing::reads(
            printer::if_not_exists_text(flag) + y,
            shape::if_not_exists_kinds(flag) + b,
        ),
{
    reveal(Keyword::name);
    reveal_strlit("IF NOT EXISTS ");
    reveal_strlit("IF");
    reveal_strlit("NOT");
    reveal_strlit("EXISTS");
    reveal_strlit(" ");
    reveal_strlit("");
    if flag {
        let k1 = shape::kw(Keyword::EXISTS) + b;
        phrases::reads_lead(Keyword::EXISTS, "EXISTS"@ + " "@, y, b);
        let y1 = "EXISTS"@ + " "@ + y;
        phrases::reads_lead(Keyword::NOT, "NOT"@ + " "@, y1, k1);
        let y2 = "NOT"@ + " "@ + y1;
        phrases::reads_lead(Keyword::IF, "IF"@ + " "@, y2, shape::kw(Keyword::NOT) + k1);
        assert("IF"@ + " "@ + y2 =~= "IF NOT EXISTS "@ + y);
        leaves::lemma_regroup(
            shape::kw(Keyword::IF),
            shape::kw(Keyword::NOT),
            shape::kw(Keyword::EXISTS),
            b,
        );
        leaves::lemma_regroup3(shape::kw(Keyword::NOT), shape::kw(Keyword::EXISTS), b);
    } else {
        assert(""@ + y =~= y);
        leaves::lemma_nothing_before(b);
    }
}

proof fn reads_if_exists(flag: bool, y: Seq<char>, b: Seq<KindView>)
    requires
        lexing::reads(y, b),
        b.len() > 0,
    ensures
        lexing::reads(printer::if_exists_text(flag) + y, shape::if_exists_kinds(flag) + b),
{
    reveal(Keyword::name);
    reveal_strlit("IF EXISTS ");
    reveal_strlit("IF");
    reveal_strlit("EXISTS");
    reveal_strlit(" ");
    reveal_strlit("");
    if flag {
        let k1 = shape::kw(Keyword::EXISTS) + b;
        phrases::reads_lead(Keyword::EXISTS, "EXISTS"@ + " "@, y, b);
        let y1 = "EXISTS"@ + " "@ + y;
        phrases::reads_lead(Keyword::IF, "IF"@ + " "@, y1, k1);
        assert("IF"@ + " "@ + y1 =~= "IF EXISTS "@ + y);
        leaves::lemma_regroup3(shape::kw(Keyword::IF), shape::kw(Keyword::EXISTS), b);
    } else {
        assert(""@ + y =~= y);
        leaves::lemma_nothing_before(b);
    }
}

/// The words that are no keywords.
proof fn lemma_option_words()
    ensures
        tokenizer::is_plain("ROWID"@),
        tokenizer::is_plain("STRICT"@),
{
    reveal(tokenizer::word_kind);
    reveal_strlit("ROWID");
    reveal_strlit("STRICT");
    reveal_strlit("NULL");
    reveal_strlit("TRUE");
    reveal_strlit("FALSE");
    assert(text::upper("ROWID"@) =~= "ROWID"@);
    assert(text::upper("STRICT"@) =~= "STRICT"@);
    assert("ROWID"@[0] != "FALSE"@[0]);
    reveal(Keyword::name);
    reveal_strlit("ROW");
    reveal_strlit("ROWS");
    reveal_strlit("SET");
    reveal_strlit("TABLE");
    keyword::law_table_complete(Keyword::ROW, 0);
    keyword::law_table_complete(Keyword::ROWS, 0);
    keyword::law_table_complete(Keyword::SET, 0);
    keyword::law_table_complete(Keyword::TABLE, 0);
    assert(text::splits_at("ROW"@, "ROWID"@, 3));
    assert(text::splits_at("ROWID"@, "ROWS"@, 3));
    keyword::lemma_between_words("ROWID"@, Keyword::ROW.rank());
    assert(text::splits_at("SET"@, "STRICT"@, 1));
    assert(text::splits_at("STRICT"@, "TABLE"@, 0));
    keyword::lemma_between_words("STRICT"@, Keyword::SET.rank());
}

proof fn print_options(without_rowid: bool, strict: bool)
    ensures
        ({
            let x = if without_rowid {
                " WITHOUT ROWID"@
            } else if strict {
                " STRICT"@
            } else {
                ""@
            };
            &&& lexing::reads(x, shape::table_options_kinds(without_rowid, strict))
            &&& x.len() > 0 ==> x[0] == ' '
        }),
{
    reveal(Keyword::name);
    reveal_strlit(" WITHOUT ROWID");
    reveal_strlit("WITHOUT");
    reveal_strlit("ROWID");
    reveal_strlit(" STRICT");
    reveal_strlit("STRICT");
    reveal_strlit(" ");
    reveal_strlit("");
    lemma_option_words();
    if without_rowid {
        spelling::reads_word("ROWID"@);
        phrases::reads_clause(
            Keyword::WITHOUT,
            " "@ + "WITHOUT"@ + " "@,
            "ROWID"@,
            shape::name_kinds("ROWID"@),
        );
        assert(" "@ + "WITHOUT"@ + " "@ + "ROWID"@ =~= " WITHOUT ROWID"@);
    } else if strict {
        spelling::reads_word("STRICT"@);
        lexing::reads_space("STRICT"@, shape::name_kinds("STRICT"@));
        assert(" "@ + "STRICT"@ =~= " STRICT"@);
    } else {
        lexing::reads_nothing();
    }
}

pub proof fn print_create_table(a: CreateTableView)
    requires
        a.holds(),
    ensures
        lexing::reads(a.text(), a.kinds()),
{
    reveal(Keyword::name);
    reveal_strlit("CREATE TABLE ");
    reveal_strlit("CREATE");
    reveal_strlit("TABLE");
    reveal_strlit(" (");
    reveal_strlit("(");
    reveal_strlit(" ");
    shape::shape_of_create_table(a);
    print_defs(a.columns);
    print_rules(a.constraints);
    let defs = text::join(printer::column_def_texts(a.columns), ", "@);
    let k1 = shape::commas(shape::defs_kinds(a.columns));
    let rules = text::each_behind(", "@, printer::table_constraint_texts(a.constraints));
    let k2 = shape::each_after(seq![KindView::Comma], shape::rules_kinds(a.constraints));
    lexing::reads_tight(defs, k1, rules, k2);
    phrases::reads_parens(defs + rules, k1 + k2);
    phrases::reads_name(a.name);
    let n = shape::name_kinds(a.name);
    let name = printer::name_text(a.name);
    let inner = shape::in_parens(k1 + k2);
    lexing::reads_gap(name, n, "("@ + (defs + rules) + ")"@, inner);
    let y = name + " "@ + ("("@ + (defs + rules) + ")"@);
    reads_if_not_exists(a.if_not_exists, y, n + inner);
    let flag = shape::if_not_exists_kinds(a.if_not_exists);
    let z = printer::if_not_exists_text(a.if_not_exists) + y;
    let kz = flag + (n + inner);
    let table = shape::kw(Keyword::TABLE);
    let create = shape::kw(Keyword::CREATE);
    phrases::reads_lead(Keyword::TABLE, "TABLE"@ + " "@, z, kz);
    phrases::reads_lead(Keyword::CREATE, "CREATE"@ + " "@, "TABLE"@ + " "@ + z, table + kz);
    let w = "CREATE"@ + " "@ + ("TABLE"@ + " "@ + z);
    print_options(a.without_rowid, a.strict);
    let option = if a.without_rowid {
        " WITHOUT ROWID"@
    } else if a.strict {
        " STRICT"@
    } else {
        ""@
    };
    let k3 = shape::table_options_kinds(a.without_rowid, a.strict);
    lexing::reads_tight(w, create + (table + kz), option, k3);
    let absent = printer::if_not_exists_text(a.if_not_exists);
    create_table_words(absent, name, defs, rules);
    assert(a.text() == "CREATE TABLE "@ + absent + name + " ("@ + defs + rules + ")"@ + option);
    create_table_parts(create, table, flag, n, k1, k2, k3);
}

/// The text of `CREATE TABLE`, however it is put together.
proof fn create_table_words(
    absent: Seq<char>,
    name: Seq<char>,
    defs: Seq<char>,
    rules: Seq<char>,
)
    ensures
        "CREATE"@ + " "@ + ("TABLE"@ + " "@ + (absent + (name + " "@ + ("("@ + (defs + rules)
            + ")"@)))) == "CREATE TABLE "@ + absent + name + " ("@ + defs + rules + ")"@,
{
    reveal_strlit("CREATE TABLE ");
    reveal_strlit("CREATE");
    reveal_strlit("TABLE");
    reveal_strlit(" (");
    reveal_strlit("(");
    reveal_strlit(" ");
    assert(" ("@ =~= " "@ + "("@);
    let items = "("@ + (defs + rules) + ")"@;
    assert(name + " "@ + items =~= name + " ("@ + defs + rules + ")"@);
    let y = name + " "@ + items;
    assert("CREATE"@ + " "@ + ("TABLE"@ + " "@ + (absent + y)) =~= "CREATE TABLE "@ + absent + y);
    assert("CREATE TABLE "@ + absent + (name + " ("@ + defs + rules + ")"@) =~= "CREATE TABLE "@
        + absent + name + " ("@ + defs + rules + ")"@);
}

/// The kinds of `CREATE TABLE`, however they are put together.
proof fn create_table_parts(
    create: Seq<KindView>,
    table: Seq<KindView>,
    flag: Seq<KindView>,
    n: Seq<KindView>,
    k1: Seq<KindView>,
    k2: Seq<KindView>,
    k3: Seq<KindView>,
)
    ensures
        create + (table + (flag + (n + shape::in_parens(k1 + k2)))) + k3 == create + table + flag
            + n
            + seq![KindView::LParen] + k1 + k2 + seq![KindView::RParen] + k3,
{
    let open = seq![KindView::LParen];
    let close = seq![KindView::RParen];
    let inner = shape::in_parens(k1 + k2);
    leaves::lemma_regroup5(create, table, flag, n, inner);
    leaves::lemma_regroup(table, flag, n, inner);
    leaves::lemma_regroup3(flag, n, inner);
    let before = create + table + flag + n;
    leaves::lemma_regroup(before, open, k1 + k2, close);
    leaves::lemma_regroup3(before + open, k1, k2);
}

pub proof fn print_create_index(a: CreateIndexView)
    requires
        a.holds(),
    ensures
        lexing::reads(a.text(), a.kinds()),
{
    reveal(Keyword::name);
    reveal_strlit("CREATE ");
    reveal_strlit("CREATE");
    reveal_strlit("UNIQUE ");
    reveal_strlit("UNIQUE");
    reveal_strlit("INDEX ");
    reveal_strlit("INDEX");
    reveal_strlit(" ON ");
    reveal_strlit("ON");
    reveal_strlit(" (");
    reveal_strlit("(");
    reveal_strlit(" WHERE ");
    reveal_strlit("WHERE");
    reveal_strlit(" ");
    reveal_strlit("");
    shape::shape_of_create_index(a);
    print_keys(a.columns);
    let keys = text::join(printer::indexed_column_texts(a.columns), ", "@);
    let k = shape::commas(shape::keys_kinds(a.columns));
    phrases::reads_parens(keys, k);
    let inner = shape::in_parens(k);
    phrases::reads_name(a.name);
    phrases::reads_name(a.table);
    let n = shape::name_kinds(a.name);
    let name = printer::name_text(a.name);
    let table = printer::name_text(a.table);
    let tn = shape::name_kinds(a.table);
    let on = shape::kw(Keyword::ON);
    let y1 = "("@ + keys + ")"@;
    lexing::reads_gap(table, tn, y1, inner);
    let y2 = table + " "@ + y1;
    assert(" ON "@ =~= " "@ + "ON"@ + " "@);
    phrases::reads_infix(name, n, Keyword::ON, " ON "@, y2, tn + inner);
    let y3 = name + " ON "@ + y2;
    let b3 = n + on + (tn + inner);
    reads_if_not_exists(a.if_not_exists, y3, b3);
    let flag = shape::if_not_exists_kinds(a.if_not_exists);
    let y4 = printer::if_not_exists_text(a.if_not_exists) + y3;
    assert("INDEX "@ =~= "INDEX"@ + " "@);
    let index = shape::kw(Keyword::INDEX);
    phrases::reads_lead(Keyword::INDEX, "INDEX "@, y4, flag + b3);
    let y5 = "INDEX "@ + y4;
    let b5 = index + (flag + b3);
    let unique = shape::flag_kinds(a.unique, Keyword::UNIQUE);
    let mark = if a.unique {
        "UNIQUE "@
    } else {
        ""@
    };
    if a.unique {
        assert("UNIQUE "@ =~= "UNIQUE"@ + " "@);
        phrases::reads_lead(Keyword::UNIQUE, "UNIQUE "@, y5, b5);
    } else {
        assert(""@ + y5 =~= y5);
        leaves::lemma_nothing_before(b5);
    }
    let y6 = mark + y5;
    assert("CREATE "@ =~= "CREATE"@ + " "@);
    let create = shape::kw(Keyword::CREATE);
    phrases::reads_lead(Keyword::CREATE, "CREATE "@, y6, unique + b5);
    let y7 = "CREATE "@ + y6;
    assert(" WHERE "@ =~= " "@ + "WHERE"@ + " "@);
    print_query::print_optional(Keyword::WHERE, " WHERE "@, a.where_clause);
    let last = printer::expr_clause(" WHERE "@, a.where_clause);
    let k3 = shape::optional_kinds(Keyword::WHERE, a.where_clause);
    lexing::reads_tight(y7, create + (unique + b5), last, k3);
    let absent = printer::if_not_exists_text(a.if_not_exists);
    create_index_words(mark, absent, name, table, keys);
    assert(a.text() == "CREATE "@ + mark + "INDEX "@ + absent + name + " ON "@ + table + " ("@
        + keys + ")"@ + last);
    create_index_parts(create, unique, index, flag, n, on, tn, inner, k3);
}

/// The text of `CREATE INDEX`, however it is put together.
proof fn create_index_words(
    mark: Seq<char>,
    absent: Seq<char>,
    name: Seq<char>,
    table: Seq<char>,
    keys: Seq<char>,
)
    ensures
        "CREATE "@ + (mark + ("INDEX "@ + (absent + (name + " ON "@ + (table + " "@ + ("("@ + keys
            + ")"@)))))) == "CREATE "@ + mark + "INDEX "@ + absent + name + " ON "@ + table + " ("@
            + keys + ")"@,
{
    reveal_strlit(" (");
    reveal_strlit("(");
    reveal_strlit(" ");
    assert(" ("@ =~= " "@ + "("@);
    let list = "("@ + keys + ")"@;
    let y = table + " "@ + list;
    assert(y =~= table + " ("@ + keys + ")"@);
    let z = name + " ON "@ + y;
    let before = "CREATE "@ + mark + "INDEX "@ + absent;
    assert("CREATE "@ + (mark + ("INDEX "@ + (absent + z))) =~= before + z);
    assert(before + z =~= before + name + " ON "@ + y);
    let front = before + name + " ON "@;
    assert(front + (table + " ("@ + keys + ")"@) =~= front + table + " ("@ + keys + ")"@);
}

/// The kinds of `CREATE INDEX`, however they are put together.
proof fn create_index_parts(
    create: Seq<KindView>,
    unique: Seq<KindView>,
    index: Seq<KindView>,
    flag: Seq<KindView>,
    n: Seq<KindView>,
    on: Seq<KindView>,
    tn: Seq<KindView>,
    inner: Seq<KindView>,
    k3: Seq<KindView>,
)
    ensures
        create + (unique + (index + (flag + (n + on + (tn + inner))))) + k3 == create + unique
            + index + flag + n + on + tn + inner + k3,
{
    let rest = n + on + (tn + inner);
    leaves::lemma_regroup5(create, unique, index, flag, rest);
    leaves::lemma_regroup(unique, index, flag, rest);
    leaves::lemma_regroup3(index, flag, rest);
    let before = create + unique + index + flag;
    leaves::lemma_regroup5(before, n, on, tn, inner);
    leaves::lemma_regroup3(n + on, tn, inner);
}

/// A `DROP` statement.
proof fn reads_drop(what: Keyword, mark: Seq<char>, flag: bool, name: Seq<char>)
    requires
        spelling::is_printed(what),
        mark == "DROP"@ + " "@ + (what.name() + " "@),
    ensures
        lexing::reads(
            mark + printer::if_exists_text(flag) + printer::name_text(name),
            shape::kw(Keyword::DROP) + shape::kw(what) + shape::if_exists_kinds(flag)
                + shape::name_kinds(name),
        ),
{
    reveal(Keyword::name);
    reveal_strlit("DROP");
    phrases::reads_name(name);
    let n = shape::name_kinds(name);
    reads_if_exists(flag, printer::name_text(name), n);
    let k = shape::if_exists_kinds(flag);
    let y = printer::if_exists_text(flag) + printer::name_text(name);
    phrases::reads_lead(what, what.name() + " "@, y, k + n);
    let z = what.name() + " "@ + y;
    phrases::reads_lead(Keyword::DROP, "DROP"@ + " "@, z, shape::kw(what) + (k + n));
    assert("DROP"@ + " "@ + z =~= mark + printer::if_exists_text(flag) + printer::name_text(name));
    leaves::lemma_regroup(shape::kw(Keyword::DROP), shape::kw(what), k, n);
    leaves::lemma_regroup3(shape::kw(what), k, n);
}

pub proof fn print_drop_table(a: DropTableView)
    ensures
        lexing::reads(a.text(), a.kinds()),
{
    reveal(Keyword::name);
    reveal_strlit("DROP TABLE ");
    reveal_strlit("DROP");
    reveal_strlit("TABLE");
    reveal_strlit(" ");
    shape::shape_of_drop_table(a);
    assert("DROP TABLE "@ =~= "DROP"@ + " "@ + ("TABLE"@ + " "@));
    reads_drop(Keyword::TABLE, "DROP TABLE "@, a.if_exists, a.name);
}

pub proof fn print_drop_index(a: DropIndexView)
    ensures
        lexing::reads(a.text(), a.kinds()),
{
    reveal(Keyword::name);
    reveal_strlit("DROP INDEX ");
    reveal_strlit("DROP");
    reveal_strlit("INDEX");
    reveal_strlit(" ");
    shape::shape_of_drop_index(a);
    assert("DROP INDEX "@ =~= "DROP"@ + " "@ + ("INDEX"@ + " "@));
    reads_drop(Keyword::INDEX, "DROP INDEX "@, a.if_exists, a.name);
}

} // verus!
