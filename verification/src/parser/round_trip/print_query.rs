//! What is printed of an expression or a `SELECT` is read as the tokens it stands for:
//! the whole tree.
use crate::parser::ast::{
    CompoundSelectView, ExprKindView, ExprView, FromClauseView, FunctionArgsView,
    JoinConstraintView, JoinView, LimitView, OrderingTermView, ResultColumnView, SelectView,
    TableRefKindView, TableRefView,
};
use crate::parser::printer;
use crate::parser::round_trip::leaves;
use crate::parser::round_trip::lexing;
use crate::parser::round_trip::literals;
use crate::parser::round_trip::phrases;
use crate::parser::round_trip::print_expr;
use crate::parser::round_trip::shape;
use crate::parser::round_trip::spelling;
use crate::parser::tokenizer::{Keyword, KindView};
use crate::text;
use vstd::prelude::*;

verus! {

pub proof fn print(a: ExprView)
    requires
        a.holds(),
    ensures
        print_expr::prints(a),
    decreases a,
{
    match a.kind {
        ExprKindView::Literal(l) => {
            shape::shape_literal(a, l);
            literals::reads_literal(l);
        },
        ExprKindView::Param(p) => {
            shape::shape_param(a, p);
            literals::reads_param(p);
        },
        ExprKindView::Column { table, catalog, name } => {
            print_expr::print_column(a, table, catalog, name);
        },
        ExprKindView::FunctionCall { name, distinct, args } => {
            shape::shape_function_call(a, name, distinct, args);
            print_args(args);
            print_expr::print_function_call(a, name, distinct, args);
        },
        ExprKindView::Unary { op, expr } => {
            shape::shape_unary(a, op, *expr);
            print(*expr);
            print_expr::print_unary(a, op, *expr);
        },
        ExprKindView::Binary { op, lhs, rhs } => {
            shape::shape_binary(a, op, *lhs, *rhs);
            print(*lhs);
            print(*rhs);
            print_expr::print_binary(a, op, *lhs, *rhs);
        },
        ExprKindView::Is { lhs, rhs, negated } => {
            shape::shape_is(a, *lhs, *rhs, negated);
            print(*lhs);
            print(*rhs);
            print_expr::print_is(a, *lhs, *rhs, negated);
        },
        ExprKindView::IsNull { expr, negated } => {
            shape::shape_is_null(a, *expr, negated);
            print(*expr);
            print_expr::print_is_null(a, *expr, negated);
        },
        ExprKindView::Between { expr, lo, hi, negated } => {
            shape::shape_between(a, *expr, *lo, *hi, negated);
            print(*expr);
            print(*lo);
            print(*hi);
            print_expr::print_between(a, *expr, *lo, *hi, negated);
        },
        ExprKindView::In { expr, list, negated } => {
            shape::shape_in(a, *expr, list, negated);
            print(*expr);
            print_list(list);
            print_expr::print_in(a, *expr, list, negated);
        },
        ExprKindView::Like { expr, pattern, glob, negated, escape } => {
            shape::shape_like(a, *expr, *pattern, glob, negated, escape);
            print(*expr);
            print(*pattern);
            if escape is Some {
                print(*escape->0);
            }
            print_expr::print_like(a, *expr, *pattern, glob, negated, escape);
        },
        ExprKindView::Case { operand, whens, else_ } => {
            shape::shape_case(a, operand, whens, else_);
            if operand is Some {
                print(*operand->0);
            }
            if else_ is Some {
                print(*else_->0);
            }
            print_whens(whens);
            print_expr::print_case(a, operand, whens, else_);
        },
        ExprKindView::Cast { expr, declared_type } => {
            shape::shape_cast(a, *expr, declared_type);
            print(*expr);
            print_expr::print_cast(a, *expr, declared_type);
        },
        ExprKindView::Collate { expr, collation } => {
            shape::shape_collate(a, *expr, collation);
            print(*expr);
            print_expr::print_collate(a, *expr, collation);
        },
        ExprKindView::Paren(inner) => {
            shape::shape_paren(a, *inner);
            print(*inner);
            print_expr::print_parens(a, inner.text(), inner.kinds());
        },
        ExprKindView::Subquery(select) => {
            shape::shape_subquery(a, *select);
            print_select(*select);
            print_expr::print_parens(a, select.text(), select.kinds());
        },
        ExprKindView::Exists { subquery, negated } => {
            shape::shape_exists(a, *subquery, negated);
            print_select(*subquery);
            print_expr::print_exists(a, *subquery, negated);
        },
        ExprKindView::InSubquery { expr, subquery, negated } => {
            shape::shape_in_subquery(a, *expr, *subquery, negated);
            print(*expr);
            print_select(*subquery);
            print_expr::print_in_subquery(a, *expr, *subquery, negated);
        },
        ExprKindView::InSubqueryMulti { exprs, subquery, negated } => {
            shape::shape_in_subquery_multi(a, exprs, *subquery, negated);
            print_list(exprs);
            print_select(*subquery);
            print_expr::print_multi(a, exprs, *subquery, negated);
        },
    }
}

pub open spec fn fit_list(v: Seq<ExprView>) -> bool {
    shape::exprs_hold(v)
}

pub proof fn print_list(v: Seq<ExprView>)
    requires
        fit_list(v),
    ensures
        phrases::all_read(printer::expr_texts(v), shape::exprs_kinds(v)),
        lexing::reads(
            text::join(printer::expr_texts(v), ", "@),
            shape::commas(shape::exprs_kinds(v)),
        ),
        v.len() > 0 ==> shape::commas(shape::exprs_kinds(v)).len() > 0,
    decreases v,
{
    let texts = printer::expr_texts(v);
    let kinds = shape::exprs_kinds(v);
    shape::lemma_exprs_len(v);
    assert forall|i: int| 0 <= i < texts.len() implies lexing::reads(#[trigger] texts[i], kinds[i])
        && kinds[i].len() > 0 by {
        shape::lemma_exprs_at(v, i);
        print(v[i]);
    }
    phrases::reads_join(texts, kinds);
}

proof fn print_args(args: FunctionArgsView)
    requires
        args.holds(),
    ensures
        lexing::reads(args.text(), args.kinds()),
    decreases args,
{
    shape::shape_of_function_args(args);
    match args {
        FunctionArgsView::Star => {
            literals::lemma_signs();
        },
        FunctionArgsView::List(list) => {
            print_list(list);
        },
    }
}

proof fn print_whens(v: Seq<(ExprView, ExprView)>)
    requires
        shape::whens_hold(v),
    ensures
        ({
            let x = text::each_behind(" WHEN "@, printer::when_texts(v));
            &&& lexing::reads(
                x,
                shape::each_after(shape::kw(Keyword::WHEN), shape::whens_kinds(v)),
            )
            &&& x.len() > 0 ==> x[0] == ' '
        }),
    decreases v,
{
    reveal(Keyword::name);
    reveal_strlit(" WHEN ");
    reveal_strlit("WHEN");
    reveal_strlit(" THEN ");
    reveal_strlit("THEN");
    reveal_strlit(" ");
    let texts = printer::when_texts(v);
    let kinds = shape::whens_kinds(v);
    let lead = shape::kw(Keyword::WHEN);
    assert(" WHEN "@ =~= " "@ + "WHEN"@ + " "@);
    assert(" THEN "@ =~= " "@ + "THEN"@ + " "@);
    shape::lemma_whens_len(v);
    assert forall|i: int| 0 <= i < texts.len() implies lexing::reads(
        " WHEN "@ + #[trigger] texts[i],
        lead + kinds[i],
    ) by {
        shape::lemma_whens_at(v, i);
        let x = v[i].0;
        let y = v[i].1;
        print(x);
        print(y);
        phrases::reads_infix(
            x.text(),
            x.kinds(),
            Keyword::THEN,
            " THEN "@,
            y.text(),
            y.kinds(),
        );
        phrases::reads_clause(Keyword::WHEN, " WHEN "@, texts[i], kinds[i]);
    }
    phrases::reads_each(" WHEN "@, lead, texts, kinds);
}

// ---- result columns -----------------------------------------------------------------------

/// An alias behind a text.
proof fn reads_alias(x: Seq<char>, k: Seq<KindView>, alias: Option<Seq<char>>)
    requires
        lexing::reads(x, k),
    ensures
        lexing::reads(x + printer::alias_text(alias), k + shape::alias_kinds(alias)),
{
    reveal(Keyword::name);
    reveal_strlit(" AS ");
    reveal_strlit("AS");
    reveal_strlit(" ");
    reveal_strlit("");
    match alias {
        Some(name) => {
            phrases::reads_name(name);
            assert(" AS "@ =~= " "@ + "AS"@ + " "@);
            let n = printer::name_text(name);
            phrases::reads_infix(x, k, Keyword::AS, " AS "@, n, shape::name_kinds(name));
            assert(x + " AS "@ + n =~= x + printer::alias_text(alias));
            leaves::lemma_regroup3(k, shape::kw(Keyword::AS), shape::name_kinds(name));
        },
        None => {
            assert(x + ""@ =~= x);
            leaves::lemma_nothing_more(k);
        },
    }
}

proof fn print_result(c: ResultColumnView)
    requires
        c.holds(),
    ensures
        lexing::reads(c.text(), c.kinds()),
        c.kinds().len() > 0,
    decreases c,
{
    shape::shape_of_result_column(c);
    literals::lemma_signs();
    match c {
        ResultColumnView::Star => {},
        ResultColumnView::TableStar { table } => {
            reveal_strlit(".*");
            reveal_strlit(".");
            reveal_strlit("*");
            phrases::reads_dotted(table, "*"@, seq![KindView::Star]);
            assert(c.text() =~= printer::name_text(table) + "."@ + "*"@);
            assert(c.kinds() =~= shape::name_kinds(table) + seq![KindView::Dot]
                + seq![KindView::Star]);
        },
        ResultColumnView::Expr { expr, alias } => {
            print(expr);
            reads_alias(expr.text(), expr.kinds(), alias);
        },
    }
}

proof fn print_results(v: Seq<ResultColumnView>)
    requires
        shape::columns_hold(v),
    ensures
        phrases::all_read(printer::result_column_texts(v), shape::columns_kinds(v)),
    decreases v,
{
    let texts = printer::result_column_texts(v);
    let kinds = shape::columns_kinds(v);
    shape::lemma_columns_len(v);
    assert forall|i: int| 0 <= i < texts.len() implies lexing::reads(#[trigger] texts[i], kinds[i])
        && kinds[i].len() > 0 by {
        shape::lemma_columns_at(v, i);
        print_result(v[i]);
    }
}

// ---- tables and joins -----------------------------------------------------------------------

proof fn print_table(x: TableRefView)
    requires
        x.holds(),
    ensures
        lexing::reads(x.text(), x.kinds()),
        x.kinds().len() > 0,
    decreases x,
{
    shape::shape_of_table_ref(x);
    match x.kind {
        TableRefKindView::Name(name) => {
            phrases::reads_name(name);
            reads_alias(printer::name_text(name), shape::name_kinds(name), x.alias);
        },
        TableRefKindView::Subquery(select) => {
            print_select(*select);
            phrases::reads_parens(select.text(), select.kinds());
            reads_alias(
                "("@ + select.text() + ")"@,
                shape::in_parens(select.kinds()),
                x.alias,
            );
        },
    }
}

/// The words of a join in front of a text.
proof fn reads_join_op(x: JoinView, y: Seq<char>, k: Seq<KindView>)
    requires
        lexing::reads(y, k),
        k.len() > 0,
    ensures
        lexing::reads(
            printer::join_op_text(x.op) + y,
            shape::join_op_kinds(x.op) + k,
        ),
{
    reveal(Keyword::name);
    reveal_strlit("JOIN ");
    reveal_strlit("JOIN");
    reveal_strlit("LEFT JOIN ");
    reveal_strlit("LEFT");
    reveal_strlit("CROSS JOIN ");
    reveal_strlit("CROSS");
    reveal_strlit("RIGHT JOIN ");
    reveal_strlit("RIGHT");
    reveal_strlit("FULL JOIN ");
    reveal_strlit("FULL");
    reveal_strlit(" ");
    let join = shape::kw(Keyword::JOIN);
    assert("JOIN "@ =~= "JOIN"@ + " "@);
    phrases::reads_lead(Keyword::JOIN, "JOIN "@, y, k);
    let z = "JOIN "@ + y;
    match x.op {
        crate::parser::ast::JoinOp::Inner => {},
        crate::parser::ast::JoinOp::Left => {
            phrases::reads_lead(Keyword::LEFT, "LEFT"@ + " "@, z, join + k);
            assert("LEFT"@ + " "@ + z =~= "LEFT JOIN "@ + y);
            leaves::lemma_regroup3(shape::kw(Keyword::LEFT), join, k);
        },
        crate::parser::ast::JoinOp::Cross => {
            phrases::reads_lead(Keyword::CROSS, "CROSS"@ + " "@, z, join + k);
            assert("CROSS"@ + " "@ + z =~= "CROSS JOIN "@ + y);
            leaves::lemma_regroup3(shape::kw(Keyword::CROSS), join, k);
        },
        crate::parser::ast::JoinOp::Right => {
            phrases::reads_lead(Keyword::RIGHT, "RIGHT"@ + " "@, z, join + k);
            assert("RIGHT"@ + " "@ + z =~= "RIGHT JOIN "@ + y);
            leaves::lemma_regroup3(shape::kw(Keyword::RIGHT), join, k);
        },
        crate::parser::ast::JoinOp::Full => {
            phrases::reads_lead(Keyword::FULL, "FULL"@ + " "@, z, join + k);
            assert("FULL"@ + " "@ + z =~= "FULL JOIN "@ + y);
            leaves::lemma_regroup3(shape::kw(Keyword::FULL), join, k);
        },
    }
}

/// What stands behind a join's table.
pub open spec fn constraint_text(x: JoinView) -> Seq<char> {
    match x.constraint {
        Some(JoinConstraintView::On(e)) => " ON "@ + e.text(),
        Some(JoinConstraintView::Using(columns)) => " USING ("@ + text::join(
            printer::name_texts(columns),
            ", "@,
        ) + ")"@,
        None => ""@,
    }
}

pub open spec fn constraint_kinds(x: JoinView) -> Seq<KindView> {
    match x.constraint {
        Some(JoinConstraintView::On(e)) => shape::kw(Keyword::ON) + e.kinds(),
        Some(JoinConstraintView::Using(columns)) => shape::kw(Keyword::USING) + shape::in_parens(
            shape::commas(shape::names_list(columns)),
        ),
        None => seq![],
    }
}

pub proof fn print_names(names: Seq<Seq<char>>)
    ensures
        lexing::reads(
            text::join(printer::name_texts(names), ", "@),
            shape::commas(shape::names_list(names)),
        ),
{
    let texts = printer::name_texts(names);
    let kinds = shape::names_list(names);
    assert forall|i: int| 0 <= i < texts.len() implies lexing::reads(#[trigger] texts[i], kinds[i])
        && kinds[i].len() > 0 by {
        phrases::reads_name(names[i]);
    }
    phrases::reads_join(texts, kinds);
}

proof fn print_constraint(x: JoinView)
    requires
        x.holds(),
    ensures
        lexing::reads(constraint_text(x), constraint_kinds(x)),
        constraint_text(x).len() > 0 ==> constraint_text(x)[0] == ' ',
    decreases x, 0int,
{
    reveal(Keyword::name);
    reveal_strlit(" ON ");
    reveal_strlit("ON");
    reveal_strlit(" USING (");
    reveal_strlit("USING");
    reveal_strlit(" (");
    reveal_strlit(" ");
    reveal_strlit("");
    shape::shape_of_join(x);
    match x.constraint {
        Some(JoinConstraintView::On(e)) => {
            print(e);
            assert(" ON "@ =~= " "@ + "ON"@ + " "@);
            phrases::reads_clause(Keyword::ON, " ON "@, e.text(), e.kinds());
        },
        Some(JoinConstraintView::Using(columns)) => {
            print_names(columns);
            let inner = text::join(printer::name_texts(columns), ", "@);
            let k = shape::commas(shape::names_list(columns));
            phrases::reads_word_parens(Keyword::USING, "USING"@ + " ("@, inner, k);
            let y = "USING"@ + " ("@ + inner + ")"@;
            lexing::reads_space(y, shape::kw(Keyword::USING) + shape::in_parens(k));
            assert(" "@ + y =~= " USING ("@ + inner + ")"@);
        },
        None => {
            lexing::reads_nothing();
        },
    }
}

proof fn print_join(x: JoinView)
    requires
        x.holds(),
    ensures
        lexing::reads(x.text(), x.kinds()),
        x.kinds().len() > 0,
    decreases x, 1int,
{
    shape::shape_of_join(x);
    print_table(x.table);
    print_constraint(x);
    let flag = shape::flag_kinds(x.natural, Keyword::NATURAL);
    let natural = if x.natural {
        "NATURAL "@
    } else {
        ""@
    };
    assert(x.text() == natural + printer::join_op_text(x.op) + x.table.text() + constraint_text(x));
    assert(x.kinds() == flag + shape::join_op_kinds(x.op) + x.table.kinds() + constraint_kinds(x));
    reads_whole_join(x, x.table.text(), x.table.kinds(), constraint_text(x), constraint_kinds(x));
}

/// A join with its words, its table and its condition.
proof fn reads_whole_join(
    x: JoinView,
    table: Seq<char>,
    k1: Seq<KindView>,
    condition: Seq<char>,
    k2: Seq<KindView>,
)
    requires
        lexing::reads(table, k1),
        k1.len() > 0,
        lexing::reads(condition, k2),
        condition.len() > 0 ==> condition[0] == ' ',
    ensures
        ({
            let flag = shape::flag_kinds(x.natural, Keyword::NATURAL);
            let natural = if x.natural {
                "NATURAL "@
            } else {
                ""@
            };
            let kinds = flag + shape::join_op_kinds(x.op) + k1 + k2;
            &&& lexing::reads(natural + printer::join_op_text(x.op) + table + condition, kinds)
            &&& kinds.len() > 0
        }),
{
    reveal(Keyword::name);
    reveal_strlit("NATURAL ");
    reveal_strlit("NATURAL");
    reveal_strlit(" ");
    reveal_strlit("");
    let op = printer::join_op_text(x.op);
    let y = table + condition;
    lexing::reads_tight(table, k1, condition, k2);
    reads_join_op(x, y, k1 + k2);
    let z = op + y;
    let word = shape::join_op_kinds(x.op);
    leaves::lemma_regroup(shape::flag_kinds(x.natural, Keyword::NATURAL), word, k1, k2);
    leaves::lemma_regroup3(word, k1, k2);
    if x.natural {
        assert("NATURAL "@ =~= "NATURAL"@ + " "@);
        phrases::reads_lead(Keyword::NATURAL, "NATURAL "@, z, word + (k1 + k2));
        assert("NATURAL "@ + op + table + condition =~= "NATURAL "@ + z);
    } else {
        assert(""@ + op + table + condition =~= z);
        leaves::lemma_nothing_before(word + (k1 + k2));
    }
}

proof fn print_joins(v: Seq<JoinView>)
    requires
        shape::joins_hold(v),
    ensures
        ({
            let x = text::each_behind(" "@, printer::join_texts(v));
            &&& lexing::reads(x, shape::each_after(seq![], shape::joins_kinds(v)))
            &&& x.len() > 0 ==> x[0] == ' '
        }),
    decreases v,
{
    reveal_strlit(" ");
    let texts = printer::join_texts(v);
    let kinds = shape::joins_kinds(v);
    let nothing = Seq::<KindView>::empty();
    shape::lemma_joins_len(v);
    assert forall|i: int| 0 <= i < texts.len() implies lexing::reads(
        " "@ + #[trigger] texts[i],
        nothing + kinds[i],
    ) by {
        shape::lemma_joins_at(v, i);
        print_join(v[i]);
        lexing::reads_space(texts[i], kinds[i]);
        leaves::lemma_nothing_before(kinds[i]);
    }
    phrases::reads_each(" "@, nothing, texts, kinds);
}

proof fn print_from_clause(f: FromClauseView)
    requires
        f.holds(),
    ensures
        lexing::reads(f.text(), f.kinds()),
        f.kinds().len() > 0,
    decreases f,
{
    shape::shape_of_from_clause(f);
    print_table(f.first);
    print_joins(f.joins);
    lexing::reads_tight(
        f.first.text(),
        f.first.kinds(),
        text::each_behind(" "@, printer::join_texts(f.joins)),
        shape::each_after(seq![], shape::joins_kinds(f.joins)),
    );
}

proof fn print_from(f: Option<FromClauseView>)
    requires
        shape::from_holds(f),
    ensures
        lexing::reads(printer::from_text(f), shape::from_kinds(f)),
        printer::from_text(f).len() > 0 ==> printer::from_text(f)[0] == ' ',
    decreases f,
{
    reveal(Keyword::name);
    reveal_strlit(" FROM ");
    reveal_strlit("FROM");
    reveal_strlit(" ");
    reveal_strlit("");
    shape::lemma_from(f->0);
    match f {
        Some(x) => {
            print_from_clause(x);
            assert(" FROM "@ =~= " "@ + "FROM"@ + " "@);
            phrases::reads_clause(Keyword::FROM, " FROM "@, x.text(), x.kinds());
        },
        None => {
            lexing::reads_nothing();
        },
    }
}

/// An optional expression behind its word.
pub proof fn print_optional(k: Keyword, mark: Seq<char>, e: Option<ExprView>)
    requires
        spelling::is_printed(k),
        mark == " "@ + k.name() + " "@,
        shape::optional_holds(e),
    ensures
        lexing::reads(printer::expr_clause(mark, e), shape::optional_kinds(k, e)),
        printer::expr_clause(mark, e).len() > 0 ==> printer::expr_clause(mark, e)[0] == ' ',
    decreases e,
{
    reveal_strlit(" ");
    reveal_strlit("");
    shape::lemma_optional(k, e->0);
    match e {
        Some(x) => {
            print(x);
            phrases::reads_clause(k, mark, x.text(), x.kinds());
            assert((mark + x.text())[0] == ' ');
        },
        None => {
            lexing::reads_nothing();
        },
    }
}

// ---- SELECT ------------------------------------------------------------------------------------

/// `DISTINCT` or `ALL` behind a text.
proof fn reads_distinct(x: Seq<char>, k: Seq<KindView>, d: Option<crate::parser::ast::Distinctness>)
    requires
        lexing::reads(x, k),
    ensures
        lexing::reads(x + printer::distinct_text(d), k + shape::distinct_kinds(d)),
{
    reveal(Keyword::name);
    reveal_strlit(" DISTINCT");
    reveal_strlit("DISTINCT");
    reveal_strlit(" ALL");
    reveal_strlit("ALL");
    reveal_strlit(" ");
    reveal_strlit("");
    match d {
        Some(crate::parser::ast::Distinctness::Distinct) => {
            assert(" DISTINCT"@ =~= " "@ + "DISTINCT"@);
            phrases::reads_trail(x, k, Keyword::DISTINCT, " DISTINCT"@);
        },
        Some(crate::parser::ast::Distinctness::All) => {
            assert(" ALL"@ =~= " "@ + "ALL"@);
            phrases::reads_trail(x, k, Keyword::ALL, " ALL"@);
        },
        None => {
            assert(x + ""@ =~= x);
            leaves::lemma_nothing_more(k);
        },
    }
}

/// Two words in front of a list.
pub proof fn reads_two_words(
    first: Keyword,
    second: Keyword,
    mark: Seq<char>,
    texts: Seq<Seq<char>>,
    kinds: Seq<Seq<KindView>>,
)
    requires
        spelling::is_printed(first),
        spelling::is_printed(second),
        mark == " "@ + first.name() + " "@ + second.name() + " "@,
        phrases::all_read(texts, kinds),
    ensures
        lexing::reads(
            printer::list_clause(mark, texts),
            shape::clause_kinds(shape::kw(first) + shape::kw(second), kinds),
        ),
        printer::list_clause(mark, texts).len() > 0 ==> printer::list_clause(mark, texts)[0] == ' ',
{
    reveal_strlit(" ");
    let head = shape::kw(first) + shape::kw(second);
    assert forall|y: Seq<char>, b: Seq<KindView>|
        lexing::reads(y, b) && b.len() > 0 implies #[trigger] lexing::reads(mark + y, head + b) by {
        phrases::reads_lead(second, second.name() + " "@, y, b);
        let z = second.name() + " "@ + y;
        phrases::reads_clause(
            first,
            " "@ + first.name() + " "@,
            z,
            shape::kw(second) + b,
        );
        assert(" "@ + first.name() + " "@ + z =~= mark + y);
        leaves::lemma_regroup3(shape::kw(first), shape::kw(second), b);
    }
    phrases::reads_list_clause(mark, head, texts, kinds);
}

/// What follows `SELECT` in a statement or an arm, behind the text `x`.
proof fn print_core(
    x: Seq<char>,
    k: Seq<KindView>,
    columns: Seq<ResultColumnView>,
    distinct: Option<crate::parser::ast::Distinctness>,
    from: Option<FromClauseView>,
    condition: Option<ExprView>,
    group_by: Seq<ExprView>,
    having: Option<ExprView>,
)
    requires
        lexing::reads(x, k),
        columns.len() > 0,
        phrases::all_read(printer::result_column_texts(columns), shape::columns_kinds(columns)),
        lexing::reads(printer::from_text(from), shape::from_kinds(from)),
        printer::from_text(from).len() > 0 ==> printer::from_text(from)[0] == ' ',
        ({
            let y = printer::expr_clause(" WHERE "@, condition);
            &&& lexing::reads(y, shape::optional_kinds(Keyword::WHERE, condition))
            &&& y.len() > 0 ==> y[0] == ' '
        }),
        phrases::all_read(printer::expr_texts(group_by), shape::exprs_kinds(group_by)),
        ({
            let y = printer::expr_clause(" HAVING "@, having);
            &&& lexing::reads(y, shape::optional_kinds(Keyword::HAVING, having))
            &&& y.len() > 0 ==> y[0] == ' '
        }),
    ensures
        lexing::reads(
            x + printer::distinct_text(distinct) + printer::list_clause(
                " "@,
                printer::result_column_texts(columns),
            ) + printer::from_text(from) + printer::expr_clause(" WHERE "@, condition)
                + printer::list_clause(" GROUP BY "@, printer::expr_texts(group_by))
                + printer::expr_clause(" HAVING "@, having),
            k + shape::core_kinds(
                distinct,
                shape::columns_kinds(columns),
                shape::from_kinds(from),
                shape::optional_kinds(Keyword::WHERE, condition),
                shape::exprs_kinds(group_by),
                shape::optional_kinds(Keyword::HAVING, having),
            ),
        ),
{
    reveal(Keyword::name);
    reveal_strlit(" ");
    reveal_strlit(" GROUP BY ");
    reveal_strlit("GROUP");
    reveal_strlit("BY");
    reads_distinct(x, k, distinct);
    let x0 = x + printer::distinct_text(distinct);
    let d = shape::distinct_kinds(distinct);
    let texts = printer::result_column_texts(columns);
    let kinds = shape::columns_kinds(columns);
    phrases::reads_join(texts, kinds);
    let all = text::join(texts, ", "@);
    let c = shape::commas(kinds);
    lexing::reads_gap(x0, k + d, all, c);
    let x1 = x0 + printer::list_clause(" "@, texts);
    assert(x0 + " "@ + all =~= x1);
    let f = shape::from_kinds(from);
    lexing::reads_tight(x1, k + d + c, printer::from_text(from), f);
    let x2 = x1 + printer::from_text(from);
    let w = shape::optional_kinds(Keyword::WHERE, condition);
    lexing::reads_tight(x2, k + d + c + f, printer::expr_clause(" WHERE "@, condition), w);
    let x3 = x2 + printer::expr_clause(" WHERE "@, condition);
    assert(" GROUP BY "@ =~= " "@ + "GROUP"@ + " "@ + "BY"@ + " "@);
    let groups = printer::expr_texts(group_by);
    reads_two_words(
        Keyword::GROUP,
        Keyword::BY,
        " GROUP BY "@,
        groups,
        shape::exprs_kinds(group_by),
    );
    let g = shape::clause_kinds(
        shape::kw(Keyword::GROUP) + shape::kw(Keyword::BY),
        shape::exprs_kinds(group_by),
    );
    lexing::reads_tight(x3, k + d + c + f + w, printer::list_clause(" GROUP BY "@, groups), g);
    let x4 = x3 + printer::list_clause(" GROUP BY "@, groups);
    let h = shape::optional_kinds(Keyword::HAVING, having);
    lexing::reads_tight(
        x4,
        k + d + c + f + w + g,
        printer::expr_clause(" HAVING "@, having),
        h,
    );
    leaves::lemma_regroup7(k, d, c, f, w, g, h);
}

proof fn print_arm(a: CompoundSelectView)
    requires
        a.holds(),
    ensures
        lexing::reads(a.text(), a.kinds()),
        a.kinds().len() > 0,
    decreases a,
{
    reveal(Keyword::name);
    reveal_strlit("UNION ALL SELECT");
    reveal_strlit("UNION");
    reveal_strlit("ALL");
    reveal_strlit("SELECT");
    reveal_strlit(" WHERE ");
    reveal_strlit("WHERE");
    reveal_strlit(" HAVING ");
    reveal_strlit("HAVING");
    reveal_strlit(" ");
    shape::shape_of_compound_select(a);
    spelling::reads_keyword(Keyword::SELECT);
    spelling::reads_keyword(Keyword::ALL);
    spelling::reads_keyword(Keyword::UNION);
    let union = shape::kw(Keyword::UNION);
    let all = shape::kw(Keyword::ALL);
    lexing::reads_gap("UNION"@, union, "ALL"@, all);
    lexing::reads_gap("UNION"@ + " "@ + "ALL"@, union + all, "SELECT"@, shape::kw(Keyword::SELECT));
    assert("UNION"@ + " "@ + "ALL"@ + " "@ + "SELECT"@ =~= "UNION ALL SELECT"@);
    print_results(a.columns);
    print_from(a.from);
    assert(" WHERE "@ =~= " "@ + "WHERE"@ + " "@);
    assert(" HAVING "@ =~= " "@ + "HAVING"@ + " "@);
    print_optional(Keyword::WHERE, " WHERE "@, a.where_clause);
    print_list(a.group_by);
    print_optional(Keyword::HAVING, " HAVING "@, a.having);
    print_core(
        "UNION ALL SELECT"@,
        union + all + shape::kw(Keyword::SELECT),
        a.columns,
        a.distinct,
        a.from,
        a.where_clause,
        a.group_by,
        a.having,
    );
}

proof fn print_arms(v: Seq<CompoundSelectView>)
    requires
        shape::arms_hold(v),
    ensures
        ({
            let x = text::each_behind(" "@, printer::compound_texts(v));
            &&& lexing::reads(x, shape::each_after(seq![], shape::arms_kinds(v)))
            &&& x.len() > 0 ==> x[0] == ' '
        }),
    decreases v,
{
    reveal_strlit(" ");
    let texts = printer::compound_texts(v);
    let kinds = shape::arms_kinds(v);
    let nothing = Seq::<KindView>::empty();
    shape::lemma_arms_len(v);
    assert forall|i: int| 0 <= i < texts.len() implies lexing::reads(
        " "@ + #[trigger] texts[i],
        nothing + kinds[i],
    ) by {
        shape::lemma_arms_at(v, i);
        print_arm(v[i]);
        lexing::reads_space(texts[i], kinds[i]);
        leaves::lemma_nothing_before(kinds[i]);
    }
    phrases::reads_each(" "@, nothing, texts, kinds);
}

// ---- ORDER BY and LIMIT --------------------------------------------------------------------------

/// `ASC` or `DESC` behind a text.
pub proof fn reads_direction(x: Seq<char>, k: Seq<KindView>, desc: Option<bool>)
    requires
        lexing::reads(x, k),
    ensures
        lexing::reads(x + printer::direction_text(desc), k + shape::direction_kinds(desc)),
{
    reveal(Keyword::name);
    reveal_strlit(" ASC");
    reveal_strlit("ASC");
    reveal_strlit(" DESC");
    reveal_strlit("DESC");
    reveal_strlit(" ");
    reveal_strlit("");
    match desc {
        Some(false) => {
            assert(" ASC"@ =~= " "@ + "ASC"@);
            phrases::reads_trail(x, k, Keyword::ASC, " ASC"@);
        },
        Some(true) => {
            assert(" DESC"@ =~= " "@ + "DESC"@);
            phrases::reads_trail(x, k, Keyword::DESC, " DESC"@);
        },
        None => {
            assert(x + ""@ =~= x);
            leaves::lemma_nothing_more(k);
        },
    }
}

proof fn reads_nulls(x: Seq<char>, k: Seq<KindView>, nulls_last: Option<bool>)
    requires
        lexing::reads(x, k),
    ensures
        lexing::reads(x + printer::nulls_text(nulls_last), k + shape::nulls_kinds(nulls_last)),
{
    reveal(Keyword::name);
    reveal_strlit(" NULLS FIRST");
    reveal_strlit("NULLS");
    reveal_strlit("FIRST");
    reveal_strlit(" NULLS LAST");
    reveal_strlit("LAST");
    reveal_strlit(" ");
    reveal_strlit("");
    let nulls = shape::kw(Keyword::NULLS);
    phrases::reads_trail(x, k, Keyword::NULLS, " "@ + "NULLS"@);
    let y = x + (" "@ + "NULLS"@);
    match nulls_last {
        Some(false) => {
            phrases::reads_trail(y, k + nulls, Keyword::FIRST, " "@ + "FIRST"@);
            assert(y + (" "@ + "FIRST"@) =~= x + " NULLS FIRST"@);
            leaves::lemma_regroup3(k, nulls, shape::kw(Keyword::FIRST));
        },
        Some(true) => {
            phrases::reads_trail(y, k + nulls, Keyword::LAST, " "@ + "LAST"@);
            assert(y + (" "@ + "LAST"@) =~= x + " NULLS LAST"@);
            leaves::lemma_regroup3(k, nulls, shape::kw(Keyword::LAST));
        },
        None => {
            assert(x + ""@ =~= x);
            leaves::lemma_nothing_more(k);
        },
    }
}

proof fn print_term(x: OrderingTermView)
    requires
        x.holds(),
    ensures
        lexing::reads(x.text(), x.kinds()),
        x.kinds().len() > 0,
    decreases x,
{
    shape::shape_of_ordering_term(x);
    print(x.expr);
    reads_direction(x.expr.text(), x.expr.kinds(), x.desc);
    reads_nulls(
        x.expr.text() + printer::direction_text(x.desc),
        x.expr.kinds() + shape::direction_kinds(x.desc),
        x.nulls_last,
    );
}

proof fn print_terms(v: Seq<OrderingTermView>)
    requires
        shape::terms_hold(v),
    ensures
        phrases::all_read(printer::ordering_term_texts(v), shape::terms_kinds(v)),
    decreases v,
{
    let texts = printer::ordering_term_texts(v);
    let kinds = shape::terms_kinds(v);
    shape::lemma_terms_len(v);
    assert forall|i: int| 0 <= i < texts.len() implies lexing::reads(#[trigger] texts[i], kinds[i])
        && kinds[i].len() > 0 by {
        shape::lemma_terms_at(v, i);
        print_term(v[i]);
    }
}

proof fn print_limit(l: LimitView)
    requires
        l.holds(),
    ensures
        lexing::reads(l.text(), l.kinds()),
        l.text().len() > 0,
        l.text()[0] == ' ',
    decreases l,
{
    reveal(Keyword::name);
    reveal_strlit(" LIMIT ");
    reveal_strlit("LIMIT");
    reveal_strlit(" OFFSET ");
    reveal_strlit("OFFSET");
    reveal_strlit(" ");
    shape::shape_of_limit(l);
    print(l.limit);
    assert(" LIMIT "@ =~= " "@ + "LIMIT"@ + " "@);
    assert(" OFFSET "@ =~= " "@ + "OFFSET"@ + " "@);
    phrases::reads_clause(Keyword::LIMIT, " LIMIT "@, l.limit.text(), l.limit.kinds());
    print_optional(Keyword::OFFSET, " OFFSET "@, l.offset);
    lexing::reads_tight(
        " LIMIT "@ + l.limit.text(),
        shape::kw(Keyword::LIMIT) + l.limit.kinds(),
        printer::expr_clause(" OFFSET "@, l.offset),
        shape::optional_kinds(Keyword::OFFSET, l.offset),
    );
}

pub proof fn print_select(a: SelectView)
    requires
        a.holds(),
    ensures
        lexing::reads(a.text(), a.kinds()),
    decreases a,
{
    reveal(Keyword::name);
    reveal_strlit("SELECT");
    reveal_strlit(" WHERE ");
    reveal_strlit("WHERE");
    reveal_strlit(" HAVING ");
    reveal_strlit("HAVING");
    reveal_strlit(" ORDER BY ");
    reveal_strlit("ORDER");
    reveal_strlit("BY");
    reveal_strlit(" ");
    reveal_strlit("");
    shape::shape_of_select(a);
    spelling::reads_keyword(Keyword::SELECT);
    print_results(a.columns);
    print_from(a.from);
    assert(" WHERE "@ =~= " "@ + "WHERE"@ + " "@);
    assert(" HAVING "@ =~= " "@ + "HAVING"@ + " "@);
    print_optional(Keyword::WHERE, " WHERE "@, a.where_clause);
    print_list(a.group_by);
    print_optional(Keyword::HAVING, " HAVING "@, a.having);
    print_core(
        "SELECT"@,
        shape::kw(Keyword::SELECT),
        a.columns,
        a.distinct,
        a.from,
        a.where_clause,
        a.group_by,
        a.having,
    );
    print_arms(a.compound);
    print_terms(a.order_by);
    assert(" ORDER BY "@ =~= " "@ + "ORDER"@ + " "@ + "BY"@ + " "@);
    let terms = printer::ordering_term_texts(a.order_by);
    reads_two_words(
        Keyword::ORDER,
        Keyword::BY,
        " ORDER BY "@,
        terms,
        shape::terms_kinds(a.order_by),
    );
    if a.limit is Some {
        print_limit(a.limit->0);
    } else {
        lexing::reads_nothing();
    }
    let core = select_core_text(a);
    let k1 = shape::kw(Keyword::SELECT) + select_core_kinds(a);
    let arms = text::each_behind(" "@, printer::compound_texts(a.compound));
    let k2 = shape::each_after(seq![], shape::arms_kinds(a.compound));
    let by = shape::kw(Keyword::ORDER) + shape::kw(Keyword::BY);
    let k3 = shape::clause_kinds(by, shape::terms_kinds(a.order_by));
    let k4 = match a.limit {
        Some(l) => l.kinds(),
        None => seq![],
    };
    let last = match a.limit {
        Some(l) => l.text(),
        None => ""@,
    };
    lexing::reads_tight(core, k1, arms, k2);
    lexing::reads_tight(core + arms, k1 + k2, printer::list_clause(" ORDER BY "@, terms), k3);
    lexing::reads_tight(
        core + arms + printer::list_clause(" ORDER BY "@, terms),
        k1 + k2 + k3,
        last,
        k4,
    );
}

/// A `SELECT` up to `HAVING`.
pub open spec fn select_core_text(a: SelectView) -> Seq<char> {
    "SELECT"@ + printer::distinct_text(a.distinct) + printer::list_clause(
        " "@,
        printer::result_column_texts(a.columns),
    ) + printer::from_text(a.from) + printer::expr_clause(" WHERE "@, a.where_clause)
        + printer::list_clause(" GROUP BY "@, printer::expr_texts(a.group_by))
        + printer::expr_clause(" HAVING "@, a.having)
}

pub open spec fn select_core_kinds(a: SelectView) -> Seq<KindView> {
    shape::core_kinds(
        a.distinct,
        shape::columns_kinds(a.columns),
        shape::from_kinds(a.from),
        shape::optional_kinds(Keyword::WHERE, a.where_clause),
        shape::exprs_kinds(a.group_by),
        shape::optional_kinds(Keyword::HAVING, a.having),
    )
}

} // verus!
