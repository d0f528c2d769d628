//! What is printed of an expression or a `SELECT` is read as the tokens it stands for.
use crate::parser::ast::{
    BinaryOp, ExprKindView, ExprView, FunctionArgsView, LiteralView, SelectView, UnaryOp,
};
use crate::parser::printer;
use crate::parser::round_trip::leaves;
use crate::parser::round_trip::lexing;
use crate::parser::round_trip::literals;
use crate::parser::round_trip::phrases;
use crate::parser::round_trip::shape;
use crate::parser::round_trip::spelling;
use crate::parser::tokenizer::{Keyword, KindView};
use crate::text;
use vstd::prelude::*;

verus! {

/// Whether an expression can be printed and is then read as its tokens.
pub open spec fn prints(a: ExprView) -> bool {
    lexing::reads(a.text(), a.kinds()) && phrases::begins(a.text(), a.kinds())
}

pub proof fn print_column(a: ExprView, table: Option<Seq<char>>, catalog: Option<Seq<char>>,
    name: Seq<char>)
    requires
        a.kind == (ExprKindView::Column { table, catalog, name }),
    ensures
        prints(a),
{
    shape::shape_column(a, table, catalog, name);
    reveal_strlit("");
    reveal_strlit(".");
    phrases::reads_name(name);
    let x = printer::name_text(name);
    let k0 = shape::name_kinds(name);
    match table {
        None => {
            match catalog {
                None => {
                    assert(a.text() =~= x);
                    assert(a.kinds() =~= k0);
                },
                Some(c) => {
                    let z = printer::name_text(c);
                    phrases::lemma_name_begins(c);
                    phrases::reads_dotted(c, x, k0);
                    assert(a.text() =~= z + "."@ + x);
                    assert(a.kinds() =~= shape::name_kinds(c) + seq![KindView::Dot] + k0);
                    assert(a.text()[0] == z[0]);
                },
            }
        },
        Some(n) => {
            phrases::lemma_name_begins(n);
            phrases::reads_dotted(n, x, k0);
            let y = printer::name_text(n) + "."@ + x;
            let k1 = shape::name_kinds(n) + seq![KindView::Dot] + k0;
            assert(y[0] == printer::name_text(n)[0]);
            match catalog {
                None => {
                    assert(a.text() =~= y);
                    assert(a.kinds() =~= k1);
                },
                Some(c) => {
                    let z = printer::name_text(c);
                    phrases::lemma_name_begins(c);
                    phrases::reads_dotted(c, y, k1);
                    assert(a.text() =~= z + "."@ + y);
                    assert(a.kinds() =~= shape::name_kinds(c) + seq![KindView::Dot] + k1);
                    assert(a.text()[0] == z[0]);
                },
            }
        },
    }
}

pub proof fn print_function_call(a: ExprView, name: Seq<char>, distinct: bool,
    args: FunctionArgsView)
    requires
        a.kind == (ExprKindView::FunctionCall { name, distinct, args }),
        lexing::reads(args.text(), args.kinds()),
    ensures
        prints(a),
{
    shape::shape_function_call(a, name, distinct, args);
    reveal(Keyword::name);
    reveal_strlit("(");
    reveal_strlit(")");
    reveal_strlit("DISTINCT ");
    reveal_strlit("DISTINCT");
    reveal_strlit(" ");
    reveal_strlit("");

    literals::lemma_signs();
    let x = printer::call_text(name);
    phrases::alone_call(name);
    let open = shape::call_kinds(name) + seq![KindView::LParen];
    let close = seq![KindView::RParen];
    let y = args.text() + ")"@;
    lexing::reads_tight(args.text(), args.kinds(), ")"@, close);
    if distinct {
        assert("DISTINCT "@ =~= "DISTINCT"@ + " "@);
        phrases::reads_lead(Keyword::DISTINCT, "DISTINCT "@, y, args.kinds() + close);
        let z = "DISTINCT "@ + y;
        let k = shape::kw(Keyword::DISTINCT) + (args.kinds() + close);
        lexing::reads_alone(x + "("@, open, z, k);
        assert(a.text() =~= x + "("@ + z);
        leaves::lemma_regroup3(
            open + shape::kw(Keyword::DISTINCT),
            args.kinds(),
            close,
        );
        leaves::lemma_regroup3(open, shape::kw(Keyword::DISTINCT), args.kinds() + close);
    } else {
        lexing::reads_alone(x + "("@, open, y, args.kinds() + close);
        assert(a.text() =~= x + "("@ + y);
        leaves::lemma_nothing_more(open);
        leaves::lemma_regroup3(open, args.kinds(), close);
    }
    assert(a.text()[0] == x[0]);
    assert(a.kinds().len() > 0);
}

/// A literal that is one token, behind an operator.
pub proof fn print_signed(op: UnaryOp, l: LiteralView)
    requires
        lexing::reads(l.token_text(), seq![l.token()]),
        l.token_text().len() > 0,
        l.token_text()[0] != '-',
        l.token_text()[0] != '>',
    ensures
        lexing::reads(
            printer::unary_op_text(op) + l.token_text(),
            seq![shape::unary_kind(op)] + seq![l.token()],
        ),
{
    reveal(Keyword::name);
    reveal_strlit("NOT ");
    reveal_strlit("NOT");
    reveal_strlit(" ");
    reveal_strlit("+");
    reveal_strlit("-");
    reveal_strlit("~");
    literals::lemma_signs();
    let y = l.token_text();
    let k = seq![l.token()];
    match op {
        UnaryOp::Not => {
            assert("NOT "@ =~= "NOT"@ + " "@);
            phrases::reads_lead(Keyword::NOT, "NOT "@, y, k);
        },
        UnaryOp::Plus => {
            lexing::reads_alone("+"@, seq![KindView::Plus], y, k);
        },
        UnaryOp::Minus => {
            literals::reads_minus(y, k);
        },
        UnaryOp::BitNot => {
            lexing::reads_alone("~"@, seq![KindView::BitNot], y, k);
        },
    }
}

pub proof fn print_unary(a: ExprView, op: UnaryOp, expr: ExprView)
    requires
        a.kind == (ExprKindView::Unary { op, expr: Box::new(expr) }),
        prints(expr),
    ensures
        prints(a),
{
    shape::shape_unary(a, op, expr);
    reveal(Keyword::name);
    reveal_strlit("NOT ");
    reveal_strlit("NOT");
    reveal_strlit(" ");
    reveal_strlit("+");
    reveal_strlit("-");
    reveal_strlit("~");
    reveal_strlit("");

    literals::lemma_signs();
    let y = expr.text();
    let k = expr.kinds();
    assert(a.kinds()[0] == shape::unary_kind(op));
    match op {
        UnaryOp::Not => {
            assert("NOT "@ =~= "NOT"@ + " "@);
            phrases::reads_lead(Keyword::NOT, "NOT "@, y, k);
            assert("NOT "@ + printer::gap_text(op, y) + y =~= "NOT "@ + y);
            assert(a.text() =~= "NOT "@ + y);
            assert(a.text()[0] == 'N');
        },
        UnaryOp::Plus => {
            lexing::reads_alone("+"@, seq![KindView::Plus], y, k);
            assert("+"@ + printer::gap_text(op, y) + y =~= "+"@ + y);
            assert(a.text() =~= "+"@ + y);
            assert(a.text()[0] == '+');
        },
        UnaryOp::Minus => {
            let gap = printer::gap_text(op, y);
            if y[0] == '-' {
                literals::reads_operator(BinaryOp::Sub);
                lexing::reads_gap("-"@, seq![KindView::Minus], y, k);
            } else {
                literals::reads_minus(y, k);
                assert("-"@ + gap + y =~= "-"@ + y);
            }
            assert(a.text() == "-"@ + gap + y);
            assert(a.text()[0] == '-');
        },
        UnaryOp::BitNot => {
            lexing::reads_alone("~"@, seq![KindView::BitNot], y, k);
            assert("~"@ + printer::gap_text(op, y) + y =~= "~"@ + y);
            assert(a.text() =~= "~"@ + y);
            assert(a.text()[0] == '~');
        },
    }
}

pub proof fn print_binary(a: ExprView, op: BinaryOp, lhs: ExprView, rhs: ExprView)
    requires
        a.kind == (ExprKindView::Binary { op, lhs: Box::new(lhs), rhs: Box::new(rhs) }),
        prints(lhs),
        prints(rhs),
    ensures
        prints(a),
{
    shape::shape_binary(a, op, lhs, rhs);
    reveal_strlit(" ");

    literals::reads_operator(op);
    let w = printer::binary_op_text(op);
    let k = seq![shape::binary_kind(op)];
    lexing::reads_gap(lhs.text(), lhs.kinds(), w, k);
    lexing::reads_gap(lhs.text() + " "@ + w, lhs.kinds() + k, rhs.text(), rhs.kinds());
    assert(a.text() == lhs.text() + " "@ + w + " "@ + rhs.text());
    assert(a.text()[0] == lhs.text()[0]);
    assert(a.kinds()[0] == lhs.kinds()[0]);
}

pub proof fn print_is(a: ExprView, lhs: ExprView, rhs: ExprView, negated: bool)
    requires
        a.kind == (ExprKindView::Is { lhs: Box::new(lhs), rhs: Box::new(rhs), negated }),
        prints(lhs),
        prints(rhs),
    ensures
        prints(a),
{
    shape::shape_is(a, lhs, rhs, negated);
    reveal(Keyword::name);
    reveal_strlit(" IS ");
    reveal_strlit("IS");
    reveal_strlit(" ");

    phrases::reads_not(negated, rhs.text(), rhs.kinds());
    let flag = shape::flag_kinds(negated, Keyword::NOT);
    let y = printer::not_text(negated) + rhs.text();
    assert(" IS "@ =~= " "@ + "IS"@ + " "@);
    phrases::reads_infix(lhs.text(), lhs.kinds(), Keyword::IS, " IS "@, y, flag + rhs.kinds());
    assert(a.text() =~= lhs.text() + " IS "@ + y);
    leaves::lemma_regroup3(lhs.kinds() + shape::kw(Keyword::IS), flag, rhs.kinds());
    assert(a.text()[0] == lhs.text()[0]);
    assert(a.kinds()[0] == lhs.kinds()[0]);
}

pub proof fn print_is_null(a: ExprView, expr: ExprView, negated: bool)
    requires
        a.kind == (ExprKindView::IsNull { expr: Box::new(expr), negated }),
        prints(expr),
    ensures
        prints(a),
{
    shape::shape_is_null(a, expr, negated);
    reveal(Keyword::name);
    reveal_strlit(" NOTNULL");
    reveal_strlit("NOTNULL");
    reveal_strlit(" ISNULL");
    reveal_strlit("ISNULL");
    reveal_strlit(" ");

    if negated {
        assert(" NOTNULL"@ =~= " "@ + "NOTNULL"@);
        phrases::reads_trail(expr.text(), expr.kinds(), Keyword::NOTNULL, " NOTNULL"@);
    } else {
        assert(" ISNULL"@ =~= " "@ + "ISNULL"@);
        phrases::reads_trail(expr.text(), expr.kinds(), Keyword::ISNULL, " ISNULL"@);
    }
    assert(a.text()[0] == expr.text()[0]);
    assert(a.kinds()[0] == expr.kinds()[0]);
}

pub proof fn print_between(a: ExprView, expr: ExprView, lo: ExprView, hi: ExprView, negated: bool)
    requires
        a.kind == (ExprKindView::Between { expr: Box::new(expr), lo: Box::new(lo),
            hi: Box::new(hi), negated }),
        prints(expr),
        prints(lo),
        prints(hi),
    ensures
        prints(a),
{
    shape::shape_between(a, expr, lo, hi, negated);
    reveal(Keyword::name);
    reveal_strlit("BETWEEN ");
    reveal_strlit("BETWEEN");
    reveal_strlit(" AND ");
    reveal_strlit("AND");
    reveal_strlit(" ");

    let flag = shape::flag_kinds(negated, Keyword::NOT);
    assert(" AND "@ =~= " "@ + "AND"@ + " "@);
    assert("BETWEEN "@ =~= "BETWEEN"@ + " "@);
    phrases::reads_infix(lo.text(), lo.kinds(), Keyword::AND, " AND "@, hi.text(), hi.kinds());
    let range = lo.text() + " AND "@ + hi.text();
    let k1 = lo.kinds() + shape::kw(Keyword::AND) + hi.kinds();
    phrases::reads_lead(Keyword::BETWEEN, "BETWEEN "@, range, k1);
    let k2 = shape::kw(Keyword::BETWEEN) + k1;
    phrases::reads_not(negated, "BETWEEN "@ + range, k2);
    let y = printer::not_text(negated) + ("BETWEEN "@ + range);
    lexing::reads_gap(expr.text(), expr.kinds(), y, flag + k2);
    assert(a.text() =~= expr.text() + " "@ + y);
    assert(a.kinds() =~= expr.kinds() + (flag + k2));
    assert(a.text()[0] == expr.text()[0]);
    assert(a.kinds()[0] == expr.kinds()[0]);
}

pub proof fn print_in(a: ExprView, expr: ExprView, list: Seq<ExprView>, negated: bool)
    requires
        a.kind == (ExprKindView::In { expr: Box::new(expr), list, negated }),
        prints(expr),
        lexing::reads(
            text::join(printer::expr_texts(list), ", "@),
            shape::commas(shape::exprs_kinds(list)),
        ),
    ensures
        prints(a),
{
    shape::shape_in(a, expr, list, negated);
    let inner = text::join(printer::expr_texts(list), ", "@);
    let kinds = shape::commas(shape::exprs_kinds(list));
    reads_in(expr, negated, inner, kinds);
    assert(a.text() == expr.text() + " "@ + printer::not_text(negated) + "IN ("@ + inner + ")"@);
    assert(a.text()[0] == expr.text()[0]);
    assert(a.kinds()[0] == expr.kinds()[0]);
}

pub proof fn print_in_subquery(a: ExprView, expr: ExprView, subquery: SelectView, negated: bool)
    requires
        a.kind == (ExprKindView::InSubquery { expr: Box::new(expr), subquery: Box::new(subquery),
            negated }),
        prints(expr),
        lexing::reads(subquery.text(), subquery.kinds()),
    ensures
        prints(a),
{
    shape::shape_in_subquery(a, expr, subquery, negated);
    reads_in(expr, negated, subquery.text(), subquery.kinds());
    assert(a.text() == expr.text() + " "@ + printer::not_text(negated) + "IN ("@ + subquery.text()
        + ")"@);
    assert(a.text()[0] == expr.text()[0]);
    assert(a.kinds()[0] == expr.kinds()[0]);
}

/// `[ "NOT" ] "IN"` and what stands in its parentheses, behind an operand.
proof fn reads_in(expr: ExprView, negated: bool, inner: Seq<char>, kinds: Seq<KindView>)
    requires
        prints(expr),
        lexing::reads(inner, kinds),
    ensures
        lexing::reads(
            expr.text() + " "@ + printer::not_text(negated) + "IN ("@ + inner + ")"@,
            expr.kinds() + shape::flag_kinds(negated, Keyword::NOT) + shape::kw(Keyword::IN)
                + shape::in_parens(kinds),
        ),
        (expr.text() + " "@ + printer::not_text(negated) + "IN ("@ + inner + ")"@)[0]
            == expr.text()[0],
{
    reveal(Keyword::name);
    reveal_strlit("IN (");
    reveal_strlit("IN");
    reveal_strlit(" (");
    let flag = shape::flag_kinds(negated, Keyword::NOT);
    assert("IN ("@ =~= "IN"@ + " ("@);
    phrases::reads_word_parens(Keyword::IN, "IN ("@, inner, kinds);
    let y = "IN ("@ + inner + ")"@;
    let k = shape::kw(Keyword::IN) + shape::in_parens(kinds);
    phrases::reads_not(negated, y, k);
    let z = printer::not_text(negated) + y;
    lexing::reads_gap(expr.text(), expr.kinds(), z, flag + k);
    assert(expr.text() + " "@ + z =~= expr.text() + " "@ + printer::not_text(negated) + "IN ("@
        + inner + ")"@);
    leaves::lemma_regroup(
        expr.kinds(),
        flag,
        shape::kw(Keyword::IN),
        shape::in_parens(kinds),
    );
    leaves::lemma_regroup3(flag, shape::kw(Keyword::IN), shape::in_parens(kinds));
}

#[verifier::rlimit(60)]
pub proof fn print_like(a: ExprView, expr: ExprView, pattern: ExprView, glob: bool, negated: bool,
    escape: Option<Box<ExprView>>)
    requires
        a.kind == (ExprKindView::Like { expr: Box::new(expr), pattern: Box::new(pattern), glob,
            negated, escape }),
        prints(expr),
        prints(pattern),
        escape is Some ==> prints(*escape->0),
    ensures
        prints(a),
{
    shape::shape_like(a, expr, pattern, glob, negated, escape);
    reveal(Keyword::name);
    reveal_strlit("GLOB ");
    reveal_strlit("GLOB");
    reveal_strlit("LIKE ");
    reveal_strlit("LIKE");
    reveal_strlit(" ESCAPE ");
    reveal_strlit("ESCAPE");
    reveal_strlit(" ");
    reveal_strlit("");

    let flag = shape::flag_kinds(negated, Keyword::NOT);
    let word = if glob {
        Keyword::GLOB
    } else {
        Keyword::LIKE
    };
    let mark = if glob {
        "GLOB "@
    } else {
        "LIKE "@
    };
    assert(mark =~= word.name() + " "@);
    let k0 = match escape {
        Some(e) => shape::kw(Keyword::ESCAPE) + e.kinds(),
        None => seq![],
    };
    let x0 = match escape {
        Some(e) => " ESCAPE "@ + e.text(),
        None => ""@,
    };
    match escape {
        Some(e) => {
            assert(" ESCAPE "@ =~= " "@ + "ESCAPE"@ + " "@);
            phrases::reads_clause(Keyword::ESCAPE, " ESCAPE "@, e.text(), e.kinds());
            assert(x0[0] == ' ');
        },
        None => {
            lexing::reads_nothing();
        },
    }
    lexing::reads_tight(pattern.text(), pattern.kinds(), x0, k0);
    let y = pattern.text() + x0;
    let k1 = pattern.kinds() + k0;
    phrases::reads_lead(word, mark, y, k1);
    phrases::reads_not(negated, mark + y, shape::kw(word) + k1);
    let z = printer::not_text(negated) + (mark + y);
    lexing::reads_gap(expr.text(), expr.kinds(), z, flag + (shape::kw(word) + k1));
    assert(a.text() =~= expr.text() + " "@ + z);
    assert(a.kinds() =~= expr.kinds() + (flag + (shape::kw(word) + k1)));
    assert(a.text()[0] == expr.text()[0]);
    assert(a.kinds()[0] == expr.kinds()[0]);
}

pub proof fn print_case(a: ExprView, operand: Option<Box<ExprView>>, whens: Seq<(ExprView,
    ExprView)>, else_: Option<Box<ExprView>>)
    requires
        a.kind == (ExprKindView::Case { operand, whens, else_ }),
        operand is Some ==> prints(*operand->0),
        else_ is Some ==> prints(*else_->0),
        ({
            let x = text::each_behind(" WHEN "@, printer::when_texts(whens));
            &&& lexing::reads(
                x,
                shape::each_after(shape::kw(Keyword::WHEN), shape::whens_kinds(whens)),
            )
            &&& x.len() > 0 ==> x[0] == ' '
        }),
    ensures
        prints(a),
{
    shape::shape_case(a, operand, whens, else_);
    reveal(Keyword::name);
    reveal_strlit("CASE");
    reveal_strlit(" ELSE ");
    reveal_strlit("ELSE");
    reveal_strlit(" END");
    reveal_strlit("END");
    reveal_strlit(" ");
    reveal_strlit("");

    let x1 = match operand {
        Some(e) => " "@ + e.text(),
        None => ""@,
    };
    let k1 = match operand {
        Some(e) => e.kinds(),
        None => seq![],
    };
    let x2 = text::each_behind(" WHEN "@, printer::when_texts(whens));
    let k2 = shape::each_after(shape::kw(Keyword::WHEN), shape::whens_kinds(whens));
    let x3 = match else_ {
        Some(e) => " ELSE "@ + e.text(),
        None => ""@,
    };
    let k3 = match else_ {
        Some(e) => shape::kw(Keyword::ELSE) + e.kinds(),
        None => seq![],
    };
    lexing::reads_nothing();
    match operand {
        Some(e) => {
            lexing::reads_space(e.text(), e.kinds());
            assert(x1[0] == ' ');
        },
        None => {},
    }
    match else_ {
        Some(e) => {
            assert(" ELSE "@ =~= " "@ + "ELSE"@ + " "@);
            phrases::reads_clause(Keyword::ELSE, " ELSE "@, e.text(), e.kinds());
            assert(x3[0] == ' ');
        },
        None => {},
    }
    spelling::reads_keyword(Keyword::CASE);
    let k0 = shape::kw(Keyword::CASE);
    lexing::reads_tight("CASE"@, k0, x1, k1);
    lexing::reads_tight("CASE"@ + x1, k0 + k1, x2, k2);
    lexing::reads_tight("CASE"@ + x1 + x2, k0 + k1 + k2, x3, k3);
    assert(" END"@ =~= " "@ + "END"@);
    phrases::reads_trail("CASE"@ + x1 + x2 + x3, k0 + k1 + k2 + k3, Keyword::END, " END"@);
    assert(a.text() == "CASE"@ + x1 + x2 + x3 + " END"@);
    assert(a.text()[0] == 'C');
    assert(a.kinds().len() > 0);
}

pub proof fn print_cast(a: ExprView, expr: ExprView, declared_type: Seq<char>)
    requires
        a.kind == (ExprKindView::Cast { expr: Box::new(expr), declared_type }),
        prints(expr),
    ensures
        prints(a),
{
    shape::shape_cast(a, expr, declared_type);
    reveal(Keyword::name);
    reveal_strlit("CAST(");
    reveal_strlit("CAST");
    reveal_strlit(" AS ");
    reveal_strlit("AS");
    reveal_strlit(" ");
    reveal_strlit("(");
    reveal_strlit(")");

    literals::lemma_signs();
    phrases::reads_type(declared_type);
    let words = printer::type_text(declared_type);
    let kt = shape::type_kinds(declared_type);
    assert(" AS "@ =~= " "@ + "AS"@ + " "@);
    phrases::reads_infix(expr.text(), expr.kinds(), Keyword::AS, " AS "@, words, kt);
    let y = expr.text() + " AS "@ + words;
    let k = expr.kinds() + shape::kw(Keyword::AS) + kt;
    let close = seq![KindView::RParen];
    lexing::reads_tight(y, k, ")"@, close);
    spelling::lemma_spelled(Keyword::CAST);
    phrases::alone_word_call("CAST"@);
    let open = shape::kw(Keyword::CAST) + seq![KindView::LParen];
    lexing::reads_alone("CAST"@ + "("@, open, y + ")"@, k + close);
    assert("CAST"@ + "("@ =~= "CAST("@);
    assert(a.text() =~= "CAST("@ + (y + ")"@));
    leaves::lemma_regroup5(open, expr.kinds(), shape::kw(Keyword::AS), kt, close);
    assert(a.text()[0] == 'C');
    assert(a.kinds().len() > 0);
}

pub proof fn print_collate(a: ExprView, expr: ExprView, collation: Seq<char>)
    requires
        a.kind == (ExprKindView::Collate { expr: Box::new(expr), collation }),
        prints(expr),
    ensures
        prints(a),
{
    shape::shape_collate(a, expr, collation);
    reveal(Keyword::name);
    reveal_strlit(" COLLATE ");
    reveal_strlit("COLLATE");
    reveal_strlit(" ");

    phrases::reads_name(collation);
    assert(" COLLATE "@ =~= " "@ + "COLLATE"@ + " "@);
    phrases::reads_infix(
        expr.text(),
        expr.kinds(),
        Keyword::COLLATE,
        " COLLATE "@,
        printer::name_text(collation),
        shape::name_kinds(collation),
    );
    assert(a.text()[0] == expr.text()[0]);
    assert(a.kinds()[0] == expr.kinds()[0]);
}

pub proof fn print_exists(a: ExprView, subquery: SelectView, negated: bool)
    requires
        a.kind == (ExprKindView::Exists { subquery: Box::new(subquery), negated }),
        lexing::reads(subquery.text(), subquery.kinds()),
    ensures
        prints(a),
{
    shape::shape_exists(a, subquery, negated);
    reveal(Keyword::name);
    reveal_strlit("EXISTS (");
    reveal_strlit("EXISTS");
    reveal_strlit(" (");
    reveal_strlit("NOT ");
    reveal_strlit("");

    assert("EXISTS ("@ =~= "EXISTS"@ + " ("@);
    phrases::reads_word_parens(
        Keyword::EXISTS,
        "EXISTS ("@,
        subquery.text(),
        subquery.kinds(),
    );
    let y = "EXISTS ("@ + subquery.text() + ")"@;
    let k = shape::kw(Keyword::EXISTS) + shape::in_parens(subquery.kinds());
    phrases::reads_not(negated, y, k);
    let flag = shape::flag_kinds(negated, Keyword::NOT);
    assert(a.text() =~= printer::not_text(negated) + y);
    leaves::lemma_regroup3(
        flag,
        shape::kw(Keyword::EXISTS),
        shape::in_parens(subquery.kinds()),
    );
    assert(a.text()[0] == 'N' || a.text()[0] == 'E');
    assert(a.kinds().len() > 0);
}

/// A text in parentheses as an expression.
pub proof fn print_parens(a: ExprView, x: Seq<char>, k: Seq<KindView>)
    requires
        lexing::reads(x, k),
        a.text() == "("@ + x + ")"@,
        a.kinds() == shape::in_parens(k),
    ensures
        prints(a),
{
    reveal_strlit("(");
    phrases::reads_parens(x, k);
    assert(a.text()[0] == '(');
    assert(a.kinds()[0] == KindView::LParen);
}

/// `IN` with several operands.
#[verifier::rlimit(60)]
pub proof fn print_multi(a: ExprView, exprs: Seq<ExprView>, subquery: SelectView, negated: bool)
    requires
        a.kind == (ExprKindView::InSubqueryMulti { exprs, subquery: Box::new(subquery), negated }),
        lexing::reads(
            text::join(printer::expr_texts(exprs), ", "@),
            shape::commas(shape::exprs_kinds(exprs)),
        ),
        lexing::reads(subquery.text(), subquery.kinds()),
    ensures
        prints(a),
{
    reveal(Keyword::name);
    shape::shape_in_subquery_multi(a, exprs, subquery, negated);
    reveal_strlit("(");
    reveal_strlit(") ");
    reveal_strlit(")");
    reveal_strlit(" ");
    reveal_strlit("IN (");
    reveal_strlit("IN");
    reveal_strlit(" (");
    let inner = text::join(printer::expr_texts(exprs), ", "@);
    let kinds = shape::commas(shape::exprs_kinds(exprs));
    phrases::reads_parens(inner, kinds);
    assert("IN ("@ =~= "IN"@ + " ("@);
    phrases::reads_word_parens(Keyword::IN, "IN ("@, subquery.text(), subquery.kinds());
    let y = "IN ("@ + subquery.text() + ")"@;
    let k = shape::kw(Keyword::IN) + shape::in_parens(subquery.kinds());
    phrases::reads_not(negated, y, k);
    let flag = shape::flag_kinds(negated, Keyword::NOT);
    let z = printer::not_text(negated) + y;
    lexing::reads_gap("("@ + inner + ")"@, shape::in_parens(kinds), z, flag + k);
    assert("("@ + inner + ")"@ + " "@ + z =~= a.text());
    leaves::lemma_regroup(
        shape::in_parens(kinds),
        flag,
        shape::kw(Keyword::IN),
        shape::in_parens(subquery.kinds()),
    );
    leaves::lemma_regroup3(flag, shape::kw(Keyword::IN), shape::in_parens(subquery.kinds()));
    assert(a.text()[0] == '(');
    assert(a.kinds()[0] == KindView::LParen);
}

} // verus!
