//! What of a syntax tree its printed form keeps: the tree without its places in the
//! source, the kinds of the tokens it is printed as, and what holds of the literals and
//! lists of every tree that was read.
use crate::parser::ast::{
    BinaryOp, ColumnConstraintView, ColumnDefView, CompoundSelectView, ConflictAction,
    CreateIndexView, CreateTableView, DefaultValueView, DeleteView, Distinctness,
    DropIndexView, DropTableView, ExprKindView, ExprView, FromClauseView, FunctionArgsView,
    IndexedColumnView, InsertSourceView, InsertView, JoinConstraintView, JoinOp, JoinView,
    LimitView, LiteralView, OrderingTermView, ParamKindView, ResultColumnView, SelectView,
    TableConstraintView, TableRefKindView, TableRefView, TransactionMode, UnaryOp,
};
use crate::decimal;
use crate::double::TWO_POW_63;
use crate::parser::printer;
use crate::parser::rules::CoreView;
use crate::parser::tokenizer;
use crate::parser::tokenizer::{Class, Keyword, KindView, ParamView, Span};
use crate::text;
use vstd::prelude::*;

verus! {

pub open spec fn nowhere() -> Span {
    Span { line: 0, column: 0, offset: 0, len: 0 }
}

pub open spec fn kw(k: Keyword) -> Seq<KindView> {
    seq![KindView::Keyword(k)]
}

pub open spec fn name_kinds(name: Seq<char>) -> Seq<KindView> {
    seq![KindView::Identifier(name)]
}

/// The name of a function that is called.
pub open spec fn call_kinds(name: Seq<char>) -> Seq<KindView> {
    if printer::is_call_word(name) {
        kw(tokenizer::keyword_of(name)->0)
    } else {
        name_kinds(name)
    }
}

// ---- leaves ------------------------------------------------------------------

/// Whether `s` is read as the floating-point literal `k` where nothing follows it.
pub open spec fn is_float_text(s: Seq<char>, k: KindView) -> bool {
    s.len() > 0 && text::is_digit(s[0]) && k is Float && tokenizer::number_at(s, 0) == (
        k,
        s.len() as int,
    )
}

/// Whether a bit pattern is that of a double that a literal can stand for.
pub open spec fn is_float(bits: u64) -> bool {
    bits <= decimal::INFINITE
}

/// A type: its words with single spaces, and its sizes in parentheses.
pub open spec fn type_text(words: Seq<Seq<char>>, sizes: Seq<i64>) -> Seq<char> {
    text::join(words, " "@) + sizes_text(sizes)
}

pub open spec fn sizes_text(sizes: Seq<i64>) -> Seq<char> {
    if sizes.len() == 0 {
        seq![]
    } else if sizes.len() == 1 {
        "("@ + text::signed_decimal(sizes[0] as int) + ")"@
    } else {
        "("@ + text::signed_decimal(sizes[0] as int) + ", "@ + text::signed_decimal(
            sizes[1] as int,
        ) + ")"@
    }
}

pub open spec fn words_kinds(words: Seq<Seq<char>>) -> Seq<KindView> {
    words.map_values(|w: Seq<char>| KindView::Identifier(w))
}

pub open spec fn sizes_kinds(sizes: Seq<i64>) -> Seq<KindView> {
    if sizes.len() == 0 {
        seq![]
    } else if sizes.len() == 1 {
        seq![KindView::LParen, KindView::Integer(sizes[0]), KindView::RParen]
    } else {
        seq![
            KindView::LParen,
            KindView::Integer(sizes[0]),
            KindView::Comma,
            KindView::Integer(sizes[1]),
            KindView::RParen,
        ]
    }
}

pub open spec fn all_plain(names: Seq<Seq<char>>) -> bool {
    forall|i: int| 0 <= i < names.len() ==> tokenizer::is_plain(#[trigger] names[i])
}

/// Whether `s` is the type of these words and sizes, the words plain names.
pub open spec fn is_type_of(words: Seq<Seq<char>>, sizes: Seq<i64>, s: Seq<char>) -> bool {
    &&& words.len() > 0
    &&& all_plain(words)
    &&& sizes.len() <= 2
    &&& forall|i: int| 0 <= i < sizes.len() ==> #[trigger] sizes[i] >= 0
    &&& s == type_text(words, sizes)
}

pub open spec fn is_type(s: Seq<char>) -> bool {
    exists|words: Seq<Seq<char>>, sizes: Seq<i64>| is_type_of(words, sizes, s)
}

pub open spec fn type_parts(s: Seq<char>) -> (Seq<Seq<char>>, Seq<i64>) {
    choose|parts: (Seq<Seq<char>>, Seq<i64>)| is_type_of(parts.0, parts.1, s)
}

/// What a type is printed as: its words and sizes, or one name in quotes.
pub open spec fn type_kinds(s: Seq<char>) -> Seq<KindView> {
    if printer::is_plain_type(s) {
        words_kinds(type_parts(s).0) + sizes_kinds(type_parts(s).1)
    } else {
        name_kinds(s)
    }
}

pub proof fn lemma_type_parts(s: Seq<char>)
    requires
        is_type(s),
    ensures
        is_type_of(type_parts(s).0, type_parts(s).1, s),
{
    let (words, sizes) = choose|words: Seq<Seq<char>>, sizes: Seq<i64>|
        is_type_of(words, sizes, s);
    let parts = (words, sizes);
    assert(is_type_of(parts.0, parts.1, s));
}

// ---- lists -------------------------------------------------------------------

/// The parts with commas between.
#[verifier::opaque]
pub open spec fn commas(parts: Seq<Seq<KindView>>) -> Seq<KindView>
    decreases parts.len(),
{
    if parts.len() == 0 {
        seq![]
    } else if parts.len() == 1 {
        parts[0]
    } else {
        commas(parts.drop_last()) + seq![KindView::Comma] + parts.last()
    }
}

/// Each part behind `lead`.
#[verifier::opaque]
pub open spec fn each_after(lead: Seq<KindView>, parts: Seq<Seq<KindView>>) -> Seq<KindView>
    decreases parts.len(),
{
    if parts.len() == 0 {
        seq![]
    } else {
        each_after(lead, parts.drop_last()) + lead + parts.last()
    }
}

/// The parts behind `head`, with commas between; nothing where there are none.
pub open spec fn clause_kinds(head: Seq<KindView>, parts: Seq<Seq<KindView>>) -> Seq<KindView> {
    if parts.len() == 0 {
        seq![]
    } else {
        head + commas(parts)
    }
}

pub open spec fn names_list(names: Seq<Seq<char>>) -> Seq<Seq<KindView>> {
    names.map_values(|n: Seq<char>| name_kinds(n))
}

pub open spec fn distinct_kinds(d: Option<Distinctness>) -> Seq<KindView> {
    match d {
        Some(Distinctness::Distinct) => kw(Keyword::DISTINCT),
        Some(Distinctness::All) => kw(Keyword::ALL),
        None => seq![],
    }
}

pub open spec fn direction_kinds(desc: Option<bool>) -> Seq<KindView> {
    match desc {
        Some(false) => kw(Keyword::ASC),
        Some(true) => kw(Keyword::DESC),
        None => seq![],
    }
}

pub open spec fn nulls_kinds(nulls_last: Option<bool>) -> Seq<KindView> {
    match nulls_last {
        Some(false) => kw(Keyword::NULLS) + kw(Keyword::FIRST),
        Some(true) => kw(Keyword::NULLS) + kw(Keyword::LAST),
        None => seq![],
    }
}

/// The keyword where `flag` holds.
pub open spec fn flag_kinds(flag: bool, k: Keyword) -> Seq<KindView> {
    if flag {
        kw(k)
    } else {
        seq![]
    }
}

pub open spec fn alias_kinds(alias: Option<Seq<char>>) -> Seq<KindView> {
    match alias {
        Some(name) => kw(Keyword::AS) + name_kinds(name),
        None => seq![],
    }
}

pub open spec fn qualifier_kinds(name: Option<Seq<char>>) -> Seq<KindView> {
    match name {
        Some(n) => name_kinds(n) + seq![KindView::Dot],
        None => seq![],
    }
}

pub open spec fn join_op_kinds(op: JoinOp) -> Seq<KindView> {
    match op {
        JoinOp::Inner => kw(Keyword::JOIN),
        JoinOp::Left => kw(Keyword::LEFT) + kw(Keyword::JOIN),
        JoinOp::Cross => kw(Keyword::CROSS) + kw(Keyword::JOIN),
        JoinOp::Right => kw(Keyword::RIGHT) + kw(Keyword::JOIN),
        JoinOp::Full => kw(Keyword::FULL) + kw(Keyword::JOIN),
    }
}

pub open spec fn unary_kind(op: UnaryOp) -> KindView {
    match op {
        UnaryOp::Not => KindView::Keyword(Keyword::NOT),
        UnaryOp::Plus => KindView::Plus,
        UnaryOp::Minus => KindView::Minus,
        UnaryOp::BitNot => KindView::BitNot,
    }
}

pub open spec fn binary_kind(op: BinaryOp) -> KindView {
    match op {
        BinaryOp::Or => KindView::Keyword(Keyword::OR),
        BinaryOp::And => KindView::Keyword(Keyword::AND),
        BinaryOp::Eq => KindView::Eq,
        BinaryOp::Ne => KindView::Ne,
        BinaryOp::Lt => KindView::Lt,
        BinaryOp::Le => KindView::Le,
        BinaryOp::Gt => KindView::Gt,
        BinaryOp::Ge => KindView::Ge,
        BinaryOp::BitAnd => KindView::BitAnd,
        BinaryOp::BitOr => KindView::BitOr,
        BinaryOp::Shl => KindView::Shl,
        BinaryOp::Shr => KindView::Shr,
        BinaryOp::Add => KindView::Plus,
        BinaryOp::Sub => KindView::Minus,
        BinaryOp::Mul => KindView::Star,
        BinaryOp::Div => KindView::Slash,
        BinaryOp::Mod => KindView::Percent,
        BinaryOp::Concat => KindView::Concat,
    }
}

pub open spec fn in_parens(inner: Seq<KindView>) -> Seq<KindView> {
    seq![KindView::LParen] + inner + seq![KindView::RParen]
}

/// The smallest integer, as it is printed: two to the power of 63, with a minus sign.
pub open spec fn smallest_kinds() -> Seq<KindView> {
    seq![KindView::Minus] + seq![KindView::Float(TWO_POW_63)]
}

/// A default that is a literal, or one with a sign.
pub open spec fn default_kinds(e: ExprView) -> Seq<KindView> {
    match e.kind {
        ExprKindView::Literal(l) => seq![l.token()],
        ExprKindView::Unary { op, expr } => match expr.kind {
            ExprKindView::Literal(l) => seq![unary_kind(op)] + seq![l.token()],
            _ => e.kinds(),
        },
        _ => e.kinds(),
    }
}

impl LiteralView {
    pub open spec fn kinds(self) -> Seq<KindView> {
        if self == LiteralView::Integer(i64::MIN) {
            smallest_kinds()
        } else {
            seq![self.token()]
        }
    }

    /// The token that the literal is.
    pub open spec fn token(self) -> KindView {
        match self {
            LiteralView::Integer(v) => KindView::Integer(v),
            LiteralView::Float(v) => KindView::Float(v),
            LiteralView::Str(s) => KindView::Str(s),
            LiteralView::Blob(bytes) => KindView::Blob(bytes),
            LiteralView::Null => KindView::Null,
            LiteralView::True => KindView::True,
            LiteralView::False => KindView::False,
        }
    }

    /// Whether the literal is one that a token stands for.
    pub open spec fn is_spelled(self) -> bool {
        match self {
            LiteralView::Float(v) => is_float(v),
            _ => true,
        }
    }
}

pub open spec fn param_token(p: ParamKindView) -> ParamView {
    match p {
        ParamKindView::Anonymous => ParamView::Anonymous,
        ParamKindView::Numbered(n) => ParamView::Numbered(n),
        ParamKindView::Colon(s) => ParamView::Colon(s),
        ParamKindView::At(s) => ParamView::At(s),
        ParamKindView::Dollar(s) => ParamView::Dollar(s),
    }
}

/// Whether the parameter is one that a token stands for.
pub open spec fn is_param(p: ParamView) -> bool {
    match p {
        ParamView::Colon(s) => s.len() > 0 && tokenizer::is_run(s, Class::Word),
        ParamView::At(s) => s.len() > 0 && tokenizer::is_run(s, Class::Word),
        ParamView::Dollar(s) => s.len() > 0 && tokenizer::is_run(s, Class::Word),
        _ => true,
    }
}

/// What a `SELECT` has in common with an arm of a compound one, behind its keyword.
pub open spec fn core_kinds(
    distinct: Option<Distinctness>,
    columns: Seq<Seq<KindView>>,
    from: Seq<KindView>,
    condition: Seq<KindView>,
    group_by: Seq<Seq<KindView>>,
    having: Seq<KindView>,
) -> Seq<KindView> {
    distinct_kinds(distinct) + commas(columns) + from + condition + clause_kinds(
        kw(Keyword::GROUP) + kw(Keyword::BY),
        group_by,
    ) + having
}

#[verifier::opaque]
pub open spec fn bare_exprs(v: Seq<ExprView>) -> Seq<ExprView>
    decreases v,
{
    Seq::new(
        v.len(),
        |i: int|
            if 0 <= i < v.len() {
                v[i].bare()
            } else {
                arbitrary()
            },
    )
}

#[verifier::opaque]
pub open spec fn exprs_kinds(v: Seq<ExprView>) -> Seq<Seq<KindView>>
    decreases v,
{
    Seq::new(
        v.len(),
        |i: int|
            if 0 <= i < v.len() {
                v[i].kinds()
            } else {
                arbitrary()
            },
    )
}

#[verifier::opaque]
pub open spec fn exprs_hold(v: Seq<ExprView>) -> bool
    decreases v,
{
    forall|i: int| 0 <= i < v.len() ==> (#[trigger] v[i]).holds()
}

pub proof fn lemma_exprs_push(v: Seq<ExprView>, x: ExprView)
    ensures
        bare_exprs(v.push(x)) == bare_exprs(v).push(x.bare()),
        exprs_kinds(v.push(x)) == exprs_kinds(v).push(x.kinds()),
        exprs_hold(v.push(x)) == (exprs_hold(v) && (x).holds()),
{
    reveal(bare_exprs);
    reveal(exprs_kinds);
    reveal(exprs_hold);
    reveal(ExprView::bare);
    reveal(ExprView::kinds);
    reveal(ExprView::holds);
    assert(bare_exprs(v.push(x)) =~= bare_exprs(v).push(x.bare()));
    assert(exprs_kinds(v.push(x)) =~= exprs_kinds(v).push(x.kinds()));
    if exprs_hold(v.push(x)) {
        assert(v.push(x)[v.len() as int] == x);
        assert forall|i: int| 0 <= i < v.len() implies (#[trigger] v[i]).holds() by {
            assert(v.push(x)[i] == v[i]);
        }
    }
}

pub proof fn lemma_exprs_empty()
    ensures
        bare_exprs(seq![]) == Seq::<ExprView>::empty(),
        exprs_kinds(seq![]) == Seq::<Seq<KindView>>::empty(),
        exprs_hold(seq![]),
{
    reveal(bare_exprs);
    reveal(exprs_kinds);
    reveal(exprs_hold);
    assert(bare_exprs(seq![]) =~= Seq::<ExprView>::empty());
    assert(exprs_kinds(seq![]) =~= Seq::<Seq<KindView>>::empty());
}

pub proof fn lemma_exprs_at(v: Seq<ExprView>, i: int)
    requires
        0 <= i < v.len(),
    ensures
        exprs_kinds(v)[i] == v[i].kinds(),
        exprs_hold(v) ==> (v[i]).holds(),
{
    reveal(exprs_kinds);
    reveal(exprs_hold);
    reveal(ExprView::bare);
    reveal(ExprView::kinds);
    reveal(ExprView::holds);
}

pub proof fn lemma_exprs_len(v: Seq<ExprView>)
    ensures
        bare_exprs(v).len() == v.len(),
        exprs_kinds(v).len() == v.len(),
{
    reveal(bare_exprs);
    reveal(exprs_kinds);
}

#[verifier::opaque]
pub open spec fn bare_whens(v: Seq<(ExprView, ExprView)>) -> Seq<(ExprView, ExprView)>
    decreases v,
{
    Seq::new(
        v.len(),
        |i: int|
            if 0 <= i < v.len() {
                (v[i].0.bare(), v[i].1.bare())
            } else {
                arbitrary()
            },
    )
}

#[verifier::opaque]
pub open spec fn whens_kinds(v: Seq<(ExprView, ExprView)>) -> Seq<Seq<KindView>>
    decreases v,
{
    Seq::new(
        v.len(),
        |i: int|
            if 0 <= i < v.len() {
                v[i].0.kinds() + kw(Keyword::THEN) + v[i].1.kinds()
            } else {
                arbitrary()
            },
    )
}

#[verifier::opaque]
pub open spec fn whens_hold(v: Seq<(ExprView, ExprView)>) -> bool
    decreases v,
{
    forall|i: int| 0 <= i < v.len() ==> (#[trigger] v[i]).0.holds() && v[i].1.holds()
}

pub proof fn lemma_whens_push(v: Seq<(ExprView, ExprView)>, x: (ExprView, ExprView))
    ensures
        bare_whens(v.push(x)) == bare_whens(v).push((x.0.bare(), x.1.bare())),
        whens_kinds(v.push(x)) == whens_kinds(v).push(x.0.kinds() + kw(Keyword::THEN)
            + x.1.kinds()),
        whens_hold(v.push(x)) == (whens_hold(v) && (x).0.holds() && x.1.holds()),
{
    reveal(bare_whens);
    reveal(whens_kinds);
    reveal(whens_hold);
    reveal(ExprView::bare);
    reveal(ExprView::kinds);
    reveal(ExprView::holds);
    assert(bare_whens(v.push(x)) =~= bare_whens(v).push((x.0.bare(), x.1.bare())));
    assert(whens_kinds(v.push(x)) =~= whens_kinds(v).push(x.0.kinds() + kw(Keyword::THEN)
        + x.1.kinds()));
    if whens_hold(v.push(x)) {
        assert(v.push(x)[v.len() as int] == x);
        assert forall|i: int| 0 <= i < v.len() implies (#[trigger] v[i]).0.holds()
            && v[i].1.holds() by {
            assert(v.push(x)[i] == v[i]);
        }
    }
}

pub proof fn lemma_whens_empty()
    ensures
        bare_whens(seq![]) == Seq::<(ExprView, ExprView)>::empty(),
        whens_kinds(seq![]) == Seq::<Seq<KindView>>::empty(),
        whens_hold(seq![]),
{
    reveal(bare_whens);
    reveal(whens_kinds);
    reveal(whens_hold);
    assert(bare_whens(seq![]) =~= Seq::<(ExprView, ExprView)>::empty());
    assert(whens_kinds(seq![]) =~= Seq::<Seq<KindView>>::empty());
}

pub proof fn lemma_whens_at(v: Seq<(ExprView, ExprView)>, i: int)
    requires
        0 <= i < v.len(),
    ensures
        whens_kinds(v)[i] == v[i].0.kinds() + kw(Keyword::THEN) + v[i].1.kinds(),
        whens_hold(v) ==> (v[i]).0.holds() && v[i].1.holds(),
{
    reveal(whens_kinds);
    reveal(whens_hold);
    reveal(ExprView::bare);
    reveal(ExprView::kinds);
    reveal(ExprView::holds);
}

pub proof fn lemma_whens_len(v: Seq<(ExprView, ExprView)>)
    ensures
        bare_whens(v).len() == v.len(),
        whens_kinds(v).len() == v.len(),
{
    reveal(bare_whens);
    reveal(whens_kinds);
}

#[verifier::opaque]
pub open spec fn bare_columns(v: Seq<ResultColumnView>) -> Seq<ResultColumnView>
    decreases v,
{
    Seq::new(
        v.len(),
        |i: int|
            if 0 <= i < v.len() {
                v[i].bare()
            } else {
                arbitrary()
            },
    )
}

#[verifier::opaque]
pub open spec fn columns_kinds(v: Seq<ResultColumnView>) -> Seq<Seq<KindView>>
    decreases v,
{
    Seq::new(
        v.len(),
        |i: int|
            if 0 <= i < v.len() {
                v[i].kinds()
            } else {
                arbitrary()
            },
    )
}

#[verifier::opaque]
pub open spec fn columns_hold(v: Seq<ResultColumnView>) -> bool
    decreases v,
{
    forall|i: int| 0 <= i < v.len() ==> (#[trigger] v[i]).holds()
}

pub proof fn lemma_columns_push(v: Seq<ResultColumnView>, x: ResultColumnView)
    ensures
        bare_columns(v.push(x)) == bare_columns(v).push(x.bare()),
        columns_kinds(v.push(x)) == columns_kinds(v).push(x.kinds()),
        columns_hold(v.push(x)) == (columns_hold(v) && (x).holds()),
{
    reveal(bare_columns);
    reveal(columns_kinds);
    reveal(columns_hold);
    reveal(ResultColumnView::bare);
    reveal(ResultColumnView::kinds);
    reveal(ResultColumnView::holds);
    assert(bare_columns(v.push(x)) =~= bare_columns(v).push(x.bare()));
    assert(columns_kinds(v.push(x)) =~= columns_kinds(v).push(x.kinds()));
    if columns_hold(v.push(x)) {
        assert(v.push(x)[v.len() as int] == x);
        assert forall|i: int| 0 <= i < v.len() implies (#[trigger] v[i]).holds() by {
            assert(v.push(x)[i] == v[i]);
        }
    }
}

pub proof fn lemma_columns_empty()
    ensures
        bare_columns(seq![]) == Seq::<ResultColumnView>::empty(),
        columns_kinds(seq![]) == Seq::<Seq<KindView>>::empty(),
        columns_hold(seq![]),
{
    reveal(bare_columns);
    reveal(columns_kinds);
    reveal(columns_hold);
    assert(bare_columns(seq![]) =~= Seq::<ResultColumnView>::empty());
    assert(columns_kinds(seq![]) =~= Seq::<Seq<KindView>>::empty());
}

pub proof fn lemma_columns_at(v: Seq<ResultColumnView>, i: int)
    requires
        0 <= i < v.len(),
    ensures
        columns_kinds(v)[i] == v[i].kinds(),
        columns_hold(v) ==> (v[i]).holds(),
{
    reveal(columns_kinds);
    reveal(columns_hold);
    reveal(ResultColumnView::bare);
    reveal(ResultColumnView::kinds);
    reveal(ResultColumnView::holds);
}

pub proof fn lemma_columns_len(v: Seq<ResultColumnView>)
    ensures
        bare_columns(v).len() == v.len(),
        columns_kinds(v).len() == v.len(),
{
    reveal(bare_columns);
    reveal(columns_kinds);
}

#[verifier::opaque]
pub open spec fn bare_joins(v: Seq<JoinView>) -> Seq<JoinView>
    decreases v,
{
    Seq::new(
        v.len(),
        |i: int|
            if 0 <= i < v.len() {
                v[i].bare()
            } else {
                arbitrary()
            },
    )
}

#[verifier::opaque]
pub open spec fn joins_kinds(v: Seq<JoinView>) -> Seq<Seq<KindView>>
    decreases v,
{
    Seq::new(
        v.len(),
        |i: int|
            if 0 <= i < v.len() {
                v[i].kinds()
            } else {
                arbitrary()
            },
    )
}

#[verifier::opaque]
pub open spec fn joins_hold(v: Seq<JoinView>) -> bool
    decreases v,
{
    forall|i: int| 0 <= i < v.len() ==> (#[trigger] v[i]).holds()
}

#[verifier::rlimit(60)]
pub proof fn lemma_joins_push(v: Seq<JoinView>, x: JoinView)
    ensures
        bare_joins(v.push(x)) == bare_joins(v).push(x.bare()),
        joins_kinds(v.push(x)) == joins_kinds(v).push(x.kinds()),
        joins_hold(v.push(x)) == (joins_hold(v) && (x).holds()),
{
    reveal(bare_joins);
    reveal(joins_kinds);
    reveal(joins_hold);
    reveal(JoinView::bare);
    reveal(JoinView::kinds);
    reveal(JoinView::holds);
    assert(bare_joins(v.push(x)) =~= bare_joins(v).push(x.bare()));
    assert(joins_kinds(v.push(x)) =~= joins_kinds(v).push(x.kinds()));
    if joins_hold(v.push(x)) {
        assert(v.push(x)[v.len() as int] == x);
        assert forall|i: int| 0 <= i < v.len() implies (#[trigger] v[i]).holds() by {
            assert(v.push(x)[i] == v[i]);
        }
    }
}

pub proof fn lemma_joins_empty()
    ensures
        bare_joins(seq![]) == Seq::<JoinView>::empty(),
        joins_kinds(seq![]) == Seq::<Seq<KindView>>::empty(),
        joins_hold(seq![]),
{
    reveal(bare_joins);
    reveal(joins_kinds);
    reveal(joins_hold);
    assert(bare_joins(seq![]) =~= Seq::<JoinView>::empty());
    assert(joins_kinds(seq![]) =~= Seq::<Seq<KindView>>::empty());
}

pub proof fn lemma_joins_at(v: Seq<JoinView>, i: int)
    requires
        0 <= i < v.len(),
    ensures
        joins_kinds(v)[i] == v[i].kinds(),
        joins_hold(v) ==> (v[i]).holds(),
{
    reveal(joins_kinds);
    reveal(joins_hold);
    reveal(JoinView::bare);
    reveal(JoinView::kinds);
    reveal(JoinView::holds);
}

pub proof fn lemma_joins_len(v: Seq<JoinView>)
    ensures
        bare_joins(v).len() == v.len(),
        joins_kinds(v).len() == v.len(),
{
    reveal(bare_joins);
    reveal(joins_kinds);
}

#[verifier::opaque]
pub open spec fn bare_terms(v: Seq<OrderingTermView>) -> Seq<OrderingTermView>
    decreases v,
{
    Seq::new(
        v.len(),
        |i: int|
            if 0 <= i < v.len() {
                v[i].bare()
            } else {
                arbitrary()
            },
    )
}

#[verifier::opaque]
pub open spec fn terms_kinds(v: Seq<OrderingTermView>) -> Seq<Seq<KindView>>
    decreases v,
{
    Seq::new(
        v.len(),
        |i: int|
            if 0 <= i < v.len() {
                v[i].kinds()
            } else {
                arbitrary()
            },
    )
}

#[verifier::opaque]
pub open spec fn terms_hold(v: Seq<OrderingTermView>) -> bool
    decreases v,
{
    forall|i: int| 0 <= i < v.len() ==> (#[trigger] v[i]).holds()
}

pub proof fn lemma_terms_push(v: Seq<OrderingTermView>, x: OrderingTermView)
    ensures
        bare_terms(v.push(x)) == bare_terms(v).push(x.bare()),
        terms_kinds(v.push(x)) == terms_kinds(v).push(x.kinds()),
        terms_hold(v.push(x)) == (terms_hold(v) && (x).holds()),
{
    reveal(bare_terms);
    reveal(terms_kinds);
    reveal(terms_hold);
    reveal(OrderingTermView::bare);
    reveal(OrderingTermView::kinds);
    reveal(OrderingTermView::holds);
    assert(bare_terms(v.push(x)) =~= bare_terms(v).push(x.bare()));
    assert(terms_kinds(v.push(x)) =~= terms_kinds(v).push(x.kinds()));
    if terms_hold(v.push(x)) {
        assert(v.push(x)[v.len() as int] == x);
        assert forall|i: int| 0 <= i < v.len() implies (#[trigger] v[i]).holds() by {
            assert(v.push(x)[i] == v[i]);
        }
    }
}

pub proof fn lemma_terms_empty()
    ensures
        bare_terms(seq![]) == Seq::<OrderingTermView>::empty(),
        terms_kinds(seq![]) == Seq::<Seq<KindView>>::empty(),
        terms_hold(seq![]),
{
    reveal(bare_terms);
    reveal(terms_kinds);
    reveal(terms_hold);
    assert(bare_terms(seq![]) =~= Seq::<OrderingTermView>::empty());
    assert(terms_kinds(seq![]) =~= Seq::<Seq<KindView>>::empty());
}

pub proof fn lemma_terms_at(v: Seq<OrderingTermView>, i: int)
    requires
        0 <= i < v.len(),
    ensures
        terms_kinds(v)[i] == v[i].kinds(),
        terms_hold(v) ==> (v[i]).holds(),
{
    reveal(terms_kinds);
    reveal(terms_hold);
    reveal(OrderingTermView::bare);
    reveal(OrderingTermView::kinds);
    reveal(OrderingTermView::holds);
}

pub proof fn lemma_terms_len(v: Seq<OrderingTermView>)
    ensures
        bare_terms(v).len() == v.len(),
        terms_kinds(v).len() == v.len(),
{
    reveal(bare_terms);
    reveal(terms_kinds);
}

#[verifier::opaque]
pub open spec fn bare_arms(v: Seq<CompoundSelectView>) -> Seq<CompoundSelectView>
    decreases v,
{
    Seq::new(
        v.len(),
        |i: int|
            if 0 <= i < v.len() {
                v[i].bare()
            } else {
                arbitrary()
            },
    )
}

#[verifier::opaque]
pub open spec fn arms_kinds(v: Seq<CompoundSelectView>) -> Seq<Seq<KindView>>
    decreases v,
{
    Seq::new(
        v.len(),
        |i: int|
            if 0 <= i < v.len() {
                v[i].kinds()
            } else {
                arbitrary()
            },
    )
}

#[verifier::opaque]
pub open spec fn arms_hold(v: Seq<CompoundSelectView>) -> bool
    decreases v,
{
    forall|i: int| 0 <= i < v.len() ==> (#[trigger] v[i]).holds()
}

pub proof fn lemma_arms_push(v: Seq<CompoundSelectView>, x: CompoundSelectView)
    ensures
        bare_arms(v.push(x)) == bare_arms(v).push(x.bare()),
        arms_kinds(v.push(x)) == arms_kinds(v).push(x.kinds()),
        arms_hold(v.push(x)) == (arms_hold(v) && (x).holds()),
{
    reveal(bare_arms);
    reveal(arms_kinds);
    reveal(arms_hold);
    reveal(CompoundSelectView::bare);
    reveal(CompoundSelectView::kinds);
    reveal(CompoundSelectView::holds);
    assert(bare_arms(v.push(x)) =~= bare_arms(v).push(x.bare()));
    assert(arms_kinds(v.push(x)) =~= arms_kinds(v).push(x.kinds()));
    if arms_hold(v.push(x)) {
        assert(v.push(x)[v.len() as int] == x);
        assert forall|i: int| 0 <= i < v.len() implies (#[trigger] v[i]).holds() by {
            assert(v.push(x)[i] == v[i]);
        }
    }
}

pub proof fn lemma_arms_empty()
    ensures
        bare_arms(seq![]) == Seq::<CompoundSelectView>::empty(),
        arms_kinds(seq![]) == Seq::<Seq<KindView>>::empty(),
        arms_hold(seq![]),
{
    reveal(bare_arms);
    reveal(arms_kinds);
    reveal(arms_hold);
    assert(bare_arms(seq![]) =~= Seq::<CompoundSelectView>::empty());
    assert(arms_kinds(seq![]) =~= Seq::<Seq<KindView>>::empty());
}

pub proof fn lemma_arms_at(v: Seq<CompoundSelectView>, i: int)
    requires
        0 <= i < v.len(),
    ensures
        arms_kinds(v)[i] == v[i].kinds(),
        arms_hold(v) ==> (v[i]).holds(),
{
    reveal(arms_kinds);
    reveal(arms_hold);
    reveal(CompoundSelectView::bare);
    reveal(CompoundSelectView::kinds);
    reveal(CompoundSelectView::holds);
}

pub proof fn lemma_arms_len(v: Seq<CompoundSelectView>)
    ensures
        bare_arms(v).len() == v.len(),
        arms_kinds(v).len() == v.len(),
{
    reveal(bare_arms);
    reveal(arms_kinds);
}

impl FunctionArgsView {
    #[verifier::opaque]
    pub open spec fn bare(self) -> FunctionArgsView
        decreases self,
    {
        match self {
            FunctionArgsView::Star => FunctionArgsView::Star,
            FunctionArgsView::List(list) => FunctionArgsView::List(bare_exprs(list)),
        }
    }

    #[verifier::opaque]
    pub open spec fn kinds(self) -> Seq<KindView>
        decreases self,
    {
        match self {
            FunctionArgsView::Star => seq![KindView::Star],
            FunctionArgsView::List(list) => commas(exprs_kinds(list)),
        }
    }

    /// Whether the literals are spelled as tokens are, and no list is empty that cannot be.
    #[verifier::opaque]
    pub open spec fn holds(self) -> bool
        decreases self,
    {
        match self {
            FunctionArgsView::Star => true,
            FunctionArgsView::List(list) => exprs_hold(list),
        }
    }
}

impl ExprView {
    #[verifier::opaque]
    pub open spec fn bare(self) -> ExprView
        decreases self,
    {
        ExprView {
            kind: match self.kind {
            ExprKindView::Literal(l) => ExprKindView::Literal(l),
            ExprKindView::Param(p) => ExprKindView::Param(p),
            ExprKindView::Column { table, catalog, name } => ExprKindView::Column { table, catalog,
                name },
            ExprKindView::FunctionCall { name, distinct, args } => ExprKindView::FunctionCall {
                name, distinct, args: args.bare() },
            ExprKindView::Unary { op, expr } => ExprKindView::Unary { op,
                expr: Box::new(expr.bare()) },
            ExprKindView::Binary { op, lhs, rhs } => ExprKindView::Binary { op,
                lhs: Box::new(lhs.bare()), rhs: Box::new(rhs.bare()) },
            ExprKindView::Is { lhs, rhs, negated } => ExprKindView::Is { lhs: Box::new(lhs.bare()),
                rhs: Box::new(rhs.bare()), negated },
            ExprKindView::IsNull { expr, negated } => ExprKindView::IsNull {
                expr: Box::new(expr.bare()), negated },
            ExprKindView::Between { expr, lo, hi, negated } => ExprKindView::Between {
                expr: Box::new(expr.bare()), lo: Box::new(lo.bare()), hi: Box::new(hi.bare()),
                negated },
            ExprKindView::In { expr, list, negated } => ExprKindView::In {
                expr: Box::new(expr.bare()), list: bare_exprs(list), negated },
            ExprKindView::Like { expr, pattern, glob, negated, escape } => ExprKindView::Like {
                expr: Box::new(expr.bare()), pattern: Box::new(pattern.bare()), glob, negated,
                escape: match escape { Some(e) => Some(Box::new(e.bare())), None => None } },
            ExprKindView::Case { operand, whens, else_ } => ExprKindView::Case {
                operand: match operand { Some(e) => Some(Box::new(e.bare())), None => None },
                whens: bare_whens(whens), else_: match else_ { Some(e) => Some(Box::new(e.bare())),
                None => None } },
            ExprKindView::Cast { expr, declared_type } => ExprKindView::Cast {
                expr: Box::new(expr.bare()), declared_type },
            ExprKindView::Collate { expr, collation } => ExprKindView::Collate {
                expr: Box::new(expr.bare()), collation },
            ExprKindView::Paren(inner) => ExprKindView::Paren(Box::new(inner.bare())),
            ExprKindView::Subquery(select) => ExprKindView::Subquery(Box::new(select.bare())),
            ExprKindView::Exists { subquery, negated } => ExprKindView::Exists {
                subquery: Box::new(subquery.bare()), negated },
            ExprKindView::InSubquery { expr, subquery, negated } => ExprKindView::InSubquery {
                expr: Box::new(expr.bare()), subquery: Box::new(subquery.bare()), negated },
            ExprKindView::InSubqueryMulti { exprs, subquery, negated } =>
                ExprKindView::InSubqueryMulti { exprs: bare_exprs(exprs),
                subquery: Box::new(subquery.bare()), negated },
        },
            span: nowhere(),
        }
    }

    #[verifier::opaque]
    pub open spec fn kinds(self) -> Seq<KindView>
        decreases self,
    {
        match self.kind {
            ExprKindView::Literal(l) => l.kinds(),
            ExprKindView::Param(p) => seq![KindView::Param(param_token(p))],
            ExprKindView::Column { table, catalog, name } => qualifier_kinds(catalog)
                + qualifier_kinds(table) + name_kinds(name),
            ExprKindView::FunctionCall { name, distinct, args } => call_kinds(name)
                + seq![KindView::LParen] + flag_kinds(distinct, Keyword::DISTINCT) + args.kinds()
                + seq![KindView::RParen],
            ExprKindView::Unary { op, expr } => seq![unary_kind(op)] + expr.kinds(),
            ExprKindView::Binary { op, lhs, rhs } => lhs.kinds() + seq![binary_kind(op)]
                + rhs.kinds(),
            ExprKindView::Is { lhs, rhs, negated } => lhs.kinds() + kw(Keyword::IS)
                + flag_kinds(negated, Keyword::NOT) + rhs.kinds(),
            ExprKindView::IsNull { expr, negated } => expr.kinds() + kw(if negated {
                Keyword::NOTNULL } else { Keyword::ISNULL }),
            ExprKindView::Between { expr, lo, hi, negated } => expr.kinds() + flag_kinds(negated,
                Keyword::NOT) + kw(Keyword::BETWEEN) + lo.kinds() + kw(Keyword::AND) + hi.kinds(),
            ExprKindView::In { expr, list, negated } => expr.kinds() + flag_kinds(negated,
                Keyword::NOT) + kw(Keyword::IN) + in_parens(commas(exprs_kinds(list))),
            ExprKindView::Like { expr, pattern, glob, negated, escape } => expr.kinds()
                + flag_kinds(negated, Keyword::NOT) + kw(if glob { Keyword::GLOB } else {
                Keyword::LIKE }) + pattern.kinds() + (match escape { Some(e) => kw(Keyword::ESCAPE)
                + e.kinds(), None => seq![] }),
            ExprKindView::Case { operand, whens, else_ } => kw(Keyword::CASE) + (match operand {
                Some(e) => e.kinds(), None => seq![] }) + each_after(kw(Keyword::WHEN),
                whens_kinds(whens)) + (match else_ { Some(e) => kw(Keyword::ELSE) + e.kinds(),
                None => seq![] }) + kw(Keyword::END),
            ExprKindView::Cast { expr, declared_type } => kw(Keyword::CAST)
                + seq![KindView::LParen] + expr.kinds() + kw(Keyword::AS)
                + type_kinds(declared_type) + seq![KindView::RParen],
            ExprKindView::Collate { expr, collation } => expr.kinds() + kw(Keyword::COLLATE)
                + name_kinds(collation),
            ExprKindView::Paren(inner) => in_parens(inner.kinds()),
            ExprKindView::Subquery(select) => in_parens(select.kinds()),
            ExprKindView::Exists { subquery, negated } => flag_kinds(negated, Keyword::NOT)
                + kw(Keyword::EXISTS) + in_parens(subquery.kinds()),
            ExprKindView::InSubquery { expr, subquery, negated } => expr.kinds()
                + flag_kinds(negated, Keyword::NOT) + kw(Keyword::IN) + in_parens(subquery.kinds()),
            ExprKindView::InSubqueryMulti { exprs, subquery, negated } =>
                in_parens(commas(exprs_kinds(exprs))) + flag_kinds(negated, Keyword::NOT)
                + kw(Keyword::IN) + in_parens(subquery.kinds()),
        }
    }

    /// Whether the literals are spelled as tokens are, and no list is empty that cannot be.
    #[verifier::opaque]
    pub open spec fn holds(self) -> bool
        decreases self,
    {
        match self.kind {
            ExprKindView::Literal(l) => l.is_spelled(),
            ExprKindView::Param(p) => is_param(param_token(p)),
            ExprKindView::Column { .. } => true,
            ExprKindView::FunctionCall { args, .. } => args.holds(),
            ExprKindView::Unary { expr, .. } => expr.holds(),
            ExprKindView::Binary { lhs, rhs, .. } => lhs.holds() && rhs.holds(),
            ExprKindView::Is { lhs, rhs, .. } => lhs.holds() && rhs.holds(),
            ExprKindView::IsNull { expr, .. } => expr.holds(),
            ExprKindView::Between { expr, lo, hi, .. } => expr.holds() && lo.holds() && hi.holds(),
            ExprKindView::In { expr, list, .. } => expr.holds() && exprs_hold(list),
            ExprKindView::Like { expr, pattern, escape, .. } => expr.holds() && pattern.holds()
                && (match escape { Some(e) => e.holds(), None => true }),
            ExprKindView::Case { operand, whens, else_ } => (match operand { Some(e) => e.holds(),
                None => true }) && whens_hold(whens) && (match else_ { Some(e) => e.holds(),
                None => true }),
            ExprKindView::Cast { expr, .. } => expr.holds(),
            ExprKindView::Collate { expr, .. } => expr.holds(),
            ExprKindView::Paren(inner) => inner.holds(),
            ExprKindView::Subquery(select) => select.holds(),
            ExprKindView::Exists { subquery, .. } => subquery.holds(),
            ExprKindView::InSubquery { expr, subquery, .. } => expr.holds() && subquery.holds(),
            ExprKindView::InSubqueryMulti { exprs, subquery, .. } => exprs_hold(exprs)
                && subquery.holds(),
        }
    }
}

impl ResultColumnView {
    #[verifier::opaque]
    pub open spec fn bare(self) -> ResultColumnView
        decreases self,
    {
        match self {
            ResultColumnView::Expr { expr, alias } => ResultColumnView::Expr { expr: expr.bare(),
                alias },
            _ => self,
        }
    }

    #[verifier::opaque]
    pub open spec fn kinds(self) -> Seq<KindView>
        decreases self,
    {
        match self {
            ResultColumnView::Star => seq![KindView::Star],
            ResultColumnView::TableStar { table } => name_kinds(table) + seq![KindView::Dot,
                KindView::Star],
            ResultColumnView::Expr { expr, alias } => expr.kinds() + alias_kinds(alias),
        }
    }

    /// Whether the literals are spelled as tokens are, and no list is empty that cannot be.
    #[verifier::opaque]
    pub open spec fn holds(self) -> bool
        decreases self,
    {
        match self {
            ResultColumnView::Star => true,
            ResultColumnView::TableStar { .. } => true,
            ResultColumnView::Expr { expr, .. } => expr.holds(),
        }
    }
}

impl TableRefView {
    #[verifier::opaque]
    pub open spec fn bare(self) -> TableRefView
        decreases self,
    {
        TableRefView {
            kind: match self.kind {
            TableRefKindView::Name(name) => TableRefKindView::Name(name),
            TableRefKindView::Subquery(select) =>
                TableRefKindView::Subquery(Box::new(select.bare())),
        },
            alias: self.alias,
            span: nowhere(),
        }
    }

    #[verifier::opaque]
    pub open spec fn kinds(self) -> Seq<KindView>
        decreases self,
    {
        (match self.kind {
            TableRefKindView::Name(name) => name_kinds(name),
            TableRefKindView::Subquery(select) => in_parens(select.kinds()),
        }) + alias_kinds(self.alias)
    }

    /// Whether the literals are spelled as tokens are, and no list is empty that cannot be.
    #[verifier::opaque]
    pub open spec fn holds(self) -> bool
        decreases self,
    {
        match self.kind {
            TableRefKindView::Name(_) => true,
            TableRefKindView::Subquery(select) => select.holds(),
        }
    }
}

impl JoinView {
    #[verifier::opaque]
    pub open spec fn bare(self) -> JoinView
        decreases self,
    {
        JoinView {
            table: self.table.bare(),
            constraint: match self.constraint {
            Some(JoinConstraintView::On(e)) => Some(JoinConstraintView::On(e.bare())),
            Some(JoinConstraintView::Using(names)) => Some(JoinConstraintView::Using(names)),
            None => None,
        },
            ..self
        }
    }

    #[verifier::opaque]
    pub open spec fn kinds(self) -> Seq<KindView>
        decreases self,
    {
        flag_kinds(self.natural, Keyword::NATURAL) + join_op_kinds(self.op) + self.table.kinds()
            + (match self.constraint {
            Some(JoinConstraintView::On(e)) => kw(Keyword::ON) + e.kinds(),
            Some(JoinConstraintView::Using(names)) => kw(Keyword::USING)
                + in_parens(commas(names_list(names))),
            None => seq![],
        })
    }

    /// Whether the literals are spelled as tokens are, and no list is empty that cannot be.
    #[verifier::opaque]
    pub open spec fn holds(self) -> bool
        decreases self,
    {
        self.table.holds() && match self.constraint {
            Some(JoinConstraintView::On(e)) => e.holds(),
            Some(JoinConstraintView::Using(_)) => true,
            None => true,
        }
    }
}

impl FromClauseView {
    #[verifier::opaque]
    pub open spec fn bare(self) -> FromClauseView
        decreases self,
    {
        FromClauseView { first: self.first.bare(), joins: bare_joins(self.joins) }
    }

    #[verifier::opaque]
    pub open spec fn kinds(self) -> Seq<KindView>
        decreases self,
    {
        self.first.kinds() + each_after(seq![], joins_kinds(self.joins))
    }

    /// Whether the literals are spelled as tokens are, and no list is empty that cannot be.
    #[verifier::opaque]
    pub open spec fn holds(self) -> bool
        decreases self,
    {
        self.first.holds() && joins_hold(self.joins)
    }
}

impl OrderingTermView {
    #[verifier::opaque]
    pub open spec fn bare(self) -> OrderingTermView
        decreases self,
    {
        OrderingTermView { expr: self.expr.bare(), ..self }
    }

    #[verifier::opaque]
    pub open spec fn kinds(self) -> Seq<KindView>
        decreases self,
    {
        self.expr.kinds() + direction_kinds(self.desc) + nulls_kinds(self.nulls_last)
    }

    /// Whether the literals are spelled as tokens are, and no list is empty that cannot be.
    #[verifier::opaque]
    pub open spec fn holds(self) -> bool
        decreases self,
    {
        self.expr.holds()
    }
}

/// An expression behind a keyword; nothing where there is none.
#[verifier::opaque]
pub open spec fn optional_kinds(k: Keyword, e: Option<ExprView>) -> Seq<KindView>
    decreases e,
{
    match e {
        Some(x) => kw(k) + x.kinds(),
        None => seq![],
    }
}

#[verifier::opaque]
pub open spec fn bare_optional(e: Option<ExprView>) -> Option<ExprView>
    decreases e,
{
    match e {
        Some(x) => Some(x.bare()),
        None => None,
    }
}

#[verifier::opaque]
pub open spec fn optional_holds(e: Option<ExprView>) -> bool
    decreases e,
{
    match e {
        Some(x) => x.holds(),
        None => true,
    }
}

#[verifier::opaque]
pub open spec fn from_kinds(from: Option<FromClauseView>) -> Seq<KindView>
    decreases from,
{
    match from {
        Some(f) => kw(Keyword::FROM) + f.kinds(),
        None => seq![],
    }
}

#[verifier::opaque]
pub open spec fn bare_from(from: Option<FromClauseView>) -> Option<FromClauseView>
    decreases from,
{
    match from {
        Some(f) => Some(f.bare()),
        None => None,
    }
}

#[verifier::opaque]
pub open spec fn from_holds(from: Option<FromClauseView>) -> bool
    decreases from,
{
    match from {
        Some(f) => f.holds(),
        None => true,
    }
}

pub proof fn lemma_optional(k: Keyword, x: ExprView)
    ensures
        optional_kinds(k, Some(x)) == kw(k) + x.kinds(),
        optional_kinds(k, None) == Seq::<KindView>::empty(),
        bare_optional(Some(x)) == Some(x.bare()),
        bare_optional(None) == None::<ExprView>,
        optional_holds(Some(x)) == x.holds(),
        optional_holds(None),
{
    reveal(optional_kinds);
    reveal(bare_optional);
    reveal(optional_holds);
    reveal(ExprView::bare);
    reveal(ExprView::kinds);
    reveal(ExprView::holds);
}

pub proof fn lemma_from(x: FromClauseView)
    ensures
        from_kinds(Some(x)) == kw(Keyword::FROM) + x.kinds(),
        from_kinds(None) == Seq::<KindView>::empty(),
        bare_from(Some(x)) == Some(x.bare()),
        bare_from(None) == None::<FromClauseView>,
        from_holds(Some(x)) == x.holds(),
        from_holds(None),
{
    reveal(from_kinds);
    reveal(bare_from);
    reveal(from_holds);
    reveal(FromClauseView::bare);
    reveal(FromClauseView::kinds);
    reveal(FromClauseView::holds);
}

impl LimitView {
    #[verifier::opaque]
    pub open spec fn bare(self) -> LimitView
        decreases self,
    {
        LimitView { limit: self.limit.bare(), offset: bare_optional(self.offset) }
    }

    #[verifier::opaque]
    pub open spec fn kinds(self) -> Seq<KindView>
        decreases self,
    {
        kw(Keyword::LIMIT) + self.limit.kinds() + optional_kinds(Keyword::OFFSET, self.offset)
    }

    /// Whether the literals are spelled as tokens are, and no list is empty that cannot be.
    #[verifier::opaque]
    pub open spec fn holds(self) -> bool
        decreases self,
    {
        self.limit.holds() && optional_holds(self.offset)
    }
}

impl CompoundSelectView {
    #[verifier::opaque]
    pub open spec fn bare(self) -> CompoundSelectView
        decreases self,
    {
        CompoundSelectView {
            columns: bare_columns(self.columns),
            from: bare_from(self.from),
            where_clause: bare_optional(self.where_clause),
            group_by: bare_exprs(self.group_by),
            having: bare_optional(self.having),
            span: nowhere(),
            ..self
        }
    }

    #[verifier::opaque]
    pub open spec fn kinds(self) -> Seq<KindView>
        decreases self,
    {
        kw(Keyword::UNION) + kw(Keyword::ALL) + kw(Keyword::SELECT) + core_kinds(
            self.distinct,
            columns_kinds(self.columns),
            from_kinds(self.from),
            optional_kinds(Keyword::WHERE, self.where_clause),
            exprs_kinds(self.group_by),
            optional_kinds(Keyword::HAVING, self.having),
        )
    }

    /// Whether the literals are spelled as tokens are, and no list is empty that cannot be.
    #[verifier::opaque]
    pub open spec fn holds(self) -> bool
        decreases self,
    {
        self.columns.len() > 0 && columns_hold(self.columns) && from_holds(self.from)
            && optional_holds(self.where_clause) && exprs_hold(self.group_by)
            && optional_holds(self.having)
    }
}

impl SelectView {
    #[verifier::opaque]
    pub open spec fn bare(self) -> SelectView
        decreases self,
    {
        SelectView {
            columns: bare_columns(self.columns),
            from: bare_from(self.from),
            where_clause: bare_optional(self.where_clause),
            group_by: bare_exprs(self.group_by),
            having: bare_optional(self.having),
            compound: bare_arms(self.compound),
            order_by: bare_terms(self.order_by),
            limit: match self.limit { Some(l) => Some(l.bare()), None => None },
            span: nowhere(),
            ..self
        }
    }

    #[verifier::opaque]
    pub open spec fn kinds(self) -> Seq<KindView>
        decreases self,
    {
        kw(Keyword::SELECT) + core_kinds(
            self.distinct,
            columns_kinds(self.columns),
            from_kinds(self.from),
            optional_kinds(Keyword::WHERE, self.where_clause),
            exprs_kinds(self.group_by),
            optional_kinds(Keyword::HAVING, self.having),
        ) + each_after(seq![], arms_kinds(self.compound)) + clause_kinds(kw(Keyword::ORDER)
            + kw(Keyword::BY), terms_kinds(self.order_by)) + (match self.limit { Some(l) =>
            l.kinds(), None => seq![] })
    }

    /// Whether the literals are spelled as tokens are, and no list is empty that cannot be.
    #[verifier::opaque]
    pub open spec fn holds(self) -> bool
        decreases self,
    {
        self.columns.len() > 0 && columns_hold(self.columns) && from_holds(self.from)
            && optional_holds(self.where_clause) && exprs_hold(self.group_by)
            && optional_holds(self.having) && arms_hold(self.compound) && terms_hold(self.order_by)
            && (match self.limit { Some(l) => l.holds(), None => true })
    }
}

impl CoreView {
    #[verifier::opaque]
    pub open spec fn bare(self) -> CoreView {
        CoreView {
            columns: bare_columns(self.columns),
            from: bare_from(self.from),
            where_clause: bare_optional(self.where_clause),
            group_by: bare_exprs(self.group_by),
            having: bare_optional(self.having),
            ..self
        }
    }

    #[verifier::opaque]
    pub open spec fn kinds(self) -> Seq<KindView> {
        core_kinds(
            self.distinct,
            columns_kinds(self.columns),
            from_kinds(self.from),
            optional_kinds(Keyword::WHERE, self.where_clause),
            exprs_kinds(self.group_by),
            optional_kinds(Keyword::HAVING, self.having),
        )
    }

    /// Whether the literals are spelled as tokens are, and no list is empty that cannot be.
    #[verifier::opaque]
    pub open spec fn holds(self) -> bool {
        self.columns.len() > 0 && columns_hold(self.columns) && from_holds(self.from)
            && optional_holds(self.where_clause) && exprs_hold(self.group_by)
            && optional_holds(self.having)
    }
}

// ---- statements --------------------------------------------------------------

#[verifier::opaque]
pub open spec fn bare_rows(v: Seq<Seq<ExprView>>) -> Seq<Seq<ExprView>> {
    Seq::new(v.len(), |i: int| bare_exprs(v[i]))
}

#[verifier::opaque]
pub open spec fn rows_kinds(v: Seq<Seq<ExprView>>) -> Seq<Seq<KindView>> {
    Seq::new(v.len(), |i: int| in_parens(commas(exprs_kinds(v[i]))))
}

#[verifier::opaque]
pub open spec fn rows_hold(v: Seq<Seq<ExprView>>) -> bool {
    forall|i: int| 0 <= i < v.len() ==> exprs_hold(#[trigger] v[i])
}

pub proof fn lemma_rows_push(v: Seq<Seq<ExprView>>, x: Seq<ExprView>)
    ensures
        bare_rows(v.push(x)) == bare_rows(v).push(bare_exprs(x)),
        rows_kinds(v.push(x)) == rows_kinds(v).push(in_parens(commas(exprs_kinds(x)))),
        rows_hold(v.push(x)) == (rows_hold(v) && exprs_hold(x)),
{
    reveal(bare_rows);
    reveal(rows_kinds);
    reveal(rows_hold);
    reveal(bare_exprs);
    reveal(exprs_kinds);
    reveal(exprs_hold);
    assert(bare_rows(v.push(x)) =~= bare_rows(v).push(bare_exprs(x)));
    assert(rows_kinds(v.push(x)) =~= rows_kinds(v).push(in_parens(commas(exprs_kinds(x)))));
    if rows_hold(v.push(x)) {
        assert(v.push(x)[v.len() as int] == x);
        assert forall|i: int| 0 <= i < v.len() implies exprs_hold(#[trigger] v[i]) by {
            assert(v.push(x)[i] == v[i]);
        }
    }
}

pub proof fn lemma_rows_empty()
    ensures
        bare_rows(seq![]) == Seq::<Seq<ExprView>>::empty(),
        rows_kinds(seq![]) == Seq::<Seq<KindView>>::empty(),
        rows_hold(seq![]),
{
    reveal(bare_rows);
    reveal(rows_kinds);
    reveal(rows_hold);
    assert(bare_rows(seq![]) =~= Seq::<Seq<ExprView>>::empty());
    assert(rows_kinds(seq![]) =~= Seq::<Seq<KindView>>::empty());
}

pub proof fn lemma_rows_at(v: Seq<Seq<ExprView>>, i: int)
    requires
        0 <= i < v.len(),
    ensures
        rows_kinds(v)[i] == in_parens(commas(exprs_kinds(v[i]))),
        rows_hold(v) ==> exprs_hold(v[i]),
{
    reveal(rows_kinds);
    reveal(rows_hold);
    reveal(bare_exprs);
    reveal(exprs_kinds);
    reveal(exprs_hold);
}

pub proof fn lemma_rows_len(v: Seq<Seq<ExprView>>)
    ensures
        bare_rows(v).len() == v.len(),
        rows_kinds(v).len() == v.len(),
{
    reveal(bare_rows);
    reveal(rows_kinds);
}

pub open spec fn conflict_kinds(action: Option<ConflictAction>) -> Seq<KindView> {
    match action {
        Some(ConflictAction::Replace) => kw(Keyword::OR) + kw(Keyword::REPLACE),
        Some(ConflictAction::Ignore) => kw(Keyword::OR) + kw(Keyword::IGNORE),
        Some(ConflictAction::Abort) => kw(Keyword::OR) + kw(Keyword::ABORT),
        Some(ConflictAction::Rollback) => kw(Keyword::OR) + kw(Keyword::ROLLBACK),
        Some(ConflictAction::Fail) => kw(Keyword::OR) + kw(Keyword::FAIL),
        None => seq![],
    }
}

pub open spec fn optional_names_kinds(names: Option<Seq<Seq<char>>>) -> Seq<KindView> {
    match names {
        Some(n) => in_parens(commas(names_list(n))),
        None => seq![],
    }
}

impl InsertSourceView {
    #[verifier::opaque]
    pub open spec fn bare(self) -> InsertSourceView {
        match self {
            InsertSourceView::DefaultValues => InsertSourceView::DefaultValues,
            InsertSourceView::Values(rows) => InsertSourceView::Values(bare_rows(rows)),
            InsertSourceView::Select(select) => InsertSourceView::Select(Box::new(select.bare())),
        }
    }

    #[verifier::opaque]
    pub open spec fn kinds(self) -> Seq<KindView> {
        match self {
            InsertSourceView::DefaultValues => kw(Keyword::DEFAULT) + kw(Keyword::VALUES),
            InsertSourceView::Values(rows) => kw(Keyword::VALUES) + commas(rows_kinds(rows)),
            InsertSourceView::Select(select) => select.kinds(),
        }
    }

    /// Whether the literals are spelled as tokens are, and no list is empty that cannot be.
    #[verifier::opaque]
    pub open spec fn holds(self) -> bool {
        match self {
            InsertSourceView::DefaultValues => true,
            InsertSourceView::Values(rows) => rows.len() > 0 && rows_hold(rows),
            InsertSourceView::Select(select) => select.holds(),
        }
    }
}

impl InsertView {
    #[verifier::opaque]
    pub open spec fn bare(self) -> InsertView {
        InsertView { source: self.source.bare(), span: nowhere(), ..self }
    }

    #[verifier::opaque]
    pub open spec fn kinds(self) -> Seq<KindView> {
        kw(Keyword::INSERT) + conflict_kinds(self.or_action) + kw(Keyword::INTO)
            + name_kinds(self.table) + optional_names_kinds(self.columns) + self.source.kinds()
    }

    /// Whether the literals are spelled as tokens are, and no list is empty that cannot be.
    #[verifier::opaque]
    pub open spec fn holds(self) -> bool {
        self.source.holds()
    }
}

impl DeleteView {
    #[verifier::opaque]
    pub open spec fn bare(self) -> DeleteView {
        DeleteView { where_clause: bare_optional(self.where_clause), span: nowhere(), ..self }
    }

    #[verifier::opaque]
    pub open spec fn kinds(self) -> Seq<KindView> {
        kw(Keyword::DELETE) + kw(Keyword::FROM) + name_kinds(self.table)
            + optional_kinds(Keyword::WHERE, self.where_clause)
    }

    /// Whether the literals are spelled as tokens are, and no list is empty that cannot be.
    #[verifier::opaque]
    pub open spec fn holds(self) -> bool {
        optional_holds(self.where_clause)
    }
}

impl DefaultValueView {
    #[verifier::opaque]
    pub open spec fn bare(self) -> DefaultValueView {
        match self {
            DefaultValueView::Literal(e) => DefaultValueView::Literal(e.bare()),
            DefaultValueView::Paren(e) => DefaultValueView::Paren(e.bare()),
        }
    }

    #[verifier::opaque]
    pub open spec fn kinds(self) -> Seq<KindView> {
        match self {
            DefaultValueView::Literal(e) => default_kinds(e),
            DefaultValueView::Paren(e) => in_parens(e.kinds()),
        }
    }

    /// Whether the literals are spelled as tokens are, and no list is empty that cannot be.
    #[verifier::opaque]
    pub open spec fn holds(self) -> bool {
        match self {
            DefaultValueView::Literal(e) => e.holds(),
            DefaultValueView::Paren(e) => e.holds(),
        }
    }
}

impl ColumnConstraintView {
    #[verifier::opaque]
    pub open spec fn bare(self) -> ColumnConstraintView {
        match self {
            ColumnConstraintView::Default(value) => ColumnConstraintView::Default(value.bare()),
            ColumnConstraintView::Check(e) => ColumnConstraintView::Check(e.bare()),
            _ => self,
        }
    }

    #[verifier::opaque]
    pub open spec fn kinds(self) -> Seq<KindView> {
        match self {
            ColumnConstraintView::NotNull => kw(Keyword::NOT) + seq![KindView::Null],
            ColumnConstraintView::PrimaryKey { desc, autoincrement } => kw(Keyword::PRIMARY)
                + kw(Keyword::KEY) + direction_kinds(desc) + flag_kinds(autoincrement,
                Keyword::AUTOINCREMENT),
            ColumnConstraintView::Unique => kw(Keyword::UNIQUE),
            ColumnConstraintView::Default(value) => kw(Keyword::DEFAULT) + value.kinds(),
            ColumnConstraintView::Check(e) => kw(Keyword::CHECK) + in_parens(e.kinds()),
            ColumnConstraintView::Collate(name) => kw(Keyword::COLLATE) + name_kinds(name),
        }
    }

    /// Whether the literals are spelled as tokens are, and no list is empty that cannot be.
    #[verifier::opaque]
    pub open spec fn holds(self) -> bool {
        match self {
            ColumnConstraintView::Default(value) => value.holds(),
            ColumnConstraintView::Check(e) => e.holds(),
            _ => true,
        }
    }
}

#[verifier::opaque]
pub open spec fn bare_constraints(v: Seq<ColumnConstraintView>) -> Seq<ColumnConstraintView> {
    Seq::new(v.len(), |i: int| v[i].bare())
}

#[verifier::opaque]
pub open spec fn constraints_kinds(v: Seq<ColumnConstraintView>) -> Seq<Seq<KindView>> {
    Seq::new(v.len(), |i: int| v[i].kinds())
}

#[verifier::opaque]
pub open spec fn constraints_hold(v: Seq<ColumnConstraintView>) -> bool {
    forall|i: int| 0 <= i < v.len() ==> (#[trigger] v[i]).holds()
}

pub proof fn lemma_constraints_push(v: Seq<ColumnConstraintView>, x: ColumnConstraintView)
    ensures
        bare_constraints(v.push(x)) == bare_constraints(v).push(x.bare()),
        constraints_kinds(v.push(x)) == constraints_kinds(v).push(x.kinds()),
        constraints_hold(v.push(x)) == (constraints_hold(v) && (x).holds()),
{
    reveal(bare_constraints);
    reveal(constraints_kinds);
    reveal(constraints_hold);
    reveal(ColumnConstraintView::bare);
    reveal(ColumnConstraintView::kinds);
    reveal(ColumnConstraintView::holds);
    assert(bare_constraints(v.push(x)) =~= bare_constraints(v).push(x.bare()));
    assert(constraints_kinds(v.push(x)) =~= constraints_kinds(v).push(x.kinds()));
    if constraints_hold(v.push(x)) {
        assert(v.push(x)[v.len() as int] == x);
        assert forall|i: int| 0 <= i < v.len() implies (#[trigger] v[i]).holds() by {
            assert(v.push(x)[i] == v[i]);
        }
    }
}

pub proof fn lemma_constraints_empty()
    ensures
        bare_constraints(seq![]) == Seq::<ColumnConstraintView>::empty(),
        constraints_kinds(seq![]) == Seq::<Seq<KindView>>::empty(),
        constraints_hold(seq![]),
{
    reveal(bare_constraints);
    reveal(constraints_kinds);
    reveal(constraints_hold);
    assert(bare_constraints(seq![]) =~= Seq::<ColumnConstraintView>::empty());
    assert(constraints_kinds(seq![]) =~= Seq::<Seq<KindView>>::empty());
}

pub proof fn lemma_constraints_at(v: Seq<ColumnConstraintView>, i: int)
    requires
        0 <= i < v.len(),
    ensures
        constraints_kinds(v)[i] == v[i].kinds(),
        constraints_hold(v) ==> (v[i]).holds(),
{
    reveal(constraints_kinds);
    reveal(constraints_hold);
    reveal(ColumnConstraintView::bare);
    reveal(ColumnConstraintView::kinds);
    reveal(ColumnConstraintView::holds);
}

pub proof fn lemma_constraints_len(v: Seq<ColumnConstraintView>)
    ensures
        bare_constraints(v).len() == v.len(),
        constraints_kinds(v).len() == v.len(),
{
    reveal(bare_constraints);
    reveal(constraints_kinds);
}

impl ColumnDefView {
    #[verifier::opaque]
    pub open spec fn bare(self) -> ColumnDefView {
        ColumnDefView { constraints: bare_constraints(self.constraints), ..self }
    }

    #[verifier::opaque]
    pub open spec fn kinds(self) -> Seq<KindView> {
        name_kinds(self.name) + (match self.declared_type { Some(words) => type_kinds(words),
            None => seq![] }) + each_after(seq![], constraints_kinds(self.constraints))
    }

    /// Whether the literals are spelled as tokens are, and no list is empty that cannot be.
    #[verifier::opaque]
    pub open spec fn holds(self) -> bool {
        constraints_hold(self.constraints)
    }
}

#[verifier::opaque]
pub open spec fn bare_defs(v: Seq<ColumnDefView>) -> Seq<ColumnDefView> {
    Seq::new(v.len(), |i: int| v[i].bare())
}

#[verifier::opaque]
pub open spec fn defs_kinds(v: Seq<ColumnDefView>) -> Seq<Seq<KindView>> {
    Seq::new(v.len(), |i: int| v[i].kinds())
}

#[verifier::opaque]
pub open spec fn defs_hold(v: Seq<ColumnDefView>) -> bool {
    forall|i: int| 0 <= i < v.len() ==> (#[trigger] v[i]).holds()
}

pub proof fn lemma_defs_push(v: Seq<ColumnDefView>, x: ColumnDefView)
    ensures
        bare_defs(v.push(x)) == bare_defs(v).push(x.bare()),
        defs_kinds(v.push(x)) == defs_kinds(v).push(x.kinds()),
        defs_hold(v.push(x)) == (defs_hold(v) && (x).holds()),
{
    reveal(bare_defs);
    reveal(defs_kinds);
    reveal(defs_hold);
    reveal(ColumnDefView::bare);
    reveal(ColumnDefView::kinds);
    reveal(ColumnDefView::holds);
    assert(bare_defs(v.push(x)) =~= bare_defs(v).push(x.bare()));
    assert(defs_kinds(v.push(x)) =~= defs_kinds(v).push(x.kinds()));
    if defs_hold(v.push(x)) {
        assert(v.push(x)[v.len() as int] == x);
        assert forall|i: int| 0 <= i < v.len() implies (#[trigger] v[i]).holds() by {
            assert(v.push(x)[i] == v[i]);
        }
    }
}

pub proof fn lemma_defs_empty()
    ensures
        bare_defs(seq![]) == Seq::<ColumnDefView>::empty(),
        defs_kinds(seq![]) == Seq::<Seq<KindView>>::empty(),
        defs_hold(seq![]),
{
    reveal(bare_defs);
    reveal(defs_kinds);
    reveal(defs_hold);
    assert(bare_defs(seq![]) =~= Seq::<ColumnDefView>::empty());
    assert(defs_kinds(seq![]) =~= Seq::<Seq<KindView>>::empty());
}

pub proof fn lemma_defs_at(v: Seq<ColumnDefView>, i: int)
    requires
        0 <= i < v.len(),
    ensures
        defs_kinds(v)[i] == v[i].kinds(),
        defs_hold(v) ==> (v[i]).holds(),
{
    reveal(defs_kinds);
    reveal(defs_hold);
    reveal(ColumnDefView::bare);
    reveal(ColumnDefView::kinds);
    reveal(ColumnDefView::holds);
}

pub proof fn lemma_defs_len(v: Seq<ColumnDefView>)
    ensures
        bare_defs(v).len() == v.len(),
        defs_kinds(v).len() == v.len(),
{
    reveal(bare_defs);
    reveal(defs_kinds);
}

impl IndexedColumnView {
    #[verifier::opaque]
    pub open spec fn bare(self) -> IndexedColumnView {
        IndexedColumnView { expr: self.expr.bare(), ..self }
    }

    #[verifier::opaque]
    pub open spec fn kinds(self) -> Seq<KindView> {
        self.expr.kinds() + direction_kinds(self.desc)
    }

    /// Whether the literals are spelled as tokens are, and no list is empty that cannot be.
    #[verifier::opaque]
    pub open spec fn holds(self) -> bool {
        self.expr.holds()
    }
}

#[verifier::opaque]
pub open spec fn bare_keys(v: Seq<IndexedColumnView>) -> Seq<IndexedColumnView> {
    Seq::new(v.len(), |i: int| v[i].bare())
}

#[verifier::opaque]
pub open spec fn keys_kinds(v: Seq<IndexedColumnView>) -> Seq<Seq<KindView>> {
    Seq::new(v.len(), |i: int| v[i].kinds())
}

#[verifier::opaque]
pub open spec fn keys_hold(v: Seq<IndexedColumnView>) -> bool {
    forall|i: int| 0 <= i < v.len() ==> (#[trigger] v[i]).holds()
}

pub proof fn lemma_keys_push(v: Seq<IndexedColumnView>, x: IndexedColumnView)
    ensures
        bare_keys(v.push(x)) == bare_keys(v).push(x.bare()),
        keys_kinds(v.push(x)) == keys_kinds(v).push(x.kinds()),
        keys_hold(v.push(x)) == (keys_hold(v) && (x).holds()),
{
    reveal(bare_keys);
    reveal(keys_kinds);
    reveal(keys_hold);
    reveal(IndexedColumnView::bare);
    reveal(IndexedColumnView::kinds);
    reveal(IndexedColumnView::holds);
    assert(bare_keys(v.push(x)) =~= bare_keys(v).push(x.bare()));
    assert(keys_kinds(v.push(x)) =~= keys_kinds(v).push(x.kinds()));
    if keys_hold(v.push(x)) {
        assert(v.push(x)[v.len() as int] == x);
        assert forall|i: int| 0 <= i < v.len() implies (#[trigger] v[i]).holds() by {
            assert(v.push(x)[i] == v[i]);
        }
    }
}

pub proof fn lemma_keys_empty()
    ensures
        bare_keys(seq![]) == Seq::<IndexedColumnView>::empty(),
        keys_kinds(seq![]) == Seq::<Seq<KindView>>::empty(),
        keys_hold(seq![]),
{
    reveal(bare_keys);
    reveal(keys_kinds);
    reveal(keys_hold);
    assert(bare_keys(seq![]) =~= Seq::<IndexedColumnView>::empty());
    assert(keys_kinds(seq![]) =~= Seq::<Seq<KindView>>::empty());
}

pub proof fn lemma_keys_at(v: Seq<IndexedColumnView>, i: int)
    requires
        0 <= i < v.len(),
    ensures
        keys_kinds(v)[i] == v[i].kinds(),
        keys_hold(v) ==> (v[i]).holds(),
{
    reveal(keys_kinds);
    reveal(keys_hold);
    reveal(IndexedColumnView::bare);
    reveal(IndexedColumnView::kinds);
    reveal(IndexedColumnView::holds);
}

pub proof fn lemma_keys_len(v: Seq<IndexedColumnView>)
    ensures
        bare_keys(v).len() == v.len(),
        keys_kinds(v).len() == v.len(),
{
    reveal(bare_keys);
    reveal(keys_kinds);
}

impl TableConstraintView {
    #[verifier::opaque]
    pub open spec fn bare(self) -> TableConstraintView {
        match self {
            TableConstraintView::PrimaryKey(keys) =>
                TableConstraintView::PrimaryKey(bare_keys(keys)),
            TableConstraintView::Unique(keys) => TableConstraintView::Unique(bare_keys(keys)),
            TableConstraintView::Check(e) => TableConstraintView::Check(e.bare()),
        }
    }

    #[verifier::opaque]
    pub open spec fn kinds(self) -> Seq<KindView> {
        match self {
            TableConstraintView::PrimaryKey(keys) => kw(Keyword::PRIMARY) + kw(Keyword::KEY)
                + in_parens(commas(keys_kinds(keys))),
            TableConstraintView::Unique(keys) => kw(Keyword::UNIQUE)
                + in_parens(commas(keys_kinds(keys))),
            TableConstraintView::Check(e) => kw(Keyword::CHECK) + in_parens(e.kinds()),
        }
    }

    /// Whether the literals are spelled as tokens are, and no list is empty that cannot be.
    #[verifier::opaque]
    pub open spec fn holds(self) -> bool {
        match self {
            TableConstraintView::PrimaryKey(keys) => keys_hold(keys),
            TableConstraintView::Unique(keys) => keys_hold(keys),
            TableConstraintView::Check(e) => e.holds(),
        }
    }
}

#[verifier::opaque]
pub open spec fn bare_rules(v: Seq<TableConstraintView>) -> Seq<TableConstraintView> {
    Seq::new(v.len(), |i: int| v[i].bare())
}

#[verifier::opaque]
pub open spec fn rules_kinds(v: Seq<TableConstraintView>) -> Seq<Seq<KindView>> {
    Seq::new(v.len(), |i: int| v[i].kinds())
}

#[verifier::opaque]
pub open spec fn rules_hold(v: Seq<TableConstraintView>) -> bool {
    forall|i: int| 0 <= i < v.len() ==> (#[trigger] v[i]).holds()
}

pub proof fn lemma_rules_push(v: Seq<TableConstraintView>, x: TableConstraintView)
    ensures
        bare_rules(v.push(x)) == bare_rules(v).push(x.bare()),
        rules_kinds(v.push(x)) == rules_kinds(v).push(x.kinds()),
        rules_hold(v.push(x)) == (rules_hold(v) && (x).holds()),
{
    reveal(bare_rules);
    reveal(rules_kinds);
    reveal(rules_hold);
    reveal(TableConstraintView::bare);
    reveal(TableConstraintView::kinds);
    reveal(TableConstraintView::holds);
    assert(bare_rules(v.push(x)) =~= bare_rules(v).push(x.bare()));
    assert(rules_kinds(v.push(x)) =~= rules_kinds(v).push(x.kinds()));
    if rules_hold(v.push(x)) {
        assert(v.push(x)[v.len() as int] == x);
        assert forall|i: int| 0 <= i < v.len() implies (#[trigger] v[i]).holds() by {
            assert(v.push(x)[i] == v[i]);
        }
    }
}

pub proof fn lemma_rules_empty()
    ensures
        bare_rules(seq![]) == Seq::<TableConstraintView>::empty(),
        rules_kinds(seq![]) == Seq::<Seq<KindView>>::empty(),
        rules_hold(seq![]),
{
    reveal(bare_rules);
    reveal(rules_kinds);
    reveal(rules_hold);
    assert(bare_rules(seq![]) =~= Seq::<TableConstraintView>::empty());
    assert(rules_kinds(seq![]) =~= Seq::<Seq<KindView>>::empty());
}

pub proof fn lemma_rules_at(v: Seq<TableConstraintView>, i: int)
    requires
        0 <= i < v.len(),
    ensures
        rules_kinds(v)[i] == v[i].kinds(),
        rules_hold(v) ==> (v[i]).holds(),
{
    reveal(rules_kinds);
    reveal(rules_hold);
    reveal(TableConstraintView::bare);
    reveal(TableConstraintView::kinds);
    reveal(TableConstraintView::holds);
}

pub proof fn lemma_rules_len(v: Seq<TableConstraintView>)
    ensures
        bare_rules(v).len() == v.len(),
        rules_kinds(v).len() == v.len(),
{
    reveal(bare_rules);
    reveal(rules_kinds);
}

impl CreateTableView {
    #[verifier::opaque]
    pub open spec fn bare(self) -> CreateTableView {
        CreateTableView { columns: bare_defs(self.columns),
            constraints: bare_rules(self.constraints), span: nowhere(), ..self }
    }

    #[verifier::opaque]
    pub open spec fn kinds(self) -> Seq<KindView> {
        kw(Keyword::CREATE) + kw(Keyword::TABLE) + if_not_exists_kinds(self.if_not_exists)
            + name_kinds(self.name) + seq![KindView::LParen] + commas(defs_kinds(self.columns))
            + each_after(seq![KindView::Comma], rules_kinds(self.constraints))
            + seq![KindView::RParen] + table_options_kinds(self.without_rowid, self.strict)
    }

    /// Whether the literals are spelled as tokens are, and no list is empty that cannot be.
    #[verifier::opaque]
    pub open spec fn holds(self) -> bool {
        defs_hold(self.columns) && rules_hold(self.constraints)
    }
}

pub open spec fn if_not_exists_kinds(flag: bool) -> Seq<KindView> {
    if flag {
        kw(Keyword::IF) + kw(Keyword::NOT) + kw(Keyword::EXISTS)
    } else {
        seq![]
    }
}

pub open spec fn if_exists_kinds(flag: bool) -> Seq<KindView> {
    if flag {
        kw(Keyword::IF) + kw(Keyword::EXISTS)
    } else {
        seq![]
    }
}

pub open spec fn table_options_kinds(without_rowid: bool, strict: bool) -> Seq<KindView> {
    if without_rowid {
        kw(Keyword::WITHOUT) + name_kinds("ROWID"@)
    } else if strict {
        name_kinds("STRICT"@)
    } else {
        seq![]
    }
}

pub open spec fn mode_kinds(mode: Option<TransactionMode>) -> Seq<KindView> {
    match mode {
        Some(TransactionMode::Deferred) => kw(Keyword::DEFERRED),
        Some(TransactionMode::Immediate) => kw(Keyword::IMMEDIATE),
        Some(TransactionMode::Exclusive) => kw(Keyword::EXCLUSIVE),
        None => seq![],
    }
}

impl CreateIndexView {
    #[verifier::opaque]
    pub open spec fn bare(self) -> CreateIndexView {
        CreateIndexView { columns: bare_keys(self.columns),
            where_clause: bare_optional(self.where_clause), span: nowhere(), ..self }
    }

    #[verifier::opaque]
    pub open spec fn kinds(self) -> Seq<KindView> {
        kw(Keyword::CREATE) + flag_kinds(self.unique, Keyword::UNIQUE) + kw(Keyword::INDEX)
            + if_not_exists_kinds(self.if_not_exists) + name_kinds(self.name) + kw(Keyword::ON)
            + name_kinds(self.table) + in_parens(commas(keys_kinds(self.columns)))
            + optional_kinds(Keyword::WHERE, self.where_clause)
    }

    /// Whether the literals are spelled as tokens are, and no list is empty that cannot be.
    #[verifier::opaque]
    pub open spec fn holds(self) -> bool {
        keys_hold(self.columns) && optional_holds(self.where_clause)
    }
}

impl DropTableView {
    #[verifier::opaque]
    pub open spec fn bare(self) -> DropTableView {
        DropTableView { span: nowhere(), ..self }
    }

    #[verifier::opaque]
    pub open spec fn kinds(self) -> Seq<KindView> {
        kw(Keyword::DROP) + kw(Keyword::TABLE) + if_exists_kinds(self.if_exists)
            + name_kinds(self.name)
    }

    /// Whether the literals are spelled as tokens are, and no list is empty that cannot be.
    #[verifier::opaque]
    pub open spec fn holds(self) -> bool {
        true
    }
}

impl DropIndexView {
    #[verifier::opaque]
    pub open spec fn bare(self) -> DropIndexView {
        DropIndexView { span: nowhere(), ..self }
    }

    #[verifier::opaque]
    pub open spec fn kinds(self) -> Seq<KindView> {
        kw(Keyword::DROP) + kw(Keyword::INDEX) + if_exists_kinds(self.if_exists)
            + name_kinds(self.name)
    }

    /// Whether the literals are spelled as tokens are, and no list is empty that cannot be.
    #[verifier::opaque]
    pub open spec fn holds(self) -> bool {
        true
    }
}

pub proof fn shape_literal(a: ExprView, l: LiteralView)
    requires
        a.kind == (ExprKindView::Literal(l)),
    ensures
        a.bare() == (ExprView { kind: ExprKindView::Literal(l), span: nowhere() }),
        a.kinds() == (l.kinds()),
        a.holds() == (l.is_spelled()),
{
    reveal(ExprView::bare);
    reveal(ExprView::kinds);
    reveal(ExprView::holds);
    reveal(LimitView::bare);
    reveal(LimitView::kinds);
    reveal(LimitView::holds);
}

pub proof fn shape_param(a: ExprView, p: ParamKindView)
    requires
        a.kind == (ExprKindView::Param(p)),
    ensures
        a.bare() == (ExprView { kind: ExprKindView::Param(p), span: nowhere() }),
        a.kinds() == (seq![KindView::Param(param_token(p))]),
        a.holds() == (is_param(param_token(p))),
{
    reveal(ExprView::bare);
    reveal(ExprView::kinds);
    reveal(ExprView::holds);
}

pub proof fn shape_column(a: ExprView, table: Option<Seq<char>>, catalog: Option<Seq<char>>,
    name: Seq<char>)
    requires
        a.kind == (ExprKindView::Column { table, catalog, name }),
    ensures
        a.bare() == (ExprView { kind: ExprKindView::Column { table, catalog, name },
            span: nowhere() }),
        a.kinds() == (qualifier_kinds(catalog) + qualifier_kinds(table) + name_kinds(name)),
        a.holds() == (true),
{
    reveal(ExprView::bare);
    reveal(ExprView::kinds);
    reveal(ExprView::holds);
}

pub proof fn shape_function_call(a: ExprView, name: Seq<char>, distinct: bool,
    args: FunctionArgsView)
    requires
        a.kind == (ExprKindView::FunctionCall { name, distinct, args }),
    ensures
        a.bare() == (ExprView { kind: ExprKindView::FunctionCall { name, distinct,
            args: args.bare() }, span: nowhere() }),
        a.kinds() == (call_kinds(name) + seq![KindView::LParen] + flag_kinds(distinct,
            Keyword::DISTINCT) + args.kinds() + seq![KindView::RParen]),
        a.holds() == (args.holds()),
{
    reveal(ExprView::bare);
    reveal(ExprView::kinds);
    reveal(ExprView::holds);
    reveal(FunctionArgsView::bare);
    reveal(FunctionArgsView::kinds);
    reveal(FunctionArgsView::holds);
}

pub proof fn shape_unary(a: ExprView, op: UnaryOp, expr: ExprView)
    requires
        a.kind == (ExprKindView::Unary { op, expr: Box::new(expr) }),
    ensures
        a.bare() == (ExprView { kind: ExprKindView::Unary { op, expr: Box::new(expr.bare()) },
            span: nowhere() }),
        a.kinds() == (seq![unary_kind(op)] + expr.kinds()),
        a.holds() == (expr.holds()),
{
    reveal(ExprView::bare);
    reveal(ExprView::kinds);
    reveal(ExprView::holds);
}

pub proof fn shape_binary(a: ExprView, op: BinaryOp, lhs: ExprView, rhs: ExprView)
    requires
        a.kind == (ExprKindView::Binary { op, lhs: Box::new(lhs), rhs: Box::new(rhs) }),
    ensures
        a.bare() == (ExprView { kind: ExprKindView::Binary { op, lhs: Box::new(lhs.bare()),
            rhs: Box::new(rhs.bare()) }, span: nowhere() }),
        a.kinds() == (lhs.kinds() + seq![binary_kind(op)] + rhs.kinds()),
        a.holds() == (lhs.holds() && rhs.holds()),
{
    reveal(ExprView::bare);
    reveal(ExprView::kinds);
    reveal(ExprView::holds);
}

pub proof fn shape_is(a: ExprView, lhs: ExprView, rhs: ExprView, negated: bool)
    requires
        a.kind == (ExprKindView::Is { lhs: Box::new(lhs), rhs: Box::new(rhs), negated }),
    ensures
        a.bare() == (ExprView { kind: ExprKindView::Is { lhs: Box::new(lhs.bare()),
            rhs: Box::new(rhs.bare()), negated }, span: nowhere() }),
        a.kinds() == (lhs.kinds() + kw(Keyword::IS) + flag_kinds(negated, Keyword::NOT)
            + rhs.kinds()),
        a.holds() == (lhs.holds() && rhs.holds()),
{
    reveal(ExprView::bare);
    reveal(ExprView::kinds);
    reveal(ExprView::holds);
}

pub proof fn shape_is_null(a: ExprView, expr: ExprView, negated: bool)
    requires
        a.kind == (ExprKindView::IsNull { expr: Box::new(expr), negated }),
    ensures
        a.bare() == (ExprView { kind: ExprKindView::IsNull { expr: Box::new(expr.bare()),
            negated }, span: nowhere() }),
        a.kinds() == (expr.kinds() + kw(if negated { Keyword::NOTNULL } else { Keyword::ISNULL })),
        a.holds() == (expr.holds()),
{
    reveal(ExprView::bare);
    reveal(ExprView::kinds);
    reveal(ExprView::holds);
}

pub proof fn shape_between(a: ExprView, expr: ExprView, lo: ExprView, hi: ExprView, negated: bool)
    requires
        a.kind == (ExprKindView::Between { expr: Box::new(expr), lo: Box::new(lo),
            hi: Box::new(hi), negated }),
    ensures
        a.bare() == (ExprView { kind: ExprKindView::Between { expr: Box::new(expr.bare()),
            lo: Box::new(lo.bare()), hi: Box::new(hi.bare()), negated }, span: nowhere() }),
        a.kinds() == (expr.kinds() + flag_kinds(negated, Keyword::NOT) + kw(Keyword::BETWEEN)
            + lo.kinds() + kw(Keyword::AND) + hi.kinds()),
        a.holds() == (expr.holds() && lo.holds() && hi.holds()),
{
    reveal(ExprView::bare);
    reveal(ExprView::kinds);
    reveal(ExprView::holds);
}

pub proof fn shape_in(a: ExprView, expr: ExprView, list: Seq<ExprView>, negated: bool)
    requires
        a.kind == (ExprKindView::In { expr: Box::new(expr), list, negated }),
    ensures
        a.bare() == (ExprView { kind: ExprKindView::In { expr: Box::new(expr.bare()),
            list: bare_exprs(list), negated }, span: nowhere() }),
        a.kinds() == (expr.kinds() + flag_kinds(negated, Keyword::NOT) + kw(Keyword::IN)
            + in_parens(commas(exprs_kinds(list)))),
        a.holds() == (expr.holds() && exprs_hold(list)),
{
    reveal(ExprView::bare);
    reveal(ExprView::kinds);
    reveal(ExprView::holds);
    reveal(bare_exprs);
    reveal(exprs_kinds);
    reveal(exprs_hold);
}

pub proof fn shape_like(a: ExprView, expr: ExprView, pattern: ExprView, glob: bool, negated: bool,
    escape: Option<Box<ExprView>>)
    requires
        a.kind == (ExprKindView::Like { expr: Box::new(expr), pattern: Box::new(pattern), glob,
            negated, escape }),
    ensures
        a.bare() == (ExprView { kind: ExprKindView::Like { expr: Box::new(expr.bare()),
            pattern: Box::new(pattern.bare()), glob, negated, escape: match escape { Some(e) =>
            Some(Box::new(e.bare())), None => None } }, span: nowhere() }),
        a.kinds() == (expr.kinds() + flag_kinds(negated, Keyword::NOT) + kw(if glob {
            Keyword::GLOB } else { Keyword::LIKE }) + pattern.kinds() + (match escape { Some(e) =>
            kw(Keyword::ESCAPE) + e.kinds(), None => seq![] })),
        a.holds() == (expr.holds() && pattern.holds() && (match escape { Some(e) => e.holds(),
            None => true })),
{
    reveal(ExprView::bare);
    reveal(ExprView::kinds);
    reveal(ExprView::holds);
}

pub proof fn shape_case(a: ExprView, operand: Option<Box<ExprView>>, whens: Seq<(ExprView,
    ExprView)>, else_: Option<Box<ExprView>>)
    requires
        a.kind == (ExprKindView::Case { operand, whens, else_ }),
    ensures
        a.bare() == (ExprView { kind: ExprKindView::Case { operand: match operand { Some(e) =>
            Some(Box::new(e.bare())), None => None }, whens: bare_whens(whens),
            else_: match else_ { Some(e) => Some(Box::new(e.bare())), None => None } },
            span: nowhere() }),
        a.kinds() == (kw(Keyword::CASE) + (match operand { Some(e) => e.kinds(), None => seq![] })
            + each_after(kw(Keyword::WHEN), whens_kinds(whens)) + (match else_ { Some(e) =>
            kw(Keyword::ELSE) + e.kinds(), None => seq![] }) + kw(Keyword::END)),
        a.holds() == ((match operand { Some(e) => e.holds(), None => true }) && whens_hold(whens)
            && (match else_ { Some(e) => e.holds(), None => true })),
{
    reveal(ExprView::bare);
    reveal(ExprView::kinds);
    reveal(ExprView::holds);
    reveal(bare_whens);
    reveal(whens_kinds);
    reveal(whens_hold);
}

pub proof fn shape_cast(a: ExprView, expr: ExprView, declared_type: Seq<char>)
    requires
        a.kind == (ExprKindView::Cast { expr: Box::new(expr), declared_type }),
    ensures
        a.bare() == (ExprView { kind: ExprKindView::Cast { expr: Box::new(expr.bare()),
            declared_type }, span: nowhere() }),
        a.kinds() == (kw(Keyword::CAST) + seq![KindView::LParen] + expr.kinds() + kw(Keyword::AS)
            + type_kinds(declared_type) + seq![KindView::RParen]),
        a.holds() == (expr.holds()),
{
    reveal(ExprView::bare);
    reveal(ExprView::kinds);
    reveal(ExprView::holds);
}

pub proof fn shape_collate(a: ExprView, expr: ExprView, collation: Seq<char>)
    requires
        a.kind == (ExprKindView::Collate { expr: Box::new(expr), collation }),
    ensures
        a.bare() == (ExprView { kind: ExprKindView::Collate { expr: Box::new(expr.bare()),
            collation }, span: nowhere() }),
        a.kinds() == (expr.kinds() + kw(Keyword::COLLATE) + name_kinds(collation)),
        a.holds() == (expr.holds()),
{
    reveal(ExprView::bare);
    reveal(ExprView::kinds);
    reveal(ExprView::holds);
}

pub proof fn shape_paren(a: ExprView, inner: ExprView)
    requires
        a.kind == (ExprKindView::Paren(Box::new(inner))),
    ensures
        a.bare() == (ExprView { kind: ExprKindView::Paren(Box::new(inner.bare())),
            span: nowhere() }),
        a.kinds() == (in_parens(inner.kinds())),
        a.holds() == (inner.holds()),
{
    reveal(ExprView::bare);
    reveal(ExprView::kinds);
    reveal(ExprView::holds);
}

pub proof fn shape_subquery(a: ExprView, select: SelectView)
    requires
        a.kind == (ExprKindView::Subquery(Box::new(select))),
    ensures
        a.bare() == (ExprView { kind: ExprKindView::Subquery(Box::new(select.bare())),
            span: nowhere() }),
        a.kinds() == (in_parens(select.kinds())),
        a.holds() == (select.holds()),
{
    reveal(ExprView::bare);
    reveal(ExprView::kinds);
    reveal(ExprView::holds);
    reveal(SelectView::bare);
    reveal(SelectView::kinds);
    reveal(SelectView::holds);
}

pub proof fn shape_exists(a: ExprView, subquery: SelectView, negated: bool)
    requires
        a.kind == (ExprKindView::Exists { subquery: Box::new(subquery), negated }),
    ensures
        a.bare() == (ExprView { kind: ExprKindView::Exists { subquery: Box::new(subquery.bare()),
            negated }, span: nowhere() }),
        a.kinds() == (flag_kinds(negated, Keyword::NOT) + kw(Keyword::EXISTS)
            + in_parens(subquery.kinds())),
        a.holds() == (subquery.holds()),
{
    reveal(ExprView::bare);
    reveal(ExprView::kinds);
    reveal(ExprView::holds);
    reveal(SelectView::bare);
    reveal(SelectView::kinds);
    reveal(SelectView::holds);
}

pub proof fn shape_in_subquery(a: ExprView, expr: ExprView, subquery: SelectView, negated: bool)
    requires
        a.kind == (ExprKindView::InSubquery { expr: Box::new(expr), subquery: Box::new(subquery),
            negated }),
    ensures
        a.bare() == (ExprView { kind: ExprKindView::InSubquery { expr: Box::new(expr.bare()),
            subquery: Box::new(subquery.bare()), negated }, span: nowhere() }),
        a.kinds() == (expr.kinds() + flag_kinds(negated, Keyword::NOT) + kw(Keyword::IN)
            + in_parens(subquery.kinds())),
        a.holds() == (expr.holds() && subquery.holds()),
{
    reveal(ExprView::bare);
    reveal(ExprView::kinds);
    reveal(ExprView::holds);
    reveal(SelectView::bare);
    reveal(SelectView::kinds);
    reveal(SelectView::holds);
}

pub proof fn shape_in_subquery_multi(a: ExprView, exprs: Seq<ExprView>, subquery: SelectView,
    negated: bool)
    requires
        a.kind == (ExprKindView::InSubqueryMulti { exprs, subquery: Box::new(subquery), negated }),
    ensures
        a.bare() == (ExprView { kind: ExprKindView::InSubqueryMulti { exprs: bare_exprs(exprs),
            subquery: Box::new(subquery.bare()), negated }, span: nowhere() }),
        a.kinds() == (in_parens(commas(exprs_kinds(exprs))) + flag_kinds(negated, Keyword::NOT)
            + kw(Keyword::IN) + in_parens(subquery.kinds())),
        a.holds() == (exprs_hold(exprs) && subquery.holds()),
{
    reveal(ExprView::bare);
    reveal(ExprView::kinds);
    reveal(ExprView::holds);
    reveal(SelectView::bare);
    reveal(SelectView::kinds);
    reveal(SelectView::holds);
    reveal(bare_exprs);
    reveal(exprs_kinds);
    reveal(exprs_hold);
}

pub proof fn shape_of_function_args(a: FunctionArgsView)
    ensures
        a.bare() == (match a {
            FunctionArgsView::Star => FunctionArgsView::Star,
            FunctionArgsView::List(list) => FunctionArgsView::List(bare_exprs(list)),
        }),
        a.kinds() == (match a {
            FunctionArgsView::Star => seq![KindView::Star],
            FunctionArgsView::List(list) => commas(exprs_kinds(list)),
        }),
        a.holds() == (match a {
            FunctionArgsView::Star => true,
            FunctionArgsView::List(list) => exprs_hold(list),
        }),
{
    reveal(FunctionArgsView::bare);
    reveal(FunctionArgsView::kinds);
    reveal(FunctionArgsView::holds);
    reveal(bare_exprs);
    reveal(exprs_kinds);
    reveal(exprs_hold);
    reveal(ExprView::bare);
    reveal(ExprView::kinds);
    reveal(ExprView::holds);
}

pub proof fn shape_of_result_column(a: ResultColumnView)
    ensures
        a.bare() == (match a {
            ResultColumnView::Expr { expr, alias } => ResultColumnView::Expr { expr: expr.bare(),
                alias },
            _ => a,
        }),
        a.kinds() == (match a {
            ResultColumnView::Star => seq![KindView::Star],
            ResultColumnView::TableStar { table } => name_kinds(table) + seq![KindView::Dot,
                KindView::Star],
            ResultColumnView::Expr { expr, alias } => expr.kinds() + alias_kinds(alias),
        }),
        a.holds() == (match a {
            ResultColumnView::Star => true,
            ResultColumnView::TableStar { .. } => true,
            ResultColumnView::Expr { expr, .. } => expr.holds(),
        }),
{
    reveal(ResultColumnView::bare);
    reveal(ResultColumnView::kinds);
    reveal(ResultColumnView::holds);
    reveal(ExprView::bare);
    reveal(ExprView::kinds);
    reveal(ExprView::holds);
}

pub proof fn shape_of_table_ref(a: TableRefView)
    ensures
        a.bare() == (TableRefView {
            kind: match a.kind {
            TableRefKindView::Name(name) => TableRefKindView::Name(name),
            TableRefKindView::Subquery(select) =>
                TableRefKindView::Subquery(Box::new(select.bare())),
        },
            alias: a.alias,
            span: nowhere(),
        }),
        a.kinds() == ((match a.kind {
            TableRefKindView::Name(name) => name_kinds(name),
            TableRefKindView::Subquery(select) => in_parens(select.kinds()),
        }) + alias_kinds(a.alias)),
        a.holds() == (match a.kind {
            TableRefKindView::Name(_) => true,
            TableRefKindView::Subquery(select) => select.holds(),
        }),
{
    reveal(TableRefView::bare);
    reveal(TableRefView::kinds);
    reveal(TableRefView::holds);
    reveal(SelectView::bare);
    reveal(SelectView::kinds);
    reveal(SelectView::holds);
    reveal(ExprView::bare);
    reveal(ExprView::kinds);
    reveal(ExprView::holds);
}

pub proof fn shape_of_join(a: JoinView)
    ensures
        a.bare() == (JoinView {
            table: a.table.bare(),
            constraint: match a.constraint {
            Some(JoinConstraintView::On(e)) => Some(JoinConstraintView::On(e.bare())),
            Some(JoinConstraintView::Using(names)) => Some(JoinConstraintView::Using(names)),
            None => None,
        },
            ..a
        }),
        a.kinds() == (flag_kinds(a.natural, Keyword::NATURAL) + join_op_kinds(a.op)
            + a.table.kinds() + (match a.constraint {
            Some(JoinConstraintView::On(e)) => kw(Keyword::ON) + e.kinds(),
            Some(JoinConstraintView::Using(names)) => kw(Keyword::USING)
                + in_parens(commas(names_list(names))),
            None => seq![],
        })),
        a.holds() == (a.table.holds() && match a.constraint {
            Some(JoinConstraintView::On(e)) => e.holds(),
            Some(JoinConstraintView::Using(_)) => true,
            None => true,
        }),
{
    reveal(JoinView::bare);
    reveal(JoinView::kinds);
    reveal(JoinView::holds);
    reveal(TableRefView::bare);
    reveal(TableRefView::kinds);
    reveal(TableRefView::holds);
    reveal(ExprView::bare);
    reveal(ExprView::kinds);
    reveal(ExprView::holds);
}

pub proof fn shape_of_from_clause(a: FromClauseView)
    ensures
        a.bare() == (FromClauseView { first: a.first.bare(), joins: bare_joins(a.joins) }),
        a.kinds() == (a.first.kinds() + each_after(seq![], joins_kinds(a.joins))),
        a.holds() == (a.first.holds() && joins_hold(a.joins)),
{
    reveal(FromClauseView::bare);
    reveal(FromClauseView::kinds);
    reveal(FromClauseView::holds);
    reveal(TableRefView::bare);
    reveal(TableRefView::kinds);
    reveal(TableRefView::holds);
    reveal(bare_joins);
    reveal(joins_kinds);
    reveal(joins_hold);
    reveal(ExprView::bare);
    reveal(ExprView::kinds);
    reveal(ExprView::holds);
}

pub proof fn shape_of_ordering_term(a: OrderingTermView)
    ensures
        a.bare() == (OrderingTermView { expr: a.expr.bare(), ..a }),
        a.kinds() == (a.expr.kinds() + direction_kinds(a.desc) + nulls_kinds(a.nulls_last)),
        a.holds() == (a.expr.holds()),
{
    reveal(OrderingTermView::bare);
    reveal(OrderingTermView::kinds);
    reveal(OrderingTermView::holds);
    reveal(ExprView::bare);
    reveal(ExprView::kinds);
    reveal(ExprView::holds);
}

pub proof fn shape_of_limit(a: LimitView)
    ensures
        a.bare() == (LimitView { limit: a.limit.bare(), offset: bare_optional(a.offset) }),
        a.kinds() == (kw(Keyword::LIMIT) + a.limit.kinds() + optional_kinds(Keyword::OFFSET,
            a.offset)),
        a.holds() == (a.limit.holds() && optional_holds(a.offset)),
{
    reveal(LimitView::bare);
    reveal(LimitView::kinds);
    reveal(LimitView::holds);
    reveal(ExprView::bare);
    reveal(ExprView::kinds);
    reveal(ExprView::holds);
    reveal(bare_optional);
    reveal(optional_kinds);
    reveal(optional_holds);
}

pub proof fn shape_of_compound_select(a: CompoundSelectView)
    ensures
        a.bare() == (CompoundSelectView {
            columns: bare_columns(a.columns),
            from: bare_from(a.from),
            where_clause: bare_optional(a.where_clause),
            group_by: bare_exprs(a.group_by),
            having: bare_optional(a.having),
            span: nowhere(),
            ..a
        }),
        a.kinds() == (kw(Keyword::UNION) + kw(Keyword::ALL) + kw(Keyword::SELECT) + core_kinds(
            a.distinct,
            columns_kinds(a.columns),
            from_kinds(a.from),
            optional_kinds(Keyword::WHERE, a.where_clause),
            exprs_kinds(a.group_by),
            optional_kinds(Keyword::HAVING, a.having),
        )),
        a.holds() == (a.columns.len() > 0 && columns_hold(a.columns) && from_holds(a.from)
            && optional_holds(a.where_clause) && exprs_hold(a.group_by)
            && optional_holds(a.having)),
{
    reveal(CompoundSelectView::bare);
    reveal(CompoundSelectView::kinds);
    reveal(CompoundSelectView::holds);
    reveal(bare_exprs);
    reveal(exprs_kinds);
    reveal(exprs_hold);
    reveal(bare_columns);
    reveal(columns_kinds);
    reveal(columns_hold);
    reveal(bare_optional);
    reveal(optional_kinds);
    reveal(optional_holds);
    reveal(bare_from);
    reveal(from_kinds);
    reveal(from_holds);
    reveal(ExprView::bare);
    reveal(ExprView::kinds);
    reveal(ExprView::holds);
}

pub proof fn shape_of_select(a: SelectView)
    ensures
        a.bare() == (SelectView {
            columns: bare_columns(a.columns),
            from: bare_from(a.from),
            where_clause: bare_optional(a.where_clause),
            group_by: bare_exprs(a.group_by),
            having: bare_optional(a.having),
            compound: bare_arms(a.compound),
            order_by: bare_terms(a.order_by),
            limit: match a.limit { Some(l) => Some(l.bare()), None => None },
            span: nowhere(),
            ..a
        }),
        a.kinds() == (kw(Keyword::SELECT) + core_kinds(
            a.distinct,
            columns_kinds(a.columns),
            from_kinds(a.from),
            optional_kinds(Keyword::WHERE, a.where_clause),
            exprs_kinds(a.group_by),
            optional_kinds(Keyword::HAVING, a.having),
        ) + each_after(seq![], arms_kinds(a.compound)) + clause_kinds(kw(Keyword::ORDER)
            + kw(Keyword::BY), terms_kinds(a.order_by)) + (match a.limit { Some(l) => l.kinds(),
            None => seq![] })),
        a.holds() == (a.columns.len() > 0 && columns_hold(a.columns) && from_holds(a.from)
            && optional_holds(a.where_clause) && exprs_hold(a.group_by) && optional_holds(a.having)
            && arms_hold(a.compound) && terms_hold(a.order_by) && (match a.limit { Some(l) =>
            l.holds(), None => true })),
{
    reveal(SelectView::bare);
    reveal(SelectView::kinds);
    reveal(SelectView::holds);
    reveal(LimitView::bare);
    reveal(LimitView::kinds);
    reveal(LimitView::holds);
    reveal(bare_exprs);
    reveal(exprs_kinds);
    reveal(exprs_hold);
    reveal(bare_columns);
    reveal(columns_kinds);
    reveal(columns_hold);
    reveal(bare_terms);
    reveal(terms_kinds);
    reveal(terms_hold);
    reveal(bare_arms);
    reveal(arms_kinds);
    reveal(arms_hold);
    reveal(bare_optional);
    reveal(optional_kinds);
    reveal(optional_holds);
    reveal(bare_from);
    reveal(from_kinds);
    reveal(from_holds);
    reveal(ExprView::bare);
    reveal(ExprView::kinds);
    reveal(ExprView::holds);
}

pub proof fn shape_of_core(a: CoreView)
    ensures
        a.bare() == (CoreView {
            columns: bare_columns(a.columns),
            from: bare_from(a.from),
            where_clause: bare_optional(a.where_clause),
            group_by: bare_exprs(a.group_by),
            having: bare_optional(a.having),
            ..a
        }),
        a.kinds() == (core_kinds(
            a.distinct,
            columns_kinds(a.columns),
            from_kinds(a.from),
            optional_kinds(Keyword::WHERE, a.where_clause),
            exprs_kinds(a.group_by),
            optional_kinds(Keyword::HAVING, a.having),
        )),
        a.holds() == (a.columns.len() > 0 && columns_hold(a.columns) && from_holds(a.from)
            && optional_holds(a.where_clause) && exprs_hold(a.group_by)
            && optional_holds(a.having)),
{
    reveal(CoreView::bare);
    reveal(CoreView::kinds);
    reveal(CoreView::holds);
    reveal(bare_exprs);
    reveal(exprs_kinds);
    reveal(exprs_hold);
    reveal(bare_columns);
    reveal(columns_kinds);
    reveal(columns_hold);
    reveal(bare_optional);
    reveal(optional_kinds);
    reveal(optional_holds);
    reveal(bare_from);
    reveal(from_kinds);
    reveal(from_holds);
    reveal(ExprView::bare);
    reveal(ExprView::kinds);
    reveal(ExprView::holds);
}

pub proof fn shape_of_insert_source(a: InsertSourceView)
    ensures
        a.bare() == (match a {
            InsertSourceView::DefaultValues => InsertSourceView::DefaultValues,
            InsertSourceView::Values(rows) => InsertSourceView::Values(bare_rows(rows)),
            InsertSourceView::Select(select) => InsertSourceView::Select(Box::new(select.bare())),
        }),
        a.kinds() == (match a {
            InsertSourceView::DefaultValues => kw(Keyword::DEFAULT) + kw(Keyword::VALUES),
            InsertSourceView::Values(rows) => kw(Keyword::VALUES) + commas(rows_kinds(rows)),
            InsertSourceView::Select(select) => select.kinds(),
        }),
        a.holds() == (match a {
            InsertSourceView::DefaultValues => true,
            InsertSourceView::Values(rows) => rows.len() > 0 && rows_hold(rows),
            InsertSourceView::Select(select) => select.holds(),
        }),
{
    reveal(InsertSourceView::bare);
    reveal(InsertSourceView::kinds);
    reveal(InsertSourceView::holds);
    reveal(SelectView::bare);
    reveal(SelectView::kinds);
    reveal(SelectView::holds);
    reveal(ExprView::bare);
    reveal(ExprView::kinds);
    reveal(ExprView::holds);
}

pub proof fn shape_of_insert(a: InsertView)
    ensures
        a.bare() == (InsertView { source: a.source.bare(), span: nowhere(), ..a }),
        a.kinds() == (kw(Keyword::INSERT) + conflict_kinds(a.or_action) + kw(Keyword::INTO)
            + name_kinds(a.table) + optional_names_kinds(a.columns) + a.source.kinds()),
        a.holds() == (a.source.holds()),
{
    reveal(InsertView::bare);
    reveal(InsertView::kinds);
    reveal(InsertView::holds);
    reveal(ExprView::bare);
    reveal(ExprView::kinds);
    reveal(ExprView::holds);
}

pub proof fn shape_of_delete(a: DeleteView)
    ensures
        a.bare() == (DeleteView { where_clause: bare_optional(a.where_clause), span: nowhere(),
            ..a }),
        a.kinds() == (kw(Keyword::DELETE) + kw(Keyword::FROM) + name_kinds(a.table)
            + optional_kinds(Keyword::WHERE, a.where_clause)),
        a.holds() == (optional_holds(a.where_clause)),
{
    reveal(DeleteView::bare);
    reveal(DeleteView::kinds);
    reveal(DeleteView::holds);
    reveal(bare_optional);
    reveal(optional_kinds);
    reveal(optional_holds);
    reveal(ExprView::bare);
    reveal(ExprView::kinds);
    reveal(ExprView::holds);
}

pub proof fn shape_of_default_value(a: DefaultValueView)
    ensures
        a.bare() == (match a {
            DefaultValueView::Literal(e) => DefaultValueView::Literal(e.bare()),
            DefaultValueView::Paren(e) => DefaultValueView::Paren(e.bare()),
        }),
        a.kinds() == (match a {
            DefaultValueView::Literal(e) => default_kinds(e),
            DefaultValueView::Paren(e) => in_parens(e.kinds()),
        }),
        a.holds() == (match a {
            DefaultValueView::Literal(e) => e.holds(),
            DefaultValueView::Paren(e) => e.holds(),
        }),
{
    reveal(DefaultValueView::bare);
    reveal(DefaultValueView::kinds);
    reveal(DefaultValueView::holds);
    reveal(ExprView::bare);
    reveal(ExprView::kinds);
    reveal(ExprView::holds);
}

pub proof fn shape_of_column_constraint(a: ColumnConstraintView)
    ensures
        a.bare() == (match a {
            ColumnConstraintView::Default(value) => ColumnConstraintView::Default(value.bare()),
            ColumnConstraintView::Check(e) => ColumnConstraintView::Check(e.bare()),
            _ => a,
        }),
        a.kinds() == (match a {
            ColumnConstraintView::NotNull => kw(Keyword::NOT) + seq![KindView::Null],
            ColumnConstraintView::PrimaryKey { desc, autoincrement } => kw(Keyword::PRIMARY)
                + kw(Keyword::KEY) + direction_kinds(desc) + flag_kinds(autoincrement,
                Keyword::AUTOINCREMENT),
            ColumnConstraintView::Unique => kw(Keyword::UNIQUE),
            ColumnConstraintView::Default(value) => kw(Keyword::DEFAULT) + value.kinds(),
            ColumnConstraintView::Check(e) => kw(Keyword::CHECK) + in_parens(e.kinds()),
            ColumnConstraintView::Collate(name) => kw(Keyword::COLLATE) + name_kinds(name),
        }),
        a.holds() == (match a {
            ColumnConstraintView::Default(value) => value.holds(),
            ColumnConstraintView::Check(e) => e.holds(),
            _ => true,
        }),
{
    reveal(ColumnConstraintView::bare);
    reveal(ColumnConstraintView::kinds);
    reveal(ColumnConstraintView::holds);
    reveal(ExprView::bare);
    reveal(ExprView::kinds);
    reveal(ExprView::holds);
}

pub proof fn shape_of_column_def(a: ColumnDefView)
    ensures
        a.bare() == (ColumnDefView { constraints: bare_constraints(a.constraints), ..a }),
        a.kinds() == (name_kinds(a.name) + (match a.declared_type { Some(words) =>
            type_kinds(words), None => seq![] }) + each_after(seq![],
            constraints_kinds(a.constraints))),
        a.holds() == (constraints_hold(a.constraints)),
{
    reveal(ColumnDefView::bare);
    reveal(ColumnDefView::kinds);
    reveal(ColumnDefView::holds);
    reveal(ExprView::bare);
    reveal(ExprView::kinds);
    reveal(ExprView::holds);
}

pub proof fn shape_of_indexed_column(a: IndexedColumnView)
    ensures
        a.bare() == (IndexedColumnView { expr: a.expr.bare(), ..a }),
        a.kinds() == (a.expr.kinds() + direction_kinds(a.desc)),
        a.holds() == (a.expr.holds()),
{
    reveal(IndexedColumnView::bare);
    reveal(IndexedColumnView::kinds);
    reveal(IndexedColumnView::holds);
    reveal(ExprView::bare);
    reveal(ExprView::kinds);
    reveal(ExprView::holds);
}

pub proof fn shape_of_table_constraint(a: TableConstraintView)
    ensures
        a.bare() == (match a {
            TableConstraintView::PrimaryKey(keys) =>
                TableConstraintView::PrimaryKey(bare_keys(keys)),
            TableConstraintView::Unique(keys) => TableConstraintView::Unique(bare_keys(keys)),
            TableConstraintView::Check(e) => TableConstraintView::Check(e.bare()),
        }),
        a.kinds() == (match a {
            TableConstraintView::PrimaryKey(keys) => kw(Keyword::PRIMARY) + kw(Keyword::KEY)
                + in_parens(commas(keys_kinds(keys))),
            TableConstraintView::Unique(keys) => kw(Keyword::UNIQUE)
                + in_parens(commas(keys_kinds(keys))),
            TableConstraintView::Check(e) => kw(Keyword::CHECK) + in_parens(e.kinds()),
        }),
        a.holds() == (match a {
            TableConstraintView::PrimaryKey(keys) => keys_hold(keys),
            TableConstraintView::Unique(keys) => keys_hold(keys),
            TableConstraintView::Check(e) => e.holds(),
        }),
{
    reveal(TableConstraintView::bare);
    reveal(TableConstraintView::kinds);
    reveal(TableConstraintView::holds);
    reveal(ExprView::bare);
    reveal(ExprView::kinds);
    reveal(ExprView::holds);
}

pub proof fn shape_of_create_table(a: CreateTableView)
    ensures
        a.bare() == (CreateTableView { columns: bare_defs(a.columns),
            constraints: bare_rules(a.constraints), span: nowhere(), ..a }),
        a.kinds() == (kw(Keyword::CREATE) + kw(Keyword::TABLE)
            + if_not_exists_kinds(a.if_not_exists) + name_kinds(a.name) + seq![KindView::LParen]
            + commas(defs_kinds(a.columns)) + each_after(seq![KindView::Comma],
            rules_kinds(a.constraints)) + seq![KindView::RParen]
            + table_options_kinds(a.without_rowid, a.strict)),
        a.holds() == (defs_hold(a.columns) && rules_hold(a.constraints)),
{
    reveal(CreateTableView::bare);
    reveal(CreateTableView::kinds);
    reveal(CreateTableView::holds);
    reveal(ExprView::bare);
    reveal(ExprView::kinds);
    reveal(ExprView::holds);
}

pub proof fn shape_of_create_index(a: CreateIndexView)
    ensures
        a.bare() == (CreateIndexView { columns: bare_keys(a.columns),
            where_clause: bare_optional(a.where_clause), span: nowhere(), ..a }),
        a.kinds() == (kw(Keyword::CREATE) + flag_kinds(a.unique, Keyword::UNIQUE)
            + kw(Keyword::INDEX) + if_not_exists_kinds(a.if_not_exists) + name_kinds(a.name)
            + kw(Keyword::ON) + name_kinds(a.table) + in_parens(commas(keys_kinds(a.columns)))
            + optional_kinds(Keyword::WHERE, a.where_clause)),
        a.holds() == (keys_hold(a.columns) && optional_holds(a.where_clause)),
{
    reveal(CreateIndexView::bare);
    reveal(CreateIndexView::kinds);
    reveal(CreateIndexView::holds);
    reveal(bare_optional);
    reveal(optional_kinds);
    reveal(optional_holds);
    reveal(ExprView::bare);
    reveal(ExprView::kinds);
    reveal(ExprView::holds);
}

pub proof fn shape_of_drop_table(a: DropTableView)
    ensures
        a.bare() == (DropTableView { span: nowhere(), ..a }),
        a.kinds() == (kw(Keyword::DROP) + kw(Keyword::TABLE) + if_exists_kinds(a.if_exists)
            + name_kinds(a.name)),
        a.holds() == (true),
{
    reveal(DropTableView::bare);
    reveal(DropTableView::kinds);
    reveal(DropTableView::holds);
    reveal(ExprView::bare);
    reveal(ExprView::kinds);
    reveal(ExprView::holds);
}

pub proof fn shape_of_drop_index(a: DropIndexView)
    ensures
        a.bare() == (DropIndexView { span: nowhere(), ..a }),
        a.kinds() == (kw(Keyword::DROP) + kw(Keyword::INDEX) + if_exists_kinds(a.if_exists)
            + name_kinds(a.name)),
        a.holds() == (true),
{
    reveal(DropIndexView::bare);
    reveal(DropIndexView::kinds);
    reveal(DropIndexView::holds);
    reveal(ExprView::bare);
    reveal(ExprView::kinds);
    reveal(ExprView::holds);
}

} // verus!
