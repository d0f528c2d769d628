//! Text-to-numeric coercion and checked arithmetic. Integer overflow promotes to REAL
//! rather than silently wrapping.
//!
//! Whatever is exact in integers is computed here. What takes floating point is described
//! as a [`Calculation`], one [`Task`] at a time, and carried on once its result is there.
use crate::double;
use crate::record::value::{Value, ValueView};
use crate::text;
use vstd::prelude::*;

verus! {

/// A space, tab, line feed, form feed or carriage return.
pub open spec fn is_blank(c: char) -> bool {
    c == ' ' || c == '\t' || c == '\n' || c == '\x0c' || c == '\r'
}

/// Where the run of blanks at `i` ends.
pub open spec fn blanks_end(s: Seq<char>, i: int) -> int
    decreases s.len() - i,
{
    if 0 <= i < s.len() && is_blank(s[i]) {
        blanks_end(s, i + 1)
    } else {
        i
    }
}

/// Where the run of digits at `i` ends.
pub open spec fn digits_end(s: Seq<char>, i: int) -> int
    decreases s.len() - i,
{
    if 0 <= i < s.len() && text::is_digit(s[i]) {
        digits_end(s, i + 1)
    } else {
        i
    }
}

/// Behind a sign at `i`, or `i` where none stands there.
pub open spec fn behind_sign(s: Seq<char>, i: int) -> int {
    if 0 <= i < s.len() && (s[i] == '+' || s[i] == '-') {
        i + 1
    } else {
        i
    }
}

/// Where an exponent that begins at `i` ends, or `i` where none begins there.
pub open spec fn exponent_end(s: Seq<char>, i: int) -> int {
    if 0 <= i < s.len() && (s[i] == 'e' || s[i] == 'E') && digits_end(s, behind_sign(s, i + 1))
        > behind_sign(s, i + 1) {
        digits_end(s, behind_sign(s, i + 1))
    } else {
        i
    }
}

/// A numeric literal at the beginning of a text.
pub struct NumberPrefix {
    pub start: int,
    pub end: int,
    pub is_float: bool,
}

/// The longest numeric literal `s` begins with, behind blanks: an optional sign, digits, an
/// optional decimal point with digits, and an optional exponent. It takes a digit before or
/// behind the point.
pub open spec fn number_prefix(s: Seq<char>) -> Option<NumberPrefix> {
    let start = blanks_end(s, 0);
    let digits = behind_sign(s, start);
    let whole = digits_end(s, digits);
    let has_point = whole < s.len() && s[whole] == '.' && (whole > digits || digits_end(
        s,
        whole + 1,
    ) > whole + 1);
    let mantissa = if has_point {
        digits_end(s, whole + 1)
    } else {
        whole
    };
    if whole == digits && !has_point {
        None
    } else {
        let end = exponent_end(s, mantissa);
        Some(NumberPrefix { start, end, is_float: has_point || end > mantissa })
    }
}

/// The digits of an integer literal, without its sign.
pub open spec fn integer_digits(s: Seq<char>) -> Seq<char> {
    if s.len() > 0 && (s[0] == '+' || s[0] == '-') {
        s.skip(1)
    } else {
        s
    }
}

/// All of `s` is an optional sign and at least one digit.
pub open spec fn is_integer_literal(s: Seq<char>) -> bool {
    integer_digits(s).len() > 0 && (forall|j: int|
        0 <= j < integer_digits(s).len() ==> text::is_digit(#[trigger] integer_digits(s)[j]))
}

/// What an integer literal denotes.
pub open spec fn literal_value(s: Seq<char>) -> int {
    if s[0] == '-' {
        -(text::number(integer_digits(s), 10) as int)
    } else {
        text::number(integer_digits(s), 10) as int
    }
}

/// The integer that all of `s` spells, where it has 64 bits.
pub open spec fn integer_of(s: Seq<char>) -> Option<i64> {
    if is_integer_literal(s) && i64::MIN <= literal_value(s) <= i64::MAX {
        Some(literal_value(s) as i64)
    } else {
        None
    }
}

/// A number that takes part in a calculation.
#[derive(Debug, Clone, PartialEq)]
pub enum Operand {
    Integer(i64),
    /// A floating-point value, as its bit pattern.
    Real(u64),
    /// A numeric literal whose floating-point value is yet to be found.
    Decimal(String),
}

/// What an [`Operand`] stands for.
#[verifier::ext_equal]
pub enum OperandView {
    Integer(i64),
    Real(u64),
    Decimal(Seq<char>),
}

impl Operand {
    pub open spec fn view(&self) -> OperandView {
        match self {
            Operand::Integer(i) => OperandView::Integer(*i),
            Operand::Real(r) => OperandView::Real(*r),
            Operand::Decimal(s) => OperandView::Decimal(s@),
        }
    }

    /// An operand of its own that stands for the same.
    pub fn copy(&self) -> (r: Operand)
        ensures
            r@ == self@,
    {
        match self {
            Operand::Integer(i) => Operand::Integer(*i),
            Operand::Real(r) => Operand::Real(*r),
            Operand::Decimal(s) => Operand::Decimal(s.clone()),
        }
    }
}

/// What `s` is worth as a number: its longest numeric prefix, or zero without one.
pub open spec fn text_operand(s: Seq<char>) -> OperandView {
    match number_prefix(s) {
        None => OperandView::Integer(0),
        Some(p) => {
            let literal = s.subrange(p.start, p.end);
            if p.is_float {
                OperandView::Decimal(literal)
            } else {
                match integer_of(literal) {
                    Some(i) => OperandView::Integer(i),
                    None => OperandView::Decimal(literal),
                }
            }
        },
    }
}

/// What `v` is worth as a number.
pub open spec fn value_operand(v: ValueView) -> OperandView {
    match v {
        ValueView::Integer(i) => OperandView::Integer(i),
        ValueView::Real(r) => OperandView::Real(r),
        ValueView::Text(s) => text_operand(s),
        ValueView::Null => OperandView::Integer(0),
        ValueView::Blob(_) => OperandView::Integer(0),
    }
}

pub proof fn lemma_blanks_end(s: Seq<char>, i: int)
    requires
        0 <= i <= s.len(),
    ensures
        i <= blanks_end(s, i) <= s.len(),
    decreases s.len() - i,
{
    if i < s.len() && is_blank(s[i]) {
        lemma_blanks_end(s, i + 1);
    }
}

pub proof fn lemma_digits_end(s: Seq<char>, i: int)
    requires
        0 <= i <= s.len(),
    ensures
        i <= digits_end(s, i) <= s.len(),
        forall|j: int| i <= j < digits_end(s, i) ==> text::is_digit(#[trigger] s[j]),
    decreases s.len() - i,
{
    if i < s.len() && text::is_digit(s[i]) {
        lemma_digits_end(s, i + 1);
    }
}

/// Behind a run of digits stands none.
pub proof fn lemma_digits_stop(s: Seq<char>, i: int)
    requires
        0 <= i <= s.len(),
    ensures
        digits_end(s, i) < s.len() ==> !text::is_digit(s[digits_end(s, i)]),
    decreases s.len() - i,
{
    if i < s.len() && text::is_digit(s[i]) {
        lemma_digits_stop(s, i + 1);
    }
}

/// The end of the run of blanks at `from`.
fn skip_blanks(v: &Vec<char>, from: usize) -> (to: usize)
    requires
        from <= v.len(),
    ensures
        to == blanks_end(v@, from as int),
        from <= to <= v.len(),
{
    let mut i: usize = from;
    while i < v.len() && (v[i] == ' ' || v[i] == '\t' || v[i] == '\n' || v[i] == '\x0c' || v[i]
        == '\r')
        invariant
            from <= i <= v.len(),
            blanks_end(v@, i as int) == blanks_end(v@, from as int),
        decreases v.len() - i,
    {
        i = i + 1;
    }
    i
}

/// The end of the run of digits at `from`.
pub(crate) fn skip_digits(v: &Vec<char>, from: usize) -> (to: usize)
    requires
        from <= v.len(),
    ensures
        to == digits_end(v@, from as int),
        from <= to <= v.len(),
{
    let mut i: usize = from;
    while i < v.len() && '0' <= v[i] && v[i] <= '9'
        invariant
            from <= i <= v.len(),
            digits_end(v@, i as int) == digits_end(v@, from as int),
        decreases v.len() - i,
    {
        i = i + 1;
    }
    i
}

/// Behind a sign at `from`, where one stands there.
fn skip_sign(v: &Vec<char>, from: usize) -> (to: usize)
    requires
        from <= v.len(),
    ensures
        to == behind_sign(v@, from as int),
        from <= to <= v.len(),
{
    if from < v.len() && (v[from] == '+' || v[from] == '-') {
        from + 1
    } else {
        from
    }
}

/// Locates the longest valid numeric prefix of `v`: optional leading blanks, optional sign,
/// digits, an optional decimal point and digits, and an optional exponent. Returns the
/// range of the literal and whether it is float-shaped (has a `.` or exponent), or `None`
/// if no numeric prefix exists at all.
fn scan_number_prefix(v: &Vec<char>) -> (r: Option<(usize, usize, bool)>)
    ensures
        match r {
            None => number_prefix(v@) is None,
            Some((start, end, is_float)) => {
                &&& number_prefix(v@) == Some(
                    NumberPrefix { start: start as int, end: end as int, is_float },
                )
                &&& start <= end <= v.len()
            },
        },
{
    let start = skip_blanks(v, 0);
    let digits = skip_sign(v, start);
    let whole = skip_digits(v, digits);
    let mut end: usize = whole;
    let mut is_float = false;
    if whole < v.len() && v[whole] == '.' {
        let fraction = skip_digits(v, whole + 1);
        if whole > digits || fraction > whole + 1 {
            is_float = true;
            end = fraction;
        }
    }
    if whole == digits && !is_float {
        return None;
    }
    let ghost mantissa = end as int;
    if end < v.len() && (v[end] == 'e' || v[end] == 'E') {
        let from = skip_sign(v, end + 1);
        let to = skip_digits(v, from);
        if to > from {
            end = to;
            is_float = true;
        }
    }
    assert(end == exponent_end(v@, mantissa));
    Some((start, end, is_float))
}

/// Reads all of `v[from..to]` as an integer of 64 bits.
pub(crate) fn parse_integer(v: &Vec<char>, from: usize, to: usize) -> (r: Option<i64>)
    requires
        from <= to <= v.len(),
    ensures
        r == integer_of(v@.subrange(from as int, to as int)),
{
    let ghost s = v@.subrange(from as int, to as int);
    let signed = from < to && (v[from] == '+' || v[from] == '-');
    let first: usize = if signed {
        from + 1
    } else {
        from
    };
    assert(integer_digits(s) =~= v@.subrange(first as int, to as int));
    if first == to {
        return None;
    }
    let mut i: usize = first;
    while i < to
        invariant
            from <= first <= i <= to <= v.len(),
            s == v@.subrange(from as int, to as int),
            integer_digits(s) == v@.subrange(first as int, to as int),
            forall|j: int| first <= j < i ==> text::is_digit(#[trigger] v@[j]),
        decreases to - i,
    {
        if v[i] < '0' || v[i] > '9' {
            assert(!text::is_digit(integer_digits(s)[i - first]));
            return None;
        }
        i = i + 1;
    }
    assert(is_integer_literal(s));
    let negative = v[from] == '-';
    match text::parse_number(v, first, to, 10) {
        None => None,
        Some(n) => {
            if negative {
                if n <= 9223372036854775808 {
                    Some((-(n as i128)) as i64)
                } else {
                    None
                }
            } else if n <= 9223372036854775807 {
                Some(n as i64)
            } else {
                None
            }
        },
    }
}

/// Coerces `s` to a number by its longest valid numeric prefix; a non-numeric or empty
/// string coerces to `0`. A literal that is no integer of 64 bits comes back as it is
/// spelled.
pub fn coerce_text_to_numeric(s: &str) -> (r: Operand)
    ensures
        r@ == text_operand(s@),
{
    let v = text::chars_of(s);
    match scan_number_prefix(&v) {
        None => Operand::Integer(0),
        Some((start, end, is_float)) => {
            let literal = text::text_of(v.as_slice(), start, end);
            if is_float {
                return Operand::Decimal(literal);
            }
            match parse_integer(&v, start, end) {
                Some(i) => Operand::Integer(i),
                None => Operand::Decimal(literal),
            }
        },
    }
}

/// What `v` is worth as a number.
pub fn as_numeric(v: &Value) -> (r: Operand)
    ensures
        r@ == value_operand(v@),
{
    match v {
        Value::Integer(i) => Operand::Integer(*i),
        Value::Real(r) => Operand::Real(*r),
        Value::Text(s) => coerce_text_to_numeric(s.as_str()),
        Value::Null | Value::Blob(_) => Operand::Integer(0),
    }
}

/// The binary arithmetic operations.
#[derive(Debug, Clone, Copy, PartialEq, Eq, Structural)]
pub enum ArithmeticOp {
    Add,
    Subtract,
    Multiply,
    Divide,
    Remainder,
}

pub open spec fn absolute(x: int) -> int {
    if x < 0 {
        -x
    } else {
        x
    }
}

/// The quotient without its fraction.
pub open spec fn quotient(x: int, y: int) -> int {
    if (x < 0) == (y < 0) {
        absolute(x) / absolute(y)
    } else {
        -(absolute(x) / absolute(y))
    }
}

/// What is left of `x` behind that quotient, with the sign of `x`.
pub open spec fn remainder(x: int, y: int) -> int {
    if x < 0 {
        -(absolute(x) % absolute(y))
    } else {
        absolute(x) % absolute(y)
    }
}

/// The result of an operation on integers.
pub open spec fn exact_result(op: ArithmeticOp, x: int, y: int) -> int {
    match op {
        ArithmeticOp::Add => x + y,
        ArithmeticOp::Subtract => x - y,
        ArithmeticOp::Multiply => x * y,
        ArithmeticOp::Divide => quotient(x, y),
        ArithmeticOp::Remainder => remainder(x, y),
    }
}

/// Whether an operation on integers overflows: its result, or for a remainder the quotient
/// it belongs to, does not have 64 bits.
pub open spec fn overflows(op: ArithmeticOp, x: int, y: int) -> bool {
    let r = if op == ArithmeticOp::Remainder {
        quotient(x, y)
    } else {
        exact_result(op, x, y)
    };
    r < i64::MIN || r > i64::MAX
}

/// An operation on two numbers of which one step takes floating point.
#[derive(Debug, Clone, PartialEq)]
pub struct Calculation {
    pub op: ArithmeticOp,
    pub left: Operand,
    pub right: Operand,
}

/// What a [`Calculation`] stands for.
#[verifier::ext_equal]
pub struct CalculationView {
    pub op: ArithmeticOp,
    pub left: OperandView,
    pub right: OperandView,
}

impl Calculation {
    pub open spec fn view(&self) -> CalculationView {
        CalculationView { op: self.op, left: self.left@, right: self.right@ }
    }
}

/// A calculation's result, or the calculation itself where its next step takes floating
/// point.
#[derive(Debug, Clone, PartialEq)]
pub enum Computed {
    Value(Value),
    Outside(Calculation),
}

/// What a [`Computed`] stands for.
#[verifier::ext_equal]
pub enum ComputedView {
    Value(ValueView),
    Outside(CalculationView),
}

impl Computed {
    pub open spec fn view(&self) -> ComputedView {
        match self {
            Computed::Value(v) => ComputedView::Value(v@),
            Computed::Outside(c) => ComputedView::Outside(c@),
        }
    }
}

/// One step in floating point.
#[derive(Debug, Clone, PartialEq)]
pub enum Task {
    /// The double nearest to a literal.
    Parse(String),
    /// The operation on two numbers, neither of them a literal, in doubles.
    Apply(ArithmeticOp, Operand, Operand),
}

/// What a [`Task`] stands for.
#[verifier::ext_equal]
pub enum TaskView {
    Parse(Seq<char>),
    Apply(ArithmeticOp, OperandView, OperandView),
}

impl Task {
    pub open spec fn view(&self) -> TaskView {
        match self {
            Task::Parse(s) => TaskView::Parse(s@),
            Task::Apply(op, a, b) => TaskView::Apply(*op, a@, b@),
        }
    }
}

/// The divisor of a division or remainder is zero.
pub open spec fn divides_by_zero(op: ArithmeticOp, right: OperandView) -> bool {
    (op == ArithmeticOp::Divide || op == ArithmeticOp::Remainder) && match right {
        OperandView::Integer(y) => y == 0,
        OperandView::Real(y) => !double::is_nan(y) && double::denoted(y) == 0,
        OperandView::Decimal(_) => false,
    }
}

/// What an operation comes to: NULL on division by zero, an integer where both operands
/// are integers and nothing overflows, and a calculation in floating point else.
pub open spec fn computed(c: CalculationView) -> ComputedView {
    if c.left is Decimal || c.right is Decimal {
        ComputedView::Outside(c)
    } else if divides_by_zero(c.op, c.right) {
        ComputedView::Value(ValueView::Null)
    } else {
        match (c.left, c.right) {
            (OperandView::Integer(x), OperandView::Integer(y)) => if overflows(
                c.op,
                x as int,
                y as int,
            ) {
                ComputedView::Outside(c)
            } else {
                ComputedView::Value(
                    ValueView::Integer(exact_result(c.op, x as int, y as int) as i64),
                )
            },
            _ => ComputedView::Outside(c),
        }
    }
}

/// The next step of a calculation: the literals first, left to right, and then the
/// operation.
pub open spec fn next_task(c: CalculationView) -> TaskView {
    match c.left {
        OperandView::Decimal(s) => TaskView::Parse(s),
        _ => match c.right {
            OperandView::Decimal(s) => TaskView::Parse(s),
            _ => TaskView::Apply(c.op, c.left, c.right),
        },
    }
}

/// What a calculation comes to once its next step has given `bits`.
pub open spec fn carried_on(c: CalculationView, bits: u64) -> ComputedView {
    if c.left is Decimal {
        computed(CalculationView { left: OperandView::Real(bits), ..c })
    } else if c.right is Decimal {
        computed(CalculationView { right: OperandView::Real(bits), ..c })
    } else {
        ComputedView::Value(ValueView::Real(bits))
    }
}

/// What `a op b` comes to.
pub open spec fn arithmetic_of(op: ArithmeticOp, a: ValueView, b: ValueView) -> ComputedView {
    computed(CalculationView { op, left: value_operand(a), right: value_operand(b) })
}

proof fn lemma_quotient_fits(x: int, y: int)
    requires
        i64::MIN <= x <= i64::MAX,
        i64::MIN <= y <= i64::MAX,
        y != 0,
    ensures
        (quotient(x, y) < i64::MIN || quotient(x, y) > i64::MAX) <==> (x == i64::MIN && y == -1),
        i64::MIN <= remainder(x, y) <= i64::MAX,
{
    let a = absolute(x);
    let b = absolute(y);
    assert(0 <= a / b <= a && (b >= 2 ==> a / b <= a / 2)) by (nonlinear_arith)
        requires
            a >= 0,
            b >= 1,
    ;
    assert(0 <= a % b <= a) by (nonlinear_arith)
        requires
            a >= 0,
            b >= 1,
    ;
    assert(b == 1 ==> a / b == a) by (nonlinear_arith);
}

fn integer_quotient(x: i64, y: i64) -> (r: Option<i64>)
    requires
        y != 0,
    ensures
        match r {
            Some(n) => n == quotient(x as int, y as int),
            None => x == i64::MIN && y == -1,
        },
        r is Some ==> !(x == i64::MIN && y == -1),
{
    proof {
        lemma_quotient_fits(x as int, y as int);
        vstd::arithmetic::div_mod::lemma_div_basics(absolute(y as int));
        assert(x as int * -1 == -x && y as int * -1 == -y);
    }
    x.checked_div(y)
}

fn integer_remainder(x: i64, y: i64) -> (r: Option<i64>)
    requires
        y != 0,
    ensures
        match r {
            Some(n) => n == remainder(x as int, y as int),
            None => x == i64::MIN && y == -1,
        },
        r is Some ==> !(x == i64::MIN && y == -1),
{
    proof {
        lemma_quotient_fits(x as int, y as int);
        vstd::arithmetic::div_mod::lemma_small_mod(0, absolute(y as int) as nat);
        assert(x as int * -1 == -x && y as int * -1 == -y);
        assert(absolute(x as int) % absolute(y as int) * -1 == -(absolute(x as int) % absolute(
            y as int,
        )));
    }
    x.checked_rem(y)
}

fn integer_result(op: ArithmeticOp, x: i64, y: i64) -> (r: Option<i64>)
    requires
        !divides_by_zero(op, OperandView::Integer(y)),
    ensures
        match r {
            Some(n) => n == exact_result(op, x as int, y as int) && !overflows(
                op,
                x as int,
                y as int,
            ),
            None => overflows(op, x as int, y as int),
        },
{
    proof {
        if y != 0 {
            lemma_quotient_fits(x as int, y as int);
        }
    }
    match op {
        ArithmeticOp::Add => x.checked_add(y),
        ArithmeticOp::Subtract => x.checked_sub(y),
        ArithmeticOp::Multiply => x.checked_mul(y),
        ArithmeticOp::Divide => integer_quotient(x, y),
        ArithmeticOp::Remainder => integer_remainder(x, y),
    }
}

impl Calculation {
    /// The next step of the calculation.
    pub fn task(&self) -> (t: Task)
        ensures
            t@ == next_task(self@),
    {
        match &self.left {
            Operand::Decimal(s) => Task::Parse(s.clone()),
            _ => match &self.right {
                Operand::Decimal(s) => Task::Parse(s.clone()),
                _ => Task::Apply(self.op, self.left.copy(), self.right.copy()),
            },
        }
    }

    /// Carries the calculation on with the result of its next step.
    pub fn carry_on(self, bits: u64) -> (r: Computed)
        ensures
            r@ == carried_on(self@, bits),
    {
        let left_open = matches!(self.left, Operand::Decimal(_));
        let right_open = matches!(self.right, Operand::Decimal(_));
        if left_open {
            compute(self.op, Operand::Real(bits), self.right)
        } else if right_open {
            compute(self.op, self.left, Operand::Real(bits))
        } else {
            Computed::Value(Value::Real(bits))
        }
    }
}

/// What the operation comes to.
fn compute(op: ArithmeticOp, left: Operand, right: Operand) -> (r: Computed)
    ensures
        r@ == computed(CalculationView { op, left: left@, right: right@ }),
{
    let open = matches!(left, Operand::Decimal(_)) || matches!(right, Operand::Decimal(_));
    if open {
        return Computed::Outside(Calculation { op, left, right });
    }
    let divides = op == ArithmeticOp::Divide || op == ArithmeticOp::Remainder;
    let zero = match &right {
        Operand::Integer(y) => *y == 0,
        Operand::Real(y) => !double::nan(*y) && double::is_zero(*y),
        Operand::Decimal(_) => false,
    };
    if divides && zero {
        return Computed::Value(Value::Null);
    }
    let exact: Option<i64> = match (&left, &right) {
        (Operand::Integer(x), Operand::Integer(y)) => integer_result(op, *x, *y),
        _ => None,
    };
    match exact {
        Some(n) => Computed::Value(Value::Integer(n)),
        None => Computed::Outside(Calculation { op, left, right }),
    }
}

/// Adds two values, coercing text operands numerically. Overflow promotes to REAL rather
/// than wrapping.
pub fn checked_add(a: &Value, b: &Value) -> (r: Computed)
    ensures
        r@ == arithmetic_of(ArithmeticOp::Add, a@, b@),
{
    compute(ArithmeticOp::Add, as_numeric(a), as_numeric(b))
}

/// Subtracts two values, coercing text operands numerically. Overflow promotes to REAL
/// rather than wrapping.
pub fn checked_sub(a: &Value, b: &Value) -> (r: Computed)
    ensures
        r@ == arithmetic_of(ArithmeticOp::Subtract, a@, b@),
{
    compute(ArithmeticOp::Subtract, as_numeric(a), as_numeric(b))
}

/// Multiplies two values, coercing text operands numerically. Overflow promotes to REAL
/// rather than wrapping.
pub fn checked_mul(a: &Value, b: &Value) -> (r: Computed)
    ensures
        r@ == arithmetic_of(ArithmeticOp::Multiply, a@, b@),
{
    compute(ArithmeticOp::Multiply, as_numeric(a), as_numeric(b))
}

/// Divides `a` by `b`, coercing text operands numerically. Integers divide without their
/// fraction, division by zero is NULL, and overflow promotes to REAL rather than wrapping.
pub fn checked_div(a: &Value, b: &Value) -> (r: Computed)
    ensures
        r@ == arithmetic_of(ArithmeticOp::Divide, a@, b@),
{
    compute(ArithmeticOp::Divide, as_numeric(a), as_numeric(b))
}

/// The remainder of `a` by `b`, coercing text operands numerically; NULL where `b` is zero.
pub fn checked_rem(a: &Value, b: &Value) -> (r: Computed)
    ensures
        r@ == arithmetic_of(ArithmeticOp::Remainder, a@, b@),
{
    compute(ArithmeticOp::Remainder, as_numeric(a), as_numeric(b))
}

/// The integer a double comes to without its fraction, at most as far from zero as 64 bits
/// reach.
pub open spec fn truncated(bits: u64) -> i64 {
    if double::is_nan(bits) {
        0
    } else if double::toward_zero(bits) < i64::MIN {
        i64::MIN
    } else if double::toward_zero(bits) > i64::MAX {
        i64::MAX
    } else {
        double::toward_zero(bits) as i64
    }
}

/// `CAST(... AS INTEGER)`: truncates a REAL toward zero rather than rounding or flooring.
/// Where the value is text whose numeric prefix is no integer of 64 bits, its literal comes
/// back instead, and the cast of the double nearest to it is the answer.
pub fn cast_to_integer(v: &Value) -> (r: Result<i64, String>)
    ensures
        match (value_operand(v@), r) {
            (OperandView::Integer(i), Ok(n)) => n == i,
            (OperandView::Real(bits), Ok(n)) => n == truncated(bits),
            (OperandView::Decimal(s), Err(t)) => t@ == s,
            _ => false,
        },
{
    match as_numeric(v) {
        Operand::Integer(i) => Ok(i),
        Operand::Real(bits) => Ok(double::truncate(bits)),
        Operand::Decimal(s) => Err(s),
    }
}

/// Integers never wrap: where an operation on two integers gives an integer, it is the
/// exact result.
pub proof fn law_integers_never_wrap(op: ArithmeticOp, x: i64, y: i64)
    ensures
        match arithmetic_of(op, ValueView::Integer(x), ValueView::Integer(y)) {
            ComputedView::Value(ValueView::Integer(n)) => n == exact_result(
                op,
                x as int,
                y as int,
            ),
            ComputedView::Value(v) => v is Null && y == 0,
            ComputedView::Outside(c) => next_task(c) == TaskView::Apply(
                op,
                OperandView::Integer(x),
                OperandView::Integer(y),
            ) && overflows(op, x as int, y as int),
        },
{
    if y != 0 {
        lemma_quotient_fits(x as int, y as int);
    }
}

/// Every calculation comes to a value after at most three steps.
pub proof fn law_calculation_ends(c: CalculationView, first: u64, second: u64, third: u64)
    ensures
        match carried_on(c, first) {
            ComputedView::Value(_) => true,
            ComputedView::Outside(d) => match carried_on(d, second) {
                ComputedView::Value(_) => true,
                ComputedView::Outside(e) => carried_on(e, third) is Value,
            },
        },
{
}

/// Text without a digit before its first other character is worth zero.
pub proof fn law_no_prefix_is_zero(s: Seq<char>)
    requires
        s.len() == 0 || !(is_blank(s[0]) || text::is_digit(s[0]) || s[0] == '+' || s[0] == '-'
            || s[0] == '.'),
    ensures
        text_operand(s) == OperandView::Integer(0),
{
}

proof fn lemma_run_of_blanks(s: Seq<char>, i: int, end: int)
    requires
        0 <= i <= end <= s.len(),
        forall|j: int| i <= j < end ==> is_blank(#[trigger] s[j]),
        end < s.len() ==> !is_blank(s[end]),
    ensures
        blanks_end(s, i) == end,
    decreases end - i,
{
    if i < end {
        assert(is_blank(s[i]));
        lemma_run_of_blanks(s, i + 1, end);
    }
}

proof fn lemma_run_of_digits(s: Seq<char>, i: int, end: int)
    requires
        0 <= i <= end <= s.len(),
        forall|j: int| i <= j < end ==> text::is_digit(#[trigger] s[j]),
        end < s.len() ==> !text::is_digit(s[end]),
    ensures
        digits_end(s, i) == end,
    decreases end - i,
{
    if i < end {
        assert(text::is_digit(s[i]));
        lemma_run_of_digits(s, i + 1, end);
    }
}

/// Text is worth the number it begins with, behind blanks: an optional sign and digits, up to
/// the first character that is no digit, where that is neither a point nor the mark of an
/// exponent. What follows does not count.
pub proof fn law_text_is_worth_its_integer(s: Seq<char>, start: int, digits: int, end: int, n: i64)
    requires
        0 <= start <= digits < end <= s.len(),
        forall|j: int| 0 <= j < start ==> is_blank(#[trigger] s[j]),
        digits == start || (digits == start + 1 && (s[start] == '-' || s[start] == '+')),
        forall|j: int| digits <= j < end ==> text::is_digit(#[trigger] s[j]),
        end < s.len() ==> !text::is_digit(s[end]) && s[end] != '.' && s[end] != 'e' && s[end]
            != 'E',
        n == (if s[start] == '-' {
            -(text::number(s.subrange(digits, end), 10) as int)
        } else {
            text::number(s.subrange(digits, end), 10) as int
        }),
    ensures
        text_operand(s) == OperandView::Integer(n),
{
    lemma_run_of_blanks(s, 0, start);
    lemma_run_of_digits(s, digits, end);
    assert(text::is_digit(s[digits]));
    assert(behind_sign(s, start) == digits);
    let literal = s.subrange(start, end);
    assert(number_prefix(s) == Some(NumberPrefix { start, end, is_float: false }));
    assert(integer_digits(literal) =~= s.subrange(digits, end));
    assert forall|j: int| 0 <= j < integer_digits(literal).len() implies text::is_digit(
        #[trigger] integer_digits(literal)[j],
    ) by {
        assert(integer_digits(literal)[j] == s[digits + j]);
    }
    assert(literal[0] == s[start]);
}

/// Text that begins with digits, a point and digits is worth what these denote together.
pub proof fn law_text_is_worth_its_decimal(s: Seq<char>, start: int, point: int, end: int)
    requires
        0 <= start < point < end <= s.len(),
        forall|j: int| 0 <= j < start ==> is_blank(#[trigger] s[j]),
        forall|j: int| start <= j < point ==> text::is_digit(#[trigger] s[j]),
        s[point] == '.',
        forall|j: int| point < j < end ==> text::is_digit(#[trigger] s[j]),
        end < s.len() ==> !text::is_digit(s[end]) && s[end] != 'e' && s[end] != 'E',
    ensures
        text_operand(s) == OperandView::Decimal(s.subrange(start, end)),
{
    lemma_run_of_blanks(s, 0, start);
    lemma_run_of_digits(s, start, point);
    lemma_run_of_digits(s, point + 1, end);
    assert(text::is_digit(s[start]));
    assert(behind_sign(s, start) == start);
    assert(number_prefix(s) == Some(NumberPrefix { start, end, is_float: true }));
}

} // verus!
