//! Aggregate accumulator state: a name-keyed registry in which an aggregate threads a
//! mutable [`AggState`] across repeated steps before it is finalized once.
//!
//! Integer sums are exact. A sum that has met a floating-point value goes on in floating
//! point, one addition at a time: [`step`] and [`finalize`] name the addition, and its result
//! takes its place.
use crate::record::value;
use crate::record::value::{Value, ValueView};
use crate::text;
use vstd::prelude::*;

verus! {

/// Errors from an aggregate or scalar function.
#[derive(Debug, Clone, PartialEq)]
pub enum FunctionError {
    Unknown { name: String, arity: usize },
    IntegerOverflow,
}

/// What a [`FunctionError`] stands for.
#[verifier::ext_equal]
pub enum FunctionErrorView {
    Unknown { name: Seq<char>, arity: usize },
    IntegerOverflow,
}

impl FunctionError {
    pub open spec fn view(&self) -> FunctionErrorView {
        match self {
            FunctionError::Unknown { name, arity } => FunctionErrorView::Unknown {
                name: name@,
                arity: *arity,
            },
            FunctionError::IntegerOverflow => FunctionErrorView::IntegerOverflow,
        }
    }
}

/// One aggregate's running accumulator state.
#[derive(Debug, Clone, Copy, PartialEq, Eq, Structural)]
pub enum AggState {
    /// `count(x)` skips NULL args; `count(*)` (zero args) counts every row regardless of
    /// value.
    Count(i64),
    /// `sum(x)`: integer inputs accumulate exactly in `int_total`, and floating-point inputs
    /// in `real_total` (a bit pattern); one floating-point input makes the result REAL.
    Sum { int_total: i128, real_total: u64, saw_real: bool, saw_any: bool },
}

/// An addition in floating point.
#[derive(Debug, Clone, Copy, PartialEq, Eq, Structural)]
pub enum Addition {
    /// Two doubles, as their bit patterns.
    Reals(u64, u64),
    /// A double, as its bit pattern, and an integer.
    RealAndInteger(u64, i128),
}

/// An accumulator's next state, or the addition that its running total waits for.
#[derive(Debug, Clone, Copy, PartialEq, Eq, Structural)]
pub enum Stepped {
    State(AggState),
    /// The state, but for its running total, which is the sum of the two.
    Adding(AggState, Addition),
}

/// An aggregate's result, or the addition whose sum is its result.
#[derive(Debug, Clone, PartialEq)]
pub enum Finalized {
    Value(Value),
    Adding(Addition),
}

/// What a [`Finalized`] stands for.
#[verifier::ext_equal]
pub enum FinalizedView {
    Value(ValueView),
    Adding(Addition),
}

impl Finalized {
    pub open spec fn view(&self) -> FinalizedView {
        match self {
            Finalized::Value(v) => FinalizedView::Value(v@),
            Finalized::Adding(a) => FinalizedView::Adding(*a),
        }
    }
}

pub open spec fn is_count(name: Seq<char>) -> bool {
    text::upper(name) == text::upper("count"@)
}

pub open spec fn is_sum(name: Seq<char>) -> bool {
    text::upper(name) == text::upper("sum"@)
}

/// The error for a name that is no aggregate's: the name in small letters.
pub open spec fn unknown(name: Seq<char>) -> FunctionErrorView {
    FunctionErrorView::Unknown { name: lower(name), arity: 1 }
}

/// The characters with ASCII capitals as small letters.
pub open spec fn lower(s: Seq<char>) -> Seq<char> {
    crate::record::collation::sort_key(s, crate::record::collation::Collation::NoCase)
}

/// The state an aggregate begins with.
pub open spec fn first_state(name: Seq<char>) -> Result<AggState, FunctionErrorView> {
    if is_count(name) {
        Ok(AggState::Count(0))
    } else if is_sum(name) {
        Ok(AggState::Sum { int_total: 0, real_total: 0, saw_real: false, saw_any: false })
    } else {
        Err(unknown(name))
    }
}

/// One more, up to the largest.
pub open spec fn counted(n: i64) -> i64 {
    if n < i64::MAX {
        (n + 1) as i64
    } else {
        n
    }
}

/// `x`, or the end of the 128-bit range it lies beyond.
pub open spec fn clamped(x: int) -> i128 {
    if x < i128::MIN {
        i128::MIN
    } else if x > i128::MAX {
        i128::MAX
    } else {
        x as i128
    }
}

/// A state with the first argument of a call folded in.
pub open spec fn folded(state: AggState, args: Seq<ValueView>) -> Stepped {
    match state {
        AggState::Count(n) => Stepped::State(
            if args.len() == 0 || !(args[0] is Null) {
                AggState::Count(counted(n))
            } else {
                state
            },
        ),
        AggState::Sum { int_total, real_total, saw_real, .. } => if args.len() == 0 {
            Stepped::State(state)
        } else {
            match args[0] {
                ValueView::Integer(i) => Stepped::State(
                    AggState::Sum {
                        int_total: clamped(int_total + i),
                        real_total,
                        saw_real,
                        saw_any: true,
                    },
                ),
                ValueView::Real(r) => Stepped::Adding(
                    AggState::Sum { int_total, real_total, saw_real: true, saw_any: true },
                    Addition::Reals(real_total, r),
                ),
                _ => Stepped::State(state),
            }
        },
    }
}

/// A state with its running total replaced.
pub open spec fn with_total(state: AggState, total: u64) -> AggState {
    match state {
        AggState::Sum { int_total, saw_real, saw_any, .. } => AggState::Sum {
            int_total,
            real_total: total,
            saw_real,
            saw_any,
        },
        other => other,
    }
}

/// What an aggregate comes to.
pub open spec fn final_value(name: Seq<char>, state: Option<AggState>) -> Result<
    FinalizedView,
    FunctionErrorView,
> {
    match state {
        None => if is_count(name) {
            Ok(FinalizedView::Value(ValueView::Integer(0)))
        } else if is_sum(name) {
            Ok(FinalizedView::Value(ValueView::Null))
        } else {
            Err(unknown(name))
        },
        Some(AggState::Count(n)) => Ok(FinalizedView::Value(ValueView::Integer(n))),
        Some(AggState::Sum { int_total, real_total, saw_real, saw_any }) => if !saw_any {
            Ok(FinalizedView::Value(ValueView::Null))
        } else if saw_real {
            Ok(FinalizedView::Adding(Addition::RealAndInteger(real_total, int_total)))
        } else if i64::MIN <= int_total <= i64::MAX {
            Ok(FinalizedView::Value(ValueView::Integer(int_total as i64)))
        } else {
            Err(FunctionErrorView::IntegerOverflow)
        },
    }
}

fn lower_text(s: &str) -> (r: String)
    ensures
        r@ == lower(s@),
{
    let v = text::chars_of(s);
    let mut r = String::new();
    let mut i: usize = 0;
    while i < v.len()
        invariant
            i <= v.len(),
            v@ == s@,
            r@ == lower(s@).take(i as int),
        decreases v.len() - i,
    {
        let c: char = v[i];
        if 'A' <= c && c <= 'Z' {
            r.push((((c as u32) + 32) as u8) as char);
        } else {
            r.push(c);
        }
        assert(lower(s@)[i as int] == crate::record::collation::lower_char(s@[i as int]));
        assert(lower(s@).take(i + 1) =~= lower(s@).take(i as int).push(lower(s@)[i as int]));
        i = i + 1;
    }
    assert(lower(s@).take(i as int) =~= lower(s@));
    r
}

impl AggState {
    /// The state that the aggregate `name` begins with.
    fn initial(name: &str) -> (r: Result<AggState, FunctionError>)
        ensures
            match r {
                Ok(s) => first_state(name@) == Ok::<AggState, FunctionErrorView>(s),
                Err(e) => first_state(name@) == Err::<AggState, FunctionErrorView>(e@),
            },
    {
        if text::same_ignoring_case(name, "count") {
            Ok(AggState::Count(0))
        } else if text::same_ignoring_case(name, "sum") {
            Ok(AggState::Sum { int_total: 0, real_total: 0, saw_real: false, saw_any: false })
        } else {
            Err(FunctionError::Unknown { name: lower_text(name), arity: 1 })
        }
    }
}

fn plus(total: i128, i: i64) -> (r: i128)
    ensures
        r == clamped(total + i),
{
    match total.checked_add(i as i128) {
        Some(r) => r,
        None => {
            if i < 0 {
                i128::MIN
            } else {
                i128::MAX
            }
        },
    }
}

fn fold(state: AggState, args: &[Value]) -> (r: Stepped)
    ensures
        r == folded(state, value::values(args@)),
{
    assert(value::values(args@).len() == args@.len());
    if args.len() > 0 {
        assert(value::values(args@)[0] == args@[0]@);
    }
    match state {
        AggState::Count(n) => {
            let counts = args.len() == 0 || !matches!(args[0], Value::Null);
            if counts && n < i64::MAX {
                Stepped::State(AggState::Count(n + 1))
            } else {
                Stepped::State(state)
            }
        },
        AggState::Sum { int_total, real_total, saw_real, .. } => {
            if args.len() == 0 {
                return Stepped::State(state);
            }
            match &args[0] {
                Value::Integer(i) => Stepped::State(
                    AggState::Sum {
                        int_total: plus(int_total, *i),
                        real_total,
                        saw_real,
                        saw_any: true,
                    },
                ),
                Value::Real(r) => Stepped::Adding(
                    AggState::Sum { int_total, real_total, saw_real: true, saw_any: true },
                    Addition::Reals(real_total, *r),
                ),
                _ => Stepped::State(state),
            }
        },
    }
}

/// Folds `args` into `state` (creating a fresh accumulator via `name` on the first call for
/// this context). `name` is only consulted to build the *initial* state. Text and blob
/// arguments to `sum` are not numeric here.
pub fn step(name: &str, state: Option<AggState>, args: &[Value]) -> (r: Result<
    Stepped,
    FunctionError,
>)
    ensures
        match state {
            Some(s) => r == Ok::<Stepped, FunctionError>(folded(s, value::values(args@))),
            None => match (first_state(name@), r) {
                (Ok(s), Ok(t)) => t == folded(s, value::values(args@)),
                (Err(e), Err(f)) => f@ == e,
                _ => false,
            },
        },
{
    let state = match state {
        Some(s) => s,
        None => AggState::initial(name)?,
    };
    Ok(fold(state, args))
}

/// Puts the sum of an addition into the running total it belongs to.
pub fn added(state: AggState, total: u64) -> (r: AggState)
    ensures
        r == with_total(state, total),
{
    match state {
        AggState::Sum { int_total, saw_real, saw_any, .. } => AggState::Sum {
            int_total,
            real_total: total,
            saw_real,
            saw_any,
        },
        other => other,
    }
}

/// Produces the result for a context that has seen zero or more steps. `state = None` means
/// zero rows were aggregated: `count` finalizes to 0, `sum` to NULL.
pub fn finalize(name: &str, state: Option<&AggState>) -> (r: Result<Finalized, FunctionError>)
    ensures
        match r {
            Ok(f) => final_value(name@, plain(state)) == Ok::<FinalizedView, FunctionErrorView>(
                f@,
            ),
            Err(e) => final_value(name@, plain(state)) == Err::<FinalizedView, FunctionErrorView>(
                e@,
            ),
        },
{
    match state {
        None => {
            if text::same_ignoring_case(name, "count") {
                Ok(Finalized::Value(Value::Integer(0)))
            } else if text::same_ignoring_case(name, "sum") {
                Ok(Finalized::Value(Value::Null))
            } else {
                Err(FunctionError::Unknown { name: lower_text(name), arity: 1 })
            }
        },
        Some(AggState::Count(n)) => Ok(Finalized::Value(Value::Integer(*n))),
        Some(AggState::Sum { int_total, real_total, saw_real, saw_any }) => {
            if !*saw_any {
                return Ok(Finalized::Value(Value::Null));
            }
            if *saw_real {
                Ok(Finalized::Adding(Addition::RealAndInteger(*real_total, *int_total)))
            } else if -9223372036854775808 <= *int_total && *int_total <= 9223372036854775807 {
                Ok(Finalized::Value(Value::Integer(*int_total as i64)))
            } else {
                Err(FunctionError::IntegerOverflow)
            }
        },
    }
}

/// A state behind a reference, as it is.
pub open spec fn plain(state: Option<&AggState>) -> Option<AggState> {
    match state {
        Some(s) => Some(*s),
        None => None,
    }
}

// ---- laws ---------------------------------------------------------------------------

/// The state behind the rows of `args`, where none of them needs an addition in floating
/// point.
pub open spec fn folded_all(state: AggState, rows: Seq<Seq<ValueView>>) -> AggState
    decreases rows.len(),
{
    if rows.len() == 0 {
        state
    } else {
        match folded(folded_all(state, rows.drop_last()), rows.last()) {
            Stepped::State(s) => s,
            Stepped::Adding(s, _) => s,
        }
    }
}

/// How many of the values are not NULL.
pub open spec fn present(values: Seq<ValueView>) -> nat
    decreases values.len(),
{
    if values.len() == 0 {
        0
    } else {
        present(values.drop_last()) + (if values.last() is Null {
            0nat
        } else {
            1
        })
    }
}

/// The sum of integers.
pub open spec fn total(values: Seq<i64>) -> int
    decreases values.len(),
{
    if values.len() == 0 {
        0
    } else {
        total(values.drop_last()) + values.last()
    }
}

pub open spec fn one_each(values: Seq<ValueView>) -> Seq<Seq<ValueView>> {
    values.map_values(|v: ValueView| seq![v])
}

pub open spec fn integers(values: Seq<i64>) -> Seq<ValueView> {
    values.map_values(|i: i64| ValueView::Integer(i))
}

/// `count(x)` counts the rows whose value is not NULL.
pub proof fn law_count_skips_null(values: Seq<ValueView>)
    requires
        values.len() <= i64::MAX,
    ensures
        folded_all(AggState::Count(0), one_each(values)) == AggState::Count(
            present(values) as i64,
        ),
        present(values) <= values.len(),
    decreases values.len(),
{
    if values.len() > 0 {
        law_count_skips_null(values.drop_last());
        assert(one_each(values).drop_last() =~= one_each(values.drop_last()));
        assert(one_each(values).last() == seq![values.last()]);
    }
}

/// `count(*)` counts every row.
pub proof fn law_count_star_counts_rows(rows: Seq<Seq<ValueView>>)
    requires
        rows.len() <= i64::MAX,
        forall|k: int| 0 <= k < rows.len() ==> (#[trigger] rows[k]).len() == 0,
    ensures
        folded_all(AggState::Count(0), rows) == AggState::Count(rows.len() as i64),
    decreases rows.len(),
{
    if rows.len() > 0 {
        let front = rows.drop_last();
        assert forall|k: int| 0 <= k < front.len() implies (#[trigger] front[k]).len() == 0 by {
            assert(front[k] == rows[k]);
        }
        law_count_star_counts_rows(front);
        assert(rows.last().len() == 0);
    }
}

proof fn lemma_sum(values: Seq<i64>)
    requires
        values.len() <= u64::MAX,
    ensures
        folded_all(
            AggState::Sum { int_total: 0, real_total: 0, saw_real: false, saw_any: false },
            one_each(integers(values)),
        ) == (AggState::Sum {
            int_total: total(values) as i128,
            real_total: 0,
            saw_real: false,
            saw_any: values.len() > 0,
        }),
        -(values.len() * 0x8000_0000_0000_0000) <= total(values) <= values.len()
            * 0x8000_0000_0000_0000,
    decreases values.len(),
{
    let rows = one_each(integers(values));
    if values.len() > 0 {
        let front = values.drop_last();
        lemma_sum(front);
        assert(rows.drop_last() =~= one_each(integers(front)));
        assert(rows.last() == seq![ValueView::Integer(values.last())]);
        assert(rows.last()[0] == ValueView::Integer(values.last()));
        assert((values.len() as int) * 0x8000_0000_0000_0000 <= 0xffff_ffff_ffff_ffff
            * 0x8000_0000_0000_0000);
    }
}

/// A sum of integers is exact: it is their sum where that has 64 bits, an error where it has
/// not, and NULL where there are none.
pub proof fn law_integer_sum_is_exact(name: Seq<char>, values: Seq<i64>)
    requires
        values.len() <= u64::MAX,
    ensures
        final_value(
            name,
            Some(
                folded_all(
                    AggState::Sum { int_total: 0, real_total: 0, saw_real: false, saw_any: false },
                    one_each(integers(values)),
                ),
            ),
        ) == (if values.len() == 0 {
            Ok::<FinalizedView, FunctionErrorView>(FinalizedView::Value(ValueView::Null))
        } else if i64::MIN <= total(values) <= i64::MAX {
            Ok(FinalizedView::Value(ValueView::Integer(total(values) as i64)))
        } else {
            Err(FunctionErrorView::IntegerOverflow)
        }),
{
    lemma_sum(values);
}

/// The state of the aggregate `name` behind rows of one value each, where `sum` is what an
/// addition in floating point comes to; none before the first row.
pub open spec fn state_behind(
    name: Seq<char>,
    values: Seq<ValueView>,
    sum: spec_fn(Addition) -> u64,
) -> Option<AggState>
    decreases values.len(),
{
    if values.len() == 0 {
        None
    } else {
        let before = match state_behind(name, values.drop_last(), sum) {
            Some(state) => state,
            None => first_state(name)->Ok_0,
        };
        Some(
            match folded(before, seq![values.last()]) {
                Stepped::State(state) => state,
                Stepped::Adding(state, addition) => with_total(state, sum(addition)),
            },
        )
    }
}

/// What the aggregate `name` gives for rows of one value each.
pub open spec fn aggregate_of(
    name: Seq<char>,
    values: Seq<ValueView>,
    sum: spec_fn(Addition) -> u64,
) -> Result<ValueView, FunctionErrorView> {
    match final_value(name, state_behind(name, values, sum)) {
        Ok(FinalizedView::Value(v)) => Ok(v),
        Ok(FinalizedView::Adding(addition)) => Ok(ValueView::Real(sum(addition))),
        Err(e) => Err(e),
    }
}

/// The integers among the values, in order.
pub open spec fn integers_in(values: Seq<ValueView>) -> Seq<i64>
    decreases values.len(),
{
    if values.len() == 0 {
        seq![]
    } else if values.last() is Integer {
        integers_in(values.drop_last()).push(values.last()->Integer_0)
    } else {
        integers_in(values.drop_last())
    }
}

/// The floating-point values among the values, in order.
pub open spec fn reals_in(values: Seq<ValueView>) -> Seq<u64>
    decreases values.len(),
{
    if values.len() == 0 {
        seq![]
    } else if values.last() is Real {
        reals_in(values.drop_last()).push(values.last()->Real_0)
    } else {
        reals_in(values.drop_last())
    }
}

/// Doubles added one after the other to zero.
pub open spec fn added_up(reals: Seq<u64>, sum: spec_fn(Addition) -> u64) -> u64
    decreases reals.len(),
{
    if reals.len() == 0 {
        0
    } else {
        sum(Addition::Reals(added_up(reals.drop_last(), sum), reals.last()))
    }
}

/// The values that are not NULL, in order.
pub open spec fn not_null(values: Seq<ValueView>) -> Seq<ValueView>
    decreases values.len(),
{
    if values.len() == 0 {
        seq![]
    } else if values.last() is Null {
        not_null(values.drop_last())
    } else {
        not_null(values.drop_last()).push(values.last())
    }
}

proof fn lemma_few_integers(values: Seq<ValueView>)
    ensures
        integers_in(values).len() <= values.len(),
        -(integers_in(values).len() * 0x8000_0000_0000_0000) <= total(integers_in(values))
            <= integers_in(values).len() * 0x8000_0000_0000_0000,
    decreases values.len(),
{
    if values.len() > 0 {
        lemma_few_integers(values.drop_last());
        let front = integers_in(values.drop_last());
        if values.last() is Integer {
            assert(integers_in(values).drop_last() =~= front);
        }
    }
}

proof fn lemma_not_sum_and_count(name: Seq<char>)
    ensures
        !(is_sum(name) && is_count(name)),
{
    reveal_strlit("count");
    reveal_strlit("sum");
    assert(text::upper("count"@).len() == 5);
    assert(text::upper("sum"@).len() == 3);
}

proof fn lemma_sum_state(name: Seq<char>, values: Seq<ValueView>, sum: spec_fn(Addition) -> u64)
    requires
        is_sum(name),
        values.len() <= u64::MAX,
    ensures
        state_behind(name, values, sum) == (if values.len() == 0 {
            None
        } else {
            Some(
                AggState::Sum {
                    int_total: total(integers_in(values)) as i128,
                    real_total: added_up(reals_in(values), sum),
                    saw_real: reals_in(values).len() > 0,
                    saw_any: integers_in(values).len() + reals_in(values).len() > 0,
                },
            )
        }),
    decreases values.len(),
{
    lemma_not_sum_and_count(name);
    lemma_few_integers(values);
    if values.len() > 0 {
        let front = values.drop_last();
        let last = values.last();
        lemma_sum_state(name, front, sum);
        lemma_few_integers(front);
        assert(seq![last][0] == last);
        assert(total(integers_in(seq![])) == 0);
        if last is Integer {
            assert(integers_in(values).drop_last() =~= integers_in(front));
        }
        if last is Real {
            assert(reals_in(values).drop_last() =~= reals_in(front));
        }
        assert((values.len() as int) * 0x8000_0000_0000_0000 <= 0xffff_ffff_ffff_ffff
            * 0x8000_0000_0000_0000);
        if front.len() == 0 {
            assert(front =~= seq![]);
        }
    }
}

/// A sum is over the numbers among the rows, whatever else stands between them: NULL where
/// there are none, exact where all are integers, and else the integers' exact sum added to
/// that of the floating-point values, which are added in their order.
pub proof fn law_sum_is_over_numbers(
    name: Seq<char>,
    values: Seq<ValueView>,
    sum: spec_fn(Addition) -> u64,
)
    requires
        text::upper(name) == text::upper("sum"@),
        values.len() <= u64::MAX,
    ensures
        ({
            let integers = integers_in(values);
            let reals = reals_in(values);
            aggregate_of(name, values, sum) == (if integers.len() + reals.len() == 0 {
                Ok::<ValueView, FunctionErrorView>(ValueView::Null)
            } else if reals.len() > 0 {
                Ok(
                    ValueView::Real(
                        sum(
                            Addition::RealAndInteger(
                                added_up(reals, sum),
                                total(integers) as i128,
                            ),
                        ),
                    ),
                )
            } else if i64::MIN <= total(integers) <= i64::MAX {
                Ok(ValueView::Integer(total(integers) as i64))
            } else {
                Err(FunctionErrorView::IntegerOverflow)
            })
        }),
{
    lemma_not_sum_and_count(name);
    lemma_sum_state(name, values, sum);
    lemma_few_integers(values);
    assert((values.len() as int) * 0x8000_0000_0000_0000 <= 0xffff_ffff_ffff_ffff
        * 0x8000_0000_0000_0000);
    if values.len() == 0 {
        assert(integers_in(values).len() == 0);
        assert(reals_in(values).len() == 0);
    }
}

proof fn lemma_not_null_numbers(values: Seq<ValueView>)
    ensures
        integers_in(not_null(values)) == integers_in(values),
        reals_in(not_null(values)) == reals_in(values),
        not_null(values).len() <= values.len(),
        not_null(values).len() == present(values),
        present(not_null(values)) == present(values),
    decreases values.len(),
{
    if values.len() > 0 {
        lemma_not_null_numbers(values.drop_last());
        if !(values.last() is Null) {
            assert(not_null(values).drop_last() =~= not_null(values.drop_last()));
        }
    }
}

/// A sum is that of the same rows without those that are NULL, wherever they stand.
pub proof fn law_sum_skips_null(
    name: Seq<char>,
    values: Seq<ValueView>,
    sum: spec_fn(Addition) -> u64,
)
    requires
        text::upper(name) == text::upper("sum"@),
        values.len() <= u64::MAX,
    ensures
        aggregate_of(name, values, sum) == aggregate_of(name, not_null(values), sum),
{
    lemma_not_null_numbers(values);
    law_sum_is_over_numbers(name, values, sum);
    law_sum_is_over_numbers(name, not_null(values), sum);
}

proof fn lemma_count_state(name: Seq<char>, values: Seq<ValueView>, sum: spec_fn(Addition) -> u64)
    requires
        is_count(name),
        values.len() <= i64::MAX,
    ensures
        state_behind(name, values, sum) == (if values.len() == 0 {
            None
        } else {
            Some(AggState::Count(present(values) as i64))
        }),
        present(values) <= values.len(),
    decreases values.len(),
{
    if values.len() > 0 {
        lemma_count_state(name, values.drop_last(), sum);
        assert(seq![values.last()][0] == values.last());
    }
}

/// A count is the number of rows that are not NULL, and zero where there are none.
pub proof fn law_count_is_of_present_rows(
    name: Seq<char>,
    values: Seq<ValueView>,
    sum: spec_fn(Addition) -> u64,
)
    requires
        text::upper(name) == text::upper("count"@),
        values.len() <= i64::MAX,
    ensures
        aggregate_of(name, values, sum) == Ok::<ValueView, FunctionErrorView>(
            ValueView::Integer(not_null(values).len() as i64),
        ),
{
    lemma_not_sum_and_count(name);
    lemma_count_state(name, values, sum);
    lemma_not_null_numbers(values);
}

/// There are two aggregates, by name in any mix of cases; any other name is refused, from the
/// first row on and without one.
pub proof fn law_aggregates_by_name(name: Seq<char>)
    ensures
        first_state(name) is Ok <==> text::upper(name) == "COUNT"@ || text::upper(name) == "SUM"@,
        final_value(name, None) is Ok <==> first_state(name) is Ok,
        first_state(name) is Err ==> first_state(name)->Err_0 is Unknown && final_value(name, None)
            == Err::<FinalizedView, FunctionErrorView>(first_state(name)->Err_0),
{
    reveal_strlit("count");
    reveal_strlit("sum");
    reveal_strlit("COUNT");
    reveal_strlit("SUM");
    assert(text::upper("count"@) =~= "COUNT"@);
    assert(text::upper("sum"@) =~= "SUM"@);
}

} // verus!
