//! Arithmetic opcodes: `Add`, `Subtract`, `Multiply`, `Divide`, `Remainder`, plus the unary
//! `Not`. Each reads its source registers and writes one destination register.
use crate::double;
use crate::record::value::{Value, ValueView};
use crate::vdbe::coerce;
use crate::vdbe::coerce::{
    ArithmeticOp, Calculation, CalculationView, Computed, ComputedView, OperandView,
};
use crate::vdbe::control;
use crate::vdbe::control::{Falsity, FalsityView};
use crate::vdbe::error::{ErrorView, ExecError};
use crate::vdbe::program::{Instruction, InstructionView};
use crate::vdbe::request::{Request, RequestView};
use crate::vdbe::vm;
use crate::vdbe::vm::{Effect, Step, StepView, Vm, VmView};
use vstd::prelude::*;

verus! {

/// Writes a calculation's value into `P3`, or waits for its next step.
pub open spec fn computed_effect(m: VmView, i: InstructionView, c: ComputedView) -> Effect {
    match c {
        ComputedView::Value(v) => vm::stored(m, i.p3, v, StepView::Next),
        ComputedView::Outside(c) => vm::stepped(m, StepView::Await(RequestView::Calculate(c))),
    }
}

/// `r[P3] = r[P1] op r[P2]`, or `r[P2] op r[P1]` where the operands are turned round. NULL
/// propagates: any NULL operand makes the result NULL.
pub open spec fn binary_effect(
    m: VmView,
    i: InstructionView,
    op: ArithmeticOp,
    turned: bool,
) -> Effect {
    match (m.register(i.p1), m.register(i.p2)) {
        (Err(e), _) => vm::failed(m, e),
        (_, Err(e)) => vm::failed(m, e),
        (Ok(a), Ok(b)) => if a is Null || b is Null {
            vm::stored(m, i.p3, ValueView::Null, StepView::Next)
        } else if turned {
            computed_effect(m, i, coerce::arithmetic_of(op, b, a))
        } else {
            computed_effect(m, i, coerce::arithmetic_of(op, a, b))
        },
    }
}

fn finish(vm: &mut Vm, instr: &Instruction, c: Computed) -> (r: Result<Step, ExecError>)
    requires
        old(vm).wf(),
    ensures
        final(vm).wf(),
        vm::outcome(final(vm)@, r) == computed_effect(old(vm)@, instr@, c@),
{
    match c {
        Computed::Value(v) => {
            vm.set_register(instr.p3, v)?;
            Ok(Step::Next)
        },
        Computed::Outside(c) => Ok(Step::Await(Request::Calculate(c))),
    }
}

fn apply(op: ArithmeticOp, a: &Value, b: &Value) -> (r: Computed)
    ensures
        r@ == coerce::arithmetic_of(op, a@, b@),
{
    match op {
        ArithmeticOp::Add => coerce::checked_add(a, b),
        ArithmeticOp::Subtract => coerce::checked_sub(a, b),
        ArithmeticOp::Multiply => coerce::checked_mul(a, b),
        ArithmeticOp::Divide => coerce::checked_div(a, b),
        ArithmeticOp::Remainder => coerce::checked_rem(a, b),
    }
}

/// NULL propagates through arithmetic: any NULL operand makes the result NULL, checked
/// before the operands are coerced (which would otherwise treat NULL as numeric 0).
fn binary_op(vm: &mut Vm, instr: &Instruction, op: ArithmeticOp, turned: bool) -> (r: Result<
    Step,
    ExecError,
>)
    requires
        old(vm).wf(),
    ensures
        final(vm).wf(),
        vm::outcome(final(vm)@, r) == binary_effect(old(vm)@, instr@, op, turned),
{
    let a = vm.register(instr.p1)?.copy();
    let b = vm.register(instr.p2)?.copy();
    let null = matches!(a, Value::Null) || matches!(b, Value::Null);
    let result = if null {
        Computed::Value(Value::Null)
    } else if turned {
        apply(op, &b, &a)
    } else {
        apply(op, &a, &b)
    };
    finish(vm, instr, result)
}

/// `Add`: `r[P3] = r[P1] + r[P2]`.
pub fn add(vm: &mut Vm, instr: &Instruction) -> (r: Result<Step, ExecError>)
    requires
        old(vm).wf(),
    ensures
        final(vm).wf(),
        vm::outcome(final(vm)@, r) == binary_effect(old(vm)@, instr@, ArithmeticOp::Add, false),
{
    binary_op(vm, instr, ArithmeticOp::Add, false)
}

/// `Subtract`: `r[P3] = r[P2] - r[P1]`, matching SQLite's operand order.
pub fn subtract(vm: &mut Vm, instr: &Instruction) -> (r: Result<Step, ExecError>)
    requires
        old(vm).wf(),
    ensures
        final(vm).wf(),
        vm::outcome(final(vm)@, r) == binary_effect(
            old(vm)@,
            instr@,
            ArithmeticOp::Subtract,
            true,
        ),
{
    binary_op(vm, instr, ArithmeticOp::Subtract, true)
}

/// `Multiply`: `r[P3] = r[P1] * r[P2]`.
pub fn multiply(vm: &mut Vm, instr: &Instruction) -> (r: Result<Step, ExecError>)
    requires
        old(vm).wf(),
    ensures
        final(vm).wf(),
        vm::outcome(final(vm)@, r) == binary_effect(
            old(vm)@,
            instr@,
            ArithmeticOp::Multiply,
            false,
        ),
{
    binary_op(vm, instr, ArithmeticOp::Multiply, false)
}

/// `Divide`: `r[P3] = r[P2] / r[P1]`, matching SQLite's operand order.
pub fn divide(vm: &mut Vm, instr: &Instruction) -> (r: Result<Step, ExecError>)
    requires
        old(vm).wf(),
    ensures
        final(vm).wf(),
        vm::outcome(final(vm)@, r) == binary_effect(old(vm)@, instr@, ArithmeticOp::Divide, true),
{
    binary_op(vm, instr, ArithmeticOp::Divide, true)
}

/// `Remainder`: `r[P3] = r[P2] % r[P1]`, matching SQLite's operand order.
pub fn remainder(vm: &mut Vm, instr: &Instruction) -> (r: Result<Step, ExecError>)
    requires
        old(vm).wf(),
    ensures
        final(vm).wf(),
        vm::outcome(final(vm)@, r) == binary_effect(
            old(vm)@,
            instr@,
            ArithmeticOp::Remainder,
            true,
        ),
{
    binary_op(vm, instr, ArithmeticOp::Remainder, true)
}

/// An arithmetic operation, carried on with the result of its calculation's next step.
pub fn calculated(vm: &mut Vm, instr: &Instruction, calculation: Calculation, bits: u64) -> (r:
    Result<Step, ExecError>)
    requires
        old(vm).wf(),
    ensures
        final(vm).wf(),
        vm::outcome(final(vm)@, r) == computed_effect(
            old(vm)@,
            instr@,
            coerce::carried_on(calculation@, bits),
        ),
{
    let c = calculation.carry_on(bits);
    finish(vm, instr, c)
}

/// 1 for true and 0 for false.
pub open spec fn truth(b: bool) -> ValueView {
    ValueView::Integer(
        if b {
            1
        } else {
            0
        },
    )
}

pub open spec fn not_effect(m: VmView, i: InstructionView) -> Effect {
    match m.register(i.p1) {
        Err(e) => vm::failed(m, e),
        Ok(ValueView::Null) => vm::stored(m, i.p2, ValueView::Null, StepView::Next),
        Ok(v) => match control::falsity(v) {
            FalsityView::Known(b) => vm::stored(m, i.p2, truth(b), StepView::Next),
            FalsityView::Parse(s) => vm::stepped(m, StepView::Await(RequestView::Parse(s))),
        },
    }
}

fn set_truth(vm: &mut Vm, reg: i32, b: bool) -> (r: Result<Step, ExecError>)
    requires
        old(vm).wf(),
    ensures
        final(vm).wf(),
        vm::outcome(final(vm)@, r) == vm::stored(old(vm)@, reg, truth(b), StepView::Next),
{
    vm.set_register(
        reg,
        Value::Integer(
            if b {
                1
            } else {
                0
            },
        ),
    )?;
    Ok(Step::Next)
}

/// `Not`: `r[P2] = !r[P1]`, interpreting `P1` as a boolean. A NULL operand yields NULL, not
/// 1: SQL's `NOT unknown` is still unknown.
pub fn not(vm: &mut Vm, instr: &Instruction) -> (r: Result<Step, ExecError>)
    requires
        old(vm).wf(),
    ensures
        final(vm).wf(),
        vm::outcome(final(vm)@, r) == not_effect(old(vm)@, instr@),
{
    let v = vm.register(instr.p1)?.copy();
    let null = matches!(v, Value::Null);
    if null {
        vm.set_register(instr.p2, Value::Null)?;
        return Ok(Step::Next);
    }
    match control::is_falsy(&v) {
        Falsity::Known(b) => set_truth(vm, instr.p2, b),
        Falsity::Parse(s) => Ok(Step::Await(Request::Parse(s))),
    }
}

/// `Not` with the floating-point value of the register's text.
pub fn not_parsed(vm: &mut Vm, instr: &Instruction, bits: u64) -> (r: Result<Step, ExecError>)
    requires
        old(vm).wf(),
    ensures
        final(vm).wf(),
        vm::outcome(final(vm)@, r) == vm::stored(
            old(vm)@,
            instr.p2,
            truth(double::denoted(bits) == 0),
            StepView::Next,
        ),
{
    let zero = double::is_zero(bits);
    set_truth(vm, instr.p2, zero)
}

/// NULL propagates through every arithmetic operation.
pub proof fn law_null_propagates(m: VmView, i: InstructionView, op: ArithmeticOp, turned: bool)
    requires
        vm::in_range(i.p1),
        vm::in_range(i.p2),
        vm::in_range(i.p3),
        m.held(i.p1 as int) is Null || m.held(i.p2 as int) is Null,
    ensures
        binary_effect(m, i, op, turned) == vm::stepped(
            m.with_register(i.p3, ValueView::Null),
            StepView::Next,
        ),
{
}

/// An arithmetic operation changes its destination register and nothing else.
pub proof fn law_one_destination(
    m: VmView,
    i: InstructionView,
    op: ArithmeticOp,
    turned: bool,
    other: i32,
)
    requires
        other != i.p3,
    ensures
        binary_effect(m, i, op, turned).vm.register(other) == m.register(other),
        binary_effect(m, i, op, turned).vm.cursors == m.cursors,
        binary_effect(m, i, op, turned).vm.rows == m.rows,
{
}

/// What an instruction leaves where it writes `v` into `reg` and goes on: the register holds
/// `v`, and all others hold what they held.
pub open spec fn writes(m: VmView, reg: i32, v: ValueView, e: Effect) -> bool {
    &&& e.step == Ok::<StepView, ErrorView>(StepView::Next)
    &&& e.vm.held(reg as int) == v
    &&& forall|other: int| other != reg ==> #[trigger] e.vm.held(other) == m.held(other)
    &&& e.vm.cursors == m.cursors
    &&& e.vm.rows == m.rows
}

proof fn lemma_writes(m: VmView, reg: i32, v: ValueView)
    requires
        vm::in_range(reg),
    ensures
        writes(m, reg, v, vm::stored(m, reg, v, StepView::Next)),
{
}

/// Two integers whose sum has 64 bits add up to it; of two whose sum has more, the sum is
/// calculated in floating point.
pub proof fn law_integers_add(m: VmView, i: InstructionView, x: i64, y: i64)
    requires
        vm::in_range(i.p1),
        vm::in_range(i.p2),
        vm::in_range(i.p3),
        m.held(i.p1 as int) == ValueView::Integer(x),
        m.held(i.p2 as int) == ValueView::Integer(y),
    ensures
        ({
            let e = binary_effect(m, i, ArithmeticOp::Add, false);
            if i64::MIN <= x + y <= i64::MAX {
                writes(m, i.p3, ValueView::Integer((x + y) as i64), e)
            } else {
                e.step is Ok && e.step->Ok_0 is Await && e.vm == m
            }
        }),
{
    lemma_writes(m, i.p3, ValueView::Integer((x + y) as i64));
}

/// Of two integers the one in `P1` is taken from the one in `P2`.
pub proof fn law_integers_subtract(m: VmView, i: InstructionView, x: i64, y: i64)
    requires
        vm::in_range(i.p1),
        vm::in_range(i.p2),
        vm::in_range(i.p3),
        m.held(i.p1 as int) == ValueView::Integer(x),
        m.held(i.p2 as int) == ValueView::Integer(y),
    ensures
        ({
            let e = binary_effect(m, i, ArithmeticOp::Subtract, true);
            if i64::MIN <= y - x <= i64::MAX {
                writes(m, i.p3, ValueView::Integer((y - x) as i64), e)
            } else {
                e.step is Ok && e.step->Ok_0 is Await && e.vm == m
            }
        }),
{
    lemma_writes(m, i.p3, ValueView::Integer((y - x) as i64));
}

/// Two integers whose product has 64 bits multiply to it.
pub proof fn law_integers_multiply(m: VmView, i: InstructionView, x: i64, y: i64)
    requires
        vm::in_range(i.p1),
        vm::in_range(i.p2),
        vm::in_range(i.p3),
        m.held(i.p1 as int) == ValueView::Integer(x),
        m.held(i.p2 as int) == ValueView::Integer(y),
    ensures
        ({
            let e = binary_effect(m, i, ArithmeticOp::Multiply, false);
            if i64::MIN <= x * y <= i64::MAX {
                writes(m, i.p3, ValueView::Integer((x * y) as i64), e)
            } else {
                e.step is Ok && e.step->Ok_0 is Await && e.vm == m
            }
        }),
{
    lemma_writes(m, i.p3, ValueView::Integer((x * y) as i64));
}

/// Whether `q` is what `y` divided by `x` is without its fraction, and `r` what is left: `y` is
/// made up of them, `r` is smaller than `x`, and `r` has the sign of `y`.
pub open spec fn divides(y: int, x: int, q: int, r: int) -> bool {
    &&& y == q * x + r
    &&& (if r < 0 {
        -r
    } else {
        r
    }) < (if x < 0 {
        -x
    } else {
        x
    })
    &&& r == 0 || (r < 0) == (y < 0)
}

proof fn lemma_divides(y: int, x: int, q: int, r: int)
    requires
        x != 0,
        divides(y, x, q, r),
    ensures
        q == coerce::quotient(y, x),
        r == coerce::remainder(y, x),
{
    let a = coerce::absolute(y);
    let b = coerce::absolute(x);
    let n = coerce::absolute(q);
    let k = coerce::absolute(r);
    assert(a == n * b + k && (q != 0 ==> (q < 0) == ((y < 0) != (x < 0)))) by (nonlinear_arith)
        requires
            x != 0,
            y == q * x + r,
            k < b,
            r == 0 || (r < 0) == (y < 0),
            a == (if y < 0 {
                -y
            } else {
                y
            }),
            b == (if x < 0 {
                -x
            } else {
                x
            }),
            n == (if q < 0 {
                -q
            } else {
                q
            }),
            k == (if r < 0 {
                -r
            } else {
                r
            }),
    ;
    assert(a == b * n + k) by (nonlinear_arith)
        requires
            a == n * b + k,
    ;
    vstd::arithmetic::div_mod::lemma_fundamental_div_mod_converse(a, b, n, k);
}

/// An integer divided by another, not zero, is their quotient without its fraction, and what is
/// left of it has the sign of the dividend. The one quotient without 64 bits is calculated in
/// floating point. By zero both are NULL.
pub proof fn law_integers_divide(m: VmView, i: InstructionView, x: i64, y: i64, q: int, r: int)
    requires
        vm::in_range(i.p1),
        vm::in_range(i.p2),
        vm::in_range(i.p3),
        m.held(i.p1 as int) == ValueView::Integer(x),
        m.held(i.p2 as int) == ValueView::Integer(y),
        x != 0 ==> divides(y as int, x as int, q, r),
    ensures
        ({
            let divided = binary_effect(m, i, ArithmeticOp::Divide, true);
            let left = binary_effect(m, i, ArithmeticOp::Remainder, true);
            if x == 0 {
                writes(m, i.p3, ValueView::Null, divided) && writes(m, i.p3, ValueView::Null, left)
            } else if i64::MIN <= q <= i64::MAX {
                writes(m, i.p3, ValueView::Integer(q as i64), divided) && writes(
                    m,
                    i.p3,
                    ValueView::Integer(r as i64),
                    left,
                )
            } else {
                divided.step is Ok && divided.step->Ok_0 is Await && left.step is Ok
                    && left.step->Ok_0 is Await
            }
        }),
{
    lemma_writes(m, i.p3, ValueView::Null);
    if x != 0 {
        lemma_divides(y as int, x as int, q, r);
        lemma_writes(m, i.p3, ValueView::Integer(q as i64));
        lemma_writes(m, i.p3, ValueView::Integer(r as i64));
    }
}

/// Where one of two numbers is no integer and nothing is divided by zero, the operation is
/// calculated in floating point, on the two in their order.
pub proof fn law_reals_are_calculated(
    m: VmView,
    i: InstructionView,
    op: ArithmeticOp,
    x: ValueView,
    y: ValueView,
)
    requires
        vm::in_range(i.p1),
        vm::in_range(i.p2),
        m.held(i.p1 as int) == x,
        m.held(i.p2 as int) == y,
        x is Real || y is Real,
        x is Real || x is Integer,
        y is Real || y is Integer,
        op != ArithmeticOp::Divide && op != ArithmeticOp::Remainder,
    ensures
        ({
            let number = |v: ValueView|
                match v {
                    ValueView::Integer(n) => OperandView::Integer(n),
                    ValueView::Real(bits) => OperandView::Real(bits),
                    _ => OperandView::Integer(0),
                };
            let request = |a: ValueView, b: ValueView|
                StepView::Await(
                    RequestView::Calculate(
                        CalculationView { op, left: number(a), right: number(b) },
                    ),
                );
            &&& binary_effect(m, i, op, false).step == Ok::<StepView, ErrorView>(request(x, y))
            &&& binary_effect(m, i, op, true).step == Ok::<StepView, ErrorView>(request(y, x))
        }),
{
}

/// `NOT` is 1 of zero and 0 of every other number; of NULL it is NULL.
pub proof fn law_not_turns_truth(m: VmView, i: InstructionView, v: ValueView)
    requires
        vm::in_range(i.p1),
        vm::in_range(i.p2),
        m.held(i.p1 as int) == v,
    ensures
        v is Null ==> writes(m, i.p2, ValueView::Null, not_effect(m, i)),
        v == ValueView::Integer(0) ==> writes(m, i.p2, ValueView::Integer(1), not_effect(m, i)),
        v is Integer && v != ValueView::Integer(0) ==> writes(
            m,
            i.p2,
            ValueView::Integer(0),
            not_effect(m, i),
        ),
        v is Real && double::denoted(v->Real_0) == 0 ==> writes(
            m,
            i.p2,
            ValueView::Integer(1),
            not_effect(m, i),
        ),
        v is Real && double::denoted(v->Real_0) != 0 ==> writes(
            m,
            i.p2,
            ValueView::Integer(0),
            not_effect(m, i),
        ),
        v is Blob ==> writes(m, i.p2, ValueView::Integer(1), not_effect(m, i)),
{
    lemma_writes(m, i.p2, ValueView::Null);
    lemma_writes(m, i.p2, ValueView::Integer(0));
    lemma_writes(m, i.p2, ValueView::Integer(1));
}

} // verus!
