//! Control-flow opcodes: unconditional jump, one-shot guarding, subroutine call and return,
//! NULL-testing conditional jumps, and the LIMIT/OFFSET counter family.
use crate::double;
use crate::record::value::{Value, ValueView};
use crate::text;
use crate::vdbe::coerce;
use crate::vdbe::coerce::{Operand, OperandView};
use crate::vdbe::error::{ErrorView, ExecError};
use crate::vdbe::program::{Instruction, InstructionView, P4View, P4};
use crate::vdbe::request::{Request, RequestView};
use crate::vdbe::saturate;
use crate::vdbe::vm;
use crate::vdbe::vm::{to_pc, Effect, Step, StepView, Vm, VmView};
use vstd::prelude::*;

verus! {

/// Jumps to `p2` where `taken`, and falls through else.
pub open spec fn jump_if(taken: bool, p2: i32) -> StepView {
    if taken {
        vm::jump(p2)
    } else {
        StepView::Next
    }
}

pub(crate) fn take_jump(taken: bool, p2: i32) -> (s: Step)
    ensures
        s@ == jump_if(taken, p2),
{
    if taken {
        Step::Jump(to_pc(p2))
    } else {
        Step::Next
    }
}

/// The storage class of a value, in words.
pub open spec fn kind_of(v: ValueView) -> Seq<char> {
    match v {
        ValueView::Null => "NULL"@,
        ValueView::Integer(_) => "INTEGER"@,
        ValueView::Real(_) => "REAL"@,
        ValueView::Text(_) => "TEXT"@,
        ValueView::Blob(_) => "BLOB"@,
    }
}

fn value_kind(v: &Value) -> (s: &'static str)
    ensures
        s@ == kind_of(v@),
{
    match v {
        Value::Null => "NULL",
        Value::Integer(_) => "INTEGER",
        Value::Real(_) => "REAL",
        Value::Text(_) => "TEXT",
        Value::Blob(_) => "BLOB",
    }
}

/// `Init`: jumps to `P2` (the start of the main program body) unless `P2` is 0, in which
/// case execution falls through to PC+1.
pub fn init(instr: &Instruction) -> (r: Result<Step, ExecError>)
    ensures
        vm::seen(r) == Ok::<StepView, ErrorView>(jump_if(instr.p2 != 0, instr.p2)),
{
    Ok(take_jump(instr.p2 != 0, instr.p2))
}

/// `Goto`: unconditional jump to `P2`.
pub fn goto(instr: &Instruction) -> (r: Result<Step, ExecError>)
    ensures
        vm::seen(r) == Ok::<StepView, ErrorView>(vm::jump(instr.p2)),
{
    Ok(Step::Jump(to_pc(instr.p2)))
}

pub open spec fn once_effect(m: VmView, pc: usize, i: InstructionView) -> Effect {
    vm::stepped(
        VmView { once_fired: m.once_fired.insert(pc), ..m },
        jump_if(m.once_fired.contains(pc), i.p2),
    )
}

/// `Once`: runs its guarded block the first time control reaches this instruction address,
/// then jumps to `P2` on every subsequent visit.
pub fn once(vm: &mut Vm, pc: usize, instr: &Instruction) -> (r: Result<Step, ExecError>)
    requires
        old(vm).wf(),
    ensures
        final(vm).wf(),
        vm::outcome(final(vm)@, r) == once_effect(old(vm)@, pc, instr@),
{
    let first = vm.fire_once(pc);
    Ok(take_jump(!first, instr.p2))
}

/// `BeginSubrtn`: marks a subroutine's entry point; falls straight through. The call site
/// is responsible for storing a return address and jumping here.
pub fn begin_subrtn() -> (r: Result<Step, ExecError>)
    ensures
        vm::seen(r) == Ok::<StepView, ErrorView>(StepView::Next),
{
    Ok(Step::Next)
}

pub open spec fn return_step(m: VmView, i: InstructionView) -> Result<StepView, ErrorView> {
    match m.register(i.p1) {
        Err(e) => Err(e),
        Ok(ValueView::Integer(n)) => if i32::MIN <= n <= i32::MAX {
            Ok(vm::jump(n as i32))
        } else {
            Err(
                vm::malformed(
                    "Return"@,
                    "return address "@ + text::signed_decimal(n as int) + " does not fit in a PC"@,
                ),
            )
        },
        Ok(v) => Err(ErrorView::TypeMismatch { opcode: "Return"@, found: kind_of(v) }),
    }
}

/// `Return`: jumps to the address stored (as an integer) in register `P1`.
pub fn return_to(vm: &Vm, instr: &Instruction) -> (r: Result<Step, ExecError>)
    ensures
        vm::seen(r) == return_step(vm@, instr@),
{
    match vm.register(instr.p1)? {
        Value::Integer(n) => {
            if -2147483648 <= *n && *n <= 2147483647 {
                Ok(Step::Jump(to_pc(*n as i32)))
            } else {
                let mut reason = "return address ".to_owned();
                reason.append(text::signed_to_text(*n).as_str());
                reason.append(" does not fit in a PC");
                Err(ExecError::MalformedInstruction { opcode: "Return", reason })
            }
        },
        other => Err(ExecError::TypeMismatch { opcode: "Return", found: value_kind(other) }),
    }
}

pub open spec fn halt_step(i: InstructionView) -> StepView {
    StepView::Halt {
        code: i.p1,
        message: match i.p4 {
            P4View::Str(s) => Some(s),
            _ => None,
        },
    }
}

/// `Halt`: terminates execution. `P1` is the SQLite result code (0 = success); `P4`, if
/// present, carries an error message.
pub fn halt(instr: &Instruction) -> (r: Result<Step, ExecError>)
    ensures
        vm::seen(r) == Ok::<StepView, ErrorView>(halt_step(instr@)),
{
    let message = match &instr.p4 {
        P4::Str(s) => Some(s.clone()),
        _ => None,
    };
    Ok(Step::Halt { code: instr.p1, message })
}

/// `Transaction`: a no-op in this VM; transaction and schema-cookie machinery lives outside
/// the bytecode interpreter.
pub fn transaction() -> (r: Result<Step, ExecError>)
    ensures
        vm::seen(r) == Ok::<StepView, ErrorView>(StepView::Next),
{
    Ok(Step::Next)
}

pub open spec fn is_null_step(m: VmView, i: InstructionView) -> Result<StepView, ErrorView> {
    match m.register(i.p1) {
        Err(e) => Err(e),
        Ok(v) => Ok(jump_if(v is Null, i.p2)),
    }
}

/// `IsNull`: jumps to `P2` if register `P1` holds NULL.
pub fn is_null(vm: &Vm, instr: &Instruction) -> (r: Result<Step, ExecError>)
    ensures
        vm::seen(r) == is_null_step(vm@, instr@),
{
    let v = vm.register(instr.p1)?;
    Ok(take_jump(matches!(v, Value::Null), instr.p2))
}

pub open spec fn not_null_step(m: VmView, i: InstructionView) -> Result<StepView, ErrorView> {
    match m.register(i.p1) {
        Err(e) => Err(e),
        Ok(v) => Ok(jump_if(!(v is Null), i.p2)),
    }
}

/// `NotNull`: jumps to `P2` if register `P1` does not hold NULL.
pub fn not_null(vm: &Vm, instr: &Instruction) -> (r: Result<Step, ExecError>)
    ensures
        vm::seen(r) == not_null_step(vm@, instr@),
{
    let v = vm.register(instr.p1)?;
    Ok(take_jump(!matches!(v, Value::Null), instr.p2))
}

/// Whether a value is false, or the literal whose floating-point value decides.
#[derive(Debug, Clone, PartialEq)]
pub enum Falsity {
    Known(bool),
    Parse(String),
}

/// What a [`Falsity`] stands for.
#[verifier::ext_equal]
pub enum FalsityView {
    Known(bool),
    Parse(Seq<char>),
}

impl Falsity {
    pub open spec fn view(&self) -> FalsityView {
        match self {
            Falsity::Known(b) => FalsityView::Known(*b),
            Falsity::Parse(s) => FalsityView::Parse(s@),
        }
    }
}

/// Numeric-coerced zero is false and everything else is true; a blob is false, and NULL is
/// neither.
pub open spec fn falsity(v: ValueView) -> FalsityView {
    match v {
        ValueView::Null => FalsityView::Known(false),
        ValueView::Blob(_) => FalsityView::Known(true),
        _ => match coerce::value_operand(v) {
            OperandView::Integer(i) => FalsityView::Known(i == 0),
            OperandView::Real(r) => FalsityView::Known(double::denoted(r) == 0),
            OperandView::Decimal(s) => FalsityView::Parse(s),
        },
    }
}

/// Truthiness for the boolean-consuming opcodes: numeric-coerced zero is false and
/// everything else is true. NULL is neither; callers decide what to do with it, which is
/// why this answers `false` for NULL rather than pretending it is a boolean.
pub fn is_falsy(v: &Value) -> (r: Falsity)
    ensures
        r@ == falsity(v@),
{
    match v {
        Value::Null => Falsity::Known(false),
        Value::Blob(_) => Falsity::Known(true),
        _ => match coerce::as_numeric(v) {
            Operand::Integer(i) => Falsity::Known(i == 0),
            Operand::Real(r) => Falsity::Known(double::is_zero(r)),
            Operand::Decimal(s) => Falsity::Parse(s),
        },
    }
}

pub open spec fn if_not_step(m: VmView, i: InstructionView) -> Result<StepView, ErrorView> {
    match m.register(i.p1) {
        Err(e) => Err(e),
        Ok(ValueView::Null) => Ok(jump_if(i.p3 != 0, i.p2)),
        Ok(v) => match falsity(v) {
            FalsityView::Known(b) => Ok(jump_if(b, i.p2)),
            FalsityView::Parse(s) => Ok(StepView::Await(RequestView::Parse(s))),
        },
    }
}

/// `IfNot`: jumps to `P2` if register `P1` is falsy (zero). NULL jumps only when `P3` is
/// nonzero.
pub fn if_not(vm: &Vm, instr: &Instruction) -> (r: Result<Step, ExecError>)
    ensures
        vm::seen(r) == if_not_step(vm@, instr@),
{
    match vm.register(instr.p1)? {
        Value::Null => Ok(take_jump(instr.p3 != 0, instr.p2)),
        other => match is_falsy(other) {
            Falsity::Known(b) => Ok(take_jump(b, instr.p2)),
            Falsity::Parse(s) => Ok(Step::Await(Request::Parse(s))),
        },
    }
}

/// `IfNot` with the floating-point value of the register's text.
pub fn if_not_parsed(instr: &Instruction, bits: u64) -> (r: Result<Step, ExecError>)
    ensures
        vm::seen(r) == Ok::<StepView, ErrorView>(jump_if(double::denoted(bits) == 0, instr.p2)),
{
    Ok(take_jump(double::is_zero(bits), instr.p2))
}

/// The integer a value is without data loss.
pub open spec fn lossless_integer(v: ValueView) -> Option<i64> {
    match v {
        ValueView::Integer(i) => Some(i),
        ValueView::Real(r) => if !double::is_nan(r) && exists|n: i64| double::denotes_integer(r,
            n) {
            Some(choose|n: i64| double::denotes_integer(r, n))
        } else {
            None
        },
        ValueView::Text(s) => coerce::integer_of(text::trim(s)),
        _ => None,
    }
}

pub open spec fn must_be_int_effect(m: VmView, i: InstructionView) -> Effect {
    match m.register(i.p1) {
        Err(e) => vm::failed(m, e),
        Ok(v) => match lossless_integer(v) {
            Some(n) => vm::stored(m, i.p1, ValueView::Integer(n), StepView::Next),
            None => if i.p2 != 0 {
                vm::stepped(m, vm::jump(i.p2))
            } else {
                vm::failed(m, ErrorView::MustBeInt)
            },
        },
    }
}

/// `MustBeInt`: forces register `P1` to be an integer, converting a losslessly-integral
/// REAL or well-formed integer-text in place. If the value cannot be converted without data
/// loss, jumps to `P2` (or, when `P2` is 0, reports an error).
pub fn must_be_int(vm: &mut Vm, instr: &Instruction) -> (r: Result<Step, ExecError>)
    requires
        old(vm).wf(),
    ensures
        final(vm).wf(),
        vm::outcome(final(vm)@, r) == must_be_int_effect(old(vm)@, instr@),
{
    let n = try_to_integer(vm.register(instr.p1)?);
    match n {
        Some(i) => {
            vm.set_register(instr.p1, Value::Integer(i))?;
            Ok(Step::Next)
        },
        None => {
            if instr.p2 != 0 {
                Ok(Step::Jump(to_pc(instr.p2)))
            } else {
                Err(ExecError::MustBeInt)
            }
        },
    }
}

fn try_to_integer(v: &Value) -> (r: Option<i64>)
    ensures
        r == lossless_integer(v@),
{
    match v {
        Value::Integer(i) => Some(*i),
        Value::Real(r) => {
            let n = double::to_integer(*r);
            proof {
                if n is Some {
                    let m = choose|m: i64| double::denotes_integer(*r, m);
                    double::lemma_one_integer(*r, n->0, m);
                }
            }
            n
        },
        Value::Text(s) => {
            let w = text::chars_of(s.as_str());
            let (a, b) = text::trim_range(&w, 0, w.len());
            assert(w@.subrange(0, w@.len() as int) =~= s@);
            coerce::parse_integer(&w, a, b)
        },
        _ => None,
    }
}

/// The integer in a counter register.
pub open spec fn counter(m: VmView, reg: i32) -> Result<i64, ErrorView> {
    match m.register(reg) {
        Err(e) => Err(e),
        Ok(ValueView::Integer(n)) => Ok(n),
        Ok(v) => Err(
            ErrorView::TypeMismatch { opcode: "control counter"@, found: kind_of(v) },
        ),
    }
}

fn register_as_i64(vm: &Vm, reg: i32) -> (r: Result<i64, ExecError>)
    ensures
        match r {
            Ok(n) => counter(vm@, reg) == Ok::<i64, ErrorView>(n),
            Err(e) => counter(vm@, reg) == Err::<i64, ErrorView>(e@),
        },
{
    match vm.register(reg)? {
        Value::Integer(i) => Ok(*i),
        other => Err(
            ExecError::TypeMismatch { opcode: "control counter", found: value_kind(other) },
        ),
    }
}

/// The row budget of a LIMIT with an OFFSET: -1 where the LIMIT sets none.
pub open spec fn budget(limit: i64, offset: i64) -> i64 {
    if limit > 0 {
        saturate::clamped(limit + (if offset > 0 {
            offset as int
        } else {
            0
        }))
    } else {
        (-1int) as i64
    }
}

pub open spec fn offset_limit_effect(m: VmView, i: InstructionView) -> Effect {
    match counter(m, i.p1) {
        Err(e) => vm::failed(m, e),
        Ok(limit) => match counter(m, i.p3) {
            Err(e) => vm::failed(m, e),
            Ok(offset) => vm::stored(
                m,
                i.p2,
                ValueView::Integer(budget(limit, offset)),
                StepView::Next,
            ),
        },
    }
}

/// `OffsetLimit`: computes a combined row-budget counter from a LIMIT register (`P1`) and
/// an OFFSET register (`P3`) into destination register `P2`. A non-positive LIMIT means "no
/// limit", encoded as -1.
pub fn offset_limit(vm: &mut Vm, instr: &Instruction) -> (r: Result<Step, ExecError>)
    requires
        old(vm).wf(),
    ensures
        final(vm).wf(),
        vm::outcome(final(vm)@, r) == offset_limit_effect(old(vm)@, instr@),
{
    let limit: i64 = register_as_i64(vm, instr.p1)?;
    let offset: i64 = register_as_i64(vm, instr.p3)?;
    let combined: i64 = if limit > 0 {
        saturate::plus(
            limit,
            if offset > 0 {
                offset
            } else {
                0
            },
        )
    } else {
        -1
    };
    vm.set_register(instr.p2, Value::Integer(combined))?;
    Ok(Step::Next)
}

pub open spec fn if_pos_effect(m: VmView, i: InstructionView) -> Effect {
    match counter(m, i.p1) {
        Err(e) => vm::failed(m, e),
        Ok(n) => if n > 0 {
            vm::stored(
                m,
                i.p1,
                ValueView::Integer(saturate::clamped(n - i.p3)),
                vm::jump(i.p2),
            )
        } else {
            vm::stepped(m, StepView::Next)
        },
    }
}

/// `IfPos`: if register `P1` is 1 or greater, subtracts `P3` from it and jumps to `P2`.
pub fn if_pos(vm: &mut Vm, instr: &Instruction) -> (r: Result<Step, ExecError>)
    requires
        old(vm).wf(),
    ensures
        final(vm).wf(),
        vm::outcome(final(vm)@, r) == if_pos_effect(old(vm)@, instr@),
{
    let v: i64 = register_as_i64(vm, instr.p1)?;
    if v > 0 {
        vm.set_register(instr.p1, Value::Integer(saturate::minus(v, instr.p3 as i64)))?;
        Ok(Step::Jump(to_pc(instr.p2)))
    } else {
        Ok(Step::Next)
    }
}

pub open spec fn if_not_zero_effect(m: VmView, i: InstructionView) -> Effect {
    match counter(m, i.p1) {
        Err(e) => vm::failed(m, e),
        Ok(n) => if n > 0 {
            vm::stored(m, i.p1, ValueView::Integer((n - 1) as i64), vm::jump(i.p2))
        } else {
            vm::stepped(m, jump_if(n != 0, i.p2))
        },
    }
}

/// `IfNotZero`: if register `P1` is nonzero, decrements it (when positive) and jumps to
/// `P2`.
pub fn if_not_zero(vm: &mut Vm, instr: &Instruction) -> (r: Result<Step, ExecError>)
    requires
        old(vm).wf(),
    ensures
        final(vm).wf(),
        vm::outcome(final(vm)@, r) == if_not_zero_effect(old(vm)@, instr@),
{
    let v: i64 = register_as_i64(vm, instr.p1)?;
    if v > 0 {
        vm.set_register(instr.p1, Value::Integer(v - 1))?;
    }
    Ok(take_jump(v != 0, instr.p2))
}

pub open spec fn decr_jump_zero_effect(m: VmView, i: InstructionView) -> Effect {
    match counter(m, i.p1) {
        Err(e) => vm::failed(m, e),
        Ok(n) => vm::stored(
            m,
            i.p1,
            ValueView::Integer(saturate::clamped(n - 1)),
            jump_if(n == 1, i.p2),
        ),
    }
}

/// `DecrJumpZero`: decrements register `P1`, then jumps to `P2` if the new value is exactly
/// zero.
pub fn decr_jump_zero(vm: &mut Vm, instr: &Instruction) -> (r: Result<Step, ExecError>)
    requires
        old(vm).wf(),
    ensures
        final(vm).wf(),
        vm::outcome(final(vm)@, r) == decr_jump_zero_effect(old(vm)@, instr@),
{
    let n: i64 = register_as_i64(vm, instr.p1)?;
    let v: i64 = saturate::minus(n, 1);
    vm.set_register(instr.p1, Value::Integer(v))?;
    Ok(take_jump(v == 0, instr.p2))
}

/// `Once` falls through on the first visit of its address, and jumps on every later one,
/// whatever other addresses were visited in between.
pub proof fn law_once_fires_once(m: VmView, pc: usize, other: usize, i: InstructionView)
    ensures
        !m.once_fired.contains(pc) ==> once_effect(m, pc, i).step == Ok::<StepView, ErrorView>(
            StepView::Next,
        ),
        once_effect(once_effect(m, pc, i).vm, pc, i).step == Ok::<StepView, ErrorView>(
            vm::jump(i.p2),
        ),
        once_effect(once_effect(once_effect(m, pc, i).vm, other, i).vm, pc, i).step == Ok::<
            StepView,
            ErrorView,
        >(vm::jump(i.p2)),
{
}

/// The machine after `n` times `DecrJumpZero`.
pub open spec fn decremented(m: VmView, i: InstructionView, n: nat) -> VmView
    decreases n,
{
    if n == 0 {
        m
    } else {
        decr_jump_zero_effect(decremented(m, i, (n - 1) as nat), i).vm
    }
}

/// A LIMIT counter of `limit` rows jumps out on the `limit`th row, and not before.
pub proof fn law_limit_counts_rows(m: VmView, i: InstructionView, limit: i64, n: nat)
    requires
        vm::in_range(i.p1),
        m.held(i.p1 as int) == ValueView::Integer(limit),
        1 <= n <= limit,
    ensures
        decr_jump_zero_effect(decremented(m, i, (n - 1) as nat), i).step == Ok::<
            StepView,
            ErrorView,
        >(jump_if(n == limit, i.p2)),
        decremented(m, i, n).held(i.p1 as int) == ValueView::Integer((limit - n) as i64),
    decreases n,
{
    if n > 1 {
        law_limit_counts_rows(m, i, limit, (n - 1) as nat);
    }
}

/// A machine that holds an integer in a register jumps by it as the counter opcodes say:
/// `IfNot` on zero; `IfPos` above zero, with what `P3` takes off; `IfNotZero` on all but zero,
/// with one less where it was above. A counter that does not jump stays as it is.
pub proof fn law_counters_jump(m: VmView, i: InstructionView, n: i64)
    requires
        vm::in_range(i.p1),
        m.held(i.p1 as int) == ValueView::Integer(n),
    ensures
        if_not_step(m, i) == Ok::<StepView, ErrorView>(
            if n == 0 {
                vm::jump(i.p2)
            } else {
                StepView::Next
            },
        ),
        n > 0 ==> if_pos_effect(m, i).step == Ok::<StepView, ErrorView>(vm::jump(i.p2)),
        n > 0 && n - i.p3 <= i64::MAX ==> if_pos_effect(m, i).vm.held(i.p1 as int)
            == ValueView::Integer((n - i.p3) as i64),
        n <= 0 ==> if_pos_effect(m, i) == vm::stepped(m, StepView::Next),
        n != 0 ==> if_not_zero_effect(m, i).step == Ok::<StepView, ErrorView>(vm::jump(i.p2)),
        n > 0 ==> if_not_zero_effect(m, i).vm.held(i.p1 as int) == ValueView::Integer(
            (n - 1) as i64,
        ),
        n <= 0 ==> if_not_zero_effect(m, i).vm == m,
        n == 0 ==> if_not_zero_effect(m, i).step == Ok::<StepView, ErrorView>(StepView::Next),
        n <= 0 ==> decr_jump_zero_effect(m, i).step == Ok::<StepView, ErrorView>(StepView::Next),
        i64::MIN < n ==> decr_jump_zero_effect(m, i).vm.held(i.p1 as int) == ValueView::Integer(
            (n - 1) as i64,
        ),
        0 <= n <= i32::MAX ==> return_step(m, i) == Ok::<StepView, ErrorView>(
            StepView::Jump(n as usize),
        ),
{
}

/// `IsNull` jumps on NULL alone and `NotNull` on everything else. `IfNot` jumps on NULL where
/// `P3` says so, on a blob, and on a floating-point zero.
pub proof fn law_null_tests(m: VmView, i: InstructionView, v: ValueView)
    requires
        vm::in_range(i.p1),
        m.held(i.p1 as int) == v,
    ensures
        v is Null ==> is_null_step(m, i) == Ok::<StepView, ErrorView>(vm::jump(i.p2)),
        !(v is Null) ==> is_null_step(m, i) == Ok::<StepView, ErrorView>(StepView::Next),
        v is Null ==> not_null_step(m, i) == Ok::<StepView, ErrorView>(StepView::Next),
        !(v is Null) ==> not_null_step(m, i) == Ok::<StepView, ErrorView>(vm::jump(i.p2)),
        v is Null && i.p3 != 0 ==> if_not_step(m, i) == Ok::<StepView, ErrorView>(
            vm::jump(i.p2),
        ),
        v is Null && i.p3 == 0 ==> if_not_step(m, i) == Ok::<StepView, ErrorView>(StepView::Next),
        v is Blob ==> if_not_step(m, i) == Ok::<StepView, ErrorView>(vm::jump(i.p2)),
        v is Real ==> if_not_step(m, i) == Ok::<StepView, ErrorView>(
            if double::denoted(v->Real_0) == 0 {
                vm::jump(i.p2)
            } else {
                StepView::Next
            },
        ),
{
}

/// A jump goes to the address it names.
pub proof fn law_jump_goes_to_its_address(p2: i32)
    requires
        0 <= p2,
    ensures
        vm::jump(p2) == StepView::Jump(p2 as usize),
{
}

/// `MustBeInt` leaves an integer as it is, makes one of a REAL that is one, and refuses every
/// other REAL, NULL and every blob: by a jump to `P2`, or by an error where `P2` is zero.
pub proof fn law_must_be_int(m: VmView, i: InstructionView, v: ValueView, n: i64)
    requires
        vm::in_range(i.p1),
        m.held(i.p1 as int) == v,
    ensures
        ({
            let e = must_be_int_effect(m, i);
            let kept = v == ValueView::Integer(n) || (v is Real && !double::is_nan(v->Real_0)
                && double::denotes_integer(v->Real_0, n));
            let refused = v is Null || v is Blob || (v is Real && (double::is_nan(v->Real_0) || (
            forall|k: i64| !#[trigger] double::denotes_integer(v->Real_0, k))));
            &&& kept ==> e.step == Ok::<StepView, ErrorView>(StepView::Next) && e.vm.held(
                i.p1 as int,
            ) == ValueView::Integer(n)
            &&& refused && i.p2 != 0 ==> e == vm::stepped(m, vm::jump(i.p2))
            &&& refused && i.p2 == 0 ==> e == vm::failed(m, ErrorView::MustBeInt)
        }),
{
    if v is Real && !double::is_nan(v->Real_0) && double::denotes_integer(v->Real_0, n) {
        let k = choose|k: i64| double::denotes_integer(v->Real_0, k);
        double::lemma_one_integer(v->Real_0, n, k);
    }
}

/// The row budget is the rows of a LIMIT above zero and those of an OFFSET above zero before
/// them. A LIMIT of zero or less sets none.
pub proof fn law_offset_adds_to_limit(m: VmView, i: InstructionView, limit: i64, offset: i64)
    requires
        vm::in_range(i.p1),
        vm::in_range(i.p2),
        vm::in_range(i.p3),
        m.held(i.p1 as int) == ValueView::Integer(limit),
        m.held(i.p3 as int) == ValueView::Integer(offset),
    ensures
        ({
            let e = offset_limit_effect(m, i);
            &&& e.step == Ok::<StepView, ErrorView>(StepView::Next)
            &&& limit <= 0 ==> e.vm.held(i.p2 as int) == ValueView::Integer(-1i64)
            &&& limit > 0 && offset <= 0 ==> e.vm.held(i.p2 as int) == ValueView::Integer(limit)
            &&& limit > 0 && offset > 0 && limit + offset <= i64::MAX ==> e.vm.held(i.p2 as int)
                == ValueView::Integer((limit + offset) as i64)
            &&& limit > 0 && offset > 0 && limit + offset > i64::MAX ==> e.vm.held(i.p2 as int)
                == ValueView::Integer(i64::MAX)
        }),
{
}

} // verus!
