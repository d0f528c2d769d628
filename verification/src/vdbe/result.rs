//! Result-row opcodes: literal loading (`Integer`, `Null`, `String8`), record serialization
//! (`MakeRecord`, the on-disk record encoding byte for byte), and row emission
//! (`ResultRow`).
use crate::record::encode;
use crate::record::value;
use crate::record::value::{TextEncoding, Value, ValueView};
use crate::vdbe::affinity;
use crate::vdbe::affinity::{Affinity, Conversion};
use crate::vdbe::debug;
use crate::vdbe::error::{ErrorView, ExecError};
use crate::vdbe::program::{Instruction, InstructionView, P4View, P4};
use crate::vdbe::request::{Request, RequestView};
use crate::vdbe::vm;
use crate::vdbe::vm::{read_register_range, Effect, Step, StepView, Vm, VmView};
use vstd::prelude::*;

verus! {

/// `Integer`: loads the constant `P1` into register `P2`.
pub fn integer(vm: &mut Vm, instr: &Instruction) -> (r: Result<Step, ExecError>)
    requires
        old(vm).wf(),
    ensures
        final(vm).wf(),
        vm::outcome(final(vm)@, r) == vm::stored(
            old(vm)@,
            instr.p2,
            ValueView::Integer(instr.p1 as i64),
            StepView::Next,
        ),
{
    vm.set_register(instr.p2, Value::Integer(instr.p1 as i64))?;
    Ok(Step::Next)
}

/// Writes NULL into the registers from `reg` to `last`, as far as there are such.
pub open spec fn null_from(m: VmView, reg: int, last: int) -> Effect
    decreases last + 1 - reg,
{
    if reg > last {
        vm::stepped(m, StepView::Next)
    } else if !vm::in_range(reg as i32) {
        vm::failed(
            m,
            ErrorView::RegisterOutOfRange { opcode: "register write"@, index: reg as i32 },
        )
    } else {
        null_from(m.with_register(reg as i32, ValueView::Null), reg + 1, last)
    }
}

pub open spec fn null_effect(m: VmView, i: InstructionView) -> Effect {
    null_from(
        m,
        i.p2 as int,
        if i.p3 > i.p2 {
            i.p3 as int
        } else {
            i.p2 as int
        },
    )
}

/// `Null`: writes NULL into the register range `P2..=P3` (just `P2` when `P3` is 0 or below
/// `P2`).
pub fn null(vm: &mut Vm, instr: &Instruction) -> (r: Result<Step, ExecError>)
    requires
        old(vm).wf(),
    ensures
        final(vm).wf(),
        vm::outcome(final(vm)@, r) == null_effect(old(vm)@, instr@),
{
    let last: i64 = if instr.p3 > instr.p2 {
        instr.p3 as i64
    } else {
        instr.p2 as i64
    };
    let mut reg: i64 = instr.p2 as i64;
    while reg <= last
        invariant
            vm.wf(),
            instr.p2 <= reg <= last + 1,
            last <= i32::MAX,
            null_from(vm@, reg as int, last as int) == null_effect(old(vm)@, instr@),
        decreases last + 1 - reg,
    {
        vm.set_register(reg as i32, Value::Null)?;
        reg = reg + 1;
    }
    Ok(Step::Next)
}

pub open spec fn string8_effect(m: VmView, i: InstructionView) -> Effect {
    match i.p4 {
        P4View::Str(s) => vm::stored(m, i.p2, ValueView::Text(s), StepView::Next),
        other => vm::failed(
            m,
            vm::malformed("String8"@, "expected a string P4, got "@ + debug::operand_text(other)),
        ),
    }
}

/// `String8`: loads the UTF-8 string constant in `P4` into register `P2`.
pub fn string8(vm: &mut Vm, instr: &Instruction) -> (r: Result<Step, ExecError>)
    requires
        old(vm).wf(),
    ensures
        final(vm).wf(),
        vm::outcome(final(vm)@, r) == string8_effect(old(vm)@, instr@),
{
    match &instr.p4 {
        P4::Str(s) => {
            vm.set_register(instr.p2, Value::Text(s.clone()))?;
            Ok(Step::Next)
        },
        other => {
            let mut reason = "expected a string P4, got ".to_owned();
            reason.append(debug::show_operand(other).as_str());
            Err(ExecError::MalformedInstruction { opcode: "String8", reason })
        },
    }
}

/// The affinity an instruction gives to column `at` of its record.
pub open spec fn column_affinity(i: InstructionView, at: int) -> Affinity {
    match i.p4 {
        P4View::Affinity(bytes) => if at < bytes.len() {
            affinity::byte_affinity(bytes[at])
        } else {
            Affinity::Blob
        },
        _ => Affinity::Blob,
    }
}

/// Converts the columns from `at` on by their affinities, and then writes their record into
/// `P3`; waits where a column's floating-point value decides.
pub open spec fn record_effect(
    m: VmView,
    i: InstructionView,
    columns: Seq<ValueView>,
    at: int,
) -> Effect
    decreases columns.len() - at,
{
    if at < 0 || at >= columns.len() {
        vm::stored(
            m,
            i.p3,
            ValueView::Blob(encode::record_of(columns, TextEncoding::Utf8)),
            StepView::Next,
        )
    } else {
        match affinity::conversion(columns[at], column_affinity(i, at)) {
            Conversion::Value(v) => record_effect(m, i, columns.update(at, v), at + 1),
            Conversion::Parse(text) => vm::stepped(
                m,
                StepView::Await(RequestView::ParseWhole { text, columns, at: at as usize }),
            ),
        }
    }
}

pub open spec fn make_record_effect(m: VmView, i: InstructionView) -> Effect {
    match vm::count_of("MakeRecord"@, i.p2) {
        Err(e) => vm::failed(m, e),
        Ok(count) => match vm::register_range(m, i.p1, count) {
            Err(e) => vm::failed(m, e),
            Ok(columns) => record_effect(m, i, columns, 0),
        },
    }
}

fn affinity_at(instr: &Instruction, at: usize) -> (a: Affinity)
    ensures
        a == column_affinity(instr@, at as int),
{
    match &instr.p4 {
        P4::Affinity(bytes) => {
            if at < bytes.len() {
                Affinity::from_p4_byte(bytes[at])
            } else {
                Affinity::Blob
            }
        },
        _ => Affinity::Blob,
    }
}

fn convert_from(vm: &mut Vm, instr: &Instruction, given: Vec<Value>, from: usize) -> (r: Result<
    Step,
    ExecError,
>)
    requires
        old(vm).wf(),
        given@.len() * 16 <= usize::MAX,
    ensures
        final(vm).wf(),
        vm::outcome(final(vm)@, r) == record_effect(
            old(vm)@,
            instr@,
            value::values(given@),
            from as int,
        ),
{
    let ghost goal = record_effect(old(vm)@, instr@, value::values(given@), from as int);
    let mut columns = given;
    let mut at: usize = from;
    while at < columns.len()
        invariant
            vm.wf(),
            vm@ == old(vm)@,
            goal == record_effect(old(vm)@, instr@, value::values(given@), from as int),
            columns@.len() * 16 <= usize::MAX,
            record_effect(old(vm)@, instr@, value::values(columns@), at as int) == goal,
        decreases columns.len() - at,
    {
        let ghost before = value::values(columns@);
        let mut v = columns[at].copy();
        assert(v@ == before[at as int]);
        match affinity::apply_affinity(&mut v, affinity_at(instr, at)) {
            Some(text) => {
                return Ok(Step::Await(Request::ParseWhole { text, columns, at }));
            },
            None => {
                columns.set(at, v);
                assert(value::values(columns@) =~= before.update(at as int, v@));
            },
        }
        at = at + 1;
    }
    let payload = encode::encode_record(columns.as_slice(), TextEncoding::Utf8);
    vm.set_register(instr.p3, Value::Blob(payload))?;
    Ok(Step::Next)
}

/// `MakeRecord`: packs the contiguous register range `[P1, P1+P2)` into the record format,
/// writing the encoded bytes (as a blob) to register `P3`. Where `P4` is an affinity string,
/// each column is converted by its byte first.
pub fn make_record(vm: &mut Vm, instr: &Instruction) -> (r: Result<Step, ExecError>)
    requires
        old(vm).wf(),
    ensures
        final(vm).wf(),
        vm::outcome(final(vm)@, r) == make_record_effect(old(vm)@, instr@),
{
    let count = Vm::bounded_count("MakeRecord", instr.p2)?;
    let columns = read_register_range(vm, instr.p1, count)?;
    convert_from(vm, instr, columns, 0)
}

/// A record's columns with what reading the text of one as floating point gave.
pub open spec fn with_column(columns: Seq<ValueView>, at: int, parsed: Option<u64>) -> Seq<
    ValueView,
> {
    if 0 <= at < columns.len() {
        columns.update(at, affinity::with_parsed(columns[at], parsed))
    } else {
        columns
    }
}

/// `MakeRecord`, carried on with the floating-point value of one of its columns.
pub fn make_record_parsed(
    vm: &mut Vm,
    instr: &Instruction,
    columns: Vec<Value>,
    at: usize,
    parsed: Option<u64>,
) -> (r: Result<Step, ExecError>)
    requires
        old(vm).wf(),
        columns@.len() * 16 <= usize::MAX,
        at < columns@.len(),
    ensures
        final(vm).wf(),
        vm::outcome(final(vm)@, r) == record_effect(
            old(vm)@,
            instr@,
            with_column(value::values(columns@), at as int, parsed),
            at + 1,
        ),
{
    let mut columns = columns;
    let ghost before = value::values(columns@);
    let mut v = columns[at].copy();
    affinity::finish_affinity(&mut v, parsed);
    columns.set(at, v);
    assert(value::values(columns@) =~= with_column(before, at as int, parsed));
    convert_from(vm, instr, columns, at + 1)
}

pub open spec fn result_row_effect(m: VmView, i: InstructionView) -> Effect {
    match vm::count_of("ResultRow"@, i.p2) {
        Err(e) => vm::failed(m, e),
        Ok(count) => match vm::register_range(m, i.p1, count) {
            Err(e) => vm::failed(m, e),
            Ok(row) => vm::stepped(VmView { rows: m.rows.push(row), ..m }, StepView::Next),
        },
    }
}

/// `ResultRow`: yields the contiguous register range `[P1, P1+P2)` as one output row to the
/// statement's caller.
pub fn result_row(vm: &mut Vm, instr: &Instruction) -> (r: Result<Step, ExecError>)
    requires
        old(vm).wf(),
    ensures
        final(vm).wf(),
        vm::outcome(final(vm)@, r) == result_row_effect(old(vm)@, instr@),
{
    let count = Vm::bounded_count("ResultRow", instr.p2)?;
    let row = read_register_range(vm, instr.p1, count)?;
    vm.emit_row(row);
    Ok(Step::Next)
}

proof fn lemma_null_from(m: VmView, reg: int, last: int, other: int)
    requires
        0 <= reg <= last + 1,
        last <= crate::vdbe::error::MAX_REGISTERS,
    ensures
        null_from(m, reg, last).step == Ok::<StepView, ErrorView>(StepView::Next),
        null_from(m, reg, last).vm.held(other) == (if reg <= other <= last {
            ValueView::Null
        } else {
            m.held(other)
        }),
        null_from(m, reg, last).vm.cursors == m.cursors,
    decreases last + 1 - reg,
{
    if reg <= last {
        lemma_null_from(m.with_register(reg as i32, ValueView::Null), reg + 1, last, other);
    }
}

/// `Null` overwrites the registers of its range, and no other.
pub proof fn law_null_spans_its_range(m: VmView, i: InstructionView, other: int)
    requires
        vm::in_range(i.p2),
        i.p3 <= crate::vdbe::error::MAX_REGISTERS,
    ensures
        null_effect(m, i).step == Ok::<StepView, ErrorView>(StepView::Next),
        null_effect(m, i).vm.held(other) == (if other == i.p2 || i.p2 <= other <= i.p3 {
            ValueView::Null
        } else {
            m.held(other)
        }),
{
    lemma_null_from(
        m,
        i.p2 as int,
        if i.p3 > i.p2 {
            i.p3 as int
        } else {
            i.p2 as int
        },
        other,
    );
}

} // verus!
