//! The fetch-decode-execute loop, plus the compare opcodes and the function call.
//!
//! A run stops where an instruction needs outside work: the [`Execution`] it leaves names
//! the request, and goes on with the reply.
use crate::record::collation::Collation;
use crate::record::value;
use crate::record::value::{TextEncoding, Value, ValueView};
use crate::text;
use crate::text::Sorted;
use crate::vdbe::affinity;
use crate::vdbe::affinity::{Affinity, Conversion};
use crate::vdbe::arithmetic;
use crate::vdbe::coerce;
use crate::vdbe::coerce::ArithmeticOp;
use crate::vdbe::control;
use crate::vdbe::control::take_jump;
use crate::vdbe::cursor;
use crate::vdbe::debug;
use crate::vdbe::index;
use crate::vdbe::order;
use crate::vdbe::program::{opcode_name, Instruction, InstructionView, Opcode, P4View, Program, P4};
use crate::vdbe::request::{IndexPlace, Reply, ReplyView, Request, RequestView};
use crate::vdbe::result;
use crate::vdbe::slot::SlotView;
use crate::vdbe::sorter;
use crate::vdbe::vm;
use crate::vdbe::vm::{read_register_range, Database, Effect, StepView, VmView};
use crate::vdbe::change;
use vstd::prelude::*;

pub use crate::vdbe::error::{ErrorView, ExecError, MAX_REGISTERS, MAX_STEPS};
pub use crate::vdbe::vm::{Step, Vm};

verus! {

/// The relations that the compare opcodes test.
#[derive(Debug, Clone, Copy, PartialEq, Eq, Structural)]
pub enum Relation {
    Eq,
    Ge,
    Gt,
    Le,
    Lt,
}

/// Whether a relation holds of values that stand to each other so.
pub open spec fn relation_holds(relation: Relation, s: Sorted) -> bool {
    match relation {
        Relation::Eq => s == Sorted::Same,
        Relation::Ge => s != Sorted::Before,
        Relation::Gt => s == Sorted::After,
        Relation::Le => s != Sorted::After,
        Relation::Lt => s == Sorted::Before,
    }
}

/// The collation an instruction compares text under.
pub open spec fn collation_of(i: InstructionView) -> Collation {
    match i.p4 {
        P4View::CollSeq { collation, .. } => collation,
        _ => Collation::Binary,
    }
}

pub open spec fn compare_step(m: VmView, i: InstructionView, relation: Relation) -> Result<
    StepView,
    ErrorView,
> {
    match (m.register(i.p1), m.register(i.p3)) {
        (Err(e), _) => Err(e),
        (_, Err(e)) => Err(e),
        (Ok(a), Ok(b)) => if a is Null || b is Null {
            Ok(StepView::Next)
        } else {
            Ok(
                control::jump_if(
                    relation_holds(relation, order::value_order(a, b, collation_of(i))),
                    i.p2,
                ),
            )
        },
    }
}

/// Compare opcodes (`Eq`/`Ge`/`Gt`/`Le`/`Lt`): jump to `P2` if `r[P1] <op> r[P3]` holds, per
/// the cross-type comparison order. Either operand NULL means the comparison is unknown, so
/// no jump is taken. `P4`, if a `CollSeq` descriptor, selects the collation for text-vs-text
/// comparisons; absent P4 defaults to BINARY.
pub fn compare_jump(vm: &Vm, instr: &Instruction, relation: Relation) -> (r: Result<
    Step,
    ExecError,
>)
    ensures
        vm::seen(r) == compare_step(vm@, instr@, relation),
{
    let a = vm.register(instr.p1)?;
    let b = vm.register(instr.p3)?;
    if matches!(a, Value::Null) || matches!(b, Value::Null) {
        return Ok(Step::Next);
    }
    let collation = match &instr.p4 {
        P4::CollSeq { collation, .. } => *collation,
        _ => Collation::Binary,
    };
    let s = order::order_values(a, b, collation);
    let holds = match (relation, s) {
        (Relation::Eq, Sorted::Same) => true,
        (Relation::Ge, Sorted::Same) => true,
        (Relation::Ge, Sorted::After) => true,
        (Relation::Gt, Sorted::After) => true,
        (Relation::Le, Sorted::Same) => true,
        (Relation::Le, Sorted::Before) => true,
        (Relation::Lt, Sorted::Before) => true,
        _ => false,
    };
    Ok(take_jump(holds, instr.p2))
}

pub open spec fn real_affinity_effect(m: VmView, i: InstructionView) -> Effect {
    match m.register(i.p1) {
        Err(e) => vm::failed(m, e),
        Ok(v) => match affinity::conversion(v, Affinity::Real) {
            Conversion::Value(w) => vm::stored(m, i.p1, w, StepView::Next),
            Conversion::Parse(text) => vm::stepped(
                m,
                StepView::Await(
                    RequestView::ParseWhole { text, columns: Seq::empty(), at: 0 },
                ),
            ),
        },
    }
}

/// `RealAffinity`: applies REAL affinity coercion to register `P1` in place, independent of
/// any comparison.
pub fn real_affinity(vm: &mut Vm, instr: &Instruction) -> (r: Result<Step, ExecError>)
    requires
        old(vm).wf(),
    ensures
        final(vm).wf(),
        vm::outcome(final(vm)@, r) == real_affinity_effect(old(vm)@, instr@),
{
    let mut v = vm.register(instr.p1)?.copy();
    match affinity::apply_affinity(&mut v, Affinity::Real) {
        Some(text) => {
            let columns: Vec<Value> = Vec::new();
            assert(value::values(columns@) =~= Seq::empty());
            Ok(Step::Await(Request::ParseWhole { text, columns, at: 0 }))
        },
        None => {
            vm.set_register(instr.p1, v)?;
            Ok(Step::Next)
        },
    }
}

pub open spec fn real_affinity_parsed_effect(
    m: VmView,
    i: InstructionView,
    parsed: Option<u64>,
) -> Effect {
    match m.register(i.p1) {
        Err(e) => vm::failed(m, e),
        Ok(v) => vm::stored(m, i.p1, affinity::with_parsed(v, parsed), StepView::Next),
    }
}

/// `RealAffinity` with the floating-point value of the register's text.
pub fn real_affinity_parsed(vm: &mut Vm, instr: &Instruction, parsed: Option<u64>) -> (r: Result<
    Step,
    ExecError,
>)
    requires
        old(vm).wf(),
    ensures
        final(vm).wf(),
        vm::outcome(final(vm)@, r) == real_affinity_parsed_effect(old(vm)@, instr@, parsed),
{
    let mut v = vm.register(instr.p1)?.copy();
    affinity::finish_affinity(&mut v, parsed);
    vm.set_register(instr.p1, v)?;
    Ok(Step::Next)
}

pub open spec fn copy_effect(m: VmView, i: InstructionView) -> Effect {
    match m.register(i.p1) {
        Err(e) => vm::failed(m, e),
        Ok(v) => vm::stored(m, i.p2, v, StepView::Next),
    }
}

/// `Copy`: copies register `P1`'s value into `P2` verbatim.
pub fn copy(vm: &mut Vm, instr: &Instruction) -> (r: Result<Step, ExecError>)
    requires
        old(vm).wf(),
    ensures
        final(vm).wf(),
        vm::outcome(final(vm)@, r) == copy_effect(old(vm)@, instr@),
{
    let v = vm.register(instr.p1)?.copy();
    vm.set_register(instr.p2, v)?;
    Ok(Step::Next)
}

// ---- function calls -----------------------------------------------------------------

/// Where `c` first stands in `s` from `i` on.
pub open spec fn first_place(s: Seq<char>, c: char, i: int) -> Option<int>
    decreases s.len() - i,
{
    if i < 0 || i >= s.len() {
        None
    } else if s[i] == c {
        Some(i)
    } else {
        first_place(s, c, i + 1)
    }
}

/// The digits of an unsigned number, behind a plus sign.
pub open spec fn unsigned_digits(s: Seq<char>) -> Seq<char> {
    if s.len() > 0 && s[0] == '+' {
        s.skip(1)
    } else {
        s
    }
}

/// The number of arguments that all of `s` spells.
pub open spec fn arity_of(s: Seq<char>) -> Option<usize> {
    let digits = unsigned_digits(s);
    if digits.len() > 0 && (forall|j: int|
        0 <= j < digits.len() ==> text::is_digit(#[trigger] digits[j])) && text::number(digits, 10)
        <= usize::MAX {
        Some(text::number(digits, 10) as usize)
    } else {
        None
    }
}

/// The name and the number of arguments that a `"name(arity)"` descriptor spells.
pub open spec fn descriptor_parts(s: Seq<char>) -> Option<(Seq<char>, usize)> {
    match first_place(s, '(', 0) {
        None => None,
        Some(open) => if s.last() != ')' {
            None
        } else {
            match arity_of(s.subrange(open + 1, s.len() - 1)) {
                Some(arity) => Some((s.take(open), arity)),
                None => None,
            }
        },
    }
}

fn parse_arity(v: &Vec<char>, from: usize, to: usize) -> (r: Option<usize>)
    requires
        from <= to <= v.len(),
    ensures
        r == arity_of(v@.subrange(from as int, to as int)),
{
    let ghost s = v@.subrange(from as int, to as int);
    let first: usize = if from < to && v[from] == '+' {
        from + 1
    } else {
        from
    };
    assert(unsigned_digits(s) =~= v@.subrange(first as int, to as int));
    if first == to {
        return None;
    }
    let end = coerce::skip_digits(v, first);
    proof {
        coerce::lemma_digits_end(v@, first as int);
        coerce::lemma_digits_stop(v@, first as int);
    }
    if end < to {
        assert(!text::is_digit(unsigned_digits(s)[end - first]));
        return None;
    }
    match text::parse_number(v, first, to, 10) {
        Some(n) => if n <= usize::MAX as u64 {
            Some(n as usize)
        } else {
            None
        },
        None => None,
    }
}

/// Parses a `"name(arity)"` descriptor (e.g. `"abs(1)"`, `"like(2)"`) into its parts.
pub fn parse_function_descriptor(descriptor: &str) -> (r: Option<(String, usize)>)
    ensures
        match r {
            Some((name, arity)) => descriptor_parts(descriptor@) == Some((name@, arity)),
            None => descriptor_parts(descriptor@) is None,
        },
{
    let v = text::chars_of(descriptor);
    let mut open: usize = 0;
    while open < v.len() && v[open] != '('
        invariant
            open <= v.len(),
            v@ == descriptor@,
            first_place(v@, '(', 0) == first_place(v@, '(', open as int),
        decreases v.len() - open,
    {
        open = open + 1;
    }
    if open == v.len() || v[v.len() - 1] != ')' {
        return None;
    }
    assert(open < v.len() - 1);
    match parse_arity(&v, open + 1, v.len() - 1) {
        Some(arity) => {
            assert(v@.subrange(0, open as int) =~= v@.take(open as int));
            Some((text::text_of(v.as_slice(), 0, open), arity))
        },
        None => None,
    }
}

pub open spec fn function_step(m: VmView, i: InstructionView) -> Result<StepView, ErrorView> {
    match i.p4 {
        P4View::Str(s) => match descriptor_parts(s) {
            None => Err(
                vm::malformed(
                    "Function"@,
                    "malformed function descriptor "@ + text::debug_of_text(s),
                ),
            ),
            Some((name, arity)) => match vm::register_range(m, i.p2, arity as nat) {
                Err(e) => Err(e),
                Ok(arguments) => Ok(StepView::Await(RequestView::Call { name, arguments })),
            },
        },
        other => Err(
            vm::malformed(
                "Function"@,
                "expected a \"name(arity)\" string P4, got "@ + debug::operand_text(other),
            ),
        ),
    }
}

/// `Function`: calls the function that a `P4` `"name(arity)"` descriptor names with its
/// argument registers (a contiguous run starting at `P2`), and writes the result to `P3`.
pub fn function(vm: &Vm, instr: &Instruction) -> (r: Result<Step, ExecError>)
    ensures
        vm::seen(r) == function_step(vm@, instr@),
{
    match &instr.p4 {
        P4::Str(s) => match parse_function_descriptor(s.as_str()) {
            None => {
                let mut reason = "malformed function descriptor ".to_owned();
                reason.append(text::debug_text(s.as_str()).as_str());
                Err(ExecError::MalformedInstruction { opcode: "Function", reason })
            },
            Some((name, arity)) => {
                let arguments = read_register_range(vm, instr.p2, arity)?;
                Ok(Step::Await(Request::Call { name, arguments }))
            },
        },
        other => {
            let mut reason = "expected a \"name(arity)\" string P4, got ".to_owned();
            reason.append(debug::show_operand(other).as_str());
            Err(ExecError::MalformedInstruction { opcode: "Function", reason })
        },
    }
}

// ---- dispatch -----------------------------------------------------------------------

/// What an instruction does.
pub open spec fn dispatched(m: VmView, pc: usize, i: InstructionView) -> Effect {
    match i.opcode {
        Opcode::Init => Effect { vm: m, step: Ok(control::jump_if(i.p2 != 0, i.p2)) },
        Opcode::Goto => Effect { vm: m, step: Ok(vm::jump(i.p2)) },
        Opcode::Once => control::once_effect(m, pc, i),
        Opcode::BeginSubrtn => Effect { vm: m, step: Ok(StepView::Next) },
        Opcode::Return => Effect { vm: m, step: control::return_step(m, i) },
        Opcode::Halt => Effect { vm: m, step: Ok(control::halt_step(i)) },
        Opcode::Transaction => Effect { vm: m, step: Ok(StepView::Next) },
        Opcode::IfNot => Effect { vm: m, step: control::if_not_step(m, i) },
        Opcode::IfNotZero => control::if_not_zero_effect(m, i),
        Opcode::IfPos => control::if_pos_effect(m, i),
        Opcode::DecrJumpZero => control::decr_jump_zero_effect(m, i),
        Opcode::IsNull => Effect { vm: m, step: control::is_null_step(m, i) },
        Opcode::NotNull => Effect { vm: m, step: control::not_null_step(m, i) },
        Opcode::MustBeInt => control::must_be_int_effect(m, i),
        Opcode::OffsetLimit => control::offset_limit_effect(m, i),
        Opcode::Eq => Effect { vm: m, step: compare_step(m, i, Relation::Eq) },
        Opcode::Ge => Effect { vm: m, step: compare_step(m, i, Relation::Ge) },
        Opcode::Gt => Effect { vm: m, step: compare_step(m, i, Relation::Gt) },
        Opcode::Le => Effect { vm: m, step: compare_step(m, i, Relation::Le) },
        Opcode::Lt => Effect { vm: m, step: compare_step(m, i, Relation::Lt) },
        Opcode::RealAffinity => real_affinity_effect(m, i),
        Opcode::Add => arithmetic::binary_effect(m, i, ArithmeticOp::Add, false),
        Opcode::Subtract => arithmetic::binary_effect(m, i, ArithmeticOp::Subtract, true),
        Opcode::Multiply => arithmetic::binary_effect(m, i, ArithmeticOp::Multiply, false),
        Opcode::Divide => arithmetic::binary_effect(m, i, ArithmeticOp::Divide, true),
        Opcode::Remainder => arithmetic::binary_effect(m, i, ArithmeticOp::Remainder, true),
        Opcode::Not => arithmetic::not_effect(m, i),
        Opcode::Integer => vm::stored(m, i.p2, ValueView::Integer(i.p1 as i64), StepView::Next),
        Opcode::Null => result::null_effect(m, i),
        Opcode::String8 => result::string8_effect(m, i),
        Opcode::Copy => copy_effect(m, i),
        Opcode::MakeRecord => result::make_record_effect(m, i),
        Opcode::ResultRow => result::result_row_effect(m, i),
        Opcode::OpenRead => cursor::open_read_effect(m, i),
        Opcode::OpenWrite => cursor::open_write_effect(m, i),
        Opcode::OpenEphemeral => cursor::open_ephemeral_effect(m, i),
        Opcode::OpenPseudo => vm::opened(m, i.p1, SlotView::Pseudo { register: i.p2 }),
        Opcode::Rewind => cursor::rewind_effect(m, i),
        Opcode::Last => cursor::last_effect(m, i),
        Opcode::Next => cursor::next_effect(m, i),
        Opcode::Column => cursor::column_effect(m, i),
        Opcode::Rowid => cursor::rowid_effect(m, i),
        Opcode::SeekRowid => cursor::seek_rowid_effect(m, i),
        Opcode::NullRow => cursor::null_row_effect(m, i),
        Opcode::Sequence => cursor::sequence_effect(m, i),
        Opcode::Found => index::found_effect(m, i),
        Opcode::IdxInsert => index::idx_insert_effect(m, i),
        Opcode::IdxDelete => index::idx_delete_effect(m, i),
        Opcode::IdxLE => index::idx_le_effect(m, i),
        Opcode::NoConflict => index::no_conflict_effect(m, i),
        Opcode::SeekIndexEq => index::seek_index_eq_effect(m, i),
        Opcode::IdxRowid => index::idx_rowid_effect(m, i),
        Opcode::IdxRewind => index::walk_effect(m, i, "IdxRewind"@, IndexPlace::First),
        Opcode::IdxLast => index::walk_effect(m, i, "IdxLast"@, IndexPlace::Last),
        Opcode::IdxNext => index::walk_effect(m, i, "IdxNext"@, IndexPlace::Next),
        Opcode::IdxPrev => index::walk_effect(m, i, "IdxPrev"@, IndexPlace::Previous),
        Opcode::Delete => change::delete_effect(m, i),
        Opcode::Insert => change::insert_effect(m, i),
        Opcode::NewRowid => change::new_rowid_effect(m, i),
        Opcode::CreateTable => Effect { vm: m, step: change::create_table_step(m, i) },
        Opcode::CreateView => Effect { vm: m, step: change::create_view_step(m, i) },
        Opcode::DropTable => Effect { vm: m, step: change::drop_table_step(m, i) },
        Opcode::CreateIndex => Effect { vm: m, step: change::create_index_step(m, i) },
        Opcode::DropIndex => Effect { vm: m, step: change::drop_index_step(m, i) },
        Opcode::SorterOpen => sorter::sorter_open_effect(m, i),
        Opcode::SorterInsert => sorter::sorter_insert_effect(m, i),
        Opcode::SorterSort => sorter::sorter_sort_effect(m, i),
        Opcode::Sort => sorter::sorter_sort_effect(m, i),
        Opcode::SorterNext => sorter::sorter_next_effect(m, i),
        Opcode::SorterData => sorter::sorter_data_effect(m, i),
        Opcode::Function => Effect { vm: m, step: function_step(m, i) },
        Opcode::BitAnd
        | Opcode::BitOr
        | Opcode::ShiftLeft
        | Opcode::ShiftRight
        | Opcode::BitNot
        | Opcode::Concat
        | Opcode::Cast
        | Opcode::AggStep
        | Opcode::AggFinal
        | Opcode::Int64
        | Opcode::Real
        | Opcode::Blob
        | Opcode::Variable => vm::failed(
            m,
            ErrorView::Unimplemented { opcode: i.opcode },
        ),
    }
}

/// Executes one instruction.
pub fn dispatch(vm: &mut Vm, pc: usize, instr: &Instruction) -> (r: Result<Step, ExecError>)
    requires
        old(vm).wf(),
    ensures
        final(vm).wf(),
        vm::outcome(final(vm)@, r) == dispatched(old(vm)@, pc, instr@),
{
    match instr.opcode {
        Opcode::Init => control::init(instr),
        Opcode::Goto => control::goto(instr),
        Opcode::Once => control::once(vm, pc, instr),
        Opcode::BeginSubrtn => control::begin_subrtn(),
        Opcode::Return => control::return_to(vm, instr),
        Opcode::Halt => control::halt(instr),
        Opcode::Transaction => control::transaction(),
        Opcode::IfNot => control::if_not(vm, instr),
        Opcode::IfNotZero => control::if_not_zero(vm, instr),
        Opcode::IfPos => control::if_pos(vm, instr),
        Opcode::DecrJumpZero => control::decr_jump_zero(vm, instr),
        Opcode::IsNull => control::is_null(vm, instr),
        Opcode::NotNull => control::not_null(vm, instr),
        Opcode::MustBeInt => control::must_be_int(vm, instr),
        Opcode::OffsetLimit => control::offset_limit(vm, instr),
        Opcode::Eq => compare_jump(vm, instr, Relation::Eq),
        Opcode::Ge => compare_jump(vm, instr, Relation::Ge),
        Opcode::Gt => compare_jump(vm, instr, Relation::Gt),
        Opcode::Le => compare_jump(vm, instr, Relation::Le),
        Opcode::Lt => compare_jump(vm, instr, Relation::Lt),
        Opcode::RealAffinity => real_affinity(vm, instr),
        Opcode::Add => arithmetic::add(vm, instr),
        Opcode::Subtract => arithmetic::subtract(vm, instr),
        Opcode::Multiply => arithmetic::multiply(vm, instr),
        Opcode::Divide => arithmetic::divide(vm, instr),
        Opcode::Remainder => arithmetic::remainder(vm, instr),
        Opcode::Not => arithmetic::not(vm, instr),
        Opcode::Integer => result::integer(vm, instr),
        Opcode::Null => result::null(vm, instr),
        Opcode::String8 => result::string8(vm, instr),
        Opcode::Copy => copy(vm, instr),
        Opcode::MakeRecord => result::make_record(vm, instr),
        Opcode::ResultRow => result::result_row(vm, instr),
        Opcode::OpenRead => cursor::open_read(vm, instr),
        Opcode::OpenWrite => cursor::open_write(vm, instr),
        Opcode::OpenEphemeral => cursor::open_ephemeral(vm, instr),
        Opcode::OpenPseudo => cursor::open_pseudo(vm, instr),
        Opcode::Rewind => cursor::rewind(vm, instr),
        Opcode::Last => cursor::last(vm, instr),
        Opcode::Next => cursor::next(vm, instr),
        Opcode::Column => cursor::column(vm, instr),
        Opcode::Rowid => cursor::rowid(vm, instr),
        Opcode::SeekRowid => cursor::seek_rowid(vm, instr),
        Opcode::NullRow => cursor::null_row(vm, instr),
        Opcode::Sequence => cursor::sequence(vm, instr),
        Opcode::Found => index::found(vm, instr),
        Opcode::IdxInsert => index::idx_insert(vm, instr),
        Opcode::IdxDelete => index::idx_delete(vm, instr),
        Opcode::IdxLE => index::idx_le(vm, instr),
        Opcode::NoConflict => index::no_conflict(vm, instr),
        Opcode::SeekIndexEq => index::seek_index_eq(vm, instr),
        Opcode::IdxRowid => index::idx_rowid(vm, instr),
        Opcode::IdxRewind => index::idx_rewind(vm, instr),
        Opcode::IdxLast => index::idx_last(vm, instr),
        Opcode::IdxNext => index::idx_next(vm, instr),
        Opcode::IdxPrev => index::idx_prev(vm, instr),
        Opcode::Delete => change::delete(vm, instr),
        Opcode::Insert => change::insert(vm, instr),
        Opcode::NewRowid => change::new_rowid(vm, instr),
        Opcode::CreateTable => change::create_table(vm, instr),
        Opcode::CreateView => change::create_view(vm, instr),
        Opcode::DropTable => change::drop_table(vm, instr),
        Opcode::CreateIndex => change::create_index(vm, instr),
        Opcode::DropIndex => change::drop_index(vm, instr),
        Opcode::SorterOpen => sorter::sorter_open(vm, instr),
        Opcode::SorterInsert => sorter::sorter_insert(vm, instr),
        Opcode::SorterSort => sorter::sorter_sort(vm, instr),
        Opcode::Sort => sorter::sorter_sort(vm, instr),
        Opcode::SorterNext => sorter::sorter_next(vm, instr),
        Opcode::SorterData => sorter::sorter_data(vm, instr),
        Opcode::Function => function(vm, instr),
        Opcode::BitAnd
        | Opcode::BitOr
        | Opcode::ShiftLeft
        | Opcode::ShiftRight
        | Opcode::BitNot
        | Opcode::Concat
        | Opcode::Cast
        | Opcode::AggStep
        | Opcode::AggFinal
        | Opcode::Int64
        | Opcode::Real
        | Opcode::Blob
        | Opcode::Variable => Err(ExecError::Unimplemented { opcode: instr.opcode }),
    }
}

/// The reply does not answer the request.
pub open spec fn unexpected(m: VmView, i: InstructionView) -> Effect {
    vm::failed(m, ErrorView::UnexpectedReply { opcode: i.opcode.name() })
}

/// Whether the opcode is one of the arithmetic operations.
pub open spec fn is_arithmetic(o: Opcode) -> bool {
    o == Opcode::Add || o == Opcode::Subtract || o == Opcode::Multiply || o == Opcode::Divide || o
        == Opcode::Remainder
}

/// Whether the opcode changes the schema.
pub open spec fn is_schema_change(o: Opcode) -> bool {
    o == Opcode::CreateTable || o == Opcode::CreateView || o == Opcode::DropTable || o
        == Opcode::CreateIndex || o == Opcode::DropIndex
}

/// What an instruction does with a number.
pub open spec fn with_number(m: VmView, i: InstructionView, served: RequestView, bits: u64) ->
    Effect {
    match served {
        RequestView::Calculate(c) => if is_arithmetic(i.opcode) {
            arithmetic::computed_effect(m, i, coerce::carried_on(c, bits))
        } else {
            unexpected(m, i)
        },
        RequestView::Parse(_) => if i.opcode == Opcode::IfNot {
            vm::stepped(m, control::jump_if(crate::double::denoted(bits) == 0, i.p2))
        } else if i.opcode == Opcode::Not {
            vm::stored(
                m,
                i.p2,
                arithmetic::truth(crate::double::denoted(bits) == 0),
                StepView::Next,
            )
        } else {
            unexpected(m, i)
        },
        _ => unexpected(m, i),
    }
}

/// What an instruction does with the row a table cursor was moved to, or with a table's last
/// row.
pub open spec fn with_row(
    m: VmView,
    i: InstructionView,
    served: RequestView,
    row: Option<crate::vdbe::request::RowView>,
) -> Effect {
    match served {
        RequestView::MoveTable { .. } => match i.opcode {
            Opcode::Rewind => cursor::landed_effect(m, i, "Rewind"@, row, false),
            Opcode::Last => cursor::landed_effect(m, i, "Last"@, row, false),
            Opcode::Next => cursor::landed_effect(m, i, "Next"@, row, true),
            Opcode::SeekRowid => cursor::landed_effect(m, i, "SeekRowid"@, row, false),
            _ => unexpected(m, i),
        },
        RequestView::LastRow { .. } => if i.opcode == Opcode::NewRowid {
            change::last_row_effect(m, i, row)
        } else {
            unexpected(m, i)
        },
        _ => unexpected(m, i),
    }
}

/// What an instruction does with the entry an index cursor was moved to, or a seek found.
pub open spec fn with_entry(
    m: VmView,
    i: InstructionView,
    served: RequestView,
    entry: Option<Seq<u8>>,
) -> Effect {
    match served {
        RequestView::MoveIndex { .. } => match i.opcode {
            Opcode::IdxRewind => index::entered_effect(m, i, "IdxRewind"@, entry, false),
            Opcode::IdxLast => index::entered_effect(m, i, "IdxLast"@, entry, false),
            Opcode::IdxNext => index::entered_effect(m, i, "IdxNext"@, entry, true),
            Opcode::IdxPrev => index::entered_effect(m, i, "IdxPrev"@, entry, true),
            _ => unexpected(m, i),
        },
        RequestView::SeekIndex { key, .. } => match i.opcode {
            Opcode::SeekIndexEq => index::sought_effect(m, i, key, entry),
            Opcode::NoConflict => index::conflict_effect(m, i, key, entry),
            _ => unexpected(m, i),
        },
        _ => unexpected(m, i),
    }
}

/// What an instruction does when its work is done.
pub open spec fn when_done(m: VmView, i: InstructionView, served: RequestView) -> Effect {
    match (i.opcode, served) {
        (Opcode::IdxInsert, RequestView::InsertEntry { .. }) => vm::stepped(m, StepView::Next),
        (Opcode::IdxDelete, RequestView::DeleteEntry { .. }) => vm::stepped(m, StepView::Next),
        (Opcode::Insert, RequestView::InsertRow { .. }) => vm::stepped(m, StepView::Next),
        (Opcode::Delete, RequestView::DeleteRow { .. }) => change::deleted_effect(m, i),
        (Opcode::NewRowid, RequestView::UpdateSequence { value, .. }) => vm::stored(
            m,
            i.p2,
            ValueView::Integer(value),
            StepView::Next,
        ),
        _ => unexpected(m, i),
    }
}

/// What an instruction does with what reading a text as floating point gave.
pub open spec fn with_parsed(
    m: VmView,
    i: InstructionView,
    served: RequestView,
    parsed: Option<u64>,
) -> Effect {
    match served {
        RequestView::ParseWhole { columns, at, .. } => if i.opcode == Opcode::RealAffinity {
            real_affinity_parsed_effect(m, i, parsed)
        } else if i.opcode == Opcode::MakeRecord && at < columns.len() && columns.len()
            <= MAX_REGISTERS {
            result::record_effect(
                m,
                i,
                result::with_column(columns, at as int, parsed),
                at + 1,
            )
        } else {
            unexpected(m, i)
        },
        _ => unexpected(m, i),
    }
}

/// What an instruction does with the reply to its request: a failure ends the run, for the
/// reason given.
pub open spec fn resumed(m: VmView, i: InstructionView, served: RequestView, reply: ReplyView) ->
    Effect {
    match reply {
        ReplyView::Failed(reason) => vm::failed(m, vm::malformed(i.opcode.name(), reason)),
        _ => if is_schema_change(i.opcode) {
            Effect { vm: m, step: change::schema_step(i, served, reply) }
        } else {
            match reply {
                ReplyView::Number(bits) => with_number(m, i, served, bits),
                ReplyView::Row(row) => with_row(m, i, served, row),
                ReplyView::Entry(entry) => with_entry(m, i, served, entry),
                ReplyView::Done => when_done(m, i, served),
                ReplyView::Parsed(parsed) => with_parsed(m, i, served, parsed),
                ReplyView::Root(root_page) => match (i.opcode, served) {
                    (Opcode::NewRowid, RequestView::EnsureSequenceTable { highest }) => {
                        vm::stepped(
                            m,
                            StepView::Await(
                                RequestView::ReadSequenceTable { root_page, highest },
                            ),
                        )
                    },
                    _ => unexpected(m, i),
                },
                ReplyView::Rows { payloads, failure } => match (i.opcode, served) {
                    (Opcode::NewRowid, RequestView::ReadSequenceTable { highest, .. }) => {
                        change::counters_read_effect(m, i, highest, payloads, failure)
                    },
                    _ => unexpected(m, i),
                },
                ReplyView::Value(v) => match (i.opcode, served) {
                    (Opcode::Function, RequestView::Call { .. }) => vm::stored(
                        m,
                        i.p3,
                        v,
                        StepView::Next,
                    ),
                    _ => unexpected(m, i),
                },
                ReplyView::Failed(_) => unexpected(m, i),
            }
        },
    }
}

fn refuse(instr: &Instruction) -> (r: Result<Step, ExecError>)
    ensures
        vm::seen(r) == Err::<StepView, ErrorView>(
            ErrorView::UnexpectedReply { opcode: instr.opcode.name() },
        ),
{
    Err(ExecError::UnexpectedReply { opcode: opcode_name(instr.opcode) })
}

fn resume_number(vm: &mut Vm, instr: &Instruction, served: Request, bits: u64) -> (r: Result<
    Step,
    ExecError,
>)
    requires
        old(vm).wf(),
    ensures
        final(vm).wf(),
        vm::outcome(final(vm)@, r) == with_number(old(vm)@, instr@, served@, bits),
{
    match served {
        Request::Calculate(c) => match instr.opcode {
            Opcode::Add | Opcode::Subtract | Opcode::Multiply | Opcode::Divide
            | Opcode::Remainder => arithmetic::calculated(vm, instr, c, bits),
            _ => refuse(instr),
        },
        Request::Parse(_) => match instr.opcode {
            Opcode::IfNot => control::if_not_parsed(instr, bits),
            Opcode::Not => arithmetic::not_parsed(vm, instr, bits),
            _ => refuse(instr),
        },
        _ => refuse(instr),
    }
}

fn resume_row(
    vm: &mut Vm,
    instr: &Instruction,
    served: Request,
    row: Option<crate::vdbe::request::TableRow>,
) -> (r: Result<Step, ExecError>)
    requires
        old(vm).wf(),
    ensures
        final(vm).wf(),
        vm::outcome(final(vm)@, r) == with_row(
            old(vm)@,
            instr@,
            served@,
            crate::vdbe::request::row_view(row),
        ),
{
    match served {
        Request::MoveTable { .. } => match instr.opcode {
            Opcode::Rewind => cursor::landed(vm, instr, "Rewind", row, false),
            Opcode::Last => cursor::landed(vm, instr, "Last", row, false),
            Opcode::Next => cursor::landed(vm, instr, "Next", row, true),
            Opcode::SeekRowid => cursor::landed(vm, instr, "SeekRowid", row, false),
            _ => refuse(instr),
        },
        Request::LastRow { .. } => match instr.opcode {
            Opcode::NewRowid => change::last_row_found(vm, instr, row),
            _ => refuse(instr),
        },
        _ => refuse(instr),
    }
}

fn resume_entry(vm: &mut Vm, instr: &Instruction, served: Request, entry: Option<Vec<u8>>) -> (r:
    Result<Step, ExecError>)
    requires
        old(vm).wf(),
    ensures
        final(vm).wf(),
        vm::outcome(final(vm)@, r) == with_entry(
            old(vm)@,
            instr@,
            served@,
            crate::vdbe::request::bytes_view(entry),
        ),
{
    match served {
        Request::MoveIndex { .. } => match instr.opcode {
            Opcode::IdxRewind => index::entered(vm, instr, "IdxRewind", entry, false),
            Opcode::IdxLast => index::entered(vm, instr, "IdxLast", entry, false),
            Opcode::IdxNext => index::entered(vm, instr, "IdxNext", entry, true),
            Opcode::IdxPrev => index::entered(vm, instr, "IdxPrev", entry, true),
            _ => refuse(instr),
        },
        Request::SeekIndex { key, .. } => match instr.opcode {
            Opcode::SeekIndexEq => index::sought(vm, instr, &key, entry),
            Opcode::NoConflict => index::probed(vm, instr, &key, entry),
            _ => refuse(instr),
        },
        _ => refuse(instr),
    }
}

fn resume_done(vm: &mut Vm, instr: &Instruction, served: Request) -> (r: Result<Step, ExecError>)
    requires
        old(vm).wf(),
    ensures
        final(vm).wf(),
        vm::outcome(final(vm)@, r) == when_done(old(vm)@, instr@, served@),
{
    match (instr.opcode, served) {
        (Opcode::IdxInsert, Request::InsertEntry { .. }) => Ok(Step::Next),
        (Opcode::IdxDelete, Request::DeleteEntry { .. }) => Ok(Step::Next),
        (Opcode::Insert, Request::InsertRow { .. }) => Ok(Step::Next),
        (Opcode::Delete, Request::DeleteRow { .. }) => change::deleted(vm, instr),
        (Opcode::NewRowid, Request::UpdateSequence { value, .. }) => {
            vm.set_register(instr.p2, Value::Integer(value))?;
            Ok(Step::Next)
        },
        _ => refuse(instr),
    }
}

fn resume_parsed(vm: &mut Vm, instr: &Instruction, served: Request, parsed: Option<u64>) -> (r:
    Result<Step, ExecError>)
    requires
        old(vm).wf(),
    ensures
        final(vm).wf(),
        vm::outcome(final(vm)@, r) == with_parsed(old(vm)@, instr@, served@, parsed),
{
    match served {
        Request::ParseWhole { columns, at, .. } => match instr.opcode {
            Opcode::RealAffinity => real_affinity_parsed(vm, instr, parsed),
            Opcode::MakeRecord => {
                assert(value::values(columns@).len() == columns@.len());
                if at < columns.len() && columns.len() <= MAX_REGISTERS {
                    result::make_record_parsed(vm, instr, columns, at, parsed)
                } else {
                    refuse(instr)
                }
            },
            _ => refuse(instr),
        },
        _ => refuse(instr),
    }
}

/// Carries an instruction on with the reply to its request.
pub fn resume(vm: &mut Vm, instr: &Instruction, served: Request, reply: Reply) -> (r: Result<
    Step,
    ExecError,
>)
    requires
        old(vm).wf(),
    ensures
        final(vm).wf(),
        vm::outcome(final(vm)@, r) == resumed(old(vm)@, instr@, served@, reply@),
{
    match &reply {
        Reply::Failed(reason) => {
            return Err(cursor::malformed(opcode_name(instr.opcode), reason.as_str()));
        },
        _ => {},
    }
    match instr.opcode {
        Opcode::CreateTable | Opcode::CreateView | Opcode::DropTable | Opcode::CreateIndex
        | Opcode::DropIndex => {
            return change::schema_answered(instr, &served, &reply);
        },
        _ => {},
    }
    match reply {
        Reply::Number(bits) => resume_number(vm, instr, served, bits),
        Reply::Row(row) => resume_row(vm, instr, served, row),
        Reply::Entry(entry) => resume_entry(vm, instr, served, entry),
        Reply::Done => resume_done(vm, instr, served),
        Reply::Parsed(parsed) => resume_parsed(vm, instr, served, parsed),
        Reply::Root(root_page) => match (instr.opcode, served) {
            (Opcode::NewRowid, Request::EnsureSequenceTable { highest }) => Ok(
                Step::Await(Request::ReadSequenceTable { root_page, highest }),
            ),
            _ => refuse(instr),
        },
        Reply::Rows { payloads, failure } => match (instr.opcode, served) {
            (Opcode::NewRowid, Request::ReadSequenceTable { highest, .. }) => {
                change::counters_read(vm, instr, highest, &payloads, &failure)
            },
            _ => refuse(instr),
        },
        Reply::Value(v) => match (instr.opcode, served) {
            (Opcode::Function, Request::Call { .. }) => {
                vm.set_register(instr.p3, v)?;
                Ok(Step::Next)
            },
            _ => refuse(instr),
        },
        Reply::Failed(_) => refuse(instr),
    }
}

// ---- the loop -----------------------------------------------------------------------

/// How far a run has come: to its rows, to an error, or to a request.
#[verifier::ext_equal]
pub enum RunView {
    Rows(Seq<Seq<ValueView>>),
    Failed(ErrorView),
    Waiting { vm: VmView, pc: usize, left: nat, request: RequestView },
}

/// The run of `program` from `pc` on, with at most `left` more instructions.
pub open spec fn run_from(program: Seq<InstructionView>, m: VmView, pc: usize, left: nat) -> RunView
    decreases left, 0nat,
{
    if left == 0 {
        RunView::Failed(ErrorView::StepLimitExceeded)
    } else if pc >= program.len() {
        RunView::Failed(ErrorView::ProgramCounterOutOfRange { pc })
    } else {
        run_behind(program, dispatched(m, pc, program[pc as int]), pc, (left - 1) as nat)
    }
}

/// The run behind the instruction at `pc`.
pub open spec fn run_behind(program: Seq<InstructionView>, e: Effect, pc: usize, left: nat) ->
    RunView
    decreases left, 1nat,
{
    match e.step {
        Err(error) => RunView::Failed(error),
        Ok(StepView::Next) => if pc == usize::MAX {
            RunView::Failed(ErrorView::ProgramCounterOutOfRange { pc })
        } else {
            run_from(program, e.vm, (pc + 1) as usize, left)
        },
        Ok(StepView::Jump(to)) => run_from(program, e.vm, to, left),
        Ok(StepView::Halt { code, message }) => if code == 0 {
            RunView::Rows(e.vm.rows)
        } else {
            RunView::Failed(ErrorView::Halted { code, message })
        },
        Ok(StepView::Await(request)) => RunView::Waiting { vm: e.vm, pc, left, request },
    }
}

/// A run that waits for outside work.
#[derive(Debug)]
pub struct Execution {
    vm: Vm,
    pc: usize,
    steps: u32,
    request: Request,
}

/// A run's rows, or the run itself where it waits for outside work.
#[derive(Debug)]
pub enum Run {
    Rows(Vec<Vec<Value>>),
    Waiting(Execution),
}

impl Execution {
    pub closed spec fn view(&self) -> RunView {
        RunView::Waiting {
            vm: self.vm@,
            pc: self.pc,
            left: (MAX_STEPS - self.steps) as nat,
            request: self.request@,
        }
    }

    pub closed spec fn wf(&self) -> bool {
        self.vm.wf() && self.steps <= MAX_STEPS
    }

    /// A run that is held waits.
    pub proof fn lemma_waits(&self)
        ensures
            self@ is Waiting,
    {
    }

    /// What the run waits for.
    pub fn request(&self) -> (r: &Request)
        ensures
            r@ == self@->request,
    {
        &self.request
    }

    /// Carries the run on with the reply to its request.
    pub fn resume(self, program: &Program, reply: Reply) -> (r: Result<Run, ExecError>)
        requires
            self.wf(),
        ensures
            run_wf(r),
            run_seen(r) == resumed_run(program@, self@, reply@),
    {
        let mut vm = self.vm;
        let pc: usize = self.pc;
        match program.get(pc) {
            None => Err(ExecError::ProgramCounterOutOfRange { pc }),
            Some(instr) => {
                let step = resume(&mut vm, instr, self.request, reply)?;
                go_on(vm, program, pc, self.steps, step)
            },
        }
    }
}

/// The run of `program` behind a reply to what it waits for.
pub open spec fn resumed_run(program: Seq<InstructionView>, waiting: RunView, reply: ReplyView) ->
    RunView {
    let pc = waiting->pc;
    if pc >= program.len() {
        RunView::Failed(ErrorView::ProgramCounterOutOfRange { pc })
    } else {
        run_behind(
            program,
            resumed(waiting->vm, program[pc as int], waiting->request, reply),
            pc,
            waiting->left,
        )
    }
}

/// A run that waits can be carried on.
pub open spec fn run_wf(r: Result<Run, ExecError>) -> bool {
    match r {
        Ok(Run::Waiting(e)) => e.wf() && e@ is Waiting,
        _ => true,
    }
}

pub open spec fn run_seen(r: Result<Run, ExecError>) -> RunView {
    match r {
        Ok(Run::Rows(rows)) => RunView::Rows(value::rows(rows@)),
        Ok(Run::Waiting(e)) => e@,
        Err(e) => RunView::Failed(e@),
    }
}

/// How far a run has come says which of its forms it has: it gave its rows, it failed, or it
/// waits.
pub proof fn law_run_is_told_apart(r: Result<Run, ExecError>)
    ensures
        run_seen(r) is Rows <==> r is Ok && r->Ok_0 is Rows,
        run_seen(r) is Waiting <==> r is Ok && r->Ok_0 is Waiting,
        run_seen(r) is Failed <==> r is Err,
{
    if let Ok(Run::Waiting(e)) = r {
        e.lemma_waits();
    }
}

/// Runs on behind the instruction at `pc`, which ended in `step`.
fn go_on(vm: Vm, program: &Program, pc: usize, steps: u32, step: Step) -> (r: Result<
    Run,
    ExecError,
>)
    requires
        vm.wf(),
        steps <= MAX_STEPS,
    ensures
        run_wf(r),
        run_seen(r) == run_behind(
            program@,
            vm::stepped(vm@, step@),
            pc,
            (MAX_STEPS - steps) as nat,
        ),
{
    match step {
        Step::Next => {
            if pc == usize::MAX {
                return Err(ExecError::ProgramCounterOutOfRange { pc });
            }
            run(vm, program, pc + 1, steps)
        },
        Step::Jump(to) => run(vm, program, to, steps),
        Step::Halt { code, message } => {
            if code == 0 {
                Ok(Run::Rows(vm.into_rows()))
            } else {
                Err(ExecError::Halted { code, message })
            }
        },
        Step::Await(request) => Ok(Run::Waiting(Execution { vm, pc, steps, request })),
    }
}

/// Executes the instruction at `pc`.
fn step_at(vm: &mut Vm, program: &Program, pc: usize) -> (r: Result<Step, ExecError>)
    requires
        old(vm).wf(),
    ensures
        final(vm).wf(),
        forall|left: nat|
            left > 0 ==> #[trigger] run_from(program@, old(vm)@, pc, left) == run_behind(
                program@,
                vm::outcome(final(vm)@, r),
                pc,
                (left - 1) as nat,
            ),
{
    match program.get(pc) {
        Some(instr) => dispatch(vm, pc, instr),
        None => Err(ExecError::ProgramCounterOutOfRange { pc }),
    }
}

fn run(machine: Vm, program: &Program, start: usize, before: u32) -> (r: Result<Run, ExecError>)
    requires
        machine.wf(),
        before <= MAX_STEPS,
    ensures
        run_wf(r),
        run_seen(r) == run_from(program@, machine@, start, (MAX_STEPS - before) as nat),
{
    let ghost goal = run_from(program@, machine@, start, (MAX_STEPS - before) as nat);
    let mut vm = machine;
    let mut pc: usize = start;
    let mut steps: u32 = before;
    while steps < MAX_STEPS
        invariant
            vm.wf(),
            steps <= MAX_STEPS,
            goal == run_from(program@, machine@, start, (MAX_STEPS - before) as nat),
            run_from(program@, vm@, pc, (MAX_STEPS - steps) as nat) == goal,
        decreases MAX_STEPS - steps,
    {
        steps = steps + 1;
        match step_at(&mut vm, program, pc)? {
            Step::Next => {
                if pc == usize::MAX {
                    return Err(ExecError::ProgramCounterOutOfRange { pc });
                }
                pc = pc + 1;
            },
            Step::Jump(to) => {
                pc = to;
            },
            Step::Halt { code, message } => {
                if code == 0 {
                    return Ok(Run::Rows(vm.into_rows()));
                }
                return Err(ExecError::Halted { code, message });
            },
            Step::Await(request) => {
                return Ok(Run::Waiting(Execution { vm, pc, steps, request }));
            },
        }
    }
    Err(ExecError::StepLimitExceeded)
}

/// Runs `program`, starting at PC 0. Returns the rows emitted via `ResultRow`, an error
/// (including a non-zero `Halt`, surfaced as `ExecError::Halted` rather than silently
/// discarded), or the run where it waits for outside work. Never panics: any malformed
/// instruction (out-of-range register, wrong P4 type, PC running past the end of the program
/// without a `Halt`) returns a structured `Err`.
pub fn execute(program: &Program) -> (r: Result<Run, ExecError>)
    ensures
        run_wf(r),
        run_seen(r) == run_from(program@, vm::fresh_vm(None), 0, MAX_STEPS as nat),
{
    run(Vm::new(), program, 0, 0)
}

/// Like [`execute`], but the machine can read tables of a database whose text has the
/// encoding given.
pub fn execute_with_db(program: &Program, encoding: TextEncoding) -> (r: Result<Run, ExecError>)
    ensures
        run_wf(r),
        run_seen(r) == run_from(
            program@,
            vm::fresh_vm(Some(Database { encoding, writable: false })),
            0,
            MAX_STEPS as nat,
        ),
{
    run(Vm::with_db(encoding), program, 0, 0)
}

/// Like [`execute_with_db`], but the machine can also write to the database.
pub fn execute_with_writable_db(program: &Program, encoding: TextEncoding) -> (r: Result<
    Run,
    ExecError,
>)
    ensures
        run_wf(r),
        run_seen(r) == run_from(
            program@,
            vm::fresh_vm(Some(Database { encoding, writable: true })),
            0,
            MAX_STEPS as nat,
        ),
{
    run(Vm::with_writable_db(encoding), program, 0, 0)
}

} // verus!
