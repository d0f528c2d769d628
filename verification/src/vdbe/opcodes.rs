//! What the opcodes are for: laws on what one instruction, or an instruction and the reply to
//! its request, leaves in the machine.
use crate::record::collation::Collation;
use crate::record::decode;
use crate::record::value::{TextEncoding, ValueView};
use crate::text;
use crate::text::Sorted;
use crate::vdbe::arithmetic;
use crate::vdbe::change;
use crate::vdbe::error::{ErrorView, MAX_REGISTERS};
use crate::vdbe::exec;
use crate::vdbe::exec::RunView;
use crate::vdbe::index;
use crate::vdbe::order;
use crate::vdbe::program::{InstructionView, Opcode, P4View, SortKeyColumn};
use crate::vdbe::request::{
    IndexPlace, MasterEntryView, ReplyView, RequestView, RowView, TablePlace,
};
use crate::vdbe::result;
use crate::vdbe::slot::{EphemeralView, IndexView, SlotView, SorterView, TableView};
use crate::vdbe::sorter;
use crate::vdbe::vm;
use crate::vdbe::vm::{Effect, StepView, VmView};
use vstd::prelude::*;

verus! {

/// Whether an instruction goes on with the one behind it.
pub open spec fn goes_on(e: Effect) -> bool {
    e.step == Ok::<StepView, ErrorView>(StepView::Next)
}

/// Whether an instruction goes on at the address `p2`.
pub open spec fn goes_to(e: Effect, p2: i32) -> bool {
    e.step == Ok::<StepView, ErrorView>(vm::jump(p2))
}

/// Whether an instruction waits for `request`.
pub open spec fn waits_for(e: Effect, request: RequestView) -> bool {
    e.step == Ok::<StepView, ErrorView>(StepView::Await(request))
}

// ---- comparisons ----------------------------------------------------------------------

/// Whether a comparison opcode asks for what holds of a value that stands so to another.
pub open spec fn asks_for(o: Opcode, s: Sorted) -> bool {
    match s {
        Sorted::Before => o == Opcode::Lt || o == Opcode::Le,
        Sorted::Same => o == Opcode::Le || o == Opcode::Eq || o == Opcode::Ge,
        Sorted::After => o == Opcode::Gt || o == Opcode::Ge,
    }
}

/// Whether the opcode is one of the comparisons.
pub open spec fn is_comparison(o: Opcode) -> bool {
    o == Opcode::Lt || o == Opcode::Le || o == Opcode::Eq || o == Opcode::Ge || o == Opcode::Gt
}

/// A comparison jumps exactly where neither value is NULL and the value in `P1` stands to that
/// in `P3` as the opcode asks, under the collation that the instruction names. It changes
/// nothing.
pub proof fn law_comparison_jumps(
    m: VmView,
    pc: usize,
    i: InstructionView,
    a: ValueView,
    b: ValueView,
    collation: Collation,
)
    requires
        is_comparison(i.opcode),
        vm::in_range(i.p1),
        vm::in_range(i.p3),
        m.held(i.p1 as int) == a,
        m.held(i.p3 as int) == b,
        match i.p4 {
            P4View::CollSeq { collation: named, .. } => collation == named,
            _ => collation == Collation::Binary,
        },
    ensures
        ({
            let e = exec::dispatched(m, pc, i);
            &&& e.vm == m
            &&& if !(a is Null) && !(b is Null) && asks_for(
                i.opcode,
                order::value_order(a, b, collation),
            ) {
                goes_to(e, i.p2)
            } else {
                goes_on(e)
            }
        }),
{
}

/// Integers are compared by their value.
pub proof fn law_integers_compare(m: VmView, pc: usize, i: InstructionView, x: i64, y: i64)
    requires
        is_comparison(i.opcode),
        vm::in_range(i.p1),
        vm::in_range(i.p3),
        m.held(i.p1 as int) == ValueView::Integer(x),
        m.held(i.p3 as int) == ValueView::Integer(y),
    ensures
        ({
            let e = exec::dispatched(m, pc, i);
            let holds = (x < y && (i.opcode == Opcode::Lt || i.opcode == Opcode::Le)) || (x > y && (
            i.opcode == Opcode::Gt || i.opcode == Opcode::Ge)) || (x == y && (i.opcode == Opcode::Eq
                || i.opcode == Opcode::Le || i.opcode == Opcode::Ge));
            if holds {
                goes_to(e, i.p2)
            } else {
                goes_on(e)
            }
        }),
{
    order::law_integers_by_value(x, y, exec::collation_of(i));
}

// ---- arithmetic -----------------------------------------------------------------------

/// The arithmetic opcodes on integers, where the result has 64 bits: the sum and the product of
/// both, the difference, the quotient and the remainder of that in `P2` and that in `P1`.
pub proof fn law_arithmetic_on_integers(
    m: VmView,
    pc: usize,
    i: InstructionView,
    x: i64,
    y: i64,
    q: int,
    r: int,
)
    requires
        vm::in_range(i.p1),
        vm::in_range(i.p2),
        vm::in_range(i.p3),
        m.held(i.p1 as int) == ValueView::Integer(x),
        m.held(i.p2 as int) == ValueView::Integer(y),
        x != 0 ==> arithmetic::divides(y as int, x as int, q, r),
    ensures
        ({
            let e = exec::dispatched(m, pc, i);
            let gives = |n: int|
                i64::MIN <= n <= i64::MAX ==> arithmetic::writes(
                    m,
                    i.p3,
                    ValueView::Integer(n as i64),
                    e,
                );
            &&& i.opcode == Opcode::Add ==> gives(x + y)
            &&& i.opcode == Opcode::Subtract ==> gives(y - x)
            &&& i.opcode == Opcode::Multiply ==> gives(x * y)
            &&& i.opcode == Opcode::Divide && x != 0 ==> gives(q)
            &&& i.opcode == Opcode::Remainder && x != 0 && i64::MIN <= q <= i64::MAX ==> gives(r)
            &&& (i.opcode == Opcode::Divide || i.opcode == Opcode::Remainder) && x == 0
                ==> arithmetic::writes(m, i.p3, ValueView::Null, e)
        }),
{
    arithmetic::law_integers_add(m, i, x, y);
    arithmetic::law_integers_subtract(m, i, x, y);
    arithmetic::law_integers_multiply(m, i, x, y);
    arithmetic::law_integers_divide(m, i, x, y, q, r);
}

// ---- registers and rows -----------------------------------------------------------------

/// `Integer`, `String8` and `Copy` write the number in `P1`, the text in `P4` and the value of
/// the register `P1` into the register `P2`, and change no other.
pub proof fn law_constants_are_written(m: VmView, pc: usize, i: InstructionView)
    requires
        vm::in_range(i.p1),
        vm::in_range(i.p2),
    ensures
        ({
            let e = exec::dispatched(m, pc, i);
            &&& i.opcode == Opcode::Integer ==> arithmetic::writes(
                m,
                i.p2,
                ValueView::Integer(i.p1 as i64),
                e,
            )
            &&& i.opcode == Opcode::String8 && i.p4 is Str ==> arithmetic::writes(
                m,
                i.p2,
                ValueView::Text(i.p4->Str_0),
                e,
            )
            &&& i.opcode == Opcode::Copy ==> arithmetic::writes(
                m,
                i.p2,
                m.held(i.p1 as int),
                e,
            )
        }),
{
}

proof fn lemma_result_row(m: VmView, i: InstructionView)
    requires
        vm::in_range(i.p1),
        0 < i.p2 <= MAX_REGISTERS,
        i.p1 + i.p2 <= MAX_REGISTERS + 1,
    ensures
        ({
            let e = result::result_row_effect(m, i);
            &&& goes_on(e)
            &&& e.vm.rows.len() == m.rows.len() + 1
            &&& e.vm.rows.take(m.rows.len() as int) == m.rows
            &&& e.vm.rows.last().len() == i.p2
            &&& forall|k: int| 0 <= k < i.p2 ==> #[trigger] e.vm.rows.last()[k] == m.held(i.p1 + k)
            &&& e.vm.registers == m.registers
            &&& e.vm.cursors == m.cursors
        }),
{
    let row = vm::held_range(m, i.p1 as int, i.p2 as nat);
    assert(result::result_row_effect(m, i).vm.rows == m.rows.push(row));
    assert(m.rows.push(row).take(m.rows.len() as int) =~= m.rows);
}

/// `ResultRow` adds one row behind those already there: the values of `P2` registers, from `P1`
/// on, in their order.
pub proof fn law_result_row_is_added(m: VmView, pc: usize, i: InstructionView, k: int)
    requires
        i.opcode == Opcode::ResultRow,
        vm::in_range(i.p1),
        0 <= k < i.p2 <= MAX_REGISTERS,
        i.p1 + i.p2 <= MAX_REGISTERS + 1,
    ensures
        ({
            let e = exec::dispatched(m, pc, i);
            &&& goes_on(e)
            &&& e.vm.rows.len() == m.rows.len() + 1
            &&& e.vm.rows.take(m.rows.len() as int) == m.rows
            &&& e.vm.rows.last().len() == i.p2
            &&& e.vm.rows.last()[k] == m.held(i.p1 + k)
            &&& e.vm.registers == m.registers
            &&& e.vm.cursors == m.cursors
        }),
{
    lemma_result_row(m, i);
    assert(exec::dispatched(m, pc, i) == result::result_row_effect(m, i));
}

// ---- the run ----------------------------------------------------------------------------

/// A run goes on behind an instruction that goes on, at the address of a jump, and ends with its
/// rows at a `Halt` with code zero. Any other code is a failure with its message.
pub proof fn law_run_follows_steps(
    program: Seq<InstructionView>,
    m: VmView,
    pc: usize,
    left: nat,
)
    requires
        0 < left,
        pc < program.len(),
        pc < usize::MAX,
    ensures
        ({
            let i = program[pc as int];
            let e = exec::dispatched(m, pc, i);
            let run = exec::run_from(program, m, pc, left);
            &&& goes_on(e) ==> run == exec::run_from(
                program,
                e.vm,
                (pc + 1) as usize,
                (left - 1) as nat,
            )
            &&& 0 <= i.p2 && goes_to(e, i.p2) ==> run == exec::run_from(
                program,
                e.vm,
                i.p2 as usize,
                (left - 1) as nat,
            )
            &&& e.step is Err ==> run == RunView::Failed(e.step->Err_0)
            &&& i.opcode == Opcode::Goto ==> goes_to(e, i.p2)
            &&& i.opcode == Opcode::Halt && i.p1 == 0 ==> run == RunView::Rows(m.rows)
            &&& i.opcode == Opcode::Halt && i.p1 != 0 && i.p4 is Str ==> run == RunView::Failed(
                ErrorView::Halted { code: i.p1, message: Some(i.p4->Str_0) },
            )
            &&& i.opcode == Opcode::Halt && i.p1 != 0 && !(i.p4 is Str) ==> run == RunView::Failed(
                ErrorView::Halted { code: i.p1, message: None },
            )
        }),
{
    reveal_with_fuel(exec::run_from, 2);
    reveal_with_fuel(exec::run_behind, 2);
}

// ---- table cursors ------------------------------------------------------------------------

/// Moving a table cursor asks for the row of that place in the table it is open on.
pub proof fn law_table_moves_ask(m: VmView, pc: usize, i: InstructionView, t: TableView, n: i64)
    requires
        m.cursor(i.p1) == Ok::<SlotView, ErrorView>(SlotView::Table(t)),
        vm::in_range(i.p3),
        m.held(i.p3 as int) == ValueView::Integer(n),
    ensures
        ({
            let e = exec::dispatched(m, pc, i);
            let asks = |place: TablePlace|
                waits_for(
                    e,
                    RequestView::MoveTable {
                        slot: i.p1,
                        fresh: t.fresh,
                        root_page: t.root_page,
                        place,
                    },
                );
            &&& i.opcode == Opcode::Rewind ==> asks(TablePlace::First)
            &&& i.opcode == Opcode::Last ==> asks(TablePlace::Last)
            &&& i.opcode == Opcode::Next ==> asks(TablePlace::Next)
            &&& i.opcode == Opcode::SeekRowid ==> asks(TablePlace::Rowid(n))
        }),
{
}

/// Whether the opcode moves a table cursor.
pub open spec fn is_table_move(o: Opcode) -> bool {
    o == Opcode::Rewind || o == Opcode::Last || o == Opcode::Next || o == Opcode::SeekRowid
}

/// With the row that a move found, the cursor stands on it: `Rowid` and `Column` read it.
/// `Next` jumps, the other moves go on. Where none was found it is the other way round, and the
/// cursor stands on no row.
pub proof fn law_table_move_lands(
    m: VmView,
    pc: usize,
    i: InstructionView,
    t: TableView,
    served: RequestView,
    row: Option<RowView>,
    read: InstructionView,
)
    requires
        is_table_move(i.opcode),
        served is MoveTable,
        m.cursor(i.p1) == Ok::<SlotView, ErrorView>(SlotView::Table(t)),
        !t.forced_null,
        read.p1 == i.p1,
        vm::in_range(read.p2),
        vm::in_range(read.p3),
    ensures
        ({
            let e = exec::resumed(m, i, served, ReplyView::Row(row));
            let next = exec::dispatched(e.vm, pc, read);
            &&& if row is Some == (i.opcode == Opcode::Next) {
                goes_to(e, i.p2)
            } else {
                goes_on(e)
            }
            &&& e.vm.registers == m.registers
            &&& e.vm.rows == m.rows
            &&& match row {
                None => (read.opcode == Opcode::Rowid || read.opcode == Opcode::Column)
                    ==> next.step is Err,
                Some(found) => {
                    &&& read.opcode == Opcode::Rowid ==> arithmetic::writes(
                        e.vm,
                        read.p2,
                        ValueView::Integer(found.rowid),
                        next,
                    )
                    &&& read.opcode == Opcode::Column && decode::column_of(
                        found.payload,
                        read.p2 as int,
                        TextEncoding::Utf8,
                    ) is Ok ==> arithmetic::writes(
                        e.vm,
                        read.p3,
                        decode::column_of(
                            found.payload,
                            read.p2 as int,
                            TextEncoding::Utf8,
                        )->Ok_0,
                        next,
                    )
                },
            }
        }),
{
}

// ---- changes --------------------------------------------------------------------------------

/// In a database that may be written, `Insert` asks for the row of the registers `P2` and `P3`
/// to be put into the cursor's table, and `Delete` for the row the cursor stands on to be taken
/// out. When that is done they go on, after `Delete` with the cursor on no row.
pub proof fn law_changes_ask(
    m: VmView,
    pc: usize,
    i: InstructionView,
    t: TableView,
    rowid: i64,
    payload: Seq<u8>,
    row: RowView,
)
    requires
        m.cursor(i.p1) == Ok::<SlotView, ErrorView>(SlotView::Table(t)),
        m.database is Some,
        m.database->0.writable,
        vm::in_range(i.p2),
        vm::in_range(i.p3),
        m.held(i.p2 as int) == ValueView::Integer(rowid),
        m.held(i.p3 as int) == ValueView::Blob(payload),
        t.current == Some(row),
    ensures
        ({
            let e = exec::dispatched(m, pc, i);
            let put = RequestView::InsertRow { root_page: t.root_page, rowid, payload };
            let taken = RequestView::DeleteRow { root_page: t.root_page, rowid: row.rowid };
            &&& i.opcode == Opcode::Insert ==> waits_for(e, put) && exec::resumed(
                m,
                i,
                put,
                ReplyView::Done,
            ) == vm::stepped(m, StepView::Next)
            &&& i.opcode == Opcode::Delete ==> waits_for(e, taken) && goes_on(
                exec::resumed(m, i, taken, ReplyView::Done),
            ) && exec::resumed(m, i, taken, ReplyView::Done).vm.cursor(i.p1) == Ok::<
                SlotView,
                ErrorView,
            >(SlotView::Table(TableView { current: None, ..t }))
        }),
{
}

/// `NewRowid` without a sequence counter is one more than the rowid of the table's last row, and
/// one in an empty table.
pub proof fn law_new_rowid_follows_the_last(
    m: VmView,
    pc: usize,
    i: InstructionView,
    t: TableView,
    row: Option<RowView>,
)
    requires
        i.opcode == Opcode::NewRowid,
        i.p5 == 0,
        m.cursor(i.p1) == Ok::<SlotView, ErrorView>(SlotView::Table(t)),
        m.database is Some,
        vm::in_range(i.p2),
        row is Some ==> row->0.rowid < i64::MAX,
    ensures
        ({
            let asked = RequestView::LastRow { root_page: t.root_page };
            let e = exec::resumed(m, i, asked, ReplyView::Row(row));
            &&& waits_for(exec::dispatched(m, pc, i), asked)
            &&& match row {
                Some(last) => arithmetic::writes(
                    m,
                    i.p2,
                    ValueView::Integer((last.rowid + 1) as i64),
                    e,
                ),
                None => arithmetic::writes(m, i.p2, ValueView::Integer(1), e),
            }
        }),
{
}

// ---- index cursors ----------------------------------------------------------------------------

/// Moving an index cursor asks for the entry of that place in its index; with the entry, the
/// cursor stands on it. `IdxNext` and `IdxPrev` jump where there is one, the others where there
/// is none.
pub proof fn law_index_moves(
    m: VmView,
    pc: usize,
    i: InstructionView,
    t: IndexView,
    served: RequestView,
    entry: Option<Seq<u8>>,
)
    requires
        i.opcode == Opcode::IdxRewind || i.opcode == Opcode::IdxLast || i.opcode == Opcode::IdxNext
            || i.opcode == Opcode::IdxPrev,
        served is MoveIndex,
        m.cursor(i.p1) == Ok::<SlotView, ErrorView>(SlotView::IndexRead(t)),
    ensures
        ({
            let asked = exec::dispatched(m, pc, i);
            let asks = |place: IndexPlace|
                waits_for(
                    asked,
                    RequestView::MoveIndex {
                        slot: i.p1,
                        fresh: t.fresh,
                        root_page: t.root_page,
                        place,
                    },
                );
            let e = exec::resumed(m, i, served, ReplyView::Entry(entry));
            let loops = i.opcode == Opcode::IdxNext || i.opcode == Opcode::IdxPrev;
            &&& i.opcode == Opcode::IdxRewind ==> asks(IndexPlace::First)
            &&& i.opcode == Opcode::IdxLast ==> asks(IndexPlace::Last)
            &&& i.opcode == Opcode::IdxNext ==> asks(IndexPlace::Next)
            &&& i.opcode == Opcode::IdxPrev ==> asks(IndexPlace::Previous)
            &&& if entry is Some == loops {
                goes_to(e, i.p2)
            } else {
                goes_on(e)
            }
            &&& e.vm.cursor(i.p1) == Ok::<SlotView, ErrorView>(
                SlotView::IndexRead(IndexView { current: entry, ..t }),
            )
        }),
{
}

/// Whether the first columns of an entry equal a probe, each in BINARY order.
pub open spec fn begins_with(entry: Seq<ValueView>, probe: Seq<ValueView>) -> bool {
    &&& entry.len() >= probe.len()
    &&& forall|k: int|
        0 <= k < probe.len() ==> order::value_order(
            #[trigger] entry[k],
            probe[k],
            Collation::Binary,
        ) == Sorted::Same
}

/// `SeekIndexEq` lands on the entry found where it begins with the probe and more follows, and
/// jumps else. `NoConflict` jumps where none begins with the probe, and else writes the entry's
/// last column behind the probe.
pub proof fn law_index_probes(
    m: VmView,
    i: InstructionView,
    t: IndexView,
    served: RequestView,
    probe: Seq<ValueView>,
    payload: Seq<u8>,
    entry: Seq<ValueView>,
)
    requires
        i.opcode == Opcode::SeekIndexEq ==> m.cursor(i.p1) == Ok::<SlotView, ErrorView>(
            SlotView::IndexRead(t),
        ),
        served is SeekIndex,
        served->SeekIndex_key == probe,
        m.database is Some,
        decode::row_of(payload, m.database->0.encoding) == Ok::<
            Seq<ValueView>,
            crate::record::error::RecordError,
        >(entry),
        0 <= i.p3,
        i.p3 + probe.len() <= MAX_REGISTERS,
        entry.len() > 0,
    ensures
        ({
            let e = exec::resumed(m, i, served, ReplyView::Entry(Some(payload)));
            let none = exec::resumed(m, i, served, ReplyView::Entry(None));
            let lands = begins_with(entry, probe) && entry.len() > probe.len();
            &&& i.opcode == Opcode::SeekIndexEq && lands ==> goes_on(e) && e.vm.cursor(i.p1)
                == Ok::<SlotView, ErrorView>(
                SlotView::IndexRead(IndexView { current: Some(payload), ..t }),
            )
            &&& i.opcode == Opcode::SeekIndexEq && !lands ==> goes_to(e, i.p2)
            &&& i.opcode == Opcode::SeekIndexEq ==> goes_to(none, i.p2)
            &&& i.opcode == Opcode::NoConflict && !begins_with(entry, probe) ==> goes_to(e, i.p2)
                && e.vm == m
            &&& i.opcode == Opcode::NoConflict && begins_with(entry, probe) ==> arithmetic::writes(
                m,
                (i.p3 + probe.len()) as i32,
                entry.last(),
                e,
            )
            &&& i.opcode == Opcode::NoConflict ==> goes_to(none, i.p2) && none.vm == m
        }),
{
}

/// `IdxRowid` reads the last column of the entry the cursor stands on, where it is an integer.
pub proof fn law_index_rowid_is_the_last_column(
    m: VmView,
    pc: usize,
    i: InstructionView,
    t: IndexView,
    payload: Seq<u8>,
    entry: Seq<ValueView>,
    rowid: i64,
)
    requires
        i.opcode == Opcode::IdxRowid,
        m.cursor(i.p1) == Ok::<SlotView, ErrorView>(SlotView::IndexRead(t)),
        t.current == Some(payload),
        m.database is Some,
        decode::row_of(payload, m.database->0.encoding) == Ok::<
            Seq<ValueView>,
            crate::record::error::RecordError,
        >(entry),
        entry.len() > 0,
        entry.last() == ValueView::Integer(rowid),
        vm::in_range(i.p2),
    ensures
        arithmetic::writes(m, i.p2, ValueView::Integer(rowid), exec::dispatched(m, pc, i)),
{
}

/// An index that is written asks for the entry of its key columns to be put in or taken out, and
/// a probe for the first one not before it: the `P4` registers from `P2` on, or from `P3` on for
/// a probe.
pub proof fn law_index_changes_ask(
    m: VmView,
    pc: usize,
    i: InstructionView,
    root_page: u32,
    count: i64,
)
    requires
        m.cursor(i.p1) == Ok::<SlotView, ErrorView>(SlotView::IndexWrite { root_page }),
        m.database is Some,
        m.database->0.writable,
        i.p4 == P4View::Int(count),
        0 < count <= MAX_REGISTERS,
        0 <= i.p2,
        0 <= i.p3,
        i.p2 + count <= MAX_REGISTERS + 1,
        i.p3 + count <= MAX_REGISTERS + 1,
    ensures
        ({
            let e = exec::dispatched(m, pc, i);
            let from = |start: int| Seq::new(count as nat, |k: int| m.held(start + k));
            &&& i.opcode == Opcode::IdxInsert ==> waits_for(
                e,
                RequestView::InsertEntry { root_page, key: from(i.p2 as int) },
            )
            &&& i.opcode == Opcode::IdxDelete ==> waits_for(
                e,
                RequestView::DeleteEntry { root_page, key: from(i.p2 as int) },
            )
            &&& i.opcode == Opcode::NoConflict ==> waits_for(
                e,
                RequestView::SeekIndex { root_page, key: from(i.p3 as int) },
            )
        }),
{
    let from = |start: int| Seq::new(count as nat, |k: int| m.held(start + k));
    assert(from(i.p2 as int) =~= vm::held_range(m, i.p2 as int, count as nat));
    assert(from(i.p3 as int) =~= vm::held_range(m, i.p3 as int, count as nat));
}

/// What opens a cursor opens it on the page and of the kind that the instruction names, on no
/// row yet.
pub proof fn law_cursors_open_on_their_page(m: VmView, pc: usize, i: InstructionView)
    requires
        vm::in_range(i.p1),
        0 <= i.p2,
        m.database is Some,
        m.database->0.writable,
    ensures
        ({
            let opened = exec::dispatched(m, pc, i).vm.cursor(i.p1);
            let table = SlotView::Table(
                TableView {
                    fresh: true,
                    forced_null: false,
                    root_page: i.p2 as u32,
                    current: None,
                },
            );
            &&& i.opcode == Opcode::OpenRead && i.p5 == 0 ==> opened == Ok::<SlotView, ErrorView>(
                table,
            )
            &&& i.opcode == Opcode::OpenWrite && i.p5 == 0 ==> opened == Ok::<SlotView, ErrorView>(
                table,
            )
            &&& i.opcode == Opcode::OpenRead && i.p5 != 0 ==> opened == Ok::<SlotView, ErrorView>(
                SlotView::IndexRead(
                    IndexView { fresh: true, root_page: i.p2 as u32, current: None },
                ),
            )
            &&& i.opcode == Opcode::OpenWrite && i.p5 != 0 ==> opened == Ok::<SlotView, ErrorView>(
                SlotView::IndexWrite { root_page: i.p2 as u32 },
            )
            &&& i.opcode == Opcode::OpenPseudo ==> opened == Ok::<SlotView, ErrorView>(
                SlotView::Pseudo { register: i.p2 },
            )
        }),
{
}

// ---- sorters -------------------------------------------------------------------------------

/// A sorter is opened empty, with the keys of the instruction.
pub proof fn law_sorter_opens_empty(
    m: VmView,
    pc: usize,
    i: InstructionView,
    keys: Seq<SortKeyColumn>,
)
    requires
        i.opcode == Opcode::SorterOpen,
        i.p4 == P4View::SortKey(keys),
        vm::in_range(i.p1),
    ensures
        goes_on(exec::dispatched(m, pc, i)),
        exec::dispatched(m, pc, i).vm.cursor(i.p1) == Ok::<SlotView, ErrorView>(
            SlotView::Sorter(SorterView { keys, buffer: Seq::empty(), sorted: false, pos: 0 }),
        ),
{
    assert(exec::dispatched(m, pc, i) == sorter::sorter_open_effect(m, i));
}

/// A sorter takes the record of a register behind those it has.
pub proof fn law_sorter_takes_records(
    m: VmView,
    pc: usize,
    i: InstructionView,
    t: SorterView,
    record: Seq<u8>,
)
    requires
        i.opcode == Opcode::SorterInsert,
        vm::in_range(i.p2),
        m.cursor(i.p1) == Ok::<SlotView, ErrorView>(SlotView::Sorter(t)),
        m.held(i.p2 as int) == ValueView::Blob(record),
    ensures
        goes_on(exec::dispatched(m, pc, i)),
        exec::dispatched(m, pc, i).vm.cursor(i.p1) == Ok::<SlotView, ErrorView>(
            SlotView::Sorter(SorterView { buffer: t.buffer.push(record), sorted: false, ..t }),
        ),
{
    assert(exec::dispatched(m, pc, i) == sorter::sorter_insert_effect(m, i));
}

// ---- schema statements ----------------------------------------------------------------------

/// `CreateTable` asks for a root page, then for the schema row of a table on that page, with its
/// name and its text, then for the schema cookie, and then goes on.
pub proof fn law_create_table_goes_on(
    m: VmView,
    pc: usize,
    i: InstructionView,
    name: Seq<char>,
    sql: Seq<char>,
    root: u32,
)
    requires
        i.opcode == Opcode::CreateTable,
        i.p4 == (P4View::CreateTable { name, sql }),
        m.database is Some,
        m.database->0.writable,
    ensures
        ({
            let row = RequestView::InsertMasterRow(
                MasterEntryView { kind: "table"@, name, tbl_name: name, rootpage: root, sql },
            );
            &&& waits_for(exec::dispatched(m, pc, i), RequestView::CreateTableRoot)
            &&& waits_for(
                exec::resumed(m, i, RequestView::CreateTableRoot, ReplyView::Root(root)),
                row,
            )
            &&& waits_for(
                exec::resumed(m, i, row, ReplyView::Done),
                RequestView::BumpSchemaCookie,
            )
            &&& exec::resumed(m, i, RequestView::BumpSchemaCookie, ReplyView::Done)
                == vm::stepped(m, StepView::Next)
        }),
{
}

/// `CreateIndex` asks for a root page, then for the entries of the table's rows, then for the
/// schema row of an index of that table on that page, then for the schema cookie, and then goes
/// on.
pub proof fn law_create_index_goes_on(
    m: VmView,
    pc: usize,
    i: InstructionView,
    name: Seq<char>,
    table_name: Seq<char>,
    table_root_page: u32,
    column_indices: Seq<usize>,
    unique: bool,
    sql: Seq<char>,
    root: u32,
)
    requires
        i.opcode == Opcode::CreateIndex,
        i.p4 == (P4View::CreateIndex {
            name,
            table_name,
            table_root_page,
            column_indices,
            unique,
            sql,
        }),
        m.database is Some,
        m.database->0.writable,
    ensures
        ({
            let entries = RequestView::PopulateIndex {
                table_root_page,
                index_root_page: root,
                column_indices,
            };
            let row = RequestView::InsertMasterRow(
                MasterEntryView { kind: "index"@, name, tbl_name: table_name, rootpage: root, sql },
            );
            &&& waits_for(exec::dispatched(m, pc, i), RequestView::CreateIndexRoot)
            &&& waits_for(
                exec::resumed(m, i, RequestView::CreateIndexRoot, ReplyView::Root(root)),
                entries,
            )
            &&& waits_for(exec::resumed(m, i, entries, ReplyView::Done), row)
            &&& waits_for(
                exec::resumed(m, i, row, ReplyView::Done),
                RequestView::BumpSchemaCookie,
            )
            &&& exec::resumed(m, i, RequestView::BumpSchemaCookie, ReplyView::Done)
                == vm::stepped(m, StepView::Next)
        }),
{
}

/// `CreateView` asks for the schema row of a view, which is on no page, and for the schema cookie.
pub proof fn law_create_view_goes_on(
    m: VmView,
    pc: usize,
    i: InstructionView,
    name: Seq<char>,
    sql: Seq<char>,
)
    requires
        i.opcode == Opcode::CreateView,
        i.p4 == (P4View::CreateView { name, sql }),
        m.database is Some,
        m.database->0.writable,
    ensures
        ({
            let row = RequestView::InsertMasterRow(
                MasterEntryView { kind: "view"@, name, tbl_name: name, rootpage: 0, sql },
            );
            &&& waits_for(exec::dispatched(m, pc, i), row)
            &&& waits_for(
                exec::resumed(m, i, row, ReplyView::Done),
                RequestView::BumpSchemaCookie,
            )
            &&& exec::resumed(m, i, RequestView::BumpSchemaCookie, ReplyView::Done)
                == vm::stepped(m, StepView::Next)
        }),
{
}

/// Whether the opcode writes into the database.
pub open spec fn writes_database(o: Opcode) -> bool {
    o == Opcode::Insert || o == Opcode::Delete || o == Opcode::IdxInsert || o == Opcode::IdxDelete
        || o == Opcode::CreateTable || o == Opcode::CreateIndex || o == Opcode::CreateView || o
        == Opcode::DropTable || o == Opcode::DropIndex
}

/// Where the database may not be written, no instruction that writes asks for anything.
pub proof fn law_read_only_stays(m: VmView, pc: usize, i: InstructionView)
    requires
        writes_database(i.opcode),
        m.database is None || !m.database->0.writable,
    ensures
        exec::dispatched(m, pc, i).step is Ok ==> !(exec::dispatched(
            m,
            pc,
            i,
        ).step->Ok_0 is Await),
{
    let e = exec::dispatched(m, pc, i);
    if i.opcode == Opcode::Insert {
        assert(e == change::insert_effect(m, i));
    } else if i.opcode == Opcode::Delete {
        assert(e == change::delete_effect(m, i));
    } else if i.opcode == Opcode::IdxInsert {
        assert(e == index::idx_insert_effect(m, i));
    } else if i.opcode == Opcode::IdxDelete {
        assert(e == index::idx_delete_effect(m, i));
    }
}

// ---- functions ------------------------------------------------------------------------------

proof fn lemma_first_place(s: Seq<char>, c: char, i: int, at: int)
    requires
        0 <= i <= at < s.len(),
        s[at] == c,
        forall|k: int| i <= k < at ==> #[trigger] s[k] != c,
    ensures
        exec::first_place(s, c, i) == Some(at),
    decreases at - i,
{
    if i < at {
        assert(s[i] != c);
        lemma_first_place(s, c, i + 1, at);
    }
}

/// `Function` with the descriptor of a name and a number of arguments in parentheses asks for the
/// call of that function on as many registers, from `P2` on, in their order; the result goes into
/// `P3`.
pub proof fn law_function_is_called(
    m: VmView,
    pc: usize,
    i: InstructionView,
    name: Seq<char>,
    digits: Seq<char>,
    v: ValueView,
)
    requires
        i.opcode == Opcode::Function,
        i.p4 == P4View::Str(name + seq!['('] + digits + seq![')']),
        forall|k: int| 0 <= k < name.len() ==> #[trigger] name[k] != '(',
        digits.len() > 0,
        forall|k: int| 0 <= k < digits.len() ==> '0' <= #[trigger] digits[k] <= '9',
        0 < text::number(digits, 10) <= MAX_REGISTERS,
        vm::in_range(i.p2),
        i.p2 + text::number(digits, 10) <= MAX_REGISTERS + 1,
        vm::in_range(i.p3),
    ensures
        ({
            let count = text::number(digits, 10);
            let call = RequestView::Call {
                name,
                arguments: Seq::new(count, |k: int| m.held(i.p2 + k)),
            };
            &&& waits_for(exec::dispatched(m, pc, i), call)
            &&& arithmetic::writes(m, i.p3, v, exec::resumed(m, i, call, ReplyView::Value(v)))
        }),
{
    let s = name + seq!['('] + digits + seq![')'];
    let open = name.len() as int;
    assert forall|k: int| 0 <= k < open implies #[trigger] s[k] != '(' by {
        assert(s[k] == name[k]);
    }
    lemma_first_place(s, '(', 0, open);
    assert(s.subrange(open + 1, s.len() - 1) =~= digits);
    assert(s.take(open) =~= name);
    assert('0' <= digits[0] <= '9');
    assert(exec::unsigned_digits(digits) == digits);
    assert(exec::descriptor_parts(s) == Some((name, text::number(digits, 10) as usize)));
    assert(exec::dispatched(m, pc, i).step == exec::function_step(m, i));
    let count = text::number(digits, 10);
    assert(Seq::new(count, |k: int| m.held(i.p2 + k)) =~= vm::held_range(m, i.p2 as int, count));
}

/// `IdxLE` jumps where the key last put in or looked for does not stand behind the probe in the
/// order of its bytes, or where there is none.
pub proof fn law_index_bound(
    m: VmView,
    pc: usize,
    i: InstructionView,
    t: EphemeralView,
    probe: Seq<ValueView>,
)
    requires
        i.opcode == Opcode::IdxLE,
        m.cursor(i.p1) == Ok::<SlotView, ErrorView>(SlotView::Ephemeral(t)),
        index::key_columns(m, i, i.p3, "IdxLE"@) == Ok::<Seq<ValueView>, ErrorView>(probe),
    ensures
        ({
            let e = exec::dispatched(m, pc, i);
            &&& e.vm == m
            &&& match t.last_key {
                None => goes_to(e, i.p2),
                Some(key) => if order::bytes_order(key, index::key_bytes(probe)) == Sorted::After {
                    goes_on(e)
                } else {
                    goes_to(e, i.p2)
                },
            }
        }),
{
    assert(exec::dispatched(m, pc, i) == index::idx_le_effect(m, i));
}

} // verus!
