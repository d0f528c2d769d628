//! Cursor opcodes: opening, moving and reading cursors.
//!
//! A table cursor reads rows of a table b-tree (`OpenRead`/`Rewind`/`Last`/`Next`/`Column`/
//! `Rowid`/`SeekRowid`/`NullRow`), an in-memory ephemeral index serves DISTINCT, an
//! in-memory ephemeral table holds a materialized subquery, a pseudo-cursor lets `Column`
//! read an already-computed record, and an index cursor supports both a one-shot point
//! lookup and a full walk in key order.
//!
//! Register and cursor-slot conventions:
//! - `OpenRead(p1=cursor, p2=root page, p5=nonzero for an index)`
//! - `OpenEphemeral(p1=cursor, p5=nonzero for a table)`
//! - `OpenPseudo(p1=cursor, p2=register holding the row's record blob)`
//! - `Rewind`/`Last(p1=cursor, p2=jump target if the table is empty)`
//! - `Next(p1=cursor, p2=jump target if another row was found)`
//! - `Column(p1=cursor, p2=column index, p3=dest register)`
//! - `Rowid(p1=cursor, p2=dest register)`
//! - `SeekRowid(p1=cursor, p2=jump target if not found, p3=register holding the rowid)`
//! - `NullRow(p1=cursor)`
//! - `Sequence(p1=cursor, p2=dest register)`
use crate::record::decode;
use crate::record::error::RecordError;
use crate::record::value;
use crate::record::value::{TextEncoding, Value, ValueView};
use crate::text;
use crate::vdbe::control;
use crate::vdbe::control::take_jump;
use crate::vdbe::debug;
use crate::vdbe::error::{ErrorView, ExecError};
use crate::vdbe::program::{Instruction, InstructionView};
use crate::vdbe::request;
use crate::vdbe::request::{Request, RequestView, RowView, TablePlace, TableRow};
use crate::vdbe::saturate;
use crate::vdbe::slot;
use crate::vdbe::slot::{
    CursorSlot, EphemeralState, EphemeralTableState, EphemeralTableView, EphemeralView,
    IndexReadState, IndexView, SlotView, TableCursorState, TableView,
};
use crate::vdbe::vm;
use crate::vdbe::vm::{Effect, Step, StepView, Vm, VmView};
use vstd::prelude::*;

pub use crate::vdbe::index::{
    found, idx_delete, idx_insert, idx_last, idx_le, idx_next, idx_prev, idx_rewind, idx_rowid,
    no_conflict, seek_index_eq,
};
pub use crate::vdbe::change::{
    create_index, create_table, create_view, delete, drop_index, drop_table, insert, new_rowid,
};

verus! {

/// A cursor of another kind than the operation works on.
pub open spec fn mismatch(opcode: Seq<char>, slot: i32, found: SlotView, expected: Seq<char>) ->
    ErrorView {
    ErrorView::CursorTypeMismatch { opcode, slot, found: found.kind(), expected }
}

pub(crate) fn type_mismatch(
    opcode: &'static str,
    slot: i32,
    found: &CursorSlot,
    expected: &'static str,
) -> (e: ExecError)
    ensures
        e@ == mismatch(opcode@, slot, found@, expected@),
{
    ExecError::CursorTypeMismatch { opcode, slot, found: found.kind(), expected }
}

pub(crate) fn malformed(opcode: &'static str, reason: &str) -> (e: ExecError)
    ensures
        e@ == vm::malformed(opcode@, reason@),
{
    ExecError::MalformedInstruction { opcode, reason: reason.to_owned() }
}

/// Putting back the cursor that is open changes nothing.
pub(crate) proof fn lemma_same_slot(m: VmView, slot: i32)
    ensures
        m.cursor_mut(slot) is Ok ==> m.with_slot(slot, m.cursor_mut(slot)->Ok_0) == m,
        m.cursor(slot) is Ok == m.cursor_mut(slot) is Ok,
        m.cursor(slot) is Ok ==> m.cursor(slot)->Ok_0 == m.cursor_mut(slot)->Ok_0,
{
    if m.cursor_mut(slot) is Ok {
        assert(m.with_slot(slot, m.cursor_mut(slot)->Ok_0).cursors =~= m.cursors);
    }
}

/// The root page an operand names.
pub open spec fn root_operand(p2: i32, opcode: Seq<char>) -> Result<u32, ErrorView> {
    if p2 >= 0 {
        Ok(p2 as u32)
    } else {
        Err(vm::malformed(opcode, "invalid root page "@ + text::signed_decimal(p2 as int)))
    }
}

fn root_page(p2: i32, opcode: &'static str) -> (r: Result<u32, ExecError>)
    ensures
        match r {
            Ok(p) => root_operand(p2, opcode@) == Ok::<u32, ErrorView>(p),
            Err(e) => root_operand(p2, opcode@) == Err::<u32, ErrorView>(e@),
        },
{
    if p2 >= 0 {
        Ok(p2 as u32)
    } else {
        let mut reason = "invalid root page ".to_owned();
        reason.append(text::signed_to_text(p2 as i64).as_str());
        Err(ExecError::MalformedInstruction { opcode, reason })
    }
}

/// A table cursor that was never moved.
pub open spec fn fresh_table(root_page: u32) -> SlotView {
    SlotView::Table(TableView { fresh: true, forced_null: false, root_page, current: None })
}

pub open spec fn open_read_effect(m: VmView, i: InstructionView) -> Effect {
    match (root_operand(i.p2, "OpenRead"@), m.db()) {
        (Err(e), _) => vm::failed(m, e),
        (_, Err(e)) => vm::failed(m, e),
        (Ok(root_page), Ok(_)) => vm::opened(
            m,
            i.p1,
            if i.p5 != 0 {
                SlotView::IndexRead(IndexView { fresh: true, root_page, current: None })
            } else {
                fresh_table(root_page)
            },
        ),
    }
}

/// `OpenRead`: opens a read cursor on `P2` (the table's root page) into cursor slot `P1`.
/// `P5` nonzero opens a secondary-index cursor instead of a table cursor.
pub fn open_read(vm: &mut Vm, instr: &Instruction) -> (r: Result<Step, ExecError>)
    requires
        old(vm).wf(),
    ensures
        final(vm).wf(),
        vm::outcome(final(vm)@, r) == open_read_effect(old(vm)@, instr@),
{
    let root_page = root_page(instr.p2, "OpenRead")?;
    let _ = vm.db()?;
    if instr.p5 != 0 {
        vm.set_cursor(instr.p1, CursorSlot::IndexRead(IndexReadState::new(root_page)))?;
        return Ok(Step::Next);
    }
    vm.set_cursor(instr.p1, CursorSlot::Table(TableCursorState::new(root_page)))?;
    Ok(Step::Next)
}

pub open spec fn open_write_effect(m: VmView, i: InstructionView) -> Effect {
    if !m.may_write() {
        vm::failed(m, ErrorView::NoDatabase { opcode: "OpenWrite"@ })
    } else {
        match root_operand(i.p2, "OpenWrite"@) {
            Err(e) => vm::failed(m, e),
            Ok(root_page) => vm::opened(
                m,
                i.p1,
                if i.p5 != 0 {
                    SlotView::IndexWrite { root_page }
                } else {
                    fresh_table(root_page)
                },
            ),
        }
    }
}

/// `OpenWrite`: opens a write-capable cursor into slot `P1` on root page `P2`. `P5` selects
/// the b-tree kind: `0` opens a table cursor, the same that `OpenRead` opens; nonzero opens
/// an index to write into. Requires a database that can be written.
pub fn open_write(vm: &mut Vm, instr: &Instruction) -> (r: Result<Step, ExecError>)
    requires
        old(vm).wf(),
    ensures
        final(vm).wf(),
        vm::outcome(final(vm)@, r) == open_write_effect(old(vm)@, instr@),
{
    let _ = vm.writer("OpenWrite")?;
    let root_page = root_page(instr.p2, "OpenWrite")?;
    if instr.p5 != 0 {
        vm.set_cursor(instr.p1, CursorSlot::IndexWrite { root_page })?;
        return Ok(Step::Next);
    }
    vm.set_cursor(instr.p1, CursorSlot::Table(TableCursorState::new(root_page)))?;
    Ok(Step::Next)
}

/// An index without keys.
pub open spec fn empty_index() -> EphemeralView {
    EphemeralView { keys: Set::empty(), sequence: 0, last_key: None }
}

/// A table without rows.
pub open spec fn empty_table() -> EphemeralTableView {
    EphemeralTableView { rows: Seq::empty(), pos: None, sequence: 1 }
}

pub open spec fn open_ephemeral_effect(m: VmView, i: InstructionView) -> Effect {
    vm::opened(
        m,
        i.p1,
        if i.p5 != 0 {
            SlotView::EphemeralTable(empty_table())
        } else {
            SlotView::Ephemeral(empty_index())
        },
    )
}

/// `OpenEphemeral`: opens an empty in-memory index into cursor slot `P1`, or with `P5`
/// nonzero an empty in-memory table.
pub fn open_ephemeral(vm: &mut Vm, instr: &Instruction) -> (r: Result<Step, ExecError>)
    requires
        old(vm).wf(),
    ensures
        final(vm).wf(),
        vm::outcome(final(vm)@, r) == open_ephemeral_effect(old(vm)@, instr@),
{
    if instr.p5 != 0 {
        vm.set_cursor(instr.p1, CursorSlot::EphemeralTable(EphemeralTableState::new()))?;
        return Ok(Step::Next);
    }
    vm.set_cursor(instr.p1, CursorSlot::Ephemeral(EphemeralState::new()))?;
    Ok(Step::Next)
}

/// `OpenPseudo`: opens a single-row pseudo-cursor into slot `P1` that re-presents register
/// `P2`'s record blob as a cursor row.
pub fn open_pseudo(vm: &mut Vm, instr: &Instruction) -> (r: Result<Step, ExecError>)
    requires
        old(vm).wf(),
    ensures
        final(vm).wf(),
        vm::outcome(final(vm)@, r) == vm::opened(
            old(vm)@,
            instr.p1,
            SlotView::Pseudo { register: instr.p2 },
        ),
{
    vm.set_cursor(instr.p1, CursorSlot::Pseudo { register: instr.p2 })?;
    Ok(Step::Next)
}

/// Asks for a table cursor to be moved; its forced NULL row ends.
pub open spec fn asked_to_move(m: VmView, slot: i32, t: TableView, place: TablePlace) -> Effect {
    vm::stepped(
        m.with_slot(slot, SlotView::Table(TableView { fresh: false, forced_null: false, ..t })),
        StepView::Await(
            RequestView::MoveTable { slot, fresh: t.fresh, root_page: t.root_page, place },
        ),
    )
}

/// Where a move puts the cursor of an in-memory table.
pub open spec fn moved_to(t: EphemeralTableView, place: TablePlace) -> Option<usize> {
    let at = match place {
        TablePlace::First => 0,
        TablePlace::Last => t.rows.len() - 1,
        _ => match t.pos {
            Some(p) => p + 1,
            None => 0,
        },
    };
    if 0 <= at < t.rows.len() {
        Some(at as usize)
    } else {
        None
    }
}

/// Moves cursor `P1`; jumps to `P2` where that leaves it on a row, or where it does not.
pub open spec fn move_effect(
    m: VmView,
    i: InstructionView,
    opcode: Seq<char>,
    place: TablePlace,
    jump_on_row: bool,
) -> Effect {
    match m.cursor_mut(i.p1) {
        Err(e) => vm::failed(m, e),
        Ok(SlotView::Table(t)) => asked_to_move(m, i.p1, t, place),
        Ok(SlotView::EphemeralTable(t)) => {
            let pos = moved_to(t, place);
            vm::stepped(
                m.with_slot(i.p1, SlotView::EphemeralTable(EphemeralTableView { pos, ..t })),
                control::jump_if((pos is Some) == jump_on_row, i.p2),
            )
        },
        Ok(other) => vm::failed(
            m,
            mismatch(opcode, i.p1, other, "table or ephemeral table cursor"@),
        ),
    }
}

fn move_cursor(
    vm: &mut Vm,
    instr: &Instruction,
    opcode: &'static str,
    place: TablePlace,
    jump_on_row: bool,
) -> (r: Result<Step, ExecError>)
    requires
        old(vm).wf(),
    ensures
        final(vm).wf(),
        vm::outcome(final(vm)@, r) == move_effect(
            old(vm)@,
            instr@,
            opcode@,
            place,
            jump_on_row,
        ),
{
    proof {
        lemma_same_slot(vm@, instr.p1);
    }
    match vm.cursor_mut(instr.p1)? {
        CursorSlot::Table(state) => {
            let root_page = state.root();
            let fresh = state.start_move();
            Ok(
                Step::Await(Request::MoveTable { slot: instr.p1, fresh, root_page, place }),
            )
        },
        CursorSlot::EphemeralTable(state) => {
            assert(state@.rows.len() == state.rows@.len());
            let len: usize = state.rows.len();
            let pos: Option<usize> = match place {
                TablePlace::First => if len == 0 {
                    None
                } else {
                    Some(0)
                },
                TablePlace::Last => if len == 0 {
                    None
                } else {
                    Some(len - 1)
                },
                _ => match state.pos {
                    Some(p) => if p < len && p + 1 < len {
                        Some(p + 1)
                    } else {
                        None
                    },
                    None => if len == 0 {
                        None
                    } else {
                        Some(0)
                    },
                },
            };
            state.pos = pos;
            Ok(take_jump(pos.is_some() == jump_on_row, instr.p2))
        },
        other => Err(type_mismatch(opcode, instr.p1, other, "table or ephemeral table cursor")),
    }
}

pub open spec fn rewind_effect(m: VmView, i: InstructionView) -> Effect {
    move_effect(m, i, "Rewind"@, TablePlace::First, false)
}

/// `Rewind`: positions cursor `P1` at its first row, jumping to `P2` if the table is empty.
/// Works against both a table and an in-memory ephemeral table.
pub fn rewind(vm: &mut Vm, instr: &Instruction) -> (r: Result<Step, ExecError>)
    requires
        old(vm).wf(),
    ensures
        final(vm).wf(),
        vm::outcome(final(vm)@, r) == rewind_effect(old(vm)@, instr@),
{
    move_cursor(vm, instr, "Rewind", TablePlace::First, false)
}

pub open spec fn last_effect(m: VmView, i: InstructionView) -> Effect {
    move_effect(m, i, "Last"@, TablePlace::Last, false)
}

/// `Last`: positions cursor `P1` at its last row (highest rowid), jumping to `P2` if the
/// table is empty. Works against both a table and an in-memory ephemeral table.
pub fn last(vm: &mut Vm, instr: &Instruction) -> (r: Result<Step, ExecError>)
    requires
        old(vm).wf(),
    ensures
        final(vm).wf(),
        vm::outcome(final(vm)@, r) == last_effect(old(vm)@, instr@),
{
    move_cursor(vm, instr, "Last", TablePlace::Last, false)
}

pub open spec fn next_effect(m: VmView, i: InstructionView) -> Effect {
    move_effect(m, i, "Next"@, TablePlace::Next, true)
}

/// `Next`: advances cursor `P1` to the following row, jumping to `P2` (typically back to the
/// loop body's start) if another row was found, and falling through (ending the loop) once
/// exhausted. Works against both a table and an in-memory ephemeral table.
pub fn next(vm: &mut Vm, instr: &Instruction) -> (r: Result<Step, ExecError>)
    requires
        old(vm).wf(),
    ensures
        final(vm).wf(),
        vm::outcome(final(vm)@, r) == next_effect(old(vm)@, instr@),
{
    move_cursor(vm, instr, "Next", TablePlace::Next, true)
}

/// Puts table cursor `P1` on the row a move found; jumps to `P2` where there is one, or
/// where there is none.
pub open spec fn landed_effect(
    m: VmView,
    i: InstructionView,
    opcode: Seq<char>,
    row: Option<RowView>,
    jump_on_row: bool,
) -> Effect {
    match m.cursor_mut(i.p1) {
        Err(e) => vm::failed(m, e),
        Ok(SlotView::Table(t)) => vm::stepped(
            m.with_slot(i.p1, SlotView::Table(TableView { current: row, ..t })),
            control::jump_if((row is Some) == jump_on_row, i.p2),
        ),
        Ok(other) => vm::failed(m, mismatch(opcode, i.p1, other, "table cursor"@)),
    }
}

/// `Rewind`, `Last`, `Next` and `SeekRowid` with the row their move found.
pub fn landed(
    vm: &mut Vm,
    instr: &Instruction,
    opcode: &'static str,
    row: Option<TableRow>,
    jump_on_row: bool,
) -> (r: Result<Step, ExecError>)
    requires
        old(vm).wf(),
    ensures
        final(vm).wf(),
        vm::outcome(final(vm)@, r) == landed_effect(
            old(vm)@,
            instr@,
            opcode@,
            request::row_view(row),
            jump_on_row,
        ),
{
    proof {
        lemma_same_slot(vm@, instr.p1);
    }
    let there = row.is_some();
    match vm.cursor_mut(instr.p1)? {
        CursorSlot::Table(state) => {
            state.set_current(row);
            Ok(take_jump(there == jump_on_row, instr.p2))
        },
        other => Err(type_mismatch(opcode, instr.p1, other, "table cursor")),
    }
}

/// What a record's column comes to for an operation.
pub open spec fn decoded(opcode: Seq<char>, c: Result<ValueView, RecordError>) -> Result<
    ValueView,
    ErrorView,
> {
    match c {
        Ok(v) => Ok(v),
        Err(e) => Err(vm::malformed(opcode, e.described())),
    }
}

pub(crate) fn record_failure(opcode: &'static str, e: RecordError) -> (r: ExecError)
    ensures
        r@ == vm::malformed(opcode@, e.described()),
{
    ExecError::MalformedInstruction { opcode, reason: e.describe() }
}

pub open spec fn no_row(opcode: Seq<char>) -> ErrorView {
    vm::malformed(opcode, "cursor has no current row"@)
}

/// The row an in-memory table's cursor stands on.
pub open spec fn ephemeral_row(t: EphemeralTableView) -> Option<(i64, Seq<ValueView>)> {
    match t.pos {
        Some(p) => if p < t.rows.len() {
            Some(t.rows[p as int])
        } else {
            None
        },
        None => None,
    }
}

/// Column `idx` of cursor `slot`'s current row. NULL beyond the row's last column, and in
/// every column of a cursor that is forced to.
pub open spec fn row_column(m: VmView, slot: i32, idx: int, opcode: Seq<char>) -> Result<
    ValueView,
    ErrorView,
> {
    match m.cursor(slot) {
        Err(e) => Err(e),
        Ok(SlotView::Pseudo { register }) => match m.register(register) {
            Err(e) => Err(e),
            Ok(ValueView::Blob(b)) => decoded(
                opcode,
                decode::column_of(b, idx, TextEncoding::Utf8),
            ),
            Ok(other) => Err(
                vm::malformed(
                    opcode,
                    "pseudo-cursor register holds "@ + debug::value_text(other)
                        + ", not a record blob"@,
                ),
            ),
        },
        Ok(SlotView::EphemeralTable(t)) => match ephemeral_row(t) {
            None => Err(no_row(opcode)),
            Some((_, columns)) => Ok(
                if idx < columns.len() {
                    columns[idx]
                } else {
                    ValueView::Null
                },
            ),
        },
        Ok(SlotView::Table(t)) => if t.forced_null {
            Ok(ValueView::Null)
        } else {
            match t.current {
                None => Err(no_row(opcode)),
                Some(row) => decoded(
                    opcode,
                    decode::column_of(row.payload, idx, TextEncoding::Utf8),
                ),
            }
        },
        Ok(SlotView::IndexRead(t)) => match t.current {
            None => Err(no_row(opcode)),
            Some(payload) => decoded(opcode, decode::column_of(payload, idx, TextEncoding::Utf8)),
        },
        Ok(other) => Err(
            mismatch(
                opcode,
                slot,
                other,
                "table, pseudo, ephemeral table, or index read cursor"@,
            ),
        ),
    }
}

fn read_in_memory(state: &EphemeralTableState, idx: usize, opcode: &'static str) -> (r: Result<
    Value,
    ExecError,
>)
    ensures
        match (r, ephemeral_row(state@)) {
            (Err(e), None) => e@ == no_row(opcode@),
            (Ok(v), Some((_, columns))) => v@ == (if idx < columns.len() {
                columns[idx as int]
            } else {
                ValueView::Null
            }),
            _ => false,
        },
{
    match state.pos {
        Some(p) => {
            if p < state.rows.len() {
                assert(state@.rows[p as int] == (state.rows@[p as int].0, value::values(
                    state.rows@[p as int].1@,
                )));
                let columns = &state.rows[p].1;
                if idx < columns.len() {
                    Ok(columns[idx].copy())
                } else {
                    Ok(Value::Null)
                }
            } else {
                Err(malformed(opcode, "cursor has no current row"))
            }
        },
        None => Err(malformed(opcode, "cursor has no current row")),
    }
}

fn read_decoded(opcode: &'static str, c: Option<Result<Value, RecordError>>) -> (r: Result<
    Value,
    ExecError,
>)
    ensures
        match (r, c) {
            (Err(e), None) => e@ == no_row(opcode@),
            (Ok(v), Some(c)) => decoded(opcode@, slot::column_seen(c)) == Ok::<
                ValueView,
                ErrorView,
            >(v@),
            (Err(e), Some(c)) => decoded(opcode@, slot::column_seen(c)) == Err::<
                ValueView,
                ErrorView,
            >(e@),
            _ => false,
        },
{
    match c {
        None => Err(malformed(opcode, "cursor has no current row")),
        Some(Ok(v)) => Ok(v),
        Some(Err(e)) => Err(record_failure(opcode, e)),
    }
}

/// Reads column `idx` of cursor `slot`'s current row. For a table, index or pseudo cursor
/// this decodes only column `idx` out of the row's record payload rather than the whole
/// record.
fn read_row_column(vm: &mut Vm, slot: i32, idx: usize, opcode: &'static str) -> (r: Result<
    Value,
    ExecError,
>)
    requires
        old(vm).wf(),
    ensures
        final(vm).wf(),
        final(vm)@ == old(vm)@,
        match r {
            Ok(v) => row_column(old(vm)@, slot, idx as int, opcode@) == Ok::<ValueView, ErrorView>(
                v@,
            ),
            Err(e) => row_column(old(vm)@, slot, idx as int, opcode@) == Err::<
                ValueView,
                ErrorView,
            >(e@),
        },
{
    proof {
        lemma_same_slot(vm@, slot);
    }
    match vm.cursor(slot)? {
        CursorSlot::Pseudo { register } => {
            return match vm.register(*register)? {
                Value::Blob(bytes) => match decode::decode_column(
                    bytes.as_slice(),
                    idx,
                    TextEncoding::Utf8,
                ) {
                    Ok(v) => Ok(v),
                    Err(e) => Err(record_failure(opcode, e)),
                },
                other => {
                    let mut reason = "pseudo-cursor register holds ".to_owned();
                    reason.append(debug::show_value(other).as_str());
                    reason.append(", not a record blob");
                    Err(ExecError::MalformedInstruction { opcode, reason })
                },
            };
        },
        CursorSlot::EphemeralTable(state) => {
            return read_in_memory(state, idx, opcode);
        },
        CursorSlot::Table(_) | CursorSlot::IndexRead(_) => {},
        other => {
            return Err(
                type_mismatch(
                    opcode,
                    slot,
                    other,
                    "table, pseudo, ephemeral table, or index read cursor",
                ),
            );
        },
    }
    match vm.cursor_mut(slot)? {
        CursorSlot::Table(state) => {
            if state.is_forced_null() {
                return Ok(Value::Null);
            }
            let c = state.column(idx, TextEncoding::Utf8);
            read_decoded(opcode, c)
        },
        CursorSlot::IndexRead(state) => {
            let c = state.column(idx, TextEncoding::Utf8);
            read_decoded(opcode, c)
        },
        _ => Ok(Value::Null),
    }
}

pub open spec fn column_effect(m: VmView, i: InstructionView) -> Effect {
    if i.p2 < 0 {
        vm::failed(
            m,
            vm::malformed(
                "Column"@,
                "negative column index "@ + text::signed_decimal(i.p2 as int),
            ),
        )
    } else {
        match row_column(m, i.p1, i.p2 as int, "Column"@) {
            Err(e) => vm::failed(m, e),
            Ok(v) => vm::stored(m, i.p3, v, StepView::Next),
        }
    }
}

/// `Column`: reads column `P2` of cursor `P1`'s current row into register `P3`. A table
/// cursor forced to a NULL row always reads as NULL, regardless of `P2`. Works on index
/// cursors too.
///
/// This does not substitute the rowid-alias column (`INTEGER PRIMARY KEY`, stored as NULL in
/// the record) with the cursor's actual rowid.
pub fn column(vm: &mut Vm, instr: &Instruction) -> (r: Result<Step, ExecError>)
    requires
        old(vm).wf(),
    ensures
        final(vm).wf(),
        vm::outcome(final(vm)@, r) == column_effect(old(vm)@, instr@),
{
    if instr.p2 < 0 {
        let mut reason = "negative column index ".to_owned();
        reason.append(text::signed_to_text(instr.p2 as i64).as_str());
        return Err(ExecError::MalformedInstruction { opcode: "Column", reason });
    }
    let value = read_row_column(vm, instr.p1, instr.p2 as usize, "Column")?;
    vm.set_register(instr.p3, value)?;
    Ok(Step::Next)
}

pub open spec fn rowid_effect(m: VmView, i: InstructionView) -> Effect {
    match m.cursor(i.p1) {
        Err(e) => vm::failed(m, e),
        Ok(SlotView::Table(t)) => if t.forced_null {
            vm::stored(m, i.p2, ValueView::Null, StepView::Next)
        } else {
            match t.current {
                None => vm::failed(m, no_row("Rowid"@)),
                Some(row) => vm::stored(m, i.p2, ValueView::Integer(row.rowid), StepView::Next),
            }
        },
        Ok(SlotView::EphemeralTable(t)) => match ephemeral_row(t) {
            None => vm::failed(m, no_row("Rowid"@)),
            Some((rowid, _)) => vm::stored(m, i.p2, ValueView::Integer(rowid), StepView::Next),
        },
        Ok(other) => vm::failed(
            m,
            mismatch("Rowid"@, i.p1, other, "table or ephemeral table cursor"@),
        ),
    }
}

/// `Rowid`: writes cursor `P1`'s current rowid into register `P2` (NULL if the cursor is
/// forced to a NULL row).
pub fn rowid(vm: &mut Vm, instr: &Instruction) -> (r: Result<Step, ExecError>)
    requires
        old(vm).wf(),
    ensures
        final(vm).wf(),
        vm::outcome(final(vm)@, r) == rowid_effect(old(vm)@, instr@),
{
    let value = match vm.cursor(instr.p1)? {
        CursorSlot::Table(state) => {
            if state.is_forced_null() {
                Value::Null
            } else {
                match state.rowid() {
                    None => {
                        return Err(malformed("Rowid", "cursor has no current row"));
                    },
                    Some(n) => Value::Integer(n),
                }
            }
        },
        CursorSlot::EphemeralTable(state) => {
            match state.pos {
                Some(p) => {
                    if p < state.rows.len() {
                        assert(state@.rows[p as int].0 == state.rows@[p as int].0);
                        Value::Integer(state.rows[p].0)
                    } else {
                        return Err(malformed("Rowid", "cursor has no current row"));
                    }
                },
                None => {
                    return Err(malformed("Rowid", "cursor has no current row"));
                },
            }
        },
        other => {
            return Err(
                type_mismatch("Rowid", instr.p1, other, "table or ephemeral table cursor"),
            );
        },
    };
    vm.set_register(instr.p2, value)?;
    Ok(Step::Next)
}

pub open spec fn seek_rowid_effect(m: VmView, i: InstructionView) -> Effect {
    match m.register(i.p3) {
        Err(e) => vm::failed(m, e),
        Ok(ValueView::Integer(n)) => match m.cursor_mut(i.p1) {
            Err(e) => vm::failed(m, e),
            Ok(SlotView::Table(t)) => asked_to_move(m, i.p1, t, TablePlace::Rowid(n)),
            Ok(other) => vm::failed(m, mismatch("SeekRowid"@, i.p1, other, "table cursor"@)),
        },
        Ok(other) => vm::failed(
            m,
            vm::malformed(
                "SeekRowid"@,
                "target rowid register holds "@ + debug::value_text(other)
                    + ", not an integer"@,
            ),
        ),
    }
}

/// `SeekRowid`: positions cursor `P1` at the row whose rowid equals register `P3`, jumping
/// to `P2` if no such row exists.
pub fn seek_rowid(vm: &mut Vm, instr: &Instruction) -> (r: Result<Step, ExecError>)
    requires
        old(vm).wf(),
    ensures
        final(vm).wf(),
        vm::outcome(final(vm)@, r) == seek_rowid_effect(old(vm)@, instr@),
{
    proof {
        lemma_same_slot(vm@, instr.p1);
    }
    let target: i64 = match vm.register(instr.p3)? {
        Value::Integer(n) => *n,
        other => {
            let mut reason = "target rowid register holds ".to_owned();
            reason.append(debug::show_value(other).as_str());
            reason.append(", not an integer");
            return Err(ExecError::MalformedInstruction { opcode: "SeekRowid", reason });
        },
    };
    match vm.cursor_mut(instr.p1)? {
        CursorSlot::Table(state) => {
            let root_page = state.root();
            let fresh = state.start_move();
            Ok(
                Step::Await(
                    Request::MoveTable {
                        slot: instr.p1,
                        fresh,
                        root_page,
                        place: TablePlace::Rowid(target),
                    },
                ),
            )
        },
        other => Err(type_mismatch("SeekRowid", instr.p1, other, "table cursor")),
    }
}

pub open spec fn null_row_effect(m: VmView, i: InstructionView) -> Effect {
    match m.cursor_mut(i.p1) {
        Err(e) => vm::failed(m, e),
        Ok(SlotView::Table(t)) => vm::stepped(
            m.with_slot(
                i.p1,
                SlotView::Table(TableView { forced_null: true, current: None, ..t }),
            ),
            StepView::Next,
        ),
        Ok(other) => vm::failed(m, mismatch("NullRow"@, i.p1, other, "table cursor"@)),
    }
}

/// `NullRow`: forces cursor `P1` to read as an all-NULL row until its next real positioning
/// (`Rewind`/`Last`/`Next`/`SeekRowid`).
pub fn null_row(vm: &mut Vm, instr: &Instruction) -> (r: Result<Step, ExecError>)
    requires
        old(vm).wf(),
    ensures
        final(vm).wf(),
        vm::outcome(final(vm)@, r) == null_row_effect(old(vm)@, instr@),
{
    proof {
        lemma_same_slot(vm@, instr.p1);
    }
    match vm.cursor_mut(instr.p1)? {
        CursorSlot::Table(state) => {
            state.force_null();
            Ok(Step::Next)
        },
        other => Err(type_mismatch("NullRow", instr.p1, other, "table cursor")),
    }
}

pub open spec fn sequence_effect(m: VmView, i: InstructionView) -> Effect {
    match m.cursor_mut(i.p1) {
        Err(e) => vm::failed(m, e),
        Ok(SlotView::Ephemeral(t)) => vm::stored(
            m.with_slot(
                i.p1,
                SlotView::Ephemeral(
                    EphemeralView { sequence: saturate::clamped(t.sequence + 1), ..t },
                ),
            ),
            i.p2,
            ValueView::Integer(t.sequence),
            StepView::Next,
        ),
        Ok(SlotView::EphemeralTable(t)) => vm::stored(
            m.with_slot(
                i.p1,
                SlotView::EphemeralTable(
                    EphemeralTableView { sequence: saturate::clamped(t.sequence + 1), ..t },
                ),
            ),
            i.p2,
            ValueView::Integer(t.sequence),
            StepView::Next,
        ),
        Ok(other) => vm::failed(
            m,
            mismatch("Sequence"@, i.p1, other, "ephemeral or ephemeral table cursor"@),
        ),
    }
}

/// `Sequence`: writes ephemeral cursor `P1`'s next monotonic counter value into register
/// `P2` (independent of the dedup key).
pub fn sequence(vm: &mut Vm, instr: &Instruction) -> (r: Result<Step, ExecError>)
    requires
        old(vm).wf(),
    ensures
        final(vm).wf(),
        vm::outcome(final(vm)@, r) == sequence_effect(old(vm)@, instr@),
{
    proof {
        lemma_same_slot(vm@, instr.p1);
    }
    let n: i64 = match vm.cursor_mut(instr.p1)? {
        CursorSlot::Ephemeral(state) => state.take_number(),
        CursorSlot::EphemeralTable(state) => {
            let n: i64 = state.sequence;
            state.sequence = saturate::plus(n, 1);
            n
        },
        other => {
            return Err(
                type_mismatch("Sequence", instr.p1, other, "ephemeral or ephemeral table cursor"),
            );
        },
    };
    vm.set_register(instr.p2, Value::Integer(n))?;
    Ok(Step::Next)
}

/// A cursor forced to a NULL row reads NULL in every column and as its rowid.
pub proof fn law_forced_null_reads_null(m: VmView, i: InstructionView, idx: int)
    requires
        m.cursor(i.p1) matches Ok(SlotView::Table(_)),
    ensures
        row_column(null_row_effect(m, i).vm, i.p1, idx, "Column"@) == Ok::<ValueView, ErrorView>(
            ValueView::Null,
        ),
        vm::in_range(i.p2) ==> rowid_effect(null_row_effect(m, i).vm, i).vm.held(i.p2 as int)
            == ValueView::Null,
{
}

/// A move ends the forced NULL row: what is read behind it is the row it found.
pub proof fn law_move_ends_forced_null(
    m: VmView,
    i: InstructionView,
    place: TablePlace,
    row: RowView,
    idx: int,
    t: TableView,
)
    requires
        m.cursor(i.p1) == Ok::<SlotView, ErrorView>(SlotView::Table(t)),
    ensures
        row_column(
            landed_effect(asked_to_move(m, i.p1, t, place).vm, i, "Next"@, Some(row), true).vm,
            i.p1,
            idx,
            "Column"@,
        ) == decoded("Column"@, decode::column_of(row.payload, idx, TextEncoding::Utf8)),
{
}

/// The counter hands out each number once, one after the other.
pub proof fn law_sequence_counts(m: VmView, i: InstructionView, n: EphemeralView)
    requires
        m.cursor(i.p1) == Ok::<SlotView, ErrorView>(SlotView::Ephemeral(n)),
        vm::in_range(i.p2),
        n.sequence < i64::MAX,
    ensures
        sequence_effect(m, i).vm.held(i.p2 as int) == ValueView::Integer(n.sequence),
        sequence_effect(sequence_effect(m, i).vm, i).vm.held(i.p2 as int) == ValueView::Integer(
            (n.sequence + 1) as i64,
        ),
{
}

} // verus!
