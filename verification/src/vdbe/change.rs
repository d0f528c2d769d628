//! Opcodes that write: rows, rowids, and the schema.
//!
//! - `Insert(p1=cursor, p2=register holding the rowid, p3=register holding the record)`
//! - `Delete(p1=cursor)`
//! - `NewRowid(p1=cursor, p2=dest register, p4=Str(table) with p5 nonzero for AUTOINCREMENT)`
//!
//! A schema statement is one instruction: its work is asked for piece by piece, in a fixed
//! order, and the last piece is the schema cookie.
use crate::record::decode;
use crate::record::value;
use crate::record::value::{TextEncoding, Value, ValueView};
use crate::vdbe::cursor;
use crate::vdbe::cursor::{malformed, mismatch, no_row, record_failure, type_mismatch};
use crate::vdbe::debug;
use crate::vdbe::error;
use crate::vdbe::error::{ErrorView, ExecError};
use crate::vdbe::program;
use crate::vdbe::program::{opcode_name, Instruction, InstructionView, P4View, P4};
use crate::vdbe::request;
use crate::vdbe::request::{
    MasterEntry, MasterEntryView, Reply, ReplyView, Request, RequestView, RowView, TableRow,
};
use crate::vdbe::saturate;
use crate::vdbe::slot;
use crate::vdbe::slot::{
    CursorSlot, EphemeralTableView, EphemeralView, SlotView, TableView, MAX_EPHEMERAL_ROWS,
};
use crate::vdbe::vm;
use crate::vdbe::vm::{Effect, Step, StepView, Vm, VmView};
use vstd::prelude::*;

verus! {

pub open spec fn no_database(opcode: Seq<char>) -> ErrorView {
    ErrorView::NoDatabase { opcode }
}

pub open spec fn delete_effect(m: VmView, i: InstructionView) -> Effect {
    match m.cursor(i.p1) {
        Err(e) => vm::failed(m, e),
        Ok(SlotView::Table(t)) => match t.current {
            None => vm::failed(m, no_row("Delete"@)),
            Some(row) => if m.may_write() {
                vm::stepped(
                    m,
                    StepView::Await(
                        RequestView::DeleteRow { root_page: t.root_page, rowid: row.rowid },
                    ),
                )
            } else {
                vm::failed(m, no_database("Delete"@))
            },
        },
        Ok(SlotView::Ephemeral(t)) => vm::stepped(
            m.with_slot(
                i.p1,
                SlotView::Ephemeral(
                    EphemeralView {
                        keys: match t.last_key {
                            Some(k) => t.keys.remove(k),
                            None => t.keys,
                        },
                        last_key: None,
                        ..t
                    },
                ),
            ),
            StepView::Next,
        ),
        Ok(other) => vm::failed(
            m,
            mismatch("Delete"@, i.p1, other, "ephemeral or table cursor"@),
        ),
    }
}

/// `Delete`: for an ephemeral cursor, removes cursor `P1`'s most recently probed or inserted
/// entry. For a table cursor, deletes the row at the cursor's current position from the
/// table b-tree.
pub fn delete(vm: &mut Vm, instr: &Instruction) -> (r: Result<Step, ExecError>)
    requires
        old(vm).wf(),
    ensures
        final(vm).wf(),
        vm::outcome(final(vm)@, r) == delete_effect(old(vm)@, instr@),
{
    proof {
        cursor::lemma_same_slot(vm@, instr.p1);
    }
    match vm.cursor(instr.p1)? {
        CursorSlot::Table(state) => {
            let root_page = state.root();
            let rowid: i64 = match state.rowid() {
                Some(n) => n,
                None => {
                    return Err(malformed("Delete", "cursor has no current row"));
                },
            };
            let _ = vm.writer("Delete")?;
            return Ok(Step::Await(Request::DeleteRow { root_page, rowid }));
        },
        CursorSlot::Ephemeral(_) => {},
        other => {
            return Err(type_mismatch("Delete", instr.p1, other, "ephemeral or table cursor"));
        },
    }
    match vm.cursor_mut(instr.p1)? {
        CursorSlot::Ephemeral(state) => {
            state.remove_last();
            Ok(Step::Next)
        },
        _ => Ok(Step::Next),
    }
}

/// The row the cursor was on is gone: it stands on none.
pub open spec fn deleted_effect(m: VmView, i: InstructionView) -> Effect {
    match m.cursor_mut(i.p1) {
        Err(e) => vm::failed(m, e),
        Ok(SlotView::Table(t)) => vm::stepped(
            m.with_slot(i.p1, SlotView::Table(TableView { current: None, ..t })),
            StepView::Next,
        ),
        Ok(_) => vm::stepped(m, StepView::Next),
    }
}

/// `Delete` once the row is deleted.
pub fn deleted(vm: &mut Vm, instr: &Instruction) -> (r: Result<Step, ExecError>)
    requires
        old(vm).wf(),
    ensures
        final(vm).wf(),
        vm::outcome(final(vm)@, r) == deleted_effect(old(vm)@, instr@),
{
    proof {
        cursor::lemma_same_slot(vm@, instr.p1);
    }
    match vm.cursor_mut(instr.p1)? {
        CursorSlot::Table(state) => {
            state.set_current(None);
            Ok(Step::Next)
        },
        _ => Ok(Step::Next),
    }
}

/// The text encoding of the database, or UTF-8 without one.
pub open spec fn row_encoding(m: VmView) -> TextEncoding {
    match m.database {
        Some(d) => d.encoding,
        None => TextEncoding::Utf8,
    }
}

pub open spec fn insert_effect(m: VmView, i: InstructionView) -> Effect {
    match (m.register(i.p2), m.register(i.p3)) {
        (Err(e), _) => vm::failed(m, e),
        (Ok(ValueView::Integer(rowid)), Err(e)) => vm::failed(m, e),
        (Ok(ValueView::Integer(rowid)), Ok(ValueView::Blob(payload))) => match m.cursor(i.p1) {
            Err(e) => vm::failed(m, e),
            Ok(SlotView::EphemeralTable(t)) => match decode::row_of(payload, row_encoding(m)) {
                Err(e) => vm::failed(m, vm::malformed("Insert"@, e.described())),
                Ok(columns) => if t.rows.len() >= MAX_EPHEMERAL_ROWS {
                    vm::failed(
                        m,
                        ErrorView::EphemeralRowLimitExceeded {
                            opcode: "Insert"@,
                            limit: MAX_EPHEMERAL_ROWS,
                        },
                    )
                } else {
                    vm::stepped(
                        m.with_slot(
                            i.p1,
                            SlotView::EphemeralTable(
                                EphemeralTableView { rows: t.rows.push((rowid, columns)), ..t },
                            ),
                        ),
                        StepView::Next,
                    )
                },
            },
            Ok(SlotView::Table(t)) => if m.may_write() {
                vm::stepped(
                    m,
                    StepView::Await(
                        RequestView::InsertRow { root_page: t.root_page, rowid, payload },
                    ),
                )
            } else {
                vm::failed(m, no_database("Insert"@))
            },
            Ok(other) => vm::failed(m, mismatch("Insert"@, i.p1, other, "table cursor"@)),
        },
        (Ok(ValueView::Integer(_)), Ok(other)) => vm::failed(
            m,
            vm::malformed(
                "Insert"@,
                "record register holds "@ + debug::value_text(other) + ", not a blob"@,
            ),
        ),
        (Ok(other), _) => vm::failed(
            m,
            vm::malformed(
                "Insert"@,
                "rowid register holds "@ + debug::value_text(other) + ", not an integer"@,
            ),
        ),
    }
}

/// `Insert`: inserts a row into the table that cursor `P1` is open on, or appends it to an
/// in-memory ephemeral table. `P2` holds the row's rowid (an integer register) and `P3` the
/// already-encoded record. Every insert is an unconditional add.
pub fn insert(vm: &mut Vm, instr: &Instruction) -> (r: Result<Step, ExecError>)
    requires
        old(vm).wf(),
    ensures
        final(vm).wf(),
        vm::outcome(final(vm)@, r) == insert_effect(old(vm)@, instr@),
{
    proof {
        cursor::lemma_same_slot(vm@, instr.p1);
    }
    let rowid: i64 = match vm.register(instr.p2)? {
        Value::Integer(n) => *n,
        other => {
            let mut reason = "rowid register holds ".to_owned();
            reason.append(debug::show_value(other).as_str());
            reason.append(", not an integer");
            return Err(ExecError::MalformedInstruction { opcode: "Insert", reason });
        },
    };
    let payload: Vec<u8> = match vm.register(instr.p3)? {
        Value::Blob(bytes) => value::copy_bytes(bytes),
        other => {
            let mut reason = "record register holds ".to_owned();
            reason.append(debug::show_value(other).as_str());
            reason.append(", not a blob");
            return Err(ExecError::MalformedInstruction { opcode: "Insert", reason });
        },
    };
    match vm.cursor(instr.p1)? {
        CursorSlot::EphemeralTable(_) => {},
        CursorSlot::Table(state) => {
            let root_page = state.root();
            let _ = vm.writer("Insert")?;
            return Ok(Step::Await(Request::InsertRow { root_page, rowid, payload }));
        },
        other => {
            return Err(type_mismatch("Insert", instr.p1, other, "table cursor"));
        },
    }
    let encoding = match vm.db() {
        Ok(d) => d.encoding,
        Err(_) => TextEncoding::Utf8,
    };
    let values = match decode::decode_record(payload.as_slice(), encoding) {
        Ok(vs) => vs,
        Err(e) => {
            return Err(record_failure("Insert", e));
        },
    };
    match vm.cursor_mut(instr.p1)? {
        CursorSlot::EphemeralTable(state) => {
            assert(state@.rows.len() == state.rows@.len());
            if state.rows.len() >= MAX_EPHEMERAL_ROWS {
                return Err(
                    ExecError::EphemeralRowLimitExceeded {
                        opcode: "Insert",
                        limit: MAX_EPHEMERAL_ROWS,
                    },
                );
            }
            let ghost before = state.rows@;
            let ghost columns = value::values(values@);
            state.rows.push((rowid, values));
            assert(slot::keyed_rows(state.rows@) =~= slot::keyed_rows(before).push(
                (rowid, columns),
            ));
            Ok(Step::Next)
        },
        _ => Ok(Step::Next),
    }
}

pub open spec fn new_rowid_effect(m: VmView, i: InstructionView) -> Effect {
    match m.cursor_mut(i.p1) {
        Err(e) => vm::failed(m, e),
        Ok(SlotView::Table(t)) => match m.db() {
            Err(e) => vm::failed(m, e),
            Ok(_) => vm::stepped(
                m,
                StepView::Await(RequestView::LastRow { root_page: t.root_page }),
            ),
        },
        Ok(other) => vm::failed(m, mismatch("NewRowid"@, i.p1, other, "table cursor"@)),
    }
}

/// `NewRowid`: computes a fresh rowid for table cursor `P1` (one more than the highest, or
/// `1` for an empty table) and writes it to register `P2`. When `P5` is nonzero and `P4`
/// carries the table's name, the table's sequence counter is consulted and moved up too, so
/// that a rowid is never handed out twice even after its row is deleted.
pub fn new_rowid(vm: &mut Vm, instr: &Instruction) -> (r: Result<Step, ExecError>)
    requires
        old(vm).wf(),
    ensures
        final(vm).wf(),
        vm::outcome(final(vm)@, r) == new_rowid_effect(old(vm)@, instr@),
{
    proof {
        cursor::lemma_same_slot(vm@, instr.p1);
    }
    let root_page: u32 = match vm.cursor_mut(instr.p1)? {
        CursorSlot::Table(state) => state.root(),
        other => {
            return Err(type_mismatch("NewRowid", instr.p1, other, "table cursor"));
        },
    };
    let _ = vm.db()?;
    Ok(Step::Await(Request::LastRow { root_page }))
}

/// The name of the table whose sequence counter an instruction consults.
pub open spec fn sequence_table(i: InstructionView) -> Result<Seq<char>, ErrorView> {
    match i.p4 {
        P4View::Str(name) => Ok(name),
        other => Err(
            vm::malformed(
                "NewRowid"@,
                "AUTOINCREMENT requested (P5 nonzero) but P4 is not a table-name string, got "@
                    + debug::operand_text(other),
            ),
        ),
    }
}

fn table_of(instr: &Instruction) -> (r: Result<String, ExecError>)
    ensures
        match r {
            Ok(s) => sequence_table(instr@) == Ok::<Seq<char>, ErrorView>(s@),
            Err(e) => sequence_table(instr@) == Err::<Seq<char>, ErrorView>(e@),
        },
{
    match &instr.p4 {
        P4::Str(name) => Ok(name.clone()),
        other => {
            let mut reason =
                "AUTOINCREMENT requested (P5 nonzero) but P4 is not a table-name string, got ".to_owned();
            reason.append(debug::show_operand(other).as_str());
            Err(ExecError::MalformedInstruction { opcode: "NewRowid", reason })
        },
    }
}

/// The highest rowid of a table: zero where it is empty.
pub open spec fn highest_rowid(row: Option<RowView>) -> i64 {
    match row {
        Some(r) => r.rowid,
        None => 0,
    }
}

pub open spec fn last_row_effect(m: VmView, i: InstructionView, row: Option<RowView>) -> Effect {
    let highest = highest_rowid(row);
    if i.p5 != 0 {
        match sequence_table(i) {
            Err(e) => vm::failed(m, e),
            Ok(_) => if m.may_write() {
                vm::stepped(m, StepView::Await(RequestView::EnsureSequenceTable { highest }))
            } else {
                vm::failed(m, no_database("NewRowid"@))
            },
        }
    } else {
        vm::stored(m, i.p2, ValueView::Integer(saturate::clamped(highest + 1)), StepView::Next)
    }
}

/// `NewRowid` with the table's last row.
pub fn last_row_found(vm: &mut Vm, instr: &Instruction, row: Option<TableRow>) -> (r: Result<
    Step,
    ExecError,
>)
    requires
        old(vm).wf(),
    ensures
        final(vm).wf(),
        vm::outcome(final(vm)@, r) == last_row_effect(
            old(vm)@,
            instr@,
            request::row_view(row),
        ),
{
    let highest: i64 = match &row {
        Some(r) => r.rowid,
        None => 0,
    };
    if instr.p5 != 0 {
        let _ = table_of(instr)?;
        let _ = vm.writer("NewRowid")?;
        return Ok(Step::Await(Request::EnsureSequenceTable { highest }));
    }
    vm.set_register(instr.p2, Value::Integer(saturate::plus(highest, 1)))?;
    Ok(Step::Next)
}

/// A row of the sequence table records `table`'s counter.
pub open spec fn records_counter(columns: Seq<ValueView>, table: Seq<char>) -> bool {
    columns.len() >= 2 && columns[0] == ValueView::Text(table) && columns[1] is Integer
}

/// The counter of `table` among the rows from `k` on: that of the first row that records it,
/// or zero. Rows that cannot be read, and a failure to read on, count only before it.
pub open spec fn tracked_counter(
    payloads: Seq<Seq<u8>>,
    k: int,
    failure: Option<Seq<char>>,
    encoding: TextEncoding,
    table: Seq<char>,
) -> Result<i64, ErrorView>
    decreases payloads.len() - k,
{
    if k < 0 || k >= payloads.len() {
        match failure {
            Some(reason) => Err(vm::malformed("NewRowid"@, reason)),
            None => Ok(0),
        }
    } else {
        match decode::row_of(payloads[k], encoding) {
            Err(e) => Err(vm::malformed("NewRowid"@, e.described())),
            Ok(columns) => if records_counter(columns, table) {
                Ok(columns[1]->Integer_0)
            } else {
                tracked_counter(payloads, k + 1, failure, encoding, table)
            },
        }
    }
}

fn counter_in(columns: &Vec<Value>, table: &String) -> (r: Option<i64>)
    ensures
        match r {
            Some(n) => records_counter(value::values(columns@), table@) && value::values(
                columns@,
            )[1] == ValueView::Integer(n),
            None => !records_counter(value::values(columns@), table@),
        },
{
    if columns.len() < 2 {
        return None;
    }
    assert(value::values(columns@)[0] == columns@[0]@);
    assert(value::values(columns@)[1] == columns@[1]@);
    match &columns[0] {
        Value::Text(name) => {
            if *name == *table {
                match &columns[1] {
                    Value::Integer(n) => Some(*n),
                    _ => None,
                }
            } else {
                None
            }
        },
        _ => None,
    }
}

fn find_counter(
    payloads: &Vec<Vec<u8>>,
    failure: &Option<String>,
    encoding: TextEncoding,
    table: &String,
) -> (r: Result<i64, ExecError>)
    ensures
        match r {
            Ok(n) => tracked_counter(
                request::byte_strings(payloads@),
                0,
                error::optional_text(*failure),
                encoding,
                table@,
            ) == Ok::<i64, ErrorView>(n),
            Err(e) => tracked_counter(
                request::byte_strings(payloads@),
                0,
                error::optional_text(*failure),
                encoding,
                table@,
            ) == Err::<i64, ErrorView>(e@),
        },
{
    let ghost ps = request::byte_strings(payloads@);
    let ghost goal = tracked_counter(ps, 0, error::optional_text(*failure), encoding, table@);
    let mut k: usize = 0;
    while k < payloads.len()
        invariant
            k <= payloads.len(),
            ps == request::byte_strings(payloads@),
            goal == tracked_counter(ps, 0, error::optional_text(*failure), encoding, table@),
            tracked_counter(ps, k as int, error::optional_text(*failure), encoding, table@)
                == goal,
        decreases payloads.len() - k,
    {
        assert(ps[k as int] == payloads@[k as int]@);
        match decode::decode_record(payloads[k].as_slice(), encoding) {
            Err(e) => {
                return Err(record_failure("NewRowid", e));
            },
            Ok(columns) => {
                if let Some(n) = counter_in(&columns, table) {
                    return Ok(n);
                }
            },
        }
        k = k + 1;
    }
    match failure {
        Some(reason) => Err(malformed("NewRowid", reason.as_str())),
        None => Ok(0),
    }
}

/// The rowid behind both the highest in use and the highest ever handed out.
pub open spec fn next_rowid(highest: i64, recorded: i64) -> i64 {
    saturate::clamped(
        (if highest > recorded {
            highest
        } else {
            recorded
        }) + 1,
    )
}

pub open spec fn counters_read_effect(
    m: VmView,
    i: InstructionView,
    highest: i64,
    payloads: Seq<Seq<u8>>,
    failure: Option<Seq<char>>,
) -> Effect {
    match (sequence_table(i), m.db()) {
        (Err(e), _) => vm::failed(m, e),
        (_, Err(e)) => vm::failed(m, e),
        (Ok(table), Ok(d)) => match tracked_counter(payloads, 0, failure, d.encoding, table) {
            Err(e) => vm::failed(m, e),
            Ok(recorded) => vm::stepped(
                m,
                StepView::Await(
                    RequestView::UpdateSequence { table, value: next_rowid(highest, recorded) },
                ),
            ),
        },
    }
}

/// `NewRowid` with the rows of the sequence table.
pub fn counters_read(
    vm: &Vm,
    instr: &Instruction,
    highest: i64,
    payloads: &Vec<Vec<u8>>,
    failure: &Option<String>,
) -> (r: Result<Step, ExecError>)
    ensures
        vm::outcome(vm@, r) == counters_read_effect(
            vm@,
            instr@,
            highest,
            request::byte_strings(payloads@),
            error::optional_text(*failure),
        ),
{
    let table = table_of(instr)?;
    let d = vm.db()?;
    let recorded: i64 = find_counter(payloads, failure, d.encoding, &table)?;
    let value: i64 = saturate::plus(
        if highest > recorded {
            highest
        } else {
            recorded
        },
        1,
    );
    Ok(Step::Await(Request::UpdateSequence { table, value }))
}

// ---- schema statements --------------------------------------------------------------

/// A `P4` of another kind than a schema operation takes.
pub open spec fn wrong_operand(opcode: Seq<char>, expected: Seq<char>, found: P4View) ->
    ErrorView {
    vm::malformed(opcode, expected + debug::operand_text(found))
}

fn operand_error(opcode: &'static str, expected: &'static str, found: &P4) -> (e: ExecError)
    ensures
        e@ == wrong_operand(opcode@, expected@, found@),
{
    let mut reason = expected.to_owned();
    reason.append(debug::show_operand(found).as_str());
    ExecError::MalformedInstruction { opcode, reason }
}

/// The first piece of a schema operation's work, where its operand fits and the database can
/// be written.
pub open spec fn begun(
    m: VmView,
    opcode: Seq<char>,
    expected: Seq<char>,
    p4: P4View,
    first: Option<RequestView>,
) -> Result<StepView, ErrorView> {
    match first {
        None => Err(wrong_operand(opcode, expected, p4)),
        Some(request) => if m.may_write() {
            Ok(StepView::Await(request))
        } else {
            Err(no_database(opcode))
        },
    }
}

pub open spec fn create_table_step(m: VmView, i: InstructionView) -> Result<StepView, ErrorView> {
    begun(
        m,
        "CreateTable"@,
        "expected P4::CreateTable, got "@,
        i.p4,
        if i.p4 is CreateTable {
            Some(RequestView::CreateTableRoot)
        } else {
            None
        },
    )
}

/// `CreateTable`: allocates a fresh table root page, registers it in the schema table, and
/// bumps the schema cookie.
pub fn create_table(vm: &Vm, instr: &Instruction) -> (r: Result<Step, ExecError>)
    ensures
        vm::seen(r) == create_table_step(vm@, instr@),
{
    match &instr.p4 {
        P4::CreateTable { .. } => {},
        other => {
            return Err(operand_error("CreateTable", "expected P4::CreateTable, got ", other));
        },
    }
    let _ = vm.writer("CreateTable")?;
    Ok(Step::Await(Request::CreateTableRoot))
}

/// The schema row of a view; a view has no b-tree, so its root page is zero.
pub open spec fn view_entry(name: Seq<char>, sql: Seq<char>) -> RequestView {
    RequestView::InsertMasterRow(
        MasterEntryView { kind: "view"@, name, tbl_name: name, rootpage: 0, sql },
    )
}

pub open spec fn create_view_step(m: VmView, i: InstructionView) -> Result<StepView, ErrorView> {
    begun(
        m,
        "CreateView"@,
        "expected P4::CreateView, got "@,
        i.p4,
        match i.p4 {
            P4View::CreateView { name, sql } => Some(view_entry(name, sql)),
            _ => None,
        },
    )
}

/// `CreateView`: registers a schema row of a view, which never has a root page, and bumps
/// the schema cookie.
pub fn create_view(vm: &Vm, instr: &Instruction) -> (r: Result<Step, ExecError>)
    ensures
        vm::seen(r) == create_view_step(vm@, instr@),
{
    let (name, sql) = match &instr.p4 {
        P4::CreateView { name, sql } => (name.clone(), sql.clone()),
        other => {
            return Err(operand_error("CreateView", "expected P4::CreateView, got ", other));
        },
    };
    let _ = vm.writer("CreateView")?;
    Ok(
        Step::Await(
            Request::InsertMasterRow(
                MasterEntry {
                    kind: "view".to_owned(),
                    name: name.clone(),
                    tbl_name: name,
                    rootpage: 0,
                    sql,
                },
            ),
        ),
    )
}

/// The `step`th piece of dropping a table or an index: for each of its indexes the pages and
/// then the schema row, the same for itself, and the schema cookie.
pub open spec fn drop_piece(
    name: Seq<char>,
    root_page: u32,
    indexes: Seq<(Seq<char>, u32)>,
    step: usize,
) -> RequestView {
    let k = step / 2;
    if k < indexes.len() {
        if step % 2 == 0 {
            RequestView::FreePages { root_page: indexes[k as int].1, step }
        } else {
            RequestView::DeleteMasterRow { name: indexes[k as int].0, step }
        }
    } else if k == indexes.len() {
        if step % 2 == 0 {
            RequestView::FreePages { root_page, step }
        } else {
            RequestView::DeleteMasterRow { name, step }
        }
    } else {
        RequestView::BumpSchemaCookie
    }
}

fn drop_request(name: &String, root_page: u32, indexes: &[(String, u32)], step: usize) -> (r:
    Request)
    ensures
        r@ == drop_piece(name@, root_page, program::named_roots(indexes@), step),
{
    let k: usize = step / 2;
    let n: usize = indexes.len();
    if k < n {
        assert(program::named_roots(indexes@)[k as int] == (
            indexes@[k as int].0@,
            indexes@[k as int].1,
        ));
        if step % 2 == 0 {
            Request::FreePages { root_page: indexes[k].1, step }
        } else {
            Request::DeleteMasterRow { name: indexes[k].0.clone(), step }
        }
    } else if k == n {
        if step % 2 == 0 {
            Request::FreePages { root_page, step }
        } else {
            Request::DeleteMasterRow { name: name.clone(), step }
        }
    } else {
        Request::BumpSchemaCookie
    }
}

pub open spec fn drop_table_step(m: VmView, i: InstructionView) -> Result<StepView, ErrorView> {
    begun(
        m,
        "DropTable"@,
        "expected P4::DropTable, got "@,
        i.p4,
        match i.p4 {
            P4View::DropTable { name, root_page, indexes } => Some(
                drop_piece(name, root_page, indexes, 0),
            ),
            _ => None,
        },
    )
}

/// `DropTable`: frees the target table's b-tree pages plus every index on it (cascading),
/// removes the corresponding schema rows, and bumps the schema cookie once.
pub fn drop_table(vm: &Vm, instr: &Instruction) -> (r: Result<Step, ExecError>)
    ensures
        vm::seen(r) == drop_table_step(vm@, instr@),
{
    match &instr.p4 {
        P4::DropTable { name, root_page, indexes } => {
            let _ = vm.writer("DropTable")?;
            Ok(Step::Await(drop_request(name, *root_page, indexes.as_slice(), 0)))
        },
        other => Err(operand_error("DropTable", "expected P4::DropTable, got ", other)),
    }
}

pub open spec fn create_index_step(m: VmView, i: InstructionView) -> Result<StepView, ErrorView> {
    begun(
        m,
        "CreateIndex"@,
        "expected P4::CreateIndex, got "@,
        i.p4,
        if i.p4 is CreateIndex {
            Some(RequestView::CreateIndexRoot)
        } else {
            None
        },
    )
}

/// `CreateIndex`: allocates a fresh index root page, populates it with one entry per
/// pre-existing row of the target table, registers the index in the schema table, and bumps
/// the schema cookie.
pub fn create_index(vm: &Vm, instr: &Instruction) -> (r: Result<Step, ExecError>)
    ensures
        vm::seen(r) == create_index_step(vm@, instr@),
{
    match &instr.p4 {
        P4::CreateIndex { .. } => {},
        other => {
            return Err(operand_error("CreateIndex", "expected P4::CreateIndex, got ", other));
        },
    }
    let _ = vm.writer("CreateIndex")?;
    Ok(Step::Await(Request::CreateIndexRoot))
}

pub open spec fn drop_index_step(m: VmView, i: InstructionView) -> Result<StepView, ErrorView> {
    begun(
        m,
        "DropIndex"@,
        "expected P4::DropIndex, got "@,
        i.p4,
        match i.p4 {
            P4View::DropIndex { name, root_page } => Some(
                drop_piece(name, root_page, Seq::empty(), 0),
            ),
            _ => None,
        },
    )
}

/// `DropIndex`: frees the target index's b-tree pages, removes its schema row, and bumps the
/// schema cookie.
pub fn drop_index(vm: &Vm, instr: &Instruction) -> (r: Result<Step, ExecError>)
    ensures
        vm::seen(r) == drop_index_step(vm@, instr@),
{
    match &instr.p4 {
        P4::DropIndex { name, root_page } => {
            let none: Vec<(String, u32)> = Vec::new();
            let _ = vm.writer("DropIndex")?;
            assert(program::named_roots(none@) =~= Seq::empty());
            Ok(Step::Await(drop_request(name, *root_page, none.as_slice(), 0)))
        },
        other => Err(operand_error("DropIndex", "expected P4::DropIndex, got ", other)),
    }
}

/// The piece of a drop behind the `step`th.
pub open spec fn drop_next(p4: P4View, step: usize) -> Option<RequestView> {
    if step == usize::MAX {
        None
    } else {
        match p4 {
            P4View::DropTable { name, root_page, indexes } => Some(
                drop_piece(name, root_page, indexes, (step + 1) as usize),
            ),
            P4View::DropIndex { name, root_page } => Some(
                drop_piece(name, root_page, Seq::empty(), (step + 1) as usize),
            ),
            _ => None,
        }
    }
}

/// What a schema operation asks for when a piece of its work has been answered.
pub open spec fn next_piece(p4: P4View, served: RequestView, reply: ReplyView) -> Option<
    RequestView,
> {
    match (served, reply) {
        (RequestView::CreateTableRoot, ReplyView::Root(root)) => match p4 {
            P4View::CreateTable { name, sql } => Some(
                RequestView::InsertMasterRow(
                    MasterEntryView {
                        kind: "table"@,
                        name,
                        tbl_name: name,
                        rootpage: root,
                        sql,
                    },
                ),
            ),
            _ => None,
        },
        (RequestView::CreateIndexRoot, ReplyView::Root(root)) => match p4 {
            P4View::CreateIndex { table_root_page, column_indices, .. } => Some(
                RequestView::PopulateIndex {
                    table_root_page,
                    index_root_page: root,
                    column_indices,
                },
            ),
            _ => None,
        },
        (RequestView::PopulateIndex { index_root_page, .. }, ReplyView::Done) => match p4 {
            P4View::CreateIndex { name, table_name, sql, .. } => Some(
                RequestView::InsertMasterRow(
                    MasterEntryView {
                        kind: "index"@,
                        name,
                        tbl_name: table_name,
                        rootpage: index_root_page,
                        sql,
                    },
                ),
            ),
            _ => None,
        },
        (RequestView::InsertMasterRow(_), ReplyView::Done) => Some(RequestView::BumpSchemaCookie),
        (RequestView::FreePages { step, .. }, ReplyView::Done) => drop_next(p4, step),
        (RequestView::DeleteMasterRow { step, .. }, ReplyView::Done) => drop_next(p4, step),
        _ => None,
    }
}

/// How a schema operation goes on when a piece of its work has been answered: it ends behind
/// the schema cookie.
pub open spec fn schema_step(i: InstructionView, served: RequestView, reply: ReplyView) -> Result<
    StepView,
    ErrorView,
> {
    if served is BumpSchemaCookie && reply is Done {
        Ok(StepView::Next)
    } else {
        match next_piece(i.p4, served, reply) {
            Some(request) => Ok(StepView::Await(request)),
            None => Err(ErrorView::UnexpectedReply { opcode: i.opcode.name() }),
        }
    }
}

fn drop_request_next(p4: &P4, step: usize) -> (r: Option<Request>)
    ensures
        match r {
            Some(q) => drop_next(p4@, step) == Some(q@),
            None => drop_next(p4@, step) is None,
        },
{
    if step == usize::MAX {
        return None;
    }
    match p4 {
        P4::DropTable { name, root_page, indexes } => Some(
            drop_request(name, *root_page, indexes.as_slice(), step + 1),
        ),
        P4::DropIndex { name, root_page } => {
            let none: Vec<(String, u32)> = Vec::new();
            assert(program::named_roots(none@) =~= Seq::empty());
            Some(drop_request(name, *root_page, none.as_slice(), step + 1))
        },
        _ => None,
    }
}

fn copy_indices(v: &Vec<usize>) -> (r: Vec<usize>)
    ensures
        r@ == v@,
{
    let mut r: Vec<usize> = Vec::new();
    r.extend_from_slice(v.as_slice());
    assert(r@ =~= v@);
    r
}

fn request_next(p4: &P4, served: &Request, reply: &Reply) -> (r: Option<Request>)
    ensures
        match r {
            Some(q) => next_piece(p4@, served@, reply@) == Some(q@),
            None => next_piece(p4@, served@, reply@) is None,
        },
{
    match (served, reply) {
        (Request::CreateTableRoot, Reply::Root(root)) => match p4 {
            P4::CreateTable { name, sql } => Some(
                Request::InsertMasterRow(
                    MasterEntry {
                        kind: "table".to_owned(),
                        name: name.clone(),
                        tbl_name: name.clone(),
                        rootpage: *root,
                        sql: sql.clone(),
                    },
                ),
            ),
            _ => None,
        },
        (Request::CreateIndexRoot, Reply::Root(root)) => match p4 {
            P4::CreateIndex { table_root_page, column_indices, .. } => Some(
                Request::PopulateIndex {
                    table_root_page: *table_root_page,
                    index_root_page: *root,
                    column_indices: copy_indices(column_indices),
                },
            ),
            _ => None,
        },
        (Request::PopulateIndex { index_root_page, .. }, Reply::Done) => match p4 {
            P4::CreateIndex { name, table_name, sql, .. } => Some(
                Request::InsertMasterRow(
                    MasterEntry {
                        kind: "index".to_owned(),
                        name: name.clone(),
                        tbl_name: table_name.clone(),
                        rootpage: *index_root_page,
                        sql: sql.clone(),
                    },
                ),
            ),
            _ => None,
        },
        (Request::InsertMasterRow(_), Reply::Done) => Some(Request::BumpSchemaCookie),
        (Request::FreePages { step, .. }, Reply::Done) => drop_request_next(p4, *step),
        (Request::DeleteMasterRow { step, .. }, Reply::Done) => drop_request_next(p4, *step),
        _ => None,
    }
}

/// A schema operation when a piece of its work has been answered.
pub fn schema_answered(instr: &Instruction, served: &Request, reply: &Reply) -> (r: Result<
    Step,
    ExecError,
>)
    ensures
        vm::seen(r) == schema_step(instr@, served@, reply@),
{
    let last = matches!(served, Request::BumpSchemaCookie) && matches!(reply, Reply::Done);
    if last {
        return Ok(Step::Next);
    }
    match request_next(&instr.p4, served, reply) {
        Some(request) => Ok(Step::Await(request)),
        None => Err(ExecError::UnexpectedReply { opcode: opcode_name(instr.opcode) }),
    }
}

/// A fresh rowid is above every rowid in use and every one recorded, as far as there is one.
pub proof fn law_new_rowid_is_new(highest: i64, recorded: i64)
    requires
        highest < i64::MAX,
        recorded < i64::MAX,
    ensures
        next_rowid(highest, recorded) > highest,
        next_rowid(highest, recorded) > recorded,
        next_rowid(highest, recorded) == highest + 1 || next_rowid(highest, recorded) == recorded
            + 1,
{
}

/// Where the sequence table records the last rowid handed out, the next is above it even
/// though the table's rows are gone.
pub proof fn law_sequence_never_regresses(
    table: Seq<char>,
    value: i64,
    payload: Seq<u8>,
    encoding: TextEncoding,
    highest: i64,
)
    requires
        decode::row_of(payload, encoding) == Ok::<
            Seq<ValueView>,
            crate::record::error::RecordError,
        >(seq![ValueView::Text(table), ValueView::Integer(value)]),
        value < i64::MAX,
    ensures
        tracked_counter(seq![payload], 0, None, encoding, table) == Ok::<i64, ErrorView>(value),
        next_rowid(highest, value) > value || next_rowid(highest, value) == i64::MAX,
{
    let columns = seq![ValueView::Text(table), ValueView::Integer(value)];
    assert(columns[0] == ValueView::Text(table));
    assert(columns[1] == ValueView::Integer(value));
}

/// The pieces of a drop, from the `step`th on to the schema cookie.
pub open spec fn drop_pieces(
    name: Seq<char>,
    root_page: u32,
    indexes: Seq<(Seq<char>, u32)>,
    step: nat,
) -> Seq<RequestView>
    decreases 2 * indexes.len() + 2 - step,
{
    if step >= 2 * indexes.len() + 2 {
        seq![RequestView::BumpSchemaCookie]
    } else {
        seq![drop_piece(name, root_page, indexes, step as usize)] + drop_pieces(
            name,
            root_page,
            indexes,
            step + 1,
        )
    }
}

/// Each piece stands at the place of its step.
proof fn lemma_drop_piece_at(
    name: Seq<char>,
    root_page: u32,
    indexes: Seq<(Seq<char>, u32)>,
    step: nat,
    at: nat,
)
    requires
        2 * indexes.len() + 2 <= usize::MAX,
        step <= at <= 2 * indexes.len() + 2,
    ensures
        drop_pieces(name, root_page, indexes, step).len() == 2 * indexes.len() + 3 - step,
        drop_pieces(name, root_page, indexes, step)[at - step] == drop_piece(
            name,
            root_page,
            indexes,
            at as usize,
        ),
    decreases 2 * indexes.len() + 2 - step,
{
    let all = drop_pieces(name, root_page, indexes, step);
    if step < 2 * indexes.len() + 2 {
        let rest = drop_pieces(name, root_page, indexes, step + 1);
        assert(all == seq![drop_piece(name, root_page, indexes, step as usize)] + rest);
        if step < at {
            lemma_drop_piece_at(name, root_page, indexes, step + 1, at);
            assert(all[at - step] == rest[at - step - 1]);
        } else {
            lemma_drop_piece_at(name, root_page, indexes, step + 1, step + 1);
        }
    }
}

/// Dropping a table asks for the pages and the schema row of each of its indexes in order,
/// then for its own, and last for the schema cookie, each exactly once: `k` is any index.
pub proof fn law_drop_cascades(
    name: Seq<char>,
    root_page: u32,
    indexes: Seq<(Seq<char>, u32)>,
    k: nat,
)
    requires
        2 * indexes.len() + 2 <= usize::MAX,
    ensures
        ({
            let pieces = drop_pieces(name, root_page, indexes, 0);
            let n = indexes.len() as int;
            &&& pieces.len() == 2 * n + 3
            &&& k < n ==> pieces[2 * k as int] == (RequestView::FreePages {
                root_page: indexes[k as int].1,
                step: (2 * k) as usize,
            })
            &&& k < n ==> pieces[2 * k as int + 1] == (RequestView::DeleteMasterRow {
                name: indexes[k as int].0,
                step: (2 * k + 1) as usize,
            })
            &&& pieces[2 * n] == (RequestView::FreePages { root_page, step: (2 * n) as usize })
            &&& pieces[2 * n + 1] == (RequestView::DeleteMasterRow {
                name,
                step: (2 * n + 1) as usize,
            })
            &&& pieces[2 * n + 2] is BumpSchemaCookie
        }),
{
    let n = indexes.len();
    lemma_drop_piece_at(name, root_page, indexes, 0, 2 * n);
    lemma_drop_piece_at(name, root_page, indexes, 0, 2 * n + 1);
    lemma_drop_piece_at(name, root_page, indexes, 0, 2 * n + 2);
    if k < n {
        lemma_drop_piece_at(name, root_page, indexes, 0, 2 * k);
        lemma_drop_piece_at(name, root_page, indexes, 0, 2 * k + 1);
    }
}

/// Each piece that is answered is followed by the next one, until the last.
pub proof fn law_drop_goes_on(
    name: Seq<char>,
    root_page: u32,
    indexes: Seq<(Seq<char>, u32)>,
    step: nat,
)
    requires
        2 * indexes.len() + 2 <= usize::MAX,
        step < 2 * indexes.len() + 2,
    ensures
        drop_next(P4View::DropTable { name, root_page, indexes }, step as usize) == Some(
            drop_piece(name, root_page, indexes, (step + 1) as usize),
        ),
{
}

} // verus!
