//! Index opcodes: the in-memory index behind DISTINCT, and probes, walks and changes of
//! secondary-index b-trees.
//!
//! - `Found(p1=cursor, p2=jump target if the key is present, p3=first key register,
//!   p4=Int(key column count))`
//! - `IdxInsert`/`IdxDelete(p1=cursor, p2=first key register, p4=Int(key column count))`
//! - `IdxLE(p1=cursor, p2=jump target, p3=first key register, p4=Int(key column count))`
//! - `SeekIndexEq(p1=cursor, p2=jump target on a miss, p3=first key register, p4=Int(key
//!   column count))`
//! - `IdxRewind`/`IdxLast(p1=cursor, p2=jump target if the index is empty)`
//! - `IdxNext`/`IdxPrev(p1=cursor, p2=jump target if another entry was found)`
use crate::record::collation::Collation;
use crate::record::decode;
use crate::record::encode;
use crate::record::round_trip;
use crate::record::value;
use crate::record::value::{TextEncoding, Value, ValueView};
use crate::text;
use crate::text::Sorted;
use crate::vdbe::control;
use crate::vdbe::control::take_jump;
use crate::vdbe::cursor;
use crate::vdbe::cursor::{malformed, mismatch, record_failure, type_mismatch};
use crate::vdbe::debug;
use crate::vdbe::error::{ErrorView, ExecError};
use crate::vdbe::order;
use crate::vdbe::program::{Instruction, InstructionView, P4View, P4};
use crate::vdbe::request;
use crate::vdbe::request::{IndexPlace, Request, RequestView};
use crate::vdbe::slot;
use crate::vdbe::slot::{CursorSlot, EphemeralView, IndexView, SlotView};
use crate::vdbe::vm;
use crate::vdbe::vm::{read_register_range, Effect, Step, StepView, Vm, VmView};
use vstd::prelude::*;

verus! {

/// The key column count an instruction carries.
pub open spec fn key_count(i: InstructionView, opcode: Seq<char>) -> Result<nat, ErrorView> {
    match i.p4 {
        P4View::Int(n) => if 0 <= n <= usize::MAX {
            Ok(n as nat)
        } else {
            Err(
                vm::malformed(
                    opcode,
                    "negative key column count "@ + text::signed_decimal(n as int),
                ),
            )
        },
        other => Err(
            vm::malformed(
                opcode,
                "expected an integer P4 (key column count), got "@ + debug::operand_text(other),
            ),
        ),
    }
}

pub(crate) fn p4_count(instr: &Instruction, opcode: &'static str) -> (r: Result<usize, ExecError>)
    ensures
        match r {
            Ok(n) => key_count(instr@, opcode@) == Ok::<nat, ErrorView>(n as nat),
            Err(e) => key_count(instr@, opcode@) == Err::<nat, ErrorView>(e@),
        },
{
    match &instr.p4 {
        P4::Int(n) => {
            if *n >= 0 && *n as u64 <= usize::MAX as u64 {
                Ok(*n as usize)
            } else {
                let mut reason = "negative key column count ".to_owned();
                reason.append(text::signed_to_text(*n).as_str());
                Err(ExecError::MalformedInstruction { opcode, reason })
            }
        },
        other => {
            let mut reason = "expected an integer P4 (key column count), got ".to_owned();
            reason.append(debug::show_operand(other).as_str());
            Err(ExecError::MalformedInstruction { opcode, reason })
        },
    }
}

/// The key columns of an instruction, from register `start` on.
pub open spec fn key_columns(m: VmView, i: InstructionView, start: i32, opcode: Seq<char>) ->
    Result<Seq<ValueView>, ErrorView> {
    match key_count(i, opcode) {
        Err(e) => Err(e),
        Ok(count) => vm::register_range(m, start, count),
    }
}

fn read_key(vm: &Vm, instr: &Instruction, start: i32, opcode: &'static str) -> (r: Result<
    Vec<Value>,
    ExecError,
>)
    ensures
        match r {
            Ok(vs) => key_columns(vm@, instr@, start, opcode@) == Ok::<Seq<ValueView>, ErrorView>(
                value::values(vs@),
            ) && vs@.len() * 16 <= usize::MAX,
            Err(e) => key_columns(vm@, instr@, start, opcode@) == Err::<
                Seq<ValueView>,
                ErrorView,
            >(e@),
        },
{
    let count = p4_count(instr, opcode)?;
    read_register_range(vm, start, count)
}

/// The bytes a key is found by.
pub open spec fn key_bytes(columns: Seq<ValueView>) -> Seq<u8> {
    encode::record_of(columns, TextEncoding::Utf8)
}

fn encode_key(columns: &Vec<Value>) -> (r: Vec<u8>)
    requires
        columns@.len() * 16 <= usize::MAX,
    ensures
        r@ == key_bytes(value::values(columns@)),
{
    encode::encode_record(columns.as_slice(), TextEncoding::Utf8)
}

pub open spec fn found_effect(m: VmView, i: InstructionView) -> Effect {
    match key_columns(m, i, i.p3, "Found"@) {
        Err(e) => vm::failed(m, e),
        Ok(columns) => match m.cursor_mut(i.p1) {
            Err(e) => vm::failed(m, e),
            Ok(SlotView::Ephemeral(t)) => vm::stepped(
                m.with_slot(
                    i.p1,
                    SlotView::Ephemeral(
                        EphemeralView { last_key: Some(key_bytes(columns)), ..t },
                    ),
                ),
                control::jump_if(t.keys.contains(key_bytes(columns)), i.p2),
            ),
            Ok(other) => vm::failed(m, mismatch("Found"@, i.p1, other, "ephemeral cursor"@)),
        },
    }
}

/// `Found`: probes ephemeral cursor `P1` for the key built from `P4` (`Int`, the key column
/// count) registers starting at `P3`, jumping to `P2` if present. Either way, remembers the
/// probed key as the target of a following `Delete`.
pub fn found(vm: &mut Vm, instr: &Instruction) -> (r: Result<Step, ExecError>)
    requires
        old(vm).wf(),
    ensures
        final(vm).wf(),
        vm::outcome(final(vm)@, r) == found_effect(old(vm)@, instr@),
{
    proof {
        cursor::lemma_same_slot(vm@, instr.p1);
    }
    let values = read_key(vm, instr, instr.p3, "Found")?;
    let key = encode_key(&values);
    match vm.cursor_mut(instr.p1)? {
        CursorSlot::Ephemeral(state) => {
            let present = state.probe(key);
            Ok(take_jump(present, instr.p2))
        },
        other => Err(type_mismatch("Found", instr.p1, other, "ephemeral cursor")),
    }
}

pub open spec fn idx_insert_effect(m: VmView, i: InstructionView) -> Effect {
    match key_columns(m, i, i.p2, "IdxInsert"@) {
        Err(e) => vm::failed(m, e),
        Ok(columns) => match m.cursor(i.p1) {
            Err(e) => vm::failed(m, e),
            Ok(SlotView::IndexWrite { root_page }) => if m.may_write() {
                vm::stepped(
                    m,
                    StepView::Await(RequestView::InsertEntry { root_page, key: columns }),
                )
            } else {
                vm::failed(m, ErrorView::NoDatabase { opcode: "IdxInsert"@ })
            },
            Ok(SlotView::Ephemeral(t)) => {
                let key = key_bytes(columns);
                if t.keys.contains(key) || t.keys.len() < slot::MAX_EPHEMERAL_ROWS {
                    vm::stepped(
                        m.with_slot(
                            i.p1,
                            SlotView::Ephemeral(
                                EphemeralView {
                                    keys: t.keys.insert(key),
                                    last_key: Some(key),
                                    ..t
                                },
                            ),
                        ),
                        StepView::Next,
                    )
                } else {
                    vm::failed(
                        m,
                        ErrorView::EphemeralRowLimitExceeded {
                            opcode: "IdxInsert"@,
                            limit: slot::MAX_EPHEMERAL_ROWS,
                        },
                    )
                }
            },
            Ok(other) => vm::failed(
                m,
                mismatch("IdxInsert"@, i.p1, other, "ephemeral or index write cursor"@),
            ),
        },
    }
}

/// `IdxInsert`: for an ephemeral cursor, inserts the key built from `P4` (`Int`, the key
/// column count) registers starting at `P2`. For an index opened by `OpenWrite`, writes the
/// same register range as a full entry into the index b-tree; an entry that is already
/// there is an error.
pub fn idx_insert(vm: &mut Vm, instr: &Instruction) -> (r: Result<Step, ExecError>)
    requires
        old(vm).wf(),
    ensures
        final(vm).wf(),
        vm::outcome(final(vm)@, r) == idx_insert_effect(old(vm)@, instr@),
{
    proof {
        cursor::lemma_same_slot(vm@, instr.p1);
    }
    let values = read_key(vm, instr, instr.p2, "IdxInsert")?;
    match vm.cursor(instr.p1)? {
        CursorSlot::IndexWrite { root_page } => {
            let root_page: u32 = *root_page;
            let _ = vm.writer("IdxInsert")?;
            return Ok(Step::Await(Request::InsertEntry { root_page, key: values }));
        },
        CursorSlot::Ephemeral(_) => {},
        other => {
            return Err(
                type_mismatch("IdxInsert", instr.p1, other, "ephemeral or index write cursor"),
            );
        },
    }
    let key = encode_key(&values);
    match vm.cursor_mut(instr.p1)? {
        CursorSlot::Ephemeral(state) => {
            let inserted = state.insert(key);
            if inserted {
                Ok(Step::Next)
            } else {
                Err(
                    ExecError::EphemeralRowLimitExceeded {
                        opcode: "IdxInsert",
                        limit: slot::MAX_EPHEMERAL_ROWS,
                    },
                )
            }
        },
        _ => Ok(Step::Next),
    }
}

pub open spec fn idx_delete_effect(m: VmView, i: InstructionView) -> Effect {
    match key_columns(m, i, i.p2, "IdxDelete"@) {
        Err(e) => vm::failed(m, e),
        Ok(columns) => match m.cursor(i.p1) {
            Err(e) => vm::failed(m, e),
            Ok(SlotView::IndexWrite { root_page }) => if m.may_write() {
                vm::stepped(
                    m,
                    StepView::Await(RequestView::DeleteEntry { root_page, key: columns }),
                )
            } else {
                vm::failed(m, ErrorView::NoDatabase { opcode: "IdxDelete"@ })
            },
            Ok(SlotView::Ephemeral(t)) => {
                let key = key_bytes(columns);
                vm::stepped(
                    m.with_slot(
                        i.p1,
                        SlotView::Ephemeral(
                            EphemeralView {
                                keys: t.keys.remove(key),
                                last_key: if t.last_key == Some(key) {
                                    None
                                } else {
                                    t.last_key
                                },
                                ..t
                            },
                        ),
                    ),
                    StepView::Next,
                )
            },
            Ok(other) => vm::failed(
                m,
                mismatch("IdxDelete"@, i.p1, other, "ephemeral or index write cursor"@),
            ),
        },
    }
}

/// `IdxDelete`: for an ephemeral cursor, removes the key built from `P4` (`Int`, the key
/// column count) registers starting at `P2`. For an index opened by `OpenWrite`, removes the
/// matching entry from the index b-tree; an entry that is not there is an error.
pub fn idx_delete(vm: &mut Vm, instr: &Instruction) -> (r: Result<Step, ExecError>)
    requires
        old(vm).wf(),
    ensures
        final(vm).wf(),
        vm::outcome(final(vm)@, r) == idx_delete_effect(old(vm)@, instr@),
{
    proof {
        cursor::lemma_same_slot(vm@, instr.p1);
    }
    let values = read_key(vm, instr, instr.p2, "IdxDelete")?;
    match vm.cursor(instr.p1)? {
        CursorSlot::IndexWrite { root_page } => {
            let root_page: u32 = *root_page;
            let _ = vm.writer("IdxDelete")?;
            return Ok(Step::Await(Request::DeleteEntry { root_page, key: values }));
        },
        CursorSlot::Ephemeral(_) => {},
        other => {
            return Err(
                type_mismatch("IdxDelete", instr.p1, other, "ephemeral or index write cursor"),
            );
        },
    }
    let key = encode_key(&values);
    match vm.cursor_mut(instr.p1)? {
        CursorSlot::Ephemeral(state) => {
            state.remove(&key);
            Ok(Step::Next)
        },
        _ => Ok(Step::Next),
    }
}

pub open spec fn idx_le_effect(m: VmView, i: InstructionView) -> Effect {
    match key_columns(m, i, i.p3, "IdxLE"@) {
        Err(e) => vm::failed(m, e),
        Ok(columns) => match m.cursor_mut(i.p1) {
            Err(e) => vm::failed(m, e),
            Ok(SlotView::Ephemeral(t)) => vm::stepped(
                m,
                control::jump_if(
                    match t.last_key {
                        Some(key) => order::bytes_order(key, key_bytes(columns)) != Sorted::After,
                        None => true,
                    },
                    i.p2,
                ),
            ),
            Ok(other) => vm::failed(m, mismatch("IdxLE"@, i.p1, other, "ephemeral cursor"@)),
        },
    }
}

/// `IdxLE`: jumps to `P2` if ephemeral cursor `P1`'s most recently probed or inserted key is
/// `<=` the key built from `P4` (`Int`, the key column count) registers starting at `P3`
/// (byte-order comparison of the encoded key), or if there is none.
pub fn idx_le(vm: &mut Vm, instr: &Instruction) -> (r: Result<Step, ExecError>)
    requires
        old(vm).wf(),
    ensures
        final(vm).wf(),
        vm::outcome(final(vm)@, r) == idx_le_effect(old(vm)@, instr@),
{
    proof {
        cursor::lemma_same_slot(vm@, instr.p1);
    }
    let values = read_key(vm, instr, instr.p3, "IdxLE")?;
    let probe = encode_key(&values);
    match vm.cursor_mut(instr.p1)? {
        CursorSlot::Ephemeral(state) => {
            let holds = state.last_at_most(&probe);
            Ok(take_jump(holds, instr.p2))
        },
        other => Err(type_mismatch("IdxLE", instr.p1, other, "ephemeral cursor")),
    }
}

/// The columns of `probe` are equal to the leading columns of `key`, in BINARY order.
pub open spec fn leads(key: Seq<ValueView>, probe: Seq<ValueView>) -> bool {
    key.len() >= probe.len() && forall|k: int|
        0 <= k < probe.len() ==> order::value_order(
            #[trigger] key[k],
            probe[k],
            Collation::Binary,
        ) == Sorted::Same
}

fn begins_with(key: &Vec<Value>, probe: &Vec<Value>) -> (r: bool)
    ensures
        r == leads(value::values(key@), value::values(probe@)),
{
    let ghost ks = value::values(key@);
    let ghost ps = value::values(probe@);
    if key.len() < probe.len() {
        return false;
    }
    let mut i: usize = 0;
    while i < probe.len()
        invariant
            i <= probe.len() <= key.len(),
            ks == value::values(key@),
            ps == value::values(probe@),
            forall|k: int|
                0 <= k < i ==> order::value_order(#[trigger] ks[k], ps[k], Collation::Binary)
                    == Sorted::Same,
        decreases probe.len() - i,
    {
        assert(ks[i as int] == key@[i as int]@ && ps[i as int] == probe@[i as int]@);
        match order::order_values(&key[i], &probe[i], Collation::Binary) {
            Sorted::Same => {},
            _ => {
                return false;
            },
        }
        i = i + 1;
    }
    true
}

/// The row an entry's payload holds, for an operation.
pub open spec fn entry_columns(m: VmView, payload: Seq<u8>, opcode: Seq<char>) -> Result<
    Seq<ValueView>,
    ErrorView,
> {
    match m.db() {
        Err(e) => Err(e),
        Ok(d) => match decode::row_of(payload, d.encoding) {
            Ok(columns) => Ok(columns),
            Err(e) => Err(vm::malformed(opcode, e.described())),
        },
    }
}

fn decode_entry(vm: &Vm, payload: &Vec<u8>, opcode: &'static str) -> (r: Result<
    Vec<Value>,
    ExecError,
>)
    ensures
        match r {
            Ok(vs) => entry_columns(vm@, payload@, opcode@) == Ok::<Seq<ValueView>, ErrorView>(
                value::values(vs@),
            ),
            Err(e) => entry_columns(vm@, payload@, opcode@) == Err::<Seq<ValueView>, ErrorView>(
                e@,
            ),
        },
{
    let d = vm.db()?;
    match decode::decode_record(payload.as_slice(), d.encoding) {
        Ok(vs) => Ok(vs),
        Err(e) => Err(record_failure(opcode, e)),
    }
}

pub open spec fn seek_index_eq_effect(m: VmView, i: InstructionView) -> Effect {
    match key_columns(m, i, i.p3, "SeekIndexEq"@) {
        Err(e) => vm::failed(m, e),
        Ok(key) => match m.cursor(i.p1) {
            Err(e) => vm::failed(m, e),
            Ok(SlotView::IndexRead(t)) => match m.db() {
                Err(e) => vm::failed(m, e),
                Ok(_) => vm::stepped(
                    m,
                    StepView::Await(RequestView::SeekIndex { root_page: t.root_page, key }),
                ),
            },
            Ok(other) => vm::failed(
                m,
                mismatch("SeekIndexEq"@, i.p1, other, "index read cursor"@),
            ),
        },
    }
}

/// `SeekIndexEq`: probes index cursor `P1` for an exact match on the `P4` (`Int`, the key
/// column count) key columns starting at register `P3`, jumping to `P2` on a miss. On a hit
/// the entry becomes the cursor's current one, for a following `IdxRowid`.
pub fn seek_index_eq(vm: &mut Vm, instr: &Instruction) -> (r: Result<Step, ExecError>)
    requires
        old(vm).wf(),
    ensures
        final(vm).wf(),
        vm::outcome(final(vm)@, r) == seek_index_eq_effect(old(vm)@, instr@),
{
    let key = read_key(vm, instr, instr.p3, "SeekIndexEq")?;
    let root_page: u32 = match vm.cursor(instr.p1)? {
        CursorSlot::IndexRead(state) => state.root(),
        other => {
            return Err(type_mismatch("SeekIndexEq", instr.p1, other, "index read cursor"));
        },
    };
    let _ = vm.db()?;
    Ok(Step::Await(Request::SeekIndex { root_page, key }))
}

/// Puts index cursor `P1` on an entry; goes on as `step` says.
pub open spec fn entered_effect(
    m: VmView,
    i: InstructionView,
    opcode: Seq<char>,
    entry: Option<Seq<u8>>,
    jump_on_entry: bool,
) -> Effect {
    match m.cursor_mut(i.p1) {
        Err(e) => vm::failed(m, e),
        Ok(SlotView::IndexRead(t)) => vm::stepped(
            m.with_slot(i.p1, SlotView::IndexRead(IndexView { current: entry, ..t })),
            control::jump_if((entry is Some) == jump_on_entry, i.p2),
        ),
        Ok(other) => vm::failed(m, mismatch(opcode, i.p1, other, "index read cursor"@)),
    }
}

/// `IdxRewind`, `IdxLast`, `IdxNext` and `IdxPrev` with the entry their move found.
pub fn entered(
    vm: &mut Vm,
    instr: &Instruction,
    opcode: &'static str,
    entry: Option<Vec<u8>>,
    jump_on_entry: bool,
) -> (r: Result<Step, ExecError>)
    requires
        old(vm).wf(),
    ensures
        final(vm).wf(),
        vm::outcome(final(vm)@, r) == entered_effect(
            old(vm)@,
            instr@,
            opcode@,
            request::bytes_view(entry),
            jump_on_entry,
        ),
{
    proof {
        cursor::lemma_same_slot(vm@, instr.p1);
    }
    let there = entry.is_some();
    match vm.cursor_mut(instr.p1)? {
        CursorSlot::IndexRead(state) => {
            state.set_current(entry);
            Ok(take_jump(there == jump_on_entry, instr.p2))
        },
        other => Err(type_mismatch(opcode, instr.p1, other, "index read cursor")),
    }
}

/// The entry found counts where its leading columns equal the probe and more follow.
pub open spec fn sought_effect(
    m: VmView,
    i: InstructionView,
    probe: Seq<ValueView>,
    entry: Option<Seq<u8>>,
) -> Effect {
    match entry {
        None => entered_effect(m, i, "SeekIndexEq"@, None, false),
        Some(payload) => match entry_columns(m, payload, "SeekIndexEq"@) {
            Err(e) => vm::failed(m, e),
            Ok(key) => entered_effect(
                m,
                i,
                "SeekIndexEq"@,
                if key.len() > probe.len() && leads(key, probe) {
                    entry
                } else {
                    None
                },
                false,
            ),
        },
    }
}

/// `SeekIndexEq` with the first entry not less than its key.
pub fn sought(vm: &mut Vm, instr: &Instruction, probe: &Vec<Value>, entry: Option<Vec<u8>>) -> (r:
    Result<Step, ExecError>)
    requires
        old(vm).wf(),
    ensures
        final(vm).wf(),
        vm::outcome(final(vm)@, r) == sought_effect(
            old(vm)@,
            instr@,
            value::values(probe@),
            request::bytes_view(entry),
        ),
{
    let mut matched = false;
    if let Some(payload) = &entry {
        let key = decode_entry(vm, payload, "SeekIndexEq")?;
        assert(value::values(key@).len() == key@.len() && value::values(probe@).len()
            == probe@.len());
        matched = key.len() > probe.len() && begins_with(&key, probe);
    }
    let current = if matched {
        entry
    } else {
        None
    };
    entered(vm, instr, "SeekIndexEq", current, false)
}

pub open spec fn no_conflict_effect(m: VmView, i: InstructionView) -> Effect {
    match key_columns(m, i, i.p3, "NoConflict"@) {
        Err(e) => vm::failed(m, e),
        Ok(key) => match m.cursor(i.p1) {
            Err(e) => vm::failed(m, e),
            Ok(SlotView::IndexWrite { root_page }) => match m.db() {
                Err(e) => vm::failed(m, e),
                Ok(_) => vm::stepped(
                    m,
                    StepView::Await(RequestView::SeekIndex { root_page, key }),
                ),
            },
            Ok(other) => vm::failed(
                m,
                mismatch("NoConflict"@, i.p1, other, "index write cursor"@),
            ),
        },
    }
}

/// `NoConflict`: jumps to `P2` when no entry of the index open on cursor `P1` has a key
/// whose leading columns equal the `P4` (`Int`, key column count) registers starting at
/// `P3`. Falls through when a matching entry is found, and then writes the entry's trailing
/// rowid column into register `P3 + count`, one past the probe range.
pub fn no_conflict(vm: &mut Vm, instr: &Instruction) -> (r: Result<Step, ExecError>)
    requires
        old(vm).wf(),
    ensures
        final(vm).wf(),
        vm::outcome(final(vm)@, r) == no_conflict_effect(old(vm)@, instr@),
{
    let key = read_key(vm, instr, instr.p3, "NoConflict")?;
    let root_page: u32 = match vm.cursor(instr.p1)? {
        CursorSlot::IndexWrite { root_page } => *root_page,
        other => {
            return Err(type_mismatch("NoConflict", instr.p1, other, "index write cursor"));
        },
    };
    let _ = vm.db()?;
    Ok(Step::Await(Request::SeekIndex { root_page, key }))
}

/// The register one past a probe range.
pub open spec fn past_probe(start: i32, count: nat) -> i32 {
    if start + count > i32::MAX {
        i32::MAX
    } else {
        (start + count) as i32
    }
}

/// An entry whose leading columns equal the probe is a conflict.
pub open spec fn conflict_effect(
    m: VmView,
    i: InstructionView,
    probe: Seq<ValueView>,
    entry: Option<Seq<u8>>,
) -> Effect {
    match entry {
        None => vm::stepped(m, vm::jump(i.p2)),
        Some(payload) => match entry_columns(m, payload, "NoConflict"@) {
            Err(e) => vm::failed(m, e),
            Ok(key) => if !leads(key, probe) {
                vm::stepped(m, vm::jump(i.p2))
            } else if key.len() == 0 {
                vm::stepped(m, StepView::Next)
            } else {
                vm::stored(m, past_probe(i.p3, probe.len()), key.last(), StepView::Next)
            },
        },
    }
}

/// `NoConflict` with the first entry not less than its key.
pub fn probed(vm: &mut Vm, instr: &Instruction, probe: &Vec<Value>, entry: Option<Vec<u8>>) -> (r:
    Result<Step, ExecError>)
    requires
        old(vm).wf(),
    ensures
        final(vm).wf(),
        vm::outcome(final(vm)@, r) == conflict_effect(
            old(vm)@,
            instr@,
            value::values(probe@),
            request::bytes_view(entry),
        ),
{
    match &entry {
        None => Ok(Step::Jump(vm::to_pc(instr.p2))),
        Some(payload) => {
            let key = decode_entry(vm, payload, "NoConflict")?;
            assert(value::values(key@).len() == key@.len() && value::values(probe@).len()
                == probe@.len());
            if !begins_with(&key, probe) {
                return Ok(Step::Jump(vm::to_pc(instr.p2)));
            }
            if key.len() == 0 {
                return Ok(Step::Next);
            }
            let rowid = key[key.len() - 1].copy();
            assert(value::values(key@).last() == key@.last()@);
            let count: usize = probe.len();
            let dest: i32 = if count as u64 > 0xffff_ffff {
                0x7fff_ffff
            } else {
                let sum: i64 = instr.p3 as i64 + count as i64;
                if sum > 0x7fff_ffff {
                    0x7fff_ffff
                } else {
                    sum as i32
                }
            };
            vm.set_register(dest, rowid)?;
            Ok(Step::Next)
        },
    }
}

/// An optional value as diagnostics show it.
pub open spec fn optional_value_text(v: Option<ValueView>) -> Seq<char> {
    match v {
        None => "None"@,
        Some(x) => "Some("@ + debug::value_text(x) + ")"@,
    }
}

pub open spec fn idx_rowid_effect(m: VmView, i: InstructionView) -> Effect {
    match m.cursor(i.p1) {
        Err(e) => vm::failed(m, e),
        Ok(SlotView::IndexRead(t)) => match t.current {
            None => vm::failed(
                m,
                vm::malformed(
                    "IdxRowid"@,
                    "no current row on this index cursor (SeekIndexEq missed, or no positioning opcode was run)"@,
                ),
            ),
            Some(payload) => match entry_columns(m, payload, "IdxRowid"@) {
                Err(e) => vm::failed(m, e),
                Ok(key) => if key.len() > 0 && key.last() is Integer {
                    vm::stored(m, i.p2, key.last(), StepView::Next)
                } else {
                    vm::failed(
                        m,
                        vm::malformed(
                            "IdxRowid"@,
                            "index row's trailing rowid column is "@ + optional_value_text(
                                if key.len() > 0 {
                                    Some(key.last())
                                } else {
                                    None
                                },
                            ),
                        ),
                    )
                },
            },
        },
        Ok(other) => vm::failed(m, mismatch("IdxRowid"@, i.p1, other, "index read cursor"@)),
    }
}

/// Decodes index cursor `slot`'s current entry (its record's trailing column is the
/// referenced table's rowid) into a rowid, where the cursor stands on an entry.
fn index_read_current_rowid(vm: &Vm, slot: i32) -> (r: Result<Option<i64>, ExecError>)
    requires
        vm.wf(),
    ensures
        match (vm@.cursor(slot), r) {
            (Err(e), Err(f)) => f@ == e,
            (Ok(SlotView::IndexRead(t)), r) => match (t.current, r) {
                (None, Ok(None)) => true,
                (Some(payload), r) => match (entry_columns(vm@, payload, "IdxRowid"@), r) {
                    (Err(e), Err(f)) => f@ == e,
                    (Ok(key), Ok(Some(n))) => key.len() > 0 && key.last() == ValueView::Integer(n),
                    (Ok(key), Err(f)) => !(key.len() > 0 && key.last() is Integer) && f@
                        == vm::malformed(
                        "IdxRowid"@,
                        "index row's trailing rowid column is "@ + optional_value_text(
                            if key.len() > 0 {
                                Some(key.last())
                            } else {
                                None
                            },
                        ),
                    ),
                    _ => false,
                },
                _ => false,
            },
            (Ok(other), Err(f)) => f@ == mismatch("IdxRowid"@, slot, other, "index read cursor"@),
            _ => false,
        },
{
    match vm.cursor(slot)? {
        CursorSlot::IndexRead(state) => match state.entry() {
            None => Ok(None),
            Some(payload) => {
                let key = decode_entry(vm, payload, "IdxRowid")?;
                assert(value::values(key@).len() == key@.len());
                if key.len() == 0 {
                    let mut reason = "index row's trailing rowid column is ".to_owned();
                    reason.append("None");
                    return Err(ExecError::MalformedInstruction { opcode: "IdxRowid", reason });
                }
                assert(value::values(key@).last() == key@.last()@);
                match &key[key.len() - 1] {
                    Value::Integer(n) => Ok(Some(*n)),
                    other => {
                        let mut inner = "Some(".to_owned();
                        inner.append(debug::show_value(other).as_str());
                        inner.append(")");
                        let mut reason = "index row's trailing rowid column is ".to_owned();
                        reason.append(inner.as_str());
                        Err(ExecError::MalformedInstruction { opcode: "IdxRowid", reason })
                    },
                }
            },
        },
        other => Err(type_mismatch("IdxRowid", slot, other, "index read cursor")),
    }
}

/// `IdxRowid`: writes the trailing rowid of index cursor `P1`'s current entry into register
/// `P2`. Errors where the cursor stands on none.
pub fn idx_rowid(vm: &mut Vm, instr: &Instruction) -> (r: Result<Step, ExecError>)
    requires
        old(vm).wf(),
    ensures
        final(vm).wf(),
        vm::outcome(final(vm)@, r) == idx_rowid_effect(old(vm)@, instr@),
{
    match index_read_current_rowid(vm, instr.p1)? {
        None => Err(
            malformed(
                "IdxRowid",
                "no current row on this index cursor (SeekIndexEq missed, or no positioning opcode was run)",
            ),
        ),
        Some(n) => {
            vm.set_register(instr.p2, Value::Integer(n))?;
            Ok(Step::Next)
        },
    }
}

/// Asks for index cursor `P1` to be moved.
pub open spec fn walk_effect(
    m: VmView,
    i: InstructionView,
    opcode: Seq<char>,
    place: IndexPlace,
) -> Effect {
    match m.cursor_mut(i.p1) {
        Err(e) => vm::failed(m, e),
        Ok(SlotView::IndexRead(t)) => vm::stepped(
            m.with_slot(i.p1, SlotView::IndexRead(IndexView { fresh: false, ..t })),
            StepView::Await(
                RequestView::MoveIndex {
                    slot: i.p1,
                    fresh: t.fresh,
                    root_page: t.root_page,
                    place,
                },
            ),
        ),
        Ok(other) => vm::failed(m, mismatch(opcode, i.p1, other, "index read cursor"@)),
    }
}

fn walk(vm: &mut Vm, instr: &Instruction, opcode: &'static str, place: IndexPlace) -> (r: Result<
    Step,
    ExecError,
>)
    requires
        old(vm).wf(),
    ensures
        final(vm).wf(),
        vm::outcome(final(vm)@, r) == walk_effect(old(vm)@, instr@, opcode@, place),
{
    proof {
        cursor::lemma_same_slot(vm@, instr.p1);
    }
    match vm.cursor_mut(instr.p1)? {
        CursorSlot::IndexRead(state) => {
            let root_page = state.root();
            let fresh = state.start_move();
            Ok(Step::Await(Request::MoveIndex { slot: instr.p1, fresh, root_page, place }))
        },
        other => Err(type_mismatch(opcode, instr.p1, other, "index read cursor")),
    }
}

/// `IdxRewind`: positions index cursor `P1` at its first entry in ascending key order,
/// jumping to `P2` if the index is empty.
pub fn idx_rewind(vm: &mut Vm, instr: &Instruction) -> (r: Result<Step, ExecError>)
    requires
        old(vm).wf(),
    ensures
        final(vm).wf(),
        vm::outcome(final(vm)@, r) == walk_effect(
            old(vm)@,
            instr@,
            "IdxRewind"@,
            IndexPlace::First,
        ),
{
    walk(vm, instr, "IdxRewind", IndexPlace::First)
}

/// `IdxLast`: positions index cursor `P1` at its last entry, jumping to `P2` if the index is
/// empty.
pub fn idx_last(vm: &mut Vm, instr: &Instruction) -> (r: Result<Step, ExecError>)
    requires
        old(vm).wf(),
    ensures
        final(vm).wf(),
        vm::outcome(final(vm)@, r) == walk_effect(old(vm)@, instr@, "IdxLast"@, IndexPlace::Last),
{
    walk(vm, instr, "IdxLast", IndexPlace::Last)
}

/// `IdxNext`: advances index cursor `P1` forward, jumping to `P2` (typically back to the
/// loop body's start) if another entry was found, and falling through once exhausted.
pub fn idx_next(vm: &mut Vm, instr: &Instruction) -> (r: Result<Step, ExecError>)
    requires
        old(vm).wf(),
    ensures
        final(vm).wf(),
        vm::outcome(final(vm)@, r) == walk_effect(old(vm)@, instr@, "IdxNext"@, IndexPlace::Next),
{
    walk(vm, instr, "IdxNext", IndexPlace::Next)
}

/// `IdxPrev`: advances index cursor `P1` backward, jumping to `P2` if another entry was
/// found, and falling through once exhausted.
pub fn idx_prev(vm: &mut Vm, instr: &Instruction) -> (r: Result<Step, ExecError>)
    requires
        old(vm).wf(),
    ensures
        final(vm).wf(),
        vm::outcome(final(vm)@, r) == walk_effect(
            old(vm)@,
            instr@,
            "IdxPrev"@,
            IndexPlace::Previous,
        ),
{
    walk(vm, instr, "IdxPrev", IndexPlace::Previous)
}

/// DISTINCT passes each row once: a key that was put into the index is found behind it.
pub proof fn law_inserted_key_is_found(m: VmView, i: InstructionView, probe: InstructionView)
    requires
        idx_insert_effect(m, i).step == Ok::<StepView, ErrorView>(StepView::Next),
        probe.p1 == i.p1,
        probe.p3 == i.p2,
        probe.p4 == i.p4,
    ensures
        found_effect(idx_insert_effect(m, i).vm, probe).step == Ok::<StepView, ErrorView>(
            vm::jump(probe.p2),
        ),
{
    let n = idx_insert_effect(m, i).vm;
    assert(n.registers == m.registers);
    let count = key_count(i, "IdxInsert"@)->Ok_0;
    if count > 0 {
        assert(vm::held_range(n, i.p2 as int, count) =~= vm::held_range(m, i.p2 as int, count));
    }
}

/// A probe whose columns differ from all that were put in finds nothing: where every key of
/// the index stands for a row other than the one probed for, `Found` falls through.
pub proof fn law_distinct_rows_pass(
    m: VmView,
    i: InstructionView,
    rows: Set<Seq<ValueView>>,
    t: EphemeralView,
    probe: Seq<ValueView>,
)
    requires
        m.cursor_mut(i.p1) == Ok::<SlotView, ErrorView>(SlotView::Ephemeral(t)),
        key_columns(m, i, i.p3, "Found"@) == Ok::<Seq<ValueView>, ErrorView>(probe),
        round_trip::fits(probe, TextEncoding::Utf8),
        forall|r: Seq<ValueView>| rows.contains(r) ==> #[trigger] round_trip::fits(
            r,
            TextEncoding::Utf8,
        ),
        forall|k: Seq<u8>|
            t.keys.contains(k) <==> exists|r: Seq<ValueView>|
                rows.contains(r) && #[trigger] key_bytes(r) == k,
    ensures
        found_effect(m, i).step == Ok::<StepView, ErrorView>(
            control::jump_if(rows.contains(probe), i.p2),
        ),
{
    if rows.contains(probe) {
        assert(t.keys.contains(key_bytes(probe)));
    } else if t.keys.contains(key_bytes(probe)) {
        let r = choose|r: Seq<ValueView>| rows.contains(r) && #[trigger] key_bytes(r) == key_bytes(
            probe,
        );
        round_trip::law_record_injective(r, probe, TextEncoding::Utf8);
    }
}

/// Deleting a key makes it absent.
pub proof fn law_deleted_key_is_gone(m: VmView, i: InstructionView, probe: InstructionView)
    requires
        m.cursor(i.p1) matches Ok(SlotView::Ephemeral(_)),
        key_columns(m, i, i.p2, "IdxDelete"@) is Ok,
        probe.p1 == i.p1,
        probe.p3 == i.p2,
        probe.p4 == i.p4,
    ensures
        found_effect(idx_delete_effect(m, i).vm, probe).step == Ok::<StepView, ErrorView>(
            StepView::Next,
        ),
{
    let n = idx_delete_effect(m, i).vm;
    assert(n.registers == m.registers);
    let count = key_count(i, "IdxDelete"@)->Ok_0;
    if count > 0 {
        assert(vm::held_range(n, i.p2 as int, count) =~= vm::held_range(m, i.p2 as int, count));
    }
}

} // verus!
