//! Sorter opcodes: ORDER BY as its own in-memory opcode family, distinct from cursor
//! scanning. Every candidate row is buffered via `SorterInsert` during an initial scan pass;
//! `SorterSort`/`Sort` then sorts the buffer once, keyed by the `P4` sort-key descriptor;
//! `SorterNext`/`SorterData` then iterate the sorted result as `Next`/`Column` iterate a
//! table cursor, feeding a pseudo-cursor.
//!
//! - `SorterOpen(p1=cursor, p4=SortKey(columns))`
//! - `SorterInsert(p1=cursor, p2=register holding the record blob)`
//! - `SorterSort`/`Sort(p1=cursor, p2=jump target if the sorter is empty)`
//! - `SorterNext(p1=cursor, p2=jump target if another row was found)`
//! - `SorterData(p1=cursor, p2=dest register)`
use crate::record::decode;
use crate::record::error::RecordError;
use crate::record::value;
use crate::record::value::{TextEncoding, Value, ValueView};
use crate::text::Sorted;
use crate::vdbe::control;
use crate::vdbe::control::take_jump;
use crate::vdbe::cursor;
use crate::vdbe::cursor::{malformed, mismatch, record_failure, type_mismatch};
use crate::vdbe::debug;
use crate::vdbe::error::ExecError;
use crate::vdbe::order;
use crate::vdbe::program::{Instruction, InstructionView, P4View, SortKeyColumn, P4};
use crate::vdbe::request;
use crate::vdbe::slot::{CursorSlot, SlotView, SorterState, SorterView};
use crate::vdbe::vm;
use crate::vdbe::vm::{Effect, Step, StepView, Vm, VmView};
use vstd::prelude::*;

verus! {

// ---- the order of rows --------------------------------------------------------------

/// The value a key column reads: NULL where the row is shorter.
pub open spec fn key_value(row: Seq<ValueView>, key: SortKeyColumn) -> ValueView {
    if key.index < row.len() {
        row[key.index as int]
    } else {
        ValueView::Null
    }
}

/// Where `a` stands to `b` by one key: NULLs where the key puts them, and other values in
/// their order or against it.
pub open spec fn key_order(a: ValueView, b: ValueView, key: SortKeyColumn) -> Sorted {
    if a is Null && b is Null {
        Sorted::Same
    } else if a is Null {
        if key.nulls_first {
            Sorted::Before
        } else {
            Sorted::After
        }
    } else if b is Null {
        if key.nulls_first {
            Sorted::After
        } else {
            Sorted::Before
        }
    } else if key.descending {
        order::reversed(order::value_order(a, b, key.collation))
    } else {
        order::value_order(a, b, key.collation)
    }
}

/// Where row `a` stands to row `b` by the keys from `k` on: the first key that tells them
/// apart decides.
pub open spec fn row_order(
    a: Seq<ValueView>,
    b: Seq<ValueView>,
    keys: Seq<SortKeyColumn>,
    k: int,
) -> Sorted
    decreases keys.len() - k,
{
    if k < 0 || k >= keys.len() {
        Sorted::Same
    } else if key_order(key_value(a, keys[k]), key_value(b, keys[k]), keys[k]) != Sorted::Same {
        key_order(key_value(a, keys[k]), key_value(b, keys[k]), keys[k])
    } else {
        row_order(a, b, keys, k + 1)
    }
}

/// What two rows in order become: the smaller first row, the left one on a tie.
pub open spec fn merged(
    rows: Seq<Seq<ValueView>>,
    keys: Seq<SortKeyColumn>,
    a: Seq<usize>,
    b: Seq<usize>,
) -> Seq<usize>
    decreases a.len() + b.len(),
{
    if a.len() == 0 {
        b
    } else if b.len() == 0 {
        a
    } else if row_order(rows[a[0] as int], rows[b[0] as int], keys, 0) == Sorted::After {
        seq![b[0]] + merged(rows, keys, a, b.drop_first())
    } else {
        seq![a[0]] + merged(rows, keys, a.drop_first(), b)
    }
}

/// The numbers of the rows `from..to` in the order that the keys give them.
pub open spec fn arranged(
    rows: Seq<Seq<ValueView>>,
    keys: Seq<SortKeyColumn>,
    from: usize,
    to: usize,
) -> Seq<usize>
    decreases to - from,
{
    if to <= from {
        Seq::empty()
    } else if to - from == 1 {
        seq![from]
    } else {
        let mid = (from + (to - from) / 2) as usize;
        merged(rows, keys, arranged(rows, keys, from, mid), arranged(rows, keys, mid, to))
    }
}

/// The rows that records hold, or the first error in decoding them, from the `k`th on.
pub open spec fn rows_from(buffer: Seq<Seq<u8>>, k: int) -> Result<
    Seq<Seq<ValueView>>,
    RecordError,
>
    decreases buffer.len() - k,
{
    if k < 0 || k >= buffer.len() {
        Ok(Seq::empty())
    } else {
        match decode::row_of(buffer[k], TextEncoding::Utf8) {
            Err(e) => Err(e),
            Ok(row) => match rows_from(buffer, k + 1) {
                Err(e) => Err(e),
                Ok(rest) => Ok(seq![row] + rest),
            },
        }
    }
}

/// The records in the order that the keys give their rows.
pub open spec fn sorted_records(
    buffer: Seq<Seq<u8>>,
    rows: Seq<Seq<ValueView>>,
    keys: Seq<SortKeyColumn>,
) -> Seq<Seq<u8>> {
    arranged(rows, keys, 0, buffer.len() as usize).map_values(|i: usize| buffer[i as int])
}

fn read_key(row: &Vec<Value>, key: &SortKeyColumn) -> (r: Value)
    ensures
        r@ == key_value(value::values(row@), *key),
{
    if key.index < row.len() {
        assert(value::values(row@)[key.index as int] == row@[key.index as int]@);
        row[key.index].copy()
    } else {
        Value::Null
    }
}

fn order_by_key(a: &Value, b: &Value, key: &SortKeyColumn) -> (r: Sorted)
    ensures
        r == key_order(a@, b@, *key),
{
    let a_null = matches!(a, Value::Null);
    let b_null = matches!(b, Value::Null);
    if a_null && b_null {
        Sorted::Same
    } else if a_null {
        if key.nulls_first {
            Sorted::Before
        } else {
            Sorted::After
        }
    } else if b_null {
        if key.nulls_first {
            Sorted::After
        } else {
            Sorted::Before
        }
    } else {
        let s = order::order_values(a, b, key.collation);
        if key.descending {
            match s {
                Sorted::Before => Sorted::After,
                Sorted::Same => Sorted::Same,
                Sorted::After => Sorted::Before,
            }
        } else {
            s
        }
    }
}

fn order_rows(a: &Vec<Value>, b: &Vec<Value>, keys: &Vec<SortKeyColumn>) -> (r: Sorted)
    ensures
        r == row_order(value::values(a@), value::values(b@), keys@, 0),
{
    let mut k: usize = 0;
    while k < keys.len()
        invariant
            k <= keys.len(),
            row_order(value::values(a@), value::values(b@), keys@, k as int) == row_order(
                value::values(a@),
                value::values(b@),
                keys@,
                0,
            ),
        decreases keys.len() - k,
    {
        let av = read_key(a, &keys[k]);
        let bv = read_key(b, &keys[k]);
        match order_by_key(&av, &bv, &keys[k]) {
            Sorted::Same => {},
            other => {
                return other;
            },
        }
        k = k + 1;
    }
    Sorted::Same
}

/// Every number names a row.
pub open spec fn name_rows(s: Seq<usize>, n: nat) -> bool {
    forall|i: int| 0 <= i < s.len() ==> (#[trigger] s[i]) < n
}

proof fn lemma_merged_names(
    rows: Seq<Seq<ValueView>>,
    keys: Seq<SortKeyColumn>,
    a: Seq<usize>,
    b: Seq<usize>,
)
    requires
        name_rows(a, rows.len()),
        name_rows(b, rows.len()),
    ensures
        name_rows(merged(rows, keys, a, b), rows.len()),
        merged(rows, keys, a, b).len() == a.len() + b.len(),
    decreases a.len() + b.len(),
{
    if a.len() > 0 && b.len() > 0 {
        if row_order(rows[a[0] as int], rows[b[0] as int], keys, 0) == Sorted::After {
            lemma_merged_names(rows, keys, a, b.drop_first());
        } else {
            lemma_merged_names(rows, keys, a.drop_first(), b);
        }
    }
}

fn merge(rows: &Vec<Vec<Value>>, keys: &Vec<SortKeyColumn>, a: &Vec<usize>, b: &Vec<usize>) -> (r:
    Vec<usize>)
    requires
        name_rows(a@, rows@.len()),
        name_rows(b@, rows@.len()),
    ensures
        r@ == merged(value::rows(rows@), keys@, a@, b@),
{
    let ghost rs = value::rows(rows@);
    let ghost goal = merged(rs, keys@, a@, b@);
    let mut r: Vec<usize> = Vec::new();
    let mut i: usize = 0;
    let mut j: usize = 0;
    assert(a@.skip(0) =~= a@ && b@.skip(0) =~= b@);
    assert(r@ + goal =~= goal);
    while i < a.len() && j < b.len()
        invariant
            i <= a.len(),
            j <= b.len(),
            rs == value::rows(rows@),
            goal == merged(rs, keys@, a@, b@),
            name_rows(a@, rows@.len()),
            name_rows(b@, rows@.len()),
            r@ + merged(rs, keys@, a@.skip(i as int), b@.skip(j as int)) == goal,
        decreases a.len() - i + b.len() - j,
    {
        let x: usize = a[i];
        let y: usize = b[j];
        let ghost before = r@;
        let ghost sa = a@.skip(i as int);
        let ghost sb = b@.skip(j as int);
        assert(sa[0] == x && sb[0] == y);
        assert(rs[x as int] == value::values(rows@[x as int]@));
        assert(rs[y as int] == value::values(rows@[y as int]@));
        match order_rows(&rows[x], &rows[y], keys) {
            Sorted::After => {
                assert(sb.drop_first() =~= b@.skip(j + 1));
                r.push(y);
                j = j + 1;
                assert(r@ + merged(rs, keys@, sa, b@.skip(j as int)) =~= before + (seq![y]
                    + merged(rs, keys@, sa, b@.skip(j as int))));
            },
            _ => {
                assert(sa.drop_first() =~= a@.skip(i + 1));
                r.push(x);
                i = i + 1;
                assert(r@ + merged(rs, keys@, a@.skip(i as int), sb) =~= before + (seq![x]
                    + merged(rs, keys@, a@.skip(i as int), sb)));
            },
        }
    }
    while i < a.len()
        invariant
            i <= a.len(),
            i < a.len() ==> j == b.len(),
            j <= b.len(),
            r@ + merged(rs, keys@, a@.skip(i as int), b@.skip(j as int)) == goal,
        decreases a.len() - i,
    {
        let ghost before = r@;
        let ghost sa = a@.skip(i as int);
        assert(b@.skip(j as int).len() == 0);
        r.push(a[i]);
        assert(a@.skip(i + 1) =~= sa.drop_first());
        i = i + 1;
        assert(r@ + a@.skip(i as int) =~= before + sa);
        assert(merged(rs, keys@, a@.skip(i as int), b@.skip(j as int)) =~= a@.skip(i as int));
    }
    while j < b.len()
        invariant
            i == a.len(),
            j <= b.len(),
            r@ + merged(rs, keys@, a@.skip(i as int), b@.skip(j as int)) == goal,
        decreases b.len() - j,
    {
        let ghost before = r@;
        let ghost sb = b@.skip(j as int);
        assert(a@.skip(i as int).len() == 0);
        r.push(b[j]);
        j = j + 1;
        assert(r@ + b@.skip(j as int) =~= before + sb);
    }
    assert(a@.skip(i as int).len() == 0 && b@.skip(j as int).len() == 0);
    assert(r@ + merged(rs, keys@, a@.skip(i as int), b@.skip(j as int)) =~= r@);
    r
}

fn arrange(rows: &Vec<Vec<Value>>, keys: &Vec<SortKeyColumn>, from: usize, to: usize) -> (r: Vec<
    usize,
>)
    requires
        from <= to <= rows@.len(),
    ensures
        r@ == arranged(value::rows(rows@), keys@, from, to),
        name_rows(r@, rows@.len()),
        r@.len() == to - from,
    decreases to - from,
{
    if from == to {
        return Vec::new();
    }
    if to - from == 1 {
        let mut r: Vec<usize> = Vec::new();
        r.push(from);
        assert(r@ =~= seq![from]);
        return r;
    }
    let mid: usize = from + (to - from) / 2;
    let a = arrange(rows, keys, from, mid);
    let b = arrange(rows, keys, mid, to);
    proof {
        lemma_merged_names(value::rows(rows@), keys@, a@, b@);
    }
    merge(rows, keys, &a, &b)
}

fn decode_rows(buffer: &Vec<Vec<u8>>) -> (r: Result<Vec<Vec<Value>>, RecordError>)
    ensures
        match r {
            Ok(rows) => rows_from(request::byte_strings(buffer@), 0) == Ok::<
                Seq<Seq<ValueView>>,
                RecordError,
            >(value::rows(rows@)) && rows@.len() == buffer@.len(),
            Err(e) => rows_from(request::byte_strings(buffer@), 0) == Err::<
                Seq<Seq<ValueView>>,
                RecordError,
            >(e),
        },
{
    let ghost bs = request::byte_strings(buffer@);
    let mut rows: Vec<Vec<Value>> = Vec::new();
    let mut k: usize = 0;
    assert(value::rows(rows@) =~= Seq::empty());
    proof {
        let goal = rows_from(bs, 0);
        if goal is Ok {
            assert(Seq::<Seq<ValueView>>::empty() + goal->Ok_0 =~= goal->Ok_0);
        }
    }
    while k < buffer.len()
        invariant
            k <= buffer.len(),
            rows@.len() == k,
            bs == request::byte_strings(buffer@),
            match rows_from(bs, k as int) {
                Ok(rest) => rows_from(bs, 0) == Ok::<Seq<Seq<ValueView>>, RecordError>(
                    value::rows(rows@) + rest,
                ),
                Err(e) => rows_from(bs, 0) == Err::<Seq<Seq<ValueView>>, RecordError>(e),
            },
        decreases buffer.len() - k,
    {
        assert(bs[k as int] == buffer@[k as int]@);
        let row = decode::decode_record(buffer[k].as_slice(), TextEncoding::Utf8)?;
        let ghost before = value::rows(rows@);
        let ghost added = value::values(row@);
        rows.push(row);
        k = k + 1;
        proof {
            assert(value::rows(rows@) =~= before.push(added));
            if rows_from(bs, k as int) is Ok {
                let rest = rows_from(bs, k as int)->Ok_0;
                assert(before + (seq![added] + rest) =~= before.push(added) + rest);
            }
        }
    }
    assert(value::rows(rows@) + Seq::empty() =~= value::rows(rows@));
    Ok(rows)
}

// ---- the opcodes --------------------------------------------------------------------

pub open spec fn sorter_open_effect(m: VmView, i: InstructionView) -> Effect {
    match i.p4 {
        P4View::SortKey(keys) => vm::opened(
            m,
            i.p1,
            SlotView::Sorter(
                SorterView { keys, buffer: Seq::empty(), sorted: false, pos: 0 },
            ),
        ),
        other => vm::failed(
            m,
            vm::malformed(
                "SorterOpen"@,
                "expected a SortKey P4, got "@ + debug::operand_text(other),
            ),
        ),
    }
}

/// `SorterOpen`: opens an empty sorter, keyed by `P4`'s sort-key descriptor, into cursor slot
/// `P1`.
pub fn sorter_open(vm: &mut Vm, instr: &Instruction) -> (r: Result<Step, ExecError>)
    requires
        old(vm).wf(),
    ensures
        final(vm).wf(),
        vm::outcome(final(vm)@, r) == sorter_open_effect(old(vm)@, instr@),
{
    match &instr.p4 {
        P4::SortKey(keys) => {
            let mut copied: Vec<SortKeyColumn> = Vec::new();
            copied.extend_from_slice(keys.as_slice());
            assert(copied@ =~= keys@);
            let state = SorterState { keys: copied, buffer: Vec::new(), sorted: false, pos: 0 };
            assert(state@.buffer =~= Seq::empty());
            vm.set_cursor(instr.p1, CursorSlot::Sorter(state))?;
            Ok(Step::Next)
        },
        other => {
            let mut reason = "expected a SortKey P4, got ".to_owned();
            reason.append(debug::show_operand(other).as_str());
            Err(ExecError::MalformedInstruction { opcode: "SorterOpen", reason })
        },
    }
}

pub open spec fn sorter_insert_effect(m: VmView, i: InstructionView) -> Effect {
    match m.register(i.p2) {
        Err(e) => vm::failed(m, e),
        Ok(ValueView::Blob(blob)) => match m.cursor_mut(i.p1) {
            Err(e) => vm::failed(m, e),
            Ok(SlotView::Sorter(t)) => vm::stepped(
                m.with_slot(
                    i.p1,
                    SlotView::Sorter(
                        SorterView { buffer: t.buffer.push(blob), sorted: false, ..t },
                    ),
                ),
                StepView::Next,
            ),
            Ok(other) => vm::failed(m, mismatch("SorterInsert"@, i.p1, other, "sorter cursor"@)),
        },
        Ok(other) => vm::failed(
            m,
            vm::malformed(
                "SorterInsert"@,
                "expected a record Blob, got "@ + debug::value_text(other),
            ),
        ),
    }
}

/// `SorterInsert`: buffers register `P2`'s record blob as one candidate row on sorter `P1`.
/// Invalidates any prior sort.
pub fn sorter_insert(vm: &mut Vm, instr: &Instruction) -> (r: Result<Step, ExecError>)
    requires
        old(vm).wf(),
    ensures
        final(vm).wf(),
        vm::outcome(final(vm)@, r) == sorter_insert_effect(old(vm)@, instr@),
{
    proof {
        cursor::lemma_same_slot(vm@, instr.p1);
    }
    let blob: Vec<u8> = match vm.register(instr.p2)? {
        Value::Blob(b) => value::copy_bytes(b),
        other => {
            let mut reason = "expected a record Blob, got ".to_owned();
            reason.append(debug::show_value(other).as_str());
            return Err(ExecError::MalformedInstruction { opcode: "SorterInsert", reason });
        },
    };
    match vm.cursor_mut(instr.p1)? {
        CursorSlot::Sorter(state) => {
            let ghost before = state.buffer@;
            let ghost bytes = blob@;
            state.buffer.push(blob);
            state.sorted = false;
            assert(request::byte_strings(state.buffer@) =~= request::byte_strings(before).push(
                bytes,
            ));
            Ok(Step::Next)
        },
        other => Err(type_mismatch("SorterInsert", instr.p1, other, "sorter cursor")),
    }
}

pub open spec fn sorter_sort_effect(m: VmView, i: InstructionView) -> Effect {
    match m.cursor_mut(i.p1) {
        Err(e) => vm::failed(m, e),
        Ok(SlotView::Sorter(t)) => match rows_from(t.buffer, 0) {
            Err(e) => vm::failed(m, vm::malformed("SorterSort"@, e.described())),
            Ok(rows) => vm::stepped(
                m.with_slot(
                    i.p1,
                    SlotView::Sorter(
                        SorterView {
                            buffer: sorted_records(t.buffer, rows, t.keys),
                            sorted: true,
                            pos: 0,
                            ..t
                        },
                    ),
                ),
                control::jump_if(t.buffer.len() == 0, i.p2),
            ),
        },
        Ok(other) => vm::failed(m, mismatch("SorterSort"@, i.p1, other, "sorter cursor"@)),
    }
}

fn pick(buffer: &Vec<Vec<u8>>, which: &Vec<usize>) -> (r: Vec<Vec<u8>>)
    requires
        name_rows(which@, buffer@.len()),
    ensures
        request::byte_strings(r@) == which@.map_values(
            |i: usize| request::byte_strings(buffer@)[i as int],
        ),
{
    let ghost bs = request::byte_strings(buffer@);
    let mut r: Vec<Vec<u8>> = Vec::new();
    let mut k: usize = 0;
    while k < which.len()
        invariant
            k <= which.len(),
            name_rows(which@, buffer@.len()),
            bs == request::byte_strings(buffer@),
            r@.len() == k,
            forall|j: int| 0 <= j < k ==> (#[trigger] r@[j])@ == bs[which@[j] as int],
        decreases which.len() - k,
    {
        let i: usize = which[k];
        r.push(value::copy_bytes(&buffer[i]));
        k = k + 1;
    }
    assert(request::byte_strings(r@) =~= which@.map_values(|i: usize| bs[i as int]));
    r
}

/// `SorterSort`/`Sort`: sorts sorter `P1`'s buffered rows in place by its key descriptor's
/// per-column direction and collation. Rows that compare equal keep their order. Jumps to
/// `P2` if the sorter is empty (mirrors `Rewind`).
pub fn sorter_sort(vm: &mut Vm, instr: &Instruction) -> (r: Result<Step, ExecError>)
    requires
        old(vm).wf(),
    ensures
        final(vm).wf(),
        vm::outcome(final(vm)@, r) == sorter_sort_effect(old(vm)@, instr@),
{
    proof {
        cursor::lemma_same_slot(vm@, instr.p1);
    }
    match vm.cursor_mut(instr.p1)? {
        CursorSlot::Sorter(state) => {
            let rows = match decode_rows(&state.buffer) {
                Ok(rows) => rows,
                Err(e) => {
                    return Err(record_failure("SorterSort", e));
                },
            };
            let which = arrange(&rows, &state.keys, 0, rows.len());
            assert(request::byte_strings(state.buffer@).len() == state.buffer@.len());
            let buffer = pick(&state.buffer, &which);
            assert(request::byte_strings(buffer@).len() == buffer@.len());
            let empty = buffer.len() == 0;
            state.buffer = buffer;
            state.sorted = true;
            state.pos = 0;
            Ok(take_jump(empty, instr.p2))
        },
        other => Err(type_mismatch("SorterSort", instr.p1, other, "sorter cursor")),
    }
}

pub open spec fn sorter_next_effect(m: VmView, i: InstructionView) -> Effect {
    match m.cursor_mut(i.p1) {
        Err(e) => vm::failed(m, e),
        Ok(SlotView::Sorter(t)) => {
            let pos = if t.pos < usize::MAX {
                (t.pos + 1) as usize
            } else {
                t.pos
            };
            vm::stepped(
                m.with_slot(i.p1, SlotView::Sorter(SorterView { pos, ..t })),
                control::jump_if(pos < t.buffer.len(), i.p2),
            )
        },
        Ok(other) => vm::failed(m, mismatch("SorterNext"@, i.p1, other, "sorter cursor"@)),
    }
}

/// `SorterNext`: advances sorter `P1` to its next sorted row, jumping to `P2` (typically back
/// to the loop body's start) if another row remains, and falling through once exhausted.
pub fn sorter_next(vm: &mut Vm, instr: &Instruction) -> (r: Result<Step, ExecError>)
    requires
        old(vm).wf(),
    ensures
        final(vm).wf(),
        vm::outcome(final(vm)@, r) == sorter_next_effect(old(vm)@, instr@),
{
    proof {
        cursor::lemma_same_slot(vm@, instr.p1);
    }
    match vm.cursor_mut(instr.p1)? {
        CursorSlot::Sorter(state) => {
            assert(request::byte_strings(state.buffer@).len() == state.buffer@.len());
            let pos: usize = if state.pos < usize::MAX {
                state.pos + 1
            } else {
                state.pos
            };
            state.pos = pos;
            Ok(take_jump(pos < state.buffer.len(), instr.p2))
        },
        other => Err(type_mismatch("SorterNext", instr.p1, other, "sorter cursor")),
    }
}

pub open spec fn sorter_data_effect(m: VmView, i: InstructionView) -> Effect {
    match m.cursor(i.p1) {
        Err(e) => vm::failed(m, e),
        Ok(SlotView::Sorter(t)) => if !t.sorted {
            vm::failed(
                m,
                vm::malformed(
                    "SorterData"@,
                    "sorter has not been sorted yet (SorterSort/Sort must run first)"@,
                ),
            )
        } else if t.pos >= t.buffer.len() {
            vm::failed(m, vm::malformed("SorterData"@, "sorter cursor has no current row"@))
        } else {
            vm::stored(m, i.p2, ValueView::Blob(t.buffer[t.pos as int]), StepView::Next)
        },
        Ok(other) => vm::failed(m, mismatch("SorterData"@, i.p1, other, "sorter cursor"@)),
    }
}

/// `SorterData`: writes sorter `P1`'s current sorted row's raw record bytes into register
/// `P2`.
pub fn sorter_data(vm: &mut Vm, instr: &Instruction) -> (r: Result<Step, ExecError>)
    requires
        old(vm).wf(),
    ensures
        final(vm).wf(),
        vm::outcome(final(vm)@, r) == sorter_data_effect(old(vm)@, instr@),
{
    let bytes: Vec<u8> = match vm.cursor(instr.p1)? {
        CursorSlot::Sorter(state) => {
            if !state.sorted {
                return Err(
                    malformed(
                        "SorterData",
                        "sorter has not been sorted yet (SorterSort/Sort must run first)",
                    ),
                );
            }
            assert(request::byte_strings(state.buffer@).len() == state.buffer@.len());
            if state.pos >= state.buffer.len() {
                return Err(malformed("SorterData", "sorter cursor has no current row"));
            }
            value::copy_bytes(&state.buffer[state.pos])
        },
        other => {
            return Err(type_mismatch("SorterData", instr.p1, other, "sorter cursor"));
        },
    };
    vm.set_register(instr.p2, Value::Blob(bytes))?;
    Ok(Step::Next)
}

// ---- laws ---------------------------------------------------------------------------

/// Every value that the keys read is a number where it is a floating-point value.
pub open spec fn keys_ordered(row: Seq<ValueView>, keys: Seq<SortKeyColumn>) -> bool {
    forall|k: int|
        0 <= k < keys.len() ==> order::is_ordered(key_value(row, #[trigger] keys[k]))
}

proof fn lemma_key_reverses(a: ValueView, b: ValueView, key: SortKeyColumn)
    ensures
        key_order(b, a, key) == order::reversed(key_order(a, b, key)),
{
    order::law_order_reverses(a, b, key.collation);
}

proof fn lemma_key_transitive(a: ValueView, b: ValueView, c: ValueView, key: SortKeyColumn)
    requires
        order::is_ordered(a),
        order::is_ordered(b),
        order::is_ordered(c),
        key_order(a, b, key) != Sorted::After,
        key_order(b, c, key) != Sorted::After,
    ensures
        key_order(a, c, key) != Sorted::After,
        key_order(a, b, key) == Sorted::Before || key_order(b, c, key) == Sorted::Before
            ==> key_order(a, c, key) == Sorted::Before,
{
    if !(a is Null) && !(b is Null) && !(c is Null) {
        order::law_order_reverses(a, b, key.collation);
        order::law_order_reverses(b, c, key.collation);
        order::law_order_reverses(a, c, key.collation);
        if key.descending {
            order::law_order_transitive(c, b, a, key.collation);
        } else {
            order::law_order_transitive(a, b, c, key.collation);
        }
    }
}

/// Turning two rows round reverses their order.
pub proof fn law_row_order_reverses(
    a: Seq<ValueView>,
    b: Seq<ValueView>,
    keys: Seq<SortKeyColumn>,
    k: int,
)
    ensures
        row_order(b, a, keys, k) == order::reversed(row_order(a, b, keys, k)),
    decreases keys.len() - k,
{
    if 0 <= k < keys.len() {
        lemma_key_reverses(key_value(a, keys[k]), key_value(b, keys[k]), keys[k]);
        law_row_order_reverses(a, b, keys, k + 1);
    }
}

/// The order of rows is transitive where the keys read no NaN.
pub proof fn law_row_order_transitive(
    a: Seq<ValueView>,
    b: Seq<ValueView>,
    c: Seq<ValueView>,
    keys: Seq<SortKeyColumn>,
    k: int,
)
    requires
        keys_ordered(a, keys),
        keys_ordered(b, keys),
        keys_ordered(c, keys),
        row_order(a, b, keys, k) != Sorted::After,
        row_order(b, c, keys, k) != Sorted::After,
    ensures
        row_order(a, c, keys, k) != Sorted::After,
        row_order(a, b, keys, k) == Sorted::Before || row_order(b, c, keys, k) == Sorted::Before
            ==> row_order(a, c, keys, k) == Sorted::Before,
    decreases keys.len() - k,
{
    if 0 <= k < keys.len() {
        let key = keys[k];
        let x = key_value(a, key);
        let y = key_value(b, key);
        let z = key_value(c, key);
        assert(order::is_ordered(x) && order::is_ordered(y) && order::is_ordered(z));
        lemma_key_transitive(x, y, z, key);
        lemma_key_reverses(x, z, key);
        lemma_key_reverses(x, y, key);
        lemma_key_reverses(y, z, key);
        if key_order(x, y, key) == Sorted::Same && key_order(y, z, key) == Sorted::Same {
            // The two directions of "not after" leave only "same".
            lemma_key_transitive(z, y, x, key);
            law_row_order_transitive(a, b, c, keys, k + 1);
        }
    }
}

/// Row `i` belongs before row `j`: it is smaller, or they compare equal and it came first.
pub open spec fn precedes(
    rows: Seq<Seq<ValueView>>,
    keys: Seq<SortKeyColumn>,
    i: usize,
    j: usize,
) -> bool {
    row_order(rows[i as int], rows[j as int], keys, 0) == Sorted::Before || (row_order(
        rows[i as int],
        rows[j as int],
        keys,
        0,
    ) == Sorted::Same && i < j)
}

/// Each row belongs before all that stand behind it.
pub open spec fn in_order(rows: Seq<Seq<ValueView>>, keys: Seq<SortKeyColumn>, s: Seq<usize>) ->
    bool {
    forall|p: int, q: int| 0 <= p < q < s.len() ==> #[trigger] precedes(rows, keys, s[p], s[q])
}

pub open spec fn all_ordered(rows: Seq<Seq<ValueView>>, keys: Seq<SortKeyColumn>) -> bool {
    forall|i: int| 0 <= i < rows.len() ==> keys_ordered(#[trigger] rows[i], keys)
}

/// Every number of `a` is below every number of `b`.
pub open spec fn all_below(a: Seq<usize>, b: Seq<usize>) -> bool {
    forall|p: int, q: int| 0 <= p < a.len() && 0 <= q < b.len() ==>
        #[trigger] a[p] < #[trigger] b[q]
}

proof fn lemma_precedes_transitive(
    rows: Seq<Seq<ValueView>>,
    keys: Seq<SortKeyColumn>,
    i: usize,
    j: usize,
    k: usize,
)
    requires
        all_ordered(rows, keys),
        i < rows.len(),
        j < rows.len(),
        k < rows.len(),
        precedes(rows, keys, i, j),
        precedes(rows, keys, j, k),
    ensures
        precedes(rows, keys, i, k),
{
    law_row_order_transitive(rows[i as int], rows[j as int], rows[k as int], keys, 0);
    if row_order(rows[i as int], rows[j as int], keys, 0) == Sorted::Same && row_order(
        rows[j as int],
        rows[k as int],
        keys,
        0,
    ) == Sorted::Same {
        law_row_order_reverses(rows[i as int], rows[j as int], keys, 0);
        law_row_order_reverses(rows[j as int], rows[k as int], keys, 0);
        law_row_order_reverses(rows[i as int], rows[k as int], keys, 0);
        law_row_order_transitive(rows[k as int], rows[j as int], rows[i as int], keys, 0);
    }
}

proof fn lemma_merged_has(
    rows: Seq<Seq<ValueView>>,
    keys: Seq<SortKeyColumn>,
    a: Seq<usize>,
    b: Seq<usize>,
    p: int,
)
    requires
        0 <= p < merged(rows, keys, a, b).len(),
    ensures
        a.contains(merged(rows, keys, a, b)[p]) || b.contains(merged(rows, keys, a, b)[p]),
    decreases a.len() + b.len(),
{
    let m = merged(rows, keys, a, b);
    if a.len() == 0 {
        assert(b.contains(b[p]));
    } else if b.len() == 0 {
        assert(a.contains(a[p]));
    } else if row_order(rows[a[0] as int], rows[b[0] as int], keys, 0) == Sorted::After {
        let rest = merged(rows, keys, a, b.drop_first());
        if p == 0 {
            assert(b.contains(b[0]));
        } else {
            assert(m[p] == rest[p - 1]);
            lemma_merged_has(rows, keys, a, b.drop_first(), p - 1);
            if b.drop_first().contains(m[p]) {
                let q = choose|q: int| 0 <= q < b.drop_first().len() && b.drop_first()[q] == m[p];
                assert(b[q + 1] == m[p]);
            }
        }
    } else {
        let rest = merged(rows, keys, a.drop_first(), b);
        if p == 0 {
            assert(a.contains(a[0]));
        } else {
            assert(m[p] == rest[p - 1]);
            lemma_merged_has(rows, keys, a.drop_first(), b, p - 1);
            if a.drop_first().contains(m[p]) {
                let q = choose|q: int| 0 <= q < a.drop_first().len() && a.drop_first()[q] == m[p];
                assert(a[q + 1] == m[p]);
            }
        }
    }
}

proof fn lemma_merged_ordered(
    rows: Seq<Seq<ValueView>>,
    keys: Seq<SortKeyColumn>,
    a: Seq<usize>,
    b: Seq<usize>,
)
    requires
        all_ordered(rows, keys),
        name_rows(a, rows.len()),
        name_rows(b, rows.len()),
        in_order(rows, keys, a),
        in_order(rows, keys, b),
        all_below(a, b),
    ensures
        in_order(rows, keys, merged(rows, keys, a, b)),
    decreases a.len() + b.len(),
{
    let m = merged(rows, keys, a, b);
    if a.len() > 0 && b.len() > 0 {
        let x = a[0];
        let y = b[0];
        let late = row_order(rows[x as int], rows[y as int], keys, 0) == Sorted::After;
        let (ra, rb) = if late {
            (a, b.drop_first())
        } else {
            (a.drop_first(), b)
        };
        let first = if late {
            y
        } else {
            x
        };
        let rest = merged(rows, keys, ra, rb);
        assert forall|p: int, q: int| 0 <= p < q < ra.len() implies #[trigger] precedes(
            rows,
            keys,
            ra[p],
            ra[q],
        ) by {
            if !late {
                assert(precedes(rows, keys, a[p + 1], a[q + 1]));
            }
        }
        assert forall|p: int, q: int| 0 <= p < q < rb.len() implies #[trigger] precedes(
            rows,
            keys,
            rb[p],
            rb[q],
        ) by {
            if late {
                assert(precedes(rows, keys, b[p + 1], b[q + 1]));
            }
        }
        assert(all_below(ra, rb));
        lemma_merged_ordered(rows, keys, ra, rb);
        law_row_order_reverses(rows[x as int], rows[y as int], keys, 0);
        if late {
            assert(precedes(rows, keys, y, x));
        } else {
            assert(a[0] < b[0]);
            assert(precedes(rows, keys, x, y));
        }
        assert(m == seq![first] + rest);
        assert forall|p: int, q: int| 0 <= p < q < m.len() implies #[trigger] precedes(
            rows,
            keys,
            m[p],
            m[q],
        ) by {
            assert(m[q] == rest[q - 1]);
            if p > 0 {
                assert(m[p] == rest[p - 1]);
            } else {
                let z = m[q];
                lemma_merged_has(rows, keys, ra, rb, q - 1);
                if ra.contains(z) {
                    let t = choose|t: int| 0 <= t < ra.len() && ra[t] == z;
                    if late {
                        if t > 0 {
                            assert(precedes(rows, keys, a[0], a[t]));
                            lemma_precedes_transitive(rows, keys, y, x, z);
                        }
                    } else {
                        assert(precedes(rows, keys, a[0], a[t + 1]));
                    }
                } else {
                    let t = choose|t: int| 0 <= t < rb.len() && rb[t] == z;
                    if late {
                        assert(precedes(rows, keys, b[0], b[t + 1]));
                    } else if t > 0 {
                        assert(precedes(rows, keys, b[0], b[t]));
                        lemma_precedes_transitive(rows, keys, x, y, z);
                    }
                }
            }
        }
    }
}

proof fn lemma_arranged_range(
    rows: Seq<Seq<ValueView>>,
    keys: Seq<SortKeyColumn>,
    from: usize,
    to: usize,
)
    requires
        from <= to <= rows.len(),
    ensures
        arranged(rows, keys, from, to).len() == to - from,
        forall|p: int|
            0 <= p < to - from ==> from <= #[trigger] arranged(rows, keys, from, to)[p] < to,
    decreases to - from,
{
    if to - from > 1 {
        let mid = (from + (to - from) / 2) as usize;
        let a = arranged(rows, keys, from, mid);
        let b = arranged(rows, keys, mid, to);
        lemma_arranged_range(rows, keys, from, mid);
        lemma_arranged_range(rows, keys, mid, to);
        lemma_merged_names(rows, keys, a, b);
        let m = merged(rows, keys, a, b);
        assert forall|p: int| 0 <= p < to - from implies from <= #[trigger] m[p] < to by {
            lemma_merged_has(rows, keys, a, b, p);
            if a.contains(m[p]) {
                let q = choose|q: int| 0 <= q < a.len() && a[q] == m[p];
            } else {
                let q = choose|q: int| 0 <= q < b.len() && b[q] == m[p];
            }
        }
    }
}

/// Sorting puts the rows in order: each row behind all smaller ones, and among rows that
/// compare equal in the order they came in. NULLs stand where each key puts them.
pub proof fn law_sort_orders(
    rows: Seq<Seq<ValueView>>,
    keys: Seq<SortKeyColumn>,
    from: usize,
    to: usize,
)
    requires
        from <= to <= rows.len(),
        all_ordered(rows, keys),
    ensures
        in_order(rows, keys, arranged(rows, keys, from, to)),
    decreases to - from,
{
    if to - from > 1 {
        let mid = (from + (to - from) / 2) as usize;
        law_sort_orders(rows, keys, from, mid);
        law_sort_orders(rows, keys, mid, to);
        lemma_arranged_range(rows, keys, from, mid);
        lemma_arranged_range(rows, keys, mid, to);
        lemma_merged_ordered(
            rows,
            keys,
            arranged(rows, keys, from, mid),
            arranged(rows, keys, mid, to),
        );
    }
}

proof fn lemma_merged_keeps(
    rows: Seq<Seq<ValueView>>,
    keys: Seq<SortKeyColumn>,
    a: Seq<usize>,
    b: Seq<usize>,
)
    ensures
        merged(rows, keys, a, b).to_multiset() == a.to_multiset().add(b.to_multiset()),
    decreases a.len() + b.len(),
{
    broadcast use vstd::seq_lib::group_to_multiset_ensures;

    let m = merged(rows, keys, a, b);
    if a.len() == 0 {
        assert(a.to_multiset().add(b.to_multiset()) =~= b.to_multiset());
    } else if b.len() == 0 {
        assert(a.to_multiset().add(b.to_multiset()) =~= a.to_multiset());
    } else if row_order(rows[a[0] as int], rows[b[0] as int], keys, 0) == Sorted::After {
        let rest = b.drop_first();
        lemma_merged_keeps(rows, keys, a, rest);
        assert(seq![b[0]] + rest =~= b);
        vstd::seq_lib::lemma_multiset_commutative(seq![b[0]], rest);
        vstd::seq_lib::lemma_multiset_commutative(seq![b[0]], merged(rows, keys, a, rest));
        assert(m.to_multiset() =~= a.to_multiset().add(b.to_multiset()));
    } else {
        let rest = a.drop_first();
        lemma_merged_keeps(rows, keys, rest, b);
        assert(seq![a[0]] + rest =~= a);
        vstd::seq_lib::lemma_multiset_commutative(seq![a[0]], rest);
        vstd::seq_lib::lemma_multiset_commutative(seq![a[0]], merged(rows, keys, rest, b));
        assert(m.to_multiset() =~= a.to_multiset().add(b.to_multiset()));
    }
}

/// The numbers `from..to` in order.
pub open spec fn numbers(from: usize, to: usize) -> Seq<usize> {
    Seq::new(
        if to > from {
            (to - from) as nat
        } else {
            0
        },
        |i: int| (from + i) as usize,
    )
}

/// Sorting loses no row and repeats none, whatever the rows hold.
pub proof fn law_sort_permutes(
    rows: Seq<Seq<ValueView>>,
    keys: Seq<SortKeyColumn>,
    from: usize,
    to: usize,
)
    requires
        from <= to,
    ensures
        arranged(rows, keys, from, to).to_multiset() == numbers(from, to).to_multiset(),
    decreases to - from,
{
    if to == from {
        assert(arranged(rows, keys, from, to) =~= numbers(from, to));
    } else if to - from == 1 {
        assert(arranged(rows, keys, from, to) =~= numbers(from, to));
    } else {
        let mid = (from + (to - from) / 2) as usize;
        let a = arranged(rows, keys, from, mid);
        let b = arranged(rows, keys, mid, to);
        law_sort_permutes(rows, keys, from, mid);
        law_sort_permutes(rows, keys, mid, to);
        lemma_merged_keeps(rows, keys, a, b);
        vstd::seq_lib::lemma_multiset_commutative(numbers(from, mid), numbers(mid, to));
        assert(numbers(from, mid) + numbers(mid, to) =~= numbers(from, to));
    }
}

/// By a descending key the greater of two values that are not NULL comes first, and by an
/// ascending one the smaller: whatever their classes, and whatever the collation.
pub proof fn law_direction_of_a_key(a: ValueView, b: ValueView, key: SortKeyColumn)
    requires
        !(a is Null),
        !(b is Null),
    ensures
        key.descending ==> (key_order(a, b, key) == Sorted::Before <==> order::value_order(
            a,
            b,
            key.collation,
        ) == Sorted::After),
        !key.descending ==> (key_order(a, b, key) == Sorted::Before <==> order::value_order(
            a,
            b,
            key.collation,
        ) == Sorted::Before),
        key_order(a, b, key) == Sorted::Same <==> order::value_order(a, b, key.collation)
            == Sorted::Same,
        key_order(a, b, key) == key_order(
            b,
            a,
            SortKeyColumn { descending: !key.descending, ..key },
        ),
{
    order::law_order_reverses(a, b, key.collation);
}

/// Where NULLs stand is a matter of the key's own choice, not of its direction.
pub proof fn law_nulls_stand_where_the_key_puts_them(b: ValueView, key: SortKeyColumn)
    requires
        !(b is Null),
    ensures
        key_order(ValueView::Null, b, key) == Sorted::Before <==> key.nulls_first,
        key_order(ValueView::Null, b, key) == Sorted::After <==> !key.nulls_first,
        key_order(b, ValueView::Null, key) == Sorted::Before <==> !key.nulls_first,
        key_order(b, ValueView::Null, key) == Sorted::After <==> key.nulls_first,
        key_order(ValueView::Null, ValueView::Null, key) == Sorted::Same,
{
}

/// The first key by which two rows differ decides, and rows that differ by none are the same;
/// what a key reads is the column it names, or NULL where the row has none.
pub proof fn law_first_differing_key_decides(
    a: Seq<ValueView>,
    b: Seq<ValueView>,
    keys: Seq<SortKeyColumn>,
    from: int,
    k: int,
)
    requires
        0 <= from <= k <= keys.len(),
        forall|j: int|
            from <= j < k ==> #[trigger] key_order(
                key_value(a, keys[j]),
                key_value(b, keys[j]),
                keys[j],
            ) == Sorted::Same,
    ensures
        k == keys.len() ==> row_order(a, b, keys, from) == Sorted::Same,
        k < keys.len() && key_order(key_value(a, keys[k]), key_value(b, keys[k]), keys[k])
            != Sorted::Same ==> row_order(a, b, keys, from) == key_order(
            key_value(a, keys[k]),
            key_value(b, keys[k]),
            keys[k],
        ),
        k < keys.len() && keys[k].index < a.len() ==> key_value(a, keys[k])
            == a[keys[k].index as int],
        k < keys.len() && keys[k].index >= a.len() ==> key_value(a, keys[k]) is Null,
    decreases k - from,
{
    if from < k {
        assert(key_order(key_value(a, keys[from]), key_value(b, keys[from]), keys[from])
            == Sorted::Same);
        law_first_differing_key_decides(a, b, keys, from + 1, k);
    }
}

proof fn lemma_rows_from(buffer: Seq<Seq<u8>>, k: int)
    requires
        0 <= k <= buffer.len(),
        rows_from(buffer, k) is Ok,
    ensures
        rows_from(buffer, k)->Ok_0.len() == buffer.len() - k,
        forall|j: int|
            k <= j < buffer.len() ==> decode::row_of(#[trigger] buffer[j], TextEncoding::Utf8)
                == Ok::<Seq<ValueView>, RecordError>(rows_from(buffer, k)->Ok_0[j - k]),
    decreases buffer.len() - k,
{
    if k < buffer.len() {
        lemma_rows_from(buffer, k + 1);
        let rest = rows_from(buffer, k + 1)->Ok_0;
        let all = rows_from(buffer, k)->Ok_0;
        assert forall|j: int| k <= j < buffer.len() implies decode::row_of(
            #[trigger] buffer[j],
            TextEncoding::Utf8,
        ) == Ok::<Seq<ValueView>, RecordError>(all[j - k]) by {
            if j > k {
                assert(all[j - k] == rest[j - k - 1]);
            }
        }
    }
}

/// What a record holds.
pub open spec fn row_in(record: Seq<u8>) -> Seq<ValueView> {
    decode::row_of(record, TextEncoding::Utf8)->Ok_0
}

/// After a sort by one key, of every two rows the first belongs there: a NULL stands in front
/// where the key puts NULLs first and at the end else, and of two other values the first is
/// not less by a descending key, and not greater by an ascending one.
pub proof fn law_sorted_by_one_key(
    m: VmView,
    i: InstructionView,
    t: SorterView,
    key: SortKeyColumn,
    p: int,
    q: int,
)
    requires
        m.cursor_mut(i.p1) == Ok::<SlotView, crate::vdbe::error::ErrorView>(SlotView::Sorter(t)),
        t.keys == seq![key],
        t.buffer.len() <= usize::MAX,
        rows_from(t.buffer, 0) is Ok,
        all_ordered(rows_from(t.buffer, 0)->Ok_0, t.keys),
        0 <= p < q < t.buffer.len(),
    ensures
        ({
            let after = SorterView {
                buffer: sorted_records(t.buffer, rows_from(t.buffer, 0)->Ok_0, t.keys),
                sorted: true,
                pos: 0,
                ..t
            };
            let a = key_value(row_in(after.buffer[p]), key);
            let b = key_value(row_in(after.buffer[q]), key);
            &&& sorter_sort_effect(m, i) == vm::stepped(
                m.with_slot(i.p1, SlotView::Sorter(after)),
                StepView::Next,
            )
            &&& after.buffer.len() == t.buffer.len()
            &&& key.nulls_first && b is Null ==> a is Null
            &&& !key.nulls_first && a is Null ==> b is Null
            &&& !(a is Null) && !(b is Null) && key.descending ==> order::value_order(
                a,
                b,
                key.collation,
            ) != Sorted::Before
            &&& !(a is Null) && !(b is Null) && !key.descending ==> order::value_order(
                a,
                b,
                key.collation,
            ) != Sorted::After
        }),
{
    let rows = rows_from(t.buffer, 0)->Ok_0;
    let n = t.buffer.len() as usize;
    lemma_rows_from(t.buffer, 0);
    law_sort_orders(rows, t.keys, 0, n);
    lemma_arranged_range(rows, t.keys, 0, n);
    let s = arranged(rows, t.keys, 0, n);
    assert(precedes(rows, t.keys, s[p], s[q]));
    assert(t.keys[0] == key);
    let a = key_value(rows[s[p] as int], key);
    let b = key_value(rows[s[q] as int], key);
    assert(row_in(t.buffer[s[p] as int]) == rows[s[p] as int]);
    assert(row_in(t.buffer[s[q] as int]) == rows[s[q] as int]);
    assert(row_order(rows[s[p] as int], rows[s[q] as int], t.keys, 1) == Sorted::Same);
    assert(key_order(a, b, key) != Sorted::After);
    if !(a is Null) && !(b is Null) {
        law_direction_of_a_key(a, b, key);
        order::law_order_reverses(a, b, key.collation);
        law_direction_of_a_key(b, a, key);
    }
}

/// What a sorter hands out is what was put into it, each record as often: inserting puts a
/// record behind the others, and sorting only moves them.
pub proof fn law_sorter_keeps_records(
    m: VmView,
    i: InstructionView,
    t: SorterView,
    record: Seq<u8>,
)
    requires
        m.cursor_mut(i.p1) == Ok::<SlotView, crate::vdbe::error::ErrorView>(SlotView::Sorter(t)),
        t.buffer.len() <= usize::MAX,
    ensures
        m.register(i.p2) == Ok::<ValueView, crate::vdbe::error::ErrorView>(
            ValueView::Blob(record),
        ) ==> sorter_insert_effect(m, i) == vm::stepped(
            m.with_slot(
                i.p1,
                SlotView::Sorter(
                    SorterView { buffer: t.buffer.push(record), sorted: false, ..t },
                ),
            ),
            StepView::Next,
        ),
        rows_from(t.buffer, 0) is Ok ==> sorted_records(
            t.buffer,
            rows_from(t.buffer, 0)->Ok_0,
            t.keys,
        ).to_multiset() == t.buffer.to_multiset(),
{
    let n = t.buffer.len() as usize;
    if rows_from(t.buffer, 0) is Ok {
        let rows = rows_from(t.buffer, 0)->Ok_0;
        lemma_rows_from(t.buffer, 0);
        law_sort_permutes(rows, t.keys, 0, n);
        let s = arranged(rows, t.keys, 0, n);
        lemma_picked(t.buffer, s, numbers(0, n));
        assert(numbers(0, n).map_values(|k: usize| t.buffer[k as int]) =~= t.buffer);
    }
}

/// The same numbers pick the same records.
proof fn lemma_picked(buffer: Seq<Seq<u8>>, a: Seq<usize>, b: Seq<usize>)
    requires
        a.to_multiset() == b.to_multiset(),
    ensures
        a.map_values(|k: usize| buffer[k as int]).to_multiset() == b.map_values(
            |k: usize| buffer[k as int],
        ).to_multiset(),
    decreases a.len(),
{
    broadcast use vstd::seq_lib::group_to_multiset_ensures;

    let f = |k: usize| buffer[k as int];
    a.to_multiset_ensures();
    b.to_multiset_ensures();
    assert(a.len() == b.len());
    if a.len() > 0 {
        let x = a.last();
        assert(a.contains(x)) by {
            assert(a[a.len() - 1] == x);
        }
        assert(b.to_multiset().count(x) > 0);
        assert(b.contains(x));
        let j = choose|j: int| 0 <= j < b.len() && b[j] == x;
        let less = a.drop_last();
        let other = b.remove(j);
        assert(a =~= less.push(x));
        assert(less.to_multiset() =~= other.to_multiset());
        lemma_picked(buffer, less, other);
        assert(a.map_values(f) =~= less.map_values(f).push(f(x)));
        assert(b.map_values(f).remove(j) =~= other.map_values(f));
        assert(b.map_values(f)[j] == f(x));
        b.map_values(f).to_multiset_ensures();
        less.map_values(f).to_multiset_ensures();
        assert(a.map_values(f).to_multiset() =~= b.map_values(f).to_multiset());
    } else {
        assert(a =~= b);
    }
}

} // verus!
