//! Laws that span several instructions.
use crate::record::decode;
use crate::record::encode;
use crate::record::round_trip;
use crate::record::value::{TextEncoding, ValueView};
use crate::vdbe::affinity;
use crate::vdbe::affinity::{Affinity, Conversion};
use crate::vdbe::change;
use crate::vdbe::cursor;
use crate::vdbe::error::ErrorView;
use crate::vdbe::program::{InstructionView, P4View};
use crate::vdbe::request::TablePlace;
use crate::vdbe::result;
use crate::vdbe::slot::{EphemeralTableView, SlotView, MAX_EPHEMERAL_ROWS};
use crate::vdbe::sorter;
use crate::vdbe::vm;
use crate::vdbe::vm::{StepView, VmView};
use vstd::prelude::*;

verus! {

/// A record read through a pseudo-cursor gives back the values it was made of, and NULL
/// beyond them.
pub proof fn law_pseudo_reads_record(
    m: VmView,
    slot: i32,
    register: i32,
    columns: Seq<ValueView>,
    idx: int,
)
    requires
        m.cursor(slot) == Ok::<SlotView, ErrorView>(SlotView::Pseudo { register }),
        m.register(register) == Ok::<ValueView, ErrorView>(
            ValueView::Blob(encode::record_of(columns, TextEncoding::Utf8)),
        ),
        round_trip::fits(columns, TextEncoding::Utf8),
        0 <= idx,
    ensures
        cursor::row_column(m, slot, idx, "Column"@) == Ok::<ValueView, ErrorView>(
            if idx < columns.len() {
                columns[idx]
            } else {
                ValueView::Null
            },
        ),
{
    round_trip::law_column_round_trip(columns, idx, TextEncoding::Utf8);
}

/// `MakeRecord` without affinities leaves a record of the registers as they are.
pub proof fn law_make_record_encodes_registers(m: VmView, i: InstructionView)
    requires
        !(i.p4 is Affinity),
        vm::in_range(i.p3),
        0 <= i.p2 <= crate::vdbe::error::MAX_REGISTERS,
        i.p2 > 0 ==> vm::in_range(i.p1) && i.p1 + i.p2 - 1 <= crate::vdbe::error::MAX_REGISTERS,
    ensures
        result::make_record_effect(m, i) == vm::stepped(
            m.with_register(
                i.p3,
                ValueView::Blob(
                    encode::record_of(
                        vm::held_range(m, i.p1 as int, i.p2 as nat),
                        TextEncoding::Utf8,
                    ),
                ),
            ),
            StepView::Next,
        ),
{
    let columns = vm::held_range(m, i.p1 as int, i.p2 as nat);
    if i.p2 == 0 {
        assert(columns =~= Seq::empty());
    }
    lemma_unconverted(m, i, columns, 0);
}

proof fn lemma_unconverted(m: VmView, i: InstructionView, columns: Seq<ValueView>, at: int)
    requires
        !(i.p4 is Affinity),
        0 <= at <= columns.len(),
    ensures
        result::record_effect(m, i, columns, at) == vm::stored(
            m,
            i.p3,
            ValueView::Blob(encode::record_of(columns, TextEncoding::Utf8)),
            StepView::Next,
        ),
    decreases columns.len() - at,
{
    if at < columns.len() {
        assert(columns.update(at, columns[at]) =~= columns);
        lemma_unconverted(m, i, columns, at + 1);
    }
}

/// A row inserted into an in-memory table comes last, and reads back as the values its
/// record was made of, in the database's text encoding.
pub proof fn law_inserted_row_reads_back(
    m: VmView,
    i: InstructionView,
    t: EphemeralTableView,
    rowid: i64,
    columns: Seq<ValueView>,
    idx: int,
    move_last: InstructionView,
)
    requires
        m.cursor(i.p1) == Ok::<SlotView, ErrorView>(SlotView::EphemeralTable(t)),
        t.rows.len() < MAX_EPHEMERAL_ROWS,
        m.register(i.p2) == Ok::<ValueView, ErrorView>(ValueView::Integer(rowid)),
        m.register(i.p3) == Ok::<ValueView, ErrorView>(
            ValueView::Blob(encode::record_of(columns, change::row_encoding(m))),
        ),
        round_trip::fits(columns, change::row_encoding(m)),
        0 <= idx,
        move_last.p1 == i.p1,
    ensures
        ({
            let after = change::insert_effect(m, i).vm;
            let there = cursor::last_effect(after, move_last);
            &&& change::insert_effect(m, i).step == Ok::<StepView, ErrorView>(StepView::Next)
            &&& there.step == Ok::<StepView, ErrorView>(StepView::Next)
            &&& cursor::row_column(there.vm, i.p1, idx, "Column"@) == Ok::<ValueView, ErrorView>(
                if idx < columns.len() {
                    columns[idx]
                } else {
                    ValueView::Null
                },
            )
            &&& vm::in_range(move_last.p2) ==> cursor::rowid_effect(
                there.vm,
                move_last,
            ).vm.held(move_last.p2 as int) == ValueView::Integer(rowid)
        }),
{
    round_trip::law_record_round_trip(columns, change::row_encoding(m));
    let after = change::insert_effect(m, i).vm;
    let more = EphemeralTableView { rows: t.rows.push((rowid, columns)), ..t };
    assert(after.cursor_mut(i.p1) == Ok::<SlotView, ErrorView>(SlotView::EphemeralTable(more)));
    assert(cursor::moved_to(more, TablePlace::Last) == Some(t.rows.len() as usize));
    let there = cursor::last_effect(after, move_last).vm;
    let placed = EphemeralTableView { pos: Some(t.rows.len() as usize), ..more };
    assert(there.cursor(i.p1) == Ok::<SlotView, ErrorView>(SlotView::EphemeralTable(placed)));
    assert(placed.rows[t.rows.len() as int] == (rowid, columns));
}

/// Scanning an in-memory table from its first row visits the rows one after the other, in
/// the order they were inserted in, and then ends.
pub proof fn law_scan_visits_in_order(t: EphemeralTableView, k: usize)
    requires
        k < t.rows.len(),
        t.rows.len() <= usize::MAX,
    ensures
        cursor::moved_to(t, TablePlace::First) == Some(0usize),
        cursor::moved_to(EphemeralTableView { pos: Some(k), ..t }, TablePlace::Next) == (if k + 1
            < t.rows.len() {
            Some((k + 1) as usize)
        } else {
            None
        }),
        cursor::ephemeral_row(EphemeralTableView { pos: Some(k), ..t }) == Some(t.rows[k as int]),
{
}

/// A sorter hands its rows out in order: after `SorterSort` the first is the current one, and
/// every `SorterNext` moves to the one behind it, until there is none.
pub proof fn law_sorter_hands_out_in_order(
    m: VmView,
    i: InstructionView,
    t: crate::vdbe::slot::SorterView,
    data: InstructionView,
)
    requires
        m.cursor(i.p1) == Ok::<SlotView, ErrorView>(SlotView::Sorter(t)),
        t.sorted,
        t.pos < t.buffer.len(),
        t.buffer.len() <= usize::MAX,
        data.p1 == i.p1,
        vm::in_range(data.p2),
    ensures
        sorter::sorter_data_effect(m, data) == vm::stepped(
            m.with_register(data.p2, ValueView::Blob(t.buffer[t.pos as int])),
            StepView::Next,
        ),
        sorter::sorter_next_effect(m, i).step == Ok::<StepView, ErrorView>(
            crate::vdbe::control::jump_if(t.pos + 1 < t.buffer.len(), i.p2),
        ),
        t.pos + 1 < t.buffer.len() ==> sorter::sorter_data_effect(
            sorter::sorter_next_effect(m, i).vm,
            data,
        ).vm.held(data.p2 as int) == ValueView::Blob(t.buffer[t.pos + 1]),
{
}

/// The affinity that `MakeRecord` gives the column at `k`: by its letter, and none where there is
/// no letter.
pub open spec fn lettered(letters: Seq<u8>, k: int) -> Affinity {
    if k < letters.len() {
        affinity::byte_affinity(letters[k])
    } else {
        Affinity::Blob
    }
}

proof fn lemma_converted(
    m: VmView,
    i: InstructionView,
    letters: Seq<u8>,
    columns: Seq<ValueView>,
    converted: Seq<ValueView>,
    at: int,
)
    requires
        i.p4 == P4View::Affinity(letters),
        columns.len() == converted.len(),
        0 <= at <= columns.len(),
        forall|k: int|
            at <= k < columns.len() ==> affinity::conversion(
                #[trigger] columns[k],
                lettered(letters, k),
            ) == Conversion::Value(converted[k]),
    ensures
        result::record_effect(m, i, converted.take(at) + columns.skip(at), at) == vm::stored(
            m,
            i.p3,
            ValueView::Blob(encode::record_of(converted, TextEncoding::Utf8)),
            StepView::Next,
        ),
    decreases columns.len() - at,
{
    let now = converted.take(at) + columns.skip(at);
    if at < columns.len() {
        assert(now[at] == columns[at]);
        assert(now.update(at, converted[at]) =~= converted.take(at + 1) + columns.skip(at + 1));
        lemma_converted(m, i, letters, columns, converted, at + 1);
    } else {
        assert(now =~= converted);
    }
}

/// `MakeRecord` with affinities leaves a record of the registers, each converted by the affinity
/// of its letter.
pub proof fn law_make_record_converts_registers(
    m: VmView,
    i: InstructionView,
    letters: Seq<u8>,
    converted: Seq<ValueView>,
)
    requires
        i.p4 == P4View::Affinity(letters),
        vm::in_range(i.p1),
        vm::in_range(i.p3),
        0 < i.p2 <= crate::vdbe::error::MAX_REGISTERS,
        i.p1 + i.p2 - 1 <= crate::vdbe::error::MAX_REGISTERS,
        converted.len() == i.p2,
        forall|k: int|
            0 <= k < i.p2 ==> affinity::conversion(
                m.held(i.p1 + k),
                #[trigger] lettered(letters, k),
            ) == Conversion::Value(converted[k]),
    ensures
        result::make_record_effect(m, i) == vm::stepped(
            m.with_register(
                i.p3,
                ValueView::Blob(encode::record_of(converted, TextEncoding::Utf8)),
            ),
            StepView::Next,
        ),
{
    let columns = vm::held_range(m, i.p1 as int, i.p2 as nat);
    assert forall|k: int| 0 <= k < columns.len() implies affinity::conversion(
        #[trigger] columns[k],
        lettered(letters, k),
    ) == Conversion::Value(converted[k]) by {
        assert(columns[k] == m.held(i.p1 + k));
        let letter = lettered(letters, k);
        assert(affinity::conversion(m.held(i.p1 + k), letter) == Conversion::Value(converted[k]));
    }
    lemma_converted(m, i, letters, columns, converted, 0);
    assert(converted.take(0) + columns.skip(0) =~= columns);
}

/// The sequence counter of a table is that of the first row that records it.
pub proof fn law_first_counter_counts(
    payloads: Seq<Seq<u8>>,
    from: int,
    k: int,
    failure: Option<Seq<char>>,
    encoding: TextEncoding,
    table: Seq<char>,
    counter: i64,
)
    requires
        0 <= from <= k < payloads.len(),
        forall|j: int|
            from <= j < k ==> decode::row_of(#[trigger] payloads[j], encoding) is Ok && (
            decode::row_of(payloads[j], encoding)->Ok_0.len() < 2 || decode::row_of(
                payloads[j],
                encoding,
            )->Ok_0[0] != ValueView::Text(table)),
        decode::row_of(payloads[k], encoding) is Ok,
        decode::row_of(payloads[k], encoding)->Ok_0.len() >= 2,
        decode::row_of(payloads[k], encoding)->Ok_0[0] == ValueView::Text(table),
        decode::row_of(payloads[k], encoding)->Ok_0[1] == ValueView::Integer(counter),
    ensures
        change::tracked_counter(payloads, from, failure, encoding, table) == Ok::<i64, ErrorView>(
            counter,
        ),
    decreases k - from,
{
    if from < k {
        assert(decode::row_of(payloads[from], encoding) is Ok);
        law_first_counter_counts(payloads, from + 1, k, failure, encoding, table, counter);
    }
}

} // verus!
