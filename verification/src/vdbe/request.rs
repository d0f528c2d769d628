//! What the machine asks of the outside: the b-trees and the schema of the database,
//! floating point, and the scalar functions. An instruction that needs one of these is left
//! with a [`Request`]; its [`Reply`] carries the instruction on.
use crate::record::value;
use crate::record::value::{Value, ValueView};
use crate::vdbe::coerce::{Calculation, CalculationView};
use vstd::prelude::*;

verus! {

/// Where to move a table cursor.
#[derive(Debug, Clone, Copy, PartialEq, Eq, Structural)]
pub enum TablePlace {
    First,
    Last,
    Next,
    Rowid(i64),
}

/// Where to move an index cursor.
#[derive(Debug, Clone, Copy, PartialEq, Eq, Structural)]
pub enum IndexPlace {
    First,
    Last,
    Next,
    Previous,
}

/// A row of the schema table.
#[derive(Debug, Clone, PartialEq)]
pub struct MasterEntry {
    pub kind: String,
    pub name: String,
    pub tbl_name: String,
    pub rootpage: u32,
    pub sql: String,
}

/// What a [`MasterEntry`] stands for.
#[verifier::ext_equal]
pub struct MasterEntryView {
    pub kind: Seq<char>,
    pub name: Seq<char>,
    pub tbl_name: Seq<char>,
    pub rootpage: u32,
    pub sql: Seq<char>,
}

impl MasterEntry {
    pub open spec fn view(&self) -> MasterEntryView {
        MasterEntryView {
            kind: self.kind@,
            name: self.name@,
            tbl_name: self.tbl_name@,
            rootpage: self.rootpage,
            sql: self.sql@,
        }
    }
}

/// One piece of outside work.
#[derive(Debug, Clone, PartialEq)]
pub enum Request {
    /// Move the table cursor in `slot`, open on `root_page`; one that was never moved before
    /// is `fresh`. Answered by [`Reply::Row`].
    MoveTable { slot: i32, fresh: bool, root_page: u32, place: TablePlace },
    /// Move the index cursor in `slot`, open on `root_page`; one that was never moved before
    /// is `fresh`. Answered by [`Reply::Entry`].
    MoveIndex { slot: i32, fresh: bool, root_page: u32, place: IndexPlace },
    /// The first entry of the index that is not less than `key`. Answered by
    /// [`Reply::Entry`].
    SeekIndex { root_page: u32, key: Vec<Value> },
    /// The table's last row, found without moving any cursor. Answered by [`Reply::Row`].
    LastRow { root_page: u32 },
    /// Answered by [`Reply::Done`].
    InsertRow { root_page: u32, rowid: i64, payload: Vec<u8> },
    /// Answered by [`Reply::Done`].
    DeleteRow { root_page: u32, rowid: i64 },
    /// Answered by [`Reply::Done`].
    InsertEntry { root_page: u32, key: Vec<Value> },
    /// Answered by [`Reply::Done`].
    DeleteEntry { root_page: u32, key: Vec<Value> },
    /// The root page of the table of sequence counters, created where it is missing.
    /// `highest` is the highest rowid of the table that asks. Answered by [`Reply::Root`].
    EnsureSequenceTable { highest: i64 },
    /// The payloads of the table of sequence counters, in order. Answered by
    /// [`Reply::Rows`].
    ReadSequenceTable { root_page: u32, highest: i64 },
    /// Record `value` as the counter of `table`. Answered by [`Reply::Done`].
    UpdateSequence { table: String, value: i64 },
    /// Answered by [`Reply::Root`].
    CreateTableRoot,
    /// Answered by [`Reply::Root`].
    CreateIndexRoot,
    /// Enter every row of the table into the index. Answered by [`Reply::Done`].
    PopulateIndex { table_root_page: u32, index_root_page: u32, column_indices: Vec<usize> },
    /// Answered by [`Reply::Done`].
    InsertMasterRow(MasterEntry),
    /// Give the pages of a b-tree back; the `step`th part of its statement. Answered by
    /// [`Reply::Done`].
    FreePages { root_page: u32, step: usize },
    /// Answered by [`Reply::Done`]; the `step`th part of its statement.
    DeleteMasterRow { name: String, step: usize },
    /// Answered by [`Reply::Done`].
    BumpSchemaCookie,
    /// The calculation's next task. Answered by [`Reply::Number`].
    Calculate(Calculation),
    /// The double nearest to a numeric literal. Answered by [`Reply::Number`].
    Parse(String),
    /// The double that all of `text` spells, if it spells one: the text of column `at` among
    /// the columns of a record. Answered by [`Reply::Parsed`].
    ParseWhole { text: String, columns: Vec<Value>, at: usize },
    /// Call a scalar function. Answered by [`Reply::Value`].
    Call { name: String, arguments: Vec<Value> },
}

/// What a [`Request`] stands for.
#[verifier::ext_equal]
pub enum RequestView {
    MoveTable { slot: i32, fresh: bool, root_page: u32, place: TablePlace },
    MoveIndex { slot: i32, fresh: bool, root_page: u32, place: IndexPlace },
    SeekIndex { root_page: u32, key: Seq<ValueView> },
    LastRow { root_page: u32 },
    InsertRow { root_page: u32, rowid: i64, payload: Seq<u8> },
    DeleteRow { root_page: u32, rowid: i64 },
    InsertEntry { root_page: u32, key: Seq<ValueView> },
    DeleteEntry { root_page: u32, key: Seq<ValueView> },
    EnsureSequenceTable { highest: i64 },
    ReadSequenceTable { root_page: u32, highest: i64 },
    UpdateSequence { table: Seq<char>, value: i64 },
    CreateTableRoot,
    CreateIndexRoot,
    PopulateIndex { table_root_page: u32, index_root_page: u32, column_indices: Seq<usize> },
    InsertMasterRow(MasterEntryView),
    FreePages { root_page: u32, step: usize },
    DeleteMasterRow { name: Seq<char>, step: usize },
    BumpSchemaCookie,
    Calculate(CalculationView),
    Parse(Seq<char>),
    ParseWhole { text: Seq<char>, columns: Seq<ValueView>, at: usize },
    Call { name: Seq<char>, arguments: Seq<ValueView> },
}

impl Request {
    pub open spec fn view(&self) -> RequestView {
        match self {
            Request::MoveTable { slot, fresh, root_page, place } => RequestView::MoveTable {
                slot: *slot,
                fresh: *fresh,
                root_page: *root_page,
                place: *place,
            },
            Request::MoveIndex { slot, fresh, root_page, place } => RequestView::MoveIndex {
                slot: *slot,
                fresh: *fresh,
                root_page: *root_page,
                place: *place,
            },
            Request::SeekIndex { root_page, key } => RequestView::SeekIndex {
                root_page: *root_page,
                key: value::values(key@),
            },
            Request::LastRow { root_page } => RequestView::LastRow { root_page: *root_page },
            Request::InsertRow { root_page, rowid, payload } => RequestView::InsertRow {
                root_page: *root_page,
                rowid: *rowid,
                payload: payload@,
            },
            Request::DeleteRow { root_page, rowid } => RequestView::DeleteRow {
                root_page: *root_page,
                rowid: *rowid,
            },
            Request::InsertEntry { root_page, key } => RequestView::InsertEntry {
                root_page: *root_page,
                key: value::values(key@),
            },
            Request::DeleteEntry { root_page, key } => RequestView::DeleteEntry {
                root_page: *root_page,
                key: value::values(key@),
            },
            Request::EnsureSequenceTable { highest } => RequestView::EnsureSequenceTable {
                highest: *highest,
            },
            Request::ReadSequenceTable { root_page, highest } => RequestView::ReadSequenceTable {
                root_page: *root_page,
                highest: *highest,
            },
            Request::UpdateSequence { table, value } => RequestView::UpdateSequence {
                table: table@,
                value: *value,
            },
            Request::CreateTableRoot => RequestView::CreateTableRoot,
            Request::CreateIndexRoot => RequestView::CreateIndexRoot,
            Request::PopulateIndex { table_root_page, index_root_page, column_indices } => {
                RequestView::PopulateIndex {
                    table_root_page: *table_root_page,
                    index_root_page: *index_root_page,
                    column_indices: column_indices@,
                }
            },
            Request::InsertMasterRow(entry) => RequestView::InsertMasterRow(entry@),
            Request::FreePages { root_page, step } => RequestView::FreePages {
                root_page: *root_page,
                step: *step,
            },
            Request::DeleteMasterRow { name, step } => RequestView::DeleteMasterRow {
                name: name@,
                step: *step,
            },
            Request::BumpSchemaCookie => RequestView::BumpSchemaCookie,
            Request::Calculate(c) => RequestView::Calculate(c@),
            Request::Parse(s) => RequestView::Parse(s@),
            Request::ParseWhole { text, columns, at } => RequestView::ParseWhole {
                text: text@,
                columns: value::values(columns@),
                at: *at,
            },
            Request::Call { name, arguments } => RequestView::Call {
                name: name@,
                arguments: value::values(arguments@),
            },
        }
    }
}

/// A row of a table b-tree.
#[derive(Debug, Clone, PartialEq)]
pub struct TableRow {
    pub rowid: i64,
    pub payload: Vec<u8>,
}

/// What a [`TableRow`] stands for.
#[verifier::ext_equal]
pub struct RowView {
    pub rowid: i64,
    pub payload: Seq<u8>,
}

impl TableRow {
    pub open spec fn view(&self) -> RowView {
        RowView { rowid: self.rowid, payload: self.payload@ }
    }
}

/// What came of a piece of outside work.
#[derive(Debug, Clone, PartialEq)]
pub enum Reply {
    /// The row the cursor now stands on, if any.
    Row(Option<TableRow>),
    /// The payload of the index entry the cursor now stands on, if any.
    Entry(Option<Vec<u8>>),
    /// The root page of a b-tree.
    Root(u32),
    /// The payloads of a table's rows in order, up to a failure to read on.
    Rows { payloads: Vec<Vec<u8>>, failure: Option<String> },
    /// The work is done.
    Done,
    /// A floating-point value, as its bit pattern.
    Number(u64),
    /// The floating-point value that a text spells, if it spells one.
    Parsed(Option<u64>),
    /// A function's result.
    Value(Value),
    /// The work failed, for the reason given.
    Failed(String),
}

/// What a [`Reply`] stands for.
#[verifier::ext_equal]
pub enum ReplyView {
    Row(Option<RowView>),
    Entry(Option<Seq<u8>>),
    Root(u32),
    Rows { payloads: Seq<Seq<u8>>, failure: Option<Seq<char>> },
    Done,
    Number(u64),
    Parsed(Option<u64>),
    Value(ValueView),
    Failed(Seq<char>),
}

/// Byte strings, each as its bytes.
pub open spec fn byte_strings(v: Seq<Vec<u8>>) -> Seq<Seq<u8>> {
    v.map_values(|b: Vec<u8>| b@)
}

pub open spec fn row_view(r: Option<TableRow>) -> Option<RowView> {
    match r {
        Some(row) => Some(row@),
        None => None,
    }
}

pub open spec fn bytes_view(r: Option<Vec<u8>>) -> Option<Seq<u8>> {
    match r {
        Some(b) => Some(b@),
        None => None,
    }
}

impl Reply {
    pub open spec fn view(&self) -> ReplyView {
        match self {
            Reply::Row(r) => ReplyView::Row(row_view(*r)),
            Reply::Entry(r) => ReplyView::Entry(bytes_view(*r)),
            Reply::Root(p) => ReplyView::Root(*p),
            Reply::Rows { payloads, failure } => ReplyView::Rows {
                payloads: byte_strings(payloads@),
                failure: crate::vdbe::error::optional_text(*failure),
            },
            Reply::Done => ReplyView::Done,
            Reply::Number(b) => ReplyView::Number(*b),
            Reply::Parsed(b) => ReplyView::Parsed(*b),
            Reply::Value(v) => ReplyView::Value(v@),
            Reply::Failed(s) => ReplyView::Failed(s@),
        }
    }
}

} // verus!
