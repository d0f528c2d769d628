//! What an open cursor slot holds.
use crate::record::decode;
use crate::record::error::RecordError;
use crate::record::value;
use crate::record::value::{TextEncoding, Value, ValueView};
use crate::text::Sorted;
use crate::vdbe::order;
use crate::vdbe::program::SortKeyColumn;
use crate::vdbe::request;
use crate::vdbe::request::{RowView, TableRow};
use crate::vdbe::saturate;
use vstd::prelude::*;

verus! {

/// A record payload's header, parsed once: each column's serial type paired with the byte
/// offset of its body within the row's payload. Lets repeated `Column` operations against
/// the same row look up an offset directly instead of re-walking the header from byte 0
/// every time.
#[derive(Debug, Clone, PartialEq)]
pub struct RowHeaderCache {
    entries: Vec<(u64, usize)>,
    valid: bool,
}

impl RowHeaderCache {
    /// Where it is marked valid, it holds the header of `payload`.
    pub closed spec fn fits(&self, payload: Option<Seq<u8>>) -> bool {
        self.valid ==> payload is Some && decode::entries_of(payload->0) == Ok::<
            Seq<(nat, usize)>,
            RecordError,
        >(decode::entry_views(self.entries@))
    }

    pub fn new() -> (r: Self)
        ensures
            forall|payload: Option<Seq<u8>>| #[trigger] r.fits(payload),
    {
        RowHeaderCache { entries: Vec::new(), valid: false }
    }

    fn invalidate(&mut self)
        ensures
            forall|payload: Option<Seq<u8>>| #[trigger] final(self).fits(payload),
    {
        self.valid = false;
    }

    /// Parses `payload`'s header if not already valid for the current row; a no-op
    /// otherwise.
    fn ensure(&mut self, payload: &Vec<u8>) -> (r: Result<(), RecordError>)
        requires
            old(self).fits(Some(payload@)),
        ensures
            final(self).fits(Some(payload@)),
            match r {
                Ok(_) => final(self).valid,
                Err(e) => decode::entries_of(payload@) == Err::<Seq<(nat, usize)>, RecordError>(
                    e,
                ),
            },
    {
        if !self.valid {
            self.entries = decode::parse_header(payload.as_slice())?;
            self.valid = true;
        }
        Ok(())
    }

    /// Column `idx` of the row whose payload this is.
    pub fn column(&mut self, payload: &Vec<u8>, idx: usize, encoding: TextEncoding) -> (r: Result<
        Value,
        RecordError,
    >)
        requires
            old(self).fits(Some(payload@)),
        ensures
            final(self).fits(Some(payload@)),
            match r {
                Ok(v) => decode::column_of(payload@, idx as int, encoding) == Ok::<
                    ValueView,
                    RecordError,
                >(v@),
                Err(e) => decode::column_of(payload@, idx as int, encoding) == Err::<
                    ValueView,
                    RecordError,
                >(e),
            },
    {
        self.ensure(payload)?;
        assert(decode::entry_views(self.entries@).len() == self.entries@.len());
        if idx < self.entries.len() {
            let (serial_type, offset) = self.entries[idx];
            assert(decode::entry_views(self.entries@)[idx as int] == (serial_type as nat, offset));
            decode::decode_serial_value(serial_type, payload.as_slice(), offset, encoding)
        } else {
            Ok(Value::Null)
        }
    }
}

/// A cursor over a table b-tree: the row the last move put it on (`None` once exhausted),
/// and whether `NullRow` has forced it to read as an all-NULL row.
#[derive(Debug, Clone, PartialEq)]
pub struct TableCursorState {
    pub fresh: bool,
    pub forced_null: bool,
    pub root_page: u32,
    current: Option<TableRow>,
    header_cache: RowHeaderCache,
}

/// What a [`TableCursorState`] stands for.
#[verifier::ext_equal]
pub struct TableView {
    pub fresh: bool,
    pub forced_null: bool,
    pub root_page: u32,
    pub current: Option<RowView>,
}

impl TableCursorState {
    pub closed spec fn view(&self) -> TableView {
        TableView {
            fresh: self.fresh,
            forced_null: self.forced_null,
            root_page: self.root_page,
            current: request::row_view(self.current),
        }
    }

    /// The header cache never outlives its row.
    pub closed spec fn wf(&self) -> bool {
        self.header_cache.fits(
            match self.current {
                Some(row) => Some(row.payload@),
                None => None,
            },
        )
    }

    /// A cursor on `root_page` that stands on no row yet.
    pub fn new(root_page: u32) -> (r: Self)
        ensures
            r.wf(),
            r@ == (TableView { fresh: true, forced_null: false, root_page, current: None }),
    {
        TableCursorState {
            fresh: true,
            forced_null: false,
            root_page,
            current: None,
            header_cache: RowHeaderCache::new(),
        }
    }

    /// Gets ready for a move: the forced NULL row ends. Says whether the cursor was never
    /// moved before.
    pub fn start_move(&mut self) -> (fresh: bool)
        requires
            old(self).wf(),
        ensures
            final(self).wf(),
            fresh == old(self)@.fresh,
            final(self)@ == (TableView { fresh: false, forced_null: false, ..old(self)@ }),
    {
        let fresh = self.fresh;
        self.fresh = false;
        self.forced_null = false;
        fresh
    }

    /// The sole setter for the current row, paired with invalidating the header cache, so a
    /// cache can never survive its row.
    pub fn set_current(&mut self, row: Option<TableRow>)
        ensures
            final(self).wf(),
            final(self)@ == (TableView { current: request::row_view(row), ..old(self)@ }),
    {
        self.current = row;
        self.header_cache.invalidate();
    }

    /// Makes the cursor read as an all-NULL row.
    pub fn force_null(&mut self)
        ensures
            final(self).wf(),
            final(self)@ == (TableView { forced_null: true, current: None, ..old(self)@ }),
    {
        self.forced_null = true;
        self.set_current(None);
    }

    /// The fields of the cursor that are not its row.
    pub fn root(&self) -> (r: u32)
        ensures
            r == self@.root_page,
    {
        self.root_page
    }

    pub fn is_forced_null(&self) -> (b: bool)
        ensures
            b == self@.forced_null,
    {
        self.forced_null
    }

    /// The rowid of the current row.
    pub fn rowid(&self) -> (r: Option<i64>)
        ensures
            r == (match self@.current {
                Some(row) => Some(row.rowid),
                None => None,
            }),
    {
        match &self.current {
            Some(row) => Some(row.rowid),
            None => None,
        }
    }

    /// Column `idx` of the current row, where there is one.
    pub fn column(&mut self, idx: usize, encoding: TextEncoding) -> (r: Option<
        Result<Value, RecordError>,
    >)
        requires
            old(self).wf(),
        ensures
            final(self).wf(),
            final(self)@ == old(self)@,
            match (old(self)@.current, r) {
                (None, None) => true,
                (Some(row), Some(c)) => column_seen(c) == decode::column_of(
                    row.payload,
                    idx as int,
                    encoding,
                ),
                _ => false,
            },
    {
        match &self.current {
            None => None,
            Some(row) => Some(self.header_cache.column(&row.payload, idx, encoding)),
        }
    }
}

/// A column that was read, as what it stands for.
pub open spec fn column_seen(r: Result<Value, RecordError>) -> Result<ValueView, RecordError> {
    match r {
        Ok(v) => Ok(v@),
        Err(e) => Err(e),
    }
}

/// A cursor over a secondary-index b-tree: the entry the last seek or move put it on
/// (`None` before any, on a miss, or once exhausted).
#[derive(Debug, Clone, PartialEq)]
pub struct IndexReadState {
    pub fresh: bool,
    pub root_page: u32,
    current: Option<Vec<u8>>,
    header_cache: RowHeaderCache,
}

/// What an [`IndexReadState`] stands for.
#[verifier::ext_equal]
pub struct IndexView {
    pub fresh: bool,
    pub root_page: u32,
    pub current: Option<Seq<u8>>,
}

impl IndexReadState {
    pub closed spec fn view(&self) -> IndexView {
        IndexView {
            fresh: self.fresh,
            root_page: self.root_page,
            current: request::bytes_view(self.current),
        }
    }

    /// The header cache never outlives its entry.
    pub closed spec fn wf(&self) -> bool {
        self.header_cache.fits(request::bytes_view(self.current))
    }

    /// A cursor on `root_page` that stands on no entry yet.
    pub fn new(root_page: u32) -> (r: Self)
        ensures
            r.wf(),
            r@ == (IndexView { fresh: true, root_page, current: None }),
    {
        IndexReadState {
            fresh: true,
            root_page,
            current: None,
            header_cache: RowHeaderCache::new(),
        }
    }

    /// Gets ready for a move. Says whether the cursor was never moved before.
    pub fn start_move(&mut self) -> (fresh: bool)
        requires
            old(self).wf(),
        ensures
            final(self).wf(),
            fresh == old(self)@.fresh,
            final(self)@ == (IndexView { fresh: false, ..old(self)@ }),
    {
        let fresh = self.fresh;
        self.fresh = false;
        fresh
    }

    /// The sole setter for the current entry.
    pub fn set_current(&mut self, entry: Option<Vec<u8>>)
        ensures
            final(self).wf(),
            final(self)@ == (IndexView { current: request::bytes_view(entry), ..old(self)@ }),
    {
        self.current = entry;
        self.header_cache.invalidate();
    }

    pub fn root(&self) -> (r: u32)
        ensures
            r == self@.root_page,
    {
        self.root_page
    }

    /// The current entry's payload.
    pub fn entry(&self) -> (r: Option<&Vec<u8>>)
        ensures
            match r {
                Some(b) => self@.current == Some(b@),
                None => self@.current is None,
            },
    {
        match &self.current {
            Some(b) => Some(b),
            None => None,
        }
    }

    /// Column `idx` of the current entry, where there is one.
    pub fn column(&mut self, idx: usize, encoding: TextEncoding) -> (r: Option<
        Result<Value, RecordError>,
    >)
        requires
            old(self).wf(),
        ensures
            final(self).wf(),
            final(self)@ == old(self)@,
            match (old(self)@.current, r) {
                (None, None) => true,
                (Some(b), Some(c)) => column_seen(c) == decode::column_of(
                    b,
                    idx as int,
                    encoding,
                ),
                _ => false,
            },
    {
        match &self.current {
            None => None,
            Some(b) => Some(self.header_cache.column(b, idx, encoding)),
        }
    }
}

/// Row-count ceiling on an in-memory ephemeral table or index: both are plain memory with
/// no spill to disk.
pub const MAX_EPHEMERAL_ROWS: usize = 1_000_000;

/// The in-memory index behind DISTINCT: keys are the encoded record bytes of the probed or
/// inserted column range. `sequence` is a monotonic counter independent of the keys, and
/// `last_key` the key most recently probed or inserted.
#[derive(Debug, Clone, PartialEq)]
pub struct EphemeralState {
    keys: Vec<Vec<u8>>,
    pub sequence: i64,
    pub last_key: Option<Vec<u8>>,
}

/// What an [`EphemeralState`] stands for.
#[verifier::ext_equal]
pub struct EphemeralView {
    pub keys: Set<Seq<u8>>,
    pub sequence: i64,
    pub last_key: Option<Seq<u8>>,
}

/// Every key comes before the next.
pub open spec fn ascending(keys: Seq<Seq<u8>>) -> bool {
    forall|i: int, j: int| 0 <= i < j < keys.len() ==> order::bytes_before(keys[i], keys[j])
}

/// Where a key belongs among keys in order: behind those before it, with none of those
/// after it before it.
pub open spec fn belongs_at(keys: Seq<Seq<u8>>, key: Seq<u8>, at: int) -> bool {
    &&& 0 <= at <= keys.len()
    &&& forall|i: int| 0 <= i < at ==> order::bytes_before(#[trigger] keys[i], key)
    &&& forall|i: int| at <= i < keys.len() ==> !order::bytes_before(#[trigger] keys[i], key)
}

proof fn lemma_place(keys: Seq<Seq<u8>>, key: Seq<u8>, at: int)
    requires
        ascending(keys),
        belongs_at(keys, key, at),
    ensures
        keys.to_set().contains(key) == (at < keys.len() && keys[at] == key),
        keys.to_set().finite(),
        keys.to_set().len() == keys.len(),
{
    assert forall|i: int, j: int| 0 <= i < j < keys.len() implies keys[i] != keys[j] by {
        order::lemma_bytes_total(keys[i], keys[j]);
    }
    keys.unique_seq_to_set();
    if keys.to_set().contains(key) {
        let i = choose|i: int| 0 <= i < keys.len() && keys[i] == key;
        order::lemma_bytes_total(key, key);
        assert(i >= at);
        if i > at {
            assert(order::bytes_before(keys[at], keys[i]));
        }
    } else if at < keys.len() && keys[at] == key {
        assert(keys.to_set().contains(keys[at]));
    }
}

proof fn lemma_insert(keys: Seq<Seq<u8>>, key: Seq<u8>, at: int)
    requires
        ascending(keys),
        belongs_at(keys, key, at),
        !keys.to_set().contains(key),
    ensures
        ascending(keys.insert(at, key)),
        keys.insert(at, key).to_set() == keys.to_set().insert(key),
{
    let more = keys.insert(at, key);
    assert forall|i: int, j: int| 0 <= i < j < more.len() implies order::bytes_before(
        more[i],
        more[j],
    ) by {
        if i == at {
            let k = keys[j - 1];
            assert(keys.to_set().contains(k));
            order::lemma_bytes_total(key, k);
        } else if j == at {
            assert(order::bytes_before(keys[i], key));
        }
    }
    assert forall|x: Seq<u8>| more.to_set().contains(x) == keys.to_set().insert(key).contains(
        x,
    ) by {
        if more.to_set().contains(x) {
            let i = choose|i: int| 0 <= i < more.len() && more[i] == x;
            if i < at {
                assert(keys[i] == x);
            } else if i > at {
                assert(keys[i - 1] == x);
            }
        }
        if keys.to_set().contains(x) {
            let i = choose|i: int| 0 <= i < keys.len() && keys[i] == x;
            if i < at {
                assert(more[i] == x);
            } else {
                assert(more[i + 1] == x);
            }
        }
        if x == key {
            assert(more[at] == x);
        }
    }
    assert(more.to_set() =~= keys.to_set().insert(key));
}

proof fn lemma_remove(keys: Seq<Seq<u8>>, key: Seq<u8>, at: int)
    requires
        ascending(keys),
        0 <= at < keys.len(),
        keys[at] == key,
    ensures
        ascending(keys.remove(at)),
        keys.remove(at).to_set() == keys.to_set().remove(key),
{
    let less = keys.remove(at);
    assert forall|i: int, j: int| 0 <= i < j < less.len() implies order::bytes_before(
        less[i],
        less[j],
    ) by {
        let a = if i < at {
            i
        } else {
            i + 1
        };
        let b = if j < at {
            j
        } else {
            j + 1
        };
        assert(order::bytes_before(keys[a], keys[b]));
    }
    assert forall|x: Seq<u8>| less.to_set().contains(x) == keys.to_set().remove(key).contains(
        x,
    ) by {
        if less.to_set().contains(x) {
            let i = choose|i: int| 0 <= i < less.len() && less[i] == x;
            let a = if i < at {
                i
            } else {
                i + 1
            };
            assert(keys[a] == x);
            if a < at {
                assert(order::bytes_before(keys[a], keys[at]));
            } else {
                assert(order::bytes_before(keys[at], keys[a]));
            }
            order::lemma_bytes_total(x, x);
        }
        if keys.to_set().contains(x) && x != key {
            let i = choose|i: int| 0 <= i < keys.len() && keys[i] == x;
            if i < at {
                assert(less[i] == x);
            } else {
                assert(less[i - 1] == x);
            }
        }
    }
    assert(less.to_set() =~= keys.to_set().remove(key));
}

fn same_bytes(a: &Vec<u8>, b: &Vec<u8>) -> (r: bool)
    ensures
        r == (a@ == b@),
{
    proof {
        order::lemma_bytes_total(a@, b@);
    }
    match order::order_bytes(a, b) {
        Sorted::Same => true,
        _ => false,
    }
}

impl EphemeralState {
    closed spec fn key_seq(&self) -> Seq<Seq<u8>> {
        request::byte_strings(self.keys@)
    }

    pub closed spec fn view(&self) -> EphemeralView {
        EphemeralView {
            keys: self.key_seq().to_set(),
            sequence: self.sequence,
            last_key: request::bytes_view(self.last_key),
        }
    }

    /// The keys stand in ascending order, none of them twice.
    pub closed spec fn wf(&self) -> bool {
        ascending(self.key_seq())
    }

    /// An index without keys.
    pub fn new() -> (r: Self)
        ensures
            r.wf(),
            r@ == (EphemeralView { keys: Set::empty(), sequence: 0, last_key: None }),
    {
        let r = EphemeralState { keys: Vec::new(), sequence: 0, last_key: None };
        assert(r.key_seq().to_set() =~= Set::empty());
        r
    }

    /// Where `key` belongs, and whether it is there.
    fn place(&self, key: &Vec<u8>) -> (r: (usize, bool))
        requires
            self.wf(),
        ensures
            belongs_at(self.key_seq(), key@, r.0 as int),
            r.1 == self@.keys.contains(key@),
            r.1 ==> r.0 < self.keys@.len() && self.key_seq()[r.0 as int] == key@,
            self@.keys.finite(),
            self@.keys.len() == self.keys@.len(),
    {
        let ghost ks = self.key_seq();
        let mut low: usize = 0;
        let mut high: usize = self.keys.len();
        while low < high
            invariant
                low <= high <= self.keys@.len(),
                ks == self.key_seq(),
                ks.len() == self.keys@.len(),
                ascending(ks),
                forall|i: int| 0 <= i < low ==> order::bytes_before(#[trigger] ks[i], key@),
                forall|i: int|
                    high <= i < ks.len() ==> !order::bytes_before(#[trigger] ks[i], key@),
            decreases high - low,
        {
            let mid: usize = low + (high - low) / 2;
            assert(ks[mid as int] == self.keys@[mid as int]@);
            match order::order_bytes(&self.keys[mid], key) {
                Sorted::Before => {
                    assert forall|i: int| 0 <= i < mid + 1 implies order::bytes_before(
                        #[trigger] ks[i],
                        key@,
                    ) by {
                        if i < mid {
                            order::lemma_bytes_transitive(ks[i], ks[mid as int], key@);
                        }
                    }
                    low = mid + 1;
                },
                _ => {
                    proof {
                        order::lemma_bytes_total(ks[mid as int], key@);
                        assert forall|i: int| mid <= i < ks.len() implies !order::bytes_before(
                            #[trigger] ks[i],
                            key@,
                        ) by {
                            if i > mid && order::bytes_before(ks[i], key@) {
                                order::lemma_bytes_transitive(ks[mid as int], ks[i], key@);
                            }
                        }
                    }
                    high = mid;
                },
            }
        }
        proof {
            lemma_place(ks, key@, low as int);
        }
        let present = low < self.keys.len() && same_bytes(&self.keys[low], key);
        (low, present)
    }

    /// Whether `key` is in the index; it becomes the key last touched.
    pub fn probe(&mut self, key: Vec<u8>) -> (r: bool)
        requires
            old(self).wf(),
        ensures
            final(self).wf(),
            r == old(self)@.keys.contains(key@),
            final(self)@ == (EphemeralView { last_key: Some(key@), ..old(self)@ }),
    {
        let (_, present) = self.place(&key);
        self.last_key = Some(key);
        present
    }

    /// Puts `key` into the index and makes it the key last touched, unless that would make
    /// too many.
    pub fn insert(&mut self, key: Vec<u8>) -> (r: bool)
        requires
            old(self).wf(),
        ensures
            final(self).wf(),
            r == (old(self)@.keys.contains(key@) || old(self)@.keys.len() < MAX_EPHEMERAL_ROWS),
            r ==> final(self)@ == (EphemeralView {
                keys: old(self)@.keys.insert(key@),
                last_key: Some(key@),
                ..old(self)@
            }),
            !r ==> final(self)@ == old(self)@,
    {
        let (at, present) = self.place(&key);
        if !present && self.keys.len() >= MAX_EPHEMERAL_ROWS {
            return false;
        }
        let ghost ks = self.key_seq();
        let ghost k = key@;
        let kept = value::copy_bytes(&key);
        if !present {
            proof {
                lemma_insert(ks, k, at as int);
            }
            self.keys.insert(at, kept);
            assert(self.key_seq() =~= ks.insert(at as int, k));
        } else {
            assert(ks.to_set().insert(k) =~= ks.to_set());
        }
        self.last_key = Some(key);
        true
    }

    /// Takes `key` out of the index; where it was the key last touched, none is any more.
    pub fn remove(&mut self, key: &Vec<u8>)
        requires
            old(self).wf(),
        ensures
            final(self).wf(),
            final(self)@ == (EphemeralView {
                keys: old(self)@.keys.remove(key@),
                last_key: if old(self)@.last_key == Some(key@) {
                    None
                } else {
                    old(self)@.last_key
                },
                ..old(self)@
            }),
    {
        let (at, present) = self.place(key);
        let ghost ks = self.key_seq();
        if present {
            proof {
                lemma_remove(ks, key@, at as int);
            }
            let _ = self.keys.remove(at);
            assert(self.key_seq() =~= ks.remove(at as int));
        } else {
            assert(ks.to_set().remove(key@) =~= ks.to_set());
        }
        let same = match &self.last_key {
            Some(k) => same_bytes(k, key),
            None => false,
        };
        if same {
            self.last_key = None;
        }
    }

    /// Takes the key last touched out of the index; none is touched any more.
    pub fn remove_last(&mut self)
        requires
            old(self).wf(),
        ensures
            final(self).wf(),
            final(self)@ == (EphemeralView {
                keys: match old(self)@.last_key {
                    Some(k) => old(self)@.keys.remove(k),
                    None => old(self)@.keys,
                },
                last_key: None,
                ..old(self)@
            }),
    {
        let last: Option<Vec<u8>> = match &self.last_key {
            Some(k) => Some(value::copy_bytes(k)),
            None => None,
        };
        if let Some(k) = last {
            self.remove(&k);
        }
    }

    /// The next number of the counter, which stops at the largest.
    pub fn take_number(&mut self) -> (n: i64)
        requires
            old(self).wf(),
        ensures
            final(self).wf(),
            n == old(self)@.sequence,
            final(self)@ == (EphemeralView { sequence: saturate::clamped(n + 1), ..old(self)@ }),
    {
        let n: i64 = self.sequence;
        self.sequence = saturate::plus(n, 1);
        n
    }

    /// Whether the key last touched is at most `probe`, or none is.
    pub fn last_at_most(&self, probe: &Vec<u8>) -> (r: bool)
        ensures
            r == (match self@.last_key {
                Some(key) => order::bytes_order(key, probe@) != Sorted::After,
                None => true,
            }),
    {
        match &self.last_key {
            Some(key) => match order::order_bytes(key, probe) {
                Sorted::After => false,
                _ => true,
            },
            None => true,
        }
    }
}

/// An in-memory table: rows appended in insertion order, each with its rowid. `pos` is the
/// row the last move put the cursor on (`None` before any, or once exhausted), and
/// `sequence` the counter that hands out rowids, from 1.
#[derive(Debug, Clone, PartialEq)]
pub struct EphemeralTableState {
    pub rows: Vec<(i64, Vec<Value>)>,
    pub pos: Option<usize>,
    pub sequence: i64,
}

/// What an [`EphemeralTableState`] stands for.
#[verifier::ext_equal]
pub struct EphemeralTableView {
    pub rows: Seq<(i64, Seq<ValueView>)>,
    pub pos: Option<usize>,
    pub sequence: i64,
}

/// Rows with their rowids.
pub open spec fn keyed_rows(v: Seq<(i64, Vec<Value>)>) -> Seq<(i64, Seq<ValueView>)> {
    v.map_values(|r: (i64, Vec<Value>)| (r.0, value::values(r.1@)))
}

impl EphemeralTableState {
    pub open spec fn view(&self) -> EphemeralTableView {
        EphemeralTableView {
            rows: keyed_rows(self.rows@),
            pos: self.pos,
            sequence: self.sequence,
        }
    }

    /// A table without rows.
    pub fn new() -> (r: Self)
        ensures
            r@ == (EphemeralTableView { rows: Seq::empty(), pos: None, sequence: 1 }),
    {
        let r = EphemeralTableState { rows: Vec::new(), pos: None, sequence: 1 };
        assert(r@.rows =~= Seq::empty());
        r
    }
}

/// A sorter: the sort-key descriptor, the buffered record bytes, whether they are sorted,
/// and the current position once they are.
#[derive(Debug, Clone, PartialEq)]
pub struct SorterState {
    pub keys: Vec<SortKeyColumn>,
    pub buffer: Vec<Vec<u8>>,
    pub sorted: bool,
    pub pos: usize,
}

/// What a [`SorterState`] stands for.
#[verifier::ext_equal]
pub struct SorterView {
    pub keys: Seq<SortKeyColumn>,
    pub buffer: Seq<Seq<u8>>,
    pub sorted: bool,
    pub pos: usize,
}

impl SorterState {
    pub open spec fn view(&self) -> SorterView {
        SorterView {
            keys: self.keys@,
            buffer: request::byte_strings(self.buffer@),
            sorted: self.sorted,
            pos: self.pos,
        }
    }
}

/// One open cursor slot.
#[derive(Debug, Clone, PartialEq)]
pub enum CursorSlot {
    Table(TableCursorState),
    /// An index b-tree to write into; it carries no position.
    IndexWrite { root_page: u32 },
    IndexRead(IndexReadState),
    Ephemeral(EphemeralState),
    EphemeralTable(EphemeralTableState),
    /// A single row: the record blob in a register.
    Pseudo { register: i32 },
    Sorter(SorterState),
}

/// What a [`CursorSlot`] stands for.
#[verifier::ext_equal]
pub enum SlotView {
    Table(TableView),
    IndexWrite { root_page: u32 },
    IndexRead(IndexView),
    Ephemeral(EphemeralView),
    EphemeralTable(EphemeralTableView),
    Pseudo { register: i32 },
    Sorter(SorterView),
}

impl SlotView {
    /// The kind of cursor, in words.
    pub open spec fn kind(self) -> Seq<char> {
        match self {
            SlotView::Table(_) => "table cursor"@,
            SlotView::IndexWrite { .. } => "index write cursor"@,
            SlotView::IndexRead(_) => "index read cursor"@,
            SlotView::Ephemeral(_) => "ephemeral cursor"@,
            SlotView::EphemeralTable(_) => "ephemeral table cursor"@,
            SlotView::Pseudo { .. } => "pseudo cursor"@,
            SlotView::Sorter(_) => "sorter cursor"@,
        }
    }
}

impl CursorSlot {
    pub open spec fn view(&self) -> SlotView {
        match self {
            CursorSlot::Table(s) => SlotView::Table(s@),
            CursorSlot::IndexWrite { root_page } => SlotView::IndexWrite { root_page: *root_page },
            CursorSlot::IndexRead(s) => SlotView::IndexRead(s@),
            CursorSlot::Ephemeral(s) => SlotView::Ephemeral(s@),
            CursorSlot::EphemeralTable(s) => SlotView::EphemeralTable(s@),
            CursorSlot::Pseudo { register } => SlotView::Pseudo { register: *register },
            CursorSlot::Sorter(s) => SlotView::Sorter(s@),
        }
    }

    pub open spec fn wf(&self) -> bool {
        match self {
            CursorSlot::Table(s) => s.wf(),
            CursorSlot::IndexRead(s) => s.wf(),
            CursorSlot::Ephemeral(s) => s.wf(),
            _ => true,
        }
    }

    /// The kind of cursor, in words.
    pub fn kind(&self) -> (s: &'static str)
        ensures
            s@ == self@.kind(),
    {
        match self {
            CursorSlot::Table(_) => "table cursor",
            CursorSlot::IndexWrite { .. } => "index write cursor",
            CursorSlot::IndexRead(_) => "index read cursor",
            CursorSlot::Ephemeral(_) => "ephemeral cursor",
            CursorSlot::EphemeralTable(_) => "ephemeral table cursor",
            CursorSlot::Pseudo { .. } => "pseudo cursor",
            CursorSlot::Sorter(_) => "sorter cursor",
        }
    }
}

} // verus!
