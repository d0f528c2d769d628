//! Schema-table decoding and a minimal DDL reader, with no dependency on the SQL parser.
//!
//! Unparseable DDL (e.g. a virtual table) degrades to raw-row access (no columns), never an
//! error. The same rule extends to `CREATE INDEX` entries: an index this reader can't find a
//! column list for (e.g. an auto-index, whose schema text is NULL) is silently omitted.
//!
//! The DDL parser here is deliberately naive: no quoted identifiers with embedded white
//! space, nothing more than table name, column names, declared types and collations,
//! WITHOUT ROWID / STRICT markers, and each table's indexes.
use crate::record::collation::Collation;
use crate::record::decode;
use crate::record::error::RecordError;
use crate::record::value;
use crate::record::value::{TextEncoding, Value, ValueView};
use crate::schema::scan;
use crate::text;
use vstd::prelude::*;

verus! {

/// Failure walking or decoding the schema table.
#[derive(Debug, Clone, PartialEq)]
pub enum DdlError {
    /// Failure walking the schema table's b-tree, for the reason given.
    Btree(String),
    /// Failure decoding a row's record payload.
    Record(RecordError),
    /// A row didn't have exactly 5 columns.
    MalformedRow(usize),
}

/// What a [`DdlError`] stands for.
#[verifier::ext_equal]
pub enum DdlErrorView {
    Btree(Seq<char>),
    Record(RecordError),
    MalformedRow(usize),
}

impl DdlError {
    pub open spec fn view(&self) -> DdlErrorView {
        match self {
            DdlError::Btree(s) => DdlErrorView::Btree(s@),
            DdlError::Record(e) => DdlErrorView::Record(*e),
            DdlError::MalformedRow(n) => DdlErrorView::MalformedRow(*n),
        }
    }

    /// The error in words.
    pub fn describe(&self) -> (s: String)
        ensures
            s@ == self@.described(),
    {
        match self {
            DdlError::Btree(e) => {
                let mut s = "walking sqlite_master: ".to_owned();
                s.append(e.as_str());
                s
            },
            DdlError::Record(e) => {
                let mut s = "decoding a sqlite_master row: ".to_owned();
                s.append(e.describe().as_str());
                s
            },
            DdlError::MalformedRow(n) => {
                let mut s = "sqlite_master row has ".to_owned();
                s.append(text::unsigned_to_text(*n as u64).as_str());
                s.append(" columns, expected 5");
                s
            },
        }
    }
}

impl DdlErrorView {
    /// The error in words.
    pub open spec fn described(self) -> Seq<char> {
        match self {
            DdlErrorView::Btree(e) => "walking sqlite_master: "@ + e,
            DdlErrorView::Record(e) => "decoding a sqlite_master row: "@ + e.described(),
            DdlErrorView::MalformedRow(n) => "sqlite_master row has "@ + text::decimal(n as nat)
                + " columns, expected 5"@,
        }
    }
}

/// A minimally-parsed table schema entry.
#[derive(Debug, Clone, PartialEq)]
pub struct TableSchema {
    /// The table's name.
    pub name: String,
    /// The table's b-tree root page.
    pub root_page: u32,
    /// Column names, in declared order.
    pub columns: Vec<String>,
    /// Whether the table was declared `WITHOUT ROWID`.
    pub without_rowid: bool,
    /// Whether the table was declared `STRICT`.
    pub strict: bool,
    /// Each column's declared type text, position-for-position with `columns` (empty when a
    /// column has none).
    pub column_types: Vec<String>,
    /// Each column's declared `COLLATE` (BINARY when absent), position-for-position with
    /// `columns`.
    pub column_collations: Vec<Collation>,
    /// `CREATE VIRTUAL TABLE ...`: DDL this reader deliberately does not parse. `columns` is
    /// always empty and `root_page` is `0`.
    pub is_virtual: bool,
    /// The verbatim schema text.
    pub sql: String,
    /// Every index of this table that has a column list.
    pub indexes: Vec<IndexSchema>,
}

/// A minimally-parsed `CREATE INDEX` entry.
#[derive(Debug, Clone, PartialEq)]
pub struct IndexSchema {
    /// The index's name.
    pub name: String,
    /// Whether the index was declared `UNIQUE`.
    pub unique: bool,
    /// The indexed columns, in declared key order.
    pub columns: Vec<IndexedColumn>,
    /// The index b-tree's root page.
    pub root_page: u32,
}

/// One column (or expression, kept as raw text) in an index's key.
#[derive(Debug, Clone, PartialEq)]
pub struct IndexedColumn {
    /// The column's (unquoted) name, or raw expression text for an expression index.
    pub name: String,
    /// Whether this key part is sorted `DESC`.
    pub desc: bool,
    /// The key part's declared `COLLATE` (BINARY when absent).
    pub collation: Collation,
}

/// A minimally-decoded view entry: just the name and the verbatim `CREATE VIEW ...` source
/// text.
#[derive(Debug, Clone, PartialEq)]
pub struct ViewSchema {
    /// The view's name.
    pub name: String,
    /// The verbatim `CREATE VIEW ...` source text.
    pub sql: String,
}

/// What a [`TableSchema`] stands for.
#[verifier::ext_equal]
pub struct TableSchemaView {
    pub name: Seq<char>,
    pub root_page: u32,
    pub columns: Seq<Seq<char>>,
    pub without_rowid: bool,
    pub strict: bool,
    pub column_types: Seq<Seq<char>>,
    pub column_collations: Seq<Collation>,
    pub is_virtual: bool,
    pub sql: Seq<char>,
    pub indexes: Seq<IndexSchemaView>,
}

/// What an [`IndexSchema`] stands for.
#[verifier::ext_equal]
pub struct IndexSchemaView {
    pub name: Seq<char>,
    pub unique: bool,
    pub columns: Seq<IndexedColumnView>,
    pub root_page: u32,
}

/// What an [`IndexedColumn`] stands for.
#[verifier::ext_equal]
pub struct IndexedColumnView {
    pub name: Seq<char>,
    pub desc: bool,
    pub collation: Collation,
}

/// What a [`ViewSchema`] stands for.
#[verifier::ext_equal]
pub struct ViewSchemaView {
    pub name: Seq<char>,
    pub sql: Seq<char>,
}

impl IndexedColumn {
    pub open spec fn view(&self) -> IndexedColumnView {
        IndexedColumnView { name: self.name@, desc: self.desc, collation: self.collation }
    }
}

pub open spec fn indexed_columns(v: Seq<IndexedColumn>) -> Seq<IndexedColumnView> {
    v.map_values(|c: IndexedColumn| c@)
}

impl IndexSchema {
    pub open spec fn view(&self) -> IndexSchemaView {
        IndexSchemaView {
            name: self.name@,
            unique: self.unique,
            columns: indexed_columns(self.columns@),
            root_page: self.root_page,
        }
    }
}

pub open spec fn index_views(v: Seq<IndexSchema>) -> Seq<IndexSchemaView> {
    v.map_values(|c: IndexSchema| c@)
}

impl TableSchema {
    pub open spec fn view(&self) -> TableSchemaView {
        TableSchemaView {
            name: self.name@,
            root_page: self.root_page,
            columns: text::texts(self.columns@),
            without_rowid: self.without_rowid,
            strict: self.strict,
            column_types: text::texts(self.column_types@),
            column_collations: self.column_collations@,
            is_virtual: self.is_virtual,
            sql: self.sql@,
            indexes: index_views(self.indexes@),
        }
    }
}

pub open spec fn table_views(v: Seq<TableSchema>) -> Seq<TableSchemaView> {
    v.map_values(|c: TableSchema| c@)
}

impl ViewSchema {
    pub open spec fn view(&self) -> ViewSchemaView {
        ViewSchemaView { name: self.name@, sql: self.sql@ }
    }
}

pub open spec fn view_views(v: Seq<ViewSchema>) -> Seq<ViewSchemaView> {
    v.map_values(|c: ViewSchema| c@)
}

// ---- column definitions -------------------------------------------------------------

/// What an unquoted name goes on with.
pub open spec fn is_word_char(c: char) -> bool {
    c == '_' || c == '$' || text::is_letter_or_digit(c)
}

/// `s` begins with `part`, and the word that ends it ends there.
pub open spec fn begins_word(s: Seq<char>, part: Seq<char>) -> bool {
    scan::begins(s, part) && (s.len() == part.len() || !is_word_char(s[part.len() as int]))
}

/// A standalone table-level constraint rather than a column definition. Inline column-level
/// constraints don't start with the keyword: the column name comes first. A name that
/// merely begins with the letters of a keyword (`check_date`) is a column's.
pub open spec fn is_constraint(def: Seq<char>) -> bool {
    let upper = text::upper(text::trim(def));
    begins_word(upper, "PRIMARY KEY"@) || begins_word(upper, "UNIQUE"@) || begins_word(
        upper,
        "FOREIGN KEY"@,
    ) || begins_word(upper, "CHECK"@) || begins_word(upper, "CONSTRAINT"@)
}

/// The first word of `s`, or nothing.
pub open spec fn first_word(s: Seq<char>) -> Seq<char> {
    if scan::words(s).len() > 0 {
        scan::words(s)[0]
    } else {
        Seq::empty()
    }
}

/// The name a column definition begins with, without its quotation marks.
pub open spec fn name_of(def: Seq<char>) -> Seq<char> {
    scan::unquoted(first_word(def))
}

/// A word is `keyword`, or begins with it and an opening parenthesis.
pub open spec fn is_keyword_word(word: Seq<char>, keyword: Seq<char>) -> bool {
    text::upper(word) == keyword || scan::begins(text::upper(word), keyword + "("@)
}

/// A word begins a column constraint.
pub open spec fn begins_constraint(word: Seq<char>) -> bool {
    is_keyword_word(word, "PRIMARY"@) || is_keyword_word(word, "NOT"@) || is_keyword_word(
        word,
        "NULL"@,
    ) || is_keyword_word(word, "UNIQUE"@) || is_keyword_word(word, "CHECK"@) || is_keyword_word(
        word,
        "DEFAULT"@,
    ) || is_keyword_word(word, "COLLATE"@) || is_keyword_word(word, "REFERENCES"@)
}

/// The words from the `k`th on up to the first that begins a column constraint.
pub open spec fn type_words(words: Seq<Seq<char>>, k: int) -> Seq<Seq<char>>
    decreases words.len() - k,
{
    if k < 0 || k >= words.len() || begins_constraint(words[k]) {
        Seq::empty()
    } else {
        seq![words[k]] + type_words(words, k + 1)
    }
}

/// The declared-type text between a column's name and its first column constraint.
pub open spec fn type_of(def: Seq<char>) -> Seq<char> {
    text::join(type_words(scan::words(def), 1), " "@)
}

/// The collation that a `COLLATE name` constraint anywhere in `def` declares.
pub open spec fn collation_of(def: Seq<char>) -> Collation {
    match scan::found_from(text::upper(def), "COLLATE"@, 0) {
        None => Collation::Binary,
        Some(pos) => {
            let name = text::upper(name_of(def.skip(pos + 7)));
            if name == "NOCASE"@ {
                Collation::NoCase
            } else if name == "RTRIM"@ {
                Collation::RTrim
            } else {
                Collation::Binary
            }
        },
    }
}

/// Those of `defs` that are table constraints, or those that are not.
pub open spec fn selected(defs: Seq<Seq<char>>, constraints: bool) -> Seq<Seq<char>>
    decreases defs.len(),
{
    if defs.len() == 0 {
        Seq::empty()
    } else if is_constraint(defs.last()) == constraints {
        selected(defs.drop_last(), constraints).push(defs.last())
    } else {
        selected(defs.drop_last(), constraints)
    }
}

/// Every top-level definition of a statement's column list.
pub open spec fn definitions(sql: Seq<char>) -> Seq<Seq<char>> {
    match scan::list_span(sql) {
        None => Seq::empty(),
        Some((start, end)) => scan::comma_parts(sql.subrange(start, end)),
    }
}

/// What stands behind a statement's column list, in capitals.
pub open spec fn trailer(sql: Seq<char>) -> Seq<char> {
    match scan::list_span(sql) {
        None => Seq::empty(),
        Some((_, end)) => text::upper(sql.skip(end + 1)),
    }
}

fn first_word_of(v: &Vec<char>) -> (r: Vec<char>)
    ensures
        r@ == first_word(v@),
{
    let words = scan::split_words(v);
    assert(scan::char_lists(words@).len() == words@.len());
    if words.len() > 0 {
        assert(scan::char_lists(words@)[0] == words@[0]@);
        scan::part(&words[0], 0, words[0].len())
    } else {
        Vec::new()
    }
}

fn column_name(def: &Vec<char>) -> (r: Vec<char>)
    ensures
        r@ == name_of(def@),
{
    let word = first_word_of(def);
    scan::unquote(&word)
}

fn keyword_word(upper: &Vec<char>, keyword: &str, opened: &str, Ghost(word): Ghost<Seq<char>>)
    -> (r:
    bool)
    requires
        upper@ == text::upper(word),
        opened@ == keyword@ + "("@,
    ensures
        r == is_keyword_word(word, keyword@),
{
    text::spells(upper, keyword) || scan::begins_with(upper, opened)
}

fn starts_constraint(word: &Vec<char>) -> (r: bool)
    ensures
        r == begins_constraint(word@),
{
    let upper = scan::uppered(word);
    proof {
        reveal_strlit("(");
        reveal_strlit("PRIMARY");
        reveal_strlit("PRIMARY(");
        reveal_strlit("NOT");
        reveal_strlit("NOT(");
        reveal_strlit("NULL");
        reveal_strlit("NULL(");
        reveal_strlit("UNIQUE");
        reveal_strlit("UNIQUE(");
        reveal_strlit("CHECK");
        reveal_strlit("CHECK(");
        reveal_strlit("DEFAULT");
        reveal_strlit("DEFAULT(");
        reveal_strlit("COLLATE");
        reveal_strlit("COLLATE(");
        reveal_strlit("REFERENCES");
        reveal_strlit("REFERENCES(");
        assert("PRIMARY("@ =~= "PRIMARY"@ + "("@);
        assert("NOT("@ =~= "NOT"@ + "("@);
        assert("NULL("@ =~= "NULL"@ + "("@);
        assert("UNIQUE("@ =~= "UNIQUE"@ + "("@);
        assert("CHECK("@ =~= "CHECK"@ + "("@);
        assert("DEFAULT("@ =~= "DEFAULT"@ + "("@);
        assert("COLLATE("@ =~= "COLLATE"@ + "("@);
        assert("REFERENCES("@ =~= "REFERENCES"@ + "("@);
    }
    keyword_word(&upper, "PRIMARY", "PRIMARY(", Ghost(word@)) || keyword_word(
        &upper,
        "NOT",
        "NOT(",
        Ghost(word@),
    ) || keyword_word(&upper, "NULL", "NULL(", Ghost(word@)) || keyword_word(
        &upper,
        "UNIQUE",
        "UNIQUE(",
        Ghost(word@),
    ) || keyword_word(&upper, "CHECK", "CHECK(", Ghost(word@)) || keyword_word(
        &upper,
        "DEFAULT",
        "DEFAULT(",
        Ghost(word@),
    ) || keyword_word(&upper, "COLLATE", "COLLATE(", Ghost(word@)) || keyword_word(
        &upper,
        "REFERENCES",
        "REFERENCES(",
        Ghost(word@),
    )
}

fn type_text(def: &Vec<char>) -> (r: String)
    ensures
        r@ == type_of(def@),
{
    let words = scan::split_words(def);
    let ghost ws = scan::char_lists(words@);
    let ghost goal = type_words(ws, 1);
    let mut parts: Vec<String> = Vec::new();
    let mut k: usize = 1;
    assert(text::texts(parts@) + goal =~= goal);
    assert(ws.len() == words@.len());
    while k < words.len()
        invariant
            k >= 1,
            ws == scan::char_lists(words@),
            ws == scan::words(def@),
            ws.len() == words@.len(),
            goal == type_words(ws, 1),
            text::texts(parts@) + type_words(ws, k as int) == goal,
        decreases words.len() - k,
    {
        assert(ws[k as int] == words@[k as int]@);
        if starts_constraint(&words[k]) {
            assert(text::texts(parts@) + type_words(ws, k as int) =~= text::texts(parts@));
            return text::join_texts(&parts, " ");
        }
        let t = scan::text_from(&words[k]);
        let ghost before = text::texts(parts@);
        proof {
            text::lemma_texts_push(parts@, t);
        }
        parts.push(t);
        assert(text::texts(parts@) + type_words(ws, k + 1) =~= before + (seq![ws[k as int]]
            + type_words(ws, k + 1)));
        k = k + 1;
    }
    assert(text::texts(parts@) + type_words(ws, k as int) =~= text::texts(parts@));
    text::join_texts(&parts, " ")
}

/// The declared-type text between a column's name and its first column-constraint keyword,
/// which may span several words (`DOUBLE PRECISION`, `UNSIGNED BIG INT`). Empty when the
/// column has no type.
pub fn column_type(def: &str) -> (r: String)
    ensures
        r@ == type_of(def@),
{
    let v = text::chars_of(def);
    type_text(&v)
}

/// The collation declared by a `COLLATE name` constraint anywhere in `def` (a column
/// definition or indexed-column spec), or BINARY when absent or unrecognized.
fn column_collation(def: &Vec<char>) -> (r: Collation)
    ensures
        r == collation_of(def@),
{
    let upper = scan::uppered(def);
    assert("COLLATE"@.len() == 7) by {
        reveal_strlit("COLLATE");
    }
    let len: usize = def.len();
    assert(text::upper(def@).len() == len);
    match scan::find(&upper, "COLLATE") {
        None => Collation::Binary,
        Some(pos) => {
            let rest = scan::part(def, pos + 7, len);
            assert(rest@ =~= def@.skip(pos + 7));
            let name = column_name(&rest);
            let name = scan::uppered(&name);
            proof {
                reveal_strlit("NOCASE");
                reveal_strlit("RTRIM");
            }
            if text::spells(&name, "NOCASE") {
                Collation::NoCase
            } else if text::spells(&name, "RTRIM") {
                Collation::RTrim
            } else {
                Collation::Binary
            }
        },
    }
}

fn begins_with_word(v: &Vec<char>, part: &str) -> (r: bool)
    ensures
        r == begins_word(v@, part@),
{
    if !scan::begins_with(v, part) {
        return false;
    }
    let n: usize = text::chars_of(part).len();
    if v.len() == n {
        return true;
    }
    let c = v[n];
    !(c == '_' || c == '$' || c.is_alphanumeric())
}

fn is_table_constraint(def: &Vec<char>) -> (r: bool)
    ensures
        r == is_constraint(def@),
{
    let t = scan::trimmed(def);
    let upper = scan::uppered(&t);
    begins_with_word(&upper, "PRIMARY KEY") || begins_with_word(&upper, "UNIQUE")
        || begins_with_word(&upper, "FOREIGN KEY") || begins_with_word(&upper, "CHECK")
        || begins_with_word(&upper, "CONSTRAINT")
}

fn all_defs(sql: &Vec<char>) -> (r: Vec<Vec<char>>)
    ensures
        scan::char_lists(r@) == definitions(sql@),
{
    match scan::column_list_span(sql) {
        None => {
            let r: Vec<Vec<char>> = Vec::new();
            assert(scan::char_lists(r@) =~= Seq::empty());
            r
        },
        Some((start, end)) => {
            let inner = scan::part(sql, start, end);
            scan::split_top_level_commas(&inner)
        },
    }
}

fn select(defs: &Vec<Vec<char>>, constraints: bool) -> (r: Vec<Vec<char>>)
    ensures
        scan::char_lists(r@) == selected(scan::char_lists(defs@), constraints),
{
    let ghost ds = scan::char_lists(defs@);
    let mut r: Vec<Vec<char>> = Vec::new();
    let mut i: usize = 0;
    assert(scan::char_lists(r@) =~= selected(ds.take(0), constraints));
    while i < defs.len()
        invariant
            i <= defs.len(),
            ds == scan::char_lists(defs@),
            scan::char_lists(r@) == selected(ds.take(i as int), constraints),
        decreases defs.len() - i,
    {
        assert(ds.take(i + 1).drop_last() =~= ds.take(i as int));
        assert(ds.take(i + 1).last() == defs@[i as int]@);
        if is_table_constraint(&defs[i]) == constraints {
            let d = scan::part(&defs[i], 0, defs[i].len());
            assert(d@ =~= defs@[i as int]@);
            proof {
                scan::lemma_lists_push(r@, d);
            }
            r.push(d);
        }
        i = i + 1;
    }
    assert(ds.take(i as int) =~= ds);
    r
}

/// Splits a `CREATE TABLE ...(col-defs)...` statement's column-definition list into raw
/// per-column definition strings, in declared order. Table constraints are left out.
pub fn column_defs(schema: &TableSchema) -> (r: Vec<String>)
    ensures
        text::texts(r@) == selected(definitions(schema@.sql), false),
{
    let sql = text::chars_of(schema.sql.as_str());
    let all = all_defs(&sql);
    let defs = select(&all, false);
    texts_from(&defs)
}

fn texts_from(defs: &Vec<Vec<char>>) -> (r: Vec<String>)
    ensures
        text::texts(r@) == scan::char_lists(defs@),
{
    let mut r: Vec<String> = Vec::new();
    let mut i: usize = 0;
    while i < defs.len()
        invariant
            i <= defs.len(),
            r@.len() == i,
            forall|k: int| 0 <= k < i ==> (#[trigger] r@[k])@ == defs@[k]@,
        decreases defs.len() - i,
    {
        r.push(scan::text_from(&defs[i]));
        i = i + 1;
    }
    assert(text::texts(r@) =~= scan::char_lists(defs@));
    r
}

// ---- tables -------------------------------------------------------------------------

/// A column's text, or nothing where it is no text.
pub open spec fn text_at(row: Seq<ValueView>, k: int) -> Seq<char> {
    if k < row.len() && row[k] is Text {
        row[k]->Text_0
    } else {
        Seq::empty()
    }
}

/// The low 32 bits of the root-page column; zero where it is no integer.
pub open spec fn root_at(row: Seq<ValueView>, k: int) -> u32 {
    if k < row.len() && row[k] is Integer {
        row[k]->Integer_0 as u32
    } else {
        0
    }
}

pub open spec fn is_virtual(sql: Seq<char>) -> bool {
    scan::begins(text::upper(text::trim_start(sql)), "CREATE VIRTUAL TABLE"@)
}

pub open spec fn names_of(defs: Seq<Seq<char>>) -> Seq<Seq<char>> {
    defs.map_values(|d: Seq<char>| name_of(d))
}

pub open spec fn types_of(defs: Seq<Seq<char>>) -> Seq<Seq<char>> {
    defs.map_values(|d: Seq<char>| type_of(d))
}

pub open spec fn collations_of(defs: Seq<Seq<char>>) -> Seq<Collation> {
    defs.map_values(|d: Seq<char>| collation_of(d))
}

/// The table entry that a row of the schema table holds; one without columns where no column
/// list is found.
pub open spec fn table_of(row: Seq<ValueView>) -> TableSchemaView {
    let sql = text_at(row, 4);
    let defs = selected(definitions(sql), false);
    if is_virtual(sql) {
        TableSchemaView {
            name: text_at(row, 1),
            root_page: 0,
            columns: Seq::empty(),
            without_rowid: false,
            strict: false,
            column_types: Seq::empty(),
            column_collations: Seq::empty(),
            is_virtual: true,
            sql,
            indexes: Seq::empty(),
        }
    } else {
        TableSchemaView {
            name: text_at(row, 1),
            root_page: root_at(row, 3),
            columns: names_of(defs),
            without_rowid: text::holds(trailer(sql), "WITHOUT ROWID"@),
            strict: text::holds(trailer(sql), "STRICT"@),
            column_types: types_of(defs),
            column_collations: collations_of(defs),
            is_virtual: false,
            sql,
            indexes: Seq::empty(),
        }
    }
}

fn text_in(values: &[Value], k: usize) -> (r: String)
    ensures
        r@ == text_at(value::values(values@), k as int),
{
    if k < values.len() {
        assert(value::values(values@)[k as int] == values@[k as int]@);
        match &values[k] {
            Value::Text(s) => {
                return s.clone();
            },
            _ => {},
        }
    }
    let r = String::new();
    assert(r@ =~= Seq::empty());
    r
}

#[verifier::truncate]
fn root_in(values: &[Value], k: usize) -> (r: u32)
    ensures
        r == root_at(value::values(values@), k as int),
{
    if k < values.len() {
        assert(value::values(values@)[k as int] == values@[k as int]@);
        match &values[k] {
            Value::Integer(i) => {
                return *i as u32;
            },
            _ => {},
        }
    }
    0
}

fn is_virtual_table(sql: &Vec<char>) -> (r: bool)
    ensures
        r == is_virtual(sql@),
{
    let t = scan::trimmed_start(sql);
    let upper = scan::uppered(&t);
    scan::begins_with(&upper, "CREATE VIRTUAL TABLE")
}

fn column_names(defs: &Vec<Vec<char>>) -> (r: Vec<String>)
    ensures
        text::texts(r@) == names_of(scan::char_lists(defs@)),
{
    let mut r: Vec<String> = Vec::new();
    let mut i: usize = 0;
    while i < defs.len()
        invariant
            i <= defs.len(),
            r@.len() == i,
            forall|k: int| 0 <= k < i ==> (#[trigger] r@[k])@ == name_of(defs@[k]@),
        decreases defs.len() - i,
    {
        let name = column_name(&defs[i]);
        r.push(scan::text_from(&name));
        i = i + 1;
    }
    assert(text::texts(r@) =~= names_of(scan::char_lists(defs@)));
    r
}

fn column_types(defs: &Vec<Vec<char>>) -> (r: Vec<String>)
    ensures
        text::texts(r@) == types_of(scan::char_lists(defs@)),
{
    let mut r: Vec<String> = Vec::new();
    let mut i: usize = 0;
    while i < defs.len()
        invariant
            i <= defs.len(),
            r@.len() == i,
            forall|k: int| 0 <= k < i ==> (#[trigger] r@[k])@ == type_of(defs@[k]@),
        decreases defs.len() - i,
    {
        r.push(type_text(&defs[i]));
        i = i + 1;
    }
    assert(text::texts(r@) =~= types_of(scan::char_lists(defs@)));
    r
}

fn column_collations(defs: &Vec<Vec<char>>) -> (r: Vec<Collation>)
    ensures
        r@ == collations_of(scan::char_lists(defs@)),
{
    let mut r: Vec<Collation> = Vec::new();
    let mut i: usize = 0;
    while i < defs.len()
        invariant
            i <= defs.len(),
            r@.len() == i,
            forall|k: int| 0 <= k < i ==> #[trigger] r@[k] == collation_of(defs@[k]@),
        decreases defs.len() - i,
    {
        r.push(column_collation(&defs[i]));
        i = i + 1;
    }
    assert(r@ =~= collations_of(scan::char_lists(defs@)));
    r
}

/// What stands behind the column list, in capitals.
fn trailer_of(sql: &Vec<char>) -> (r: Vec<char>)
    ensures
        r@ == trailer(sql@),
{
    let len: usize = sql.len();
    match scan::column_list_span(sql) {
        None => Vec::new(),
        Some((_, end)) => {
            let rest = scan::part(sql, end + 1, len);
            assert(rest@ =~= sql@.skip(end + 1));
            scan::uppered(&rest)
        },
    }
}

/// The table entry that a row of the schema table holds. Never fails: DDL without a column
/// list, or of a virtual table, gives an entry without columns.
pub fn table_schema(values: &[Value]) -> (r: TableSchema)
    ensures
        r@ == table_of(value::values(values@)),
{
    let name = text_in(values, 1);
    let sql = text_in(values, 4);
    let v = text::chars_of(sql.as_str());
    if is_virtual_table(&v) {
        let r = TableSchema {
            name,
            root_page: 0,
            columns: Vec::new(),
            without_rowid: false,
            strict: false,
            column_types: Vec::new(),
            column_collations: Vec::new(),
            is_virtual: true,
            sql,
            indexes: Vec::new(),
        };
        proof {
            assert(r@.columns =~= Seq::empty());
            assert(r@.column_types =~= Seq::empty());
            assert(r@.indexes =~= Seq::empty());
            assert(r@ =~= table_of(value::values(values@)));
        }
        return r;
    }
    let all = all_defs(&v);
    let defs = select(&all, false);
    let behind = trailer_of(&v);
    let r = TableSchema {
        name,
        root_page: root_in(values, 3),
        columns: column_names(&defs),
        without_rowid: text::contains(&behind, "WITHOUT ROWID"),
        strict: text::contains(&behind, "STRICT"),
        column_types: column_types(&defs),
        column_collations: column_collations(&defs),
        is_virtual: false,
        sql,
        indexes: Vec::new(),
    };
    assert(r@.indexes =~= Seq::empty());
    r
}

// ---- indexes ------------------------------------------------------------------------

/// A key part without its sort direction, and whether it is descending.
pub open spec fn directed(def: Seq<char>) -> (Seq<char>, bool) {
    let span = text::trim(def);
    let upper = text::upper(span);
    if scan::ends(upper, " DESC"@) {
        (text::trim_end(span.take(span.len() - 5)), true)
    } else if scan::ends(upper, " ASC"@) {
        (text::trim_end(span.take(span.len() - 4)), false)
    } else {
        (span, false)
    }
}

/// The key part that one definition of an index's column list declares.
pub open spec fn key_part_of(def: Seq<char>) -> IndexedColumnView {
    let (span, desc) = directed(def);
    IndexedColumnView {
        name: scan::unquoted(
            match scan::found_from(text::upper(span), " COLLATE "@, 0) {
                Some(pos) => text::trim_end(span.take(pos)),
                None => span,
            },
        ),
        desc,
        collation: collation_of(span),
    }
}

pub open spec fn key_parts_of(defs: Seq<Seq<char>>) -> Seq<IndexedColumnView> {
    defs.map_values(|d: Seq<char>| key_part_of(d))
}

/// The table and the index that a row of the schema table holds, where a column list is
/// found.
pub open spec fn index_of(row: Seq<ValueView>) -> Option<(Seq<char>, IndexSchemaView)> {
    let sql = text_at(row, 4);
    match scan::list_span(sql) {
        None => None,
        Some((start, end)) => Some(
            (
                text_at(row, 2),
                IndexSchemaView {
                    name: text_at(row, 1),
                    unique: scan::begins(
                        text::upper(text::trim_start(sql)),
                        "CREATE UNIQUE INDEX"@,
                    ),
                    columns: key_parts_of(scan::comma_parts(sql.subrange(start, end))),
                    root_page: root_at(row, 3),
                },
            ),
        ),
    }
}

/// Splits a single indexed-column definition (`col`, `col DESC`, `col COLLATE NOCASE ASC`,
/// ...) into its column name, sort direction and collation. Expressions are kept as raw text.
fn indexed_column(def: &Vec<char>) -> (r: IndexedColumn)
    ensures
        r@ == key_part_of(def@),
{
    let mut span = scan::trimmed(def);
    let upper = scan::uppered(&span);
    assert(upper@.len() == span@.len());
    let mut desc = false;
    proof {
        reveal_strlit(" DESC");
        reveal_strlit(" ASC");
        reveal_strlit(" COLLATE ");
    }
    if scan::ends_with(&upper, " DESC") {
        desc = true;
        let head = scan::part(&span, 0, span.len() - 5);
        assert(head@ =~= span@.take(span@.len() - 5));
        span = scan::trimmed_end(&head);
    } else if scan::ends_with(&upper, " ASC") {
        let head = scan::part(&span, 0, span.len() - 4);
        assert(head@ =~= span@.take(span@.len() - 4));
        span = scan::trimmed_end(&head);
    }
    assert((span@, desc) == directed(def@));
    let collation = column_collation(&span);
    let upper = scan::uppered(&span);
    assert(upper@.len() == span@.len());
    let named = match scan::find(&upper, " COLLATE ") {
        Some(pos) => {
            let head = scan::part(&span, 0, pos);
            assert(head@ =~= span@.take(pos as int));
            scan::trimmed_end(&head)
        },
        None => span,
    };
    let name = scan::unquote(&named);
    IndexedColumn { name: scan::text_from(&name), desc, collation }
}

fn indexed_columns_of(defs: &Vec<Vec<char>>) -> (r: Vec<IndexedColumn>)
    ensures
        indexed_columns(r@) == key_parts_of(scan::char_lists(defs@)),
{
    let mut r: Vec<IndexedColumn> = Vec::new();
    let mut i: usize = 0;
    while i < defs.len()
        invariant
            i <= defs.len(),
            r@.len() == i,
            forall|k: int| 0 <= k < i ==> (#[trigger] r@[k])@ == key_part_of(defs@[k]@),
        decreases defs.len() - i,
    {
        r.push(indexed_column(&defs[i]));
        i = i + 1;
    }
    assert(indexed_columns(r@) =~= key_parts_of(scan::char_lists(defs@)));
    r
}

fn is_unique_index(sql: &Vec<char>) -> (r: bool)
    ensures
        r == scan::begins(text::upper(text::trim_start(sql@)), "CREATE UNIQUE INDEX"@),
{
    let t = scan::trimmed_start(sql);
    let upper = scan::uppered(&t);
    scan::begins_with(&upper, "CREATE UNIQUE INDEX")
}

/// Parses a row of an index into the owning table's name and a naive [`IndexSchema`]. `None`
/// for anything without a column list, most notably auto-indexes, whose schema text is NULL.
pub fn index_schema(values: &[Value]) -> (r: Option<(String, IndexSchema)>)
    ensures
        match r {
            Some((table, index)) => index_of(value::values(values@)) == Some((table@, index@)),
            None => index_of(value::values(values@)) is None,
        },
{
    let name = text_in(values, 1);
    let table_name = text_in(values, 2);
    let root_page = root_in(values, 3);
    let sql = text_in(values, 4);
    let v = text::chars_of(sql.as_str());
    match scan::column_list_span(&v) {
        None => None,
        Some((start, end)) => {
            let inner = scan::part(&v, start, end);
            let defs = scan::split_top_level_commas(&inner);
            let columns = indexed_columns_of(&defs);
            let unique = is_unique_index(&v);
            Some((table_name, IndexSchema { name, unique, columns, root_page }))
        },
    }
}

// ---- walking the schema table -------------------------------------------------------

/// The row that a payload of the schema table holds: five columns.
pub open spec fn master_row(payload: Seq<u8>, encoding: TextEncoding) -> Result<
    Seq<ValueView>,
    DdlErrorView,
> {
    match decode::row_of(payload, encoding) {
        Err(e) => Err(DdlErrorView::Record(e)),
        Ok(row) => if row.len() != 5 {
            Err(DdlErrorView::MalformedRow(row.len() as usize))
        } else {
            Ok(row)
        },
    }
}

/// The rows that the payloads of the schema table hold, from the `k`th on, up to a failure
/// to read on.
pub open spec fn master_rows(
    payloads: Seq<Seq<u8>>,
    failure: Option<Seq<char>>,
    encoding: TextEncoding,
    k: int,
) -> Result<Seq<Seq<ValueView>>, DdlErrorView>
    decreases payloads.len() - k,
{
    if k < 0 || k >= payloads.len() {
        match failure {
            Some(reason) => Err(DdlErrorView::Btree(reason)),
            None => Ok(Seq::empty()),
        }
    } else {
        match master_row(payloads[k], encoding) {
            Err(e) => Err(e),
            Ok(row) => match master_rows(payloads, failure, encoding, k + 1) {
                Err(e) => Err(e),
                Ok(rest) => Ok(seq![row] + rest),
            },
        }
    }
}

/// The tables among the rows, in order.
pub open spec fn tables_in(rows: Seq<Seq<ValueView>>) -> Seq<TableSchemaView>
    decreases rows.len(),
{
    if rows.len() == 0 {
        Seq::empty()
    } else if text_at(rows.last(), 0) == "table"@ {
        tables_in(rows.drop_last()).push(table_of(rows.last()))
    } else {
        tables_in(rows.drop_last())
    }
}

/// The indexes among the rows with the tables they belong to, in order.
pub open spec fn indexes_in(rows: Seq<Seq<ValueView>>) -> Seq<(Seq<char>, IndexSchemaView)>
    decreases rows.len(),
{
    if rows.len() == 0 {
        Seq::empty()
    } else if text_at(rows.last(), 0) == "index"@ && index_of(rows.last()) is Some {
        indexes_in(rows.drop_last()).push(index_of(rows.last())->0)
    } else {
        indexes_in(rows.drop_last())
    }
}

/// The first table of that name, from the `k`th on.
pub open spec fn table_named(tables: Seq<TableSchemaView>, name: Seq<char>, k: int) -> Option<int>
    decreases tables.len() - k,
{
    if k < 0 || k >= tables.len() {
        None
    } else if tables[k].name == name {
        Some(k)
    } else {
        table_named(tables, name, k + 1)
    }
}

/// The tables with one index attached to the first table of its name.
pub open spec fn attached(
    tables: Seq<TableSchemaView>,
    name: Seq<char>,
    index: IndexSchemaView,
) -> Seq<TableSchemaView> {
    match table_named(tables, name, 0) {
        None => tables,
        Some(k) => tables.update(
            k,
            TableSchemaView { indexes: tables[k].indexes.push(index), ..tables[k] },
        ),
    }
}

/// The tables with their indexes attached, in order.
pub open spec fn all_attached(
    tables: Seq<TableSchemaView>,
    indexes: Seq<(Seq<char>, IndexSchemaView)>,
) -> Seq<TableSchemaView>
    decreases indexes.len(),
{
    if indexes.len() == 0 {
        tables
    } else {
        attached(
            all_attached(tables, indexes.drop_last()),
            indexes.last().0,
            indexes.last().1,
        )
    }
}

/// The names of the tables and views among the rows, in order.
pub open spec fn names_in(rows: Seq<Seq<ValueView>>) -> Seq<Seq<char>>
    decreases rows.len(),
{
    if rows.len() == 0 {
        Seq::empty()
    } else if text_at(rows.last(), 0) == "table"@ || text_at(rows.last(), 0) == "view"@ {
        names_in(rows.drop_last()).push(text_at(rows.last(), 1))
    } else {
        names_in(rows.drop_last())
    }
}

/// The views among the rows, in order.
pub open spec fn views_in(rows: Seq<Seq<ValueView>>) -> Seq<ViewSchemaView>
    decreases rows.len(),
{
    if rows.len() == 0 {
        Seq::empty()
    } else if text_at(rows.last(), 0) == "view"@ {
        views_in(rows.drop_last()).push(
            ViewSchemaView { name: text_at(rows.last(), 1), sql: text_at(rows.last(), 4) },
        )
    } else {
        views_in(rows.drop_last())
    }
}

/// Decodes the rows of the schema table.
fn decode_master(
    payloads: &Vec<Vec<u8>>,
    failure: &Option<String>,
    encoding: TextEncoding,
) -> (r: Result<Vec<Vec<Value>>, DdlError>)
    ensures
        match r {
            Ok(rows) => master_rows(
                crate::vdbe::request::byte_strings(payloads@),
                crate::vdbe::error::optional_text(*failure),
                encoding,
                0,
            ) == Ok::<Seq<Seq<ValueView>>, DdlErrorView>(value::rows(rows@)),
            Err(e) => master_rows(
                crate::vdbe::request::byte_strings(payloads@),
                crate::vdbe::error::optional_text(*failure),
                encoding,
                0,
            ) == Err::<Seq<Seq<ValueView>>, DdlErrorView>(e@),
        },
{
    let ghost ps = crate::vdbe::request::byte_strings(payloads@);
    let ghost f = crate::vdbe::error::optional_text(*failure);
    let ghost goal = master_rows(ps, f, encoding, 0);
    let mut rows: Vec<Vec<Value>> = Vec::new();
    let mut k: usize = 0;
    assert(value::rows(rows@) =~= Seq::empty());
    proof {
        if goal is Ok {
            assert(Seq::<Seq<ValueView>>::empty() + goal->Ok_0 =~= goal->Ok_0);
        }
    }
    while k < payloads.len()
        invariant
            k <= payloads.len(),
            ps == crate::vdbe::request::byte_strings(payloads@),
            f == crate::vdbe::error::optional_text(*failure),
            goal == master_rows(ps, f, encoding, 0),
            match master_rows(ps, f, encoding, k as int) {
                Ok(rest) => goal == Ok::<Seq<Seq<ValueView>>, DdlErrorView>(
                    value::rows(rows@) + rest,
                ),
                Err(e) => goal == Err::<Seq<Seq<ValueView>>, DdlErrorView>(e),
            },
        decreases payloads.len() - k,
    {
        assert(ps[k as int] == payloads@[k as int]@);
        let row = match decode::decode_record(payloads[k].as_slice(), encoding) {
            Ok(row) => row,
            Err(e) => {
                return Err(DdlError::Record(e));
            },
        };
        assert(value::values(row@).len() == row@.len());
        if row.len() != 5 {
            return Err(DdlError::MalformedRow(row.len()));
        }
        let ghost before = value::rows(rows@);
        let ghost added = value::values(row@);
        rows.push(row);
        k = k + 1;
        proof {
            assert(value::rows(rows@) =~= before.push(added));
            let rest = master_rows(ps, f, encoding, k as int);
            if rest is Ok {
                assert(before + (seq![added] + rest->Ok_0) =~= before.push(added) + rest->Ok_0);
            }
        }
    }
    match failure {
        Some(reason) => Err(DdlError::Btree(reason.clone())),
        None => {
            assert(value::rows(rows@) + Seq::empty() =~= value::rows(rows@));
            Ok(rows)
        },
    }
}

fn kind_is(row: &Vec<Value>, kind: &str) -> (r: bool)
    ensures
        r == (text_at(value::values(row@), 0) == kind@),
{
    let k = text_in(row.as_slice(), 0);
    let v = text::chars_of(k.as_str());
    text::spells(&v, kind)
}

/// Indexes with the tables they belong to.
pub open spec fn pending_views(v: Seq<(String, IndexSchema)>) -> Seq<(Seq<char>, IndexSchemaView)> {
    v.map_values(|p: (String, IndexSchema)| (p.0@, p.1@))
}

fn copy_index(i: &IndexSchema) -> (r: IndexSchema)
    ensures
        r@ == i@,
{
    let mut columns: Vec<IndexedColumn> = Vec::new();
    let mut k: usize = 0;
    while k < i.columns.len()
        invariant
            k <= i.columns.len(),
            columns@.len() == k,
            forall|j: int| 0 <= j < k ==> (#[trigger] columns@[j])@ == i.columns@[j]@,
        decreases i.columns.len() - k,
    {
        let c = &i.columns[k];
        columns.push(
            IndexedColumn { name: c.name.clone(), desc: c.desc, collation: c.collation },
        );
        k = k + 1;
    }
    assert(indexed_columns(columns@) =~= indexed_columns(i.columns@));
    IndexSchema { name: i.name.clone(), unique: i.unique, columns, root_page: i.root_page }
}

/// Attaches an index to the first table of its name.
fn attach(tables: &mut Vec<TableSchema>, name: &String, index: &IndexSchema)
    ensures
        table_views(final(tables)@) == attached(table_views(old(tables)@), name@, index@),
{
    let ghost before = table_views(tables@);
    let mut k: usize = 0;
    while k < tables.len()
        invariant
            k <= tables.len(),
            tables@ == old(tables)@,
            before == table_views(tables@),
            table_named(before, name@, k as int) == table_named(before, name@, 0),
        decreases tables.len() - k,
    {
        assert(before[k as int] == tables@[k as int]@);
        if tables[k].name == *name {
            let copied = copy_index(index);
            let ghost old_table = tables@[k as int];
            let t = &mut tables[k];
            t.indexes.push(copied);
            assert(index_views(t.indexes@) =~= index_views(old_table.indexes@).push(index@));
            assert(table_views(tables@) =~= attached(before, name@, index@));
            return;
        }
        k = k + 1;
    }
    assert(tables@ == old(tables)@);
}

/// Returns every table entry of the schema table, whose rows have these payloads in order,
/// up to a failure to read on, with its indexes. Never errors on unparseable or
/// virtual-table DDL.
pub fn read_schema(payloads: &Vec<Vec<u8>>, failure: &Option<String>, encoding: TextEncoding) -> (r:
    Result<Vec<TableSchema>, DdlError>)
    ensures
        match (
            r,
            master_rows(
                crate::vdbe::request::byte_strings(payloads@),
                crate::vdbe::error::optional_text(*failure),
                encoding,
                0,
            ),
        ) {
            (Ok(tables), Ok(rows)) => table_views(tables@) == all_attached(
                tables_in(rows),
                indexes_in(rows),
            ),
            (Err(e), Err(f)) => e@ == f,
            _ => false,
        },
{
    let rows = decode_master(payloads, failure, encoding)?;
    let ghost rs = value::rows(rows@);
    let mut schemas: Vec<TableSchema> = Vec::new();
    let mut pending: Vec<(String, IndexSchema)> = Vec::new();
    let mut i: usize = 0;
    assert(table_views(schemas@) =~= tables_in(rs.take(0)));
    assert(pending_views(pending@) =~= indexes_in(rs.take(0)));
    while i < rows.len()
        invariant
            i <= rows.len(),
            rs == value::rows(rows@),
            table_views(schemas@) == tables_in(rs.take(i as int)),
            pending_views(pending@) == indexes_in(rs.take(i as int)),
        decreases rows.len() - i,
    {
        let row = &rows[i];
        proof {
            assert(rs.take(i + 1).drop_last() =~= rs.take(i as int));
            assert(rs.take(i + 1).last() == value::values(row@));
            reveal_strlit("table");
            reveal_strlit("index");
        }
        if kind_is(row, "table") {
            assert("table"@[0] != "index"@[0]);
            let ghost before = schemas@;
            let t = table_schema(row.as_slice());
            schemas.push(t);
            assert(table_views(schemas@) =~= table_views(before).push(t@));
        } else if kind_is(row, "index") {
            if let Some((table, index)) = index_schema(row.as_slice()) {
                let ghost before = pending@;
                let ghost entry = (table@, index@);
                pending.push((table, index));
                assert(pending_views(pending@) =~= pending_views(before).push(entry));
            }
        }
        i = i + 1;
    }
    assert(rs.take(i as int) =~= rs);
    let ghost tables = table_views(schemas@);
    let ghost ps = pending_views(pending@);
    let mut j: usize = 0;
    assert(ps.take(0).len() == 0);
    while j < pending.len()
        invariant
            j <= pending.len(),
            ps == pending_views(pending@),
            table_views(schemas@) == all_attached(tables, ps.take(j as int)),
        decreases pending.len() - j,
    {
        let p = &pending[j];
        proof {
            assert(ps.take(j + 1).drop_last() =~= ps.take(j as int));
            assert(ps.take(j + 1).last() == (p.0@, p.1@));
        }
        attach(&mut schemas, &p.0, &p.1);
        j = j + 1;
    }
    assert(ps.take(j as int) =~= ps);
    Ok(schemas)
}

/// Returns the name of every table and view of the schema table, whose rows have these
/// payloads in order, up to a failure to read on; unfiltered and in storage order.
pub fn read_table_and_view_names(
    payloads: &Vec<Vec<u8>>,
    failure: &Option<String>,
    encoding: TextEncoding,
) -> (r: Result<Vec<String>, DdlError>)
    ensures
        match (
            r,
            master_rows(
                crate::vdbe::request::byte_strings(payloads@),
                crate::vdbe::error::optional_text(*failure),
                encoding,
                0,
            ),
        ) {
            (Ok(names), Ok(rows)) => text::texts(names@) == names_in(rows),
            (Err(e), Err(f)) => e@ == f,
            _ => false,
        },
{
    let rows = decode_master(payloads, failure, encoding)?;
    let ghost rs = value::rows(rows@);
    let mut names: Vec<String> = Vec::new();
    let mut i: usize = 0;
    assert(text::texts(names@) =~= names_in(rs.take(0)));
    while i < rows.len()
        invariant
            i <= rows.len(),
            rs == value::rows(rows@),
            text::texts(names@) == names_in(rs.take(i as int)),
        decreases rows.len() - i,
    {
        let row = &rows[i];
        proof {
            assert(rs.take(i + 1).drop_last() =~= rs.take(i as int));
            assert(rs.take(i + 1).last() == value::values(row@));
        }
        if kind_is(row, "table") || kind_is(row, "view") {
            let name = text_in(row.as_slice(), 1);
            proof {
                text::lemma_texts_push(names@, name);
            }
            names.push(name);
        }
        i = i + 1;
    }
    assert(rs.take(i as int) =~= rs);
    Ok(names)
}

/// Returns every view entry of the schema table, whose rows have these payloads in order, up
/// to a failure to read on.
pub fn read_views(payloads: &Vec<Vec<u8>>, failure: &Option<String>, encoding: TextEncoding) -> (r:
    Result<Vec<ViewSchema>, DdlError>)
    ensures
        match (
            r,
            master_rows(
                crate::vdbe::request::byte_strings(payloads@),
                crate::vdbe::error::optional_text(*failure),
                encoding,
                0,
            ),
        ) {
            (Ok(views), Ok(rows)) => view_views(views@) == views_in(rows),
            (Err(e), Err(f)) => e@ == f,
            _ => false,
        },
{
    let rows = decode_master(payloads, failure, encoding)?;
    let ghost rs = value::rows(rows@);
    let mut views: Vec<ViewSchema> = Vec::new();
    let mut i: usize = 0;
    assert(view_views(views@) =~= views_in(rs.take(0)));
    while i < rows.len()
        invariant
            i <= rows.len(),
            rs == value::rows(rows@),
            view_views(views@) == views_in(rs.take(i as int)),
        decreases rows.len() - i,
    {
        let row = &rows[i];
        proof {
            assert(rs.take(i + 1).drop_last() =~= rs.take(i as int));
            assert(rs.take(i + 1).last() == value::values(row@));
        }
        if kind_is(row, "view") {
            let ghost before = views@;
            let view = ViewSchema {
                name: text_in(row.as_slice(), 1),
                sql: text_in(row.as_slice(), 4),
            };
            views.push(view);
            assert(view_views(views@) =~= view_views(before).push(view@));
        }
        i = i + 1;
    }
    assert(rs.take(i as int) =~= rs);
    Ok(views)
}

// ---- the rowid alias ----------------------------------------------------------------

/// The words PRIMARY and KEY stand next to each other among the pieces.
pub open spec fn names_primary_key(pieces: Seq<Seq<char>>) -> bool {
    exists|k: int|
        0 <= k < pieces.len() - 1 && #[trigger] pieces[k] == "PRIMARY"@ && pieces[k + 1]
            == "KEY"@
}

pub open spec fn has_word(s: Seq<char>, word: Seq<char>) -> bool {
    scan::words(s).contains(word)
}

/// A column definition carries an inline `INTEGER PRIMARY KEY` that is not the `DESC` form.
/// Quoted text and comments do not count.
pub open spec fn is_inline_key(def: Seq<char>) -> bool {
    let upper = text::upper(scan::masked(def));
    names_primary_key(scan::pieces_from(upper, 0, 0)) && has_word(upper, "INTEGER"@) && !has_word(
        upper,
        "DESC"@,
    )
}

/// A column definition declares an `INTEGER` type.
pub open spec fn is_integer(def: Seq<char>) -> bool {
    has_word(text::upper(scan::masked(def)), "INTEGER"@)
}

/// Where `c` last stands in `s` before `i`.
pub open spec fn last_place(s: Seq<char>, c: char, i: int) -> Option<int>
    decreases i,
{
    if i <= 0 || i > s.len() {
        None
    } else if s[i - 1] == c {
        Some(i - 1)
    } else {
        last_place(s, c, i - 1)
    }
}

/// The one column that a table-level `PRIMARY KEY(col)` names.
pub open spec fn sole_key_column(constraint: Seq<char>) -> Option<Seq<char>> {
    if !scan::begins(text::upper(text::trim_start(constraint)), "PRIMARY KEY"@) {
        None
    } else {
        match (scan::found_from(constraint, "("@, 0), last_place(constraint, ')',
            constraint.len() as int)) {
            (Some(open), Some(close)) => if close <= open {
                None
            } else {
                let columns = scan::comma_parts(constraint.subrange(open + 1, close));
                if columns.len() == 1 {
                    Some(name_of(columns[0]))
                } else {
                    None
                }
            },
            _ => None,
        }
    }
}

/// The first definition from the `k`th on that is an inline key.
pub open spec fn inline_key_from(defs: Seq<Seq<char>>, k: int) -> Option<int>
    decreases defs.len() - k,
{
    if k < 0 || k >= defs.len() {
        None
    } else if is_inline_key(defs[k]) {
        Some(k)
    } else {
        inline_key_from(defs, k + 1)
    }
}

/// One of the constraints is a primary key on that column alone.
pub open spec fn keyed_by(constraints: Seq<Seq<char>>, column: Seq<char>) -> bool {
    exists|k: int|
        0 <= k < constraints.len() && sole_key_column(#[trigger] constraints[k]) is Some
            && text::upper(sole_key_column(constraints[k])->0) == text::upper(column)
}

/// The column that stands for the rowid: the first with an inline `INTEGER PRIMARY KEY`, or
/// the table's only column where it is an INTEGER and a table constraint makes it the key.
pub open spec fn alias_of(t: TableSchemaView) -> Option<int> {
    let defs = selected(definitions(t.sql), false);
    if t.without_rowid {
        None
    } else if inline_key_from(defs, 0) is Some {
        inline_key_from(defs, 0)
    } else if defs.len() == 1 && is_integer(defs[0]) && keyed_by(
        selected(definitions(t.sql), true),
        name_of(defs[0]),
    ) {
        Some(0)
    } else {
        None
    }
}

fn word_in(v: &Vec<char>, word: &str) -> (r: bool)
    ensures
        r == has_word(v@, word@),
{
    let words = scan::split_words(v);
    let ghost ws = scan::char_lists(words@);
    let mut i: usize = 0;
    while i < words.len()
        invariant
            i <= words.len(),
            ws == scan::char_lists(words@),
            ws == scan::words(v@),
            ws.len() == words@.len(),
            forall|k: int| 0 <= k < i ==> #[trigger] ws[k] != word@,
        decreases words.len() - i,
    {
        assert(ws[i as int] == words@[i as int]@);
        if text::spells(&words[i], word) {
            assert(ws.contains(ws[i as int]));
            return true;
        }
        i = i + 1;
    }
    false
}

fn primary_key_in(v: &Vec<char>) -> (r: bool)
    ensures
        r == names_primary_key(scan::pieces_from(v@, 0, 0)),
{
    let pieces = scan::split_pieces(v);
    let ghost ps = scan::char_lists(pieces@);
    let mut i: usize = 1;
    while i < pieces.len()
        invariant
            1 <= i,
            ps == scan::char_lists(pieces@),
            ps == scan::pieces_from(v@, 0, 0),
            ps.len() == pieces@.len(),
            forall|k: int|
                0 <= k < i - 1 && k < ps.len() - 1 ==> !(#[trigger] ps[k] == "PRIMARY"@ && ps[k
                    + 1] == "KEY"@),
        decreases pieces.len() - i,
    {
        assert(ps[i - 1] == pieces@[i - 1]@ && ps[i as int] == pieces@[i as int]@);
        let first = text::spells(&pieces[i - 1], "PRIMARY");
        let second = text::spells(&pieces[i], "KEY");
        if first && second {
            assert(ps[i - 1] == "PRIMARY"@ && ps[i - 1 + 1] == "KEY"@);
            return true;
        }
        i = i + 1;
    }
    false
}

fn is_integer_primary_key_inline(def: &Vec<char>) -> (r: bool)
    ensures
        r == is_inline_key(def@),
{
    let m = scan::mask_quotes_and_comments(def);
    let upper = scan::uppered(&m);
    primary_key_in(&upper) && word_in(&upper, "INTEGER") && !word_in(&upper, "DESC")
}

fn is_integer_column(def: &Vec<char>) -> (r: bool)
    ensures
        r == is_integer(def@),
{
    let m = scan::mask_quotes_and_comments(def);
    let upper = scan::uppered(&m);
    word_in(&upper, "INTEGER")
}

fn find_last(v: &Vec<char>, c: char) -> (r: Option<usize>)
    ensures
        match r {
            Some(i) => last_place(v@, c, v@.len() as int) == Some(i as int) && i < v@.len(),
            None => last_place(v@, c, v@.len() as int) is None,
        },
{
    let mut i: usize = v.len();
    while i > 0
        invariant
            i <= v.len(),
            last_place(v@, c, i as int) == last_place(v@, c, v@.len() as int),
        decreases i,
    {
        if v[i - 1] == c {
            return Some(i - 1);
        }
        i = i - 1;
    }
    None
}

/// If `constraint` is a table-level `PRIMARY KEY(col)` naming exactly one column, returns
/// that column's (unquoted) name.
fn primary_key_single_column(constraint: &Vec<char>) -> (r: Option<Vec<char>>)
    ensures
        match r {
            Some(name) => sole_key_column(constraint@) == Some(name@),
            None => sole_key_column(constraint@) is None,
        },
{
    let t = scan::trimmed_start(constraint);
    let upper = scan::uppered(&t);
    if !scan::begins_with(&upper, "PRIMARY KEY") {
        return None;
    }
    let open = match scan::find(constraint, "(") {
        Some(i) => i,
        None => {
            return None;
        },
    };
    let close = match find_last(constraint, ')') {
        Some(i) => i,
        None => {
            return None;
        },
    };
    if close <= open {
        return None;
    }
    let inner = scan::part(constraint, open + 1, close);
    let columns = scan::split_top_level_commas(&inner);
    assert(scan::char_lists(columns@).len() == columns@.len());
    if columns.len() == 1 {
        assert(scan::char_lists(columns@)[0] == columns@[0]@);
        Some(column_name(&columns[0]))
    } else {
        None
    }
}

fn is_keyed_by(constraints: &Vec<Vec<char>>, column: &Vec<char>) -> (r: bool)
    ensures
        r == keyed_by(scan::char_lists(constraints@), column@),
{
    let ghost cs = scan::char_lists(constraints@);
    let wanted = scan::text_from(column);
    let mut i: usize = 0;
    while i < constraints.len()
        invariant
            i <= constraints.len(),
            cs == scan::char_lists(constraints@),
            cs.len() == constraints@.len(),
            wanted@ == column@,
            forall|k: int|
                0 <= k < i ==> !(sole_key_column(#[trigger] cs[k]) is Some && text::upper(
                    sole_key_column(cs[k])->0,
                ) == text::upper(column@)),
        decreases constraints.len() - i,
    {
        assert(cs[i as int] == constraints@[i as int]@);
        if let Some(name) = primary_key_single_column(&constraints[i]) {
            let name = scan::text_from(&name);
            if text::same_ignoring_case(name.as_str(), wanted.as_str()) {
                return true;
            }
        }
        i = i + 1;
    }
    false
}

/// The one-column special case called the rowid alias: a table declared with a single
/// `INTEGER PRIMARY KEY` column (not `WITHOUT ROWID`) stores that column as a NULL
/// placeholder in every record and expects the reader to substitute the cursor's own rowid
/// instead. Returns the 0-based column index to substitute, if any.
pub fn rowid_alias_column(schema: &TableSchema) -> (r: Option<usize>)
    ensures
        match r {
            Some(k) => alias_of(schema@) == Some(k as int),
            None => alias_of(schema@) is None,
        },
{
    if schema.without_rowid {
        return None;
    }
    let sql = text::chars_of(schema.sql.as_str());
    let all = all_defs(&sql);
    let defs = select(&all, false);
    let ghost ds = scan::char_lists(defs@);
    assert(ds.len() == defs@.len());
    let mut i: usize = 0;
    while i < defs.len()
        invariant
            i <= defs.len(),
            ds == scan::char_lists(defs@),
            ds.len() == defs@.len(),
            ds == selected(definitions(schema@.sql), false),
            !schema@.without_rowid,
            inline_key_from(ds, i as int) == inline_key_from(ds, 0),
        decreases defs.len() - i,
    {
        assert(ds[i as int] == defs@[i as int]@);
        if is_integer_primary_key_inline(&defs[i]) {
            return Some(i);
        }
        i = i + 1;
    }
    if defs.len() == 1 {
        assert(ds[0] == defs@[0]@);
        if is_integer_column(&defs[0]) {
            let name = column_name(&defs[0]);
            let constraints = select(&all, true);
            if is_keyed_by(&constraints, &name) {
                return Some(0);
            }
        }
    }
    None
}

// ---- laws ---------------------------------------------------------------------------

proof fn lemma_inline_key(defs: Seq<Seq<char>>, k: int)
    requires
        0 <= k,
    ensures
        inline_key_from(defs, k) is Some ==> k <= inline_key_from(defs, k)->0 < defs.len(),
    decreases defs.len() - k,
{
    if k < defs.len() && !is_inline_key(defs[k]) {
        lemma_inline_key(defs, k + 1);
    }
}

/// A table's columns agree position-for-position with its column definitions, and so do their
/// types and collations; the rowid alias is one of them.
pub proof fn law_columns_agree_with_definitions(row: Seq<ValueView>)
    ensures
        ({
            let t = table_of(row);
            let defs = selected(definitions(t.sql), false);
            &&& t.column_types.len() == t.columns.len()
            &&& t.column_collations.len() == t.columns.len()
            &&& !t.is_virtual ==> t.columns.len() == defs.len()
            &&& !t.is_virtual ==> forall|k: int|
                0 <= k < defs.len() ==> #[trigger] t.columns[k] == name_of(defs[k])
                    && t.column_types[k] == type_of(defs[k]) && t.column_collations[k]
                    == collation_of(defs[k])
            &&& !t.is_virtual && alias_of(t) is Some ==> 0 <= alias_of(t)->0 < t.columns.len()
        }),
{
    let t = table_of(row);
    lemma_inline_key(selected(definitions(t.sql), false), 0);
}

/// DDL without a column list degrades to an entry without columns.
pub proof fn law_unreadable_ddl_has_no_columns(row: Seq<ValueView>)
    requires
        scan::list_span(text_at(row, 4)) is None,
    ensures
        table_of(row).columns.len() == 0,
        table_of(row).name == text_at(row, 1),
        index_of(row) is None,
{
}

/// A virtual table has no columns and no root page.
pub proof fn law_virtual_table_has_no_columns(row: Seq<ValueView>)
    requires
        is_virtual(text_at(row, 4)),
    ensures
        table_of(row).is_virtual,
        table_of(row).columns.len() == 0,
        table_of(row).root_page == 0,
{
}

/// A table without rowids has no rowid alias.
pub proof fn law_without_rowid_has_no_alias(t: TableSchemaView)
    requires
        t.without_rowid,
    ensures
        alias_of(t) is None,
{
}

proof fn lemma_table_named(tables: Seq<TableSchemaView>, name: Seq<char>, k: int)
    requires
        0 <= k,
    ensures
        table_named(tables, name, k) is Some ==> k <= table_named(tables, name, k)->0
            < tables.len() && tables[table_named(tables, name, k)->0].name == name,
    decreases tables.len() - k,
{
    if k < tables.len() && tables[k].name != name {
        lemma_table_named(tables, name, k + 1);
    }
}

/// Attaching indexes adds and drops no table, and changes nothing of one but its indexes.
pub proof fn law_indexes_change_no_table(
    tables: Seq<TableSchemaView>,
    indexes: Seq<(Seq<char>, IndexSchemaView)>,
)
    ensures
        all_attached(tables, indexes).len() == tables.len(),
        forall|k: int|
            0 <= k < tables.len() ==> (TableSchemaView {
                indexes: tables[k].indexes,
                ..#[trigger] all_attached(tables, indexes)[k]
            }) == tables[k],
    decreases indexes.len(),
{
    if indexes.len() > 0 {
        law_indexes_change_no_table(tables, indexes.drop_last());
        let before = all_attached(tables, indexes.drop_last());
        lemma_table_named(before, indexes.last().0, 0);
        assert forall|k: int| 0 <= k < tables.len() implies (TableSchemaView {
            indexes: tables[k].indexes,
            ..#[trigger] all_attached(tables, indexes)[k]
        }) == tables[k] by {
            assert((TableSchemaView { indexes: tables[k].indexes, ..before[k] }) == tables[k]);
        }
    }
}

/// Whether a row of the schema table describes a table or a view.
pub open spec fn is_listed(row: Seq<ValueView>) -> bool {
    text_at(row, 0) == "table"@ || is_view(row)
}

/// Whether a row of the schema table describes a view.
pub open spec fn is_view(row: Seq<ValueView>) -> bool {
    text_at(row, 0) == "view"@
}

/// The view that a row of the schema table describes.
pub open spec fn view_of(row: Seq<ValueView>) -> ViewSchemaView {
    ViewSchemaView { name: text_at(row, 1), sql: text_at(row, 4) }
}

/// The rows that describe tables and views, in order.
pub open spec fn listed_rows(rows: Seq<Seq<ValueView>>) -> Seq<Seq<ValueView>> {
    rows.filter(|row: Seq<ValueView>| is_listed(row))
}

/// The rows that describe views, in order.
pub open spec fn view_rows(rows: Seq<Seq<ValueView>>) -> Seq<Seq<ValueView>> {
    rows.filter(|row: Seq<ValueView>| is_view(row))
}

/// The names that are listed are those of the rows for tables and views, and the views are
/// those of the listed rows that are for views; both in the order of the rows.
pub proof fn law_views_are_listed(rows: Seq<Seq<ValueView>>)
    ensures
        names_in(rows) == listed_rows(rows).map_values(|row: Seq<ValueView>| text_at(row, 1)),
        views_in(rows) == view_rows(listed_rows(rows)).map_values(
            |row: Seq<ValueView>| view_of(row),
        ),
        view_rows(listed_rows(rows)) == view_rows(rows),
    decreases rows.len(),
{
    reveal(Seq::filter);
    let listed = listed_rows(rows);
    if rows.len() > 0 {
        let front = rows.drop_last();
        let row = rows.last();
        law_views_are_listed(front);
        if is_listed(row) {
            assert(listed == listed_rows(front).push(row));
            assert(listed.drop_last() =~= listed_rows(front));
            assert(names_in(rows) =~= listed.map_values(|row: Seq<ValueView>| text_at(row, 1)));
        }
        if is_view(row) {
            assert(view_rows(listed) == view_rows(listed_rows(front)).push(row));
        }
    }
    assert(names_in(rows) =~= listed.map_values(|row: Seq<ValueView>| text_at(row, 1)));
    assert(views_in(rows) =~= view_rows(listed).map_values(|row: Seq<ValueView>| view_of(row)));
    assert(view_rows(listed) =~= view_rows(rows));
}

/// A column definition, in capitals and without quoted text and comments, makes its column
/// stand for the rowid: PRIMARY and KEY stand next to each other in it, the word INTEGER
/// stands in it, and the word DESC does not. Nothing else that stands in it matters.
pub open spec fn stands_for_rowid(def: Seq<char>) -> bool {
    let s = text::upper(scan::masked(def));
    &&& exists|i: int| 0 <= i && scan::are_pieces_at(s, "PRIMARY"@, "KEY"@, i)
    &&& exists|i: int| 0 <= i && scan::is_word_at(s, "INTEGER"@, i)
    &&& !exists|i: int| 0 <= i && scan::is_word_at(s, "DESC"@, i)
}

proof fn lemma_stands_for_rowid(def: Seq<char>)
    ensures
        is_inline_key(def) == stands_for_rowid(def),
{
    let s = text::upper(scan::masked(def));
    reveal_strlit("PRIMARY");
    reveal_strlit("KEY");
    reveal_strlit("INTEGER");
    reveal_strlit("DESC");
    let pieces = scan::pieces_from(s, 0, 0);
    scan::law_neighbouring_pieces(s, "PRIMARY"@, "KEY"@);
    scan::law_words_stand_between_white_space(s, "INTEGER"@);
    scan::law_words_stand_between_white_space(s, "DESC"@);
    if names_primary_key(pieces) {
        let k = choose|k: int|
            0 <= k < pieces.len() - 1 && #[trigger] pieces[k] == "PRIMARY"@ && pieces[k + 1]
                == "KEY"@;
        assert(scan::are_neighbours(pieces, "PRIMARY"@, "KEY"@, k));
    }
    if exists|k: int| scan::are_neighbours(pieces, "PRIMARY"@, "KEY"@, k) {
        let k = choose|k: int| scan::are_neighbours(pieces, "PRIMARY"@, "KEY"@, k);
        assert(pieces[k] == "PRIMARY"@ && pieces[k + 1] == "KEY"@);
    }
}

proof fn lemma_first_key(defs: Seq<Seq<char>>, from: int, k: int)
    requires
        0 <= from <= k < defs.len(),
        stands_for_rowid(defs[k]),
        forall|j: int| from <= j < k ==> !stands_for_rowid(#[trigger] defs[j]),
    ensures
        inline_key_from(defs, from) == Some(k),
    decreases k - from,
{
    lemma_stands_for_rowid(defs[from]);
    if from < k {
        assert(!stands_for_rowid(defs[from]));
        lemma_first_key(defs, from + 1, k);
    }
}

proof fn lemma_no_key(defs: Seq<Seq<char>>, from: int)
    requires
        0 <= from <= defs.len(),
        forall|j: int| from <= j < defs.len() ==> !stands_for_rowid(#[trigger] defs[j]),
    ensures
        inline_key_from(defs, from) is None,
    decreases defs.len() - from,
{
    if from < defs.len() {
        lemma_stands_for_rowid(defs[from]);
        assert(!stands_for_rowid(defs[from]));
        lemma_no_key(defs, from + 1);
    }
}

/// Of a table with rowids the first column whose definition says so stands for the rowid,
/// whatever other constraints stand beside.
pub proof fn law_first_integer_key_is_alias(t: TableSchemaView, k: int)
    requires
        !t.without_rowid,
        ({
            let defs = selected(definitions(t.sql), false);
            &&& 0 <= k < defs.len()
            &&& stands_for_rowid(defs[k])
            &&& forall|j: int| 0 <= j < k ==> !stands_for_rowid(#[trigger] defs[j])
        }),
    ensures
        alias_of(t) == Some(k),
{
    lemma_first_key(selected(definitions(t.sql), false), 0, k);
}

/// Where no definition says so, only a table's one column can stand for the rowid: it does
/// where it is an INTEGER and a table constraint makes it the key.
pub proof fn law_other_alias_is_the_only_column(t: TableSchemaView)
    requires
        ({
            let defs = selected(definitions(t.sql), false);
            forall|j: int| 0 <= j < defs.len() ==> !stands_for_rowid(#[trigger] defs[j])
        }),
    ensures
        ({
            let defs = selected(definitions(t.sql), false);
            let constraints = selected(definitions(t.sql), true);
            let integer = exists|i: int|
                0 <= i && scan::is_word_at(
                    text::upper(scan::masked(defs[0])),
                    "INTEGER"@,
                    i,
                );
            let keyed = exists|c: int|
                0 <= c < constraints.len() && sole_key_column(#[trigger] constraints[c]) is Some
                    && text::upper(sole_key_column(constraints[c])->0) == text::upper(
                    name_of(defs[0]),
                );
            alias_of(t) == (if !t.without_rowid && defs.len() == 1 && integer && keyed {
                Some(0int)
            } else {
                None
            })
        }),
{
    let defs = selected(definitions(t.sql), false);
    lemma_no_key(defs, 0);
    reveal_strlit("INTEGER");
    if defs.len() == 1 {
        scan::law_words_stand_between_white_space(text::upper(scan::masked(defs[0])), "INTEGER"@);
    }
}

/// A table's entry holds what its row of the schema table says: the name, the text, and, but
/// for a virtual table, the root page.
pub proof fn law_table_entry_is_its_row(row: Seq<ValueView>)
    ensures
        row.len() > 1 && row[1] is Text ==> table_of(row).name == row[1]->Text_0,
        row.len() > 4 && row[4] is Text ==> table_of(row).sql == row[4]->Text_0,
        row.len() > 3 && row[3] is Integer && 0 <= row[3]->Integer_0 <= u32::MAX && !table_of(
            row,
        ).is_virtual ==> table_of(row).root_page == row[3]->Integer_0,
        table_of(row).is_virtual <==> scan::begins(
            text::upper(text::trim_start(table_of(row).sql)),
            "CREATE VIRTUAL TABLE"@,
        ),
        table_of(row).indexes.len() == 0,
        ({
            let t = table_of(row);
            let behind = match scan::list_span(t.sql) {
                Some((_, end)) => text::upper(t.sql.skip(end + 1)),
                None => seq![],
            };
            !t.is_virtual ==> (t.without_rowid <==> text::holds(behind, "WITHOUT ROWID"@)) && (
            t.strict <==> text::holds(behind, "STRICT"@))
        }),
{
    assert(text_at(row, 4) == table_of(row).sql);
}

/// An index's entry holds what its row of the schema table says: its name, the table it is
/// on, the root page, whether it is unique, and one key part for each part of its list, in
/// order.
pub proof fn law_index_entry_is_its_row(row: Seq<ValueView>, k: int)
    requires
        row.len() > 4,
        row[1] is Text,
        row[2] is Text,
        row[3] is Integer,
        0 <= row[3]->Integer_0 <= u32::MAX,
        row[4] is Text,
        scan::list_span(row[4]->Text_0) is Some,
    ensures
        ({
            let sql = row[4]->Text_0;
            let (start, end) = scan::list_span(sql)->0;
            let parts = scan::comma_parts(sql.subrange(start, end));
            let (table, index) = index_of(row)->0;
            &&& index_of(row) is Some
            &&& table == row[2]->Text_0
            &&& index.name == row[1]->Text_0
            &&& index.root_page == row[3]->Integer_0
            &&& index.unique <==> scan::begins(
                text::upper(text::trim_start(sql)),
                "CREATE UNIQUE INDEX"@,
            )
            &&& index.columns.len() == parts.len()
            &&& 0 <= k < parts.len() ==> index.columns[k] == key_part_of(parts[k])
        }),
{
}

/// A name without white space, quotation marks and brackets, in which COLLATE does not stand.
pub open spec fn is_bare_name(name: Seq<char>) -> bool {
    &&& scan::is_solid(name)
    &&& forall|j: int|
        0 <= j < name.len() ==> {
            let c = #[trigger] name[j];
            c != '"' && c != '`' && c != '[' && c != ']'
        }
    &&& !text::holds(text::upper(name), "COLLATE"@)
}

proof fn lemma_bare_unquoted(name: Seq<char>)
    requires
        is_bare_name(name),
    ensures
        scan::unquoted(name) == name,
        text::trim(name) == name,
        text::trim_end(name) == name,
{
    assert(name[0] != '"' && name[name.len() - 1] != '"');
    assert(!text::is_space(name[0]) && !text::is_space(name[name.len() - 1]));
}

proof fn lemma_not_found(s: Seq<char>, part: Seq<char>, i: int)
    requires
        0 <= i,
        !text::holds(s, part),
    ensures
        scan::found_from(s, part, i) is None,
    decreases s.len() + 1 - i,
{
    if i <= s.len() {
        assert(!text::stands_at(s, part, i));
        lemma_not_found(s, part, i + 1);
    }
}

proof fn lemma_bare_part(name: Seq<char>, desc: bool)
    requires
        is_bare_name(name),
    ensures
        ({
            let span = name;
            &&& (match scan::found_from(text::upper(span), " COLLATE "@, 0) {
                Some(pos) => text::trim_end(span.take(pos)),
                None => span,
            }) == name
            &&& collation_of(span) == Collation::Binary
        }),
{
    let u = text::upper(name);
    reveal_strlit("COLLATE");
    reveal_strlit(" COLLATE ");
    lemma_not_found(u, "COLLATE"@, 0);
    if text::holds(u, " COLLATE "@) {
        let i = choose|i: int| text::stands_at(u, " COLLATE "@, i);
        assert(u.subrange(i, i + 9)[0] == ' ');
        assert(u[i] == ' ');
        assert(!text::is_space(name[i]));
        assert(u[i] == text::upper_char(name[i]));
    }
    lemma_not_found(u, " COLLATE "@, 0);
}

/// A key part that is a name is that column, ascending and under BINARY; with DESC behind it,
/// in whatever case, it is descending, and with ASC it is not.
pub proof fn law_key_part_has_its_direction(name: Seq<char>, word: Seq<char>)
    requires
        is_bare_name(name),
    ensures
        key_part_of(name) == (IndexedColumnView {
            name,
            desc: false,
            collation: Collation::Binary,
        }),
        text::upper(word) == "DESC"@ ==> key_part_of(name + seq![' '] + word) == (
        IndexedColumnView { name, desc: true, collation: Collation::Binary }),
        text::upper(word) == "ASC"@ ==> key_part_of(name + seq![' '] + word) == (
        IndexedColumnView { name, desc: false, collation: Collation::Binary }),
{
    reveal_strlit(" DESC");
    reveal_strlit(" ASC");
    reveal_strlit("DESC");
    reveal_strlit("ASC");
    lemma_bare_unquoted(name);
    lemma_bare_part(name, false);
    let u = text::upper(name);
    let n = name.len() as int;
    if scan::ends(u, " DESC"@) {
        assert(u.subrange(n - 5, n)[0] == ' ');
        assert(u[n - 5] == text::upper_char(name[n - 5]));
        assert(!text::is_space(name[n - 5]));
    }
    if scan::ends(u, " ASC"@) {
        assert(u.subrange(n - 4, n)[0] == ' ');
        assert(u[n - 4] == text::upper_char(name[n - 4]));
        assert(!text::is_space(name[n - 4]));
    }
    assert(key_part_of(name) =~= (IndexedColumnView {
        name,
        desc: false,
        collation: Collation::Binary,
    }));
    let w = word.len() as int;
    let s = name + seq![' '] + word;
    let us = text::upper(s);
    if text::upper(word) == "DESC"@ || text::upper(word) == "ASC"@ {
        assert(text::upper(word).len() == w);
        assert(text::upper_char(word[w - 1]) == text::upper(word)[w - 1]);
        assert(!text::is_space(s[0]));
        assert(s.last() == word[w - 1]);
        assert(!text::is_space(s.last()));
        assert(text::trim(s) == s);
        assert(us.len() == n + 1 + w);
        assert forall|j: int| n + 1 <= j < n + 1 + w implies us[j] == text::upper(word)[j - n
            - 1] by {
            assert(s[j] == word[j - n - 1]);
        }
        assert(us[n] == ' ') by {
            assert(s[n] == ' ');
        }
        assert(s.take(n) =~= name);
        if text::upper(word) == "DESC"@ {
            assert(us.subrange(n, n + 5) =~= " DESC"@);
        } else {
            assert(us.subrange(n, n + 4) =~= " ASC"@);
            assert(us.subrange(n - 1, n + 4)[2] == 'A') by {
                assert(us[n + 1] == 'A');
            }
        }
    }
}

/// The tables are those of the rows for tables, in the order of the rows.
pub proof fn law_tables_are_those_of_their_rows(rows: Seq<Seq<ValueView>>)
    ensures
        tables_in(rows) == rows.filter(
            |row: Seq<ValueView>| text_at(row, 0) == "table"@,
        ).map_values(|row: Seq<ValueView>| table_of(row)),
    decreases rows.len(),
{
    reveal(Seq::filter);
    let keep = |row: Seq<ValueView>| text_at(row, 0) == "table"@;
    let make = |row: Seq<ValueView>| table_of(row);
    if rows.len() > 0 {
        law_tables_are_those_of_their_rows(rows.drop_last());
    }
    assert(tables_in(rows) =~= rows.filter(keep).map_values(make));
}

/// An index goes to the first table of the name it is on, behind the indexes that are there;
/// every other table stays as it is, and all do where there is no such table.
pub proof fn law_index_goes_to_its_table(
    tables: Seq<TableSchemaView>,
    name: Seq<char>,
    index: IndexSchemaView,
    k: int,
    other: int,
)
    requires
        0 <= k <= tables.len(),
        forall|j: int| 0 <= j < k ==> (#[trigger] tables[j]).name != name,
        k < tables.len() ==> tables[k].name == name,
        0 <= other < tables.len(),
    ensures
        attached(tables, name, index).len() == tables.len(),
        other == k ==> attached(tables, name, index)[other] == (TableSchemaView {
            indexes: tables[k].indexes.push(index),
            ..tables[k]
        }),
        other != k ==> attached(tables, name, index)[other] == tables[other],
{
    lemma_first_named(tables, name, 0, k);
}

proof fn lemma_first_named(tables: Seq<TableSchemaView>, name: Seq<char>, from: int, k: int)
    requires
        0 <= from <= k <= tables.len(),
        forall|j: int| from <= j < k ==> (#[trigger] tables[j]).name != name,
        k < tables.len() ==> tables[k].name == name,
    ensures
        table_named(tables, name, from) == (if k < tables.len() {
            Some(k)
        } else {
            None
        }),
    decreases k - from,
{
    if from < k {
        assert(tables[from].name != name);
        lemma_first_named(tables, name, from + 1, k);
    }
}

/// The words that begin a column constraint.
pub open spec fn constraint_words() -> Seq<Seq<char>> {
    seq![
        "PRIMARY"@,
        "NOT"@,
        "NULL"@,
        "UNIQUE"@,
        "CHECK"@,
        "DEFAULT"@,
        "COLLATE"@,
        "REFERENCES"@,
    ]
}

/// A word that is one of them, in whatever case, or begins with one and a parenthesis.
pub open spec fn is_constraint_word(word: Seq<char>) -> bool {
    exists|i: int|
        0 <= i < 8 && (text::upper(word) == #[trigger] constraint_words()[i] || scan::begins(
            text::upper(word),
            constraint_words()[i] + "("@,
        ))
}

proof fn lemma_constraint_word(word: Seq<char>)
    ensures
        begins_constraint(word) == is_constraint_word(word),
{
    let w = constraint_words();
    assert(w[0] == "PRIMARY"@ && w[1] == "NOT"@ && w[2] == "NULL"@ && w[3] == "UNIQUE"@);
    assert(w[4] == "CHECK"@ && w[5] == "DEFAULT"@ && w[6] == "COLLATE"@ && w[7] == "REFERENCES"@);
}

proof fn lemma_type_words(words: Seq<Seq<char>>, from: int, k: int)
    requires
        0 <= from <= k <= words.len(),
        forall|j: int| from <= j < k ==> !is_constraint_word(#[trigger] words[j]),
        k < words.len() ==> is_constraint_word(words[k]),
    ensures
        type_words(words, from) == words.subrange(from, k),
    decreases k - from,
{
    if from < words.len() {
        lemma_constraint_word(words[from]);
    }
    if from < k {
        assert(!is_constraint_word(words[from]));
        lemma_type_words(words, from + 1, k);
        assert(seq![words[from]] + words.subrange(from + 1, k) =~= words.subrange(from, k));
    } else {
        assert(words.subrange(from, k) =~= Seq::empty());
    }
}

/// A column's type is the words behind its name up to the first that begins a constraint, with
/// single spaces between.
pub proof fn law_type_ends_at_a_constraint(def: Seq<char>, k: int)
    requires
        1 <= k <= scan::words(def).len(),
        forall|j: int| 1 <= j < k ==> !is_constraint_word(#[trigger] scan::words(def)[j]),
        k < scan::words(def).len() ==> is_constraint_word(scan::words(def)[k]),
    ensures
        type_of(def) == text::join(scan::words(def).subrange(1, k), " "@),
{
    lemma_type_words(scan::words(def), 1, k);
}

/// A column's name is what its definition begins with, up to white space: as it is where it
/// has no quotation marks, and without those around it where it has.
pub proof fn law_name_begins_the_definition(name: Seq<char>, rest: Seq<char>, open: char)
    requires
        scan::is_solid(name),
        forall|j: int|
            0 <= j < name.len() ==> {
                let c = #[trigger] name[j];
                c != '"' && c != '`' && c != '[' && c != ']'
            },
        rest.len() > 0 ==> text::is_space(rest[0]),
        open == '"' || open == '`' || open == '[',
    ensures
        name_of(name + rest) == name,
        name_of(
            seq![open] + name + seq![
                if open == '[' {
                    ']'
                } else {
                    open
                },
            ] + rest,
        ) == name,
{
    let close = if open == '[' {
        ']'
    } else {
        open
    };
    let n = name.len() as int;
    assert(name[0] != '"' && name[n - 1] != '"');
    lemma_first_word(name, rest);
    let q = seq![open] + name + seq![close];
    assert(scan::is_solid(q)) by {
        assert forall|j: int| 0 <= j < q.len() implies !text::is_space(#[trigger] q[j]) by {
            if 0 < j <= n {
                assert(q[j] == name[j - 1]);
            }
        }
    }
    lemma_first_word(q, rest);
    // The marks around the name are taken off.
    assert(q.drop_first() =~= name + seq![close]);
    let s1 = scan::strip_start(q, false);
    assert(scan::strip_start(name + seq![close], false) == name + seq![close]) by {
        assert((name + seq![close])[0] == name[0]);
    }
    assert(s1 == name + seq![close]);
    assert(s1.drop_last() =~= name);
    assert(s1.last() == close);
    if close == ']' {
        let s2 = scan::strip_end(s1, false);
        assert(s2 == s1);
        assert(scan::strip_start(s1, true) == s1) by {
            assert(s1[0] == name[0]);
        }
        assert(scan::strip_end(name, true) == name);
        assert(scan::strip_end(s1, true) == name);
    } else {
        assert(scan::strip_end(name, false) == name);
        assert(scan::strip_end(s1, false) == name);
    }
}

proof fn lemma_first_word(word: Seq<char>, rest: Seq<char>)
    requires
        scan::is_solid(word),
        rest.len() > 0 ==> text::is_space(rest[0]),
    ensures
        first_word(word + rest) == word,
{
    let s = word + rest;
    assert(s[0] == word[0]);
    assert(!text::is_space(s[0]));
    assert(scan::gap_end(s, 0) == 0);
    lemma_word_reaches(s, word.len() as int, 0);
    assert(s.subrange(0, word.len() as int) =~= word);
    assert(scan::words(s)[0] == word);
}

proof fn lemma_word_reaches(s: Seq<char>, n: int, i: int)
    requires
        0 <= i <= n <= s.len(),
        forall|j: int| 0 <= j < n ==> !text::is_space(#[trigger] s[j]),
        n < s.len() ==> text::is_space(s[n]),
    ensures
        scan::word_end(s, i) == n,
    decreases n - i,
{
    if i < n {
        assert(!text::is_space(s[i]));
        lemma_word_reaches(s, n, i + 1);
    }
}

/// A column's collation is the one named behind the first COLLATE in its definition, in
/// whatever case; it is BINARY where there is none, or one that is not known.
pub proof fn law_collation_is_the_one_named(def: Seq<char>, i: int)
    ensures
        !text::holds(text::upper(def), "COLLATE"@) ==> collation_of(def) == Collation::Binary,
        0 <= i && text::stands_at(text::upper(def), "COLLATE"@, i) && (forall|j: int|
            0 <= j < i ==> !text::stands_at(text::upper(def), "COLLATE"@, j)) ==> {
            let name = text::upper(name_of(def.skip(i + 7)));
            &&& collation_of(def) == Collation::NoCase <==> name == "NOCASE"@
            &&& collation_of(def) == Collation::RTrim <==> name == "RTRIM"@
        },
{
    let u = text::upper(def);
    reveal_strlit("COLLATE");
    reveal_strlit("NOCASE");
    reveal_strlit("RTRIM");
    assert("NOCASE"@[0] != "RTRIM"@[0]);
    if !text::holds(u, "COLLATE"@) {
        lemma_not_found(u, "COLLATE"@, 0);
    }
    if 0 <= i && text::stands_at(u, "COLLATE"@, i) && (forall|j: int|
        0 <= j < i ==> !text::stands_at(u, "COLLATE"@, j)) {
        lemma_found_first(u, "COLLATE"@, 0, i);
    }
}

proof fn lemma_found_first(s: Seq<char>, part: Seq<char>, from: int, i: int)
    requires
        0 <= from <= i,
        text::stands_at(s, part, i),
        forall|j: int| from <= j < i ==> !text::stands_at(s, part, j),
    ensures
        scan::found_from(s, part, from) == Some(i),
    decreases i - from,
{
    if from < i {
        assert(!text::stands_at(s, part, from));
        lemma_found_first(s, part, from + 1, i);
    }
}

/// The words that begin a table constraint.
pub open spec fn table_constraint_words() -> Seq<Seq<char>> {
    seq!["PRIMARY KEY"@, "UNIQUE"@, "FOREIGN KEY"@, "CHECK"@, "CONSTRAINT"@]
}

/// Of the parts of a table's list, those that begin with the words of a table constraint, in
/// whatever case, are constraints and all others are columns; each keeps its place among its
/// like.
pub proof fn law_parts_are_columns_or_constraints(defs: Seq<Seq<char>>)
    ensures
        selected(defs, true) == defs.filter(
            |d: Seq<char>|
                exists|i: int|
                    0 <= i < 5 && begins_word(
                        text::upper(text::trim(d)),
                        #[trigger] table_constraint_words()[i],
                    ),
        ),
        selected(defs, false) == defs.filter(
            |d: Seq<char>|
                !exists|i: int|
                    0 <= i < 5 && begins_word(
                        text::upper(text::trim(d)),
                        #[trigger] table_constraint_words()[i],
                    ),
        ),
        selected(defs, true).len() + selected(defs, false).len() == defs.len(),
    decreases defs.len(),
{
    reveal(Seq::filter);
    if defs.len() > 0 {
        law_parts_are_columns_or_constraints(defs.drop_last());
        let w = table_constraint_words();
        assert(w[0] == "PRIMARY KEY"@ && w[1] == "UNIQUE"@ && w[2] == "FOREIGN KEY"@);
        assert(w[3] == "CHECK"@ && w[4] == "CONSTRAINT"@);
    }
}

} // verus!
