//! Values and operands as diagnostics show them: each variant by its name, with what it
//! holds.
use crate::decimal;
use crate::record::collation::Collation;
use crate::record::value::{Value, ValueView};
use crate::text;
use crate::vdbe::program::{P4View, SortKeyColumn, P4};
use vstd::prelude::*;

verus! {

pub open spec fn flag_text(b: bool) -> Seq<char> {
    if b {
        "true"@
    } else {
        "false"@
    }
}

pub open spec fn collation_text(c: Collation) -> Seq<char> {
    match c {
        Collation::Binary => "Binary"@,
        Collation::NoCase => "NoCase"@,
        Collation::RTrim => "RTrim"@,
    }
}

/// Parts in square brackets.
pub open spec fn list_text(parts: Seq<Seq<char>>) -> Seq<char> {
    "["@ + text::join(parts, ", "@) + "]"@
}

pub open spec fn byte_texts(b: Seq<u8>) -> Seq<Seq<char>> {
    b.map_values(|x: u8| text::decimal(x as nat))
}

pub open spec fn index_texts(b: Seq<usize>) -> Seq<Seq<char>> {
    b.map_values(|x: usize| text::decimal(x as nat))
}

pub open spec fn root_text(p: (Seq<char>, u32)) -> Seq<char> {
    "("@ + text::debug_of_text(p.0) + ", "@ + text::decimal(p.1 as nat) + ")"@
}

pub open spec fn root_texts(v: Seq<(Seq<char>, u32)>) -> Seq<Seq<char>> {
    v.map_values(|p: (Seq<char>, u32)| root_text(p))
}

pub open spec fn key_text(k: SortKeyColumn) -> Seq<char> {
    "SortKeyColumn { index: "@ + text::decimal(k.index as nat) + ", descending: "@ + flag_text(
        k.descending,
    ) + ", collation: "@ + collation_text(k.collation) + ", nulls_first: "@ + flag_text(
        k.nulls_first,
    ) + " }"@
}

pub open spec fn key_texts(v: Seq<SortKeyColumn>) -> Seq<Seq<char>> {
    v.map_values(|k: SortKeyColumn| key_text(k))
}

/// A value as diagnostics show it.
pub open spec fn value_text(v: ValueView) -> Seq<char> {
    match v {
        ValueView::Null => "Null"@,
        ValueView::Integer(i) => "Integer("@ + text::signed_decimal(i as int) + ")"@,
        ValueView::Real(r) => "Real("@ + decimal::shown(r) + ")"@,
        ValueView::Text(s) => "Text("@ + text::debug_of_text(s) + ")"@,
        ValueView::Blob(b) => "Blob("@ + list_text(byte_texts(b)) + ")"@,
    }
}

/// An operand as diagnostics show it.
pub open spec fn operand_text(p: P4View) -> Seq<char> {
    match p {
        P4View::Absent => "None"@,
        P4View::Int(i) => "Int("@ + text::signed_decimal(i as int) + ")"@,
        P4View::Real(r) => "Real("@ + decimal::shown(r) + ")"@,
        P4View::Blob(b) => "Blob("@ + list_text(byte_texts(b)) + ")"@,
        P4View::Str(s) => "Str("@ + text::debug_of_text(s) + ")"@,
        P4View::CollSeq { collation, affinity } => "CollSeq { collation: "@ + collation_text(
            collation,
        ) + ", affinity: "@ + text::decimal(affinity as nat) + " }"@,
        P4View::SortKey(keys) => "SortKey("@ + list_text(key_texts(keys)) + ")"@,
        P4View::Affinity(b) => "Affinity("@ + list_text(byte_texts(b)) + ")"@,
        P4View::Bool(b) => "Bool("@ + flag_text(b) + ")"@,
        P4View::CreateTable { name, sql } => "CreateTable { name: "@ + text::debug_of_text(name)
            + ", sql: "@ + text::debug_of_text(sql) + " }"@,
        P4View::CreateView { name, sql } => "CreateView { name: "@ + text::debug_of_text(name)
            + ", sql: "@ + text::debug_of_text(sql) + " }"@,
        P4View::DropTable { name, root_page, indexes } => "DropTable { name: "@
            + text::debug_of_text(name) + ", root_page: "@ + text::decimal(root_page as nat)
            + ", indexes: "@ + list_text(root_texts(indexes)) + " }"@,
        P4View::CreateIndex { name, table_name, table_root_page, sql, column_indices, unique } =>
            "CreateIndex { name: "@ + text::debug_of_text(name) + ", table_name: "@
            + text::debug_of_text(table_name) + ", table_root_page: "@ + text::decimal(
            table_root_page as nat,
        ) + ", sql: "@ + text::debug_of_text(sql) + ", column_indices: "@ + list_text(
            index_texts(column_indices),
        ) + ", unique: "@ + flag_text(unique) + " }"@,
        P4View::DropIndex { name, root_page } => "DropIndex { name: "@ + text::debug_of_text(name)
            + ", root_page: "@ + text::decimal(root_page as nat) + " }"@,
    }
}

fn show_flag(b: bool) -> (s: &'static str)
    ensures
        s@ == flag_text(b),
{
    if b {
        "true"
    } else {
        "false"
    }
}

fn show_collation(c: Collation) -> (s: &'static str)
    ensures
        s@ == collation_text(c),
{
    match c {
        Collation::Binary => "Binary",
        Collation::NoCase => "NoCase",
        Collation::RTrim => "RTrim",
    }
}

fn show_list(parts: &Vec<String>) -> (s: String)
    ensures
        s@ == list_text(text::texts(parts@)),
{
    let mut s = "[".to_owned();
    s.append(text::join_texts(parts, ", ").as_str());
    s.append("]");
    s
}

fn show_bytes(b: &Vec<u8>) -> (s: String)
    ensures
        s@ == list_text(byte_texts(b@)),
{
    let mut parts: Vec<String> = Vec::new();
    let mut i: usize = 0;
    while i < b.len()
        invariant
            i <= b.len(),
            parts@.len() == i,
            forall|k: int| 0 <= k < i ==> (#[trigger] parts@[k])@ == text::decimal(b@[k] as nat),
        decreases b.len() - i,
    {
        parts.push(text::unsigned_to_text(b[i] as u64));
        i = i + 1;
    }
    assert(text::texts(parts@) =~= byte_texts(b@));
    show_list(&parts)
}

fn show_indices(b: &Vec<usize>) -> (s: String)
    ensures
        s@ == list_text(index_texts(b@)),
{
    let mut parts: Vec<String> = Vec::new();
    let mut i: usize = 0;
    while i < b.len()
        invariant
            i <= b.len(),
            parts@.len() == i,
            forall|k: int| 0 <= k < i ==> (#[trigger] parts@[k])@ == text::decimal(b@[k] as nat),
        decreases b.len() - i,
    {
        parts.push(text::unsigned_to_text(b[i] as u64));
        i = i + 1;
    }
    assert(text::texts(parts@) =~= index_texts(b@));
    show_list(&parts)
}

fn show_roots(v: &Vec<(String, u32)>) -> (s: String)
    ensures
        s@ == list_text(root_texts(crate::vdbe::program::named_roots(v@))),
{
    let ghost roots = crate::vdbe::program::named_roots(v@);
    let mut parts: Vec<String> = Vec::new();
    let mut i: usize = 0;
    while i < v.len()
        invariant
            i <= v.len(),
            roots == crate::vdbe::program::named_roots(v@),
            parts@.len() == i,
            forall|k: int| 0 <= k < i ==> (#[trigger] parts@[k])@ == root_text(roots[k]),
        decreases v.len() - i,
    {
        let mut s = "(".to_owned();
        s.append(text::debug_text(v[i].0.as_str()).as_str());
        s.append(", ");
        s.append(text::unsigned_to_text(v[i].1 as u64).as_str());
        s.append(")");
        parts.push(s);
        i = i + 1;
    }
    assert(text::texts(parts@) =~= root_texts(roots));
    show_list(&parts)
}

fn show_keys(v: &Vec<SortKeyColumn>) -> (s: String)
    ensures
        s@ == list_text(key_texts(v@)),
{
    let mut parts: Vec<String> = Vec::new();
    let mut i: usize = 0;
    while i < v.len()
        invariant
            i <= v.len(),
            parts@.len() == i,
            forall|k: int| 0 <= k < i ==> (#[trigger] parts@[k])@ == key_text(v@[k]),
        decreases v.len() - i,
    {
        let mut s = "SortKeyColumn { index: ".to_owned();
        s.append(text::unsigned_to_text(v[i].index as u64).as_str());
        s.append(", descending: ");
        s.append(show_flag(v[i].descending));
        s.append(", collation: ");
        s.append(show_collation(v[i].collation));
        s.append(", nulls_first: ");
        s.append(show_flag(v[i].nulls_first));
        s.append(" }");
        parts.push(s);
        i = i + 1;
    }
    assert(text::texts(parts@) =~= key_texts(v@));
    show_list(&parts)
}

/// `inner` in round brackets behind `name`.
fn tuple(name: &str, inner: &str) -> (s: String)
    ensures
        s@ == name@ + inner@ + ")"@,
{
    let mut s = name.to_owned();
    s.append(inner);
    s.append(")");
    s
}

/// The value as diagnostics show it.
pub fn show_value(v: &Value) -> (s: String)
    ensures
        s@ == value_text(v@),
{
    match v {
        Value::Null => "Null".to_owned(),
        Value::Integer(i) => tuple("Integer(", text::signed_to_text(*i).as_str()),
        Value::Real(r) => tuple("Real(", decimal::show_double(*r).as_str()),
        Value::Text(t) => tuple("Text(", text::debug_text(t.as_str()).as_str()),
        Value::Blob(b) => tuple("Blob(", show_bytes(b).as_str()),
    }
}

/// The operand as diagnostics show it.
pub fn show_operand(p: &P4) -> (s: String)
    ensures
        s@ == operand_text(p@),
{
    match p {
        P4::Absent => "None".to_owned(),
        P4::Int(i) => tuple("Int(", text::signed_to_text(*i).as_str()),
        P4::Real(r) => tuple("Real(", decimal::show_double(*r).as_str()),
        P4::Blob(b) => tuple("Blob(", show_bytes(b).as_str()),
        P4::Str(t) => tuple("Str(", text::debug_text(t.as_str()).as_str()),
        P4::CollSeq { collation, affinity } => {
            let mut s = "CollSeq { collation: ".to_owned();
            s.append(show_collation(*collation));
            s.append(", affinity: ");
            s.append(text::unsigned_to_text(*affinity as u64).as_str());
            s.append(" }");
            s
        },
        P4::SortKey(keys) => tuple("SortKey(", show_keys(keys).as_str()),
        P4::Affinity(b) => tuple("Affinity(", show_bytes(b).as_str()),
        P4::Bool(b) => tuple("Bool(", show_flag(*b)),
        P4::CreateTable { name, sql } => {
            let mut s = "CreateTable { name: ".to_owned();
            s.append(text::debug_text(name.as_str()).as_str());
            s.append(", sql: ");
            s.append(text::debug_text(sql.as_str()).as_str());
            s.append(" }");
            s
        },
        P4::CreateView { name, sql } => {
            let mut s = "CreateView { name: ".to_owned();
            s.append(text::debug_text(name.as_str()).as_str());
            s.append(", sql: ");
            s.append(text::debug_text(sql.as_str()).as_str());
            s.append(" }");
            s
        },
        P4::DropTable { name, root_page, indexes } => {
            let mut s = "DropTable { name: ".to_owned();
            s.append(text::debug_text(name.as_str()).as_str());
            s.append(", root_page: ");
            s.append(text::unsigned_to_text(*root_page as u64).as_str());
            s.append(", indexes: ");
            s.append(show_roots(indexes).as_str());
            s.append(" }");
            s
        },
        P4::CreateIndex { name, table_name, table_root_page, sql, column_indices, unique } => {
            let mut s = "CreateIndex { name: ".to_owned();
            s.append(text::debug_text(name.as_str()).as_str());
            s.append(", table_name: ");
            s.append(text::debug_text(table_name.as_str()).as_str());
            s.append(", table_root_page: ");
            s.append(text::unsigned_to_text(*table_root_page as u64).as_str());
            s.append(", sql: ");
            s.append(text::debug_text(sql.as_str()).as_str());
            s.append(", column_indices: ");
            s.append(show_indices(column_indices).as_str());
            s.append(", unique: ");
            s.append(show_flag(*unique));
            s.append(" }");
            s
        },
        P4::DropIndex { name, root_page } => {
            let mut s = "DropIndex { name: ".to_owned();
            s.append(text::debug_text(name.as_str()).as_str());
            s.append(", root_page: ");
            s.append(text::unsigned_to_text(*root_page as u64).as_str());
            s.append(" }");
            s
        },
    }
}

} // verus!
