//! `EXPLAIN` output rendering: one row per instruction, with `addr`, `opcode`, `p1`, `p2`,
//! `p3`, `p4` (rendered in its display form, not its raw bytes), `p5`, and `comment`.
use crate::record::collation::Collation;
use crate::text;
use crate::vdbe::program::{
    opcode_name, InstructionView, Opcode, P4View, Program, SortKeyColumn, P4,
};
use vstd::prelude::*;

verus! {

/// One rendered `EXPLAIN` row.
#[derive(Debug, Clone, PartialEq)]
pub struct ExplainRow {
    pub addr: usize,
    pub opcode: &'static str,
    pub p1: i32,
    pub p2: i32,
    pub p3: i32,
    pub p4: String,
    pub p5: u16,
    pub comment: String,
}

/// What an [`ExplainRow`] stands for.
#[verifier::ext_equal]
pub struct ExplainRowView {
    pub addr: usize,
    pub opcode: Seq<char>,
    pub p1: i32,
    pub p2: i32,
    pub p3: i32,
    pub p4: Seq<char>,
    pub p5: u16,
    pub comment: Seq<char>,
}

impl ExplainRow {
    pub open spec fn view(&self) -> ExplainRowView {
        ExplainRowView {
            addr: self.addr,
            opcode: self.opcode@,
            p1: self.p1,
            p2: self.p2,
            p3: self.p3,
            p4: self.p4@,
            p5: self.p5,
            comment: self.comment@,
        }
    }
}

pub open spec fn collation_text(collation: Collation) -> Seq<char> {
    match collation {
        Collation::Binary => "BINARY"@,
        Collation::NoCase => "NOCASE"@,
        Collation::RTrim => "RTRIM"@,
    }
}

/// A key column: `-` where it is descending, and the collation's first letter.
pub open spec fn key_column_text(key: SortKeyColumn) -> Seq<char> {
    (if key.descending {
        "-"@
    } else {
        ""@
    }) + (match key.collation {
        Collation::Binary => "B"@,
        Collation::NoCase => "N"@,
        Collation::RTrim => "R"@,
    })
}

/// A sort-key descriptor as `k(N,dir,dir,...)`.
pub open spec fn sort_key_text(keys: Seq<SortKeyColumn>) -> Seq<char> {
    "k("@ + text::decimal(keys.len()) + ","@ + text::join(
        keys.map_values(|k: SortKeyColumn| key_column_text(k)),
        ","@,
    ) + ")"@
}

/// An operand in its display form; empty where it has none.
pub open spec fn operand_display(p4: P4View) -> Seq<char> {
    match p4 {
        P4View::Int(i) => text::signed_decimal(i as int),
        P4View::Str(s) => s,
        P4View::CollSeq { collation, affinity } => collation_text(collation) + "-"@
            + text::decimal(affinity as nat),
        P4View::SortKey(keys) => sort_key_text(keys),
        _ => ""@,
    }
}

/// A short annotation of an instruction's effect; empty where it has none.
pub open spec fn comment_text(opcode: Opcode, p1: i32, p2: i32, p3: i32) -> Seq<char> {
    match opcode {
        Opcode::Init => "start at "@ + text::signed_decimal(p2 as int),
        Opcode::Goto => "goto "@ + text::signed_decimal(p2 as int),
        Opcode::OpenRead => "cursor "@ + text::signed_decimal(p1 as int) + " on root page "@
            + text::signed_decimal(p2 as int),
        Opcode::OpenEphemeral => "cursor "@ + text::signed_decimal(p1 as int) + " ephemeral"@,
        Opcode::OpenPseudo => "cursor "@ + text::signed_decimal(p1 as int) + " pseudo, reads r["@
            + text::signed_decimal(p2 as int) + "]"@,
        Opcode::Rewind => "cursor "@ + text::signed_decimal(p1 as int) + " rewind, jump "@
            + text::signed_decimal(p2 as int) + " if empty"@,
        Opcode::Last => "cursor "@ + text::signed_decimal(p1 as int) + " to last row, jump "@
            + text::signed_decimal(p2 as int) + " if empty"@,
        Opcode::Next => "cursor "@ + text::signed_decimal(p1 as int) + " next, jump "@
            + text::signed_decimal(p2 as int) + " if row found"@,
        Opcode::Column => "r["@ + text::signed_decimal(p3 as int) + "] = cursor "@
            + text::signed_decimal(p1 as int) + " column "@ + text::signed_decimal(p2 as int),
        Opcode::Rowid => "r["@ + text::signed_decimal(p2 as int) + "] = cursor "@
            + text::signed_decimal(p1 as int) + " rowid"@,
        Opcode::ResultRow => "output r["@ + text::signed_decimal(p1 as int) + ".."@
            + text::signed_decimal(p1 as int) + "+"@ + text::signed_decimal(p2 as int) + "]"@,
        Opcode::Eq => "if r["@ + text::signed_decimal(p1 as int) + "]=r["@
            + text::signed_decimal(p3 as int) + "] goto "@ + text::signed_decimal(p2 as int),
        Opcode::Ge => "if r["@ + text::signed_decimal(p1 as int) + "]>=r["@
            + text::signed_decimal(p3 as int) + "] goto "@ + text::signed_decimal(p2 as int),
        Opcode::Gt => "if r["@ + text::signed_decimal(p1 as int) + "]>r["@
            + text::signed_decimal(p3 as int) + "] goto "@ + text::signed_decimal(p2 as int),
        Opcode::Le => "if r["@ + text::signed_decimal(p1 as int) + "]<=r["@
            + text::signed_decimal(p3 as int) + "] goto "@ + text::signed_decimal(p2 as int),
        Opcode::Lt => "if r["@ + text::signed_decimal(p1 as int) + "]<r["@
            + text::signed_decimal(p3 as int) + "] goto "@ + text::signed_decimal(p2 as int),
        Opcode::Add => "r["@ + text::signed_decimal(p3 as int) + "] = r["@
            + text::signed_decimal(p1 as int) + "] + r["@ + text::signed_decimal(p2 as int) + "]"@,
        Opcode::Subtract => "r["@ + text::signed_decimal(p3 as int) + "] = r["@
            + text::signed_decimal(p2 as int) + "] - r["@ + text::signed_decimal(p1 as int) + "]"@,
        Opcode::Multiply => "r["@ + text::signed_decimal(p3 as int) + "] = r["@
            + text::signed_decimal(p1 as int) + "] * r["@ + text::signed_decimal(p2 as int) + "]"@,
        Opcode::Divide => "r["@ + text::signed_decimal(p3 as int) + "] = r["@
            + text::signed_decimal(p2 as int) + "] / r["@ + text::signed_decimal(p1 as int) + "]"@,
        Opcode::Remainder => "r["@ + text::signed_decimal(p3 as int) + "] = r["@
            + text::signed_decimal(p2 as int) + "] % r["@ + text::signed_decimal(p1 as int) + "]"@,
        Opcode::Function => "r["@ + text::signed_decimal(p3 as int) + "] = func(r["@
            + text::signed_decimal(p2 as int) + "..])"@,
        Opcode::Integer => "r["@ + text::signed_decimal(p2 as int) + "] = "@
            + text::signed_decimal(p1 as int),
        Opcode::String8 => "r["@ + text::signed_decimal(p2 as int) + "] = <string>"@,
        Opcode::Halt => "halt"@,
        Opcode::SorterOpen => "cursor "@ + text::signed_decimal(p1 as int) + " sorter open"@,
        Opcode::SorterInsert => "cursor "@ + text::signed_decimal(p1 as int) + " sorter insert r["@
            + text::signed_decimal(p2 as int) + "]"@,
        Opcode::SorterSort | Opcode::Sort => "cursor "@ + text::signed_decimal(p1 as int)
            + " sort, jump "@ + text::signed_decimal(p2 as int) + " if empty"@,
        Opcode::SorterNext => "cursor "@ + text::signed_decimal(p1 as int) + " sorter next, jump "@
            + text::signed_decimal(p2 as int) + " if row found"@,
        Opcode::SorterData => "r["@ + text::signed_decimal(p2 as int) + "] = cursor "@
            + text::signed_decimal(p1 as int) + " sorted row"@,
        Opcode::Found => "cursor "@ + text::signed_decimal(p1 as int) + " found key at r["@
            + text::signed_decimal(p3 as int) + "..], jump "@ + text::signed_decimal(p2 as int),
        Opcode::IdxInsert => "cursor "@ + text::signed_decimal(p1 as int) + " insert key r["@
            + text::signed_decimal(p2 as int) + "..]"@,
        _ => ""@,
    }
}

/// The row of the instruction at `addr`.
pub open spec fn row_of(addr: int, i: InstructionView) -> ExplainRowView {
    ExplainRowView {
        addr: addr as usize,
        opcode: i.opcode.name(),
        p1: i.p1,
        p2: i.p2,
        p3: i.p3,
        p4: operand_display(i.p4),
        p5: i.p5,
        comment: comment_text(i.opcode, i.p1, i.p2, i.p3),
    }
}

fn collation_name(collation: Collation) -> (s: &'static str)
    ensures
        s@ == collation_text(collation),
{
    match collation {
        Collation::Binary => "BINARY",
        Collation::NoCase => "NOCASE",
        Collation::RTrim => "RTRIM",
    }
}

/// Renders a sort-key descriptor as `k(N,dir,dir,...)`: `N` key columns, each a direction
/// sign (`-` for descending, none for ascending) followed by the collation's first letter.
fn render_sort_key(cols: &Vec<SortKeyColumn>) -> (s: String)
    ensures
        s@ == sort_key_text(cols@),
{
    let mut parts: Vec<String> = Vec::new();
    let mut i: usize = 0;
    while i < cols.len()
        invariant
            i <= cols.len(),
            parts@.len() == i,
            forall|k: int| 0 <= k < i ==> (#[trigger] parts@[k])@ == key_column_text(cols@[k]),
        decreases cols.len() - i,
    {
        let mut part = (if cols[i].descending {
            "-"
        } else {
            ""
        }).to_owned();
        part.append(
            match cols[i].collation {
                Collation::Binary => "B",
                Collation::NoCase => "N",
                Collation::RTrim => "R",
            },
        );
        parts.push(part);
        i = i + 1;
    }
    assert(text::texts(parts@) =~= cols@.map_values(|k: SortKeyColumn| key_column_text(k)));
    let mut s = "k(".to_owned();
    s.append(text::unsigned_to_text(cols.len() as u64).as_str());
    s.append(",");
    s.append(text::join_texts(&parts, ",").as_str());
    s.append(")");
    s
}

fn render_p4(p4: &P4) -> (s: String)
    ensures
        s@ == operand_display(p4@),
{
    match p4 {
        P4::Int(i) => text::signed_to_text(*i),
        P4::Str(s) => s.clone(),
        P4::CollSeq { collation, affinity } => {
            let mut s = collation_name(*collation).to_owned();
            s.append("-");
            s.append(text::unsigned_to_text(*affinity as u64).as_str());
            s
        },
        P4::SortKey(cols) => render_sort_key(cols),
        _ => "".to_owned(),
    }
}

/// A short, human-readable annotation of the instruction's effect.
fn comment_for(opcode: Opcode, p1: i32, p2: i32, p3: i32) -> (s: String)
    ensures
        s@ == comment_text(opcode, p1, p2, p3),
{
    match opcode {
        Opcode::Init => {
            let mut s = "start at ".to_owned();
            s.append(text::signed_to_text(p2 as i64).as_str());
            s
        },
        Opcode::Goto => {
            let mut s = "goto ".to_owned();
            s.append(text::signed_to_text(p2 as i64).as_str());
            s
        },
        Opcode::OpenRead => {
            let mut s = "cursor ".to_owned();
            s.append(text::signed_to_text(p1 as i64).as_str());
            s.append(" on root page ");
            s.append(text::signed_to_text(p2 as i64).as_str());
            s
        },
        Opcode::OpenEphemeral => {
            let mut s = "cursor ".to_owned();
            s.append(text::signed_to_text(p1 as i64).as_str());
            s.append(" ephemeral");
            s
        },
        Opcode::OpenPseudo => {
            let mut s = "cursor ".to_owned();
            s.append(text::signed_to_text(p1 as i64).as_str());
            s.append(" pseudo, reads r[");
            s.append(text::signed_to_text(p2 as i64).as_str());
            s.append("]");
            s
        },
        Opcode::Rewind => {
            let mut s = "cursor ".to_owned();
            s.append(text::signed_to_text(p1 as i64).as_str());
            s.append(" rewind, jump ");
            s.append(text::signed_to_text(p2 as i64).as_str());
            s.append(" if empty");
            s
        },
        Opcode::Last => {
            let mut s = "cursor ".to_owned();
            s.append(text::signed_to_text(p1 as i64).as_str());
            s.append(" to last row, jump ");
            s.append(text::signed_to_text(p2 as i64).as_str());
            s.append(" if empty");
            s
        },
        Opcode::Next => {
            let mut s = "cursor ".to_owned();
            s.append(text::signed_to_text(p1 as i64).as_str());
            s.append(" next, jump ");
            s.append(text::signed_to_text(p2 as i64).as_str());
            s.append(" if row found");
            s
        },
        Opcode::Column => {
            let mut s = "r[".to_owned();
            s.append(text::signed_to_text(p3 as i64).as_str());
            s.append("] = cursor ");
            s.append(text::signed_to_text(p1 as i64).as_str());
            s.append(" column ");
            s.append(text::signed_to_text(p2 as i64).as_str());
            s
        },
        Opcode::Rowid => {
            let mut s = "r[".to_owned();
            s.append(text::signed_to_text(p2 as i64).as_str());
            s.append("] = cursor ");
            s.append(text::signed_to_text(p1 as i64).as_str());
            s.append(" rowid");
            s
        },
        Opcode::ResultRow => {
            let mut s = "output r[".to_owned();
            s.append(text::signed_to_text(p1 as i64).as_str());
            s.append("..");
            s.append(text::signed_to_text(p1 as i64).as_str());
            s.append("+");
            s.append(text::signed_to_text(p2 as i64).as_str());
            s.append("]");
            s
        },
        Opcode::Eq => {
            let mut s = "if r[".to_owned();
            s.append(text::signed_to_text(p1 as i64).as_str());
            s.append("]=r[");
            s.append(text::signed_to_text(p3 as i64).as_str());
            s.append("] goto ");
            s.append(text::signed_to_text(p2 as i64).as_str());
            s
        },
        Opcode::Ge => {
            let mut s = "if r[".to_owned();
            s.append(text::signed_to_text(p1 as i64).as_str());
            s.append("]>=r[");
            s.append(text::signed_to_text(p3 as i64).as_str());
            s.append("] goto ");
            s.append(text::signed_to_text(p2 as i64).as_str());
            s
        },
        Opcode::Gt => {
            let mut s = "if r[".to_owned();
            s.append(text::signed_to_text(p1 as i64).as_str());
            s.append("]>r[");
            s.append(text::signed_to_text(p3 as i64).as_str());
            s.append("] goto ");
            s.append(text::signed_to_text(p2 as i64).as_str());
            s
        },
        Opcode::Le => {
            let mut s = "if r[".to_owned();
            s.append(text::signed_to_text(p1 as i64).as_str());
            s.append("]<=r[");
            s.append(text::signed_to_text(p3 as i64).as_str());
            s.append("] goto ");
            s.append(text::signed_to_text(p2 as i64).as_str());
            s
        },
        Opcode::Lt => {
            let mut s = "if r[".to_owned();
            s.append(text::signed_to_text(p1 as i64).as_str());
            s.append("]<r[");
            s.append(text::signed_to_text(p3 as i64).as_str());
            s.append("] goto ");
            s.append(text::signed_to_text(p2 as i64).as_str());
            s
        },
        Opcode::Add => {
            let mut s = "r[".to_owned();
            s.append(text::signed_to_text(p3 as i64).as_str());
            s.append("] = r[");
            s.append(text::signed_to_text(p1 as i64).as_str());
            s.append("] + r[");
            s.append(text::signed_to_text(p2 as i64).as_str());
            s.append("]");
            s
        },
        Opcode::Subtract => {
            let mut s = "r[".to_owned();
            s.append(text::signed_to_text(p3 as i64).as_str());
            s.append("] = r[");
            s.append(text::signed_to_text(p2 as i64).as_str());
            s.append("] - r[");
            s.append(text::signed_to_text(p1 as i64).as_str());
            s.append("]");
            s
        },
        Opcode::Multiply => {
            let mut s = "r[".to_owned();
            s.append(text::signed_to_text(p3 as i64).as_str());
            s.append("] = r[");
            s.append(text::signed_to_text(p1 as i64).as_str());
            s.append("] * r[");
            s.append(text::signed_to_text(p2 as i64).as_str());
            s.append("]");
            s
        },
        Opcode::Divide => {
            let mut s = "r[".to_owned();
            s.append(text::signed_to_text(p3 as i64).as_str());
            s.append("] = r[");
            s.append(text::signed_to_text(p2 as i64).as_str());
            s.append("] / r[");
            s.append(text::signed_to_text(p1 as i64).as_str());
            s.append("]");
            s
        },
        Opcode::Remainder => {
            let mut s = "r[".to_owned();
            s.append(text::signed_to_text(p3 as i64).as_str());
            s.append("] = r[");
            s.append(text::signed_to_text(p2 as i64).as_str());
            s.append("] % r[");
            s.append(text::signed_to_text(p1 as i64).as_str());
            s.append("]");
            s
        },
        Opcode::Function => {
            let mut s = "r[".to_owned();
            s.append(text::signed_to_text(p3 as i64).as_str());
            s.append("] = func(r[");
            s.append(text::signed_to_text(p2 as i64).as_str());
            s.append("..])");
            s
        },
        Opcode::Integer => {
            let mut s = "r[".to_owned();
            s.append(text::signed_to_text(p2 as i64).as_str());
            s.append("] = ");
            s.append(text::signed_to_text(p1 as i64).as_str());
            s
        },
        Opcode::String8 => {
            let mut s = "r[".to_owned();
            s.append(text::signed_to_text(p2 as i64).as_str());
            s.append("] = <string>");
            s
        },
        Opcode::Halt => "halt".to_owned(),
        Opcode::SorterOpen => {
            let mut s = "cursor ".to_owned();
            s.append(text::signed_to_text(p1 as i64).as_str());
            s.append(" sorter open");
            s
        },
        Opcode::SorterInsert => {
            let mut s = "cursor ".to_owned();
            s.append(text::signed_to_text(p1 as i64).as_str());
            s.append(" sorter insert r[");
            s.append(text::signed_to_text(p2 as i64).as_str());
            s.append("]");
            s
        },
        Opcode::SorterSort | Opcode::Sort => {
            let mut s = "cursor ".to_owned();
            s.append(text::signed_to_text(p1 as i64).as_str());
            s.append(" sort, jump ");
            s.append(text::signed_to_text(p2 as i64).as_str());
            s.append(" if empty");
            s
        },
        Opcode::SorterNext => {
            let mut s = "cursor ".to_owned();
            s.append(text::signed_to_text(p1 as i64).as_str());
            s.append(" sorter next, jump ");
            s.append(text::signed_to_text(p2 as i64).as_str());
            s.append(" if row found");
            s
        },
        Opcode::SorterData => {
            let mut s = "r[".to_owned();
            s.append(text::signed_to_text(p2 as i64).as_str());
            s.append("] = cursor ");
            s.append(text::signed_to_text(p1 as i64).as_str());
            s.append(" sorted row");
            s
        },
        Opcode::Found => {
            let mut s = "cursor ".to_owned();
            s.append(text::signed_to_text(p1 as i64).as_str());
            s.append(" found key at r[");
            s.append(text::signed_to_text(p3 as i64).as_str());
            s.append("..], jump ");
            s.append(text::signed_to_text(p2 as i64).as_str());
            s
        },
        Opcode::IdxInsert => {
            let mut s = "cursor ".to_owned();
            s.append(text::signed_to_text(p1 as i64).as_str());
            s.append(" insert key r[");
            s.append(text::signed_to_text(p2 as i64).as_str());
            s.append("..]");
            s
        },
        _ => "".to_owned(),
    }
}

/// Renders every instruction in `program` as one [`ExplainRow`], in program order.
pub fn explain(program: &Program) -> (rows: Vec<ExplainRow>)
    ensures
        rows@.len() == program@.len(),
        forall|k: int|
            0 <= k < rows@.len() ==> (#[trigger] rows@[k])@ == row_of(k, program@[k]),
{
    let mut rows: Vec<ExplainRow> = Vec::new();
    let mut addr: usize = 0;
    while addr < program.instructions.len()
        invariant
            addr <= program.instructions.len(),
            rows@.len() == addr,
            forall|k: int| 0 <= k < addr ==> (#[trigger] rows@[k])@ == row_of(k, program@[k]),
        decreases program.instructions.len() - addr,
    {
        let instr = &program.instructions[addr];
        assert(program@[addr as int] == instr@);
        let row = ExplainRow {
            addr,
            opcode: opcode_name(instr.opcode),
            p1: instr.p1,
            p2: instr.p2,
            p3: instr.p3,
            p4: render_p4(&instr.p4),
            p5: instr.p5,
            comment: comment_for(instr.opcode, instr.p1, instr.p2, instr.p3),
        };
        rows.push(row);
        addr = addr + 1;
    }
    rows
}

/// A row shows the address and the operands of its instruction as they are, and its opcode by
/// name.
pub proof fn law_row_shows_its_instruction(addr: usize, i: InstructionView)
    ensures
        ({
            let row = row_of(addr as int, i);
            &&& row.addr == addr
            &&& row.opcode == i.opcode.name()
            &&& row.p1 == i.p1
            &&& row.p2 == i.p2
            &&& row.p3 == i.p3
            &&& row.p5 == i.p5
            &&& i.p4 is Str ==> row.p4 == i.p4->Str_0
            &&& i.p4 is Int && i.p4->Int_0 >= 0 ==> row.p4 == text::decimal(i.p4->Int_0 as nat)
        }),
{
}

/// A sort key shows with a minus sign exactly where it is descending, and with the first letter
/// of its collation.
pub proof fn law_key_shows_its_direction(key: SortKeyColumn)
    ensures
        ({
            let shown = key_column_text(key);
            &&& shown.len() > 0
            &&& shown[0] == '-' <==> key.descending
            &&& shown.len() == 2 <==> key.descending
            &&& shown.last() == 'B' <==> key.collation is Binary
            &&& shown.last() == 'N' <==> key.collation is NoCase
            &&& shown.last() == 'R' <==> key.collation is RTrim
        }),
{
    reveal_strlit("-");
    reveal_strlit("");
    reveal_strlit("B");
    reveal_strlit("N");
    reveal_strlit("R");
}

} // verus!
