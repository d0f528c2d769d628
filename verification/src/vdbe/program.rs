//! Instruction format and the linear bytecode [`Program`].
use crate::record::collation::Collation;
use vstd::prelude::*;

verus! {

/// The operations of the machine, grouped by category.
#[derive(Debug, Clone, Copy, PartialEq, Eq, Hash, Structural)]
pub enum Opcode {
    // Control flow.
    Init,
    Goto,
    Once,
    BeginSubrtn,
    Return,
    Halt,
    Transaction,
    IfNot,
    IfNotZero,
    IfPos,
    DecrJumpZero,
    IsNull,
    NotNull,
    MustBeInt,
    OffsetLimit,
    // Cursors.
    OpenRead,
    OpenWrite,
    OpenEphemeral,
    OpenPseudo,
    Rewind,
    Last,
    Next,
    Column,
    Rowid,
    SeekRowid,
    NullRow,
    Sequence,
    Found,
    IdxInsert,
    IdxLE,
    Delete,
    Insert,
    NewRowid,
    IdxDelete,
    NoConflict,
    SeekIndexEq,
    IdxRowid,
    IdxRewind,
    IdxLast,
    IdxNext,
    IdxPrev,
    // Schema changes.
    CreateTable,
    CreateView,
    DropTable,
    CreateIndex,
    DropIndex,
    // Comparison.
    Eq,
    Ge,
    Gt,
    Le,
    Lt,
    RealAffinity,
    // Arithmetic.
    Add,
    Subtract,
    Multiply,
    Divide,
    Remainder,
    Not,
    BitAnd,
    BitOr,
    ShiftLeft,
    ShiftRight,
    BitNot,
    Concat,
    Cast,
    // Functions.
    Function,
    // Aggregates.
    AggStep,
    AggFinal,
    // Results.
    Integer,
    Int64,
    Real,
    Blob,
    Null,
    String8,
    Variable,
    MakeRecord,
    ResultRow,
    Copy,
    // Sorting.
    SorterOpen,
    SorterInsert,
    SorterSort,
    SorterNext,
    SorterData,
    Sort,
}

impl Opcode {
    /// The operations of the read-only machine, in the order of their declaration.
    pub const ALL: [Opcode; 65] = [
        Opcode::Init,
        Opcode::Goto,
        Opcode::Once,
        Opcode::BeginSubrtn,
        Opcode::Return,
        Opcode::Halt,
        Opcode::Transaction,
        Opcode::IfNot,
        Opcode::IfNotZero,
        Opcode::IfPos,
        Opcode::DecrJumpZero,
        Opcode::IsNull,
        Opcode::NotNull,
        Opcode::MustBeInt,
        Opcode::OffsetLimit,
        Opcode::OpenRead,
        Opcode::OpenEphemeral,
        Opcode::OpenPseudo,
        Opcode::Rewind,
        Opcode::Last,
        Opcode::Next,
        Opcode::Column,
        Opcode::Rowid,
        Opcode::SeekRowid,
        Opcode::NullRow,
        Opcode::Sequence,
        Opcode::Found,
        Opcode::IdxInsert,
        Opcode::IdxLE,
        Opcode::Delete,
        Opcode::Eq,
        Opcode::Ge,
        Opcode::Gt,
        Opcode::Le,
        Opcode::Lt,
        Opcode::RealAffinity,
        Opcode::Add,
        Opcode::Subtract,
        Opcode::Multiply,
        Opcode::Divide,
        Opcode::Remainder,
        Opcode::Not,
        Opcode::BitAnd,
        Opcode::BitOr,
        Opcode::ShiftLeft,
        Opcode::ShiftRight,
        Opcode::BitNot,
        Opcode::Concat,
        Opcode::Cast,
        Opcode::Function,
        Opcode::Integer,
        Opcode::Int64,
        Opcode::Real,
        Opcode::Blob,
        Opcode::Null,
        Opcode::String8,
        Opcode::Variable,
        Opcode::MakeRecord,
        Opcode::ResultRow,
        Opcode::SorterOpen,
        Opcode::SorterInsert,
        Opcode::SorterSort,
        Opcode::SorterNext,
        Opcode::SorterData,
        Opcode::Sort,
    ];

    /// The operation's name.
    pub open spec fn name(self) -> Seq<char> {
        match self {
            Opcode::Init => "Init"@,
            Opcode::Goto => "Goto"@,
            Opcode::Once => "Once"@,
            Opcode::BeginSubrtn => "BeginSubrtn"@,
            Opcode::Return => "Return"@,
            Opcode::Halt => "Halt"@,
            Opcode::Transaction => "Transaction"@,
            Opcode::IfNot => "IfNot"@,
            Opcode::IfNotZero => "IfNotZero"@,
            Opcode::IfPos => "IfPos"@,
            Opcode::DecrJumpZero => "DecrJumpZero"@,
            Opcode::IsNull => "IsNull"@,
            Opcode::NotNull => "NotNull"@,
            Opcode::MustBeInt => "MustBeInt"@,
            Opcode::OffsetLimit => "OffsetLimit"@,
            Opcode::OpenRead => "OpenRead"@,
            Opcode::OpenWrite => "OpenWrite"@,
            Opcode::OpenEphemeral => "OpenEphemeral"@,
            Opcode::OpenPseudo => "OpenPseudo"@,
            Opcode::Rewind => "Rewind"@,
            Opcode::Last => "Last"@,
            Opcode::Next => "Next"@,
            Opcode::Column => "Column"@,
            Opcode::Rowid => "Rowid"@,
            Opcode::SeekRowid => "SeekRowid"@,
            Opcode::NullRow => "NullRow"@,
            Opcode::Sequence => "Sequence"@,
            Opcode::Found => "Found"@,
            Opcode::IdxInsert => "IdxInsert"@,
            Opcode::IdxLE => "IdxLE"@,
            Opcode::Delete => "Delete"@,
            Opcode::Insert => "Insert"@,
            Opcode::NewRowid => "NewRowid"@,
            Opcode::IdxDelete => "IdxDelete"@,
            Opcode::NoConflict => "NoConflict"@,
            Opcode::SeekIndexEq => "SeekIndexEq"@,
            Opcode::IdxRowid => "IdxRowid"@,
            Opcode::IdxRewind => "IdxRewind"@,
            Opcode::IdxLast => "IdxLast"@,
            Opcode::IdxNext => "IdxNext"@,
            Opcode::IdxPrev => "IdxPrev"@,
            Opcode::CreateTable => "CreateTable"@,
            Opcode::CreateView => "CreateView"@,
            Opcode::DropTable => "DropTable"@,
            Opcode::CreateIndex => "CreateIndex"@,
            Opcode::DropIndex => "DropIndex"@,
            Opcode::Eq => "Eq"@,
            Opcode::Ge => "Ge"@,
            Opcode::Gt => "Gt"@,
            Opcode::Le => "Le"@,
            Opcode::Lt => "Lt"@,
            Opcode::RealAffinity => "RealAffinity"@,
            Opcode::Add => "Add"@,
            Opcode::Subtract => "Subtract"@,
            Opcode::Multiply => "Multiply"@,
            Opcode::Divide => "Divide"@,
            Opcode::Remainder => "Remainder"@,
            Opcode::Not => "Not"@,
            Opcode::BitAnd => "BitAnd"@,
            Opcode::BitOr => "BitOr"@,
            Opcode::ShiftLeft => "ShiftLeft"@,
            Opcode::ShiftRight => "ShiftRight"@,
            Opcode::BitNot => "BitNot"@,
            Opcode::Concat => "Concat"@,
            Opcode::Cast => "Cast"@,
            Opcode::Function => "Function"@,
            Opcode::AggStep => "AggStep"@,
            Opcode::AggFinal => "AggFinal"@,
            Opcode::Integer => "Integer"@,
            Opcode::Int64 => "Int64"@,
            Opcode::Real => "Real"@,
            Opcode::Blob => "Blob"@,
            Opcode::Null => "Null"@,
            Opcode::String8 => "String8"@,
            Opcode::Variable => "Variable"@,
            Opcode::MakeRecord => "MakeRecord"@,
            Opcode::ResultRow => "ResultRow"@,
            Opcode::Copy => "Copy"@,
            Opcode::SorterOpen => "SorterOpen"@,
            Opcode::SorterInsert => "SorterInsert"@,
            Opcode::SorterSort => "SorterSort"@,
            Opcode::SorterNext => "SorterNext"@,
            Opcode::SorterData => "SorterData"@,
            Opcode::Sort => "Sort"@,
        }
    }
}

/// The operation's name.
pub fn opcode_name(opcode: Opcode) -> (s: &'static str)
    ensures
        s@ == opcode.name(),
{
    match opcode {
        Opcode::Init => "Init",
        Opcode::Goto => "Goto",
        Opcode::Once => "Once",
        Opcode::BeginSubrtn => "BeginSubrtn",
        Opcode::Return => "Return",
        Opcode::Halt => "Halt",
        Opcode::Transaction => "Transaction",
        Opcode::IfNot => "IfNot",
        Opcode::IfNotZero => "IfNotZero",
        Opcode::IfPos => "IfPos",
        Opcode::DecrJumpZero => "DecrJumpZero",
        Opcode::IsNull => "IsNull",
        Opcode::NotNull => "NotNull",
        Opcode::MustBeInt => "MustBeInt",
        Opcode::OffsetLimit => "OffsetLimit",
        Opcode::OpenRead => "OpenRead",
        Opcode::OpenWrite => "OpenWrite",
        Opcode::OpenEphemeral => "OpenEphemeral",
        Opcode::OpenPseudo => "OpenPseudo",
        Opcode::Rewind => "Rewind",
        Opcode::Last => "Last",
        Opcode::Next => "Next",
        Opcode::Column => "Column",
        Opcode::Rowid => "Rowid",
        Opcode::SeekRowid => "SeekRowid",
        Opcode::NullRow => "NullRow",
        Opcode::Sequence => "Sequence",
        Opcode::Found => "Found",
        Opcode::IdxInsert => "IdxInsert",
        Opcode::IdxLE => "IdxLE",
        Opcode::Delete => "Delete",
        Opcode::Insert => "Insert",
        Opcode::NewRowid => "NewRowid",
        Opcode::IdxDelete => "IdxDelete",
        Opcode::NoConflict => "NoConflict",
        Opcode::SeekIndexEq => "SeekIndexEq",
        Opcode::IdxRowid => "IdxRowid",
        Opcode::IdxRewind => "IdxRewind",
        Opcode::IdxLast => "IdxLast",
        Opcode::IdxNext => "IdxNext",
        Opcode::IdxPrev => "IdxPrev",
        Opcode::CreateTable => "CreateTable",
        Opcode::CreateView => "CreateView",
        Opcode::DropTable => "DropTable",
        Opcode::CreateIndex => "CreateIndex",
        Opcode::DropIndex => "DropIndex",
        Opcode::Eq => "Eq",
        Opcode::Ge => "Ge",
        Opcode::Gt => "Gt",
        Opcode::Le => "Le",
        Opcode::Lt => "Lt",
        Opcode::RealAffinity => "RealAffinity",
        Opcode::Add => "Add",
        Opcode::Subtract => "Subtract",
        Opcode::Multiply => "Multiply",
        Opcode::Divide => "Divide",
        Opcode::Remainder => "Remainder",
        Opcode::Not => "Not",
        Opcode::BitAnd => "BitAnd",
        Opcode::BitOr => "BitOr",
        Opcode::ShiftLeft => "ShiftLeft",
        Opcode::ShiftRight => "ShiftRight",
        Opcode::BitNot => "BitNot",
        Opcode::Concat => "Concat",
        Opcode::Cast => "Cast",
        Opcode::Function => "Function",
        Opcode::AggStep => "AggStep",
        Opcode::AggFinal => "AggFinal",
        Opcode::Integer => "Integer",
        Opcode::Int64 => "Int64",
        Opcode::Real => "Real",
        Opcode::Blob => "Blob",
        Opcode::Null => "Null",
        Opcode::String8 => "String8",
        Opcode::Variable => "Variable",
        Opcode::MakeRecord => "MakeRecord",
        Opcode::ResultRow => "ResultRow",
        Opcode::Copy => "Copy",
        Opcode::SorterOpen => "SorterOpen",
        Opcode::SorterInsert => "SorterInsert",
        Opcode::SorterSort => "SorterSort",
        Opcode::SorterNext => "SorterNext",
        Opcode::SorterData => "SorterData",
        Opcode::Sort => "Sort",
    }
}

/// One column of a [`SorterOpen`](Opcode::SorterOpen) sort-key descriptor: sort direction
/// plus the collation to compare under.
#[derive(Debug, Clone, Copy, PartialEq, Eq, Structural)]
pub struct SortKeyColumn {
    /// Index into the sorter's record payload this key column reads: a sort key need not
    /// be the record's leading columns.
    pub index: usize,
    pub descending: bool,
    pub collation: Collation,
    /// Whether NULL sorts before non-NULL values for this key.
    pub nulls_first: bool,
}

/// P4's dynamic type: absent, a constant, or a descriptor that one family of operations
/// reads.
#[derive(Debug, Clone, PartialEq)]
pub enum P4 {
    Absent,
    Int(i64),
    /// A floating-point constant, as its bit pattern.
    Real(u64),
    Blob(Vec<u8>),
    Str(String),
    CollSeq { collation: Collation, affinity: u8 },
    SortKey(Vec<SortKeyColumn>),
    /// `MakeRecord`'s per-column affinity string, one byte per source register.
    Affinity(Vec<u8>),
    Bool(bool),
    /// The new table's name and its verbatim schema text.
    CreateTable { name: String, sql: String },
    /// The new view's name and its verbatim schema text.
    CreateView { name: String, sql: String },
    /// The target table's name and root page, plus every index on it to drop along with it.
    DropTable { name: String, root_page: u32, indexes: Vec<(String, u32)> },
    /// The new index's name, its table's name and root page, verbatim schema text, the
    /// indexed columns' positions, and the `UNIQUE` flag.
    CreateIndex {
        name: String,
        table_name: String,
        table_root_page: u32,
        sql: String,
        column_indices: Vec<usize>,
        unique: bool,
    },
    /// The target index's name and root page.
    DropIndex { name: String, root_page: u32 },
}

/// What a [`P4`] stands for.
#[verifier::ext_equal]
pub enum P4View {
    Absent,
    Int(i64),
    Real(u64),
    Blob(Seq<u8>),
    Str(Seq<char>),
    CollSeq { collation: Collation, affinity: u8 },
    SortKey(Seq<SortKeyColumn>),
    Affinity(Seq<u8>),
    Bool(bool),
    CreateTable { name: Seq<char>, sql: Seq<char> },
    CreateView { name: Seq<char>, sql: Seq<char> },
    DropTable { name: Seq<char>, root_page: u32, indexes: Seq<(Seq<char>, u32)> },
    CreateIndex {
        name: Seq<char>,
        table_name: Seq<char>,
        table_root_page: u32,
        sql: Seq<char>,
        column_indices: Seq<usize>,
        unique: bool,
    },
    DropIndex { name: Seq<char>, root_page: u32 },
}

/// Names with their root pages.
pub open spec fn named_roots(v: Seq<(String, u32)>) -> Seq<(Seq<char>, u32)> {
    v.map_values(|p: (String, u32)| (p.0@, p.1))
}

impl P4 {
    pub open spec fn view(&self) -> P4View {
        match self {
            P4::Absent => P4View::Absent,
            P4::Int(i) => P4View::Int(*i),
            P4::Real(r) => P4View::Real(*r),
            P4::Blob(b) => P4View::Blob(b@),
            P4::Str(s) => P4View::Str(s@),
            P4::CollSeq { collation, affinity } => P4View::CollSeq {
                collation: *collation,
                affinity: *affinity,
            },
            P4::SortKey(keys) => P4View::SortKey(keys@),
            P4::Affinity(b) => P4View::Affinity(b@),
            P4::Bool(b) => P4View::Bool(*b),
            P4::CreateTable { name, sql } => P4View::CreateTable { name: name@, sql: sql@ },
            P4::CreateView { name, sql } => P4View::CreateView { name: name@, sql: sql@ },
            P4::DropTable { name, root_page, indexes } => P4View::DropTable {
                name: name@,
                root_page: *root_page,
                indexes: named_roots(indexes@),
            },
            P4::CreateIndex {
                name,
                table_name,
                table_root_page,
                sql,
                column_indices,
                unique,
            } => P4View::CreateIndex {
                name: name@,
                table_name: table_name@,
                table_root_page: *table_root_page,
                sql: sql@,
                column_indices: column_indices@,
                unique: *unique,
            },
            P4::DropIndex { name, root_page } => P4View::DropIndex {
                name: name@,
                root_page: *root_page,
            },
        }
    }
}

/// A single fixed-shape bytecode instruction: an opcode tag, three integer operands
/// (`P1`/`P2`/`P3`), one dynamically-typed operand (`P4`), and one flags operand (`P5`).
#[derive(Debug, Clone, PartialEq)]
pub struct Instruction {
    pub opcode: Opcode,
    pub p1: i32,
    pub p2: i32,
    pub p3: i32,
    pub p4: P4,
    pub p5: u16,
}

/// What an [`Instruction`] stands for.
#[verifier::ext_equal]
pub struct InstructionView {
    pub opcode: Opcode,
    pub p1: i32,
    pub p2: i32,
    pub p3: i32,
    pub p4: P4View,
    pub p5: u16,
}

impl Instruction {
    pub open spec fn view(&self) -> InstructionView {
        InstructionView {
            opcode: self.opcode,
            p1: self.p1,
            p2: self.p2,
            p3: self.p3,
            p4: self.p4@,
            p5: self.p5,
        }
    }

    /// Builds an instruction with `P4` absent and `P5` zero: the common case for opcodes
    /// that only use `P1`/`P2`/`P3`.
    pub fn new(opcode: Opcode, p1: i32, p2: i32, p3: i32) -> (r: Self)
        ensures
            r@ == (InstructionView { opcode, p1, p2, p3, p4: P4View::Absent, p5: 0 }),
    {
        Self { opcode, p1, p2, p3, p4: P4::Absent, p5: 0 }
    }

    /// Builds an instruction carrying a `P4` operand.
    pub fn with_p4(opcode: Opcode, p1: i32, p2: i32, p3: i32, p4: P4) -> (r: Self)
        ensures
            r@ == (InstructionView { opcode, p1, p2, p3, p4: p4@, p5: 0 }),
    {
        Self { opcode, p1, p2, p3, p4, p5: 0 }
    }
}

/// A linear, zero-indexed sequence of instructions. Execution starts at PC 0 and advances
/// by incrementing PC unless an instruction explicitly redirects it.
#[derive(Debug, Clone, PartialEq)]
pub struct Program {
    pub instructions: Vec<Instruction>,
}

impl Program {
    /// The instructions in order.
    pub open spec fn view(&self) -> Seq<InstructionView> {
        self.instructions@.map_values(|i: Instruction| i@)
    }

    pub fn new(instructions: Vec<Instruction>) -> (r: Self)
        ensures
            r.instructions == instructions,
    {
        Self { instructions }
    }

    pub fn get(&self, pc: usize) -> (r: Option<&Instruction>)
        ensures
            match r {
                Some(i) => pc < self@.len() && i@ == self@[pc as int],
                None => pc >= self@.len(),
            },
    {
        if pc < self.instructions.len() {
            Some(&self.instructions[pc])
        } else {
            None
        }
    }

    pub fn len(&self) -> (n: usize)
        ensures
            n == self@.len(),
    {
        self.instructions.len()
    }

    pub fn is_empty(&self) -> (b: bool)
        ensures
            b == (self@.len() == 0),
    {
        self.instructions.len() == 0
    }
}

impl Default for Program {
    /// The program without instructions.
    fn default() -> (r: Self)
        ensures
            r@.len() == 0,
    {
        Program { instructions: Vec::new() }
    }
}

/// Whether an operation is one of those behind the read-only machine: it writes, changes the
/// schema, reads by an index, gathers groups or copies a register.
pub open spec fn is_later(o: Opcode) -> bool {
    match o {
        Opcode::OpenWrite | Opcode::Insert | Opcode::NewRowid | Opcode::IdxDelete
        | Opcode::NoConflict | Opcode::SeekIndexEq | Opcode::IdxRowid | Opcode::IdxRewind
        | Opcode::IdxLast | Opcode::IdxNext | Opcode::IdxPrev | Opcode::CreateTable
        | Opcode::CreateView | Opcode::DropTable | Opcode::CreateIndex | Opcode::DropIndex
        | Opcode::AggStep | Opcode::AggFinal | Opcode::Copy => true,
        _ => false,
    }
}

/// The place of an operation in [`Opcode::ALL`].
spec fn place(o: Opcode) -> Option<int> {
    match o {
        Opcode::Init => Some(0),
        Opcode::Goto => Some(1),
        Opcode::Once => Some(2),
        Opcode::BeginSubrtn => Some(3),
        Opcode::Return => Some(4),
        Opcode::Halt => Some(5),
        Opcode::Transaction => Some(6),
        Opcode::IfNot => Some(7),
        Opcode::IfNotZero => Some(8),
        Opcode::IfPos => Some(9),
        Opcode::DecrJumpZero => Some(10),
        Opcode::IsNull => Some(11),
        Opcode::NotNull => Some(12),
        Opcode::MustBeInt => Some(13),
        Opcode::OffsetLimit => Some(14),
        Opcode::OpenRead => Some(15),
        Opcode::OpenEphemeral => Some(16),
        Opcode::OpenPseudo => Some(17),
        Opcode::Rewind => Some(18),
        Opcode::Last => Some(19),
        Opcode::Next => Some(20),
        Opcode::Column => Some(21),
        Opcode::Rowid => Some(22),
        Opcode::SeekRowid => Some(23),
        Opcode::NullRow => Some(24),
        Opcode::Sequence => Some(25),
        Opcode::Found => Some(26),
        Opcode::IdxInsert => Some(27),
        Opcode::IdxLE => Some(28),
        Opcode::Delete => Some(29),
        Opcode::Eq => Some(30),
        Opcode::Ge => Some(31),
        Opcode::Gt => Some(32),
        Opcode::Le => Some(33),
        Opcode::Lt => Some(34),
        Opcode::RealAffinity => Some(35),
        Opcode::Add => Some(36),
        Opcode::Subtract => Some(37),
        Opcode::Multiply => Some(38),
        Opcode::Divide => Some(39),
        Opcode::Remainder => Some(40),
        Opcode::Not => Some(41),
        Opcode::BitAnd => Some(42),
        Opcode::BitOr => Some(43),
        Opcode::ShiftLeft => Some(44),
        Opcode::ShiftRight => Some(45),
        Opcode::BitNot => Some(46),
        Opcode::Concat => Some(47),
        Opcode::Cast => Some(48),
        Opcode::Function => Some(49),
        Opcode::Integer => Some(50),
        Opcode::Int64 => Some(51),
        Opcode::Real => Some(52),
        Opcode::Blob => Some(53),
        Opcode::Null => Some(54),
        Opcode::String8 => Some(55),
        Opcode::Variable => Some(56),
        Opcode::MakeRecord => Some(57),
        Opcode::ResultRow => Some(58),
        Opcode::SorterOpen => Some(59),
        Opcode::SorterInsert => Some(60),
        Opcode::SorterSort => Some(61),
        Opcode::SorterNext => Some(62),
        Opcode::SorterData => Some(63),
        Opcode::Sort => Some(64),
        _ => None,
    }
}

/// [`Opcode::ALL`] lists every operation of the read-only machine and no other, each once.
#[verifier::rlimit(40)]
pub proof fn law_all_lists_every_opcode(o: Opcode)
    ensures
        Opcode::ALL@.contains(o) <==> !is_later(o),
        Opcode::ALL@.no_duplicates(),
{
    let all = Opcode::ALL@;
    assert forall|i: int| 0 <= i < all.len() implies place(#[trigger] all[i]) == Some(i) by {
    }
    assert forall|i: int| 0 <= i < all.len() implies !is_later(#[trigger] all[i]) by {
    }
    if !is_later(o) {
        assert(all[place(o)->0] == o);
    }
}

} // verus!
