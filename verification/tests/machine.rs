//! The bytecode machine, run against a small store that does its outside work.
use std::collections::BTreeMap;
use std::ops::{Deref, DerefMut};

use sqlite_rs::record::{
    compare_text, decode_record, encode_record, Collation, TextEncoding, Value,
};
use sqlite_rs::text::Sorted;
use sqlite_rs::vdbe::affinity::Affinity;
use sqlite_rs::vdbe::coerce::{ArithmeticOp, Operand, Task};
use sqlite_rs::vdbe::control::{is_null, not_null, return_to};
use sqlite_rs::vdbe::exec::{
    compare_jump, parse_function_descriptor, resume, ExecError, Relation, Run, Step, Vm,
};
use sqlite_rs::vdbe::order::order_values;
use sqlite_rs::vdbe::program::{Instruction, Opcode, Program, SortKeyColumn, P4};
use sqlite_rs::vdbe::request::{IndexPlace, MasterEntry, Reply, Request, TablePlace, TableRow};
use sqlite_rs::vdbe::slot::{CursorSlot, MAX_EPHEMERAL_ROWS};
use sqlite_rs::vdbe::{arithmetic, control, cursor, exec, result, sorter};

/// An index b-tree: the entries in key order.
type Index = Vec<Vec<Value>>;

/// B-trees by root page, and the positions of the cursors on them.
#[derive(Default)]
struct Store {
    tables: BTreeMap<u32, BTreeMap<i64, Vec<u8>>>,
    indexes: BTreeMap<u32, Index>,
    at: BTreeMap<i32, i64>,
    index_at: BTreeMap<i32, usize>,
    sequence_root: Option<u32>,
    cookie: u32,
    log: Vec<String>,
}

fn float(x: f64) -> Value {
    Value::Real(x.to_bits())
}

fn number(o: &Operand) -> f64 {
    match o {
        Operand::Integer(i) => *i as f64,
        Operand::Real(r) => f64::from_bits(*r),
        Operand::Decimal(s) => panic!("{s} is not parsed yet"),
    }
}

fn task(t: Task) -> u64 {
    let x: f64 = match t {
        Task::Parse(s) => s.parse::<f64>().unwrap(),
        Task::Apply(ArithmeticOp::Add, a, b) => number(&a) + number(&b),
        Task::Apply(ArithmeticOp::Subtract, a, b) => number(&a) - number(&b),
        Task::Apply(ArithmeticOp::Multiply, a, b) => number(&a) * number(&b),
        Task::Apply(ArithmeticOp::Divide, a, b) => number(&a) / number(&b),
        Task::Apply(ArithmeticOp::Remainder, a, b) => number(&a) % number(&b),
    };
    x.to_bits()
}

fn key_order(a: &[Value], b: &[Value]) -> Sorted {
    for (x, y) in a.iter().zip(b.iter()) {
        let s = order_values(x, y, Collation::Binary);
        if s != Sorted::Same {
            return s;
        }
    }
    Sorted::Same
}

fn entry(columns: &[Value]) -> Vec<u8> {
    encode_record(columns, TextEncoding::Utf8)
}

impl Store {
    fn fresh_root(&self) -> u32 {
        let a = self.tables.keys().max().copied().unwrap_or(0);
        let b = self.indexes.keys().max().copied().unwrap_or(0);
        a.max(b) + 1
    }

    fn row(&self, root: u32, rowid: Option<i64>) -> Reply {
        Reply::Row(rowid.map(|rowid| TableRow {
            rowid,
            payload: self.tables[&root][&rowid].clone(),
        }))
    }

    fn serve(&mut self, request: &Request) -> Reply {
        match request {
            Request::MoveTable {
                slot,
                fresh,
                root_page,
                place,
            } => {
                if *fresh {
                    self.at.remove(slot);
                }
                let Some(table) = self.tables.get(root_page) else {
                    return Reply::Failed("no such table".to_string());
                };
                let at = match place {
                    TablePlace::First => table.keys().next().copied(),
                    TablePlace::Last => table.keys().last().copied(),
                    TablePlace::Next => match self.at.get(slot) {
                        Some(k) => table.keys().find(|r| *r > k).copied(),
                        None => None,
                    },
                    TablePlace::Rowid(r) => table.contains_key(r).then_some(*r),
                };
                match at {
                    Some(k) => self.at.insert(*slot, k),
                    None => self.at.remove(slot),
                };
                self.row(*root_page, at)
            }
            Request::MoveIndex {
                slot,
                fresh,
                root_page,
                place,
            } => {
                if *fresh {
                    self.index_at.remove(slot);
                }
                let index = &self.indexes[root_page];
                let before = self.index_at.get(slot).copied();
                let at = match place {
                    IndexPlace::First => Some(0),
                    IndexPlace::Last => index.len().checked_sub(1),
                    IndexPlace::Next => before.map(|k| k + 1),
                    IndexPlace::Previous => before.and_then(|k| k.checked_sub(1)),
                };
                let at = at.filter(|k| *k < index.len());
                match at {
                    Some(k) => self.index_at.insert(*slot, k),
                    None => self.index_at.remove(slot),
                };
                Reply::Entry(at.map(|k| entry(&self.indexes[root_page][k])))
            }
            Request::SeekIndex { root_page, key } => Reply::Entry(
                self.indexes[root_page]
                    .iter()
                    .find(|e| key_order(e, key) != Sorted::Before)
                    .map(|e| entry(e)),
            ),
            Request::LastRow { root_page } => {
                let last = self.tables[root_page].keys().last().copied();
                self.row(*root_page, last)
            }
            Request::InsertRow {
                root_page,
                rowid,
                payload,
            } => {
                let table = self.tables.get_mut(root_page).unwrap();
                table.insert(*rowid, payload.clone());
                Reply::Done
            }
            Request::DeleteRow { root_page, rowid } => {
                self.tables.get_mut(root_page).unwrap().remove(rowid);
                Reply::Done
            }
            Request::InsertEntry { root_page, key } => {
                let index = self.indexes.get_mut(root_page).unwrap();
                if index.contains(key) {
                    return Reply::Failed("duplicate key".to_string());
                }
                let at = index
                    .iter()
                    .position(|e| key_order(e, key) == Sorted::After)
                    .unwrap_or(index.len());
                index.insert(at, key.clone());
                Reply::Done
            }
            Request::DeleteEntry { root_page, key } => {
                let index = self.indexes.get_mut(root_page).unwrap();
                match index.iter().position(|e| e == key) {
                    Some(at) => {
                        index.remove(at);
                        Reply::Done
                    }
                    None => Reply::Failed("key not found".to_string()),
                }
            }
            Request::EnsureSequenceTable { .. } => {
                if self.sequence_root.is_none() {
                    let root = self.fresh_root();
                    self.tables.insert(root, BTreeMap::new());
                    self.sequence_root = Some(root);
                }
                Reply::Root(self.sequence_root.unwrap())
            }
            Request::ReadSequenceTable { root_page, .. } => Reply::Rows {
                payloads: self.tables[root_page].values().cloned().collect(),
                failure: None,
            },
            Request::UpdateSequence { table, value } => {
                let root = self.sequence_root.unwrap();
                let name = Value::Text(table.clone());
                let rows = self.tables.get_mut(&root).unwrap();
                let known = rows
                    .iter()
                    .find(|(_, p)| decode_record(p, TextEncoding::Utf8).unwrap()[0] == name)
                    .map(|(k, _)| *k);
                let rowid = known.unwrap_or(rows.len() as i64 + 1);
                rows.insert(rowid, entry(&[name, Value::Integer(*value)]));
                Reply::Done
            }
            Request::CreateTableRoot => {
                let root = self.fresh_root();
                self.tables.insert(root, BTreeMap::new());
                self.log.push(format!("create table root {root}"));
                Reply::Root(root)
            }
            Request::CreateIndexRoot => {
                let root = self.fresh_root();
                self.indexes.insert(root, Vec::new());
                self.log.push(format!("create index root {root}"));
                Reply::Root(root)
            }
            Request::PopulateIndex {
                table_root_page,
                index_root_page,
                column_indices,
            } => {
                for (rowid, payload) in &self.tables[table_root_page] {
                    let row = decode_record(payload, TextEncoding::Utf8).unwrap();
                    let mut key: Vec<Value> =
                        column_indices.iter().map(|c| row[*c].clone()).collect();
                    key.push(Value::Integer(*rowid));
                    self.indexes.get_mut(index_root_page).unwrap().push(key);
                }
                self.log.push(format!(
                    "populate {index_root_page} from {table_root_page}"
                ));
                Reply::Done
            }
            Request::InsertMasterRow(MasterEntry {
                kind,
                name,
                tbl_name,
                rootpage,
                sql,
            }) => {
                let master = self.tables.get_mut(&1).unwrap();
                let rowid = master.keys().max().copied().unwrap_or(0) + 1;
                master.insert(
                    rowid,
                    entry(&[
                        Value::Text(kind.clone()),
                        Value::Text(name.clone()),
                        Value::Text(tbl_name.clone()),
                        Value::Integer(i64::from(*rootpage)),
                        Value::Text(sql.clone()),
                    ]),
                );
                self.log.push(format!("register {kind} {name}"));
                Reply::Done
            }
            Request::FreePages { root_page, .. } => {
                self.tables.remove(root_page);
                self.indexes.remove(root_page);
                self.log.push(format!("free {root_page}"));
                Reply::Done
            }
            Request::DeleteMasterRow { name, .. } => {
                let master = self.tables.get_mut(&1).unwrap();
                let wanted = Value::Text(name.clone());
                master.retain(|_, p| decode_record(p, TextEncoding::Utf8).unwrap()[1] != wanted);
                self.log.push(format!("unregister {name}"));
                Reply::Done
            }
            Request::BumpSchemaCookie => {
                self.cookie += 1;
                self.log.push("cookie".to_string());
                Reply::Done
            }
            Request::Calculate(c) => Reply::Number(task(c.task())),
            Request::Parse(s) => Reply::Number(s.parse::<f64>().unwrap().to_bits()),
            Request::ParseWhole { text, .. } => {
                Reply::Parsed(text.parse::<f64>().ok().map(f64::to_bits))
            }
            Request::Call { name, arguments } => match (name.as_str(), arguments.as_slice()) {
                ("abs", [Value::Integer(i)]) => Reply::Value(Value::Integer(i.abs())),
                ("upper", [Value::Text(s)]) => Reply::Value(Value::Text(s.to_uppercase())),
                _ => Reply::Failed(format!("no such function: {name}")),
            },
        }
    }
}

/// A machine with its store.
struct Db {
    vm: Vm,
    store: Store,
}

impl Deref for Db {
    type Target = Vm;
    fn deref(&self) -> &Vm {
        &self.vm
    }
}

impl DerefMut for Db {
    fn deref_mut(&mut self) -> &mut Vm {
        &mut self.vm
    }
}

impl Db {
    fn new() -> Db {
        Db {
            vm: Vm::new(),
            store: Store::default(),
        }
    }
}

type Op = fn(&mut Vm, &Instruction) -> Result<Step, ExecError>;

/// Runs one instruction to its end, with the store doing what it asks for.
fn perform(db: &mut Db, op: Op, instr: &Instruction) -> Result<Step, ExecError> {
    let mut step = op(&mut db.vm, instr)?;
    while let Step::Await(request) = step {
        let reply = db.store.serve(&request);
        step = resume(&mut db.vm, instr, request, reply)?;
    }
    Ok(step)
}

/// Runs a program to its end, with the store doing what it asks for.
fn finish(
    start: Result<Run, ExecError>,
    program: &Program,
    store: &mut Store,
) -> Result<Vec<Vec<Value>>, ExecError> {
    let mut run = start?;
    loop {
        match run {
            Run::Rows(rows) => return Ok(rows),
            Run::Waiting(execution) => {
                let reply = store.serve(execution.request());
                run = execution.resume(program, reply)?;
            }
        }
    }
}

fn execute(program: &Program) -> Result<Vec<Vec<Value>>, ExecError> {
    finish(exec::execute(program), program, &mut Store::default())
}

/// A table with the rows of the named fixture on root page 2.
fn open_vm(fixture: &str) -> Db {
    let rows: i64 = match fixture {
        "table_multipage.db" => 3000,
        "table_single_page.db" => 5,
        other => panic!("no fixture {other}"),
    };
    let mut store = Store::default();
    let table = (1..=rows)
        .map(|i| {
            let row = [Value::Integer(i), Value::Text(format!("row number {i}"))];
            (i, entry(&row))
        })
        .collect();
    store.tables.insert(2, table);
    Db {
        vm: Vm::with_db(TextEncoding::Utf8),
        store,
    }
}

/// A database with one empty b-tree on root page 1: a table, or an index.
fn writable_vm(page_type: u8) -> Db {
    let mut store = Store::default();
    if page_type == 0x0d {
        store.tables.insert(1, BTreeMap::new());
    } else {
        store.indexes.insert(1, Vec::new());
    }
    Db {
        vm: Vm::with_writable_db(TextEncoding::Utf8),
        store,
    }
}

fn vm_with(regs: Vec<Value>) -> Db {
    let mut vm = Db::new();
    for (i, v) in regs.into_iter().enumerate() {
        vm.set_register(i as i32, v).unwrap();
    }
    vm
}

fn open_read(db: &mut Db, instr: &Instruction) -> Result<Step, ExecError> {
    perform(db, cursor::open_read, instr)
}

fn open_write(db: &mut Db, instr: &Instruction) -> Result<Step, ExecError> {
    perform(db, cursor::open_write, instr)
}

fn open_ephemeral(db: &mut Db, instr: &Instruction) -> Result<Step, ExecError> {
    perform(db, cursor::open_ephemeral, instr)
}

fn open_pseudo(db: &mut Db, instr: &Instruction) -> Result<Step, ExecError> {
    perform(db, cursor::open_pseudo, instr)
}

fn rewind(db: &mut Db, instr: &Instruction) -> Result<Step, ExecError> {
    perform(db, cursor::rewind, instr)
}

fn last(db: &mut Db, instr: &Instruction) -> Result<Step, ExecError> {
    perform(db, cursor::last, instr)
}

fn next(db: &mut Db, instr: &Instruction) -> Result<Step, ExecError> {
    perform(db, cursor::next, instr)
}

fn column(db: &mut Db, instr: &Instruction) -> Result<Step, ExecError> {
    perform(db, cursor::column, instr)
}

fn rowid(db: &mut Db, instr: &Instruction) -> Result<Step, ExecError> {
    perform(db, cursor::rowid, instr)
}

fn seek_rowid(db: &mut Db, instr: &Instruction) -> Result<Step, ExecError> {
    perform(db, cursor::seek_rowid, instr)
}

fn null_row(db: &mut Db, instr: &Instruction) -> Result<Step, ExecError> {
    perform(db, cursor::null_row, instr)
}

fn sequence(db: &mut Db, instr: &Instruction) -> Result<Step, ExecError> {
    perform(db, cursor::sequence, instr)
}

fn found(db: &mut Db, instr: &Instruction) -> Result<Step, ExecError> {
    perform(db, cursor::found, instr)
}

fn idx_insert(db: &mut Db, instr: &Instruction) -> Result<Step, ExecError> {
    perform(db, cursor::idx_insert, instr)
}

fn idx_delete(db: &mut Db, instr: &Instruction) -> Result<Step, ExecError> {
    perform(db, cursor::idx_delete, instr)
}

fn idx_le(db: &mut Db, instr: &Instruction) -> Result<Step, ExecError> {
    perform(db, cursor::idx_le, instr)
}

fn no_conflict(db: &mut Db, instr: &Instruction) -> Result<Step, ExecError> {
    perform(db, cursor::no_conflict, instr)
}

fn seek_index_eq(db: &mut Db, instr: &Instruction) -> Result<Step, ExecError> {
    perform(db, cursor::seek_index_eq, instr)
}

fn idx_rowid(db: &mut Db, instr: &Instruction) -> Result<Step, ExecError> {
    perform(db, cursor::idx_rowid, instr)
}

fn idx_rewind(db: &mut Db, instr: &Instruction) -> Result<Step, ExecError> {
    perform(db, cursor::idx_rewind, instr)
}

fn idx_last(db: &mut Db, instr: &Instruction) -> Result<Step, ExecError> {
    perform(db, cursor::idx_last, instr)
}

fn idx_next(db: &mut Db, instr: &Instruction) -> Result<Step, ExecError> {
    perform(db, cursor::idx_next, instr)
}

fn idx_prev(db: &mut Db, instr: &Instruction) -> Result<Step, ExecError> {
    perform(db, cursor::idx_prev, instr)
}

fn delete(db: &mut Db, instr: &Instruction) -> Result<Step, ExecError> {
    perform(db, cursor::delete, instr)
}

fn insert(db: &mut Db, instr: &Instruction) -> Result<Step, ExecError> {
    perform(db, cursor::insert, instr)
}

fn new_rowid(db: &mut Db, instr: &Instruction) -> Result<Step, ExecError> {
    perform(db, cursor::new_rowid, instr)
}

fn create_table(db: &mut Db, instr: &Instruction) -> Result<Step, ExecError> {
    perform(db, |vm, i| cursor::create_table(vm, i), instr)
}

fn create_view(db: &mut Db, instr: &Instruction) -> Result<Step, ExecError> {
    perform(db, |vm, i| cursor::create_view(vm, i), instr)
}

fn drop_table(db: &mut Db, instr: &Instruction) -> Result<Step, ExecError> {
    perform(db, |vm, i| cursor::drop_table(vm, i), instr)
}

fn create_index(db: &mut Db, instr: &Instruction) -> Result<Step, ExecError> {
    perform(db, |vm, i| cursor::create_index(vm, i), instr)
}

fn drop_index(db: &mut Db, instr: &Instruction) -> Result<Step, ExecError> {
    perform(db, |vm, i| cursor::drop_index(vm, i), instr)
}

fn add(db: &mut Db, instr: &Instruction) -> Result<Step, ExecError> {
    perform(db, arithmetic::add, instr)
}

fn subtract(db: &mut Db, instr: &Instruction) -> Result<Step, ExecError> {
    perform(db, arithmetic::subtract, instr)
}

fn multiply(db: &mut Db, instr: &Instruction) -> Result<Step, ExecError> {
    perform(db, arithmetic::multiply, instr)
}

fn divide(db: &mut Db, instr: &Instruction) -> Result<Step, ExecError> {
    perform(db, arithmetic::divide, instr)
}

fn remainder(db: &mut Db, instr: &Instruction) -> Result<Step, ExecError> {
    perform(db, arithmetic::remainder, instr)
}

fn not(db: &mut Db, instr: &Instruction) -> Result<Step, ExecError> {
    perform(db, arithmetic::not, instr)
}

fn integer(db: &mut Db, instr: &Instruction) -> Result<Step, ExecError> {
    perform(db, result::integer, instr)
}

fn null(db: &mut Db, instr: &Instruction) -> Result<Step, ExecError> {
    perform(db, result::null, instr)
}

fn string8(db: &mut Db, instr: &Instruction) -> Result<Step, ExecError> {
    perform(db, result::string8, instr)
}

fn make_record(db: &mut Db, instr: &Instruction) -> Result<Step, ExecError> {
    perform(db, result::make_record, instr)
}

fn result_row(db: &mut Db, instr: &Instruction) -> Result<Step, ExecError> {
    perform(db, result::result_row, instr)
}

fn decr_jump_zero(db: &mut Db, instr: &Instruction) -> Result<Step, ExecError> {
    perform(db, control::decr_jump_zero, instr)
}

fn offset_limit(db: &mut Db, instr: &Instruction) -> Result<Step, ExecError> {
    perform(db, control::offset_limit, instr)
}

fn must_be_int(db: &mut Db, instr: &Instruction) -> Result<Step, ExecError> {
    perform(db, control::must_be_int, instr)
}

fn if_pos(db: &mut Db, instr: &Instruction) -> Result<Step, ExecError> {
    perform(db, control::if_pos, instr)
}

fn if_not_zero(db: &mut Db, instr: &Instruction) -> Result<Step, ExecError> {
    perform(db, control::if_not_zero, instr)
}

fn sorter_open(db: &mut Db, instr: &Instruction) -> Result<Step, ExecError> {
    perform(db, sorter::sorter_open, instr)
}

fn sorter_insert(db: &mut Db, instr: &Instruction) -> Result<Step, ExecError> {
    perform(db, sorter::sorter_insert, instr)
}

fn sorter_sort(db: &mut Db, instr: &Instruction) -> Result<Step, ExecError> {
    perform(db, sorter::sorter_sort, instr)
}

fn sorter_next(db: &mut Db, instr: &Instruction) -> Result<Step, ExecError> {
    perform(db, sorter::sorter_next, instr)
}

fn sorter_data(db: &mut Db, instr: &Instruction) -> Result<Step, ExecError> {
    perform(db, sorter::sorter_data, instr)
}

fn real_affinity(db: &mut Db, instr: &Instruction) -> Result<Step, ExecError> {
    perform(db, exec::real_affinity, instr)
}

fn if_not(db: &mut Db, instr: &Instruction) -> Result<Step, ExecError> {
    perform(db, |vm, i| control::if_not(vm, i), instr)
}

fn function(db: &mut Db, instr: &Instruction) -> Result<Step, ExecError> {
    perform(db, |vm, i| exec::function(vm, i), instr)
}

fn once(db: &mut Db, pc: usize, instr: &Instruction) -> Result<Step, ExecError> {
    control::once(&mut db.vm, pc, instr)
}

#[test]
fn register_persists_across_unrelated_instructions() {
    let mut vm = Db::new();
    vm.set_register(0, Value::Integer(42)).unwrap();
    vm.set_register(1, Value::Integer(0)).unwrap();
    assert_eq!(*vm.register(0).unwrap(), Value::Integer(42));
}

#[test]
fn cursor_slots_and_registers_are_disjoint() {
    let mut vm = Db::new();
    vm.set_register(0, Value::Integer(1)).unwrap();
    vm.set_cursor(0, CursorSlot::Pseudo { register: 99 })
        .unwrap();
    assert_eq!(*vm.register(0).unwrap(), Value::Integer(1));
    assert!(matches!(
        vm.cursor(0).unwrap(),
        CursorSlot::Pseudo { register: 99 }
    ));
}

#[test]
fn program_falls_off_the_end_without_halt_errors_not_panics() {
    let program = Program::new(vec![Instruction::new(Opcode::Integer, 1, 0, 0)]);
    assert!(matches!(
        execute(&program),
        Err(ExecError::ProgramCounterOutOfRange { .. })
    ));
}

#[test]
fn hand_assembled_program_computes_1_plus_2_and_emits_a_row() {
    let program = Program::new(vec![
        Instruction::new(Opcode::Integer, 1, 0, 0),
        Instruction::new(Opcode::Integer, 2, 1, 0),
        Instruction::new(Opcode::Add, 0, 1, 2),
        Instruction::new(Opcode::ResultRow, 2, 1, 0),
        Instruction::new(Opcode::Halt, 0, 0, 0),
    ]);
    let rows = execute(&program).unwrap();
    assert_eq!(rows, vec![vec![Value::Integer(3)]]);
}

#[test]
fn compare_opcodes_jump_on_kernel_result_not_a_re_derived_rule() {
    let mut vm = Db::new();
    vm.set_register(0, Value::Integer(10)).unwrap();
    vm.set_register(1, Value::Integer(5)).unwrap();
    let ge = Instruction::new(Opcode::Ge, 0, 99, 1);
    assert_eq!(
        compare_jump(&vm, &ge, Relation::Ge).unwrap(),
        Step::Jump(99)
    );

    let lt = Instruction::new(Opcode::Lt, 0, 99, 1);
    assert_eq!(
        compare_jump(&vm, &lt, Relation::Lt).unwrap(),
        Step::Next
    );
}

#[test]
fn real_affinity_coerces_register_on_load_independent_of_comparison() {
    let mut vm = Db::new();
    vm.set_register(0, Value::Text("1.5".to_string())).unwrap();
    real_affinity(&mut vm, &Instruction::new(Opcode::RealAffinity, 0, 0, 0)).unwrap();
    assert_eq!(*vm.register(0).unwrap(), float(1.5));
}

#[test]
fn oversized_register_index_errors_instead_of_allocating_gigabytes() {
    let program = Program::new(vec![Instruction::new(Opcode::Integer, 1, 1_500_000_000, 0)]);
    assert!(matches!(
        execute(&program),
        Err(ExecError::RegisterOutOfRange { .. })
    ));
}

#[test]
fn oversized_result_row_count_errors_instead_of_allocating_gigabytes() {
    let program = Program::new(vec![Instruction::new(
        Opcode::ResultRow,
        0,
        1_500_000_000,
        0,
    )]);
    assert!(matches!(
        execute(&program),
        Err(ExecError::RegisterRangeTooLarge { .. })
    ));
}

#[test]
fn nonzero_halt_surfaces_as_an_error_not_a_result() {
    let program = Program::new(vec![Instruction::new(Opcode::Halt, 1, 0, 0)]);
    assert!(matches!(
        execute(&program),
        Err(ExecError::Halted { code: 1, .. })
    ));
}

#[test]
fn decr_jump_zero_terminates_at_zero() {
    let mut vm = vm_with(vec![Value::Integer(1)]);
    let instr = Instruction::new(Opcode::DecrJumpZero, 0, 10, 0);
    assert_eq!(decr_jump_zero(&mut vm, &instr).unwrap(), Step::Jump(10));
    assert_eq!(*vm.register(0).unwrap(), Value::Integer(0));
}

#[test]
fn offset_limit_combines_limit_and_offset() {
    let mut vm = vm_with(vec![Value::Integer(2), Value::Null, Value::Integer(1)]);
    let instr = Instruction::new(Opcode::OffsetLimit, 0, 1, 2);
    offset_limit(&mut vm, &instr).unwrap();
    assert_eq!(*vm.register(1).unwrap(), Value::Integer(3));
}

#[test]
fn offset_limit_non_positive_limit_means_unbounded() {
    let mut vm = vm_with(vec![Value::Integer(0), Value::Null, Value::Integer(0)]);
    let instr = Instruction::new(Opcode::OffsetLimit, 0, 1, 2);
    offset_limit(&mut vm, &instr).unwrap();
    assert_eq!(*vm.register(1).unwrap(), Value::Integer(-1));
}

#[test]
fn once_falls_through_first_time_then_jumps_on_repeat_entry() {
    let mut vm = Db::new();
    let instr = Instruction::new(Opcode::Once, 0, 10, 0);
    assert_eq!(once(&mut vm, 3, &instr).unwrap(), Step::Next);
    assert_eq!(once(&mut vm, 3, &instr).unwrap(), Step::Jump(10));
    assert_eq!(once(&mut vm, 3, &instr).unwrap(), Step::Jump(10));
}

#[test]
fn must_be_int_rejects_out_of_range_integral_real() {
    let mut vm = vm_with(vec![float(1e300)]);
    let instr = Instruction::new(Opcode::MustBeInt, 0, 0, 0);
    assert!(matches!(
        must_be_int(&mut vm, &instr),
        Err(ExecError::MustBeInt)
    ));
}

#[test]
fn return_rejects_address_that_does_not_fit_in_a_pc() {
    let vm = vm_with(vec![Value::Integer(i64::MAX)]);
    let instr = Instruction::new(Opcode::Return, 0, 0, 0);
    assert!(matches!(
        return_to(&vm, &instr),
        Err(ExecError::MalformedInstruction {
            opcode: "Return",
            ..
        })
    ));
}

#[test]
fn is_null_and_not_null_jump_on_null() {
    let vm = vm_with(vec![Value::Null, Value::Integer(1)]);
    let instr = Instruction::new(Opcode::IsNull, 0, 5, 0);
    assert_eq!(is_null(&vm, &instr).unwrap(), Step::Jump(5));
    let instr = Instruction::new(Opcode::NotNull, 1, 5, 0);
    assert_eq!(not_null(&vm, &instr).unwrap(), Step::Jump(5));
}

#[test]
fn add_reads_two_registers_writes_one() {
    let mut vm = vm_with(vec![Value::Integer(1), Value::Integer(2)]);
    let instr = Instruction::new(Opcode::Add, 0, 1, 2);
    add(&mut vm, &instr).unwrap();
    assert_eq!(*vm.register(2).unwrap(), Value::Integer(3));
}

#[test]
fn null_propagates_through_every_arithmetic_opcode() {
    for op in [add, subtract, multiply, divide, remainder] {
        let mut vm = vm_with(vec![Value::Null, Value::Integer(2)]);
        let instr = Instruction::new(Opcode::Add, 0, 1, 2);
        op(&mut vm, &instr).unwrap();
        assert_eq!(*vm.register(2).unwrap(), Value::Null);
    }
}

#[test]
fn divide_by_zero_yields_null_not_a_panic() {
    let mut vm = vm_with(vec![Value::Integer(0), Value::Integer(10)]);
    let instr = Instruction::new(Opcode::Divide, 0, 1, 2);
    divide(&mut vm, &instr).unwrap();
    assert_eq!(*vm.register(2).unwrap(), Value::Null);
}

#[test]
fn not_complements_truthiness_and_propagates_null() {
    for (input, expected) in [
        (Value::Integer(0), Value::Integer(1)),
        (Value::Integer(7), Value::Integer(0)),
        (float(0.0), Value::Integer(1)),
        (Value::Text("0".to_string()), Value::Integer(1)),
        (Value::Text("abc".to_string()), Value::Integer(1)),
        (Value::Null, Value::Null),
    ] {
        let mut vm = vm_with(vec![input.clone()]);
        let instr = Instruction::new(Opcode::Not, 0, 1, 0);
        not(&mut vm, &instr).unwrap();
        assert_eq!(*vm.register(1).unwrap(), expected, "NOT {input:?}");
    }
}

#[test]
fn integer_overflow_promotes_to_real() {
    let mut vm = vm_with(vec![Value::Integer(i64::MAX), Value::Integer(1)]);
    let instr = Instruction::new(Opcode::Add, 0, 1, 2);
    add(&mut vm, &instr).unwrap();
    assert!(matches!(vm.register(2).unwrap(), Value::Real(_)));
}

#[test]
fn integer_and_string8_load_literals() {
    let mut vm = Db::new();
    integer(&mut vm, &Instruction::new(Opcode::Integer, 42, 0, 0)).unwrap();
    assert_eq!(*vm.register(0).unwrap(), Value::Integer(42));

    let instr = Instruction::with_p4(Opcode::String8, 0, 1, 0, P4::Str("hello".to_string()));
    string8(&mut vm, &instr).unwrap();
    assert_eq!(*vm.register(1).unwrap(), Value::Text("hello".to_string()));
}

#[test]
fn null_overwrites_a_live_register_and_spans_p2_to_p3() {
    let mut vm = Db::new();
    for r in 0..3 {
        vm.set_register(r, Value::Integer(9)).unwrap();
    }
    null(&mut vm, &Instruction::new(Opcode::Null, 0, 1, 0)).unwrap();
    assert_eq!(*vm.register(0).unwrap(), Value::Integer(9));
    assert_eq!(*vm.register(1).unwrap(), Value::Null);
    assert_eq!(*vm.register(2).unwrap(), Value::Integer(9));

    null(&mut vm, &Instruction::new(Opcode::Null, 0, 0, 2)).unwrap();
    for r in 0..3 {
        assert_eq!(*vm.register(r).unwrap(), Value::Null);
    }
}

#[test]
fn result_row_emits_fixed_register_range() {
    let mut vm = Db::new();
    vm.set_register(0, Value::Integer(1)).unwrap();
    vm.set_register(1, Value::Integer(2)).unwrap();
    result_row(&mut vm, &Instruction::new(Opcode::ResultRow, 0, 2, 0)).unwrap();
    assert_eq!(vm.rows(), &[vec![Value::Integer(1), Value::Integer(2)]]);
}

#[test]
fn make_record_output_matches_spec_003_encoding() {
    let mut vm = Db::new();
    vm.set_register(0, Value::Integer(42)).unwrap();
    vm.set_register(1, Value::Text("abc".to_string())).unwrap();
    make_record(&mut vm, &Instruction::new(Opcode::MakeRecord, 0, 2, 2)).unwrap();
    let Value::Blob(payload) = vm.register(2).unwrap() else {
        panic!("expected a Blob");
    };
    let decoded = decode_record(payload, TextEncoding::Utf8).unwrap();
    assert_eq!(
        decoded,
        vec![Value::Integer(42), Value::Text("abc".to_string())]
    );
}

fn insert_row(vm: &mut Db, cursor: i32, values: &[Value]) {
    let blob = encode_record(values, TextEncoding::Utf8);
    vm.set_register(0, Value::Blob(blob)).unwrap();
    sorter_insert(vm, &Instruction::new(Opcode::SorterInsert, cursor, 0, 0)).unwrap();
}

fn open_sorter(vm: &mut Db, cursor: i32, keys: Vec<SortKeyColumn>) {
    sorter_open(
        vm,
        &Instruction::with_p4(Opcode::SorterOpen, cursor, 0, 0, P4::SortKey(keys)),
    )
    .unwrap();
}

#[test]
fn order_by_buffers_all_rows_before_sorting() {
    let mut vm = Db::new();
    open_sorter(
        &mut vm,
        0,
        vec![SortKeyColumn {
            index: 0,
            descending: false,
            collation: Collation::Binary,
            nulls_first: false,
        }],
    );
    insert_row(&mut vm, 0, &[Value::Integer(30)]);
    insert_row(&mut vm, 0, &[Value::Integer(10)]);
    insert_row(&mut vm, 0, &[Value::Integer(20)]);

    let step = sorter_sort(&mut vm, &Instruction::new(Opcode::SorterSort, 0, 999, 0)).unwrap();
    assert_eq!(step, Step::Next);

    let mut seen = Vec::new();
    loop {
        sorter_data(&mut vm, &Instruction::new(Opcode::SorterData, 0, 5, 0)).unwrap();
        let Value::Blob(bytes) = vm.register(5).unwrap() else {
            panic!("expected a Blob");
        };
        let row = decode_record(bytes, TextEncoding::Utf8).unwrap();
        seen.push(row[0].clone());

        match sorter_next(&mut vm, &Instruction::new(Opcode::SorterNext, 0, 1, 0)).unwrap() {
            Step::Jump(1) => continue,
            Step::Next => break,
            other => panic!("unexpected step {other:?}"),
        }
    }

    assert_eq!(
        seen,
        vec![Value::Integer(10), Value::Integer(20), Value::Integer(30)]
    );
}

#[test]
fn sort_key_descriptor_drives_multi_column_order() {
    let mut vm = Db::new();
    open_sorter(
        &mut vm,
        0,
        vec![
            SortKeyColumn {
                index: 0,
                descending: true,
                collation: Collation::Binary,
                nulls_first: false,
            },
            SortKeyColumn {
                index: 1,
                descending: false,
                collation: Collation::Binary,
                nulls_first: false,
            },
        ],
    );
    insert_row(&mut vm, 0, &[Value::Integer(1), Value::Integer(2)]);
    insert_row(&mut vm, 0, &[Value::Integer(2), Value::Integer(1)]);
    insert_row(&mut vm, 0, &[Value::Integer(1), Value::Integer(1)]);

    sorter_sort(&mut vm, &Instruction::new(Opcode::SorterSort, 0, 999, 0)).unwrap();

    let mut seen = Vec::new();
    loop {
        sorter_data(&mut vm, &Instruction::new(Opcode::SorterData, 0, 5, 0)).unwrap();
        let Value::Blob(bytes) = vm.register(5).unwrap() else {
            panic!("expected a Blob");
        };
        seen.push(decode_record(bytes, TextEncoding::Utf8).unwrap());
        match sorter_next(&mut vm, &Instruction::new(Opcode::SorterNext, 0, 1, 0)).unwrap() {
            Step::Jump(1) => continue,
            Step::Next => break,
            other => panic!("unexpected step {other:?}"),
        }
    }

    assert_eq!(
        seen,
        vec![
            vec![Value::Integer(2), Value::Integer(1)],
            vec![Value::Integer(1), Value::Integer(1)],
            vec![Value::Integer(1), Value::Integer(2)],
        ]
    );
}

#[test]
fn empty_sorter_jumps_past_the_loop() {
    let mut vm = Db::new();
    open_sorter(
        &mut vm,
        0,
        vec![SortKeyColumn {
            index: 0,
            descending: false,
            collation: Collation::Binary,
            nulls_first: false,
        }],
    );
    let step = sorter_sort(&mut vm, &Instruction::new(Opcode::SorterSort, 0, 42, 0)).unwrap();
    assert_eq!(step, Step::Jump(42));
}

#[test]
fn sort_alias_behaves_identically_to_sorter_sort() {
    let mut vm = Db::new();
    open_sorter(
        &mut vm,
        0,
        vec![SortKeyColumn {
            index: 0,
            descending: false,
            collation: Collation::Binary,
            nulls_first: false,
        }],
    );
    insert_row(&mut vm, 0, &[Value::Integer(5)]);
    let step = sorter_sort(&mut vm, &Instruction::new(Opcode::Sort, 0, 999, 0)).unwrap();
    assert_eq!(step, Step::Next);
}

fn sorted_ints(nulls_first: bool, descending: bool) -> Vec<Value> {
    let mut vm = Db::new();
    open_sorter(
        &mut vm,
        0,
        vec![SortKeyColumn {
            index: 0,
            descending,
            collation: Collation::Binary,
            nulls_first,
        }],
    );
    insert_row(&mut vm, 0, &[Value::Integer(5)]);
    insert_row(&mut vm, 0, &[Value::Null]);
    insert_row(&mut vm, 0, &[Value::Integer(-7)]);
    insert_row(&mut vm, 0, &[Value::Integer(0)]);
    insert_row(&mut vm, 0, &[Value::Integer(5)]);

    sorter_sort(&mut vm, &Instruction::new(Opcode::SorterSort, 0, 999, 0)).unwrap();

    let mut seen = Vec::new();
    loop {
        sorter_data(&mut vm, &Instruction::new(Opcode::SorterData, 0, 5, 0)).unwrap();
        let Value::Blob(bytes) = vm.register(5).unwrap() else {
            panic!("expected a Blob");
        };
        let row = decode_record(bytes, TextEncoding::Utf8).unwrap();
        seen.push(row[0].clone());
        match sorter_next(&mut vm, &Instruction::new(Opcode::SorterNext, 0, 1, 0)).unwrap() {
            Step::Jump(1) => continue,
            Step::Next => break,
            other => panic!("unexpected step {other:?}"),
        }
    }
    seen
}

#[test]
fn ascending_default_places_nulls_first() {
    assert_eq!(
        sorted_ints(true, false),
        vec![
            Value::Null,
            Value::Integer(-7),
            Value::Integer(0),
            Value::Integer(5),
            Value::Integer(5),
        ]
    );
}

#[test]
fn descending_default_places_nulls_last() {
    assert_eq!(
        sorted_ints(false, true),
        vec![
            Value::Integer(5),
            Value::Integer(5),
            Value::Integer(0),
            Value::Integer(-7),
            Value::Null,
        ]
    );
}

#[test]
fn ascending_with_nulls_last_matches_oracle() {
    assert_eq!(
        sorted_ints(false, false),
        vec![
            Value::Integer(-7),
            Value::Integer(0),
            Value::Integer(5),
            Value::Integer(5),
            Value::Null,
        ]
    );
}

#[test]
fn descending_with_nulls_first_matches_oracle() {
    assert_eq!(
        sorted_ints(true, true),
        vec![
            Value::Null,
            Value::Integer(5),
            Value::Integer(5),
            Value::Integer(0),
            Value::Integer(-7),
        ]
    );
}

#[test]
fn full_scan_opens_rewinds_iterates_reads() {
    let mut vm = open_vm("table_multipage.db");
    open_read(&mut vm, &Instruction::new(Opcode::OpenRead, 0, 2, 0)).unwrap();

    let step = rewind(&mut vm, &Instruction::new(Opcode::Rewind, 0, 999, 0)).unwrap();
    assert_eq!(step, Step::Next);

    let mut rowids = Vec::new();
    loop {
        rowid(&mut vm, &Instruction::new(Opcode::Rowid, 0, 10, 0)).unwrap();
        rowids.push(vm.register(10).unwrap().clone());
        column(&mut vm, &Instruction::new(Opcode::Column, 0, 1, 11)).unwrap();

        match next(&mut vm, &Instruction::new(Opcode::Next, 0, 1, 0)).unwrap() {
            Step::Jump(1) => continue,
            Step::Next => break,
            other => panic!("unexpected step {other:?}"),
        }
    }

    assert_eq!(rowids.len(), 3000);
    assert_eq!(rowids[0], Value::Integer(1));
    assert_eq!(rowids[2999], Value::Integer(3000));
    assert_eq!(
        *vm.register(11).unwrap(),
        Value::Text("row number 3000".to_string())
    );
}

#[test]
fn seek_rowid_jumps_to_p2_when_the_target_rowid_is_absent() {
    let mut vm = open_vm("table_single_page.db");
    open_read(&mut vm, &Instruction::new(Opcode::OpenRead, 0, 2, 0)).unwrap();
    vm.set_register(5, Value::Integer(999)).unwrap();
    let step = seek_rowid(&mut vm, &Instruction::new(Opcode::SeekRowid, 0, 42, 5)).unwrap();
    assert_eq!(step, Step::Jump(42));
}

#[test]
fn seek_rowid_skips_full_scan_on_pk_equality() {
    let mut vm = open_vm("table_multipage.db");
    open_read(&mut vm, &Instruction::new(Opcode::OpenRead, 0, 2, 0)).unwrap();
    vm.set_register(5, Value::Integer(1500)).unwrap();
    let step = seek_rowid(&mut vm, &Instruction::new(Opcode::SeekRowid, 0, 42, 5)).unwrap();
    assert_eq!(step, Step::Next);
    rowid(&mut vm, &Instruction::new(Opcode::Rowid, 0, 10, 0)).unwrap();
    assert_eq!(*vm.register(10).unwrap(), Value::Integer(1500));
}

#[test]
fn null_row_forces_all_null_reads_until_repositioned() {
    let mut vm = open_vm("table_multipage.db");
    open_read(&mut vm, &Instruction::new(Opcode::OpenRead, 0, 2, 0)).unwrap();
    rewind(&mut vm, &Instruction::new(Opcode::Rewind, 0, 999, 0)).unwrap();
    null_row(&mut vm, &Instruction::new(Opcode::NullRow, 0, 0, 0)).unwrap();

    column(&mut vm, &Instruction::new(Opcode::Column, 0, 1, 11)).unwrap();
    assert_eq!(*vm.register(11).unwrap(), Value::Null);
    rowid(&mut vm, &Instruction::new(Opcode::Rowid, 0, 12, 0)).unwrap();
    assert_eq!(*vm.register(12).unwrap(), Value::Null);
}

#[test]
fn distinct_probes_ephemeral_index_before_emit() {
    let mut vm = Db::new();
    open_ephemeral(&mut vm, &Instruction::new(Opcode::OpenEphemeral, 0, 1, 0)).unwrap();

    vm.set_register(0, Value::Text("a".to_string()))
        .unwrap();
    let found_a = found(
        &mut vm,
        &Instruction::with_p4(Opcode::Found, 0, 99, 0, P4::Int(1)),
    )
    .unwrap();
    assert_eq!(found_a, Step::Next);
    idx_insert(
        &mut vm,
        &Instruction::with_p4(Opcode::IdxInsert, 0, 0, 0, P4::Int(1)),
    )
    .unwrap();

    let found_a_again = found(
        &mut vm,
        &Instruction::with_p4(Opcode::Found, 0, 99, 0, P4::Int(1)),
    )
    .unwrap();
    assert_eq!(found_a_again, Step::Jump(99));

    vm.set_register(0, Value::Text("b".to_string()))
        .unwrap();
    let found_b = found(
        &mut vm,
        &Instruction::with_p4(Opcode::Found, 0, 99, 0, P4::Int(1)),
    )
    .unwrap();
    assert_eq!(found_b, Step::Next);
}

#[test]
fn distinct_treats_two_nulls_as_equal_unlike_the_eq_operator() {
    let mut vm = Db::new();
    open_ephemeral(&mut vm, &Instruction::new(Opcode::OpenEphemeral, 0, 1, 0)).unwrap();

    vm.set_register(0, Value::Null).unwrap();
    let found_first_null = found(
        &mut vm,
        &Instruction::with_p4(Opcode::Found, 0, 99, 0, P4::Int(1)),
    )
    .unwrap();
    assert_eq!(found_first_null, Step::Next);
    idx_insert(
        &mut vm,
        &Instruction::with_p4(Opcode::IdxInsert, 0, 0, 0, P4::Int(1)),
    )
    .unwrap();

    vm.set_register(0, Value::Null).unwrap();
    let found_second_null = found(
        &mut vm,
        &Instruction::with_p4(Opcode::Found, 0, 99, 0, P4::Int(1)),
    )
    .unwrap();
    assert_eq!(found_second_null, Step::Jump(99));
}

#[test]
fn sequence_hands_out_a_monotonic_counter_independent_of_the_dedup_key() {
    let mut vm = Db::new();
    open_ephemeral(&mut vm, &Instruction::new(Opcode::OpenEphemeral, 0, 1, 0)).unwrap();
    sequence(&mut vm, &Instruction::new(Opcode::Sequence, 0, 5, 0)).unwrap();
    assert_eq!(*vm.register(5).unwrap(), Value::Integer(0));
    sequence(&mut vm, &Instruction::new(Opcode::Sequence, 0, 6, 0)).unwrap();
    assert_eq!(*vm.register(6).unwrap(), Value::Integer(1));
}

#[test]
fn delete_removes_the_just_probed_duplicate_row() {
    let mut vm = Db::new();
    open_ephemeral(&mut vm, &Instruction::new(Opcode::OpenEphemeral, 0, 1, 0)).unwrap();
    vm.set_register(0, Value::Text("a".to_string()))
        .unwrap();
    idx_insert(
        &mut vm,
        &Instruction::with_p4(Opcode::IdxInsert, 0, 0, 0, P4::Int(1)),
    )
    .unwrap();
    found(
        &mut vm,
        &Instruction::with_p4(Opcode::Found, 0, 99, 0, P4::Int(1)),
    )
    .unwrap();
    delete(&mut vm, &Instruction::new(Opcode::Delete, 0, 0, 0)).unwrap();

    let found_again = found(
        &mut vm,
        &Instruction::with_p4(Opcode::Found, 0, 99, 0, P4::Int(1)),
    )
    .unwrap();
    assert_eq!(found_again, Step::Next);
}

#[test]
fn cursor_type_mismatch_errors_instead_of_panicking() {
    let mut vm = Db::new();
    open_ephemeral(&mut vm, &Instruction::new(Opcode::OpenEphemeral, 0, 1, 0)).unwrap();
    let err = rowid(&mut vm, &Instruction::new(Opcode::Rowid, 0, 5, 0)).unwrap_err();
    assert!(matches!(err, ExecError::CursorTypeMismatch { .. }));
}

#[test]
fn unopened_cursor_slot_errors_instead_of_panicking() {
    let mut vm = Db::new();
    let err = rowid(&mut vm, &Instruction::new(Opcode::Rowid, 0, 5, 0)).unwrap_err();
    assert!(matches!(err, ExecError::CursorNotOpen { slot: 0 }));
}


#[test]
fn open_write_requires_a_writable_vm() {
    let mut vm = open_vm("table_multipage.db");
    let err = open_write(&mut vm, &Instruction::new(Opcode::OpenWrite, 0, 2, 0)).unwrap_err();
    assert!(matches!(err, ExecError::NoDatabase { .. }));
}

#[test]
fn new_rowid_starts_at_one_on_an_empty_table() {
    let mut vm = writable_vm(0x0d); // LEAF_TABLE
    open_write(&mut vm, &Instruction::new(Opcode::OpenWrite, 0, 1, 0)).unwrap();
    new_rowid(&mut vm, &Instruction::new(Opcode::NewRowid, 0, 5, 0)).unwrap();
    assert_eq!(*vm.register(5).unwrap(), Value::Integer(1));
}

#[test]
fn insert_then_read_back_round_trips_through_make_record_and_column() {
    let mut vm = writable_vm(0x0d); // LEAF_TABLE
    open_write(&mut vm, &Instruction::new(Opcode::OpenWrite, 0, 1, 0)).unwrap();

    new_rowid(&mut vm, &Instruction::new(Opcode::NewRowid, 0, 0, 0)).unwrap();
    assert_eq!(*vm.register(0).unwrap(), Value::Integer(1));

    vm.set_register(1, Value::Text("42".to_string()))
        .unwrap();
    vm.set_register(2, Value::Text("hello".to_string()))
        .unwrap();
    make_record(
        &mut vm,
        &Instruction::with_p4(
            Opcode::MakeRecord,
            1,
            2,
            3,
            P4::Affinity(vec![
                Affinity::Integer.to_p4_byte(),
                Affinity::Text.to_p4_byte(),
            ]),
        ),
    )
    .unwrap();
    assert!(matches!(vm.register(3).unwrap(), Value::Blob(_)));

    insert(&mut vm, &Instruction::new(Opcode::Insert, 0, 0, 3)).unwrap();

    rewind(&mut vm, &Instruction::new(Opcode::Rewind, 0, 999, 0)).unwrap();
    column(&mut vm, &Instruction::new(Opcode::Column, 0, 0, 10)).unwrap();
    column(&mut vm, &Instruction::new(Opcode::Column, 0, 1, 11)).unwrap();
    assert_eq!(*vm.register(10).unwrap(), Value::Integer(42));
    assert_eq!(
        *vm.register(11).unwrap(),
        Value::Text("hello".to_string())
    );
    rowid(&mut vm, &Instruction::new(Opcode::Rowid, 0, 12, 0)).unwrap();
    assert_eq!(*vm.register(12).unwrap(), Value::Integer(1));
}

#[test]
fn new_rowid_after_insert_skips_past_the_max_existing_rowid() {
    let mut vm = writable_vm(0x0d);
    open_write(&mut vm, &Instruction::new(Opcode::OpenWrite, 0, 1, 0)).unwrap();
    vm.set_register(1, Value::Integer(7)).unwrap();
    make_record(&mut vm, &Instruction::new(Opcode::MakeRecord, 1, 1, 2))
        .unwrap();
    vm.set_register(0, Value::Integer(5)).unwrap();
    insert(&mut vm, &Instruction::new(Opcode::Insert, 0, 0, 2)).unwrap();

    new_rowid(&mut vm, &Instruction::new(Opcode::NewRowid, 0, 9, 0)).unwrap();
    assert_eq!(*vm.register(9).unwrap(), Value::Integer(6));
}

#[test]
fn delete_removes_the_row_at_the_cursors_current_position() {
    let mut vm = writable_vm(0x0d);
    open_write(&mut vm, &Instruction::new(Opcode::OpenWrite, 0, 1, 0)).unwrap();
    vm.set_register(1, Value::Integer(99)).unwrap();
    make_record(&mut vm, &Instruction::new(Opcode::MakeRecord, 1, 1, 2))
        .unwrap();
    vm.set_register(0, Value::Integer(1)).unwrap();
    insert(&mut vm, &Instruction::new(Opcode::Insert, 0, 0, 2)).unwrap();

    rewind(&mut vm, &Instruction::new(Opcode::Rewind, 0, 999, 0)).unwrap();
    delete(&mut vm, &Instruction::new(Opcode::Delete, 0, 0, 0)).unwrap();

    let step = rewind(&mut vm, &Instruction::new(Opcode::Rewind, 0, 999, 0)).unwrap();
    assert_eq!(step, Step::Jump(999));
}

#[test]
fn new_rowid_autoincrement_consults_and_bumps_sqlite_sequence() {
    let mut vm = writable_vm(0x0d);
    open_write(&mut vm, &Instruction::new(Opcode::OpenWrite, 0, 1, 0)).unwrap();

    let mut instr = Instruction::with_p4(Opcode::NewRowid, 0, 5, 0, P4::Str("t".to_string()));
    instr.p5 = 1;
    new_rowid(&mut vm, &instr).unwrap();
    assert_eq!(*vm.register(5).unwrap(), Value::Integer(1));

    new_rowid(&mut vm, &instr).unwrap();
    assert_eq!(*vm.register(5).unwrap(), Value::Integer(2));
}

#[test]
fn idx_insert_real_cursor_writes_an_index_entry_readable_by_index_cursor() {
    let mut vm = writable_vm(0x0a); // LEAF_INDEX
    let mut open_instr = Instruction::new(Opcode::OpenWrite, 0, 1, 0);
    open_instr.p5 = 1; // nonzero P5: open a real index write cursor
    open_write(&mut vm, &open_instr).unwrap();

    vm.set_register(0, Value::Integer(5)).unwrap();
    vm.set_register(1, Value::Text("x".to_string()))
        .unwrap();
    idx_insert(
        &mut vm,
        &Instruction::with_p4(Opcode::IdxInsert, 0, 0, 0, P4::Int(2)),
    )
    .unwrap();

    let values = vm.store.indexes[&1][0].clone();
    assert_eq!(
        values,
        vec![Value::Integer(5), Value::Text("x".to_string())]
    );
}

#[test]
fn idx_delete_real_cursor_removes_an_index_entry() {
    let mut vm = writable_vm(0x0a); // LEAF_INDEX
    let mut open_instr = Instruction::new(Opcode::OpenWrite, 0, 1, 0);
    open_instr.p5 = 1; // nonzero P5: open a real index write cursor
    open_write(&mut vm, &open_instr).unwrap();

    vm.set_register(0, Value::Integer(5)).unwrap();
    vm.set_register(1, Value::Text("x".to_string()))
        .unwrap();
    idx_insert(
        &mut vm,
        &Instruction::with_p4(Opcode::IdxInsert, 0, 0, 0, P4::Int(2)),
    )
    .unwrap();

    idx_delete(
        &mut vm,
        &Instruction::with_p4(Opcode::IdxDelete, 0, 0, 0, P4::Int(2)),
    )
    .unwrap();

    assert!(vm.store.indexes[&1].is_empty());
}

#[test]
fn no_conflict_falls_through_and_reports_the_rowid_when_the_key_already_exists() {
    let mut vm = writable_vm(0x0a); // LEAF_INDEX
    let mut open_instr = Instruction::new(Opcode::OpenWrite, 0, 1, 0);
    open_instr.p5 = 1; // nonzero P5: open a real index write cursor
    open_write(&mut vm, &open_instr).unwrap();

    vm.set_register(0, Value::Text("v1".to_string()))
        .unwrap();
    vm.set_register(1, Value::Integer(42)).unwrap();
    idx_insert(
        &mut vm,
        &Instruction::with_p4(Opcode::IdxInsert, 0, 0, 0, P4::Int(2)),
    )
    .unwrap();

    vm.set_register(5, Value::Text("v1".to_string()))
        .unwrap();
    let step = no_conflict(
        &mut vm,
        &Instruction::with_p4(Opcode::NoConflict, 0, 999, 5, P4::Int(1)),
    )
    .unwrap();
    assert_eq!(step, Step::Next, "a matching entry must not jump");
    assert_eq!(*vm.register(6).unwrap(), Value::Integer(42));
}

#[test]
fn no_conflict_jumps_to_p2_when_no_matching_key_exists() {
    let mut vm = writable_vm(0x0a); // LEAF_INDEX
    let mut open_instr = Instruction::new(Opcode::OpenWrite, 0, 1, 0);
    open_instr.p5 = 1;
    open_write(&mut vm, &open_instr).unwrap();

    vm.set_register(0, Value::Text("v1".to_string()))
        .unwrap();
    vm.set_register(1, Value::Integer(42)).unwrap();
    idx_insert(
        &mut vm,
        &Instruction::with_p4(Opcode::IdxInsert, 0, 0, 0, P4::Int(2)),
    )
    .unwrap();

    vm.set_register(5, Value::Text("v2".to_string()))
        .unwrap();
    let step = no_conflict(
        &mut vm,
        &Instruction::with_p4(Opcode::NoConflict, 0, 999, 5, P4::Int(1)),
    )
    .unwrap();
    assert_eq!(step, Step::Jump(999));
}

#[test]
fn idx_delete_ephemeral_cursor_removes_the_entry() {
    let mut vm = writable_vm(0x0d);
    open_ephemeral(&mut vm, &Instruction::new(Opcode::OpenEphemeral, 0, 0, 0)).unwrap();

    vm.set_register(0, Value::Integer(5)).unwrap();
    idx_insert(
        &mut vm,
        &Instruction::with_p4(Opcode::IdxInsert, 0, 0, 0, P4::Int(1)),
    )
    .unwrap();
    let found_step = found(
        &mut vm,
        &Instruction::with_p4(Opcode::Found, 0, 999, 0, P4::Int(1)),
    )
    .unwrap();
    assert_eq!(found_step, Step::Jump(999));

    idx_delete(
        &mut vm,
        &Instruction::with_p4(Opcode::IdxDelete, 0, 0, 0, P4::Int(1)),
    )
    .unwrap();

    let step = found(
        &mut vm,
        &Instruction::with_p4(Opcode::Found, 0, 999, 0, P4::Int(1)),
    )
    .unwrap();
    assert_eq!(step, Step::Next);
}


#[test]
fn cursor_slot_type_name_reports_every_variant() {
    assert_eq!(
        CursorSlot::IndexWrite { root_page: 1 }.kind(),
        "index write cursor"
    );
    assert_eq!(
        CursorSlot::Pseudo { register: 0 }.kind(),
        "pseudo cursor"
    );
}

#[test]
fn last_positions_at_the_highest_rowid_and_jumps_when_empty() {
    let mut vm = open_vm("table_multipage.db");
    open_read(&mut vm, &Instruction::new(Opcode::OpenRead, 0, 2, 0)).unwrap();
    let step = last(&mut vm, &Instruction::new(Opcode::Last, 0, 999, 0)).unwrap();
    assert_eq!(step, Step::Next);
    rowid(&mut vm, &Instruction::new(Opcode::Rowid, 0, 10, 0)).unwrap();
    assert_eq!(*vm.register(10).unwrap(), Value::Integer(3000));
}

#[test]
fn last_jumps_to_p2_on_an_empty_table() {
    let mut vm = writable_vm(0x0d);
    open_write(&mut vm, &Instruction::new(Opcode::OpenWrite, 0, 1, 0)).unwrap();
    let step = last(&mut vm, &Instruction::new(Opcode::Last, 0, 999, 0)).unwrap();
    assert_eq!(step, Step::Jump(999));
}

#[test]
fn ephemeral_type_mismatch_errors_instead_of_panicking() {
    let mut vm = open_vm("table_multipage.db");
    open_read(&mut vm, &Instruction::new(Opcode::OpenRead, 0, 2, 0)).unwrap();
    let err = sequence(&mut vm, &Instruction::new(Opcode::Sequence, 0, 5, 0)).unwrap_err();
    assert!(matches!(err, ExecError::CursorTypeMismatch { .. }));
}

#[test]
fn p4_count_rejects_a_negative_int_and_a_non_int_p4() {
    let mut vm = Db::new();
    open_ephemeral(&mut vm, &Instruction::new(Opcode::OpenEphemeral, 0, 0, 0)).unwrap();
    let err = found(
        &mut vm,
        &Instruction::with_p4(Opcode::Found, 0, 99, 0, P4::Int(-1)),
    )
    .unwrap_err();
    assert!(matches!(err, ExecError::MalformedInstruction { .. }));

    let err = found(
        &mut vm,
        &Instruction::with_p4(Opcode::Found, 0, 99, 0, P4::Bool(true)),
    )
    .unwrap_err();
    assert!(matches!(err, ExecError::MalformedInstruction { .. }));
}

#[test]
fn column_reads_through_an_open_pseudo_cursor() {
    let mut vm = Db::new();
    vm.set_register(3, Value::Integer(7)).unwrap();
    vm.set_register(4, Value::Text("hi".to_string()))
        .unwrap();
    make_record(&mut vm, &Instruction::new(Opcode::MakeRecord, 3, 2, 5))
        .unwrap();
    open_pseudo(&mut vm, &Instruction::new(Opcode::OpenPseudo, 0, 5, 0)).unwrap();
    column(&mut vm, &Instruction::new(Opcode::Column, 0, 0, 10)).unwrap();
    column(&mut vm, &Instruction::new(Opcode::Column, 0, 1, 11)).unwrap();
    assert_eq!(*vm.register(10).unwrap(), Value::Integer(7));
    assert_eq!(
        *vm.register(11).unwrap(),
        Value::Text("hi".to_string())
    );
}

#[test]
fn column_on_pseudo_cursor_with_non_blob_register_errors() {
    let mut vm = Db::new();
    vm.set_register(5, Value::Integer(1)).unwrap();
    open_pseudo(&mut vm, &Instruction::new(Opcode::OpenPseudo, 0, 5, 0)).unwrap();
    let err = column(&mut vm, &Instruction::new(Opcode::Column, 0, 0, 10)).unwrap_err();
    assert!(matches!(err, ExecError::MalformedInstruction { .. }));
}

#[test]
fn repeated_column_reads_on_the_same_row_reuse_the_header_cache() {
    let mut vm = open_vm("table_multipage.db");
    open_read(&mut vm, &Instruction::new(Opcode::OpenRead, 0, 2, 0)).unwrap();
    rewind(&mut vm, &Instruction::new(Opcode::Rewind, 0, 999, 0)).unwrap();

    column(&mut vm, &Instruction::new(Opcode::Column, 0, 1, 10)).unwrap();
    column(&mut vm, &Instruction::new(Opcode::Column, 0, 0, 11)).unwrap();
    column(&mut vm, &Instruction::new(Opcode::Column, 0, 1, 12)).unwrap();
    column(&mut vm, &Instruction::new(Opcode::Column, 0, 0, 13)).unwrap();

    assert_eq!(*vm.register(11).unwrap(), Value::Integer(1));
    assert_eq!(*vm.register(13).unwrap(), Value::Integer(1));
    assert_eq!(
        *vm.register(10).unwrap(),
        Value::Text("row number 1".to_string())
    );
    assert_eq!(vm.register(10).unwrap(), vm.register(12).unwrap());
}

#[test]
fn next_invalidates_the_header_cache_so_column_reads_the_new_row() {
    let mut vm = open_vm("table_multipage.db");
    open_read(&mut vm, &Instruction::new(Opcode::OpenRead, 0, 2, 0)).unwrap();
    rewind(&mut vm, &Instruction::new(Opcode::Rewind, 0, 999, 0)).unwrap();

    column(&mut vm, &Instruction::new(Opcode::Column, 0, 0, 10)).unwrap();
    next(&mut vm, &Instruction::new(Opcode::Next, 0, 1, 0)).unwrap();
    column(&mut vm, &Instruction::new(Opcode::Column, 0, 0, 11)).unwrap();
    column(&mut vm, &Instruction::new(Opcode::Column, 0, 1, 12)).unwrap();

    assert_eq!(*vm.register(10).unwrap(), Value::Integer(1));
    assert_eq!(*vm.register(11).unwrap(), Value::Integer(2));
    assert_eq!(
        *vm.register(12).unwrap(),
        Value::Text("row number 2".to_string())
    );
}

#[test]
fn seek_rowid_invalidates_the_header_cache() {
    let mut vm = open_vm("table_multipage.db");
    open_read(&mut vm, &Instruction::new(Opcode::OpenRead, 0, 2, 0)).unwrap();
    rewind(&mut vm, &Instruction::new(Opcode::Rewind, 0, 999, 0)).unwrap();
    column(&mut vm, &Instruction::new(Opcode::Column, 0, 1, 10)).unwrap();

    vm.set_register(5, Value::Integer(1500)).unwrap();
    seek_rowid(&mut vm, &Instruction::new(Opcode::SeekRowid, 0, 42, 5)).unwrap();
    column(&mut vm, &Instruction::new(Opcode::Column, 0, 1, 11)).unwrap();

    assert_eq!(
        *vm.register(11).unwrap(),
        Value::Text("row number 1500".to_string())
    );
}

#[test]
fn column_on_a_cursor_with_no_current_row_errors() {
    let mut vm = open_vm("table_multipage.db");
    open_read(&mut vm, &Instruction::new(Opcode::OpenRead, 0, 2, 0)).unwrap();
    let err = column(&mut vm, &Instruction::new(Opcode::Column, 0, 0, 10)).unwrap_err();
    assert!(matches!(err, ExecError::MalformedInstruction { .. }));
}

#[test]
fn column_on_ephemeral_cursor_is_a_type_mismatch() {
    let mut vm = Db::new();
    open_ephemeral(&mut vm, &Instruction::new(Opcode::OpenEphemeral, 0, 0, 0)).unwrap();
    let err = column(&mut vm, &Instruction::new(Opcode::Column, 0, 0, 10)).unwrap_err();
    assert!(matches!(err, ExecError::CursorTypeMismatch { .. }));
}

#[test]
fn rowid_on_a_cursor_with_no_current_row_errors() {
    let mut vm = open_vm("table_multipage.db");
    open_read(&mut vm, &Instruction::new(Opcode::OpenRead, 0, 2, 0)).unwrap();
    let err = rowid(&mut vm, &Instruction::new(Opcode::Rowid, 0, 10, 0)).unwrap_err();
    assert!(matches!(err, ExecError::MalformedInstruction { .. }));
}

#[test]
fn seek_rowid_rejects_a_non_integer_target_register() {
    let mut vm = open_vm("table_multipage.db");
    open_read(&mut vm, &Instruction::new(Opcode::OpenRead, 0, 2, 0)).unwrap();
    vm.set_register(5, Value::Text("nope".to_string()))
        .unwrap();
    let err = seek_rowid(&mut vm, &Instruction::new(Opcode::SeekRowid, 0, 42, 5)).unwrap_err();
    assert!(matches!(err, ExecError::MalformedInstruction { .. }));
}

#[test]
fn insert_rejects_a_non_integer_rowid_register() {
    let mut vm = writable_vm(0x0d);
    open_write(&mut vm, &Instruction::new(Opcode::OpenWrite, 0, 1, 0)).unwrap();
    vm.set_register(0, Value::Text("nope".to_string()))
        .unwrap();
    vm.set_register(3, Value::Blob(vec![])).unwrap();
    let err = insert(&mut vm, &Instruction::new(Opcode::Insert, 0, 0, 3)).unwrap_err();
    assert!(matches!(err, ExecError::MalformedInstruction { .. }));
}

#[test]
fn insert_rejects_a_non_blob_record_register() {
    let mut vm = writable_vm(0x0d);
    open_write(&mut vm, &Instruction::new(Opcode::OpenWrite, 0, 1, 0)).unwrap();
    vm.set_register(0, Value::Integer(1)).unwrap();
    vm.set_register(3, Value::Integer(2)).unwrap();
    let err = insert(&mut vm, &Instruction::new(Opcode::Insert, 0, 0, 3)).unwrap_err();
    assert!(matches!(err, ExecError::MalformedInstruction { .. }));
}

#[test]
fn delete_on_a_table_cursor_with_no_current_row_errors() {
    let mut vm = writable_vm(0x0d);
    open_write(&mut vm, &Instruction::new(Opcode::OpenWrite, 0, 1, 0)).unwrap();
    let err = delete(&mut vm, &Instruction::new(Opcode::Delete, 0, 0, 0)).unwrap_err();
    assert!(matches!(err, ExecError::MalformedInstruction { .. }));
}

#[test]
fn delete_on_a_pseudo_cursor_is_a_type_mismatch() {
    let mut vm = Db::new();
    vm.set_register(0, Value::Integer(1)).unwrap();
    open_pseudo(&mut vm, &Instruction::new(Opcode::OpenPseudo, 0, 0, 0)).unwrap();
    let err = delete(&mut vm, &Instruction::new(Opcode::Delete, 0, 0, 0)).unwrap_err();
    assert!(matches!(err, ExecError::CursorTypeMismatch { .. }));
}

#[test]
fn idx_insert_on_a_pseudo_cursor_is_a_type_mismatch() {
    let mut vm = Db::new();
    vm.set_register(0, Value::Integer(1)).unwrap();
    open_pseudo(&mut vm, &Instruction::new(Opcode::OpenPseudo, 0, 0, 0)).unwrap();
    let err = idx_insert(
        &mut vm,
        &Instruction::with_p4(Opcode::IdxInsert, 0, 0, 0, P4::Int(1)),
    )
    .unwrap_err();
    assert!(matches!(err, ExecError::CursorTypeMismatch { .. }));
}

#[test]
fn idx_delete_on_a_pseudo_cursor_is_a_type_mismatch() {
    let mut vm = Db::new();
    vm.set_register(0, Value::Integer(1)).unwrap();
    open_pseudo(&mut vm, &Instruction::new(Opcode::OpenPseudo, 0, 0, 0)).unwrap();
    let err = idx_delete(
        &mut vm,
        &Instruction::with_p4(Opcode::IdxDelete, 0, 0, 0, P4::Int(1)),
    )
    .unwrap_err();
    assert!(matches!(err, ExecError::CursorTypeMismatch { .. }));
}

#[test]
fn idx_le_holds_vacuously_before_any_probe_and_tracks_the_last_key() {
    let mut vm = Db::new();
    open_ephemeral(&mut vm, &Instruction::new(Opcode::OpenEphemeral, 0, 0, 0)).unwrap();
    vm.set_register(0, Value::Integer(5)).unwrap();
    let step = idx_le(
        &mut vm,
        &Instruction::with_p4(Opcode::IdxLE, 0, 99, 0, P4::Int(1)),
    )
    .unwrap();
    assert_eq!(step, Step::Jump(99));

    idx_insert(
        &mut vm,
        &Instruction::with_p4(Opcode::IdxInsert, 0, 0, 0, P4::Int(1)),
    )
    .unwrap();

    vm.set_register(0, Value::Integer(10)).unwrap();
    let step = idx_le(
        &mut vm,
        &Instruction::with_p4(Opcode::IdxLE, 0, 99, 0, P4::Int(1)),
    )
    .unwrap();
    assert_eq!(step, Step::Jump(99));

    vm.set_register(0, Value::Integer(2)).unwrap();
    let step = idx_le(
        &mut vm,
        &Instruction::with_p4(Opcode::IdxLE, 0, 99, 0, P4::Int(1)),
    )
    .unwrap();
    assert_eq!(step, Step::Next);
}

#[test]
fn new_rowid_autoincrement_rejects_a_non_str_p4() {
    let mut vm = writable_vm(0x0d);
    open_write(&mut vm, &Instruction::new(Opcode::OpenWrite, 0, 1, 0)).unwrap();
    let mut instr = Instruction::new(Opcode::NewRowid, 0, 5, 0);
    instr.p5 = 1;
    let err = new_rowid(&mut vm, &instr).unwrap_err();
    assert!(matches!(err, ExecError::MalformedInstruction { .. }));
}

#[test]
fn create_table_then_drop_table_round_trip_through_sqlite_master() {
    let mut vm = writable_vm(0x0d);
    create_table(
        &mut vm,
        &Instruction::with_p4(
            Opcode::CreateTable,
            0,
            0,
            0,
            P4::CreateTable {
                name: "t".to_string(),
                sql: "CREATE TABLE t (a)".to_string(),
            },
        ),
    )
    .unwrap();

    open_read(&mut vm, &Instruction::new(Opcode::OpenRead, 1, 1, 0)).unwrap();
    rewind(&mut vm, &Instruction::new(Opcode::Rewind, 1, 999, 0)).unwrap();
    column(&mut vm, &Instruction::new(Opcode::Column, 1, 0, 20)).unwrap();
    column(&mut vm, &Instruction::new(Opcode::Column, 1, 1, 21)).unwrap();
    column(&mut vm, &Instruction::new(Opcode::Column, 1, 3, 22)).unwrap();
    assert_eq!(
        *vm.register(20).unwrap(),
        Value::Text("table".to_string())
    );
    assert_eq!(
        *vm.register(21).unwrap(),
        Value::Text("t".to_string())
    );
    let root_page = match vm.register(22).unwrap() {
        Value::Integer(n) => u32::try_from(*n).unwrap(),
        other => panic!("expected integer rootpage, got {other:?}"),
    };

    drop_table(
        &mut vm,
        &Instruction::with_p4(
            Opcode::DropTable,
            0,
            0,
            0,
            P4::DropTable {
                name: "t".to_string(),
                root_page,
                indexes: vec![],
            },
        ),
    )
    .unwrap();

    let step = rewind(&mut vm, &Instruction::new(Opcode::Rewind, 1, 999, 0)).unwrap();
    assert_eq!(step, Step::Jump(999));
}

#[test]
fn create_index_then_drop_index_round_trip_through_sqlite_master() {
    let mut vm = writable_vm(0x0d);
    create_table(
        &mut vm,
        &Instruction::with_p4(
            Opcode::CreateTable,
            0,
            0,
            0,
            P4::CreateTable {
                name: "t".to_string(),
                sql: "CREATE TABLE t (a)".to_string(),
            },
        ),
    )
    .unwrap();
    open_read(&mut vm, &Instruction::new(Opcode::OpenRead, 1, 1, 0)).unwrap();
    rewind(&mut vm, &Instruction::new(Opcode::Rewind, 1, 999, 0)).unwrap();
    column(&mut vm, &Instruction::new(Opcode::Column, 1, 3, 22)).unwrap();
    let table_root = match vm.register(22).unwrap() {
        Value::Integer(n) => u32::try_from(*n).unwrap(),
        other => panic!("expected integer rootpage, got {other:?}"),
    };

    create_index(
        &mut vm,
        &Instruction::with_p4(
            Opcode::CreateIndex,
            0,
            0,
            0,
            P4::CreateIndex {
                name: "idx".to_string(),
                table_name: "t".to_string(),
                table_root_page: table_root,
                sql: "CREATE INDEX idx ON t (a)".to_string(),
                column_indices: vec![0],
                unique: false,
            },
        ),
    )
    .unwrap();

    let mut names = Vec::new();
    let step = rewind(&mut vm, &Instruction::new(Opcode::Rewind, 1, 999, 0)).unwrap();
    assert_eq!(step, Step::Next);
    let mut index_root_for_drop = None;
    loop {
        column(&mut vm, &Instruction::new(Opcode::Column, 1, 0, 30)).unwrap();
        column(&mut vm, &Instruction::new(Opcode::Column, 1, 1, 31)).unwrap();
        column(&mut vm, &Instruction::new(Opcode::Column, 1, 3, 32)).unwrap();
        names.push((
            vm.register(30).unwrap().clone(),
            vm.register(31).unwrap().clone(),
        ));
        if vm.register(30).unwrap() == &Value::Text("index".to_string()) {
            if let Value::Integer(n) = vm.register(32).unwrap() {
                index_root_for_drop = Some(u32::try_from(*n).unwrap());
            }
        }
        match next(&mut vm, &Instruction::new(Opcode::Next, 1, 1, 0)).unwrap() {
            Step::Jump(1) => continue,
            Step::Next => break,
            other => panic!("unexpected step {other:?}"),
        }
    }
    assert_eq!(
        names,
        vec![
            (
                Value::Text("table".to_string()),
                Value::Text("t".to_string())
            ),
            (
                Value::Text("index".to_string()),
                Value::Text("idx".to_string())
            ),
        ]
    );

    drop_index(
        &mut vm,
        &Instruction::with_p4(
            Opcode::DropIndex,
            0,
            0,
            0,
            P4::DropIndex {
                name: "idx".to_string(),
                root_page: index_root_for_drop.unwrap(),
            },
        ),
    )
    .unwrap();

    let mut remaining = Vec::new();
    let step = rewind(&mut vm, &Instruction::new(Opcode::Rewind, 1, 999, 0)).unwrap();
    assert_eq!(step, Step::Next);
    loop {
        column(&mut vm, &Instruction::new(Opcode::Column, 1, 1, 40)).unwrap();
        remaining.push(vm.register(40).unwrap().clone());
        match next(&mut vm, &Instruction::new(Opcode::Next, 1, 1, 0)).unwrap() {
            Step::Jump(1) => continue,
            Step::Next => break,
            other => panic!("unexpected step {other:?}"),
        }
    }
    assert_eq!(remaining, vec![Value::Text("t".to_string())]);
}

#[test]
fn create_table_rejects_a_mismatched_p4() {
    let mut vm = writable_vm(0x0d);
    let err =
        create_table(&mut vm, &Instruction::new(Opcode::CreateTable, 0, 0, 0)).unwrap_err();
    assert!(matches!(err, ExecError::MalformedInstruction { .. }));
}

#[test]
fn drop_table_rejects_a_mismatched_p4() {
    let mut vm = writable_vm(0x0d);
    let err = drop_table(&mut vm, &Instruction::new(Opcode::DropTable, 0, 0, 0)).unwrap_err();
    assert!(matches!(err, ExecError::MalformedInstruction { .. }));
}

#[test]
fn create_index_rejects_a_mismatched_p4() {
    let mut vm = writable_vm(0x0d);
    let err =
        create_index(&mut vm, &Instruction::new(Opcode::CreateIndex, 0, 0, 0)).unwrap_err();
    assert!(matches!(err, ExecError::MalformedInstruction { .. }));
}

#[test]
fn drop_index_rejects_a_mismatched_p4() {
    let mut vm = writable_vm(0x0d);
    let err = drop_index(&mut vm, &Instruction::new(Opcode::DropIndex, 0, 0, 0)).unwrap_err();
    assert!(matches!(err, ExecError::MalformedInstruction { .. }));
}

fn open_ephemeral_table(vm: &mut Db, cursor: i32) {
    open_ephemeral(
        vm,
        &Instruction {
            opcode: Opcode::OpenEphemeral,
            p1: cursor,
            p2: 0,
            p3: 0,
            p4: P4::Absent,
            p5: 1,
        },
    )
    .unwrap();
}

fn insert_ephemeral_row(vm: &mut Db, cursor: i32, rowid: i64, values: &[Value]) {
    for (i, v) in values.iter().enumerate() {
        vm.set_register(20i32.saturating_add(i as i32), v.clone())
            .unwrap();
    }
    make_record(
        vm,
        &Instruction::new(Opcode::MakeRecord, 20, values.len() as i32, 30),
    )
    .unwrap();
    vm.set_register(31, Value::Integer(rowid)).unwrap();
    insert(vm, &Instruction::new(Opcode::Insert, cursor, 31, 30)).unwrap();
}

#[test]
fn ephemeral_table_insert_errors_once_row_limit_exceeded() {
    let mut vm = Db::new();
    open_ephemeral_table(&mut vm, 0);
    for i in 0..MAX_EPHEMERAL_ROWS as i64 {
        insert_ephemeral_row(&mut vm, 0, i + 1, &[Value::Integer(i)]);
    }
    for (i, v) in [Value::Integer(999)].iter().enumerate() {
        vm.set_register(20i32.saturating_add(i as i32), v.clone())
            .unwrap();
    }
    make_record(&mut vm, &Instruction::new(Opcode::MakeRecord, 20, 1, 30))
        .unwrap();
    vm.set_register(31, Value::Integer(MAX_EPHEMERAL_ROWS as i64 + 1))
        .unwrap();
    let err = insert(&mut vm, &Instruction::new(Opcode::Insert, 0, 31, 30)).unwrap_err();
    assert!(matches!(
        err,
        ExecError::EphemeralRowLimitExceeded {
            opcode: "Insert",
            limit
        } if limit == MAX_EPHEMERAL_ROWS
    ));
}

#[test]
fn ephemeral_index_insert_errors_once_row_limit_exceeded() {
    let mut vm = Db::new();
    open_ephemeral(&mut vm, &Instruction::new(Opcode::OpenEphemeral, 0, 0, 0)).unwrap();
    for i in 0..MAX_EPHEMERAL_ROWS as i64 {
        vm.set_register(20, Value::Integer(i)).unwrap();
        idx_insert(
            &mut vm,
            &Instruction::with_p4(Opcode::IdxInsert, 0, 20, 0, P4::Int(1)),
        )
        .unwrap();
    }
    vm.set_register(20, Value::Integer(MAX_EPHEMERAL_ROWS as i64))
        .unwrap();
    let err = idx_insert(
        &mut vm,
        &Instruction::with_p4(Opcode::IdxInsert, 0, 20, 0, P4::Int(1)),
    )
    .unwrap_err();
    assert!(matches!(
        err,
        ExecError::EphemeralRowLimitExceeded {
            opcode: "IdxInsert",
            limit
        } if limit == MAX_EPHEMERAL_ROWS
    ));
}

#[test]
fn ephemeral_table_rewind_on_empty_cursor_jumps_to_p2() {
    let mut vm = Db::new();
    open_ephemeral_table(&mut vm, 0);
    let step = rewind(&mut vm, &Instruction::new(Opcode::Rewind, 0, 99, 0)).unwrap();
    assert_eq!(step, Step::Jump(99));
}

#[test]
fn ephemeral_table_insert_then_full_scan_reads_rows_in_order() {
    let mut vm = Db::new();
    open_ephemeral_table(&mut vm, 0);
    insert_ephemeral_row(&mut vm, 0, 1, &[Value::Integer(10)]);
    insert_ephemeral_row(&mut vm, 0, 2, &[Value::Integer(20)]);
    insert_ephemeral_row(&mut vm, 0, 3, &[Value::Integer(30)]);

    let step = rewind(&mut vm, &Instruction::new(Opcode::Rewind, 0, 99, 0)).unwrap();
    assert_eq!(step, Step::Next);

    let mut seen = Vec::new();
    loop {
        rowid(&mut vm, &Instruction::new(Opcode::Rowid, 0, 10, 0)).unwrap();
        column(&mut vm, &Instruction::new(Opcode::Column, 0, 0, 11)).unwrap();
        seen.push((
            vm.register(10).unwrap().clone(),
            vm.register(11).unwrap().clone(),
        ));
        match next(&mut vm, &Instruction::new(Opcode::Next, 0, 1, 0)).unwrap() {
            Step::Jump(1) => continue,
            Step::Next => break,
            other => panic!("unexpected step {other:?}"),
        }
    }

    assert_eq!(
        seen,
        vec![
            (Value::Integer(1), Value::Integer(10)),
            (Value::Integer(2), Value::Integer(20)),
            (Value::Integer(3), Value::Integer(30)),
        ]
    );
}

#[test]
fn ephemeral_table_insert_decodes_using_database_text_encoding() {
    let mut vm = Db { vm: Vm::with_db(TextEncoding::Utf16Le), store: Store::default() };
    open_ephemeral_table(&mut vm, 0);

    let payload = encode_record(&[Value::Text("héllo".to_string())], TextEncoding::Utf16Le);
    vm.set_register(30, Value::Blob(payload)).unwrap();
    vm.set_register(31, Value::Integer(1)).unwrap();
    insert(&mut vm, &Instruction::new(Opcode::Insert, 0, 31, 30)).unwrap();

    rewind(&mut vm, &Instruction::new(Opcode::Rewind, 0, 99, 0)).unwrap();
    column(&mut vm, &Instruction::new(Opcode::Column, 0, 0, 11)).unwrap();
    assert_eq!(*vm.register(11).unwrap(), Value::Text("héllo".to_string()));
}

#[test]
fn ephemeral_table_last_positions_on_the_final_row() {
    let mut vm = Db::new();
    open_ephemeral_table(&mut vm, 0);
    insert_ephemeral_row(&mut vm, 0, 1, &[Value::Integer(10)]);
    insert_ephemeral_row(&mut vm, 0, 2, &[Value::Integer(20)]);

    let step = last(&mut vm, &Instruction::new(Opcode::Last, 0, 99, 0)).unwrap();
    assert_eq!(step, Step::Next);
    rowid(&mut vm, &Instruction::new(Opcode::Rowid, 0, 10, 0)).unwrap();
    assert_eq!(*vm.register(10).unwrap(), Value::Integer(2));
}

#[test]
fn ephemeral_table_index_mode_default_still_rejects_rewind() {
    let mut vm = Db::new();
    open_ephemeral(&mut vm, &Instruction::new(Opcode::OpenEphemeral, 0, 0, 0)).unwrap();
    let err = rewind(&mut vm, &Instruction::new(Opcode::Rewind, 0, 99, 0)).unwrap_err();
    assert!(matches!(err, ExecError::CursorTypeMismatch { .. }));
}

#[test]
fn ephemeral_table_rowid_with_no_current_row_errors() {
    let mut vm = Db::new();
    open_ephemeral_table(&mut vm, 0);
    let err = rowid(&mut vm, &Instruction::new(Opcode::Rowid, 0, 10, 0)).unwrap_err();
    assert!(matches!(err, ExecError::MalformedInstruction { .. }));
}

#[test]
fn instruction_carries_typed_p4_variant() {
    let ge = Instruction::with_p4(
        Opcode::Ge,
        1,
        2,
        3,
        P4::CollSeq {
            collation: Collation::Binary,
            affinity: 8,
        },
    );
    assert!(matches!(ge.p4, P4::CollSeq { .. }));
}

#[test]
fn program_indexes_instructions_from_zero() {
    let program = Program::new(vec![
        Instruction::new(Opcode::Init, 0, 1, 0),
        Instruction::new(Opcode::Halt, 0, 0, 0),
    ]);
    assert_eq!(program.get(0).unwrap().opcode, Opcode::Init);
    assert_eq!(program.get(1).unwrap().opcode, Opcode::Halt);
    assert!(program.get(2).is_none());
}

fn op(opcode: Opcode, p1: i32, p2: i32, p3: i32) -> Instruction {
    Instruction::new(opcode, p1, p2, p3)
}

fn op4(opcode: Opcode, p1: i32, p2: i32, p3: i32, p4: P4) -> Instruction {
    Instruction::with_p4(opcode, p1, p2, p3, p4)
}

#[test]
fn limit_counter_jumps_out_on_the_last_row_only() {
    let mut vm = vm_with(vec![Value::Integer(3)]);
    let instr = op(Opcode::DecrJumpZero, 0, 10, 0);
    assert_eq!(decr_jump_zero(&mut vm, &instr).unwrap(), Step::Next);
    assert_eq!(decr_jump_zero(&mut vm, &instr).unwrap(), Step::Next);
    assert_eq!(decr_jump_zero(&mut vm, &instr).unwrap(), Step::Jump(10));
    assert_eq!(decr_jump_zero(&mut vm, &instr).unwrap(), Step::Next);
}

#[test]
fn a_program_with_a_limit_puts_out_that_many_rows() {
    let program = Program::new(vec![
        op(Opcode::Integer, 3, 0, 0),
        op(Opcode::Integer, 7, 1, 0),
        op(Opcode::ResultRow, 1, 1, 0),
        op(Opcode::DecrJumpZero, 0, 5, 0),
        op(Opcode::Goto, 0, 2, 0),
        op(Opcode::Halt, 0, 0, 0),
    ]);
    assert_eq!(execute(&program).unwrap(), vec![vec![Value::Integer(7)]; 3]);
}

#[test]
fn an_endless_program_is_stopped() {
    let program = Program::new(vec![op(Opcode::Goto, 0, 0, 0)]);
    assert_eq!(execute(&program).unwrap_err(), ExecError::StepLimitExceeded);
    assert_eq!(
        ExecError::StepLimitExceeded.describe(),
        "program exceeded the maximum step count (1000000) without halting"
    );
}

#[test]
fn a_halt_with_a_message_is_reported_with_it() {
    let program = Program::new(vec![op4(
        Opcode::Halt,
        19,
        0,
        0,
        P4::Str("UNIQUE constraint failed".to_string()),
    )]);
    assert_eq!(
        execute(&program).unwrap_err().describe(),
        "statement halted with SQLite result code 19: UNIQUE constraint failed"
    );
}

#[test]
fn counters_saturate_and_offsets_below_zero_count_as_none() {
    let mut vm = vm_with(vec![Value::Integer(i64::MAX), Value::Null, Value::Integer(5)]);
    offset_limit(&mut vm, &op(Opcode::OffsetLimit, 0, 1, 2)).unwrap();
    assert_eq!(*vm.register(1).unwrap(), Value::Integer(i64::MAX));
    let mut vm = vm_with(vec![Value::Integer(4), Value::Null, Value::Integer(-5)]);
    offset_limit(&mut vm, &op(Opcode::OffsetLimit, 0, 1, 2)).unwrap();
    assert_eq!(*vm.register(1).unwrap(), Value::Integer(4));
}

#[test]
fn if_pos_and_if_not_zero_count_down() {
    let mut vm = vm_with(vec![Value::Integer(2)]);
    assert_eq!(if_pos(&mut vm, &op(Opcode::IfPos, 0, 9, 1)).unwrap(), Step::Jump(9));
    assert_eq!(if_pos(&mut vm, &op(Opcode::IfPos, 0, 9, 1)).unwrap(), Step::Jump(9));
    assert_eq!(if_pos(&mut vm, &op(Opcode::IfPos, 0, 9, 1)).unwrap(), Step::Next);
    vm.set_register(0, Value::Integer(-1)).unwrap();
    let instr = op(Opcode::IfNotZero, 0, 9, 0);
    assert_eq!(if_not_zero(&mut vm, &instr).unwrap(), Step::Jump(9));
    assert_eq!(*vm.register(0).unwrap(), Value::Integer(-1));
    vm.set_register(0, Value::Text("x".to_string())).unwrap();
    assert_eq!(
        if_not_zero(&mut vm, &instr).unwrap_err(),
        ExecError::TypeMismatch {
            opcode: "control counter",
            found: "TEXT",
        }
    );
}

#[test]
fn if_not_reads_text_as_a_number() {
    for (value, falsy) in [
        (Value::Text("0.0".to_string()), true),
        (Value::Text("0.5".to_string()), false),
        (Value::Text("1e-400".to_string()), true),
        (Value::Text("-0".to_string()), true),
        (Value::Text("3 apples".to_string()), false),
        (Value::Blob(vec![1]), true),
        (float(-0.0), true),
        (float(f64::NAN), false),
    ] {
        let mut vm = vm_with(vec![value.clone()]);
        let step = if_not(&mut vm, &op(Opcode::IfNot, 0, 5, 0)).unwrap();
        let wanted = if falsy { Step::Jump(5) } else { Step::Next };
        assert_eq!(step, wanted, "IfNot {value:?}");
        not(&mut vm, &op(Opcode::Not, 0, 1, 0)).unwrap();
        assert_eq!(*vm.register(1).unwrap(), Value::Integer(i64::from(falsy)));
    }
    let mut vm = vm_with(vec![Value::Null]);
    assert_eq!(if_not(&mut vm, &op(Opcode::IfNot, 0, 5, 0)).unwrap(), Step::Next);
    assert_eq!(if_not(&mut vm, &op(Opcode::IfNot, 0, 5, 1)).unwrap(), Step::Jump(5));
}

#[test]
fn must_be_int_converts_without_loss_only() {
    for (value, wanted) in [
        (float(3.0), Some(3)),
        (float(-9223372036854775808.0), Some(i64::MIN)),
        (float(9223372036854775808.0), None),
        (float(0.5), None),
        (float(f64::NAN), None),
        (Value::Text(" +12 ".to_string()), Some(12)),
        (Value::Text("12.0".to_string()), None),
        (Value::Text("9223372036854775808".to_string()), None),
        (Value::Null, None),
    ] {
        let mut vm = vm_with(vec![value.clone()]);
        let step = must_be_int(&mut vm, &op(Opcode::MustBeInt, 0, 7, 0)).unwrap();
        match wanted {
            Some(n) => {
                assert_eq!(step, Step::Next, "{value:?}");
                assert_eq!(*vm.register(0).unwrap(), Value::Integer(n));
            }
            None => assert_eq!(step, Step::Jump(7), "{value:?}"),
        }
    }
}

#[test]
fn arithmetic_reads_text_and_promotes_to_real() {
    for (opcode, a, b, wanted) in [
        (Opcode::Add, Value::Text("1.5x".to_string()), Value::Integer(2), float(3.5)),
        (Opcode::Subtract, Value::Integer(1), float(0.5), float(-0.5)),
        (
            Opcode::Multiply,
            Value::Text("1e1".to_string()),
            Value::Text(".5".to_string()),
            float(5.0),
        ),
        (Opcode::Divide, Value::Integer(2), Value::Integer(7), Value::Integer(3)),
        (Opcode::Divide, Value::Integer(-2), Value::Integer(7), Value::Integer(-3)),
        (Opcode::Divide, Value::Text("0.0".to_string()), Value::Integer(7), Value::Null),
        (Opcode::Divide, float(0.0), Value::Integer(7), Value::Null),
        (Opcode::Divide, Value::Integer(-1), Value::Integer(i64::MIN), float(9223372036854775808.0)),
        (Opcode::Remainder, Value::Integer(4), Value::Integer(-7), Value::Integer(-3)),
        (Opcode::Remainder, Value::Integer(0), Value::Integer(7), Value::Null),
        (Opcode::Add, Value::Blob(vec![9]), Value::Integer(2), Value::Integer(2)),
    ] {
        let mut vm = vm_with(vec![a.clone(), b.clone()]);
        let run: Op = |vm, i| exec::dispatch(vm, 0, i);
        perform(&mut vm, run, &op(opcode, 0, 1, 2)).unwrap();
        assert_eq!(*vm.register(2).unwrap(), wanted, "{opcode:?} {a:?} {b:?}");
    }
}

#[test]
fn a_wrong_reply_is_an_error() {
    let mut vm = vm_with(vec![float(1.0), float(2.0)]);
    let instr = op(Opcode::Add, 0, 1, 2);
    let Step::Await(request) = arithmetic::add(&mut vm, &instr).unwrap() else {
        panic!("expected a request");
    };
    let err = resume(&mut vm, &instr, request.clone(), Reply::Done).unwrap_err();
    assert_eq!(err, ExecError::UnexpectedReply { opcode: "Add" });
    let err = resume(&mut vm, &instr, request, Reply::Failed("broken".to_string())).unwrap_err();
    assert_eq!(err.describe(), "Add: malformed instruction (broken)");
}

#[test]
fn unimplemented_opcodes_are_reported() {
    for opcode in [Opcode::BitAnd, Opcode::Concat, Opcode::Cast, Opcode::AggStep] {
        let program = Program::new(vec![op(opcode, 0, 0, 0)]);
        assert_eq!(
            execute(&program).unwrap_err(),
            ExecError::Unimplemented { opcode }
        );
    }
    assert_eq!(
        ExecError::Unimplemented {
            opcode: Opcode::Cast
        }
        .describe(),
        "opcode Cast is not yet implemented by this VM"
    );
}

#[test]
fn all_lists_each_opcode_once() {
    assert_eq!(Opcode::ALL.len(), 65);
    for (i, a) in Opcode::ALL.iter().enumerate() {
        assert!(!Opcode::ALL[i + 1..].contains(a), "{a:?} twice");
    }
    for later in [
        Opcode::OpenWrite,
        Opcode::Insert,
        Opcode::NewRowid,
        Opcode::IdxDelete,
        Opcode::NoConflict,
        Opcode::SeekIndexEq,
        Opcode::IdxRowid,
        Opcode::IdxRewind,
        Opcode::IdxLast,
        Opcode::IdxNext,
        Opcode::IdxPrev,
        Opcode::CreateTable,
        Opcode::CreateView,
        Opcode::DropTable,
        Opcode::CreateIndex,
        Opcode::DropIndex,
        Opcode::AggStep,
        Opcode::AggFinal,
        Opcode::Copy,
    ] {
        assert!(!Opcode::ALL.contains(&later), "{later:?}");
    }
}

#[test]
fn functions_are_called_by_their_descriptor() {
    let mut vm = vm_with(vec![Value::Integer(-5), Value::Null]);
    function(&mut vm, &op4(Opcode::Function, 0, 0, 1, P4::Str("abs(1)".to_string()))).unwrap();
    assert_eq!(*vm.register(1).unwrap(), Value::Integer(5));
    let err = function(&mut vm, &op4(Opcode::Function, 0, 0, 1, P4::Str("nope(0)".to_string())))
        .unwrap_err();
    assert_eq!(
        err.describe(),
        "Function: malformed instruction (no such function: nope)"
    );
    let err =
        function(&mut vm, &op4(Opcode::Function, 0, 0, 1, P4::Str("abs".to_string()))).unwrap_err();
    assert_eq!(
        err.describe(),
        "Function: malformed instruction (malformed function descriptor \"abs\")"
    );
    let err = function(&mut vm, &op4(Opcode::Function, 0, 0, 1, P4::Int(3))).unwrap_err();
    assert_eq!(
        err.describe(),
        "Function: malformed instruction (expected a \"name(arity)\" string P4, got Int(3))"
    );
}

#[test]
fn function_descriptors_are_taken_apart() {
    assert_eq!(
        parse_function_descriptor("like(2)"),
        Some(("like".to_string(), 2))
    );
    assert_eq!(parse_function_descriptor("f(+3)"), Some(("f".to_string(), 3)));
    for bad in ["", "f", "f(", "f)", "f()", "f(-1)", "f(x)", "f(1) ", "f(99999999999999999999)"] {
        assert_eq!(parse_function_descriptor(bad), None, "{bad}");
    }
}

#[test]
fn register_ranges_stop_at_the_last_register() {
    let mut vm = Db::new();
    let err = result_row(&mut vm, &op(Opcode::ResultRow, 1_048_576, 2, 0)).unwrap_err();
    assert_eq!(
        err,
        ExecError::RegisterOutOfRange {
            opcode: "register read",
            index: 1_048_577,
        }
    );
    assert_eq!(
        err.describe(),
        "register read: register index 1048577 is out of range"
    );
    assert!(vm.set_register(1_048_576, Value::Integer(1)).is_ok());
    assert!(vm.set_register(1_048_577, Value::Integer(1)).is_err());
    assert!(vm.set_register(-1, Value::Integer(1)).is_err());
}

#[test]
fn compare_jumps_use_the_collation_and_skip_null() {
    let mut vm = vm_with(vec![
        Value::Text("abc".to_string()),
        Value::Text("ABC".to_string()),
        Value::Null,
    ]);
    let nocase = P4::CollSeq {
        collation: Collation::NoCase,
        affinity: 8,
    };
    let eq = op4(Opcode::Eq, 0, 5, 1, nocase);
    assert_eq!(compare_jump(&vm, &eq, Relation::Eq).unwrap(), Step::Jump(5));
    let eq = op(Opcode::Eq, 0, 5, 1);
    assert_eq!(compare_jump(&vm, &eq, Relation::Eq).unwrap(), Step::Next);
    assert_eq!(compare_jump(&vm, &eq, Relation::Gt).unwrap(), Step::Jump(5));
    assert_eq!(compare_jump(&vm, &eq, Relation::Le).unwrap(), Step::Next);
    let with_null = op(Opcode::Eq, 0, 5, 2);
    for relation in [Relation::Eq, Relation::Ge, Relation::Gt, Relation::Le, Relation::Lt] {
        assert_eq!(
            compare_jump(&vm, &with_null, relation).unwrap(),
            Step::Next
        );
    }
    vm.set_register(1, Value::Text("abc  ".to_string())).unwrap();
    assert_eq!(
        compare_text("abc", "abc  ", Collation::RTrim),
        Sorted::Same
    );
}

#[test]
fn copy_leaves_its_source() {
    let mut vm = vm_with(vec![Value::Text("x".to_string())]);
    exec::copy(&mut vm, &op(Opcode::Copy, 0, 4, 0)).unwrap();
    assert_eq!(*vm.register(4).unwrap(), Value::Text("x".to_string()));
    assert_eq!(*vm.register(0).unwrap(), Value::Text("x".to_string()));
}

#[test]
fn make_record_converts_columns_by_their_affinity() {
    let mut vm = vm_with(vec![
        Value::Text("1.5".to_string()),
        Value::Text("x1".to_string()),
        Value::Text(" 7 ".to_string()),
        Value::Text("2.5".to_string()),
        Value::Text("inf".to_string()),
    ]);
    let bytes = [
        Affinity::Real,
        Affinity::Numeric,
        Affinity::Integer,
        Affinity::Text,
        Affinity::Numeric,
    ];
    let p4 = P4::Affinity(bytes.iter().map(|a| a.to_p4_byte()).collect());
    make_record(&mut vm, &op4(Opcode::MakeRecord, 0, 5, 9, p4)).unwrap();
    let Value::Blob(payload) = vm.register(9).unwrap() else {
        panic!("expected a Blob");
    };
    assert_eq!(
        decode_record(payload, TextEncoding::Utf8).unwrap(),
        vec![
            float(1.5),
            Value::Text("x1".to_string()),
            Value::Integer(7),
            Value::Text("2.5".to_string()),
            Value::Text("inf".to_string()),
        ]
    );
}

#[test]
fn a_distinct_program_puts_each_row_out_once() {
    let mut instructions = vec![op(Opcode::OpenEphemeral, 0, 0, 0)];
    for n in [4, 2, 4, 4, 2, 9] {
        let here = instructions.len() as i32;
        instructions.push(op(Opcode::Integer, n, 0, 0));
        instructions.push(op4(Opcode::Found, 0, here + 4, 0, P4::Int(1)));
        instructions.push(op4(Opcode::IdxInsert, 0, 0, 0, P4::Int(1)));
        instructions.push(op(Opcode::ResultRow, 0, 1, 0));
    }
    instructions.push(op(Opcode::Halt, 0, 0, 0));
    let rows = execute(&Program::new(instructions)).unwrap();
    assert_eq!(
        rows,
        vec![
            vec![Value::Integer(4)],
            vec![Value::Integer(2)],
            vec![Value::Integer(9)]
        ]
    );
}

#[test]
fn sorting_keeps_equal_rows_in_their_order() {
    let mut vm = Db::new();
    open_sorter(
        &mut vm,
        0,
        vec![SortKeyColumn {
            index: 0,
            descending: true,
            collation: Collation::NoCase,
            nulls_first: false,
        }],
    );
    for (name, n) in [("b", 1), ("A", 2), ("B", 3), ("a", 4), ("c", 5)] {
        insert_row(&mut vm, 0, &[Value::Text(name.to_string()), Value::Integer(n)]);
    }
    sorter_sort(&mut vm, &op(Opcode::SorterSort, 0, 999, 0)).unwrap();
    open_pseudo(&mut vm, &op(Opcode::OpenPseudo, 1, 5, 0)).unwrap();
    let mut order = Vec::new();
    loop {
        sorter_data(&mut vm, &op(Opcode::SorterData, 0, 5, 0)).unwrap();
        column(&mut vm, &op(Opcode::Column, 1, 1, 6)).unwrap();
        order.push(vm.register(6).unwrap().clone());
        if sorter_next(&mut vm, &op(Opcode::SorterNext, 0, 1, 0)).unwrap() == Step::Next {
            break;
        }
    }
    let wanted: Vec<Value> = [5, 1, 3, 2, 4].iter().map(|n| Value::Integer(*n)).collect();
    assert_eq!(order, wanted);
    let err = sorter_data(&mut vm, &op(Opcode::SorterData, 0, 5, 0)).unwrap_err();
    assert_eq!(
        err.describe(),
        "SorterData: malformed instruction (sorter cursor has no current row)"
    );
}

#[test]
fn a_sorter_has_to_be_sorted_before_it_is_read() {
    let mut vm = Db::new();
    open_sorter(&mut vm, 0, vec![]);
    insert_row(&mut vm, 0, &[Value::Integer(1)]);
    assert!(sorter_data(&mut vm, &op(Opcode::SorterData, 0, 5, 0)).is_err());
    sorter_sort(&mut vm, &op(Opcode::Sort, 0, 9, 0)).unwrap();
    assert!(sorter_data(&mut vm, &op(Opcode::SorterData, 0, 5, 0)).is_ok());
    insert_row(&mut vm, 0, &[Value::Integer(2)]);
    assert!(sorter_data(&mut vm, &op(Opcode::SorterData, 0, 5, 0)).is_err());
}

#[test]
fn a_move_ends_the_forced_null_row() {
    let mut vm = open_vm("table_single_page.db");
    open_read(&mut vm, &op(Opcode::OpenRead, 0, 2, 0)).unwrap();
    rewind(&mut vm, &op(Opcode::Rewind, 0, 9, 0)).unwrap();
    null_row(&mut vm, &op(Opcode::NullRow, 0, 0, 0)).unwrap();
    assert_eq!(next(&mut vm, &op(Opcode::Next, 0, 3, 0)).unwrap(), Step::Jump(3));
    column(&mut vm, &op(Opcode::Column, 0, 0, 4)).unwrap();
    assert_eq!(*vm.register(4).unwrap(), Value::Integer(2));
}

#[test]
fn an_index_is_walked_in_both_directions_and_sought_in() {
    let mut vm = writable_vm(0x0a);
    for (name, rowid) in [("b", 20), ("a", 10), ("c", 30)] {
        let key = vec![Value::Text(name.to_string()), Value::Integer(rowid)];
        vm.store.serve(&Request::InsertEntry { root_page: 1, key });
    }
    let mut open = op(Opcode::OpenRead, 0, 1, 0);
    open.p5 = 1;
    open_read(&mut vm, &open).unwrap();

    let mut rowids = Vec::new();
    assert_eq!(idx_rewind(&mut vm, &op(Opcode::IdxRewind, 0, 9, 0)).unwrap(), Step::Next);
    loop {
        idx_rowid(&mut vm, &op(Opcode::IdxRowid, 0, 5, 0)).unwrap();
        rowids.push(vm.register(5).unwrap().clone());
        if idx_next(&mut vm, &op(Opcode::IdxNext, 0, 1, 0)).unwrap() == Step::Next {
            break;
        }
    }
    assert_eq!(idx_last(&mut vm, &op(Opcode::IdxLast, 0, 9, 0)).unwrap(), Step::Next);
    assert_eq!(idx_prev(&mut vm, &op(Opcode::IdxPrev, 0, 1, 0)).unwrap(), Step::Jump(1));
    idx_rowid(&mut vm, &op(Opcode::IdxRowid, 0, 5, 0)).unwrap();
    rowids.push(vm.register(5).unwrap().clone());
    let wanted: Vec<Value> = [10, 20, 30, 20].iter().map(|n| Value::Integer(*n)).collect();
    assert_eq!(rowids, wanted);

    vm.set_register(7, Value::Text("c".to_string())).unwrap();
    let seek = op4(Opcode::SeekIndexEq, 0, 9, 7, P4::Int(1));
    assert_eq!(seek_index_eq(&mut vm, &seek).unwrap(), Step::Next);
    idx_rowid(&mut vm, &op(Opcode::IdxRowid, 0, 5, 0)).unwrap();
    assert_eq!(*vm.register(5).unwrap(), Value::Integer(30));
    column(&mut vm, &op(Opcode::Column, 0, 0, 6)).unwrap();
    assert_eq!(*vm.register(6).unwrap(), Value::Text("c".to_string()));

    vm.set_register(7, Value::Text("bb".to_string())).unwrap();
    assert_eq!(seek_index_eq(&mut vm, &seek).unwrap(), Step::Jump(9));
    let err = idx_rowid(&mut vm, &op(Opcode::IdxRowid, 0, 5, 0)).unwrap_err();
    assert_eq!(
        err.describe(),
        "IdxRowid: malformed instruction (no current row on this index cursor (SeekIndexEq \
         missed, or no positioning opcode was run))"
    );
}

#[test]
fn dropping_a_table_drops_its_indexes_first() {
    let mut vm = writable_vm(0x0d);
    let p4 = P4::DropTable {
        name: "t".to_string(),
        root_page: 4,
        indexes: vec![("i".to_string(), 5), ("j".to_string(), 6)],
    };
    assert_eq!(
        drop_table(&mut vm, &op4(Opcode::DropTable, 0, 0, 0, p4)).unwrap(),
        Step::Next
    );
    assert_eq!(
        vm.store.log,
        vec![
            "free 5",
            "unregister i",
            "free 6",
            "unregister j",
            "free 4",
            "unregister t",
            "cookie"
        ]
    );
}

#[test]
fn creating_a_view_registers_it_without_a_root_page() {
    let mut vm = writable_vm(0x0d);
    let p4 = P4::CreateView {
        name: "v".to_string(),
        sql: "CREATE VIEW v AS SELECT 1".to_string(),
    };
    create_view(&mut vm, &op4(Opcode::CreateView, 0, 0, 0, p4)).unwrap();
    assert_eq!(vm.store.log, vec!["register view v", "cookie"]);
    let row = decode_record(&vm.store.tables[&1][&1], TextEncoding::Utf8).unwrap();
    assert_eq!(row[0], Value::Text("view".to_string()));
    assert_eq!(row[3], Value::Integer(0));
}

#[test]
fn schema_changes_need_a_writable_database() {
    let mut vm = open_vm("table_single_page.db");
    let p4 = P4::DropIndex {
        name: "i".to_string(),
        root_page: 2,
    };
    let err = drop_index(&mut vm, &op4(Opcode::DropIndex, 0, 0, 0, p4)).unwrap_err();
    assert_eq!(
        err.describe(),
        "DropIndex requires a database attached to this VM (see Vm::with_db)"
    );
}

#[test]
fn a_failure_of_the_outside_is_reported_by_the_instruction() {
    let mut vm = open_vm("table_single_page.db");
    open_read(&mut vm, &op(Opcode::OpenRead, 0, 77, 0)).unwrap();
    let err = rewind(&mut vm, &op(Opcode::Rewind, 0, 9, 0)).unwrap_err();
    assert_eq!(
        err.describe(),
        "Rewind: malformed instruction (no such table)"
    );
}

#[test]
fn mismatched_cursors_are_named() {
    let mut vm = Db::new();
    open_pseudo(&mut vm, &op(Opcode::OpenPseudo, 3, 0, 0)).unwrap();
    let err = rewind(&mut vm, &op(Opcode::Rewind, 3, 0, 0)).unwrap_err();
    assert_eq!(
        err.describe(),
        "Rewind: cursor slot 3 is a pseudo cursor, not a table or ephemeral table cursor"
    );
    let err = rewind(&mut vm, &op(Opcode::Rewind, 4, 0, 0)).unwrap_err();
    assert_eq!(err.describe(), "cursor slot 4 is not open");
}

#[test]
fn diagnostics_show_the_operand_they_reject() {
    let mut vm = Db::new();
    for (p4, shown) in [
        (P4::Absent, "None"),
        (P4::Bool(true), "Bool(true)"),
        (P4::Blob(vec![1, 2]), "Blob([1, 2])"),
        (
            P4::CollSeq {
                collation: Collation::RTrim,
                affinity: 8,
            },
            "CollSeq { collation: RTrim, affinity: 8 }",
        ),
        (
            P4::DropTable {
                name: "t".to_string(),
                root_page: 2,
                indexes: vec![("i".to_string(), 3)],
            },
            "DropTable { name: \"t\", root_page: 2, indexes: [(\"i\", 3)] }",
        ),
    ] {
        let err = string8(&mut vm, &op4(Opcode::String8, 0, 0, 0, p4)).unwrap_err();
        assert_eq!(
            err.describe(),
            format!("String8: malformed instruction (expected a string P4, got {shown})")
        );
    }
    vm.set_register(0, Value::Text("a\"b".to_string())).unwrap();
    let err = sorter_insert(&mut vm, &op(Opcode::SorterInsert, 0, 0, 0)).unwrap_err();
    assert_eq!(
        err.describe(),
        "SorterInsert: malformed instruction (expected a record Blob, got Text(\"a\\\"b\"))"
    );
}

#[test]
fn a_table_scan_runs_as_a_program() {
    let mut db = open_vm("table_single_page.db");
    let program = Program::new(vec![
        op(Opcode::Init, 0, 1, 0),
        op(Opcode::OpenRead, 0, 2, 0),
        op(Opcode::Rewind, 0, 7, 0),
        op(Opcode::Rowid, 0, 1, 0),
        op(Opcode::Column, 0, 1, 2),
        op(Opcode::ResultRow, 1, 2, 0),
        op(Opcode::Next, 0, 3, 0),
        op(Opcode::Halt, 0, 0, 0),
    ]);
    let start = exec::execute_with_db(&program, TextEncoding::Utf8);
    let rows = finish(start, &program, &mut db.store).unwrap();
    assert_eq!(rows.len(), 5);
    assert_eq!(
        rows[4],
        vec![Value::Integer(5), Value::Text("row number 5".to_string())]
    );
}

#[test]
fn an_autoincrement_rowid_is_never_handed_out_twice() {
    let mut vm = writable_vm(0x0d);
    open_write(&mut vm, &op(Opcode::OpenWrite, 0, 1, 0)).unwrap();
    let mut instr = op4(Opcode::NewRowid, 0, 5, 0, P4::Str("t".to_string()));
    instr.p5 = 1;
    for wanted in 1..=3 {
        new_rowid(&mut vm, &instr).unwrap();
        assert_eq!(*vm.register(5).unwrap(), Value::Integer(wanted));
        vm.set_register(6, Value::Integer(0)).unwrap();
        make_record(&mut vm, &op(Opcode::MakeRecord, 6, 1, 7)).unwrap();
        insert(&mut vm, &op(Opcode::Insert, 0, 5, 7)).unwrap();
        rewind(&mut vm, &op(Opcode::Rewind, 0, 0, 0)).unwrap();
        delete(&mut vm, &op(Opcode::Delete, 0, 0, 0)).unwrap();
    }
}
