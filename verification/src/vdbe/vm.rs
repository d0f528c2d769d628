//! The machine's state: the register file, the cursor slots, and the rows put out.
use crate::record::value;
use crate::record::value::{TextEncoding, Value, ValueView};
use crate::vdbe::error;
use crate::vdbe::error::{ErrorView, ExecError, MAX_REGISTERS};
use crate::vdbe::request::{Request, RequestView};
use crate::vdbe::slot::{CursorSlot, SlotView};
use std::collections::HashSet;
use vstd::prelude::*;

verus! {

/// The outcome of executing one instruction: fall through to PC+1, jump to an explicit
/// target, halt the program, or wait for outside work to carry the instruction on.
#[derive(Debug, Clone, PartialEq)]
pub enum Step {
    Next,
    Jump(usize),
    Halt { code: i32, message: Option<String> },
    Await(Request),
}

/// What a [`Step`] stands for.
#[verifier::ext_equal]
pub enum StepView {
    Next,
    Jump(usize),
    Halt { code: i32, message: Option<Seq<char>> },
    Await(RequestView),
}

impl Step {
    pub open spec fn view(&self) -> StepView {
        match self {
            Step::Next => StepView::Next,
            Step::Jump(pc) => StepView::Jump(*pc),
            Step::Halt { code, message } => StepView::Halt {
                code: *code,
                message: error::optional_text(*message),
            },
            Step::Await(request) => StepView::Await(request@),
        }
    }
}

/// What the machine knows of the database it is attached to.
#[derive(Debug, Clone, Copy, PartialEq, Eq, Structural)]
pub struct Database {
    pub encoding: TextEncoding,
    pub writable: bool,
}

/// The VM's mutable execution state: a register file of `Value` cells and a disjoint
/// cursor-slot table, plus the accumulated output rows and the one-shot-guard bookkeeping
/// `Once` needs.
#[derive(Debug)]
pub struct Vm {
    registers: Vec<Value>,
    cursors: Vec<Option<CursorSlot>>,
    database: Option<Database>,
    rows: Vec<Vec<Value>>,
    once_fired: HashSet<usize>,
}

/// What a [`Vm`] stands for.
#[verifier::ext_equal]
pub struct VmView {
    pub registers: Seq<ValueView>,
    pub cursors: Seq<Option<SlotView>>,
    pub database: Option<Database>,
    pub rows: Seq<Seq<ValueView>>,
    pub once_fired: Set<usize>,
}

/// The machine behind an instruction, and how the instruction ended.
#[verifier::ext_equal]
pub struct Effect {
    pub vm: VmView,
    pub step: Result<StepView, ErrorView>,
}

/// How an instruction ended.
pub open spec fn seen(r: Result<Step, ExecError>) -> Result<StepView, ErrorView> {
    match r {
        Ok(s) => Ok(s@),
        Err(e) => Err(e@),
    }
}

/// The machine `vm`, and the instruction that ended so.
pub open spec fn outcome(vm: VmView, r: Result<Step, ExecError>) -> Effect {
    Effect { vm, step: seen(r) }
}

pub open spec fn stepped(vm: VmView, step: StepView) -> Effect {
    Effect { vm, step: Ok(step) }
}

pub open spec fn failed(vm: VmView, e: ErrorView) -> Effect {
    Effect { vm, step: Err(e) }
}

/// `s`, filled up to the length `n` with `x`.
pub open spec fn padded<T>(s: Seq<T>, n: nat, x: T) -> Seq<T> {
    if s.len() >= n {
        s
    } else {
        s + Seq::new((n - s.len()) as nat, |i: int| x)
    }
}

proof fn lemma_padded_push<T>(s: Seq<T>, n: nat, x: T)
    requires
        n >= s.len(),
    ensures
        padded(s, n + 1, x) == padded(s, n, x).push(x),
{
    assert(padded(s, n + 1, x) =~= padded(s, n, x).push(x));
}

/// Whether `reg` can be the number of a register or a cursor slot.
pub open spec fn in_range(reg: i32) -> bool {
    0 <= reg <= MAX_REGISTERS
}

impl VmView {
    /// What register `reg` holds; NULL where it was never written.
    pub open spec fn held(self, reg: int) -> ValueView {
        if 0 <= reg < self.registers.len() {
            self.registers[reg]
        } else {
            ValueView::Null
        }
    }

    /// Reading register `reg`.
    pub open spec fn register(self, reg: i32) -> Result<ValueView, ErrorView> {
        if in_range(reg) {
            Ok(self.held(reg as int))
        } else {
            Err(ErrorView::RegisterOutOfRange { opcode: "register read"@, index: reg })
        }
    }

    /// The machine with `v` in register `reg`.
    pub open spec fn with_register(self, reg: i32, v: ValueView) -> VmView {
        VmView {
            registers: padded(self.registers, (reg + 1) as nat, ValueView::Null).update(
                reg as int,
                v,
            ),
            ..self
        }
    }

    /// The cursor open on `slot`, for the kind of access named.
    pub open spec fn open_cursor(self, slot: i32, access: Seq<char>) -> Result<
        SlotView,
        ErrorView,
    > {
        if !in_range(slot) {
            Err(ErrorView::RegisterOutOfRange { opcode: access, index: slot })
        } else if slot < self.cursors.len() && self.cursors[slot as int] is Some {
            Ok(self.cursors[slot as int]->Some_0)
        } else {
            Err(ErrorView::CursorNotOpen { slot })
        }
    }

    /// Reading cursor slot `slot`.
    pub open spec fn cursor(self, slot: i32) -> Result<SlotView, ErrorView> {
        self.open_cursor(slot, "cursor slot read"@)
    }

    /// Changing cursor slot `slot`.
    pub open spec fn cursor_mut(self, slot: i32) -> Result<SlotView, ErrorView> {
        self.open_cursor(slot, "cursor slot write"@)
    }

    /// The machine with the cursor open on `slot` replaced.
    pub open spec fn with_slot(self, slot: i32, c: SlotView) -> VmView {
        VmView { cursors: self.cursors.update(slot as int, Some(c)), ..self }
    }

    /// The machine with `c` opened on `slot`.
    pub open spec fn with_cursor(self, slot: i32, c: SlotView) -> VmView {
        VmView {
            cursors: padded(self.cursors, (slot + 1) as nat, None).update(slot as int, Some(c)),
            ..self
        }
    }

    /// The attached database.
    pub open spec fn db(self) -> Result<Database, ErrorView> {
        match self.database {
            Some(d) => Ok(d),
            None => Err(ErrorView::NoDatabase { opcode: "OpenRead"@ }),
        }
    }

    /// Whether the operation named may write.
    pub open spec fn may_write(self) -> bool {
        self.database is Some && self.database->0.writable
    }
}

/// Writes `v` into register `reg`, and goes on as `step` says.
pub open spec fn stored(vm: VmView, reg: i32, v: ValueView, step: StepView) -> Effect {
    if in_range(reg) {
        stepped(vm.with_register(reg, v), step)
    } else {
        failed(vm, ErrorView::RegisterOutOfRange { opcode: "register write"@, index: reg })
    }
}

/// Opens `c` on `slot`, and falls through.
pub open spec fn opened(vm: VmView, slot: i32, c: SlotView) -> Effect {
    if in_range(slot) {
        stepped(vm.with_cursor(slot, c), StepView::Next)
    } else {
        failed(vm, ErrorView::RegisterOutOfRange { opcode: "cursor slot write"@, index: slot })
    }
}

/// The program counter an operand names; a negative one names 0.
pub open spec fn target(p2: i32) -> usize {
    if p2 < 0 {
        0
    } else {
        p2 as usize
    }
}

pub open spec fn jump(p2: i32) -> StepView {
    StepView::Jump(target(p2))
}

pub fn to_pc(p2: i32) -> (pc: usize)
    ensures
        pc == target(p2),
{
    if p2 < 0 {
        0
    } else {
        p2 as usize
    }
}

/// A malformed instruction, for the reason given.
pub open spec fn malformed(opcode: Seq<char>, reason: Seq<char>) -> ErrorView {
    ErrorView::MalformedInstruction { opcode, reason }
}

/// The values of the registers from `start` on, `count` of them.
pub open spec fn held_range(vm: VmView, start: int, count: nat) -> Seq<ValueView> {
    Seq::new(count, |i: int| vm.held(start + i))
}

/// Reading the registers from `start` on, `count` of them, in order.
pub open spec fn register_range(vm: VmView, start: i32, count: nat) -> Result<
    Seq<ValueView>,
    ErrorView,
> {
    if count == 0 {
        Ok(Seq::empty())
    } else if !in_range(start) {
        Err(ErrorView::RegisterOutOfRange { opcode: "register read"@, index: start })
    } else if start + count - 1 > MAX_REGISTERS {
        Err(
            ErrorView::RegisterOutOfRange {
                opcode: "register read"@,
                index: (MAX_REGISTERS + 1) as i32,
            },
        )
    } else {
        Ok(held_range(vm, start as int, count))
    }
}

/// A register-range count that is small enough.
pub open spec fn count_of(opcode: Seq<char>, count: i32) -> Result<nat, ErrorView> {
    if 0 <= count <= MAX_REGISTERS {
        Ok(count as nat)
    } else {
        Err(ErrorView::RegisterRangeTooLarge { opcode, count })
    }
}

/// Open cursor slots as what they stand for.
pub open spec fn slot_views(v: Seq<Option<CursorSlot>>) -> Seq<Option<SlotView>> {
    v.map_values(
        |c: Option<CursorSlot>|
            match c {
                Some(s) => Some(s@),
                None => None,
            },
    )
}

pub open spec fn slots_wf(v: Seq<Option<CursorSlot>>) -> bool {
    forall|i: int| 0 <= i < v.len() && (#[trigger] v[i]) is Some ==> v[i]->Some_0.wf()
}

impl Vm {
    pub closed spec fn view(&self) -> VmView {
        VmView {
            registers: value::values(self.registers@),
            cursors: slot_views(self.cursors@),
            database: self.database,
            rows: value::rows(self.rows@),
            once_fired: self.once_fired@,
        }
    }

    /// Every open cursor is well-formed.
    pub closed spec fn wf(&self) -> bool {
        slots_wf(self.cursors@)
    }

    fn on(database: Option<Database>) -> (r: Self)
        ensures
            r.wf(),
            r@ == (VmView {
                registers: Seq::empty(),
                cursors: Seq::empty(),
                database,
                rows: Seq::empty(),
                once_fired: Set::empty(),
            }),
    {
        let r = Vm {
            registers: Vec::new(),
            cursors: Vec::new(),
            database,
            rows: Vec::new(),
            once_fired: HashSet::new(),
        };
        proof {
            assert(r@.registers =~= Seq::empty());
            assert(r@.cursors =~= Seq::empty());
            assert(r@.rows =~= Seq::empty());
            assert(r@.once_fired =~= Set::empty());
        }
        r
    }

    /// A machine without a database.
    pub fn new() -> (r: Self)
        ensures
            r.wf(),
            r@ == fresh_vm(None),
    {
        Self::on(None)
    }

    /// A machine that reads from a database whose text has the encoding given.
    pub fn with_db(encoding: TextEncoding) -> (r: Self)
        ensures
            r.wf(),
            r@ == fresh_vm(Some(Database { encoding, writable: false })),
    {
        Self::on(Some(Database { encoding, writable: false }))
    }

    /// A machine that reads from and writes to a database whose text has the encoding given.
    pub fn with_writable_db(encoding: TextEncoding) -> (r: Self)
        ensures
            r.wf(),
            r@ == fresh_vm(Some(Database { encoding, writable: true })),
    {
        Self::on(Some(Database { encoding, writable: true }))
    }

    /// The attached database.
    pub fn db(&self) -> (r: Result<Database, ExecError>)
        ensures
            match r {
                Ok(d) => self@.db() == Ok::<Database, ErrorView>(d),
                Err(e) => self@.db() == Err::<Database, ErrorView>(e@),
            },
    {
        match self.database {
            Some(d) => Ok(d),
            None => Err(ExecError::NoDatabase { opcode: "OpenRead" }),
        }
    }

    /// The attached database, where it can be written.
    pub fn writer(&self, opcode: &'static str) -> (r: Result<Database, ExecError>)
        ensures
            match r {
                Ok(d) => self@.may_write() && self@.database == Some(d),
                Err(e) => !self@.may_write() && e@ == (ErrorView::NoDatabase {
                    opcode: opcode@,
                }),
            },
    {
        match self.database {
            Some(d) => if d.writable {
                Ok(d)
            } else {
                Err(ExecError::NoDatabase { opcode })
            },
            None => Err(ExecError::NoDatabase { opcode }),
        }
    }

    fn index(opcode: &'static str, reg: i32) -> (r: Result<usize, ExecError>)
        ensures
            match r {
                Ok(i) => in_range(reg) && i == reg,
                Err(e) => !in_range(reg) && e@ == (ErrorView::RegisterOutOfRange {
                    opcode: opcode@,
                    index: reg,
                }),
            },
    {
        if reg < 0 || reg as usize > MAX_REGISTERS {
            return Err(ExecError::RegisterOutOfRange { opcode, index: reg });
        }
        Ok(reg as usize)
    }

    /// Validates a register range's *count* operand, before anything of that size is
    /// allocated.
    pub fn bounded_count(opcode: &'static str, count: i32) -> (r: Result<usize, ExecError>)
        ensures
            match r {
                Ok(n) => count_of(opcode@, count) == Ok::<nat, ErrorView>(n as nat),
                Err(e) => count_of(opcode@, count) == Err::<nat, ErrorView>(e@),
            },
    {
        if count < 0 || count as usize > MAX_REGISTERS {
            return Err(ExecError::RegisterRangeTooLarge { opcode, count });
        }
        Ok(count as usize)
    }

    /// Reads register `reg`. Registers not yet written read as NULL.
    pub fn register(&self, reg: i32) -> (r: Result<&Value, ExecError>)
        ensures
            match r {
                Ok(v) => self@.register(reg) == Ok::<ValueView, ErrorView>(v@),
                Err(e) => self@.register(reg) == Err::<ValueView, ErrorView>(e@),
            },
    {
        let idx = Self::index("register read", reg)?;
        if idx < self.registers.len() {
            Ok(&self.registers[idx])
        } else {
            Ok(&Value::Null)
        }
    }

    /// Writes register `reg`, growing the register file with NULL filler as needed.
    pub fn set_register(&mut self, reg: i32, value: Value) -> (r: Result<(), ExecError>)
        requires
            old(self).wf(),
        ensures
            final(self).wf(),
            match r {
                Ok(_) => in_range(reg) && final(self)@ == old(self)@.with_register(reg, value@),
                Err(e) => !in_range(reg) && final(self)@ == old(self)@ && e@
                    == (ErrorView::RegisterOutOfRange { opcode: "register write"@, index: reg }),
            },
    {
        let idx = Self::index("register write", reg)?;
        let ghost before = value::values(self.registers@);
        let ghost v = value@;
        while self.registers.len() <= idx
            invariant
                self.wf(),
                idx == reg,
                in_range(reg),
                before == old(self)@.registers,
                value::values(self.registers@) == padded(
                    before,
                    self.registers@.len(),
                    ValueView::Null,
                ),
                self.registers@.len() >= before.len(),
                self.registers@.len() > idx ==> self.registers@.len() == before.len()
                    || self.registers@.len() == idx + 1,
                self@ == (VmView { registers: value::values(self.registers@), ..old(self)@ }),
            decreases idx + 1 - self.registers.len(),
        {
            proof {
                value::lemma_values_push(self.registers@, Value::Null);
                lemma_padded_push(before, self.registers@.len(), ValueView::Null);
            }
            self.registers.push(Value::Null);
        }
        self.registers.set(idx, value);
        assert(value::values(self.registers@) =~= padded(
            before,
            (reg + 1) as nat,
            ValueView::Null,
        ).update(reg as int, v));
        Ok(())
    }

    /// Reads cursor slot `slot`: a namespace disjoint from the registers.
    pub fn cursor(&self, slot: i32) -> (r: Result<&CursorSlot, ExecError>)
        requires
            self.wf(),
        ensures
            match r {
                Ok(c) => c.wf() && self@.cursor(slot) == Ok::<SlotView, ErrorView>(c@),
                Err(e) => self@.cursor(slot) == Err::<SlotView, ErrorView>(e@),
            },
    {
        let idx = Self::index("cursor slot read", slot)?;
        assert(self@.cursors.len() == self.cursors@.len());
        if idx < self.cursors.len() {
            match &self.cursors[idx] {
                Some(c) => Ok(c),
                None => Err(ExecError::CursorNotOpen { slot }),
            }
        } else {
            Err(ExecError::CursorNotOpen { slot })
        }
    }

    /// Mutable counterpart to [`Self::cursor`].
    pub fn cursor_mut(&mut self, slot: i32) -> (r: Result<&mut CursorSlot, ExecError>)
        requires
            old(self).wf(),
        ensures
            match r {
                Ok(c) => {
                    &&& c.wf()
                    &&& old(self)@.cursor_mut(slot) == Ok::<SlotView, ErrorView>(c@)
                    &&& final(c).wf() ==> final(self).wf()
                    &&& final(self)@ == old(self)@.with_slot(slot, final(c)@)
                },
                Err(e) => {
                    &&& old(self)@.cursor_mut(slot) == Err::<SlotView, ErrorView>(e@)
                    &&& final(self).wf()
                    &&& final(self)@ == old(self)@
                },
            },
    {
        let idx = Self::index("cursor slot write", slot)?;
        assert(self@.cursors.len() == self.cursors@.len());
        if idx >= self.cursors.len() {
            return Err(ExecError::CursorNotOpen { slot });
        }
        if self.cursors[idx].is_none() {
            return Err(ExecError::CursorNotOpen { slot });
        }
        match &mut self.cursors[idx] {
            Some(c) => Ok(c),
            None => Err(ExecError::CursorNotOpen { slot }),
        }
    }

    /// Opens cursor slot `slot` with `value`, growing the cursor-slot table with unopened
    /// filler as needed. Overwrites (closes) any cursor already open on `slot`.
    pub fn set_cursor(&mut self, slot: i32, value: CursorSlot) -> (r: Result<(), ExecError>)
        requires
            old(self).wf(),
            value.wf(),
        ensures
            final(self).wf(),
            match r {
                Ok(_) => in_range(slot) && final(self)@ == old(self)@.with_cursor(slot, value@),
                Err(e) => !in_range(slot) && final(self)@ == old(self)@ && e@
                    == (ErrorView::RegisterOutOfRange {
                    opcode: "cursor slot write"@,
                    index: slot,
                }),
            },
    {
        let idx = Self::index("cursor slot write", slot)?;
        let ghost before = slot_views(self.cursors@);
        let ghost v = value@;
        while self.cursors.len() <= idx
            invariant
                self.wf(),
                idx == slot,
                in_range(slot),
                before == old(self)@.cursors,
                slot_views(self.cursors@) == padded(before, self.cursors@.len(), None),
                self.cursors@.len() >= before.len(),
                self.cursors@.len() > idx ==> self.cursors@.len() == before.len()
                    || self.cursors@.len() == idx + 1,
                self@ == (VmView { cursors: slot_views(self.cursors@), ..old(self)@ }),
            decreases idx + 1 - self.cursors.len(),
        {
            let ghost cs = self.cursors@;
            proof {
                lemma_padded_push(before, cs.len(), None);
            }
            self.cursors.push(None);
            assert(slot_views(self.cursors@) =~= slot_views(cs).push(None));
        }
        self.cursors.set(idx, Some(value));
        assert(slot_views(self.cursors@) =~= padded(before, (slot + 1) as nat, None).update(
            slot as int,
            Some(v),
        ));
        Ok(())
    }

    /// Puts out one row.
    pub fn emit_row(&mut self, row: Vec<Value>)
        requires
            old(self).wf(),
        ensures
            final(self).wf(),
            final(self)@ == (VmView {
                rows: old(self)@.rows.push(value::values(row@)),
                ..old(self)@
            }),
    {
        self.rows.push(row);
        assert(self@.rows =~= old(self)@.rows.push(value::values(row@)));
    }

    /// The rows put out so far.
    pub fn rows(&self) -> (r: &Vec<Vec<Value>>)
        ensures
            value::rows(r@) == self@.rows,
    {
        &self.rows
    }

    /// The rows put out, at the end of a run.
    pub fn into_rows(self) -> (r: Vec<Vec<Value>>)
        ensures
            value::rows(r@) == self@.rows,
    {
        self.rows
    }

    /// Notes that control has reached `pc`, and says whether it was the first time.
    pub fn fire_once(&mut self, pc: usize) -> (first: bool)
        requires
            old(self).wf(),
        ensures
            final(self).wf(),
            first == !old(self)@.once_fired.contains(pc),
            final(self)@ == (VmView {
                once_fired: old(self)@.once_fired.insert(pc),
                ..old(self)@
            }),
    {
        broadcast use vstd::std_specs::hash::group_hash_axioms;

        self.once_fired.insert(pc)
    }
}

/// A machine that has run nothing yet.
pub open spec fn fresh_vm(database: Option<Database>) -> VmView {
    VmView {
        registers: Seq::empty(),
        cursors: Seq::empty(),
        database,
        rows: Seq::empty(),
        once_fired: Set::empty(),
    }
}

impl Default for Vm {
    /// A machine without a database.
    fn default() -> (r: Self)
        ensures
            r.wf(),
            r@ == fresh_vm(None),
    {
        Self::new()
    }
}

/// Reads the registers from `start` on, `count` of them.
pub fn read_register_range(vm: &Vm, start: i32, count: usize) -> (r: Result<
    Vec<Value>,
    ExecError,
>)
    ensures
        match r {
            Ok(vs) => register_range(vm@, start, count as nat) == Ok::<Seq<ValueView>, ErrorView>(
                value::values(vs@),
            ) && vs@.len() == count && count <= MAX_REGISTERS + 1,
            Err(e) => register_range(vm@, start, count as nat) == Err::<
                Seq<ValueView>,
                ErrorView,
            >(e@),
        },
{
    let mut values: Vec<Value> = Vec::new();
    let mut i: usize = 0;
    while i < count
        invariant
            i <= count,
            i > 0 ==> in_range(start) && start + i - 1 <= MAX_REGISTERS,
            values@.len() == i,
            forall|k: int| 0 <= k < i ==> (#[trigger] values@[k])@ == vm@.held(start + k),
        decreases count - i,
    {
        let reg: i32 = if i == 0 {
            start
        } else {
            start + i as i32
        };
        let v = vm.register(reg)?;
        values.push(v.copy());
        i = i + 1;
    }
    assert(count > 0 ==> value::values(values@) =~= held_range(vm@, start as int, count as nat));
    assert(count == 0 ==> value::values(values@) =~= Seq::empty());
    Ok(values)
}

/// A register read gives back what was last written to it, and a write changes no other
/// register, no cursor and no row put out.
pub proof fn law_registers_persist(vm: VmView, reg: i32, v: ValueView, other: i32)
    requires
        in_range(reg),
    ensures
        vm.with_register(reg, v).register(reg) == Ok::<ValueView, ErrorView>(v),
        other != reg ==> vm.with_register(reg, v).register(other) == vm.register(other),
        vm.with_register(reg, v).cursor(other) == vm.cursor(other),
        vm.with_register(reg, v).rows == vm.rows,
{
}

/// Cursor slots and registers are disjoint: opening a cursor changes no register, and no
/// other cursor.
pub proof fn law_cursors_are_disjoint(vm: VmView, slot: i32, c: SlotView, other: i32)
    requires
        in_range(slot),
    ensures
        vm.with_cursor(slot, c).cursor(slot) == Ok::<SlotView, ErrorView>(c),
        other != slot ==> vm.with_cursor(slot, c).cursor(other) == vm.cursor(other),
        vm.with_cursor(slot, c).register(other) == vm.register(other),
{
}

} // verus!
