//! The bytecode machine: its call frames, operand stack, locals arena,
//! exception handlers, globals and exception-class hierarchy, and the effect
//! of each instruction.
//!
//! The machine runs flat: a call pushes a frame and jumps to the callee's
//! body; a return pops the frame and resumes at the saved instruction.  A
//! call made with keyword or spread arguments starts a nested run instead:
//! the callee's frame starts at its body, and the first return, halt or end
//! of code while the run lasts leaves the innermost frame and resumes the
//! run's caller after the call.  Work
//! the machine cannot do itself (float arithmetic, calls of native builtins)
//! is handed back as a [`Step`] event; the caller performs it and resumes the
//! machine with the result.

use vstd::prelude::*;
use crate::value::{Value, Val, ListObj, DictObj, FloatNum, ExcModel, ExceptionData, CellObj, vals, val_pairs,
    group_value_model, truthy};
use crate::ops::{Outcome, OutcomeModel, outcome_model, FloatTask, BitOp};
use crate::error::RuntimeError;
use crate::text::{str_to_chars, chars_to_string, chars_eq, decimal_usize, extend_chars, nat_digits};

verus! {

broadcast use group_value_model;

/// A call frame: where its locals start in the arena and how many there are,
/// where execution resumes when it returns, and the handler and stack depths
/// to restore then.
#[derive(Debug, Clone, Copy, PartialEq)]
pub struct Frame {
    pub arena_offset: usize,
    pub arena_len: usize,
    pub return_ip: usize,
    pub saved_handler_len: usize,
    pub saved_stack_len: usize,
}

/// A constant of a compiled program.
#[derive(Debug)]
pub enum Constant {
    Integer(i64),
    Float(FloatNum),
    String(Vec<char>),
    Boolean(bool),
    Null,
}

/// The value a constant loads as.
pub open spec fn constant_val(c: Constant) -> Val {
    match c {
        Constant::Integer(n) => Val::Int(n),
        Constant::Float(f) => Val::Float(f.bits, f.text@),
        Constant::String(s) => Val::Str(s@),
        Constant::Boolean(b) => Val::Bool(b),
        Constant::Null => Val::Null,
    }
}

/// Converts a constant to a runtime value.
pub fn convert_value(c: &Constant) -> (v: Value)
    ensures
        v@ == constant_val(*c),
{
    match c {
        Constant::Integer(n) => Value::Integer(*n),
        Constant::Float(f) => Value::Float(FloatNum { bits: f.bits, text: crate::value::copy_chars(&f.text) }),
        Constant::String(s) => Value::String(crate::value::copy_chars(s)),
        Constant::Boolean(b) => Value::Boolean(*b),
        Constant::Null => Value::Null,
    }
}

/// The exception-class hierarchy: each class with its parent classes.
pub open spec fn hierarchy_parents(h: Seq<(Seq<char>, Seq<Seq<char>>)>, name: Seq<char>) -> Option<Seq<Seq<char>>>
    decreases h.len(),
{
    if h.len() == 0 {
        None
    } else if h[h.len() - 1].0 == name {
        Some(h[h.len() - 1].1)
    } else {
        hierarchy_parents(h.subrange(0, h.len() - 1), name)
    }
}

/// Whether `child` is `target` or descends from it within `depth` steps of
/// the hierarchy.
pub open spec fn descends(h: Seq<(Seq<char>, Seq<Seq<char>>)>, child: Seq<char>, target: Seq<char>, depth: nat) -> bool
    decreases depth, 0nat,
{
    if child == target {
        true
    } else if depth == 0 {
        false
    } else {
        match hierarchy_parents(h, child) {
            Some(ps) => any_descends(h, ps, target, (depth - 1) as nat),
            None => false,
        }
    }
}

/// Whether some class of `ps` descends from `target` within `depth` steps.
pub open spec fn any_descends(h: Seq<(Seq<char>, Seq<Seq<char>>)>, ps: Seq<Seq<char>>, target: Seq<char>, depth: nat) -> bool
    decreases depth, ps.len() + 1,
{
    if ps.len() == 0 {
        false
    } else {
        any_descends(h, ps.subrange(0, ps.len() - 1), target, depth) || descends(h, ps[ps.len() - 1], target, depth)
    }
}


/// The parents the hierarchy records for `name` (the latest record wins).
pub fn find_parents(h: &Vec<(Vec<char>, Vec<Vec<char>>)>, name: &Vec<char>) -> (r: Option<usize>)
    ensures
        r is None ==> hierarchy_parents(hierarchy_model(h@), name@) is None,
        r matches Some(k) ==> k < h@.len() && hierarchy_parents(hierarchy_model(h@), name@) == Some(hierarchy_model(h@)[k as int].1),
{
    let ghost hm = hierarchy_model(h@);
    let mut i: usize = h.len();
    assert(hm.subrange(0, h@.len() as int) =~= hm);
    while i > 0
        invariant
            i <= h@.len(),
            hm == hierarchy_model(h@),
            hierarchy_parents(hm, name@) == hierarchy_parents(hm.subrange(0, i as int), name@),
        decreases i,
    {
        let ghost sub = hm.subrange(0, i as int);
        assert(sub.subrange(0, i - 1) =~= hm.subrange(0, i - 1));
        if chars_eq(&h[i - 1].0, name) {
            return Some(i - 1);
        }
        i = i - 1;
    }
    None
}

/// The model of the hierarchy table.
pub open spec fn hierarchy_model(h: Seq<(Vec<char>, Vec<Vec<char>>)>) -> Seq<(Seq<char>, Seq<Seq<char>>)> {
    Seq::new(h.len(), |i: int| (h[i].0@, Seq::new(h[i].1@.len(), |j: int| h[i].1@[j]@)))
}

pub(crate) fn descends_exec(h: &Vec<(Vec<char>, Vec<Vec<char>>)>, child: &Vec<char>, target: &Vec<char>, depth: usize) -> (r: bool)
    ensures
        r == descends(hierarchy_model(h@), child@, target@, depth as nat),
    decreases depth, 0nat,
{
    if chars_eq(child, target) {
        return true;
    }
    if depth == 0 {
        return false;
    }
    match find_parents(h, child) {
        Some(k) => any_descends_exec(h, &h[k].1, target, depth - 1),
        None => false,
    }
}

pub(crate) fn any_descends_exec(h: &Vec<(Vec<char>, Vec<Vec<char>>)>, ps: &Vec<Vec<char>>, target: &Vec<char>, depth: usize) -> (r: bool)
    ensures
        r == any_descends(hierarchy_model(h@), Seq::new(ps@.len(), |j: int| ps@[j]@), target@, depth as nat),
    decreases depth, ps@.len() + 1,
{
    let ghost pm = Seq::new(ps@.len(), |j: int| ps@[j]@);
    let mut r = false;
    let mut i: usize = 0;
    while i < ps.len()
        invariant
            i <= ps@.len(),
            pm == Seq::new(ps@.len(), |j: int| ps@[j]@),
            r == any_descends(hierarchy_model(h@), pm.subrange(0, i as int), target@, depth as nat),
        decreases ps@.len() - i,
    {
        let d = descends_exec(h, &ps[i], target, depth);
        proof {
            let next = pm.subrange(0, i + 1);
            assert(next.subrange(0, i as int) =~= pm.subrange(0, i as int));
            assert(next[i as int] == ps@[i as int]@);
        }
        r = r || d;
        i = i + 1;
    }
    assert(pm.subrange(0, ps@.len() as int) =~= pm);
    r
}

/// Whether exception class `child` is `target` or descends from it.  The
/// search follows parent links at most as many times as the table has
/// records, which reaches every class an acyclic table relates.
pub open spec fn exception_child(h: Seq<(Seq<char>, Seq<Seq<char>>)>, child: Seq<char>, target: Seq<char>) -> bool {
    descends(h, child, target, h.len())
}

/// The machine.
#[derive(Debug)]
pub struct VM {
    pub frames: Vec<Frame>,
    pub frame_depth_limit: usize,
    pub stack: Vec<Value>,
    pub locals_arena: Vec<Value>,
    pub exception_handlers: Vec<usize>,
    pub globals: Vec<(Vec<char>, Value)>,
    pub current_exception: Option<Value>,
    pub exception_hierarchy: Vec<(Vec<char>, Vec<Vec<char>>)>,
    pub next_oid: u64,
    pub memory_used: usize,
    pub memory_limit: usize,
    pub ip: usize,
    pub result: Value,
    pub functions: Vec<FunctionEntry>,
    pub runs: Vec<usize>,
}

/// A function object the machine created: its identity, the program's
/// description of it, the size of its locals, and the values it captured.
#[derive(Debug)]
pub struct FunctionEntry {
    pub oid: u64,
    pub info: usize,
    pub num_locals: usize,
    pub closure: Vec<(usize, Value)>,
}

/// The model of a function object.
pub struct FunctionModel {
    pub oid: u64,
    pub info: usize,
    pub num_locals: usize,
    pub closure: Seq<(usize, Val)>,
}

pub open spec fn function_model(f: FunctionEntry) -> FunctionModel {
    FunctionModel {
        oid: f.oid,
        info: f.info,
        num_locals: f.num_locals,
        closure: Seq::new(f.closure@.len(), |k: int| (f.closure@[k].0, f.closure@[k].1@)),
    }
}

pub open spec fn functions_model(fs: Seq<FunctionEntry>) -> Seq<FunctionModel> {
    Seq::new(fs.len(), |k: int| function_model(fs[k]))
}

/// The model of the machine.
#[verifier::ext_equal]
pub struct MachineModel {
    pub frames: Seq<Frame>,
    pub frame_depth_limit: usize,
    pub stack: Seq<Val>,
    pub arena: Seq<Val>,
    pub handlers: Seq<usize>,
    pub globals: Seq<(Seq<char>, Val)>,
    pub exception: Option<Val>,
    pub hierarchy: Seq<(Seq<char>, Seq<Seq<char>>)>,
    pub next_oid: u64,
    pub memory_used: usize,
    pub memory_limit: usize,
    pub ip: usize,
    pub result: Val,
    pub functions: Seq<FunctionModel>,
    /// The nested runs under way, innermost last: where each run's caller resumes.
    pub runs: Seq<usize>,
}

pub open spec fn globals_model(g: Seq<(Vec<char>, Value)>) -> Seq<(Seq<char>, Val)> {
    Seq::new(g.len(), |i: int| (g[i].0@, g[i].1@))
}

pub open spec fn opt_model(o: Option<Value>) -> Option<Val> {
    match o {
        Some(v) => Some(v@),
        None => None,
    }
}

impl View for VM {
    type V = MachineModel;

    open spec fn view(&self) -> MachineModel {
        MachineModel {
            frames: self.frames@,
            frame_depth_limit: self.frame_depth_limit,
            stack: vals(self.stack@),
            arena: vals(self.locals_arena@),
            handlers: self.exception_handlers@,
            globals: globals_model(self.globals@),
            exception: opt_model(self.current_exception),
            hierarchy: hierarchy_model(self.exception_hierarchy@),
            next_oid: self.next_oid,
            memory_used: self.memory_used,
            memory_limit: self.memory_limit,
            ip: self.ip,
            result: self.result@,
            functions: functions_model(self.functions@),
            runs: self.runs@,
        }
    }
}

/// The machine is well formed: every frame's locals lie inside the arena,
/// each frame's locals below those of the frames it called.
pub open spec fn wf(m: MachineModel) -> bool {
    &&& forall|i: int| 0 <= i < m.frames.len() ==> #[trigger] m.frames[i].arena_offset + m.frames[i].arena_len <= m.arena.len()
    &&& forall|i: int, j: int| 0 <= i < j < m.frames.len() ==>
        #[trigger] m.frames[i].arena_offset + m.frames[i].arena_len <= #[trigger] m.frames[j].arena_offset
}

/// The message of the error for a call that would exceed the depth limit.
pub open spec fn depth_message(limit: usize) -> Seq<char> {
    "تجاوزت عمق الاستدعاء الحد الاقصى ("@ + nat_digits(limit as nat) + ")"@
}

/// Index of the global named `name`, if any (the first such).
pub open spec fn global_index(g: Seq<(Seq<char>, Val)>, name: Seq<char>) -> Option<int>
    decreases g.len(),
{
    if g.len() == 0 {
        None
    } else {
        match global_index(g.subrange(0, g.len() - 1), name) {
            Some(k) => Some(k),
            None => if g[g.len() - 1].0 == name { Some(g.len() - 1) } else { None },
        }
    }
}

/// The globals after binding `name` to `v`: the binding is replaced where it
/// exists, else appended.
pub open spec fn global_insert(g: Seq<(Seq<char>, Val)>, name: Seq<char>, v: Val) -> Seq<(Seq<char>, Val)> {
    match global_index(g, name) {
        Some(k) => g.update(k, (name, v)),
        None => g.push((name, v)),
    }
}

/// The value bound to `name`, if any.
pub open spec fn global_lookup(g: Seq<(Seq<char>, Val)>, name: Seq<char>) -> Option<Val> {
    match global_index(g, name) {
        Some(k) => Some(g[k].1),
        None => None,
    }
}

pub proof fn lemma_global_index(g: Seq<(Seq<char>, Val)>, name: Seq<char>)
    ensures
        global_index(g, name) matches Some(k) ==> 0 <= k < g.len() && g[k].0 == name
            && forall|j: int| 0 <= j < k ==> g[j].0 != name,
        global_index(g, name) is None ==> forall|j: int| 0 <= j < g.len() ==> g[j].0 != name,
    decreases g.len(),
{
    if g.len() > 0 {
        let pre = g.subrange(0, g.len() - 1);
        lemma_global_index(pre, name);
        assert forall|j: int| 0 <= j < pre.len() implies pre[j] == g[j] by {}
    }
}

/// Binding a global and reading it back gives the bound value, and every
/// other name keeps the value it had.
pub proof fn law_global_insert_lookup(g: Seq<(Seq<char>, Val)>, name: Seq<char>, v: Val, other: Seq<char>)
    ensures
        global_lookup(global_insert(g, name, v), name) == Some(v),
        other != name ==> global_lookup(global_insert(g, name, v), other) == global_lookup(g, other),
{
    let g2 = global_insert(g, name, v);
    lemma_global_index(g, name);
    lemma_global_index(g2, name);
    lemma_global_index(g, other);
    lemma_global_index(g2, other);
    match global_index(g, name) {
        Some(k) => {
            assert(g2 == g.update(k, (name, v)));
            assert(g2[k].0 == name);
            if other != name {
                assert forall|j: int| 0 <= j < g.len() implies (g2[j].0 == other <==> g[j].0 == other) by {}
            }
        }
        None => {
            assert(g2 == g.push((name, v)));
            assert(g2[g.len() as int].0 == name);
            if other != name {
                assert forall|j: int| 0 <= j < g.len() implies g2[j] == g[j] by {}
            }
        }
    }
}

impl VM {
    /// Whether exception class `child` is `target` or one of its descendants.
    pub fn is_exception_child(&self, child: &Vec<char>, target: &Vec<char>) -> (r: bool)
        ensures
            r == exception_child(self@.hierarchy, child@, target@),
    {
        descends_exec(&self.exception_hierarchy, child, target, self.exception_hierarchy.len())
    }

    /// Finds the slot of the global named `name`.
    pub fn global_slot(&self, name: &Vec<char>) -> (r: Option<usize>)
        ensures
            r matches Some(k) ==> global_index(self@.globals, name@) == Some(k as int) && k < self.globals@.len(),
            r is None ==> global_index(self@.globals, name@) is None,
    {
        let ghost g = self@.globals;
        proof { lemma_global_index(g, name@); }
        let mut i: usize = 0;
        while i < self.globals.len()
            invariant
                g == self@.globals,
                g.len() == self.globals@.len(),
                i <= g.len(),
                forall|j: int| 0 <= j < i ==> g[j].0 != name@,
                global_index(g, name@) matches Some(k) ==> 0 <= k < g.len() && g[k].0 == name@
                    && forall|j: int| 0 <= j < k ==> g[j].0 != name@,
                global_index(g, name@) is None ==> forall|j: int| 0 <= j < g.len() ==> g[j].0 != name@,
            decreases self.globals@.len() - i,
        {
            if chars_eq(&self.globals[i].0, name) {
                assert(g[i as int].0 == name@);
                return Some(i);
            }
            i = i + 1;
        }
        None
    }

    /// Binds the global `name` to `value`.
    pub fn insert_global(&mut self, name: Vec<char>, value: Value)
        ensures
            final(self)@.globals == global_insert(old(self)@.globals, name@, value@),
            final(self)@.frames == old(self)@.frames,
            final(self)@.stack == old(self)@.stack,
            final(self)@.arena == old(self)@.arena,
            final(self)@.handlers == old(self)@.handlers,
            final(self)@.ip == old(self)@.ip,
            final(self)@.exception == old(self)@.exception,
            final(self)@.hierarchy == old(self)@.hierarchy,
            final(self)@.next_oid == old(self)@.next_oid,
            final(self)@.memory_used == old(self)@.memory_used,
            final(self)@.memory_limit == old(self)@.memory_limit,
            final(self)@.frame_depth_limit == old(self)@.frame_depth_limit,
            final(self)@.result == old(self)@.result,
            final(self)@.runs == old(self)@.runs,
            final(self)@.functions == old(self)@.functions,
    {
        let ghost g = self@.globals;
        let ghost nm = name@;
        let ghost vm = value@;
        match self.global_slot(&name) {
            Some(k) => {
                let ghost before = self.globals@;
                self.globals.set(k, (name, value));
                assert(globals_model(self.globals@) =~= g.update(k as int, (nm, vm)));
            }
            None => {
                let ghost before = self.globals@;
                self.globals.push((name, value));
                assert(globals_model(self.globals@) =~= g.push((nm, vm)));
            }
        }
    }

    /// The value of the global `name`, if bound.
    pub fn lookup_global(&self, name: &Vec<char>) -> (r: Option<Value>)
        ensures
            opt_model(r) == global_lookup(self@.globals, name@),
    {
        match self.global_slot(name) {
            Some(k) => Some(self.globals[k].1.duplicate()),
            None => None,
        }
    }

    /// Enters a call frame whose locals occupy `arena_len` slots from `arena_offset`,
    /// returning to `return_ip`; refused beyond the depth limit.
    pub fn push_frame(&mut self, arena_offset: usize, arena_len: usize, return_ip: usize) -> (r: Result<(), RuntimeError>)
        ensures
            old(self).frames@.len() >= old(self).frame_depth_limit ==> {
                &&& r is Err
                &&& r->Err_0.class_view() == crate::error::generic_error_class()
                &&& r->Err_0.message_view() == depth_message(old(self).frame_depth_limit)
                &&& final(self)@ == old(self)@
            },
            old(self).frames@.len() < old(self).frame_depth_limit ==> {
                &&& r is Ok
                &&& final(self)@ == spec_push_frame(old(self)@, arena_offset, arena_len, return_ip)
            },
    {
        if self.frames.len() >= self.frame_depth_limit {
            let mut msg = str_to_chars("تجاوزت عمق الاستدعاء الحد الاقصى (");
            let d = decimal_usize(self.frame_depth_limit);
            extend_chars(&mut msg, &d);
            let close = str_to_chars(")");
            extend_chars(&mut msg, &close);
            return Err(RuntimeError::new(chars_to_string(&msg)));
        }
        let saved_handler_len = self.exception_handlers.len();
        let saved_stack_len = self.stack.len();
        self.frames.push(Frame { arena_offset, arena_len, return_ip, saved_handler_len, saved_stack_len });
        Ok(())
    }

    /// Leaves the innermost frame: restores the handler and stack depths it
    /// saved and drops its locals.
    pub fn pop_frame(&mut self)
        ensures
            final(self)@ == spec_pop_frame(old(self)@),
    {
        match self.frames.pop() {
            Some(f) => {
                let ghost st = self.stack@;
                let ghost ar = self.locals_arena@;
                let ghost hs = self.exception_handlers@;
                self.exception_handlers.truncate(f.saved_handler_len);
                self.stack.truncate(f.saved_stack_len);
                self.locals_arena.truncate(f.arena_offset);
                assert(vals(self.stack@) =~= truncated(vals(st), f.saved_stack_len));
                assert(vals(self.locals_arena@) =~= truncated(vals(ar), f.arena_offset));
                assert(self.exception_handlers@ =~= truncated(hs, f.saved_handler_len));
            }
            None => {}
        }
    }
}

/// `s` cut to at most `n` elements.
pub open spec fn truncated<A>(s: Seq<A>, n: usize) -> Seq<A> {
    if n < s.len() { s.subrange(0, n as int) } else { s }
}

/// The machine after entering a frame.
pub open spec fn spec_push_frame(m: MachineModel, offset: usize, len: usize, ret: usize) -> MachineModel {
    MachineModel {
        frames: m.frames.push(Frame {
            arena_offset: offset,
            arena_len: len,
            return_ip: ret,
            saved_handler_len: m.handlers.len() as usize,
            saved_stack_len: m.stack.len() as usize,
        }),
        ..m
    }
}

/// The machine after leaving its innermost frame (unchanged when there is none).
pub open spec fn spec_pop_frame(m: MachineModel) -> MachineModel {
    if m.frames.len() == 0 {
        m
    } else {
        let f = m.frames.last();
        MachineModel {
            frames: m.frames.drop_last(),
            handlers: truncated(m.handlers, f.saved_handler_len),
            stack: truncated(m.stack, f.saved_stack_len),
            arena: truncated(m.arena, f.arena_offset),
            ..m
        }
    }
}

/// Entering a frame and then leaving it restores the machine exactly, when
/// the frame's locals begin at the end of the arena (as for every call).
pub proof fn law_push_pop_frame(m: MachineModel, offset: usize, len: usize, ret: usize)
    requires
        offset >= m.arena.len(),
        m.handlers.len() <= usize::MAX,
        m.stack.len() <= usize::MAX,
    ensures
        spec_pop_frame(spec_push_frame(m, offset, len, ret)) == m,
{
    let p = spec_push_frame(m, offset, len, ret);
    assert(p.frames.drop_last() =~= m.frames);
    assert(spec_pop_frame(p) =~= m);
}


// ---------------------------------------------------------------- programs

/// One instruction.  Operands are named after the instruction word's fields:
/// `a` (a local slot or a count), `b` (a constant or name index, or a small
/// count) and `c` (a jump offset or target).
#[derive(Debug, Clone, Copy, PartialEq)]
pub enum Instr {
    Halt,
    Nop,
    DupTop,
    LoadConst(usize),
    LoadNone,
    LoadTrue,
    LoadFalse,
    PopTop,
    LoadFast(usize),
    StoreFast(usize),
    IncrementInt(usize, usize),
    BinaryAdd,
    BinarySubtract,
    BinaryMultiply,
    BinaryDivide,
    BinaryFloorDivide,
    BinaryPower,
    BinaryModulo,
    UnaryNegative,
    UnaryNot,
    BinaryBitAnd,
    BinaryBitOr,
    BinaryBitXor,
    BinaryShl,
    BinaryShr,
    UnaryBitNot,
    CompareEq,
    CompareNotEq,
    CompareLt,
    CompareGt,
    CompareLtEq,
    CompareGtEq,
    CompareIn,
    CompareNotIn,
    CompareIs,
    CompareIsNot,
    AddLocalImm(usize, i64),
    SubtractLocalImm(usize, i64),
    LogicalAnd,
    LogicalOr,
    StoreName(usize),
    StoreGlobal(usize),
    LoadName(usize),
    LoadGlobal(usize),
    JumpForward(usize),
    JumpBackward(usize),
    PopJumpIfFalse(usize),
    PopJumpIfTrue(usize),
    ReturnValue,
    BuildList(u8),
    BuildTuple(u8),
    BuildDict(u8),
    BuildSet(u8),
    DictSetItem,
    Subscript,
    StoreSubscript,
    BuildSlice,
    ListAppend(u16),
    ListAppendLocal(usize),
    GetIter,
    ForIter,
    ForRange(usize, usize, usize, usize),
    StringCoerce,
    SetupExcept(usize),
    SetupFinally(usize),
    EndExcept,
    CheckExceptionType(usize),
    RegisterExceptionClass(usize),
    Raise,
    StringFormat,
    MakeFunction(usize),
    CallFunction(u8),
    BinaryAddIntInt,
    BinarySubIntInt,
    BinaryMulIntInt,
    BinaryDivIntInt,
    BinaryFloorDivIntInt,
    BinaryModIntInt,
    CompareLtIntInt,
    CompareGtIntInt,
    CompareEqIntInt,
    CompareLeIntInt,
    CompareGeIntInt,
    CompareNotEqIntInt,
    PopJumpIfLeLocalImm(usize, i64, usize),
    PopJumpIfLtLocalImm(usize, i64, usize),
    PopJumpIfLtLocal(usize, usize, usize),
    JumpWhileIncrementedLt(usize, usize, i64, bool, usize),
    ModJumpIfNotZero(usize, usize, usize),
    ModAddIfZero(usize, usize, usize),
    SubscriptLocal(usize, usize),
    StoreSubscriptLocal(usize, usize),
    SubscriptAddImm(usize, usize, i64),
    StoreSubscriptAddImm(usize, usize, i64),
    SwapAdjacent(usize, usize),
    PopJumpIfSubscriptGt(usize, usize, i64, usize),
    AddLocalFromStack(usize),
    InplaceAddStrConst(usize, usize),
    CallMethod(usize, u8),
    TailCall(u8),
    CallFunctionKw(u8),
    CallFunctionUnpacked(u8, u16, u32),
    CallMethodVoid(usize, u8),
    SubscriptLocal2D(usize, usize, usize),
    StoreSubscriptLocal2D(usize, usize, usize),
    AddToSubscript2D(usize, usize, usize, usize),
}

/// The instructions specialised for integer operands behave as the general
/// ones: the general ones already take the integer path first.
pub open spec fn canonical(i: Instr) -> Instr {
    match i {
        Instr::BinaryAddIntInt => Instr::BinaryAdd,
        Instr::BinarySubIntInt => Instr::BinarySubtract,
        Instr::BinaryMulIntInt => Instr::BinaryMultiply,
        Instr::BinaryDivIntInt => Instr::BinaryDivide,
        Instr::BinaryFloorDivIntInt => Instr::BinaryFloorDivide,
        Instr::BinaryModIntInt => Instr::BinaryModulo,
        Instr::CompareLtIntInt => Instr::CompareLt,
        Instr::CompareGtIntInt => Instr::CompareGt,
        Instr::CompareEqIntInt => Instr::CompareEq,
        Instr::CompareLeIntInt => Instr::CompareLtEq,
        Instr::CompareGeIntInt => Instr::CompareGtEq,
        Instr::CompareNotEqIntInt => Instr::CompareNotEq,
        _ => i,
    }
}

pub fn canonical_exec(i: Instr) -> (r: Instr)
    ensures
        r == canonical(i),
{
    match i {
        Instr::BinaryAddIntInt => Instr::BinaryAdd,
        Instr::BinarySubIntInt => Instr::BinarySubtract,
        Instr::BinaryMulIntInt => Instr::BinaryMultiply,
        Instr::BinaryDivIntInt => Instr::BinaryDivide,
        Instr::BinaryFloorDivIntInt => Instr::BinaryFloorDivide,
        Instr::BinaryModIntInt => Instr::BinaryModulo,
        Instr::CompareLtIntInt => Instr::CompareLt,
        Instr::CompareGtIntInt => Instr::CompareGt,
        Instr::CompareEqIntInt => Instr::CompareEq,
        Instr::CompareLeIntInt => Instr::CompareLtEq,
        Instr::CompareGeIntInt => Instr::CompareGtEq,
        Instr::CompareNotEqIntInt => Instr::CompareNotEq,
        _ => i,
    }
}

/// A compiled program.
#[derive(Debug)]
pub struct Program {
    pub code: Vec<Instr>,
    pub constants: Vec<Constant>,
    pub names: Vec<Vec<char>>,
    pub lines: Vec<u32>,
    pub local_names: Vec<Vec<char>>,
    pub num_locals: usize,
    pub functions: Vec<FunctionInfo>,
}

/// A function of a compiled program: its name, where its body starts, how
/// many parameters it takes, the local slot of each parameter, the default
/// of each parameter, the locals it captures from the enclosing frame (its
/// slot, the enclosing frame's slot), the number of locals it declares, and
/// whether it is a generator.
#[derive(Debug)]
pub struct FunctionInfo {
    pub name: Vec<char>,
    pub body: usize,
    pub param_count: usize,
    pub param_indices: Vec<usize>,
    pub defaults: Vec<Option<Constant>>,
    pub free_vars: Vec<(usize, usize)>,
    pub declared_locals: usize,
    pub is_generator: bool,
    pub param_names: Vec<Vec<char>>,
}

/// The model of a program function.
pub struct FunctionInfoModel {
    pub name: Seq<char>,
    pub body: usize,
    pub param_count: usize,
    pub param_indices: Seq<usize>,
    pub defaults: Seq<Option<Val>>,
    pub free_vars: Seq<(usize, usize)>,
    pub declared_locals: usize,
    pub is_generator: bool,
    pub param_names: Seq<Seq<char>>,
}

pub open spec fn info_model(f: FunctionInfo) -> FunctionInfoModel {
    FunctionInfoModel {
        name: f.name@,
        body: f.body,
        param_count: f.param_count,
        param_indices: f.param_indices@,
        defaults: Seq::new(f.defaults@.len(), |k: int| match f.defaults@[k] {
            Some(c) => Some(constant_val(c)),
            None => None,
        }),
        free_vars: f.free_vars@,
        declared_locals: f.declared_locals,
        is_generator: f.is_generator,
        param_names: char_seqs(f.param_names@),
    }
}

/// The model of a program.
pub struct ProgramModel {
    pub code: Seq<Instr>,
    pub constants: Seq<Val>,
    pub names: Seq<Seq<char>>,
    pub lines: Seq<u32>,
    pub local_names: Seq<Seq<char>>,
    pub num_locals: usize,
    pub functions: Seq<FunctionInfoModel>,
}

pub open spec fn char_seqs(s: Seq<Vec<char>>) -> Seq<Seq<char>> {
    Seq::new(s.len(), |i: int| s[i]@)
}

impl View for Program {
    type V = ProgramModel;

    open spec fn view(&self) -> ProgramModel {
        ProgramModel {
            code: self.code@,
            constants: Seq::new(self.constants@.len(), |i: int| constant_val(self.constants@[i])),
            names: char_seqs(self.names@),
            lines: self.lines@,
            local_names: char_seqs(self.local_names@),
            num_locals: self.num_locals,
            functions: Seq::new(self.functions@.len(), |k: int| info_model(self.functions@[k])),
        }
    }
}

/// Every constant and name an instruction refers to exists.
pub open spec fn instr_ok(i: Instr, p: ProgramModel) -> bool {
    match i {
        Instr::LoadConst(b) => b < p.constants.len(),
        Instr::StoreName(b) => b < p.names.len(),
        Instr::StoreGlobal(b) => b < p.names.len(),
        Instr::LoadName(b) => b < p.names.len(),
        Instr::LoadGlobal(b) => b < p.names.len(),
        Instr::MakeFunction(f) => f < p.functions.len(),
        Instr::JumpWhileIncrementedLt(_, _, _, limit_local, idx) => limit_local || idx < p.constants.len(),
        Instr::ModAddIfZero(_, ci, _) => ci < p.constants.len(),
        Instr::InplaceAddStrConst(_, b) => b < p.constants.len(),
        Instr::CallMethod(a, _) => a < p.names.len(),
        _ => true,
    }
}

pub open spec fn program_ok(p: ProgramModel) -> bool {
    forall|k: int| 0 <= k < p.code.len() ==> instr_ok(#[trigger] p.code[k], p)
}

/// Checks that every constant and name an instruction refers to exists.
pub fn validate_program(p: &Program) -> (r: bool)
    ensures
        r == program_ok(p@),
{
    let mut k: usize = 0;
    while k < p.code.len()
        invariant
            k <= p.code@.len(),
            forall|j: int| 0 <= j < k ==> instr_ok(#[trigger] p@.code[j], p@),
        decreases p.code@.len() - k,
    {
        let ok = match p.code[k] {
            Instr::LoadConst(b) => b < p.constants.len(),
            Instr::StoreName(b) => b < p.names.len(),
            Instr::StoreGlobal(b) => b < p.names.len(),
            Instr::LoadName(b) => b < p.names.len(),
            Instr::LoadGlobal(b) => b < p.names.len(),
            Instr::MakeFunction(f) => f < p.functions.len(),
            Instr::JumpWhileIncrementedLt(_, _, _, limit_local, idx) => limit_local || idx < p.constants.len(),
            Instr::ModAddIfZero(_, ci, _) => ci < p.constants.len(),
            Instr::InplaceAddStrConst(_, b) => b < p.constants.len(),
            Instr::CallMethod(a, _) => a < p.names.len(),
            _ => true,
        };
        if !ok {
            assert(!instr_ok(p@.code[k as int], p@));
            return false;
        }
        k = k + 1;
    }
    true
}

// ---------------------------------------------------------------- steps

/// What a step asks of its caller.
#[derive(Debug)]
pub enum Step {
    /// Keep stepping.
    Continue,
    /// The program has finished with this value.
    Halted(Value),
    /// The program stopped with this error.
    Failed(RuntimeError),
    /// Compute this float operation and resume with its result.
    Float(FloatTask),
    /// Call the named builtin with these arguments and resume with its result.
    CallNative(Vec<char>, Vec<Value>),
    /// Call the named builtin with these arguments and these keyword
    /// arguments (name and value, in the order given) and resume with its result.
    CallNativeKw(Vec<char>, Vec<Value>, Vec<(Vec<char>, Value)>),
    /// Render this number as a float, pad it by the specification, and
    /// resume with the text.
    Format(crate::formatting::FloatFormat, crate::formatting::FormatSpec),
    /// Compute this float operation and resume with its result, which the
    /// machine uses as the instruction says.
    FloatThen(FloatTask, crate::fused::FloatUse),
    /// Perform this method of this object with these arguments and resume
    /// with its result (and the object's new state when it changed).
    MethodCall(Vec<char>, Value, Vec<Value>),
    /// The next instruction's operands lie outside what the machine handles
    /// (the instruction panics there, or the model does not hold what it
    /// does); the machine is unchanged.  Also: an error left a nested run
    /// where a handler of the caller's frame takes it up while the run's
    /// frames stay in place, which the machine does not hold.
    Stuck,
}

/// The model of a step's request.
pub enum StepModel {
    Continue,
    Halted(Val),
    Failed(Seq<char>, Seq<char>, Option<usize>),
    Float(FloatTask),
    CallNative(Seq<char>, Seq<Val>),
    CallNativeKw(Seq<char>, Seq<Val>, Seq<(Seq<char>, Val)>),
    Format(crate::formatting::FloatFormat, crate::formatting::FormatSpec),
    FloatThen(FloatTask, crate::fused::FloatUse),
    MethodCall(Seq<char>, Val, Seq<Val>),
    Stuck,
}

pub open spec fn step_model(s: Step) -> StepModel {
    match s {
        Step::Continue => StepModel::Continue,
        Step::Halted(v) => StepModel::Halted(v@),
        Step::Failed(e) => StepModel::Failed(e.class_view(), e.message_view(), e.line_view()),
        Step::Float(t) => StepModel::Float(t),
        Step::CallNative(n, args) => StepModel::CallNative(n@, vals(args@)),
        Step::CallNativeKw(n, args, kw) => StepModel::CallNativeKw(n@, vals(args@), globals_model(kw@)),
        Step::Format(f, st) => StepModel::Format(f, st),
        Step::FloatThen(t, u) => StepModel::FloatThen(t, u),
        Step::MethodCall(n, o, args) => StepModel::MethodCall(n@, o@, vals(args@)),
        Step::Stuck => StepModel::Stuck,
    }
}

/// The stack after popping its top (null when empty), and the popped value.
pub open spec fn spop(st: Seq<Val>) -> (Seq<Val>, Val) {
    if st.len() == 0 { (st, Val::Null) } else { (st.drop_last(), st.last()) }
}

/// The value a local slot reads as (a cell reads as its contents).
pub open spec fn deref(v: Val) -> Val {
    match v {
        Val::Cell(_, inner) => *inner,
        _ => v,
    }
}

/// The raw contents of local slot `a` of the innermost frame (null outside it).
pub open spec fn local_slot(m: MachineModel, a: usize) -> Val {
    let f = m.frames.last();
    if a < f.arena_len { m.arena[f.arena_offset + a] } else { Val::Null }
}

/// The line of the instruction before `ip` (0 when unknown).
pub open spec fn line_at(p: ProgramModel, ip: usize) -> usize {
    if ip > 0 && ip - 1 < p.lines.len() { p.lines[ip - 1] as usize } else { 0 }
}

/// The handler depth below which handlers belong to outer frames.
pub open spec fn frame_handler_floor(m: MachineModel) -> usize {
    if m.frames.len() > 0 { m.frames.last().saved_handler_len } else { 0 }
}

/// Raising an exception of class `c` with message `msg`: the innermost
/// handler of the running frame receives it, else the machine fails with the
/// current line.
pub open spec fn spec_throw(m: MachineModel, p: ProgramModel, c: Seq<char>, msg: Seq<char>) -> (MachineModel, StepModel) {
    if m.handlers.len() > frame_handler_floor(m) {
        let exc = Val::Exception(ExcModel { class_name: c, message: msg, line: None, call_stack: Seq::empty() });
        (MachineModel {
            handlers: m.handlers.drop_last(),
            exception: Some(exc),
            stack: m.stack.push(exc),
            ip: m.handlers.last(),
            ..m
        }, StepModel::Continue)
    } else {
        (m, StepModel::Failed(c, msg, Some(line_at(p, m.ip))))
    }
}

/// Continuing after an operator: push its value, hand back a float task, raise or fail.
pub open spec fn spec_after(m: MachineModel, p: ProgramModel, o: OutcomeModel) -> (MachineModel, StepModel) {
    match o {
        OutcomeModel::Value(v) => (MachineModel { stack: m.stack.push(v), ..m }, StepModel::Continue),
        OutcomeModel::Float(t) => (m, StepModel::Float(t)),
        OutcomeModel::Raise(c, msg) => spec_throw(m, p, c, msg),
        OutcomeModel::Fatal(c, msg) => (m, StepModel::Failed(c, msg, None)),
    }
}

pub open spec fn push(m: MachineModel, v: Val) -> MachineModel {
    MachineModel { stack: m.stack.push(v), ..m }
}

pub open spec fn with_stack(m: MachineModel, st: Seq<Val>) -> MachineModel {
    MachineModel { stack: st, ..m }
}

pub open spec fn bump(m: MachineModel) -> MachineModel {
    MachineModel { next_oid: crate::ops::wrap_add_u64(m.next_oid), ..m }
}

/// Pops the right operand then the left one.
pub open spec fn pop2(m: MachineModel) -> (MachineModel, Val, Val) {
    let (s1, r) = spop(m.stack);
    let (s2, l) = spop(s1);
    (with_stack(m, s2), l, r)
}

/// The local store: through a cell when the slot holds one (every holder of
/// the cell sees the new contents); beyond the frame's locals the frame
/// grows (new slots start null).
pub open spec fn spec_store_local(m: MachineModel, a: usize, v: Val) -> MachineModel {
    let f = m.frames.last();
    let k = f.arena_offset + a;
    if a < f.arena_len {
        match m.arena[k] {
            Val::Cell(oid, _) => crate::steps::refresh_machine(m, Val::Cell(oid, Box::new(v))),
            _ => MachineModel { arena: m.arena.update(k, v), ..m },
        }
    } else {
        let grown = if k < m.arena.len() {
            m.arena.update(k, v)
        } else {
            m.arena + Seq::new((k - m.arena.len()) as nat, |i: int| Val::Null).push(v)
        };
        MachineModel {
            arena: grown,
            frames: m.frames.update(m.frames.len() - 1, Frame { arena_len: (a + 1) as usize, ..f }),
            ..m
        }
    }
}

/// Incrementing an integer local by `b` (wrapping), through a cell when the
/// slot holds one; a slot holding neither an integer nor a cell becomes null.
pub open spec fn spec_increment(m: MachineModel, a: usize, b: usize) -> MachineModel {
    let f = m.frames.last();
    let k = f.arena_offset + a;
    if a < f.arena_len {
        match m.arena[k] {
            Val::Cell(oid, inner) => match *inner {
                Val::Int(n) => crate::steps::refresh_machine(m, Val::Cell(oid, Box::new(Val::Int(crate::ops::wrap_add(n, b as i64))))),
                _ => m,
            },
            Val::Int(n) => MachineModel { arena: m.arena.update(k, Val::Int(crate::ops::wrap_add(n, b as i64))), ..m },
            _ => MachineModel { arena: m.arena.update(k, Val::Null), ..m },
        }
    } else {
        m
    }
}

/// The first index of `name` among the module's local names.
pub open spec fn local_index(names: Seq<Seq<char>>, name: Seq<char>) -> Option<int>
    decreases names.len(),
{
    if names.len() == 0 {
        None
    } else {
        match local_index(names.subrange(0, names.len() - 1), name) {
            Some(k) => Some(k),
            None => if names[names.len() - 1] == name { Some(names.len() - 1) } else { None },
        }
    }
}

/// A name read: the global binding, else the module-level local of that name, else null.
pub open spec fn spec_load_name(m: MachineModel, p: ProgramModel, name: Seq<char>) -> Val {
    match global_lookup(m.globals, name) {
        Some(v) => v,
        None => if m.frames.len() > 0 {
            match local_index(p.local_names, name) {
                Some(pos) => if pos < m.frames[0].arena_len { m.arena[m.frames[0].arena_offset + pos] } else { Val::Null },
                None => Val::Null,
            }
        } else {
            Val::Null
        },
    }
}

/// Ending the innermost nested run with `ret`: the innermost frame is left
/// (its handler, stack and locals depths restored), `ret` is pushed and the
/// run's caller resumes.
pub open spec fn spec_end_run(m: MachineModel, ret: Val) -> MachineModel {
    let popped = spec_pop_frame(m);
    MachineModel { stack: popped.stack.push(ret), ip: m.runs.last(), runs: m.runs.drop_last(), ..popped }
}

/// Whether an error leaving the innermost nested run is taken up by a
/// handler that the frame below the innermost one can see.
pub open spec fn caller_catches(m: MachineModel) -> bool {
    m.runs.len() > 0 && m.handlers.len() > (if m.frames.len() >= 2 { m.frames[m.frames.len() - 2].saved_handler_len as int } else { 0 })
}

/// Leaving the running frame with `ret`: inside a nested run the run ends;
/// otherwise outer frames resume at the saved instruction with `ret`
/// pushed, and leaving the outermost frame ends the program.
pub open spec fn spec_return(m: MachineModel, ret: Val) -> (MachineModel, StepModel) {
    if m.runs.len() > 0 {
        (spec_end_run(m, ret), StepModel::Continue)
    } else if m.frames.len() == 0 {
        (m, StepModel::Failed(crate::error::generic_error_class(), "إرجاع بدون إطار استدعاء"@, None))
    } else {
        let f = m.frames.last();
        let popped = MachineModel {
            frames: m.frames.drop_last(),
            handlers: truncated(m.handlers, f.saved_handler_len),
            stack: truncated(m.stack, f.saved_stack_len),
            arena: truncated(m.arena, f.arena_offset),
            ..m
        };
        if popped.frames.len() > 0 {
            (MachineModel { stack: popped.stack.push(ret), ip: f.return_ip, ..popped }, StepModel::Continue)
        } else {
            (MachineModel { result: ret, ..popped }, StepModel::Halted(ret))
        }
    }
}

/// A comparison result.
pub open spec fn spec_compare(i: Instr, l: Val, r: Val) -> bool {
    match i {
        Instr::CompareEq => crate::ops::val_eq(l, r),
        Instr::CompareNotEq => !crate::ops::val_eq(l, r),
        Instr::CompareLt => crate::ops::val_lt(l, r),
        Instr::CompareGt => crate::ops::val_gt(l, r),
        Instr::CompareLtEq => crate::ops::val_lt(l, r) || crate::ops::val_eq(l, r),
        Instr::CompareGtEq => crate::ops::val_gt(l, r) || crate::ops::val_eq(l, r),
        Instr::CompareIs => crate::ops::val_identical(l, r),
        _ => !crate::ops::val_identical(l, r),
    }
}

/// Instructions whose operands make them panic are excluded.
pub open spec fn step_defined(m: MachineModel, p: ProgramModel) -> bool {
    m.ip < p.code.len() ==> match canonical(p.code[m.ip as int]) {
        Instr::BinaryMultiply => { let (_, l, r) = pop2(m); crate::ops::mul_defined(l, r) },
        Instr::BinaryFloorDivide => { let (_, l, r) = pop2(m); crate::ops::int_division_defined(l, r) },
        Instr::BinaryModulo => { let (_, l, r) = pop2(m); crate::ops::int_division_defined(l, r) },
        Instr::JumpForward(c) => m.ip + c <= usize::MAX,
        Instr::StoreFast(a) => m.frames.last().arena_offset + a < usize::MAX,
        Instr::PopJumpIfFalse(c) => m.ip + c <= usize::MAX,
        Instr::PopJumpIfTrue(c) => m.ip + c <= usize::MAX,
        _ => crate::steps::ext_defined(m, p, canonical(p.code[m.ip as int])),
    }
}

/// The effect of executing the instruction at `ip`.
#[verifier::opaque]
pub open spec fn spec_step(m0: MachineModel, p: ProgramModel) -> (MachineModel, StepModel) {
    if m0.ip >= p.code.len() {
        if m0.runs.len() > 0 { (spec_end_run(m0, Val::Null), StepModel::Continue) } else { (m0, StepModel::Halted(m0.result)) }
    } else {
        let at = m0.ip;
        let m = MachineModel { ip: (m0.ip + 1) as usize, ..m0 };
        let i = canonical(p.code[at as int]);
        match i {
            Instr::Halt => if m.runs.len() > 0 {
                (spec_end_run(m, Val::Null), StepModel::Continue)
            } else {
                (m, StepModel::Halted(m.result))
            },
            Instr::Nop => (m, StepModel::Continue),
            Instr::DupTop => {
                let (s, v) = spop(m.stack);
                (with_stack(m, s.push(v).push(v)), StepModel::Continue)
            },
            Instr::LoadConst(b) => (push(m, p.constants[b as int]), StepModel::Continue),
            Instr::LoadNone => (push(m, Val::Null), StepModel::Continue),
            Instr::LoadTrue => (push(m, Val::Bool(true)), StepModel::Continue),
            Instr::LoadFalse => (push(m, Val::Bool(false)), StepModel::Continue),
            Instr::PopTop => (with_stack(m, spop(m.stack).0), StepModel::Continue),
            Instr::LoadFast(a) => (push(m, deref(local_slot(m, a))), StepModel::Continue),
            Instr::StoreFast(a) => {
                let (s, v) = spop(m.stack);
                (spec_store_local(with_stack(m, s), a, v), StepModel::Continue)
            },
            Instr::IncrementInt(a, b) => (spec_increment(m, a, b), StepModel::Continue),
            Instr::BinaryAdd => { let (m2, l, r) = pop2(m); spec_after(bump(m2), p, crate::ops::spec_add(l, r, m2.next_oid)) },
            Instr::BinarySubtract => { let (m2, l, r) = pop2(m); spec_after(m2, p, crate::ops::spec_sub(l, r)) },
            Instr::BinaryMultiply => { let (m2, l, r) = pop2(m); spec_after(bump(m2), p, crate::ops::spec_mul(l, r, m2.next_oid)) },
            Instr::BinaryDivide => { let (m2, l, r) = pop2(m); spec_after(m2, p, crate::ops::spec_div(l, r)) },
            Instr::BinaryFloorDivide => { let (m2, l, r) = pop2(m); spec_after(m2, p, crate::ops::spec_floor_div(l, r)) },
            Instr::BinaryPower => { let (m2, l, r) = pop2(m); spec_after(m2, p, crate::ops::spec_pow(l, r)) },
            Instr::BinaryModulo => { let (m2, l, r) = pop2(m); spec_after(m2, p, crate::ops::spec_mod(l, r)) },
            Instr::UnaryNegative => {
                let (s, v) = spop(m.stack);
                spec_after(with_stack(m, s), p, crate::ops::spec_neg(v))
            },
            Instr::UnaryNot => {
                let (s, v) = spop(m.stack);
                (with_stack(m, s.push(Val::Bool(!truthy(v)))), StepModel::Continue)
            },
            Instr::BinaryBitAnd => { let (m2, l, r) = pop2(m); spec_after(m2, p, crate::ops::spec_bitop(BitOp::And, l, r)) },
            Instr::BinaryBitOr => { let (m2, l, r) = pop2(m); spec_after(m2, p, crate::ops::spec_bitop(BitOp::Or, l, r)) },
            Instr::BinaryBitXor => { let (m2, l, r) = pop2(m); spec_after(m2, p, crate::ops::spec_bitop(BitOp::Xor, l, r)) },
            Instr::BinaryShl => { let (m2, l, r) = pop2(m); spec_after(m2, p, crate::ops::spec_bitop(BitOp::Shl, l, r)) },
            Instr::BinaryShr => { let (m2, l, r) = pop2(m); spec_after(m2, p, crate::ops::spec_bitop(BitOp::Shr, l, r)) },
            Instr::UnaryBitNot => {
                let (s, v) = spop(m.stack);
                spec_after(with_stack(m, s), p, crate::ops::spec_bit_not(v))
            },
            Instr::CompareIn => {
                let (m2, l, r) = pop2(m);
                match crate::ops::spec_contains(r, l) {
                    Some(b) => (push(m2, Val::Bool(b)), StepModel::Continue),
                    None => spec_throw(m2, p, crate::ops::type_error_class(), "عملية 'في' غير مدعومة على هذا النوع"@),
                }
            },
            Instr::CompareNotIn => {
                let (m2, l, r) = pop2(m);
                match crate::ops::spec_contains(r, l) {
                    Some(b) => (push(m2, Val::Bool(!b)), StepModel::Continue),
                    None => spec_throw(m2, p, crate::ops::type_error_class(), "عملية 'ليس في' غير مدعومة على هذا النوع"@),
                }
            },
            Instr::CompareEq | Instr::CompareNotEq | Instr::CompareLt | Instr::CompareGt
            | Instr::CompareLtEq | Instr::CompareGtEq | Instr::CompareIs | Instr::CompareIsNot => {
                let (m2, l, r) = pop2(m);
                (push(m2, Val::Bool(spec_compare(i, l, r))), StepModel::Continue)
            },
            Instr::AddLocalImm(a, imm) => if a < m.frames.last().arena_len {
                spec_after(bump(m), p, crate::ops::spec_add(deref(local_slot(m, a)), Val::Int(imm), m.next_oid))
            } else {
                (push(m, Val::Null), StepModel::Continue)
            },
            Instr::SubtractLocalImm(a, imm) => if a < m.frames.last().arena_len {
                spec_after(m, p, crate::ops::spec_sub(deref(local_slot(m, a)), Val::Int(imm)))
            } else {
                (push(m, Val::Null), StepModel::Continue)
            },
            Instr::LogicalAnd => {
                let (m2, l, r) = pop2(m);
                (push(m2, if !truthy(l) { l } else { Val::Bool(truthy(r)) }), StepModel::Continue)
            },
            Instr::LogicalOr => {
                let (m2, l, r) = pop2(m);
                (push(m2, if truthy(l) { l } else { Val::Bool(truthy(r)) }), StepModel::Continue)
            },
            Instr::StoreName(b) | Instr::StoreGlobal(b) => {
                let (s, v) = spop(m.stack);
                (MachineModel { stack: s, globals: global_insert(m.globals, p.names[b as int], v), ..m }, StepModel::Continue)
            },
            Instr::LoadName(b) => (push(m, spec_load_name(m, p, p.names[b as int])), StepModel::Continue),
            Instr::LoadGlobal(b) => (push(m, match global_lookup(m.globals, p.names[b as int]) {
                Some(v) => v,
                None => Val::Null,
            }), StepModel::Continue),
            Instr::JumpForward(c) => (MachineModel { ip: (at + c) as usize, ..m }, StepModel::Continue),
            Instr::JumpBackward(c) => (MachineModel { ip: c, ..m }, StepModel::Continue),
            Instr::PopJumpIfFalse(c) => {
                let (s, v) = spop(m.stack);
                (MachineModel { stack: s, ip: if !truthy(v) { (at + c) as usize } else { m.ip }, ..m }, StepModel::Continue)
            },
            Instr::PopJumpIfTrue(c) => {
                let (s, v) = spop(m.stack);
                (MachineModel { stack: s, ip: if truthy(v) { (at + c) as usize } else { m.ip }, ..m }, StepModel::Continue)
            },
            Instr::ReturnValue => {
                let (s, v) = spop(m.stack);
                spec_return(with_stack(m, s), v)
            },
            _ => crate::steps::spec_step_ext(m, p, i),
        }
    }
}


impl VM {
    pub(crate) fn pop_value(&mut self) -> (v: Value)
        ensures
            final(self)@ == with_stack(old(self)@, spop(old(self)@.stack).0),
            v@ == spop(old(self)@.stack).1,
    {
        let ghost st = self.stack@;
        match self.stack.pop() {
            Some(v) => {
                assert(vals(self.stack@) =~= vals(st).drop_last());
                v
            }
            None => {
                assert(vals(self.stack@) =~= vals(st));
                Value::Null
            }
        }
    }

    pub(crate) fn push_value(&mut self, v: Value)
        ensures
            final(self)@ == push(old(self)@, v@),
    {
        let ghost st = self.stack@;
        self.stack.push(v);
        assert(vals(self.stack@) =~= vals(st).push(v@));
    }

    pub(crate) fn bump_oid(&mut self) -> (fresh: u64)
        ensures
            fresh == old(self)@.next_oid,
            final(self)@ == bump(old(self)@),
    {
        let fresh = self.next_oid;
        self.next_oid = self.next_oid.wrapping_add(1);
        fresh
    }

    pub(crate) fn line_of(p: &Program, ip: usize) -> (l: usize)
        ensures
            l == line_at(p@, ip),
    {
        if ip > 0 && ip - 1 < p.lines.len() {
            p.lines[ip - 1] as usize
        } else {
            0
        }
    }

    /// Raises an exception of class `c` with message `msg` in the running frame.
    pub(crate) fn throw(&mut self, p: &Program, c: &str, msg: Vec<char>) -> (s: Step)
        ensures
            (final(self)@, step_model(s)) == spec_throw(old(self)@, p@, c@, msg@),
    {
        self.throw_chars(p, str_to_chars(c), msg)
    }

    /// Continues after an operator's outcome.
    pub(crate) fn after(&mut self, p: &Program, o: Outcome) -> (s: Step)
        ensures
            (final(self)@, step_model(s)) == spec_after(old(self)@, p@, outcome_model(o)),
    {
        match o {
            Outcome::Value(v) => {
                let ghost vm = v@;
                self.push_value(v);
                assert(outcome_model(o) == OutcomeModel::Value(vm));
                assert(self@ == push(old(self)@, vm));
                Step::Continue
            }
            Outcome::Float(t) => {
                assert(self@ == old(self)@);
                Step::Float(t)
            }
            Outcome::Raise(e) => {
                let c = crate::text::str_to_chars(e.class_name());
                let m = crate::text::str_to_chars(e.message());
                assert(c@ == e.class_view() && m@ == e.message_view());
                let s = self.throw_chars(p, c, m);
                assert((self@, step_model(s)) == spec_throw(old(self)@, p@, e.class_view(), e.message_view()));
                s
            }
            Outcome::Fatal(e) => {
                let c = chars_to_string(&crate::text::str_to_chars(e.class_name()));
                let m = chars_to_string(&crate::text::str_to_chars(e.message()));
                Step::Failed(RuntimeError::new_typed(c, m))
            }
        }
    }

    pub(crate) fn throw_chars(&mut self, p: &Program, c: Vec<char>, msg: Vec<char>) -> (s: Step)
        ensures
            (final(self)@, step_model(s)) == spec_throw(old(self)@, p@, c@, msg@),
    {
        let floor = if self.frames.len() > 0 { self.frames[self.frames.len() - 1].saved_handler_len } else { 0 };
        if self.exception_handlers.len() > floor {
            let handler = self.exception_handlers.pop().unwrap();
            let class_s = chars_to_string(&c);
            let msg_s = chars_to_string(&msg);
            let d = ExceptionData { class_name: class_s, message: msg_s, line: None, call_stack: Vec::new() };
            assert(crate::value::exc_model(d).call_stack =~= Seq::<(Seq<char>, Option<usize>)>::empty());
            let exc = Value::Exception(d);
            self.current_exception = Some(exc.duplicate());
            self.push_value(exc);
            self.ip = handler;
            Step::Continue
        } else {
            let line = Self::line_of(p, self.ip);
            let e = RuntimeError::new_typed(chars_to_string(&c), chars_to_string(&msg)).with_line(line);
            Step::Failed(e)
        }
    }

    /// The raw contents of local slot `a` of the innermost frame.
    pub(crate) fn local_raw(&self, a: usize) -> (v: Value)
        requires
            wf(self@),
            self@.frames.len() > 0,
        ensures
            v@ == local_slot(self@, a),
    {
        let f = self.frames[self.frames.len() - 1];
        proof {
            let k = self@.frames.len() - 1;
            assert(f == self@.frames[k]);
            assert(self@.frames[k].arena_offset + self@.frames[k].arena_len <= self@.arena.len());
            assert(self@.arena.len() == self.locals_arena@.len());
            assert(self.locals_arena@.len() == self.locals_arena.len());
        }
        if a < f.arena_len {
            self.locals_arena[f.arena_offset + a].duplicate()
        } else {
            Value::Null
        }
    }
}

/// The value a slot reads as.
pub fn deref_value(v: Value) -> (r: Value)
    ensures
        r@ == deref(v@),
{
    match v {
        Value::Cell(c) => *c.inner,
        other => other,
    }
}


/// The first index of `name` among the program's local names.
pub fn local_name_index(p: &Program, name: &Vec<char>) -> (r: Option<usize>)
    ensures
        r matches Some(k) ==> local_index(p@.local_names, name@) == Some(k as int) && k < p@.local_names.len(),
        r is None ==> local_index(p@.local_names, name@) is None,
{
    let ghost ns = p@.local_names;
    proof { lemma_local_index(ns, name@); }
    let mut i: usize = 0;
    while i < p.local_names.len()
        invariant
            ns == p@.local_names,
            ns.len() == p.local_names@.len(),
            i <= ns.len(),
            forall|j: int| 0 <= j < i ==> ns[j] != name@,
            local_index(ns, name@) matches Some(k) ==> 0 <= k < ns.len() && ns[k] == name@
                && forall|j: int| 0 <= j < k ==> ns[j] != name@,
            local_index(ns, name@) is None ==> forall|j: int| 0 <= j < ns.len() ==> ns[j] != name@,
        decreases p.local_names@.len() - i,
    {
        if chars_eq(&p.local_names[i], name) {
            assert(ns[i as int] == name@);
            return Some(i);
        }
        i = i + 1;
    }
    None
}

pub proof fn lemma_local_index(ns: Seq<Seq<char>>, name: Seq<char>)
    ensures
        local_index(ns, name) matches Some(k) ==> 0 <= k < ns.len() && ns[k] == name
            && forall|j: int| 0 <= j < k ==> ns[j] != name,
        local_index(ns, name) is None ==> forall|j: int| 0 <= j < ns.len() ==> ns[j] != name,
    decreases ns.len(),
{
    if ns.len() > 0 {
        let pre = ns.subrange(0, ns.len() - 1);
        lemma_local_index(pre, name);
        assert forall|j: int| 0 <= j < pre.len() implies pre[j] == ns[j] by {}
    }
}

impl VM {
    fn store_local(&mut self, a: usize, v: Value)
        requires
            wf(old(self)@),
            old(self)@.frames.len() > 0,
            old(self)@.frames.last().arena_offset + a < usize::MAX,
        ensures
            final(self)@ == spec_store_local(old(self)@, a, v@),
            wf(final(self)@),
    {
        let ghost m = self@;
        let fi = self.frames.len() - 1;
        let f = self.frames[fi];
        proof {
            assert(f == m.frames[fi as int]);
            assert(m.frames[fi as int].arena_offset + m.frames[fi as int].arena_len <= m.arena.len());
            assert(m.arena.len() == self.locals_arena@.len());
        }
        let k = f.arena_offset + a;
        if a < f.arena_len {
            assert(m.arena[k as int] == self.locals_arena@[k as int]@);
            let cell_oid = match &self.locals_arena[k] {
                Value::Cell(c) => Some(c.oid),
                _ => None,
            };
            match cell_oid {
                Some(oid) => {
                    let nc = Value::Cell(CellObj { oid, inner: Box::new(v) });
                    self.refresh_holders(&nc);
                    proof { crate::steps::lemma_refresh_keeps_layout(m, nc@); }
                }
                None => {
                    let ghost vm = v@;
                    self.locals_arena.set(k, v);
                    assert(vals(self.locals_arena@) =~= m.arena.update(k as int, vm));
                    assert(self@ =~= spec_store_local(m, a, vm));
                }
            }
        } else {
            let ghost vm = v@;
            self.frames.set(fi, Frame { arena_len: a + 1, ..f });
            if k < self.locals_arena.len() {
                self.locals_arena.set(k, v);
                assert(vals(self.locals_arena@) =~= m.arena.update(k as int, vm));
            } else {
                let ghost start = self.locals_arena@;
                let gap = k - self.locals_arena.len();
                let mut grow: Vec<Value> = Vec::new();
                while grow.len() < gap
                    invariant
                        grow@.len() <= gap,
                        forall|j: int| 0 <= j < grow@.len() ==> grow@[j] == Value::Null,
                    decreases gap - grow@.len(),
                {
                    grow.push(Value::Null);
                }
                grow.push(v);
                self.locals_arena.append(&mut grow);
                proof {
                    let target = m.arena + Seq::new((k - m.arena.len()) as nat, |i: int| Val::Null).push(vm);
                    let got = vals(self.locals_arena@);
                    assert(got.len() == target.len());
                    assert forall|j: int| 0 <= j < got.len() implies got[j] == target[j] by {
                        if j < start.len() {
                            assert(self.locals_arena@[j] == start[j]);
                        } else if j < k {
                            assert(self.locals_arena@[j] == Value::Null);
                        }
                    }
                    assert(got =~= target);
                }
            }
            proof {
                let m2 = self@;
                assert(m2.frames =~= m.frames.update(fi as int, Frame { arena_len: (a + 1) as usize, ..f }));
                assert(m2 =~= spec_store_local(m, a, vm));
                assert forall|i: int| 0 <= i < m2.frames.len() implies
                    #[trigger] m2.frames[i].arena_offset + m2.frames[i].arena_len <= m2.arena.len() by {
                    if i < fi {
                        assert(m2.frames[i] == m.frames[i]);
                        assert(m.frames[i].arena_offset + m.frames[i].arena_len <= m.frames[fi as int].arena_offset);
                    }
                }
                assert forall|i: int, j: int| 0 <= i < j < m2.frames.len() implies
                    #[trigger] m2.frames[i].arena_offset + m2.frames[i].arena_len <= #[trigger] m2.frames[j].arena_offset by {
                    assert(m2.frames[i] == m.frames[i]);
                    assert(m2.frames[j].arena_offset == m.frames[j].arena_offset);
                }
            }
        }
    }

    fn increment_local(&mut self, a: usize, b: usize)
        requires
            wf(old(self)@),
            old(self)@.frames.len() > 0,
        ensures
            final(self)@ == spec_increment(old(self)@, a, b),
            wf(final(self)@),
    {
        let ghost m = self@;
        let fi = self.frames.len() - 1;
        let f = self.frames[fi];
        proof {
            assert(f == m.frames[fi as int]);
            assert(m.frames[fi as int].arena_offset + m.frames[fi as int].arena_len <= m.arena.len());
            assert(m.arena.len() == self.locals_arena@.len());
            assert(self.locals_arena@.len() == self.locals_arena.len());
        }
        if a < f.arena_len {
            let k = f.arena_offset + a;
            let inc = b as i64;
            assert(m.arena[k as int] == self.locals_arena@[k as int]@);
            let cur = self.locals_arena[k].duplicate();
            match cur {
                Value::Cell(c) => {
                    proof { reveal_with_fuel(crate::value::vmodel, 2); }
                    match *c.inner {
                        Value::Integer(n) => {
                            let nv: i64 = n.wrapping_add(inc);
                            assert(nv == crate::ops::wrap_add(n, b as i64));
                            let nc = Value::Cell(CellObj { oid: c.oid, inner: Box::new(Value::Integer(nv)) });
                            self.refresh_holders(&nc);
                            proof { crate::steps::lemma_refresh_keeps_layout(m, nc@); }
                        }
                        _ => {}
                    }
                }
                Value::Integer(n) => {
                    let nv: i64 = n.wrapping_add(inc);
                    assert(nv == crate::ops::wrap_add(n, b as i64));
                    self.locals_arena.set(k, Value::Integer(nv));
                    assert(vals(self.locals_arena@) =~= m.arena.update(k as int, Val::Int(nv)));
                    assert(self@ =~= spec_increment(m, a, b));
                }
                _ => {
                    self.locals_arena.set(k, Value::Null);
                    assert(vals(self.locals_arena@) =~= m.arena.update(k as int, Val::Null));
                    assert(self@ =~= spec_increment(m, a, b));
                }
            }
        }
    }

    fn load_name(&self, p: &Program, name: &Vec<char>) -> (v: Value)
        requires
            wf(self@),
        ensures
            v@ == spec_load_name(self@, p@, name@),
    {
        match self.lookup_global(name) {
            Some(v) => v,
            None => {
                if self.frames.len() > 0 {
                    match local_name_index(p, name) {
                        Some(pos) => {
                            let f0 = self.frames[0];
                            proof {
                                assert(f0 == self@.frames[0]);
                                assert(self@.frames[0].arena_offset + self@.frames[0].arena_len <= self@.arena.len());
                                assert(self@.arena.len() == self.locals_arena@.len());
                                assert(self.locals_arena@.len() == self.locals_arena.len());
                            }
                            if pos < f0.arena_len {
                                self.locals_arena[f0.arena_offset + pos].duplicate()
                            } else {
                                Value::Null
                            }
                        }
                        None => Value::Null,
                    }
                } else {
                    Value::Null
                }
            }
        }
    }

    /// Ends the innermost nested run with `ret`.
    pub(crate) fn end_run(&mut self, ret: Value)
        requires
            wf(old(self)@),
            old(self)@.runs.len() > 0,
        ensures
            final(self)@ == spec_end_run(old(self)@, ret@),
            wf(final(self)@),
    {
        let ghost m = self@;
        self.pop_frame();
        proof {
            let f = m.frames.last();
            if m.frames.len() > 0 {
                assert(self@.frames =~= m.frames.drop_last());
                assert forall|i: int| 0 <= i < self@.frames.len() implies
                    #[trigger] self@.frames[i].arena_offset + self@.frames[i].arena_len <= self@.arena.len() by {
                    assert(m.frames[i] == self@.frames[i]);
                    assert(m.frames[i].arena_offset + m.frames[i].arena_len <= m.frames[m.frames.len() - 1].arena_offset);
                }
            }
        }
        let resume = self.runs.pop().unwrap();
        self.push_value(ret);
        self.ip = resume;
    }

    fn do_return(&mut self, ret: Value) -> (s: Step)
        requires
            wf(old(self)@),
        ensures
            (final(self)@, step_model(s)) == spec_return(old(self)@, ret@),
            wf(final(self)@),
    {
        let ghost m = self@;
        if self.runs.len() > 0 {
            self.end_run(ret);
            return Step::Continue;
        }
        match self.frames.pop() {
            None => Step::Failed(RuntimeError::new(chars_to_string(&str_to_chars("إرجاع بدون إطار استدعاء")))),
            Some(f) => {
                let ghost st = self.stack@;
                let ghost ar = self.locals_arena@;
                let ghost hs = self.exception_handlers@;
                if self.exception_handlers.len() > f.saved_handler_len {
                    self.exception_handlers.truncate(f.saved_handler_len);
                }
                if self.stack.len() > f.saved_stack_len {
                    self.stack.truncate(f.saved_stack_len);
                }
                self.locals_arena.truncate(f.arena_offset);
                assert(vals(self.stack@) =~= truncated(vals(st), f.saved_stack_len));
                assert(vals(self.locals_arena@) =~= truncated(vals(ar), f.arena_offset));
                assert(self.exception_handlers@ =~= truncated(hs, f.saved_handler_len));
                proof {
                    assert(f == m.frames.last());
                    assert(self.frames@ =~= m.frames.drop_last());
                    assert forall|i: int| 0 <= i < self@.frames.len() implies
                        #[trigger] self@.frames[i].arena_offset + self@.frames[i].arena_len <= self@.arena.len() by {
                        assert(m.frames[i] == self@.frames[i]);
                        assert(m.frames[i].arena_offset + m.frames[i].arena_len <= m.frames[m.frames.len() - 1].arena_offset);
                    }
                }
                if self.frames.len() > 0 {
                    let ghost vm = ret@;
                    self.push_value(ret);
                    self.ip = f.return_ip;
                    Step::Continue
                } else {
                    let r2 = ret.duplicate();
                    self.result = ret;
                    Step::Halted(r2)
                }
            }
        }
    }
}


impl VM {
    fn binary(&mut self, p: &Program, i: Instr) -> (s: Step)
        requires
            i is BinaryAdd || i is BinarySubtract || i is BinaryMultiply || i is BinaryDivide
                || i is BinaryFloorDivide || i is BinaryPower || i is BinaryModulo,
            i is BinaryMultiply ==> { let (_, l, r) = pop2(old(self)@); crate::ops::mul_defined(l, r) },
            (i is BinaryFloorDivide || i is BinaryModulo) ==> { let (_, l, r) = pop2(old(self)@); crate::ops::int_division_defined(l, r) },
        ensures
            ({
                let (m2, l, r) = pop2(old(self)@);
                (final(self)@, step_model(s)) == match i {
                    Instr::BinaryAdd => spec_after(bump(m2), p@, crate::ops::spec_add(l, r, m2.next_oid)),
                    Instr::BinarySubtract => spec_after(m2, p@, crate::ops::spec_sub(l, r)),
                    Instr::BinaryMultiply => spec_after(bump(m2), p@, crate::ops::spec_mul(l, r, m2.next_oid)),
                    Instr::BinaryDivide => spec_after(m2, p@, crate::ops::spec_div(l, r)),
                    Instr::BinaryFloorDivide => spec_after(m2, p@, crate::ops::spec_floor_div(l, r)),
                    Instr::BinaryPower => spec_after(m2, p@, crate::ops::spec_pow(l, r)),
                    _ => spec_after(m2, p@, crate::ops::spec_mod(l, r)),
                }
            }),
    {
        let r = self.pop_value();
        let l = self.pop_value();
        match i {
            Instr::BinaryAdd => {
                let fresh = self.bump_oid();
                let o = crate::ops::binary_add(l, r, fresh);
                self.after(p, o)
            }
            Instr::BinarySubtract => {
                let o = crate::ops::binary_sub(l, r);
                self.after(p, o)
            }
            Instr::BinaryMultiply => {
                let fresh = self.bump_oid();
                let o = crate::ops::binary_mul(l, r, fresh);
                self.after(p, o)
            }
            Instr::BinaryDivide => {
                let o = crate::ops::binary_div(l, r);
                self.after(p, o)
            }
            Instr::BinaryFloorDivide => {
                let o = crate::ops::binary_floor_div(l, r);
                self.after(p, o)
            }
            Instr::BinaryPower => {
                let o = crate::ops::binary_pow(l, r);
                self.after(p, o)
            }
            _ => {
                let o = crate::ops::binary_mod(l, r);
                self.after(p, o)
            }
        }
    }

    fn bitwise(&mut self, p: &Program, op: BitOp) -> (s: Step)
        ensures
            ({
                let (m2, l, r) = pop2(old(self)@);
                (final(self)@, step_model(s)) == spec_after(m2, p@, crate::ops::spec_bitop(op, l, r))
            }),
    {
        let r = self.pop_value();
        let l = self.pop_value();
        let o = crate::ops::binary_bitop(op, l, r);
        self.after(p, o)
    }

    fn compare(&mut self, i: Instr) -> (s: Step)
        ensures
            ({
                let (m2, l, r) = pop2(old(self)@);
                (final(self)@, step_model(s)) == (push(m2, Val::Bool(spec_compare(i, l, r))), StepModel::Continue)
            }),
    {
        let r = self.pop_value();
        let l = self.pop_value();
        let b = match i {
            Instr::CompareEq => crate::ops::values_equal(&l, &r),
            Instr::CompareNotEq => !crate::ops::values_equal(&l, &r),
            Instr::CompareLt => crate::ops::less_than(&l, &r),
            Instr::CompareGt => crate::ops::greater_than(&l, &r),
            Instr::CompareLtEq => crate::ops::less_than(&l, &r) || crate::ops::values_equal(&l, &r),
            Instr::CompareGtEq => crate::ops::greater_than(&l, &r) || crate::ops::values_equal(&l, &r),
            Instr::CompareIs => crate::ops::is_identical(&l, &r),
            _ => !crate::ops::is_identical(&l, &r),
        };
        self.push_value(Value::Boolean(b));
        Step::Continue
    }

    fn membership(&mut self, p: &Program, negate: bool) -> (s: Step)
        ensures
            ({
                let (m2, l, r) = pop2(old(self)@);
                (final(self)@, step_model(s)) == match crate::ops::spec_contains(r, l) {
                    Some(b) => (push(m2, Val::Bool(if negate { !b } else { b })), StepModel::Continue),
                    None => spec_throw(m2, p@, crate::ops::type_error_class(),
                        if negate { "عملية 'ليس في' غير مدعومة على هذا النوع"@ } else { "عملية 'في' غير مدعومة على هذا النوع"@ }),
                }
            }),
    {
        let r = self.pop_value();
        let l = self.pop_value();
        match crate::ops::contains(&r, &l) {
            Some(b) => {
                self.push_value(Value::Boolean(if negate { !b } else { b }));
                Step::Continue
            }
            None => {
                if negate {
                    self.throw(p, "استثناء_نوع", str_to_chars("عملية 'ليس في' غير مدعومة على هذا النوع"))
                } else {
                    self.throw(p, "استثناء_نوع", str_to_chars("عملية 'في' غير مدعومة على هذا النوع"))
                }
            }
        }
    }

    /// Executes the instruction at `ip`.
    #[verifier::rlimit(40)]
    pub fn step(&mut self, p: &Program) -> (s: Step)
        requires
            wf(old(self)@),
            old(self)@.frames.len() > 0,
            program_ok(p@),
            step_defined(old(self)@, p@),
        ensures
            (final(self)@, step_model(s)) == spec_step(old(self)@, p@),
            wf(final(self)@),
    {
        let ghost m0 = self@;
        proof { reveal(spec_step); }
        if self.ip >= p.code.len() {
            if self.runs.len() > 0 {
                self.end_run(Value::Null);
                return Step::Continue;
            }
            return Step::Halted(self.result.duplicate());
        }
        let at = self.ip;
        let instr = canonical_exec(p.code[at]);
        proof { assert(instr_ok(p@.code[at as int], p@)); assert(instr_ok(instr, p@)); }
        self.ip = at + 1;
        let ghost m = self@;
        assert(m == MachineModel { ip: (m0.ip + 1) as usize, ..m0 });
        match instr {
            Instr::Halt => {
                if self.runs.len() > 0 {
                    self.end_run(Value::Null);
                    return Step::Continue;
                }
                Step::Halted(self.result.duplicate())
            }
            Instr::Nop => Step::Continue,
            Instr::DupTop => {
                let v = self.pop_value();
                let w = v.duplicate();
                self.push_value(w);
                self.push_value(v);
                Step::Continue
            }
            Instr::LoadConst(b) => {
                let v = convert_value(&p.constants[b]);
                self.push_value(v);
                Step::Continue
            }
            Instr::LoadNone => { self.push_value(Value::Null); Step::Continue }
            Instr::LoadTrue => { self.push_value(Value::Boolean(true)); Step::Continue }
            Instr::LoadFalse => { self.push_value(Value::Boolean(false)); Step::Continue }
            Instr::PopTop => { let _ = self.pop_value(); Step::Continue }
            Instr::LoadFast(a) => {
                let v = deref_value(self.local_raw(a));
                self.push_value(v);
                Step::Continue
            }
            Instr::StoreFast(a) => {
                let v = self.pop_value();
                self.store_local(a, v);
                Step::Continue
            }
            Instr::IncrementInt(a, b) => {
                self.increment_local(a, b);
                Step::Continue
            }
            Instr::BinaryAdd | Instr::BinarySubtract | Instr::BinaryMultiply | Instr::BinaryDivide
            | Instr::BinaryFloorDivide | Instr::BinaryPower | Instr::BinaryModulo => self.binary(p, instr),
            Instr::UnaryNegative => {
                let v = self.pop_value();
                let o = crate::ops::unary_neg(v);
                self.after(p, o)
            }
            Instr::UnaryNot => {
                let v = self.pop_value();
                let b = v.is_truthy();
                self.push_value(Value::Boolean(!b));
                Step::Continue
            }
            Instr::BinaryBitAnd => self.bitwise(p, BitOp::And),
            Instr::BinaryBitOr => self.bitwise(p, BitOp::Or),
            Instr::BinaryBitXor => self.bitwise(p, BitOp::Xor),
            Instr::BinaryShl => self.bitwise(p, BitOp::Shl),
            Instr::BinaryShr => self.bitwise(p, BitOp::Shr),
            Instr::UnaryBitNot => {
                let v = self.pop_value();
                let o = crate::ops::unary_bit_not(v);
                self.after(p, o)
            }
            Instr::CompareIn => self.membership(p, false),
            Instr::CompareNotIn => self.membership(p, true),
            Instr::CompareEq | Instr::CompareNotEq | Instr::CompareLt | Instr::CompareGt
            | Instr::CompareLtEq | Instr::CompareGtEq | Instr::CompareIs | Instr::CompareIsNot => self.compare(instr),
            Instr::AddLocalImm(a, imm) => {
                let f = self.frames[self.frames.len() - 1];
                if a < f.arena_len {
                    let v = deref_value(self.local_raw(a));
                    let fresh = self.bump_oid();
                    let o = crate::ops::binary_add(v, Value::Integer(imm), fresh);
                    self.after(p, o)
                } else {
                    self.push_value(Value::Null);
                    Step::Continue
                }
            }
            Instr::SubtractLocalImm(a, imm) => {
                let f = self.frames[self.frames.len() - 1];
                if a < f.arena_len {
                    let v = deref_value(self.local_raw(a));
                    let o = crate::ops::binary_sub(v, Value::Integer(imm));
                    self.after(p, o)
                } else {
                    self.push_value(Value::Null);
                    Step::Continue
                }
            }
            Instr::LogicalAnd => {
                let r = self.pop_value();
                let l = self.pop_value();
                if !l.is_truthy() {
                    self.push_value(l);
                } else {
                    let b = r.is_truthy();
                    self.push_value(Value::Boolean(b));
                }
                Step::Continue
            }
            Instr::LogicalOr => {
                let r = self.pop_value();
                let l = self.pop_value();
                if l.is_truthy() {
                    self.push_value(l);
                } else {
                    let b = r.is_truthy();
                    self.push_value(Value::Boolean(b));
                }
                Step::Continue
            }
            Instr::StoreName(b) | Instr::StoreGlobal(b) => {
                let v = self.pop_value();
                let name = crate::value::copy_chars(&p.names[b]);
                self.insert_global(name, v);
                Step::Continue
            }
            Instr::LoadName(b) => {
                let v = self.load_name(p, &p.names[b]);
                self.push_value(v);
                Step::Continue
            }
            Instr::LoadGlobal(b) => {
                let v = match self.lookup_global(&p.names[b]) {
                    Some(v) => v,
                    None => Value::Null,
                };
                self.push_value(v);
                Step::Continue
            }
            Instr::JumpForward(c) => {
                self.ip = at + c;
                Step::Continue
            }
            Instr::JumpBackward(c) => {
                self.ip = c;
                Step::Continue
            }
            Instr::PopJumpIfFalse(c) => {
                let v = self.pop_value();
                if !v.is_truthy() {
                    self.ip = at + c;
                }
                Step::Continue
            }
            Instr::PopJumpIfTrue(c) => {
                let v = self.pop_value();
                if v.is_truthy() {
                    self.ip = at + c;
                }
                Step::Continue
            }
            Instr::ReturnValue => {
                let v = self.pop_value();
                self.do_return(v)
            }
            _ => self.step_ext(p, instr),
        }
    }
}

} // verus!
