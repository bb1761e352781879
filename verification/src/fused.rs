//! The fused instructions: loop tests, counters and element accesses that
//! work on local slots directly.
//!
//! They read the slots as they are (a slot holding a captured variable is
//! not looked through), as the compiler only fuses accesses to plain
//! locals.  Where one of them compares or combines an integer with a float,
//! or converts a float to an integer, it hands the float work to its caller
//! with what to do with the result (a [`FloatUse`]), and the caller resumes
//! with [`VM::resume_float`].

use vstd::prelude::*;
use crate::value::{Value, Val, ListObj, vals, val_text, group_value_model};
use crate::ops::{FloatTask, FloatOp, FloatOperand, OutcomeModel, mixed_float, float_operand, is_zero_number,
    trunc_rem, wrap_add, val_lt, val_gt, float_lt, float_eq};
use crate::containers::{spec_subscript, spec_store_subscript, element_at, norm_index};
use crate::machine::{VM, MachineModel, Program, ProgramModel, Instr, Step, StepModel, step_model, wf,
    spop, with_stack, bump, spec_throw, spec_after, local_slot};
use crate::steps::{refresh_machine, fits_memory, memory_class, memory_message};

verus! {

broadcast use group_value_model;

/// What the machine does with the result of float work it handed out.
#[derive(Debug, Clone, Copy, PartialEq)]
pub enum FloatUse {
    /// Store the result in local slot `a` (the slot itself).
    StoreLocal(usize),
    /// Jump to the target unless the result is true.
    JumpUnless(usize),
    /// Add one to the integer in local slot `a` when the result is true.
    CountIf(usize),
    /// The result is a loop's limit: while the integer in local slot `a`
    /// is below it, add the step to it and jump to the loop's start.
    LoopLimit(usize, usize, i64),
    /// Store the result at row `local b`, column `local c` of the list of
    /// lists in local `a`.
    StoreElement(usize, usize, usize),
}

// ---------------------------------------------------------------- model

/// Whether `a` is one of the running frame's locals.
pub open spec fn in_frame(m: MachineModel, a: usize) -> bool {
    a < m.frames.last().arena_len
}

/// The machine with local slot `a` of the running frame set to `v`.
pub open spec fn set_slot(m: MachineModel, a: usize, v: Val) -> MachineModel {
    MachineModel { arena: m.arena.update(m.frames.last().arena_offset + a, v), ..m }
}

pub open spec fn jump_to(m: MachineModel, t: usize) -> MachineModel {
    MachineModel { ip: t, ..m }
}

/// The integer a slot holds, 0 for anything else.
pub open spec fn int_or_zero(v: Val) -> i64 {
    match v {
        Val::Int(n) => n,
        _ => 0,
    }
}

/// Adds `d` to the integer in slot `a`; other contents stay.
pub open spec fn add_to_slot(m: MachineModel, a: usize, d: i64) -> MachineModel {
    match local_slot(m, a) {
        Val::Int(n) => set_slot(m, a, Val::Int(wrap_add(n, d))),
        _ => m,
    }
}

/// One round of a counted loop with limit `lim`.
pub open spec fn loop_round(m: MachineModel, a: usize, start: usize, inc: i64, lim: i64) -> MachineModel {
    if int_or_zero(local_slot(m, a)) < lim {
        jump_to(add_to_slot(m, a, inc), start)
    } else {
        m
    }
}

/// Resuming after float work with its result `v`.
pub open spec fn spec_resume_float(m: MachineModel, u: FloatUse, v: Val) -> MachineModel {
    if m.frames.len() == 0 {
        m
    } else {
        match u {
            FloatUse::StoreLocal(a) => if in_frame(m, a) { set_slot(m, a, v) } else { m },
            FloatUse::JumpUnless(t) => if v == Val::Bool(true) { m } else { jump_to(m, t) },
            FloatUse::CountIf(a) => if v == Val::Bool(true) && in_frame(m, a) { add_to_slot(m, a, 1) } else { m },
            FloatUse::LoopLimit(a, start, inc) => if in_frame(m, a) {
                loop_round(m, a, start, inc, int_or_zero(v))
            } else {
                m
            },
            FloatUse::StoreElement(a, b, c) => crate::grid::put_2d(m, a, b, c, v),
        }
    }
}

pub open spec fn float_then(m: MachineModel, op: FloatOp, l: FloatOperand, r: FloatOperand, u: FloatUse) -> (MachineModel, StepModel) {
    (m, StepModel::FloatThen(FloatTask { op, lhs: l, rhs: r }, u))
}

/// `PopJumpIfLeLocalImm` (`strict` false) and `PopJumpIfLtLocalImm`: jump
/// unless the local is at most (below) `imm`; anything but a number jumps.
pub open spec fn spec_jump_local_imm(m: MachineModel, a: usize, imm: i64, c: usize, strict: bool) -> (MachineModel, StepModel) {
    if !in_frame(m, a) {
        (m, StepModel::Continue)
    } else {
        match local_slot(m, a) {
            Val::Int(n) => (if (strict && n < imm) || (!strict && n <= imm) { m } else { jump_to(m, c) }, StepModel::Continue),
            Val::Float(bits, _) => float_then(m, if strict { FloatOp::Lt } else { FloatOp::Le },
                FloatOperand::Bits(bits), FloatOperand::Int(imm), FloatUse::JumpUnless(c)),
            _ => (jump_to(m, c), StepModel::Continue),
        }
    }
}

/// Whether the pair is an integer with a float, in either order.
pub open spec fn int_with_float(x: Val, y: Val) -> bool {
    (x is Int && y is Float) || (x is Float && y is Int)
}

/// `PopJumpIfLtLocal`: jump unless local `a` is below local `b`.
pub open spec fn spec_jump_lt_local(m: MachineModel, a: usize, b: usize, c: usize) -> (MachineModel, StepModel) {
    if !(in_frame(m, a) && in_frame(m, b)) {
        (m, StepModel::Continue)
    } else {
        let x = local_slot(m, a);
        let y = local_slot(m, b);
        if int_with_float(x, y) {
            float_then(m, FloatOp::Lt, float_operand(x), float_operand(y), FloatUse::JumpUnless(c))
        } else {
            (if val_lt(x, y) { m } else { jump_to(m, c) }, StepModel::Continue)
        }
    }
}

/// `JumpWhileIncrementedLt`: while local `a` is below the limit (a local
/// or a constant), add `inc` to it and jump to `start`.
pub open spec fn spec_jump_while(m: MachineModel, p: ProgramModel, a: usize, start: usize, inc: i64, limit_local: bool, idx: usize) -> (MachineModel, StepModel) {
    if !in_frame(m, a) {
        (m, StepModel::Continue)
    } else {
        let lim = if limit_local {
            if in_frame(m, idx) { local_slot(m, idx) } else { Val::Int(0) }
        } else {
            p.constants[idx as int]
        };
        match lim {
            Val::Float(bits, _) => float_then(m, FloatOp::TruncToInt, FloatOperand::Bits(bits), FloatOperand::Int(0),
                FloatUse::LoopLimit(a, start, inc)),
            _ => (loop_round(m, a, start, inc, int_or_zero(lim)), StepModel::Continue),
        }
    }
}

/// `ModJumpIfNotZero`: jump when local `a` modulo local `b` is not zero;
/// a zero divisor, or operands that are not numbers, never jump.
pub open spec fn spec_mod_jump(m: MachineModel, a: usize, b: usize, t: usize) -> (MachineModel, StepModel) {
    let x = local_slot(m, a);
    let y = local_slot(m, b);
    match (x, y) {
        (Val::Int(i), Val::Int(j)) => (if j != 0 && trunc_rem(i as int, j as int) != 0 { jump_to(m, t) } else { m }, StepModel::Continue),
        _ => if mixed_float(x, y) && !is_zero_number(y) {
            float_then(m, FloatOp::RemIsZero, float_operand(x), float_operand(y), FloatUse::JumpUnless(t))
        } else {
            (m, StepModel::Continue)
        },
    }
}

/// `ModAddIfZero`: count in local `t` when local `s` modulo the constant is zero.
pub open spec fn spec_mod_count(m: MachineModel, p: ProgramModel, s: usize, ci: usize, t: usize) -> (MachineModel, StepModel) {
    if !(in_frame(m, s) && in_frame(m, t)) {
        (m, StepModel::Continue)
    } else {
        let x = local_slot(m, s);
        let y = p.constants[ci as int];
        match (x, y) {
            (Val::Int(i), Val::Int(j)) => (if j != 0 && trunc_rem(i as int, j as int) == 0 { add_to_slot(m, t, 1) } else { m }, StepModel::Continue),
            _ => if mixed_float(x, y) && !is_zero_number(y) {
                float_then(m, FloatOp::RemIsZero, float_operand(x), float_operand(y), FloatUse::CountIf(t))
            } else {
                (m, StepModel::Continue)
            },
        }
    }
}

/// The operand pairs an element read through locals accepts.
pub open spec fn local_read_ok(obj: Val, idx: Val) -> bool {
    match obj {
        Val::List(_, _) | Val::Tuple(_, _) | Val::Range(_) | Val::Str(_) => idx is Int,
        Val::Dict(_, _) => true,
        _ => false,
    }
}

pub open spec fn read_type_message() -> Seq<char> {
    "غير قادر على الوصول بالفهرس"@
}

pub open spec fn store_type_message() -> Seq<char> {
    "غير قادر على التخزين بالفهرس"@
}

/// The error `CallMethodVoid` raises: the form of a method call that drops
/// its result is not run, and reaching it is an error.
pub open spec fn void_method_message() -> Seq<char> {
    "CallMethodVoid should not be reached — disable peephole pass 32"@
}

/// `SubscriptLocal`: pushes local `a` indexed by local `b`.
pub open spec fn spec_subscript_local(m: MachineModel, p: ProgramModel, a: usize, b: usize) -> (MachineModel, StepModel) {
    if !(in_frame(m, a) && in_frame(m, b)) {
        (m, StepModel::Continue)
    } else {
        let obj = local_slot(m, a);
        let idx = local_slot(m, b);
        if local_read_ok(obj, idx) {
            spec_after(m, p, spec_subscript(obj, idx, 0))
        } else {
            spec_throw(m, p, crate::ops::type_error_class(), read_type_message())
        }
    }
}

/// Storing into a list held in a local: every holder sees the new list.
pub open spec fn store_into(m: MachineModel, p: ProgramModel, lst: Val, idx: Val, v: Val) -> (MachineModel, StepModel) {
    match spec_store_subscript(lst, idx, v) {
        OutcomeModel::Value(nl) => (refresh_machine(m, nl), StepModel::Continue),
        OutcomeModel::Raise(c, msg) => spec_throw(m, p, c, msg),
        _ => (m, StepModel::Continue),
    }
}

/// `StoreSubscriptLocal`: pops a value and stores it into the list in local
/// `a` at the index in local `b`.
pub open spec fn spec_store_subscript_local(m: MachineModel, p: ProgramModel, a: usize, b: usize) -> (MachineModel, StepModel) {
    let (s, v) = spop(m.stack);
    let m2 = with_stack(m, s);
    if !(in_frame(m2, a) && in_frame(m2, b)) {
        (m2, StepModel::Continue)
    } else {
        let lst = local_slot(m2, a);
        let idx = local_slot(m2, b);
        if lst is List && idx is Int {
            store_into(m2, p, lst, idx, v)
        } else {
            spec_throw(m2, p, crate::ops::type_error_class(), store_type_message())
        }
    }
}

/// `SubscriptAddImm`: pushes the element of the list in local `a` at the
/// index in local `c` plus `imm`.
pub open spec fn spec_subscript_add_imm(m: MachineModel, p: ProgramModel, a: usize, c: usize, imm: i64) -> (MachineModel, StepModel) {
    if !(in_frame(m, a) && in_frame(m, c)) {
        (m, StepModel::Continue)
    } else {
        match (local_slot(m, a), local_slot(m, c)) {
            (Val::List(_, items), Val::Int(i)) => spec_after(m, p, element_at(items, wrap_add(i, imm))),
            _ => spec_throw(m, p, crate::ops::type_error_class(), read_type_message()),
        }
    }
}

/// `StoreSubscriptAddImm`: pops a value and stores it into the list in
/// local `a` at the index in local `c` plus `imm`.
pub open spec fn spec_store_subscript_add_imm(m: MachineModel, p: ProgramModel, a: usize, c: usize, imm: i64) -> (MachineModel, StepModel) {
    let (s, v) = spop(m.stack);
    let m2 = with_stack(m, s);
    if !(in_frame(m2, a) && in_frame(m2, c)) {
        (m2, StepModel::Continue)
    } else {
        match (local_slot(m2, a), local_slot(m2, c)) {
            (Val::List(o, items), Val::Int(i)) => store_into(m2, p, Val::List(o, items), Val::Int(wrap_add(i, imm)), v),
            _ => spec_throw(m2, p, crate::ops::type_error_class(), store_type_message()),
        }
    }
}

/// The position an index names in a sequence of `len` elements (negative
/// indices count from the end), whether or not it lies inside.
pub open spec fn index_position(len: nat, i: i64) -> int {
    if i < 0 { len + i } else { i as int }
}

/// `SwapAdjacent`: swaps the element of the list in local `a` at the index
/// in local `b` with the one after it.
pub open spec fn spec_swap_adjacent(m: MachineModel, p: ProgramModel, a: usize, b: usize) -> (MachineModel, StepModel) {
    if !(in_frame(m, a) && in_frame(m, b)) {
        (m, StepModel::Continue)
    } else {
        match (local_slot(m, a), local_slot(m, b)) {
            (Val::List(o, items), Val::Int(i)) => {
                let k = index_position(items.len(), i);
                if 0 <= k && k + 1 < items.len() {
                    let nl = Val::List(o, items.update(k, items[k + 1]).update(k + 1, items[k]));
                    (refresh_machine(m, nl), StepModel::Continue)
                } else {
                    spec_throw(m, p, crate::containers::range_error_class(), crate::containers::index_error_message())
                }
            },
            _ => spec_throw(m, p, crate::ops::type_error_class(), "غير قادر على التبديل"@),
        }
    }
}

/// Whether two elements are in order for `PopJumpIfSubscriptGt`.
pub open spec fn not_greater(x: Val, y: Val) -> bool {
    match (x, y) {
        (Val::Int(i), Val::Int(j)) => i <= j,
        (Val::Float(i, _), Val::Float(j, _)) => float_lt(i, j) || float_eq(i, j),
        _ => !val_gt(x, y),
    }
}

/// `PopJumpIfSubscriptGt`: jump when the list element at the index in
/// local `b` is not greater than the one `imm` further on.
pub open spec fn spec_jump_subscript_gt(m: MachineModel, p: ProgramModel, a: usize, b: usize, imm: i64, t: usize) -> (MachineModel, StepModel) {
    if !(in_frame(m, a) && in_frame(m, b)) {
        (m, StepModel::Continue)
    } else {
        match (local_slot(m, a), local_slot(m, b)) {
            (Val::List(_, items), Val::Int(i)) => match (norm_index(items.len() as int, i as int), norm_index(items.len() as int, wrap_add(i, imm) as int)) {
                (Some(k1), Some(k2)) => (if not_greater(items[k1], items[k2]) { jump_to(m, t) } else { m }, StepModel::Continue),
                _ => spec_throw(m, p, crate::containers::range_error_class(), crate::containers::index_error_message()),
            },
            _ => spec_throw(m, p, crate::ops::type_error_class(), read_type_message()),
        }
    }
}

/// `AddLocalFromStack`: pops a value and adds it to local `a`; a sum that
/// cannot be formed leaves 0 there.
pub open spec fn spec_add_local_from_stack(m: MachineModel, a: usize) -> (MachineModel, StepModel) {
    let (s, v) = spop(m.stack);
    let m2 = with_stack(m, s);
    if !in_frame(m2, a) {
        (m2, StepModel::Continue)
    } else {
        let x = local_slot(m2, a);
        match (x, v) {
            (Val::Int(i), Val::Int(j)) => (set_slot(m2, a, Val::Int(wrap_add(i, j))), StepModel::Continue),
            _ => if mixed_float(x, v) {
                float_then(m2, FloatOp::Add, float_operand(x), float_operand(v), FloatUse::StoreLocal(a))
            } else {
                let sum = match crate::ops::spec_add(x, v, m2.next_oid) {
                    OutcomeModel::Value(r) => r,
                    _ => Val::Int(0),
                };
                (set_slot(bump(m2), a, sum), StepModel::Continue)
            },
        }
    }
}

/// `InplaceAddStrConst`: appends the text constant `b` to local `a` (through
/// the cell when the slot holds a captured text), counting its bytes.
pub open spec fn spec_inplace_add_str(m: MachineModel, p: ProgramModel, a: usize, b: usize) -> (MachineModel, StepModel) {
    if !in_frame(m, a) {
        (m, StepModel::Continue)
    } else {
        match p.constants[b as int] {
            Val::Str(t) => {
                let bytes = crate::formatting::utf8_len(t);
                if !fits_memory(m, bytes) {
                    spec_throw(m, p, memory_class(), memory_message(m.memory_limit))
                } else {
                    let m1 = MachineModel { memory_used: (m.memory_used + bytes) as usize, ..m };
                    (match local_slot(m1, a) {
                        Val::Cell(o, inner) => match *inner {
                            Val::Str(s) => refresh_machine(m1, Val::Cell(o, Box::new(Val::Str(s + t)))),
                            _ => m1,
                        },
                        Val::Str(s) => set_slot(m1, a, Val::Str(s + t)),
                        other => set_slot(m1, a, Val::Str(val_text(other) + t)),
                    }, StepModel::Continue)
                }
            },
            _ => (m, StepModel::Continue),
        }
    }
}

/// The effect of a fused instruction; the instruction pointer is already past it.
pub open spec fn spec_step_fused(m: MachineModel, p: ProgramModel, i: Instr) -> (MachineModel, StepModel) {
    match i {
        Instr::PopJumpIfLeLocalImm(a, imm, c) => spec_jump_local_imm(m, a, imm, c, false),
        Instr::PopJumpIfLtLocalImm(a, imm, c) => spec_jump_local_imm(m, a, imm, c, true),
        Instr::PopJumpIfLtLocal(a, b, c) => spec_jump_lt_local(m, a, b, c),
        Instr::JumpWhileIncrementedLt(a, start, inc, ll, idx) => spec_jump_while(m, p, a, start, inc, ll, idx),
        Instr::ModJumpIfNotZero(a, b, t) => spec_mod_jump(m, a, b, t),
        Instr::ModAddIfZero(s, ci, t) => spec_mod_count(m, p, s, ci, t),
        Instr::SubscriptLocal(a, b) => spec_subscript_local(m, p, a, b),
        Instr::StoreSubscriptLocal(a, b) => spec_store_subscript_local(m, p, a, b),
        Instr::SubscriptAddImm(a, c, imm) => spec_subscript_add_imm(m, p, a, c, imm),
        Instr::StoreSubscriptAddImm(a, c, imm) => spec_store_subscript_add_imm(m, p, a, c, imm),
        Instr::SwapAdjacent(a, b) => spec_swap_adjacent(m, p, a, b),
        Instr::PopJumpIfSubscriptGt(a, b, imm, t) => spec_jump_subscript_gt(m, p, a, b, imm, t),
        Instr::AddLocalFromStack(a) => spec_add_local_from_stack(m, a),
        Instr::InplaceAddStrConst(a, b) => spec_inplace_add_str(m, p, a, b),
        Instr::CallMethod(a, b) => crate::methods::spec_call_method(m, p, a, b),
        Instr::TailCall(a) => crate::tailcall::spec_tail_call(m, p, a),
        Instr::CallFunctionKw(a) => crate::keywords::spec_call_kw(m, p, a),
        Instr::CallFunctionUnpacked(a, b, c) => crate::unpack::spec_call_unpacked(m, p, a, b, c),
        Instr::CallMethodVoid(_, _) => spec_throw(m, p, "خطا"@, void_method_message()),
        Instr::SubscriptLocal2D(a, b, c) => crate::grid::spec_subscript_2d(m, p, a, b, c),
        Instr::StoreSubscriptLocal2D(a, b, c) => crate::grid::spec_store_subscript_2d(m, p, a, b, c),
        Instr::AddToSubscript2D(a, b, c, d) => crate::grid::spec_add_to_subscript_2d(m, p, a, b, c, d),
        _ => (m, StepModel::Continue),
    }
}

pub open spec fn mod_jump_defined(m: MachineModel, a: usize, b: usize) -> bool {
    in_frame(m, a) && in_frame(m, b) && match (local_slot(m, a), local_slot(m, b)) {
        (Val::Int(x), Val::Int(y)) => !(x == i64::MIN && y == -1),
        _ => true,
    }
}

pub open spec fn mod_count_defined(m: MachineModel, p: ProgramModel, s: usize, ci: usize) -> bool {
    ci < p.constants.len() ==> match (local_slot(m, s), p.constants[ci as int]) {
        (Val::Int(x), Val::Int(y)) => !(x == i64::MIN && y == -1),
        _ => true,
    }
}

pub open spec fn swap_defined(m: MachineModel, a: usize, b: usize) -> bool {
    match (local_slot(m, a), local_slot(m, b)) {
        (Val::List(_, items), Val::Int(i)) => !(index_position(items.len(), i) == -1 && items.len() > 0),
        _ => true,
    }
}

pub open spec fn inplace_defined(m: MachineModel, p: ProgramModel, b: usize) -> bool {
    b < p.constants.len() ==> match p.constants[b as int] {
        Val::Str(t) => m.memory_used + crate::formatting::utf8_len(t) <= usize::MAX,
        _ => true,
    }
}

/// Fused instructions whose operands make them panic are
/// excluded: a remainder of the smallest integer by -1, locals read beyond
/// the frame without a check, a swap at the position just before the
/// first element, and a byte count past the machine's word.
pub open spec fn fused_defined(m: MachineModel, p: ProgramModel, i: Instr) -> bool {
    match i {
        Instr::ModJumpIfNotZero(a, b, _) => mod_jump_defined(m, a, b),
        Instr::ModAddIfZero(s, ci, _) => mod_count_defined(m, p, s, ci),
        Instr::SwapAdjacent(a, b) => swap_defined(m, a, b),
        Instr::InplaceAddStrConst(_, b) => inplace_defined(m, p, b),
        Instr::CallMethod(a, b) => crate::methods::call_method_defined(m, p, a, b),
        Instr::TailCall(a) => crate::tailcall::tail_defined(m, p, a),
        Instr::CallFunctionKw(a) => crate::keywords::kw_call_defined(m, p, a),
        Instr::CallFunctionUnpacked(a, b, c) => crate::unpack::unpacked_defined(m, p, a, b, c),
        _ => true,
    }
}

// ---------------------------------------------------------------- execution

proof fn lemma_set_slot_wf(m: MachineModel, a: usize, v: Val)
    requires
        wf(m),
        m.frames.len() > 0,
        in_frame(m, a),
    ensures
        wf(set_slot(m, a, v)),
{
}

impl VM {
    pub(crate) fn in_frame_exec(&self, a: usize) -> (r: bool)
        requires
            self@.frames.len() > 0,
        ensures
            r == in_frame(self@, a),
    {
        a < self.frames[self.frames.len() - 1].arena_len
    }

    /// Sets local slot `a` of the running frame itself.
    fn set_local_raw(&mut self, a: usize, v: Value)
        requires
            wf(old(self)@),
            old(self)@.frames.len() > 0,
            in_frame(old(self)@, a),
        ensures
            final(self)@ == set_slot(old(self)@, a, v@),
            wf(final(self)@),
    {
        let ghost m = self@;
        let f = self.frames[self.frames.len() - 1];
        proof {
            let k = m.frames.len() - 1;
            assert(f == m.frames[k]);
            assert(m.frames[k].arena_offset + m.frames[k].arena_len <= m.arena.len());
            assert(m.arena.len() == self.locals_arena@.len());
            assert(a < f.arena_len);
            assert(self.locals_arena@.len() == self.locals_arena.len());
        }
        let ghost vm = v@;
        self.locals_arena.set(f.arena_offset + a, v);
        assert(vals(self.locals_arena@) =~= m.arena.update(f.arena_offset + a, vm));
        assert(self@ =~= set_slot(m, a, vm));
        proof { lemma_set_slot_wf(m, a, vm); }
    }

    fn add_to_local(&mut self, a: usize, d: i64)
        requires
            wf(old(self)@),
            old(self)@.frames.len() > 0,
            in_frame(old(self)@, a),
        ensures
            final(self)@ == add_to_slot(old(self)@, a, d),
            wf(final(self)@),
    {
        match self.local_raw(a) {
            Value::Integer(n) => self.set_local_raw(a, Value::Integer(n.wrapping_add(d))),
            _ => {}
        }
    }

    fn loop_round_exec(&mut self, a: usize, start: usize, inc: i64, lim: i64)
        requires
            wf(old(self)@),
            old(self)@.frames.len() > 0,
            in_frame(old(self)@, a),
        ensures
            final(self)@ == loop_round(old(self)@, a, start, inc, lim),
            wf(final(self)@),
    {
        let cur = match self.local_raw(a) {
            Value::Integer(n) => n,
            _ => 0,
        };
        if cur < lim {
            self.add_to_local(a, inc);
            self.ip = start;
        }
    }

    /// Resumes after float work that a fused instruction handed out
    /// produced `v`.
    pub fn resume_float(&mut self, u: FloatUse, v: Value)
        requires
            wf(old(self)@),
        ensures
            final(self)@ == spec_resume_float(old(self)@, u, v@),
            wf(final(self)@),
    {
        if self.frames.len() == 0 {
            return;
        }
        match u {
            FloatUse::StoreLocal(a) => {
                if self.in_frame_exec(a) {
                    self.set_local_raw(a, v);
                }
            }
            FloatUse::JumpUnless(t) => {
                let yes = match v {
                    Value::Boolean(b) => b,
                    _ => false,
                };
                if !yes {
                    self.ip = t;
                }
            }
            FloatUse::CountIf(a) => {
                let yes = match v {
                    Value::Boolean(b) => b,
                    _ => false,
                };
                if yes && self.in_frame_exec(a) {
                    self.add_to_local(a, 1);
                }
            }
            FloatUse::LoopLimit(a, start, inc) => {
                if self.in_frame_exec(a) {
                    let lim = match v {
                        Value::Integer(n) => n,
                        _ => 0,
                    };
                    self.loop_round_exec(a, start, inc, lim);
                }
            }
            FloatUse::StoreElement(a, b, c) => {
                self.put_2d_exec(a, b, c, v);
            }
        }
    }
}

impl VM {
    fn jump_local_imm(&mut self, a: usize, imm: i64, c: usize, strict: bool) -> (s: Step)
        requires
            wf(old(self)@),
            old(self)@.frames.len() > 0,
        ensures
            (final(self)@, step_model(s)) == spec_jump_local_imm(old(self)@, a, imm, c, strict),
            wf(final(self)@),
    {
        if !self.in_frame_exec(a) {
            return Step::Continue;
        }
        match self.local_raw(a) {
            Value::Integer(n) => {
                let holds = if strict { n < imm } else { n <= imm };
                if !holds {
                    self.ip = c;
                }
                Step::Continue
            }
            Value::Float(f) => {
                let op = if strict { FloatOp::Lt } else { FloatOp::Le };
                Step::FloatThen(FloatTask { op, lhs: FloatOperand::Bits(f.bits), rhs: FloatOperand::Int(imm) }, FloatUse::JumpUnless(c))
            }
            _ => {
                self.ip = c;
                Step::Continue
            }
        }
    }

    fn jump_lt_local(&mut self, a: usize, b: usize, c: usize) -> (s: Step)
        requires
            wf(old(self)@),
            old(self)@.frames.len() > 0,
        ensures
            (final(self)@, step_model(s)) == spec_jump_lt_local(old(self)@, a, b, c),
            wf(final(self)@),
    {
        if !(self.in_frame_exec(a) && self.in_frame_exec(b)) {
            return Step::Continue;
        }
        let x = self.local_raw(a);
        let y = self.local_raw(b);
        let mixed = match (&x, &y) {
            (Value::Integer(_), Value::Float(_)) => true,
            (Value::Float(_), Value::Integer(_)) => true,
            _ => false,
        };
        if mixed {
            let l = crate::ops::operand_of(&x);
            let r = crate::ops::operand_of(&y);
            Step::FloatThen(FloatTask { op: FloatOp::Lt, lhs: l, rhs: r }, FloatUse::JumpUnless(c))
        } else {
            if !crate::ops::less_than(&x, &y) {
                self.ip = c;
            }
            Step::Continue
        }
    }

    fn jump_while(&mut self, p: &Program, a: usize, start: usize, inc: i64, limit_local: bool, idx: usize) -> (s: Step)
        requires
            wf(old(self)@),
            old(self)@.frames.len() > 0,
            limit_local || idx < p@.constants.len(),
        ensures
            (final(self)@, step_model(s)) == spec_jump_while(old(self)@, p@, a, start, inc, limit_local, idx),
            wf(final(self)@),
    {
        if !self.in_frame_exec(a) {
            return Step::Continue;
        }
        let lim = if limit_local {
            if self.in_frame_exec(idx) { self.local_raw(idx) } else { Value::Integer(0) }
        } else {
            crate::machine::convert_value(&p.constants[idx])
        };
        match lim {
            Value::Float(f) => Step::FloatThen(FloatTask { op: FloatOp::TruncToInt, lhs: FloatOperand::Bits(f.bits), rhs: FloatOperand::Int(0) },
                FloatUse::LoopLimit(a, start, inc)),
            Value::Integer(n) => {
                self.loop_round_exec(a, start, inc, n);
                Step::Continue
            }
            _ => {
                self.loop_round_exec(a, start, inc, 0);
                Step::Continue
            }
        }
    }

    fn mod_jump(&mut self, a: usize, b: usize, t: usize) -> (s: Step)
        requires
            wf(old(self)@),
            old(self)@.frames.len() > 0,
            mod_jump_defined(old(self)@, a, b),
        ensures
            (final(self)@, step_model(s)) == spec_mod_jump(old(self)@, a, b, t),
            wf(final(self)@),
    {
        let x = self.local_raw(a);
        let y = self.local_raw(b);
        match (&x, &y) {
            (Value::Integer(i), Value::Integer(j)) => {
                if *j != 0 && crate::ops::int_rem(*i, *j) != 0 {
                    self.ip = t;
                }
                Step::Continue
            }
            _ => {
                if crate::ops::is_mixed_float(&x, &y) && !crate::ops::is_zero_exec(&y) {
                    let l = crate::ops::operand_of(&x);
                    let r = crate::ops::operand_of(&y);
                    Step::FloatThen(FloatTask { op: FloatOp::RemIsZero, lhs: l, rhs: r }, FloatUse::JumpUnless(t))
                } else {
                    Step::Continue
                }
            }
        }
    }
}

impl VM {
    fn mod_count(&mut self, p: &Program, sl: usize, ci: usize, t: usize) -> (s: Step)
        requires
            wf(old(self)@),
            old(self)@.frames.len() > 0,
            ci < p@.constants.len(),
            mod_count_defined(old(self)@, p@, sl, ci),
        ensures
            (final(self)@, step_model(s)) == spec_mod_count(old(self)@, p@, sl, ci, t),
            wf(final(self)@),
    {
        if !(self.in_frame_exec(sl) && self.in_frame_exec(t)) {
            return Step::Continue;
        }
        let x = self.local_raw(sl);
        let y = crate::machine::convert_value(&p.constants[ci]);
        match (&x, &y) {
            (Value::Integer(i), Value::Integer(j)) => {
                if *j != 0 && crate::ops::int_rem(*i, *j) == 0 {
                    self.add_to_local(t, 1);
                }
                Step::Continue
            }
            _ => {
                if crate::ops::is_mixed_float(&x, &y) && !crate::ops::is_zero_exec(&y) {
                    let l = crate::ops::operand_of(&x);
                    let r = crate::ops::operand_of(&y);
                    Step::FloatThen(FloatTask { op: FloatOp::RemIsZero, lhs: l, rhs: r }, FloatUse::CountIf(t))
                } else {
                    Step::Continue
                }
            }
        }
    }

    fn subscript_local(&mut self, p: &Program, a: usize, b: usize) -> (s: Step)
        requires
            wf(old(self)@),
            old(self)@.frames.len() > 0,
        ensures
            (final(self)@, step_model(s)) == spec_subscript_local(old(self)@, p@, a, b),
            wf(final(self)@),
    {
        if !(self.in_frame_exec(a) && self.in_frame_exec(b)) {
            return Step::Continue;
        }
        let obj = self.local_raw(a);
        let idx = self.local_raw(b);
        let ok = match (&obj, &idx) {
            (Value::List(_), Value::Integer(_)) => true,
            (Value::Tuple(_), Value::Integer(_)) => true,
            (Value::Range(_), Value::Integer(_)) => true,
            (Value::String(_), Value::Integer(_)) => true,
            (Value::Dict(_), _) => true,
            _ => false,
        };
        if ok {
            let o = crate::containers::subscript(&obj, &idx, 0);
            self.after(p, o)
        } else {
            self.throw(p, "استثناء_نوع", crate::text::str_to_chars("غير قادر على الوصول بالفهرس"))
        }
    }

    pub(crate) fn store_into_exec(&mut self, p: &Program, lst: Value, idx: Value, v: Value) -> (s: Step)
        requires
            wf(old(self)@),
        ensures
            (final(self)@, step_model(s)) == store_into(old(self)@, p@, lst@, idx@, v@),
            wf(final(self)@),
    {
        let ghost m = self@;
        match crate::containers::store_subscript(lst, idx, v) {
            crate::ops::Outcome::Value(nl) => {
                self.refresh_holders(&nl);
                proof { crate::steps::lemma_refresh_keeps_layout(m, nl@); }
                Step::Continue
            }
            crate::ops::Outcome::Raise(e) => {
                let c = crate::text::str_to_chars(e.class_name());
                let msg = crate::text::str_to_chars(e.message());
                let s = self.throw_chars(p, c, msg);
                proof { crate::steps::lemma_throw_keeps_layout(m, p@, e.class_view(), e.message_view()); }
                s
            }
            _ => Step::Continue,
        }
    }

    fn store_subscript_local(&mut self, p: &Program, a: usize, b: usize) -> (s: Step)
        requires
            wf(old(self)@),
            old(self)@.frames.len() > 0,
        ensures
            (final(self)@, step_model(s)) == spec_store_subscript_local(old(self)@, p@, a, b),
            wf(final(self)@),
    {
        let v = self.pop_value();
        if !(self.in_frame_exec(a) && self.in_frame_exec(b)) {
            return Step::Continue;
        }
        let lst = self.local_raw(a);
        let idx = self.local_raw(b);
        let ok = match (&lst, &idx) {
            (Value::List(_), Value::Integer(_)) => true,
            _ => false,
        };
        if ok {
            self.store_into_exec(p, lst, idx, v)
        } else {
            let ghost m = self@;
            let s = self.throw(p, "استثناء_نوع", crate::text::str_to_chars("غير قادر على التخزين بالفهرس"));
            proof { crate::steps::lemma_throw_keeps_layout(m, p@, crate::ops::type_error_class(), store_type_message()); }
            s
        }
    }

    fn subscript_add_imm(&mut self, p: &Program, a: usize, c: usize, imm: i64) -> (s: Step)
        requires
            wf(old(self)@),
            old(self)@.frames.len() > 0,
        ensures
            (final(self)@, step_model(s)) == spec_subscript_add_imm(old(self)@, p@, a, c, imm),
            wf(final(self)@),
    {
        if !(self.in_frame_exec(a) && self.in_frame_exec(c)) {
            return Step::Continue;
        }
        let lst = self.local_raw(a);
        let idx = self.local_raw(c);
        match (&lst, &idx) {
            (Value::List(_), Value::Integer(i)) => {
                let k = Value::Integer(i.wrapping_add(imm));
                let o = crate::containers::subscript(&lst, &k, 0);
                self.after(p, o)
            }
            _ => self.throw(p, "استثناء_نوع", crate::text::str_to_chars("غير قادر على الوصول بالفهرس")),
        }
    }

    fn store_subscript_add_imm(&mut self, p: &Program, a: usize, c: usize, imm: i64) -> (s: Step)
        requires
            wf(old(self)@),
            old(self)@.frames.len() > 0,
        ensures
            (final(self)@, step_model(s)) == spec_store_subscript_add_imm(old(self)@, p@, a, c, imm),
            wf(final(self)@),
    {
        let v = self.pop_value();
        if !(self.in_frame_exec(a) && self.in_frame_exec(c)) {
            return Step::Continue;
        }
        let lst = self.local_raw(a);
        let idx = self.local_raw(c);
        match idx {
            Value::Integer(i) => {
                let ok = match &lst {
                    Value::List(_) => true,
                    _ => false,
                };
                if ok {
                    return self.store_into_exec(p, lst, Value::Integer(i.wrapping_add(imm)), v);
                }
            }
            _ => {}
        }
        let ghost m = self@;
        let s = self.throw(p, "استثناء_نوع", crate::text::str_to_chars("غير قادر على التخزين بالفهرس"));
        proof { crate::steps::lemma_throw_keeps_layout(m, p@, crate::ops::type_error_class(), store_type_message()); }
        s
    }
}

fn not_greater_exec(x: &Value, y: &Value) -> (r: bool)
    ensures
        r == not_greater(x@, y@),
{
    match (x, y) {
        (Value::Integer(i), Value::Integer(j)) => *i <= *j,
        (Value::Float(i), Value::Float(j)) => crate::ops::float_lt_exec(i.bits, j.bits) || crate::ops::float_eq_exec(i.bits, j.bits),
        _ => !crate::ops::greater_than(x, y),
    }
}

impl VM {
    fn swap_adjacent(&mut self, p: &Program, a: usize, b: usize) -> (s: Step)
        requires
            wf(old(self)@),
            old(self)@.frames.len() > 0,
            swap_defined(old(self)@, a, b),
        ensures
            (final(self)@, step_model(s)) == spec_swap_adjacent(old(self)@, p@, a, b),
            wf(final(self)@),
    {
        let ghost m = self@;
        if !(self.in_frame_exec(a) && self.in_frame_exec(b)) {
            return Step::Continue;
        }
        let lst = self.local_raw(a);
        let idx = self.local_raw(b);
        match (lst, idx) {
            (Value::List(l), Value::Integer(i)) => {
                let len = l.items.len();
                proof { assert(vals(l.items@).len() == len); }
                // the position, when it is one, as an offset from the start
                let pos: Option<usize> = if i >= 0 {
                    if (i as u64) < (len as u64) { Some(i as usize) } else { None }
                } else {
                    let back = (i as i128) + (len as i128);
                    if back >= 0 { Some(back as usize) } else { None }
                };
                match pos {
                    Some(k) if k + 1 < len => {
                        let ghost before = vals(l.items@);
                        let mut items = l.items;
                        let x = items[k].duplicate();
                        let y = items[k + 1].duplicate();
                        let ghost xm = x@;
                        let ghost ym = y@;
                        items.set(k, y);
                        items.set(k + 1, x);
                        assert(vals(items@) =~= before.update(k as int, before[k + 1]).update(k + 1, before[k as int]));
                        let nl = Value::List(ListObj { oid: l.oid, items });
                        self.refresh_holders(&nl);
                        proof { crate::steps::lemma_refresh_keeps_layout(m, nl@); }
                        Step::Continue
                    }
                    _ => {
                        let s = self.throw(p, "استثناء_نطاق", crate::text::str_to_chars("فهرس خارج النطاق"));
                        proof { crate::steps::lemma_throw_keeps_layout(m, p@, crate::containers::range_error_class(), crate::containers::index_error_message()); }
                        s
                    }
                }
            }
            _ => {
                let s = self.throw(p, "استثناء_نوع", crate::text::str_to_chars("غير قادر على التبديل"));
                proof { crate::steps::lemma_throw_keeps_layout(m, p@, crate::ops::type_error_class(), "غير قادر على التبديل"@); }
                s
            }
        }
    }

    fn jump_subscript_gt(&mut self, p: &Program, a: usize, b: usize, imm: i64, t: usize) -> (s: Step)
        requires
            wf(old(self)@),
            old(self)@.frames.len() > 0,
        ensures
            (final(self)@, step_model(s)) == spec_jump_subscript_gt(old(self)@, p@, a, b, imm, t),
            wf(final(self)@),
    {
        if !(self.in_frame_exec(a) && self.in_frame_exec(b)) {
            return Step::Continue;
        }
        let lst = self.local_raw(a);
        let idx = self.local_raw(b);
        match (&lst, &idx) {
            (Value::List(l), Value::Integer(i)) => {
                proof { assert(vals(l.items@).len() == l.items@.len()); }
                let k1 = crate::containers::norm_index_exec(l.items.len(), *i);
                let k2 = crate::containers::norm_index_exec(l.items.len(), i.wrapping_add(imm));
                match (k1, k2) {
                    (Some(x), Some(y)) => {
                        if not_greater_exec(&l.items[x], &l.items[y]) {
                            self.ip = t;
                        }
                        Step::Continue
                    }
                    _ => self.throw(p, "استثناء_نطاق", crate::text::str_to_chars("فهرس خارج النطاق")),
                }
            }
            _ => self.throw(p, "استثناء_نوع", crate::text::str_to_chars("غير قادر على الوصول بالفهرس")),
        }
    }

    fn add_local_from_stack(&mut self, a: usize) -> (s: Step)
        requires
            wf(old(self)@),
            old(self)@.frames.len() > 0,
        ensures
            (final(self)@, step_model(s)) == spec_add_local_from_stack(old(self)@, a),
            wf(final(self)@),
    {
        let v = self.pop_value();
        if !self.in_frame_exec(a) {
            return Step::Continue;
        }
        let x = self.local_raw(a);
        match (&x, &v) {
            (Value::Integer(i), Value::Integer(j)) => {
                let r = i.wrapping_add(*j);
                self.set_local_raw(a, Value::Integer(r));
                Step::Continue
            }
            _ => {
                if crate::ops::is_mixed_float(&x, &v) {
                    let l = crate::ops::operand_of(&x);
                    let r = crate::ops::operand_of(&v);
                    Step::FloatThen(FloatTask { op: FloatOp::Add, lhs: l, rhs: r }, FloatUse::StoreLocal(a))
                } else {
                    let fresh = self.bump_oid();
                    let sum = match crate::ops::binary_add(x, v, fresh) {
                        crate::ops::Outcome::Value(r) => r,
                        _ => Value::Integer(0),
                    };
                    self.set_local_raw(a, sum);
                    Step::Continue
                }
            }
        }
    }

    fn inplace_add_str(&mut self, p: &Program, a: usize, b: usize) -> (s: Step)
        requires
            wf(old(self)@),
            old(self)@.frames.len() > 0,
            b < p@.constants.len(),
            inplace_defined(old(self)@, p@, b),
        ensures
            (final(self)@, step_model(s)) == spec_inplace_add_str(old(self)@, p@, a, b),
            wf(final(self)@),
    {
        let ghost m = self@;
        if !self.in_frame_exec(a) {
            return Step::Continue;
        }
        let right = crate::machine::convert_value(&p.constants[b]);
        match right {
            Value::String(t) => {
                let bytes = crate::formatting::utf8_len_exec(&t);
                proof { assert(m.memory_used + bytes <= usize::MAX); }
                let n = bytes as usize;
                if !self.fits(n) {
                    let s = self.memory_error(p);
                    proof { crate::steps::lemma_throw_keeps_layout(m, p@, memory_class(), memory_message(m.memory_limit)); }
                    return s;
                }
                self.memory_used = self.memory_used + n;
                let ghost m1 = self@;
                match self.local_raw(a) {
                    Value::Cell(c) => {
                        proof { reveal_with_fuel(crate::value::vmodel, 2); }
                        match *c.inner {
                            Value::String(mut s0) => {
                                crate::text::extend_chars(&mut s0, &t);
                                let nc = Value::Cell(crate::value::CellObj { oid: c.oid, inner: Box::new(Value::String(s0)) });
                                self.refresh_holders(&nc);
                                proof { crate::steps::lemma_refresh_keeps_layout(m1, nc@); }
                            }
                            _ => {}
                        }
                    }
                    Value::String(mut s0) => {
                        crate::text::extend_chars(&mut s0, &t);
                        self.set_local_raw(a, Value::String(s0));
                    }
                    other => {
                        let mut s0 = other.to_string_value();
                        crate::text::extend_chars(&mut s0, &t);
                        self.set_local_raw(a, Value::String(s0));
                    }
                }
                Step::Continue
            }
            _ => Step::Continue,
        }
    }

    /// Executes a fused instruction; the instruction pointer is already past it.
    pub(crate) fn step_fused(&mut self, p: &Program, i: Instr) -> (s: Step)
        requires
            wf(old(self)@),
            old(self)@.frames.len() > 0,
            fused_defined(old(self)@, p@, i),
            crate::machine::instr_ok(i, p@),
        ensures
            (final(self)@, step_model(s)) == spec_step_fused(old(self)@, p@, i),
            wf(final(self)@),
    {
        match i {
            Instr::PopJumpIfLeLocalImm(a, imm, c) => self.jump_local_imm(a, imm, c, false),
            Instr::PopJumpIfLtLocalImm(a, imm, c) => self.jump_local_imm(a, imm, c, true),
            Instr::PopJumpIfLtLocal(a, b, c) => self.jump_lt_local(a, b, c),
            Instr::JumpWhileIncrementedLt(a, start, inc, ll, idx) => self.jump_while(p, a, start, inc, ll, idx),
            Instr::ModJumpIfNotZero(a, b, t) => self.mod_jump(a, b, t),
            Instr::ModAddIfZero(sl, ci, t) => self.mod_count(p, sl, ci, t),
            Instr::SubscriptLocal(a, b) => self.subscript_local(p, a, b),
            Instr::StoreSubscriptLocal(a, b) => self.store_subscript_local(p, a, b),
            Instr::SubscriptAddImm(a, c, imm) => self.subscript_add_imm(p, a, c, imm),
            Instr::StoreSubscriptAddImm(a, c, imm) => self.store_subscript_add_imm(p, a, c, imm),
            Instr::SwapAdjacent(a, b) => self.swap_adjacent(p, a, b),
            Instr::PopJumpIfSubscriptGt(a, b, imm, t) => self.jump_subscript_gt(p, a, b, imm, t),
            Instr::AddLocalFromStack(a) => self.add_local_from_stack(a),
            Instr::InplaceAddStrConst(a, b) => self.inplace_add_str(p, a, b),
            Instr::CallMethod(a, b) => self.exec_call_method(p, a, b),
            Instr::TailCall(a) => self.exec_tail_call(p, a),
            Instr::CallFunctionKw(a) => self.exec_call_kw(p, a),
            Instr::CallFunctionUnpacked(a, b, c) => self.exec_call_unpacked(p, a, b, c),
            Instr::CallMethodVoid(_, _) => {
                let ghost m = self@;
                let s = self.throw(p, "خطا", crate::text::str_to_chars("CallMethodVoid should not be reached — disable peephole pass 32"));
                proof { crate::steps::lemma_throw_keeps_layout(m, p@, "خطا"@, void_method_message()); }
                s
            }
            Instr::SubscriptLocal2D(a, b, c) => self.subscript_2d(p, a, b, c),
            Instr::StoreSubscriptLocal2D(a, b, c) => self.store_subscript_2d(p, a, b, c),
            Instr::AddToSubscript2D(a, b, c, d) => self.add_to_subscript_2d(p, a, b, c, d),
            _ => Step::Continue,
        }
    }

    /// Whether the fused instruction `i` runs without panicking here.
    pub fn fused_ok(&self, p: &Program, i: Instr) -> (r: bool)
        requires
            wf(self@),
            self@.frames.len() > 0,
        ensures
            r == fused_defined(self@, p@, i),
    {
        match i {
            Instr::ModJumpIfNotZero(a, b, _) => {
                if !(self.in_frame_exec(a) && self.in_frame_exec(b)) {
                    return false;
                }
                match (self.local_raw(a), self.local_raw(b)) {
                    (Value::Integer(x), Value::Integer(y)) => !(x == i64::MIN && y == -1),
                    _ => true,
                }
            }
            Instr::ModAddIfZero(sl, ci, _) => {
                if ci >= p.constants.len() {
                    return true;
                }
                match (self.local_raw(sl), crate::machine::convert_value(&p.constants[ci])) {
                    (Value::Integer(x), Value::Integer(y)) => !(x == i64::MIN && y == -1),
                    _ => true,
                }
            }
            Instr::SwapAdjacent(a, b) => match (self.local_raw(a), self.local_raw(b)) {
                (Value::List(l), Value::Integer(i)) => {
                    proof { assert(vals(l.items@).len() == l.items@.len()); }
                    let len = l.items.len();
                    !((i as i128) + (len as i128) == -1 && i < 0 && len > 0)
                }
                _ => true,
            },
            Instr::InplaceAddStrConst(_, b) => {
                if b >= p.constants.len() {
                    return true;
                }
                match crate::machine::convert_value(&p.constants[b]) {
                    Value::String(t) => {
                        let bytes = crate::formatting::utf8_len_exec(&t);
                        bytes <= (usize::MAX - self.memory_used) as u128
                    }
                    _ => true,
                }
            }
            Instr::CallMethod(a, b) => self.call_method_ok(p, a, b),
            Instr::TailCall(a) => self.tail_call_ok(p, a),
            Instr::CallFunctionKw(a) => self.kw_call_ok(p, a),
            Instr::CallFunctionUnpacked(a, b, c) => self.unpacked_call_ok(p, a, b, c),
            _ => true,
        }
    }
}

} // verus!
