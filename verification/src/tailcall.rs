//! The tail call: a call in return position that reuses the running frame.
//!
//! The callee's locals take the running frame's slots: the frame grows to
//! the callee's size (new slots start null) or keeps its slots, the
//! captured values, the arguments and the defaults are placed, and the
//! slots nothing is placed in keep what they held.  At most four arguments
//! are taken from the stack; with more than four the instruction takes
//! none and the first four parameters receive null.

use vstd::prelude::*;
use crate::value::{Value, Val, vals, group_value_model};
use crate::machine::{VM, MachineModel, Program, ProgramModel, Frame, FunctionModel, FunctionInfoModel, Step, StepModel,
    step_model, wf, spop, with_stack, push, bump};
use crate::steps::{take_top, find_function, place_closure, param_slot, not_callable_message};

verus! {

broadcast use group_value_model;

/// The number of arguments the instruction takes from the stack.
pub open spec fn tail_count(a: u8) -> nat {
    if 1 <= a && a <= 4 { a as nat } else { 0 }
}

/// The value parameter `k` receives: the argument taken, or null.
pub open spec fn tail_arg(taken: Seq<Val>, k: int) -> Val {
    if 0 <= k < taken.len() { taken[k] } else { Val::Null }
}

/// The locals after placing the first `k` parameters.
pub open spec fn tail_params(w: Seq<Val>, info: FunctionInfoModel, taken: Seq<Val>, k: nat) -> Seq<Val>
    decreases k,
{
    if k == 0 {
        w
    } else {
        let prev = tail_params(w, info, taken, (k - 1) as nat);
        let slot = param_slot(info, k - 1);
        if 0 <= slot < prev.len() { prev.update(slot, tail_arg(taken, k - 1)) } else { prev }
    }
}

/// The locals after placing the defaults of parameters `a` up to `i`.
pub open spec fn tail_defaults(w: Seq<Val>, info: FunctionInfoModel, a: nat, i: nat) -> Seq<Val>
    decreases i,
{
    if i <= a {
        w
    } else {
        let prev = tail_defaults(w, info, a, (i - 1) as nat);
        let k = i - 1;
        let slot = param_slot(info, k);
        if 0 <= slot < prev.len() && k < info.defaults.len() && info.defaults[k] is Some {
            prev.update(slot, info.defaults[k]->0)
        } else {
            prev
        }
    }
}

/// The callee's locals laid over the window `w` of the running frame.
pub open spec fn tail_locals(w: Seq<Val>, e: FunctionModel, info: FunctionInfoModel, taken: Seq<Val>, a: nat) -> Seq<Val> {
    let placed = tail_params(place_closure(w, e.closure), info, taken, if a < 4 { a } else { 4 });
    tail_defaults(placed, info, a, info.param_count as nat)
}

/// The size of the callee's locals.
pub open spec fn callee_size(e: FunctionModel) -> nat {
    if e.num_locals > 1 { e.num_locals as nat } else { 1 }
}

/// The arena after the callee's locals are laid over the running frame's
/// window `off .. off + len`, grown or kept to `nl` slots.
pub open spec fn tail_arena(arena: Seq<Val>, off: int, len: nat, nl: nat, e: FunctionModel, info: FunctionInfoModel, taken: Seq<Val>, a: u8) -> Seq<Val> {
    let a1 = if nl > len { arena.subrange(0, off + len) + Seq::new((nl - len) as nat, |i: int| Val::Null) } else { arena };
    let w = tail_locals(a1.subrange(off, off + nl), e, info, taken, a as nat);
    a1.subrange(0, off) + w + a1.subrange(off + nl, a1.len() as int)
}

/// The running frame reused for the callee.
pub open spec fn tail_frame(m: MachineModel, e: FunctionModel, info: FunctionInfoModel, taken: Seq<Val>, a: u8) -> MachineModel {
    let fr = m.frames.last();
    let nl = callee_size(e);
    MachineModel {
        arena: tail_arena(m.arena, fr.arena_offset as int, fr.arena_len as nat, nl, e, info, taken, a),
        frames: m.frames.update(m.frames.len() - 1, Frame { arena_len: nl as usize, ..fr }),
        ip: info.body,
        ..m
    }
}

proof fn lemma_place_closure_len(w: Seq<Val>, cl: Seq<(usize, Val)>)
    ensures
        place_closure(w, cl).len() == w.len(),
    decreases cl.len(),
{
    if cl.len() > 0 {
        lemma_place_closure_len(w, cl.drop_last());
    }
}

proof fn lemma_tail_params_len(w: Seq<Val>, info: FunctionInfoModel, taken: Seq<Val>, k: nat)
    ensures
        tail_params(w, info, taken, k).len() == w.len(),
    decreases k,
{
    if k > 0 {
        lemma_tail_params_len(w, info, taken, (k - 1) as nat);
    }
}

proof fn lemma_tail_defaults_len(w: Seq<Val>, info: FunctionInfoModel, a: nat, i: nat)
    ensures
        tail_defaults(w, info, a, i).len() == w.len(),
    decreases i,
{
    if i > a {
        lemma_tail_defaults_len(w, info, a, (i - 1) as nat);
    }
}

proof fn lemma_tail_locals_len(w: Seq<Val>, e: FunctionModel, info: FunctionInfoModel, taken: Seq<Val>, a: nat)
    ensures
        tail_locals(w, e, info, taken, a).len() == w.len(),
{
    lemma_place_closure_len(w, e.closure);
    let pc = place_closure(w, e.closure);
    lemma_tail_params_len(pc, info, taken, if a < 4 { a } else { 4 });
    lemma_tail_defaults_len(tail_params(pc, info, taken, if a < 4 { a } else { 4 }), info, a, info.param_count as nat);
}

/// `TailCall(a)`.
pub open spec fn spec_tail_call(m: MachineModel, p: ProgramModel, a: u8) -> (MachineModel, StepModel) {
    let (rest, taken) = take_top(m.stack, tail_count(a));
    let (s2, f) = spop(rest);
    let m2 = with_stack(m, s2);
    match f {
        Val::Native(name, _) => (m2, StepModel::CallNative(name, taken)),
        Val::Function(oid, fname) => match find_function(m.functions, oid) {
            Some(k) => if p.functions[m.functions[k].info as int].is_generator {
                (push(bump(m2), Val::Generator(m2.next_oid, fname)), StepModel::Continue)
            } else {
                (tail_frame(m2, m.functions[k], p.functions[m.functions[k].info as int], taken, a), StepModel::Continue)
            },
            None => (m2, StepModel::Continue),
        },
        Val::Generator(_, _) => crate::runtime::spec_native_error(m2, crate::error::generic_error_class(), crate::steps::generator_call_message(), None, Seq::empty()),
        _ => crate::runtime::spec_native_error(m2, crate::error::generic_error_class(), not_callable_message(f), None, Seq::empty()),
    }
}

/// The tail calls the machine runs: of anything but a class or an
/// instance, and of a function object only one it made (whose locals fit
/// the machine word unless it is a generator function).
pub open spec fn tail_defined(m: MachineModel, p: ProgramModel, a: u8) -> bool {
    let (rest, _) = take_top(m.stack, tail_count(a));
    let (_, f) = spop(rest);
    match f {
        Val::Function(oid, _) => match find_function(m.functions, oid) {
            Some(k) => m.functions[k].info < p.functions.len()
                && (p.functions[m.functions[k].info as int].is_generator
                    || m.frames.last().arena_offset + callee_size(m.functions[k]) <= usize::MAX),
            None => false,
        },
        Val::Class(_, _) | Val::Instance(_, _) => false,
        _ => true,
    }
}

// ---------------------------------------------------------------- execution

/// Lays the callee's captured values, arguments and defaults over `w`.
fn lay_locals(w: &mut Vec<Value>, e: &crate::machine::FunctionEntry, info: &crate::machine::FunctionInfo, taken: &Vec<Value>, a: u8)
    ensures
        vals(final(w)@) == tail_locals(vals(old(w)@), crate::machine::function_model(*e), crate::machine::info_model(*info), vals(taken@), a as nat),
        final(w)@.len() == old(w)@.len(),
{
    let ghost em = crate::machine::function_model(*e);
    let ghost im = crate::machine::info_model(*info);
    let ghost start0 = vals(w@);
    let n = w.len();
    let mut c: usize = 0;
    while c < e.closure.len()
        invariant
            c <= e.closure@.len(),
            em == crate::machine::function_model(*e),
            w@.len() == n,
            vals(w@) == place_closure(start0, em.closure.subrange(0, c as int)),
        decreases e.closure@.len() - c,
    {
        let idx = e.closure[c].0;
        assert(em.closure.subrange(0, c + 1).drop_last() =~= em.closure.subrange(0, c as int));
        assert(em.closure.subrange(0, c + 1).last() == (idx, e.closure@[c as int].1@));
        if idx < w.len() {
            let ghost before = vals(w@);
            w.set(idx, e.closure[c].1.duplicate());
            assert(vals(w@) =~= before.update(idx as int, e.closure@[c as int].1@));
        }
        c = c + 1;
    }
    assert(em.closure.subrange(0, c as int) =~= em.closure);
    let ghost placed0 = vals(w@);
    let count: usize = if a < 4 { a as usize } else { 4 };
    let mut k: usize = 0;
    while k < count
        invariant
            k <= count,
            count == (if (a as nat) < 4 { a as nat } else { 4 }),
            im == crate::machine::info_model(*info),
            w@.len() == n,
            vals(w@) == tail_params(placed0, im, vals(taken@), k as nat),
        decreases count - k,
    {
        let slot: usize = if k < info.param_indices.len() { info.param_indices[k] } else { k };
        assert(slot as int == param_slot(im, k as int));
        if slot < w.len() {
            let v = if k < taken.len() { taken[k].duplicate() } else { Value::Null };
            let ghost before = vals(w@);
            let ghost vm = v@;
            w.set(slot, v);
            assert(vals(w@) =~= before.update(slot as int, vm));
        }
        k = k + 1;
    }
    let ghost placed1 = vals(w@);
    let mut i: usize = a as usize;
    if info.param_count > i {
        assert(tail_defaults(placed1, im, a as nat, i as nat) == placed1);
        while i < info.param_count
            invariant
                a as nat <= i <= info.param_count,
                im == crate::machine::info_model(*info),
                w@.len() == n,
                vals(w@) == tail_defaults(placed1, im, a as nat, i as nat),
            decreases info.param_count - i,
        {
            let slot: usize = if i < info.param_indices.len() { info.param_indices[i] } else { i };
            assert(slot as int == param_slot(im, i as int));
            if slot < w.len() && i < info.defaults.len() {
                match &info.defaults[i] {
                    Some(cst) => {
                        let dv = crate::machine::convert_value(cst);
                        let ghost before = vals(w@);
                        w.set(slot, dv);
                        assert(vals(w@) =~= before.update(slot as int, im.defaults[i as int]->0));
                    }
                    None => {}
                }
            }
            i = i + 1;
        }
    }
}

proof fn lemma_tail_frame_wf(m: MachineModel, e: FunctionModel, info: FunctionInfoModel, taken: Seq<Val>, a: u8)
    requires
        wf(m),
        m.frames.len() > 0,
        m.frames.last().arena_offset + m.frames.last().arena_len <= m.arena.len(),
    ensures
        wf(tail_frame(m, e, info, taken, a)),
{
    let fr = m.frames.last();
    let last = m.frames.len() - 1;
    let m2 = tail_frame(m, e, info, taken, a);
    let nl = callee_size(e);
    let off = fr.arena_offset as int;
    let len = fr.arena_len as nat;
    let a1 = if nl > len { m.arena.subrange(0, off + len) + Seq::new((nl - len) as nat, |i: int| Val::Null) } else { m.arena };
    assert(a1.len() >= off + nl);
    lemma_tail_locals_len(a1.subrange(off, off + nl), e, info, taken, a as nat);
    assert(m2.arena.len() == a1.len());
    assert forall|i: int| 0 <= i < m2.frames.len() implies
        #[trigger] m2.frames[i].arena_offset + m2.frames[i].arena_len <= m2.arena.len() by {
        if i < last {
            assert(m2.frames[i] == m.frames[i]);
            assert(m.frames[i].arena_offset + m.frames[i].arena_len <= m.frames[last].arena_offset);
        }
    }
    assert forall|i: int, j: int| 0 <= i < j < m2.frames.len() implies
        #[trigger] m2.frames[i].arena_offset + m2.frames[i].arena_len <= #[trigger] m2.frames[j].arena_offset by {
        assert(m2.frames[i] == m.frames[i]);
        assert(m2.frames[j].arena_offset == m.frames[j].arena_offset);
    }
}

/// Grows or keeps the window `off .. off + len` of the arena to `nl` slots
/// and lays the callee's locals over it.
fn lay_window(arena: &mut Vec<Value>, off: usize, len: usize, nl: usize, e: &crate::machine::FunctionEntry,
    info: &crate::machine::FunctionInfo, taken: &Vec<Value>, a: u8)
    requires
        off + len <= old(arena)@.len(),
        off + nl <= usize::MAX,
    ensures
        vals(final(arena)@) == tail_arena(vals(old(arena)@), off as int, len as nat, nl as nat,
            crate::machine::function_model(*e), crate::machine::info_model(*info), vals(taken@), a),
{
    let ghost em = crate::machine::function_model(*e);
    let ghost im = crate::machine::info_model(*info);
    let ghost a0 = vals(arena@);
    if nl > len {
        arena.truncate(off + len);
        assert(vals(arena@) =~= a0.subrange(0, off + len) + Seq::new(0, |i: int| Val::Null));
        while arena.len() < off + nl
            invariant
                off + nl <= usize::MAX,
                off + len <= a0.len(),
                off + len <= arena@.len() <= off + nl,
                vals(arena@) =~= a0.subrange(0, off + len)
                    + Seq::new((arena@.len() - off - len) as nat, |i: int| Val::Null),
            decreases off + nl - arena@.len(),
        {
            let ghost before = vals(arena@);
            arena.push(Value::Null);
            assert(vals(arena@) =~= before.push(Val::Null));
        }
    }
    let ghost a1 = vals(arena@);
    assert(a1 =~= (if nl > len { a0.subrange(0, off + len) + Seq::new((nl - len) as nat, |i: int| Val::Null) } else { a0 }));
    let mut w: Vec<Value> = Vec::new();
    let mut i: usize = 0;
    while i < nl
        invariant
            i <= nl,
            off + nl <= usize::MAX,
            off + nl <= arena@.len(),
            a1 == vals(arena@),
            vals(w@) =~= a1.subrange(off as int, off + i),
        decreases nl - i,
    {
        let ghost before = vals(w@);
        w.push(arena[off + i].duplicate());
        assert(vals(w@) =~= before.push(a1[off + i]));
        i = i + 1;
    }
    lay_locals(&mut w, e, info, taken, a);
    let ghost lw = vals(w@);
    assert(lw == tail_locals(a1.subrange(off as int, off + nl), em, im, vals(taken@), a as nat));
    let mut j: usize = 0;
    while j < nl
        invariant
            j <= nl,
            off + nl <= usize::MAX,
            w@.len() == nl,
            lw == vals(w@),
            arena@.len() == a1.len(),
            off + nl <= a1.len(),
            vals(arena@) =~= a1.subrange(0, off as int) + lw.subrange(0, j as int) + a1.subrange(off + j, a1.len() as int),
        decreases nl - j,
    {
        let ghost before = vals(arena@);
        arena.set(off + j, w[j].duplicate());
        assert(vals(arena@) =~= before.update(off + j, lw[j as int]));
        j = j + 1;
    }
    assert(lw.subrange(0, nl as int) =~= lw);
}

impl VM {
    /// Reuses the running frame for function object `k`.
    fn reuse_frame(&mut self, p: &Program, k: usize, taken: &Vec<Value>, a: u8)
        requires
            wf(old(self)@),
            old(self)@.frames.len() > 0,
            k < old(self)@.functions.len(),
            old(self)@.functions[k as int].info < p@.functions.len(),
            old(self)@.frames.last().arena_offset + callee_size(old(self)@.functions[k as int]) <= usize::MAX,
        ensures
            final(self)@ == tail_frame(old(self)@, old(self)@.functions[k as int],
                p@.functions[old(self)@.functions[k as int].info as int], vals(taken@), a),
            wf(final(self)@),
    {
        let ghost m = self@;
        let ghost em = m.functions[k as int];
        let fi = self.frames.len() - 1;
        let fr = self.frames[fi];
        proof {
            assert(fr == m.frames[fi as int]);
            assert(m.frames[fi as int].arena_offset + m.frames[fi as int].arena_len <= m.arena.len());
        }
        let off = fr.arena_offset;
        let len = fr.arena_len;
        let info_idx = self.functions[k].info;
        let info = &p.functions[info_idx];
        let ghost im = p@.functions[info_idx as int];
        assert(im == crate::machine::info_model(*info));
        let nl: usize = if self.functions[k].num_locals > 1 { self.functions[k].num_locals } else { 1 };
        assert(nl as nat == callee_size(em));
        assert(em == crate::machine::function_model(self.functions@[k as int]));
        lay_window(&mut self.locals_arena, off, len, nl, &self.functions[k], info, taken, a);
        self.frames.set(fi, Frame { arena_len: nl, ..fr });
        self.ip = info.body;
        proof {
            assert(self@.frames =~= m.frames.update(m.frames.len() - 1, Frame { arena_len: nl, ..fr }));
            assert(self@ =~= tail_frame(m, em, im, vals(taken@), a));
            lemma_tail_frame_wf(m, em, im, vals(taken@), a);
        }
    }

    /// Executes `TailCall(a)`; the instruction pointer is already past it.
    pub(crate) fn exec_tail_call(&mut self, p: &Program, a: u8) -> (s: Step)
        requires
            wf(old(self)@),
            old(self)@.frames.len() > 0,
            tail_defined(old(self)@, p@, a),
        ensures
            (final(self)@, step_model(s)) == spec_tail_call(old(self)@, p@, a),
            wf(final(self)@),
    {
        let ghost m = self@;
        let n: usize = if 1 <= a && a <= 4 { a as usize } else { 0 };
        let taken = self.take_top_values(n);
        let f = self.pop_value();
        match f {
            Value::NativeFunction(d) => Step::CallNative(crate::text::string_to_chars(&d.name), taken),
            Value::Function(o) => match self.find_function_exec(o.oid) {
                None => Step::Continue,
                Some(k) => {
                    let info_idx = self.functions[k].info;
                    if p.functions[info_idx].is_generator {
                        let fresh = self.bump_oid();
                        self.push_value(Value::Generator(crate::value::ObjectRef { oid: fresh, name: o.name }));
                        return Step::Continue;
                    }
                    self.reuse_frame(p, k, &taken, a);
                    Step::Continue
                }
            },
            Value::Generator(_) => {
                let msg = crate::text::str_to_chars("المولّد لا يمكن استدعاؤه مباشرة. استخدم ابعث()");
                self.resume_error(crate::error::RuntimeError::new(crate::text::chars_to_string(&msg)))
            }
            other => {
                let mut msg = crate::text::str_to_chars("غير قادر على استدعاء ");
                let kn = other.kind_name();
                crate::text::extend_chars(&mut msg, &kn);
                self.resume_error(crate::error::RuntimeError::new(crate::text::chars_to_string(&msg)))
            }
        }
    }

    /// Whether the machine runs `TailCall(a)` here.
    pub fn tail_call_ok(&self, p: &Program, a: u8) -> (r: bool)
        requires
            wf(self@),
            self@.frames.len() > 0,
        ensures
            r == tail_defined(self@, p@, a),
    {
        let n: usize = if 1 <= a && a <= 4 { a as usize } else { 0 };
        let len = self.stack.len();
        let ghost st = vals(self.stack@);
        let below: usize = if n <= len { len - n } else { 0 };
        let f = if below > 0 { self.stack[below - 1].duplicate() } else { Value::Null };
        proof {
            let (s1, _) = take_top(st, n as nat);
            assert(s1.len() == below);
            if below > 0 {
                assert(s1.last() == st[below - 1]);
            }
        }
        match f {
            Value::Function(o) => match self.find_function_exec(o.oid) {
                Some(k) => {
                    let info_idx = self.functions[k].info;
                    if info_idx >= p.functions.len() {
                        return false;
                    }
                    if p.functions[info_idx].is_generator {
                        return true;
                    }
                    let nl: usize = if self.functions[k].num_locals > 1 { self.functions[k].num_locals } else { 1 };
                    let off = self.frames[self.frames.len() - 1].arena_offset;
                    nl <= usize::MAX - off
                }
                None => false,
            },
            Value::Class(_) | Value::Instance(_) => false,
            _ => true,
        }
    }
}

} // verus!
