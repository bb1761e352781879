//! The container, iteration, text and exception instructions of the
//! machine.
//!
//! Lists, dictionaries, sets and cells are shared objects: an instruction that
//! changes one in place (an element store, an append, a store through a
//! captured variable) changes it for every holder.  Here every holder keeps
//! its own copy, so such an instruction refreshes each copy of the object
//! (found by identity) on the operand stack, in the locals, in the globals
//! and in the values that function objects captured.

use vstd::prelude::*;
use crate::value::{Value, Val, ListObj, DictObj, SliceData, ExceptionData, vals, val_text, kind_name, group_value_model};
use crate::ops::{Outcome, OutcomeModel, outcome_model};
use crate::containers::{refresh, refresh_all, refresh_items, refresh_value, iter_items, tuple_oid,
    spec_subscript, subscript_defined, spec_store_subscript, dedup, range_walk_fits};
use crate::machine::{VM, MachineModel, Program, ProgramModel, Instr, Frame, FunctionModel, FunctionInfoModel, FunctionEntry, Step, StepModel, step_model, wf, spop, pop2,
    push, with_stack, bump, spec_throw, spec_after, line_at, local_slot, frame_handler_floor, exception_child,
    globals_model, Constant, constant_val};
use crate::text::{str_to_chars, chars_to_string, nat_digits, decimal_usize, extend_chars};

verus! {

broadcast use group_value_model;

/// The `n` values on top of the stack in stack order, and the stack below
/// them; missing values read as null.
pub open spec fn take_top(st: Seq<Val>, n: nat) -> (Seq<Val>, Seq<Val>) {
    if n <= st.len() {
        (st.subrange(0, st.len() - n), st.subrange(st.len() - n, st.len() as int))
    } else {
        (Seq::empty(), Seq::new((n - st.len()) as nat, |i: int| Val::Null) + st)
    }
}

/// Consecutive values paired up: (key, value), (key, value), ...
pub open spec fn pair_up(items: Seq<Val>) -> Seq<(Val, Val)> {
    Seq::new(items.len() / 2, |j: int| (items[2 * j], items[2 * j + 1]))
}

pub open spec fn memory_class() -> Seq<char> {
    "استثناء_ذاكرة"@
}

/// The message of the error for an allocation beyond the memory limit.
pub open spec fn memory_message(limit: usize) -> Seq<char> {
    "تجاوزت الحد الاقصى للذاكرة ("@ + nat_digits(limit as nat / 1048576) + " ميجابايت)"@
}

/// Whether `bytes` more fit under the memory limit.
pub open spec fn fits_memory(m: MachineModel, bytes: nat) -> bool {
    m.memory_used + bytes <= m.memory_limit
}

/// A captured-values list with the object `obj` refreshed in each value.
pub open spec fn refresh_closure(cl: Seq<(usize, Val)>, obj: Val) -> Seq<(usize, Val)> {
    Seq::new(cl.len(), |j: int| (cl[j].0, refresh(cl[j].1, obj)))
}

/// The machine with every holder of the object `obj` seeing its new state.
pub open spec fn refresh_machine(m: MachineModel, obj: Val) -> MachineModel {
    MachineModel {
        stack: refresh_all(m.stack, obj),
        arena: refresh_all(m.arena, obj),
        globals: Seq::new(m.globals.len(), |k: int| (m.globals[k].0, refresh(m.globals[k].1, obj))),
        functions: Seq::new(m.functions.len(), |k: int|
            FunctionModel { closure: refresh_closure(m.functions[k].closure, obj), ..m.functions[k] }),
        ..m
    }
}

/// The type word of the error for inserting into a non-dictionary.
pub open spec fn insert_kind(v: Val) -> Seq<char> {
    match v {
        Val::Int(_) => "عدد"@,
        Val::Float(_, _) => "عشري"@,
        Val::Str(_) => "نص"@,
        Val::Bool(_) => "منطقي"@,
        Val::Null => "عدم"@,
        _ => "مجهول"@,
    }
}

/// An exception record with no line and no trace.
pub open spec fn exc_val(class_name: Seq<char>, message: Seq<char>) -> Val {
    Val::Exception(crate::value::ExcModel { class_name, message, line: None, call_stack: Seq::empty() })
}

/// The exception a `raise` of `v` throws.
pub open spec fn raised_exception(m: MachineModel, v: Val) -> Val {
    match v {
        Val::Exception(_) => v,
        Val::Instance(_, name) => if exception_child(m.hierarchy, name, "استثناء"@) {
            exc_val(name, val_text(v))
        } else {
            exc_val("استثناء"@, val_text(v))
        },
        Val::Null => match m.exception {
            Some(e) => e,
            None => exc_val(crate::error::generic_error_class(), "لا يوجد استثناء لاعادة رميه"@),
        },
        _ => exc_val("استثناء"@, val_text(v)),
    }
}

/// The first position of `c` in `s`.
pub open spec fn first_index(s: Seq<char>, c: char) -> Option<int>
    decreases s.len(),
{
    if s.len() == 0 {
        None
    } else if s[0] == c {
        Some(0)
    } else {
        match first_index(s.drop_first(), c) {
            Some(j) => Some(j + 1),
            None => None,
        }
    }
}

/// Splitting the rest of a text at every `c`, with the piece begun so far
/// and the pieces finished so far.
pub open spec fn split_from(s: Seq<char>, c: char, cur: Seq<char>, done: Seq<Seq<char>>) -> Seq<Seq<char>>
    decreases s.len(),
{
    if s.len() == 0 {
        done.push(cur)
    } else if s[0] == c {
        split_from(s.drop_first(), c, Seq::empty(), done.push(cur))
    } else {
        split_from(s.drop_first(), c, cur.push(s[0]), done)
    }
}

/// The pieces of `s` between the occurrences of `c`.
pub open spec fn split_on(s: Seq<char>, c: char) -> Seq<Seq<char>> {
    split_from(s, c, Seq::empty(), Seq::empty())
}

/// The hierarchy record a `child:parent,parent` declaration adds, if the text has a colon.
pub open spec fn declared_class(s: Seq<char>) -> Option<(Seq<char>, Seq<Seq<char>>)> {
    match first_index(s, ':') {
        Some(j) => Some((s.subrange(0, j), split_on(s.subrange(j + 1, s.len() as int), ','))),
        None => None,
    }
}

/// The string constant at `b`, if there is one.
pub open spec fn string_constant(p: ProgramModel, b: usize) -> Option<Seq<char>> {
    if b < p.constants.len() {
        match p.constants[b as int] {
            Val::Str(s) => Some(s),
            _ => None,
        }
    } else {
        None
    }
}

/// The value a `for` over a range computes from its counter (with wrap-around).
pub open spec fn range_current(d: crate::value::RangeData, counter: i64) -> i64 {
    if d.step == 1 || d.step == -1 {
        crate::ops::wrap_add(d.start, counter)
    } else {
        crate::ops::wrap_add(d.start, crate::ops::wrap_mul(counter, d.step))
    }
}

/// Whether the range loop goes on with this counter.
pub open spec fn range_continues(d: crate::value::RangeData, counter: i64) -> bool {
    if d.step > 0 { range_current(d, counter) < d.end } else { range_current(d, counter) > d.end }
}

pub open spec fn spec_build_list(m: MachineModel, p: ProgramModel, a: u8) -> (MachineModel, StepModel) {
    let bytes = a as nat * 24;
    if !fits_memory(m, bytes) {
        spec_throw(m, p, memory_class(), memory_message(m.memory_limit))
    } else {
        let (rest, items) = take_top(m.stack, a as nat);
        let m2 = MachineModel { stack: rest, memory_used: (m.memory_used + bytes) as usize, ..m };
        (push(bump(m2), Val::List(m2.next_oid, items)), StepModel::Continue)
    }
}

pub open spec fn spec_build_tuple(m: MachineModel, a: u8) -> (MachineModel, StepModel) {
    let (rest, items) = take_top(m.stack, a as nat);
    let m2 = with_stack(m, rest);
    (push(bump(m2), Val::Tuple(m2.next_oid, items)), StepModel::Continue)
}

pub open spec fn spec_build_dict(m: MachineModel, a: u8) -> (MachineModel, StepModel) {
    let (rest, items) = take_top(m.stack, 2 * (a as nat));
    let m2 = with_stack(m, rest);
    (push(bump(m2), Val::Dict(m2.next_oid, pair_up(items))), StepModel::Continue)
}

pub open spec fn spec_build_set(m: MachineModel, a: u8) -> (MachineModel, StepModel) {
    let (rest, items) = take_top(m.stack, a as nat);
    let m2 = with_stack(m, rest);
    (push(bump(m2), Val::SetVal(m2.next_oid, dedup(items))), StepModel::Continue)
}

pub open spec fn spec_dict_set_item(m: MachineModel, p: ProgramModel) -> (MachineModel, StepModel) {
    let (s1, v) = spop(m.stack);
    let (s2, k) = spop(s1);
    let (s3, d) = spop(s2);
    let m2 = with_stack(m, s3);
    match d {
        Val::Dict(o, pairs) => {
            let nd = Val::Dict(o, pairs.push((k, v)));
            (push(refresh_machine(m2, nd), nd), StepModel::Continue)
        },
        _ => spec_throw(m2, p, crate::ops::type_error_class(), "لا يمكن ادراج العناصر في "@ + insert_kind(d)),
    }
}

pub open spec fn spec_subscript_step(m: MachineModel, p: ProgramModel) -> (MachineModel, StepModel) {
    let (m2, obj, idx) = pop2(m);
    spec_after(bump(m2), p, spec_subscript(obj, idx, m2.next_oid))
}

pub open spec fn spec_store_subscript_step(m: MachineModel, p: ProgramModel) -> (MachineModel, StepModel) {
    let (s1, v) = spop(m.stack);
    let (s2, idx) = spop(s1);
    let (s3, obj) = spop(s2);
    let m2 = with_stack(m, s3);
    match spec_store_subscript(obj, idx, v) {
        OutcomeModel::Value(nobj) => (push(refresh_machine(m2, nobj), nobj), StepModel::Continue),
        OutcomeModel::Raise(c, msg) => spec_throw(m2, p, c, msg),
        _ => (m2, StepModel::Continue),
    }
}

pub open spec fn spec_build_slice(m: MachineModel) -> (MachineModel, StepModel) {
    let (s1, step) = spop(m.stack);
    let (s2, end) = spop(s1);
    let (s3, start) = spop(s2);
    (push(with_stack(m, s3), Val::Slice(Box::new(start), Box::new(end), Box::new(step))), StepModel::Continue)
}

pub open spec fn spec_list_append(m: MachineModel, b: u16) -> (MachineModel, StepModel) {
    let (s1, item) = spop(m.stack);
    let m1 = with_stack(m, s1);
    if b <= 1 {
        (m1, StepModel::Continue)
    } else {
        let (s2, ex) = spop(s1);
        let m2 = with_stack(m, s2);
        match ex {
            Val::List(o, items) => {
                let nl = Val::List(o, items + Seq::new((b - 1) as nat, |t: int| item));
                (push(refresh_machine(m2, nl), nl), StepModel::Continue)
            },
            _ => (push(m2, ex), StepModel::Continue),
        }
    }
}

pub open spec fn spec_list_append_local(m: MachineModel, p: ProgramModel, a: usize) -> (MachineModel, StepModel) {
    if !fits_memory(m, 24) {
        spec_throw(m, p, memory_class(), memory_message(m.memory_limit))
    } else {
        let (s1, v) = spop(m.stack);
        let m2 = MachineModel { stack: s1, memory_used: (m.memory_used + 24) as usize, ..m };
        if a < m.frames.last().arena_len {
            match local_slot(m2, a) {
                Val::List(o, items) => {
                    let nl = Val::List(o, items.push(v));
                    (refresh_machine(m2, nl), StepModel::Continue)
                },
                _ => (m2, StepModel::Continue),
            }
        } else {
            (m2, StepModel::Continue)
        }
    }
}

pub open spec fn spec_for_iter(m: MachineModel) -> (MachineModel, StepModel) {
    let (s1, obj) = spop(m.stack);
    let fresh = m.next_oid;
    let base = crate::ops::wrap_add_u64(fresh);
    match iter_items(obj, base) {
        Some(items) => {
            let m2 = MachineModel {
                stack: s1.push(Val::List(fresh, items)).push(Val::Int(0)).push(Val::Int(items.len() as i64)),
                next_oid: tuple_oid(base, items.len() as int),
                ..m
            };
            (m2, StepModel::Continue)
        },
        None => (with_stack(m, s1), StepModel::Failed(crate::error::generic_error_class(), "غير قادر على التكرار"@, None)),
    }
}

pub open spec fn spec_for_range(m: MachineModel, it: usize, tg: usize, ix: usize, end: usize) -> (MachineModel, StepModel) {
    let f = m.frames.last();
    if it < f.arena_len && tg < f.arena_len && ix < f.arena_len {
        match local_slot(m, it) {
            Val::Range(d) => {
                let counter = match local_slot(m, ix) {
                    Val::Int(n) => n,
                    _ => 0,
                };
                if range_continues(d, counter) {
                    let a1 = m.arena.update(f.arena_offset + tg, Val::Int(range_current(d, counter)));
                    let a2 = match a1[f.arena_offset + ix] {
                        Val::Int(n) => a1.update(f.arena_offset + ix, Val::Int(crate::ops::wrap_add(n, 1))),
                        _ => a1,
                    };
                    (MachineModel { arena: a2, ..m }, StepModel::Continue)
                } else {
                    (MachineModel { ip: end, ..m }, StepModel::Continue)
                }
            },
            _ => (m, StepModel::Failed(crate::error::generic_error_class(), "لكل تتطلب نطاق"@, None)),
        }
    } else {
        (m, StepModel::Continue)
    }
}

pub open spec fn spec_string_coerce(m: MachineModel) -> (MachineModel, StepModel) {
    let (s1, v) = spop(m.stack);
    (with_stack(m, s1.push(Val::Str(val_text(v)))), StepModel::Continue)
}

pub open spec fn spec_check_exception_type(m: MachineModel, p: ProgramModel, b: usize) -> (MachineModel, StepModel) {
    match string_constant(p, b) {
    None => spec_throw(m, p, "استثناء_بنية"@, "CheckExceptionType: target not found"@),
    Some(target) => {
        let (s1, ev) = spop(m.stack);
        let m2 = with_stack(m, s1);
        match ev {
            Val::Exception(e) => (push(push(m2, ev), Val::Bool(exception_child(m.hierarchy, e.class_name, target))), StepModel::Continue),
            _ => spec_throw(m2, p, crate::ops::type_error_class(), "القيمة ليست استثناء"@),
        }
    },
}
}

pub open spec fn spec_register_exception_class(m: MachineModel, p: ProgramModel, b: usize) -> (MachineModel, StepModel) {
    match string_constant(p, b) {
    Some(s) => match declared_class(s) {
        Some(rec) => (MachineModel { hierarchy: m.hierarchy.push(rec), ..m }, StepModel::Continue),
        None => (m, StepModel::Continue),
    },
    None => (m, StepModel::Continue),
}
}

pub open spec fn spec_raise(m: MachineModel, p: ProgramModel) -> (MachineModel, StepModel) {
    let (s1, v) = spop(m.stack);
    let exc = raised_exception(m, v);
    let m2 = MachineModel { stack: s1, exception: Some(exc), ..m };
    if m2.handlers.len() > frame_handler_floor(m2) {
        (MachineModel {
            handlers: m2.handlers.drop_last(),
            stack: m2.stack.push(exc),
            ip: m2.handlers.last(),
            ..m2
        }, StepModel::Continue)
    } else {
        (m2, StepModel::Failed(kind_name(exc), "استثناء غير مُعالَج: "@ + val_text(exc), Some(line_at(p, m.ip))))
    }
}

pub open spec fn spec_string_format(m: MachineModel) -> (MachineModel, StepModel) {
    let (s1, v) = spop(m.stack);
    let (s2, fmt) = spop(s1);
    match crate::formatting::format_result(v, val_text(fmt)) {
        Ok(t) => (with_stack(m, s2.push(Val::Str(t))), StepModel::Continue),
        Err((ff, st)) => (with_stack(m, s2), StepModel::Format(ff, st)),
    }
}

/// One more than the largest index, or 0.
pub open spec fn bound_of(s: Seq<usize>) -> nat
    decreases s.len(),
{
    if s.len() == 0 {
        0
    } else {
        let b = bound_of(s.drop_last());
        if b > s.last() + 1 { b } else { (s.last() + 1) as nat }
    }
}

/// The number of locals a function object gets: at least the declared
/// number, every parameter slot, every captured slot and one per parameter.
pub open spec fn function_locals(info: FunctionInfoModel) -> nat {
    let a = info.declared_locals as nat;
    let b = bound_of(info.param_indices);
    let c = bound_of(Seq::new(info.free_vars.len(), |k: int| info.free_vars[k].0));
    let d = info.param_count as nat;
    let ab = if a > b { a } else { b };
    let cd = if c > d { c } else { d };
    if ab > cd { ab } else { cd }
}

/// Capturing the first `k` free variables from the running frame: a local
/// that is not yet a cell becomes one (with a fresh identity) so that the
/// enclosing frame and the function share it.
pub open spec fn capture(m: MachineModel, fv: Seq<(usize, usize)>, k: nat) -> (MachineModel, Seq<(usize, Val)>)
    decreases k,
{
    if k == 0 || k > fv.len() {
        (m, Seq::empty())
    } else {
        let (m1, cl) = capture(m, fv, (k - 1) as nat);
        let (inner, outer) = fv[k - 1];
        let f = m1.frames.last();
        if outer < f.arena_len {
            let slot = f.arena_offset + outer;
            match m1.arena[slot] {
                Val::Cell(_, _) => (m1, cl.push((inner, m1.arena[slot]))),
                v => {
                    let c = Val::Cell(m1.next_oid, Box::new(v));
                    (MachineModel { arena: m1.arena.update(slot, c), ..bump(m1) }, cl.push((inner, c)))
                },
            }
        } else {
            (m1, cl)
        }
    }
}

pub open spec fn spec_make_function(m: MachineModel, p: ProgramModel, fi: usize) -> (MachineModel, StepModel) {
    let info = p.functions[fi as int];
    let (m1, closure) = capture(m, info.free_vars, info.free_vars.len());
    let fresh = m1.next_oid;
    let entry = FunctionModel { oid: fresh, info: fi, num_locals: function_locals(info) as usize, closure };
    (push(MachineModel { functions: m1.functions.push(entry), ..bump(m1) }, Val::Function(fresh, info.name)), StepModel::Continue)
}

/// The position of the function object with identity `oid`, the latest such.
pub open spec fn find_function(fs: Seq<FunctionModel>, oid: u64) -> Option<int>
    decreases fs.len(),
{
    if fs.len() == 0 {
        None
    } else if fs.last().oid == oid {
        Some(fs.len() - 1)
    } else {
        find_function(fs.drop_last(), oid)
    }
}

/// The locals of a new call after placing the captured values.
pub open spec fn place_closure(locals: Seq<Val>, cl: Seq<(usize, Val)>) -> Seq<Val>
    decreases cl.len(),
{
    if cl.len() == 0 {
        locals
    } else {
        let prev = place_closure(locals, cl.drop_last());
        if cl.last().0 < prev.len() { prev.update(cl.last().0 as int, cl.last().1) } else { prev }
    }
}

/// The parameter slot of parameter `i`.
pub open spec fn param_slot(info: FunctionInfoModel, i: int) -> int {
    if i < info.param_indices.len() { info.param_indices[i] as int } else { i }
}

/// The value the keyword argument named `name` gives: the last one of
/// that name, when there is one.
pub open spec fn kw_lookup(kwargs: Seq<(Seq<char>, Val)>, name: Seq<char>) -> Option<Val>
    decreases kwargs.len(),
{
    if kwargs.len() == 0 {
        None
    } else if kwargs.last().0 == name {
        Some(kwargs.last().1)
    } else {
        kw_lookup(kwargs.drop_last(), name)
    }
}

/// The keyword argument parameter `k` takes, when it has a name and an
/// argument of that name was given.
pub open spec fn param_kwarg(info: FunctionInfoModel, kwargs: Seq<(Seq<char>, Val)>, k: int) -> Option<Val> {
    if 0 <= k < info.param_names.len() { kw_lookup(kwargs, info.param_names[k]) } else { None }
}

/// The locals after placing the first `i` parameters, with the number of
/// positional arguments used: each parameter whose slot exists takes the
/// next positional argument, or else the keyword argument of its name, or
/// else its default when it has one.
pub open spec fn place_params(locals: Seq<Val>, info: FunctionInfoModel, args: Seq<Val>,
    kwargs: Seq<(Seq<char>, Val)>, i: nat) -> (Seq<Val>, nat)
    decreases i,
{
    if i == 0 {
        (locals, 0)
    } else {
        let (prev, used) = place_params(locals, info, args, kwargs, (i - 1) as nat);
        let k = (i - 1) as int;
        let slot = param_slot(info, k);
        if slot < prev.len() {
            if used < args.len() {
                (prev.update(slot, args[used as int]), used + 1)
            } else if param_kwarg(info, kwargs, k) is Some {
                (prev.update(slot, param_kwarg(info, kwargs, k)->0), used)
            } else if k < info.defaults.len() && info.defaults[k] is Some {
                (prev.update(slot, info.defaults[k]->0), used)
            } else {
                (prev, used)
            }
        } else {
            (prev, used)
        }
    }
}

/// The locals a call of the function object `e` starts with.
pub open spec fn call_locals(e: FunctionModel, info: FunctionInfoModel, args: Seq<Val>, kwargs: Seq<(Seq<char>, Val)>) -> Seq<Val> {
    let n: nat = if e.num_locals > 1 { e.num_locals as nat } else { 1 };
    let start = place_closure(Seq::new(n, |i: int| Val::Null), e.closure);
    place_params(start, info, args, kwargs, info.param_count as nat).0
}

pub open spec fn not_callable_message(v: Val) -> Seq<char> {
    "غير قادر على استدعاء "@ + kind_name(v)
}

/// The message of a call that would pass the call-depth limit.
pub open spec fn depth_message(limit: usize) -> Seq<char> {
    "تجاوزت عمق الاستدعاء الحد الاقصى ("@ + nat_digits(limit as nat) + ")"@
}

/// Calling `f` with these arguments once the callee and its arguments are
/// off the stack of `m`: a native function is handed out, a function
/// object gets a new frame, anything else is not callable.  A `nested`
/// call starts a nested run: the new frame's saved instruction is the body,
/// the run remembers where the caller resumes, and a call past the depth
/// limit fails as a native call does (the callee's locals stay laid out).
pub open spec fn spec_invoke(m: MachineModel, p: ProgramModel, f: Val, args: Seq<Val>, kwargs: Seq<(Seq<char>, Val)>,
    nested: bool) -> (MachineModel, StepModel) {
    match f {
        Val::Native(name, _) => (m, if kwargs.len() == 0 {
            StepModel::CallNative(name, args)
        } else {
            StepModel::CallNativeKw(name, args, kwargs)
        }),
        Val::Function(oid, fname) => match find_function(m.functions, oid) {
            Some(k) => if p.functions[m.functions[k].info as int].is_generator {
                (push(bump(m), Val::Generator(m.next_oid, fname)), StepModel::Continue)
            } else {
                let e = m.functions[k];
                let info = p.functions[e.info as int];
                let locals = call_locals(e, info, args, kwargs);
                let base = m.arena.len();
                let m3 = MachineModel { arena: m.arena + locals, ..m };
                if m.frames.len() >= m.frame_depth_limit {
                    if nested {
                        crate::runtime::spec_native_error(m3, crate::error::generic_error_class(), depth_message(m.frame_depth_limit), None, Seq::empty())
                    } else {
                        spec_throw(m3, p, "استثناء_بنية"@, depth_message(m.frame_depth_limit))
                    }
                } else {
                    (MachineModel {
                        frames: m3.frames.push(Frame {
                            arena_offset: base as usize,
                            arena_len: locals.len() as usize,
                            return_ip: if nested { info.body } else { m.ip },
                            saved_handler_len: m3.handlers.len() as usize,
                            saved_stack_len: m3.stack.len() as usize,
                        }),
                        ip: info.body,
                        runs: if nested { m3.runs.push(m.ip) } else { m3.runs },
                        ..m3
                    }, StepModel::Continue)
                }
            },
            None => (m, StepModel::Continue),
        },
        Val::Generator(_, _) => crate::runtime::spec_native_error(m, crate::error::generic_error_class(), generator_call_message(), None, Seq::empty()),
        _ => crate::runtime::spec_native_error(m, crate::error::generic_error_class(), not_callable_message(f), None, Seq::empty()),
    }
}

/// The error of calling a generator itself.
pub open spec fn generator_call_message() -> Seq<char> {
    "المولّد لا يمكن استدعاؤه مباشرة. استخدم ابعث()"@
}

pub open spec fn spec_call_function(m: MachineModel, p: ProgramModel, a: u8) -> (MachineModel, StepModel) {
    let (rest, args) = take_top(m.stack, a as nat);
    let (s2, f) = spop(rest);
    spec_invoke(with_stack(m, s2), p, f, args, Seq::empty(), false)
}

/// Whether calling `f` on machine `m` is a call this machine runs: of
/// anything but a class or an instance (whose fields and methods the
/// machine does not hold), and of a function object only one it made.
pub open spec fn invoke_defined(m: MachineModel, p: ProgramModel, f: Val) -> bool {
    match f {
        Val::Function(oid, _) => match find_function(m.functions, oid) {
            Some(k) => m.functions[k].info < p.functions.len()
                && (p.functions[m.functions[k].info as int].is_generator
                    || m.arena.len() + m.functions[k].num_locals + 1 <= usize::MAX),
            None => false,
        },
        Val::Class(_, _) | Val::Instance(_, _) => false,
        _ => true,
    }
}

/// Whether a call's callee is one this machine runs.
pub open spec fn call_defined(m: MachineModel, p: ProgramModel, a: u8) -> bool {
    let (rest, args) = take_top(m.stack, a as nat);
    let (s2, f) = spop(rest);
    invoke_defined(m, p, f)
}

/// Whether making a function keeps its sizes within the machine word.
pub open spec fn make_defined(m: MachineModel, p: ProgramModel, fi: usize) -> bool {
    fi < p.functions.len() && function_locals(p.functions[fi as int]) <= usize::MAX
}

/// The effect of the instructions of this module; `m` has its instruction
/// pointer already past the instruction.
pub open spec fn spec_step_ext(m: MachineModel, p: ProgramModel, i: Instr) -> (MachineModel, StepModel) {
    match i {
        Instr::BuildList(a) => spec_build_list(m, p, a),
        Instr::BuildTuple(a) => spec_build_tuple(m, a),
        Instr::BuildDict(a) => spec_build_dict(m, a),
        Instr::BuildSet(a) => spec_build_set(m, a),
        Instr::DictSetItem => spec_dict_set_item(m, p),
        Instr::Subscript => spec_subscript_step(m, p),
        Instr::StoreSubscript => spec_store_subscript_step(m, p),
        Instr::BuildSlice => spec_build_slice(m),
        Instr::ListAppend(b) => spec_list_append(m, b),
        Instr::ListAppendLocal(a) => spec_list_append_local(m, p, a),
        Instr::GetIter => (m, StepModel::Continue),
        Instr::ForIter => spec_for_iter(m),
        Instr::ForRange(it, tg, ix, end) => spec_for_range(m, it, tg, ix, end),
        Instr::StringCoerce => spec_string_coerce(m),
        Instr::SetupExcept(c) => (MachineModel { handlers: m.handlers.push(c), ..m }, StepModel::Continue),
        Instr::SetupFinally(c) => (MachineModel { handlers: m.handlers.push(c), ..m }, StepModel::Continue),
        Instr::EndExcept => (MachineModel { handlers: spop_handlers(m.handlers), ..m }, StepModel::Continue),
        Instr::CheckExceptionType(b) => spec_check_exception_type(m, p, b),
        Instr::RegisterExceptionClass(b) => spec_register_exception_class(m, p, b),
        Instr::Raise => spec_raise(m, p),
        Instr::StringFormat => spec_string_format(m),
        Instr::MakeFunction(fi) => spec_make_function(m, p, fi),
        Instr::CallFunction(a) => spec_call_function(m, p, a),
        _ => crate::fused::spec_step_fused(m, p, i),
    }
}

/// The handler stack after leaving a protected block.
pub open spec fn spop_handlers(h: Seq<usize>) -> Seq<usize> {
    if h.len() == 0 { h } else { h.drop_last() }
}

/// Instructions of this module whose operands make them panic are excluded.
pub open spec fn ext_defined(m: MachineModel, p: ProgramModel, i: Instr) -> bool {
    match i {
        Instr::Subscript => { let (_, obj, idx) = pop2(m); subscript_defined(obj, idx) },
        Instr::ForIter => match spop(m.stack).1 {
            Val::Range(d) => range_walk_fits(d),
            _ => true,
        },
        Instr::MakeFunction(fi) => make_defined(m, p, fi),
        Instr::CallFunction(a) => call_defined(m, p, a),
        _ => crate::fused::fused_defined(m, p, i),
    }
}

// ---------------------------------------------------------------- text helpers

/// The first position of `c` in `s`.
pub fn first_index_exec(s: &Vec<char>, c: char) -> (r: Option<usize>)
    ensures
        r matches Some(j) ==> first_index(s@, c) == Some(j as int) && j < s@.len(),
        r is None ==> first_index(s@, c) is None,
{
    let mut i: usize = 0;
    assert(s@.subrange(0, s@.len() as int) =~= s@);
    while i < s.len()
        invariant
            i <= s@.len(),
            first_index(s@, c) == (match first_index(s@.subrange(i as int, s@.len() as int), c) {
                Some(j) => Some(j + i),
                None => None::<int>,
            }),
        decreases s@.len() - i,
    {
        let ghost rest = s@.subrange(i as int, s@.len() as int);
        assert(rest.drop_first() =~= s@.subrange(i + 1, s@.len() as int));
        if s[i] == c {
            return Some(i);
        }
        i = i + 1;
    }
    assert(s@.subrange(i as int, s@.len() as int).len() == 0);
    None
}

/// The pieces of `s` between the occurrences of `c`.
pub fn split_exec(s: &Vec<char>, c: char) -> (r: Vec<Vec<char>>)
    ensures
        r@.len() == split_on(s@, c).len(),
        forall|k: int| 0 <= k < r@.len() ==> #[trigger] r@[k]@ == split_on(s@, c)[k],
{
    let mut done: Vec<Vec<char>> = Vec::new();
    let mut cur: Vec<char> = Vec::new();
    let mut i: usize = 0;
    assert(s@.subrange(0, s@.len() as int) =~= s@);
    assert(cur@ =~= Seq::<char>::empty());
    assert(crate::machine::char_seqs(done@) =~= Seq::<Seq<char>>::empty());
    while i < s.len()
        invariant
            i <= s@.len(),
            split_from(s@.subrange(i as int, s@.len() as int), c, cur@, crate::machine::char_seqs(done@)) == split_on(s@, c),
        decreases s@.len() - i,
    {
        let ghost rest = s@.subrange(i as int, s@.len() as int);
        assert(rest.drop_first() =~= s@.subrange(i + 1, s@.len() as int));
        assert(rest[0] == s@[i as int]);
        if s[i] == c {
            let ghost before = done@;
            let finished = cur;
            let ghost fm = finished@;
            done.push(finished);
            assert(crate::machine::char_seqs(done@) =~= crate::machine::char_seqs(before).push(fm));
            cur = Vec::new();
            assert(cur@ =~= Seq::<char>::empty());
        } else {
            cur.push(s[i]);
        }
        i = i + 1;
    }
    assert(s@.subrange(i as int, s@.len() as int).len() == 0);
    let ghost before = done@;
    let ghost cm = cur@;
    done.push(cur);
    assert(crate::machine::char_seqs(done@) =~= crate::machine::char_seqs(before).push(cm));
    assert(crate::machine::char_seqs(done@) == split_on(s@, c));
    done
}

impl VM {
    /// Takes the `n` values on top of the stack, in stack order.
    pub(crate) fn take_top_values(&mut self, n: usize) -> (items: Vec<Value>)
        ensures
            final(self)@ == with_stack(old(self)@, take_top(old(self)@.stack, n as nat).0),
            vals(items@) == take_top(old(self)@.stack, n as nat).1,
    {
        let ghost st = self@.stack;
        let len = self.stack.len();
        if n <= len {
            let items = self.stack.split_off(len - n);
            assert(vals(self.stack@) =~= st.subrange(0, len - n));
            assert(vals(items@) =~= st.subrange(len - n, len as int));
            assert(self@ =~= with_stack(old(self)@, take_top(st, n as nat).0));
            items
        } else {
            let mut tail = self.stack.split_off(0);
            assert(vals(tail@) =~= st);
            assert(vals(self.stack@) =~= Seq::<Val>::empty());
            let gap = n - len;
            let mut items: Vec<Value> = Vec::new();
            while items.len() < gap
                invariant
                    items@.len() <= gap,
                    forall|j: int| 0 <= j < items@.len() ==> items@[j] == Value::Null,
                decreases gap - items@.len(),
            {
                items.push(Value::Null);
            }
            let ghost nulls = items@;
            let ghost tailv = tail@;
            items.append(&mut tail);
            assert(vals(items@) =~= Seq::new(gap as nat, |i: int| Val::Null) + st) by {
                assert forall|j: int| 0 <= j < items@.len() implies #[trigger] vals(items@)[j] == (Seq::new(gap as nat, |i: int| Val::Null) + st)[j] by {
                    if j < gap {
                        assert(items@[j] == nulls[j]);
                    } else {
                        assert(items@[j] == tailv[j - gap]);
                    }
                }
            }
            assert(self@ =~= with_stack(old(self)@, take_top(st, n as nat).0));
            items
        }
    }

    /// Makes every holder of the object `obj` see its new state.
    pub(crate) fn refresh_holders(&mut self, obj: &Value)
        ensures
            final(self)@ == refresh_machine(old(self)@, obj@),
    {
        let ghost m = self@;
        let st = refresh_items(&self.stack, obj);
        self.stack = st;
        let ar = refresh_items(&self.locals_arena, obj);
        self.locals_arena = ar;
        let ghost gm = m.globals;
        let mut g: Vec<(Vec<char>, Value)> = Vec::new();
        let mut k: usize = 0;
        while k < self.globals.len()
            invariant
                k <= self.globals@.len(),
                gm == globals_model(self.globals@),
                globals_model(g@) =~= Seq::new(gm.len(), |t: int| (gm[t].0, refresh(gm[t].1, obj@))).subrange(0, k as int),
            decreases self.globals@.len() - k,
        {
            let name = crate::value::copy_chars(&self.globals[k].0);
            let v = refresh_value(&self.globals[k].1, obj);
            let ghost before = g@;
            g.push((name, v));
            assert(globals_model(g@) =~= globals_model(before).push((gm[k as int].0, refresh(gm[k as int].1, obj@))));
            k = k + 1;
        }
        self.globals = g;
        assert(globals_model(self.globals@) =~= Seq::new(gm.len(), |t: int| (gm[t].0, refresh(gm[t].1, obj@))));
        let ghost fm = m.functions;
        let mut fs: Vec<FunctionEntry> = Vec::new();
        let mut k: usize = 0;
        while k < self.functions.len()
            invariant
                k <= self.functions@.len(),
                fm == crate::machine::functions_model(self.functions@),
                crate::machine::functions_model(fs@) =~= Seq::new(fm.len(), |t: int|
                    FunctionModel { closure: refresh_closure(fm[t].closure, obj@), ..fm[t] }).subrange(0, k as int),
            decreases self.functions@.len() - k,
        {
            let e = &self.functions[k];
            let cl = refresh_captured(&e.closure, obj);
            let ne = FunctionEntry { oid: e.oid, info: e.info, num_locals: e.num_locals, closure: cl };
            let ghost before = fs@;
            proof {
                let want = FunctionModel { closure: refresh_closure(fm[k as int].closure, obj@), ..fm[k as int] };
                assert(crate::machine::function_model(ne) =~= want);
            }
            fs.push(ne);
            assert(crate::machine::functions_model(fs@) =~= crate::machine::functions_model(before).push(
                FunctionModel { closure: refresh_closure(fm[k as int].closure, obj@), ..fm[k as int] }));
            k = k + 1;
        }
        self.functions = fs;
        assert(self@ =~= refresh_machine(m, obj@));
    }

    /// Whether `bytes` more fit under the memory limit.
    pub(crate) fn fits(&self, bytes: usize) -> (r: bool)
        ensures
            r == fits_memory(self@, bytes as nat),
    {
        self.memory_used <= self.memory_limit && bytes <= self.memory_limit - self.memory_used
    }

    pub(crate) fn memory_error(&mut self, p: &Program) -> (s: Step)
        ensures
            (final(self)@, step_model(s)) == spec_throw(old(self)@, p@, memory_class(), memory_message(old(self)@.memory_limit)),
    {
        let mut msg = str_to_chars("تجاوزت الحد الاقصى للذاكرة (");
        let d = decimal_usize(self.memory_limit / 1048576);
        extend_chars(&mut msg, &d);
        let tail = str_to_chars(" ميجابايت)");
        extend_chars(&mut msg, &tail);
        self.throw_chars(p, str_to_chars("استثناء_ذاكرة"), msg)
    }
}

/// The captured values with the object `obj` refreshed in each.
fn refresh_captured(cl: &Vec<(usize, Value)>, obj: &Value) -> (r: Vec<(usize, Value)>)
    ensures
        Seq::new(r@.len(), |j: int| (r@[j].0, r@[j].1@))
            == refresh_closure(Seq::new(cl@.len(), |j: int| (cl@[j].0, cl@[j].1@)), obj@),
{
    let ghost cm = Seq::new(cl@.len(), |j: int| (cl@[j].0, cl@[j].1@));
    let mut out: Vec<(usize, Value)> = Vec::new();
    let mut j: usize = 0;
    while j < cl.len()
        invariant
            j <= cl@.len(),
            cm == Seq::new(cl@.len(), |t: int| (cl@[t].0, cl@[t].1@)),
            Seq::new(out@.len(), |t: int| (out@[t].0, out@[t].1@)) =~= refresh_closure(cm, obj@).subrange(0, j as int),
        decreases cl@.len() - j,
    {
        let v = refresh_value(&cl[j].1, obj);
        let ghost before = out@;
        out.push((cl[j].0, v));
        proof {
            let got = Seq::new(out@.len(), |t: int| (out@[t].0, out@[t].1@));
            let prev = Seq::new(before.len(), |t: int| (before[t].0, before[t].1@));
            assert(got =~= prev.push((cm[j as int].0, refresh(cm[j as int].1, obj@))));
        }
        j = j + 1;
    }
    out
}

/// The characters of `s` from `from` up to `to`.
fn sub_chars(s: &Vec<char>, from: usize, to: usize) -> (r: Vec<char>)
    requires
        from <= to <= s@.len(),
    ensures
        r@ == s@.subrange(from as int, to as int),
{
    let mut out: Vec<char> = Vec::new();
    let mut i = from;
    while i < to
        invariant
            from <= i <= to <= s@.len(),
            out@ =~= s@.subrange(from as int, i as int),
        decreases to - i,
    {
        out.push(s[i]);
        i = i + 1;
    }
    out
}

/// The string constant at `b`, if there is one.
fn string_constant_exec(p: &Program, b: usize) -> (r: Option<Vec<char>>)
    ensures
        match r {
            Some(t) => string_constant(p@, b) == Some(t@),
            None => string_constant(p@, b) is None,
        },
{
    if b < p.constants.len() {
        match &p.constants[b] {
            Constant::String(t) => Some(crate::value::copy_chars(t)),
            _ => None,
        }
    } else {
        None
    }
}

/// An exception record with no line and no trace.
fn make_exception(class_name: &Vec<char>, message: &Vec<char>) -> (v: Value)
    ensures
        v@ == exc_val(class_name@, message@),
{
    let d = ExceptionData { class_name: chars_to_string(class_name), message: chars_to_string(message), line: None, call_stack: Vec::new() };
    assert(crate::value::exc_model(d).call_stack =~= Seq::<(Seq<char>, Option<usize>)>::empty());
    Value::Exception(d)
}

fn insert_kind_exec(v: &Value) -> (r: Vec<char>)
    ensures
        r@ == insert_kind(v@),
{
    match v {
        Value::Integer(_) => str_to_chars("عدد"),
        Value::Float(_) => str_to_chars("عشري"),
        Value::String(_) => str_to_chars("نص"),
        Value::Boolean(_) => str_to_chars("منطقي"),
        Value::Null => str_to_chars("عدم"),
        _ => str_to_chars("مجهول"),
    }
}

/// Throwing keeps the frames and the locals.
pub(crate) proof fn lemma_throw_keeps_layout(m: MachineModel, p: ProgramModel, c: Seq<char>, msg: Seq<char>)
    requires
        wf(m),
    ensures
        wf(spec_throw(m, p, c, msg).0),
{
}

/// Refreshing holders keeps the frames and the size of the locals.
pub(crate) proof fn lemma_refresh_keeps_layout(m: MachineModel, obj: Val)
    requires
        wf(m),
    ensures
        wf(refresh_machine(m, obj)),
        refresh_machine(m, obj).frames == m.frames,
        refresh_machine(m, obj).arena.len() == m.arena.len(),
{
}

proof fn lemma_wf_same_layout(m: MachineModel, m2: MachineModel)
    requires
        wf(m),
        m2.frames == m.frames,
        m2.arena.len() == m.arena.len(),
    ensures
        wf(m2),
{
}

impl VM {
    /// Executes an instruction of this module; the instruction pointer is already past it.
    #[verifier::rlimit(60)]
    pub(crate) fn step_ext(&mut self, p: &Program, i: Instr) -> (s: Step)
        requires
            wf(old(self)@),
            old(self)@.frames.len() > 0,
            ext_defined(old(self)@, p@, i),
            crate::machine::program_ok(p@),
            crate::machine::instr_ok(i, p@),
        ensures
            (final(self)@, step_model(s)) == spec_step_ext(old(self)@, p@, i),
            wf(final(self)@),
    {
        let ghost m = self@;
        let s = match i {
            Instr::BuildList(a) => self.exec_build_list(p, a),
            Instr::BuildTuple(a) => self.exec_build_tuple(a),
            Instr::BuildDict(a) => self.exec_build_dict(a),
            Instr::BuildSet(a) => self.exec_build_set(a),
            Instr::DictSetItem => self.exec_dict_set_item(p),
            Instr::Subscript => self.exec_subscript_step(p),
            Instr::StoreSubscript => self.exec_store_subscript_step(p),
            Instr::BuildSlice => self.exec_build_slice(),
            Instr::ListAppend(b) => self.exec_list_append(b),
            Instr::ListAppendLocal(a) => self.exec_list_append_local(p, a),
            Instr::GetIter => Step::Continue,
            Instr::ForIter => self.exec_for_iter(),
            Instr::ForRange(it, tg, ix, end) => self.exec_for_range(it, tg, ix, end),
            Instr::StringCoerce => self.exec_string_coerce(),
            Instr::SetupExcept(c) => {
                self.exception_handlers.push(c);
                proof { lemma_wf_same_layout(m, self@); }
                Step::Continue
            }
            Instr::SetupFinally(c) => {
                self.exception_handlers.push(c);
                proof { lemma_wf_same_layout(m, self@); }
                Step::Continue
            }
            Instr::EndExcept => {
                let _ = self.exception_handlers.pop();
                proof { lemma_wf_same_layout(m, self@); }
                Step::Continue
            }
            Instr::CheckExceptionType(b) => self.exec_check_exception_type(p, b),
            Instr::RegisterExceptionClass(b) => self.exec_register_exception_class(p, b),
            Instr::Raise => self.exec_raise_step(p),
            Instr::StringFormat => self.exec_string_format(),
            Instr::MakeFunction(fi) => self.exec_make_function(p, fi),
            Instr::CallFunction(a) => self.exec_call_function(p, a),
            _ => self.step_fused(p, i),
        };
        s
    }

    fn exec_build_list(&mut self, p: &Program, a: u8) -> (s: Step)
        requires
            wf(old(self)@),
            old(self)@.frames.len() > 0,
        ensures
            (final(self)@, step_model(s)) == spec_build_list(old(self)@, p@, a),
            wf(final(self)@),
    {
        let ghost m = self@;
        let s = {
            let bytes = (a as usize) * 24;
            if !self.fits(bytes) {
                self.memory_error(p)
            } else {
                let items = self.take_top_values(a as usize);
                self.memory_used = self.memory_used + bytes;
                let fresh = self.bump_oid();
                self.push_value(Value::List(ListObj { oid: fresh, items }));
                Step::Continue
            }
        };
        proof { lemma_wf_same_layout(m, self@); }
        s
    }

    fn exec_build_tuple(&mut self, a: u8) -> (s: Step)
        requires
            wf(old(self)@),
            old(self)@.frames.len() > 0,
        ensures
            (final(self)@, step_model(s)) == spec_build_tuple(old(self)@, a),
            wf(final(self)@),
    {
        let ghost m = self@;
        let s = {
            let items = self.take_top_values(a as usize);
            let fresh = self.bump_oid();
            self.push_value(Value::Tuple(ListObj { oid: fresh, items }));
            Step::Continue
        };
        proof { lemma_wf_same_layout(m, self@); }
        s
    }

    fn exec_build_dict(&mut self, a: u8) -> (s: Step)
        requires
            wf(old(self)@),
            old(self)@.frames.len() > 0,
        ensures
            (final(self)@, step_model(s)) == spec_build_dict(old(self)@, a),
            wf(final(self)@),
    {
        let ghost m = self@;
        let s = {
            let items = self.take_top_values(2 * (a as usize));
            let ghost im = vals(items@);
            assert(im.len() == items@.len());
            let mut pairs: Vec<(Value, Value)> = Vec::new();
            let mut j: usize = 0;
            while j < a as usize
                invariant
                    j <= a,
                    items@.len() == 2 * (a as int),
                    im == vals(items@),
                    crate::value::val_pairs(pairs@) =~= pair_up(im).subrange(0, j as int),
                decreases a - j,
            {
                let k = (items[2 * j].duplicate(), items[2 * j + 1].duplicate());
                let ghost before = pairs@;
                pairs.push(k);
                assert(crate::value::val_pairs(pairs@) =~= crate::value::val_pairs(before).push((im[2 * j], im[2 * j + 1])));
                j = j + 1;
            }
            assert(pair_up(im).subrange(0, a as int) =~= pair_up(im));
            let fresh = self.bump_oid();
            self.push_value(Value::Dict(DictObj { oid: fresh, pairs }));
            Step::Continue
        };
        proof { lemma_wf_same_layout(m, self@); }
        s
    }

    fn exec_build_set(&mut self, a: u8) -> (s: Step)
        requires
            wf(old(self)@),
            old(self)@.frames.len() > 0,
        ensures
            (final(self)@, step_model(s)) == spec_build_set(old(self)@, a),
            wf(final(self)@),
    {
        let ghost m = self@;
        let s = {
            let items = self.take_top_values(a as usize);
            let unique = crate::containers::dedup_values(items);
            let fresh = self.bump_oid();
            self.push_value(Value::SetVal(ListObj { oid: fresh, items: unique }));
            Step::Continue
        };
        proof { lemma_wf_same_layout(m, self@); }
        s
    }

    fn exec_dict_set_item(&mut self, p: &Program) -> (s: Step)
        requires
            wf(old(self)@),
            old(self)@.frames.len() > 0,
        ensures
            (final(self)@, step_model(s)) == spec_dict_set_item(old(self)@, p@),
            wf(final(self)@),
    {
        let ghost m = self@;
        let s = {
            let v = self.pop_value();
            let k = self.pop_value();
            let d = self.pop_value();
            match d {
                Value::Dict(dobj) => {
                    let ghost pm = crate::value::val_pairs(dobj.pairs@);
                    let ghost km = k@;
                    let ghost vm = v@;
                    let mut pairs = dobj.pairs;
                    pairs.push((k, v));
                    assert(crate::value::val_pairs(pairs@) =~= pm.push((km, vm)));
                    let nd = Value::Dict(DictObj { oid: dobj.oid, pairs });
                    self.refresh_holders(&nd);
                    self.push_value(nd);
                    Step::Continue
                }
                other => {
                    let mut msg = str_to_chars("لا يمكن ادراج العناصر في ");
                    let kind = insert_kind_exec(&other);
                    extend_chars(&mut msg, &kind);
                    self.throw(p, "استثناء_نوع", msg)
                }
            }
        };
        proof { lemma_wf_same_layout(m, self@); }
        s
    }

    fn exec_subscript_step(&mut self, p: &Program) -> (s: Step)
        requires
            wf(old(self)@),
            old(self)@.frames.len() > 0,
            ({ let (_, obj, idx) = pop2(old(self)@); subscript_defined(obj, idx) }),
        ensures
            (final(self)@, step_model(s)) == spec_subscript_step(old(self)@, p@),
            wf(final(self)@),
    {
        let ghost m = self@;
        let s = {
            let idx = self.pop_value();
            let obj = self.pop_value();
            let fresh = self.bump_oid();
            let o = crate::containers::subscript(&obj, &idx, fresh);
            self.after(p, o)
        };
        proof { lemma_wf_same_layout(m, self@); }
        s
    }

    fn exec_store_subscript_step(&mut self, p: &Program) -> (s: Step)
        requires
            wf(old(self)@),
            old(self)@.frames.len() > 0,
        ensures
            (final(self)@, step_model(s)) == spec_store_subscript_step(old(self)@, p@),
            wf(final(self)@),
    {
        let ghost m = self@;
        let s = {
            let v = self.pop_value();
            let idx = self.pop_value();
            let obj = self.pop_value();
            let o = crate::containers::store_subscript(obj, idx, v);
            match o {
                Outcome::Value(nobj) => {
                    self.refresh_holders(&nobj);
                    self.push_value(nobj);
                    Step::Continue
                }
                other => self.after(p, other),
            }
        };
        proof { lemma_wf_same_layout(m, self@); }
        s
    }

    fn exec_build_slice(&mut self) -> (s: Step)
        requires
            wf(old(self)@),
            old(self)@.frames.len() > 0,
        ensures
            (final(self)@, step_model(s)) == spec_build_slice(old(self)@),
            wf(final(self)@),
    {
        let ghost m = self@;
        let s = {
            let step = self.pop_value();
            let end = self.pop_value();
            let start = self.pop_value();
            self.push_value(Value::Slice(SliceData { start: Box::new(start), end: Box::new(end), step: Box::new(step) }));
            Step::Continue
        };
        proof { lemma_wf_same_layout(m, self@); }
        s
    }

    fn exec_list_append(&mut self, b: u16) -> (s: Step)
        requires
            wf(old(self)@),
            old(self)@.frames.len() > 0,
        ensures
            (final(self)@, step_model(s)) == spec_list_append(old(self)@, b),
            wf(final(self)@),
    {
        let ghost m = self@;
        let s = {
            let item = self.pop_value();
            if b <= 1 {
                Step::Continue
            } else {
                let ex = self.pop_value();
                match ex {
                    Value::List(l) => {
                        let ghost base = vals(l.items@);
                        let n = (b - 1) as usize;
                        let mut items = l.items;
                        let mut t: usize = 0;
                        while t < n
                            invariant
                                t <= n,
                                n == b - 1,
                                vals(items@) =~= base + Seq::new(t as nat, |q: int| item@),
                            decreases n - t,
                        {
                            let ghost before = items@;
                            items.push(item.duplicate());
                            assert(vals(items@) =~= vals(before).push(item@));
                            t = t + 1;
                        }
                        let nl = Value::List(ListObj { oid: l.oid, items });
                        self.refresh_holders(&nl);
                        self.push_value(nl);
                        Step::Continue
                    }
                    other => {
                        self.push_value(other);
                        Step::Continue
                    }
                }
            }
        };
        proof { lemma_wf_same_layout(m, self@); }
        s
    }

    fn exec_list_append_local(&mut self, p: &Program, a: usize) -> (s: Step)
        requires
            wf(old(self)@),
            old(self)@.frames.len() > 0,
        ensures
            (final(self)@, step_model(s)) == spec_list_append_local(old(self)@, p@, a),
            wf(final(self)@),
    {
        let ghost m = self@;
        let s = {
            if !self.fits(24) {
                self.memory_error(p)
            } else {
                self.memory_used = self.memory_used + 24;
                let v = self.pop_value();
                let f = self.frames[self.frames.len() - 1];
                if a < f.arena_len {
                    let slot = self.local_raw(a);
                    match slot {
                        Value::List(l) => {
                            let ghost base = vals(l.items@);
                            let ghost vm = v@;
                            let mut items = l.items;
                            items.push(v);
                            assert(vals(items@) =~= base.push(vm));
                            let nl = Value::List(ListObj { oid: l.oid, items });
                            self.refresh_holders(&nl);
                        }
                        _ => {}
                    }
                }
                Step::Continue
            }
        };
        proof { lemma_wf_same_layout(m, self@); }
        s
    }

    fn exec_for_iter(&mut self) -> (s: Step)
        requires
            wf(old(self)@),
            old(self)@.frames.len() > 0,
            spop(old(self)@.stack).1 matches Val::Range(d) ==> range_walk_fits(d),
        ensures
            (final(self)@, step_model(s)) == spec_for_iter(old(self)@),
            wf(final(self)@),
    {
        let ghost m = self@;
        let s = {
            let obj = self.pop_value();
            let fresh = self.next_oid;
            let base = fresh.wrapping_add(1);
            match crate::containers::iteration_items(&obj, base) {
                Some(items) => {
                    let n = items.len();
                    self.push_value(Value::List(ListObj { oid: fresh, items }));
                    self.push_value(Value::Integer(0));
                    self.push_value(Value::Integer(n as i64));
                    self.next_oid = base.wrapping_add(n as u64);
                    Step::Continue
                }
                None => Step::Failed(crate::error::RuntimeError::new(chars_to_string(&str_to_chars("غير قادر على التكرار")))),
            }
        };
        proof { lemma_wf_same_layout(m, self@); }
        s
    }

    fn exec_for_range(&mut self, it: usize, tg: usize, ix: usize, end: usize) -> (s: Step)
        requires
            wf(old(self)@),
            old(self)@.frames.len() > 0,
        ensures
            (final(self)@, step_model(s)) == spec_for_range(old(self)@, it, tg, ix, end),
            wf(final(self)@),
    {
        let ghost m = self@;
        let s = {
            let f = self.frames[self.frames.len() - 1];
            proof {
                let k = self@.frames.len() - 1;
                assert(f == self@.frames[k]);
                assert(self@.frames[k].arena_offset + self@.frames[k].arena_len <= self@.arena.len());
                assert(self@.arena.len() == self.locals_arena@.len());
                assert(self.locals_arena@.len() == self.locals_arena.len());
            }
            if it < f.arena_len && tg < f.arena_len && ix < f.arena_len {
                let d = match &self.locals_arena[f.arena_offset + it] {
                    Value::Range(d) => *d,
                    _ => {
                        return Step::Failed(crate::error::RuntimeError::new(chars_to_string(&str_to_chars("لكل تتطلب نطاق"))));
                    }
                };
                let counter: i64 = match &self.locals_arena[f.arena_offset + ix] {
                    Value::Integer(n) => *n,
                    _ => 0,
                };
                let cur = if d.step == 1 || d.step == -1 {
                    d.start.wrapping_add(counter)
                } else {
                    d.start.wrapping_add(counter.wrapping_mul(d.step))
                };
                let cont = if d.step > 0 { cur < d.end } else { cur > d.end };
                if cont {
                    let ghost a0 = self@.arena;
                    self.locals_arena.set(f.arena_offset + tg, Value::Integer(cur));
                    assert(vals(self.locals_arena@) =~= a0.update(f.arena_offset + tg, Val::Int(cur)));
                    let k = f.arena_offset + ix;
                    let nv: Option<i64> = match &self.locals_arena[k] {
                        Value::Integer(n) => Some(n.wrapping_add(1)),
                        _ => None,
                    };
                    match nv {
                        Some(x) => {
                            let ghost a1 = self@.arena;
                            self.locals_arena.set(k, Value::Integer(x));
                            assert(vals(self.locals_arena@) =~= a1.update(k as int, Val::Int(x)));
                        }
                        None => {}
                    }
                } else {
                    self.ip = end;
                }
            }
            Step::Continue
        };
        proof { lemma_wf_same_layout(m, self@); }
        s
    }

    fn exec_string_coerce(&mut self) -> (s: Step)
        requires
            wf(old(self)@),
            old(self)@.frames.len() > 0,
        ensures
            (final(self)@, step_model(s)) == spec_string_coerce(old(self)@),
            wf(final(self)@),
    {
        let ghost m = self@;
        let s = {
            let v = self.pop_value();
            let t = v.to_string_value();
            self.push_value(Value::String(t));
            Step::Continue
        };
        proof { lemma_wf_same_layout(m, self@); }
        s
    }

    fn exec_check_exception_type(&mut self, p: &Program, b: usize) -> (s: Step)
        requires
            wf(old(self)@),
            old(self)@.frames.len() > 0,
        ensures
            (final(self)@, step_model(s)) == spec_check_exception_type(old(self)@, p@, b),
            wf(final(self)@),
    {
        let ghost m = self@;
        let s = {
            match string_constant_exec(p, b) {
                None => self.throw(p, "استثناء_بنية", str_to_chars("CheckExceptionType: target not found")),
                Some(target) => {
                    let ev = self.pop_value();
                    let cls: Option<Vec<char>> = match &ev {
                        Value::Exception(e) => Some(crate::text::string_to_chars(&e.class_name)),
                        _ => None,
                    };
                    match cls {
                        Some(c) => {
                            let matched = self.is_exception_child(&c, &target);
                            self.push_value(ev);
                            self.push_value(Value::Boolean(matched));
                            Step::Continue
                        }
                        None => self.throw(p, "استثناء_نوع", str_to_chars("القيمة ليست استثناء")),
                    }
                }
            }
        };
        proof { lemma_wf_same_layout(m, self@); }
        s
    }

    fn exec_register_exception_class(&mut self, p: &Program, b: usize) -> (s: Step)
        requires
            wf(old(self)@),
            old(self)@.frames.len() > 0,
        ensures
            (final(self)@, step_model(s)) == spec_register_exception_class(old(self)@, p@, b),
            wf(final(self)@),
    {
        let ghost m = self@;
        let s = {
            match string_constant_exec(p, b) {
                Some(text) => match first_index_exec(&text, ':') {
                    Some(j) => {
                        let child = sub_chars(&text, 0, j);
                        let n = text.len();
                        let rest = sub_chars(&text, j + 1, n);
                        let parents = split_exec(&rest, ',');
                        let ghost hm = self@.hierarchy;
                        let ghost pm = Seq::new(parents@.len(), |q: int| parents@[q]@);
                        assert(pm =~= split_on(rest@, ','));
                        let ghost cm = child@;
                        self.exception_hierarchy.push((child, parents));
                        assert(crate::machine::hierarchy_model(self.exception_hierarchy@) =~= hm.push((cm, pm)));
                    }
                    None => {}
                },
                None => {}
            }
            Step::Continue
        };
        proof { lemma_wf_same_layout(m, self@); }
        s
    }

    fn exec_raise_step(&mut self, p: &Program) -> (s: Step)
        requires
            wf(old(self)@),
            old(self)@.frames.len() > 0,
        ensures
            (final(self)@, step_model(s)) == spec_raise(old(self)@, p@),
            wf(final(self)@),
    {
        let ghost m = self@;
        let s = {
            let v = self.pop_value();
            let text = v.to_string_value();
            let exc = match v {
                Value::Exception(d) => Value::Exception(d),
                Value::Instance(o) => {
                    if self.is_exception_child(&o.name, &str_to_chars("استثناء")) {
                        make_exception(&o.name, &text)
                    } else {
                        make_exception(&str_to_chars("استثناء"), &text)
                    }
                }
                Value::Null => match &self.current_exception {
                    Some(e) => e.duplicate(),
                    None => crate::error::RuntimeError::new(chars_to_string(&str_to_chars("لا يوجد استثناء لاعادة رميه"))).into_value(),
                },
                _ => make_exception(&str_to_chars("استثناء"), &text),
        };
        self.current_exception = Some(exc.duplicate());
        let floor = if self.frames.len() > 0 { self.frames[self.frames.len() - 1].saved_handler_len } else { 0 };
        if self.exception_handlers.len() > floor {
            let handler = self.exception_handlers.pop().unwrap();
            self.push_value(exc);
            self.ip = handler;
            Step::Continue
        } else {
            let line = Self::line_of(p, self.ip);
            let mut msg = str_to_chars("استثناء غير مُعالَج: ");
            let et = exc.to_string_value();
            extend_chars(&mut msg, &et);
            let kind = exc.kind_name();
            Step::Failed(crate::error::RuntimeError::new_typed(chars_to_string(&kind), chars_to_string(&msg)).with_line(line))
        }
        };
        proof { lemma_wf_same_layout(m, self@); }
        s
    }

    /// The callee of a call with `a` arguments.
    fn callee(&self, a: u8) -> (r: Option<&Value>)
        ensures
            crate::runtime::or_null(r) == spop(take_top(self@.stack, a as nat).0).1,
    {
        let len = self.stack.len();
        let k = a as usize;
        if k < len {
            Some(&self.stack[len - k - 1])
        } else {
            None
        }
    }

    /// Whether a call with `a` arguments has a callee this machine runs.
    pub fn call_ok(&self, p: &Program, a: u8) -> (r: bool)
        ensures
            r == call_defined(self@, p@, a),
    {
        match self.callee(a) {
            Some(f) => self.invoke_ok(p, f),
            None => {
                let null = Value::Null;
                self.invoke_ok(p, &null)
            }
        }
    }

    /// Whether calling `f` is a call this machine runs.
    pub(crate) fn invoke_ok(&self, p: &Program, f: &Value) -> (r: bool)
        ensures
            r == invoke_defined(self@, p@, f@),
    {
        match f {
            Value::Function(o) => match self.find_function_exec(o.oid) {
                Some(k) => {
                    let e = &self.functions[k];
                    if e.info < p.functions.len() {
                        p.functions[e.info].is_generator
                            || (self.locals_arena.len() as u128) + (e.num_locals as u128) + 1 <= (usize::MAX as u128)
                    } else {
                        false
                    }
                }
                None => false,
            },
            Value::Class(_) | Value::Instance(_) => false,
            _ => true,
        }
    }

    fn exec_string_format(&mut self) -> (s: Step)
        requires
            wf(old(self)@),
        ensures
            (final(self)@, step_model(s)) == spec_string_format(old(self)@),
            wf(final(self)@),
    {
        let v = self.pop_value();
        let fmt = self.pop_value();
        let text = fmt.to_string_value();
        match crate::formatting::apply_format(&v, &text) {
            crate::formatting::Formatted::Text(t) => {
                self.push_value(Value::String(t));
                Step::Continue
            }
            crate::formatting::Formatted::NeedsFloat(ff, st) => Step::Format(ff, st),
        }
    }

    fn exec_make_function(&mut self, p: &Program, fi: usize) -> (s: Step)
        requires
            wf(old(self)@),
            old(self)@.frames.len() > 0,
            make_defined(old(self)@, p@, fi),
        ensures
            (final(self)@, step_model(s)) == spec_make_function(old(self)@, p@, fi),
            wf(final(self)@),
    {
        let ghost m = self@;
        let info = &p.functions[fi];
        let ghost im = p@.functions[fi as int];
        assert(im == crate::machine::info_model(*info));
        let mut closure: Vec<(usize, Value)> = Vec::new();
        let mut k: usize = 0;
        while k < info.free_vars.len()
            invariant
                k <= info.free_vars@.len(),
                im.free_vars == info.free_vars@,
                wf(m),
                m.frames.len() > 0,
                self@.frames == m.frames,
                self@.arena.len() == m.arena.len(),
                (self@, Seq::new(closure@.len(), |j: int| (closure@[j].0, closure@[j].1@))) == capture(m, im.free_vars, k as nat),
            decreases info.free_vars@.len() - k,
        {
            let (inner, outer) = info.free_vars[k];
            let f = self.frames[self.frames.len() - 1];
            proof {
                let t = self@.frames.len() - 1;
                assert(f == self@.frames[t]);
                assert(m.frames[t].arena_offset + m.frames[t].arena_len <= m.arena.len());
                assert(self@.arena.len() == self.locals_arena@.len());
                assert(self.locals_arena@.len() == self.locals_arena.len());
            }
            let ghost cl0 = Seq::new(closure@.len(), |j: int| (closure@[j].0, closure@[j].1@));
            let ghost m1 = self@;
            if outer < f.arena_len {
                let slot = f.arena_offset + outer;
                let is_cell = match &self.locals_arena[slot] {
                    Value::Cell(_) => true,
                    _ => false,
                };
                if is_cell {
                    let c = self.locals_arena[slot].duplicate();
                    let ghost cm = c@;
                    closure.push((inner, c));
                    assert(Seq::new(closure@.len(), |j: int| (closure@[j].0, closure@[j].1@)) =~= cl0.push((inner, cm)));
                } else {
                    let fresh = self.bump_oid();
                    let v = self.locals_arena[slot].duplicate();
                    let c = Value::Cell(crate::value::CellObj { oid: fresh, inner: Box::new(v) });
                    let ghost cm = c@;
                    let ghost a0 = self@.arena;
                    self.locals_arena.set(slot, c.duplicate());
                    assert(vals(self.locals_arena@) =~= a0.update(slot as int, cm));
                    closure.push((inner, c));
                    assert(Seq::new(closure@.len(), |j: int| (closure@[j].0, closure@[j].1@)) =~= cl0.push((inner, cm)));
                }
            }
            k = k + 1;
            assert(self@ =~= capture(m, im.free_vars, k as nat).0);
        }
        let n = locals_needed(info);
        let fresh = self.bump_oid();
        let ghost m2 = self@;
        let ghost clm = Seq::new(closure@.len(), |j: int| (closure@[j].0, closure@[j].1@));
        let entry = FunctionEntry { oid: fresh, info: fi, num_locals: n, closure };
        assert(crate::machine::function_model(entry) == FunctionModel { oid: fresh, info: fi, num_locals: n, closure: clm });
        self.functions.push(entry);
        assert(crate::machine::functions_model(self.functions@) =~= m2.functions.push(FunctionModel { oid: fresh, info: fi, num_locals: n, closure: clm }));
        let name = crate::value::copy_chars(&info.name);
        self.push_value(Value::Function(crate::value::ObjectRef { oid: fresh, name }));
        proof { lemma_wf_same_layout(m, self@); }
        Step::Continue
    }

    /// The position of the function object with identity `oid`.
    pub(crate) fn find_function_exec(&self, oid: u64) -> (r: Option<usize>)
        ensures
            r matches Some(k) ==> find_function(self@.functions, oid) == Some(k as int) && k < self.functions@.len(),
            r is None ==> find_function(self@.functions, oid) is None,
    {
        let ghost fs = self@.functions;
        let mut i: usize = self.functions.len();
        assert(fs.subrange(0, i as int) =~= fs);
        while i > 0
            invariant
                i <= self.functions@.len(),
                fs == self@.functions,
                find_function(fs, oid) == find_function(fs.subrange(0, i as int), oid),
            decreases i,
        {
            let ghost sub = fs.subrange(0, i as int);
            assert(sub.drop_last() =~= fs.subrange(0, i - 1));
            if self.functions[i - 1].oid == oid {
                return Some(i - 1);
            }
            i = i - 1;
        }
        None
    }

    fn exec_call_function(&mut self, p: &Program, a: u8) -> (s: Step)
        requires
            wf(old(self)@),
            old(self)@.frames.len() > 0,
            call_defined(old(self)@, p@, a),
        ensures
            (final(self)@, step_model(s)) == spec_call_function(old(self)@, p@, a),
            wf(final(self)@),
    {
        let args = self.take_top_values(a as usize);
        let f = self.pop_value();
        let kwargs: Vec<(Vec<char>, Value)> = Vec::new();
        assert(crate::machine::globals_model(kwargs@) =~= Seq::<(Seq<char>, Val)>::empty());
        self.invoke(p, f, args, kwargs, false)
    }

    /// Calls `f` with these arguments; the callee and its arguments are
    /// already off the stack.
    pub(crate) fn invoke(&mut self, p: &Program, f: Value, args: Vec<Value>, kwargs: Vec<(Vec<char>, Value)>, nested: bool) -> (s: Step)
        requires
            wf(old(self)@),
            old(self)@.frames.len() > 0,
            invoke_defined(old(self)@, p@, f@),
        ensures
            (final(self)@, step_model(s)) == spec_invoke(old(self)@, p@, f@, vals(args@), crate::machine::globals_model(kwargs@), nested),
            wf(final(self)@),
    {
        let ghost m = self@;
        let ghost m2 = self@;
        match f {
            Value::NativeFunction(d) => {
                if kwargs.len() == 0 {
                    Step::CallNative(crate::text::string_to_chars(&d.name), args)
                } else {
                    Step::CallNativeKw(crate::text::string_to_chars(&d.name), args, kwargs)
                }
            }
            Value::Function(o) => {
                match self.find_function_exec(o.oid) {
                    None => Step::Continue,
                    Some(k) => {
                        let info_idx = self.functions[k].info;
                        let info = &p.functions[info_idx];
                        let ghost e = m.functions[k as int];
                        let ghost im = p@.functions[info_idx as int];
                        assert(im == crate::machine::info_model(*info));
                        if info.is_generator {
                            let fresh = self.bump_oid();
                            let g = Value::Generator(crate::value::ObjectRef { oid: fresh, name: o.name });
                            self.push_value(g);
                            return Step::Continue;
                        }
                        let locals = self.new_locals(k, info, &args, &kwargs);
                        let ghost lm = vals(locals@);
                        assert(lm == call_locals(e, im, vals(args@), crate::machine::globals_model(kwargs@)));
                        let base = self.locals_arena.len();
                        let n = locals.len();
                        let mut ls = locals;
                        let ghost a0 = self@.arena;
                        self.locals_arena.append(&mut ls);
                        assert(vals(self.locals_arena@) =~= a0 + lm);
                        if self.frames.len() >= self.frame_depth_limit {
                            let mut msg = str_to_chars("تجاوزت عمق الاستدعاء الحد الاقصى (");
                            let dd = decimal_usize(self.frame_depth_limit);
                            extend_chars(&mut msg, &dd);
                            let close = str_to_chars(")");
                            extend_chars(&mut msg, &close);
                            let ghost m4 = self@;
                            let r = if nested {
                                self.resume_error(crate::error::RuntimeError::new(chars_to_string(&msg)))
                            } else {
                                self.throw(p, "استثناء_بنية", msg)
                            };
                            proof { lemma_wf_grown(m2, m4); lemma_wf_grown(m2, self@); }
                            r
                        } else {
                            let saved_handler_len = self.exception_handlers.len();
                            let saved_stack_len = self.stack.len();
                            let ghost m3 = self@;
                            let ret = if nested { info.body } else { self.ip };
                            self.frames.push(Frame { arena_offset: base, arena_len: n, return_ip: ret, saved_handler_len, saved_stack_len });
                            if nested {
                                self.runs.push(self.ip);
                            }
                            self.ip = info.body;
                            proof { lemma_wf_call(m3, self@, base, n); }
                            Step::Continue
                        }
                    }
                }
            }
            Value::Generator(_) => {
                let msg = str_to_chars("المولّد لا يمكن استدعاؤه مباشرة. استخدم ابعث()");
                self.resume_error(crate::error::RuntimeError::new(chars_to_string(&msg)))
            }
            other => {
                let mut msg = str_to_chars("غير قادر على استدعاء ");
                let kn = other.kind_name();
                extend_chars(&mut msg, &kn);
                self.resume_error(crate::error::RuntimeError::new(chars_to_string(&msg)))
            }
        }
    }

    /// The keyword argument parameter `k` of `info` takes.
    fn param_kwarg_exec(info: &crate::machine::FunctionInfo, kwargs: &Vec<(Vec<char>, Value)>, k: usize) -> (r: Option<Value>)
        ensures
            match (r, param_kwarg(crate::machine::info_model(*info), crate::machine::globals_model(kwargs@), k as int)) {
                (Some(v), Some(w)) => v@ == w,
                (None, None) => true,
                _ => false,
            },
    {
        if k >= info.param_names.len() {
            return None;
        }
        let name = &info.param_names[k];
        let ghost kw = crate::machine::globals_model(kwargs@);
        assert(crate::machine::info_model(*info).param_names[k as int] == name@);
        let mut j: usize = kwargs.len();
        assert(kw.subrange(0, j as int) =~= kw);
        while j > 0
            invariant
                j <= kwargs@.len(),
                kw == crate::machine::globals_model(kwargs@),
                k < info.param_names@.len(),
                crate::machine::info_model(*info).param_names[k as int] == name@,
                kw_lookup(kw, name@) == kw_lookup(kw.subrange(0, j as int), name@),
            decreases j,
        {
            let ghost sub = kw.subrange(0, j as int);
            assert(sub.drop_last() =~= kw.subrange(0, j - 1));
            if crate::text::chars_eq(&kwargs[j - 1].0, name) {
                let v = kwargs[j - 1].1.duplicate();
                assert(sub.last() == (kwargs@[j - 1].0@, kwargs@[j - 1].1@));
                assert(kw_lookup(sub, name@) == Some(kwargs@[j - 1].1@));
                return Some(v);
            }
            j = j - 1;
        }
        None
    }

    /// The locals a call of function object `k` starts with.
    fn new_locals(&self, k: usize, info: &crate::machine::FunctionInfo, args: &Vec<Value>, kwargs: &Vec<(Vec<char>, Value)>) -> (r: Vec<Value>)
        requires
            k < self.functions@.len(),
        ensures
            vals(r@) == call_locals(self@.functions[k as int], crate::machine::info_model(*info), vals(args@), crate::machine::globals_model(kwargs@)),
    {
        let e = &self.functions[k];
        let ghost em = self@.functions[k as int];
        let ghost im = crate::machine::info_model(*info);
        let ghost kw = crate::machine::globals_model(kwargs@);
        let n: usize = if e.num_locals > 1 { e.num_locals } else { 1 };
        let mut locals: Vec<Value> = Vec::new();
        while locals.len() < n
            invariant
                locals@.len() <= n,
                forall|j: int| 0 <= j < locals@.len() ==> locals@[j] == Value::Null,
            decreases n - locals@.len(),
        {
            locals.push(Value::Null);
        }
        assert(vals(locals@) =~= Seq::new(n as nat, |i: int| Val::Null));
        let ghost start0 = vals(locals@);
        let mut c: usize = 0;
        while c < e.closure.len()
            invariant
                c <= e.closure@.len(),
                em == crate::machine::function_model(*e),
                locals@.len() == n,
                vals(locals@) == place_closure(start0, em.closure.subrange(0, c as int)),
            decreases e.closure@.len() - c,
        {
            let idx = e.closure[c].0;
            assert(em.closure.subrange(0, c + 1).drop_last() =~= em.closure.subrange(0, c as int));
            assert(em.closure.subrange(0, c + 1).last() == (idx, e.closure@[c as int].1@));
            if idx < locals.len() {
                let ghost before = vals(locals@);
                locals.set(idx, e.closure[c].1.duplicate());
                assert(vals(locals@) =~= before.update(idx as int, e.closure@[c as int].1@));
            }
            c = c + 1;
        }
        assert(em.closure.subrange(0, c as int) =~= em.closure);
        let ghost start = vals(locals@);
        let mut used: usize = 0;
        let mut i: usize = 0;
        while i < info.param_count
            invariant
                i <= info.param_count,
                im == crate::machine::info_model(*info),
                kw == crate::machine::globals_model(kwargs@),
                locals@.len() == n,
                start.len() == n,
                (vals(locals@), used as nat) == place_params(start, im, vals(args@), kw, i as nat),
                used <= i,
            decreases info.param_count - i,
        {
            let slot: usize = if i < info.param_indices.len() { info.param_indices[i] } else { i };
            if slot < locals.len() {
                let ghost before = vals(locals@);
                if used < args.len() {
                    locals.set(slot, args[used].duplicate());
                    assert(vals(locals@) =~= before.update(slot as int, vals(args@)[used as int]));
                    used = used + 1;
                } else {
                    match Self::param_kwarg_exec(info, kwargs, i) {
                        Some(kv) => {
                            let ghost kvm = kv@;
                            locals.set(slot, kv);
                            assert(vals(locals@) =~= before.update(slot as int, kvm));
                        }
                        None => {
                            if i < info.defaults.len() {
                                match &info.defaults[i] {
                                    Some(cst) => {
                                        let dv = crate::machine::convert_value(cst);
                                        locals.set(slot, dv);
                                        assert(vals(locals@) =~= before.update(slot as int, im.defaults[i as int]->0));
                                    }
                                    None => {}
                                }
                            }
                        }
                    }
                }
            }
            i = i + 1;
        }
        locals
    }
}

/// The number of locals a function object gets, computed without bound.
pub fn locals_bound(info: &crate::machine::FunctionInfo) -> (n: u128)
    ensures
        n == function_locals(crate::machine::info_model(*info)),
{
    let ghost im = crate::machine::info_model(*info);
    let mut b: u128 = 0;
    let mut i: usize = 0;
    while i < info.param_indices.len()
        invariant
            i <= info.param_indices@.len(),
            b == bound_of(info.param_indices@.subrange(0, i as int)),
            b <= 0x1_0000_0000_0000_0000,
        decreases info.param_indices@.len() - i,
    {
        assert(info.param_indices@.subrange(0, i + 1).drop_last() =~= info.param_indices@.subrange(0, i as int));
        let x = info.param_indices[i] as u128 + 1;
        if x > b {
            b = x;
        }
        i = i + 1;
    }
    assert(info.param_indices@.subrange(0, i as int) =~= info.param_indices@);
    let ghost inners = Seq::new(im.free_vars.len(), |k: int| im.free_vars[k].0);
    let mut c: u128 = 0;
    let mut j: usize = 0;
    while j < info.free_vars.len()
        invariant
            j <= info.free_vars@.len(),
            inners == Seq::new(info.free_vars@.len(), |k: int| info.free_vars@[k].0),
            c == bound_of(inners.subrange(0, j as int)),
            c <= 0x1_0000_0000_0000_0000,
        decreases info.free_vars@.len() - j,
    {
        assert(inners.subrange(0, j + 1).drop_last() =~= inners.subrange(0, j as int));
        let x = info.free_vars[j].0 as u128 + 1;
        if x > c {
            c = x;
        }
        j = j + 1;
    }
    assert(inners.subrange(0, j as int) =~= inners);
    let a = info.declared_locals as u128;
    let d = info.param_count as u128;
    let ab = if a > b { a } else { b };
    let cd = if c > d { c } else { d };
    if ab > cd { ab } else { cd }
}

/// The number of locals a function object gets.
fn locals_needed(info: &crate::machine::FunctionInfo) -> (n: usize)
    requires
        function_locals(crate::machine::info_model(*info)) <= usize::MAX,
    ensures
        n == function_locals(crate::machine::info_model(*info)),
{
    locals_bound(info) as usize
}

proof fn lemma_wf_grown(m: MachineModel, m2: MachineModel)
    requires
        wf(m),
        m2.frames == m.frames,
        m2.arena.len() >= m.arena.len(),
    ensures
        wf(m2),
{
}

proof fn lemma_wf_call(m: MachineModel, m2: MachineModel, base: usize, n: usize)
    requires
        wf(MachineModel { arena: m.arena.subrange(0, base as int), ..m }),
        base + n == m.arena.len(),
        m2.arena == m.arena,
        m2.frames == m.frames.push(Frame { arena_offset: base, arena_len: n, return_ip: m2.frames.last().return_ip,
            saved_handler_len: m2.frames.last().saved_handler_len, saved_stack_len: m2.frames.last().saved_stack_len }),
    ensures
        wf(m2),
{
    let mb = MachineModel { arena: m.arena.subrange(0, base as int), ..m };
    assert forall|i: int| 0 <= i < m2.frames.len() implies
        #[trigger] m2.frames[i].arena_offset + m2.frames[i].arena_len <= m2.arena.len() by {
        if i < m.frames.len() {
            assert(m2.frames[i] == mb.frames[i]);
        }
    }
    assert forall|i: int, j: int| 0 <= i < j < m2.frames.len() implies
        #[trigger] m2.frames[i].arena_offset + m2.frames[i].arena_len <= #[trigger] m2.frames[j].arena_offset by {
        assert(m2.frames[i] == mb.frames[i]);
        if j < m.frames.len() {
            assert(m2.frames[j] == mb.frames[j]);
        }
    }
}

} // verus!
