//! Calls with keyword arguments.
//!
//! Above the callee and its positional arguments the stack holds name and
//! value pairs and, on top, their count.  Pairs whose name is not text are
//! dropped; a parameter without a positional argument takes the last
//! keyword argument of its name before its default.  A function object is
//! called in a nested run.

use vstd::prelude::*;
use crate::value::{Value, Val, vals, group_value_model};
use crate::machine::{VM, MachineModel, Program, ProgramModel, Step, StepModel, step_model, wf, spop, with_stack, globals_model};
use crate::steps::{take_top, pair_up, spec_invoke, invoke_defined};

verus! {

broadcast use group_value_model;

/// The number of name and value pairs a count on top of the stack names.
pub open spec fn kw_count(v: Val) -> nat {
    match v {
        Val::Int(n) => if n >= 0 { n as nat } else { 0 },
        _ => 0,
    }
}

/// The keyword arguments among popped name and value pairs: those whose
/// name is text, in order.
pub open spec fn text_keyed(pairs: Seq<(Val, Val)>) -> Seq<(Seq<char>, Val)>
    decreases pairs.len(),
{
    if pairs.len() == 0 {
        Seq::empty()
    } else {
        let prev = text_keyed(pairs.drop_last());
        match pairs.last().0 {
            Val::Str(t) => prev.push((t, pairs.last().1)),
            _ => prev,
        }
    }
}

/// The stack of `m` split for a call with `a` positional arguments and
/// keyword arguments: the stack left below, the callee, the positional and
/// the keyword arguments.
pub open spec fn kw_parts(m: MachineModel, a: u8) -> (Seq<Val>, Val, Seq<Val>, Seq<(Seq<char>, Val)>) {
    let (s1, top) = spop(m.stack);
    let (s2, flat) = take_top(s1, 2 * kw_count(top));
    let (s3, args) = take_top(s2, a as nat);
    let (s4, f) = spop(s3);
    (s4, f, args, text_keyed(pair_up(flat)))
}

/// `CallFunctionKw(a)`: calls the callee with `a` positional arguments and
/// the keyword arguments above them.
pub open spec fn spec_call_kw(m: MachineModel, p: ProgramModel, a: u8) -> (MachineModel, StepModel) {
    let (rest, f, args, kwargs) = kw_parts(m, a);
    spec_invoke(with_stack(m, rest), p, f, args, kwargs, true)
}

/// The keyword calls the machine runs: the count is not a negative
/// integer nor names more pairs than the stack holds, and the callee is
/// one the machine calls.
pub open spec fn kw_call_defined(m: MachineModel, p: ProgramModel, a: u8) -> bool {
    let (s1, top) = spop(m.stack);
    let (rest, f, _, _) = kw_parts(m, a);
    (match top {
        Val::Int(n) => 0 <= n && 2 * n <= s1.len(),
        _ => true,
    }) && invoke_defined(with_stack(m, rest), p, f)
}

/// The keyword arguments among name and value pairs laid out one after
/// the other.
fn keyed_pairs(flat: &Vec<Value>) -> (r: Vec<(Vec<char>, Value)>)
    ensures
        globals_model(r@) == text_keyed(pair_up(vals(flat@))),
{
    let ghost fv = vals(flat@);
    let ghost pu = pair_up(fv);
    let len = flat.len();
    let half = len / 2;
    let mut r: Vec<(Vec<char>, Value)> = Vec::new();
    let mut j: usize = 0;
    let mut i: usize = 0;
    while j < half
        invariant
            j <= half,
            i == 2 * j,
            len == flat@.len(),
            half == len / 2,
            fv == vals(flat@),
            pu == pair_up(fv),
            globals_model(r@) == text_keyed(pu.subrange(0, j as int)),
        decreases half - j,
    {
        assert(i + 1 < flat@.len());
        assert(pu.subrange(0, j + 1).drop_last() =~= pu.subrange(0, j as int));
        assert(pu.subrange(0, j + 1).last() == (fv[2 * j], fv[2 * j + 1]));
        match &flat[i] {
            Value::String(t) => {
                let ghost before = globals_model(r@);
                let name = crate::value::copy_chars(t);
                let v = flat[i + 1].duplicate();
                r.push((name, v));
                assert(globals_model(r@) =~= before.push((fv[2 * j]->Str_0, fv[2 * j + 1])));
            }
            _ => {}
        }
        j = j + 1;
        i = i + 2;
    }
    assert(pu.subrange(0, j as int) =~= pu);
    r
}

impl VM {
    /// Executes `CallFunctionKw(a)`; the instruction pointer is already past it.
    pub(crate) fn exec_call_kw(&mut self, p: &Program, a: u8) -> (s: Step)
        requires
            wf(old(self)@),
            old(self)@.frames.len() > 0,
            kw_call_defined(old(self)@, p@, a),
        ensures
            (final(self)@, step_model(s)) == spec_call_kw(old(self)@, p@, a),
            wf(final(self)@),
    {
        let ghost m = self@;
        let len0 = self.stack.len();
        assert(m.stack.len() == len0);
        let top = self.pop_value();
        proof {
            let (s1, t) = spop(m.stack);
            assert(top@ == t);
            assert(self@.stack == s1);
            match t {
                Val::Int(kk) => { assert(0 <= kk && 2 * kk <= s1.len()); }
                _ => {}
            }
        }
        let n: usize = match top {
            Value::Integer(k) => k as usize,
            _ => 0,
        };
        assert(n as nat == kw_count(top@));
        let flat = self.take_top_values(2 * n);
        let kwargs = keyed_pairs(&flat);
        let args = self.take_top_values(a as usize);
        let f = self.pop_value();
        proof {
            let (rest, fm, am, km) = kw_parts(m, a);
            assert(self@ == with_stack(m, rest));
            assert(f@ == fm);
        }
        self.invoke(p, f, args, kwargs, true)
    }

    /// Whether the machine runs `CallFunctionKw(a)` here.
    pub fn kw_call_ok(&self, p: &Program, a: u8) -> (r: bool)
        ensures
            r == kw_call_defined(self@, p@, a),
    {
        let ghost st = self@.stack;
        let len = self.stack.len();
        if len == 0 {
            let null = Value::Null;
            proof {
                let (rest, f, _, _) = kw_parts(self@, a);
                assert(f == Val::Null);
                assert(with_stack(self@, rest).functions == self@.functions);
            }
            return self.invoke_ok(p, &null);
        }
        let below = len - 1;
        let n: usize = match &self.stack[below] {
            Value::Integer(k) => {
                if *k < 0 || (*k as u128) * 2 > below as u128 {
                    return false;
                }
                *k as usize
            }
            _ => 0,
        };
        let after_kw = below - 2 * n;
        let k = a as usize;
        let f = if k < after_kw { self.stack[after_kw - k - 1].duplicate() } else { Value::Null };
        proof {
            let (s1, top) = spop(st);
            assert(s1 =~= st.subrange(0, below as int));
            let (s2, flat) = take_top(s1, 2 * kw_count(top));
            assert(s2 =~= st.subrange(0, after_kw as int));
            let (s3, args) = take_top(s2, a as nat);
            if k < after_kw {
                assert(s3 =~= st.subrange(0, after_kw - k));
                assert(spop(s3).1 == st[after_kw - k - 1]);
            }
            let (rest, fm, _, _) = kw_parts(self@, a);
            assert(f@ == fm);
            assert(with_stack(self@, rest).functions == self@.functions);
            assert(with_stack(self@, rest).arena == self@.arena);
        }
        self.invoke_ok(p, &f)
    }
}

} // verus!
