//! Calls whose arguments are spread from lists and tuples and whose keyword
//! arguments are spread from dictionaries.
//!
//! Above the callee lie the plain arguments, then the values to spread as
//! arguments, then the dictionaries to spread as keyword arguments.  A list
//! or tuple gives its elements, any other value itself; a dictionary gives
//! its pairs with a text key, and the whole run of keyword arguments, taken
//! from the topmost dictionary down, is then reversed.  A function object
//! is called in a nested run.

use vstd::prelude::*;
use crate::value::{Value, Val, vals, val_pairs, group_value_model};
use crate::machine::{VM, MachineModel, Program, ProgramModel, Step, StepModel, step_model, wf, spop, with_stack, globals_model};
use crate::steps::{take_top, spec_invoke, invoke_defined};
use crate::keywords::text_keyed;

verus! {

broadcast use group_value_model;

/// The keyword arguments one dictionary gives: its pairs with a text key.
pub open spec fn dict_keywords(d: Val) -> Seq<(Seq<char>, Val)> {
    match d {
        Val::Dict(_, pairs) => text_keyed(pairs),
        _ => Seq::empty(),
    }
}

/// The keyword arguments of the dictionaries `ds` (listed from the deepest):
/// each dictionary's keyword arguments in reverse, the deepest first.
pub open spec fn spread_keywords(ds: Seq<Val>) -> Seq<(Seq<char>, Val)>
    decreases ds.len(),
{
    if ds.len() == 0 {
        Seq::empty()
    } else {
        spread_keywords(ds.drop_last()) + dict_keywords(ds.last()).reverse()
    }
}

/// The arguments one spread value gives.
pub open spec fn unpacked_items(v: Val) -> Seq<Val> {
    match v {
        Val::List(_, xs) => xs,
        Val::Tuple(_, xs) => xs,
        _ => seq![v],
    }
}

/// The arguments the spread values `its` give, in order.
pub open spec fn spread_args(its: Seq<Val>) -> Seq<Val>
    decreases its.len(),
{
    if its.len() == 0 {
        Seq::empty()
    } else {
        spread_args(its.drop_last()) + unpacked_items(its.last())
    }
}

/// The stack of `m` split for a call with `a` plain arguments, `b` values
/// to spread and `c` dictionaries: the stack left below, the callee, the
/// arguments and the keyword arguments.
pub open spec fn unpacked_parts(m: MachineModel, a: u8, b: u16, c: u32) -> (Seq<Val>, Val, Seq<Val>, Seq<(Seq<char>, Val)>) {
    let (s1, ds) = take_top(m.stack, c as nat);
    let (s2, its) = take_top(s1, b as nat);
    let (s3, plain) = take_top(s2, a as nat);
    let (s4, f) = spop(s3);
    (s4, f, plain + spread_args(its), spread_keywords(ds))
}

/// `CallFunctionUnpacked(a, b, c)`.
pub open spec fn spec_call_unpacked(m: MachineModel, p: ProgramModel, a: u8, b: u16, c: u32) -> (MachineModel, StepModel) {
    let (rest, f, args, kwargs) = unpacked_parts(m, a, b, c);
    spec_invoke(with_stack(m, rest), p, f, args, kwargs, true)
}

/// The spreading calls the machine runs: those whose callee it calls.
pub open spec fn unpacked_defined(m: MachineModel, p: ProgramModel, a: u8, b: u16, c: u32) -> bool {
    let (rest, f, _, _) = unpacked_parts(m, a, b, c);
    invoke_defined(with_stack(m, rest), p, f)
}

proof fn lemma_nulls_give_no_keywords(n: nat, ds: Seq<Val>)
    ensures
        spread_keywords(Seq::new(n, |i: int| Val::Null) + ds) == spread_keywords(ds),
    decreases ds.len(), n,
{
    let nulls = Seq::new(n, |i: int| Val::Null);
    if ds.len() == 0 {
        assert(nulls + ds =~= nulls);
        if n > 0 {
            assert(nulls.drop_last() =~= Seq::new((n - 1) as nat, |i: int| Val::Null));
            assert(nulls.drop_last() + ds =~= nulls.drop_last());
            lemma_nulls_give_no_keywords((n - 1) as nat, ds);
            assert(dict_keywords(nulls.last()).reverse() =~= Seq::<(Seq<char>, Val)>::empty());
            assert(spread_keywords(nulls) =~= spread_keywords(nulls.drop_last()));
        }
    } else {
        let whole = nulls + ds;
        assert(whole.drop_last() =~= nulls + ds.drop_last());
        assert(whole.last() == ds.last());
        lemma_nulls_give_no_keywords(n, ds.drop_last());
    }
}

/// The keyword arguments a dictionary's pairs give, in reverse.
fn reversed_keywords(pairs: &Vec<(Value, Value)>) -> (r: Vec<(Vec<char>, Value)>)
    ensures
        globals_model(r@) == text_keyed(val_pairs(pairs@)).reverse(),
{
    let ghost pv = val_pairs(pairs@);
    let mut fwd: Vec<(Vec<char>, Value)> = Vec::new();
    let mut i: usize = 0;
    while i < pairs.len()
        invariant
            i <= pairs@.len(),
            pv == val_pairs(pairs@),
            globals_model(fwd@) == text_keyed(pv.subrange(0, i as int)),
        decreases pairs@.len() - i,
    {
        assert(pv.subrange(0, i + 1).drop_last() =~= pv.subrange(0, i as int));
        match &pairs[i].0 {
            Value::String(t) => {
                let ghost before = globals_model(fwd@);
                let name = crate::value::copy_chars(t);
                let v = pairs[i].1.duplicate();
                fwd.push((name, v));
                assert(globals_model(fwd@) =~= before.push((pv[i as int].0->Str_0, pv[i as int].1)));
            }
            _ => {}
        }
        i = i + 1;
    }
    assert(pv.subrange(0, i as int) =~= pv);
    let ghost f = globals_model(fwd@);
    let mut r: Vec<(Vec<char>, Value)> = Vec::new();
    let mut j: usize = fwd.len();
    while j > 0
        invariant
            j <= fwd@.len(),
            f == globals_model(fwd@),
            globals_model(r@) =~= Seq::new((f.len() - j) as nat, |i: int| f[f.len() - 1 - i]),
        decreases j,
    {
        let ghost before = globals_model(r@);
        let name = crate::value::copy_chars(&fwd[j - 1].0);
        let v = fwd[j - 1].1.duplicate();
        r.push((name, v));
        assert(globals_model(r@) =~= before.push(f[j - 1]));
        assert(globals_model(r@) =~= Seq::new((f.len() - (j - 1)) as nat, |i: int| f[f.len() - 1 - i]));
        j = j - 1;
    }
    assert(globals_model(r@) =~= f.reverse());
    r
}

/// The keyword arguments the dictionaries `ds` give.
fn spread_keywords_exec(ds: &Vec<Value>) -> (r: Vec<(Vec<char>, Value)>)
    ensures
        globals_model(r@) == spread_keywords(vals(ds@)),
{
    let ghost dv = vals(ds@);
    let mut r: Vec<(Vec<char>, Value)> = Vec::new();
    let mut i: usize = 0;
    while i < ds.len()
        invariant
            i <= ds@.len(),
            dv == vals(ds@),
            globals_model(r@) == spread_keywords(dv.subrange(0, i as int)),
        decreases ds@.len() - i,
    {
        assert(dv.subrange(0, i + 1).drop_last() =~= dv.subrange(0, i as int));
        let ghost before = globals_model(r@);
        match &ds[i] {
            Value::Dict(d) => {
                let mut more = reversed_keywords(&d.pairs);
                let ghost mv = globals_model(more@);
                r.append(&mut more);
                assert(globals_model(r@) =~= before + mv);
            }
            _ => {
                assert(dict_keywords(dv[i as int]).reverse() =~= Seq::<(Seq<char>, Val)>::empty());
                assert(before + dict_keywords(dv[i as int]).reverse() =~= before);
            }
        }
        i = i + 1;
    }
    assert(dv.subrange(0, i as int) =~= dv);
    r
}

/// The arguments the spread values `its` give.
fn spread_args_exec(its: &Vec<Value>) -> (r: Vec<Value>)
    ensures
        vals(r@) == spread_args(vals(its@)),
{
    let ghost iv = vals(its@);
    let mut r: Vec<Value> = Vec::new();
    let mut i: usize = 0;
    while i < its.len()
        invariant
            i <= its@.len(),
            iv == vals(its@),
            vals(r@) == spread_args(iv.subrange(0, i as int)),
        decreases its@.len() - i,
    {
        assert(iv.subrange(0, i + 1).drop_last() =~= iv.subrange(0, i as int));
        let ghost before = vals(r@);
        let mut more: Vec<Value> = match &its[i] {
            Value::List(l) => crate::value::duplicate_items(&l.items),
            Value::Tuple(l) => crate::value::duplicate_items(&l.items),
            other => {
                let mut one: Vec<Value> = Vec::new();
                one.push(other.duplicate());
                assert(vals(one@) =~= seq![iv[i as int]]);
                one
            }
        };
        let ghost mv = vals(more@);
        assert(mv == unpacked_items(iv[i as int]));
        r.append(&mut more);
        assert(vals(r@) =~= before + mv);
        i = i + 1;
    }
    assert(iv.subrange(0, i as int) =~= iv);
    r
}

impl VM {
    /// Executes `CallFunctionUnpacked(a, b, c)`; the instruction pointer is
    /// already past it.
    pub(crate) fn exec_call_unpacked(&mut self, p: &Program, a: u8, b: u16, c: u32) -> (s: Step)
        requires
            wf(old(self)@),
            old(self)@.frames.len() > 0,
            unpacked_defined(old(self)@, p@, a, b, c),
        ensures
            (final(self)@, step_model(s)) == spec_call_unpacked(old(self)@, p@, a, b, c),
            wf(final(self)@),
    {
        let ghost m = self@;
        let len = self.stack.len();
        assert(m.stack.len() == len);
        let cn: usize = if (c as u128) <= (len as u128) { c as usize } else { len };
        let ds = self.take_top_values(cn);
        proof {
            if (c as nat) > len {
                let (s1, d1) = take_top(m.stack, c as nat);
                let (s1b, d1b) = take_top(m.stack, cn as nat);
                assert(s1b =~= s1);
                assert(d1b =~= m.stack);
                lemma_nulls_give_no_keywords((c - len) as nat, m.stack);
            }
        }
        let kwargs = spread_keywords_exec(&ds);
        let its = self.take_top_values(b as usize);
        let spread = spread_args_exec(&its);
        let mut args = self.take_top_values(a as usize);
        let ghost plain = vals(args@);
        let mut tail = spread;
        args.append(&mut tail);
        let f = self.pop_value();
        proof {
            let (rest, fm, am, km) = unpacked_parts(m, a, b, c);
            assert(self@ == with_stack(m, rest));
            assert(f@ == fm);
            assert(vals(args@) =~= am);
            assert(globals_model(kwargs@) == km);
        }
        self.invoke(p, f, args, kwargs, true)
    }

    /// Whether the machine runs `CallFunctionUnpacked(a, b, c)` here.
    pub fn unpacked_call_ok(&self, p: &Program, a: u8, b: u16, c: u32) -> (r: bool)
        ensures
            r == unpacked_defined(self@, p@, a, b, c),
    {
        let ghost st = self@.stack;
        let len = self.stack.len();
        let depth: u128 = (a as u128) + (b as u128) + (c as u128);
        let f = if depth < (len as u128) { self.stack[len - (depth as usize) - 1].duplicate() } else { Value::Null };
        proof {
            let (s1, _) = take_top(st, c as nat);
            let (s2, _) = take_top(s1, b as nat);
            let (s3, _) = take_top(s2, a as nat);
            if depth < len {
                assert(s3 =~= st.subrange(0, len - depth));
                assert(spop(s3).1 == st[len - depth - 1]);
            } else {
                assert(s3.len() == 0);
            }
            let (rest, fm, _, _) = unpacked_parts(self@, a, b, c);
            assert(f@ == fm);
            assert(with_stack(self@, rest).functions == self@.functions);
            assert(with_stack(self@, rest).arena == self@.arena);
        }
        self.invoke_ok(p, &f)
    }
}

} // verus!
