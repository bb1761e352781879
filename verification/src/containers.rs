//! Element access on containers: dictionary keys, indexing and slicing,
//! element stores, and the element sequences that iteration walks.

use vstd::prelude::*;
use crate::value::{Value, Val, ListObj, DictObj, SliceData, vals, val_pairs, float_is_nan, group_value_model};
use crate::ops::{Outcome, OutcomeModel, outcome_model, raise, is_nan_bits};

verus! {

broadcast use group_value_model;

// ---------------------------------------------------------------- dictionary keys

/// Whether two values address the same dictionary entry: equal integers,
/// identical non-NaN float bit patterns, equal strings or booleans, two
/// nulls, or tuples whose elements match pairwise.  Other kinds never match.
pub open spec fn key_match(a: Val, b: Val) -> bool
    decreases a,
{
    match (a, b) {
        (Val::Int(x), Val::Int(y)) => x == y,
        (Val::Float(x, _), Val::Float(y, _)) => x == y && !float_is_nan(x),
        (Val::Str(x), Val::Str(y)) => x == y,
        (Val::Bool(x), Val::Bool(y)) => x == y,
        (Val::Null, Val::Null) => true,
        (Val::Tuple(_, xs), Val::Tuple(_, ys)) => xs.len() == ys.len()
            && forall|i: int| 0 <= i < xs.len() ==> key_match(xs[i], ys[i]),
        _ => false,
    }
}

fn keys_pairwise(xs: &Vec<Value>, ys: &Vec<Value>) -> (r: bool)
    requires
        xs@.len() == ys@.len(),
    ensures
        r == forall|i: int| 0 <= i < xs@.len() ==> key_match(vals(xs@)[i], vals(ys@)[i]),
    decreases xs@, 0int,
{
    let mut i: usize = 0;
    while i < xs.len()
        invariant
            xs@.len() == ys@.len(),
            i <= xs@.len(),
            forall|t: int| 0 <= t < i ==> key_match(vals(xs@)[t], vals(ys@)[t]),
        decreases xs@.len() - i,
    {
        proof { assert(decreases_to!(xs@ => xs@[i as int])); }
        if !keys_equal(&xs[i], &ys[i]) {
            assert(!key_match(vals(xs@)[i as int], vals(ys@)[i as int]));
            return false;
        }
        i = i + 1;
    }
    true
}

/// Whether two values address the same dictionary entry.
pub fn keys_equal(a: &Value, b: &Value) -> (r: bool)
    ensures
        r == key_match(a@, b@),
    decreases a, 1int,
{
    match (a, b) {
        (Value::Integer(x), Value::Integer(y)) => *x == *y,
        (Value::Float(x), Value::Float(y)) => x.bits == y.bits && !is_nan_bits(x.bits),
        (Value::String(x), Value::String(y)) => crate::text::chars_eq(x, y),
        (Value::Boolean(x), Value::Boolean(y)) => *x == *y,
        (Value::Null, Value::Null) => true,
        (Value::Tuple(x), Value::Tuple(y)) => {
            assert(vals(x.items@).len() == x.items@.len() && vals(y.items@).len() == y.items@.len());
            let r = x.items.len() == y.items.len() && keys_pairwise(&x.items, &y.items);
            assert(r == key_match(a@, b@));
            r
        }
        _ => false,
    }
}

/// The position of the entry for `k`: the last pair whose key matches.
pub open spec fn key_index(pairs: Seq<(Val, Val)>, k: Val) -> Option<int>
    decreases pairs.len(),
{
    if pairs.len() == 0 {
        None
    } else if key_match(pairs.last().0, k) {
        Some(pairs.len() - 1)
    } else {
        key_index(pairs.drop_last(), k)
    }
}

pub proof fn lemma_key_index(pairs: Seq<(Val, Val)>, k: Val)
    ensures
        key_index(pairs, k) matches Some(j) ==> 0 <= j < pairs.len() && key_match(pairs[j].0, k)
            && forall|t: int| j < t < pairs.len() ==> !key_match(#[trigger] pairs[t].0, k),
        key_index(pairs, k) is None ==> forall|t: int| 0 <= t < pairs.len() ==> !key_match(#[trigger] pairs[t].0, k),
    decreases pairs.len(),
{
    if pairs.len() > 0 {
        let pre = pairs.drop_last();
        lemma_key_index(pre, k);
        assert forall|t: int| 0 <= t < pre.len() implies pre[t] == pairs[t] by {}
    }
}

/// The value stored under `k`, if any.
pub open spec fn dict_get(pairs: Seq<(Val, Val)>, k: Val) -> Option<Val> {
    match key_index(pairs, k) {
        Some(j) => Some(pairs[j].1),
        None => None,
    }
}

/// The pairs after storing `v` under `k`: an existing entry keeps its key
/// and takes the new value; otherwise the pair is appended.
pub open spec fn dict_put(pairs: Seq<(Val, Val)>, k: Val, v: Val) -> Seq<(Val, Val)> {
    match key_index(pairs, k) {
        Some(j) => pairs.update(j, (pairs[j].0, v)),
        None => pairs.push((k, v)),
    }
}

/// The position of the entry for `k` in `pairs`.
pub fn find_key(pairs: &Vec<(Value, Value)>, k: &Value) -> (r: Option<usize>)
    ensures
        r matches Some(j) ==> j < pairs@.len() && key_index(val_pairs(pairs@), k@) == Some(j as int),
        r is None ==> key_index(val_pairs(pairs@), k@) is None,
{
    let ghost pm = val_pairs(pairs@);
    proof { lemma_key_index(pm, k@); }
    let mut i: usize = pairs.len();
    while i > 0
        invariant
            pm == val_pairs(pairs@),
            i <= pairs@.len(),
            forall|t: int| i <= t < pm.len() ==> !key_match(#[trigger] pm[t].0, k@),
            key_index(pm, k@) matches Some(j) ==> 0 <= j < pm.len() && key_match(pm[j].0, k@)
                && forall|t: int| j < t < pm.len() ==> !key_match(#[trigger] pm[t].0, k@),
            key_index(pm, k@) is None ==> forall|t: int| 0 <= t < pm.len() ==> !key_match(#[trigger] pm[t].0, k@),
        decreases i,
    {
        if keys_equal(&pairs[i - 1].0, k) {
            assert(key_match(pm[i - 1].0, k@));
            return Some(i - 1);
        }
        i = i - 1;
    }
    None
}

/// The value stored under `k` in a dictionary's pairs.
pub fn dict_lookup(pairs: &Vec<(Value, Value)>, k: &Value) -> (r: Option<Value>)
    ensures
        match r {
            Some(v) => dict_get(val_pairs(pairs@), k@) == Some(v@),
            None => dict_get(val_pairs(pairs@), k@) is None,
        },
{
    match find_key(pairs, k) {
        Some(j) => Some(pairs[j].1.duplicate()),
        None => None,
    }
}

/// Stores `v` under `k`.
pub fn dict_store(pairs: &mut Vec<(Value, Value)>, k: Value, v: Value)
    ensures
        val_pairs(final(pairs)@) == dict_put(val_pairs(old(pairs)@), k@, v@),
{
    let ghost pm = val_pairs(pairs@);
    let ghost km = k@;
    let ghost vm = v@;
    match find_key(pairs, &k) {
        Some(j) => {
            let key = pairs[j].0.duplicate();
            pairs.set(j, (key, v));
            assert(val_pairs(pairs@) =~= pm.update(j as int, (pm[j as int].0, vm)));
        }
        None => {
            pairs.push((k, v));
            assert(val_pairs(pairs@) =~= pm.push((km, vm)));
        }
    }
}

// ---------------------------------------------------------------- indexing

pub open spec fn range_error_class() -> Seq<char> {
    "استثناء_نطاق"@
}

pub open spec fn index_error_message() -> Seq<char> {
    "فهرس خارج النطاق"@
}

pub open spec fn key_error_class() -> Seq<char> {
    "استثناء_مفتاح"@
}

pub open spec fn key_error_message() -> Seq<char> {
    "مفتاح غير موجود"@
}

pub open spec fn zero_step_message() -> Seq<char> {
    "خطوة النطاق لا يمكن ان تكون صفر"@
}

/// The position an integer index designates among `len` elements; negative
/// indices count from the end.
pub open spec fn norm_index(len: int, i: int) -> Option<int> {
    let k = if i < 0 { len + i } else { i };
    if 0 <= k < len { Some(k) } else { None }
}

pub(crate) fn norm_index_exec(len: usize, i: i64) -> (r: Option<usize>)
    ensures
        r matches Some(k) ==> norm_index(len as int, i as int) == Some(k as int),
        r is None ==> norm_index(len as int, i as int) is None,
{
    if i < 0 {
        let back: u64 = if i == i64::MIN { 0x8000_0000_0000_0000u64 } else { (-i) as u64 };
        if (back as u128) <= (len as u128) {
            let k = len - (back as usize);
            if k < len { Some(k) } else { None }
        } else {
            None
        }
    } else {
        if (i as u128) < (len as u128) { Some(i as usize) } else { None }
    }
}

/// The step a slice walks with: its integer step, with 0 and non-integers meaning 1.
pub open spec fn slice_step(step: Val) -> int {
    match step {
        Val::Int(i) => if i == 0 { 1 } else { i as int },
        _ => 1,
    }
}

/// The first position a slice visits.
pub open spec fn slice_start(start: Val, len: int, step: int) -> int {
    match start {
        Val::Int(i) => if i < 0 { if len + i > 0 { len + i } else { 0 } } else { if i < len - 1 { i as int } else { len - 1 } },
        _ => if step > 0 { 0 } else { len - 1 },
    }
}

/// The bound a slice stops at.
pub open spec fn slice_end(end: Val, len: int, step: int) -> int {
    match end {
        Val::Int(i) => if i < 0 { if len + i > 0 { len + i } else { 0 } } else { if i < len { i as int } else { len } },
        _ => if step > 0 { len } else { -1 },
    }
}

/// Positions `i, i + step, ...` below `m` (for a positive step).
pub open spec fn steps_up(i: int, m: int, step: int) -> Seq<int>
    decreases if i < m { m - i } else { 0 },
{
    if i < m && step > 0 { seq![i] + steps_up(i + step, m, step) } else { Seq::empty() }
}

/// Positions `i, i + step, ...` above `lo` (for a negative step).
pub open spec fn steps_down(i: int, lo: int, step: int) -> Seq<int>
    decreases if i > lo { i - lo } else { 0 },
{
    if i > lo && step < 0 { seq![i] + steps_down(i + step, lo, step) } else { Seq::empty() }
}

/// Every step taken while walking up stays within `i64`.
pub open spec fn steps_up_fit(i: int, m: int, step: int) -> bool
    decreases if i < m { m - i } else { 0 },
{
    i < m && step > 0 ==> i + step <= i64::MAX && steps_up_fit(i + step, m, step)
}

/// Every step taken while walking down stays within `i64`.
pub open spec fn steps_down_fit(i: int, lo: int, step: int) -> bool
    decreases if i > lo { i - lo } else { 0 },
{
    i > lo && step < 0 ==> i + step >= i64::MIN && steps_down_fit(i + step, lo, step)
}

pub open spec fn min_int(a: int, b: int) -> int { if a < b { a } else { b } }

pub open spec fn max_int(a: int, b: int) -> int { if a > b { a } else { b } }

/// The positions a slice `start:end:step` visits among `len` elements.
pub open spec fn slice_positions(len: int, start: Val, end: Val, step: Val) -> Seq<int> {
    let st = slice_step(step);
    let s = slice_start(start, len, st);
    let e = slice_end(end, len, st);
    if st > 0 { steps_up(s, min_int(e, len), st) } else { steps_down(s, max_int(e, -1), st) }
}

/// The slice walk reads only existing elements and its steps stay within `i64`.
pub open spec fn slice_defined(len: int, start: Val, end: Val, step: Val) -> bool {
    let st = slice_step(step);
    let s = slice_start(start, len, st);
    let e = slice_end(end, len, st);
    &&& len <= i64::MAX
    &&& st > 0 ==> (s < min_int(e, len) ==> s >= 0) && steps_up_fit(s, min_int(e, len), st)
    &&& st < 0 ==> (s > max_int(e, -1) ==> s < len) && steps_down_fit(s, max_int(e, -1), st)
}

/// The elements at the given positions.
pub open spec fn pick<A>(items: Seq<A>, pos: Seq<int>) -> Seq<A> {
    Seq::new(pos.len(), |k: int| items[pos[k]])
}

proof fn lemma_steps_up(i: int, m: int, step: int)
    requires
        step > 0,
    ensures
        forall|k: int| 0 <= k < steps_up(i, m, step).len() ==> i <= #[trigger] steps_up(i, m, step)[k] < m,
    decreases if i < m { m - i } else { 0 },
{
    if i < m {
        lemma_steps_up(i + step, m, step);
        let rest = steps_up(i + step, m, step);
        assert forall|k: int| 0 <= k < steps_up(i, m, step).len() implies i <= #[trigger] steps_up(i, m, step)[k] < m by {
            if k > 0 {
                assert(steps_up(i, m, step)[k] == rest[k - 1]);
            }
        }
    }
}

proof fn lemma_steps_down(i: int, lo: int, step: int)
    requires
        step < 0,
    ensures
        forall|k: int| 0 <= k < steps_down(i, lo, step).len() ==> lo < #[trigger] steps_down(i, lo, step)[k] <= i,
    decreases if i > lo { i - lo } else { 0 },
{
    if i > lo {
        lemma_steps_down(i + step, lo, step);
        let rest = steps_down(i + step, lo, step);
        assert forall|k: int| 0 <= k < steps_down(i, lo, step).len() implies lo < #[trigger] steps_down(i, lo, step)[k] <= i by {
            if k > 0 {
                assert(steps_down(i, lo, step)[k] == rest[k - 1]);
            }
        }
    }
}

/// The positions a slice visits among `len` elements.
pub fn slice_walk(len: usize, d: &SliceData) -> (r: Vec<usize>)
    requires
        slice_defined(len as int, d.start@, d.end@, d.step@),
    ensures
        r@.len() == slice_positions(len as int, d.start@, d.end@, d.step@).len(),
        forall|k: int| 0 <= k < r@.len() ==> r@[k] as int == #[trigger] slice_positions(len as int, d.start@, d.end@, d.step@)[k],
        forall|k: int| 0 <= k < r@.len() ==> #[trigger] r@[k] < len,
{
    let ghost all = slice_positions(len as int, d.start@, d.end@, d.step@);
    let n = len as i64;
    let step: i64 = match &*d.step {
        Value::Integer(i) => if *i == 0 { 1 } else { *i },
        _ => 1,
    };
    let s: i64 = match &*d.start {
        Value::Integer(i) => if *i < 0 { if n + *i > 0 { n + *i } else { 0 } } else { if *i < n - 1 { *i } else { n - 1 } },
        _ => if step > 0 { 0 } else { n - 1 },
    };
    let e: i64 = match &*d.end {
        Value::Integer(i) => if *i < 0 { if n + *i > 0 { n + *i } else { 0 } } else { if *i < n { *i } else { n } },
        _ => if step > 0 { n } else { -1 },
    };
    assert(step as int == slice_step(d.step@));
    assert(s as int == slice_start(d.start@, len as int, step as int));
    assert(e as int == slice_end(d.end@, len as int, step as int));
    let mut out: Vec<usize> = Vec::new();
    let mut i = s;
    if step > 0 {
        let m = if e < n { e } else { n };
        proof { lemma_steps_up(s as int, m as int, step as int); }
        while i < m
            invariant
                step > 0,
                m <= n,
                n == len,
                all == steps_up(s as int, m as int, step as int),
                out@.len() <= all.len(),
                steps_up(i as int, m as int, step as int) =~= all.subrange(out@.len() as int, all.len() as int),
                steps_up_fit(i as int, m as int, step as int),
                i < m ==> i >= 0,
                forall|k: int| 0 <= k < out@.len() ==> out@[k] as int == #[trigger] all[k],
                forall|k: int| 0 <= k < all.len() ==> s <= #[trigger] all[k] < m,
            decreases if i < m { m - i } else { 0 },
        {
            let ghost k0 = out@.len() as int;
            proof {
                let cur = steps_up(i as int, m as int, step as int);
                assert(cur == seq![i as int] + steps_up(i + step, m as int, step as int));
                assert(cur[0] == i as int);
                assert(all[k0] == cur[0]);
                assert(steps_up(i + step, m as int, step as int) =~= cur.subrange(1, cur.len() as int));
                assert(cur.subrange(1, cur.len() as int) =~= all.subrange(k0 + 1, all.len() as int));
            }
            out.push(i as usize);
            i = i + step;
        }
    } else {
        let lo = if e > -1 { e } else { -1 };
        proof { lemma_steps_down(s as int, lo as int, step as int); }
        while i > lo
            invariant
                step < 0,
                lo >= -1,
                n == len,
                all == steps_down(s as int, lo as int, step as int),
                out@.len() <= all.len(),
                steps_down(i as int, lo as int, step as int) =~= all.subrange(out@.len() as int, all.len() as int),
                steps_down_fit(i as int, lo as int, step as int),
                i > lo ==> i < n,
                forall|k: int| 0 <= k < out@.len() ==> out@[k] as int == #[trigger] all[k],
                forall|k: int| 0 <= k < all.len() ==> lo < #[trigger] all[k] <= s,
                s < n || !(s > lo),
            decreases if i > lo { i - lo } else { 0 },
        {
            let ghost k0 = out@.len() as int;
            proof {
                let cur = steps_down(i as int, lo as int, step as int);
                assert(cur == seq![i as int] + steps_down(i + step, lo as int, step as int));
                assert(cur[0] == i as int);
                assert(all[k0] == cur[0]);
                assert(steps_down(i + step, lo as int, step as int) =~= cur.subrange(1, cur.len() as int));
                assert(cur.subrange(1, cur.len() as int) =~= all.subrange(k0 + 1, all.len() as int));
            }
            out.push(i as usize);
            i = i + step;
        }
    }
    assert(out@.len() == all.len());
    assert forall|k: int| 0 <= k < out@.len() implies #[trigger] out@[k] < len by {
        assert(out@[k] as int == all[k]);
    }
    out
}

/// The elements at the positions a slice visits.
pub fn pick_values(items: &Vec<Value>, d: &SliceData) -> (r: Vec<Value>)
    requires
        slice_defined(items@.len() as int, d.start@, d.end@, d.step@),
    ensures
        vals(r@) == pick(vals(items@), slice_positions(items@.len() as int, d.start@, d.end@, d.step@)),
{
    let ghost all = slice_positions(items@.len() as int, d.start@, d.end@, d.step@);
    let pos = slice_walk(items.len(), d);
    let mut out: Vec<Value> = Vec::new();
    let mut k: usize = 0;
    while k < pos.len()
        invariant
            k <= pos@.len(),
            pos@.len() == all.len(),
            forall|t: int| 0 <= t < pos@.len() ==> pos@[t] as int == #[trigger] all[t],
            forall|t: int| 0 <= t < pos@.len() ==> #[trigger] pos@[t] < items@.len(),
            vals(out@) =~= pick(vals(items@), all).subrange(0, k as int),
        decreases pos@.len() - k,
    {
        assert(pos@[k as int] < items@.len());
        let ghost before = out@;
        let x = items[pos[k]].duplicate();
        assert(x@ == vals(items@)[all[k as int]]);
        out.push(x);
        assert(out@ =~= before.push(x));
        assert(vals(out@) =~= vals(before).push(x@));
        assert(vals(out@) =~= pick(vals(items@), all).subrange(0, k + 1));
        k = k + 1;
    }
    assert(pick(vals(items@), all).subrange(0, k as int) =~= pick(vals(items@), all));
    out
}

/// The characters at the positions a slice visits.
pub fn pick_chars(text: &Vec<char>, d: &SliceData) -> (r: Vec<char>)
    requires
        slice_defined(text@.len() as int, d.start@, d.end@, d.step@),
    ensures
        r@ == pick(text@, slice_positions(text@.len() as int, d.start@, d.end@, d.step@)),
{
    let ghost all = slice_positions(text@.len() as int, d.start@, d.end@, d.step@);
    let pos = slice_walk(text.len(), d);
    let mut out: Vec<char> = Vec::new();
    let mut k: usize = 0;
    while k < pos.len()
        invariant
            k <= pos@.len(),
            pos@.len() == all.len(),
            forall|t: int| 0 <= t < pos@.len() ==> pos@[t] as int == #[trigger] all[t],
            forall|t: int| 0 <= t < pos@.len() ==> #[trigger] pos@[t] < text@.len(),
            out@ =~= pick(text@, all).subrange(0, k as int),
        decreases pos@.len() - k,
    {
        assert(pos@[k as int] < text@.len());
        out.push(text[pos[k]]);
        assert(out@ =~= pick(text@, all).subrange(0, k + 1));
        k = k + 1;
    }
    assert(pick(text@, all).subrange(0, k as int) =~= pick(text@, all));
    out
}

/// Reading the element at an integer index of a sequence.
pub open spec fn element_at(items: Seq<Val>, i: i64) -> OutcomeModel {
    match norm_index(items.len() as int, i as int) {
        Some(k) => OutcomeModel::Value(items[k]),
        None => OutcomeModel::Raise(range_error_class(), index_error_message()),
    }
}

/// Reading the element at an integer index of a range (computed with wrap-around).
pub open spec fn range_element(d: crate::value::RangeData, i: i64) -> OutcomeModel {
    if d.step == 0 {
        OutcomeModel::Raise(range_error_class(), zero_step_message())
    } else {
        let v = crate::ops::wrap_add(d.start, crate::ops::wrap_mul(i, d.step));
        if (if d.step > 0 { v < d.end } else { v > d.end }) {
            OutcomeModel::Value(Val::Int(v))
        } else {
            OutcomeModel::Raise(range_error_class(), index_error_message())
        }
    }
}

pub open spec fn subscript_type_error() -> OutcomeModel {
    OutcomeModel::Raise(crate::ops::type_error_class(), "غير قادر على الوصول بالفهرس"@)
}

/// `obj[idx]`: element reads of lists, tuples, ranges and strings, slices of
/// lists and strings (a sliced list is a new list with identity `fresh`), and
/// key lookup in dictionaries.
pub open spec fn spec_subscript(obj: Val, idx: Val, fresh: u64) -> OutcomeModel {
    match obj {
        Val::List(_, items) => match idx {
            Val::Int(i) => element_at(items, i),
            Val::Slice(a, b, c) => OutcomeModel::Value(Val::List(fresh, pick(items, slice_positions(items.len() as int, *a, *b, *c)))),
            _ => subscript_type_error(),
        },
        Val::Tuple(_, items) => match idx {
            Val::Int(i) => element_at(items, i),
            _ => subscript_type_error(),
        },
        Val::Range(d) => match idx {
            Val::Int(i) => range_element(d, i),
            _ => subscript_type_error(),
        },
        Val::Str(text) => match idx {
            Val::Int(i) => match norm_index(text.len() as int, i as int) {
                Some(k) => OutcomeModel::Value(Val::Str(seq![text[k]])),
                None => OutcomeModel::Raise(range_error_class(), index_error_message()),
            },
            Val::Slice(a, b, c) => OutcomeModel::Value(Val::Str(pick(text, slice_positions(text.len() as int, *a, *b, *c)))),
            _ => subscript_type_error(),
        },
        Val::Dict(_, pairs) => match dict_get(pairs, idx) {
            Some(v) => OutcomeModel::Value(v),
            None => OutcomeModel::Raise(key_error_class(), key_error_message()),
        },
        _ => subscript_type_error(),
    }
}

/// The slices a read takes stay inside the sliced sequence.
pub open spec fn subscript_defined(obj: Val, idx: Val) -> bool {
    match (obj, idx) {
        (Val::List(_, items), Val::Slice(a, b, c)) => slice_defined(items.len() as int, *a, *b, *c),
        (Val::Str(text), Val::Slice(a, b, c)) => slice_defined(text.len() as int, *a, *b, *c),
        _ => true,
    }
}

fn range_at(d: &crate::value::RangeData, i: i64) -> (o: Outcome)
    ensures
        outcome_model(o) == range_element(*d, i),
{
    if d.step == 0 {
        return raise("استثناء_نطاق", "خطوة النطاق لا يمكن ان تكون صفر");
    }
    let v = d.start.wrapping_add(i.wrapping_mul(d.step));
    let inside = if d.step > 0 { v < d.end } else { v > d.end };
    if inside {
        Outcome::Value(Value::Integer(v))
    } else {
        raise("استثناء_نطاق", "فهرس خارج النطاق")
    }
}

/// `obj[idx]`.
pub fn subscript(obj: &Value, idx: &Value, fresh: u64) -> (o: Outcome)
    requires
        subscript_defined(obj@, idx@),
    ensures
        outcome_model(o) == spec_subscript(obj@, idx@, fresh),
{
    proof {
        match obj {
            Value::List(l) => { assert(vals(l.items@).len() == l.items@.len()); }
            Value::Tuple(l) => { assert(vals(l.items@).len() == l.items@.len()); }
            _ => {}
        }
    }
    match obj {
        Value::List(l) => match idx {
            Value::Integer(i) => match norm_index_exec(l.items.len(), *i) {
                Some(k) => Outcome::Value(l.items[k].duplicate()),
                None => raise("استثناء_نطاق", "فهرس خارج النطاق"),
            },
            Value::Slice(d) => {
                let items = pick_values(&l.items, d);
                Outcome::Value(Value::List(ListObj { oid: fresh, items }))
            }
            _ => raise("استثناء_نوع", "غير قادر على الوصول بالفهرس"),
        },
        Value::Tuple(l) => match idx {
            Value::Integer(i) => match norm_index_exec(l.items.len(), *i) {
                Some(k) => Outcome::Value(l.items[k].duplicate()),
                None => raise("استثناء_نطاق", "فهرس خارج النطاق"),
            },
            _ => raise("استثناء_نوع", "غير قادر على الوصول بالفهرس"),
        },
        Value::Range(d) => match idx {
            Value::Integer(i) => range_at(d, *i),
            _ => raise("استثناء_نوع", "غير قادر على الوصول بالفهرس"),
        },
        Value::String(text) => match idx {
            Value::Integer(i) => match norm_index_exec(text.len(), *i) {
                Some(k) => {
                    let mut one: Vec<char> = Vec::new();
                    one.push(text[k]);
                    assert(one@ =~= seq![text@[k as int]]);
                    Outcome::Value(Value::String(one))
                }
                None => raise("استثناء_نطاق", "فهرس خارج النطاق"),
            },
            Value::Slice(d) => Outcome::Value(Value::String(pick_chars(text, d))),
            _ => raise("استثناء_نوع", "غير قادر على الوصول بالفهرس"),
        },
        Value::Dict(d) => match dict_lookup(&d.pairs, idx) {
            Some(v) => Outcome::Value(v),
            None => raise("استثناء_مفتاح", "مفتاح غير موجود"),
        },
        _ => raise("استثناء_نوع", "غير قادر على الوصول بالفهرس"),
    }
}

/// `obj[idx] = v`: the updated container (same identity), or the error.
pub open spec fn spec_store_subscript(obj: Val, idx: Val, v: Val) -> OutcomeModel {
    match obj {
        Val::List(o, items) => match idx {
            Val::Int(i) => match norm_index(items.len() as int, i as int) {
                Some(k) => OutcomeModel::Value(Val::List(o, items.update(k, v))),
                None => OutcomeModel::Raise(range_error_class(), index_error_message()),
            },
            _ => OutcomeModel::Raise(crate::ops::type_error_class(), "غير قادر على التخزين بالفهرس"@),
        },
        Val::Dict(o, pairs) => OutcomeModel::Value(Val::Dict(o, dict_put(pairs, idx, v))),
        _ => OutcomeModel::Raise(crate::ops::type_error_class(), "غير قادر على التخزين بالفهرس"@),
    }
}

/// `obj[idx] = v`.
pub fn store_subscript(obj: Value, idx: Value, v: Value) -> (o: Outcome)
    ensures
        outcome_model(o) == spec_store_subscript(obj@, idx@, v@),
{
    match obj {
        Value::List(l) => match idx {
            Value::Integer(i) => match norm_index_exec(l.items.len(), i) {
                Some(k) => {
                    let ghost before = vals(l.items@);
                    let ghost vm = v@;
                    let mut items = l.items;
                    items.set(k, v);
                    assert(vals(items@) =~= before.update(k as int, vm));
                    Outcome::Value(Value::List(ListObj { oid: l.oid, items }))
                }
                None => {
                    assert(vals(l.items@).len() == l.items@.len());
                    raise("استثناء_نطاق", "فهرس خارج النطاق")
                }
            },
            _ => raise("استثناء_نوع", "غير قادر على التخزين بالفهرس"),
        },
        Value::Dict(d) => {
            let mut pairs = d.pairs;
            dict_store(&mut pairs, idx, v);
            Outcome::Value(Value::Dict(DictObj { oid: d.oid, pairs }))
        }
        _ => raise("استثناء_نوع", "غير قادر على التخزين بالفهرس"),
    }
}

// ---------------------------------------------------------------- iteration

/// The identity of the `k`-th tuple made from `base` on (with wrap-around).
pub open spec fn tuple_oid(base: u64, k: int) -> u64 {
    ((base as int + k) % 0x1_0000_0000_0000_0000) as u64
}

/// The values a range walks through.
pub open spec fn range_positions(d: crate::value::RangeData) -> Seq<int> {
    if d.step > 0 {
        steps_up(d.start as int, d.end as int, d.step as int)
    } else if d.step < 0 {
        steps_down(d.start as int, d.end as int, d.step as int)
    } else {
        Seq::empty()
    }
}

/// Walking the range never steps outside `i64`.
pub open spec fn range_walk_fits(d: crate::value::RangeData) -> bool {
    &&& d.step > 0 ==> steps_up_fit(d.start as int, d.end as int, d.step as int)
    &&& d.step < 0 ==> steps_down_fit(d.start as int, d.end as int, d.step as int)
}

/// The elements a `for` loop walks over a value: list and tuple elements,
/// the characters of a string (each a one-character string), a dictionary's
/// entries as (key, value) tuples with identities from `base` on, and a
/// range's values.  `None` for kinds that cannot be iterated.
pub open spec fn iter_items(v: Val, base: u64) -> Option<Seq<Val>> {
    match v {
        Val::List(_, items) => Some(items),
        Val::Tuple(_, items) => Some(items),
        Val::Str(text) => Some(Seq::new(text.len(), |k: int| Val::Str(seq![text[k]]))),
        Val::Dict(_, pairs) => Some(Seq::new(pairs.len(), |k: int| Val::Tuple(tuple_oid(base, k), seq![pairs[k].0, pairs[k].1]))),
        Val::Range(d) => Some(Seq::new(range_positions(d).len(), |k: int| Val::Int(range_positions(d)[k] as i64))),
        _ => None,
    }
}

/// The values a range walks through.
pub fn range_values(d: &crate::value::RangeData) -> (r: Vec<Value>)
    requires
        range_walk_fits(*d),
    ensures
        vals(r@) == Seq::new(range_positions(*d).len(), |k: int| Val::Int(range_positions(*d)[k] as i64)),
{
    let ghost all = range_positions(*d);
    let ghost target = Seq::new(all.len(), |k: int| Val::Int(all[k] as i64));
    let mut out: Vec<Value> = Vec::new();
    let mut i = d.start;
    let step = d.step;
    let end = d.end;
    if step > 0 {
        while i < end
            invariant
                step > 0,
                step == d.step, end == d.end,
                all == steps_up(d.start as int, end as int, step as int),
                target == Seq::new(all.len(), |k: int| Val::Int(all[k] as i64)),
                out@.len() <= all.len(),
                steps_up(i as int, end as int, step as int) =~= all.subrange(out@.len() as int, all.len() as int),
                steps_up_fit(i as int, end as int, step as int),
                vals(out@) =~= target.subrange(0, out@.len() as int),
            decreases if i < end { end - i } else { 0 },
        {
            let ghost k0 = out@.len() as int;
            proof {
                let cur = steps_up(i as int, end as int, step as int);
                assert(cur == seq![i as int] + steps_up(i + step, end as int, step as int));
                assert(all[k0] == cur[0]);
                assert(steps_up(i + step, end as int, step as int) =~= cur.subrange(1, cur.len() as int));
                assert(cur.subrange(1, cur.len() as int) =~= all.subrange(k0 + 1, all.len() as int));
            }
            let ghost before = out@;
            out.push(Value::Integer(i));
            assert(vals(out@) =~= vals(before).push(Val::Int(i)));
            assert(vals(out@) =~= target.subrange(0, k0 + 1));
            i = i + step;
        }
    } else if step < 0 {
        while i > end
            invariant
                step < 0,
                step == d.step, end == d.end,
                all == steps_down(d.start as int, end as int, step as int),
                target == Seq::new(all.len(), |k: int| Val::Int(all[k] as i64)),
                out@.len() <= all.len(),
                steps_down(i as int, end as int, step as int) =~= all.subrange(out@.len() as int, all.len() as int),
                steps_down_fit(i as int, end as int, step as int),
                vals(out@) =~= target.subrange(0, out@.len() as int),
            decreases if i > end { i - end } else { 0 },
        {
            let ghost k0 = out@.len() as int;
            proof {
                let cur = steps_down(i as int, end as int, step as int);
                assert(cur == seq![i as int] + steps_down(i + step, end as int, step as int));
                assert(all[k0] == cur[0]);
                assert(steps_down(i + step, end as int, step as int) =~= cur.subrange(1, cur.len() as int));
                assert(cur.subrange(1, cur.len() as int) =~= all.subrange(k0 + 1, all.len() as int));
            }
            let ghost before = out@;
            out.push(Value::Integer(i));
            assert(vals(out@) =~= vals(before).push(Val::Int(i)));
            assert(vals(out@) =~= target.subrange(0, k0 + 1));
            i = i + step;
        }
    }
    assert(target.subrange(0, out@.len() as int) =~= target);
    out
}

/// The elements a `for` loop walks over `v`.
pub fn iteration_items(v: &Value, base: u64) -> (r: Option<Vec<Value>>)
    requires
        v@ matches Val::Range(d) ==> range_walk_fits(d),
    ensures
        match r {
            Some(items) => iter_items(v@, base) == Some(vals(items@)),
            None => iter_items(v@, base) is None,
        },
{
    match v {
        Value::List(l) => Some(crate::value::duplicate_items(&l.items)),
        Value::Tuple(l) => Some(crate::value::duplicate_items(&l.items)),
        Value::String(text) => {
            let ghost target = Seq::new(text@.len(), |k: int| Val::Str(seq![text@[k]]));
            let mut out: Vec<Value> = Vec::new();
            let mut k: usize = 0;
            while k < text.len()
                invariant
                    k <= text@.len(),
                    target == Seq::new(text@.len(), |k: int| Val::Str(seq![text@[k]])),
                    vals(out@) =~= target.subrange(0, k as int),
                decreases text@.len() - k,
            {
                let mut one: Vec<char> = Vec::new();
                one.push(text[k]);
                assert(one@ =~= seq![text@[k as int]]);
                let ghost before = out@;
                out.push(Value::String(one));
                assert(vals(out@) =~= vals(before).push(Val::Str(seq![text@[k as int]])));
                k = k + 1;
            }
            assert(target.subrange(0, k as int) =~= target);
            Some(out)
        }
        Value::Dict(d) => {
            let ghost pm = val_pairs(d.pairs@);
            let ghost target = Seq::new(pm.len(), |k: int| Val::Tuple(tuple_oid(base, k), seq![pm[k].0, pm[k].1]));
            let mut out: Vec<Value> = Vec::new();
            let mut k: usize = 0;
            while k < d.pairs.len()
                invariant
                    k <= d.pairs@.len(),
                    pm == val_pairs(d.pairs@),
                    target == Seq::new(pm.len(), |k: int| Val::Tuple(tuple_oid(base, k), seq![pm[k].0, pm[k].1])),
                    vals(out@) =~= target.subrange(0, k as int),
                decreases d.pairs@.len() - k,
            {
                let mut both: Vec<Value> = Vec::new();
                both.push(d.pairs[k].0.duplicate());
                both.push(d.pairs[k].1.duplicate());
                assert(vals(both@) =~= seq![pm[k as int].0, pm[k as int].1]);
                let oid = base.wrapping_add(k as u64);
                assert(oid == tuple_oid(base, k as int));
                let ghost before = out@;
                let t = Value::Tuple(ListObj { oid, items: both });
                assert(t@ == target[k as int]);
                out.push(t);
                assert(vals(out@) =~= vals(before).push(target[k as int]));
                k = k + 1;
            }
            assert(target.subrange(0, k as int) =~= target);
            Some(out)
        }
        Value::Range(d) => Some(range_values(d)),
        _ => None,
    }
}

// ---------------------------------------------------------------- sets

/// The elements with later duplicates (by `==`) removed, first occurrences kept in order.
pub open spec fn dedup(items: Seq<Val>) -> Seq<Val>
    decreases items.len(),
{
    if items.len() == 0 {
        Seq::empty()
    } else {
        let d = dedup(items.drop_last());
        if crate::ops::seq_has(d, items.last()) { d } else { d.push(items.last()) }
    }
}

/// Removes later duplicates.
pub fn dedup_values(items: Vec<Value>) -> (r: Vec<Value>)
    ensures
        vals(r@) == dedup(vals(items@)),
{
    let ghost all = vals(items@);
    let mut out: Vec<Value> = Vec::new();
    let mut i: usize = 0;
    while i < items.len()
        invariant
            i <= items@.len(),
            all == vals(items@),
            vals(out@) == dedup(all.subrange(0, i as int)),
        decreases items@.len() - i,
    {
        let ghost pre = all.subrange(0, i as int);
        let ghost next = all.subrange(0, i + 1);
        assert(next.drop_last() =~= pre);
        assert(next.last() == items@[i as int]@);
        if !crate::ops::items_have(&out, &items[i]) {
            let ghost before = out@;
            out.push(items[i].duplicate());
            assert(vals(out@) =~= vals(before).push(items@[i as int]@));
        }
        i = i + 1;
    }
    assert(all.subrange(0, items@.len() as int) =~= all);
    out
}

// ---------------------------------------------------------------- shared containers

/// Whether `v` is the same mutable object (list, dictionary, set or cell) as `obj`.
pub open spec fn same_object(v: Val, obj: Val) -> bool {
    match (v, obj) {
        (Val::List(a, _), Val::List(b, _)) => a == b,
        (Val::Dict(a, _), Val::Dict(b, _)) => a == b,
        (Val::SetVal(a, _), Val::SetVal(b, _)) => a == b,
        (Val::Cell(a, _), Val::Cell(b, _)) => a == b,
        _ => false,
    }
}

/// `v` with every occurrence of the object `obj` (by identity) replaced
/// by its new state: lists, dictionaries, sets and cells are shared, so a
/// change made through one holder is seen by all.
pub open spec fn refresh(v: Val, obj: Val) -> Val
    decreases v,
{
    if same_object(v, obj) {
        obj
    } else {
        match v {
            Val::List(o, items) => Val::List(o, refresh_all(items, obj)),
            Val::Tuple(o, items) => Val::Tuple(o, refresh_all(items, obj)),
            Val::SetVal(o, items) => Val::SetVal(o, refresh_all(items, obj)),
            Val::Dict(o, pairs) => Val::Dict(o, Seq::new(pairs.len(), |k: int|
                if 0 <= k < pairs.len() { (refresh(pairs[k].0, obj), refresh(pairs[k].1, obj)) } else { (Val::Null, Val::Null) })),
            Val::Cell(o, inner) => Val::Cell(o, Box::new(refresh(*inner, obj))),
            Val::Slice(a, b, c) => Val::Slice(Box::new(refresh(*a, obj)), Box::new(refresh(*b, obj)), Box::new(refresh(*c, obj))),
            _ => v,
        }
    }
}

/// Every element refreshed.
pub open spec fn refresh_all(items: Seq<Val>, obj: Val) -> Seq<Val>
    decreases items,
{
    Seq::new(items.len(), |k: int| if 0 <= k < items.len() { refresh(items[k], obj) } else { Val::Null })
}

fn is_same_object(v: &Value, obj: &Value) -> (r: bool)
    ensures
        r == same_object(v@, obj@),
{
    match (v, obj) {
        (Value::List(a), Value::List(b)) => a.oid == b.oid,
        (Value::Dict(a), Value::Dict(b)) => a.oid == b.oid,
        (Value::SetVal(a), Value::SetVal(b)) => a.oid == b.oid,
        (Value::Cell(a), Value::Cell(b)) => a.oid == b.oid,
        _ => false,
    }
}

/// The elements with the container `obj` refreshed in each.
pub fn refresh_items(items: &Vec<Value>, obj: &Value) -> (r: Vec<Value>)
    ensures
        vals(r@) == refresh_all(vals(items@), obj@),
    decreases items@, 0int,
{
    let ghost target = refresh_all(vals(items@), obj@);
    let mut out: Vec<Value> = Vec::new();
    let mut k: usize = 0;
    while k < items.len()
        invariant
            k <= items@.len(),
            target == refresh_all(vals(items@), obj@),
            vals(out@) =~= target.subrange(0, k as int),
        decreases items@.len() - k,
    {
        proof { assert(decreases_to!(items@ => items@[k as int])); }
        let x = refresh_value(&items[k], obj);
        let ghost before = out@;
        out.push(x);
        assert(vals(out@) =~= vals(before).push(x@));
        k = k + 1;
    }
    assert(target.subrange(0, k as int) =~= target);
    out
}

fn refresh_pairs(pairs: &Vec<(Value, Value)>, obj: &Value) -> (r: Vec<(Value, Value)>)
    ensures
        val_pairs(r@) == Seq::new(val_pairs(pairs@).len(), |k: int|
            if 0 <= k < val_pairs(pairs@).len() { (refresh(val_pairs(pairs@)[k].0, obj@), refresh(val_pairs(pairs@)[k].1, obj@)) } else { (Val::Null, Val::Null) }),
    decreases pairs@, 0int,
{
    let ghost pm = val_pairs(pairs@);
    let ghost target = Seq::new(pm.len(), |k: int|
        if 0 <= k < pm.len() { (refresh(pm[k].0, obj@), refresh(pm[k].1, obj@)) } else { (Val::Null, Val::Null) });
    let mut out: Vec<(Value, Value)> = Vec::new();
    let mut k: usize = 0;
    while k < pairs.len()
        invariant
            k <= pairs@.len(),
            pm == val_pairs(pairs@),
            target == Seq::new(pm.len(), |k: int|
                if 0 <= k < pm.len() { (refresh(pm[k].0, obj@), refresh(pm[k].1, obj@)) } else { (Val::Null, Val::Null) }),
            val_pairs(out@) =~= target.subrange(0, k as int),
        decreases pairs@.len() - k,
    {
        proof { assert(decreases_to!(pairs@ => pairs@[k as int])); }
        let a = refresh_value(&pairs[k].0, obj);
        let b = refresh_value(&pairs[k].1, obj);
        let ghost before = out@;
        out.push((a, b));
        assert(val_pairs(out@) =~= val_pairs(before).push((a@, b@)));
        k = k + 1;
    }
    assert(target.subrange(0, k as int) =~= target);
    out
}

/// `v` with the container `obj` refreshed wherever it occurs.
pub fn refresh_value(v: &Value, obj: &Value) -> (r: Value)
    ensures
        r@ == refresh(v@, obj@),
    decreases v, 1int,
{
    if is_same_object(v, obj) {
        return obj.duplicate();
    }
    assert(!same_object(v@, obj@));
    match v {
        Value::List(l) => {
            let items = refresh_items(&l.items, obj);
            let r = Value::List(ListObj { oid: l.oid, items });
            assert(v@ == Val::List(l.oid, vals(l.items@)));
            assert(r@ == Val::List(l.oid, refresh_all(vals(l.items@), obj@)));
            assert(refresh(v@, obj@) == Val::List(l.oid, refresh_all(vals(l.items@), obj@)));
            r
        }
        Value::Tuple(l) => {
            let r = Value::Tuple(ListObj { oid: l.oid, items: refresh_items(&l.items, obj) });
            assert(r@ == refresh(v@, obj@));
            r
        }
        Value::SetVal(l) => {
            let r = Value::SetVal(ListObj { oid: l.oid, items: refresh_items(&l.items, obj) });
            assert(r@ == refresh(v@, obj@));
            r
        }
        Value::Dict(d) => {
            let pairs = refresh_pairs(&d.pairs, obj);
            let ghost pm = val_pairs(d.pairs@);
            assert(val_pairs(pairs@) =~= Seq::new(pm.len(), |k: int|
                if 0 <= k < pm.len() { (refresh(pm[k].0, obj@), refresh(pm[k].1, obj@)) } else { (Val::Null, Val::Null) }));
            proof {
                if let Val::Dict(_, ps) = refresh(v@, obj@) {
                    assert(ps =~= val_pairs(pairs@));
                }
            }
            let r = Value::Dict(DictObj { oid: d.oid, pairs });
            assert(r@ == refresh(v@, obj@));
            r
        }
        Value::Cell(c) => {
            let inner = refresh_value(&c.inner, obj);
            let r = Value::Cell(crate::value::CellObj { oid: c.oid, inner: Box::new(inner) });
            assert(r@ == refresh(v@, obj@));
            r
        }
        Value::Slice(d) => {
            let a = refresh_value(&d.start, obj);
            let b = refresh_value(&d.end, obj);
            let c = refresh_value(&d.step, obj);
            let r = Value::Slice(SliceData { start: Box::new(a), end: Box::new(b), step: Box::new(c) });
            assert(r@ == refresh(v@, obj@));
            r
        }
        _ => {
            let r = v.duplicate();
            assert(r@ == refresh(v@, obj@));
            r
        }
    }
}

// ---------------------------------------------------------------- checks

/// Whether walking up from `i` below `m` by `step` stays within `i64`.
pub fn fits_up(i: i64, m: i64, step: i64) -> (r: bool)
    requires
        step > 0,
    ensures
        r == steps_up_fit(i as int, m as int, step as int),
{
    let mut j = i;
    while j < m
        invariant
            step > 0,
            steps_up_fit(i as int, m as int, step as int) == steps_up_fit(j as int, m as int, step as int),
        decreases if j < m { m - j } else { 0 },
    {
        if j > i64::MAX - step {
            return false;
        }
        j = j + step;
    }
    true
}

/// Whether walking down from `i` above `lo` by `step` stays within `i64`.
pub fn fits_down(i: i64, lo: i64, step: i64) -> (r: bool)
    requires
        step < 0,
    ensures
        r == steps_down_fit(i as int, lo as int, step as int),
{
    let mut j = i;
    while j > lo
        invariant
            step < 0,
            steps_down_fit(i as int, lo as int, step as int) == steps_down_fit(j as int, lo as int, step as int),
        decreases if j > lo { j - lo } else { 0 },
    {
        if j < i64::MIN - step {
            return false;
        }
        j = j + step;
    }
    true
}

/// Whether a slice of `len` elements reads only existing elements and steps within `i64`.
pub fn slice_ok(len: usize, d: &SliceData) -> (r: bool)
    ensures
        r == slice_defined(len as int, d.start@, d.end@, d.step@),
{
    if len as u128 > 0x7fff_ffff_ffff_ffffu128 {
        return false;
    }
    let n = len as i64;
    let step: i64 = match &*d.step {
        Value::Integer(i) => if *i == 0 { 1 } else { *i },
        _ => 1,
    };
    let s: i64 = match &*d.start {
        Value::Integer(i) => if *i < 0 { if n + *i > 0 { n + *i } else { 0 } } else { if *i < n - 1 { *i } else { n - 1 } },
        _ => if step > 0 { 0 } else { n - 1 },
    };
    let e: i64 = match &*d.end {
        Value::Integer(i) => if *i < 0 { if n + *i > 0 { n + *i } else { 0 } } else { if *i < n { *i } else { n } },
        _ => if step > 0 { n } else { -1 },
    };
    assert(step as int == slice_step(d.step@));
    assert(s as int == slice_start(d.start@, len as int, step as int));
    assert(e as int == slice_end(d.end@, len as int, step as int));
    if step > 0 {
        let m = if e < n { e } else { n };
        (!(s < m) || s >= 0) && fits_up(s, m, step)
    } else {
        let lo = if e > -1 { e } else { -1 };
        (!(s > lo) || s < n) && fits_down(s, lo, step)
    }
}

/// Whether a read `obj[idx]` stays inside what the machine handles.
pub fn subscript_ok(obj: &Value, idx: &Value) -> (r: bool)
    ensures
        r == subscript_defined(obj@, idx@),
{
    match (obj, idx) {
        (Value::List(l), Value::Slice(d)) => {
            assert(vals(l.items@).len() == l.items@.len());
            slice_ok(l.items.len(), d)
        }
        (Value::String(t), Value::Slice(d)) => slice_ok(t.len(), d),
        _ => true,
    }
}

/// Whether iterating a range stays within `i64`.
pub fn range_walk_ok(d: &crate::value::RangeData) -> (r: bool)
    ensures
        r == range_walk_fits(*d),
{
    if d.step > 0 {
        fits_up(d.start, d.end, d.step)
    } else if d.step < 0 {
        fits_down(d.start, d.end, d.step)
    } else {
        true
    }
}

} // verus!
