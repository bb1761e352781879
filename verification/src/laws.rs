//! Properties that hold across operations of the machine and its values.

use vstd::prelude::*;
use crate::value::{Val, vals};
use crate::ops::{val_lt, val_gt, OutcomeModel};
use crate::containers::{key_match, dict_get, dict_put, key_index, spec_subscript, spec_store_subscript, norm_index,
    dedup, refresh, same_object};
use crate::machine::{MachineModel, ProgramModel, Instr, StepModel, spec_step, global_lookup, frame_handler_floor, local_slot, spop};

verus! {

/// `a < b` holds exactly when `b > a` does.
pub proof fn law_less_greater_converse(a: Val, b: Val)
    ensures
        val_lt(a, b) == val_gt(b, a),
{
}

/// Storing an element of a list at a valid index and reading it back gives
/// the stored value, and the list keeps its identity and length.
pub proof fn law_list_store_then_read(o: u64, items: Seq<Val>, i: i64, v: Val, fresh: u64)
    requires
        norm_index(items.len() as int, i as int) is Some,
    ensures
        spec_store_subscript(Val::List(o, items), Val::Int(i), v) matches OutcomeModel::Value(Val::List(o2, items2))
            && o2 == o && items2.len() == items.len()
            && spec_subscript(Val::List(o2, items2), Val::Int(i), fresh) == OutcomeModel::Value(v),
{
}

/// A key matches itself when it is an integer, a string, a boolean, null,
/// or a float that is not NaN.
pub open spec fn plain_key(k: Val) -> bool {
    match k {
        Val::Int(_) | Val::Str(_) | Val::Bool(_) | Val::Null => true,
        Val::Float(bits, _) => !crate::value::float_is_nan(bits),
        _ => false,
    }
}

proof fn lemma_key_index_found(pairs: Seq<(Val, Val)>, k: Val, j: int)
    requires
        0 <= j < pairs.len(),
        key_match(pairs[j].0, k),
    ensures
        key_index(pairs, k) is Some,
    decreases pairs.len(),
{
    if j < pairs.len() - 1 && !key_match(pairs.last().0, k) {
        let pre = pairs.drop_last();
        assert(pre[j] == pairs[j]);
        lemma_key_index_found(pre, k, j);
    }
}

/// Storing a value under a key of a dictionary and reading the key back
/// gives the stored value.
pub proof fn law_dict_store_then_read(pairs: Seq<(Val, Val)>, k: Val, v: Val)
    requires
        plain_key(k),
    ensures
        dict_get(dict_put(pairs, k, v), k) == Some(v),
{
    assert(key_match(k, k));
    let after = dict_put(pairs, k, v);
    match key_index(pairs, k) {
        Some(j) => {
            crate::containers::lemma_key_index(pairs, k);
            crate::containers::lemma_key_index(after, k);
            assert(after[j].0 == pairs[j].0);
            lemma_key_index_found(after, k, j);
            let j2 = key_index(after, k)->0;
            if j2 != j {
                assert(j2 > j ==> !key_match(after[j2].0, k) || after[j2] == pairs[j2]);
                if j2 > j {
                    assert(after[j2] == pairs[j2]);
                }
            }
        }
        None => {
            crate::containers::lemma_key_index(after, k);
            assert(after.last().0 == k);
        }
    }
}

/// A set built from any elements holds no two equal elements.
pub proof fn law_set_elements_distinct(items: Seq<Val>)
    ensures
        forall|i: int, j: int| 0 <= i < j < dedup(items).len() ==> !crate::ops::val_eq(dedup(items)[i], dedup(items)[j]),
    decreases items.len(),
{
    if items.len() > 0 {
        let d = dedup(items.drop_last());
        law_set_elements_distinct(items.drop_last());
        if !crate::ops::seq_has(d, items.last()) {
            let d2 = d.push(items.last());
            assert forall|i: int, j: int| 0 <= i < j < d2.len() implies !crate::ops::val_eq(d2[i], d2[j]) by {
                if j == d2.len() - 1 {
                    assert(d2[i] == d[i]);
                    assert(!crate::ops::val_eq(d[i], items.last()));
                } else {
                    assert(d2[i] == d[i] && d2[j] == d[j]);
                }
            }
        }
    }
}

/// A change to a shared container reaches every holder: refreshing a value
/// that is the same list or dictionary gives the container's new state.
pub proof fn law_refresh_reaches_holder(v: Val, obj: Val)
    requires
        same_object(v, obj),
    ensures
        refresh(v, obj) == obj,
{
}

/// An element store into a list through the operand stack is seen by every
/// local slot that holds the same list.
pub proof fn law_store_seen_by_locals(m: MachineModel, p: ProgramModel, slot: int)
    requires
        m.ip < p.code.len(),
        p.code[m.ip as int] == Instr::StoreSubscript,
        m.stack.len() >= 3,
        m.stack[m.stack.len() - 3] is List,
        m.stack[m.stack.len() - 2] is Int,
        norm_index(m.stack[m.stack.len() - 3]->List_1.len() as int, m.stack[m.stack.len() - 2]->Int_0 as int) is Some,
        0 <= slot < m.arena.len(),
        m.arena[slot] is List,
        m.arena[slot]->List_0 == m.stack[m.stack.len() - 3]->List_0,
    ensures
        ({
            let o = m.stack[m.stack.len() - 3]->List_0;
            let items = m.stack[m.stack.len() - 3]->List_1;
            let k = norm_index(items.len() as int, m.stack[m.stack.len() - 2]->Int_0 as int)->0;
            spec_step(m, p).0.arena[slot] == Val::List(o, items.update(k, m.stack.last()))
        }),
{
    reveal(spec_step);
    let mm = MachineModel { ip: (m.ip + 1) as usize, ..m };
    let s = mm.stack;
    assert(s.drop_last().drop_last().last() == s[s.len() - 3]);
    assert(s.drop_last().last() == s[s.len() - 2]);
}

/// Appending to a list through its method (`اضف`) is seen by every local
/// slot that holds the same list.
pub proof fn law_method_append_seen_by_locals(m: MachineModel, p: ProgramModel, a: usize, slot: int)
    requires
        m.ip < p.code.len(),
        p.code[m.ip as int] == Instr::CallMethod(a, 1),
        a < p.names.len(),
        p.names[a as int] == "اضف"@,
        m.stack.len() >= 2,
        m.stack[m.stack.len() - 2] is List,
        0 <= slot < m.arena.len(),
        m.arena[slot] is List,
        m.arena[slot]->List_0 == m.stack[m.stack.len() - 2]->List_0,
    ensures
        ({
            let o = m.stack[m.stack.len() - 2]->List_0;
            let items = m.stack[m.stack.len() - 2]->List_1;
            spec_step(m, p).0.arena[slot] == Val::List(o, items.push(m.stack.last()))
        }),
{
    reveal(spec_step);
    let st = m.stack;
    let (s1, args) = crate::steps::take_top(st, 1);
    assert(s1 =~= st.subrange(0, st.len() - 1));
    assert(args =~= seq![st.last()]);
    assert(s1.last() == st[st.len() - 2]);
}

/// A variable that a function captured is shared with the frame it came
/// from: a `StoreFast(a)` into a slot holding a captured variable (a cell)
/// is seen by every local slot and every captured value that is the same
/// cell, whichever frame or function object holds it.
pub proof fn law_captured_store_is_shared(m: MachineModel, p: ProgramModel, a: usize, i: int, k: int, j: int)
    requires
        m.frames.len() > 0,
        m.ip < p.code.len(),
        p.code[m.ip as int] == Instr::StoreFast(a),
        a < m.frames.last().arena_len,
        local_slot(m, a) is Cell,
        0 <= i < m.arena.len(),
        same_object(m.arena[i], local_slot(m, a)),
        0 <= k < m.functions.len(),
        0 <= j < m.functions[k].closure.len(),
        same_object(m.functions[k].closure[j].1, local_slot(m, a)),
    ensures
        ({
            let c = Val::Cell(local_slot(m, a)->Cell_0, Box::new(spop(m.stack).1));
            &&& spec_step(m, p).0.arena[i] == c
            &&& spec_step(m, p).0.functions[k].closure[j].1 == c
        }),
{
    reveal(spec_step);
}

/// Binding a name and loading it right after gives back the bound value:
/// after `StoreName(b)` and `LoadName(b)` the operand stack is as before.
pub proof fn law_store_then_load_name(m: MachineModel, p: ProgramModel, b: usize)
    requires
        m.frames.len() > 0,
        m.ip + 1 < p.code.len(),
        p.code.len() <= usize::MAX,
        p.code[m.ip as int] == Instr::StoreName(b),
        p.code[m.ip + 1] == Instr::LoadName(b),
        b < p.names.len(),
        m.stack.len() > 0,
    ensures
        spec_step(spec_step(m, p).0, p).0.stack == m.stack,
{
    reveal(spec_step);
    let m1 = spec_step(m, p).0;
    assert(m1.ip == m.ip + 1);
    crate::machine::law_global_insert_lookup(m.globals, p.names[b as int], m.stack.last(), p.names[b as int]);
    assert(m1.stack.push(m.stack.last()) =~= m.stack);
}

/// An exception raised inside a protected block of the running frame is
/// caught by that block: after `SetupExcept(c)` and `Raise` of a value,
/// execution is at `c`, the handler stack is as before, and the exception
/// stands in place of the raised value on the operand stack.
pub proof fn law_raise_caught_by_handler(m: MachineModel, p: ProgramModel, c: usize)
    requires
        m.frames.len() > 0,
        m.ip + 1 < p.code.len(),
        p.code.len() <= usize::MAX,
        p.code[m.ip as int] == Instr::SetupExcept(c),
        p.code[m.ip + 1] == Instr::Raise,
        m.handlers.len() >= frame_handler_floor(m),
        m.stack.len() > 0,
        !(m.stack.last() is Null),
    ensures
        ({
            let m2 = spec_step(spec_step(m, p).0, p);
            &&& m2.1 == StepModel::Continue
            &&& m2.0.ip == c
            &&& m2.0.handlers == m.handlers
            &&& m2.0.stack.len() == m.stack.len()
            &&& m2.0.stack.last() is Exception
        }),
{
    reveal(spec_step);
    let m1 = spec_step(m, p).0;
    assert(m1.handlers == m.handlers.push(c));
    assert(m1.handlers.drop_last() =~= m.handlers);
}

/// Joining the texts of string values is joining the strings.
proof fn lemma_join_strings(ps: Seq<Seq<char>>, sep: Seq<char>)
    ensures
        crate::builtin_text::join_texts(crate::methods::str_vals(ps), sep) == crate::textops::join_seqs(ps, sep),
    decreases ps.len(),
{
    let vs = crate::methods::str_vals(ps);
    if ps.len() > 0 {
        lemma_join_strings(ps.drop_last(), sep);
        assert(vs.drop_last() =~= crate::methods::str_vals(ps.drop_last()));
        assert(crate::value::val_text(vs.last()) == ps.last());
        if ps.len() == 1 {
            assert(crate::value::val_text(vs[0]) == ps[0]);
        }
    }
}

/// Splitting a text on a separator (the `اقسم` method) and joining the
/// pieces with that separator (the `اربط` method) gives the text back.
pub proof fn law_split_then_join(s: Seq<char>, sep: Seq<char>)
    ensures
        crate::builtin_text::join_texts(crate::methods::str_vals(crate::textops::split_text(s, sep)), sep) == s,
{
    lemma_join_strings(crate::textops::split_text(s, sep), sep);
    crate::textops::lemma_split_join(s, sep);
}

/// Replacing every occurrence of a text by itself (the `استبدل` method)
/// leaves the text unchanged.
pub proof fn law_replace_by_itself(s: Seq<char>, x: Seq<char>)
    ensures
        crate::textops::replace_all(s, x, x) == s,
{
    crate::textops::lemma_split_join(s, x);
}

/// Every element is an integer.
pub open spec fn all_integers(s: Seq<Val>) -> bool {
    forall|i: int| 0 <= i < s.len() ==> #[trigger] s[i] is Int
}

/// The integers are in non-decreasing order.
pub open spec fn nondecreasing(s: Seq<Val>) -> bool {
    forall|i: int, j: int| 0 <= i < j < s.len() ==> #[trigger] s[i]->Int_0 <= #[trigger] s[j]->Int_0
}

proof fn lemma_insert_bound(s: Seq<Val>, x: Val, b: i64)
    requires
        all_integers(s),
        x is Int,
        x->Int_0 <= b,
        forall|i: int| 0 <= i < s.len() ==> #[trigger] s[i]->Int_0 <= b,
    ensures
        forall|i: int| 0 <= i < crate::methods::insert_sorted(s, x).len() ==>
            #[trigger] crate::methods::insert_sorted(s, x)[i]->Int_0 <= b,
    decreases s.len(),
{
    if s.len() > 0 && crate::methods::before(x, s.last()) {
        lemma_insert_bound(s.drop_last(), x, b);
        let r = crate::methods::insert_sorted(s.drop_last(), x);
        assert(crate::methods::insert_sorted(s, x) == r.push(s.last()));
        assert(s.last() == s[s.len() - 1]);
    }
}

proof fn lemma_insert_sorted(s: Seq<Val>, x: Val)
    requires
        all_integers(s),
        x is Int,
        nondecreasing(s),
    ensures
        all_integers(crate::methods::insert_sorted(s, x)),
        nondecreasing(crate::methods::insert_sorted(s, x)),
        crate::methods::insert_sorted(s, x).to_multiset() == s.to_multiset().insert(x),
    decreases s.len(),
{
    broadcast use vstd::seq_lib::group_to_multiset_ensures;
    broadcast use vstd::multiset::group_multiset_axioms;
    let r = crate::methods::insert_sorted(s, x);
    if s.len() == 0 {
        assert(r == seq![x]);
        assert(seq![x] =~= Seq::<Val>::empty().push(x));
        assert(Seq::<Val>::empty().to_multiset() =~= vstd::multiset::Multiset::<Val>::empty());
        assert(s =~= Seq::<Val>::empty());
    } else if crate::methods::before(x, s.last()) {
        let pre = s.drop_last();
        lemma_insert_sorted(pre, x);
        let r1 = crate::methods::insert_sorted(pre, x);
        assert(r == r1.push(s.last()));
        assert(s.last() == s[s.len() - 1]);
        assert forall|i: int| 0 <= i < pre.len() implies #[trigger] pre[i]->Int_0 <= s.last()->Int_0 by {
            assert(pre[i] == s[i]);
        }
        lemma_insert_bound(pre, x, s.last()->Int_0);
        assert(s =~= pre.push(s.last()));
        assert(r.to_multiset() =~= r1.to_multiset().insert(s.last()));
        assert(s.to_multiset() =~= pre.to_multiset().insert(s.last()));
        assert(r.to_multiset() =~= s.to_multiset().insert(x));
        assert forall|i: int, j: int| 0 <= i < j < r.len() implies #[trigger] r[i]->Int_0 <= #[trigger] r[j]->Int_0 by {
            if j < r.len() - 1 {
                assert(r[i] == r1[i] && r[j] == r1[j]);
            } else {
                assert(r[i] == r1[i]);
            }
        }
        assert forall|i: int| 0 <= i < r.len() implies #[trigger] r[i] is Int by {
            if i < r.len() - 1 {
                assert(r[i] == r1[i]);
            }
        }
    } else {
        assert(r == s.push(x));
        assert(s.last() == s[s.len() - 1]);
        assert forall|i: int, j: int| 0 <= i < j < r.len() implies #[trigger] r[i]->Int_0 <= #[trigger] r[j]->Int_0 by {
            if j == r.len() - 1 {
                assert(r[j] == x);
                assert(r[i] == s[i]);
                if i < s.len() - 1 {
                    assert(s[i]->Int_0 <= s[s.len() - 1]->Int_0);
                }
            } else {
                assert(r[i] == s[i] && r[j] == s[j]);
            }
        }
    }
}

/// Sorting a list of integers (the `رتب` method) puts its elements in
/// non-decreasing order and keeps each element as often as it occurred.
pub proof fn law_sort_orders_integers(items: Seq<Val>)
    requires
        all_integers(items),
    ensures
        all_integers(crate::methods::sorted(items)),
        nondecreasing(crate::methods::sorted(items)),
        crate::methods::sorted(items).to_multiset() == items.to_multiset(),
    decreases items.len(),
{
    broadcast use vstd::seq_lib::group_to_multiset_ensures;
    if items.len() == 0 {
        assert(crate::methods::sorted(items) == items);
    } else {
        let pre = items.drop_last();
        law_sort_orders_integers(pre);
        assert(items.last() == items[items.len() - 1]);
        lemma_insert_sorted(crate::methods::sorted(pre), items.last());
        assert(items =~= pre.push(items.last()));
        assert(items.to_multiset() =~= pre.to_multiset().insert(items.last()));
    }
}

/// Reversing a text twice gives it back.
pub proof fn law_reverse_text_twice(s: Seq<char>)
    ensures
        s.reverse().reverse() == s,
{
    assert(s.reverse().reverse() =~= s);
}

proof fn lemma_utf8_len_concat(a: Seq<char>, b: Seq<char>)
    ensures
        crate::formatting::utf8_len(a + b) == crate::formatting::utf8_len(a) + crate::formatting::utf8_len(b),
    decreases b.len(),
{
    if b.len() > 0 {
        lemma_utf8_len_concat(a, b.drop_last());
        assert((a + b).drop_last() =~= a + b.drop_last());
        assert((a + b).last() == b.last());
    } else {
        assert(a + b =~= a);
    }
}

proof fn lemma_utf8_len_fill(c: char, n: nat)
    requires
        (c as u32) < 0x80,
    ensures
        crate::formatting::utf8_len(crate::formatting::fill_chars(c, n)) == n,
    decreases n,
{
    if n > 0 {
        lemma_utf8_len_fill(c, (n - 1) as nat);
        assert(crate::formatting::fill_chars(c, n).drop_last() =~= crate::formatting::fill_chars(c, (n - 1) as nat));
    }
}

/// Padding fills a rendering up to the requested width, measured in UTF-8
/// bytes, and leaves a rendering at least as wide unchanged.
pub proof fn law_pad_reaches_width(raw: Seq<char>, st: crate::formatting::FormatSpec)
    requires
        st.width is Some,
    ensures
        crate::formatting::utf8_len(crate::formatting::pad(raw, st)) == if crate::formatting::utf8_len(raw) < st.width->0 {
            st.width->0 as nat
        } else {
            crate::formatting::utf8_len(raw)
        },
{
    let w = st.width->0;
    let len = crate::formatting::utf8_len(raw);
    if len < w {
        let padding = (w - len) as nat;
        let pc = if st.fill == '0' && st.kind != Some(',') { '0' } else { ' ' };
        let left = crate::formatting::fill_chars(pc, padding / 2);
        let right = crate::formatting::fill_chars(pc, (padding - padding / 2) as nat);
        let all = crate::formatting::fill_chars(pc, padding);
        lemma_utf8_len_fill(pc, padding / 2);
        lemma_utf8_len_fill(pc, (padding - padding / 2) as nat);
        lemma_utf8_len_fill(pc, padding);
        lemma_utf8_len_concat(raw, all);
        lemma_utf8_len_concat(all, raw);
        lemma_utf8_len_concat(left, raw);
        lemma_utf8_len_concat(left + raw, right);
    }
}

proof fn lemma_steps_up_one(i: int, m: int)
    requires
        i <= m,
    ensures
        crate::containers::steps_up(i, m, 1) == Seq::new((m - i) as nat, |k: int| i + k),
    decreases m - i,
{
    if i < m {
        lemma_steps_up_one(i + 1, m);
        assert(crate::containers::steps_up(i, m, 1) =~= Seq::new((m - i) as nat, |k: int| i + k));
    } else {
        assert(crate::containers::steps_up(i, m, 1) =~= Seq::new((m - i) as nat, |k: int| i + k));
    }
}

/// The slice with no bounds and no step holds every element, in order.
pub proof fn law_full_slice(items: Seq<Val>)
    ensures
        crate::containers::pick(items, crate::containers::slice_positions(items.len() as int, Val::Null, Val::Null, Val::Null)) == items,
{
    lemma_steps_up_one(0, items.len() as int);
    assert(crate::containers::pick(items, crate::containers::slice_positions(items.len() as int, Val::Null, Val::Null, Val::Null)) =~= items);
}

} // verus!

verus! {

/// A tail call of a function object the machine made runs the callee in
/// the running frame: the number of frames and where the frame's locals
/// start stay the same, and execution goes on at the callee's body.
pub proof fn law_tail_call_keeps_depth(m: MachineModel, p: ProgramModel, a: u8)
    requires
        m.frames.len() > 0,
        crate::tailcall::tail_defined(m, p, a),
        spop(crate::steps::take_top(m.stack, crate::tailcall::tail_count(a)).0).1 is Function,
    ensures
        ({
            let (m2, s) = crate::tailcall::spec_tail_call(m, p, a);
            &&& s == StepModel::Continue
            &&& m2.frames.len() == m.frames.len()
            &&& m2.frames.last().arena_offset == m.frames.last().arena_offset
        }),
{
}

/// Storing into a list of lists at a row and a column and reading the same
/// row and column back gives the stored value, when the row is a different
/// list from the outer one.
pub proof fn law_grid_store_then_read(m: MachineModel, p: ProgramModel, a: usize, b: usize, c: usize)
    requires
        crate::machine::wf(m),
        m.frames.len() > 0,
        crate::fused::in_frame(m, a) && crate::fused::in_frame(m, b) && crate::fused::in_frame(m, c),
        local_slot(m, a) is List,
        local_slot(m, b) is Int,
        local_slot(m, c) is Int,
        norm_index(local_slot(m, a)->List_1.len() as int, local_slot(m, b)->Int_0 as int) is Some,
        ({
            let rows = local_slot(m, a)->List_1;
            let k = norm_index(rows.len() as int, local_slot(m, b)->Int_0 as int)->0;
            &&& rows[k] is List
            &&& rows[k]->List_0 != local_slot(m, a)->List_0
            &&& norm_index(rows[k]->List_1.len() as int, local_slot(m, c)->Int_0 as int) is Some
        }),
    ensures
        ({
            let (m1, s1) = crate::grid::spec_store_subscript_2d(m, p, a, b, c);
            let (m2, s2) = crate::grid::spec_subscript_2d(m1, p, a, b, c);
            &&& s1 == StepModel::Continue
            &&& s2 == StepModel::Continue
            &&& m2.stack == m1.stack.push(spop(m.stack).1)
        }),
{
    let (s, v) = spop(m.stack);
    let mm = crate::machine::with_stack(m, s);
    let rows = local_slot(m, a)->List_1;
    let oa = local_slot(m, a)->List_0;
    let k = norm_index(rows.len() as int, local_slot(m, b)->Int_0 as int)->0;
    let o2 = rows[k]->List_0;
    let row = rows[k]->List_1;
    let j = local_slot(m, c)->Int_0;
    let k2 = norm_index(row.len() as int, j as int)->0;
    let obj = Val::List(o2, row.update(k2, v));
    assert(local_slot(mm, a) == local_slot(m, a));
    assert(local_slot(mm, b) == local_slot(m, b));
    assert(local_slot(mm, c) == local_slot(m, c));
    let m1 = crate::steps::refresh_machine(mm, obj);
    assert(crate::grid::spec_store_subscript_2d(m, p, a, b, c) == (m1, StepModel::Continue));
    let f = m.frames.last();
    assert(f.arena_offset + f.arena_len <= m.arena.len());
    assert(m1.frames == m.frames);
    assert(m1.arena[f.arena_offset + a] == refresh(mm.arena[f.arena_offset + a], obj));
    assert(local_slot(m1, a) == Val::List(oa, crate::containers::refresh_all(rows, obj)));
    assert(crate::containers::refresh_all(rows, obj)[k] == obj);
    assert(m1.arena[f.arena_offset + b] == refresh(mm.arena[f.arena_offset + b], obj));
    assert(m1.arena[f.arena_offset + c] == refresh(mm.arena[f.arena_offset + c], obj));
    assert(local_slot(m1, b) == local_slot(m, b));
    assert(local_slot(m1, c) == local_slot(m, c));
}

} // verus!

verus! {

proof fn lemma_capture_keeps_frames(m: MachineModel, fv: Seq<(usize, usize)>, k: nat)
    ensures
        crate::steps::capture(m, fv, k).0.frames == m.frames,
        crate::steps::capture(m, fv, k).0.frame_depth_limit == m.frame_depth_limit,
    decreases k,
{
    if k > 0 && k <= fv.len() {
        lemma_capture_keeps_frames(m, fv, (k - 1) as nat);
    }
}

/// Running a step never takes the number of frames past the call-depth
/// limit, which no step changes: a call at the limit raises an error in
/// place of entering a frame.
#[verifier::rlimit(100)]
pub proof fn law_call_depth_within_limit(m: MachineModel, p: ProgramModel)
    requires
        m.frames.len() > 0,
        m.frames.len() <= m.frame_depth_limit,
    ensures
        spec_step(m, p).0.frame_depth_limit == m.frame_depth_limit,
        spec_step(m, p).0.frames.len() <= m.frame_depth_limit,
{
    reveal(spec_step);
    // One arm per instruction splits the proof by instruction.
    if m.ip < p.code.len() {
        match crate::machine::canonical(p.code[m.ip as int]) {
            Instr::Halt => {}
            Instr::Nop => {}
            Instr::DupTop => {}
            Instr::LoadConst(_) => {}
            Instr::LoadNone => {}
            Instr::LoadTrue => {}
            Instr::LoadFalse => {}
            Instr::PopTop => {}
            Instr::LoadFast(_) => {}
            Instr::StoreFast(_) => {}
            Instr::IncrementInt(_, _) => {}
            Instr::BinaryAdd => {}
            Instr::BinarySubtract => {}
            Instr::BinaryMultiply => {}
            Instr::BinaryDivide => {}
            Instr::BinaryFloorDivide => {}
            Instr::BinaryPower => {}
            Instr::BinaryModulo => {}
            Instr::UnaryNegative => {}
            Instr::UnaryNot => {}
            Instr::BinaryBitAnd => {}
            Instr::BinaryBitOr => {}
            Instr::BinaryBitXor => {}
            Instr::BinaryShl => {}
            Instr::BinaryShr => {}
            Instr::UnaryBitNot => {}
            Instr::CompareEq => {}
            Instr::CompareNotEq => {}
            Instr::CompareLt => {}
            Instr::CompareGt => {}
            Instr::CompareLtEq => {}
            Instr::CompareGtEq => {}
            Instr::CompareIn => {}
            Instr::CompareNotIn => {}
            Instr::CompareIs => {}
            Instr::CompareIsNot => {}
            Instr::AddLocalImm(_, _) => {}
            Instr::SubtractLocalImm(_, _) => {}
            Instr::LogicalAnd => {}
            Instr::LogicalOr => {}
            Instr::StoreName(_) => {}
            Instr::StoreGlobal(_) => {}
            Instr::LoadName(_) => {}
            Instr::LoadGlobal(_) => {}
            Instr::JumpForward(_) => {}
            Instr::JumpBackward(_) => {}
            Instr::PopJumpIfFalse(_) => {}
            Instr::PopJumpIfTrue(_) => {}
            Instr::ReturnValue => {}
            Instr::BuildList(_) => {}
            Instr::BuildTuple(_) => {}
            Instr::BuildDict(_) => {}
            Instr::BuildSet(_) => {}
            Instr::DictSetItem => {}
            Instr::Subscript => {}
            Instr::StoreSubscript => {}
            Instr::BuildSlice => {}
            Instr::ListAppend(_) => {}
            Instr::ListAppendLocal(_) => {}
            Instr::GetIter => {}
            Instr::ForIter => {}
            Instr::ForRange(_, _, _, _) => {}
            Instr::StringCoerce => {}
            Instr::SetupExcept(_) => {}
            Instr::SetupFinally(_) => {}
            Instr::EndExcept => {}
            Instr::CheckExceptionType(_) => {}
            Instr::RegisterExceptionClass(_) => {}
            Instr::Raise => {}
            Instr::StringFormat => {}
            Instr::MakeFunction(fi) => {
                lemma_capture_keeps_frames(MachineModel { ip: (m.ip + 1) as usize, ..m }, p.functions[fi as int].free_vars,
                    p.functions[fi as int].free_vars.len());
            }
            Instr::CallFunction(_) => {}
            Instr::BinaryAddIntInt => {}
            Instr::BinarySubIntInt => {}
            Instr::BinaryMulIntInt => {}
            Instr::BinaryDivIntInt => {}
            Instr::BinaryFloorDivIntInt => {}
            Instr::BinaryModIntInt => {}
            Instr::CompareLtIntInt => {}
            Instr::CompareGtIntInt => {}
            Instr::CompareEqIntInt => {}
            Instr::CompareLeIntInt => {}
            Instr::CompareGeIntInt => {}
            Instr::CompareNotEqIntInt => {}
            Instr::PopJumpIfLeLocalImm(_, _, _) => {}
            Instr::PopJumpIfLtLocalImm(_, _, _) => {}
            Instr::PopJumpIfLtLocal(_, _, _) => {}
            Instr::JumpWhileIncrementedLt(_, _, _, _, _) => {}
            Instr::ModJumpIfNotZero(_, _, _) => {}
            Instr::ModAddIfZero(_, _, _) => {}
            Instr::SubscriptLocal(_, _) => {}
            Instr::StoreSubscriptLocal(_, _) => {}
            Instr::SubscriptAddImm(_, _, _) => {}
            Instr::StoreSubscriptAddImm(_, _, _) => {}
            Instr::SwapAdjacent(_, _) => {}
            Instr::PopJumpIfSubscriptGt(_, _, _, _) => {}
            Instr::AddLocalFromStack(_) => {}
            Instr::InplaceAddStrConst(_, _) => {}
            Instr::CallMethod(_, _) => {}
            Instr::TailCall(_) => {}
            Instr::CallFunctionKw(_) => {}
            Instr::CallFunctionUnpacked(_, _, _) => {}
            Instr::CallMethodVoid(_, _) => {}
            Instr::SubscriptLocal2D(_, _, _) => {}
            Instr::StoreSubscriptLocal2D(_, _, _) => {}
            Instr::AddToSubscript2D(_, _, _, _) => {}
        }
    }
}

} // verus!

verus! {

/// Over any number of steps the number of frames stays within the
/// call-depth limit, which stays as it was.
pub proof fn law_run_depth_within_limit(m: MachineModel, p: ProgramModel, fuel: nat)
    requires
        m.frames.len() <= m.frame_depth_limit,
    ensures
        crate::runtime::spec_run(m, p, fuel).0.frame_depth_limit == m.frame_depth_limit,
        crate::runtime::spec_run(m, p, fuel).0.frames.len() <= m.frame_depth_limit,
    decreases fuel,
{
    if fuel > 0 && m.frames.len() > 0 && crate::machine::step_defined(m, p) {
        law_call_depth_within_limit(m, p);
        let (m1, s) = spec_step(m, p);
        if s is Continue {
            law_run_depth_within_limit(m1, p, (fuel - 1) as nat);
        }
    }
}

/// An error made without a line keeps no line through any number of call
/// traces put on it: each of `chain` carries the trace put on the one
/// before it, which keeps its line.
pub proof fn law_trace_keeps_no_line(chain: Seq<crate::error::RuntimeError>)
    requires
        chain.len() > 0,
        chain[0].line_view() is None,
        forall|i: int| 0 <= i < chain.len() - 1 ==> #[trigger] chain[i + 1].line_view() == chain[i].line_view(),
    ensures
        chain.last().line_view() is None,
    decreases chain.len(),
{
    if chain.len() > 1 {
        let shorter = chain.drop_last();
        assert forall|i: int| 0 <= i < shorter.len() - 1 implies #[trigger] shorter[i + 1].line_view() == shorter[i].line_view() by {
            assert(chain[i + 1].line_view() == chain[i].line_view());
        }
        law_trace_keeps_no_line(shorter);
        let k = chain.len() - 2;
        assert(chain[k + 1].line_view() == chain[k].line_view());
        assert(shorter.last() == chain[k]);
    }
}

} // verus!
