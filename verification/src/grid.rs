//! Two-dimensional list access through locals: reading, storing and adding
//! to the element at a row and a column of a list of lists.

use vstd::prelude::*;
use crate::value::{Value, Val, vals, group_value_model};
use crate::machine::{VM, MachineModel, Program, ProgramModel, Step, StepModel,
    step_model, wf, spop, with_stack, local_slot, spec_throw, spec_after};
use crate::containers::{element_at, norm_index, norm_index_exec, range_error_class, index_error_message};
use crate::ops::{FloatOp, FloatTask, wrap_add, mixed_float, float_operand, type_error_class};
use crate::steps::refresh_machine;
use crate::fused::{FloatUse, in_frame, float_then, store_into, read_type_message, store_type_message};

verus! {

broadcast use group_value_model;

/// The message when the element picked by the row index is not a list.
pub open spec fn not_a_row_message() -> Seq<char> {
    "العنصر ليس مصفوفة"@
}

/// `SubscriptLocal2D`: pushes the element at row `local b`, column
/// `local c` of the list of lists in local `a`.
pub open spec fn spec_subscript_2d(m: MachineModel, p: ProgramModel, a: usize, b: usize, c: usize) -> (MachineModel, StepModel) {
    if !(in_frame(m, a) && in_frame(m, b) && in_frame(m, c)) {
        (m, StepModel::Continue)
    } else {
        match (local_slot(m, a), local_slot(m, b), local_slot(m, c)) {
            (Val::List(_, rows), Val::Int(i), Val::Int(j)) => match norm_index(rows.len() as int, i as int) {
                Some(k) => match rows[k] {
                    Val::List(_, row) => spec_after(m, p, element_at(row, j)),
                    _ => spec_throw(m, p, type_error_class(), not_a_row_message()),
                },
                None => spec_throw(m, p, range_error_class(), index_error_message()),
            },
            _ => spec_throw(m, p, type_error_class(), read_type_message()),
        }
    }
}

/// `StoreSubscriptLocal2D`: pops a value and stores it at row `local b`,
/// column `local c` of the list of lists in local `a`; every holder of the
/// row sees the change.
pub open spec fn spec_store_subscript_2d(m: MachineModel, p: ProgramModel, a: usize, b: usize, c: usize) -> (MachineModel, StepModel) {
    let (s, v) = spop(m.stack);
    let m2 = with_stack(m, s);
    if !(in_frame(m2, a) && in_frame(m2, b) && in_frame(m2, c)) {
        (m2, StepModel::Continue)
    } else {
        match (local_slot(m2, a), local_slot(m2, b), local_slot(m2, c)) {
            (Val::List(_, rows), Val::Int(i), Val::Int(j)) => match norm_index(rows.len() as int, i as int) {
                Some(k) => if rows[k] is List {
                    store_into(m2, p, rows[k], Val::Int(j), v)
                } else {
                    spec_throw(m2, p, type_error_class(), not_a_row_message())
                },
                None => spec_throw(m2, p, range_error_class(), index_error_message()),
            },
            _ => spec_throw(m2, p, type_error_class(), store_type_message()),
        }
    }
}

/// The sum stored by `AddToSubscript2D` when neither operand is a float:
/// the wrapped sum of two integers, otherwise null.
pub open spec fn grid_sum(x: Val, y: Val) -> Val {
    match (x, y) {
        (Val::Int(i), Val::Int(j)) => Val::Int(wrap_add(i, j)),
        _ => Val::Null,
    }
}

/// The machine after the element at row `local b`, column `local c` of
/// the list of lists in local `a` is replaced by `v`, when that element exists.
pub open spec fn put_2d(m: MachineModel, a: usize, b: usize, c: usize, v: Val) -> MachineModel {
    if !(in_frame(m, a) && in_frame(m, b) && in_frame(m, c)) {
        m
    } else {
        match (local_slot(m, a), local_slot(m, b), local_slot(m, c)) {
            (Val::List(_, rows), Val::Int(i), Val::Int(j)) => match norm_index(rows.len() as int, i as int) {
                Some(k) => match rows[k] {
                    Val::List(o, row) => match norm_index(row.len() as int, j as int) {
                        Some(k2) => refresh_machine(m, Val::List(o, row.update(k2, v))),
                        None => m,
                    },
                    _ => m,
                },
                None => m,
            },
            _ => m,
        }
    }
}

/// `AddToSubscript2D`: adds local `d` to the element at row `local b`,
/// column `local c` of the list of lists in local `a`.  A sum with a float
/// is handed out and stored on return.
pub open spec fn spec_add_to_subscript_2d(m: MachineModel, p: ProgramModel, a: usize, b: usize, c: usize, d: usize) -> (MachineModel, StepModel) {
    if !(in_frame(m, a) && in_frame(m, b) && in_frame(m, c) && in_frame(m, d)) {
        (m, StepModel::Continue)
    } else {
        match (local_slot(m, a), local_slot(m, b), local_slot(m, c)) {
            (Val::List(_, rows), Val::Int(i), Val::Int(j)) => match norm_index(rows.len() as int, i as int) {
                Some(k) => match rows[k] {
                    Val::List(o, row) => match norm_index(row.len() as int, j as int) {
                        Some(k2) => {
                            let x = row[k2];
                            let y = local_slot(m, d);
                            if mixed_float(x, y) {
                                float_then(m, FloatOp::Add, float_operand(x), float_operand(y), FloatUse::StoreElement(a, b, c))
                            } else {
                                (refresh_machine(m, Val::List(o, row.update(k2, grid_sum(x, y)))), StepModel::Continue)
                            }
                        },
                        None => spec_throw(m, p, range_error_class(), index_error_message()),
                    },
                    _ => spec_throw(m, p, type_error_class(), not_a_row_message()),
                },
                None => spec_throw(m, p, range_error_class(), index_error_message()),
            },
            _ => spec_throw(m, p, type_error_class(), read_type_message()),
        }
    }
}

// ---------------------------------------------------------------- execution

impl VM {
    /// Executes `SubscriptLocal2D(a, b, c)`.
    pub(crate) fn subscript_2d(&mut self, p: &Program, a: usize, b: usize, c: usize) -> (s: Step)
        requires
            wf(old(self)@),
            old(self)@.frames.len() > 0,
        ensures
            (final(self)@, step_model(s)) == spec_subscript_2d(old(self)@, p@, a, b, c),
            wf(final(self)@),
    {
        if !(self.in_frame_exec(a) && self.in_frame_exec(b) && self.in_frame_exec(c)) {
            return Step::Continue;
        }
        let lst = self.local_raw(a);
        let x = self.local_raw(b);
        let y = self.local_raw(c);
        match (&lst, &x, &y) {
            (Value::List(l), Value::Integer(i), Value::Integer(j)) => {
                proof { assert(vals(l.items@).len() == l.items@.len()); }
                match norm_index_exec(l.items.len(), *i) {
                    Some(k) => {
                        let row = l.items[k].duplicate();
                        match &row {
                            Value::List(_) => {
                                let o = crate::containers::subscript(&row, &Value::Integer(*j), 0);
                                self.after(p, o)
                            }
                            _ => self.throw(p, "استثناء_نوع", crate::text::str_to_chars("العنصر ليس مصفوفة")),
                        }
                    }
                    None => self.throw(p, "استثناء_نطاق", crate::text::str_to_chars("فهرس خارج النطاق")),
                }
            }
            _ => self.throw(p, "استثناء_نوع", crate::text::str_to_chars("غير قادر على الوصول بالفهرس")),
        }
    }

    /// Executes `StoreSubscriptLocal2D(a, b, c)`.
    pub(crate) fn store_subscript_2d(&mut self, p: &Program, a: usize, b: usize, c: usize) -> (s: Step)
        requires
            wf(old(self)@),
            old(self)@.frames.len() > 0,
        ensures
            (final(self)@, step_model(s)) == spec_store_subscript_2d(old(self)@, p@, a, b, c),
            wf(final(self)@),
    {
        let v = self.pop_value();
        if !(self.in_frame_exec(a) && self.in_frame_exec(b) && self.in_frame_exec(c)) {
            return Step::Continue;
        }
        let ghost m = self@;
        let lst = self.local_raw(a);
        let x = self.local_raw(b);
        let y = self.local_raw(c);
        match (&lst, &x, &y) {
            (Value::List(l), Value::Integer(i), Value::Integer(j)) => {
                proof { assert(vals(l.items@).len() == l.items@.len()); }
                match norm_index_exec(l.items.len(), *i) {
                    Some(k) => {
                        let row = l.items[k].duplicate();
                        let is_row = match &row {
                            Value::List(_) => true,
                            _ => false,
                        };
                        if is_row {
                            self.store_into_exec(p, row, Value::Integer(*j), v)
                        } else {
                            let s = self.throw(p, "استثناء_نوع", crate::text::str_to_chars("العنصر ليس مصفوفة"));
                            proof { crate::steps::lemma_throw_keeps_layout(m, p@, type_error_class(), not_a_row_message()); }
                            s
                        }
                    }
                    None => {
                        let s = self.throw(p, "استثناء_نطاق", crate::text::str_to_chars("فهرس خارج النطاق"));
                        proof { crate::steps::lemma_throw_keeps_layout(m, p@, range_error_class(), index_error_message()); }
                        s
                    }
                }
            }
            _ => {
                let s = self.throw(p, "استثناء_نوع", crate::text::str_to_chars("غير قادر على التخزين بالفهرس"));
                proof { crate::steps::lemma_throw_keeps_layout(m, p@, type_error_class(), store_type_message()); }
                s
            }
        }
    }

    /// Finds the row and column that local `a`, `b` and `c` name: the row
    /// list and the column's position in it.
    fn grid_target(&self, a: usize, b: usize, c: usize) -> (r: Option<(Value, usize)>)
        requires
            wf(self@),
            self@.frames.len() > 0,
            in_frame(self@, a) && in_frame(self@, b) && in_frame(self@, c),
        ensures
            match r {
                Some((row, k2)) => match (local_slot(self@, a), local_slot(self@, b), local_slot(self@, c)) {
                    (Val::List(_, rows), Val::Int(i), Val::Int(j)) => match norm_index(rows.len() as int, i as int) {
                        Some(k) => row@ == rows[k] && (match rows[k] {
                            Val::List(_, items) => norm_index(items.len() as int, j as int) == Some(k2 as int),
                            _ => false,
                        }),
                        None => false,
                    },
                    _ => false,
                },
                None => put_2d(self@, a, b, c, Val::Null) == self@ && forall|v: Val| put_2d(self@, a, b, c, v) == self@,
            },
    {
        let lst = self.local_raw(a);
        let x = self.local_raw(b);
        let y = self.local_raw(c);
        match (&lst, &x, &y) {
            (Value::List(l), Value::Integer(i), Value::Integer(j)) => {
                proof { assert(vals(l.items@).len() == l.items@.len()); }
                match norm_index_exec(l.items.len(), *i) {
                    Some(k) => {
                        let row = l.items[k].duplicate();
                        let pos = match &row {
                            Value::List(r) => {
                                proof { assert(vals(r.items@).len() == r.items@.len()); }
                                norm_index_exec(r.items.len(), *j)
                            }
                            _ => None,
                        };
                        match pos {
                            Some(k2) => Some((row, k2)),
                            None => None,
                        }
                    }
                    None => None,
                }
            }
            _ => None,
        }
    }

    /// Replaces the element at row `local b`, column `local c` of the list
    /// of lists in local `a` by `v`, when that element exists.
    pub(crate) fn put_2d_exec(&mut self, a: usize, b: usize, c: usize, v: Value)
        requires
            wf(old(self)@),
            old(self)@.frames.len() > 0,
        ensures
            final(self)@ == put_2d(old(self)@, a, b, c, v@),
            wf(final(self)@),
    {
        if !(self.in_frame_exec(a) && self.in_frame_exec(b) && self.in_frame_exec(c)) {
            return;
        }
        let ghost m = self@;
        match self.grid_target(a, b, c) {
            Some((row, k2)) => match row {
                Value::List(r) => {
                    let ghost before = vals(r.items@);
                    let ghost vm = v@;
                    let oid = r.oid;
                    let mut items = r.items;
                    items.set(k2, v);
                    assert(vals(items@) =~= before.update(k2 as int, vm));
                    let nl = Value::List(crate::value::ListObj { oid, items });
                    self.refresh_holders(&nl);
                    proof { crate::steps::lemma_refresh_keeps_layout(m, nl@); }
                }
                _ => {}
            },
            None => {}
        }
    }

    /// Executes `AddToSubscript2D(a, b, c, d)`.
    pub(crate) fn add_to_subscript_2d(&mut self, p: &Program, a: usize, b: usize, c: usize, d: usize) -> (s: Step)
        requires
            wf(old(self)@),
            old(self)@.frames.len() > 0,
        ensures
            (final(self)@, step_model(s)) == spec_add_to_subscript_2d(old(self)@, p@, a, b, c, d),
            wf(final(self)@),
    {
        if !(self.in_frame_exec(a) && self.in_frame_exec(b) && self.in_frame_exec(c) && self.in_frame_exec(d)) {
            return Step::Continue;
        }
        let ghost m = self@;
        let lst = self.local_raw(a);
        let x = self.local_raw(b);
        let y = self.local_raw(c);
        let addend = self.local_raw(d);
        match (&lst, &x, &y) {
            (Value::List(l), Value::Integer(i), Value::Integer(j)) => {
                proof { assert(vals(l.items@).len() == l.items@.len()); }
                match norm_index_exec(l.items.len(), *i) {
                    Some(k) => {
                        let row = l.items[k].duplicate();
                        match row {
                            Value::List(r) => {
                                proof { assert(vals(r.items@).len() == r.items@.len()); }
                                match norm_index_exec(r.items.len(), *j) {
                                    Some(k2) => {
                                        let old_val = r.items[k2].duplicate();
                                        if crate::ops::is_mixed_float(&old_val, &addend) {
                                            let lo = crate::ops::operand_of(&old_val);
                                            let ro = crate::ops::operand_of(&addend);
                                            return Step::FloatThen(FloatTask { op: FloatOp::Add, lhs: lo, rhs: ro }, FloatUse::StoreElement(a, b, c));
                                        }
                                        let sum = match (&old_val, &addend) {
                                            (Value::Integer(u), Value::Integer(w)) => Value::Integer(u.wrapping_add(*w)),
                                            _ => Value::Null,
                                        };
                                        let ghost before = vals(r.items@);
                                        let ghost sm = sum@;
                                        let oid = r.oid;
                                        let mut items = r.items;
                                        items.set(k2, sum);
                                        assert(vals(items@) =~= before.update(k2 as int, sm));
                                        let nl = Value::List(crate::value::ListObj { oid, items });
                                        self.refresh_holders(&nl);
                                        proof { crate::steps::lemma_refresh_keeps_layout(m, nl@); }
                                        Step::Continue
                                    }
                                    None => self.throw(p, "استثناء_نطاق", crate::text::str_to_chars("فهرس خارج النطاق")),
                                }
                            }
                            _ => self.throw(p, "استثناء_نوع", crate::text::str_to_chars("العنصر ليس مصفوفة")),
                        }
                    }
                    None => self.throw(p, "استثناء_نطاق", crate::text::str_to_chars("فهرس خارج النطاق")),
                }
            }
            _ => self.throw(p, "استثناء_نوع", crate::text::str_to_chars("غير قادر على الوصول بالفهرس")),
        }
    }
}

} // verus!
