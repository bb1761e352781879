//! Operators and comparisons on runtime values, as the machine's arithmetic,
//! comparison, membership and identity instructions apply them.
//!
//! Integer arithmetic wraps on overflow.  Wherever a float takes part, the
//! operation is handed back as a [`FloatTask`]: the caller performs the IEEE
//! computation.  Errors come back either as `Raise` (an exception that a
//! handler of the running frame may catch) or as `Fatal` (returned to the
//! caller of the machine directly).

use vstd::prelude::*;
use crate::value::{Value, Val, ListObj, vals, float_is_nan, group_value_model, duplicate_items};
use crate::error::RuntimeError;
use crate::text::{str_to_chars, chars_to_string, extend_chars};

verus! {

broadcast use group_value_model;

// ---------------------------------------------------------------- floats

/// The float's position on the real line (signed magnitude of its bits);
/// both zeros map to 0.  Meaningful for non-NaN patterns.
pub open spec fn float_key(bits: u64) -> int {
    let m = (bits % 0x8000_0000_0000_0000) as int;
    if bits >= 0x8000_0000_0000_0000 { -m } else { m }
}

/// IEEE equality of two float bit patterns.
pub open spec fn float_eq(a: u64, b: u64) -> bool {
    !float_is_nan(a) && !float_is_nan(b) && float_key(a) == float_key(b)
}

/// IEEE `<` of two float bit patterns.
pub open spec fn float_lt(a: u64, b: u64) -> bool {
    !float_is_nan(a) && !float_is_nan(b) && float_key(a) < float_key(b)
}

pub fn is_nan_bits(bits: u64) -> (r: bool)
    ensures
        r == float_is_nan(bits),
{
    let e = (bits >> 52u64) & 0x7ffu64;
    let m = bits & 0xf_ffff_ffff_ffffu64;
    assert(e == (bits / 0x10_0000_0000_0000) % 0x800) by (bit_vector)
        requires e == (bits >> 52u64) & 0x7ffu64;
    assert(m == bits % 0x10_0000_0000_0000) by (bit_vector)
        requires m == bits & 0xf_ffff_ffff_ffffu64;
    e == 0x7ff && m != 0
}

fn float_key_exec(bits: u64) -> (k: i128)
    ensures
        k as int == float_key(bits),
{
    let m = bits & 0x7fff_ffff_ffff_ffffu64;
    assert(m == bits % 0x8000_0000_0000_0000) by (bit_vector)
        requires m == bits & 0x7fff_ffff_ffff_ffffu64;
    if bits >= 0x8000_0000_0000_0000u64 {
        -(m as i128)
    } else {
        m as i128
    }
}

pub fn float_eq_exec(a: u64, b: u64) -> (r: bool)
    ensures
        r == float_eq(a, b),
{
    !is_nan_bits(a) && !is_nan_bits(b) && float_key_exec(a) == float_key_exec(b)
}

pub fn float_lt_exec(a: u64, b: u64) -> (r: bool)
    ensures
        r == float_lt(a, b),
{
    !is_nan_bits(a) && !is_nan_bits(b) && float_key_exec(a) < float_key_exec(b)
}

// ---------------------------------------------------------------- text

/// Lexicographic order of character sequences (the order of their UTF-8 bytes).
pub open spec fn chars_lt(a: Seq<char>, b: Seq<char>) -> bool
    decreases a.len(),
{
    if a.len() == 0 {
        b.len() > 0
    } else if b.len() == 0 {
        false
    } else if a[0] != b[0] {
        (a[0] as u32) < (b[0] as u32)
    } else {
        chars_lt(a.drop_first(), b.drop_first())
    }
}

pub fn chars_lt_exec(a: &Vec<char>, b: &Vec<char>) -> (r: bool)
    ensures
        r == chars_lt(a@, b@),
{
    let mut i: usize = 0;
    assert(a@.skip(0) =~= a@);
    assert(b@.skip(0) =~= b@);
    while i < a.len() && i < b.len() && a[i] == b[i]
        invariant
            i <= a@.len(),
            i <= b@.len(),
            chars_lt(a@, b@) == chars_lt(a@.skip(i as int), b@.skip(i as int)),
        decreases a@.len() - i,
    {
        proof {
            assert(a@.skip(i as int).drop_first() =~= a@.skip(i + 1));
            assert(b@.skip(i as int).drop_first() =~= b@.skip(i + 1));
        }
        i = i + 1;
    }
    let ghost sa = a@.skip(i as int);
    let ghost sb = b@.skip(i as int);
    if i == a.len() {
        assert(sa.len() == 0);
        i < b.len()
    } else if i == b.len() {
        assert(sb.len() == 0);
        false
    } else {
        assert(sa[0] == a@[i as int] && sb[0] == b@[i as int]);
        (a[i] as u32) < (b[i] as u32)
    }
}

/// Whether `sub` occurs in `s` as a contiguous run.
pub open spec fn chars_contain(s: Seq<char>, sub: Seq<char>) -> bool {
    exists|k: int| 0 <= k && k + sub.len() <= s.len() && #[trigger] s.subrange(k, k + sub.len()) == sub
}

fn occurs_at(s: &Vec<char>, sub: &Vec<char>, k: usize) -> (r: bool)
    requires
        k + sub@.len() <= s@.len(),
    ensures
        r == (s@.subrange(k as int, k + sub@.len()) == sub@),
{
    let mut j: usize = 0;
    while j < sub.len()
        invariant
            k + sub@.len() <= s@.len(),
            s@.len() == s.len(),
            j <= sub@.len(),
            forall|t: int| 0 <= t < j ==> s@[k + t] == sub@[t],
        decreases sub@.len() - j,
    {
        let idx = k + j;
        if s[idx] != sub[j] {
            assert(s@.subrange(k as int, k + sub@.len())[j as int] != sub@[j as int]);
            return false;
        }
        j = j + 1;
    }
    assert(s@.subrange(k as int, k + sub@.len()) =~= sub@);
    true
}

pub fn chars_contain_exec(s: &Vec<char>, sub: &Vec<char>) -> (r: bool)
    ensures
        r == chars_contain(s@, sub@),
{
    if sub.len() > s.len() {
        return false;
    }
    let last = s.len() - sub.len();
    let mut k: usize = 0;
    loop
        invariant
            last == s@.len() - sub@.len(),
            k <= last,
            forall|t: int| 0 <= t < k ==> #[trigger] s@.subrange(t, t + sub@.len()) != sub@,
        decreases last - k,
    {
        if occurs_at(s, sub, k) {
            return true;
        }
        if k == last {
            return false;
        }
        k = k + 1;
    }
}

// ---------------------------------------------------------------- equality

/// Structural equality as `==` and membership use it.
pub open spec fn val_eq(a: Val, b: Val) -> bool
    decreases a, 0int,
{
    match (a, b) {
        (Val::Int(x), Val::Int(y)) => x == y,
        (Val::Float(x, _), Val::Float(y, _)) => float_eq(x, y),
        (Val::Str(x), Val::Str(y)) => x == y,
        (Val::Bool(x), Val::Bool(y)) => x == y,
        (Val::Null, Val::Null) => true,
        (Val::Tuple(_, xs), Val::Tuple(_, ys)) => xs.len() == ys.len()
            && forall|i: int| 0 <= i < xs.len() ==> val_eq(xs[i], ys[i]),
        (Val::List(_, xs), Val::List(_, ys)) => xs.len() == ys.len()
            && forall|i: int| 0 <= i < xs.len() ==> val_eq(xs[i], ys[i]),
        (Val::Dict(_, xs), Val::Dict(_, ys)) => xs.len() == ys.len() && all_pairs_found(xs, ys),
        (Val::SetVal(_, xs), Val::SetVal(_, ys)) => xs.len() == ys.len() && all_found(xs, ys),
        _ => false,
    }
}

/// Whether `x` equals some element of `ys` (with `x` on the left).
pub open spec fn found_in(x: Val, ys: Seq<Val>) -> bool
    decreases x, ys.len() + 1,
{
    if ys.len() == 0 {
        false
    } else {
        found_in(x, ys.subrange(0, ys.len() - 1)) || val_eq(x, ys[ys.len() - 1])
    }
}

/// Whether every element of `xs` equals some element of `ys`.
pub open spec fn all_found(xs: Seq<Val>, ys: Seq<Val>) -> bool
    decreases xs, 0int,
{
    if xs.len() == 0 {
        true
    } else {
        all_found(xs.subrange(0, xs.len() - 1), ys) && found_in(xs[xs.len() - 1], ys)
    }
}

/// Whether the pair `p` matches some pair of `ys`, key with key and value with value.
pub open spec fn pair_found(p: (Val, Val), ys: Seq<(Val, Val)>) -> bool
    decreases p, ys.len() + 1,
{
    if ys.len() == 0 {
        false
    } else {
        pair_found(p, ys.subrange(0, ys.len() - 1))
            || (val_eq(p.0, ys[ys.len() - 1].0) && val_eq(p.1, ys[ys.len() - 1].1))
    }
}

/// Whether every pair of `xs` matches some pair of `ys`.
pub open spec fn all_pairs_found(xs: Seq<(Val, Val)>, ys: Seq<(Val, Val)>) -> bool
    decreases xs, 0int,
{
    if xs.len() == 0 {
        true
    } else {
        all_pairs_found(xs.subrange(0, xs.len() - 1), ys) && pair_found(xs[xs.len() - 1], ys)
    }
}

/// Whether some element of `items` equals `x` (element on the left).
pub open spec fn seq_has(items: Seq<Val>, x: Val) -> bool {
    exists|j: int| 0 <= j < items.len() && val_eq(items[j], x)
}

/// Whether some element of `items` equals `x`.
pub fn items_have(items: &Vec<Value>, x: &Value) -> (r: bool)
    ensures
        r == seq_has(vals(items@), x@),
    decreases items@, 0int,
{
    let mut j: usize = 0;
    while j < items.len()
        invariant
            j <= items@.len(),
            forall|t: int| 0 <= t < j ==> !val_eq(vals(items@)[t], x@),
        decreases items@.len() - j,
    {
        proof { assert(decreases_to!(items@ => items@[j as int])); }
        if values_equal(&items[j], x) {
            assert(val_eq(vals(items@)[j as int], x@));
            return true;
        }
        j = j + 1;
    }
    false
}

fn items_pairwise_equal(xs: &Vec<Value>, ys: &Vec<Value>) -> (r: bool)
    requires
        xs@.len() == ys@.len(),
    ensures
        r == forall|i: int| 0 <= i < xs@.len() ==> val_eq(vals(xs@)[i], vals(ys@)[i]),
    decreases xs@, 0int,
{
    let mut i: usize = 0;
    while i < xs.len()
        invariant
            xs@.len() == ys@.len(),
            i <= xs@.len(),
            forall|t: int| 0 <= t < i ==> val_eq(vals(xs@)[t], vals(ys@)[t]),
        decreases xs@.len() - i,
    {
        proof { assert(decreases_to!(xs@ => xs@[i as int])); }
        if !values_equal(&xs[i], &ys[i]) {
            assert(!val_eq(vals(xs@)[i as int], vals(ys@)[i as int]));
            return false;
        }
        i = i + 1;
    }
    true
}

/// Whether `x` equals some element of `ys`.
fn equal_in(x: &Value, ys: &Vec<Value>) -> (r: bool)
    ensures
        r == found_in(x@, vals(ys@)),
    decreases x, ys@.len() + 2,
{
    let ghost ms = vals(ys@);
    let mut r = false;
    let mut j: usize = 0;
    while j < ys.len()
        invariant
            ms == vals(ys@),
            j <= ys@.len(),
            r == found_in(x@, ms.subrange(0, j as int)),
        decreases ys@.len() - j,
    {
        let e = values_equal(x, &ys[j]);
        proof {
            let next = ms.subrange(0, j + 1);
            assert(next.subrange(0, j as int) =~= ms.subrange(0, j as int));
            assert(next[j as int] == ys@[j as int]@);
        }
        r = r || e;
        j = j + 1;
    }
    assert(ms.subrange(0, ys@.len() as int) =~= ms);
    r
}

fn items_each_found(xs: &Vec<Value>, ys: &Vec<Value>) -> (r: bool)
    ensures
        r == all_found(vals(xs@), vals(ys@)),
    decreases xs@, 0int,
{
    let ghost ms = vals(xs@);
    let mut r = true;
    let mut i: usize = 0;
    while i < xs.len()
        invariant
            ms == vals(xs@),
            i <= xs@.len(),
            r == all_found(ms.subrange(0, i as int), vals(ys@)),
        decreases xs@.len() - i,
    {
        proof { assert(decreases_to!(xs@ => xs@[i as int])); }
        let f = equal_in(&xs[i], ys);
        proof {
            let next = ms.subrange(0, i + 1);
            assert(next.subrange(0, i as int) =~= ms.subrange(0, i as int));
            assert(next[i as int] == xs@[i as int]@);
        }
        r = r && f;
        i = i + 1;
    }
    assert(ms.subrange(0, xs@.len() as int) =~= ms);
    r
}

/// Whether the pair `p` matches some pair of `ys`.
fn pair_in(p: &(Value, Value), ys: &Vec<(Value, Value)>) -> (r: bool)
    ensures
        r == pair_found((p.0@, p.1@), crate::value::val_pairs(ys@)),
    decreases p, ys@.len() + 2,
{
    let ghost py = crate::value::val_pairs(ys@);
    let mut r = false;
    let mut j: usize = 0;
    while j < ys.len()
        invariant
            py == crate::value::val_pairs(ys@),
            j <= ys@.len(),
            r == pair_found((p.0@, p.1@), py.subrange(0, j as int)),
        decreases ys@.len() - j,
    {
        let e = values_equal(&p.0, &ys[j].0) && values_equal(&p.1, &ys[j].1);
        proof {
            let next = py.subrange(0, j + 1);
            assert(next.subrange(0, j as int) =~= py.subrange(0, j as int));
            assert(next[j as int] == (ys@[j as int].0@, ys@[j as int].1@));
        }
        r = r || e;
        j = j + 1;
    }
    assert(py.subrange(0, ys@.len() as int) =~= py);
    r
}

fn pairs_each_found(xs: &Vec<(Value, Value)>, ys: &Vec<(Value, Value)>) -> (r: bool)
    ensures
        r == all_pairs_found(crate::value::val_pairs(xs@), crate::value::val_pairs(ys@)),
    decreases xs@, 0int,
{
    let ghost px = crate::value::val_pairs(xs@);
    let mut r = true;
    let mut i: usize = 0;
    while i < xs.len()
        invariant
            px == crate::value::val_pairs(xs@),
            i <= xs@.len(),
            r == all_pairs_found(px.subrange(0, i as int), crate::value::val_pairs(ys@)),
        decreases xs@.len() - i,
    {
        proof { assert(decreases_to!(xs@ => xs@[i as int])); }
        let f = pair_in(&xs[i], ys);
        proof {
            let next = px.subrange(0, i + 1);
            assert(next.subrange(0, i as int) =~= px.subrange(0, i as int));
            assert(next[i as int] == (xs@[i as int].0@, xs@[i as int].1@));
        }
        r = r && f;
        i = i + 1;
    }
    assert(px.subrange(0, xs@.len() as int) =~= px);
    r
}

/// Structural equality of two values.
pub fn values_equal(a: &Value, b: &Value) -> (r: bool)
    ensures
        r == val_eq(a@, b@),
    decreases a, 1int,
{
    match (a, b) {
        (Value::Integer(x), Value::Integer(y)) => *x == *y,
        (Value::Float(x), Value::Float(y)) => float_eq_exec(x.bits, y.bits),
        (Value::String(x), Value::String(y)) => crate::text::chars_eq(x, y),
        (Value::Boolean(x), Value::Boolean(y)) => *x == *y,
        (Value::Null, Value::Null) => true,
        (Value::Tuple(x), Value::Tuple(y)) => {
            assert(vals(x.items@).len() == x.items@.len() && vals(y.items@).len() == y.items@.len());
            let r = x.items.len() == y.items.len() && items_pairwise_equal(&x.items, &y.items);
            assert(r == val_eq(a@, b@));
            r
        }
        (Value::List(x), Value::List(y)) => {
            assert(vals(x.items@).len() == x.items@.len() && vals(y.items@).len() == y.items@.len());
            let r = x.items.len() == y.items.len() && items_pairwise_equal(&x.items, &y.items);
            assert(r == val_eq(a@, b@));
            r
        }
        (Value::Dict(x), Value::Dict(y)) => {
            assert(crate::value::val_pairs(x.pairs@).len() == x.pairs@.len() && crate::value::val_pairs(y.pairs@).len() == y.pairs@.len());
            let r = x.pairs.len() == y.pairs.len() && pairs_each_found(&x.pairs, &y.pairs);
            assert(r == val_eq(a@, b@));
            r
        }
        (Value::SetVal(x), Value::SetVal(y)) => {
            assert(vals(x.items@).len() == x.items@.len() && vals(y.items@).len() == y.items@.len());
            let r = x.items.len() == y.items.len() && items_each_found(&x.items, &y.items);
            assert(r == val_eq(a@, b@));
            r
        }
        _ => false,
    }
}


// ---------------------------------------------------------------- order and identity

/// `<` as the comparison instructions apply it: numbers of one kind and text.
pub open spec fn val_lt(a: Val, b: Val) -> bool {
    match (a, b) {
        (Val::Int(x), Val::Int(y)) => x < y,
        (Val::Float(x, _), Val::Float(y, _)) => float_lt(x, y),
        (Val::Str(x), Val::Str(y)) => chars_lt(x, y),
        _ => false,
    }
}

/// `>` as the comparison instructions apply it.
pub open spec fn val_gt(a: Val, b: Val) -> bool {
    match (a, b) {
        (Val::Int(x), Val::Int(y)) => x > y,
        (Val::Float(x, _), Val::Float(y, _)) => float_lt(y, x),
        (Val::Str(x), Val::Str(y)) => chars_lt(y, x),
        _ => false,
    }
}

pub fn less_than(a: &Value, b: &Value) -> (r: bool)
    ensures
        r == val_lt(a@, b@),
{
    match (a, b) {
        (Value::Integer(x), Value::Integer(y)) => *x < *y,
        (Value::Float(x), Value::Float(y)) => float_lt_exec(x.bits, y.bits),
        (Value::String(x), Value::String(y)) => chars_lt_exec(x, y),
        _ => false,
    }
}

pub fn greater_than(a: &Value, b: &Value) -> (r: bool)
    ensures
        r == val_gt(a@, b@),
{
    match (a, b) {
        (Value::Integer(x), Value::Integer(y)) => *x > *y,
        (Value::Float(x), Value::Float(y)) => float_lt_exec(y.bits, x.bits),
        (Value::String(x), Value::String(y)) => chars_lt_exec(y, x),
        _ => false,
    }
}

/// Identity (`is`): numbers, booleans and null by value (floats by bit
/// pattern), text by content, containers and reference kinds by identity.
pub open spec fn val_identical(a: Val, b: Val) -> bool {
    match (a, b) {
        (Val::Int(x), Val::Int(y)) => x == y,
        (Val::Float(x, _), Val::Float(y, _)) => x == y,
        (Val::Bool(x), Val::Bool(y)) => x == y,
        (Val::Null, Val::Null) => true,
        (Val::Str(x), Val::Str(y)) => x == y,
        (Val::List(x, _), Val::List(y, _)) => x == y,
        (Val::Dict(x, _), Val::Dict(y, _)) => x == y,
        (Val::SetVal(x, _), Val::SetVal(y, _)) => x == y,
        (Val::Tuple(x, _), Val::Tuple(y, _)) => x == y,
        (Val::Instance(x, _), Val::Instance(y, _)) => x == y,
        (Val::Function(x, _), Val::Function(y, _)) => x == y,
        (Val::Cell(x, _), Val::Cell(y, _)) => x == y,
        (Val::Generator(x, _), Val::Generator(y, _)) => x == y,
        (Val::File(x, _), Val::File(y, _)) => x == y,
        _ => false,
    }
}

pub fn is_identical(a: &Value, b: &Value) -> (r: bool)
    ensures
        r == val_identical(a@, b@),
{
    match (a, b) {
        (Value::Integer(x), Value::Integer(y)) => *x == *y,
        (Value::Float(x), Value::Float(y)) => x.bits == y.bits,
        (Value::Boolean(x), Value::Boolean(y)) => *x == *y,
        (Value::Null, Value::Null) => true,
        (Value::String(x), Value::String(y)) => crate::text::chars_eq(x, y),
        (Value::List(x), Value::List(y)) => x.oid == y.oid,
        (Value::Dict(x), Value::Dict(y)) => x.oid == y.oid,
        (Value::SetVal(x), Value::SetVal(y)) => x.oid == y.oid,
        (Value::Tuple(x), Value::Tuple(y)) => x.oid == y.oid,
        (Value::Instance(x), Value::Instance(y)) => x.oid == y.oid,
        (Value::Function(x), Value::Function(y)) => x.oid == y.oid,
        (Value::Cell(x), Value::Cell(y)) => x.oid == y.oid,
        (Value::Generator(x), Value::Generator(y)) => x.oid == y.oid,
        (Value::File(x), Value::File(y)) => x.oid == y.oid,
        _ => false,
    }
}

// ---------------------------------------------------------------- outcomes

/// A float operand: an integer to be converted, or a float's bit pattern.
#[derive(Debug, PartialEq, Clone, Copy)]
pub enum FloatOperand {
    Int(i64),
    Bits(u64),
}

/// The IEEE operation a float task asks for.  `FloorDivToInt` is the floor of
/// the quotient converted to an integer; `FloorDiv` keeps it a float; `Neg`
/// uses only the left operand.  `Lt`, `Le` and `RemIsZero` (whether the
/// remainder is zero) give a boolean; `TruncToInt` gives the left operand
/// truncated to an integer (saturating, NaN giving 0).
#[derive(Debug, PartialEq, Clone, Copy)]
pub enum FloatOp {
    Add,
    Sub,
    Mul,
    Div,
    FloorDiv,
    FloorDivToInt,
    Pow,
    Mod,
    Neg,
    Lt,
    Le,
    RemIsZero,
    TruncToInt,
}

/// A float computation handed back to the caller.
#[derive(Debug, PartialEq, Clone, Copy)]
pub struct FloatTask {
    pub op: FloatOp,
    pub lhs: FloatOperand,
    pub rhs: FloatOperand,
}

/// The result of applying an operator.
#[derive(Debug)]
pub enum Outcome {
    Value(Value),
    Float(FloatTask),
    Raise(RuntimeError),
    Fatal(RuntimeError),
}

/// The model of an outcome; errors by class and message.
pub enum OutcomeModel {
    Value(Val),
    Float(FloatTask),
    Raise(Seq<char>, Seq<char>),
    Fatal(Seq<char>, Seq<char>),
}

pub open spec fn outcome_model(o: Outcome) -> OutcomeModel {
    match o {
        Outcome::Value(v) => OutcomeModel::Value(v@),
        Outcome::Float(t) => OutcomeModel::Float(t),
        Outcome::Raise(e) => OutcomeModel::Raise(e.class_view(), e.message_view()),
        Outcome::Fatal(e) => OutcomeModel::Fatal(e.class_view(), e.message_view()),
    }
}

pub open spec fn type_error_class() -> Seq<char> {
    "استثناء_نوع"@
}

pub open spec fn zero_division_class() -> Seq<char> {
    "استثناء_قسمة"@
}

pub open spec fn zero_division_message() -> Seq<char> {
    "القسمة على صفر"@
}

pub(crate) fn raise(class_name: &str, message: &str) -> (o: Outcome)
    ensures
        outcome_model(o) == OutcomeModel::Raise(class_name@, message@),
{
    let c = chars_to_string(&str_to_chars(class_name));
    let m = chars_to_string(&str_to_chars(message));
    Outcome::Raise(RuntimeError::new_typed(c, m))
}

fn fatal(message: &str) -> (o: Outcome)
    ensures
        outcome_model(o) == OutcomeModel::Fatal(crate::error::generic_error_class(), message@),
{
    let m = chars_to_string(&str_to_chars(message));
    Outcome::Fatal(RuntimeError::new(m))
}

/// The float operand a number stands for.
pub open spec fn float_operand(v: Val) -> FloatOperand {
    match v {
        Val::Int(n) => FloatOperand::Int(n),
        Val::Float(bits, _) => FloatOperand::Bits(bits),
        _ => FloatOperand::Int(0),
    }
}

/// Both operands are numbers and at least one is a float.
pub open spec fn mixed_float(a: Val, b: Val) -> bool {
    (a is Float && (b is Float || b is Int)) || (a is Int && b is Float)
}

/// The operand is a zero (integer 0 or a float zero).
pub open spec fn is_zero_number(v: Val) -> bool {
    match v {
        Val::Int(n) => n == 0,
        Val::Float(bits, _) => crate::value::float_is_zero(bits),
        _ => false,
    }
}

pub(crate) fn operand_of(v: &Value) -> (r: FloatOperand)
    ensures
        r == float_operand(v@),
{
    match v {
        Value::Integer(n) => FloatOperand::Int(*n),
        Value::Float(f) => FloatOperand::Bits(f.bits),
        _ => FloatOperand::Int(0),
    }
}

pub(crate) fn is_mixed_float(a: &Value, b: &Value) -> (r: bool)
    ensures
        r == mixed_float(a@, b@),
{
    match (a, b) {
        (Value::Float(_), Value::Float(_)) => true,
        (Value::Float(_), Value::Integer(_)) => true,
        (Value::Integer(_), Value::Float(_)) => true,
        _ => false,
    }
}

pub(crate) fn is_zero_exec(v: &Value) -> (r: bool)
    ensures
        r == is_zero_number(v@),
{
    match v {
        Value::Integer(n) => *n == 0,
        Value::Float(f) => {
            let bits = f.bits;
            let m = bits & 0x7fff_ffff_ffff_ffffu64;
            assert(m == bits % 0x8000_0000_0000_0000) by (bit_vector)
                requires m == bits & 0x7fff_ffff_ffff_ffffu64;
            m == 0
        }
        _ => false,
    }
}

fn float_task(op: FloatOp, a: &Value, b: &Value) -> (o: Outcome)
    ensures
        outcome_model(o) == OutcomeModel::Float(FloatTask { op, lhs: float_operand(a@), rhs: float_operand(b@) }),
{
    Outcome::Float(FloatTask { op, lhs: operand_of(a), rhs: operand_of(b) })
}

// ---------------------------------------------------------------- arithmetic

pub open spec fn wrap_add(a: i64, b: i64) -> i64 {
    vstd::wrapping::i64_specs::wrapping_add(a, b)
}

/// Successor with wrap-around, for identity counters.
pub open spec fn wrap_add_u64(a: u64) -> u64 {
    vstd::wrapping::u64_specs::wrapping_add(a, 1)
}

pub open spec fn wrap_sub(a: i64, b: i64) -> i64 {
    vstd::wrapping::i64_specs::wrapping_sub(a, b)
}

pub open spec fn wrap_mul(a: i64, b: i64) -> i64 {
    vstd::wrapping::i64_specs::wrapping_mul(a, b)
}

/// Quotient truncated toward zero (the integer `/`).
pub open spec fn trunc_div(x: int, d: int) -> int {
    if x >= 0 && d > 0 {
        x / d
    } else if x < 0 && d < 0 {
        (-x) / (-d)
    } else if x < 0 {
        -((-x) / d)
    } else {
        -(x / (-d))
    }
}

/// Remainder with the sign of the dividend (the integer `%`).
pub open spec fn trunc_rem(x: int, d: int) -> int {
    if x >= 0 && d > 0 {
        x % d
    } else if x < 0 && d < 0 {
        -((-x) % (-d))
    } else if x < 0 {
        -((-x) % d)
    } else {
        x % (-d)
    }
}

/// `elems` repeated `n` times.
pub open spec fn repeat_seq<A>(elems: Seq<A>, n: nat) -> Seq<A>
    decreases n,
{
    if n == 0 { Seq::<A>::empty() } else { repeat_seq(elems, (n - 1) as nat) + elems }
}

/// Union of two sets in order: `b`'s elements not already equal to one present are appended.
pub open spec fn set_union(a: Seq<Val>, b: Seq<Val>) -> Seq<Val>
    decreases b.len(),
{
    if b.len() == 0 {
        a
    } else {
        let m = set_union(a, b.subrange(0, b.len() - 1));
        if seq_has(m, b[b.len() - 1]) { m } else { m.push(b[b.len() - 1]) }
    }
}

/// `+`.  New lists and sets take the identity `fresh`.
pub open spec fn spec_add(a: Val, b: Val, fresh: u64) -> OutcomeModel {
    match (a, b) {
        (Val::Int(x), Val::Int(y)) => OutcomeModel::Value(Val::Int(wrap_add(x, y))),
        (Val::Str(x), Val::Str(y)) => OutcomeModel::Value(Val::Str(x + y)),
        (Val::List(_, x), Val::List(_, y)) => OutcomeModel::Value(Val::List(fresh, x + y)),
        (Val::SetVal(_, x), Val::SetVal(_, y)) => OutcomeModel::Value(Val::SetVal(fresh, set_union(x, y))),
        _ => if mixed_float(a, b) {
            OutcomeModel::Float(FloatTask { op: FloatOp::Add, lhs: float_operand(a), rhs: float_operand(b) })
        } else {
            OutcomeModel::Raise(type_error_class(), "عملية جمع غير مدعومة"@)
        },
    }
}

/// `-`.
pub open spec fn spec_sub(a: Val, b: Val) -> OutcomeModel {
    match (a, b) {
        (Val::Int(x), Val::Int(y)) => OutcomeModel::Value(Val::Int(wrap_sub(x, y))),
        _ => if mixed_float(a, b) {
            OutcomeModel::Float(FloatTask { op: FloatOp::Sub, lhs: float_operand(a), rhs: float_operand(b) })
        } else {
            OutcomeModel::Raise(type_error_class(), "عملية طرح غير مدعومة"@)
        },
    }
}

/// The repetition `*` terminates without exhausting memory only for a non-negative count (or an empty text).
pub open spec fn mul_defined(a: Val, b: Val) -> bool {
    match (a, b) {
        (Val::Str(s), Val::Int(n)) => n >= 0 || s.len() == 0,
        (Val::List(_, _), Val::Int(n)) => n >= 0,
        _ => true,
    }
}

/// `*`.  A repeated list takes the identity `fresh`.
pub open spec fn spec_mul(a: Val, b: Val, fresh: u64) -> OutcomeModel {
    match (a, b) {
        (Val::Int(x), Val::Int(y)) => OutcomeModel::Value(Val::Int(wrap_mul(x, y))),
        (Val::Str(s), Val::Int(n)) => OutcomeModel::Value(Val::Str(if n >= 0 { repeat_seq(s, n as nat) } else { s })),
        (Val::List(_, xs), Val::Int(n)) => OutcomeModel::Value(Val::List(fresh, repeat_seq(xs, n as nat))),
        _ => if mixed_float(a, b) {
            OutcomeModel::Float(FloatTask { op: FloatOp::Mul, lhs: float_operand(a), rhs: float_operand(b) })
        } else {
            OutcomeModel::Raise(type_error_class(), "عملية ضرب غير مدعومة"@)
        },
    }
}

/// `/`: always a float result; a zero divisor raises.
pub open spec fn spec_div(a: Val, b: Val) -> OutcomeModel {
    if (a is Int && b is Int) || mixed_float(a, b) {
        if is_zero_number(b) {
            OutcomeModel::Raise(zero_division_class(), zero_division_message())
        } else {
            OutcomeModel::Float(FloatTask { op: FloatOp::Div, lhs: float_operand(a), rhs: float_operand(b) })
        }
    } else {
        OutcomeModel::Raise(type_error_class(), "عملية قسمة غير مدعومة"@)
    }
}

/// Integer `/` and `%` overflow only for `MIN` by `-1`, on which the operation panics.
pub open spec fn int_division_defined(a: Val, b: Val) -> bool {
    match (a, b) {
        (Val::Int(x), Val::Int(y)) => !(x == i64::MIN && y == -1),
        _ => true,
    }
}

/// `//`: integers truncate; two floats give the floored quotient as an integer;
/// a float with an integer gives a floored float.
pub open spec fn spec_floor_div(a: Val, b: Val) -> OutcomeModel {
    match (a, b) {
        (Val::Int(x), Val::Int(y)) => if y == 0 {
            OutcomeModel::Raise(zero_division_class(), zero_division_message())
        } else {
            OutcomeModel::Value(Val::Int(trunc_div(x as int, y as int) as i64))
        },
        (Val::Float(_, _), Val::Float(_, _)) =>
            OutcomeModel::Float(FloatTask { op: FloatOp::FloorDivToInt, lhs: float_operand(a), rhs: float_operand(b) }),
        _ => if mixed_float(a, b) {
            OutcomeModel::Float(FloatTask { op: FloatOp::FloorDiv, lhs: float_operand(a), rhs: float_operand(b) })
        } else {
            OutcomeModel::Raise(type_error_class(), "عملية قسمة صحيحة غير مدعومة"@)
        },
    }
}

/// `%`: integers keep the dividend's sign; a zero divisor raises.
pub open spec fn spec_mod(a: Val, b: Val) -> OutcomeModel {
    match (a, b) {
        (Val::Int(x), Val::Int(y)) => if y == 0 {
            OutcomeModel::Raise(zero_division_class(), zero_division_message())
        } else {
            OutcomeModel::Value(Val::Int(trunc_rem(x as int, y as int) as i64))
        },
        _ => if mixed_float(a, b) {
            if is_zero_number(b) {
                OutcomeModel::Raise(zero_division_class(), zero_division_message())
            } else {
                OutcomeModel::Float(FloatTask { op: FloatOp::Mod, lhs: float_operand(a), rhs: float_operand(b) })
            }
        } else {
            OutcomeModel::Raise(type_error_class(), "عملية باقي القسمة غير مدعومة"@)
        },
    }
}

/// `x` to the power `e`.
pub open spec fn int_pow(x: int, e: nat) -> int
    decreases e,
{
    if e == 0 { 1 } else { x * int_pow(x, (e - 1) as nat) }
}

/// `**`: for integers, a negative exponent gives a float; otherwise the exact
/// power when it fits (the exponent taken modulo 2^32), else a float.
pub open spec fn spec_pow(a: Val, b: Val) -> OutcomeModel {
    match (a, b) {
        (Val::Int(x), Val::Int(y)) => if y < 0 {
            OutcomeModel::Float(FloatTask { op: FloatOp::Pow, lhs: FloatOperand::Int(x), rhs: FloatOperand::Int(y) })
        } else if y == 0 {
            OutcomeModel::Value(Val::Int(1))
        } else if x == 0 {
            OutcomeModel::Value(Val::Int(0))
        } else {
            let p = int_pow(x as int, (y as int % 0x1_0000_0000) as nat);
            if i64::MIN <= p <= i64::MAX {
                OutcomeModel::Value(Val::Int(p as i64))
            } else {
                OutcomeModel::Float(FloatTask { op: FloatOp::Pow, lhs: FloatOperand::Int(x), rhs: FloatOperand::Int(y) })
            }
        },
        _ => if mixed_float(a, b) {
            OutcomeModel::Float(FloatTask { op: FloatOp::Pow, lhs: float_operand(a), rhs: float_operand(b) })
        } else {
            OutcomeModel::Raise(type_error_class(), "عملية اس غير مدعومة"@)
        },
    }
}

/// Unary `-`.
pub open spec fn spec_neg(a: Val) -> OutcomeModel {
    match a {
        Val::Int(x) => OutcomeModel::Value(Val::Int(wrap_sub(0, x))),
        Val::Float(bits, _) => OutcomeModel::Float(FloatTask { op: FloatOp::Neg, lhs: FloatOperand::Bits(bits), rhs: FloatOperand::Bits(bits) }),
        _ => OutcomeModel::Raise(type_error_class(), "عملية سالب غير مدعومة"@),
    }
}

pub fn binary_add(a: Value, b: Value, fresh: u64) -> (o: Outcome)
    ensures
        outcome_model(o) == spec_add(a@, b@, fresh),
{
    match (a, b) {
        (Value::Integer(x), Value::Integer(y)) => Outcome::Value(Value::Integer(x.wrapping_add(y))),
        (Value::String(x), Value::String(y)) => {
            let mut s = x;
            extend_chars(&mut s, &y);
            Outcome::Value(Value::String(s))
        }
        (Value::List(x), Value::List(y)) => {
            let ghost xm = vals(x.items@);
            let ghost ym = vals(y.items@);
            let mut items = x.items;
            let mut rest = y.items;
            let ghost ya = rest@;
            let ghost xa = items@;
            items.append(&mut rest);
            assert(items@ =~= xa + ya);
            assert(vals(items@) =~= xm + ym);
            Outcome::Value(Value::List(ListObj { oid: fresh, items }))
        }
        (Value::SetVal(x), Value::SetVal(y)) => {
            let merged = union_items(x.items, &y.items);
            Outcome::Value(Value::SetVal(ListObj { oid: fresh, items: merged }))
        }
        (a, b) => {
            if is_mixed_float(&a, &b) {
                float_task(FloatOp::Add, &a, &b)
            } else {
                raise("استثناء_نوع", "عملية جمع غير مدعومة")
            }
        }
    }
}

/// The set union of `a` and `b` (in order, without elements equal to earlier ones from `b`).
pub fn union_items(a: Vec<Value>, b: &Vec<Value>) -> (r: Vec<Value>)
    ensures
        vals(r@) == set_union(vals(a@), vals(b@)),
{
    let ghost am = vals(a@);
    let ghost bm = vals(b@);
    let mut merged = a;
    let mut i: usize = 0;
    assert(bm.subrange(0, 0) =~= Seq::<Val>::empty());
    while i < b.len()
        invariant
            am == vals(a@),
            bm == vals(b@),
            i <= b@.len(),
            vals(merged@) == set_union(am, bm.subrange(0, i as int)),
        decreases b@.len() - i,
    {
        let present = items_have(&merged, &b[i]);
        proof {
            let next = bm.subrange(0, i + 1);
            assert(next.subrange(0, i as int) =~= bm.subrange(0, i as int));
            assert(next[i as int] == b@[i as int]@);
        }
        if !present {
            let ghost before = merged@;
            merged.push(b[i].duplicate());
            assert(vals(merged@) =~= vals(before).push(b@[i as int]@));
        }
        i = i + 1;
    }
    assert(bm.subrange(0, b@.len() as int) =~= bm);
    merged
}


pub(crate) fn int_div(x: i64, y: i64) -> (q: i64)
    requires
        y != 0,
        !(x == i64::MIN && y == -1),
    ensures
        q as int == trunc_div(x as int, y as int),
{
    let ghost xi = x as int;
    let ghost yi = y as int;
    proof {
        if xi >= 0 && yi > 0 {
            assert(0 <= xi / yi <= xi) by (nonlinear_arith) requires xi >= 0, yi > 0;
        } else if xi < 0 && yi < 0 {
            assert(0 <= (-xi) / (-yi) <= -xi) by (nonlinear_arith) requires -xi > 0, -yi > 0;
            if yi == -1 {
                assert((-xi) / 1 == -xi);
            } else {
                assert((-xi) / (-yi) < -xi) by (nonlinear_arith) requires -xi > 0, -yi >= 2;
            }
        } else if xi < 0 {
            assert(0 <= (-xi) / yi <= -xi) by (nonlinear_arith) requires -xi > 0, yi > 0;
        } else {
            assert(0 <= xi / (-yi) <= xi) by (nonlinear_arith) requires xi >= 0, -yi > 0;
        }
    }
    x.checked_div(y).unwrap()
}

pub(crate) fn int_rem(x: i64, y: i64) -> (q: i64)
    requires
        y != 0,
        !(x == i64::MIN && y == -1),
    ensures
        q as int == trunc_rem(x as int, y as int),
{
    let ghost xi = x as int;
    let ghost yi = y as int;
    proof {
        assert(xi * -1 == -xi);
        assert(yi * -1 == -yi);
        if xi >= 0 && yi > 0 {
            assert(0 <= xi % yi < yi) by (nonlinear_arith) requires yi > 0;
        } else if xi < 0 && yi < 0 {
            assert(0 <= (-xi) % (-yi) < -yi) by (nonlinear_arith) requires -yi > 0;
        } else if xi < 0 {
            assert(0 <= (-xi) % yi < yi) by (nonlinear_arith) requires yi > 0;
        } else {
            assert(0 <= xi % (-yi) < -yi) by (nonlinear_arith) requires -yi > 0;
        }
    }
    let r = x.checked_rem(y);
    proof {
        let out: int = if xi == 0 {
            0
        } else if xi > 0 && yi > 0 {
            xi % yi
        } else if xi < 0 && yi < 0 {
            ((xi * -1) % (yi * -1)) * -1
        } else if xi < 0 {
            ((xi * -1) % yi) * -1
        } else {
            xi % (yi * -1)
        };
        assert(out == trunc_rem(xi, yi));
        assert(i64::MIN <= out <= i64::MAX);
        assert(r == Some(out as i64));
    }
    r.unwrap()
}


pub fn binary_sub(a: Value, b: Value) -> (o: Outcome)
    ensures
        outcome_model(o) == spec_sub(a@, b@),
{
    match (&a, &b) {
        (Value::Integer(x), Value::Integer(y)) => Outcome::Value(Value::Integer(x.wrapping_sub(*y))),
        _ => if is_mixed_float(&a, &b) {
            float_task(FloatOp::Sub, &a, &b)
        } else {
            raise("استثناء_نوع", "عملية طرح غير مدعومة")
        },
    }
}

/// `s` repeated `n` times.
pub fn repeat_chars(s: &Vec<char>, n: i64) -> (r: Vec<char>)
    requires
        n >= 0,
    ensures
        r@ == repeat_seq(s@, n as nat),
{
    let mut r: Vec<char> = Vec::new();
    let mut k: i64 = 0;
    while k < n
        invariant
            0 <= k <= n,
            r@ == repeat_seq(s@, k as nat),
        decreases n - k,
    {
        extend_chars(&mut r, s);
        k = k + 1;
    }
    r
}

/// The elements of `xs` repeated `n` times.
pub fn repeat_items(xs: &Vec<Value>, n: i64) -> (r: Vec<Value>)
    requires
        n >= 0,
    ensures
        vals(r@) == repeat_seq(vals(xs@), n as nat),
{
    let mut r: Vec<Value> = Vec::new();
    let mut k: i64 = 0;
    assert(vals(r@) =~= repeat_seq(vals(xs@), 0));
    while k < n
        invariant
            0 <= k <= n,
            vals(r@) == repeat_seq(vals(xs@), k as nat),
        decreases n - k,
    {
        let ghost before = r@;
        let mut copy = duplicate_items(xs);
        let ghost c = copy@;
        r.append(&mut copy);
        assert(r@ =~= before + c);
        assert(vals(r@) =~= vals(before) + vals(c));
        k = k + 1;
    }
    r
}

pub fn binary_mul(a: Value, b: Value, fresh: u64) -> (o: Outcome)
    requires
        mul_defined(a@, b@),
    ensures
        outcome_model(o) == spec_mul(a@, b@, fresh),
{
    match (&a, &b) {
        (Value::Integer(x), Value::Integer(y)) => Outcome::Value(Value::Integer(x.wrapping_mul(*y))),
        (Value::String(s), Value::Integer(n)) => {
            if *n >= 0 {
                Outcome::Value(Value::String(repeat_chars(s, *n)))
            } else {
                Outcome::Value(Value::String(copy_chars_of(s)))
            }
        }
        (Value::List(l), Value::Integer(n)) => {
            Outcome::Value(Value::List(ListObj { oid: fresh, items: repeat_items(&l.items, *n) }))
        }
        _ => if is_mixed_float(&a, &b) {
            float_task(FloatOp::Mul, &a, &b)
        } else {
            raise("استثناء_نوع", "عملية ضرب غير مدعومة")
        },
    }
}

fn copy_chars_of(s: &Vec<char>) -> (r: Vec<char>)
    ensures
        r@ == s@,
{
    crate::value::copy_chars(s)
}

fn is_number(v: &Value) -> (r: bool)
    ensures
        r == (v@ is Int || v@ is Float),
{
    match v {
        Value::Integer(_) => true,
        Value::Float(_) => true,
        _ => false,
    }
}

pub fn binary_div(a: Value, b: Value) -> (o: Outcome)
    ensures
        outcome_model(o) == spec_div(a@, b@),
{
    let both_int = match (&a, &b) {
        (Value::Integer(_), Value::Integer(_)) => true,
        _ => false,
    };
    if both_int || is_mixed_float(&a, &b) {
        if is_zero_exec(&b) {
            raise("استثناء_قسمة", "القسمة على صفر")
        } else {
            float_task(FloatOp::Div, &a, &b)
        }
    } else {
        raise("استثناء_نوع", "عملية قسمة غير مدعومة")
    }
}

pub fn binary_floor_div(a: Value, b: Value) -> (o: Outcome)
    requires
        int_division_defined(a@, b@),
    ensures
        outcome_model(o) == spec_floor_div(a@, b@),
{
    match (&a, &b) {
        (Value::Integer(x), Value::Integer(y)) => {
            if *y == 0 {
                raise("استثناء_قسمة", "القسمة على صفر")
            } else {
                Outcome::Value(Value::Integer(int_div(*x, *y)))
            }
        }
        (Value::Float(_), Value::Float(_)) => float_task(FloatOp::FloorDivToInt, &a, &b),
        _ => if is_mixed_float(&a, &b) {
            float_task(FloatOp::FloorDiv, &a, &b)
        } else {
            raise("استثناء_نوع", "عملية قسمة صحيحة غير مدعومة")
        },
    }
}

pub fn binary_mod(a: Value, b: Value) -> (o: Outcome)
    requires
        int_division_defined(a@, b@),
    ensures
        outcome_model(o) == spec_mod(a@, b@),
{
    match (&a, &b) {
        (Value::Integer(x), Value::Integer(y)) => {
            if *y == 0 {
                raise("استثناء_قسمة", "القسمة على صفر")
            } else {
                Outcome::Value(Value::Integer(int_rem(*x, *y)))
            }
        }
        _ => if is_mixed_float(&a, &b) {
            if is_zero_exec(&b) {
                raise("استثناء_قسمة", "القسمة على صفر")
            } else {
                float_task(FloatOp::Mod, &a, &b)
            }
        } else {
            raise("استثناء_نوع", "عملية باقي القسمة غير مدعومة")
        },
    }
}

proof fn lemma_pow_step(x: int, k: nat)
    ensures
        int_pow(x, k + 1) == x * int_pow(x, k),
{
}

proof fn lemma_pow_abs_mono(x: int, k: nat, e: nat)
    requires
        x >= 1 || x <= -1,
        k <= e,
    ensures
        abs_int(int_pow(x, k)) <= abs_int(int_pow(x, e)),
    decreases e - k,
{
    if k < e {
        lemma_pow_abs_mono(x, k, (e - 1) as nat);
        let p = int_pow(x, (e - 1) as nat);
        lemma_pow_step(x, (e - 1) as nat);
        assert(abs_int(x * p) >= abs_int(p)) by (nonlinear_arith)
            requires x >= 1 || x <= -1;
    }
}

proof fn lemma_pow_big(x: int, e: nat)
    requires
        x >= 2 || x <= -2,
    ensures
        abs_int(int_pow(x, e)) >= int_pow(2, e),
    decreases e,
{
    if e > 0 {
        lemma_pow_big(x, (e - 1) as nat);
        let p = int_pow(x, (e - 1) as nat);
        let q = int_pow(2, (e - 1) as nat);
        lemma_pow_step(x, (e - 1) as nat);
        lemma_pow_step(2, (e - 1) as nat);
        lemma_pow2_nonneg((e - 1) as nat);
        assert(abs_int(x * p) >= 2 * q) by (nonlinear_arith)
            requires x >= 2 || x <= -2, abs_int(p) >= q, q >= 0;
        lemma_pow2_nonneg((e - 1) as nat);
    }
}

proof fn lemma_pow2_nonneg(e: nat)
    ensures
        int_pow(2, e) >= 1,
    decreases e,
{
    if e > 0 {
        lemma_pow2_nonneg((e - 1) as nat);
    }
}

proof fn lemma_unit_pow(e: nat)
    ensures
        int_pow(1, e) == 1,
        int_pow(-1, e) == (if e % 2 == 0 { 1int } else { -1int }),
    decreases e,
{
    if e > 0 {
        lemma_unit_pow((e - 1) as nat);
    }
}

pub open spec fn abs_int(x: int) -> int {
    if x < 0 { -x } else { x }
}

/// `x` to the power `e` when it fits in `i64` (std's `checked_pow`).
pub fn checked_power(x: i64, e: u32) -> (r: Option<i64>)
    ensures
        r == (if i64::MIN <= int_pow(x as int, e as nat) <= i64::MAX {
            Some(int_pow(x as int, e as nat) as i64)
        } else {
            None::<i64>
        }),
{
    if x == 1 || x == -1 || x == 0 {
        proof { lemma_unit_pow(e as nat); }
        if x == 0 {
            if e == 0 {
                return Some(1);
            }
            proof { lemma_pow_step(0, (e - 1) as nat); }
            return Some(0);
        }
        if x == 1 {
            return Some(1);
        }
        return if e % 2 == 0 { Some(1) } else { Some(-1) };
    }
    if e >= 64 {
        proof {
            lemma_pow_big(x as int, 64);
            reveal_with_fuel(int_pow, 65);
            assert(int_pow(2, 64) == 0x1_0000_0000_0000_0000);
            lemma_pow_abs_mono(x as int, 64, e as nat);
        }
        return None;
    }
    let mut acc: i64 = 1;
    let mut k: u32 = 0;
    while k < e
        invariant
            x >= 2 || x <= -2,
            k <= e,
            e < 64,
            acc as int == int_pow(x as int, k as nat),
        decreases e - k,
    {
        proof { lemma_pow_step(x as int, k as nat); }
        match acc.checked_mul(x) {
            Some(v) => {
                assert(v == x * acc) by (nonlinear_arith) requires v == acc * x;
                acc = v;
            }
            None => {
                proof {
                    let p1 = int_pow(x as int, (k + 1) as nat);
                    assert(p1 == acc * x) by (nonlinear_arith)
                        requires p1 == x * int_pow(x as int, k as nat), acc as int == int_pow(x as int, k as nat);
                    assert(abs_int(p1) >= 0x8000_0000_0000_0000);
                    if e > k + 1 {
                        lemma_pow_step(x as int, (k + 1) as nat);
                        assert(abs_int(x * p1) >= 2 * abs_int(p1)) by (nonlinear_arith)
                            requires x >= 2 || x <= -2;
                        lemma_pow_abs_mono(x as int, (k + 2) as nat, e as nat);
                    }
                }
                return None;
            }
        }
        k = k + 1;
    }
    Some(acc)
}

pub fn binary_pow(a: Value, b: Value) -> (o: Outcome)
    ensures
        outcome_model(o) == spec_pow(a@, b@),
{
    match (&a, &b) {
        (Value::Integer(x), Value::Integer(y)) => {
            if *y < 0 {
                Outcome::Float(FloatTask { op: FloatOp::Pow, lhs: FloatOperand::Int(*x), rhs: FloatOperand::Int(*y) })
            } else if *y == 0 {
                Outcome::Value(Value::Integer(1))
            } else if *x == 0 {
                Outcome::Value(Value::Integer(0))
            } else {
                let e: u32 = (*y % 0x1_0000_0000i64) as u32;
                match checked_power(*x, e) {
                    Some(p) => Outcome::Value(Value::Integer(p)),
                    None => Outcome::Float(FloatTask { op: FloatOp::Pow, lhs: FloatOperand::Int(*x), rhs: FloatOperand::Int(*y) }),
                }
            }
        }
        _ => if is_mixed_float(&a, &b) {
            float_task(FloatOp::Pow, &a, &b)
        } else {
            raise("استثناء_نوع", "عملية اس غير مدعومة")
        },
    }
}

pub fn unary_neg(a: Value) -> (o: Outcome)
    ensures
        outcome_model(o) == spec_neg(a@),
{
    match &a {
        Value::Integer(x) => Outcome::Value(Value::Integer(0i64.wrapping_sub(*x))),
        Value::Float(f) => Outcome::Float(FloatTask { op: FloatOp::Neg, lhs: FloatOperand::Bits(f.bits), rhs: FloatOperand::Bits(f.bits) }),
        _ => raise("استثناء_نوع", "عملية سالب غير مدعومة"),
    }
}

// ---------------------------------------------------------------- bitwise

/// The integer bitwise operators.
#[derive(Debug, PartialEq, Clone, Copy)]
pub enum BitOp {
    And,
    Or,
    Xor,
    Shl,
    Shr,
}

/// Bitwise operators: integers only; otherwise (or for a negative shift) the
/// error is returned to the caller directly.  Shift amounts are taken modulo 64.
pub open spec fn spec_bitop(op: BitOp, a: Val, b: Val) -> OutcomeModel {
    match (a, b) {
        (Val::Int(x), Val::Int(y)) => match op {
            BitOp::And => OutcomeModel::Value(Val::Int(x & y)),
            BitOp::Or => OutcomeModel::Value(Val::Int(x | y)),
            BitOp::Xor => OutcomeModel::Value(Val::Int(x ^ y)),
            BitOp::Shl => if y < 0 {
                OutcomeModel::Fatal(crate::error::generic_error_class(), "الإزاحة اليسرى لا يمكن ان تكون سالبة"@)
            } else {
                OutcomeModel::Value(Val::Int(vstd::wrapping::i64_specs::wrapping_shl(x, (y % 64) as u32)))
            },
            BitOp::Shr => if y < 0 {
                OutcomeModel::Fatal(crate::error::generic_error_class(), "الإزاحة اليمين لا يمكن ان تكون سالبة"@)
            } else {
                OutcomeModel::Value(Val::Int(vstd::wrapping::i64_specs::wrapping_shr(x, (y % 64) as u32)))
            },
        },
        _ => OutcomeModel::Fatal(crate::error::generic_error_class(), match op {
            BitOp::And => "عملية AND bitwise تتطلب صحيحاً"@,
            BitOp::Or => "عملية OR bitwise تتطلب صحيحاً"@,
            BitOp::Xor => "عملية XOR bitwise تتطلب صحيحاً"@,
            BitOp::Shl => "عملية إزاحة يسرى تتطلب صحيحاً"@,
            BitOp::Shr => "عملية إزاحة يمين تتطلب صحيحاً"@,
        }),
    }
}

pub fn binary_bitop(op: BitOp, a: Value, b: Value) -> (o: Outcome)
    ensures
        outcome_model(o) == spec_bitop(op, a@, b@),
{
    match (&a, &b) {
        (Value::Integer(x), Value::Integer(y)) => match op {
            BitOp::And => Outcome::Value(Value::Integer(*x & *y)),
            BitOp::Or => Outcome::Value(Value::Integer(*x | *y)),
            BitOp::Xor => Outcome::Value(Value::Integer(*x ^ *y)),
            BitOp::Shl => if *y < 0 {
                fatal("الإزاحة اليسرى لا يمكن ان تكون سالبة")
            } else {
                Outcome::Value(Value::Integer(x.wrapping_shl((*y % 64) as u32)))
            },
            BitOp::Shr => if *y < 0 {
                fatal("الإزاحة اليمين لا يمكن ان تكون سالبة")
            } else {
                Outcome::Value(Value::Integer(x.wrapping_shr((*y % 64) as u32)))
            },
        },
        _ => match op {
            BitOp::And => fatal("عملية AND bitwise تتطلب صحيحاً"),
            BitOp::Or => fatal("عملية OR bitwise تتطلب صحيحاً"),
            BitOp::Xor => fatal("عملية XOR bitwise تتطلب صحيحاً"),
            BitOp::Shl => fatal("عملية إزاحة يسرى تتطلب صحيحاً"),
            BitOp::Shr => fatal("عملية إزاحة يمين تتطلب صحيحاً"),
        },
    }
}

/// Bitwise complement.
pub open spec fn spec_bit_not(a: Val) -> OutcomeModel {
    match a {
        Val::Int(x) => OutcomeModel::Value(Val::Int(!x)),
        _ => OutcomeModel::Fatal(crate::error::generic_error_class(), "عملية NOT bitwise تتطلب صحيحاً"@),
    }
}

pub fn unary_bit_not(a: Value) -> (o: Outcome)
    ensures
        outcome_model(o) == spec_bit_not(a@),
{
    match &a {
        Value::Integer(x) => {
            let v: i64 = *x;
            let r: i64 = v ^ -1i64;
            assert(r == !v) by (bit_vector) requires r == v ^ -1i64;
            Outcome::Value(Value::Integer(r))
        }
        _ => fatal("عملية NOT bitwise تتطلب صحيحاً"),
    }
}

// ---------------------------------------------------------------- membership

/// Whether some key of `pairs` equals `x` (key on the left).
pub open spec fn has_key(pairs: Seq<(Val, Val)>, x: Val) -> bool {
    exists|j: int| 0 <= j < pairs.len() && val_eq(#[trigger] pairs[j].0, x)
}

/// `x in c`: `None` when the container kind does not support membership.
pub open spec fn spec_contains(c: Val, x: Val) -> Option<bool> {
    match c {
        Val::List(_, items) => Some(seq_has(items, x)),
        Val::Tuple(_, items) => Some(seq_has(items, x)),
        Val::SetVal(_, items) => Some(seq_has(items, x)),
        Val::Str(s) => Some(match x {
            Val::Str(sub) => chars_contain(s, sub),
            _ => false,
        }),
        Val::Dict(_, pairs) => Some(has_key(pairs, x)),
        _ => None,
    }
}

pub fn contains(c: &Value, x: &Value) -> (r: Option<bool>)
    ensures
        r == spec_contains(c@, x@),
{
    match c {
        Value::List(l) => Some(items_have(&l.items, x)),
        Value::Tuple(l) => Some(items_have(&l.items, x)),
        Value::SetVal(l) => Some(items_have(&l.items, x)),
        Value::String(s) => Some(match x {
            Value::String(sub) => chars_contain_exec(s, sub),
            _ => false,
        }),
        Value::Dict(d) => {
            let ghost pm = crate::value::val_pairs(d.pairs@);
            let mut j: usize = 0;
            while j < d.pairs.len()
                invariant
                    pm == crate::value::val_pairs(d.pairs@),
                    spec_contains(c@, x@) == Some(has_key(pm, x@)),
                    j <= d.pairs@.len(),
                    forall|t: int| 0 <= t < j ==> !val_eq(#[trigger] pm[t].0, x@),
                decreases d.pairs@.len() - j,
            {
                if values_equal(&d.pairs[j].0, x) {
                    assert(val_eq(pm[j as int].0, x@));
                    assert(has_key(pm, x@));
                    return Some(true);
                }
                j = j + 1;
            }
            Some(false)
        }
        _ => None,
    }
}

} // verus!
