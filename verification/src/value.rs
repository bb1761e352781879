//! The runtime value model.
//!
//! Text is held as `Vec<char>`.  Container kinds (lists, tuples, sets, dicts)
//! and reference kinds (functions, classes, instances, cells, files,
//! generators, modules) carry an object identity `oid`, which is what the
//! identity comparison (`is`) looks at.  A floating-point number is held as
//! its IEEE-754 binary64 bit pattern together with its decimal rendering; all
//! arithmetic on floats is performed outside this library.

use vstd::prelude::*;
use crate::text::{str_to_chars, string_to_chars, extend_chars, decimal_i64, decimal_usize, int_decimal, nat_digits};

verus! {

/// A float: its IEEE-754 binary64 bit pattern and its display text.
#[derive(Debug, PartialEq)]
pub struct FloatNum {
    pub bits: u64,
    pub text: Vec<char>,
}

/// A list, tuple or set: identity and elements.
#[derive(Debug, PartialEq)]
pub struct ListObj {
    pub oid: u64,
    pub items: Vec<Value>,
}

/// A dictionary: identity and key/value pairs in insertion order.
#[derive(Debug, PartialEq)]
pub struct DictObj {
    pub oid: u64,
    pub pairs: Vec<(Value, Value)>,
}

/// A reference to a heap object known by identity and name (a function, a
/// class, an instance (named by its class), a file, a generator, a module).
#[derive(Debug, PartialEq)]
pub struct ObjectRef {
    pub oid: u64,
    pub name: Vec<char>,
}

/// A closure cell: identity and the value it holds.
#[derive(Debug, PartialEq)]
pub struct CellObj {
    pub oid: u64,
    pub inner: Box<Value>,
}

#[derive(Debug, PartialEq)]
pub struct SliceData {
    pub start: Box<Value>,
    pub end: Box<Value>,
    pub step: Box<Value>,
}

#[derive(Debug, PartialEq, Clone, Copy)]
pub struct RangeData {
    pub start: i64,
    pub end: i64,
    pub step: i64,
}

#[derive(Debug, PartialEq)]
pub struct ExceptionData {
    pub class_name: String,
    pub message: String,
    pub line: Option<usize>,
    pub call_stack: Vec<(String, Option<usize>)>,
}

#[derive(Debug, PartialEq)]
pub struct NativeFunctionData {
    pub name: String,
    pub arity: usize,
}

#[derive(Debug, PartialEq, Clone, Copy)]
pub enum FastMethodOp {
    Add,
    Sub,
    Mul,
    Div,
}

#[derive(Debug, PartialEq)]
pub struct FastMethodData {
    pub name: String,
    pub field1: String,
    pub field2: String,
    pub field1_idx: usize,
    pub field2_idx: usize,
    pub op: FastMethodOp,
}

/// A runtime value.
#[derive(Debug, PartialEq)]
pub enum Value {
    Integer(i64),
    Float(FloatNum),
    String(Vec<char>),
    Boolean(bool),
    Null,
    List(ListObj),
    Tuple(ListObj),
    Dict(DictObj),
    SetVal(ListObj),
    Cell(CellObj),
    Function(ObjectRef),
    Class(ObjectRef),
    Instance(ObjectRef),
    NativeFunction(NativeFunctionData),
    FastMethod(FastMethodData),
    Slice(SliceData),
    Range(RangeData),
    Exception(ExceptionData),
    File(ObjectRef),
    Generator(ObjectRef),
    LazyModule(ObjectRef),
}


/// The model of an exception record.
pub struct ExcModel {
    pub class_name: Seq<char>,
    pub message: Seq<char>,
    pub line: Option<usize>,
    pub call_stack: Seq<(Seq<char>, Option<usize>)>,
}

/// The mathematical model of a value: text as `Seq<char>`, elements as
/// sequences of models; identities and float bit patterns are kept.
pub enum Val {
    Int(i64),
    Float(u64, Seq<char>),
    Str(Seq<char>),
    Bool(bool),
    Null,
    List(u64, Seq<Val>),
    Tuple(u64, Seq<Val>),
    Dict(u64, Seq<(Val, Val)>),
    SetVal(u64, Seq<Val>),
    Cell(u64, Box<Val>),
    Function(u64, Seq<char>),
    Class(u64, Seq<char>),
    Instance(u64, Seq<char>),
    Native(Seq<char>, usize),
    FastMethod(Seq<char>, Seq<char>, Seq<char>, usize, usize, FastMethodOp),
    Slice(Box<Val>, Box<Val>, Box<Val>),
    Range(RangeData),
    Exception(ExcModel),
    File(u64, Seq<char>),
    Generator(u64, Seq<char>),
    LazyModule(u64, Seq<char>),
}

pub open spec fn exc_model(d: ExceptionData) -> ExcModel {
    ExcModel {
        class_name: d.class_name@,
        message: d.message@,
        line: d.line,
        call_stack: Seq::new(d.call_stack@.len(), |i: int| (d.call_stack@[i].0@, d.call_stack@[i].1)),
    }
}

/// The model of a value.
pub open spec fn vmodel(v: Value) -> Val
    decreases v,
{
    match v {
        Value::Integer(n) => Val::Int(n),
        Value::Float(f) => Val::Float(f.bits, f.text@),
        Value::String(s) => Val::Str(s@),
        Value::Boolean(b) => Val::Bool(b),
        Value::Null => Val::Null,
        Value::List(l) => Val::List(l.oid, vals(l.items@)),
        Value::Tuple(l) => Val::Tuple(l.oid, vals(l.items@)),
        Value::SetVal(l) => Val::SetVal(l.oid, vals(l.items@)),
        Value::Dict(d) => Val::Dict(d.oid, val_pairs(d.pairs@)),
        Value::Cell(c) => Val::Cell(c.oid, Box::new(vmodel(*c.inner))),
        Value::Function(o) => Val::Function(o.oid, o.name@),
        Value::Class(o) => Val::Class(o.oid, o.name@),
        Value::Instance(o) => Val::Instance(o.oid, o.name@),
        Value::NativeFunction(d) => Val::Native(d.name@, d.arity),
        Value::FastMethod(d) => Val::FastMethod(d.name@, d.field1@, d.field2@, d.field1_idx, d.field2_idx, d.op),
        Value::Slice(d) => Val::Slice(Box::new(vmodel(*d.start)), Box::new(vmodel(*d.end)), Box::new(vmodel(*d.step))),
        Value::Range(r) => Val::Range(r),
        Value::Exception(d) => Val::Exception(exc_model(d)),
        Value::File(o) => Val::File(o.oid, o.name@),
        Value::Generator(o) => Val::Generator(o.oid, o.name@),
        Value::LazyModule(o) => Val::LazyModule(o.oid, o.name@),
    }
}

/// The models of a sequence of values.
pub open spec fn vals(s: Seq<Value>) -> Seq<Val>
    decreases s,
{
    Seq::new(s.len(), |i: int| if 0 <= i < s.len() { vmodel(s[i]) } else { Val::Null })
}

/// The models of a sequence of key/value pairs.
pub open spec fn val_pairs(s: Seq<(Value, Value)>) -> Seq<(Val, Val)>
    decreases s,
{
    Seq::new(s.len(), |i: int| if 0 <= i < s.len() { (vmodel(s[i].0), vmodel(s[i].1)) } else { (Val::Null, Val::Null) })
}

/// Length and elements of the models of a sequence of values.
pub broadcast proof fn lemma_vals(s: Seq<Value>)
    ensures
        #[trigger] vals(s).len() == s.len(),
        forall|i: int| 0 <= i < s.len() ==> #[trigger] vals(s)[i] == vmodel(s[i]),
{
}

/// Length and elements of the models of a sequence of pairs.
pub broadcast proof fn lemma_val_pairs(s: Seq<(Value, Value)>)
    ensures
        #[trigger] val_pairs(s).len() == s.len(),
        forall|i: int| 0 <= i < s.len() ==> #[trigger] val_pairs(s)[i] == (vmodel(s[i].0), vmodel(s[i].1)),
{
}

pub broadcast group group_value_model {
    lemma_vals,
    lemma_val_pairs,
}

impl View for Value {
    type V = Val;

    open spec fn view(&self) -> Val {
        vmodel(*self)
    }
}

/// Whether a float bit pattern is +0.0 or -0.0.
pub open spec fn float_is_zero(bits: u64) -> bool {
    bits % 0x8000_0000_0000_0000 == 0
}

/// Whether a float bit pattern is a NaN.
pub open spec fn float_is_nan(bits: u64) -> bool {
    (bits / 0x10_0000_0000_0000) % 0x800 == 0x7ff && bits % 0x10_0000_0000_0000 != 0
}

/// Truthiness of a value.
pub open spec fn truthy(v: Val) -> bool
    decreases v,
{
    match v {
        Val::Int(n) => n != 0,
        Val::Float(bits, _) => !float_is_zero(bits),
        Val::Str(s) => s.len() > 0,
        Val::Bool(b) => b,
        Val::Null => false,
        Val::List(_, s) => s.len() > 0,
        Val::Tuple(_, s) => s.len() > 0,
        Val::Dict(_, s) => s.len() > 0,
        Val::SetVal(_, s) => s.len() > 0,
        Val::Cell(_, inner) => truthy(*inner),
        _ => true,
    }
}

/// The user-visible type name of a value.
pub open spec fn kind_name(v: Val) -> Seq<char> {
    match v {
        Val::Int(_) => "صحيح"@,
        Val::Float(_, _) => "عشري"@,
        Val::Str(_) => "نص"@,
        Val::Bool(_) => "منطق"@,
        Val::Null => "عدم"@,
        Val::List(_, _) => "مصفوفة"@,
        Val::Tuple(_, _) => "مترابطة"@,
        Val::Dict(_, _) => "فهرس"@,
        Val::SetVal(_, _) => "مميزة"@,
        Val::Function(_, _) => "دالة"@,
        Val::Class(_, _) => "صنف"@,
        Val::Instance(_, name) => name,
        Val::Native(_, _) => "دالة نظامية"@,
        Val::Slice(_, _, _) => "شريحة"@,
        Val::Range(_) => "نطاق"@,
        Val::Exception(e) => e.class_name,
        Val::File(_, _) => "ملف"@,
        Val::Generator(_, _) => "مولّد"@,
        Val::Cell(_, _) => "خلية"@,
        Val::LazyModule(_, _) => "وحدة"@,
        Val::FastMethod(_, _, _, _, _, _) => "دالة سريعة"@,
    }
}

/// Display text of an exception record.
pub open spec fn exc_text(e: ExcModel) -> Seq<char> {
    e.class_name + ": "@ + e.message + match e.line {
        Some(l) => " (سطر "@ + nat_digits(l as nat) + ")"@,
        None => Seq::<char>::empty(),
    }
}

/// Display text of a value, as printing and string conversion produce it.
pub open spec fn val_text(v: Val) -> Seq<char>
    decreases v,
{
    match v {
        Val::Int(n) => int_decimal(n as int),
        Val::Float(_, text) => text,
        Val::Str(s) => s,
        Val::Bool(b) => if b { "صح"@ } else { "خطا"@ },
        Val::Null => "عدم"@,
        Val::List(_, items) => "["@ + join_texts(items) + "]"@,
        Val::Tuple(_, items) => "("@ + join_texts(items) + ")"@,
        Val::Dict(_, pairs) => "{"@ + join_pair_texts(pairs) + "}"@,
        Val::SetVal(_, items) => "{"@ + join_texts(items) + "}"@,
        Val::Function(_, name) => "<دالة "@ + name + ">"@,
        Val::Class(_, name) => "<صنف "@ + name + ">"@,
        Val::Instance(_, name) => "<نموذج "@ + name + ">"@,
        Val::Native(name, _) => "<دالة نظامية "@ + name + ">"@,
        Val::Slice(a, b, c) => val_text(*a) + ":"@ + val_text(*b) + ":"@ + val_text(*c),
        Val::Range(r) => "نطاق("@ + int_decimal(r.start as int) + ", "@ + int_decimal(r.end as int)
            + ", "@ + int_decimal(r.step as int) + ")"@,
        Val::Exception(e) => exc_text(e),
        Val::File(_, _) => "<ملف>"@,
        Val::Generator(_, name) => "<مولّد "@ + name + ">"@,
        Val::Cell(_, inner) => val_text(*inner),
        Val::LazyModule(_, name) => "<وحدة "@ + name + ">"@,
        Val::FastMethod(name, _, _, _, _, _) => "<دالة سريعة "@ + name + ">"@,
    }
}

/// Texts of the elements joined by ", ".
pub open spec fn join_texts(items: Seq<Val>) -> Seq<char>
    decreases items,
{
    if items.len() == 0 {
        Seq::<char>::empty()
    } else if items.len() == 1 {
        val_text(items[0])
    } else {
        join_texts(items.subrange(0, items.len() - 1)) + ", "@ + val_text(items[items.len() - 1])
    }
}

/// Texts `key: value` of the pairs joined by ", ".
pub open spec fn join_pair_texts(pairs: Seq<(Val, Val)>) -> Seq<char>
    decreases pairs,
{
    if pairs.len() == 0 {
        Seq::<char>::empty()
    } else if pairs.len() == 1 {
        val_text(pairs[0].0) + ": "@ + val_text(pairs[0].1)
    } else {
        join_pair_texts(pairs.subrange(0, pairs.len() - 1)) + ", "@
            + val_text(pairs[pairs.len() - 1].0) + ": "@ + val_text(pairs[pairs.len() - 1].1)
    }
}

/// Number of elements of a range, as its length attribute reports it.
pub open spec fn spec_range_len(r: RangeData) -> int {
    if r.step > 0 {
        if r.end > r.start { (r.end - r.start + r.step - 1) / (r.step as int) } else { 0 }
    } else if r.step < 0 {
        if r.start > r.end { (r.start - r.end - r.step - 1) / (-r.step) } else { 0 }
    } else {
        0
    }
}

/// The intermediate arithmetic of the length attribute stays within `i64`.
pub open spec fn range_len_fits(r: RangeData) -> bool {
    &&& (r.step > 0 && r.end > r.start ==> r.end - r.start + r.step <= i64::MAX)
    &&& (r.step < 0 && r.start > r.end ==> r.start - r.end - r.step <= i64::MAX && r.step > i64::MIN)
}

pub fn copy_chars(v: &Vec<char>) -> (r: Vec<char>)
    ensures
        r@ == v@,
{
    let mut r: Vec<char> = Vec::new();
    extend_chars(&mut r, v);
    r
}

pub fn copy_string(s: &String) -> (r: String)
    ensures
        r@ == s@,
{
    s.clone()
}

impl ObjectRef {
    pub fn duplicate(&self) -> (r: ObjectRef)
        ensures
            r.oid == self.oid,
            r.name@ == self.name@,
    {
        ObjectRef { oid: self.oid, name: copy_chars(&self.name) }
    }
}

impl ExceptionData {
    pub fn duplicate(&self) -> (r: ExceptionData)
        ensures
            exc_model(r) == exc_model(*self),
    {
        let mut cs: Vec<(String, Option<usize>)> = Vec::new();
        let mut i: usize = 0;
        while i < self.call_stack.len()
            invariant
                i <= self.call_stack@.len(),
                cs@.len() == i,
                forall|j: int| 0 <= j < i ==>
                    (#[trigger] cs@[j]).0@ == self.call_stack@[j].0@
                    && cs@[j].1 == self.call_stack@[j].1,
            decreases self.call_stack@.len() - i,
        {
            let entry = &self.call_stack[i];
            cs.push((copy_string(&entry.0), entry.1));
            i = i + 1;
        }
        let r = ExceptionData {
            class_name: copy_string(&self.class_name),
            message: copy_string(&self.message),
            line: self.line,
            call_stack: cs,
        };
        assert(exc_model(r).call_stack =~= exc_model(*self).call_stack);
        r
    }
}

/// Copies of the elements of a vector of values.
pub fn duplicate_items(items: &Vec<Value>) -> (r: Vec<Value>)
    ensures
        vals(r@) == vals(items@),
    decreases items@,
{
    broadcast use group_value_model;
    let mut out: Vec<Value> = Vec::new();
    let mut i: usize = 0;
    while i < items.len()
        invariant
            i <= items@.len(),
            out@.len() == i,
            forall|j: int| 0 <= j < i ==> vmodel(#[trigger] out@[j]) == vmodel(items@[j]),
        decreases items@.len() - i,
    {
        proof { assert(decreases_to!(items@ => items@[i as int])); }
        out.push(items[i].duplicate());
        i = i + 1;
    }
    assert(vals(out@) =~= vals(items@));
    out
}

/// Copies of a vector of key/value pairs.
pub fn duplicate_pairs(pairs: &Vec<(Value, Value)>) -> (r: Vec<(Value, Value)>)
    ensures
        val_pairs(r@) == val_pairs(pairs@),
    decreases pairs@,
{
    broadcast use group_value_model;
    let mut out: Vec<(Value, Value)> = Vec::new();
    let mut i: usize = 0;
    while i < pairs.len()
        invariant
            i <= pairs@.len(),
            out@.len() == i,
            forall|j: int| 0 <= j < i ==> vmodel((#[trigger] out@[j]).0) == vmodel(pairs@[j].0)
                && vmodel(out@[j].1) == vmodel(pairs@[j].1),
        decreases pairs@.len() - i,
    {
        proof {
            assert(decreases_to!(pairs@ => pairs@[i as int]));
            assert(decreases_to!(pairs@[i as int] => pairs@[i as int].0));
            assert(decreases_to!(pairs@[i as int] => pairs@[i as int].1));
        }
        let k = pairs[i].0.duplicate();
        let v = pairs[i].1.duplicate();
        out.push((k, v));
        i = i + 1;
    }
    assert(val_pairs(out@) =~= val_pairs(pairs@));
    out
}

impl Value {
    /// An independent copy of this value with the same model.
    pub fn duplicate(&self) -> (r: Value)
        ensures
            r@ == self@,
        decreases self,
    {
        match self {
            Value::Integer(n) => Value::Integer(*n),
            Value::Float(f) => Value::Float(FloatNum { bits: f.bits, text: copy_chars(&f.text) }),
            Value::String(s) => Value::String(copy_chars(s)),
            Value::Boolean(b) => Value::Boolean(*b),
            Value::Null => Value::Null,
            Value::List(l) => {
                let items = duplicate_items(&l.items);
                let r = Value::List(ListObj { oid: l.oid, items });
                assert(r@ == self@) by { assert(vals(items@) =~= vals(l.items@)); }
                r
            }
            Value::Tuple(l) => {
                let items = duplicate_items(&l.items);
                let r = Value::Tuple(ListObj { oid: l.oid, items });
                assert(r@ == self@) by { assert(vals(items@) =~= vals(l.items@)); }
                r
            }
            Value::SetVal(l) => {
                let items = duplicate_items(&l.items);
                let r = Value::SetVal(ListObj { oid: l.oid, items });
                assert(r@ == self@) by { assert(vals(items@) =~= vals(l.items@)); }
                r
            }
            Value::Dict(d) => {
                let pairs = duplicate_pairs(&d.pairs);
                let r = Value::Dict(DictObj { oid: d.oid, pairs });
                assert(r@ == self@) by { assert(val_pairs(pairs@) =~= val_pairs(d.pairs@)); }
                r
            }
            Value::Cell(c) => Value::Cell(CellObj { oid: c.oid, inner: Box::new(c.inner.duplicate()) }),
            Value::Function(o) => Value::Function(o.duplicate()),
            Value::Class(o) => Value::Class(o.duplicate()),
            Value::Instance(o) => Value::Instance(o.duplicate()),
            Value::NativeFunction(d) => Value::NativeFunction(NativeFunctionData { name: copy_string(&d.name), arity: d.arity }),
            Value::FastMethod(d) => Value::FastMethod(FastMethodData {
                name: copy_string(&d.name),
                field1: copy_string(&d.field1),
                field2: copy_string(&d.field2),
                field1_idx: d.field1_idx,
                field2_idx: d.field2_idx,
                op: d.op,
            }),
            Value::Slice(d) => Value::Slice(SliceData {
                start: Box::new(d.start.duplicate()),
                end: Box::new(d.end.duplicate()),
                step: Box::new(d.step.duplicate()),
            }),
            Value::Range(r) => Value::Range(*r),
            Value::Exception(d) => Value::Exception(d.duplicate()),
            Value::File(o) => Value::File(o.duplicate()),
            Value::Generator(o) => Value::Generator(o.duplicate()),
            Value::LazyModule(o) => Value::LazyModule(o.duplicate()),
        }
    }

    /// Truthiness as conditions and `not` use it.
    pub fn is_truthy(&self) -> (b: bool)
        ensures
            b == truthy(self@),
        decreases self,
    {
        broadcast use group_value_model;
        match self {
            Value::Integer(n) => *n != 0,
            Value::Float(f) => {
                let bits = f.bits;
                let r = bits & 0x7fff_ffff_ffff_ffffu64;
                assert(r == bits % 0x8000_0000_0000_0000) by (bit_vector)
                    requires r == bits & 0x7fff_ffff_ffff_ffffu64;
                assert((r != 0) == truthy(self@));
                r != 0
            }
            Value::String(s) => s.len() != 0,
            Value::Boolean(b) => *b,
            Value::Null => false,
            Value::List(l) => {
                assert(vals(l.items@).len() == l.items@.len());
                l.items.len() != 0
            }
            Value::Tuple(l) => {
                assert(vals(l.items@).len() == l.items@.len());
                l.items.len() != 0
            }
            Value::Dict(d) => {
                assert(val_pairs(d.pairs@).len() == d.pairs@.len());
                d.pairs.len() != 0
            }
            Value::SetVal(l) => {
                assert(vals(l.items@).len() == l.items@.len());
                l.items.len() != 0
            }
            Value::Cell(c) => { let b = c.inner.is_truthy(); assert(b == truthy(self@)); b }
            _ => true,
        }
    }

    /// The user-visible type name.
    pub fn kind_name(&self) -> (r: Vec<char>)
        ensures
            r@ == kind_name(self@),
    {
        match self {
            Value::Integer(_) => str_to_chars("صحيح"),
            Value::Float(_) => str_to_chars("عشري"),
            Value::String(_) => str_to_chars("نص"),
            Value::Boolean(_) => str_to_chars("منطق"),
            Value::Null => str_to_chars("عدم"),
            Value::List(_) => str_to_chars("مصفوفة"),
            Value::Tuple(_) => str_to_chars("مترابطة"),
            Value::Dict(_) => str_to_chars("فهرس"),
            Value::SetVal(_) => str_to_chars("مميزة"),
            Value::Function(_) => str_to_chars("دالة"),
            Value::Class(_) => str_to_chars("صنف"),
            Value::Instance(o) => copy_chars(&o.name),
            Value::NativeFunction(_) => str_to_chars("دالة نظامية"),
            Value::Slice(_) => str_to_chars("شريحة"),
            Value::Range(_) => str_to_chars("نطاق"),
            Value::Exception(d) => string_to_chars(&d.class_name),
            Value::File(_) => str_to_chars("ملف"),
            Value::Generator(_) => str_to_chars("مولّد"),
            Value::Cell(_) => str_to_chars("خلية"),
            Value::LazyModule(_) => str_to_chars("وحدة"),
            Value::FastMethod(_) => str_to_chars("دالة سريعة"),
        }
    }
}

/// Display text of the elements, joined by ", ".
pub fn render_items(items: &Vec<Value>) -> (r: Vec<char>)
    ensures
        r@ == join_texts(vals(items@)),
    decreases items@,
{
    broadcast use group_value_model;
    let ghost ms = vals(items@);
    let mut r: Vec<char> = Vec::new();
    let mut i: usize = 0;
    while i < items.len()
        invariant
            i <= items@.len(),
            ms == vals(items@),
            r@ == join_texts(ms.subrange(0, i as int)),
        decreases items@.len() - i,
    {
        proof { assert(decreases_to!(items@ => items@[i as int])); }
        let t = items[i].to_string_value();
        if i > 0 {
            let sep = str_to_chars(", ");
            extend_chars(&mut r, &sep);
        }
        extend_chars(&mut r, &t);
        proof {
            let next = ms.subrange(0, i + 1);
            assert(next.subrange(0, i as int) =~= ms.subrange(0, i as int));
            assert(next[i as int] == ms[i as int]);
            if i == 0 {
                assert(ms.subrange(0, 0) =~= Seq::<Val>::empty());
            }
        }
        i = i + 1;
    }
    assert(ms.subrange(0, items@.len() as int) =~= ms);
    r
}

/// Display text of the pairs as `key: value`, joined by ", ".
pub fn render_pairs(pairs: &Vec<(Value, Value)>) -> (r: Vec<char>)
    ensures
        r@ == join_pair_texts(val_pairs(pairs@)),
    decreases pairs@,
{
    broadcast use group_value_model;
    let ghost ms = val_pairs(pairs@);
    let mut r: Vec<char> = Vec::new();
    let mut i: usize = 0;
    while i < pairs.len()
        invariant
            i <= pairs@.len(),
            ms == val_pairs(pairs@),
            r@ == join_pair_texts(ms.subrange(0, i as int)),
        decreases pairs@.len() - i,
    {
        proof {
            assert(decreases_to!(pairs@ => pairs@[i as int]));
            assert(decreases_to!(pairs@[i as int] => pairs@[i as int].0));
            assert(decreases_to!(pairs@[i as int] => pairs@[i as int].1));
        }
        let k = pairs[i].0.to_string_value();
        let v = pairs[i].1.to_string_value();
        if i > 0 {
            let sep = str_to_chars(", ");
            extend_chars(&mut r, &sep);
        }
        extend_chars(&mut r, &k);
        let colon = str_to_chars(": ");
        extend_chars(&mut r, &colon);
        extend_chars(&mut r, &v);
        proof {
            let next = ms.subrange(0, i + 1);
            assert(next.subrange(0, i as int) =~= ms.subrange(0, i as int));
            assert(next[i as int] == ms[i as int]);
            if i == 0 {
                assert(ms.subrange(0, 0) =~= Seq::<(Val, Val)>::empty());
            }
        }
        i = i + 1;
    }
    assert(ms.subrange(0, pairs@.len() as int) =~= ms);
    r
}

fn bracketed(open: &str, body: Vec<char>, close: &str) -> (r: Vec<char>)
    ensures
        r@ == open@ + body@ + close@,
{
    let mut r = str_to_chars(open);
    extend_chars(&mut r, &body);
    let c = str_to_chars(close);
    extend_chars(&mut r, &c);
    r
}

/// Display text of an exception record.
pub fn render_exception(d: &ExceptionData) -> (r: Vec<char>)
    ensures
        r@ == exc_text(exc_model(*d)),
{
    let mut r = string_to_chars(&d.class_name);
    let sep = str_to_chars(": ");
    extend_chars(&mut r, &sep);
    let m = string_to_chars(&d.message);
    extend_chars(&mut r, &m);
    match d.line {
        Some(l) => {
            let digits = decimal_usize(l);
            let tail = bracketed(" (سطر ", digits, ")");
            extend_chars(&mut r, &tail);
        }
        None => {}
    }
    r
}

impl Value {
    /// Display text, as printing and string conversion produce it.
    pub fn to_string_value(&self) -> (r: Vec<char>)
        ensures
            r@ == val_text(self@),
        decreases self,
    {
        broadcast use group_value_model;
        match self {
            Value::Integer(n) => decimal_i64(*n),
            Value::Float(f) => copy_chars(&f.text),
            Value::String(s) => copy_chars(s),
            Value::Boolean(b) => if *b { str_to_chars("صح") } else { str_to_chars("خطا") },
            Value::Null => str_to_chars("عدم"),
            Value::List(l) => bracketed("[", render_items(&l.items), "]"),
            Value::Tuple(l) => bracketed("(", render_items(&l.items), ")"),
            Value::Dict(d) => bracketed("{", render_pairs(&d.pairs), "}"),
            Value::SetVal(l) => bracketed("{", render_items(&l.items), "}"),
            Value::Function(o) => bracketed("<دالة ", copy_chars(&o.name), ">"),
            Value::Class(o) => bracketed("<صنف ", copy_chars(&o.name), ">"),
            Value::Instance(o) => bracketed("<نموذج ", copy_chars(&o.name), ">"),
            Value::NativeFunction(d) => bracketed("<دالة نظامية ", string_to_chars(&d.name), ">"),
            Value::Slice(d) => {
                let mut r = d.start.to_string_value();
                let colon = str_to_chars(":");
                extend_chars(&mut r, &colon);
                let e = d.end.to_string_value();
                extend_chars(&mut r, &e);
                extend_chars(&mut r, &colon);
                let st = d.step.to_string_value();
                extend_chars(&mut r, &st);
                r
            }
            Value::Range(rg) => {
                let mut r = str_to_chars("نطاق(");
                let a = decimal_i64(rg.start);
                extend_chars(&mut r, &a);
                let sep = str_to_chars(", ");
                extend_chars(&mut r, &sep);
                let b = decimal_i64(rg.end);
                extend_chars(&mut r, &b);
                extend_chars(&mut r, &sep);
                let c = decimal_i64(rg.step);
                extend_chars(&mut r, &c);
                let close = str_to_chars(")");
                extend_chars(&mut r, &close);
                r
            }
            Value::Exception(d) => render_exception(d),
            Value::File(_) => str_to_chars("<ملف>"),
            Value::Generator(o) => bracketed("<مولّد ", copy_chars(&o.name), ">"),
            Value::Cell(c) => c.inner.to_string_value(),
            Value::LazyModule(o) => bracketed("<وحدة ", copy_chars(&o.name), ">"),
            Value::FastMethod(d) => bracketed("<دالة سريعة ", string_to_chars(&d.name), ">"),
        }
    }
}

/// Length of a range as its length attribute reports it.
pub fn range_len(r: &RangeData) -> (n: i64)
    requires
        range_len_fits(*r),
    ensures
        n as int == spec_range_len(*r),
{
    if r.step > 0 {
        if r.end > r.start {
            (r.end - r.start + r.step - 1) / r.step
        } else {
            0
        }
    } else if r.step < 0 {
        if r.start > r.end {
            (r.start - r.end - r.step - 1) / (-r.step)
        } else {
            0
        }
    } else {
        0
    }
}

} // verus!
