//! The native builtins that compute on values alone: sizes, ranges, type
//! tests, reversal, prefix and suffix tests, repetition, dictionary views,
//! the greatest common divisor, Fibonacci numbers, Base64 encoding and
//! regular-expression matching and replacement.
//!
//! The builtins that read or write files, the clock, the network, random
//! numbers or the console, and those that compute with floats, are
//! performed by the caller.

use vstd::prelude::*;
use base64::Engine;
use crate::value::{Value, Val, ListObj, RangeData, vals, val_pairs, kind_name, group_value_model};
use crate::error::RuntimeError;
use crate::text::{str_to_chars, chars_to_string, string_to_chars, chars_eq};

verus! {

broadcast use group_value_model;

/// The outcome of a builtin: its value, or the class and message of its error.
pub type BuiltinModel = Result<Val, (Seq<char>, Seq<char>)>;

pub open spec fn builtin_model(r: Result<Value, RuntimeError>) -> BuiltinModel {
    match r {
        Ok(v) => Ok(v@),
        Err(e) => Err((e.class_view(), e.message_view())),
    }
}

pub open spec fn generic_err(msg: Seq<char>) -> BuiltinModel {
    Err((crate::error::generic_error_class(), msg))
}

pub open spec fn type_err(msg: Seq<char>) -> BuiltinModel {
    Err((crate::ops::type_error_class(), msg))
}

pub(crate) fn fail(msg: &str) -> (r: Result<Value, RuntimeError>)
    ensures
        builtin_model(r) == generic_err(msg@),
{
    Err(RuntimeError::new(chars_to_string(&str_to_chars(msg))))
}

pub(crate) fn fail_typed(class_name: &str, msg: &str) -> (r: Result<Value, RuntimeError>)
    ensures
        builtin_model(r) == Err::<Val, (Seq<char>, Seq<char>)>((class_name@, msg@)),
{
    Err(RuntimeError::new_typed(chars_to_string(&str_to_chars(class_name)), chars_to_string(&str_to_chars(msg))))
}

// ---------------------------------------------------------------- sizes and shapes

/// `طول`: the number of elements of a list, tuple, dictionary or set, or of characters of a text.
pub open spec fn spec_len(args: Seq<Val>) -> BuiltinModel {
    if args.len() == 0 {
        generic_err("طول يتطلب معامل واحد"@)
    } else {
        match args[0] {
            Val::List(_, s) => Ok(Val::Int(s.len() as i64)),
            Val::Str(s) => Ok(Val::Int(s.len() as i64)),
            Val::Tuple(_, s) => Ok(Val::Int(s.len() as i64)),
            Val::Dict(_, s) => Ok(Val::Int(s.len() as i64)),
            Val::SetVal(_, s) => Ok(Val::Int(s.len() as i64)),
            _ => type_err("طول غير مدعوم لهذا النوع"@),
        }
    }
}

pub fn builtin_len(args: &Vec<Value>) -> (r: Result<Value, RuntimeError>)
    requires
        args@.len() > 0 ==> !(args@[0] is Instance),
    ensures
        builtin_model(r) == spec_len(vals(args@)),
{
    if args.len() == 0 {
        return fail("طول يتطلب معامل واحد");
    }
    match &args[0] {
        Value::List(l) => {
            assert(vals(l.items@).len() == l.items@.len());
            Ok(Value::Integer(l.items.len() as i64))
        }
        Value::String(s) => Ok(Value::Integer(s.len() as i64)),
        Value::Tuple(l) => {
            assert(vals(l.items@).len() == l.items@.len());
            Ok(Value::Integer(l.items.len() as i64))
        }
        Value::Dict(d) => {
            assert(val_pairs(d.pairs@).len() == d.pairs@.len());
            Ok(Value::Integer(d.pairs.len() as i64))
        }
        Value::SetVal(l) => {
            assert(vals(l.items@).len() == l.items@.len());
            Ok(Value::Integer(l.items.len() as i64))
        }
        _ => fail_typed("استثناء_نوع", "طول غير مدعوم لهذا النوع"),
    }
}

/// The integer an argument must be for `مدى`.
pub open spec fn range_arg(v: Val) -> Option<i64> {
    match v {
        Val::Int(n) => Some(n),
        _ => None,
    }
}

/// `مدى`: a range from one, two or three integers; a zero step is refused.
pub open spec fn spec_range(args: Seq<Val>) -> BuiltinModel {
    let bad = type_err("النطاق يتطلب اعداد صحيحة"@);
    if args.len() == 1 {
        match range_arg(args[0]) {
            Some(end) => Ok(Val::Range(RangeData { start: 0, end, step: 1 })),
            None => bad,
        }
    } else if args.len() == 2 {
        match (range_arg(args[0]), range_arg(args[1])) {
            (Some(start), Some(end)) => Ok(Val::Range(RangeData { start, end, step: 1 })),
            _ => bad,
        }
    } else if args.len() == 3 {
        match (range_arg(args[0]), range_arg(args[1]), range_arg(args[2])) {
            (Some(start), Some(end), Some(step)) => if step == 0 {
                Err(("استثناء_قيمة"@, "خطوة النطاق لا يمكن ان تكون صفر"@))
            } else {
                Ok(Val::Range(RangeData { start, end, step }))
            },
            _ => bad,
        }
    } else {
        type_err("النطاق يتطلب 1-3 معاملات"@)
    }
}

fn int_arg(v: &Value) -> (r: Option<i64>)
    ensures
        r == range_arg(v@),
{
    match v {
        Value::Integer(n) => Some(*n),
        _ => None,
    }
}

pub fn builtin_range(args: &Vec<Value>) -> (r: Result<Value, RuntimeError>)
    ensures
        builtin_model(r) == spec_range(vals(args@)),
{
    if args.len() == 1 {
        match int_arg(&args[0]) {
            Some(end) => Ok(Value::Range(RangeData { start: 0, end, step: 1 })),
            None => fail_typed("استثناء_نوع", "النطاق يتطلب اعداد صحيحة"),
        }
    } else if args.len() == 2 {
        match (int_arg(&args[0]), int_arg(&args[1])) {
            (Some(start), Some(end)) => Ok(Value::Range(RangeData { start, end, step: 1 })),
            _ => fail_typed("استثناء_نوع", "النطاق يتطلب اعداد صحيحة"),
        }
    } else if args.len() == 3 {
        match (int_arg(&args[0]), int_arg(&args[1]), int_arg(&args[2])) {
            (Some(start), Some(end), Some(step)) => if step == 0 {
                fail_typed("استثناء_قيمة", "خطوة النطاق لا يمكن ان تكون صفر")
            } else {
                Ok(Value::Range(RangeData { start, end, step }))
            },
            _ => fail_typed("استثناء_نوع", "النطاق يتطلب اعداد صحيحة"),
        }
    } else {
        fail_typed("استثناء_نوع", "النطاق يتطلب 1-3 معاملات")
    }
}

/// `نوع`: the type name of the argument.
pub open spec fn spec_type_of(args: Seq<Val>) -> BuiltinModel {
    if args.len() == 0 { generic_err("نوع يتطلب معامل واحد"@) } else { Ok(Val::Str(kind_name(args[0]))) }
}

pub fn builtin_type_of(args: &Vec<Value>) -> (r: Result<Value, RuntimeError>)
    ensures
        builtin_model(r) == spec_type_of(vals(args@)),
{
    if args.len() == 0 {
        return fail("نوع يتطلب معامل واحد");
    }
    Ok(Value::String(args[0].kind_name()))
}

/// The kind tests `صحيح؟`, `عشري؟`, `نص؟` and `قائمة؟` (selected by `which`, 0 to 3).
pub open spec fn spec_is_kind(args: Seq<Val>, which: u8) -> BuiltinModel {
    let name = if which == 0 { "صحيح؟"@ } else if which == 1 { "عشري؟"@ } else if which == 2 { "نص؟"@ } else { "قائمة؟"@ };
    if args.len() == 0 {
        generic_err(name + " يتطلب معامل واحد"@)
    } else {
        Ok(Val::Bool(if which == 0 { args[0] is Int } else if which == 1 { args[0] is Float }
            else if which == 2 { args[0] is Str } else { args[0] is List }))
    }
}

pub fn builtin_is_kind(args: &Vec<Value>, which: u8) -> (r: Result<Value, RuntimeError>)
    ensures
        builtin_model(r) == spec_is_kind(vals(args@), which),
{
    if args.len() == 0 {
        let mut msg = if which == 0 { str_to_chars("صحيح؟") } else if which == 1 { str_to_chars("عشري؟") }
            else if which == 2 { str_to_chars("نص؟") } else { str_to_chars("قائمة؟") };
        let tail = str_to_chars(" يتطلب معامل واحد");
        crate::text::extend_chars(&mut msg, &tail);
        return Err(RuntimeError::new(chars_to_string(&msg)));
    }
    let b = match &args[0] {
        Value::Integer(_) => which == 0,
        Value::Float(_) => which == 1,
        Value::String(_) => which == 2,
        Value::List(_) => which >= 3,
        _ => false,
    };
    Ok(Value::Boolean(b))
}

// ---------------------------------------------------------------- reversal and text

/// `معكوس`: a list's elements in reverse order (a new list with identity `fresh`), or a text reversed.
pub open spec fn spec_reversed(args: Seq<Val>, fresh: u64) -> BuiltinModel {
    if args.len() == 0 {
        generic_err("معكوس يتطلب معامل واحد"@)
    } else {
        match args[0] {
            Val::List(_, s) => Ok(Val::List(fresh, s.reverse())),
            Val::Str(s) => Ok(Val::Str(s.reverse())),
            _ => type_err("معكوس غير مدعوم لهذا النوع"@),
        }
    }
}

fn reverse_values(items: &Vec<Value>) -> (r: Vec<Value>)
    ensures
        vals(r@) == vals(items@).reverse(),
{
    let mut out: Vec<Value> = Vec::new();
    let mut i = items.len();
    while i > 0
        invariant
            i <= items@.len(),
            vals(out@) =~= vals(items@).reverse().subrange(0, (items@.len() - i) as int),
        decreases i,
    {
        i = i - 1;
        let ghost before = out@;
        out.push(items[i].duplicate());
        assert(vals(out@) =~= vals(before).push(items@[i as int]@));
    }
    out
}

fn reverse_chars(s: &Vec<char>) -> (r: Vec<char>)
    ensures
        r@ == s@.reverse(),
{
    let mut out: Vec<char> = Vec::new();
    let mut i = s.len();
    while i > 0
        invariant
            i <= s@.len(),
            out@ =~= s@.reverse().subrange(0, (s@.len() - i) as int),
        decreases i,
    {
        i = i - 1;
        out.push(s[i]);
    }
    out
}

pub fn builtin_reversed(args: &Vec<Value>, fresh: u64) -> (r: Result<Value, RuntimeError>)
    ensures
        builtin_model(r) == spec_reversed(vals(args@), fresh),
{
    if args.len() == 0 {
        return fail("معكوس يتطلب معامل واحد");
    }
    match &args[0] {
        Value::List(l) => Ok(Value::List(ListObj { oid: fresh, items: reverse_values(&l.items) })),
        Value::String(s) => Ok(Value::String(reverse_chars(s))),
        _ => fail_typed("استثناء_نوع", "معكوس غير مدعوم لهذا النوع"),
    }
}

/// `معكوس_نص`: a text reversed.
pub open spec fn spec_reverse_text(args: Seq<Val>) -> BuiltinModel {
    if args.len() == 0 {
        generic_err("معكوس_نص يتطلب نصاً"@)
    } else {
        match args[0] {
            Val::Str(s) => Ok(Val::Str(s.reverse())),
            _ => generic_err("المعامل يجب ان يكون نصاً"@),
        }
    }
}

pub fn builtin_reverse_text(args: &Vec<Value>) -> (r: Result<Value, RuntimeError>)
    ensures
        builtin_model(r) == spec_reverse_text(vals(args@)),
{
    if args.len() == 0 {
        return fail("معكوس_نص يتطلب نصاً");
    }
    match &args[0] {
        Value::String(s) => Ok(Value::String(reverse_chars(s))),
        _ => fail("المعامل يجب ان يكون نصاً"),
    }
}

/// `بداية_بـ` (`suffix` false) and `نهاية_بـ` (`suffix` true): prefix and suffix tests.
pub open spec fn spec_affix(args: Seq<Val>, suffix: bool) -> BuiltinModel {
    let name = if suffix { "نهاية_بـ"@ } else { "بداية_بـ"@ };
    if args.len() < 2 {
        generic_err(name + " يتطلب نصاً وبحثاً"@)
    } else {
        match (args[0], args[1]) {
            (Val::Str(s), Val::Str(p)) => Ok(Val::Bool(p.len() <= s.len() && (if suffix {
                s.subrange(s.len() - p.len(), s.len() as int) == p
            } else {
                s.subrange(0, p.len() as int) == p
            }))),
            _ => type_err(name + " يتطلب نصين"@),
        }
    }
}

fn affix_test(s: &Vec<char>, p: &Vec<char>, suffix: bool) -> (r: bool)
    ensures
        r == (p@.len() <= s@.len() && (if suffix {
            s@.subrange(s@.len() - p@.len(), s@.len() as int) == p@
        } else {
            s@.subrange(0, p@.len() as int) == p@
        })),
{
    if p.len() > s.len() {
        return false;
    }
    let off = if suffix { s.len() - p.len() } else { 0 };
    let mut i: usize = 0;
    while i < p.len()
        invariant
            p@.len() <= s@.len(),
            off + p@.len() <= s@.len(),
            off == (if suffix { s@.len() - p@.len() } else { 0 }),
            i <= p@.len(),
            s@.len() == s.len(),
            forall|j: int| 0 <= j < i ==> s@[off + j] == p@[j],
        decreases p@.len() - i,
    {
        assert(off + i < s@.len());
        if s[off + i] != p[i] {
            assert(s@.subrange(off as int, off + p@.len())[i as int] != p@[i as int]);
            return false;
        }
        i = i + 1;
    }
    assert(s@.subrange(off as int, off + p@.len()) =~= p@);
    true
}

pub fn builtin_affix(args: &Vec<Value>, suffix: bool) -> (r: Result<Value, RuntimeError>)
    ensures
        builtin_model(r) == spec_affix(vals(args@), suffix),
{
    let mut name = if suffix { str_to_chars("نهاية_بـ") } else { str_to_chars("بداية_بـ") };
    if args.len() < 2 {
        let tail = str_to_chars(" يتطلب نصاً وبحثاً");
        crate::text::extend_chars(&mut name, &tail);
        return Err(RuntimeError::new(chars_to_string(&name)));
    }
    match (&args[0], &args[1]) {
        (Value::String(s), Value::String(p)) => Ok(Value::Boolean(affix_test(s, p, suffix))),
        _ => {
            let tail = str_to_chars(" يتطلب نصين");
            crate::text::extend_chars(&mut name, &tail);
            Err(RuntimeError::new_typed(chars_to_string(&str_to_chars("استثناء_نوع")), chars_to_string(&name)))
        }
    }
}

/// `تكرار`: a text repeated a non-negative number of times.
pub open spec fn spec_repeat(args: Seq<Val>) -> BuiltinModel {
    if args.len() < 2 {
        generic_err("تكرار يتطلب نصاً وعدد مرات"@)
    } else {
        match args[0] {
            Val::Str(s) => match args[1] {
                Val::Int(n) => if n < 0 {
                    generic_err("عدد المرات لا يمكن ان يكون سالباً"@)
                } else {
                    Ok(Val::Str(crate::ops::repeat_seq(s, n as nat)))
                },
                _ => generic_err("عدد المرات يجب ان يكون صحيحاً"@),
            },
            _ => generic_err("المعامل الاول يجب ان يكون نصاً"@),
        }
    }
}

pub fn builtin_repeat(args: &Vec<Value>) -> (r: Result<Value, RuntimeError>)
    ensures
        builtin_model(r) == spec_repeat(vals(args@)),
{
    if args.len() < 2 {
        return fail("تكرار يتطلب نصاً وعدد مرات");
    }
    match &args[0] {
        Value::String(s) => match &args[1] {
            Value::Integer(n) => if *n < 0 {
                fail("عدد المرات لا يمكن ان يكون سالباً")
            } else {
                Ok(Value::String(crate::ops::repeat_chars(s, *n)))
            },
            _ => fail("عدد المرات يجب ان يكون صحيحاً"),
        },
        _ => fail("المعامل الاول يجب ان يكون نصاً"),
    }
}

// ---------------------------------------------------------------- dictionaries

/// `مفاتيح` (0), `قيم` (1), `ازواج` (2): a dictionary's keys, values, or
/// [key, value] lists, as a new list with identity `fresh`; the pair lists
/// take identities from `fresh + 1` on.
pub open spec fn spec_dict_view(args: Seq<Val>, which: u8, fresh: u64) -> BuiltinModel {
    let name = if which == 0 { "مفاتيح"@ } else if which == 1 { "قيم"@ } else { "ازواج"@ };
    if args.len() == 0 {
        generic_err(name + " يتطلب فهرساً"@)
    } else {
        match args[0] {
            Val::Dict(_, pairs) => Ok(Val::List(fresh, Seq::new(pairs.len(), |k: int|
                if which == 0 { pairs[k].0 } else if which == 1 { pairs[k].1 }
                else { Val::List(crate::containers::tuple_oid(crate::ops::wrap_add_u64(fresh), k), seq![pairs[k].0, pairs[k].1]) }))),
            _ => type_err(name + " يتطلب فهرساً"@),
        }
    }
}

pub fn builtin_dict_view(args: &Vec<Value>, which: u8, fresh: u64) -> (r: Result<Value, RuntimeError>)
    ensures
        builtin_model(r) == spec_dict_view(vals(args@), which, fresh),
{
    let mut name = if which == 0 { str_to_chars("مفاتيح") } else if which == 1 { str_to_chars("قيم") } else { str_to_chars("ازواج") };
    let tail = str_to_chars(" يتطلب فهرساً");
    crate::text::extend_chars(&mut name, &tail);
    if args.len() == 0 {
        return Err(RuntimeError::new(chars_to_string(&name)));
    }
    match &args[0] {
        Value::Dict(d) => {
            let ghost pm = val_pairs(d.pairs@);
            let base = fresh.wrapping_add(1);
            let ghost target = Seq::new(pm.len(), |k: int|
                if which == 0 { pm[k].0 } else if which == 1 { pm[k].1 }
                else { Val::List(crate::containers::tuple_oid(crate::ops::wrap_add_u64(fresh), k), seq![pm[k].0, pm[k].1]) });
            let mut out: Vec<Value> = Vec::new();
            let mut k: usize = 0;
            while k < d.pairs.len()
                invariant
                    k <= d.pairs@.len(),
                    pm == val_pairs(d.pairs@),
                    base == crate::ops::wrap_add_u64(fresh),
                    target == Seq::new(pm.len(), |k: int|
                        if which == 0 { pm[k].0 } else if which == 1 { pm[k].1 }
                        else { Val::List(crate::containers::tuple_oid(crate::ops::wrap_add_u64(fresh), k), seq![pm[k].0, pm[k].1]) }),
                    vals(out@) =~= target.subrange(0, k as int),
                decreases d.pairs@.len() - k,
            {
                let item = if which == 0 {
                    d.pairs[k].0.duplicate()
                } else if which == 1 {
                    d.pairs[k].1.duplicate()
                } else {
                    let mut both: Vec<Value> = Vec::new();
                    both.push(d.pairs[k].0.duplicate());
                    both.push(d.pairs[k].1.duplicate());
                    assert(vals(both@) =~= seq![pm[k as int].0, pm[k as int].1]);
                    Value::List(ListObj { oid: base.wrapping_add(k as u64), items: both })
                };
                assert(item@ == target[k as int]);
                let ghost before = out@;
                out.push(item);
                assert(vals(out@) =~= vals(before).push(target[k as int]));
                k = k + 1;
            }
            assert(target.subrange(0, k as int) =~= target);
            proof {
                if let Ok(Val::List(_, sq)) = spec_dict_view(vals(args@), which, fresh) {
                    assert(sq =~= vals(out@));
                }
            }
            Ok(Value::List(ListObj { oid: fresh, items: out }))
        }
        _ => Err(RuntimeError::new_typed(chars_to_string(&str_to_chars("استثناء_نوع")), chars_to_string(&name))),
    }
}

/// `يحتوي_المفتاح`: whether a dictionary has an entry for the key.
pub open spec fn spec_has_key(args: Seq<Val>) -> BuiltinModel {
    if args.len() < 2 {
        generic_err("يحتوي_المفتاح يتطلب فهرساً ومفتاحاً"@)
    } else {
        match args[0] {
            Val::Dict(_, pairs) => Ok(Val::Bool(crate::containers::key_index(pairs, args[1]) is Some)),
            _ => type_err("يحتوي_المفتاح يتطلب فهرساً"@),
        }
    }
}

pub fn builtin_has_key(args: &Vec<Value>) -> (r: Result<Value, RuntimeError>)
    ensures
        builtin_model(r) == spec_has_key(vals(args@)),
{
    if args.len() < 2 {
        return fail("يحتوي_المفتاح يتطلب فهرساً ومفتاحاً");
    }
    match &args[0] {
        Value::Dict(d) => Ok(Value::Boolean(crate::containers::find_key(&d.pairs, &args[1]).is_some())),
        _ => fail_typed("استثناء_نوع", "يحتوي_المفتاح يتطلب فهرساً"),
    }
}

// ---------------------------------------------------------------- numbers

/// Euclid's algorithm with truncating remainders, as the machine word computes it.
pub open spec fn euclid(x: int, y: int) -> int
    decreases (if y < 0 { -y } else { y }),
{
    if y == 0 {
        x
    } else {
        let r = crate::ops::trunc_rem(x, y);
        if (if r < 0 { -r } else { r }) < (if y < 0 { -y } else { y }) { euclid(y, r) } else { y }
    }
}

/// No remainder step of Euclid's algorithm divides the least integer by -1.
pub open spec fn euclid_defined(x: i64, y: i64) -> bool {
    !(x == i64::MIN && y == -1) && !(y == i64::MIN && x == -1)
}

/// `اكبر_قاسم`: the greatest common divisor of two integers (its absolute value, wrapping for the least integer).
pub open spec fn spec_gcd(args: Seq<Val>) -> BuiltinModel {
    if args.len() < 2 {
        generic_err("gcd يتطلب معاملين"@)
    } else {
        match (args[0], args[1]) {
            (Val::Int(x), Val::Int(y)) => {
                let g = euclid(x as int, y as int);
                Ok(Val::Int(if g < 0 { crate::ops::wrap_sub(0, g as i64) } else { g as i64 }))
            },
            _ => type_err("gcd يتطلب عددين صحيحين"@),
        }
    }
}

pub fn builtin_gcd(args: &Vec<Value>) -> (r: Result<Value, RuntimeError>)
    requires
        args@.len() >= 2 ==> (args@[0]@ matches Val::Int(x) ==> (args@[1]@ matches Val::Int(y) ==> euclid_defined(x, y))),
    ensures
        builtin_model(r) == spec_gcd(vals(args@)),
{
    if args.len() < 2 {
        return fail("gcd يتطلب معاملين");
    }
    match (&args[0], &args[1]) {
        (Value::Integer(a), Value::Integer(b)) => {
            let mut x = *a;
            let mut y = *b;
            while y != 0
                invariant
                    euclid(x as int, y as int) == euclid(*a as int, *b as int),
                    !(x == i64::MIN && y == -1),
                    !(y == i64::MIN && x == -1),
                decreases (if y < 0 { -(y as int) } else { y as int }),
            {
                let t = y;
                let r = crate::ops::int_rem(x, y);
                proof {
                    let ri = r as int;
                    let yi = y as int;
                    let xi = x as int;
                    assert((if ri < 0 { -ri } else { ri }) < (if yi < 0 { -yi } else { yi })) by (nonlinear_arith)
                        requires
                            yi != 0,
                            ri == crate::ops::trunc_rem(xi, yi),
                    {
                        if xi >= 0 && yi > 0 {
                        } else if xi < 0 && yi < 0 {
                        } else if xi < 0 {
                        } else {
                        }
                    }
                    if y == i64::MIN {
                        if x >= 0 {
                            assert(xi % (-yi) == xi);
                        } else if x > i64::MIN {
                            assert((-xi) % (-yi) == -xi);
                        }
                    }
                }
                y = r;
                x = t;
            }
            let g = if x < 0 { 0i64.wrapping_sub(x) } else { x };
            Ok(Value::Integer(g))
        }
        _ => fail_typed("استثناء_نوع", "gcd يتطلب عددين صحيحين"),
    }
}

/// The pair of consecutive Fibonacci numbers after `k` steps from (0, 1), wrapping around.
pub open spec fn fib_pair(k: nat) -> (i64, i64)
    decreases k,
{
    if k == 0 {
        (0, 1)
    } else {
        let (a, b) = fib_pair((k - 1) as nat);
        (b, crate::ops::wrap_add(a, b))
    }
}

/// `فيبوناتشي`: the `n`-th Fibonacci number (0 for `n <= 0`, wrapping around past the machine word).
pub open spec fn spec_fibonacci(args: Seq<Val>) -> BuiltinModel {
    if args.len() == 0 {
        generic_err("فيبوناتشي تتطلب رقماً"@)
    } else {
        match args[0] {
            Val::Int(n) => Ok(Val::Int(if n <= 0 { 0 } else { fib_pair((n - 1) as nat).1 })),
            _ => type_err("فيبوناتشي تتطلب رقماً"@),
        }
    }
}

pub fn builtin_fibonacci(args: &Vec<Value>) -> (r: Result<Value, RuntimeError>)
    ensures
        builtin_model(r) == spec_fibonacci(vals(args@)),
{
    if args.len() == 0 {
        return fail("فيبوناتشي تتطلب رقماً");
    }
    match &args[0] {
        Value::Integer(n) => {
            if *n <= 0 {
                return Ok(Value::Integer(0));
            }
            let steps = (*n - 1) as u64;
            let mut a: i64 = 0;
            let mut b: i64 = 1;
            let mut k: u64 = 0;
            while k < steps
                invariant
                    k <= steps,
                    (a, b) == fib_pair(k as nat),
                decreases steps - k,
            {
                let t = a.wrapping_add(b);
                a = b;
                b = t;
                k = k + 1;
            }
            Ok(Value::Integer(b))
        }
        _ => fail_typed("استثناء_نوع", "فيبوناتشي تتطلب رقماً"),
    }
}

// ---------------------------------------------------------------- outside encoders and patterns

/// The standard Base64 encoding (with padding) of the UTF-8 bytes of a text.
pub uninterp spec fn base64_encoding(text: Seq<char>) -> Seq<char>;

/// Calls `base64::engine::general_purpose::STANDARD.encode` on the UTF-8
/// bytes of `text`.  What the encoding is, is named and not stated.  The
/// length bound keeps the encoder's size computation from overflowing.
#[verifier::external_body]
fn base64_encode(text: &String) -> (r: String)
    requires
        text@.len() <= usize::MAX / 8,
    ensures
        r@ == base64_encoding(text@),
{
    base64::engine::general_purpose::STANDARD.encode(text.as_bytes())
}

/// `تشفير_64`: the Base64 encoding of a text.
pub open spec fn spec_base64(args: Seq<Val>) -> BuiltinModel {
    if args.len() == 0 {
        generic_err("تشفير_64 يتطلب نصاً"@)
    } else {
        match args[0] {
            Val::Str(t) => Ok(Val::Str(base64_encoding(t))),
            _ => type_err("تشفير_64 يتطلب نصاً"@),
        }
    }
}

pub fn builtin_base64(args: &Vec<Value>) -> (r: Result<Value, RuntimeError>)
    requires
        args@.len() > 0 ==> (args@[0]@ matches Val::Str(t) ==> t.len() <= usize::MAX / 8),
    ensures
        builtin_model(r) == spec_base64(vals(args@)),
{
    if args.len() == 0 {
        return fail("تشفير_64 يتطلب نصاً");
    }
    match &args[0] {
        Value::String(t) => {
            let encoded = base64_encode(&chars_to_string(t));
            Ok(Value::String(string_to_chars(&encoded)))
        }
        _ => fail_typed("استثناء_نوع", "تشفير_64 يتطلب نصاً"),
    }
}

/// Whether the regular expression `pattern` matches somewhere in `text`, or
/// the text of the error the pattern is refused with.
pub uninterp spec fn regex_search(pattern: Seq<char>, text: Seq<char>) -> Result<bool, Seq<char>>;

/// Compiles `pattern` with `regex::Regex::new` and tests it with `is_match`
/// on `text`; an invalid pattern gives the error's display text.  Both
/// results are named, not stated.
#[verifier::external_body]
fn regex_is_match(pattern: &String, text: &String) -> (r: Result<bool, String>)
    ensures
        match r {
            Ok(b) => regex_search(pattern@, text@) == Ok::<bool, Seq<char>>(b),
            Err(m) => regex_search(pattern@, text@) == Err::<bool, Seq<char>>(m@),
        },
{
    match regex::Regex::new(pattern) {
        Ok(re) => Ok(re.is_match(text)),
        Err(e) => Err(e.to_string()),
    }
}

/// The text with every match of the regular expression `pattern` replaced
/// by `replacement` (with `$name` group references expanded), or the text
/// of the error the pattern is refused with.
pub uninterp spec fn regex_substitution(pattern: Seq<char>, text: Seq<char>, replacement: Seq<char>) -> Result<Seq<char>, Seq<char>>;

/// Compiles `pattern` with `regex::Regex::new` and calls `replace_all` on
/// `text` with `replacement`; an invalid pattern gives the error's display
/// text.  Both results are named, not stated.
#[verifier::external_body]
fn regex_replace_all(pattern: &String, text: &String, replacement: &String) -> (r: Result<String, String>)
    ensures
        match r {
            Ok(t) => regex_substitution(pattern@, text@, replacement@) == Ok::<Seq<char>, Seq<char>>(t@),
            Err(m) => regex_substitution(pattern@, text@, replacement@) == Err::<Seq<char>, Seq<char>>(m@),
        },
{
    match regex::Regex::new(pattern) {
        Ok(re) => Ok(re.replace_all(text, replacement.as_str()).to_string()),
        Err(e) => Err(e.to_string()),
    }
}

pub open spec fn pattern_error(m: Seq<char>) -> (Seq<char>, Seq<char>) {
    (crate::ops::type_error_class(), "نمط غير صحيح: "@ + m)
}

/// `نمط_طابق`: whether a pattern matches a text.
pub open spec fn spec_pattern_match(args: Seq<Val>) -> BuiltinModel {
    if args.len() == 0 {
        generic_err("نمط_طابق يتطلب نمطاً"@)
    } else if args.len() == 1 {
        generic_err("نمط_طابق يتطلب نصاً"@)
    } else {
        match (args[0], args[1]) {
            (Val::Str(p), Val::Str(t)) => match regex_search(p, t) {
                Ok(b) => Ok(Val::Bool(b)),
                Err(m) => Err(pattern_error(m)),
            },
            _ => type_err("نمط_طابق يتطلب نمطين"@),
        }
    }
}

pub(crate) fn pattern_failure(m: String) -> (r: Result<Value, RuntimeError>)
    ensures
        builtin_model(r) == Err::<Val, (Seq<char>, Seq<char>)>(pattern_error(m@)),
{
    let mut msg = str_to_chars("نمط غير صحيح: ");
    let mc = string_to_chars(&m);
    crate::text::extend_chars(&mut msg, &mc);
    Err(RuntimeError::new_typed(chars_to_string(&str_to_chars("استثناء_نوع")), chars_to_string(&msg)))
}

pub fn builtin_pattern_match(args: &Vec<Value>) -> (r: Result<Value, RuntimeError>)
    ensures
        builtin_model(r) == spec_pattern_match(vals(args@)),
{
    if args.len() == 0 {
        return fail("نمط_طابق يتطلب نمطاً");
    }
    if args.len() == 1 {
        return fail("نمط_طابق يتطلب نصاً");
    }
    match (&args[0], &args[1]) {
        (Value::String(p), Value::String(t)) => match regex_is_match(&chars_to_string(p), &chars_to_string(t)) {
            Ok(b) => Ok(Value::Boolean(b)),
            Err(m) => pattern_failure(m),
        },
        _ => fail_typed("استثناء_نوع", "نمط_طابق يتطلب نمطين"),
    }
}

/// `نمط_استبدل`: every match of a pattern in a text replaced.
pub open spec fn spec_pattern_replace(args: Seq<Val>) -> BuiltinModel {
    if args.len() == 0 {
        generic_err("نمط_استبدل يتطلب نمطاً"@)
    } else if args.len() == 1 {
        generic_err("نمط_استبدل يتطلب نصاً"@)
    } else if args.len() == 2 {
        generic_err("نمط_استبدل يتطلب نصاً للاستبدال"@)
    } else {
        match (args[0], args[1], args[2]) {
            (Val::Str(p), Val::Str(t), Val::Str(rep)) => match regex_substitution(p, t, rep) {
                Ok(out) => Ok(Val::Str(out)),
                Err(m) => Err(pattern_error(m)),
            },
            _ => type_err("نمط_استبدل يتطلب 3 نصوص"@),
        }
    }
}

pub fn builtin_pattern_replace(args: &Vec<Value>) -> (r: Result<Value, RuntimeError>)
    ensures
        builtin_model(r) == spec_pattern_replace(vals(args@)),
{
    if args.len() == 0 {
        return fail("نمط_استبدل يتطلب نمطاً");
    }
    if args.len() == 1 {
        return fail("نمط_استبدل يتطلب نصاً");
    }
    if args.len() == 2 {
        return fail("نمط_استبدل يتطلب نصاً للاستبدال");
    }
    match (&args[0], &args[1], &args[2]) {
        (Value::String(p), Value::String(t), Value::String(rep)) =>
            match regex_replace_all(&chars_to_string(p), &chars_to_string(t), &chars_to_string(rep)) {
                Ok(out) => Ok(Value::String(string_to_chars(&out))),
                Err(m) => pattern_failure(m),
            },
        _ => fail_typed("استثناء_نوع", "نمط_استبدل يتطلب 3 نصوص"),
    }
}

// ---------------------------------------------------------------- dispatch

/// Arguments on which the greatest-common-divisor loop would divide the
/// least integer by -1 (which panics).
pub open spec fn gcd_refused(args: Seq<Val>) -> bool {
    args.len() >= 2 && match (args[0], args[1]) {
        (Val::Int(x), Val::Int(y)) => !euclid_defined(x, y),
        _ => false,
    }
}

fn gcd_refused_exec(args: &Vec<Value>) -> (r: bool)
    ensures
        r == gcd_refused(vals(args@)),
{
    if args.len() < 2 {
        return false;
    }
    match (&args[0], &args[1]) {
        (Value::Integer(x), Value::Integer(y)) => (*x == i64::MIN && *y == -1) || (*y == i64::MIN && *x == -1),
        _ => false,
    }
}

/// A text too long for the encoder's size computation.
pub open spec fn base64_refused(args: Seq<Val>) -> bool {
    args.len() > 0 && match args[0] {
        Val::Str(t) => t.len() > usize::MAX / 8,
        _ => false,
    }
}

fn base64_refused_exec(args: &Vec<Value>) -> (r: bool)
    ensures
        r == base64_refused(vals(args@)),
{
    if args.len() == 0 {
        return false;
    }
    match &args[0] {
        Value::String(t) => t.len() > usize::MAX / 8,
        _ => false,
    }
}

/// The outcome of the builtin `name` on `args` (new containers take
/// identities from `fresh` on), or `None` for a builtin the caller performs.
pub open spec fn spec_builtin(name: Seq<char>, args: Seq<Val>, fresh: u64) -> Option<BuiltinModel> {
    if name == "طول"@ {
        if args.len() > 0 && args[0] is Instance { None } else { Some(spec_len(args)) }
    } else if name == "مدى"@ {
        Some(spec_range(args))
    } else if name == "نوع"@ {
        Some(spec_type_of(args))
    } else if name == "صحيح؟"@ {
        Some(spec_is_kind(args, 0))
    } else if name == "عشري؟"@ {
        Some(spec_is_kind(args, 1))
    } else if name == "نص؟"@ {
        Some(spec_is_kind(args, 2))
    } else if name == "قائمة؟"@ {
        Some(spec_is_kind(args, 3))
    } else if name == "معكوس"@ {
        Some(spec_reversed(args, fresh))
    } else if name == "معكوس_نص"@ {
        Some(spec_reverse_text(args))
    } else if name == "بداية_بـ"@ {
        Some(spec_affix(args, false))
    } else if name == "نهاية_بـ"@ {
        Some(spec_affix(args, true))
    } else if name == "تكرار"@ {
        Some(spec_repeat(args))
    } else if name == "مفاتيح"@ {
        Some(spec_dict_view(args, 0, fresh))
    } else if name == "قيم"@ {
        Some(spec_dict_view(args, 1, fresh))
    } else if name == "ازواج"@ {
        Some(spec_dict_view(args, 2, fresh))
    } else if name == "يحتوي_المفتاح"@ {
        Some(spec_has_key(args))
    } else if name == "اكبر_قاسم"@ {
        if gcd_refused(args) { None } else { Some(spec_gcd(args)) }
    } else if name == "فيبوناتشي"@ {
        Some(spec_fibonacci(args))
    } else if name == "تشفير_64"@ {
        if base64_refused(args) { None } else { Some(spec_base64(args)) }
    } else if name == "نمط_طابق"@ {
        Some(spec_pattern_match(args))
    } else if name == "نمط_استبدل"@ {
        Some(spec_pattern_replace(args))
    } else {
        match crate::builtin_text::spec_text_builtin(name, args) {
            Some(r) => Some(r),
            None => match crate::builtin_codec::spec_codec_builtin(name, args, fresh) {
                Some(r) => Some(r),
                None => if crate::builtin_lists::list_builtin_name(name) {
                    crate::builtin_lists::spec_list_builtin(name, args, fresh)
                } else {
                    crate::builtin_math::spec_math_builtin(name, args, fresh)
                },
            },
        }
    }
}

/// Performs the builtin `name` on `args` if it is one of this module's.
pub fn call_builtin(name: &Vec<char>, args: &Vec<Value>, fresh: u64) -> (r: Option<Result<Value, RuntimeError>>)
    ensures
        match r {
            Some(x) => spec_builtin(name@, vals(args@), fresh) == Some(builtin_model(x)),
            None => spec_builtin(name@, vals(args@), fresh) is None,
        },
{
    if chars_eq(name, &str_to_chars("طول")) {
        return if args.len() > 0 && matches!(args[0], Value::Instance(_)) { None } else { Some(builtin_len(args)) };
    }
    if chars_eq(name, &str_to_chars("مدى")) {
        return Some(builtin_range(args));
    }
    if chars_eq(name, &str_to_chars("نوع")) {
        return Some(builtin_type_of(args));
    }
    if chars_eq(name, &str_to_chars("صحيح؟")) {
        return Some(builtin_is_kind(args, 0));
    }
    if chars_eq(name, &str_to_chars("عشري؟")) {
        return Some(builtin_is_kind(args, 1));
    }
    if chars_eq(name, &str_to_chars("نص؟")) {
        return Some(builtin_is_kind(args, 2));
    }
    if chars_eq(name, &str_to_chars("قائمة؟")) {
        return Some(builtin_is_kind(args, 3));
    }
    if chars_eq(name, &str_to_chars("معكوس")) {
        return Some(builtin_reversed(args, fresh));
    }
    if chars_eq(name, &str_to_chars("معكوس_نص")) {
        return Some(builtin_reverse_text(args));
    }
    if chars_eq(name, &str_to_chars("بداية_بـ")) {
        return Some(builtin_affix(args, false));
    }
    if chars_eq(name, &str_to_chars("نهاية_بـ")) {
        return Some(builtin_affix(args, true));
    }
    if chars_eq(name, &str_to_chars("تكرار")) {
        return Some(builtin_repeat(args));
    }
    if chars_eq(name, &str_to_chars("مفاتيح")) {
        return Some(builtin_dict_view(args, 0, fresh));
    }
    if chars_eq(name, &str_to_chars("قيم")) {
        return Some(builtin_dict_view(args, 1, fresh));
    }
    if chars_eq(name, &str_to_chars("ازواج")) {
        return Some(builtin_dict_view(args, 2, fresh));
    }
    if chars_eq(name, &str_to_chars("يحتوي_المفتاح")) {
        return Some(builtin_has_key(args));
    }
    if chars_eq(name, &str_to_chars("اكبر_قاسم")) {
        return if gcd_refused_exec(args) { None } else { Some(builtin_gcd(args)) };
    }
    if chars_eq(name, &str_to_chars("فيبوناتشي")) {
        return Some(builtin_fibonacci(args));
    }
    if chars_eq(name, &str_to_chars("تشفير_64")) {
        return if base64_refused_exec(args) { None } else { Some(builtin_base64(args)) };
    }
    if chars_eq(name, &str_to_chars("نمط_طابق")) {
        return Some(builtin_pattern_match(args));
    }
    if chars_eq(name, &str_to_chars("نمط_استبدل")) {
        return Some(builtin_pattern_replace(args));
    }
    match crate::builtin_text::call_text_builtin(name, args) {
        Some(r) => Some(r),
        None => match crate::builtin_codec::call_codec_builtin(name, args, fresh) {
            Some(r) => Some(r),
            None => if crate::builtin_lists::list_builtin_name_exec(name) {
                crate::builtin_lists::call_list_builtin(name, args, fresh)
            } else {
                crate::builtin_math::call_math_builtin(name, args, fresh)
            },
        },
    }
}

} // verus!
