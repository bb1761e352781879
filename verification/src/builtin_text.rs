//! The conversion and text builtins: a value's text and truth, character
//! codes, the sign of a number, hexadecimal rendering, substring tests,
//! padding, character slices and joining.

use vstd::prelude::*;
use crate::value::{Value, Val, vals, val_text, truthy, group_value_model};
use crate::error::RuntimeError;
use crate::builtins::{BuiltinModel, builtin_model, generic_err, type_err, fail, fail_typed};
use crate::text::{str_to_chars, extend_chars};

verus! {

broadcast use group_value_model;

// ---------------------------------------------------------------- conversions

/// `نص`: the text of a value.
pub open spec fn spec_to_text(args: Seq<Val>) -> BuiltinModel {
    if args.len() == 0 { generic_err("نص يتطلب معامل واحد"@) } else { Ok(Val::Str(val_text(args[0]))) }
}

pub fn builtin_to_text(args: &Vec<Value>) -> (r: Result<Value, RuntimeError>)
    ensures
        builtin_model(r) == spec_to_text(vals(args@)),
{
    if args.len() == 0 {
        return fail("نص يتطلب معامل واحد");
    }
    Ok(Value::String(args[0].to_string_value()))
}

/// `منطق`: the truth of a value.
pub open spec fn spec_to_bool(args: Seq<Val>) -> BuiltinModel {
    if args.len() == 0 { generic_err("منطق يتطلب معامل واحد"@) } else { Ok(Val::Bool(truthy(args[0]))) }
}

pub fn builtin_to_bool(args: &Vec<Value>) -> (r: Result<Value, RuntimeError>)
    ensures
        builtin_model(r) == spec_to_bool(vals(args@)),
{
    if args.len() == 0 {
        return fail("منطق يتطلب معامل واحد");
    }
    Ok(Value::Boolean(args[0].is_truthy()))
}

/// `رقم`: the code of a text's first character.
pub open spec fn spec_char_code(args: Seq<Val>) -> BuiltinModel {
    if args.len() == 0 {
        generic_err("رقم يتطلب معامل واحد"@)
    } else {
        match args[0] {
            Val::Str(s) => if s.len() == 0 { type_err("نص فارغ"@) } else { Ok(Val::Int((s[0] as u32) as i64)) },
            _ => type_err("رقم يتطلب نصاً"@),
        }
    }
}

pub fn builtin_char_code(args: &Vec<Value>) -> (r: Result<Value, RuntimeError>)
    ensures
        builtin_model(r) == spec_char_code(vals(args@)),
{
    if args.len() == 0 {
        return fail("رقم يتطلب معامل واحد");
    }
    match &args[0] {
        Value::String(s) => {
            if s.len() == 0 {
                fail_typed("استثناء_نوع", "نص فارغ")
            } else {
                let c = s[0];
                let code: u32 = c as u32;
                Ok(Value::Integer(code as i64))
            }
        }
        _ => fail_typed("استثناء_نوع", "رقم يتطلب نصاً"),
    }
}

/// Whether `u` is the code of a character (a Unicode scalar value).
pub open spec fn is_scalar(u: u32) -> bool {
    u < 0xD800 || (0xE000 <= u && u <= 0x10FFFF)
}

/// std's `char::from_u32`: the character with code `u` when `u` is the
/// code of one, `None` otherwise, as its documentation states.
#[verifier::external_body]
fn char_from_code(u: u32) -> (r: Option<char>)
    ensures
        match r {
            Some(c) => is_scalar(u) && c as u32 == u && c == u as char,
            None => !is_scalar(u),
        },
{
    char::from_u32(u)
}

/// The low 32 bits of an integer, as an `as u32` cast takes them.
pub open spec fn low_u32(n: i64) -> u32 {
    ((if n >= 0 { n as int } else { n + 0x1_0000_0000_0000_0000 }) % 0x1_0000_0000) as u32
}

fn low_u32_exec(n: i64) -> (r: u32)
    ensures
        r == low_u32(n),
{
    let u: u64 = if n >= 0 {
        n as u64
    } else {
        let t: i64 = n + i64::MAX;
        ((t + 1) as u64) + 0x8000_0000_0000_0000u64
    };
    assert(u as int == (if n >= 0 { n as int } else { n + 0x1_0000_0000_0000_0000 }));
    (u % 0x1_0000_0000u64) as u32
}

/// `حرف`: the character with the given code (its low 32 bits).
pub open spec fn spec_char_of(args: Seq<Val>) -> BuiltinModel {
    if args.len() == 0 {
        generic_err("حرف يتطلب معامل واحد"@)
    } else {
        match args[0] {
            Val::Int(n) => if is_scalar(low_u32(n)) {
                Ok(Val::Str(seq![low_u32(n) as char]))
            } else {
                type_err("رقم غير صالح لحرف"@)
            },
            _ => type_err("حرف يتطلب رقماً"@),
        }
    }
}

pub fn builtin_char_of(args: &Vec<Value>) -> (r: Result<Value, RuntimeError>)
    ensures
        builtin_model(r) == spec_char_of(vals(args@)),
{
    if args.len() == 0 {
        return fail("حرف يتطلب معامل واحد");
    }
    match &args[0] {
        Value::Integer(n) => {
            let u = low_u32_exec(*n);
            match char_from_code(u) {
                Some(c) => {
                    let mut s: Vec<char> = Vec::new();
                    s.push(c);
                    assert(c == u as char);
                    assert(s@ =~= seq![u as char]);
                    Ok(Value::String(s))
                }
                None => fail_typed("استثناء_نوع", "رقم غير صالح لحرف"),
            }
        }
        _ => fail_typed("استثناء_نوع", "حرف يتطلب رقماً"),
    }
}

/// `علامة`: 1, -1 or 0 by the sign of a number (0 for zeros and NaN).
pub open spec fn spec_sign(args: Seq<Val>) -> BuiltinModel {
    if args.len() == 0 {
        generic_err("علامة تتطلب عدداً"@)
    } else {
        match args[0] {
            Val::Int(n) => Ok(Val::Int(if n > 0 { 1 } else if n < 0 { -1i64 } else { 0 })),
            Val::Float(b, _) => Ok(Val::Int(if crate::ops::float_lt(0, b) { 1 } else if crate::ops::float_lt(b, 0) { -1i64 } else { 0 })),
            _ => type_err("علامة تتطلب عدداً"@),
        }
    }
}

pub fn builtin_sign(args: &Vec<Value>) -> (r: Result<Value, RuntimeError>)
    ensures
        builtin_model(r) == spec_sign(vals(args@)),
{
    if args.len() == 0 {
        return fail("علامة تتطلب عدداً");
    }
    match &args[0] {
        Value::Integer(n) => Ok(Value::Integer(if *n > 0 { 1 } else if *n < 0 { -1 } else { 0 })),
        Value::Float(f) => {
            let s: i64 = if crate::ops::float_lt_exec(0, f.bits) { 1 } else if crate::ops::float_lt_exec(f.bits, 0) { -1 } else { 0 };
            Ok(Value::Integer(s))
        }
        _ => fail_typed("استثناء_نوع", "علامة تتطلب عدداً"),
    }
}

// ---------------------------------------------------------------- hexadecimal

/// The lowercase hexadecimal digit for `d` (expects `d < 16`).
pub open spec fn hex_char(d: nat) -> char {
    if d < 10 { (48 + d) as char } else { (87 + d) as char }
}

/// Hexadecimal digits of a natural number, most significant first, no leading zeros.
pub open spec fn hex_digits(n: nat) -> Seq<char>
    decreases n,
{
    if n < 16 { seq![hex_char(n)] } else { hex_digits(n / 16).push(hex_char(n % 16)) }
}

fn hex_digit(d: u64) -> (c: char)
    requires
        d < 16,
    ensures
        c == hex_char(d as nat),
{
    let b: u8 = if d < 10 { 48u8 + (d as u8) } else { 87u8 + (d as u8) };
    b as char
}

fn hex_u64(n: u64) -> (r: Vec<char>)
    ensures
        r@ == hex_digits(n as nat),
    decreases n,
{
    if n < 16 {
        let mut r: Vec<char> = Vec::new();
        r.push(hex_digit(n));
        r
    } else {
        let mut r = hex_u64(n / 16);
        r.push(hex_digit(n % 16));
        r
    }
}

/// An integer's two's-complement bit pattern as a natural number.
pub open spec fn twos_complement(n: i64) -> nat {
    (if n >= 0 { n as int } else { n + 0x1_0000_0000_0000_0000 }) as nat
}

/// `ست_عشري`: `0x` and the hexadecimal digits of an integer's bit pattern.
pub open spec fn spec_hex(args: Seq<Val>) -> BuiltinModel {
    if args.len() == 0 {
        generic_err("ست_عشري يتطلب معامل واحد"@)
    } else {
        match args[0] {
            Val::Int(n) => Ok(Val::Str("0x"@ + hex_digits(twos_complement(n)))),
            _ => type_err("ست_عشري يتطلب رقماً"@),
        }
    }
}

pub fn builtin_hex(args: &Vec<Value>) -> (r: Result<Value, RuntimeError>)
    ensures
        builtin_model(r) == spec_hex(vals(args@)),
{
    if args.len() == 0 {
        return fail("ست_عشري يتطلب معامل واحد");
    }
    match &args[0] {
        Value::Integer(n) => {
            let n = *n;
            let u: u64 = if n >= 0 {
                n as u64
            } else {
                let t: i64 = n + i64::MAX;
                ((t + 1) as u64) + 0x8000_0000_0000_0000u64
            };
            assert(u as nat == twos_complement(n));
            let mut out = str_to_chars("0x");
            let d = hex_u64(u);
            extend_chars(&mut out, &d);
            Ok(Value::String(out))
        }
        _ => fail_typed("استثناء_نوع", "ست_عشري يتطلب رقماً"),
    }
}

// ---------------------------------------------------------------- text

/// `يحتوي`: whether a text contains another.
pub open spec fn spec_text_contains(args: Seq<Val>) -> BuiltinModel {
    if args.len() < 2 {
        generic_err("يحتوي يتطلب معاملين"@)
    } else {
        match args[0] {
            Val::Str(s) => match args[1] {
                Val::Str(p) => Ok(Val::Bool(crate::ops::chars_contain(s, p))),
                _ => generic_err("النمط يجب ان يكون نصاً"@),
            },
            _ => generic_err("المعامل الاول يجب ان يكون نصاً"@),
        }
    }
}

pub fn builtin_text_contains(args: &Vec<Value>) -> (r: Result<Value, RuntimeError>)
    ensures
        builtin_model(r) == spec_text_contains(vals(args@)),
{
    if args.len() < 2 {
        return fail("يحتوي يتطلب معاملين");
    }
    match &args[0] {
        Value::String(s) => match &args[1] {
            Value::String(p) => Ok(Value::Boolean(crate::ops::chars_contain_exec(s, p))),
            _ => fail("النمط يجب ان يكون نصاً"),
        },
        _ => fail("المعامل الاول يجب ان يكون نصاً"),
    }
}

/// `n` copies of `c`.
pub open spec fn copies(c: char, n: nat) -> Seq<char> {
    Seq::new(n, |i: int| c)
}

fn copies_exec(c: char, n: usize) -> (r: Vec<char>)
    ensures
        r@ == copies(c, n as nat),
{
    let mut r: Vec<char> = Vec::new();
    while r.len() < n
        invariant
            r@.len() <= n,
            r@ =~= copies(c, r@.len()),
        decreases n - r@.len(),
    {
        r.push(c);
    }
    r
}

/// A padding width taken as an index: a negative one wraps to
/// a size no text can be padded to, so it is refused (as is one beyond the
/// machine's word).
pub open spec fn width_refused(args: Seq<Val>) -> bool {
    args.len() > 1 && args[0] is Str && (args[1] matches Val::Int(n) && (n < 0 || n > usize::MAX))
}

/// `ملء_صفر`: a text padded on the left with zeros to a width counted in
/// UTF-8 bytes.
pub open spec fn spec_zero_fill(args: Seq<Val>) -> BuiltinModel {
    if args.len() == 0 {
        generic_err("ملء_صفر يتطلب نصاً"@)
    } else {
        match args[0] {
            Val::Str(s) => if args.len() > 1 && args[1] is Int {
                let w = args[1]->Int_0 as int;
                let bytes = crate::formatting::utf8_len(s) as int;
                Ok(Val::Str(copies('0', if w > bytes { (w - bytes) as nat } else { 0 }) + s))
            } else {
                generic_err("العرض مطلوب"@)
            },
            _ => generic_err("المعامل يجب ان يكون نصاً"@),
        }
    }
}

pub fn builtin_zero_fill(args: &Vec<Value>) -> (r: Result<Value, RuntimeError>)
    requires
        !width_refused(vals(args@)),
    ensures
        builtin_model(r) == spec_zero_fill(vals(args@)),
{
    if args.len() == 0 {
        return fail("ملء_صفر يتطلب نصاً");
    }
    match &args[0] {
        Value::String(s) => {
            let w = if args.len() > 1 {
                match &args[1] {
                    Value::Integer(n) => *n,
                    _ => return fail("العرض مطلوب"),
                }
            } else {
                return fail("العرض مطلوب");
            };
            let bytes = crate::formatting::utf8_len_exec(s);
            let pad: usize = if (w as u128) > bytes { ((w as u128) - bytes) as usize } else { 0 };
            let mut out = copies_exec('0', pad);
            extend_chars(&mut out, s);
            Ok(Value::String(out))
        }
        _ => fail("المعامل يجب ان يكون نصاً"),
    }
}

/// `ملء`: a text padded on the left with a character (the first of the
/// third argument when it is a text, else a space) to a width counted in
/// UTF-8 bytes.
pub open spec fn spec_fill(args: Seq<Val>) -> BuiltinModel {
    if args.len() == 0 {
        generic_err("ملء يتطلب نصاً وعرضماً وحراً"@)
    } else if !(args.len() > 1 && args[1] is Int) {
        generic_err("ملء يتطلب عرضاً"@)
    } else {
        let w = args[1]->Int_0 as int;
        let c = if args.len() > 2 && args[2] is Str && args[2]->Str_0.len() > 0 { args[2]->Str_0[0] } else { ' ' };
        match args[0] {
            Val::Str(s) => {
                let bytes = crate::formatting::utf8_len(s) as int;
                Ok(Val::Str(if bytes >= w { s } else { copies(c, (w - bytes) as nat) + s }))
            },
            _ => type_err("ملء يتطلب نصاً"@),
        }
    }
}

pub fn builtin_fill(args: &Vec<Value>) -> (r: Result<Value, RuntimeError>)
    requires
        !width_refused(vals(args@)),
    ensures
        builtin_model(r) == spec_fill(vals(args@)),
{
    if args.len() == 0 {
        return fail("ملء يتطلب نصاً وعرضماً وحراً");
    }
    let w = if args.len() > 1 {
        match &args[1] {
            Value::Integer(n) => *n,
            _ => return fail("ملء يتطلب عرضاً"),
        }
    } else {
        return fail("ملء يتطلب عرضاً");
    };
    let c = if args.len() > 2 {
        match &args[2] {
            Value::String(t) => if t.len() > 0 { t[0] } else { ' ' },
            _ => ' ',
        }
    } else {
        ' '
    };
    match &args[0] {
        Value::String(s) => {
            let bytes = crate::formatting::utf8_len_exec(s);
            if bytes >= (w as u128) {
                Ok(Value::String(crate::value::copy_chars(s)))
            } else {
                let mut out = copies_exec(c, ((w as u128) - bytes) as usize);
                extend_chars(&mut out, s);
                Ok(Value::String(out))
            }
        }
        _ => fail_typed("استثناء_نوع", "ملء يتطلب نصاً"),
    }
}

/// A position taken as an index, limited to `len` (a negative
/// one wraps to a size beyond every text).
pub open spec fn clamp_index(n: i64, len: nat) -> nat {
    if n < 0 || n as int > len { len } else { n as nat }
}

/// The bounds `قطع` takes: the start (0 when not an integer) and the end
/// (the length when not an integer).
pub open spec fn cut_bounds(args: Seq<Val>, len: nat) -> (nat, nat) {
    let start = if args.len() > 1 && args[1] is Int { clamp_index(args[1]->Int_0, len) } else { 0 };
    let end = if args.len() > 2 && args[2] is Int { clamp_index(args[2]->Int_0, len) } else { len };
    (start, end)
}

/// A cut whose start lies past its end makes the slice panic.
pub open spec fn cut_refused(args: Seq<Val>) -> bool {
    args.len() > 0 && args[0] is Str && {
        let (a, b) = cut_bounds(args, args[0]->Str_0.len());
        a > b
    }
}

/// `قطع`: the characters of a text from a start up to an end.
pub open spec fn spec_cut(args: Seq<Val>) -> BuiltinModel {
    if args.len() == 0 {
        generic_err("قطع يتطلب نصاً وبدايةً ونهايةً"@)
    } else {
        match args[0] {
            Val::Str(s) => {
                let (a, b) = cut_bounds(args, s.len());
                Ok(Val::Str(s.subrange(a as int, b as int)))
            },
            _ => type_err("قطع يتطلب نصاً"@),
        }
    }
}

fn clamp_index_exec(n: i64, len: usize) -> (r: usize)
    ensures
        r as nat == clamp_index(n, len as nat),
{
    if n < 0 || (n as u64) > (len as u64) { len } else { n as usize }
}

pub fn builtin_cut(args: &Vec<Value>) -> (r: Result<Value, RuntimeError>)
    requires
        !cut_refused(vals(args@)),
    ensures
        builtin_model(r) == spec_cut(vals(args@)),
{
    if args.len() == 0 {
        return fail("قطع يتطلب نصاً وبدايةً ونهايةً");
    }
    match &args[0] {
        Value::String(s) => {
            let len = s.len();
            let a = if args.len() > 1 {
                match &args[1] {
                    Value::Integer(n) => clamp_index_exec(*n, len),
                    _ => 0,
                }
            } else {
                0
            };
            let b = if args.len() > 2 {
                match &args[2] {
                    Value::Integer(n) => clamp_index_exec(*n, len),
                    _ => len,
                }
            } else {
                len
            };
            let mut out: Vec<char> = Vec::new();
            let mut i = a;
            while i < b
                invariant
                    a <= i <= b <= s@.len(),
                    out@ =~= s@.subrange(a as int, i as int),
                decreases b - i,
            {
                out.push(s[i]);
                i = i + 1;
            }
            Ok(Value::String(out))
        }
        _ => fail_typed("استثناء_نوع", "قطع يتطلب نصاً"),
    }
}

/// The texts of `items` joined with `sep` between them.
pub open spec fn join_texts(items: Seq<Val>, sep: Seq<char>) -> Seq<char>
    decreases items.len(),
{
    if items.len() == 0 {
        Seq::empty()
    } else if items.len() == 1 {
        val_text(items[0])
    } else {
        join_texts(items.drop_last(), sep) + sep + val_text(items.last())
    }
}

/// `اربط`: the texts of a list's elements joined with a separator.
pub open spec fn spec_join(args: Seq<Val>) -> BuiltinModel {
    if args.len() < 2 {
        generic_err("اربط يتطلب فاصلاً ومصفوفة"@)
    } else {
        match args[0] {
            Val::Str(sep) => match args[1] {
                Val::List(_, items) => Ok(Val::Str(join_texts(items, sep))),
                _ => generic_err("المعامل الثاني يجب ان يكون مصفوفة"@),
            },
            _ => generic_err("الفصل يجب ان يكون نصاً"@),
        }
    }
}

/// The texts of `items` joined with `sep` between them.
pub fn join_texts_exec(items: &Vec<Value>, sep: &Vec<char>) -> (r: Vec<char>)
    ensures
        r@ == join_texts(vals(items@), sep@),
{
    let ghost s = vals(items@);
    let mut out: Vec<char> = Vec::new();
    let mut i: usize = 0;
    while i < items.len()
        invariant
            s == vals(items@),
            i <= items@.len(),
            out@ == join_texts(s.subrange(0, i as int), sep@),
        decreases items@.len() - i,
    {
        if i > 0 {
            extend_chars(&mut out, sep);
        }
        let t = items[i].to_string_value();
        extend_chars(&mut out, &t);
        proof {
            let pre = s.subrange(0, i as int);
            let next = s.subrange(0, i + 1);
            assert(next.drop_last() =~= pre);
            assert(next.last() == s[i as int]);
            if i == 0 {
                assert(pre.len() == 0);
            }
        }
        i = i + 1;
    }
    assert(s.subrange(0, items@.len() as int) =~= s);
    out
}

pub fn builtin_join(args: &Vec<Value>) -> (r: Result<Value, RuntimeError>)
    ensures
        builtin_model(r) == spec_join(vals(args@)),
{
    if args.len() < 2 {
        return fail("اربط يتطلب فاصلاً ومصفوفة");
    }
    match &args[0] {
        Value::String(sep) => match &args[1] {
            Value::List(l) => Ok(Value::String(join_texts_exec(&l.items, sep))),
            _ => fail("المعامل الثاني يجب ان يكون مصفوفة"),
        },
        _ => fail("الفصل يجب ان يكون نصاً"),
    }
}

// ---------------------------------------------------------------- dispatch

/// The builtin `name` of this module on `args`; `None` for other names and
/// for the inputs on which the builtin panics.
pub open spec fn spec_text_builtin(name: Seq<char>, args: Seq<Val>) -> Option<BuiltinModel> {
    if name == "نص"@ {
        Some(spec_to_text(args))
    } else if name == "منطق"@ {
        Some(spec_to_bool(args))
    } else if name == "رقم"@ {
        Some(spec_char_code(args))
    } else if name == "حرف"@ {
        Some(spec_char_of(args))
    } else if name == "علامة"@ {
        Some(spec_sign(args))
    } else if name == "ست_عشري"@ {
        Some(spec_hex(args))
    } else if name == "يحتوي"@ {
        Some(spec_text_contains(args))
    } else if name == "ملء_صفر"@ {
        if width_refused(args) { None } else { Some(spec_zero_fill(args)) }
    } else if name == "ملء"@ {
        if width_refused(args) { None } else { Some(spec_fill(args)) }
    } else if name == "قطع"@ {
        if cut_refused(args) { None } else { Some(spec_cut(args)) }
    } else if name == "اربط"@ {
        Some(spec_join(args))
    } else {
        None
    }
}

fn width_refused_exec(args: &Vec<Value>) -> (r: bool)
    ensures
        r == width_refused(vals(args@)),
{
    args.len() > 1 && match (&args[0], &args[1]) {
        (Value::String(_), Value::Integer(n)) => *n < 0 || (*n as u128) > (usize::MAX as u128),
        _ => false,
    }
}

fn cut_refused_exec(args: &Vec<Value>) -> (r: bool)
    ensures
        r == cut_refused(vals(args@)),
{
    if args.len() == 0 {
        return false;
    }
    match &args[0] {
        Value::String(s) => {
            let len = s.len();
            let a = if args.len() > 1 {
                match &args[1] {
                    Value::Integer(n) => clamp_index_exec(*n, len),
                    _ => 0,
                }
            } else {
                0
            };
            let b = if args.len() > 2 {
                match &args[2] {
                    Value::Integer(n) => clamp_index_exec(*n, len),
                    _ => len,
                }
            } else {
                len
            };
            a > b
        }
        _ => false,
    }
}

/// Performs the builtin `name` of this module on `args`.
pub fn call_text_builtin(name: &Vec<char>, args: &Vec<Value>) -> (r: Option<Result<Value, RuntimeError>>)
    ensures
        match r {
            Some(x) => spec_text_builtin(name@, vals(args@)) == Some(builtin_model(x)),
            None => spec_text_builtin(name@, vals(args@)) is None,
        },
{
    let eq = |t: &str| -> (b: bool) ensures b == (name@ == t@) { crate::text::chars_eq(name, &str_to_chars(t)) };
    if eq("نص") {
        Some(builtin_to_text(args))
    } else if eq("منطق") {
        Some(builtin_to_bool(args))
    } else if eq("رقم") {
        Some(builtin_char_code(args))
    } else if eq("حرف") {
        Some(builtin_char_of(args))
    } else if eq("علامة") {
        Some(builtin_sign(args))
    } else if eq("ست_عشري") {
        Some(builtin_hex(args))
    } else if eq("يحتوي") {
        Some(builtin_text_contains(args))
    } else if eq("ملء_صفر") {
        if width_refused_exec(args) { None } else { Some(builtin_zero_fill(args)) }
    } else if eq("ملء") {
        if width_refused_exec(args) { None } else { Some(builtin_fill(args)) }
    } else if eq("قطع") {
        if cut_refused_exec(args) { None } else { Some(builtin_cut(args)) }
    } else if eq("اربط") {
        Some(builtin_join(args))
    } else {
        None
    }
}

} // verus!
