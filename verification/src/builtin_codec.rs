//! Builtins that decode Base64, write the UTF-8 bytes of a text in
//! hexadecimal or as a URL component, and search, split and collect with
//! regular expressions.

use vstd::prelude::*;
use base64::Engine;
use crate::value::{Value, Val, ListObj, DictObj, vals, val_pairs, group_value_model};
use crate::error::RuntimeError;
use crate::builtins::{BuiltinModel, builtin_model, generic_err, type_err, fail, fail_typed, pattern_error, pattern_failure};
use crate::text::{str_to_chars, chars_to_string, string_to_chars};

verus! {

broadcast use group_value_model;

// ---------------------------------------------------------------- outside calls

/// The bytes that the standard Base64 alphabet (with padding) decodes the
/// UTF-8 bytes of `text` to, or the display text of the decoding error.
pub uninterp spec fn base64_decoding(text: Seq<char>) -> Result<Seq<u8>, Seq<char>>;

/// Calls `base64::engine::general_purpose::STANDARD.decode` on the UTF-8
/// bytes of `text`; an error gives its display text.  Both results are
/// named, not stated.
#[verifier::external_body]
fn base64_decode(text: &String) -> (r: Result<Vec<u8>, String>)
    ensures
        match r {
            Ok(b) => base64_decoding(text@) == Ok::<Seq<u8>, Seq<char>>(b@),
            Err(m) => base64_decoding(text@) == Err::<Seq<u8>, Seq<char>>(m@),
        },
{
    match base64::engine::general_purpose::STANDARD.decode(text.as_bytes()) {
        Ok(b) => Ok(b),
        Err(e) => Err(e.to_string()),
    }
}

/// The UTF-8 encoding of a text.
pub uninterp spec fn utf8_encoding(text: Seq<char>) -> Seq<u8>;

/// Calls `str::as_bytes` on `text` and copies the bytes out.  The bytes are
/// named, not stated.
#[verifier::external_body]
fn utf8_bytes(text: &String) -> (r: Vec<u8>)
    ensures
        r@ == utf8_encoding(text@),
{
    text.as_bytes().to_vec()
}

/// The text that `bytes` are the UTF-8 encoding of, when they are valid UTF-8.
pub uninterp spec fn utf8_strict_decoding(bytes: Seq<u8>) -> Option<Seq<char>>;

/// Calls `String::from_utf8` on `bytes`: the text when they are valid
/// UTF-8, nothing otherwise.  The result is named, not stated.
#[verifier::external_body]
fn utf8_strict(bytes: Vec<u8>) -> (r: Option<String>)
    ensures
        match r {
            Some(t) => utf8_strict_decoding(bytes@) == Some(t@),
            None => utf8_strict_decoding(bytes@) is None,
        },
{
    String::from_utf8(bytes).ok()
}

/// The first match of the regular expression `pattern` in `text`: the
/// matched text and its start and end as byte offsets; or the display text
/// of the error the pattern is refused with.
pub uninterp spec fn regex_first(pattern: Seq<char>, text: Seq<char>) -> Result<Option<(Seq<char>, usize, usize)>, Seq<char>>;

/// Compiles `pattern` with `regex::Regex::new` and calls `find` on `text`.
/// Both results are named, not stated.
#[verifier::external_body]
fn regex_find(pattern: &String, text: &String) -> (r: Result<Option<(String, usize, usize)>, String>)
    ensures
        match r {
            Ok(Some((s, a, b))) => regex_first(pattern@, text@) == Ok::<Option<(Seq<char>, usize, usize)>, Seq<char>>(Some((s@, a, b))),
            Ok(None) => regex_first(pattern@, text@) == Ok::<Option<(Seq<char>, usize, usize)>, Seq<char>>(None),
            Err(m) => regex_first(pattern@, text@) == Err::<Option<(Seq<char>, usize, usize)>, Seq<char>>(m@),
        },
{
    match regex::Regex::new(pattern) {
        Ok(re) => Ok(re.find(text).map(|m| (m.as_str().to_string(), m.start(), m.end()))),
        Err(e) => Err(e.to_string()),
    }
}

/// The pieces of `text` between the matches of the regular expression
/// `pattern`, or the display text of the error the pattern is refused with.
pub uninterp spec fn regex_pieces(pattern: Seq<char>, text: Seq<char>) -> Result<Seq<Seq<char>>, Seq<char>>;

/// Compiles `pattern` with `regex::Regex::new` and collects `split` on
/// `text`.  Both results are named, not stated.
#[verifier::external_body]
fn regex_split(pattern: &String, text: &String) -> (r: Result<Vec<String>, String>)
    ensures
        match r {
            Ok(v) => regex_pieces(pattern@, text@) == Ok::<Seq<Seq<char>>, Seq<char>>(Seq::new(v@.len(), |i: int| v@[i]@)),
            Err(m) => regex_pieces(pattern@, text@) == Err::<Seq<Seq<char>>, Seq<char>>(m@),
        },
{
    match regex::Regex::new(pattern) {
        Ok(re) => Ok(re.split(text).map(|s| s.to_string()).collect()),
        Err(e) => Err(e.to_string()),
    }
}

/// For each successive match of the regular expression `pattern` in
/// `text`, the text of its first group when that group took part; or the
/// display text of the error the pattern is refused with.
pub uninterp spec fn regex_first_groups(pattern: Seq<char>, text: Seq<char>) -> Result<Seq<Option<Seq<char>>>, Seq<char>>;

/// Compiles `pattern` with `regex::Regex::new` and collects group 1 of each
/// item of `captures_iter` on `text`.  Both results are named, not stated.
#[verifier::external_body]
fn regex_captures(pattern: &String, text: &String) -> (r: Result<Vec<Option<String>>, String>)
    ensures
        match r {
            Ok(v) => regex_first_groups(pattern@, text@) == Ok::<Seq<Option<Seq<char>>>, Seq<char>>(
                Seq::new(v@.len(), |i: int| match v@[i] { Some(s) => Some(s@), None => None })),
            Err(m) => regex_first_groups(pattern@, text@) == Err::<Seq<Option<Seq<char>>>, Seq<char>>(m@),
        },
{
    match regex::Regex::new(pattern) {
        Ok(re) => Ok(re.captures_iter(text).map(|c| c.get(1).map(|m| m.as_str().to_string())).collect()),
        Err(e) => Err(e.to_string()),
    }
}

// ---------------------------------------------------------------- Base64 decoding

/// `فك_تشفير_64`: the text a Base64 text decodes to (empty when the bytes
/// are not valid UTF-8).
pub open spec fn spec_base64_decode(args: Seq<Val>) -> BuiltinModel {
    if args.len() == 0 {
        generic_err("فك_تشفير_64 يتطلب نصاً"@)
    } else {
        match args[0] {
            Val::Str(t) => match base64_decoding(t) {
                Ok(b) => Ok(Val::Str(match utf8_strict_decoding(b) { Some(x) => x, None => Seq::empty() })),
                Err(m) => Err((crate::ops::type_error_class(), "تشفير 64 غير صحيح: "@ + m)),
            },
            _ => type_err("فك_تشفير_64 يتطلب نصاً"@),
        }
    }
}

pub fn builtin_base64_decode(args: &Vec<Value>) -> (r: Result<Value, RuntimeError>)
    ensures
        builtin_model(r) == spec_base64_decode(vals(args@)),
{
    if args.len() == 0 {
        return fail("فك_تشفير_64 يتطلب نصاً");
    }
    match &args[0] {
        Value::String(t) => match base64_decode(&chars_to_string(t)) {
            Ok(b) => match utf8_strict(b) {
                Some(x) => Ok(Value::String(string_to_chars(&x))),
                None => Ok(Value::String(Vec::new())),
            },
            Err(m) => {
                let mut msg = str_to_chars("تشفير 64 غير صحيح: ");
                let mc = string_to_chars(&m);
                crate::text::extend_chars(&mut msg, &mc);
                Err(RuntimeError::new_typed(chars_to_string(&str_to_chars("استثناء_نوع")), chars_to_string(&msg)))
            }
        },
        _ => fail_typed("استثناء_نوع", "فك_تشفير_64 يتطلب نصاً"),
    }
}

// ---------------------------------------------------------------- byte encodings

/// The lowercase hexadecimal digit of `d` (below 16).
pub open spec fn hex_lower(d: u8) -> char {
    if d < 10 { (('0' as u8) + d) as char } else { (('a' as u8) + d - 10) as char }
}

/// The uppercase hexadecimal digit of `d` (below 16).
pub open spec fn hex_upper(d: u8) -> char {
    if d < 10 { (('0' as u8) + d) as char } else { (('A' as u8) + d - 10) as char }
}

/// Each byte as two lowercase hexadecimal digits.
pub open spec fn hex_text(bytes: Seq<u8>) -> Seq<char>
    decreases bytes.len(),
{
    if bytes.len() == 0 {
        Seq::empty()
    } else {
        hex_text(bytes.drop_last()) + seq![hex_lower(bytes.last() / 16), hex_lower(bytes.last() % 16)]
    }
}

/// Whether a byte stays as itself in a URL component: an ASCII letter or
/// digit, `-`, `_`, `.` or `~`.
pub open spec fn url_safe(b: u8) -> bool {
    (48 <= b <= 57) || (65 <= b <= 90) || (97 <= b <= 122) || b == 45 || b == 95 || b == 46 || b == 126
}

/// Each byte kept when URL-safe, otherwise written `%` and two uppercase
/// hexadecimal digits.
pub open spec fn url_text(bytes: Seq<u8>) -> Seq<char>
    decreases bytes.len(),
{
    if bytes.len() == 0 {
        Seq::empty()
    } else {
        let b = bytes.last();
        url_text(bytes.drop_last()) + if url_safe(b) { seq![b as char] } else { seq!['%', hex_upper(b / 16), hex_upper(b % 16)] }
    }
}

fn hex_digit_exec(d: u8, upper: bool) -> (c: char)
    requires
        d < 16,
    ensures
        c == (if upper { hex_upper(d) } else { hex_lower(d) }),
{
    if d < 10 {
        (48u8 + d) as char
    } else if upper {
        (65u8 + d - 10) as char
    } else {
        (97u8 + d - 10) as char
    }
}

/// `تشفير_سداسي` (`url` false) and `تشفير_رابط` (`url` true): the UTF-8
/// bytes of a text in hexadecimal, or as a URL component.
pub open spec fn spec_byte_text(args: Seq<Val>, url: bool) -> BuiltinModel {
    let name = if url { "تشفير_رابط يتطلب نصاً"@ } else { "تشفير_سداسي يتطلب نصاً"@ };
    if args.len() == 0 {
        generic_err(name)
    } else {
        match args[0] {
            Val::Str(t) => Ok(Val::Str(if url { url_text(utf8_encoding(t)) } else { hex_text(utf8_encoding(t)) })),
            _ => type_err(name),
        }
    }
}

pub fn builtin_byte_text(args: &Vec<Value>, url: bool) -> (r: Result<Value, RuntimeError>)
    ensures
        builtin_model(r) == spec_byte_text(vals(args@), url),
{
    if args.len() == 0 {
        return if url { fail("تشفير_رابط يتطلب نصاً") } else { fail("تشفير_سداسي يتطلب نصاً") };
    }
    match &args[0] {
        Value::String(t) => {
            let bytes = utf8_bytes(&chars_to_string(t));
            let ghost bs = bytes@;
            let mut out: Vec<char> = Vec::new();
            let mut i: usize = 0;
            while i < bytes.len()
                invariant
                    i <= bytes@.len(),
                    bs == bytes@,
                    out@ == (if url { url_text(bs.subrange(0, i as int)) } else { hex_text(bs.subrange(0, i as int)) }),
                decreases bytes@.len() - i,
            {
                assert(bs.subrange(0, i + 1).drop_last() =~= bs.subrange(0, i as int));
                let b = bytes[i];
                if url && ((48 <= b && b <= 57) || (65 <= b && b <= 90) || (97 <= b && b <= 122) || b == 45 || b == 95 || b == 46 || b == 126) {
                    out.push(b as char);
                } else {
                    if url {
                        out.push('%');
                    }
                    let hi = hex_digit_exec(b / 16, url);
                    let lo = hex_digit_exec(b % 16, url);
                    out.push(hi);
                    out.push(lo);
                }
                i = i + 1;
            }
            assert(bs.subrange(0, i as int) =~= bs);
            Ok(Value::String(out))
        }
        _ => if url { fail_typed("استثناء_نوع", "تشفير_رابط يتطلب نصاً") } else { fail_typed("استثناء_نوع", "تشفير_سداسي يتطلب نصاً") },
    }
}

// ---------------------------------------------------------------- regular expressions

pub open spec fn need_two(args: Seq<Val>, pattern_msg: Seq<char>, text_msg: Seq<char>) -> Option<BuiltinModel> {
    if args.len() == 0 {
        Some(generic_err(pattern_msg))
    } else if args.len() == 1 {
        Some(generic_err(text_msg))
    } else {
        None
    }
}

/// The dictionary describing one match: its text, start and end.
pub open spec fn match_dict(o: u64, s: Seq<char>, a: usize, b: usize) -> Val {
    Val::Dict(o, seq![
        (Val::Str("مطابقة"@), Val::Str(s)),
        (Val::Str("بداية"@), Val::Int(a as i64)),
        (Val::Str("نهاية"@), Val::Int(b as i64)),
    ])
}

/// `نمط_ابحث`: the first match of a pattern in a text, as a dictionary,
/// or null.
pub open spec fn spec_pattern_search(args: Seq<Val>, fresh: u64) -> BuiltinModel {
    match need_two(args, "نمط_ابحث يتطلب نمطاً"@, "نمط_ابحث يتطلب نصاً"@) {
        Some(e) => e,
        None => match (args[0], args[1]) {
            (Val::Str(p), Val::Str(t)) => match regex_first(p, t) {
                Ok(Some((s, a, b))) => Ok(match_dict(fresh, s, a, b)),
                Ok(None) => Ok(Val::Null),
                Err(m) => Err(pattern_error(m)),
            },
            _ => type_err("نمط_ابحث يتطلب نمطين"@),
        },
    }
}

/// Text keys of a match dictionary.
fn key(s: &str) -> (v: Value)
    ensures
        v@ == Val::Str(s@),
{
    Value::String(str_to_chars(s))
}

pub fn builtin_pattern_search(args: &Vec<Value>, fresh: u64) -> (r: Result<Value, RuntimeError>)
    ensures
        builtin_model(r) == spec_pattern_search(vals(args@), fresh),
{
    if args.len() == 0 {
        return fail("نمط_ابحث يتطلب نمطاً");
    }
    if args.len() == 1 {
        return fail("نمط_ابحث يتطلب نصاً");
    }
    match (&args[0], &args[1]) {
        (Value::String(p), Value::String(t)) => match regex_find(&chars_to_string(p), &chars_to_string(t)) {
            Ok(Some((s, a, b))) => {
                let mut pairs: Vec<(Value, Value)> = Vec::new();
                pairs.push((key("مطابقة"), Value::String(string_to_chars(&s))));
                pairs.push((key("بداية"), Value::Integer(#[verifier::truncate] (a as i64))));
                pairs.push((key("نهاية"), Value::Integer(#[verifier::truncate] (b as i64))));
                assert(val_pairs(pairs@) =~= seq![
                    (Val::Str("مطابقة"@), Val::Str(s@)),
                    (Val::Str("بداية"@), Val::Int(a as i64)),
                    (Val::Str("نهاية"@), Val::Int(b as i64)),
                ]);
                let d = Value::Dict(DictObj { oid: fresh, pairs });
                Ok(d)
            }
            Ok(None) => Ok(Value::Null),
            Err(m) => pattern_failure(m),
        },
        _ => fail_typed("استثناء_نوع", "نمط_ابحث يتطلب نمطين"),
    }
}

/// `نمط_قسم`: the pieces of a text between the matches of a pattern.
pub open spec fn spec_pattern_split(args: Seq<Val>, fresh: u64) -> BuiltinModel {
    match need_two(args, "نمط_قسم يتطلب نمطاً"@, "نمط_قسم يتطلب نصاً"@) {
        Some(e) => e,
        None => match (args[0], args[1]) {
            (Val::Str(p), Val::Str(t)) => match regex_pieces(p, t) {
                Ok(parts) => Ok(Val::List(fresh, Seq::new(parts.len(), |i: int| Val::Str(parts[i])))),
                Err(m) => Err(pattern_error(m)),
            },
            _ => type_err("نمط_قسم يتطلب نمطين"@),
        },
    }
}

pub fn builtin_pattern_split(args: &Vec<Value>, fresh: u64) -> (r: Result<Value, RuntimeError>)
    ensures
        builtin_model(r) == spec_pattern_split(vals(args@), fresh),
{
    if args.len() == 0 {
        return fail("نمط_قسم يتطلب نمطاً");
    }
    if args.len() == 1 {
        return fail("نمط_قسم يتطلب نصاً");
    }
    match (&args[0], &args[1]) {
        (Value::String(p), Value::String(t)) => match regex_split(&chars_to_string(p), &chars_to_string(t)) {
            Ok(parts) => {
                let ghost ps = Seq::new(parts@.len(), |i: int| parts@[i]@);
                let mut items: Vec<Value> = Vec::new();
                let mut i: usize = 0;
                while i < parts.len()
                    invariant
                        i <= parts@.len(),
                        ps == Seq::new(parts@.len(), |k: int| parts@[k]@),
                        vals(items@) =~= Seq::new(i as nat, |k: int| Val::Str(ps[k])),
                    decreases parts@.len() - i,
                {
                    let ghost before = vals(items@);
                    items.push(Value::String(string_to_chars(&parts[i])));
                    assert(vals(items@) =~= before.push(Val::Str(ps[i as int])));
                    i = i + 1;
                }
                Ok(Value::List(ListObj { oid: fresh, items }))
            }
            Err(m) => pattern_failure(m),
        },
        _ => fail_typed("استثناء_نوع", "نمط_قسم يتطلب نمطين"),
    }
}

/// The first groups that took part, in order.
pub open spec fn present(gs: Seq<Option<Seq<char>>>) -> Seq<Val>
    decreases gs.len(),
{
    if gs.len() == 0 {
        Seq::empty()
    } else {
        present(gs.drop_last()) + match gs.last() { Some(s) => seq![Val::Str(s)], None => Seq::empty() }
    }
}

/// `نمط_جميع`: the text of the first group of every match of a pattern
/// that has one.
pub open spec fn spec_pattern_groups(args: Seq<Val>, fresh: u64) -> BuiltinModel {
    match need_two(args, "نمط_جميع يتطلب نمطاً"@, "نمط_جميع يتطلب نصاً"@) {
        Some(e) => e,
        None => match (args[0], args[1]) {
            (Val::Str(p), Val::Str(t)) => match regex_first_groups(p, t) {
                Ok(gs) => Ok(Val::List(fresh, present(gs))),
                Err(m) => Err(pattern_error(m)),
            },
            _ => type_err("نمط_جميع يتطلب نمطين"@),
        },
    }
}

pub fn builtin_pattern_groups(args: &Vec<Value>, fresh: u64) -> (r: Result<Value, RuntimeError>)
    ensures
        builtin_model(r) == spec_pattern_groups(vals(args@), fresh),
{
    if args.len() == 0 {
        return fail("نمط_جميع يتطلب نمطاً");
    }
    if args.len() == 1 {
        return fail("نمط_جميع يتطلب نصاً");
    }
    match (&args[0], &args[1]) {
        (Value::String(p), Value::String(t)) => match regex_captures(&chars_to_string(p), &chars_to_string(t)) {
            Ok(gs) => {
                let ghost gm = Seq::new(gs@.len(), |i: int| match gs@[i] { Some(s) => Some(s@), None => None });
                let mut items: Vec<Value> = Vec::new();
                let mut i: usize = 0;
                while i < gs.len()
                    invariant
                        i <= gs@.len(),
                        gm == Seq::new(gs@.len(), |k: int| match gs@[k] { Some(s) => Some(s@), None => None }),
                        vals(items@) == present(gm.subrange(0, i as int)),
                    decreases gs@.len() - i,
                {
                    assert(gm.subrange(0, i + 1).drop_last() =~= gm.subrange(0, i as int));
                    let ghost before = vals(items@);
                    match &gs[i] {
                        Some(s) => {
                            items.push(Value::String(string_to_chars(s)));
                            assert(vals(items@) =~= before + seq![Val::Str(s@)]);
                        }
                        None => {
                            assert(before + Seq::<Val>::empty() =~= before);
                        }
                    }
                    i = i + 1;
                }
                assert(gm.subrange(0, i as int) =~= gm);
                Ok(Value::List(ListObj { oid: fresh, items }))
            }
            Err(m) => pattern_failure(m),
        },
        _ => fail_typed("استثناء_نوع", "نمط_جميع يتطلب نمطين"),
    }
}

// ---------------------------------------------------------------- dispatch

/// The builtin `name` of this module on `args`; `None` for other names.
pub open spec fn spec_codec_builtin(name: Seq<char>, args: Seq<Val>, fresh: u64) -> Option<BuiltinModel> {
    if name == "فك_تشفير_64"@ {
        Some(spec_base64_decode(args))
    } else if name == "تشفير_سداسي"@ {
        Some(spec_byte_text(args, false))
    } else if name == "تشفير_رابط"@ {
        Some(spec_byte_text(args, true))
    } else if name == "نمط_ابحث"@ {
        Some(spec_pattern_search(args, fresh))
    } else if name == "نمط_قسم"@ {
        Some(spec_pattern_split(args, fresh))
    } else if name == "نمط_جميع"@ {
        Some(spec_pattern_groups(args, fresh))
    } else {
        None
    }
}

/// Performs the builtin `name` on `args` if it is one of this module's.
pub fn call_codec_builtin(name: &Vec<char>, args: &Vec<Value>, fresh: u64) -> (r: Option<Result<Value, RuntimeError>>)
    ensures
        match r {
            Some(x) => spec_codec_builtin(name@, vals(args@), fresh) == Some(builtin_model(x)),
            None => spec_codec_builtin(name@, vals(args@), fresh) is None,
        },
{
    let eq = |t: &str| -> (b: bool) ensures b == (name@ == t@) { crate::text::chars_eq(name, &str_to_chars(t)) };
    if eq("فك_تشفير_64") {
        Some(builtin_base64_decode(args))
    } else if eq("تشفير_سداسي") {
        Some(builtin_byte_text(args, false))
    } else if eq("تشفير_رابط") {
        Some(builtin_byte_text(args, true))
    } else if eq("نمط_ابحث") {
        Some(builtin_pattern_search(args, fresh))
    } else if eq("نمط_قسم") {
        Some(builtin_pattern_split(args, fresh))
    } else if eq("نمط_جميع") {
        Some(builtin_pattern_groups(args, fresh))
    } else {
        None
    }
}

} // verus!
