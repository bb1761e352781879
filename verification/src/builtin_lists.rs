//! Builtins on integers, lists and the case of texts: magnitude and
//! negation of integers, lists of one repeated value, whether all or any
//! elements are true, membership, sorting, joining two lists, an empty
//! list, a text in upper or lower case, and the pieces of a text.
//!
//! Integer arithmetic wraps on overflow, as release-built Rust arithmetic
//! does; a float argument, an element comparison that meets floats,
//! dictionaries or sets, a sort of mixed elements or by a key, and a size
//! that cannot be allocated are left to the caller.

use vstd::prelude::*;
use crate::value::{Value, Val, ListObj, vals, truthy, group_value_model};
use crate::error::RuntimeError;
use crate::builtins::{BuiltinModel, builtin_model, generic_err, type_err, fail, fail_typed};
use crate::methods::{plain, all_plain, position_of, sortable, sorted, upper_text, lower_text};
use crate::text::str_to_chars;

verus! {

broadcast use group_value_model;

/// The magnitude of an integer; the least integer is its own.
pub open spec fn wrap_abs(n: i64) -> i64 {
    if n == i64::MIN { n } else if n < 0 { (-n) as i64 } else { n }
}

/// The negation of an integer; the least integer is its own.
pub open spec fn wrap_neg(n: i64) -> i64 {
    if n == i64::MIN { n } else { (-n) as i64 }
}

/// `مطلق` and `قيمة_مطلقة` (`neg` false), `سلب` (`neg` true); `None` for a float.
pub open spec fn spec_sign_op(args: Seq<Val>, neg: bool) -> Option<BuiltinModel> {
    if args.len() == 0 {
        Some(generic_err(if neg { "سلب يتطلب معامل واحد"@ } else { "مطلق يتطلب معامل واحد"@ }))
    } else {
        match args[0] {
            Val::Int(n) => Some(Ok(Val::Int(if neg { wrap_neg(n) } else { wrap_abs(n) }))),
            Val::Float(_, _) => None,
            _ => Some(generic_err("المعامل يجب ان يكون عدداً"@)),
        }
    }
}

pub fn builtin_sign_op(args: &Vec<Value>, neg: bool) -> (r: Option<Result<Value, RuntimeError>>)
    ensures
        match r {
            Some(x) => spec_sign_op(vals(args@), neg) == Some(builtin_model(x)),
            None => spec_sign_op(vals(args@), neg) is None,
        },
{
    if args.len() == 0 {
        return Some(if neg { fail("سلب يتطلب معامل واحد") } else { fail("مطلق يتطلب معامل واحد") });
    }
    match &args[0] {
        Value::Integer(n) => {
            let n = *n;
            let v = if n == i64::MIN { n } else if neg || n < 0 { -n } else { n };
            Some(Ok(Value::Integer(v)))
        }
        Value::Float(_) => None,
        _ => Some(fail("المعامل يجب ان يكون عدداً")),
    }
}

/// A list of `n` copies of `v`.
pub open spec fn copies(n: nat, v: Val) -> Seq<Val> {
    Seq::new(n, |i: int| v)
}

/// `قائمة_مليئة` (`sized_first` true: size, then value) and `كرر` (value,
/// then count): a list of one value repeated; `None` for a negative size or
/// one beyond the machine's word.
pub open spec fn spec_filled(args: Seq<Val>, sized_first: bool, fresh: u64) -> Option<BuiltinModel> {
    if sized_first && args.len() < 2 {
        Some(type_err("قائمة_مليئة تتطلب حجم وقيمة"@))
    } else if !sized_first && args.len() == 0 {
        Some(generic_err("كرر يتطلب عنصراً وعددأ"@))
    } else if !sized_first && args.len() == 1 {
        Some(generic_err("كرر يتطلب عدداً"@))
    } else {
        let (size, v) = if sized_first { (args[0], args[1]) } else { (args[1], args[0]) };
        match size {
            Val::Int(n) => if n < 0 || n > usize::MAX { None } else { Some(Ok(Val::List(fresh, copies(n as nat, v)))) },
            _ => Some(type_err(if sized_first { "قائمة_مليئة يتطلب حجم صحيح"@ } else { "كرر يتطلب عدداً صحيحاً"@ })),
        }
    }
}

pub fn builtin_filled(args: &Vec<Value>, sized_first: bool, fresh: u64) -> (r: Option<Result<Value, RuntimeError>>)
    ensures
        match r {
            Some(x) => spec_filled(vals(args@), sized_first, fresh) == Some(builtin_model(x)),
            None => spec_filled(vals(args@), sized_first, fresh) is None,
        },
{
    if sized_first && args.len() < 2 {
        return Some(fail_typed("استثناء_نوع", "قائمة_مليئة تتطلب حجم وقيمة"));
    }
    if !sized_first && args.len() == 0 {
        return Some(fail("كرر يتطلب عنصراً وعددأ"));
    }
    if !sized_first && args.len() == 1 {
        return Some(fail("كرر يتطلب عدداً"));
    }
    let (si, vi): (usize, usize) = if sized_first { (0, 1) } else { (1, 0) };
    match &args[si] {
        Value::Integer(n) => {
            if *n < 0 || (*n as u128) > (usize::MAX as u128) {
                return None;
            }
            let count = *n as usize;
            let ghost v = args@[vi as int]@;
            let mut items: Vec<Value> = Vec::new();
            while items.len() < count
                invariant
                    items@.len() <= count,
                    v == args@[vi as int]@,
                    vi < args@.len(),
                    vals(items@) =~= copies(items@.len(), v),
                decreases count - items@.len(),
            {
                let ghost before = vals(items@);
                items.push(args[vi].duplicate());
                assert(vals(items@) =~= before.push(v));
            }
            Some(Ok(Value::List(ListObj { oid: fresh, items })))
        }
        _ => Some(if sized_first { fail_typed("استثناء_نوع", "قائمة_مليئة يتطلب حجم صحيح") } else { fail_typed("استثناء_نوع", "كرر يتطلب عدداً صحيحاً") }),
    }
}

/// Whether every element is true.
pub open spec fn all_true(xs: Seq<Val>) -> bool {
    forall|i: int| 0 <= i < xs.len() ==> truthy(#[trigger] xs[i])
}

/// Whether some element is true.
pub open spec fn some_true(xs: Seq<Val>) -> bool {
    exists|i: int| 0 <= i < xs.len() && truthy(#[trigger] xs[i])
}

/// `تحقق_اي` (`any` false): whether every element is true; `تحقق_او`
/// (`any` true): whether some element is.
pub open spec fn spec_truth_of_all(args: Seq<Val>, any: bool) -> BuiltinModel {
    if args.len() == 0 {
        generic_err(if any { "تحقق_او يتطلب معامل واحد"@ } else { "تحقق_اي يتطلب معامل واحد"@ })
    } else {
        match args[0] {
            Val::List(_, xs) | Val::Tuple(_, xs) => Ok(Val::Bool(if any { some_true(xs) } else { all_true(xs) })),
            _ => type_err(if any { "تحقق_او يتطلب قائمة"@ } else { "تحقق_اي يتطلب قائمة"@ }),
        }
    }
}

pub fn builtin_truth_of_all(args: &Vec<Value>, any: bool) -> (r: Result<Value, RuntimeError>)
    ensures
        builtin_model(r) == spec_truth_of_all(vals(args@), any),
{
    if args.len() == 0 {
        return if any { fail("تحقق_او يتطلب معامل واحد") } else { fail("تحقق_اي يتطلب معامل واحد") };
    }
    let items: &Vec<Value> = match &args[0] {
        Value::List(l) => &l.items,
        Value::Tuple(l) => &l.items,
        _ => {
            return if any { fail_typed("استثناء_نوع", "تحقق_او يتطلب قائمة") } else { fail_typed("استثناء_نوع", "تحقق_اي يتطلب قائمة") };
        }
    };
    let ghost xs = vals(items@);
    assert(match vals(args@)[0] { Val::List(_, ys) | Val::Tuple(_, ys) => ys == xs, _ => false });
    let mut i: usize = 0;
    while i < items.len()
        invariant
            i <= items@.len(),
            xs == vals(items@),
            args@.len() > 0,
            match vals(args@)[0] { Val::List(_, ys) | Val::Tuple(_, ys) => ys == xs, _ => false },
            any ==> forall|k: int| 0 <= k < i ==> !truthy(#[trigger] xs[k]),
            !any ==> forall|k: int| 0 <= k < i ==> truthy(#[trigger] xs[k]),
        decreases items@.len() - i,
    {
        let t = items[i].is_truthy();
        if any && t {
            assert(truthy(xs[i as int]));
            assert(some_true(xs));
            return Ok(Value::Boolean(true));
        }
        if !any && !t {
            assert(!truthy(xs[i as int]));
            assert(!all_true(xs));
            return Ok(Value::Boolean(false));
        }
        i = i + 1;
    }
    assert(any ==> !some_true(xs));
    assert(!any ==> all_true(xs));
    Ok(Value::Boolean(!any))
}

/// `موجود`: whether the list holds an element equal to the item; `None`
/// when the comparison meets floats, dictionaries or sets.
pub open spec fn spec_member(args: Seq<Val>) -> Option<BuiltinModel> {
    if args.len() == 0 {
        Some(generic_err("موجود يتطلب عنصراً"@))
    } else if args.len() == 1 {
        Some(generic_err("موجود تتطلب مصفوفة"@))
    } else {
        match args[1] {
            Val::List(_, xs) => if plain(args[0]) && all_plain(xs) {
                Some(Ok(Val::Bool(position_of(xs, args[0]) >= 0)))
            } else {
                None
            },
            _ => Some(type_err("موجود تتطلب مصفوفة"@)),
        }
    }
}

pub fn builtin_member(args: &Vec<Value>) -> (r: Option<Result<Value, RuntimeError>>)
    ensures
        match r {
            Some(x) => spec_member(vals(args@)) == Some(builtin_model(x)),
            None => spec_member(vals(args@)) is None,
        },
{
    if args.len() == 0 {
        return Some(fail("موجود يتطلب عنصراً"));
    }
    if args.len() == 1 {
        return Some(fail("موجود تتطلب مصفوفة"));
    }
    match &args[1] {
        Value::List(l) => {
            if !(crate::methods::is_plain(&args[0]) && crate::methods::items_plain(&l.items)) {
                return None;
            }
            let found = match crate::methods::position_of_exec(&l.items, &args[0]) {
                Some(_) => true,
                None => false,
            };
            Some(Ok(Value::Boolean(found)))
        }
        _ => Some(fail_typed("استثناء_نوع", "موجود تتطلب مصفوفة")),
    }
}

/// `مرتب`: a new list of the elements of a list or tuple in order; `None`
/// with a key function, for a text, and for elements that are not all
/// integers or all texts.
pub open spec fn spec_sorted(args: Seq<Val>, fresh: u64) -> Option<BuiltinModel> {
    if args.len() == 0 {
        Some(generic_err("مرتب يتطلب معامل واحد"@))
    } else if args.len() > 1 {
        None
    } else {
        match args[0] {
            Val::List(_, xs) | Val::Tuple(_, xs) => if sortable(xs) { Some(Ok(Val::List(fresh, sorted(xs)))) } else { None },
            Val::Str(_) => None,
            _ => Some(type_err("مرتب يتطلب قائمة او مترابطة او نص"@)),
        }
    }
}

pub fn builtin_sorted(args: &Vec<Value>, fresh: u64) -> (r: Option<Result<Value, RuntimeError>>)
    ensures
        match r {
            Some(x) => spec_sorted(vals(args@), fresh) == Some(builtin_model(x)),
            None => spec_sorted(vals(args@), fresh) is None,
        },
{
    if args.len() == 0 {
        return Some(fail("مرتب يتطلب معامل واحد"));
    }
    if args.len() > 1 {
        return None;
    }
    let items: &Vec<Value> = match &args[0] {
        Value::List(l) => &l.items,
        Value::Tuple(l) => &l.items,
        Value::String(_) => return None,
        _ => return Some(fail_typed("استثناء_نوع", "مرتب يتطلب قائمة او مترابطة او نص")),
    };
    if !crate::methods::sortable_exec(items) {
        return None;
    }
    let out = crate::methods::sorted_exec(items);
    Some(Ok(Value::List(ListObj { oid: fresh, items: out })))
}

/// `اعلى` (`lower` false) and `اسفل` (`lower` true): a text in upper or
/// lower case.
pub open spec fn spec_case(args: Seq<Val>, lower: bool) -> BuiltinModel {
    let msg = if lower { "اسفل يتطلب نصاً"@ } else { "اعلى يتطلب نصاً"@ };
    if args.len() == 0 {
        generic_err(msg)
    } else {
        match args[0] {
            Val::Str(t) => Ok(Val::Str(if lower { lower_text(t) } else { upper_text(t) })),
            _ => type_err(msg),
        }
    }
}

pub fn builtin_case(args: &Vec<Value>, lower: bool) -> (r: Result<Value, RuntimeError>)
    ensures
        builtin_model(r) == spec_case(vals(args@), lower),
{
    if args.len() == 0 {
        return if lower { fail("اسفل يتطلب نصاً") } else { fail("اعلى يتطلب نصاً") };
    }
    match &args[0] {
        Value::String(t) => {
            let s = crate::text::chars_to_string(t);
            let r = if lower { crate::methods::to_lower(&s) } else { crate::methods::to_upper(&s) };
            Ok(Value::String(crate::text::string_to_chars(&r)))
        }
        _ => if lower { fail_typed("استثناء_نوع", "اسفل يتطلب نصاً") } else { fail_typed("استثناء_نوع", "اعلى يتطلب نصاً") },
    }
}

/// `ادمج`: a new list of the elements of one list and then another.
pub open spec fn spec_concat(args: Seq<Val>, fresh: u64) -> BuiltinModel {
    if args.len() < 2 {
        generic_err("ادمج يتطلب مصفوفتين"@)
    } else {
        match (args[0], args[1]) {
            (Val::List(_, xs), Val::List(_, ys)) => Ok(Val::List(fresh, xs + ys)),
            _ => type_err("ادمج تتطلب مصفوفتين"@),
        }
    }
}

pub fn builtin_concat(args: &Vec<Value>, fresh: u64) -> (r: Result<Value, RuntimeError>)
    ensures
        builtin_model(r) == spec_concat(vals(args@), fresh),
{
    if args.len() < 2 {
        return fail("ادمج يتطلب مصفوفتين");
    }
    match (&args[0], &args[1]) {
        (Value::List(a), Value::List(b)) => {
            let mut items = crate::value::duplicate_items(&a.items);
            let mut more = crate::value::duplicate_items(&b.items);
            let ghost x = vals(items@);
            let ghost y = vals(more@);
            items.append(&mut more);
            assert(vals(items@) =~= x + y);
            Ok(Value::List(ListObj { oid: fresh, items }))
        }
        _ => fail_typed("استثناء_نوع", "ادمج تتطلب مصفوفتين"),
    }
}

/// The pieces that are not empty, in order.
pub open spec fn nonempty(parts: Seq<Seq<char>>) -> Seq<Seq<char>>
    decreases parts.len(),
{
    if parts.len() == 0 {
        parts
    } else if parts.last().len() == 0 {
        nonempty(parts.drop_last())
    } else {
        nonempty(parts.drop_last()).push(parts.last())
    }
}

/// `تقطيع`: the pieces of a text between the occurrences of a separator
/// (a space unless a text is given), empty pieces dropped unless the third
/// argument is true.
pub open spec fn spec_pieces(args: Seq<Val>, fresh: u64) -> BuiltinModel {
    if args.len() == 0 {
        generic_err("تقطيع يتطلب نصاً"@)
    } else {
        match args[0] {
            Val::Str(t) => {
                let sep = if args.len() > 1 && args[1] is Str { args[1]->Str_0 } else { seq![' '] };
                let keep = args.len() > 2 && truthy(args[2]);
                let parts = crate::textops::split_text(t, sep);
                Ok(Val::List(fresh, crate::methods::str_vals(if keep { parts } else { nonempty(parts) })))
            },
            _ => generic_err("المعامل يجب ان يكون نصاً"@),
        }
    }
}

fn nonempty_exec(parts: Vec<Vec<char>>) -> (r: Vec<Vec<char>>)
    ensures
        crate::textops::char_seqs(r@) == nonempty(crate::textops::char_seqs(parts@)),
{
    let ghost ps = crate::textops::char_seqs(parts@);
    let mut out: Vec<Vec<char>> = Vec::new();
    let mut i: usize = 0;
    while i < parts.len()
        invariant
            i <= parts@.len(),
            ps == crate::textops::char_seqs(parts@),
            crate::textops::char_seqs(out@) == nonempty(ps.subrange(0, i as int)),
        decreases parts@.len() - i,
    {
        assert(ps.subrange(0, i + 1).drop_last() =~= ps.subrange(0, i as int));
        if parts[i].len() > 0 {
            let ghost before = crate::textops::char_seqs(out@);
            out.push(crate::value::copy_chars(&parts[i]));
            assert(crate::textops::char_seqs(out@) =~= before.push(ps[i as int]));
        }
        i = i + 1;
    }
    assert(ps.subrange(0, i as int) =~= ps);
    out
}

pub fn builtin_pieces(args: &Vec<Value>, fresh: u64) -> (r: Result<Value, RuntimeError>)
    ensures
        builtin_model(r) == spec_pieces(vals(args@), fresh),
{
    if args.len() == 0 {
        return fail("تقطيع يتطلب نصاً");
    }
    match &args[0] {
        Value::String(t) => {
            let sep: Vec<char> = if args.len() > 1 {
                match &args[1] {
                    Value::String(x) => crate::value::copy_chars(x),
                    _ => { let mut v = Vec::new(); v.push(' '); v }
                }
            } else {
                let mut v = Vec::new();
                v.push(' ');
                v
            };
            assert(sep@ == (if vals(args@).len() > 1 && vals(args@)[1] is Str { vals(args@)[1]->Str_0 } else { seq![' '] }));
            let keep = args.len() > 2 && args[2].is_truthy();
            let parts = crate::textops::split_text_exec(t, &sep);
            let chosen = if keep { parts } else { nonempty_exec(parts) };
            let items = crate::methods::str_values(chosen);
            Ok(Value::List(ListObj { oid: fresh, items }))
        }
        _ => fail("المعامل يجب ان يكون نصاً"),
    }
}

/// Whether `n` is a prime number.
pub open spec fn is_prime(n: int) -> bool {
    n >= 2 && forall|d: int| 2 <= d < n ==> #[trigger] (n % d) != 0
}

/// The largest number whose primality test runs without overflowing.
pub open spec fn prime_test_bound() -> int {
    9223372030926249001int
}

/// `هل_اولية`: whether an integer is prime; `None` beyond the bound the
/// trial division reaches without overflowing.
pub open spec fn spec_is_prime(args: Seq<Val>) -> Option<BuiltinModel> {
    if args.len() == 0 {
        Some(generic_err("هل_اولية يتطلب رقماً"@))
    } else {
        match args[0] {
            Val::Int(n) => if n > prime_test_bound() { None } else { Some(Ok(Val::Bool(is_prime(n as int)))) },
            _ => Some(type_err("هل_اولية يتطلب رقماً"@)),
        }
    }
}

proof fn lemma_cofactor_small(n: int, d: int, i: int)
    requires
        2 <= d < n,
        n % d == 0,
        i <= d,
        2 <= i,
        i * i > n,
    ensures
        2 <= n / d < i,
        n % (n / d) == 0,
{
    assert(n == d * (n / d)) by (nonlinear_arith) requires n % d == 0, d > 0;
    assert(n / d >= 2) by (nonlinear_arith) requires n == d * (n / d), d < n, d > 0;
    assert(n / d < i) by (nonlinear_arith) requires n == d * (n / d), i <= d, i * i > n, n / d >= 2, i >= 2;
    assert(n % (n / d) == 0) by (nonlinear_arith) requires n == d * (n / d), n / d >= 2;
}

proof fn lemma_even_divisor(n: int, d: int)
    requires
        d >= 2,
        d % 2 == 0,
        n % d == 0,
        n > 0,
    ensures
        n % 2 == 0,
{
    assert(n == d * (n / d)) by (nonlinear_arith) requires n % d == 0, d > 0;
    assert(d == 2 * (d / 2)) by (nonlinear_arith) requires d % 2 == 0;
    assert(n == 2 * ((d / 2) * (n / d))) by (nonlinear_arith) requires n == d * (n / d), d == 2 * (d / 2);
}

pub fn builtin_is_prime(args: &Vec<Value>) -> (r: Option<Result<Value, RuntimeError>>)
    ensures
        match r {
            Some(x) => spec_is_prime(vals(args@)) == Some(builtin_model(x)),
            None => spec_is_prime(vals(args@)) is None,
        },
{
    if args.len() == 0 {
        return Some(fail("هل_اولية يتطلب رقماً"));
    }
    let n: i64 = match &args[0] {
        Value::Integer(n) => *n,
        _ => return Some(fail_typed("استثناء_نوع", "هل_اولية يتطلب رقماً")),
    };
    if n > 9223372030926249001i64 {
        return None;
    }
    if n < 2 {
        return Some(Ok(Value::Boolean(false)));
    }
    if n == 2 {
        return Some(Ok(Value::Boolean(true)));
    }
    if n % 2 == 0 {
        assert(!is_prime(n as int)) by { assert((n as int) % 2 == 0); }
        return Some(Ok(Value::Boolean(false)));
    }
    let mut i: i64 = 3;
    let mut sq: i128 = 9;
    while sq <= (n as i128)
        invariant
            sq == i * i,
            args@.len() > 0,
            vals(args@)[0] == Val::Int(n),
            3 <= i <= 3037000501,
            i % 2 == 1,
            3 <= n <= 9223372030926249001,
            n % 2 != 0,
            forall|d: int| 2 <= d < i ==> #[trigger] ((n as int) % d) != 0,
        decreases 3037000502 - i,
    {
        assert(i * i <= n);
        assert(i <= 3037000499) by (nonlinear_arith) requires i * i <= n, n <= 9223372030926249001int, i >= 0;
        if n % i == 0 {
            assert(i < n) by (nonlinear_arith) requires i * i <= n, i >= 3;
            assert(!is_prime(n as int)) by { assert((n as int) % (i as int) == 0); }
            return Some(Ok(Value::Boolean(false)));
        }
        assert forall|d: int| 2 <= d < i + 2 implies #[trigger] ((n as int) % d) != 0 by {
            if d == i + 1 {
                if (n as int) % d == 0 {
                    assert(d % 2 == 0);
                    lemma_even_divisor(n as int, d);
                }
            }
        }
        assert((i + 2) * (i + 2) == i * i + 4 * i + 4) by (nonlinear_arith);
        sq = sq + 4 * (i as i128) + 4;
        i = i + 2;
    }
    assert(is_prime(n as int)) by {
        assert forall|d: int| 2 <= d < n implies #[trigger] ((n as int) % d) != 0 by {
            if d >= i && (n as int) % d == 0 {
                lemma_cofactor_small(n as int, d, i as int);
                let c = (n as int) / d;
                assert((n as int) % c != 0);
            }
        }
    }
    Some(Ok(Value::Boolean(true)))
}

/// Whether `name` is one of this module's builtins.
pub open spec fn list_builtin_name(name: Seq<char>) -> bool {
    name == "مطلق"@ || name == "قيمة_مطلقة"@ || name == "سلب"@ || name == "قائمة_مليئة"@ || name == "كرر"@
        || name == "تحقق_اي"@ || name == "تحقق_او"@ || name == "موجود"@ || name == "مرتب"@
        || name == "اعلى"@ || name == "اسفل"@ || name == "ادمج"@ || name == "فرغ"@ || name == "تقطيع"@
        || name == "هل_اولية"@
}

pub fn list_builtin_name_exec(name: &Vec<char>) -> (r: bool)
    ensures
        r == list_builtin_name(name@),
{
    let eq = |t: &str| -> (b: bool) ensures b == (name@ == t@) { crate::text::chars_eq(name, &str_to_chars(t)) };
    eq("مطلق") || eq("قيمة_مطلقة") || eq("سلب") || eq("قائمة_مليئة") || eq("كرر")
        || eq("تحقق_اي") || eq("تحقق_او") || eq("موجود") || eq("مرتب")
        || eq("اعلى") || eq("اسفل") || eq("ادمج") || eq("فرغ") || eq("تقطيع")
        || eq("هل_اولية")
}

/// The builtin `name` of this module on `args`; `None` for other names and
/// for the inputs left to the caller.
pub open spec fn spec_list_builtin(name: Seq<char>, args: Seq<Val>, fresh: u64) -> Option<BuiltinModel> {
    if name == "مطلق"@ || name == "قيمة_مطلقة"@ {
        spec_sign_op(args, false)
    } else if name == "سلب"@ {
        spec_sign_op(args, true)
    } else if name == "قائمة_مليئة"@ {
        spec_filled(args, true, fresh)
    } else if name == "كرر"@ {
        spec_filled(args, false, fresh)
    } else if name == "تحقق_اي"@ {
        Some(spec_truth_of_all(args, false))
    } else if name == "تحقق_او"@ {
        Some(spec_truth_of_all(args, true))
    } else if name == "موجود"@ {
        spec_member(args)
    } else if name == "مرتب"@ {
        spec_sorted(args, fresh)
    } else if name == "اعلى"@ {
        Some(spec_case(args, false))
    } else if name == "اسفل"@ {
        Some(spec_case(args, true))
    } else if name == "ادمج"@ {
        Some(spec_concat(args, fresh))
    } else if name == "فرغ"@ {
        Some(Ok(Val::List(fresh, Seq::empty())))
    } else if name == "تقطيع"@ {
        Some(spec_pieces(args, fresh))
    } else if name == "هل_اولية"@ {
        spec_is_prime(args)
    } else {
        None
    }
}

/// Performs the builtin `name` on `args` if it is one of this module's.
pub fn call_list_builtin(name: &Vec<char>, args: &Vec<Value>, fresh: u64) -> (r: Option<Result<Value, RuntimeError>>)
    ensures
        match r {
            Some(x) => spec_list_builtin(name@, vals(args@), fresh) == Some(builtin_model(x)),
            None => spec_list_builtin(name@, vals(args@), fresh) is None,
        },
{
    let eq = |t: &str| -> (b: bool) ensures b == (name@ == t@) { crate::text::chars_eq(name, &str_to_chars(t)) };
    if eq("مطلق") || eq("قيمة_مطلقة") {
        builtin_sign_op(args, false)
    } else if eq("سلب") {
        builtin_sign_op(args, true)
    } else if eq("قائمة_مليئة") {
        builtin_filled(args, true, fresh)
    } else if eq("كرر") {
        builtin_filled(args, false, fresh)
    } else if eq("تحقق_اي") {
        Some(builtin_truth_of_all(args, false))
    } else if eq("تحقق_او") {
        Some(builtin_truth_of_all(args, true))
    } else if eq("موجود") {
        builtin_member(args)
    } else if eq("مرتب") {
        builtin_sorted(args, fresh)
    } else if eq("اعلى") {
        Some(builtin_case(args, false))
    } else if eq("اسفل") {
        Some(builtin_case(args, true))
    } else if eq("ادمج") {
        Some(builtin_concat(args, fresh))
    } else if eq("فرغ") {
        let items: Vec<Value> = Vec::new();
        assert(vals(items@) =~= Seq::<Val>::empty());
        Some(Ok(Value::List(ListObj { oid: fresh, items })))
    } else if eq("تقطيع") {
        Some(builtin_pieces(args, fresh))
    } else if eq("هل_اولية") {
        builtin_is_prime(args)
    } else {
        None
    }
}

} // verus!
