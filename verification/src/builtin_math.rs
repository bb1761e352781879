//! The integer and list builtins: arrangements and selections, the least
//! common multiple, the product of a list of integers, differences, and
//! flattening nested lists.
//!
//! Integer arithmetic wraps on overflow, as release-built Rust arithmetic
//! does; where one of these builtins meets floats it is performed by the
//! caller.

use vstd::prelude::*;
use crate::value::{Value, Val, ListObj, vals, group_value_model};
use crate::error::RuntimeError;
use crate::builtins::{BuiltinModel, builtin_model, generic_err, type_err, fail, fail_typed, euclid};
use crate::ops::{wrap_mul, wrap_sub, trunc_div};
use crate::text::str_to_chars;

verus! {

broadcast use group_value_model;

// ---------------------------------------------------------------- arrangements

/// The product `n * (n-1) * ... * (n-k+1)`, wrapping.
pub open spec fn falling(n: i64, k: nat) -> i64
    decreases k,
{
    if k == 0 { 1 } else { wrap_mul(falling(n, (k - 1) as nat), (n - (k - 1)) as i64) }
}

/// `ترتيبي`: the number of ordered selections of `r` out of `n` (0 when
/// `r` is negative or above `n`).
pub open spec fn spec_permutations(args: Seq<Val>) -> BuiltinModel {
    if args.len() < 2 {
        generic_err("ترتيبي يتطلب معاملين"@)
    } else {
        match (args[0], args[1]) {
            (Val::Int(n), Val::Int(r)) => Ok(Val::Int(if r > n || r < 0 { 0 } else { falling(n, r as nat) })),
            _ => type_err("ترتيبي يتطلب عددين صحيحين"@),
        }
    }
}

pub fn builtin_permutations(args: &Vec<Value>) -> (r: Result<Value, RuntimeError>)
    ensures
        builtin_model(r) == spec_permutations(vals(args@)),
{
    if args.len() < 2 {
        return fail("ترتيبي يتطلب معاملين");
    }
    match (&args[0], &args[1]) {
        (Value::Integer(n), Value::Integer(r)) => {
            let n = *n;
            let r = *r;
            if r > n || r < 0 {
                return Ok(Value::Integer(0));
            }
            let mut result: i64 = 1;
            let mut i: i64 = 0;
            while i < r
                invariant
                    0 <= i <= r <= n,
                    result == falling(n, i as nat),
                decreases r - i,
            {
                result = result.wrapping_mul(n - i);
                i = i + 1;
            }
            Ok(Value::Integer(result))
        }
        _ => fail_typed("استثناء_نوع", "ترتيبي يتطلب عددين صحيحين"),
    }
}

/// The running value of the selection count after `k` rounds:
/// multiply by `n - i` (wrapping), then divide by `i + 1` (truncating).
pub open spec fn selections(n: i64, k: nat) -> i64
    decreases k,
{
    if k == 0 {
        1
    } else {
        trunc_div(wrap_mul(selections(n, (k - 1) as nat), (n - (k - 1)) as i64) as int, k as int) as i64
    }
}

/// `تركيبي`: the number of unordered selections of `r` out of `n`, counted
/// over the smaller of `r` and `n - r` (0 when `r` is negative or above `n`).
pub open spec fn spec_combinations(args: Seq<Val>) -> BuiltinModel {
    if args.len() < 2 {
        generic_err("تركيبي يتطلب معاملين"@)
    } else {
        match (args[0], args[1]) {
            (Val::Int(n), Val::Int(r)) => Ok(Val::Int(if r > n || r < 0 { 0 } else {
                selections(n, (if r > n - r { n - r } else { r as int }) as nat)
            })),
            _ => type_err("تركيبي يتطلب عددين صحيحين"@),
        }
    }
}

pub fn builtin_combinations(args: &Vec<Value>) -> (r: Result<Value, RuntimeError>)
    ensures
        builtin_model(r) == spec_combinations(vals(args@)),
{
    if args.len() < 2 {
        return fail("تركيبي يتطلب معاملين");
    }
    match (&args[0], &args[1]) {
        (Value::Integer(n), Value::Integer(r)) => {
            let n = *n;
            let r = *r;
            if r > n || r < 0 {
                return Ok(Value::Integer(0));
            }
            let k = if r > n - r { n - r } else { r };
            let mut result: i64 = 1;
            let mut i: i64 = 0;
            while i < k
                invariant
                    0 <= i <= k <= n,
                    result == selections(n, i as nat),
                decreases k - i,
            {
                let m = result.wrapping_mul(n - i);
                result = crate::ops::int_div(m, i + 1);
                i = i + 1;
            }
            Ok(Value::Integer(result))
        }
        _ => fail_typed("استثناء_نوع", "تركيبي يتطلب عددين صحيحين"),
    }
}

// ---------------------------------------------------------------- multiples

pub open spec fn abs_int(x: i64) -> int {
    if x < 0 { -x } else { x as int }
}

proof fn lemma_euclid_positive(x: int, y: int)
    requires
        x > 0,
        y >= 0,
    ensures
        euclid(x, y) > 0,
    decreases y,
{
    if y != 0 {
        let r = crate::ops::trunc_rem(x, y);
        assert(r == x % y);
        lemma_euclid_positive(y, r);
    }
}

/// `اصغر_مضاعف`: the least common multiple of two integers' magnitudes (0
/// when either is 0), the final product wrapping.
pub open spec fn spec_lcm(args: Seq<Val>) -> BuiltinModel {
    if args.len() < 2 {
        generic_err("lcm يتطلب معاملين"@)
    } else {
        match (args[0], args[1]) {
            (Val::Int(x), Val::Int(y)) => Ok(Val::Int(if x == 0 || y == 0 { 0 } else {
                wrap_mul((abs_int(x) / euclid(abs_int(x), abs_int(y))) as i64, abs_int(y) as i64)
            })),
            _ => type_err("lcm يتطلب عددين صحيحين"@),
        }
    }
}

/// The least integer has no magnitude in `i64`, so it is refused.
pub open spec fn lcm_refused(args: Seq<Val>) -> bool {
    args.len() >= 2 && match (args[0], args[1]) {
        (Val::Int(x), Val::Int(y)) => x == i64::MIN || y == i64::MIN,
        _ => false,
    }
}

pub fn builtin_lcm(args: &Vec<Value>) -> (r: Result<Value, RuntimeError>)
    requires
        !lcm_refused(vals(args@)),
    ensures
        builtin_model(r) == spec_lcm(vals(args@)),
{
    if args.len() < 2 {
        return fail("lcm يتطلب معاملين");
    }
    match (&args[0], &args[1]) {
        (Value::Integer(x), Value::Integer(y)) => {
            let x = *x;
            let y = *y;
            if x == 0 || y == 0 {
                return Ok(Value::Integer(0));
            }
            let ax: i64 = if x < 0 { -x } else { x };
            let ay: i64 = if y < 0 { -y } else { y };
            let mut a = ax;
            let mut b = ay;
            while b != 0
                invariant
                    a > 0,
                    b >= 0,
                    euclid(a as int, b as int) == euclid(ax as int, ay as int),
                decreases b,
            {
                let t = b;
                let rm = a % b;
                assert(rm as int == crate::ops::trunc_rem(a as int, b as int));
                assert(euclid(a as int, b as int) == euclid(b as int, rm as int));
                b = rm;
                a = t;
            }
            proof { lemma_euclid_positive(ax as int, ay as int); }
            assert(euclid(a as int, 0) == a as int);
            let q = ax / a;
            Ok(Value::Integer(q.wrapping_mul(ay)))
        }
        _ => fail_typed("استثناء_نوع", "lcm يتطلب عددين صحيحين"),
    }
}

// ---------------------------------------------------------------- lists of numbers

/// Whether every element is a number.
pub open spec fn all_numbers(items: Seq<Val>) -> bool {
    forall|i: int| 0 <= i < items.len() ==> (#[trigger] items[i] is Int || items[i] is Float)
}

/// Whether every element is an integer.
pub open spec fn all_ints(items: Seq<Val>) -> bool {
    forall|i: int| 0 <= i < items.len() ==> #[trigger] items[i] is Int
}

/// The integer product: a product that overflows becomes 0 and
/// the multiplication goes on from there.
pub open spec fn checked_product(items: Seq<Val>) -> i64
    decreases items.len(),
{
    if items.len() == 0 {
        1
    } else {
        let p = checked_product(items.drop_last()) as int * (match items.last() { Val::Int(n) => n as int, _ => 1 });
        if i64::MIN <= p <= i64::MAX { p as i64 } else { 0 }
    }
}

/// `حاصل_ضرب`: the product of a list of integers.
pub open spec fn spec_product(args: Seq<Val>) -> BuiltinModel {
    if args.len() == 0 {
        generic_err("حاصل_ضرب تتطلب مصفوفة"@)
    } else {
        match args[0] {
            Val::List(_, items) => if !all_numbers(items) {
                type_err("حاصل_ضرب تتطلب عدداً"@)
            } else {
                Ok(Val::Int(checked_product(items)))
            },
            _ => type_err("حاصل_ضرب تتطلب مصفوفة"@),
        }
    }
}

/// A list of numbers with a float among them has a float product, which the
/// caller computes.
pub open spec fn product_refused(args: Seq<Val>) -> bool {
    args.len() > 0 && match args[0] {
        Val::List(_, items) => all_numbers(items) && !all_ints(items),
        _ => false,
    }
}

fn scan_numbers(items: &Vec<Value>) -> (r: (bool, bool))
    ensures
        r.0 == all_numbers(vals(items@)),
        r.1 == all_ints(vals(items@)),
{
    let ghost s = vals(items@);
    let mut numbers = true;
    let mut ints = true;
    let mut i: usize = 0;
    while i < items.len()
        invariant
            s == vals(items@),
            i <= items@.len(),
            numbers == all_numbers(s.subrange(0, i as int)),
            ints == all_ints(s.subrange(0, i as int)),
        decreases items@.len() - i,
    {
        match &items[i] {
            Value::Integer(_) => {}
            Value::Float(_) => { ints = false; }
            _ => { numbers = false; ints = false; }
        }
        proof {
            let pre = s.subrange(0, i as int);
            let next = s.subrange(0, i + 1);
            assert forall|j: int| 0 <= j < i implies #[trigger] next[j] == pre[j] by {}
            assert(next[i as int] == s[i as int]);
            if !numbers && all_numbers(next) {
                assert(s[i as int] is Int || s[i as int] is Float);
                if i > 0 && !all_numbers(pre) {
                    let j = choose|j: int| 0 <= j < pre.len() && !(#[trigger] pre[j] is Int || pre[j] is Float);
                    assert(next[j] == pre[j]);
                }
            }
            if !ints && all_ints(next) {
                assert(s[i as int] is Int);
                if i > 0 && !all_ints(pre) {
                    let j = choose|j: int| 0 <= j < pre.len() && !(#[trigger] pre[j] is Int);
                    assert(next[j] == pre[j]);
                }
            }
        }
        i = i + 1;
    }
    assert(s.subrange(0, items@.len() as int) =~= s);
    (numbers, ints)
}

fn product_refused_exec(args: &Vec<Value>) -> (r: bool)
    ensures
        r == product_refused(vals(args@)),
{
    if args.len() == 0 {
        return false;
    }
    match &args[0] {
        Value::List(l) => {
            let (numbers, ints) = scan_numbers(&l.items);
            numbers && !ints
        }
        _ => false,
    }
}

pub fn builtin_product(args: &Vec<Value>) -> (r: Result<Value, RuntimeError>)
    requires
        !product_refused(vals(args@)),
    ensures
        builtin_model(r) == spec_product(vals(args@)),
{
    if args.len() == 0 {
        return fail("حاصل_ضرب تتطلب مصفوفة");
    }
    match &args[0] {
        Value::List(l) => {
            let (numbers, ints) = scan_numbers(&l.items);
            if !numbers {
                return fail_typed("استثناء_نوع", "حاصل_ضرب تتطلب عدداً");
            }
            let ghost s = vals(l.items@);
            let mut p: i64 = 1;
            let mut i: usize = 0;
            while i < l.items.len()
                invariant
                    s == vals(l.items@),
                    all_ints(s),
                    i <= l.items@.len(),
                    p == checked_product(s.subrange(0, i as int)),
                decreases l.items@.len() - i,
            {
                let n = match &l.items[i] {
                    Value::Integer(n) => *n,
                    _ => 1,
                };
                proof {
                    let next = s.subrange(0, i + 1);
                    assert(next.drop_last() =~= s.subrange(0, i as int));
                    assert(next.last() == s[i as int]);
                    assert(s[i as int] is Int);
                }
                p = match p.checked_mul(n) {
                    Some(q) => q,
                    None => 0,
                };
                i = i + 1;
            }
            assert(s.subrange(0, l.items@.len() as int) =~= s);
            Ok(Value::Integer(p))
        }
        _ => fail_typed("استثناء_نوع", "حاصل_ضرب تتطلب مصفوفة"),
    }
}

/// `فرق`: the difference of two integers (wrapping).
pub open spec fn spec_difference(args: Seq<Val>) -> BuiltinModel {
    if args.len() < 2 {
        generic_err("فرق يتطلب تاريخين"@)
    } else {
        match (args[0], args[1]) {
            (Val::Int(a), Val::Int(b)) => Ok(Val::Int(wrap_sub(a, b))),
            _ => type_err("فرق يتطلب عددين"@),
        }
    }
}

/// The difference of two floats is computed by the caller.
pub open spec fn difference_refused(args: Seq<Val>) -> bool {
    args.len() >= 2 && args[0] is Float && args[1] is Float
}

pub fn builtin_difference(args: &Vec<Value>) -> (r: Result<Value, RuntimeError>)
    requires
        !difference_refused(vals(args@)),
    ensures
        builtin_model(r) == spec_difference(vals(args@)),
{
    if args.len() < 2 {
        return fail("فرق يتطلب تاريخين");
    }
    match (&args[0], &args[1]) {
        (Value::Integer(a), Value::Integer(b)) => Ok(Value::Integer(a.wrapping_sub(*b))),
        _ => fail_typed("استثناء_نوع", "فرق يتطلب عددين"),
    }
}

// ---------------------------------------------------------------- flattening

/// The elements of `items` with every nested list replaced by its own
/// elements, at any depth.
pub open spec fn flatten(items: Seq<Val>) -> Seq<Val>
    decreases items,
{
    if items.len() == 0 {
        Seq::empty()
    } else {
        let last = items.last();
        proof { assert(decreases_to!(items => items[items.len() - 1])); }
        flatten(items.drop_last()) + match last {
            Val::List(_, inner) => flatten(inner),
            _ => seq![last],
        }
    }
}

fn flatten_into(items: &Vec<Value>, out: &mut Vec<Value>)
    ensures
        vals(final(out)@) == vals(old(out)@) + flatten(vals(items@)),
    decreases items@,
{
    let ghost s = vals(items@);
    let ghost start = vals(out@);
    let mut i: usize = 0;
    while i < items.len()
        invariant
            s == vals(items@),
            i <= items@.len(),
            vals(out@) == start + flatten(s.subrange(0, i as int)),
        decreases items@.len() - i,
    {
        proof { assert(decreases_to!(items@ => items@[i as int])); }
        let ghost before = vals(out@);
        match &items[i] {
            Value::List(inner) => {
                flatten_into(&inner.items, out);
            }
            other => {
                out.push(other.duplicate());
                assert(vals(out@) =~= before.push(s[i as int]));
            }
        }
        proof {
            let next = s.subrange(0, i + 1);
            assert(next.drop_last() =~= s.subrange(0, i as int));
            assert(next.last() == s[i as int]);
            let tail = match s[i as int] {
                Val::List(_, inner) => flatten(inner),
                _ => seq![s[i as int]],
            };
            assert(flatten(next) == flatten(s.subrange(0, i as int)) + tail);
            assert(vals(out@) =~= start + flatten(next));
        }
        i = i + 1;
    }
    assert(s.subrange(0, items@.len() as int) =~= s);
}

/// `مسطح`: a new list (identity `fresh`) of a list's elements with nested
/// lists flattened.
pub open spec fn spec_flatten(args: Seq<Val>, fresh: u64) -> BuiltinModel {
    if args.len() == 0 {
        generic_err("مسطح يتطلب مصفوفة"@)
    } else {
        match args[0] {
            Val::List(_, items) => Ok(Val::List(fresh, flatten(items))),
            _ => type_err("مسطح يتطلب مصفوفة"@),
        }
    }
}

pub fn builtin_flatten(args: &Vec<Value>, fresh: u64) -> (r: Result<Value, RuntimeError>)
    ensures
        builtin_model(r) == spec_flatten(vals(args@), fresh),
{
    if args.len() == 0 {
        return fail("مسطح يتطلب مصفوفة");
    }
    match &args[0] {
        Value::List(l) => {
            let mut out: Vec<Value> = Vec::new();
            flatten_into(&l.items, &mut out);
            assert(vals(out@) =~= flatten(vals(l.items@)));
            Ok(Value::List(ListObj { oid: fresh, items: out }))
        }
        _ => fail_typed("استثناء_نوع", "مسطح يتطلب مصفوفة"),
    }
}

// ---------------------------------------------------------------- dispatch

/// The builtin `name` of this module on `args`; `None` for other names and
/// for the inputs on which the builtin panics or that need floats.
pub open spec fn spec_math_builtin(name: Seq<char>, args: Seq<Val>, fresh: u64) -> Option<BuiltinModel> {
    if name == "ترتيبي"@ {
        Some(spec_permutations(args))
    } else if name == "تركيبي"@ {
        Some(spec_combinations(args))
    } else if name == "اصغر_مضاعف"@ {
        if lcm_refused(args) { None } else { Some(spec_lcm(args)) }
    } else if name == "حاصل_ضرب"@ {
        if product_refused(args) { None } else { Some(spec_product(args)) }
    } else if name == "فرق"@ {
        if difference_refused(args) { None } else { Some(spec_difference(args)) }
    } else if name == "مسطح"@ {
        Some(spec_flatten(args, fresh))
    } else {
        None
    }
}

/// Performs the builtin `name` of this module on `args`.
pub fn call_math_builtin(name: &Vec<char>, args: &Vec<Value>, fresh: u64) -> (r: Option<Result<Value, RuntimeError>>)
    ensures
        match r {
            Some(x) => spec_math_builtin(name@, vals(args@), fresh) == Some(builtin_model(x)),
            None => spec_math_builtin(name@, vals(args@), fresh) is None,
        },
{
    let eq = |t: &str| -> (b: bool) ensures b == (name@ == t@) { crate::text::chars_eq(name, &str_to_chars(t)) };
    if eq("ترتيبي") {
        Some(builtin_permutations(args))
    } else if eq("تركيبي") {
        Some(builtin_combinations(args))
    } else if eq("اصغر_مضاعف") {
        let refused = args.len() >= 2 && match (&args[0], &args[1]) {
            (Value::Integer(x), Value::Integer(y)) => *x == i64::MIN || *y == i64::MIN,
            _ => false,
        };
        if refused { None } else { Some(builtin_lcm(args)) }
    } else if eq("حاصل_ضرب") {
        if product_refused_exec(args) { None } else { Some(builtin_product(args)) }
    } else if eq("فرق") {
        let refused = args.len() >= 2 && match (&args[0], &args[1]) {
            (Value::Float(_), Value::Float(_)) => true,
            _ => false,
        };
        if refused { None } else { Some(builtin_difference(args)) }
    } else if eq("مسطح") {
        Some(builtin_flatten(args, fresh))
    } else {
        None
    }
}

} // verus!
