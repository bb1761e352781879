//! The method-call instruction on texts, lists, sets and dictionaries.
//!
//! The machine performs the methods whose results it can compute from the
//! values alone, case mapping, trimming and letter tests through the
//! standard library's Unicode tables.  It hands to its caller, with the
//! object and the arguments, the text methods that work on byte offsets
//! (searches and counts within a byte range, splits from the right or with
//! a limit), and the list and set methods whose
//! comparisons meet floats, dictionaries or sets (where value
//! equality converts integers to floats) or whose sort is not of integers
//! or texts alone; the caller resumes with [`VM::resume_method`].

use vstd::prelude::*;
use crate::value::{Value, Val, ListObj, DictObj, vals, val_pairs, val_text, kind_name, group_value_model};
use crate::error::RuntimeError;
use crate::ops::val_eq;
use crate::containers::{dict_get, dict_put, key_index};
use crate::machine::{VM, MachineModel, Program, ProgramModel, Step, StepModel, step_model, wf, spop, push,
    with_stack, bump, spec_throw};
use crate::steps::{take_top, refresh_machine};
use crate::textops::{split_text, replace_all, starts_with, ends_with, all_ascii_digits};

verus! {

broadcast use group_value_model;

// ---------------------------------------------------------------- model

/// Whether a value holds no float, dictionary or set, inside lists and
/// tuples included: on such values value equality is the
/// structural one.
pub open spec fn plain(v: Val) -> bool
    decreases v, 1int, 0int,
{
    match v {
        Val::Float(_, _) => false,
        Val::Dict(_, _) => false,
        Val::SetVal(_, _) => false,
        Val::List(_, items) => plain_prefix(items, items.len()),
        Val::Tuple(_, items) => plain_prefix(items, items.len()),
        _ => true,
    }
}

/// Whether the first `n` elements are plain.
pub open spec fn plain_prefix(items: Seq<Val>, n: nat) -> bool
    decreases items, 0int, n,
{
    if n == 0 || n > items.len() {
        n == 0
    } else {
        plain_prefix(items, (n - 1) as nat) && plain(items[n - 1])
    }
}

pub open spec fn all_plain(items: Seq<Val>) -> bool {
    plain_prefix(items, items.len())
}

/// The text of argument `k`, or `default` when there is none.
pub open spec fn text_arg(args: Seq<Val>, k: int, default: Seq<char>) -> Seq<char> {
    if k < args.len() { val_text(args[k]) } else { default }
}

/// Argument `k`, or null when there is none.
pub open spec fn arg_or_null(args: Seq<Val>, k: int) -> Val {
    if 0 <= k < args.len() { args[k] } else { Val::Null }
}

/// Texts as string values.
pub open spec fn str_vals(parts: Seq<Seq<char>>) -> Seq<Val> {
    Seq::new(parts.len(), |i: int| Val::Str(parts[i]))
}

/// The identity counter after `k` fresh identities.
pub open spec fn bumps(x: u64, k: nat) -> u64
    decreases k,
{
    if k == 0 { x } else { crate::ops::wrap_add_u64(bumps(x, (k - 1) as nat)) }
}

pub open spec fn method_not_found(name: Seq<char>, obj: Val) -> Seq<char> {
    "ال method "@ + name + " غير موجود على "@ + kind_name(obj)
}

pub open spec fn name_class() -> Seq<char> {
    "استثناء_اسم"@
}

pub open spec fn not_found(m: MachineModel, p: ProgramModel, name: Seq<char>, obj: Val) -> (MachineModel, StepModel) {
    spec_throw(m, p, name_class(), method_not_found(name, obj))
}

pub open spec fn give(m: MachineModel, v: Val) -> (MachineModel, StepModel) {
    (push(m, v), StepModel::Continue)
}

/// Pushes a new list (with the next identity).
pub open spec fn give_list(m: MachineModel, items: Seq<Val>) -> (MachineModel, StepModel) {
    (push(bump(m), Val::List(m.next_oid, items)), StepModel::Continue)
}

/// Changes the object in place (every holder sees it) and pushes `v`.
pub open spec fn change(m: MachineModel, nobj: Val, v: Val) -> (MachineModel, StepModel) {
    (push(refresh_machine(m, nobj), v), StepModel::Continue)
}

pub open spec fn hand_out(m: MachineModel, name: Seq<char>, obj: Val, args: Seq<Val>) -> (MachineModel, StepModel) {
    (m, StepModel::MethodCall(name, obj, args))
}

/// The text methods handed to the caller.
pub open spec fn outside_text_method(name: Seq<char>, args: Seq<Val>) -> bool {
    ||| name == "اوجد"@
    ||| name == "كم"@
    ||| name == "افصل_ع"@
    ||| name == "اقسم_ع"@
    ||| (name == "افصل"@ && args.len() > 1 && args[1] is Int)
}

/// The text in upper case, by the Unicode case mappings.
pub uninterp spec fn upper_text(s: Seq<char>) -> Seq<char>;

/// Calls `str::to_uppercase`.  The result is named, not stated.
#[verifier::external_body]
pub(crate) fn to_upper(s: &String) -> (r: String)
    ensures
        r@ == upper_text(s@),
{
    s.to_uppercase()
}

/// The text in lower case, by the Unicode case mappings.
pub uninterp spec fn lower_text(s: Seq<char>) -> Seq<char>;

/// Calls `str::to_lowercase`.  The result is named, not stated.
#[verifier::external_body]
pub(crate) fn to_lower(s: &String) -> (r: String)
    ensures
        r@ == lower_text(s@),
{
    s.to_lowercase()
}

/// The text without the Unicode white space at both ends.
pub uninterp spec fn trimmed_text(s: Seq<char>) -> Seq<char>;

/// Calls `str::trim` and copies the result.  The result is named, not stated.
#[verifier::external_body]
fn trim_text(s: &String) -> (r: String)
    ensures
        r@ == trimmed_text(s@),
{
    s.trim().to_string()
}

/// Whether a character is alphabetic by the Unicode tables.
pub uninterp spec fn alphabetic(c: char) -> bool;

/// Calls `char::is_alphabetic`.  The result is named, not stated.
#[verifier::external_body]
fn is_alphabetic_char(c: char) -> (r: bool)
    ensures
        r == alphabetic(c),
{
    c.is_alphabetic()
}

/// Whether a text is non-empty and made of alphabetic characters only.
pub open spec fn all_alphabetic(s: Seq<char>) -> bool {
    s.len() > 0 && forall|i: int| 0 <= i < s.len() ==> alphabetic(#[trigger] s[i])
}

fn all_alphabetic_exec(s: &Vec<char>) -> (r: bool)
    ensures
        r == all_alphabetic(s@),
{
    if s.len() == 0 {
        return false;
    }
    let mut i: usize = 0;
    while i < s.len()
        invariant
            i <= s@.len(),
            forall|k: int| 0 <= k < i ==> alphabetic(#[trigger] s@[k]),
        decreases s@.len() - i,
    {
        if !is_alphabetic_char(s[i]) {
            return false;
        }
        i = i + 1;
    }
    true
}

/// A method of a text.
pub open spec fn text_method(m: MachineModel, p: ProgramModel, s: Seq<char>, name: Seq<char>, args: Seq<Val>) -> (MachineModel, StepModel) {
    if outside_text_method(name, args) {
        hand_out(m, name, Val::Str(s), args)
    } else if name == "طول"@ {
        give(m, Val::Int(s.len() as i64))
    } else if name == "يحتوي"@ {
        give(m, Val::Bool(crate::ops::chars_contain(s, text_arg(args, 0, Seq::empty()))))
    } else if name == "تبدا_بـ"@ || name == "يبدا"@ {
        give(m, Val::Bool(starts_with(s, text_arg(args, 0, Seq::empty()))))
    } else if name == "تنتهي_بـ"@ || name == "ينتهي"@ {
        give(m, Val::Bool(ends_with(s, text_arg(args, 0, Seq::empty()))))
    } else if name == "استبدل"@ {
        give(m, Val::Str(if args.len() >= 2 { replace_all(s, val_text(args[0]), val_text(args[1])) } else { s }))
    } else if name == "اقسم"@ {
        give_list(m, str_vals(split_text(s, text_arg(args, 0, Seq::empty()))))
    } else if name == "افصل"@ {
        give_list(m, str_vals(split_text(s, text_arg(args, 0, seq![' ']))))
    } else if name == "تحقق_من_الرقم"@ {
        give(m, Val::Bool(all_ascii_digits(s)))
    } else if name == "اكبر"@ {
        give(m, Val::Str(upper_text(s)))
    } else if name == "اصغر"@ {
        give(m, Val::Str(lower_text(s)))
    } else if name == "شطب"@ {
        give(m, Val::Str(trimmed_text(s)))
    } else if name == "تحقق_من_الحرف"@ {
        give(m, Val::Bool(all_alphabetic(s)))
    } else if name == "اربط"@ {
        give(m, Val::Str(match arg_or_null(args, 0) {
            Val::List(_, items) | Val::Tuple(_, items) => crate::builtin_text::join_texts(items, s),
            _ => Seq::empty(),
        }))
    } else {
        not_found(m, p, name, Val::Str(s))
    }
}

/// The position where `ادرج` inserts: the index when it is an integer
/// inside the list, else the end.
pub open spec fn insert_position(len: nat, a: Val) -> int {
    match a {
        Val::Int(n) => if 0 <= n && n < len { n as int } else { len as int },
        _ => len as int,
    }
}

/// The elements not equal to `v`.
pub open spec fn without(items: Seq<Val>, v: Val) -> Seq<Val>
    decreases items.len(),
{
    if items.len() == 0 {
        items
    } else if val_eq(items.last(), v) {
        without(items.drop_last(), v)
    } else {
        without(items.drop_last(), v).push(items.last())
    }
}

/// The first position of an element equal to `v`, or -1.
pub open spec fn position_of(items: Seq<Val>, v: Val) -> int
    decreases items.len(),
{
    if items.len() == 0 {
        -1
    } else if position_of(items.drop_last(), v) >= 0 {
        position_of(items.drop_last(), v)
    } else if val_eq(items.last(), v) {
        items.len() - 1
    } else {
        -1
    }
}

/// The number of elements equal to `v`.
pub open spec fn count_of(items: Seq<Val>, v: Val) -> nat
    decreases items.len(),
{
    if items.len() == 0 {
        0
    } else {
        count_of(items.drop_last(), v) + if val_eq(items.last(), v) { 1nat } else { 0nat }
    }
}

/// Whether every element is an integer, or every element is a text.
pub open spec fn sortable(items: Seq<Val>) -> bool {
    (forall|i: int| 0 <= i < items.len() ==> #[trigger] items[i] is Int)
    || (forall|i: int| 0 <= i < items.len() ==> #[trigger] items[i] is Str)
}

/// The order the sort uses on integers and on texts.
pub open spec fn before(a: Val, b: Val) -> bool {
    crate::ops::val_lt(a, b)
}

/// `x` inserted after every element not after it (a stable insertion).
pub open spec fn insert_sorted(sorted: Seq<Val>, x: Val) -> Seq<Val>
    decreases sorted.len(),
{
    if sorted.len() == 0 {
        seq![x]
    } else if before(x, sorted.last()) {
        insert_sorted(sorted.drop_last(), x).push(sorted.last())
    } else {
        sorted.push(x)
    }
}

/// The elements in order, equal ones in the order they had.
pub open spec fn sorted(items: Seq<Val>) -> Seq<Val>
    decreases items.len(),
{
    if items.len() == 0 { items } else { insert_sorted(sorted(items.drop_last()), items.last()) }
}

/// A method of a list.
pub open spec fn list_method(m: MachineModel, p: ProgramModel, o: u64, items: Seq<Val>, name: Seq<char>, args: Seq<Val>) -> (MachineModel, StepModel) {
    let obj = Val::List(o, items);
    let v0 = arg_or_null(args, 0);
    if name == "اضف"@ {
        change(m, Val::List(o, items.push(v0)), Val::Null)
    } else if name == "ادرج"@ {
        change(m, Val::List(o, items.insert(insert_position(items.len(), v0), arg_or_null(args, 1))), Val::Null)
    } else if name == "امسح"@ {
        if args.len() == 0 {
            give(m, Val::Null)
        } else if !(plain(v0) && all_plain(items)) {
            hand_out(m, name, obj, args)
        } else {
            change(m, Val::List(o, without(items, v0)), Val::Null)
        }
    } else if name == "رتب"@ {
        if sortable(items) { change(m, Val::List(o, sorted(items)), Val::List(o, sorted(items))) } else { hand_out(m, name, obj, args) }
    } else if name == "فهرس"@ {
        if !(plain(v0) && all_plain(items)) { hand_out(m, name, obj, args) } else { give(m, Val::Int(position_of(items, v0) as i64)) }
    } else if name == "عدد"@ {
        if !(plain(v0) && all_plain(items)) { hand_out(m, name, obj, args) } else { give(m, Val::Int((count_of(items, v0) as int) as i64)) }
    } else if name == "احذف_عنصر"@ {
        match v0 {
            Val::Int(n) => if 0 <= n && n < items.len() { change(m, Val::List(o, items.remove(n as int)), Val::Null) } else { give(m, Val::Null) },
            _ => give(m, Val::Null),
        }
    } else if name == "عكس"@ {
        change(m, Val::List(o, items.reverse()), Val::List(o, items.reverse()))
    } else if name == "امسح_كل"@ {
        change(m, Val::List(o, Seq::empty()), Val::Null)
    } else {
        not_found(m, p, name, obj)
    }
}

/// A method of a set.
pub open spec fn set_method(m: MachineModel, p: ProgramModel, o: u64, items: Seq<Val>, name: Seq<char>, args: Seq<Val>) -> (MachineModel, StepModel) {
    let obj = Val::SetVal(o, items);
    let v0 = arg_or_null(args, 0);
    if name == "اضف"@ {
        if !(plain(v0) && all_plain(items)) {
            hand_out(m, name, obj, args)
        } else if crate::ops::seq_has(items, v0) {
            give(m, Val::Null)
        } else {
            change(m, Val::SetVal(o, items.push(v0)), Val::Null)
        }
    } else if name == "اسحب"@ {
        if items.len() == 0 { give(m, Val::Null) } else { change(m, Val::SetVal(o, items.drop_last()), items.last()) }
    } else {
        not_found(m, p, name, obj)
    }
}

/// The pairs after storing each pair of `other` in turn.
pub open spec fn update_all(pairs: Seq<(Val, Val)>, other: Seq<(Val, Val)>) -> Seq<(Val, Val)>
    decreases other.len(),
{
    if other.len() == 0 { pairs } else { dict_put(update_all(pairs, other.drop_last()), other.last().0, other.last().1) }
}

/// The first position of a key equal to `k`, or -1.
pub open spec fn key_position(pairs: Seq<(Val, Val)>, k: Val) -> int {
    position_of(keys_of(pairs), k)
}

/// The dictionary's items as (key, value) tuples, the `i`-th with the
/// identity after `i + 1` fresh ones.
pub open spec fn item_tuples(pairs: Seq<(Val, Val)>, x: u64) -> Seq<Val> {
    Seq::new(pairs.len(), |i: int| Val::Tuple(bumps(x, (i + 1) as nat), seq![pairs[i].0, pairs[i].1]))
}

/// A method of a dictionary.
pub open spec fn dict_method(m: MachineModel, p: ProgramModel, o: u64, pairs: Seq<(Val, Val)>, name: Seq<char>, args: Seq<Val>) -> (MachineModel, StepModel) {
    let obj = Val::Dict(o, pairs);
    let v0 = arg_or_null(args, 0);
    if name == "احضر"@ {
        give(m, match dict_get(pairs, v0) {
            Some(v) => v,
            None => arg_or_null(args, 1),
        })
    } else if name == "مفاتيح"@ {
        give_list(m, keys_of(pairs))
    } else if name == "قيم"@ {
        give_list(m, Seq::new(pairs.len(), |i: int| pairs[i].1))
    } else if name == "عناصر"@ {
        (push(MachineModel { next_oid: bumps(m.next_oid, pairs.len() + 1), ..m },
            Val::List(m.next_oid, item_tuples(pairs, m.next_oid))), StepModel::Continue)
    } else if name == "حدث"@ {
        match v0 {
            Val::Dict(_, other) => change(m, Val::Dict(o, update_all(pairs, other)), Val::Null),
            _ => give(m, Val::Null),
        }
    } else if name == "احذف_مفتاح"@ {
        match dict_get(pairs, v0) {
            None => give(m, Val::Null),
            Some(v) => change(m, Val::Dict(o, pairs.remove(key_position(pairs, v0))), v),
        }
    } else if name == "امسح"@ {
        change(m, Val::Dict(o, Seq::empty()), Val::Null)
    } else {
        not_found(m, p, name, obj)
    }
}

/// The keys of a dictionary's pairs.
pub open spec fn keys_of(pairs: Seq<(Val, Val)>) -> Seq<Val> {
    Seq::new(pairs.len(), |i: int| pairs[i].0)
}

/// A key removal the model holds: the key is absent, or it is the last
/// pair's, found there both by the key index and by equality.
pub open spec fn key_removal_ok(pairs: Seq<(Val, Val)>, args: Seq<Val>) -> bool {
    let k = arg_or_null(args, 0);
    dict_get(pairs, k) is Some ==> (
        plain(k)
        && all_plain(keys_of(pairs))
        && key_position(pairs, k) == pairs.len() - 1
        && key_index(pairs, k) == Some(pairs.len() - 1))
}

/// The number of arguments the instruction takes from the stack.
pub open spec fn arg_count(b: u8) -> nat {
    if b < 4 { b as nat } else { 4 }
}

/// The stack below the arguments and the object, the arguments, and the object.
pub open spec fn method_operands(m: MachineModel, b: u8) -> (Seq<Val>, Seq<Val>, Val) {
    let (s1, args) = take_top(m.stack, arg_count(b));
    let (s2, obj) = spop(s1);
    (s2, args, obj)
}

/// `CallMethod(a, b)`: calls method `names[a]` of the object below the
/// arguments (at most four are taken from the stack).
pub open spec fn spec_call_method(m: MachineModel, p: ProgramModel, a: usize, b: u8) -> (MachineModel, StepModel) {
    let (s, args, obj) = method_operands(m, b);
    let m2 = with_stack(m, s);
    let name = p.names[a as int];
    match obj {
        Val::Str(t) => text_method(m2, p, t, name, args),
        Val::List(o, items) => list_method(m2, p, o, items, name, args),
        Val::SetVal(o, items) => set_method(m2, p, o, items, name, args),
        Val::Dict(o, pairs) => dict_method(m2, p, o, pairs, name, args),
        _ => not_found(m2, p, name, obj),
    }
}

/// The calls the machine handles: not on instances, classes or files
/// (which it does not create), and a key removal only of the last pair
/// (removing an earlier one leaves the dictionary's key index pointing past
/// the pairs that moved, which the model does not hold).
pub open spec fn call_method_defined(m: MachineModel, p: ProgramModel, a: usize, b: u8) -> bool {
    let (_, args, obj) = method_operands(m, b);
    match obj {
        Val::Instance(_, _) | Val::Class(_, _) | Val::File(_, _) => false,
        Val::Dict(_, pairs) => (a < p.names.len() && p.names[a as int] == "احذف_مفتاح"@) ==> key_removal_ok(pairs, args),
        _ => true,
    }
}

/// Resuming after the caller performed a method: `updated` is the object's
/// new state when the method changed it.
pub open spec fn spec_resume_method(m: MachineModel, result: Val, updated: Option<Val>) -> MachineModel {
    push(match updated {
        Some(o) => refresh_machine(m, o),
        None => m,
    }, result)
}

// ---------------------------------------------------------------- execution: values

pub(crate) fn is_plain(v: &Value) -> (r: bool)
    ensures
        r == plain(v@),
    decreases v, 1int,
{
    match v {
        Value::Float(f) => {
            assert(v@ == Val::Float(f.bits, f.text@));
            false
        }
        Value::Dict(d) => {
            assert(v@ == Val::Dict(d.oid, val_pairs(d.pairs@)));
            false
        }
        Value::SetVal(l) => {
            assert(v@ == Val::SetVal(l.oid, vals(l.items@)));
            false
        }
        Value::List(l) => {
            let r = items_plain(&l.items);
            assert(v@ == Val::List(l.oid, vals(l.items@)));
            assert(plain(v@) == all_plain(vals(l.items@)));
            r
        }
        Value::Tuple(l) => {
            let r = items_plain(&l.items);
            assert(v@ == Val::Tuple(l.oid, vals(l.items@)));
            assert(plain(v@) == all_plain(vals(l.items@)));
            r
        }
        _ => {
            assert(!(v@ is Float) && !(v@ is Dict) && !(v@ is SetVal) && !(v@ is List) && !(v@ is Tuple));
            true
        }
    }
}

pub(crate) fn items_plain(items: &Vec<Value>) -> (r: bool)
    ensures
        r == all_plain(vals(items@)),
    decreases items@, 0int,
{
    let ghost s = vals(items@);
    let mut ok = true;
    let mut i: usize = 0;
    while i < items.len()
        invariant
            s == vals(items@),
            i <= items@.len(),
            ok == plain_prefix(s, i as nat),
        decreases items@.len() - i,
    {
        proof { assert(decreases_to!(items@ => items@[i as int])); }
        let here = is_plain(&items[i]);
        ok = ok && here;
        i = i + 1;
    }
    ok
}

fn text_arg_exec(args: &Vec<Value>, k: usize, default: Vec<char>) -> (r: Vec<char>)
    ensures
        r@ == text_arg(vals(args@), k as int, default@),
{
    if k < args.len() { args[k].to_string_value() } else { default }
}

fn arg_or_null_exec(args: &Vec<Value>, k: usize) -> (r: Value)
    ensures
        r@ == arg_or_null(vals(args@), k as int),
{
    if k < args.len() { args[k].duplicate() } else { Value::Null }
}

pub(crate) fn str_values(parts: Vec<Vec<char>>) -> (r: Vec<Value>)
    ensures
        vals(r@) == str_vals(crate::textops::char_seqs(parts@)),
{
    let mut out: Vec<Value> = Vec::new();
    let mut i: usize = 0;
    while i < parts.len()
        invariant
            i <= parts@.len(),
            vals(out@) =~= str_vals(crate::textops::char_seqs(parts@)).subrange(0, i as int),
        decreases parts@.len() - i,
    {
        let ghost before = out@;
        out.push(Value::String(crate::value::copy_chars(&parts[i])));
        assert(vals(out@) =~= vals(before).push(Val::Str(parts@[i as int]@)));
        i = i + 1;
    }
    out
}

fn without_exec(items: &Vec<Value>, v: &Value) -> (r: Vec<Value>)
    ensures
        vals(r@) == without(vals(items@), v@),
{
    let ghost s = vals(items@);
    let mut out: Vec<Value> = Vec::new();
    let mut i: usize = 0;
    while i < items.len()
        invariant
            s == vals(items@),
            i <= items@.len(),
            vals(out@) == without(s.subrange(0, i as int), v@),
        decreases items@.len() - i,
    {
        let ghost before = vals(out@);
        if !crate::ops::values_equal(&items[i], v) {
            out.push(items[i].duplicate());
            assert(vals(out@) =~= before.push(s[i as int]));
        }
        proof {
            let next = s.subrange(0, i + 1);
            assert(next.drop_last() =~= s.subrange(0, i as int));
            assert(next.last() == s[i as int]);
        }
        i = i + 1;
    }
    assert(s.subrange(0, items@.len() as int) =~= s);
    out
}

pub(crate) fn position_of_exec(items: &Vec<Value>, v: &Value) -> (r: Option<usize>)
    ensures
        match r {
            Some(k) => position_of(vals(items@), v@) == k as int,
            None => position_of(vals(items@), v@) == -1,
        },
{
    let ghost s = vals(items@);
    let mut i: usize = 0;
    while i < items.len()
        invariant
            s == vals(items@),
            i <= items@.len(),
            position_of(s.subrange(0, i as int), v@) == -1,
        decreases items@.len() - i,
    {
        proof {
            let next = s.subrange(0, i + 1);
            assert(next.drop_last() =~= s.subrange(0, i as int));
            assert(next.last() == s[i as int]);
        }
        if crate::ops::values_equal(&items[i], v) {
            proof {
                assert(position_of(s.subrange(0, i + 1), v@) == i);
                lemma_position_prefix(s, v@, i as int);
            }
            return Some(i);
        }
        i = i + 1;
    }
    assert(s.subrange(0, items@.len() as int) =~= s);
    None
}

proof fn lemma_position_range(s: Seq<Val>, v: Val)
    ensures
        -1 <= position_of(s, v) < s.len(),
    decreases s.len(),
{
    if s.len() > 0 {
        lemma_position_range(s.drop_last(), v);
    }
}

/// A first match in a prefix is the first match of the whole sequence.
proof fn lemma_position_prefix(s: Seq<Val>, v: Val, i: int)
    requires
        0 <= i < s.len(),
        position_of(s.subrange(0, i + 1), v) == i,
    ensures
        position_of(s, v) == i,
    decreases s.len() - i,
{
    if s.len() > i + 1 {
        let pre = s.subrange(0, s.len() - 1);
        assert(pre.subrange(0, i + 1) =~= s.subrange(0, i + 1));
        lemma_position_prefix(pre, v, i);
        assert(s.drop_last() =~= pre);
    } else {
        assert(s.subrange(0, i + 1) =~= s);
    }
}

fn count_of_exec(items: &Vec<Value>, v: &Value) -> (r: usize)
    ensures
        r as nat == count_of(vals(items@), v@),
{
    let ghost s = vals(items@);
    let mut n: usize = 0;
    let mut i: usize = 0;
    while i < items.len()
        invariant
            s == vals(items@),
            i <= items@.len(),
            n as nat == count_of(s.subrange(0, i as int), v@),
            n <= i,
        decreases items@.len() - i,
    {
        proof {
            let next = s.subrange(0, i + 1);
            assert(next.drop_last() =~= s.subrange(0, i as int));
            assert(next.last() == s[i as int]);
        }
        if crate::ops::values_equal(&items[i], v) {
            n = n + 1;
        }
        i = i + 1;
    }
    assert(s.subrange(0, items@.len() as int) =~= s);
    n
}

proof fn lemma_insert_sorted_tail(s: Seq<Val>, x: Val, j: int)
    requires
        0 <= j <= s.len(),
        forall|t: int| j <= t < s.len() ==> before(x, #[trigger] s[t]),
    ensures
        insert_sorted(s, x) == insert_sorted(s.subrange(0, j), x) + s.subrange(j, s.len() as int),
    decreases s.len() - j,
{
    if j < s.len() {
        let pre = s.drop_last();
        assert(before(x, s.last()));
        lemma_insert_sorted_tail(pre, x, j);
        assert(pre.subrange(0, j) =~= s.subrange(0, j));
        assert(s.subrange(j, s.len() as int) =~= pre.subrange(j, pre.len() as int).push(s.last()));
    } else {
        assert(s.subrange(0, j) =~= s);
    }
}

/// Inserts `x` into the ordered `out` after every element not after it.
fn insert_sorted_exec(out: &mut Vec<Value>, x: Value)
    ensures
        vals(final(out)@) == insert_sorted(vals(old(out)@), x@),
{
    let ghost s = vals(out@);
    let mut j = out.len();
    while j > 0 && crate::ops::less_than(&x, &out[j - 1])
        invariant
            s == vals(out@),
            j <= out@.len(),
            forall|t: int| j <= t < s.len() ==> before(x@, #[trigger] s[t]),
        decreases j,
    {
        j = j - 1;
    }
    proof {
        lemma_insert_sorted_tail(s, x@, j as int);
        let pre = s.subrange(0, j as int);
        if j > 0 {
            assert(!before(x@, pre.last()));
            assert(insert_sorted(pre, x@) == pre.push(x@));
        } else {
            assert(pre.len() == 0);
        }
    }
    let ghost xm = x@;
    out.insert(j, x);
    assert(vals(out@) =~= s.subrange(0, j as int).push(xm) + s.subrange(j as int, s.len() as int));
}

pub(crate) fn sorted_exec(items: &Vec<Value>) -> (r: Vec<Value>)
    ensures
        vals(r@) == sorted(vals(items@)),
{
    let ghost s = vals(items@);
    let mut out: Vec<Value> = Vec::new();
    let mut i: usize = 0;
    while i < items.len()
        invariant
            s == vals(items@),
            i <= items@.len(),
            vals(out@) == sorted(s.subrange(0, i as int)),
        decreases items@.len() - i,
    {
        proof {
            let next = s.subrange(0, i + 1);
            assert(next.drop_last() =~= s.subrange(0, i as int));
            assert(next.last() == s[i as int]);
        }
        insert_sorted_exec(&mut out, items[i].duplicate());
        i = i + 1;
    }
    assert(s.subrange(0, items@.len() as int) =~= s);
    out
}

pub(crate) fn sortable_exec(items: &Vec<Value>) -> (r: bool)
    ensures
        r == sortable(vals(items@)),
{
    let ghost s = vals(items@);
    let mut ints = true;
    let mut strs = true;
    let mut i: usize = 0;
    while i < items.len()
        invariant
            s == vals(items@),
            i <= items@.len(),
            ints == (forall|t: int| 0 <= t < i ==> #[trigger] s[t] is Int),
            strs == (forall|t: int| 0 <= t < i ==> #[trigger] s[t] is Str),
        decreases items@.len() - i,
    {
        let (is_int, is_str) = match &items[i] {
            Value::Integer(_) => (true, false),
            Value::String(_) => (false, true),
            _ => (false, false),
        };
        assert(is_int == (s[i as int] is Int) && is_str == (s[i as int] is Str));
        ints = ints && is_int;
        strs = strs && is_str;
        proof {
            if !ints {
                if !is_int {
                    assert(!(s[i as int] is Int));
                }
            }
        }
        i = i + 1;
    }
    ints || strs
}

// ---------------------------------------------------------------- execution: the instruction

fn is_name(name: &Vec<char>, t: &str) -> (r: bool)
    ensures
        r == (name@ == t@),
{
    crate::text::chars_eq(name, &crate::text::str_to_chars(t))
}

fn outside_text_method_exec(name: &Vec<char>, args: &Vec<Value>) -> (r: bool)
    ensures
        r == outside_text_method(name@, vals(args@)),
{
    is_name(name, "اوجد") || is_name(name, "كم") || is_name(name, "افصل_ع") || is_name(name, "اقسم_ع")
        || (is_name(name, "افصل") && args.len() > 1 && match &args[1] {
            Value::Integer(_) => true,
            _ => false,
        })
}

fn keys_exec(pairs: &Vec<(Value, Value)>) -> (r: Vec<Value>)
    ensures
        vals(r@) == keys_of(val_pairs(pairs@)),
{
    let mut out: Vec<Value> = Vec::new();
    let mut i: usize = 0;
    while i < pairs.len()
        invariant
            i <= pairs@.len(),
            vals(out@) =~= keys_of(val_pairs(pairs@)).subrange(0, i as int),
        decreases pairs@.len() - i,
    {
        let ghost before = vals(out@);
        out.push(pairs[i].0.duplicate());
        assert(vals(out@) =~= before.push(val_pairs(pairs@)[i as int].0));
        i = i + 1;
    }
    out
}

fn values_exec(pairs: &Vec<(Value, Value)>) -> (r: Vec<Value>)
    ensures
        vals(r@) == Seq::new(val_pairs(pairs@).len(), |i: int| val_pairs(pairs@)[i].1),
{
    let mut out: Vec<Value> = Vec::new();
    let mut i: usize = 0;
    while i < pairs.len()
        invariant
            i <= pairs@.len(),
            vals(out@) =~= Seq::new(val_pairs(pairs@).len(), |t: int| val_pairs(pairs@)[t].1).subrange(0, i as int),
        decreases pairs@.len() - i,
    {
        let ghost before = vals(out@);
        out.push(pairs[i].1.duplicate());
        assert(vals(out@) =~= before.push(val_pairs(pairs@)[i as int].1));
        i = i + 1;
    }
    out
}

impl VM {
    /// Resumes after the caller performed a method the machine handed out:
    /// pushes `result`, after making every holder of the object see
    /// `updated` when the method changed it.
    pub fn resume_method(&mut self, result: Value, updated: Option<Value>)
        requires
            wf(old(self)@),
        ensures
            final(self)@ == spec_resume_method(old(self)@, result@, match updated { Some(o) => Some(o@), None => None }),
            wf(final(self)@),
    {
        let ghost m = self@;
        match updated {
            Some(o) => {
                self.refresh_holders(&o);
                proof { crate::steps::lemma_refresh_keeps_layout(m, o@); }
            }
            None => {}
        }
        self.push_value(result);
    }

    /// Resumes after a method the machine handed out failed with `e`: the
    /// error is raised in the running frame.
    pub fn resume_method_error(&mut self, p: &Program, e: RuntimeError) -> (s: Step)
        requires
            wf(old(self)@),
        ensures
            (final(self)@, step_model(s)) == spec_throw(old(self)@, p@, e.class_view(), e.message_view()),
            wf(final(self)@),
    {
        let ghost m = self@;
        let c = crate::text::str_to_chars(e.class_name());
        let msg = crate::text::str_to_chars(e.message());
        let s = self.throw_chars(p, c, msg);
        proof { crate::steps::lemma_throw_keeps_layout(m, p@, e.class_view(), e.message_view()); }
        s
    }

    fn give_exec(&mut self, v: Value) -> (s: Step)
        ensures
            (final(self)@, step_model(s)) == give(old(self)@, v@),
    {
        self.push_value(v);
        Step::Continue
    }

    fn give_list_exec(&mut self, items: Vec<Value>) -> (s: Step)
        ensures
            (final(self)@, step_model(s)) == give_list(old(self)@, vals(items@)),
    {
        let fresh = self.bump_oid();
        self.push_value(Value::List(ListObj { oid: fresh, items }));
        Step::Continue
    }

    fn change_exec(&mut self, nobj: Value, v: Value) -> (s: Step)
        requires
            wf(old(self)@),
        ensures
            (final(self)@, step_model(s)) == change(old(self)@, nobj@, v@),
            wf(final(self)@),
    {
        let ghost m = self@;
        self.refresh_holders(&nobj);
        proof { crate::steps::lemma_refresh_keeps_layout(m, nobj@); }
        self.push_value(v);
        Step::Continue
    }

    fn not_found_exec(&mut self, p: &Program, name: &Vec<char>, obj: &Value) -> (s: Step)
        requires
            wf(old(self)@),
        ensures
            (final(self)@, step_model(s)) == not_found(old(self)@, p@, name@, obj@),
            wf(final(self)@),
    {
        let ghost m = self@;
        let mut msg = crate::text::str_to_chars("ال method ");
        crate::text::extend_chars(&mut msg, name);
        let mid = crate::text::str_to_chars(" غير موجود على ");
        crate::text::extend_chars(&mut msg, &mid);
        let kind = obj.kind_name();
        crate::text::extend_chars(&mut msg, &kind);
        let s = self.throw_chars(p, crate::text::str_to_chars("استثناء_اسم"), msg);
        proof { crate::steps::lemma_throw_keeps_layout(m, p@, name_class(), method_not_found(name@, obj@)); }
        s
    }

    fn text_method_exec(&mut self, p: &Program, t: Vec<char>, name: Vec<char>, args: Vec<Value>) -> (s: Step)
        requires
            wf(old(self)@),
        ensures
            (final(self)@, step_model(s)) == text_method(old(self)@, p@, t@, name@, vals(args@)),
            wf(final(self)@),
    {
        if outside_text_method_exec(&name, &args) {
            return Step::MethodCall(name, Value::String(t), args);
        }
        if is_name(&name, "طول") {
            let n = t.len() as i64;
            self.give_exec(Value::Integer(n))
        } else if is_name(&name, "يحتوي") {
            let pat = text_arg_exec(&args, 0, Vec::new());
            self.give_exec(Value::Boolean(crate::ops::chars_contain_exec(&t, &pat)))
        } else if is_name(&name, "تبدا_بـ") || is_name(&name, "يبدا") {
            let pat = text_arg_exec(&args, 0, Vec::new());
            self.give_exec(Value::Boolean(crate::textops::starts_with_exec(&t, &pat)))
        } else if is_name(&name, "تنتهي_بـ") || is_name(&name, "ينتهي") {
            let pat = text_arg_exec(&args, 0, Vec::new());
            self.give_exec(Value::Boolean(crate::textops::ends_with_exec(&t, &pat)))
        } else if is_name(&name, "استبدل") {
            if args.len() >= 2 {
                let from = args[0].to_string_value();
                let to = args[1].to_string_value();
                self.give_exec(Value::String(crate::textops::replace_all_exec(&t, &from, &to)))
            } else {
                self.give_exec(Value::String(t))
            }
        } else if is_name(&name, "اقسم") {
            let sep = text_arg_exec(&args, 0, Vec::new());
            let parts = crate::textops::split_text_exec(&t, &sep);
            self.give_list_exec(str_values(parts))
        } else if is_name(&name, "افصل") {
            let mut space: Vec<char> = Vec::new();
            space.push(' ');
            assert(space@ =~= seq![' ']);
            let sep = text_arg_exec(&args, 0, space);
            let parts = crate::textops::split_text_exec(&t, &sep);
            self.give_list_exec(str_values(parts))
        } else if is_name(&name, "تحقق_من_الرقم") {
            self.give_exec(Value::Boolean(crate::textops::all_ascii_digits_exec(&t)))
        } else if is_name(&name, "اكبر") {
            let r = to_upper(&crate::text::chars_to_string(&t));
            self.give_exec(Value::String(crate::text::string_to_chars(&r)))
        } else if is_name(&name, "اصغر") {
            let r = to_lower(&crate::text::chars_to_string(&t));
            self.give_exec(Value::String(crate::text::string_to_chars(&r)))
        } else if is_name(&name, "شطب") {
            let r = trim_text(&crate::text::chars_to_string(&t));
            self.give_exec(Value::String(crate::text::string_to_chars(&r)))
        } else if is_name(&name, "تحقق_من_الحرف") {
            self.give_exec(Value::Boolean(all_alphabetic_exec(&t)))
        } else if is_name(&name, "اربط") {
            let joined = if args.len() > 0 {
                match &args[0] {
                    Value::List(l) | Value::Tuple(l) => crate::builtin_text::join_texts_exec(&l.items, &t),
                    _ => Vec::new(),
                }
            } else {
                Vec::new()
            };
            self.give_exec(Value::String(joined))
        } else {
            self.not_found_exec(p, &name, &Value::String(t))
        }
    }
}

fn count_as_int(k: usize) -> (r: i64)
    ensures
        r == (k as int) as i64,
{
    k as i64
}

fn insert_position_exec(len: usize, a: &Value) -> (r: usize)
    ensures
        r as int == insert_position(len as nat, a@),
        r <= len,
{
    match a {
        Value::Integer(n) => if *n >= 0 && (*n as u64) < (len as u64) { *n as usize } else { len },
        _ => len,
    }
}

fn update_all_exec(pairs: &mut Vec<(Value, Value)>, other: &Vec<(Value, Value)>)
    ensures
        val_pairs(final(pairs)@) == update_all(val_pairs(old(pairs)@), val_pairs(other@)),
{
    let ghost start = val_pairs(pairs@);
    let ghost os = val_pairs(other@);
    let mut i: usize = 0;
    while i < other.len()
        invariant
            os == val_pairs(other@),
            i <= other@.len(),
            val_pairs(pairs@) == update_all(start, os.subrange(0, i as int)),
        decreases other@.len() - i,
    {
        proof {
            let next = os.subrange(0, i + 1);
            assert(next.drop_last() =~= os.subrange(0, i as int));
            assert(next.last() == os[i as int]);
        }
        crate::containers::dict_store(pairs, other[i].0.duplicate(), other[i].1.duplicate());
        i = i + 1;
    }
    assert(os.subrange(0, other@.len() as int) =~= os);
}

impl VM {
    fn list_method_exec(&mut self, p: &Program, l: ListObj, name: Vec<char>, args: Vec<Value>) -> (s: Step)
        requires
            wf(old(self)@),
        ensures
            (final(self)@, step_model(s)) == list_method(old(self)@, p@, l.oid, vals(l.items@), name@, vals(args@)),
            wf(final(self)@),
    {
        let o = l.oid;
        let ghost items = vals(l.items@);
        let v0 = arg_or_null_exec(&args, 0);
        if is_name(&name, "اضف") {
            let mut its = l.items;
            let ghost vm = v0@;
            its.push(v0);
            assert(vals(its@) =~= items.push(vm));
            self.change_exec(Value::List(ListObj { oid: o, items: its }), Value::Null)
        } else if is_name(&name, "ادرج") {
            let len = l.items.len();
            let i = insert_position_exec(len, &v0);
            let v1 = arg_or_null_exec(&args, 1);
            let ghost vm = v1@;
            let mut its = l.items;
            its.insert(i, v1);
            assert(vals(its@) =~= items.insert(i as int, vm));
            self.change_exec(Value::List(ListObj { oid: o, items: its }), Value::Null)
        } else if is_name(&name, "امسح") {
            if args.len() == 0 {
                self.give_exec(Value::Null)
            } else if !(is_plain(&v0) && items_plain(&l.items)) {
                Step::MethodCall(name, Value::List(l), args)
            } else {
                let its = without_exec(&l.items, &v0);
                self.change_exec(Value::List(ListObj { oid: o, items: its }), Value::Null)
            }
        } else if is_name(&name, "رتب") {
            if sortable_exec(&l.items) {
                let its = sorted_exec(&l.items);
                let copy = crate::value::duplicate_items(&its);
                self.change_exec(Value::List(ListObj { oid: o, items: its }), Value::List(ListObj { oid: o, items: copy }))
            } else {
                Step::MethodCall(name, Value::List(l), args)
            }
        } else if is_name(&name, "فهرس") {
            if !(is_plain(&v0) && items_plain(&l.items)) {
                Step::MethodCall(name, Value::List(l), args)
            } else {
                let k: i64 = match position_of_exec(&l.items, &v0) {
                    Some(k) => count_as_int(k),
                    None => -1,
                };
                self.give_exec(Value::Integer(k))
            }
        } else if is_name(&name, "عدد") {
            if !(is_plain(&v0) && items_plain(&l.items)) {
                Step::MethodCall(name, Value::List(l), args)
            } else {
                let c = count_of_exec(&l.items, &v0);
                self.give_exec(Value::Integer(count_as_int(c)))
            }
        } else if is_name(&name, "احذف_عنصر") {
            match v0 {
                Value::Integer(n) => {
                    if n >= 0 && (n as u64) < (l.items.len() as u64) {
                        let mut its = l.items;
                        let _ = its.remove(n as usize);
                        assert(vals(its@) =~= items.remove(n as int));
                        self.change_exec(Value::List(ListObj { oid: o, items: its }), Value::Null)
                    } else {
                        self.give_exec(Value::Null)
                    }
                }
                _ => self.give_exec(Value::Null),
            }
        } else if is_name(&name, "عكس") {
            let mut its: Vec<Value> = Vec::new();
            let mut k = l.items.len();
            while k > 0
                invariant
                    k <= l.items@.len(),
                    items == vals(l.items@),
                    vals(its@) =~= items.reverse().subrange(0, (items.len() - k) as int),
                decreases k,
            {
                k = k - 1;
                let ghost before = vals(its@);
                its.push(l.items[k].duplicate());
                assert(vals(its@) =~= before.push(items[k as int]));
            }
            assert(items.reverse().subrange(0, items.len() as int) =~= items.reverse());
            let copy = crate::value::duplicate_items(&its);
            self.change_exec(Value::List(ListObj { oid: o, items: its }), Value::List(ListObj { oid: o, items: copy }))
        } else if is_name(&name, "امسح_كل") {
            let its: Vec<Value> = Vec::new();
            assert(vals(its@) =~= Seq::<Val>::empty());
            self.change_exec(Value::List(ListObj { oid: o, items: its }), Value::Null)
        } else {
            self.not_found_exec(p, &name, &Value::List(l))
        }
    }

    fn set_method_exec(&mut self, p: &Program, l: ListObj, name: Vec<char>, args: Vec<Value>) -> (s: Step)
        requires
            wf(old(self)@),
        ensures
            (final(self)@, step_model(s)) == set_method(old(self)@, p@, l.oid, vals(l.items@), name@, vals(args@)),
            wf(final(self)@),
    {
        let o = l.oid;
        let ghost items = vals(l.items@);
        let v0 = arg_or_null_exec(&args, 0);
        if is_name(&name, "اضف") {
            if !(is_plain(&v0) && items_plain(&l.items)) {
                Step::MethodCall(name, Value::SetVal(l), args)
            } else if crate::ops::items_have(&l.items, &v0) {
                self.give_exec(Value::Null)
            } else {
                let mut its = l.items;
                let ghost vm = v0@;
                its.push(v0);
                assert(vals(its@) =~= items.push(vm));
                self.change_exec(Value::SetVal(ListObj { oid: o, items: its }), Value::Null)
            }
        } else if is_name(&name, "اسحب") {
            if l.items.len() == 0 {
                self.give_exec(Value::Null)
            } else {
                let mut its = l.items;
                let last = its.pop().unwrap();
                assert(vals(its@) =~= items.drop_last());
                self.change_exec(Value::SetVal(ListObj { oid: o, items: its }), last)
            }
        } else {
            self.not_found_exec(p, &name, &Value::SetVal(l))
        }
    }

    fn dict_method_exec(&mut self, p: &Program, d: DictObj, name: Vec<char>, args: Vec<Value>) -> (s: Step)
        requires
            wf(old(self)@),
            name@ == "احذف_مفتاح"@ ==> key_removal_ok(val_pairs(d.pairs@), vals(args@)),
        ensures
            (final(self)@, step_model(s)) == dict_method(old(self)@, p@, d.oid, val_pairs(d.pairs@), name@, vals(args@)),
            wf(final(self)@),
    {
        let o = d.oid;
        let ghost pairs = val_pairs(d.pairs@);
        let v0 = arg_or_null_exec(&args, 0);
        if is_name(&name, "احضر") {
            let v = match crate::containers::dict_lookup(&d.pairs, &v0) {
                Some(v) => v,
                None => arg_or_null_exec(&args, 1),
            };
            self.give_exec(v)
        } else if is_name(&name, "مفاتيح") {
            let ks = keys_exec(&d.pairs);
            self.give_list_exec(ks)
        } else if is_name(&name, "قيم") {
            let vs = values_exec(&d.pairs);
            self.give_list_exec(vs)
        } else if is_name(&name, "عناصر") {
            let ghost m = self@;
            let first = self.next_oid;
            let mut out: Vec<Value> = Vec::new();
            let mut x = first;
            let mut i: usize = 0;
            assert(x == bumps(first, 0));
            while i < d.pairs.len()
                invariant
                    i <= d.pairs@.len(),
                    pairs == val_pairs(d.pairs@),
                    x == bumps(first, i as nat),
                    vals(out@) =~= item_tuples(pairs, first).subrange(0, i as int),
                decreases d.pairs@.len() - i,
            {
                x = x.wrapping_add(1);
                assert(x == bumps(first, (i + 1) as nat));
                let mut kv: Vec<Value> = Vec::new();
                kv.push(d.pairs[i].0.duplicate());
                kv.push(d.pairs[i].1.duplicate());
                let ghost before = vals(out@);
                out.push(Value::Tuple(ListObj { oid: x, items: kv }));
                assert(vals(kv@) =~= seq![pairs[i as int].0, pairs[i as int].1]);
                assert(vals(out@) =~= before.push(Val::Tuple(bumps(first, (i + 1) as nat), seq![pairs[i as int].0, pairs[i as int].1])));
                i = i + 1;
            }
            let after = x.wrapping_add(1);
            assert(after == bumps(first, (pairs.len() + 1) as nat));
            assert(item_tuples(pairs, first).subrange(0, pairs.len() as int) =~= item_tuples(pairs, first));
            self.next_oid = after;
            self.push_value(Value::List(ListObj { oid: first, items: out }));
            assert(self@ =~= push(MachineModel { next_oid: bumps(m.next_oid, pairs.len() + 1), ..m },
                Val::List(m.next_oid, item_tuples(pairs, m.next_oid))));
            Step::Continue
        } else if is_name(&name, "حدث") {
            match &v0 {
                Value::Dict(other) => {
                    let mut ps = d.pairs;
                    update_all_exec(&mut ps, &other.pairs);
                    self.change_exec(Value::Dict(DictObj { oid: o, pairs: ps }), Value::Null)
                }
                _ => self.give_exec(Value::Null),
            }
        } else if is_name(&name, "احذف_مفتاح") {
            match crate::containers::dict_lookup(&d.pairs, &v0) {
                None => self.give_exec(Value::Null),
                Some(v) => {
                    let mut ps = d.pairs;
                    let last = ps.len() - 1;
                    let _ = ps.remove(last);
                    assert(val_pairs(ps@) =~= pairs.remove(key_position(pairs, v0@)));
                    self.change_exec(Value::Dict(DictObj { oid: o, pairs: ps }), v)
                }
            }
        } else if is_name(&name, "امسح") {
            let ps: Vec<(Value, Value)> = Vec::new();
            assert(val_pairs(ps@) =~= Seq::<(Val, Val)>::empty());
            self.change_exec(Value::Dict(DictObj { oid: o, pairs: ps }), Value::Null)
        } else {
            self.not_found_exec(p, &name, &Value::Dict(d))
        }
    }

    /// Executes `CallMethod(a, b)`; the instruction pointer is already past it.
    pub(crate) fn exec_call_method(&mut self, p: &Program, a: usize, b: u8) -> (s: Step)
        requires
            wf(old(self)@),
            a < p@.names.len(),
            call_method_defined(old(self)@, p@, a, b),
        ensures
            (final(self)@, step_model(s)) == spec_call_method(old(self)@, p@, a, b),
            wf(final(self)@),
    {
        let n: usize = if b < 4 { b as usize } else { 4 };
        let args = self.take_top_values(n);
        let obj = self.pop_value();
        let name = crate::value::copy_chars(&p.names[a]);
        match obj {
            Value::String(t) => self.text_method_exec(p, t, name, args),
            Value::List(l) => self.list_method_exec(p, l, name, args),
            Value::SetVal(l) => self.set_method_exec(p, l, name, args),
            Value::Dict(d) => self.dict_method_exec(p, d, name, args),
            other => self.not_found_exec(p, &name, &other),
        }
    }

    /// Whether the machine handles `CallMethod(a, b)` here.
    pub fn call_method_ok(&self, p: &Program, a: usize, b: u8) -> (r: bool)
        ensures
            r == call_method_defined(self@, p@, a, b),
    {
        let n: usize = if b < 4 { b as usize } else { 4 };
        let len = self.stack.len();
        let ghost st = vals(self.stack@);
        let gap: usize = if n > len { n - len } else { 0 };
        let from: usize = if n > len { 0 } else { len - n };
        let mut args: Vec<Value> = Vec::new();
        while args.len() < gap
            invariant
                args@.len() <= gap,
                vals(args@) =~= Seq::new(args@.len(), |i: int| Val::Null),
            decreases gap - args@.len(),
        {
            let ghost before = vals(args@);
            args.push(Value::Null);
            assert(vals(args@) =~= before.push(Val::Null));
        }
        let mut k = from;
        while k < len
            invariant
                from <= k <= len,
                len == self.stack@.len(),
                st == vals(self.stack@),
                vals(args@) =~= Seq::new(gap as nat, |i: int| Val::Null) + st.subrange(from as int, k as int),
            decreases len - k,
        {
            let ghost before = vals(args@);
            args.push(self.stack[k].duplicate());
            assert(vals(args@) =~= before.push(st[k as int]));
            k = k + 1;
        }
        let obj = if from > 0 { self.stack[from - 1].duplicate() } else { Value::Null };
        proof {
            let (s1, ar) = take_top(st, n as nat);
            if n <= len {
                assert(vals(args@) =~= ar);
                assert(s1.len() == from);
            } else {
                assert(st.subrange(0, len as int) =~= st);
                assert(vals(args@) =~= ar);
                assert(s1.len() == 0);
            }
            if from > 0 {
                assert(s1.last() == st[from - 1]);
            }
        }
        match obj {
            Value::Instance(_) | Value::Class(_) | Value::File(_) => false,
            Value::Dict(d) => {
                if !(a < p.names.len() && is_name(&p.names[a], "احذف_مفتاح")) {
                    return true;
                }
                let k = arg_or_null_exec(&args, 0);
                match crate::containers::find_key(&d.pairs, &k) {
                    None => {
                        proof { assert(crate::containers::dict_get(val_pairs(d.pairs@), k@) is None); }
                        true
                    }
                    Some(j) => {
                        let keys = keys_exec(&d.pairs);
                        let pos = position_of_exec(&keys, &k);
                        let last = d.pairs.len() - 1;
                        let ok = is_plain(&k) && items_plain(&keys) && j == last && pos == Some(last);
                        proof {
                            lemma_position_range(keys_of(val_pairs(d.pairs@)), k@);
                        }
                        ok
                    }
                }
            }
            _ => true,
        }
    }
}

} // verus!
