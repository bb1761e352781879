//! Properties of the value operations stated against independent
//! descriptions: the order of texts, formatting by the kind letter of a
//! specification, slices, the sum of two sets and the ranges `مدى` builds.

use vstd::prelude::*;
use crate::value::Val;
use crate::ops::{val_lt, chars_lt};
use crate::formatting::{FloatStyle, format_result, parse_spec, scan, classify, FormatSpec, group_thousands, group_prefix};
use crate::ops::{FloatOperand, OutcomeModel, val_eq, seq_has, set_union, spec_add};
use crate::containers::{steps_up, steps_down, slice_positions, slice_step, slice_start, slice_end, pick,
    spec_subscript, range_positions, iter_items};
use crate::builtins::spec_range;
use crate::value::RangeData;

verus! {

// ---------------------------------------------------------------- text order

proof fn lemma_chars_lt_first_difference(a: Seq<char>, b: Seq<char>, k: int)
    requires
        0 <= k < a.len(),
        k < b.len(),
        a.subrange(0, k) == b.subrange(0, k),
        a[k] != b[k],
    ensures
        chars_lt(a, b) == ((a[k] as u32) < (b[k] as u32)),
    decreases k,
{
    if k > 0 {
        assert(a[0] == a.subrange(0, k)[0]);
        assert(b[0] == b.subrange(0, k)[0]);
        assert(a.drop_first().subrange(0, k - 1) =~= a.subrange(0, k).drop_first());
        assert(b.drop_first().subrange(0, k - 1) =~= b.subrange(0, k).drop_first());
        lemma_chars_lt_first_difference(a.drop_first(), b.drop_first(), k - 1);
    }
}

proof fn lemma_chars_lt_prefix(a: Seq<char>, b: Seq<char>)
    requires
        a.len() < b.len(),
        b.subrange(0, a.len() as int) == a,
    ensures
        chars_lt(a, b),
        !chars_lt(b, a),
    decreases a.len(),
{
    if a.len() > 0 {
        assert(a[0] == b.subrange(0, a.len() as int)[0]);
        assert(b.drop_first().subrange(0, a.len() - 1) =~= a.drop_first());
        lemma_chars_lt_prefix(a.drop_first(), b.drop_first());
    }
}

proof fn lemma_chars_lt_total(a: Seq<char>, b: Seq<char>)
    ensures
        !(chars_lt(a, b) && chars_lt(b, a)),
        a != b ==> chars_lt(a, b) || chars_lt(b, a),
        !chars_lt(a, a),
    decreases a.len(),
{
    if a.len() > 0 && b.len() > 0 {
        lemma_chars_lt_total(a.drop_first(), b.drop_first());
        lemma_chars_lt_total(a.drop_first(), a.drop_first());
        if a[0] != b[0] {
            vstd::utf8::char_u32_cast(a[0], a[0] as u32);
            vstd::utf8::char_u32_cast(b[0], b[0] as u32);
        }
        if a[0] == b[0] && a != b {
            assert(a.drop_first() != b.drop_first()) by {
                if a.drop_first() == b.drop_first() {
                    assert(a =~= seq![a[0]] + a.drop_first());
                    assert(b =~= seq![b[0]] + b.drop_first());
                }
            }
        }
    } else if a.len() > 0 {
        lemma_chars_lt_total(a.drop_first(), a.drop_first());
    } else if b.len() == 0 {
        assert(a =~= b);
    }
}

/// Texts are ordered character by character: at the first position where
/// two texts differ, the one with the smaller character is the smaller text,
/// whatever their lengths.
pub proof fn law_text_order_first_difference(a: Seq<char>, b: Seq<char>, k: int)
    requires
        0 <= k < a.len(),
        k < b.len(),
        a.subrange(0, k) == b.subrange(0, k),
        a[k] != b[k],
    ensures
        val_lt(Val::Str(a), Val::Str(b)) == ((a[k] as u32) < (b[k] as u32)),
        val_lt(Val::Str(b), Val::Str(a)) == ((b[k] as u32) < (a[k] as u32)),
{
    lemma_chars_lt_first_difference(a, b, k);
    lemma_chars_lt_first_difference(b, a, k);
}

/// A text that is a proper beginning of another is the smaller of the two.
pub proof fn law_text_order_prefix(a: Seq<char>, b: Seq<char>)
    requires
        a.len() < b.len(),
        b.subrange(0, a.len() as int) == a,
    ensures
        val_lt(Val::Str(a), Val::Str(b)),
        !val_lt(Val::Str(b), Val::Str(a)),
{
    lemma_chars_lt_prefix(a, b);
}

/// Of two texts exactly one holds: they are equal, the first is smaller, or
/// the second is smaller.
pub proof fn law_text_order_total(a: Seq<char>, b: Seq<char>)
    ensures
        !val_lt(Val::Str(a), Val::Str(a)),
        !(val_lt(Val::Str(a), Val::Str(b)) && val_lt(Val::Str(b), Val::Str(a))),
        a != b ==> val_lt(Val::Str(a), Val::Str(b)) || val_lt(Val::Str(b), Val::Str(a)),
{
    lemma_chars_lt_total(a, b);
}

// ---------------------------------------------------------------- formatting

/// The characters that ask for the exponent kind.
pub open spec fn exponent_char(c: char) -> bool {
    c == 'e' || c == 'E' || c == 'س'
}

/// The kind a kind letter of a specification asks for.
pub open spec fn kind_letter(c: char) -> Option<char> {
    if c == 'f' || c == 'F' || c == 'p' || c == 'P' || c == 'ف' {
        Some('f')
    } else if c == 'd' || c == 'D' || c == 'ع' {
        Some('d')
    } else if exponent_char(c) {
        Some('e')
    } else if c == 'g' || c == 'G' || c == 'ن' {
        Some('g')
    } else if c == ',' || c == '%' {
        Some(c)
    } else {
        None
    }
}

proof fn lemma_scan_ends_in_kind(s: Seq<char>, st: FormatSpec, p: bool)
    requires
        s.len() > 0,
        kind_letter(s.last()) is Some,
    ensures
        scan(s, st, p).kind == kind_letter(s.last()),
    decreases s.len(),
{
    if s.len() == 1 {
        assert(s.drop_first().len() == 0);
        assert(s[0] == s.last());
        assert(!crate::formatting::is_digit(s[0]));
        assert(scan(s.drop_first(), classify(st, s[0]), s[0] == '.') == classify(st, s[0]));
        assert(classify(st, s[0]).kind == kind_letter(s[0]));
    } else {
        assert(s.drop_first().last() == s.last());
        if p && crate::formatting::is_digit(s[0]) {
            lemma_scan_ends_in_kind(s.drop_first(),
                FormatSpec { precision: crate::formatting::push_digit(st.precision, s[0]), ..st }, true);
        } else {
            lemma_scan_ends_in_kind(s.drop_first(), classify(st, s[0]), s[0] == '.');
        }
    }
}

proof fn lemma_spec_kind(fmt: Seq<char>)
    requires
        fmt.len() > 0,
        kind_letter(fmt.last()) is Some,
    ensures
        parse_spec(fmt).kind == kind_letter(fmt.last()),
{
    let init = crate::formatting::initial_spec();
    if crate::formatting::starts_main(fmt[0]) {
        lemma_scan_ends_in_kind(fmt, init, false);
    } else if fmt.len() >= 2 && (fmt[1] == '<' || fmt[1] == '>' || fmt[1] == '^') {
        let rest = fmt.subrange(2, fmt.len() as int);
        assert(fmt.len() > 2) by {
            if fmt.len() == 2 {
                assert(fmt.last() == fmt[1]);
            }
        }
        assert(rest.last() == fmt.last());
        lemma_scan_ends_in_kind(rest, FormatSpec { fill: fmt[0], align: fmt[1], ..init }, false);
    } else {
        lemma_scan_ends_in_kind(fmt, init, false);
    }
}

/// A float formatted by a specification that ends in a kind letter is handed
/// on by its own bits: `e` (`E`, `س`) asks for the scientific style, `%` for
/// the percent style with no digits after the point by default, and every
/// other kind letter for the fixed style with 6 digits by default.
pub proof fn law_float_kind_style(bits: u64, t: Seq<char>, fmt: Seq<char>)
    requires
        fmt.len() > 0,
        kind_letter(fmt.last()) is Some,
    ensures
        format_result(Val::Float(bits, t), fmt) matches Err((ff, st))
            && st == parse_spec(fmt)
            && st.kind == kind_letter(fmt.last())
            && ff.value == FloatOperand::Bits(bits)
            && ff.style == (if exponent_char(fmt.last()) { FloatStyle::Exponent }
                else if fmt.last() == '%' { FloatStyle::Percent } else { FloatStyle::Fixed })
            && ff.precision == (match st.precision {
                Some(p) => p,
                None => if fmt.last() == '%' { 0usize } else { 6usize },
            }),
{
    lemma_spec_kind(fmt);
}

/// An integer formatted by a specification that ends in `f`, `e` or `g` (or
/// their other letters) is handed on in the fixed style with no digits after
/// the point by default, with `%` in the percent style; with `d` it is its
/// decimal digits, and with `,` those digits grouped by threes, padded to the
/// specification.
pub proof fn law_int_kind_style(n: i64, fmt: Seq<char>)
    requires
        fmt.len() > 0,
        kind_letter(fmt.last()) is Some,
    ensures
        kind_letter(fmt.last()) == Some('d') ==> format_result(Val::Int(n), fmt)
            == Ok::<Seq<char>, (crate::formatting::FloatFormat, FormatSpec)>(
                crate::formatting::pad(crate::text::int_decimal(n as int), parse_spec(fmt))),
        fmt.last() == ',' ==> format_result(Val::Int(n), fmt)
            == Ok::<Seq<char>, (crate::formatting::FloatFormat, FormatSpec)>(
                crate::formatting::pad(group_thousands(crate::text::int_decimal(n as int)), parse_spec(fmt))),
        kind_letter(fmt.last()) == Some('f') || kind_letter(fmt.last()) == Some('e')
            || kind_letter(fmt.last()) == Some('g') || fmt.last() == '%' ==>
            (format_result(Val::Int(n), fmt) matches Err((ff, st))
                && st == parse_spec(fmt)
                && ff.value == FloatOperand::Int(n)
                && ff.style == (if fmt.last() == '%' { FloatStyle::Percent } else { FloatStyle::Fixed })
                && ff.precision == (match st.precision { Some(p) => p, None => 0usize })),
{
    lemma_spec_kind(fmt);
}

proof fn lemma_group_prefix_shift(s: Seq<char>, t: Seq<char>, k: nat)
    requires
        t.len() == s.len() + 3,
        k <= s.len(),
        t.subrange(0, s.len() as int) == s,
    ensures
        group_prefix(t, k) == group_prefix(s, k),
    decreases k,
{
    if k > 0 {
        lemma_group_prefix_shift(s, t, (k - 1) as nat);
        let i = k - 1;
        assert(t[i] == t.subrange(0, s.len() as int)[i]);
        assert((t.len() - i) % 3 == (s.len() - i) % 3);
    }
}

proof fn lemma_group_prefix_short(s: Seq<char>, k: nat)
    requires
        k <= s.len() <= 3,
    ensures
        group_prefix(s, k) == s.subrange(0, k as int),
    decreases k,
{
    if k > 0 {
        lemma_group_prefix_short(s, (k - 1) as nat);
        assert(s.subrange(0, k as int) =~= s.subrange(0, k - 1) + seq![s[k - 1]]);
    }
}

/// Grouping digits by threes: a text of at most three characters is kept as
/// it is, and a longer one is its beginning grouped, a comma, then its last
/// three characters.
pub proof fn law_group_thousands(s: Seq<char>)
    ensures
        s.len() <= 3 ==> group_thousands(s) == s,
        s.len() > 3 ==> group_thousands(s)
            == group_thousands(s.subrange(0, s.len() - 3)) + seq![','] + s.subrange(s.len() - 3, s.len() as int),
{
    if s.len() <= 3 {
        lemma_group_prefix_short(s, s.len());
        assert(s.subrange(0, s.len() as int) =~= s);
    } else {
        let n = s.len();
        let h = s.subrange(0, n - 3);
        lemma_group_prefix_shift(h, s, h.len());
        assert(s.subrange(0, h.len() as int) =~= h);
        let g = group_prefix(s, (n - 3) as nat);
        assert(group_prefix(s, (n - 2) as nat) == g + seq![','] + seq![s[n - 3]]);
        assert(group_prefix(s, (n - 1) as nat) == g + seq![','] + seq![s[n - 3]] + seq![s[n - 2]]);
        assert(group_prefix(s, n) == g + seq![','] + seq![s[n - 3]] + seq![s[n - 2]] + seq![s[n - 1]]);
        assert(group_prefix(s, n) =~= g + seq![','] + s.subrange(n - 3, n as int));
    }
}

/// The number a run of decimal digits writes.
pub open spec fn digits_value(ds: Seq<char>) -> nat
    decreases ds.len(),
{
    if ds.len() == 0 { 0 } else { digits_value(ds.drop_last()) * 10 + (ds.last() as int - '0' as int) as nat }
}

/// Every character of `ds` is a decimal digit.
pub open spec fn all_digits(ds: Seq<char>) -> bool {
    forall|i: int| 0 <= i < ds.len() ==> '0' <= #[trigger] ds[i] && ds[i] <= '9'
}

proof fn lemma_digits_prefix_bound(ds: Seq<char>, k: int)
    requires
        all_digits(ds),
        0 <= k <= ds.len(),
    ensures
        digits_value(ds.subrange(0, k)) <= digits_value(ds),
    decreases ds.len(),
{
    if k < ds.len() {
        assert(ds.drop_last().subrange(0, k) =~= ds.subrange(0, k));
        assert(all_digits(ds.drop_last()));
        lemma_digits_prefix_bound(ds.drop_last(), k);
    } else {
        assert(ds.subrange(0, k) =~= ds);
    }
}

proof fn lemma_scan_precision_digits(ds: Seq<char>, rest: Seq<char>, st: FormatSpec, j: int)
    requires
        all_digits(ds),
        0 <= j <= ds.len(),
        st.precision == Some(0usize),
        digits_value(ds) <= usize::MAX,
    ensures
        scan(ds + rest, st, true) == scan(ds.subrange(j, ds.len() as int) + rest,
            FormatSpec { precision: Some(digits_value(ds.subrange(0, j)) as usize), ..st }, true),
    decreases j,
{
    if j == 0 {
        assert(ds.subrange(0, ds.len() as int) =~= ds);
        assert(ds.subrange(0, 0) =~= Seq::<char>::empty());
        assert(FormatSpec { precision: Some(0usize), ..st } == st);
    } else {
        lemma_scan_precision_digits(ds, rest, st, j - 1);
        let before = ds.subrange(j - 1, ds.len() as int) + rest;
        let after = ds.subrange(j, ds.len() as int) + rest;
        assert(before[0] == ds[j - 1]);
        assert(before.drop_first() =~= after);
        assert(crate::formatting::is_digit(ds[j - 1]));
        let v = digits_value(ds.subrange(0, j - 1));
        assert(ds.subrange(0, j).drop_last() =~= ds.subrange(0, j - 1));
        assert(ds.subrange(0, j).last() == ds[j - 1]);
        lemma_digits_prefix_bound(ds, j);
        let w = digits_value(ds.subrange(0, j));
        assert(w == v * 10 + (ds[j - 1] as int - '0' as int));
        let vu = v as usize;
        assert(vstd::wrapping::usize_specs::wrapping_mul(vu, 10) == v * 10) by {
            vstd::arithmetic::div_mod::lemma_small_mod((v * 10) as nat, (usize::MAX - usize::MIN + 1) as nat);
        }
        assert(crate::formatting::push_digit(Some(vu), ds[j - 1]) == Some(w as usize));
    }
}

/// A precision written as digits after the point is read as the number the
/// digits write: `.2e` asks for 2 digits after the point, `.10f` for 10.
pub proof fn law_precision_digits(ds: Seq<char>, letter: char)
    requires
        all_digits(ds),
        kind_letter(letter) is Some,
        digits_value(ds) <= usize::MAX,
    ensures
        parse_spec(seq!['.'] + ds + seq![letter]).precision == Some(digits_value(ds) as usize),
        parse_spec(seq!['.'] + ds + seq![letter]).kind == kind_letter(letter),
{
    let fmt = seq!['.'] + ds + seq![letter];
    let init = crate::formatting::initial_spec();
    assert(fmt[0] == '.');
    assert(fmt.drop_first() =~= ds + seq![letter]);
    let st1 = classify(init, '.');
    assert(parse_spec(fmt) == scan(ds + seq![letter], st1, true));
    lemma_scan_precision_digits(ds, seq![letter], st1, ds.len() as int);
    assert(ds.subrange(0, ds.len() as int) =~= ds);
    assert(ds.subrange(ds.len() as int, ds.len() as int) + seq![letter] =~= seq![letter]);
    let st2 = FormatSpec { precision: Some(digits_value(ds) as usize), ..st1 };
    assert(!crate::formatting::is_digit(letter));
    assert(seq![letter].drop_first() =~= Seq::<char>::empty());
    assert(seq![letter][0] == letter);
    assert(scan(Seq::<char>::empty(), classify(st2, letter), letter == '.') == classify(st2, letter));
    assert(scan(seq![letter], st2, true) == classify(st2, letter));
}

/// A specification that ends in `e`, `E` or `س` formats a float in the
/// scientific style, never the fixed one: the float's own bits are handed on
/// with the precision the specification gives (6 when it gives none).
pub proof fn law_exponent_kind_is_scientific(bits: u64, t: Seq<char>, fmt: Seq<char>)
    requires
        fmt.len() > 0,
        exponent_char(fmt.last()),
    ensures
        format_result(Val::Float(bits, t), fmt) matches Err((ff, st))
            && st == parse_spec(fmt)
            && st.kind == Some('e')
            && ff.style == FloatStyle::Exponent
            && ff.value == FloatOperand::Bits(bits)
            && ff.precision == (match st.precision { Some(p) => p, None => 6usize }),
{
    law_float_kind_style(bits, t, fmt);
}

// ---------------------------------------------------------------- walks

proof fn lemma_steps_up_progression(i: int, m: int, step: int)
    requires
        step > 0,
    ensures
        forall|k: int| 0 <= k < steps_up(i, m, step).len() ==>
            #[trigger] steps_up(i, m, step)[k] == i + k * step && i <= i + k * step < m,
        i + steps_up(i, m, step).len() * step >= m,
    decreases if i < m { m - i } else { 0 },
{
    if i < m {
        lemma_steps_up_progression(i + step, m, step);
        let rest = steps_up(i + step, m, step);
        let all = steps_up(i, m, step);
        assert(all == seq![i] + rest);
        assert forall|k: int| 0 <= k < all.len() implies
            #[trigger] all[k] == i + k * step && i <= i + k * step < m by {
            if k > 0 {
                assert(all[k] == rest[k - 1]);
                assert(i + step + (k - 1) * step == i + k * step) by (nonlinear_arith);
            }
        }
        let n = all.len();
        assert(i + step + rest.len() * step == i + n * step) by (nonlinear_arith)
            requires n == rest.len() + 1;
    }
}

proof fn lemma_steps_down_progression(i: int, lo: int, step: int)
    requires
        step < 0,
    ensures
        forall|k: int| 0 <= k < steps_down(i, lo, step).len() ==>
            #[trigger] steps_down(i, lo, step)[k] == i + k * step && lo < i + k * step <= i,
        i + steps_down(i, lo, step).len() * step <= lo,
    decreases if i > lo { i - lo } else { 0 },
{
    if i > lo {
        lemma_steps_down_progression(i + step, lo, step);
        let rest = steps_down(i + step, lo, step);
        let all = steps_down(i, lo, step);
        assert(all == seq![i] + rest);
        assert forall|k: int| 0 <= k < all.len() implies
            #[trigger] all[k] == i + k * step && lo < i + k * step <= i by {
            if k > 0 {
                assert(all[k] == rest[k - 1]);
                assert(i + step + (k - 1) * step == i + k * step) by (nonlinear_arith);
            }
        }
        let n = all.len();
        assert(i + step + rest.len() * step == i + n * step) by (nonlinear_arith)
            requires n == rest.len() + 1;
    }
}

// ---------------------------------------------------------------- slices

/// The position an integer slice bound names among `n` elements: a negative
/// bound counts back from the end.
pub open spec fn slice_bound(i: i64, n: int) -> int {
    if i < 0 { n + i } else { i as int }
}

proof fn lemma_unit_slice_positions(n: int, s: i64, e: i64, step: Val)
    requires
        step == Val::Null || step == Val::Int(1),
        0 <= slice_bound(s, n) < n,
        slice_bound(s, n) <= slice_bound(e, n) <= n,
    ensures
        slice_positions(n, Val::Int(s), Val::Int(e), step)
            == Seq::new((slice_bound(e, n) - slice_bound(s, n)) as nat, |k: int| slice_bound(s, n) + k),
{
    let lo = slice_bound(s, n);
    let hi = slice_bound(e, n);
    assert(slice_step(step) == 1);
    assert(slice_start(Val::Int(s), n, 1) == lo);
    assert(slice_end(Val::Int(e), n, 1) == hi);
    lemma_steps_up_progression(lo, hi, 1);
    let p = steps_up(lo, hi, 1);
    if p.len() > 0 {
        assert(p[p.len() - 1] == lo + (p.len() - 1) * 1);
    }
    assert(p.len() == hi - lo);
    assert(slice_positions(n, Val::Int(s), Val::Int(e), step) == p);
    assert(p =~= Seq::new((hi - lo) as nat, |k: int| lo + k));
}

/// A slice of a list with integer bounds and no step (or step 1) is a new
/// list of the elements from the start up to, not including, the end, where
/// a negative bound counts back from the end: `[0:-1]` holds every element
/// but the last.
pub proof fn law_list_slice_is_subrange(o: u64, items: Seq<Val>, s: i64, e: i64, step: Val, fresh: u64)
    requires
        step == Val::Null || step == Val::Int(1),
        0 <= slice_bound(s, items.len() as int) < items.len(),
        slice_bound(s, items.len() as int) <= slice_bound(e, items.len() as int) <= items.len(),
    ensures
        spec_subscript(Val::List(o, items), Val::Slice(Box::new(Val::Int(s)), Box::new(Val::Int(e)), Box::new(step)), fresh)
            == OutcomeModel::Value(Val::List(fresh,
                items.subrange(slice_bound(s, items.len() as int), slice_bound(e, items.len() as int)))),
{
    let n = items.len() as int;
    lemma_unit_slice_positions(n, s, e, step);
    assert(pick(items, slice_positions(n, Val::Int(s), Val::Int(e), step))
        =~= items.subrange(slice_bound(s, n), slice_bound(e, n)));
}

/// The same for a text: `[a:b]` is the characters from `a` up to, not
/// including, `b`, negative bounds counting back from the end.
pub proof fn law_text_slice_is_subrange(text: Seq<char>, s: i64, e: i64, step: Val, fresh: u64)
    requires
        step == Val::Null || step == Val::Int(1),
        0 <= slice_bound(s, text.len() as int) < text.len(),
        slice_bound(s, text.len() as int) <= slice_bound(e, text.len() as int) <= text.len(),
    ensures
        spec_subscript(Val::Str(text), Val::Slice(Box::new(Val::Int(s)), Box::new(Val::Int(e)), Box::new(step)), fresh)
            == OutcomeModel::Value(Val::Str(
                text.subrange(slice_bound(s, text.len() as int), slice_bound(e, text.len() as int)))),
{
    let n = text.len() as int;
    lemma_unit_slice_positions(n, s, e, step);
    assert(pick(text, slice_positions(n, Val::Int(s), Val::Int(e), step))
        =~= text.subrange(slice_bound(s, n), slice_bound(e, n)));
}

/// A slice of a list with integer bounds and a positive step `c` is a new
/// list of the elements at the start, start + c, start + 2c, ..., taking
/// every such position before the end and none after, where a negative bound
/// counts back from the end.
pub proof fn law_list_slice_steps(o: u64, items: Seq<Val>, s: i64, e: i64, c: i64, fresh: u64)
    requires
        c > 0,
        0 <= slice_bound(s, items.len() as int) < items.len(),
        slice_bound(s, items.len() as int) <= slice_bound(e, items.len() as int) <= items.len(),
    ensures
        spec_subscript(Val::List(o, items), Val::Slice(Box::new(Val::Int(s)), Box::new(Val::Int(e)), Box::new(Val::Int(c))), fresh)
            matches OutcomeModel::Value(Val::List(o2, r))
            && o2 == fresh
            && (forall|k: int| 0 <= k < r.len() ==> #[trigger] r[k] == items[slice_bound(s, items.len() as int) + k * c])
            && (r.len() > 0 ==> slice_bound(s, items.len() as int) + (r.len() - 1) * c < slice_bound(e, items.len() as int))
            && slice_bound(s, items.len() as int) + r.len() * c >= slice_bound(e, items.len() as int),
{
    let n = items.len() as int;
    let lo = slice_bound(s, n);
    let hi = slice_bound(e, n);
    assert(slice_step(Val::Int(c)) == c);
    assert(slice_start(Val::Int(s), n, c as int) == lo);
    assert(slice_end(Val::Int(e), n, c as int) == hi);
    lemma_steps_up_progression(lo, hi, c as int);
    let p = steps_up(lo, hi, c as int);
    assert(slice_positions(n, Val::Int(s), Val::Int(e), Val::Int(c)) == p);
    let r = pick(items, p);
    assert forall|k: int| 0 <= k < r.len() implies #[trigger] r[k] == items[lo + k * c] by {
        assert(p[k] == lo + k * c);
    }
    if r.len() > 0 {
        assert(p[r.len() - 1] == lo + (r.len() - 1) * c);
    }
}

/// The slice `[::-1]` of a list is a new list of its elements in reverse order.
pub proof fn law_list_reverse_slice(o: u64, items: Seq<Val>, fresh: u64)
    ensures
        spec_subscript(Val::List(o, items), Val::Slice(Box::new(Val::Null), Box::new(Val::Null), Box::new(Val::Int(-1i64))), fresh)
            == OutcomeModel::Value(Val::List(fresh, items.reverse())),
{
    let n = items.len() as int;
    lemma_steps_down_progression(n - 1, -1, -1);
    let p = steps_down(n - 1, -1, -1);
    if p.len() > 0 {
        assert(p[p.len() - 1] == n - 1 + (p.len() - 1) * -1);
    }
    assert(p.len() == n);
    assert(slice_positions(n, Val::Null, Val::Null, Val::Int(-1i64)) == p);
    assert(pick(items, p) =~= items.reverse());
}

/// The slice `[::-1]` of a text is its characters in reverse order.
pub proof fn law_text_reverse_slice(text: Seq<char>, fresh: u64)
    ensures
        spec_subscript(Val::Str(text), Val::Slice(Box::new(Val::Null), Box::new(Val::Null), Box::new(Val::Int(-1i64))), fresh)
            == OutcomeModel::Value(Val::Str(text.reverse())),
{
    let n = text.len() as int;
    lemma_steps_down_progression(n - 1, -1, -1);
    let p = steps_down(n - 1, -1, -1);
    if p.len() > 0 {
        assert(p[p.len() - 1] == n - 1 + (p.len() - 1) * -1);
    }
    assert(p.len() == n);
    assert(slice_positions(n, Val::Null, Val::Null, Val::Int(-1i64)) == p);
    assert(pick(text, p) =~= text.reverse());
}

// ---------------------------------------------------------------- the sum of two sets

/// No two elements of `s` are equal.
pub open spec fn no_two_equal(s: Seq<Val>) -> bool {
    forall|i: int, j: int| 0 <= i < j < s.len() ==> !val_eq(#[trigger] s[i], #[trigger] s[j])
}

/// `v` is an element of `s`, or equals one.
pub open spec fn holds(s: Seq<Val>, v: Val) -> bool {
    exists|j: int| 0 <= j < s.len() && (#[trigger] s[j] == v || val_eq(s[j], v))
}

proof fn lemma_set_union(x: Seq<Val>, y: Seq<Val>)
    ensures
        x.len() <= set_union(x, y).len() <= x.len() + y.len(),
        set_union(x, y).subrange(0, x.len() as int) == x,
        no_two_equal(x) ==> no_two_equal(set_union(x, y)),
        forall|k: int| 0 <= k < y.len() ==> holds(set_union(x, y), #[trigger] y[k]),
        forall|k: int| 0 <= k < set_union(x, y).len() ==>
            x.contains(#[trigger] set_union(x, y)[k]) || y.contains(set_union(x, y)[k]),
    decreases y.len(),
{
    if y.len() == 0 {
        assert(x.subrange(0, x.len() as int) =~= x);
    } else {
        let y0 = y.subrange(0, y.len() - 1);
        let e = y[y.len() - 1];
        let m = set_union(x, y0);
        lemma_set_union(x, y0);
        let r = set_union(x, y);
        assert(r == if seq_has(m, e) { m } else { m.push(e) });
        assert forall|t: int| 0 <= t < m.len() implies #[trigger] r[t] == m[t] by {}
        assert(r.subrange(0, x.len() as int) =~= m.subrange(0, x.len() as int));
        if no_two_equal(x) && !seq_has(m, e) {
            assert forall|i: int, j: int| 0 <= i < j < r.len() implies !val_eq(#[trigger] r[i], #[trigger] r[j]) by {
                if j == m.len() {
                    assert(r[i] == m[i]);
                    assert(r[j] == e);
                    assert(!val_eq(m[i], e));
                } else {
                    assert(r[i] == m[i] && r[j] == m[j]);
                }
            }
        }
        assert forall|k: int| 0 <= k < y.len() implies holds(r, #[trigger] y[k]) by {
            if k < y.len() - 1 {
                assert(y[k] == y0[k]);
                assert(holds(m, y0[k]));
                let j = choose|j: int| 0 <= j < m.len() && (#[trigger] m[j] == y0[k] || val_eq(m[j], y0[k]));
                assert(r[j] == m[j]);
            } else if seq_has(m, e) {
                let j = choose|j: int| 0 <= j < m.len() && val_eq(m[j], e);
                assert(r[j] == m[j]);
            } else {
                assert(r[m.len() as int] == e);
            }
        }
        assert forall|k: int| 0 <= k < r.len() implies x.contains(#[trigger] r[k]) || y.contains(r[k]) by {
            if k < m.len() {
                assert(r[k] == m[k]);
                if y0.contains(m[k]) {
                    let t = choose|t: int| 0 <= t < y0.len() && y0[t] == m[k];
                    assert(y[t] == y0[t]);
                }
            } else {
                assert(r[k] == e);
                assert(y[y.len() - 1] == e);
            }
        }
    }
}

/// The sum of two sets is a new set (identity `fresh`) that begins with the
/// left set's elements in order, holds each element of the right set (or an
/// element equal to it), holds nothing that is in neither, and, when the
/// left set holds no two equal elements, holds no two equal elements either.
pub proof fn law_set_sum(i: u64, x: Seq<Val>, j: u64, y: Seq<Val>, fresh: u64)
    requires
        no_two_equal(x),
    ensures
        spec_add(Val::SetVal(i, x), Val::SetVal(j, y), fresh) matches OutcomeModel::Value(Val::SetVal(o, u))
            && o == fresh
            && no_two_equal(u)
            && x.len() <= u.len() <= x.len() + y.len()
            && u.subrange(0, x.len() as int) == x
            && (forall|k: int| 0 <= k < y.len() ==> holds(u, #[trigger] y[k]))
            && (forall|k: int| 0 <= k < u.len() ==> x.contains(#[trigger] u[k]) || y.contains(u[k])),
{
    lemma_set_union(x, y);
}

// ---------------------------------------------------------------- ranges

/// `vs` are the values `a, a + c, a + 2c, ...` that lie below `b` (above `b`
/// for a negative `c`), up to the first that does not.
pub open spec fn walks(vs: Seq<Val>, a: int, b: int, c: int) -> bool {
    &&& forall|k: int| 0 <= k < vs.len() ==> (#[trigger] vs[k] matches Val::Int(v)
            && v == a + k * c && (if c > 0 { v < b } else { v > b }))
    &&& if c > 0 { a + vs.len() * c >= b } else { a + vs.len() * c <= b }
}

proof fn lemma_range_walks(d: RangeData, base: u64)
    requires
        d.step != 0,
    ensures
        iter_items(Val::Range(d), base) matches Some(vs) && walks(vs, d.start as int, d.end as int, d.step as int),
{
    let p = range_positions(d);
    let vs = Seq::new(p.len(), |k: int| Val::Int(p[k] as i64));
    if d.step > 0 {
        lemma_steps_up_progression(d.start as int, d.end as int, d.step as int);
    } else {
        lemma_steps_down_progression(d.start as int, d.end as int, d.step as int);
    }
    assert forall|k: int| 0 <= k < vs.len() implies (#[trigger] vs[k] matches Val::Int(v)
        && v == d.start + k * d.step && (if d.step > 0 { v < d.end } else { v > d.end })) by {
        assert(p[k] == d.start + k * d.step);
    }
}

/// `مدى(a, b, c)` with a non-zero step walks `a, a + c, a + 2c, ...` while
/// the values stay below `b` (above `b` for a negative step), stopping at the
/// first that does not.
pub proof fn law_range_walk_with_step(a: i64, b: i64, c: i64, base: u64)
    requires
        c != 0,
    ensures
        spec_range(seq![Val::Int(a), Val::Int(b), Val::Int(c)]) matches Ok(r)
            && iter_items(r, base) matches Some(vs) && walks(vs, a as int, b as int, c as int),
{
    lemma_range_walks(RangeData { start: a, end: b, step: c }, base);
}

/// `مدى(a, b)` walks `a, a + 1, ...` below `b`, and `مدى(b)` walks
/// `0, 1, ...` below `b`.
pub proof fn law_range_walk_unit(a: i64, b: i64, base: u64)
    ensures
        spec_range(seq![Val::Int(a), Val::Int(b)]) matches Ok(r)
            && iter_items(r, base) matches Some(vs) && walks(vs, a as int, b as int, 1),
        spec_range(seq![Val::Int(b)]) matches Ok(r)
            && iter_items(r, base) matches Some(vs) && walks(vs, 0, b as int, 1),
{
    lemma_range_walks(RangeData { start: a, end: b, step: 1 }, base);
    lemma_range_walks(RangeData { start: 0, end: b, step: 1 }, base);
}

/// `مدى` builds a range exactly when it is given one, two or three
/// arguments, all integers, and a third one (the step) is not zero.
pub proof fn law_range_accepts(args: Seq<Val>)
    ensures
        spec_range(args) is Ok <==> (1 <= args.len() <= 3
            && (forall|k: int| 0 <= k < args.len() ==> #[trigger] args[k] is Int)
            && (args.len() == 3 ==> args[2] != Val::Int(0i64))),
{
    if args.len() >= 1 && args.len() <= 3 && (forall|k: int| 0 <= k < args.len() ==> #[trigger] args[k] is Int) {
    } else if 1 <= args.len() <= 3 {
        let k = choose|k: int| 0 <= k < args.len() && !(#[trigger] args[k] is Int);
        assert(!(args[k] is Int));
    }
}

} // verus!
