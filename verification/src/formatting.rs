//! Format specifications of formatted string literals: parsing a
//! specification such as `*^12`, `.2f`, `08d` or `,`, rendering a value by
//! it, and padding the rendering to the requested width.
//!
//! Renderings that need floating-point formatting (any float, and integers
//! shown with a fixed, exponent or percent style) are described by a
//! [`FloatFormat`] for the caller to produce; the padding is applied here.

use vstd::prelude::*;
use crate::value::{Value, Val, val_text};
use crate::ops::FloatOperand;
use crate::text::{decimal_i64, int_decimal};

verus! {

/// A parsed format specification.
#[derive(Debug, Clone, Copy, PartialEq, Eq, Structural)]
pub struct FormatSpec {
    pub width: Option<usize>,
    pub precision: Option<usize>,
    pub align: char,
    pub fill: char,
    pub kind: Option<char>,
}

/// How a number is to be shown as a float.
#[derive(Debug, Clone, Copy, PartialEq, Eq, Structural)]
pub enum FloatStyle {
    /// With `precision` digits after the point.
    Fixed,
    /// In scientific notation with `precision` digits after the point.
    Exponent,
    /// Multiplied by 100, with `precision` digits after the point and a `%`.
    Percent,
}

/// A float rendering for the caller to produce.
#[derive(Debug, Clone, Copy)]
pub struct FloatFormat {
    pub value: FloatOperand,
    pub style: FloatStyle,
    pub precision: usize,
}

/// The result of formatting: the finished text, or a float rendering to
/// produce and then pad by the specification.
#[derive(Debug)]
pub enum Formatted {
    Text(Vec<char>),
    NeedsFloat(FloatFormat, FormatSpec),
}

pub open spec fn is_digit(c: char) -> bool {
    '0' <= c && c <= '9'
}

pub open spec fn digit_value(c: char) -> usize {
    (c as u32 - '0' as u32) as usize
}

/// A width or precision with one more decimal digit (wrapping around like the machine word).
pub open spec fn push_digit(w: Option<usize>, c: char) -> Option<usize> {
    let base: usize = match w {
        Some(x) => x,
        None => 0,
    };
    Some(vstd::wrapping::usize_specs::wrapping_add(vstd::wrapping::usize_specs::wrapping_mul(base, 10), digit_value(c)))
}

/// The specification before any character: right-aligned, space-filled, no width, precision or kind.
pub open spec fn initial_spec() -> FormatSpec {
    FormatSpec { width: None, precision: None, align: ' ', fill: ' ', kind: None }
}

/// The effect of one character of a specification.
pub open spec fn classify(st: FormatSpec, c: char) -> FormatSpec {
    if c == '<' || c == '>' || c == '^' {
        FormatSpec { align: c, ..st }
    } else if c == '0' && st.width is None && st.precision is None {
        FormatSpec { fill: '0', ..st }
    } else if c == '.' {
        FormatSpec { precision: Some(0), ..st }
    } else if c == 'f' || c == 'F' || c == 'p' || c == 'P' || c == 'ف' {
        FormatSpec { kind: Some('f'), ..st }
    } else if c == 'd' || c == 'D' || c == 'ع' {
        FormatSpec { kind: Some('d'), ..st }
    } else if c == 'e' || c == 'E' || c == 'س' {
        FormatSpec { kind: Some('e'), ..st }
    } else if c == 'g' || c == 'G' || c == 'ن' {
        FormatSpec { kind: Some('g'), ..st }
    } else if c == ',' || c == '%' {
        FormatSpec { kind: Some(c), ..st }
    } else if is_digit(c) {
        FormatSpec { width: push_digit(st.width, c), ..st }
    } else {
        st
    }
}

/// Scanning the rest of a specification; `in_precision` holds right after a
/// `.` while digits of the precision follow.
pub open spec fn scan(s: Seq<char>, st: FormatSpec, in_precision: bool) -> FormatSpec
    decreases s.len(),
{
    if s.len() == 0 {
        st
    } else if in_precision && is_digit(s[0]) {
        scan(s.drop_first(), FormatSpec { precision: push_digit(st.precision, s[0]), ..st }, true)
    } else {
        scan(s.drop_first(), classify(st, s[0]), s[0] == '.')
    }
}

/// Whether a specification's first character begins its main part (no fill-and-align prefix).
pub open spec fn starts_main(c: char) -> bool {
    c == '<' || c == '>' || c == '^' || c == '=' || c == ':' || c == '.' || is_digit(c)
}

/// The parsed specification.  A first character that neither starts the
/// main part nor precedes an alignment is read as part of the main part.
pub open spec fn parse_spec(fmt: Seq<char>) -> FormatSpec {
    if fmt.len() == 0 {
        initial_spec()
    } else if starts_main(fmt[0]) {
        scan(fmt, initial_spec(), false)
    } else if fmt.len() >= 2 && (fmt[1] == '<' || fmt[1] == '>' || fmt[1] == '^') {
        scan(fmt.subrange(2, fmt.len() as int), FormatSpec { fill: fmt[0], align: fmt[1], ..initial_spec() }, false)
    } else {
        scan(fmt, initial_spec(), false)
    }
}

fn is_digit_exec(c: char) -> (r: bool)
    ensures
        r == is_digit(c),
{
    '0' <= c && c <= '9'
}

fn push_digit_exec(w: Option<usize>, c: char) -> (r: Option<usize>)
    requires
        is_digit(c),
    ensures
        r == push_digit(w, c),
{
    let base: usize = match w {
        Some(x) => x,
        None => 0,
    };
    let d = ((c as u32) - ('0' as u32)) as usize;
    Some(base.wrapping_mul(10).wrapping_add(d))
}

fn classify_exec(st: FormatSpec, c: char) -> (r: FormatSpec)
    ensures
        r == classify(st, c),
{
    if c == '<' || c == '>' || c == '^' {
        FormatSpec { align: c, ..st }
    } else if c == '0' && st.width.is_none() && st.precision.is_none() {
        FormatSpec { fill: '0', ..st }
    } else if c == '.' {
        FormatSpec { precision: Some(0), ..st }
    } else if c == 'f' || c == 'F' || c == 'p' || c == 'P' || c == 'ف' {
        FormatSpec { kind: Some('f'), ..st }
    } else if c == 'd' || c == 'D' || c == 'ع' {
        FormatSpec { kind: Some('d'), ..st }
    } else if c == 'e' || c == 'E' || c == 'س' {
        FormatSpec { kind: Some('e'), ..st }
    } else if c == 'g' || c == 'G' || c == 'ن' {
        FormatSpec { kind: Some('g'), ..st }
    } else if c == ',' || c == '%' {
        FormatSpec { kind: Some(c), ..st }
    } else if is_digit_exec(c) {
        FormatSpec { width: push_digit_exec(st.width, c), ..st }
    } else {
        st
    }
}

/// Parses a format specification.
pub fn parse_format(fmt: &Vec<char>) -> (r: FormatSpec)
    ensures
        r == parse_spec(fmt@),
{
    let n = fmt.len();
    let mut st = FormatSpec { width: None, precision: None, align: ' ', fill: ' ', kind: None };
    let mut i: usize = 0;
    if n == 0 {
        return st;
    }
    let c0 = fmt[0];
    let starts = c0 == '<' || c0 == '>' || c0 == '^' || c0 == '=' || c0 == ':' || c0 == '.' || is_digit_exec(c0);
    if !starts {
        if n >= 2 && (fmt[1] == '<' || fmt[1] == '>' || fmt[1] == '^') {
            st = FormatSpec { fill: c0, align: fmt[1], ..st };
            i = 2;
        }
    }
    let ghost start = i;
    let ghost st0 = st;
    assert(parse_spec(fmt@) == scan(fmt@.subrange(start as int, n as int), st0, false)) by {
        if start == 0 {
            assert(fmt@.subrange(0, n as int) =~= fmt@);
        }
    }
    let mut in_precision = false;
    while i < n
        invariant
            n == fmt@.len(),
            start <= i <= n,
            scan(fmt@.subrange(i as int, n as int), st, in_precision) == parse_spec(fmt@),
        decreases n - i,
    {
        let c = fmt[i];
        let ghost rest = fmt@.subrange(i as int, n as int);
        assert(rest.drop_first() =~= fmt@.subrange(i + 1, n as int));
        if in_precision && is_digit_exec(c) {
            st = FormatSpec { precision: push_digit_exec(st.precision, c), ..st };
            in_precision = true;
        } else {
            st = classify_exec(st, c);
            in_precision = c == '.';
        }
        i = i + 1;
    }
    assert(fmt@.subrange(i as int, n as int).len() == 0);
    st
}

// ---------------------------------------------------------------- rendering

/// The decimal text of `s` with a comma before every group of three digits
/// counted from the end (a sign counts as a digit position).
pub open spec fn group_prefix(s: Seq<char>, k: nat) -> Seq<char>
    decreases k,
{
    if k == 0 {
        Seq::empty()
    } else {
        let i = (k - 1) as int;
        group_prefix(s, (k - 1) as nat)
            + (if i > 0 && (s.len() - i) % 3 == 0 { seq![','] } else { Seq::<char>::empty() })
            + seq![s[i]]
    }
}

pub open spec fn group_thousands(s: Seq<char>) -> Seq<char> {
    group_prefix(s, s.len())
}

fn group_thousands_exec(s: &Vec<char>) -> (r: Vec<char>)
    ensures
        r@ == group_thousands(s@),
{
    let n = s.len();
    let mut out: Vec<char> = Vec::new();
    let mut i: usize = 0;
    while i < n
        invariant
            n == s@.len(),
            i <= n,
            out@ == group_prefix(s@, i as nat),
        decreases n - i,
    {
        if i > 0 && (n - i) % 3 == 0 {
            out.push(',');
        }
        out.push(s[i]);
        i = i + 1;
        assert(out@ =~= group_prefix(s@, i as nat));
    }
    out
}

/// The rendering of a value by a specification: `Ok` with the text before
/// padding, or `Err` with the float rendering the caller is to produce.
pub open spec fn render(v: Val, st: FormatSpec) -> Result<Seq<char>, FloatFormat> {
    match v {
        Val::Int(n) => match st.kind {
            Some('f') => Err(FloatFormat { value: FloatOperand::Int(n), style: FloatStyle::Fixed, precision: unwrap_or_usize(st.precision, 0) }),
            Some('e') => Err(FloatFormat { value: FloatOperand::Int(n), style: FloatStyle::Fixed, precision: unwrap_or_usize(st.precision, 0) }),
            Some('g') => Err(FloatFormat { value: FloatOperand::Int(n), style: FloatStyle::Fixed, precision: unwrap_or_usize(st.precision, 0) }),
            Some('%') => Err(FloatFormat { value: FloatOperand::Int(n), style: FloatStyle::Percent, precision: unwrap_or_usize(st.precision, 0) }),
            Some(',') => Ok(group_thousands(int_decimal(n as int))),
            _ => Ok(int_decimal(n as int)),
        },
        Val::Float(bits, _) => match st.kind {
            Some('e') => Err(FloatFormat { value: FloatOperand::Bits(bits), style: FloatStyle::Exponent, precision: unwrap_or_usize(st.precision, 6) }),
            Some('%') => Err(FloatFormat { value: FloatOperand::Bits(bits), style: FloatStyle::Percent, precision: unwrap_or_usize(st.precision, 0) }),
            _ => Err(FloatFormat { value: FloatOperand::Bits(bits), style: FloatStyle::Fixed, precision: unwrap_or_usize(st.precision, 6) }),
        },
        _ => Ok(val_text(v)),
    }
}

pub open spec fn unwrap_or_usize(o: Option<usize>, d: usize) -> usize {
    match o {
        Some(x) => x,
        None => d,
    }
}

/// The number of bytes a character takes in UTF-8.
pub open spec fn char_bytes(c: char) -> nat {
    if (c as u32) < 0x80 { 1 } else if (c as u32) < 0x800 { 2 } else if (c as u32) < 0x10000 { 3 } else { 4 }
}

/// The number of bytes a text takes in UTF-8 (the measure widths are compared with).
pub open spec fn utf8_len(s: Seq<char>) -> nat
    decreases s.len(),
{
    if s.len() == 0 { 0 } else { utf8_len(s.drop_last()) + char_bytes(s.last()) }
}

/// `n` copies of `c`.
pub open spec fn fill_chars(c: char, n: nat) -> Seq<char> {
    Seq::new(n, |i: int| c)
}

/// A rendering padded to the specification's width: with `0` when the fill
/// is `0` (and the kind is not `,`), with spaces otherwise; left, centred
/// (extra on the right) or right (the default).
pub open spec fn pad(raw: Seq<char>, st: FormatSpec) -> Seq<char> {
    match st.width {
        Some(w) => if utf8_len(raw) < w {
            let padding = (w - utf8_len(raw)) as nat;
            let pc = if st.fill == '0' && st.kind != Some(',') { '0' } else { ' ' };
            if st.align == '<' {
                raw + fill_chars(pc, padding)
            } else if st.align == '^' {
                fill_chars(pc, padding / 2) + raw + fill_chars(pc, (padding - padding / 2) as nat)
            } else {
                fill_chars(pc, padding) + raw
            }
        } else {
            raw
        },
        None => raw,
    }
}

/// Formatting `v` by the specification text `fmt`: an empty specification
/// gives the value's display text.
pub open spec fn format_result(v: Val, fmt: Seq<char>) -> Result<Seq<char>, (FloatFormat, FormatSpec)> {
    if fmt.len() == 0 {
        Ok(val_text(v))
    } else {
        let st = parse_spec(fmt);
        match render(v, st) {
            Ok(raw) => Ok(pad(raw, st)),
            Err(ff) => Err((ff, st)),
        }
    }
}

pub(crate) fn utf8_len_exec(s: &Vec<char>) -> (r: u128)
    ensures
        r == utf8_len(s@),
{
    let mut total: u128 = 0;
    let mut i: usize = 0;
    while i < s.len()
        invariant
            i <= s@.len(),
            total == utf8_len(s@.subrange(0, i as int)),
            total <= 4 * i,
        decreases s@.len() - i,
    {
        let c = s[i];
        let b: u128 = if (c as u32) < 0x80 { 1 } else if (c as u32) < 0x800 { 2 } else if (c as u32) < 0x10000 { 3 } else { 4 };
        assert(s@.subrange(0, i + 1).drop_last() =~= s@.subrange(0, i as int));
        total = total + b;
        i = i + 1;
    }
    assert(s@.subrange(0, i as int) =~= s@);
    total
}

fn push_fill(out: &mut Vec<char>, c: char, n: usize)
    ensures
        final(out)@ == old(out)@ + fill_chars(c, n as nat),
{
    let ghost start = out@;
    let mut k: usize = 0;
    while k < n
        invariant
            k <= n,
            out@ =~= start + fill_chars(c, k as nat),
        decreases n - k,
    {
        out.push(c);
        k = k + 1;
    }
}

/// Pads a rendering to the specification's width.
pub fn pad_text(raw: Vec<char>, st: &FormatSpec) -> (r: Vec<char>)
    ensures
        r@ == pad(raw@, *st),
{
    match st.width {
        Some(w) => {
            let len = utf8_len_exec(&raw);
            if len < w as u128 {
                let padding = w - (len as usize);
                let pc = if st.fill == '0' && st.kind != Some(',') { '0' } else { ' ' };
                if st.align == '<' {
                    let mut out = raw;
                    push_fill(&mut out, pc, padding);
                    out
                } else if st.align == '^' {
                    let mut out: Vec<char> = Vec::new();
                    push_fill(&mut out, pc, padding / 2);
                    let mut r = raw;
                    out.append(&mut r);
                    push_fill(&mut out, pc, padding - padding / 2);
                    out
                } else {
                    let mut out: Vec<char> = Vec::new();
                    push_fill(&mut out, pc, padding);
                    let mut r = raw;
                    out.append(&mut r);
                    out
                }
            } else {
                raw
            }
        }
        None => raw,
    }
}

/// Renders a value by a specification.
pub fn render_value(v: &Value, st: &FormatSpec) -> (r: Result<Vec<char>, FloatFormat>)
    ensures
        match r {
            Ok(t) => render(v@, *st) == Ok::<Seq<char>, FloatFormat>(t@),
            Err(ff) => render(v@, *st) == Err::<Seq<char>, FloatFormat>(ff),
        },
{
    let prec0 = match st.precision {
        Some(x) => x,
        None => 0,
    };
    let prec6 = match st.precision {
        Some(x) => x,
        None => 6,
    };
    match v {
        Value::Integer(n) => match st.kind {
            Some('f') => Err(FloatFormat { value: FloatOperand::Int(*n), style: FloatStyle::Fixed, precision: prec0 }),
            Some('e') => Err(FloatFormat { value: FloatOperand::Int(*n), style: FloatStyle::Fixed, precision: prec0 }),
            Some('g') => Err(FloatFormat { value: FloatOperand::Int(*n), style: FloatStyle::Fixed, precision: prec0 }),
            Some('%') => Err(FloatFormat { value: FloatOperand::Int(*n), style: FloatStyle::Percent, precision: prec0 }),
            Some(',') => Ok(group_thousands_exec(&decimal_i64(*n))),
            _ => Ok(decimal_i64(*n)),
        },
        Value::Float(f) => match st.kind {
            Some('e') => Err(FloatFormat { value: FloatOperand::Bits(f.bits), style: FloatStyle::Exponent, precision: prec6 }),
            Some('%') => Err(FloatFormat { value: FloatOperand::Bits(f.bits), style: FloatStyle::Percent, precision: prec0 }),
            _ => Err(FloatFormat { value: FloatOperand::Bits(f.bits), style: FloatStyle::Fixed, precision: prec6 }),
        },
        _ => Ok(v.to_string_value()),
    }
}

/// Formats `v` by the specification text `fmt`.
pub fn apply_format(v: &Value, fmt: &Vec<char>) -> (r: Formatted)
    ensures
        match r {
            Formatted::Text(t) => format_result(v@, fmt@) == Ok::<Seq<char>, (FloatFormat, FormatSpec)>(t@),
            Formatted::NeedsFloat(ff, st) => format_result(v@, fmt@) == Err::<Seq<char>, (FloatFormat, FormatSpec)>((ff, st)),
        },
{
    if fmt.len() == 0 {
        return Formatted::Text(v.to_string_value());
    }
    let st = parse_format(fmt);
    match render_value(v, &st) {
        Ok(raw) => Formatted::Text(pad_text(raw, &st)),
        Err(ff) => Formatted::NeedsFloat(ff, st),
    }
}

} // verus!
