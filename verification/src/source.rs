//! Decoding the bytes of a source file: a UTF-16 byte-order mark selects
//! little- or big-endian UTF-16, a UTF-8 byte-order mark is dropped, and
//! anything else is read as UTF-8.  Invalid sequences become U+FFFD.

use vstd::prelude::*;

verus! {

/// The text `String::from_utf8_lossy` makes of some bytes.
pub uninterp spec fn utf8_lossy_text(bytes: Seq<u8>) -> Seq<char>;

/// The text `String::from_utf16_lossy` makes of some UTF-16 code units.
pub uninterp spec fn utf16_lossy_text(units: Seq<u16>) -> Seq<char>;

/// Calls `String::from_utf8_lossy` on `bytes`; its result is named, not stated.
#[verifier::external_body]
fn utf8_lossy(bytes: &[u8]) -> (r: String)
    ensures
        r@ == utf8_lossy_text(bytes@),
{
    String::from_utf8_lossy(bytes).into_owned()
}

/// Calls `String::from_utf16_lossy` on `units`; its result is named, not stated.
#[verifier::external_body]
fn utf16_lossy(units: &[u16]) -> (r: String)
    ensures
        r@ == utf16_lossy_text(units@),
{
    String::from_utf16_lossy(units)
}

/// The code units of `bytes` read two at a time, little-endian (`big` false) or big-endian.
pub open spec fn code_units(bytes: Seq<u8>, big: bool) -> Seq<u16> {
    Seq::new(bytes.len() / 2, |k: int|
        if big { (bytes[2 * k] as int * 256 + bytes[2 * k + 1] as int) as u16 }
        else { (bytes[2 * k + 1] as int * 256 + bytes[2 * k] as int) as u16 })
}

pub open spec fn utf16_le_mark(raw: Seq<u8>) -> bool {
    raw.len() >= 2 && raw[0] == 0xFF && raw[1] == 0xFE
}

pub open spec fn utf16_be_mark(raw: Seq<u8>) -> bool {
    raw.len() >= 2 && raw[0] == 0xFE && raw[1] == 0xFF
}

pub open spec fn utf8_mark(raw: Seq<u8>) -> bool {
    raw.len() >= 3 && raw[0] == 0xEF && raw[1] == 0xBB && raw[2] == 0xBF
}

/// The text of a source file's bytes.
pub open spec fn source_text(raw: Seq<u8>) -> Seq<char> {
    if utf16_le_mark(raw) {
        utf16_lossy_text(code_units(raw.subrange(2, raw.len() as int), false))
    } else if utf16_be_mark(raw) {
        utf16_lossy_text(code_units(raw.subrange(2, raw.len() as int), true))
    } else if utf8_mark(raw) {
        utf8_lossy_text(raw.subrange(3, raw.len() as int))
    } else {
        utf8_lossy_text(raw)
    }
}

/// A UTF-16 source must have an even number of bytes after its mark (the
/// reading panics on a trailing odd byte).
pub open spec fn source_decodable(raw: Seq<u8>) -> bool {
    (utf16_le_mark(raw) || utf16_be_mark(raw)) ==> (raw.len() - 2) % 2 == 0
}

fn units_of(raw: &Vec<u8>, big: bool) -> (r: Vec<u16>)
    requires
        raw@.len() >= 2,
        (raw@.len() - 2) % 2 == 0,
    ensures
        r@ == code_units(raw@.subrange(2, raw@.len() as int), big),
{
    let ghost body = raw@.subrange(2, raw@.len() as int);
    let n = (raw.len() - 2) / 2;
    let mut out: Vec<u16> = Vec::new();
    let mut k: usize = 0;
    while k < n
        invariant
            k <= n,
            n == body.len() / 2,
            body == raw@.subrange(2, raw@.len() as int),
            raw@.len() == 2 + 2 * n,
            raw@.len() == raw.len(),
            out@ =~= code_units(body, big).subrange(0, k as int),
        decreases n - k,
    {
        let a = raw[2 + 2 * k];
        let b = raw[3 + 2 * k];
        assert(body[2 * k as int] == a && body[2 * k + 1] == b);
        let u: u16 = if big { (a as u16) * 256 + (b as u16) } else { (b as u16) * 256 + (a as u16) };
        out.push(u);
        k = k + 1;
    }
    out
}

/// Decodes the bytes of a source file.
pub fn decode_source(raw: &Vec<u8>) -> (r: String)
    requires
        source_decodable(raw@),
    ensures
        r@ == source_text(raw@),
{
    let n = raw.len();
    if n >= 2 && raw[0] == 0xFF && raw[1] == 0xFE {
        let units = units_of(raw, false);
        utf16_lossy(units.as_slice())
    } else if n >= 2 && raw[0] == 0xFE && raw[1] == 0xFF {
        let units = units_of(raw, true);
        utf16_lossy(units.as_slice())
    } else if n >= 3 && raw[0] == 0xEF && raw[1] == 0xBB && raw[2] == 0xBF {
        let mut rest: Vec<u8> = Vec::new();
        let mut i: usize = 3;
        while i < n
            invariant
                3 <= i <= n,
                n == raw@.len(),
                rest@ =~= raw@.subrange(3, i as int),
            decreases n - i,
        {
            rest.push(raw[i]);
            i = i + 1;
        }
        utf8_lossy(rest.as_slice())
    } else {
        utf8_lossy(raw.as_slice())
    }
}

} // verus!
