//! Executable classification of single words: case folding, digit values,
//! keyword comparison and the color-literal resolver, each proved to agree
//! with the model in `crate::model`.

use vstd::prelude::*;
use vstd::string::StrSliceExecFns;

use crate::model::apply_attr;
use crate::model::ci_eq;
use crate::model::dec_val;
use crate::model::dec_value;
use crate::model::hex_val;
use crate::model::is_dec_digits;
use crate::model::lc;
use crate::model::is_space;
use crate::model::resolve_spec;
use crate::style::Color;
use crate::style::ColorResolution;
use crate::style::Style;

verus! {

/// The code point of `c` with an ASCII upper-case letter folded to lower
/// case.
pub(crate) fn lc_exec(c: char) -> (r: u32)
    ensures
        r as int == lc(c),
{
    let u = c as u32;
    if 65 <= u && u <= 90 {
        u + 32
    } else {
        u
    }
}

/// Whether `c` is a whitespace character (the Unicode `White_Space` set).
pub(crate) fn is_space_exec(c: char) -> (r: bool)
    ensures
        r == is_space(c),
{
    let u = c as u32;
    (9 <= u && u <= 13) || u == 32 || u == 0x85 || u == 0xA0 || u == 0x1680 || (0x2000 <= u && u
        <= 0x200A) || u == 0x2028 || u == 0x2029 || u == 0x202F || u == 0x205F || u == 0x3000
}

/// Whether the word `w` equals `lit` up to ASCII case.
pub(crate) fn token_eq_ci(w: &Vec<char>, lit: &str) -> (r: bool)
    ensures
        r == ci_eq(w@, lit@),
{
    let n = lit.unicode_len();
    if w.len() != n {
        return false;
    }
    let mut i: usize = 0;
    while i < n
        invariant
            n == lit@.len(),
            w@.len() == n,
            i <= n,
            forall|k: int| 0 <= k < i ==> lc(w@[k]) == lc(lit@[k]),
        decreases n - i,
    {
        let a = lc_exec(w[i]);
        let b = lc_exec(lit.get_char(i));
        if a != b {
            return false;
        }
        i += 1;
    }
    true
}

/// The value of `c` as a hexadecimal digit of either case, if it is one.
pub(crate) fn hex_digit(c: char) -> (r: Option<u8>)
    ensures
        (match r {
            Some(v) => hex_val(c) == v as int && v < 16,
            None => hex_val(c) < 0,
        }),
{
    let l = lc_exec(c);
    if 48 <= l && l <= 57 {
        Some((l - 48) as u8)
    } else if 97 <= l && l <= 102 {
        Some((l - 87) as u8)
    } else {
        None
    }
}

/// The value of `c` as a decimal digit, if it is one.
pub(crate) fn dec_digit(c: char) -> (r: Option<u8>)
    ensures
        (match r {
            Some(v) => dec_val(c) == v as int && v < 10,
            None => dec_val(c) < 0,
        }),
{
    let l = lc_exec(c);
    if 48 <= l && l <= 57 {
        Some((l - 48) as u8)
    } else {
        None
    }
}

/// Parses `w` as a decimal palette index 0..=255: every character must be
/// a decimal digit and the value must fit in a byte.
pub(crate) fn parse_decimal(w: &Vec<char>) -> (r: Option<u8>)
    ensures
        (match r {
            Some(n) => is_dec_digits(w@) && dec_value(w@) == n as int,
            None => !(is_dec_digits(w@) && dec_value(w@) <= 255),
        }),
{
    if w.len() == 0 {
        return None;
    }
    let mut acc: u32 = 0;
    let mut i: usize = 0;
    while i < w.len()
        invariant
            i <= w@.len(),
            forall|k: int| 0 <= k < i ==> dec_val(w@[k]) >= 0,
            acc as int == dec_value(w@.take(i as int)),
            acc <= 255,
        decreases w@.len() - i,
    {
        let d = match dec_digit(w[i]) {
            Some(d) => d,
            None => {
                assert(dec_val(w@[i as int]) < 0);
                return None;
            },
        };
        proof {
            assert(w@.take(i + 1).drop_last() =~= w@.take(i as int));
            assert(w@.take(i + 1).last() == w@[i as int]);
        }
        let acc2 = acc * 10 + (d as u32);
        if acc2 > 255 {
            proof {
                if is_dec_digits(w@) {
                    crate::model::lemma_dec_value_grows(w@, i + 1);
                }
            }
            return None;
        }
        acc = acc2;
        i += 1;
    }
    proof {
        assert(w@.take(w@.len() as int) =~= w@);
    }
    Some(acc as u8)
}

/// The effect of `w` on `st` if `w` is an attribute keyword.
pub(crate) fn apply_attr_exec(st: Style, w: &Vec<char>) -> (r: Option<Style>)
    ensures
        r == apply_attr(st, w@),
{
    if token_eq_ci(w, "nobold") {
        Some(st.with_bold(false))
    } else if token_eq_ci(w, "bold") {
        Some(st.with_bold(true))
    } else if token_eq_ci(w, "nodim") {
        Some(st.with_dim(false))
    } else if token_eq_ci(w, "dim") {
        Some(st.with_dim(true))
    } else if token_eq_ci(w, "noul") {
        Some(st.with_underline(false))
    } else if token_eq_ci(w, "ul") {
        Some(st.with_underline(true))
    } else if token_eq_ci(w, "noblink") {
        Some(st.with_blink(false))
    } else if token_eq_ci(w, "blink") {
        Some(st.with_blink(true))
    } else if token_eq_ci(w, "noreverse") {
        Some(st.with_reverse(false))
    } else if token_eq_ci(w, "reverse") {
        Some(st.with_reverse(true))
    } else {
        None
    }
}

/// The color-literal resolver on an already extracted word.
pub(crate) fn resolve_chars(w: &Vec<char>) -> (r: ColorResolution)
    ensures
        r == resolve_spec(w@),
{
    if token_eq_ci(w, "black") {
        ColorResolution::ResolvedColor(Color::Black)
    } else if token_eq_ci(w, "red") {
        ColorResolution::ResolvedColor(Color::Red)
    } else if token_eq_ci(w, "green") {
        ColorResolution::ResolvedColor(Color::Green)
    } else if token_eq_ci(w, "yellow") {
        ColorResolution::ResolvedColor(Color::Yellow)
    } else if token_eq_ci(w, "blue") {
        ColorResolution::ResolvedColor(Color::Blue)
    } else if token_eq_ci(w, "magenta") {
        ColorResolution::ResolvedColor(Color::Magenta)
    } else if token_eq_ci(w, "cyan") {
        ColorResolution::ResolvedColor(Color::Cyan)
    } else if token_eq_ci(w, "white") {
        ColorResolution::ResolvedColor(Color::White)
    } else if token_eq_ci(w, "normal") || token_eq_ci(w, "-1") {
        ColorResolution::NoColor
    } else if w.len() == 7 && w[0] == '#' {
        let d1 = hex_digit(w[1]);
        let d2 = hex_digit(w[2]);
        let d3 = hex_digit(w[3]);
        let d4 = hex_digit(w[4]);
        let d5 = hex_digit(w[5]);
        let d6 = hex_digit(w[6]);
        match (d1, d2, d3, d4, d5, d6) {
            (Some(a), Some(b), Some(c), Some(d), Some(e), Some(f)) => {
                ColorResolution::ResolvedColor(
                    Color::Rgb(a * 16 + b, c * 16 + d, e * 16 + f),
                )
            },
            _ => {
                // a malformed hex literal is not a decimal index either,
                // since it starts with `#`
                assert(dec_val(w@[0]) < 0);
                ColorResolution::NotAColor
            },
        }
    } else {
        match parse_decimal(w) {
            Some(n) => ColorResolution::ResolvedColor(Color::Indexed(n)),
            None => ColorResolution::NotAColor,
        }
    }
}

/// Classifies a single word as a color literal: a color name (checked
/// case-insensitively), the "no color" sentinel `normal` / `-1`, a
/// `#RRGGBB` hex literal, or a decimal palette index 0..=255; any other
/// word is reported as not a color.
pub fn resolve(word: &str) -> (r: ColorResolution)
    ensures
        r == resolve_spec(word@),
{
    let n = word.unicode_len();
    let mut v: Vec<char> = Vec::new();
    let mut i: usize = 0;
    while i < n
        invariant
            n == word@.len(),
            i <= n,
            v@ == word@.take(i as int),
        decreases n - i,
    {
        v.push(word.get_char(i));
        proof {
            assert(v@ =~= word@.take(i + 1));
        }
        i += 1;
    }
    proof {
        assert(word@.take(n as int) =~= word@);
    }
    resolve_chars(&v)
}

} // verus!
