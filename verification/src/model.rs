//! The mathematical model of the parser: a specification-level tokenizer,
//! color-literal resolver and token scanner. The executable parser is proved
//! to agree with `parse_spec` exactly.

use vstd::prelude::*;

use crate::style::Color;
use crate::style::ColorResolution;
use crate::style::Style;

verus! {

/// The outcome of parsing a style specification, at the model level: either
/// a resolved style, or one of the two error kinds together with the
/// offending word.
pub enum ParseOutcome {
    Success(Style),
    ExtraColor(Seq<char>),
    UnknownWord(Seq<char>),
}

/// Whether `c` is a whitespace character, i.e. a member of the Unicode
/// `White_Space` set (the set `char::is_whitespace` recognizes): the ASCII
/// whitespace controls and space, NEL, NBSP, ogham space mark, the en-quad
/// through hair-space range, the line and paragraph separators, the narrow
/// and medium mathematical spaces, and the ideographic space.
pub open spec fn is_space(c: char) -> bool {
    let u = c as int;
    (9 <= u && u <= 13) || u == 32 || u == 0x85 || u == 0xA0 || u == 0x1680 || (0x2000 <= u && u
        <= 0x200A) || u == 0x2028 || u == 0x2029 || u == 0x202F || u == 0x205F || u == 0x3000
}

/// The code point of `c` with an ASCII upper-case letter folded to its
/// lower-case counterpart (`A`..`Z` are 65..90, 32 below `a`..`z`).
pub open spec fn lc(c: char) -> int {
    if 65 <= c as int && c as int <= 90 {
        c as int + 32
    } else {
        c as int
    }
}

/// Case-insensitive equality of two character sequences: equal lengths and
/// pointwise equal after ASCII case folding.
pub open spec fn ci_eq(a: Seq<char>, b: Seq<char>) -> bool {
    a.len() == b.len() && (forall|i: int| 0 <= i < a.len() ==> lc(a[i]) == lc(b[i]))
}

/// The value of `c` as a decimal digit, or -1 if it is none.
pub open spec fn dec_val(c: char) -> int {
    if 48 <= lc(c) && lc(c) <= 57 {
        lc(c) - 48
    } else {
        -1
    }
}

/// The value of `c` as a hexadecimal digit (either case), or -1 if it is
/// none.
pub open spec fn hex_val(c: char) -> int {
    if 48 <= lc(c) && lc(c) <= 57 {
        lc(c) - 48
    } else if 97 <= lc(c) && lc(c) <= 102 {
        lc(c) - 87
    } else {
        -1
    }
}

/// Whether `w` is a non-empty run of decimal digits.
pub open spec fn is_dec_digits(w: Seq<char>) -> bool {
    w.len() > 0 && (forall|i: int| 0 <= i < w.len() ==> dec_val(w[i]) >= 0)
}

/// The numeric value of a run of decimal digits, most significant first.
pub open spec fn dec_value(w: Seq<char>) -> int
    decreases w.len(),
{
    if w.len() == 0 {
        0
    } else {
        dec_value(w.drop_last()) * 10 + dec_val(w.last())
    }
}

/// The value of the two hexadecimal digits of `w` at positions `i` and
/// `i + 1`, or -1 if either is no hexadecimal digit.
pub open spec fn hex_pair(w: Seq<char>, i: int) -> int {
    if hex_val(w[i]) >= 0 && hex_val(w[i + 1]) >= 0 {
        hex_val(w[i]) * 16 + hex_val(w[i + 1])
    } else {
        -1
    }
}

/// Whether `w` is a well-formed hex color literal: `#` followed by exactly
/// six hexadecimal digits.
pub open spec fn is_hex_literal(w: Seq<char>) -> bool {
    w.len() == 7 && lc(w[0]) == 35 && hex_pair(w, 1) >= 0 && hex_pair(w, 3) >= 0 && hex_pair(w, 5)
        >= 0
}

/// Classification of a single word as a color literal, checked in this
/// order: the eight color names (case-insensitively), the "no color"
/// sentinels `normal` and `-1`, a `#RRGGBB` hex literal, a decimal
/// palette index 0..=255; anything else is not a color.
pub open spec fn resolve_spec(w: Seq<char>) -> ColorResolution {
    if ci_eq(w, "black"@) {
        ColorResolution::ResolvedColor(Color::Black)
    } else if ci_eq(w, "red"@) {
        ColorResolution::ResolvedColor(Color::Red)
    } else if ci_eq(w, "green"@) {
        ColorResolution::ResolvedColor(Color::Green)
    } else if ci_eq(w, "yellow"@) {
        ColorResolution::ResolvedColor(Color::Yellow)
    } else if ci_eq(w, "blue"@) {
        ColorResolution::ResolvedColor(Color::Blue)
    } else if ci_eq(w, "magenta"@) {
        ColorResolution::ResolvedColor(Color::Magenta)
    } else if ci_eq(w, "cyan"@) {
        ColorResolution::ResolvedColor(Color::Cyan)
    } else if ci_eq(w, "white"@) {
        ColorResolution::ResolvedColor(Color::White)
    } else if ci_eq(w, "normal"@) || ci_eq(w, "-1"@) {
        ColorResolution::NoColor
    } else if is_hex_literal(w) {
        ColorResolution::ResolvedColor(
            Color::Rgb(hex_pair(w, 1) as u8, hex_pair(w, 3) as u8, hex_pair(w, 5) as u8),
        )
    } else if is_dec_digits(w) && dec_value(w) <= 255 {
        ColorResolution::ResolvedColor(Color::Indexed(dec_value(w) as u8))
    } else {
        ColorResolution::NotAColor
    }
}

/// `st` with the foreground set to `c`.
pub open spec fn set_fg(st: Style, c: Color) -> Style {
    Style {
        foreground: Some(c),
        background: st.background,
        bold: st.bold,
        dim: st.dim,
        underline: st.underline,
        blink: st.blink,
        reverse: st.reverse,
    }
}

/// `st` with the background set to `c`.
pub open spec fn set_bg(st: Style, c: Color) -> Style {
    Style {
        foreground: st.foreground,
        background: Some(c),
        bold: st.bold,
        dim: st.dim,
        underline: st.underline,
        blink: st.blink,
        reverse: st.reverse,
    }
}

/// `st` with the bold attribute set to `b`.
pub open spec fn set_bold(st: Style, b: bool) -> Style {
    Style {
        foreground: st.foreground,
        background: st.background,
        bold: b,
        dim: st.dim,
        underline: st.underline,
        blink: st.blink,
        reverse: st.reverse,
    }
}

/// `st` with the dim attribute set to `b`.
pub open spec fn set_dim(st: Style, b: bool) -> Style {
    Style {
        foreground: st.foreground,
        background: st.background,
        bold: st.bold,
        dim: b,
        underline: st.underline,
        blink: st.blink,
        reverse: st.reverse,
    }
}

/// `st` with the underline attribute set to `b`.
pub open spec fn set_ul(st: Style, b: bool) -> Style {
    Style {
        foreground: st.foreground,
        background: st.background,
        bold: st.bold,
        dim: st.dim,
        underline: b,
        blink: st.blink,
        reverse: st.reverse,
    }
}

/// `st` with the blink attribute set to `b`.
pub open spec fn set_blink(st: Style, b: bool) -> Style {
    Style {
        foreground: st.foreground,
        background: st.background,
        bold: st.bold,
        dim: st.dim,
        underline: st.underline,
        blink: b,
        reverse: st.reverse,
    }
}

/// `st` with the reverse attribute set to `b`.
pub open spec fn set_reverse(st: Style, b: bool) -> Style {
    Style {
        foreground: st.foreground,
        background: st.background,
        bold: st.bold,
        dim: st.dim,
        underline: st.underline,
        blink: st.blink,
        reverse: b,
    }
}

/// Whether `w` is one of the ten attribute keywords, case-insensitively.
pub open spec fn is_attr(w: Seq<char>) -> bool {
    ci_eq(w, "bold"@) || ci_eq(w, "nobold"@) || ci_eq(w, "dim"@) || ci_eq(w, "nodim"@) || ci_eq(
        w,
        "ul"@,
    ) || ci_eq(w, "noul"@) || ci_eq(w, "blink"@) || ci_eq(w, "noblink"@) || ci_eq(w, "reverse"@)
        || ci_eq(w, "noreverse"@)
}

/// The effect of an attribute keyword on a style, or `None` if `w` is no
/// attribute keyword. A positive keyword turns its attribute on, a
/// `no`-prefixed one turns it off.
pub open spec fn apply_attr(st: Style, w: Seq<char>) -> Option<Style> {
    if ci_eq(w, "nobold"@) {
        Some(set_bold(st, false))
    } else if ci_eq(w, "bold"@) {
        Some(set_bold(st, true))
    } else if ci_eq(w, "nodim"@) {
        Some(set_dim(st, false))
    } else if ci_eq(w, "dim"@) {
        Some(set_dim(st, true))
    } else if ci_eq(w, "noul"@) {
        Some(set_ul(st, false))
    } else if ci_eq(w, "ul"@) {
        Some(set_ul(st, true))
    } else if ci_eq(w, "noblink"@) {
        Some(set_blink(st, false))
    } else if ci_eq(w, "blink"@) {
        Some(set_blink(st, true))
    } else if ci_eq(w, "noreverse"@) {
        Some(set_reverse(st, false))
    } else if ci_eq(w, "reverse"@) {
        Some(set_reverse(st, true))
    } else {
        None
    }
}

/// The words of `s`: maximal runs of non-whitespace characters, in order.
pub open spec fn split_ws(s: Seq<char>) -> Seq<Seq<char>>
    decreases s.len(),
{
    if s.len() == 0 {
        Seq::empty()
    } else if is_space(s[0]) {
        split_ws(s.drop_first())
    } else {
        let rest = s.drop_first();
        if rest.len() > 0 && !is_space(rest[0]) {
            let r = split_ws(rest);
            seq![seq![s[0]] + r[0]] + r.drop_first()
        } else {
            seq![seq![s[0]]] + split_ws(rest)
        }
    }
}

/// The scan over a word list: attribute keywords toggle their attribute,
/// anything else must be a color literal and fills the next color slot
/// (foreground, then background); a color-slot word beyond the second is
/// an extra color, an unclassifiable word is unknown. `colors` counts the
/// color slots already consumed.
pub open spec fn scan(ts: Seq<Seq<char>>, st: Style, colors: int) -> ParseOutcome
    decreases ts.len(),
{
    if ts.len() == 0 {
        ParseOutcome::Success(st)
    } else {
        let w = ts[0];
        let rest = ts.drop_first();
        match apply_attr(st, w) {
            Some(st2) => scan(rest, st2, colors),
            None => match resolve_spec(w) {
                ColorResolution::NotAColor => ParseOutcome::UnknownWord(w),
                ColorResolution::NoColor => if colors >= 2 {
                    ParseOutcome::ExtraColor(w)
                } else {
                    scan(rest, st, colors + 1)
                },
                ColorResolution::ResolvedColor(c) => if colors >= 2 {
                    ParseOutcome::ExtraColor(w)
                } else {
                    scan(
                        rest,
                        if colors == 0 {
                            set_fg(st, c)
                        } else {
                            set_bg(st, c)
                        },
                        colors + 1,
                    )
                },
            },
        }
    }
}

/// Once a prefix of a digit run exceeds 255, the whole run does: appending
/// digits never shrinks the value.
pub proof fn lemma_dec_value_grows(w: Seq<char>, i: int)
    requires
        is_dec_digits(w),
        0 <= i <= w.len(),
        dec_value(w.take(i)) > 255,
    ensures
        dec_value(w) > 255,
    decreases w.len() - i,
{
    if i == w.len() {
        assert(w.take(i) =~= w);
    } else {
        assert(w.take(i + 1).drop_last() =~= w.take(i));
        assert(w.take(i + 1).last() == w[i]);
        assert(dec_val(w[i]) >= 0);
        assert(dec_value(w.take(i + 1)) == dec_value(w.take(i)) * 10 + dec_val(w[i]));
        lemma_dec_value_grows(w, i + 1);
    }
}

/// Splitting a string that starts with a maximal non-space run of length
/// `e` yields that run as the first word, followed by the words of the
/// rest.
pub proof fn lemma_split_ws_head(s: Seq<char>, e: int)
    requires
        0 < e <= s.len(),
        forall|k: int| 0 <= k < e ==> !is_space(s[k]),
        e == s.len() || is_space(s[e]),
    ensures
        split_ws(s) == seq![s.take(e)] + split_ws(s.skip(e)),
    decreases e,
{
    let rest = s.drop_first();
    if e == 1 {
        assert(split_ws(s) == seq![seq![s[0]]] + split_ws(rest));
        assert(seq![s[0]] =~= s.take(1));
        assert(rest =~= s.skip(1));
    } else {
        assert(!is_space(s[1]));
        assert(rest.len() > 0 && !is_space(rest[0]));
        let r = split_ws(rest);
        assert(split_ws(s) == seq![seq![s[0]] + r[0]] + r.drop_first());
        assert(forall|k: int| 0 <= k < e - 1 ==> !is_space(rest[k]));
        assert(e - 1 == rest.len() || is_space(rest[e - 1]));
        lemma_split_ws_head(rest, e - 1);
        assert(r[0] == rest.take(e - 1));
        assert(r.drop_first() =~= split_ws(rest.skip(e - 1)));
        assert(seq![s[0]] + rest.take(e - 1) =~= s.take(e));
        assert(rest.skip(e - 1) =~= s.skip(e));
    }
}

/// One step of the scan, spelled out for a word list with an explicit
/// first word.
pub proof fn lemma_scan_unfold(w: Seq<char>, rest: Seq<Seq<char>>, st: Style, colors: int)
    ensures
        scan(seq![w] + rest, st, colors) == (match apply_attr(st, w) {
            Some(st2) => scan(rest, st2, colors),
            None => match resolve_spec(w) {
                ColorResolution::NotAColor => ParseOutcome::UnknownWord(w),
                ColorResolution::NoColor => if colors >= 2 {
                    ParseOutcome::ExtraColor(w)
                } else {
                    scan(rest, st, colors + 1)
                },
                ColorResolution::ResolvedColor(c) => if colors >= 2 {
                    ParseOutcome::ExtraColor(w)
                } else {
                    scan(
                        rest,
                        if colors == 0 {
                            set_fg(st, c)
                        } else {
                            set_bg(st, c)
                        },
                        colors + 1,
                    )
                },
            },
        }),
{
    let ts = seq![w] + rest;
    assert(ts.len() == rest.len() + 1);
    assert(ts[0] == w);
    assert(ts.drop_first() =~= rest);
}

/// What parsing a style specification yields, at the model level.
pub open spec fn parse_spec(s: Seq<char>) -> ParseOutcome {
    scan(split_ws(s), crate::default_style(), 0)
}

} // verus!
