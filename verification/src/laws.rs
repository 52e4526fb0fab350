//! General properties of the parser, stated over the model and proved once
//! and for all: whitespace-only inputs, whitespace-insensitivity, the
//! filling of the two color slots, and case-insensitivity.

use vstd::prelude::*;

use crate::model::apply_attr;
use crate::model::ci_eq;
use crate::model::dec_val;
use crate::model::dec_value;
use crate::model::is_dec_digits;
use crate::model::is_attr;
use crate::model::is_space;
use crate::model::lc;
use crate::model::parse_spec;
use crate::model::resolve_spec;
use crate::model::scan;
use crate::model::set_bg;
use crate::model::set_fg;
use crate::model::split_ws;
use crate::model::ParseOutcome;
use crate::style::Color;
use crate::style::ColorResolution;
use crate::style::Style;

verus! {

/// A string of whitespace alone has no words.
pub proof fn lemma_split_ws_all_space(s: Seq<char>)
    requires
        forall|k: int| 0 <= k < s.len() ==> is_space(s[k]),
    ensures
        split_ws(s) == Seq::<Seq<char>>::empty(),
    decreases s.len(),
{
    if s.len() > 0 {
        lemma_split_ws_all_space(s.drop_first());
    }
}

/// Every input composed only of whitespace (including the empty string)
/// parses successfully to the default style: no colors, no attributes.
pub proof fn lemma_whitespace_default(s: Seq<char>)
    requires
        forall|k: int| 0 <= k < s.len() ==> is_space(s[k]),
    ensures
        parse_spec(s) == ParseOutcome::Success(crate::default_style()),
{
    lemma_split_ws_all_space(s);
}

/// The outcome of a parse depends on the words of the input alone: two
/// inputs that split into the same words parse alike, however their
/// whitespace is laid out.
pub proof fn lemma_same_words_same_outcome(s1: Seq<char>, s2: Seq<char>)
    requires
        split_ws(s1) == split_ws(s2),
    ensures
        parse_spec(s1) == parse_spec(s2),
{
}

/// Two words that are case-insensitively equal to a common word but
/// differ, after case folding, at some position of two reference words
/// cannot both match: refutes one case-insensitive comparison from
/// another.
proof fn lemma_ci_distinct(w: Seq<char>, u: Seq<char>, v: Seq<char>, i: int)
    requires
        ci_eq(w, u),
        0 <= i < u.len(),
        i < v.len(),
        lc(u[i]) != lc(v[i]),
    ensures
        !ci_eq(w, v),
{
    if ci_eq(w, v) {
        assert(lc(w[i]) == lc(u[i]));
        assert(lc(w[i]) == lc(v[i]));
    }
}

/// An attribute keyword is not a color literal of any form: the resolver
/// reports it as not a color.
pub proof fn lemma_attr_not_color(w: Seq<char>)
    requires
        is_attr(w),
    ensures
        resolve_spec(w) == ColorResolution::NotAColor,
{
    reveal_strlit("bold");
    reveal_strlit("nobold");
    reveal_strlit("dim");
    reveal_strlit("nodim");
    reveal_strlit("ul");
    reveal_strlit("noul");
    reveal_strlit("blink");
    reveal_strlit("noblink");
    reveal_strlit("reverse");
    reveal_strlit("noreverse");
    reveal_strlit("black");
    reveal_strlit("red");
    reveal_strlit("green");
    reveal_strlit("yellow");
    reveal_strlit("blue");
    reveal_strlit("magenta");
    reveal_strlit("cyan");
    reveal_strlit("white");
    reveal_strlit("normal");
    reveal_strlit("-1");
    if ci_eq(w, "bold"@) {
        lemma_ci_distinct(w, "bold"@, "blue"@, 2);
        lemma_ci_distinct(w, "bold"@, "cyan"@, 0);
        assert(dec_val(w[0]) < 0);
    } else if ci_eq(w, "nobold"@) {
        lemma_ci_distinct(w, "nobold"@, "yellow"@, 0);
        lemma_ci_distinct(w, "nobold"@, "normal"@, 2);
        assert(dec_val(w[0]) < 0);
    } else if ci_eq(w, "dim"@) {
        lemma_ci_distinct(w, "dim"@, "red"@, 0);
        assert(dec_val(w[0]) < 0);
    } else if ci_eq(w, "nodim"@) {
        lemma_ci_distinct(w, "nodim"@, "black"@, 0);
        lemma_ci_distinct(w, "nodim"@, "green"@, 0);
        lemma_ci_distinct(w, "nodim"@, "white"@, 0);
        assert(dec_val(w[0]) < 0);
    } else if ci_eq(w, "ul"@) {
        lemma_ci_distinct(w, "ul"@, "-1"@, 0);
        assert(dec_val(w[0]) < 0);
    } else if ci_eq(w, "noul"@) {
        lemma_ci_distinct(w, "noul"@, "blue"@, 0);
        lemma_ci_distinct(w, "noul"@, "cyan"@, 0);
        assert(dec_val(w[0]) < 0);
    } else if ci_eq(w, "blink"@) {
        lemma_ci_distinct(w, "blink"@, "black"@, 2);
        lemma_ci_distinct(w, "blink"@, "green"@, 0);
        lemma_ci_distinct(w, "blink"@, "white"@, 0);
        assert(dec_val(w[0]) < 0);
    } else if ci_eq(w, "noblink"@) {
        lemma_ci_distinct(w, "noblink"@, "magenta"@, 0);
        assert(lc(w[0]) != 35);
        assert(dec_val(w[0]) < 0);
    } else if ci_eq(w, "reverse"@) {
        lemma_ci_distinct(w, "reverse"@, "magenta"@, 0);
        assert(lc(w[0]) != 35);
        assert(dec_val(w[0]) < 0);
    } else {
        assert(ci_eq(w, "noreverse"@));
        assert(dec_val(w[0]) < 0);
    }
}

/// An attribute keyword always applies, and it leaves both color slots
/// unchanged.
proof fn lemma_attr_preserves_colors(st: Style, w: Seq<char>)
    requires
        is_attr(w),
    ensures
        (apply_attr(st, w) matches Some(st2) && st2.foreground == st.foreground && st2.background
            == st.background),
{
}

/// A word list of attribute keywords alone scans to success, with both
/// color slots unchanged, whatever the slot count.
proof fn lemma_scan_all_attr(ts: Seq<Seq<char>>, st: Style, colors: int)
    requires
        forall|k: int| 0 <= k < ts.len() ==> is_attr(ts[k]),
    ensures
        (scan(ts, st, colors) matches ParseOutcome::Success(st2) && st2.foreground == st.foreground
            && st2.background == st.background),
    decreases ts.len(),
{
    if ts.len() > 0 {
        let w = ts[0];
        lemma_attr_preserves_colors(st, w);
        match apply_attr(st, w) {
            Some(st2) => {
                assert(forall|k: int|
                    0 <= k < ts.drop_first().len() ==> is_attr(ts.drop_first()[k]));
                lemma_scan_all_attr(ts.drop_first(), st2, colors);
            },
            None => {
                assert(false);
            },
        }
    }
}

/// The color a color-slot word stores into its slot: the resolved color,
/// or the slot's previous content for the "no color" sentinel, which
/// consumes the slot without storing a value.
pub open spec fn slot_color(r: ColorResolution, prev: Option<Color>) -> Option<Color> {
    match r {
        ColorResolution::ResolvedColor(c) => Some(c),
        _ => prev,
    }
}

/// A word list with one color-slot word (at `j`) among attribute keywords,
/// scanned with one slot already filled, succeeds, keeps the foreground
/// and fills the background slot from that word.
proof fn lemma_scan_one_color(ts: Seq<Seq<char>>, j: int, st: Style)
    requires
        0 <= j < ts.len(),
        !(resolve_spec(ts[j]) is NotAColor),
        forall|k: int| 0 <= k < ts.len() && k != j ==> is_attr(ts[k]),
    ensures
        (scan(ts, st, 1) matches ParseOutcome::Success(st2) && st2.foreground == st.foreground
            && st2.background == slot_color(resolve_spec(ts[j]), st.background)),
    decreases ts.len(),
{
    let w = ts[0];
    let rest = ts.drop_first();
    if j == 0 {
        if is_attr(w) {
            lemma_attr_not_color(w);
            assert(false);
        }
        assert(apply_attr(st, w) is None);
        assert(forall|k: int| 0 <= k < rest.len() ==> is_attr(rest[k]));
        match resolve_spec(w) {
            ColorResolution::ResolvedColor(b) => {
                lemma_scan_all_attr(rest, set_bg(st, b), 2);
            },
            _ => {
                lemma_scan_all_attr(rest, st, 2);
            },
        }
    } else {
        assert(is_attr(w));
        lemma_attr_preserves_colors(st, w);
        match apply_attr(st, w) {
            Some(st2) => {
                assert(rest[j - 1] == ts[j]);
                assert(forall|k: int| 0 <= k < rest.len() && k != j - 1 ==> is_attr(rest[k]));
                lemma_scan_one_color(rest, j - 1, st2);
            },
            None => {
                assert(false);
            },
        }
    }
}

/// A word list with exactly two color-slot words (at `i` and `j`) among
/// attribute keywords scans to success, with the foreground filled from
/// the first and the background from the second.
proof fn lemma_scan_two_colors(ts: Seq<Seq<char>>, i: int, j: int, st: Style)
    requires
        0 <= i < j < ts.len(),
        !(resolve_spec(ts[i]) is NotAColor),
        !(resolve_spec(ts[j]) is NotAColor),
        forall|k: int| 0 <= k < ts.len() && k != i && k != j ==> is_attr(ts[k]),
    ensures
        (scan(ts, st, 0) matches ParseOutcome::Success(st2) && st2.foreground == slot_color(
            resolve_spec(ts[i]),
            st.foreground,
        ) && st2.background == slot_color(resolve_spec(ts[j]), st.background)),
    decreases ts.len(),
{
    let w = ts[0];
    let rest = ts.drop_first();
    if i == 0 {
        if is_attr(w) {
            lemma_attr_not_color(w);
            assert(false);
        }
        assert(apply_attr(st, w) is None);
        assert(rest[j - 1] == ts[j]);
        assert(forall|k: int| 0 <= k < rest.len() && k != j - 1 ==> is_attr(rest[k]));
        match resolve_spec(w) {
            ColorResolution::ResolvedColor(a) => {
                lemma_scan_one_color(rest, j - 1, set_fg(st, a));
            },
            _ => {
                lemma_scan_one_color(rest, j - 1, st);
            },
        }
    } else {
        assert(is_attr(w));
        lemma_attr_preserves_colors(st, w);
        match apply_attr(st, w) {
            Some(st2) => {
                assert(rest[i - 1] == ts[i]);
                assert(rest[j - 1] == ts[j]);
                assert(forall|k: int|
                    0 <= k < rest.len() && k != i - 1 && k != j - 1 ==> is_attr(rest[k]));
                lemma_scan_two_colors(rest, i - 1, j - 1, st2);
            },
            None => {
                assert(false);
            },
        }
    }
}

/// For every input whose words are exactly two color-slot words, in
/// order, with any attribute keywords around and between them, the parse
/// succeeds, the foreground slot is filled from the first word and the
/// background slot from the second ("no color" fills its slot with
/// nothing).
pub proof fn lemma_two_color_words(s: Seq<char>, i: int, j: int)
    requires
        0 <= i < j < split_ws(s).len(),
        !(resolve_spec(split_ws(s)[i]) is NotAColor),
        !(resolve_spec(split_ws(s)[j]) is NotAColor),
        forall|k: int|
            0 <= k < split_ws(s).len() && k != i && k != j ==> is_attr(split_ws(s)[k]),
    ensures
        (parse_spec(s) matches ParseOutcome::Success(st) && st.foreground == slot_color(
            resolve_spec(split_ws(s)[i]),
            None,
        ) && st.background == slot_color(resolve_spec(split_ws(s)[j]), None)),
{
    lemma_scan_two_colors(split_ws(s), i, j, crate::default_style());
}

/// Characters equal after case folding are whitespace alike: no letter is
/// whitespace and case folding moves only letters.
proof fn lemma_lc_space(c1: char, c2: char)
    requires
        lc(c1) == lc(c2),
    ensures
        is_space(c1) == is_space(c2),
{
}

/// Case-insensitive equality is a congruence for case-insensitive
/// comparison: words equal up to case match the same words.
proof fn lemma_ci_trans(a: Seq<char>, b: Seq<char>, u: Seq<char>)
    requires
        ci_eq(a, b),
    ensures
        ci_eq(a, u) == ci_eq(b, u),
{
}

/// Digit runs equal up to case have the same numeric value (case folding
/// leaves digits unchanged).
proof fn lemma_dec_value_ci(w1: Seq<char>, w2: Seq<char>)
    requires
        ci_eq(w1, w2),
    ensures
        dec_value(w1) == dec_value(w2),
    decreases w1.len(),
{
    if w1.len() > 0 {
        assert(ci_eq(w1.drop_last(), w2.drop_last()));
        assert(lc(w1.last()) == lc(w2.last()));
        lemma_dec_value_ci(w1.drop_last(), w2.drop_last());
    }
}

/// The resolver is case-insensitive: words equal up to case resolve to
/// the same classification.
pub proof fn lemma_resolve_ci(w1: Seq<char>, w2: Seq<char>)
    requires
        ci_eq(w1, w2),
    ensures
        resolve_spec(w1) == resolve_spec(w2),
{
    lemma_ci_trans(w1, w2, "black"@);
    lemma_ci_trans(w1, w2, "red"@);
    lemma_ci_trans(w1, w2, "green"@);
    lemma_ci_trans(w1, w2, "yellow"@);
    lemma_ci_trans(w1, w2, "blue"@);
    lemma_ci_trans(w1, w2, "magenta"@);
    lemma_ci_trans(w1, w2, "cyan"@);
    lemma_ci_trans(w1, w2, "white"@);
    lemma_ci_trans(w1, w2, "normal"@);
    lemma_ci_trans(w1, w2, "-1"@);
    if w1.len() == 7 {
        assert(lc(w1[0]) == lc(w2[0]));
        assert(lc(w1[1]) == lc(w2[1]));
        assert(lc(w1[2]) == lc(w2[2]));
        assert(lc(w1[3]) == lc(w2[3]));
        assert(lc(w1[4]) == lc(w2[4]));
        assert(lc(w1[5]) == lc(w2[5]));
        assert(lc(w1[6]) == lc(w2[6]));
    }
    assert(is_dec_digits(w1) == is_dec_digits(w2));
    if is_dec_digits(w1) {
        lemma_dec_value_ci(w1, w2);
    }
}

/// Attribute matching is case-insensitive: words equal up to case have
/// the same effect on a style.
pub proof fn lemma_apply_attr_ci(st: Style, w1: Seq<char>, w2: Seq<char>)
    requires
        ci_eq(w1, w2),
    ensures
        apply_attr(st, w1) == apply_attr(st, w2),
{
    lemma_ci_trans(w1, w2, "nobold"@);
    lemma_ci_trans(w1, w2, "bold"@);
    lemma_ci_trans(w1, w2, "nodim"@);
    lemma_ci_trans(w1, w2, "dim"@);
    lemma_ci_trans(w1, w2, "noul"@);
    lemma_ci_trans(w1, w2, "ul"@);
    lemma_ci_trans(w1, w2, "noblink"@);
    lemma_ci_trans(w1, w2, "blink"@);
    lemma_ci_trans(w1, w2, "noreverse"@);
    lemma_ci_trans(w1, w2, "reverse"@);
}

/// Pointwise case-insensitive equality of two word lists.
pub open spec fn ci_words(ts1: Seq<Seq<char>>, ts2: Seq<Seq<char>>) -> bool {
    ts1.len() == ts2.len() && (forall|k: int| 0 <= k < ts1.len() ==> ci_eq(ts1[k], ts2[k]))
}

/// A string that starts with a non-space character has at least one word.
proof fn lemma_split_ws_nonempty(s: Seq<char>)
    requires
        s.len() > 0,
        !is_space(s[0]),
    ensures
        split_ws(s).len() >= 1,
{
}

/// Tokenization is case-insensitive up to the words themselves: inputs
/// equal up to case split into words equal up to case.
pub proof fn lemma_split_ws_ci(s1: Seq<char>, s2: Seq<char>)
    requires
        ci_eq(s1, s2),
    ensures
        ci_words(split_ws(s1), split_ws(s2)),
    decreases s1.len(),
{
    if s1.len() > 0 {
        assert(lc(s1[0]) == lc(s2[0]));
        lemma_lc_space(s1[0], s2[0]);
        let r1 = s1.drop_first();
        let r2 = s2.drop_first();
        assert(ci_eq(r1, r2)) by {
            assert(forall|k: int| 0 <= k < r1.len() ==> lc(#[trigger] r1[k]) == lc(r2[k])) by {
                assert(forall|k: int|
                    0 <= k < r1.len() ==> #[trigger] r1[k] == s1[k + 1] && r2[k] == s2[k + 1]);
            }
        }
        lemma_split_ws_ci(r1, r2);
        if is_space(s1[0]) {
        } else if r1.len() > 0 && !is_space(r1[0]) {
            assert(lc(r1[0]) == lc(r2[0]));
            lemma_lc_space(r1[0], r2[0]);
            lemma_split_ws_nonempty(r1);
            let q1 = split_ws(r1);
            let q2 = split_ws(r2);
            let h1 = seq![s1[0]] + q1[0];
            let h2 = seq![s2[0]] + q2[0];
            assert(ci_eq(q1[0], q2[0]));
            assert(ci_eq(h1, h2)) by {
                assert(forall|m: int| 0 <= m < h1.len() ==> lc(#[trigger] h1[m]) == lc(h2[m]))
                    by {
                    assert(forall|m: int|
                        1 <= m < h1.len() ==> #[trigger] h1[m] == q1[0][m - 1] && h2[m]
                            == q2[0][m - 1]);
                    assert(h1[0] == s1[0] && h2[0] == s2[0]);
                }
            }
            assert(split_ws(s1) == seq![h1] + q1.drop_first());
            assert(split_ws(s2) == seq![h2] + q2.drop_first());
            assert(ci_words(split_ws(s1), split_ws(s2))) by {
                assert(forall|k: int|
                    1 <= k < split_ws(s1).len() ==> #[trigger] split_ws(s1)[k] == q1[k] && split_ws(
                        s2,
                    )[k] == q2[k]);
                assert(split_ws(s1)[0] == h1 && split_ws(s2)[0] == h2);
            }
        } else {
            let q1 = split_ws(r1);
            let q2 = split_ws(r2);
            assert(split_ws(s1) == seq![seq![s1[0]]] + q1);
            assert(split_ws(s2) == seq![seq![s2[0]]] + q2);
            assert(ci_eq(seq![s1[0]], seq![s2[0]]));
            assert(ci_words(split_ws(s1), split_ws(s2))) by {
                assert(forall|k: int|
                    1 <= k < split_ws(s1).len() ==> #[trigger] split_ws(s1)[k] == q1[k - 1]
                        && split_ws(s2)[k] == q2[k - 1]);
                assert(split_ws(s1)[0] == seq![s1[0]] && split_ws(s2)[0] == seq![s2[0]]);
            }
        }
    }
}

/// Correspondence of two parse outcomes up to character case: equal
/// styles on success, the same error kind with words equal up to case on
/// failure.
pub open spec fn outcome_ci(o1: ParseOutcome, o2: ParseOutcome) -> bool {
    match (o1, o2) {
        (ParseOutcome::Success(a), ParseOutcome::Success(b)) => a == b,
        (ParseOutcome::ExtraColor(u), ParseOutcome::ExtraColor(v)) => ci_eq(u, v),
        (ParseOutcome::UnknownWord(u), ParseOutcome::UnknownWord(v)) => ci_eq(u, v),
        _ => false,
    }
}

/// The scan is case-insensitive: word lists equal up to case scan to
/// corresponding outcomes from the same state.
proof fn lemma_scan_ci(ts1: Seq<Seq<char>>, ts2: Seq<Seq<char>>, st: Style, colors: int)
    requires
        ci_words(ts1, ts2),
    ensures
        outcome_ci(scan(ts1, st, colors), scan(ts2, st, colors)),
    decreases ts1.len(),
{
    if ts1.len() > 0 {
        let w1 = ts1[0];
        let w2 = ts2[0];
        assert(ci_eq(w1, w2));
        lemma_apply_attr_ci(st, w1, w2);
        lemma_resolve_ci(w1, w2);
        assert(ci_words(ts1.drop_first(), ts2.drop_first())) by {
            assert(forall|k: int|
                0 <= k < ts1.drop_first().len() ==> #[trigger] ts1.drop_first()[k] == ts1[k + 1]
                    && ts2.drop_first()[k] == ts2[k + 1]);
        }
        match apply_attr(st, w1) {
            Some(st2) => {
                lemma_scan_ci(ts1.drop_first(), ts2.drop_first(), st2, colors);
            },
            None => {
                match resolve_spec(w1) {
                    ColorResolution::NotAColor => {
                    },
                    ColorResolution::NoColor => {
                        if colors < 2 {
                            lemma_scan_ci(ts1.drop_first(), ts2.drop_first(), st, colors + 1);
                        }
                    },
                    ColorResolution::ResolvedColor(c) => {
                        if colors < 2 {
                            let st2 = if colors == 0 {
                                set_fg(st, c)
                            } else {
                                set_bg(st, c)
                            };
                            lemma_scan_ci(ts1.drop_first(), ts2.drop_first(), st2, colors + 1);
                        }
                    },
                }
            },
        }
    }
}

/// Parsing is case-insensitive: two inputs equal up to ASCII character
/// case parse to the same style, or fail with the same error kind on
/// words equal up to case (the words themselves keep their original
/// case).
pub proof fn lemma_case_insensitive(s1: Seq<char>, s2: Seq<char>)
    requires
        ci_eq(s1, s2),
    ensures
        outcome_ci(parse_spec(s1), parse_spec(s2)),
{
    lemma_split_ws_ci(s1, s2);
    lemma_scan_ci(split_ws(s1), split_ws(s2), crate::default_style(), 0);
}

} // verus!
