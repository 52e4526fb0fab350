//! The style parser: tokenizes the input on whitespace and scans the words,
//! proved to agree with the model's `parse_spec` exactly.

use vstd::prelude::*;
use vstd::string::StrSliceExecFns;
use vstd::string::StringExecFns;

use crate::model::parse_spec;
use crate::model::scan;
use crate::model::split_ws;
use crate::model::is_space;
use crate::model::lemma_scan_unfold;
use crate::model::lemma_split_ws_head;
use crate::model::ParseOutcome;
use crate::resolver::apply_attr_exec;
use crate::resolver::is_space_exec;
use crate::resolver::resolve_chars;
use crate::style::ColorResolution;
use crate::style::Style;

verus! {

/// An error returned by `parse`. Each variant carries the full original
/// input and the offending word, both verbatim, for diagnostic display.
#[derive(Debug, PartialEq, Eq)]
pub enum Error {
    /// An extra color appeared after the foreground and background slots
    /// were already both consumed.
    ExtraColor(String, String),
    /// A word matched neither an attribute keyword nor any recognized
    /// color literal syntax.
    UnknownWord(String, String),
}

/// Parses a string in Git's color configuration syntax into a `Style`.
///
/// The words of the input are scanned in order: attribute keywords toggle
/// their attribute (the last occurrence wins), anything else must be a
/// color literal and fills the next color slot, foreground first, then
/// background; the sentinels `normal` and `-1` consume a slot without
/// storing a color. A color-slot word beyond the second fails with
/// `Error::ExtraColor`, an unclassifiable word with `Error::UnknownWord`;
/// an input with no words yields the default style.
pub fn parse(s: &str) -> (r: Result<Style, Error>)
    ensures
        (match r {
            Ok(st) => parse_spec(s@) == ParseOutcome::Success(st),
            Err(Error::ExtraColor(inp, w)) => inp@ == s@ && parse_spec(s@)
                == ParseOutcome::ExtraColor(w@),
            Err(Error::UnknownWord(inp, w)) => inp@ == s@ && parse_spec(s@)
                == ParseOutcome::UnknownWord(w@),
        }),
{
    let n = s.unicode_len();
    let mut style = Style::new();
    let mut colors: u8 = 0;
    let mut i: usize = 0;
    proof {
        assert(s@.skip(0) =~= s@);
    }
    while i < n
        invariant
            n == s@.len(),
            i <= n,
            colors <= 2,
            scan(split_ws(s@.skip(i as int)), style, colors as int) == parse_spec(s@),
        decreases n - i,
    {
        let c = s.get_char(i);
        if is_space_exec(c) {
            proof {
                assert(s@.skip(i as int)[0] == s@[i as int]);
                assert(s@.skip(i as int).drop_first() =~= s@.skip(i + 1));
            }
            i += 1;
        } else {
            let start = i;
            let mut tok: Vec<char> = Vec::new();
            let mut j = i;
            proof {
                assert(tok@ =~= s@.subrange(start as int, j as int));
            }
            while j < n
                invariant
                    n == s@.len(),
                    start <= j <= n,
                    start < n,
                    !is_space(s@[start as int]),
                    forall|k: int| start <= k < j ==> !is_space(s@[k]),
                    tok@ == s@.subrange(start as int, j as int),
                ensures
                    n == s@.len(),
                    start < j <= n,
                    forall|k: int| start <= k < j ==> !is_space(s@[k]),
                    tok@ == s@.subrange(start as int, j as int),
                    j == n || is_space(s@[j as int]),
                decreases n - j,
            {
                let c2 = s.get_char(j);
                if is_space_exec(c2) {
                    break;
                }
                tok.push(c2);
                proof {
                    assert(tok@ =~= s@.subrange(start as int, j + 1));
                }
                j += 1;
            }
            let ghost w = s@.subrange(start as int, j as int);
            proof {
                assert(s@.skip(start as int).take(j - start) =~= w);
                assert(s@.skip(start as int).skip(j - start) =~= s@.skip(j as int));
                assert(forall|k: int| 0 <= k < j - start ==> !is_space(s@.skip(start as int)[k]));
                lemma_split_ws_head(s@.skip(start as int), j - start);
                lemma_scan_unfold(w, split_ws(s@.skip(j as int)), style, colors as int);
            }
            if let Some(st2) = apply_attr_exec(style, &tok) {
                style = st2;
                i = j;
            } else {
                match resolve_chars(&tok) {
                    ColorResolution::NotAColor => {
                        let word = s.substring_char(start, j);
                        return Err(
                            Error::UnknownWord(String::from_str(s), String::from_str(word)),
                        );
                    },
                    ColorResolution::NoColor => {
                        if colors == 2 {
                            let word = s.substring_char(start, j);
                            return Err(
                                Error::ExtraColor(String::from_str(s), String::from_str(word)),
                            );
                        }
                        colors = colors + 1;
                        i = j;
                    },
                    ColorResolution::ResolvedColor(col) => {
                        if colors == 2 {
                            let word = s.substring_char(start, j);
                            return Err(
                                Error::ExtraColor(String::from_str(s), String::from_str(word)),
                            );
                        }
                        if colors == 0 {
                            style = style.fg(col);
                        } else {
                            style = style.on(col);
                        }
                        colors = colors + 1;
                        i = j;
                    },
                }
            }
        }
    }
    proof {
        assert(s@.skip(n as int) =~= Seq::<char>::empty());
        assert(split_ws(Seq::<char>::empty()) == Seq::<Seq<char>>::empty());
    }
    Ok(style)
}

} // verus!
