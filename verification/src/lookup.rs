//! One label lookup: the pure request/response step the interactive session
//! repeats.
//!
//! Given a label, the two paragraph maps and the metadata tables, the lookup
//! produces the annotated diff of the paragraph's two versions; a paragraph
//! present in only one snapshot becomes a single whole-paragraph addition or
//! removal, and a label present in neither snapshot is reported as not found.

use vstd::prelude::*;
use crate::table::{StrMap, CiteTable, spec_get};
use crate::diff::{get_diff, spec_get_diff, prep, replace_nl};
use crate::commands::{LatexCmd, CiteFallback, spec_subst};

verus! {

/// Why a lookup produced no text.
#[derive(Clone, Copy, PartialEq, Eq, Structural, Debug)]
pub enum LookupError {
    /// The label is present in neither snapshot.
    NotFound,
}

/// Per-request options of a lookup.
#[derive(Clone, Copy)]
pub struct LookupOptions {
    /// Collapse each paragraph to one line before diffing.
    pub lines: bool,
    /// Leave embedded commands untouched.
    pub keep_latex: bool,
    /// What an unmatched citation key renders as during substitution.
    pub fallback: CiteFallback,
}

/// The text a lookup answers with before command substitution: the annotated
/// diff when the label is in both snapshots, a single whole-paragraph
/// removal or addition when it is in one, nothing when it is in neither.
pub open spec fn raw_lookup(
    label: Seq<char>,
    old_map: Seq<(Seq<char>, Seq<char>)>,
    new_map: Seq<(Seq<char>, Seq<char>)>,
    lines: bool,
) -> Option<Seq<char>> {
    match (spec_get(old_map, label), spec_get(new_map, label)) {
        (Some(o), Some(n)) => Some(spec_get_diff(o, n, lines)),
        (Some(o), None) => Some("#rem["@ + prep(o, lines) + "]"@),
        (None, Some(n)) => Some("#add["@ + prep(n, lines) + "]"@),
        (None, None) => None,
    }
}

/// The full answer of a lookup: the raw text, put through command
/// substitution unless that is disabled.
pub open spec fn spec_lookup(
    label: Seq<char>,
    old_map: Seq<(Seq<char>, Seq<char>)>,
    new_map: Seq<(Seq<char>, Seq<char>)>,
    citations: Seq<(Seq<char>, Seq<char>, Seq<char>)>,
    references: Seq<(Seq<char>, Seq<char>)>,
    opts: LookupOptions,
) -> Option<Seq<char>> {
    match raw_lookup(label, old_map, new_map, opts.lines) {
        None => None,
        Some(t) => Some(
            if opts.keep_latex {
                t
            } else {
                spec_subst(t, citations, references, opts.fallback)
            },
        ),
    }
}

/// Answers one label request.  The result is an error exactly when the label
/// is present in neither paragraph map; otherwise it is the annotated (and,
/// unless disabled, command-substituted) text that the label's two paragraph
/// versions produce.
pub fn lookup(
    label: &str,
    old_map: &StrMap,
    new_map: &StrMap,
    citations: &CiteTable,
    references: &StrMap,
    opts: LookupOptions,
) -> (r: Result<String, LookupError>)
    ensures
        match r {
            Ok(t) => spec_lookup(label@, old_map@, new_map@, citations@, references@, opts)
                == Some(t@),
            Err(_) => spec_lookup(label@, old_map@, new_map@, citations@, references@, opts)
                is None,
        },
{
    let difftext: String = match (old_map.get(label), new_map.get(label)) {
        (Some(o), Some(n)) => get_diff(o.as_str(), n.as_str(), opts.lines),
        (Some(o), None) => {
            let mut out = String::from_str("#rem[");
            let t = if opts.lines {
                replace_nl(o.as_str())
            } else {
                o.clone()
            };
            out.append(t.as_str());
            out.append("]");
            proof {
                reveal_strlit("#rem[");
                reveal_strlit("]");
            }
            out
        },
        (None, Some(n)) => {
            let mut out = String::from_str("#add[");
            let t = if opts.lines {
                replace_nl(n.as_str())
            } else {
                n.clone()
            };
            out.append(t.as_str());
            out.append("]");
            proof {
                reveal_strlit("#add[");
                reveal_strlit("]");
            }
            out
        },
        (None, None) => {
            return Err(LookupError::NotFound);
        },
    };
    if opts.keep_latex {
        Ok(difftext)
    } else {
        let engine = LatexCmd::new(citations, references).with_fallback(opts.fallback);
        Ok(engine.substitute(difftext.as_str()))
    }
}

} // verus!
