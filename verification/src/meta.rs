//! Metadata resolution: parsing an auxiliary metadata file into the citation
//! table and the cross-reference table.
//!
//! The file is line-oriented.  A bibliography line has the shape
//! `\bibcite{<key>}{{<num>}{<year>}{{<author>}}{{}}}` and a cross-reference
//! line the shape `\newlabel{<label>}{{<number>}{<page>}...}`.  Both parsers
//! are tolerant: a line that does not decompose into enough brace-pair fields
//! is skipped without affecting the rest of the file.

use vstd::prelude::*;
use crate::table::{CiteTable, StrMap};
use crate::util::{match_at, spec_find, trim_braces, has_at, find_from, strip_braces};

verus! {

/// A line with one trailing carriage return removed.
pub open spec fn strip_cr(line: Seq<char>) -> Seq<char> {
    if line.len() > 0 && line.last() == '\r' {
        line.drop_last()
    } else {
        line
    }
}

/// `s` with every tilde replaced by a space: the non-breaking-space markers
/// of an author display string become ordinary spaces.
pub open spec fn tildes_to_spaces(s: Seq<char>) -> Seq<char> {
    s.map_values(|c: char| if c == '~' { ' ' } else { c })
}

/// Key, author and year parsed out of one bibliography line.  The line must
/// begin with the bibliography marker and split on `}{` into at least four
/// fields: field one is the key, field three the year, and field four --
/// clipped at the first line-break control marker -- the author.  Fields are
/// freed of their surrounding braces; anything else yields `None`.
pub open spec fn parse_bib(line: Seq<char>) -> Option<(Seq<char>, Seq<char>, Seq<char>)> {
    if !match_at(line, 0, "\\bibcite{"@) {
        None
    } else {
        let r = line.subrange("\\bibcite{"@.len() as int, line.len() as int);
        match spec_find(r, 0, "}{"@) {
            None => None,
            Some(p1) => match spec_find(r, p1 + 2, "}{"@) {
                None => None,
                Some(p2) => match spec_find(r, p2 + 2, "}{"@) {
                    None => None,
                    Some(p3) => {
                        let f3_end = match spec_find(r, p3 + 2, "}{"@) {
                            None => r.len() as int,
                            Some(p4) => p4,
                        };
                        let key = trim_braces(r.subrange(0, p1));
                        let year = trim_braces(r.subrange(p2 + 2, p3));
                        let raw = r.subrange(p3 + 2, f3_end);
                        let cut = match spec_find(raw, 0, "\\spacefactor"@) {
                            None => raw,
                            Some(q) => raw.subrange(0, q),
                        };
                        Some((key, tildes_to_spaces(trim_braces(cut)), year))
                    },
                },
            },
        }
    }
}

/// Label and display number parsed out of one cross-reference line.  The line
/// must begin with the cross-reference marker and split on `}{` into at least
/// two fields; both are freed of their surrounding braces.
pub open spec fn parse_ref(line: Seq<char>) -> Option<(Seq<char>, Seq<char>)> {
    if !match_at(line, 0, "\\newlabel{"@) {
        None
    } else {
        let r = line.subrange("\\newlabel{"@.len() as int, line.len() as int);
        match spec_find(r, 0, "}{"@) {
            None => None,
            Some(p1) => {
                let f1_end = match spec_find(r, p1 + 2, "}{"@) {
                    None => r.len() as int,
                    Some(p2) => p2,
                };
                Some((trim_braces(r.subrange(0, p1)), trim_braces(r.subrange(p1 + 2, f1_end))))
            },
        }
    }
}

/// End of the line that starts at position `i`.
pub open spec fn line_end(s: Seq<char>, i: int) -> int {
    match spec_find(s, i, "\n"@) {
        None => s.len() as int,
        Some(k) => k,
    }
}

/// Start of the line after the one that ends at position `k`.
pub open spec fn next_line(s: Seq<char>, k: int) -> int {
    if k == s.len() {
        s.len() as int
    } else {
        k + 1
    }
}

/// Citation entries of the lines that start at or after position `i`.
pub open spec fn cites_from(s: Seq<char>, i: int) -> Seq<(Seq<char>, Seq<char>, Seq<char>)>
    decreases s.len() - i
        via cites_from_dec
{
    if i < 0 || i >= s.len() {
        Seq::empty()
    } else {
        let k = line_end(s, i);
        let rest = cites_from(s, next_line(s, k));
        match parse_bib(strip_cr(s.subrange(i, k))) {
            None => rest,
            Some(e) => seq![e] + rest,
        }
    }
}

#[via_fn]
proof fn cites_from_dec(s: Seq<char>, i: int) {
    crate::util::lemma_find_in_range(s, i, "\n"@);
}

/// Cross-reference entries of the lines that start at or after position `i`.
pub open spec fn refs_from(s: Seq<char>, i: int) -> Seq<(Seq<char>, Seq<char>)>
    decreases s.len() - i
        via refs_from_dec
{
    if i < 0 || i >= s.len() {
        Seq::empty()
    } else {
        let k = line_end(s, i);
        let rest = refs_from(s, next_line(s, k));
        match parse_ref(strip_cr(s.subrange(i, k))) {
            None => rest,
            Some(e) => seq![e] + rest,
        }
    }
}

#[via_fn]
proof fn refs_from_dec(s: Seq<char>, i: int) {
    crate::util::lemma_find_in_range(s, i, "\n"@);
}

/// A malformed bibliography line is excluded from the citation table without
/// affecting the entries of the lines before or after it: the table of the
/// lines from `i` on is exactly the table of the lines after the line at `i`.
pub proof fn lemma_malformed_bib_line_skipped(s: Seq<char>, i: int)
    requires
        0 <= i < s.len(),
        parse_bib(strip_cr(s.subrange(i, line_end(s, i)))) is None,
    ensures
        cites_from(s, i) == cites_from(s, next_line(s, line_end(s, i))),
{
}

/// A malformed cross-reference line is excluded from the reference table
/// without affecting the entries of the lines before or after it.
pub proof fn lemma_malformed_ref_line_skipped(s: Seq<char>, i: int)
    requires
        0 <= i < s.len(),
        parse_ref(strip_cr(s.subrange(i, line_end(s, i)))) is None,
    ensures
        refs_from(s, i) == refs_from(s, next_line(s, line_end(s, i))),
{
}

/// Copy of `s` with every tilde replaced by a space.
fn tildes(s: &str) -> (r: String)
    ensures
        r@ == tildes_to_spaces(s@),
{
    proof {
        reveal_strlit(" ");
    }
    let n = s.unicode_len();
    let mut out = String::new();
    let mut i: usize = 0;
    while i < n
        invariant
            n == s@.len(),
            i <= n,
            out@ == tildes_to_spaces(s@.subrange(0, i as int)),
        decreases n - i,
    {
        let ghost pre = s@.subrange(0, i as int);
        let ghost prev = out@;
        let c = s.get_char(i);
        if c == '~' {
            out.append(" ");
            proof {
                reveal_strlit(" ");
                assert(out@ =~= prev.push(' '));
            }
        } else {
            out.append(s.substring_char(i, i + 1));
            proof {
                assert(s@.subrange(i as int, i + 1) =~= seq![s@[i as int]]);
                assert(out@ =~= prev.push(c));
            }
        }
        proof {
            let post = s@.subrange(0, i + 1);
            assert(prev.len() == pre.len());
            assert forall|j: int| 0 <= j < post.len() implies #[trigger] tildes_to_spaces(
                post,
            )[j] == out@[j] by {
                assert(tildes_to_spaces(post)[j] == if post[j] == '~' {
                    ' '
                } else {
                    post[j]
                });
                if j < i {
                    assert(out@[j] == prev[j]);
                    assert(prev[j] == tildes_to_spaces(pre)[j]);
                    assert(tildes_to_spaces(pre)[j] == if pre[j] == '~' {
                        ' '
                    } else {
                        pre[j]
                    });
                    assert(pre[j] == post[j]);
                }
            }
            assert(out@ =~= tildes_to_spaces(s@.subrange(0, i + 1)));
        }
        i += 1;
    }
    proof {
        assert(s@.subrange(0, n as int) =~= s@);
    }
    out
}

/// Key, author and year parsed out of one bibliography line.
fn parse_bib_line(line: &str) -> (res: Option<(String, String, String)>)
    ensures
        match res {
            Some(t) => parse_bib(line@) == Some((t.0@, t.1@, t.2@)),
            None => parse_bib(line@) is None,
        },
{
    proof {
        reveal_strlit("\\bibcite{");
        reveal_strlit("}{");
    }
    if !has_at(line, 0, "\\bibcite{") {
        return None;
    }
    let n = line.unicode_len();
    let r = line.substring_char(9, n);
    let p1 = match find_from(r, 0, "}{") {
        None => return None,
        Some(x) => x,
    };
    let p2 = match find_from(r, p1 + 2, "}{") {
        None => return None,
        Some(x) => x,
    };
    let p3 = match find_from(r, p2 + 2, "}{") {
        None => return None,
        Some(x) => x,
    };
    let f3_end = match find_from(r, p3 + 2, "}{") {
        None => r.unicode_len(),
        Some(x) => x,
    };
    let key = strip_braces(r.substring_char(0, p1));
    let year = strip_braces(r.substring_char(p2 + 2, p3));
    let raw = r.substring_char(p3 + 2, f3_end);
    let cut = match find_from(raw, 0, "\\spacefactor") {
        None => raw,
        Some(q) => raw.substring_char(0, q),
    };
    let author = tildes(strip_braces(cut).as_str());
    Some((key, author, year))
}

/// Label and display number parsed out of one cross-reference line.
fn parse_ref_line(line: &str) -> (res: Option<(String, String)>)
    ensures
        match res {
            Some(t) => parse_ref(line@) == Some((t.0@, t.1@)),
            None => parse_ref(line@) is None,
        },
{
    proof {
        reveal_strlit("\\newlabel{");
        reveal_strlit("}{");
    }
    if !has_at(line, 0, "\\newlabel{") {
        return None;
    }
    let n = line.unicode_len();
    let r = line.substring_char(10, n);
    let p1 = match find_from(r, 0, "}{") {
        None => return None,
        Some(x) => x,
    };
    let f1_end = match find_from(r, p1 + 2, "}{") {
        None => r.unicode_len(),
        Some(x) => x,
    };
    let label = strip_braces(r.substring_char(0, p1));
    let number = strip_braces(r.substring_char(p1 + 2, f1_end));
    Some((label, number))
}

/// Parses the metadata file's bibliography lines into the citation table.
/// Malformed lines are skipped without affecting the rest.
pub fn cite_label(txt: &str) -> (r: CiteTable)
    ensures
        r@ == cites_from(txt@, 0),
{
    proof {
        reveal_strlit("\n");
    }
    let n = txt.unicode_len();
    let mut table = CiteTable::new();
    let mut i: usize = 0;
    while i < n
        invariant
            n == txt@.len(),
            i <= n,
            cites_from(txt@, 0) == table@ + cites_from(txt@, i as int),
        decreases n - i,
    {
        let k = match find_from(txt, i, "\n") {
            None => n,
            Some(x) => x,
        };
        let mut line = txt.substring_char(i, k);
        let ll = line.unicode_len();
        if ll > 0 && line.get_char(ll - 1) == '\r' {
            line = line.substring_char(0, ll - 1);
        }
        proof {
            assert(line@ =~= strip_cr(txt@.subrange(i as int, k as int)));
        }
        let ghost rest = cites_from(txt@, next_line(txt@, k as int));
        match parse_bib_line(line) {
            Some(t) => {
                let (key, author, year) = t;
                let ghost e = (key@, author@, year@);
                table.insert(key, author, year);
                proof {
                    assert(cites_from(txt@, i as int) == seq![e] + rest);
                    assert(cites_from(txt@, 0) =~= table@ + rest);
                }
            },
            None => {
                proof {
                    assert(cites_from(txt@, i as int) == rest);
                }
            },
        }
        i = if k == n {
            n
        } else {
            k + 1
        };
    }
    proof {
        assert(cites_from(txt@, 0) =~= table@);
    }
    table
}

/// Parses the metadata file's cross-reference lines into the reference table.
/// Malformed lines are skipped without affecting the rest.
pub fn ref_label(txt: &str) -> (r: StrMap)
    ensures
        r@ == refs_from(txt@, 0),
{
    proof {
        reveal_strlit("\n");
    }
    let n = txt.unicode_len();
    let mut table = StrMap::new();
    let mut i: usize = 0;
    while i < n
        invariant
            n == txt@.len(),
            i <= n,
            refs_from(txt@, 0) == table@ + refs_from(txt@, i as int),
        decreases n - i,
    {
        let k = match find_from(txt, i, "\n") {
            None => n,
            Some(x) => x,
        };
        let mut line = txt.substring_char(i, k);
        let ll = line.unicode_len();
        if ll > 0 && line.get_char(ll - 1) == '\r' {
            line = line.substring_char(0, ll - 1);
        }
        proof {
            assert(line@ =~= strip_cr(txt@.subrange(i as int, k as int)));
        }
        let ghost rest = refs_from(txt@, next_line(txt@, k as int));
        match parse_ref_line(line) {
            Some(t) => {
                let (label, number) = t;
                let ghost e = (label@, number@);
                table.insert(label, number);
                proof {
                    assert(refs_from(txt@, i as int) == seq![e] + rest);
                    assert(refs_from(txt@, 0) =~= table@ + rest);
                }
            },
            None => {
                proof {
                    assert(refs_from(txt@, i as int) == rest);
                }
            },
        }
        i = if k == n {
            n
        } else {
            k + 1
        };
    }
    proof {
        assert(refs_from(txt@, 0) =~= table@);
    }
    table
}

} // verus!
