//! The command substitution engine.
//!
//! A command is a backslash, a non-empty run of word characters (the command
//! name), and a brace-delimited argument: the argument is the shortest
//! non-empty run of characters after the opening brace that is followed by a
//! closing brace, and it may not contain a newline.  Each recognized command
//! is rewritten by a fixed rule table -- citations and cross-references are
//! resolved against the lookup tables -- and any other command name falls
//! back to a generic function-call form, so the table need not be exhaustive.

use vstd::prelude::*;
use crate::table::{CiteTable, StrMap, spec_get, spec_get_cite};
use crate::util::{split_pat, str_views, str_eq, split_all, find_from, join_with, lemma_join_push};

verus! {

/// What an unmatched citation key renders as: the raw key itself (the same
/// fallback the cross-reference rule uses), or nothing at all.
#[derive(Clone, Copy, PartialEq, Eq, Structural)]
pub enum CiteFallback {
    /// Emit the key verbatim.
    RawKey,
    /// Drop the key silently.
    DropKey,
}

/// Whether `c` is a word character of a command name: an ASCII letter,
/// digit, or underscore.  This is a deliberate narrowing to the characters
/// that formatting command names actually use; a Unicode-aware word class
/// would also admit letters of other scripts, but its full extent cannot be
/// stated exactly here, so a command whose name holds such a character is
/// left verbatim instead of being rewritten.
pub open spec fn is_word_char(c: char) -> bool {
    let u = c as u32;
    (0x61 <= u && u <= 0x7a) || (0x41 <= u && u <= 0x5a) || (0x30 <= u && u <= 0x39) || c == '_'
}

/// Length of the run of word characters starting at position `i`.
pub open spec fn word_run(s: Seq<char>, i: int) -> int
    decreases s.len() - i,
{
    if 0 <= i < s.len() && is_word_char(s[i]) {
        1 + word_run(s, i + 1)
    } else {
        0
    }
}

/// First `}` at or after position `j`, unless a newline comes first.
pub open spec fn close_scan(s: Seq<char>, j: int) -> Option<int>
    decreases s.len() - j,
{
    if j < 0 || j >= s.len() {
        None
    } else if s[j] == '}' {
        Some(j)
    } else if s[j] == '\n' {
        None
    } else {
        close_scan(s, j + 1)
    }
}

/// End of the shortest non-empty argument starting at position `e0`: the
/// first `}` strictly after `e0`, provided no newline stands in between.
pub open spec fn first_close(s: Seq<char>, e0: int) -> Option<int> {
    if e0 < 0 || e0 >= s.len() || s[e0] == '\n' {
        None
    } else {
        close_scan(s, e0 + 1)
    }
}

/// A position found by `close_scan` lies between the scan start and the end
/// of `s`.
pub proof fn lemma_close_scan_range(s: Seq<char>, j: int)
    ensures
        close_scan(s, j) matches Some(k) ==> j <= k < s.len(),
    decreases s.len() - j,
{
    if 0 <= j < s.len() && s[j] != '}' && s[j] != '\n' {
        lemma_close_scan_range(s, j + 1);
    }
}

/// One recognized command occurrence: its name, its argument, and the
/// position just after its closing brace.
pub struct CmdMatch {
    pub name: Seq<char>,
    pub entry: Seq<char>,
    pub end: int,
}

/// The command occurrence starting at position `i`, if any: a backslash, a
/// non-empty word-character name, an opening brace, and a shortest non-empty
/// newline-free argument closed by a brace.
pub open spec fn cmd_at(s: Seq<char>, i: int) -> Option<CmdMatch> {
    if !(0 <= i < s.len() && s[i] == '\\') {
        None
    } else {
        let w = word_run(s, i + 1);
        if w < 1 || i + 1 + w >= s.len() || s[i + 1 + w] != '{' {
            None
        } else {
            let e0 = i + 2 + w;
            match first_close(s, e0) {
                None => None,
                Some(k) => Some(
                    (CmdMatch {
                        name: s.subrange(i + 1, i + 1 + w),
                        entry: s.subrange(e0, k),
                        end: k + 1,
                    }),
                ),
            }
        }
    }
}

/// The rendered parts one citation key contributes: the formatted author and
/// year when the key resolves, else what the fallback dictates.
pub open spec fn cite_item(
    ct: Seq<(Seq<char>, Seq<char>, Seq<char>)>,
    key: Seq<char>,
    citep: bool,
    fb: CiteFallback,
) -> Seq<Seq<char>> {
    match spec_get_cite(ct, key) {
        Some(ay) => if citep {
            seq![ay.0 + ", "@ + ay.1]
        } else {
            seq![ay.0 + " ("@ + ay.1 + ")"@]
        },
        None => if fb is RawKey {
            seq![key]
        } else {
            Seq::empty()
        },
    }
}

/// The rendered parts of a citation key list, in order.
pub open spec fn cite_parts(
    keys: Seq<Seq<char>>,
    ct: Seq<(Seq<char>, Seq<char>, Seq<char>)>,
    citep: bool,
    fb: CiteFallback,
) -> Seq<Seq<char>>
    decreases keys.len(),
{
    if keys.len() == 0 {
        Seq::empty()
    } else {
        cite_item(ct, keys[0], citep, fb) + cite_parts(keys.drop_first(), ct, citep, fb)
    }
}

/// The replacement text of one command, by the rule table: `ref` resolves
/// against the reference table and falls back to the raw argument; `cite` and
/// `citep` resolve each comma-separated key against the citation table and
/// wrap the joined parts in parentheses; `texttt` and `url` produce the
/// typewriter and hyperlink constructs; any other name produces the generic
/// function-call form embedding name and argument verbatim.
pub open spec fn render_cmd(
    name: Seq<char>,
    entry: Seq<char>,
    ct: Seq<(Seq<char>, Seq<char>, Seq<char>)>,
    rt: Seq<(Seq<char>, Seq<char>)>,
    fb: CiteFallback,
) -> Seq<char> {
    if name == "ref"@ {
        match spec_get(rt, entry) {
            Some(v) => v,
            None => entry,
        }
    } else if name == "cite"@ {
        "("@ + join_with(cite_parts(split_pat(entry, ","@), ct, false, fb), ", "@) + ")"@
    } else if name == "citep"@ {
        "("@ + join_with(cite_parts(split_pat(entry, ","@), ct, true, fb), "; "@) + ")"@
    } else if name == "texttt"@ {
        "`"@ + entry + "`"@
    } else if name == "url"@ {
        "#link(\""@ + entry + "\")"@
    } else {
        "#"@ + name + "()["@ + entry + "]"@
    }
}

/// The cross-reference rule: `ref` resolves its argument to the reference
/// table's value when the argument is present there, and otherwise renders
/// the argument itself, never an error.
pub proof fn lemma_ref_rule(
    entry: Seq<char>,
    ct: Seq<(Seq<char>, Seq<char>, Seq<char>)>,
    rt: Seq<(Seq<char>, Seq<char>)>,
    fb: CiteFallback,
)
    ensures
        render_cmd("ref"@, entry, ct, rt, fb) == match spec_get(rt, entry) {
            Some(v) => v,
            None => entry,
        },
{
}

/// The fallback rule: a command whose name no rule recognizes renders as the
/// generic function-call form embedding the name and the argument verbatim.
pub proof fn lemma_unknown_rule(
    name: Seq<char>,
    entry: Seq<char>,
    ct: Seq<(Seq<char>, Seq<char>, Seq<char>)>,
    rt: Seq<(Seq<char>, Seq<char>)>,
    fb: CiteFallback,
)
    requires
        name != "ref"@,
        name != "cite"@,
        name != "citep"@,
        name != "texttt"@,
        name != "url"@,
    ensures
        render_cmd(name, entry, ct, rt, fb) == "#"@ + name + "()["@ + entry + "]"@,
{
}

/// The text from position `i` on with every recognized command replaced:
/// commands are found left to right, each replacement consumes the whole
/// occurrence, and everything else is copied verbatim.
pub open spec fn spec_subst_from(
    s: Seq<char>,
    i: int,
    ct: Seq<(Seq<char>, Seq<char>, Seq<char>)>,
    rt: Seq<(Seq<char>, Seq<char>)>,
    fb: CiteFallback,
) -> Seq<char>
    decreases s.len() - i
        via spec_subst_from_dec
{
    if i < 0 || i >= s.len() {
        Seq::empty()
    } else {
        match cmd_at(s, i) {
            Some(c) => render_cmd(c.name, c.entry, ct, rt, fb) + spec_subst_from(
                s,
                c.end,
                ct,
                rt,
                fb,
            ),
            None => seq![s[i]] + spec_subst_from(s, i + 1, ct, rt, fb),
        }
    }
}

#[via_fn]
proof fn spec_subst_from_dec(
    s: Seq<char>,
    i: int,
    ct: Seq<(Seq<char>, Seq<char>, Seq<char>)>,
    rt: Seq<(Seq<char>, Seq<char>)>,
    fb: CiteFallback,
) {
    if 0 <= i < s.len() {
        lemma_close_scan_range(s, i + 2 + word_run(s, i + 1) + 1);
    }
}

/// The whole text with every recognized command replaced.
pub open spec fn spec_subst(
    s: Seq<char>,
    ct: Seq<(Seq<char>, Seq<char>, Seq<char>)>,
    rt: Seq<(Seq<char>, Seq<char>)>,
    fb: CiteFallback,
) -> Seq<char> {
    spec_subst_from(s, 0, ct, rt, fb)
}

/// The substitution engine: the two lookup tables and the fallback behavior
/// for unmatched citation keys.
pub struct LatexCmd<'a> {
    pub cite_map: &'a CiteTable,
    pub ref_map: &'a StrMap,
    pub fallback: CiteFallback,
}

/// Whether `c` is a word character of a command name (ASCII, see
/// `is_word_char`).
fn is_word(c: char) -> (b: bool)
    ensures
        b == is_word_char(c),
{
    let u = c as u32;
    (0x61 <= u && u <= 0x7a) || (0x41 <= u && u <= 0x5a) || (0x30 <= u && u <= 0x39) || c == '_'
}

/// End of the word-character run starting at `start`.
fn word_run_end(s: &str, start: usize, n: usize) -> (e: usize)
    requires
        n == s@.len(),
        start <= n,
    ensures
        start <= e <= n,
        word_run(s@, start as int) == e - start,
{
    let mut j = start;
    while j < n && is_word(s.get_char(j))
        invariant
            start <= j <= n,
            n == s@.len(),
            word_run(s@, start as int) == (j - start) + word_run(s@, j as int),
        decreases n - j,
    {
        j += 1;
    }
    proof {
        assert(word_run(s@, j as int) == 0);
    }
    j
}

/// End of the shortest non-empty newline-free argument starting at `e0`.
fn find_close(s: &str, e0: usize, n: usize) -> (r: Option<usize>)
    requires
        n == s@.len(),
    ensures
        match r {
            Some(k) => first_close(s@, e0 as int) == Some(k as int) && e0 < k < n,
            None => first_close(s@, e0 as int) is None,
        },
{
    if e0 >= n {
        return None;
    }
    if s.get_char(e0) == '\n' {
        return None;
    }
    let mut j = e0 + 1;
    loop
        invariant
            n == s@.len(),
            e0 < j,
            close_scan(s@, e0 + 1) == close_scan(s@, j as int),
            first_close(s@, e0 as int) == close_scan(s@, e0 + 1),
        decreases n - j,
    {
        if j >= n {
            return None;
        }
        let c = s.get_char(j);
        if c == '}' {
            return Some(j);
        }
        if c == '\n' {
            return None;
        }
        proof {
            assert(close_scan(s@, j as int) == close_scan(s@, j as int + 1));
        }
        j += 1;
    }
}

/// The command occurrence starting at position `i`, if any: its name, its
/// argument, and the position just after it.
fn try_cmd(s: &str, i: usize, n: usize) -> (r: Option<(String, String, usize)>)
    requires
        n == s@.len(),
        i < n,
    ensures
        match r {
            Some(t) => cmd_at(s@, i as int) == Some(
                (CmdMatch { name: t.0@, entry: t.1@, end: t.2 as int }),
            ) && i < t.2 <= n,
            None => cmd_at(s@, i as int) is None,
        },
{
    if s.get_char(i) != '\\' {
        return None;
    }
    let we = word_run_end(s, i + 1, n);
    if we == i + 1 {
        return None;
    }
    if we >= n {
        return None;
    }
    if s.get_char(we) != '{' {
        return None;
    }
    let e0 = we + 1;
    match find_close(s, e0, n) {
        None => None,
        Some(k) => {
            let name = String::from_str(s.substring_char(i + 1, we));
            let entry = String::from_str(s.substring_char(e0, k));
            Some((name, entry, k + 1))
        },
    }
}

impl<'a> LatexCmd<'a> {
    /// A substitution engine over the given tables, with unmatched citation
    /// keys emitted verbatim.
    pub fn new(cite_map: &'a CiteTable, ref_map: &'a StrMap) -> (r: Self)
        ensures
            r.cite_map == cite_map,
            r.ref_map == ref_map,
            r.fallback == CiteFallback::RawKey,
    {
        LatexCmd { cite_map, ref_map, fallback: CiteFallback::RawKey }
    }

    /// The same engine with the given fallback for unmatched citation keys.
    pub fn with_fallback(self, fallback: CiteFallback) -> (r: Self)
        ensures
            r.cite_map == self.cite_map,
            r.ref_map == self.ref_map,
            r.fallback == fallback,
    {
        LatexCmd { fallback, ..self }
    }

    /// Renders one citation command: each comma-separated key resolved
    /// against the citation table, the parts joined, and the whole wrapped in
    /// parentheses.
    fn render_cite(&self, entry: &str, citep: bool) -> (r: String)
        ensures
            r@ == "("@ + join_with(
                cite_parts(split_pat(entry@, ","@), self.cite_map@, citep, self.fallback),
                if citep {
                    "; "@
                } else {
                    ", "@
                },
            ) + ")"@,
    {
        proof {
            reveal_strlit(",");
        }
        let keys = split_all(entry, ",");
        let ghost kv = str_views(keys@);
        let mut parts: Vec<String> = Vec::new();
        let mut i: usize = 0;
        proof {
            assert(kv.skip(0) =~= kv);
            assert(str_views(parts@) =~= Seq::<Seq<char>>::empty());
        }
        while i < keys.len()
            invariant
                kv == str_views(keys@),
                i <= keys.len(),
                cite_parts(kv, self.cite_map@, citep, self.fallback) == str_views(parts@)
                    + cite_parts(kv.skip(i as int), self.cite_map@, citep, self.fallback),
            decreases keys.len() - i,
        {
            let ghost pre = str_views(parts@);
            let key = &keys[i];
            match self.cite_map.get(key.as_str()) {
                Some(ay) => {
                    let (a, y) = ay;
                    let mut t = a.clone();
                    if citep {
                        t.append(", ");
                    } else {
                        t.append(" (");
                    }
                    t.append(y.as_str());
                    if !citep {
                        t.append(")");
                    }
                    proof {
                        reveal_strlit(", ");
                        reveal_strlit(" (");
                        reveal_strlit(")");
                    }
                    parts.push(t);
                },
                None => {
                    if matches!(self.fallback, CiteFallback::RawKey) {
                        parts.push(key.clone());
                    }
                },
            }
            proof {
                assert(kv.skip(i as int)[0] == kv[i as int]);
                assert(kv.skip(i as int).drop_first() =~= kv.skip(i + 1));
                assert(cite_parts(kv.skip(i as int), self.cite_map@, citep, self.fallback)
                    == cite_item(self.cite_map@, kv[i as int], citep, self.fallback) + cite_parts(
                    kv.skip(i + 1),
                    self.cite_map@,
                    citep,
                    self.fallback,
                ));
                assert(str_views(parts@) =~= pre + cite_item(
                    self.cite_map@,
                    kv[i as int],
                    citep,
                    self.fallback,
                ));
                assert((pre + cite_item(self.cite_map@, kv[i as int], citep, self.fallback))
                    + cite_parts(kv.skip(i + 1), self.cite_map@, citep, self.fallback) =~= pre + (
                cite_item(self.cite_map@, kv[i as int], citep, self.fallback) + cite_parts(
                    kv.skip(i + 1),
                    self.cite_map@,
                    citep,
                    self.fallback,
                )));
            }
            i += 1;
        }
        proof {
            assert(kv.skip(i as int) =~= Seq::<Seq<char>>::empty());
            assert(str_views(parts@) + Seq::<Seq<char>>::empty() =~= str_views(parts@));
        }
        let ghost all = cite_parts(kv, self.cite_map@, citep, self.fallback);
        let mut out = String::from_str("(");
        proof {
            reveal_strlit("(");
            assert(str_views(parts@).take(0) =~= Seq::<Seq<char>>::empty());
        }
        let mut j: usize = 0;
        while j < parts.len()
            invariant
                all == str_views(parts@),
                j <= parts.len(),
                out@ == "("@ + join_with(
                    str_views(parts@).take(j as int),
                    if citep {
                        "; "@
                    } else {
                        ", "@
                    },
                ),
            decreases parts.len() - j,
        {
            let ghost sep: Seq<char> = if citep {
                "; "@
            } else {
                ", "@
            };
            let ghost sofar = str_views(parts@).take(j as int);
            if j > 0 {
                if citep {
                    out.append("; ");
                } else {
                    out.append(", ");
                }
            }
            out.append(parts[j].as_str());
            proof {
                reveal_strlit("; ");
                reveal_strlit(", ");
                lemma_join_push(sofar, parts@[j as int]@, sep);
                assert(str_views(parts@).take(j + 1) =~= sofar.push(parts@[j as int]@));
                if j == 0 {
                    assert(out@ =~= "("@ + join_with(str_views(parts@).take(j + 1), sep));
                } else {
                    assert(out@ =~= "("@ + (join_with(sofar, sep) + sep + parts@[j as int]@));
                }
            }
            j += 1;
        }
        out.append(")");
        proof {
            reveal_strlit(")");
            assert(str_views(parts@).take(parts@.len() as int) =~= str_views(parts@));
            assert(out@ =~= "("@ + join_with(
                all,
                if citep {
                    "; "@
                } else {
                    ", "@
                },
            ) + ")"@);
        }
        out
    }

    /// Renders one command occurrence by the rule table.
    pub fn render_command(&self, name: &str, entry: &str) -> (r: String)
        ensures
            r@ == render_cmd(name@, entry@, self.cite_map@, self.ref_map@, self.fallback),
    {
        if str_eq(name, "ref") {
            match self.ref_map.get(entry) {
                Some(v) => v.clone(),
                None => String::from_str(entry),
            }
        } else if str_eq(name, "cite") {
            self.render_cite(entry, false)
        } else if str_eq(name, "citep") {
            self.render_cite(entry, true)
        } else if str_eq(name, "texttt") {
            let mut out = String::from_str("`");
            out.append(entry);
            out.append("`");
            proof {
                reveal_strlit("`");
            }
            out
        } else if str_eq(name, "url") {
            let mut out = String::from_str("#link(\"");
            out.append(entry);
            out.append("\")");
            proof {
                reveal_strlit("#link(\"");
                reveal_strlit("\")");
            }
            out
        } else {
            let mut out = String::from_str("#");
            out.append(name);
            out.append("()[");
            out.append(entry);
            out.append("]");
            proof {
                reveal_strlit("#");
                reveal_strlit("()[");
                reveal_strlit("]");
            }
            out
        }
    }

    /// Replaces every recognized command in `text` by its rule's rendering.
    pub fn substitute(&self, text: &str) -> (r: String)
        ensures
            r@ == spec_subst(text@, self.cite_map@, self.ref_map@, self.fallback),
    {
        let n = text.unicode_len();
        let mut out = String::new();
        let mut i: usize = 0;
        proof {
            assert(out@ + spec_subst_from(text@, 0, self.cite_map@, self.ref_map@, self.fallback)
                =~= spec_subst_from(text@, 0, self.cite_map@, self.ref_map@, self.fallback));
        }
        while i < n
            invariant
                n == text@.len(),
                i <= n,
                spec_subst(text@, self.cite_map@, self.ref_map@, self.fallback) == out@
                    + spec_subst_from(text@, i as int, self.cite_map@, self.ref_map@, self.fallback),
            decreases n - i,
        {
            let ghost prev = out@;
            let ghost ct = self.cite_map@;
            let ghost rt = self.ref_map@;
            let ghost fb = self.fallback;
            match try_cmd(text, i, n) {
                Some(t) => {
                    let (name, entry, end) = t;
                    let rendered = self.render_command(name.as_str(), entry.as_str());
                    out.append(rendered.as_str());
                    proof {
                        assert(spec_subst_from(text@, i as int, ct, rt, fb) == rendered@
                            + spec_subst_from(text@, end as int, ct, rt, fb));
                        assert(out@ + spec_subst_from(text@, end as int, ct, rt, fb) =~= prev
                            + spec_subst_from(text@, i as int, ct, rt, fb));
                    }
                    i = end;
                },
                None => {
                    out.append(text.substring_char(i, i + 1));
                    proof {
                        assert(text@.subrange(i as int, i + 1) =~= seq![text@[i as int]]);
                        assert(spec_subst_from(text@, i as int, ct, rt, fb) == seq![
                            text@[i as int],
                        ] + spec_subst_from(text@, i + 1, ct, rt, fb));
                        assert(out@ + spec_subst_from(text@, i + 1, ct, rt, fb) =~= prev
                            + spec_subst_from(text@, i as int, ct, rt, fb));
                    }
                    i += 1;
                },
            }
        }
        proof {
            assert(spec_subst_from(text@, i as int, self.cite_map@, self.ref_map@, self.fallback)
                == Seq::<char>::empty());
            assert(out@ + Seq::<char>::empty() =~= out@);
        }
        out
    }
}

} // verus!
