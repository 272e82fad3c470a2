//! Shared character-sequence searching and trimming, with exact specifications.

use vstd::prelude::*;

verus! {

/// True when the pattern `p` occurs in `s` starting at position `i`.
pub open spec fn match_at(s: Seq<char>, i: int, p: Seq<char>) -> bool {
    0 <= i && i + p.len() <= s.len() && s.subrange(i, i + p.len()) == p
}

/// Position of the first occurrence of a non-empty pattern `p` in `s` at or
/// after position `i`; `None` when there is none (or when `p` is empty).
pub open spec fn spec_find(s: Seq<char>, i: int, p: Seq<char>) -> Option<int>
    decreases s.len() - i,
{
    if i < 0 || p.len() == 0 || i + p.len() > s.len() {
        None
    } else if match_at(s, i, p) {
        Some(i)
    } else {
        spec_find(s, i + 1, p)
    }
}

/// A found occurrence lies between the start of the search and the end of `s`.
pub proof fn lemma_find_in_range(s: Seq<char>, i: int, p: Seq<char>)
    ensures
        spec_find(s, i, p) matches Some(j) ==> i <= j && 0 <= j && j + p.len() <= s.len()
            && match_at(s, j, p),
    decreases s.len() - i,
{
    if i < 0 || p.len() == 0 || i + p.len() > s.len() {
    } else if match_at(s, i, p) {
    } else {
        lemma_find_in_range(s, i + 1, p);
    }
}

/// Whether the character `c` counts as whitespace for paragraph trimming:
/// the characters of Rust's `char::is_whitespace`.
pub open spec fn spec_is_ws(c: char) -> bool {
    let u = c as u32;
    c == ' ' || c == '\t' || c == '\n' || c == '\r' || c == '\u{0b}' || c == '\u{0c}'
        || c == '\u{85}' || c == '\u{a0}' || c == '\u{1680}' || (0x2000 <= u && u <= 0x200a)
        || c == '\u{2028}' || c == '\u{2029}' || c == '\u{202f}' || c == '\u{205f}'
        || c == '\u{3000}'
}

/// Length of the run of whitespace characters starting at position `i`.
pub open spec fn ws_run(s: Seq<char>, i: int) -> int
    decreases s.len() - i,
{
    if 0 <= i < s.len() && spec_is_ws(s[i]) {
        1 + ws_run(s, i + 1)
    } else {
        0
    }
}

/// Length of the run of whitespace characters ending just before position `i`.
pub open spec fn ws_run_back(s: Seq<char>, i: int) -> int
    decreases i,
{
    if 0 < i <= s.len() && spec_is_ws(s[i - 1]) {
        1 + ws_run_back(s, i - 1)
    } else {
        0
    }
}

/// `s` with leading and trailing whitespace removed.
pub open spec fn trim_ws(s: Seq<char>) -> Seq<char> {
    if ws_run(s, 0) == s.len() {
        Seq::empty()
    } else {
        s.subrange(ws_run(s, 0), s.len() - ws_run_back(s, s.len() as int))
    }
}

/// Length of the run of copies of `c` starting at position `i`.
pub open spec fn char_run(s: Seq<char>, i: int, c: char) -> int
    decreases s.len() - i,
{
    if 0 <= i < s.len() && s[i] == c {
        1 + char_run(s, i + 1, c)
    } else {
        0
    }
}

/// Length of the run of copies of `c` ending just before position `i`.
pub open spec fn char_run_back(s: Seq<char>, i: int, c: char) -> int
    decreases i,
{
    if 0 < i <= s.len() && s[i - 1] == c {
        1 + char_run_back(s, i - 1, c)
    } else {
        0
    }
}

/// `s` with every leading `{` and every trailing `}` removed: the cleanup the
/// metadata parser applies to a raw brace-delimited field.
pub open spec fn trim_braces(s: Seq<char>) -> Seq<char> {
    let a = char_run(s, 0, '{');
    let b = char_run_back(s, s.len() as int, '}');
    if a + b >= s.len() {
        Seq::empty()
    } else {
        s.subrange(a, s.len() - b)
    }
}

/// `s` split on each occurrence of the non-empty separator `p`, left to
/// right: adjacent separators produce empty parts, and a sequence without the
/// separator is one part (so the result never has fewer than one part).
pub open spec fn split_pat(s: Seq<char>, p: Seq<char>) -> Seq<Seq<char>>
    decreases s.len()
        via split_pat_dec
{
    match spec_find(s, 0, p) {
        None => seq![s],
        Some(j) => seq![s.subrange(0, j)] + split_pat(
            s.subrange(j + p.len(), s.len() as int),
            p,
        ),
    }
}

#[via_fn]
proof fn split_pat_dec(s: Seq<char>, p: Seq<char>) {
    lemma_find_in_range(s, 0, p);
}

/// The views of a vector of strings.
pub open spec fn str_views(v: Seq<String>) -> Seq<Seq<char>> {
    v.map_values(|t: String| t@)
}

/// `parts` joined by `sep`.
pub open spec fn join_with(parts: Seq<Seq<char>>, sep: Seq<char>) -> Seq<char>
    decreases parts.len(),
{
    if parts.len() == 0 {
        Seq::empty()
    } else if parts.len() == 1 {
        parts[0]
    } else {
        parts[0] + sep + join_with(parts.drop_first(), sep)
    }
}

/// Joining after appending one part appends the separator and the part.
pub proof fn lemma_join_push(parts: Seq<Seq<char>>, x: Seq<char>, sep: Seq<char>)
    ensures
        join_with(parts.push(x), sep) == if parts.len() == 0 {
            x
        } else {
            join_with(parts, sep) + sep + x
        },
    decreases parts.len(),
{
    if parts.len() == 0 {
        assert(parts.push(x)[0] == x);
    } else {
        lemma_join_push(parts.drop_first(), x, sep);
        assert(parts.push(x).drop_first() =~= parts.drop_first().push(x));
        assert(parts.push(x)[0] == parts[0]);
        if parts.len() == 1 {
            assert(parts.drop_first().len() == 0);
            assert(join_with(parts.push(x), sep) == parts[0] + sep + x);
        } else {
            assert(parts[0] + sep + (join_with(parts.drop_first(), sep) + sep + x) =~= (parts[0]
                + sep + join_with(parts.drop_first(), sep)) + sep + x);
        }
    }
}

/// Splitting on a separator and joining with it again gives the sequence
/// back unchanged.
pub proof fn lemma_split_join(s: Seq<char>, p: Seq<char>)
    requires
        p.len() >= 1,
    ensures
        join_with(split_pat(s, p), p) == s,
    decreases s.len(),
{
    match spec_find(s, 0, p) {
        None => {
            assert(split_pat(s, p) == seq![s]);
            assert(seq![s][0] == s);
        },
        Some(j) => {
            lemma_find_in_range(s, 0, p);
            let head = s.subrange(0, j);
            let tail = s.subrange(j + p.len(), s.len() as int);
            lemma_split_join(tail, p);
            let parts = split_pat(tail, p);
            assert(parts.len() >= 1);
            assert(split_pat(s, p) == seq![head] + parts);
            assert((seq![head] + parts).len() >= 2);
            assert((seq![head] + parts)[0] == head);
            assert((seq![head] + parts).drop_first() =~= parts);
            assert(join_with(split_pat(s, p), p) == head + p + join_with(parts, p));
            assert(s.subrange(j, j + p.len()) == p);
            assert(s =~= head + s.subrange(j, j + p.len()) + tail);
        },
    }
}

/// Whether two strings hold the same characters.
pub fn str_eq(a: &str, b: &str) -> (r: bool)
    ensures
        r == (a@ == b@),
{
    let ao = String::from_str(a);
    let bo = String::from_str(b);
    ao == bo
}

/// Splits `s` on each occurrence of the separator `p`.
pub fn split_all(s: &str, p: &str) -> (r: Vec<String>)
    requires
        p@.len() >= 1,
    ensures
        str_views(r@) == split_pat(s@, p@),
{
    let mut parts: Vec<String> = Vec::new();
    let mut rest: &str = s;
    proof {
        assert(str_views(parts@) + split_pat(rest@, p@) =~= split_pat(s@, p@));
    }
    loop
        invariant
            p@.len() >= 1,
            split_pat(s@, p@) == str_views(parts@) + split_pat(rest@, p@),
        decreases rest@.len(),
    {
        let n = rest.unicode_len();
        let ghost pre = parts@;
        let ghost whole = rest@;
        match find_from(rest, 0, p) {
            None => {
                parts.push(String::from_str(rest));
                proof {
                    assert(split_pat(whole, p@) == seq![whole]);
                    assert(str_views(parts@) =~= str_views(pre).push(whole));
                    assert(str_views(pre).push(whole) =~= str_views(pre) + seq![whole]);
                    assert(str_views(parts@) + Seq::<Seq<char>>::empty() =~= str_views(parts@));
                    assert(str_views(parts@) =~= split_pat(s@, p@));
                }
                return parts;
            },
            Some(j) => {
                parts.push(String::from_str(rest.substring_char(0, j)));
                let m = p.unicode_len();
                rest = rest.substring_char(j + m, n);
                proof {
                    let head = whole.subrange(0, j as int);
                    assert(split_pat(whole, p@) == seq![head] + split_pat(rest@, p@));
                    assert(str_views(parts@) =~= str_views(pre).push(head));
                    assert(str_views(pre).push(head) =~= str_views(pre) + seq![head]);
                    assert((str_views(pre) + seq![head]) + split_pat(rest@, p@) =~= str_views(
                        pre,
                    ) + (seq![head] + split_pat(rest@, p@)));
                }
            },
        }
    }
}

/// Whether the pattern `p` occurs in `s` at position `i`.
pub fn has_at(s: &str, i: usize, p: &str) -> (b: bool)
    ensures
        b == match_at(s@, i as int, p@),
{
    let n = s.unicode_len();
    let m = p.unicode_len();
    if m > n || i > n - m {
        return false;
    }
    let mut k: usize = 0;
    while k < m
        invariant
            k <= m,
            i + m <= n,
            n == s@.len(),
            m == p@.len(),
            forall|t: int| 0 <= t < k ==> s@[i + t] == p@[t],
        decreases m - k,
    {
        if s.get_char(i + k) != p.get_char(k) {
            proof {
                assert(s@.subrange(i as int, i + p@.len())[k as int] == s@[i + k]);
            }
            return false;
        }
        k += 1;
    }
    proof {
        assert(s@.subrange(i as int, i + p@.len()) =~= p@);
    }
    true
}

/// First occurrence of `p` in `s` at or after `start`, as `spec_find` gives it.
pub fn find_from(s: &str, start: usize, p: &str) -> (r: Option<usize>)
    ensures
        match r {
            Some(j) => start <= j && j + p@.len() <= s@.len() && spec_find(
                s@,
                start as int,
                p@,
            ) == Some(j as int),
            None => spec_find(s@, start as int, p@) is None,
        },
{
    let n = s.unicode_len();
    let m = p.unicode_len();
    if m == 0 {
        return None;
    }
    let mut j = start;
    loop
        invariant
            n == s@.len(),
            m == p@.len(),
            m >= 1,
            start <= j,
            spec_find(s@, start as int, p@) == spec_find(s@, j as int, p@),
        decreases n + 1 - j,
    {
        if m > n || j > n - m {
            return None;
        }
        if has_at(s, j, p) {
            return Some(j);
        }
        proof {
            assert(spec_find(s@, j as int, p@) == spec_find(s@, j as int + 1, p@));
        }
        j += 1;
    }
}

/// Whether the character `c` counts as whitespace for paragraph trimming.
pub fn is_ws(c: char) -> (b: bool)
    ensures
        b == spec_is_ws(c),
{
    let u = c as u32;
    c == ' ' || c == '\t' || c == '\n' || c == '\r' || c == '\u{0b}' || c == '\u{0c}'
        || c == '\u{85}' || c == '\u{a0}' || c == '\u{1680}' || (0x2000 <= u && u <= 0x200a)
        || c == '\u{2028}' || c == '\u{2029}' || c == '\u{202f}' || c == '\u{205f}'
        || c == '\u{3000}'
}

/// Copy of `s` with leading and trailing whitespace removed.
pub fn trim(s: &str) -> (r: String)
    ensures
        r@ == trim_ws(s@),
{
    let n = s.unicode_len();
    let mut a: usize = 0;
    while a < n && is_ws(s.get_char(a))
        invariant
            a <= n,
            n == s@.len(),
            ws_run(s@, 0) == a + ws_run(s@, a as int),
        decreases n - a,
    {
        a += 1;
    }
    if a == n {
        return String::new();
    }
    let mut b: usize = n;
    while b > a && is_ws(s.get_char(b - 1))
        invariant
            a < b <= n,
            a < n,
            n == s@.len(),
            !spec_is_ws(s@[a as int]),
            ws_run_back(s@, n as int) == (n - b) + ws_run_back(s@, b as int),
        decreases b,
    {
        b -= 1;
    }
    proof {
        assert(ws_run(s@, a as int) == 0);
        assert(ws_run_back(s@, b as int) == 0);
    }
    String::from_str(s.substring_char(a, b))
}

/// Copy of `s` with every leading `{` and every trailing `}` removed.
pub fn strip_braces(s: &str) -> (r: String)
    ensures
        r@ == trim_braces(s@),
{
    let n = s.unicode_len();
    let mut a: usize = 0;
    while a < n && s.get_char(a) == '{'
        invariant
            a <= n,
            n == s@.len(),
            char_run(s@, 0, '{') == a + char_run(s@, a as int, '{'),
        decreases n - a,
    {
        a += 1;
    }
    let mut b: usize = n;
    while b > 0 && s.get_char(b - 1) == '}'
        invariant
            b <= n,
            n == s@.len(),
            char_run_back(s@, n as int, '}') == (n - b) + char_run_back(s@, b as int, '}'),
        decreases b,
    {
        b -= 1;
    }
    proof {
        assert(char_run(s@, a as int, '{') == 0);
        assert(char_run_back(s@, b as int, '}') == 0);
    }
    if b <= a {
        return String::new();
    }
    String::from_str(s.substring_char(a, b))
}

} // verus!
