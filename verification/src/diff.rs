//! The diff engine: word-level alignment of two paragraph texts into an
//! ordered sequence of same/added/removed segments, and its rendering into
//! annotated text.
//!
//! The alignment itself is done by the `difference` crate over
//! space-delimited tokens; everything around the call -- line-mode
//! preprocessing and the rendering of segments with `#add[...]` and
//! `#rem[...]` wrappers -- is verified here against the stated contracts.

use vstd::prelude::*;

verus! {

/// Classification of one diff segment.
pub enum SegKind {
    /// Present in both texts.
    Same,
    /// Present only in the new text.
    Added,
    /// Present only in the old text.
    Removed,
}

/// Mathematical model of one diff segment: its kind and its text.
pub struct SegView {
    pub kind: SegKind,
    pub text: Seq<char>,
}

/// One contiguous run of tokens classified against the other text.
pub enum DiffSegment {
    /// A run present in both texts.
    Same(String),
    /// A run present only in the new text.
    Added(String),
    /// A run present only in the old text.
    Removed(String),
}

impl View for DiffSegment {
    type V = SegView;

    open spec fn view(&self) -> SegView {
        match self {
            DiffSegment::Same(t) => SegView { kind: SegKind::Same, text: t@ },
            DiffSegment::Added(t) => SegView { kind: SegKind::Added, text: t@ },
            DiffSegment::Removed(t) => SegView { kind: SegKind::Removed, text: t@ },
        }
    }
}

/// The models of a segment vector.
pub open spec fn seg_views(v: Seq<DiffSegment>) -> Seq<SegView> {
    v.map_values(|d: DiffSegment| d@)
}

/// `s` split on single spaces; adjacent separators produce empty tokens, and
/// the empty sequence produces one empty token.
pub open spec fn split_sp(s: Seq<char>) -> Seq<Seq<char>> {
    crate::util::split_pat(s, " "@)
}

/// The token list of `s`: its space-split parts, except that the empty
/// sequence has no tokens at all.
pub open spec fn toks(s: Seq<char>) -> Seq<Seq<char>> {
    if s.len() == 0 {
        Seq::empty()
    } else {
        split_sp(s)
    }
}

/// The tokens of a segment run, in order.
pub open spec fn seg_tokens(segs: Seq<SegView>) -> Seq<Seq<char>> {
    segs.flat_map(|g: SegView| split_sp(g.text))
}

/// The segments that carry old text: everything but additions.
pub open spec fn old_side(segs: Seq<SegView>) -> Seq<SegView> {
    segs.filter(|g: SegView| !(g.kind is Added))
}

/// The segments that carry new text: everything but removals.
pub open spec fn new_side(segs: Seq<SegView>) -> Seq<SegView> {
    segs.filter(|g: SegView| !(g.kind is Removed))
}

/// The segment sequence that the word-level alignment of `old` and `new`
/// produces: a minimal edit script over space-delimited tokens, with runs of
/// equally classified tokens grouped and re-joined by single spaces.
pub uninterp spec fn diff_of(old: Seq<char>, new: Seq<char>) -> Seq<SegView>;

/// Relies on `difference::Changeset::new` with the single-space split.  Its
/// merge pass drains every old token, in order, into `Same` and `Rem` runs
/// and every new token, in order, into `Same` and `Add` runs, joining each
/// run's tokens with the split string; an empty input contributes no tokens.
/// For equal non-empty inputs the longest common subsequence is the whole
/// token list, so the merge yields one `Same` run carrying the whole text,
/// and for equal empty inputs it yields no runs at all.
#[verifier::external_body]
fn changeset_segments(old: &str, new: &str) -> (r: Vec<DiffSegment>)
    ensures
        seg_views(r@) == diff_of(old@, new@),
        seg_tokens(old_side(seg_views(r@))) == toks(old@),
        seg_tokens(new_side(seg_views(r@))) == toks(new@),
        old@ == new@ && old@.len() > 0 ==> seg_views(r@) == seq![
            (SegView { kind: SegKind::Same, text: old@ }),
        ],
        old@ == new@ && old@.len() == 0 ==> r@.len() == 0,
{
    let changeset = difference::Changeset::new(old, new, " ");
    let mut r = Vec::new();
    for d in changeset.diffs {
        r.push(
            match d {
                difference::Difference::Same(t) => DiffSegment::Same(t),
                difference::Difference::Add(t) => DiffSegment::Added(t),
                difference::Difference::Rem(t) => DiffSegment::Removed(t),
            },
        );
    }
    r
}

/// `s` with every newline replaced by a space.
pub open spec fn spec_replace_nl(s: Seq<char>) -> Seq<char> {
    s.map_values(|c: char| if c == '\n' { ' ' } else { c })
}

/// The text actually aligned: collapsed to one line when line mode is on.
pub open spec fn prep(s: Seq<char>, lines: bool) -> Seq<char> {
    if lines {
        spec_replace_nl(s)
    } else {
        s
    }
}

/// Copy of `s` with every newline replaced by a space.
pub fn replace_nl(s: &str) -> (r: String)
    ensures
        r@ == spec_replace_nl(s@),
{
    let n = s.unicode_len();
    let mut out = String::new();
    let mut i: usize = 0;
    while i < n
        invariant
            n == s@.len(),
            i <= n,
            out@ == spec_replace_nl(s@.subrange(0, i as int)),
        decreases n - i,
    {
        let ghost pre = s@.subrange(0, i as int);
        let ghost prev = out@;
        let c = s.get_char(i);
        if c == '\n' {
            out.append(" ");
            proof {
                reveal_strlit(" ");
                assert(out@ =~= prev.push(' '));
            }
        } else {
            out.append(s.substring_char(i, i + 1));
            proof {
                assert(s@.subrange(i as int, i + 1) =~= seq![s@[i as int]]);
                assert(out@ =~= prev.push(c));
            }
        }
        proof {
            let post = s@.subrange(0, i + 1);
            assert(prev.len() == pre.len());
            assert forall|j: int| 0 <= j < post.len() implies #[trigger] spec_replace_nl(
                post,
            )[j] == out@[j] by {
                assert(spec_replace_nl(post)[j] == if post[j] == '\n' {
                    ' '
                } else {
                    post[j]
                });
                if j < i {
                    assert(out@[j] == prev[j]);
                    assert(prev[j] == spec_replace_nl(pre)[j]);
                    assert(spec_replace_nl(pre)[j] == if pre[j] == '\n' {
                        ' '
                    } else {
                        pre[j]
                    });
                    assert(pre[j] == post[j]);
                }
            }
            assert(out@ =~= spec_replace_nl(s@.subrange(0, i + 1)));
        }
        i += 1;
    }
    proof {
        assert(s@.subrange(0, n as int) =~= s@);
    }
    out
}

/// The rendering of one segment: same text verbatim, additions wrapped in
/// `#add[...]`, removals wrapped in `#rem[...]`.
pub open spec fn render_seg(g: SegView) -> Seq<char> {
    match g.kind {
        SegKind::Same => g.text,
        SegKind::Added => "#add["@ + g.text + "]"@,
        SegKind::Removed => "#rem["@ + g.text + "]"@,
    }
}

/// The renderings of the segments of a run, in order.
pub open spec fn render_all(segs: Seq<SegView>) -> Seq<Seq<char>> {
    segs.map_values(|g: SegView| render_seg(g))
}

/// The rendering of a segment run: the segments' renderings with a single
/// delimiter re-inserted between runs, and none after the last.
pub open spec fn spec_render(segs: Seq<SegView>) -> Seq<char> {
    crate::util::join_with(render_all(segs), " "@)
}

/// Renders a segment run into annotated text.
pub fn render_diff(segs: &Vec<DiffSegment>) -> (r: String)
    ensures
        r@ == spec_render(seg_views(segs@)),
{
    let ghost views = seg_views(segs@);
    let mut out = String::new();
    let mut i: usize = 0;
    proof {
        assert(views.take(0) =~= Seq::<SegView>::empty());
        assert(render_all(views.take(0)) =~= Seq::<Seq<char>>::empty());
    }
    while i < segs.len()
        invariant
            views == seg_views(segs@),
            i <= segs.len(),
            out@ == crate::util::join_with(render_all(views.take(i as int)), " "@),
        decreases segs.len() - i,
    {
        let ghost sofar = render_all(views.take(i as int));
        if i > 0 {
            out.append(" ");
        }
        let ghost mid = out@;
        match &segs[i] {
            DiffSegment::Same(t) => {
                out.append(t.as_str());
            },
            DiffSegment::Added(t) => {
                out.append("#add[");
                out.append(t.as_str());
                out.append("]");
            },
            DiffSegment::Removed(t) => {
                out.append("#rem[");
                out.append(t.as_str());
                out.append("]");
            },
        }
        proof {
            reveal_strlit("#add[");
            reveal_strlit("#rem[");
            reveal_strlit("]");
            reveal_strlit(" ");
            let here = render_seg(views[i as int]);
            assert(views[i as int] == segs@[i as int]@);
            assert(out@ =~= mid + here);
            assert(sofar.len() == i);
            crate::util::lemma_join_push(sofar, here, " "@);
            assert forall|j: int| 0 <= j < i + 1 implies #[trigger] render_all(
                views.take(i + 1),
            )[j] == sofar.push(here)[j] by {
                if j < i {
                    assert(views.take(i + 1)[j] == views.take(i as int)[j]);
                } else {
                    assert(views.take(i + 1)[j] == views[i as int]);
                }
            }
            assert(render_all(views.take(i + 1)) =~= sofar.push(here));
            if i == 0 {
                assert(out@ =~= crate::util::join_with(sofar.push(here), " "@));
            } else {
                assert(out@ =~= crate::util::join_with(sofar, " "@) + " "@ + here);
            }
        }
        i += 1;
    }
    proof {
        assert(views.take(i as int) =~= views);
    }
    out
}

/// The full annotated diff of two texts: line-mode preprocessing, word-level
/// alignment, and rendering.
pub open spec fn spec_get_diff(old: Seq<char>, new: Seq<char>, lines: bool) -> Seq<char> {
    spec_render(diff_of(prep(old, lines), prep(new, lines)))
}

/// Computes the annotated diff of `old` and `new`.  Beyond the exact result,
/// the contract carries the alignment's guarantees: the non-added segments
/// hold exactly the old text's tokens and the non-removed segments exactly
/// the new text's tokens, and diffing equal texts yields the text itself
/// unchanged, with no additions or removals.
pub fn get_diff(old: &str, new: &str, lines: bool) -> (r: String)
    ensures
        r@ == spec_get_diff(old@, new@, lines),
        seg_tokens(old_side(diff_of(prep(old@, lines), prep(new@, lines)))) == toks(
            prep(old@, lines),
        ),
        seg_tokens(new_side(diff_of(prep(old@, lines), prep(new@, lines)))) == toks(
            prep(new@, lines),
        ),
        prep(old@, lines).len() > 0 ==> crate::util::join_with(
            seg_tokens(old_side(diff_of(prep(old@, lines), prep(new@, lines)))),
            " "@,
        ) == prep(old@, lines),
        prep(new@, lines).len() > 0 ==> crate::util::join_with(
            seg_tokens(new_side(diff_of(prep(old@, lines), prep(new@, lines)))),
            " "@,
        ) == prep(new@, lines),
        prep(old@, lines) == prep(new@, lines) && prep(old@, lines).len() > 0 ==> r@ == prep(
            old@,
            lines,
        ),
        prep(old@, lines) == prep(new@, lines) && prep(old@, lines).len() == 0 ==> r@
            == Seq::<char>::empty(),
{
    let o = if lines {
        replace_nl(old)
    } else {
        String::from_str(old)
    };
    let e = if lines {
        replace_nl(new)
    } else {
        String::from_str(new)
    };
    let segs = changeset_segments(o.as_str(), e.as_str());
    let r = render_diff(&segs);
    proof {
        reveal_strlit(" ");
        if prep(old@, lines).len() > 0 {
            crate::util::lemma_split_join(prep(old@, lines), " "@);
        }
        if prep(new@, lines).len() > 0 {
            crate::util::lemma_split_join(prep(new@, lines), " "@);
        }
        let a = prep(old@, lines);
        if a == prep(new@, lines) {
            if a.len() > 0 {
                let g = SegView { kind: SegKind::Same, text: a };
                assert(seg_views(segs@) == seq![g]);
                assert(seq![g][0] == g);
                assert(render_all(seq![g]) =~= seq![render_seg(g)]);
                assert(seq![render_seg(g)][0] == render_seg(g));
                assert(crate::util::join_with(seq![render_seg(g)], " "@) == render_seg(g));
                assert(render_seg(g) == a);
            } else {
                assert(seg_views(segs@) =~= Seq::<SegView>::empty());
                assert(render_all(seg_views(segs@)).len() == 0);
            }
        }
    }
    r
}

} // verus!
