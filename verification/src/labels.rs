//! Label-indexed paragraph extraction.
//!
//! A document snapshot contains paragraphs announced by a label marker
//! `\paralabel{par:<name>}` and separated by blank lines.  Extraction yields a
//! table holding every detected paragraph twice: under its label name and
//! under its 1-based ordinal among the detected paragraphs.

use vstd::prelude::*;
use crate::table::StrMap;
use crate::util::{spec_find, trim_ws, find_from, trim, lemma_find_in_range};

verus! {

/// The label marker that announces a labeled paragraph.
pub open spec fn marker() -> Seq<char> {
    "\\paralabel{par:"@
}

/// Decimal digit `d` as a character, for `d < 10`.
pub open spec fn digit_char(d: nat) -> char {
    "0123456789"@[d as int]
}

/// Decimal representation of `n`, most significant digit first.
pub open spec fn dec_rep(n: nat) -> Seq<char>
    decreases n,
{
    if n < 10 {
        seq![digit_char(n)]
    } else {
        dec_rep(n / 10).push(digit_char(n % 10))
    }
}

/// Label and body of one marker-to-marker segment: the segment is clipped at
/// the first blank line, the label runs up to the first `}` of the clipped
/// part, and the body is the rest of the clipped part with surrounding
/// whitespace removed.  A segment without a `}` terminator yields nothing.
pub open spec fn parse_seg(seg: Seq<char>) -> Option<(Seq<char>, Seq<char>)> {
    let clip_end = match spec_find(seg, 0, "\n\n"@) {
        None => seg.len() as int,
        Some(b) => b,
    };
    let clipped = seg.subrange(0, clip_end);
    match spec_find(clipped, 0, "}"@) {
        None => None,
        Some(t) => Some(
            (clipped.subrange(0, t), trim_ws(clipped.subrange(t + 1, clipped.len() as int))),
        ),
    }
}

/// The (label, body) records of the labeled paragraphs whose markers start at
/// or after position `i`, in order of appearance.  Text before the first
/// marker is discarded, and a malformed segment is skipped.
pub open spec fn paras_from(s: Seq<char>, i: int) -> Seq<(Seq<char>, Seq<char>)>
    decreases s.len() - i
        via paras_from_dec
{
    match spec_find(s, i, marker()) {
        None => Seq::empty(),
        Some(j) => {
            let start = j + marker().len();
            let seg_end = match spec_find(s, start, marker()) {
                None => s.len() as int,
                Some(k) => k,
            };
            let rest = paras_from(s, start);
            match parse_seg(s.subrange(start, seg_end)) {
                None => rest,
                Some(e) => seq![e] + rest,
            }
        },
    }
}

#[via_fn]
proof fn paras_from_dec(s: Seq<char>, i: int) {
    reveal_strlit("\\paralabel{par:");
    lemma_find_in_range(s, i, marker());
}

/// The lookup pairs for a record list whose first record has ordinal `k`:
/// each record appears under its ordinal key and then under its label.
pub open spec fn map_pairs(records: Seq<(Seq<char>, Seq<char>)>, k: nat) -> Seq<
    (Seq<char>, Seq<char>),
>
    decreases records.len(),
{
    if records.len() == 0 {
        Seq::empty()
    } else {
        seq![(dec_rep(k), records[0].1), (records[0].0, records[0].1)] + map_pairs(
            records.drop_first(),
            k + 1,
        )
    }
}

/// The full paragraph map of a document snapshot.
pub open spec fn spec_label_map(s: Seq<char>) -> Seq<(Seq<char>, Seq<char>)> {
    map_pairs(paras_from(s, 0), 1)
}

/// Decimal representation of `n`.
pub fn nat_to_string(n: u64) -> (r: String)
    ensures
        r@ == dec_rep(n as nat),
    decreases n,
{
    proof {
        reveal_strlit("0123456789");
    }
    let digits = "0123456789";
    let d = (n % 10) as usize;
    let ds = digits.substring_char(d, d + 1);
    proof {
        assert(ds@ =~= seq![digit_char((n % 10) as nat)]);
    }
    if n < 10 {
        String::from_str(ds)
    } else {
        proof {
            assert(n / 10 < n && n / 10 >= 1) by (nonlinear_arith)
                requires
                    n >= 10,
            ;
        }
        let mut r = nat_to_string(n / 10);
        r.append(ds);
        proof {
            assert(r@ =~= dec_rep((n / 10) as nat).push(digit_char((n % 10) as nat)));
        }
        r
    }
}

/// Label and body parsed out of one marker-to-marker segment.
fn parse_segment(seg: &str) -> (r: Option<(String, String)>)
    ensures
        match r {
            Some(p) => parse_seg(seg@) == Some((p.0@, p.1@)),
            None => parse_seg(seg@) is None,
        },
{
    let n = seg.unicode_len();
    let clip_end = match find_from(seg, 0, "\n\n") {
        None => n,
        Some(b) => b,
    };
    let clipped = seg.substring_char(0, clip_end);
    match find_from(clipped, 0, "}") {
        None => None,
        Some(t) => {
            let label = String::from_str(clipped.substring_char(0, t));
            let body = trim(clipped.substring_char(t + 1, clipped.unicode_len()));
            Some((label, body))
        },
    }
}

/// Extracts the paragraph map of one document snapshot: every labeled
/// paragraph, keyed both by its label name and by its 1-based ordinal among
/// the detected paragraphs.
pub fn text_labels(txt: &str) -> (r: StrMap)
    ensures
        r@ == spec_label_map(txt@),
{
    proof {
        reveal_strlit("\\paralabel{par:");
    }
    let n = txt.unicode_len();
    let mk = "\\paralabel{par:";
    let mklen = mk.unicode_len();
    let mut map = StrMap::new();
    let mut count: u64 = 0;
    let mut i: usize = 0;
    loop
        invariant
            n == txt@.len(),
            mk@ == marker(),
            mklen == marker().len(),
            mklen >= 1,
            count <= i,
            i <= n,
            spec_label_map(txt@) == map@ + map_pairs(
                paras_from(txt@, i as int),
                (count + 1) as nat,
            ),
        decreases n - i,
    {
        match find_from(txt, i, mk) {
            None => {
                proof {
                    assert(paras_from(txt@, i as int) =~= Seq::<(Seq<char>, Seq<char>)>::empty());
                    assert(map@ + map_pairs(paras_from(txt@, i as int), (count + 1) as nat)
                        =~= map@);
                }
                return map;
            },
            Some(j) => {
                let start = j + mklen;
                let seg_end = match find_from(txt, start, mk) {
                    None => n,
                    Some(k) => k,
                };
                let ghost rest = paras_from(txt@, start as int);
                let seg = txt.substring_char(start, seg_end);
                match parse_segment(seg) {
                    Some(p) => {
                        let (label, body) = p;
                        count = count + 1;
                        let key = nat_to_string(count);
                        let ghost e = (label@, body@);
                        let body_for_ordinal = body.clone();
                        map.insert(key, body_for_ordinal);
                        map.insert(label, body);
                        proof {
                            assert(paras_from(txt@, i as int) == seq![e] + rest);
                            assert((seq![e] + rest).drop_first() =~= rest);
                            assert(map_pairs(seq![e] + rest, count as nat) == seq![
                                (dec_rep(count as nat), e.1),
                                (e.0, e.1),
                            ] + map_pairs(rest, (count + 1) as nat));
                            assert(spec_label_map(txt@) =~= map@ + map_pairs(
                                rest,
                                (count + 1) as nat,
                            ));
                        }
                    },
                    None => {
                        proof {
                            assert(paras_from(txt@, i as int) == rest);
                        }
                    },
                }
                i = start;
            },
        }
    }
}

/// Every detected labeled paragraph appears in the extracted map under both
/// of its keys: its label name and its 1-based ordinal position.
pub proof fn lemma_label_map_complete(s: Seq<char>, k: int)
    requires
        0 <= k < paras_from(s, 0).len(),
    ensures
        spec_label_map(s).contains((paras_from(s, 0)[k].0, paras_from(s, 0)[k].1)),
        spec_label_map(s).contains((dec_rep((k + 1) as nat), paras_from(s, 0)[k].1)),
{
    lemma_map_pairs_contains(paras_from(s, 0), 1, k);
}

/// Where no two keys of the extracted map collide, looking either of a
/// detected paragraph's keys up yields that paragraph's body.  The
/// distinct-keys premise is needed: a paragraph whose label is itself a
/// numeral, such as `2`, can collide with another paragraph's ordinal key,
/// and the later entry then shadows the earlier one.
pub proof fn lemma_label_map_lookup(s: Seq<char>, k: int)
    requires
        0 <= k < paras_from(s, 0).len(),
        crate::table::distinct_keys(spec_label_map(s)),
    ensures
        crate::table::spec_get(spec_label_map(s), paras_from(s, 0)[k].0) == Some(
            paras_from(s, 0)[k].1,
        ),
        crate::table::spec_get(spec_label_map(s), dec_rep((k + 1) as nat)) == Some(
            paras_from(s, 0)[k].1,
        ),
{
    lemma_label_map_complete(s, k);
    crate::table::lemma_get_of_contained(
        spec_label_map(s),
        paras_from(s, 0)[k].0,
        paras_from(s, 0)[k].1,
    );
    crate::table::lemma_get_of_contained(
        spec_label_map(s),
        dec_rep((k + 1) as nat),
        paras_from(s, 0)[k].1,
    );
}

/// In the lookup pairs of a record list, record `k` stands both under its
/// label and under its ordinal key.
proof fn lemma_map_pairs_contains(records: Seq<(Seq<char>, Seq<char>)>, base: nat, k: int)
    requires
        0 <= k < records.len(),
    ensures
        map_pairs(records, base).contains((records[k].0, records[k].1)),
        map_pairs(records, base).contains((dec_rep(base + k as nat), records[k].1)),
    decreases k,
{
    let head = seq![(dec_rep(base), records[0].1), (records[0].0, records[0].1)];
    let tail = map_pairs(records.drop_first(), base + 1);
    assert(map_pairs(records, base) == head + tail);
    if k == 0 {
        assert((head + tail)[0] == (dec_rep(base), records[0].1));
        assert((head + tail)[1] == (records[0].0, records[0].1));
    } else {
        lemma_map_pairs_contains(records.drop_first(), base + 1, k - 1);
        let rec = (records.drop_first()[k - 1].0, records.drop_first()[k - 1].1);
        let ord = (dec_rep(base + 1 + (k - 1) as nat), records.drop_first()[k - 1].1);
        let wi = choose|i: int| 0 <= i < tail.len() && tail[i] == rec;
        assert((head + tail)[2 + wi] == rec);
        let wj = choose|i: int| 0 <= i < tail.len() && tail[i] == ord;
        assert((head + tail)[2 + wj] == ord);
        assert(records.drop_first()[k - 1] == records[k]);
        assert(base + 1 + (k - 1) as nat == base + k as nat);
    }
}

} // verus!
