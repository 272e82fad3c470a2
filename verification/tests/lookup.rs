use paradiff::commands::CiteFallback;
use paradiff::labels::text_labels;
use paradiff::lookup::{lookup, LookupError, LookupOptions};
use paradiff::meta::{cite_label, ref_label};
use paradiff::table::CiteTable;

fn opts(lines: bool, keep_latex: bool) -> LookupOptions {
    LookupOptions { lines, keep_latex, fallback: CiteFallback::RawKey }
}

const OLD_DOC: &str = "\\paralabel{par:x}\nHello brave world\n\n\\paralabel{par:old}\nOld only para\n\n\\paralabel{par:r}\nSee \\ref{fig:x} now\n\n";
const NEW_DOC: &str = "\\paralabel{par:x}\nHello new world\n\n\\paralabel{par:new}\nNew only para\n\n\\paralabel{par:r}\nSee \\ref{fig:x} now\n\n";

#[test]
fn label_in_both_snapshots_is_diffed() {
    let old_map = text_labels(OLD_DOC);
    let new_map = text_labels(NEW_DOC);
    let cites = CiteTable::new();
    let refs = ref_label("");
    let out = lookup("x", &old_map, &new_map, &cites, &refs, opts(false, true)).unwrap();
    assert_eq!(out.as_str(), "Hello #rem[brave] #add[new] world");
}

#[test]
fn label_only_in_old_is_a_single_removal() {
    let old_map = text_labels(OLD_DOC);
    let new_map = text_labels(NEW_DOC);
    let cites = CiteTable::new();
    let refs = ref_label("");
    let out = lookup("old", &old_map, &new_map, &cites, &refs, opts(false, true)).unwrap();
    assert_eq!(out.as_str(), "#rem[Old only para]");
}

#[test]
fn label_only_in_new_is_a_single_addition() {
    let old_map = text_labels(OLD_DOC);
    let new_map = text_labels(NEW_DOC);
    let cites = CiteTable::new();
    let refs = ref_label("");
    let out = lookup("new", &old_map, &new_map, &cites, &refs, opts(false, true)).unwrap();
    assert_eq!(out.as_str(), "#add[New only para]");
}

#[test]
fn label_in_neither_snapshot_is_not_found() {
    let old_map = text_labels(OLD_DOC);
    let new_map = text_labels(NEW_DOC);
    let cites = CiteTable::new();
    let refs = ref_label("");
    let r = lookup("nope", &old_map, &new_map, &cites, &refs, opts(false, true));
    assert_eq!(r.unwrap_err(), LookupError::NotFound);
}

#[test]
fn substitution_is_applied_unless_disabled() {
    let old_map = text_labels(OLD_DOC);
    let new_map = text_labels(NEW_DOC);
    let cites = cite_label("");
    let refs = ref_label("\\newlabel{fig:x}{{7}{15}}\n");
    let with_subst = lookup("r", &old_map, &new_map, &cites, &refs, opts(false, false)).unwrap();
    assert_eq!(with_subst.as_str(), "See 7 now");
    let kept = lookup("r", &old_map, &new_map, &cites, &refs, opts(false, true)).unwrap();
    assert_eq!(kept.as_str(), "See \\ref{fig:x} now");
}

#[test]
fn line_mode_collapses_one_sided_paragraphs() {
    let old_map = text_labels("\\paralabel{par:m}\nfirst line\nsecond line\n\n");
    let new_map = text_labels("");
    let cites = CiteTable::new();
    let refs = ref_label("");
    let out = lookup("m", &old_map, &new_map, &cites, &refs, opts(true, true)).unwrap();
    assert_eq!(out.as_str(), "#rem[first line second line]");
}

#[test]
fn ordinal_keys_work_in_lookup() {
    let old_map = text_labels(OLD_DOC);
    let new_map = text_labels(NEW_DOC);
    let cites = CiteTable::new();
    let refs = ref_label("");
    let out = lookup("1", &old_map, &new_map, &cites, &refs, opts(false, true)).unwrap();
    assert_eq!(out.as_str(), "Hello #rem[brave] #add[new] world");
}
