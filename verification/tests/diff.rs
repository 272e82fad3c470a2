use paradiff::diff::{get_diff, render_diff, replace_nl, DiffSegment};

#[test]
fn diff_marks_changed_words() {
    let out = get_diff("a b c", "a x c", false);
    assert_eq!(out.as_str(), "a #rem[b] #add[x] c");
}

#[test]
fn diff_of_identical_inputs_is_one_same_segment() {
    let out = get_diff("same text here", "same text here", false);
    assert_eq!(out.as_str(), "same text here");
    assert!(!out.contains("#add["));
    assert!(!out.contains("#rem["));
}

#[test]
fn diff_of_empty_inputs_is_empty() {
    assert_eq!(get_diff("", "", false).as_str(), "");
}

#[test]
fn diff_against_empty_old_is_all_addition() {
    assert_eq!(get_diff("", "x", false).as_str(), "#add[x]");
}

#[test]
fn diff_against_empty_new_is_all_removal() {
    assert_eq!(get_diff("a", "", false).as_str(), "#rem[a]");
}

#[test]
fn diff_reconstructs_both_sides() {
    let old = "the quick fox jumped far";
    let new = "the slow fox leapt far";
    let out = get_diff(old, new, false);
    // every changed run is a single token here, so each piece of the output
    // is either a marker-wrapped token or a plain token
    // Removing the addition markers and their content gives back the old
    // tokens; removing the removal markers gives back the new tokens.
    let mut old_side: Vec<&str> = Vec::new();
    let mut new_side: Vec<&str> = Vec::new();
    for piece in out.split(' ') {
        if let Some(t) = piece.strip_prefix("#add[") {
            new_side.push(t.strip_suffix("]").unwrap());
        } else if let Some(t) = piece.strip_prefix("#rem[") {
            old_side.push(t.strip_suffix("]").unwrap());
        } else if !piece.is_empty() {
            old_side.push(piece);
            new_side.push(piece);
        }
    }
    assert_eq!(old_side.join(" "), old);
    assert_eq!(new_side.join(" "), new);
}

#[test]
fn line_mode_collapses_newlines_before_alignment() {
    let out = get_diff("a\nb", "a b", true);
    assert_eq!(out.as_str(), "a b");
}

#[test]
fn replace_nl_turns_newlines_into_spaces() {
    assert_eq!(replace_nl("a\nb\nc").as_str(), "a b c");
    assert_eq!(replace_nl("").as_str(), "");
}

#[test]
fn render_wraps_additions_and_removals() {
    let segs = vec![
        DiffSegment::Same("keep".to_string()),
        DiffSegment::Removed("gone".to_string()),
        DiffSegment::Added("fresh".to_string()),
    ];
    assert_eq!(render_diff(&segs).as_str(), "keep #rem[gone] #add[fresh]");
}
