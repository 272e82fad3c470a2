use paradiff::labels::{nat_to_string, text_labels};

#[test]
fn extracts_labeled_paragraphs_under_both_keys() {
    let doc = "intro text\n\n\\paralabel{par:alpha}\nFirst paragraph body.\n\nplain middle\n\n\\paralabel{par:beta}\nSecond body here.\n\ntrailing";
    let map = text_labels(doc);
    assert_eq!(map.get("alpha").map(|s| s.as_str()), Some("First paragraph body."));
    assert_eq!(map.get("1").map(|s| s.as_str()), Some("First paragraph body."));
    assert_eq!(map.get("beta").map(|s| s.as_str()), Some("Second body here."));
    assert_eq!(map.get("2").map(|s| s.as_str()), Some("Second body here."));
    assert!(map.get("gamma").is_none());
    assert_eq!(map.len(), 4);
}

#[test]
fn discards_text_before_first_marker() {
    let doc = "no paragraph zero here\n\n\\paralabel{par:only}\nThe body\n\n";
    let map = text_labels(doc);
    assert!(map.get("no").is_none());
    assert_eq!(map.get("only").map(|s| s.as_str()), Some("The body"));
    assert_eq!(map.get("1").map(|s| s.as_str()), Some("The body"));
}

#[test]
fn skips_segment_without_terminator() {
    let doc = "\\paralabel{par:noterm\n\n\\paralabel{par:ok}\nGood.\n\n";
    let map = text_labels(doc);
    assert!(map.get("noterm").is_none());
    assert_eq!(map.get("ok").map(|s| s.as_str()), Some("Good."));
    // the skipped segment does not consume an ordinal
    assert_eq!(map.get("1").map(|s| s.as_str()), Some("Good."));
    assert_eq!(map.len(), 2);
}

#[test]
fn end_of_input_closes_the_last_paragraph() {
    let doc = "\\paralabel{par:x}\nLast body";
    let map = text_labels(doc);
    assert_eq!(map.get("x").map(|s| s.as_str()), Some("Last body"));
}

#[test]
fn empty_document_yields_empty_map() {
    let map = text_labels("");
    assert_eq!(map.len(), 0);
    assert!(map.get("1").is_none());
}

#[test]
fn ordinal_keys_are_decimal() {
    assert_eq!(nat_to_string(0).as_str(), "0");
    assert_eq!(nat_to_string(7).as_str(), "7");
    assert_eq!(nat_to_string(10).as_str(), "10");
    assert_eq!(nat_to_string(907).as_str(), "907");
}
