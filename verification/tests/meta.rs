use paradiff::meta::{cite_label, ref_label};

#[test]
fn parses_bibliography_line() {
    let aux = "\\bibcite{zhangUnderstandingRuntimePerformance2023}{{73}{2023}{{Zhang et~al.\\spacefactor \\@m {}}}{{}}}\n";
    let table = cite_label(aux);
    let entry = table.get("zhangUnderstandingRuntimePerformance2023");
    let (author, year) = entry.expect("entry must parse");
    assert_eq!(author.as_str(), "Zhang et al.");
    assert_eq!(year.as_str(), "2023");
}

#[test]
fn malformed_bib_lines_are_skipped_without_harm() {
    let aux = "\\bibcite{good}{{1}{1999}{{Doe}}{{}}}\n\\bibcite{bad}{{1}}\nnoise line\n\\bibcite{also}{{2}{2005}{{Roe et~al.}}{{}}}\n";
    let table = cite_label(aux);
    assert_eq!(table.len(), 2);
    let (author, year) = table.get("good").expect("well-formed line kept");
    assert_eq!(author.as_str(), "Doe");
    assert_eq!(year.as_str(), "1999");
    let (author, year) = table.get("also").expect("line after the bad one kept");
    assert_eq!(author.as_str(), "Roe et al.");
    assert_eq!(year.as_str(), "2005");
    assert!(table.get("bad").is_none());
}

#[test]
fn parses_reference_line() {
    let aux = "\\newlabel{fig:ohio-map}{{7}{15}}\n\\newlabel{sec:intro}{{1.2}{3}}\n";
    let table = ref_label(aux);
    assert_eq!(table.get("fig:ohio-map").map(|s| s.as_str()), Some("7"));
    assert_eq!(table.get("sec:intro").map(|s| s.as_str()), Some("1.2"));
}

#[test]
fn malformed_ref_lines_are_skipped_without_harm() {
    let aux = "\\newlabel{orphan}\n\\newlabel{kept}{{4}{9}}\n";
    let table = ref_label(aux);
    assert!(table.get("orphan").is_none());
    assert_eq!(table.get("kept").map(|s| s.as_str()), Some("4"));
    assert_eq!(table.len(), 1);
}

#[test]
fn empty_metadata_yields_empty_tables() {
    assert_eq!(cite_label("").len(), 0);
    assert_eq!(ref_label("").len(), 0);
}

#[test]
fn crlf_lines_are_accepted() {
    let aux = "\\newlabel{win}{{2}{2}}\r\n";
    let table = ref_label(aux);
    assert_eq!(table.get("win").map(|s| s.as_str()), Some("2"));
}
