use paradiff::commands::{CiteFallback, LatexCmd};
use paradiff::table::{CiteTable, StrMap};

fn sample_tables() -> (CiteTable, StrMap) {
    let mut cites = CiteTable::new();
    cites.insert("a".to_string(), "AuthorA".to_string(), "YearA".to_string());
    cites.insert("b".to_string(), "AuthorB".to_string(), "YearB".to_string());
    let mut refs = StrMap::new();
    refs.insert("fig:x".to_string(), "7".to_string());
    (cites, refs)
}

#[test]
fn cite_renders_author_year_pairs() {
    let (cites, refs) = sample_tables();
    let engine = LatexCmd::new(&cites, &refs);
    let out = engine.substitute("\\cite{a,b}");
    assert_eq!(out.as_str(), "(AuthorA (YearA), AuthorB (YearB))");
}

#[test]
fn citep_renders_with_semicolons() {
    let (cites, refs) = sample_tables();
    let engine = LatexCmd::new(&cites, &refs);
    let out = engine.substitute("\\citep{a,b}");
    assert_eq!(out.as_str(), "(AuthorA, YearA; AuthorB, YearB)");
}

#[test]
fn unmatched_cite_key_falls_back_to_raw_key() {
    let (cites, refs) = sample_tables();
    let engine = LatexCmd::new(&cites, &refs);
    assert_eq!(engine.substitute("\\cite{zz}").as_str(), "(zz)");
    assert_eq!(engine.substitute("\\cite{a,zz}").as_str(), "(AuthorA (YearA), zz)");
}

#[test]
fn unmatched_cite_key_can_be_dropped() {
    let (cites, refs) = sample_tables();
    let engine = LatexCmd::new(&cites, &refs).with_fallback(CiteFallback::DropKey);
    assert_eq!(engine.substitute("\\cite{a,zz}").as_str(), "(AuthorA (YearA))");
    assert_eq!(engine.substitute("\\cite{zz}").as_str(), "()");
}

#[test]
fn ref_resolves_or_passes_through() {
    let (cites, refs) = sample_tables();
    let engine = LatexCmd::new(&cites, &refs);
    assert_eq!(engine.substitute("see \\ref{fig:x}.").as_str(), "see 7.");
    assert_eq!(engine.substitute("see \\ref{fig:y}.").as_str(), "see fig:y.");
}

#[test]
fn texttt_and_url_render_their_constructs() {
    let (cites, refs) = sample_tables();
    let engine = LatexCmd::new(&cites, &refs);
    assert_eq!(engine.substitute("\\texttt{code}").as_str(), "`code`");
    assert_eq!(
        engine.substitute("\\url{http://example.org}").as_str(),
        "#link(\"http://example.org\")"
    );
}

#[test]
fn unknown_command_uses_generic_fallback() {
    let (cites, refs) = sample_tables();
    let engine = LatexCmd::new(&cites, &refs);
    assert_eq!(engine.substitute("\\foo{bar}").as_str(), "#foo()[bar]");
}

#[test]
fn unrecognized_shapes_stay_verbatim() {
    let (cites, refs) = sample_tables();
    let engine = LatexCmd::new(&cites, &refs);
    // empty argument: the argument must be non-empty
    assert_eq!(engine.substitute("\\a{}").as_str(), "\\a{}");
    // no closing brace
    assert_eq!(engine.substitute("\\a{open").as_str(), "\\a{open");
    // a newline may not stand inside the argument
    assert_eq!(engine.substitute("\\cmd{ab\ncd}").as_str(), "\\cmd{ab\ncd}");
    // a bare backslash is not a command
    assert_eq!(engine.substitute("plain \\ text").as_str(), "plain \\ text");
}

#[test]
fn shortest_argument_is_taken() {
    let (cites, refs) = sample_tables();
    let engine = LatexCmd::new(&cites, &refs);
    // the argument is the shortest non-empty run before a closing brace,
    // so a closing brace can stand as its first character
    assert_eq!(engine.substitute("\\a{}}").as_str(), "#a()[}]");
    assert_eq!(engine.substitute("\\a{bc}d}").as_str(), "#a()[bc]d}");
}

#[test]
fn several_commands_in_one_text() {
    let (cites, refs) = sample_tables();
    let engine = LatexCmd::new(&cites, &refs);
    let out = engine.substitute("As \\cite{a} shows (\\ref{fig:x}), \\texttt{run} it.");
    assert_eq!(out.as_str(), "As (AuthorA (YearA)) shows (7), `run` it.");
}
