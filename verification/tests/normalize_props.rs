use audiobook_pipeline::normalize::normalize;

#[test]
fn abbreviation_expansion_scenario() {
    let out = normalize("Dr. Smith met Mrs. Jones.", true);
    assert_eq!(out, "Doctor Smith met Missus Jones.");
}

#[test]
fn expands_every_table_entry() {
    assert_eq!(normalize("Mr. A", true), "Mister A");
    assert_eq!(normalize("Mrs. A", true), "Missus A");
    assert_eq!(normalize("Prof. A", true), "Professor A");
    assert_eq!(normalize("St. A", true), "Saint A");
    assert_eq!(normalize("a vs. b", true), "a versus b");
    assert_eq!(normalize("x etc.", true), "x etcetera");
    assert_eq!(normalize("x i.e. y", true), "x that is y");
    assert_eq!(normalize("x e.g. y", true), "x for example y");
}

#[test]
fn abbreviation_needs_boundaries() {
    // inside a longer word nothing is expanded
    assert_eq!(normalize("Mrs. Mister", true), "Missus Mister");
    assert_eq!(normalize("xSt. y", true), "xSt. y");
}

#[test]
fn non_aggressive_keeps_abbreviations() {
    assert_eq!(normalize("Dr. Smith met Mrs. Jones.", false), "Dr. Smith met Mrs. Jones.");
}

#[test]
fn entities_become_spaces() {
    assert_eq!(normalize("a&nbsp;b", false), "a b");
    assert_eq!(normalize("x&#160;y", false), "x y");
    // a bare ampersand stays
    assert_eq!(normalize("a & b", false), "a & b");
}

#[test]
fn whitespace_collapses() {
    assert_eq!(normalize("a \t\n  b", false), "a b");
    assert_eq!(normalize("  x  ", false), "x");
}

#[test]
fn stray_scan_artifacts_fixed() {
    assert_eq!(normalize("a l b", false), "a I b");
    assert_eq!(normalize("a O b", false), "a 0 b");
    // inside words nothing changes
    assert_eq!(normalize("blob Olympic", false), "blob Olympic");
}

#[test]
fn page_references_removed() {
    assert_eq!(normalize("text Page 12 more", false), "text  more");
    assert_eq!(normalize("text page 7 more", false), "text  more");
}

#[test]
fn number_ranges_removed() {
    assert_eq!(normalize("pages 12-14 end", false), "pages  end");
    assert_eq!(normalize("pages 12 \u{2013} 14 end", false), "pages  end");
}

#[test]
fn glyphs_unified() {
    assert_eq!(normalize("\u{201C}hi\u{201D} \u{2014} ok", false), "\"hi\" - ok");
    assert_eq!(normalize("`x' and \u{2018}y\u{2019}", false), "\"x' and \"y\"");
}

#[test]
fn long_ellipsis_collapsed() {
    assert_eq!(normalize("wait.....", false), "wait...");
    assert_eq!(normalize("so... it stays", false), "so... it stays");
}

#[test]
fn punctuation_spacing_normalized() {
    assert_eq!(normalize("word ,  next", false), "word, next");
    assert_eq!(normalize("a ; b : c", false), "a; b: c");
}

#[test]
fn sentence_gap_inserted() {
    assert_eq!(normalize("End.Next", true), "End. Next");
    assert_eq!(normalize("Stop!Go", true), "Stop! Go");
}

#[test]
fn hyphenation_repaired() {
    assert_eq!(normalize("beau- tiful day", true), "beautiful day");
    // a hyphen with no following word part stays
    assert_eq!(normalize("twenty-one", true), "twenty-one");
}
