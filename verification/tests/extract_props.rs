use audiobook_pipeline::config::Config;
use audiobook_pipeline::extract::{extract_chapters, Chapter};
use audiobook_pipeline::pipeline::plan_chapter;

#[test]
fn sections_become_titled_chapters() {
    let sections = vec![
        "<h1>Intro</h1><p>Hello world.</p>".to_string(),
        "<p>Second chapter text.</p>".to_string(),
    ];
    let chapters = extract_chapters(&sections, false);
    assert_eq!(chapters.len(), 2);
    assert_eq!(chapters[0].title, "Intro");
    assert_eq!(chapters[0].order, 0);
    assert!(chapters[0].content.contains("Hello world."));
    assert!(!chapters[0].content.contains('<'));
    // a section without a heading gets a numbered label from its position
    assert_eq!(chapters[1].title, "Chapter 2");
    assert_eq!(chapters[1].order, 1);
    assert!(chapters[1].content.contains("Second chapter text."));
}

#[test]
fn word_count_matches_content() {
    let sections = vec!["<p>one two three four</p>".to_string()];
    let chapters = extract_chapters(&sections, false);
    assert_eq!(chapters.len(), 1);
    assert_eq!(chapters[0].word_count, chapters[0].content.split_whitespace().count());
    assert_eq!(chapters[0].word_count, 4);
}

#[test]
fn empty_sections_are_dropped_but_keep_order() {
    let sections = vec![
        "<p>First.</p>".to_string(),
        "".to_string(),
        "<p>Third.</p>".to_string(),
    ];
    let chapters = extract_chapters(&sections, false);
    assert_eq!(chapters.len(), 2);
    assert_eq!(chapters[0].order, 0);
    // the dropped section still consumes its spine position
    assert_eq!(chapters[1].order, 2);
    assert_eq!(chapters[1].title, "Chapter 3");
}

#[test]
fn zero_colspan_table_is_survived() {
    // a table cell declaring colspan zero must not take the pipeline down;
    // the table markup is disarmed before conversion
    let sections = vec![
        "<p>ok before</p><table><tr><td colspan=\"0\">cell</td></tr></table>".to_string(),
    ];
    let chapters = extract_chapters(&sections, false);
    assert_eq!(chapters.len(), 1);
    assert!(chapters[0].content.contains("ok before"));
}

#[test]
fn deep_quote_nesting_is_survived() {
    // fifty nested quote levels would narrow the render width below zero;
    // the quote markup is disarmed before conversion
    let mut html = String::new();
    for _ in 0..50 {
        html.push_str("<blockquote>");
    }
    html.push_str("deep text");
    let chapters = extract_chapters(&vec![html], false);
    assert_eq!(chapters.len(), 1);
    assert!(chapters[0].content.contains("deep text"));
}

#[test]
fn aggressive_extraction_expands_abbreviations() {
    let sections = vec!["<p>Dr. Smith met Mrs. Jones.</p>".to_string()];
    let chapters = extract_chapters(&sections, true);
    assert_eq!(chapters.len(), 1);
    assert!(chapters[0].content.contains("Doctor Smith met Missus Jones."));
}

#[test]
fn chapter_plan_names_segments_in_order() {
    let chapter = Chapter {
        title: "T".to_string(),
        content: "One. Two.".to_string(),
        order: 1,
        word_count: 3,
    };
    let cfg = Config { chunk_size: 4, ..Config::default() };
    let plan = plan_chapter(&chapter, &cfg);
    assert_eq!(plan.dir_name, "001_T");
    let names: Vec<&str> = plan.segments.iter().map(|s| s.file_name.as_str()).collect();
    assert_eq!(names, vec!["000_T.ogg", "001_T.ogg"]);
    let texts: Vec<&str> = plan.segments.iter().map(|s| s.text.as_str()).collect();
    assert_eq!(texts, vec!["One", "Two."]);
    for s in &plan.segments {
        assert_eq!(s.key.len(), 64);
    }
    assert!(plan.metadata.contains("\"title\":\"T\""));
    assert!(plan.metadata.contains("\"chunks\":2"));
}

#[test]
fn planning_twice_is_identical() {
    // same document and configuration: the planned directory structure,
    // file names and metadata are identical between runs
    let sections = vec![
        "<h2>One</h2><p>First chapter. It has sentences.</p>".to_string(),
        "<p>Second chapter here. More text follows. End.</p>".to_string(),
    ];
    let cfg = Config { chunk_size: 24, ..Config::default() };
    let first: Vec<_> = extract_chapters(&sections, true)
        .iter()
        .map(|c| plan_chapter(c, &cfg))
        .collect();
    let second: Vec<_> = extract_chapters(&sections, true)
        .iter()
        .map(|c| plan_chapter(c, &cfg))
        .collect();
    assert_eq!(first.len(), second.len());
    for (a, b) in first.iter().zip(second.iter()) {
        assert_eq!(a.dir_name, b.dir_name);
        assert_eq!(a.metadata, b.metadata);
        assert_eq!(a.segments.len(), b.segments.len());
        for (x, y) in a.segments.iter().zip(b.segments.iter()) {
            assert_eq!(x.file_name, y.file_name);
            assert_eq!(x.text, y.text);
            assert_eq!(x.key, y.key);
        }
    }
}
