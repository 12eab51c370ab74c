use audiobook_pipeline::playlist::{build_playlist, render_playlist, sort_entries, PlaylistEntry};

fn entry(chapter: usize, chunk: usize, dir: &str, file: &str) -> PlaylistEntry {
    PlaylistEntry {
        chapter_order: chapter,
        chunk_index: chunk,
        dir_name: dir.to_string(),
        file_name: file.to_string(),
    }
}

#[test]
fn playlist_order_ignores_completion_order() {
    // three chapters of two chunks each, reported in a scrambled
    // completion order, as parallel workers would
    let reported = vec![
        entry(1, 0, "001_b", "000_b.ogg"),
        entry(2, 1, "002_c", "001_c.ogg"),
        entry(0, 1, "000_a", "001_a.ogg"),
        entry(2, 0, "002_c", "000_c.ogg"),
        entry(0, 0, "000_a", "000_a.ogg"),
        entry(1, 1, "001_b", "001_b.ogg"),
    ];
    let lines = build_playlist(reported);
    assert_eq!(
        lines,
        vec![
            "#EXTM3U",
            "000_a/000_a.ogg",
            "000_a/001_a.ogg",
            "001_b/000_b.ogg",
            "001_b/001_b.ogg",
            "002_c/000_c.ogg",
            "002_c/001_c.ogg",
        ],
    );
}

#[test]
fn sort_is_by_chapter_then_chunk() {
    let sorted = sort_entries(vec![
        entry(1, 1, "d", "f"),
        entry(0, 2, "d", "f"),
        entry(1, 0, "d", "f"),
        entry(0, 1, "d", "f"),
    ]);
    let keys: Vec<(usize, usize)> =
        sorted.iter().map(|e| (e.chapter_order, e.chunk_index)).collect();
    assert_eq!(keys, vec![(0, 1), (0, 2), (1, 0), (1, 1)]);
}

#[test]
fn playlist_has_header_and_one_line_per_segment() {
    let sorted = vec![entry(0, 0, "000_x", "000_x.wav")];
    let lines = render_playlist(&sorted);
    assert_eq!(lines, vec!["#EXTM3U", "000_x/000_x.wav"]);
}

#[test]
fn empty_run_gives_header_only() {
    assert_eq!(build_playlist(Vec::new()), vec!["#EXTM3U"]);
}
