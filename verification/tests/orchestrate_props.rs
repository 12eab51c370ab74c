use audiobook_pipeline::orchestrate::{
    extract_number_from_line, next_stage, progress_event, summarize, ChapterOutcome, RunStage,
    SegmentFailure,
};

#[test]
fn partial_failure_reports_success_with_warnings() {
    // three chapters; the second chapter's single chunk failed to
    // synthesize; the run still completes and reports success, with the
    // missing segment recorded as a warning
    let outcomes = vec![
        ChapterOutcome { order: 0, chunks_total: 2, failed_chunks: vec![] },
        ChapterOutcome { order: 1, chunks_total: 1, failed_chunks: vec![0] },
        ChapterOutcome { order: 2, chunks_total: 2, failed_chunks: vec![] },
    ];
    let summary = summarize(&outcomes);
    assert!(summary.success);
    assert_eq!(summary.chapters_completed, 3);
    assert_eq!(summary.warnings, vec![SegmentFailure { chapter_order: 1, chunk_index: 0 }]);
}

#[test]
fn clean_run_has_no_warnings() {
    let outcomes = vec![
        ChapterOutcome { order: 0, chunks_total: 3, failed_chunks: vec![] },
        ChapterOutcome { order: 1, chunks_total: 1, failed_chunks: vec![] },
    ];
    let summary = summarize(&outcomes);
    assert!(summary.success);
    assert_eq!(summary.chapters_completed, 2);
    assert!(summary.warnings.is_empty());
}

#[test]
fn every_failed_chunk_is_listed() {
    let outcomes = vec![
        ChapterOutcome { order: 0, chunks_total: 3, failed_chunks: vec![1, 2] },
        ChapterOutcome { order: 4, chunks_total: 2, failed_chunks: vec![0] },
    ];
    let summary = summarize(&outcomes);
    assert_eq!(
        summary.warnings,
        vec![
            SegmentFailure { chapter_order: 0, chunk_index: 1 },
            SegmentFailure { chapter_order: 0, chunk_index: 2 },
            SegmentFailure { chapter_order: 4, chunk_index: 0 },
        ],
    );
}

#[test]
fn stage_machine_advances_in_order() {
    let s = RunStage::Idle;
    let s = next_stage(s, false);
    assert_eq!(s, RunStage::Extracting);
    let s = next_stage(s, false);
    assert_eq!(s, RunStage::Synthesizing);
    let s = next_stage(s, false);
    assert_eq!(s, RunStage::Writing);
    let s = next_stage(s, false);
    assert_eq!(s, RunStage::Completed);
    assert_eq!(next_stage(s, false), RunStage::Completed);
}

#[test]
fn fatal_moves_to_failed_and_stays() {
    assert_eq!(next_stage(RunStage::Synthesizing, true), RunStage::Failed);
    assert_eq!(next_stage(RunStage::Failed, false), RunStage::Failed);
}

#[test]
fn progress_event_carries_counts() {
    let e = progress_event("Synthesizing", 3, 10, Some(42));
    assert_eq!(e.stage, "Synthesizing");
    assert_eq!(e.chapters_completed, 3);
    assert_eq!(e.chapters_total, 10);
    assert_eq!(e.eta_seconds, Some(42));
}

#[test]
fn extract_number_reads_chapter_count() {
    assert_eq!(extract_number_from_line("Found 12 chapters", "Found", "chapters"), Some(12));
    assert_eq!(extract_number_from_line("ok Found 3 chapters here", "Found", "chapters"), Some(3));
    assert_eq!(extract_number_from_line("Found +7 chapters", "Found", "chapters"), Some(7));
}

#[test]
fn extract_number_rejects_bad_lines() {
    assert_eq!(extract_number_from_line("nothing here", "Found", "chapters"), None);
    assert_eq!(extract_number_from_line("Found x chapters", "Found", "chapters"), None);
    assert_eq!(extract_number_from_line("Found  chapters", "Found", "chapters"), None);
    assert_eq!(
        extract_number_from_line(
            "Found 99999999999999999999999999 chapters",
            "Found",
            "chapters",
        ),
        None,
    );
    assert_eq!(extract_number_from_line("chapters 5 Found", "Found", "chapters"), None);
}
