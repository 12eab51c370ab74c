//! Per-chapter planning: everything one worker must produce for a chapter
//! — its directory name, its segments with their file names and cache
//! keys, and its metadata record — computed up front as a pure function of
//! the chapter and the configuration. The worker then only performs the
//! planned synthesis and encoding calls, in segment order.

use vstd::prelude::*;
use vstd::utf8::encode_utf8;
use crate::config::Config;
use crate::extract::Chapter;
use crate::naming::{chapter_dir_name, chunk_file_name, chapter_dir_spec, chunk_file_spec};
use crate::chunk::{split_into_chunks, chunks_of};
use crate::cachekey::{cache_key, cache_key_spec};

verus! {

/// One planned segment: its stable file name, the text to synthesize, and
/// the content-addressed key its waveform is cached under.
pub struct SegmentPlan {
    pub file_name: String,
    pub text: String,
    pub key: String,
}

/// Everything one chapter's worker produces, fixed before any external
/// call is made.
pub struct ChapterPlan {
    pub dir_name: String,
    pub segments: Vec<SegmentPlan>,
    pub metadata: String,
}

/// Plans one chapter: the directory name from order and title, one
/// segment per chunk of the content in source order — each with its
/// zero-padded file name and its cache key over the segment text and the
/// run's voice parameters — and the chapter's metadata record.
pub fn plan_chapter(chapter: &Chapter, cfg: &Config) -> (r: ChapterPlan)
    ensures
        r.dir_name@ == chapter_dir_spec(chapter.order as int, chapter.title@),
        r.segments@.len() == chunks_of(chapter.content@, cfg.chunk_size as int).len(),
        forall|j: int|
            0 <= j < r.segments@.len() ==> {
                let chunks = chunks_of(chapter.content@, cfg.chunk_size as int);
                (#[trigger] r.segments@[j]).text@ == chunks[j] && r.segments@[j].file_name@
                    == chunk_file_spec(j, chapter.title@, cfg.output_format.extension_spec())
                    && r.segments@[j].key@ == cache_key_spec(encode_utf8(chunks[j]), cfg.voice_spec())
            },
        r.metadata@ == crate::meta::metadata_json(
            chapter.title@,
            chapter.order as int,
            chapter.word_count as int,
            chunks_of(chapter.content@, cfg.chunk_size as int).len() as int,
            *cfg,
        ),
{
    let dir_name = chapter_dir_name(chapter.order as u64, chapter.title.as_str());
    let chunks = split_into_chunks(chapter.content.as_str(), cfg.chunk_size);
    let ext = cfg.output_format.extension();
    let vp = cfg.voice();
    let ghost target = chunks_of(chapter.content@, cfg.chunk_size as int);
    proof {
        assert(chunks.deep_view().len() == chunks@.len());
        assert(forall|k: int| 0 <= k < chunks@.len() ==> chunks.deep_view()[k] == chunks@[k]@);
    }
    let n = chunks.len();
    let mut segments: Vec<SegmentPlan> = Vec::new();
    let mut j: usize = 0;
    while j < n
        invariant
            j <= n,
            n == chunks@.len(),
            target == chunks.deep_view(),
            target == chunks_of(chapter.content@, cfg.chunk_size as int),
            forall|k: int| 0 <= k < n ==> target[k] == chunks@[k]@,
            vp == cfg.voice_spec(),
            ext@ == cfg.output_format.extension_spec(),
            segments@.len() == j,
            forall|k: int|
                0 <= k < j ==> (#[trigger] segments@[k]).text@ == target[k]
                    && segments@[k].file_name@ == chunk_file_spec(
                    k,
                    chapter.title@,
                    cfg.output_format.extension_spec(),
                ) && segments@[k].key@ == cache_key_spec(encode_utf8(target[k]), cfg.voice_spec()),
        decreases n - j,
    {
        let text = chunks[j].clone();
        let file_name = chunk_file_name(j as u64, chapter.title.as_str(), ext);
        let key = cache_key(text.as_str(), &vp);
        segments.push(SegmentPlan { file_name, text, key });
        j = j + 1;
    }
    let metadata = crate::meta::metadata_json_string(
        chapter.title.as_str(),
        chapter.order,
        chapter.word_count,
        n,
        cfg,
    );
    ChapterPlan { dir_name, segments, metadata }
}

} // verus!
