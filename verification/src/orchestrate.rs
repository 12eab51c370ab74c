//! Run-level decisions of the pipeline: the fatal checks made before any
//! chapter work starts, the per-segment synthesis decision, the run stage
//! machine, the aggregation of per-chapter outcomes into a terminal
//! summary, and the progress events the caller observes.

use vstd::prelude::*;
use vstd::string::*;
use crate::config::AudioFormat;
use crate::tools::{
    SpeechEngine, EncoderKind, EngineAvailability, EncoderAvailability, selected_engine,
    selected_encoder, select_engine, select_encoder,
};
use crate::textutil::{is_digit, chars_of, trim_chars, trimmed, digit_char};
use crate::chunk::copy_range;
use crate::normalize::pattern_at;

verus! {

/// The errors that abort a run before any chapter work begins.
#[derive(Clone, Copy, Debug, PartialEq, Eq, Structural)]
pub enum FatalError {
    /// No speech engine is available in the environment.
    NoSpeechEngine,
    /// No encoder for the requested format is available.
    NoEncoder(AudioFormat),
}

impl FatalError {
    /// The human-readable cause handed to the caller.
    pub fn message(&self) -> (r: &'static str)
        ensures
            self is NoSpeechEngine ==> r@
                == "No TTS engine found. Please install espeak-ng, espeak, or festival"@,
            *self == FatalError::NoEncoder(AudioFormat::Vorbis) ==> r@
                == "No Vorbis encoder found. Please install vorbis-tools or ffmpeg"@,
            *self == FatalError::NoEncoder(AudioFormat::Flac) ==> r@
                == "No FLAC encoder found. Please install flac or ffmpeg"@,
            *self == FatalError::NoEncoder(AudioFormat::Mp3) ==> r@
                == "No MP3 encoder found. Please install lame or ffmpeg"@,
    {
        match self {
            FatalError::NoSpeechEngine => {
                "No TTS engine found. Please install espeak-ng, espeak, or festival"
            },
            FatalError::NoEncoder(AudioFormat::Vorbis) => {
                "No Vorbis encoder found. Please install vorbis-tools or ffmpeg"
            },
            FatalError::NoEncoder(AudioFormat::Flac) => {
                "No FLAC encoder found. Please install flac or ffmpeg"
            },
            FatalError::NoEncoder(AudioFormat::Mp3) => {
                "No MP3 encoder found. Please install lame or ffmpeg"
            },
            FatalError::NoEncoder(AudioFormat::Wav) => "No encoder found",
        }
    }
}

/// The up-front dependency check of one run: with no speech engine at all
/// the run fails before any chapter work, likewise with no encoder for the
/// requested format; otherwise the engine and encoder are fixed for the
/// whole run.
pub fn start_run(eng: &EngineAvailability, enc: &EncoderAvailability, format: AudioFormat) -> (r:
    Result<(SpeechEngine, EncoderKind), FatalError>)
    ensures
        selected_engine(*eng) is None ==> r == Result::<(SpeechEngine, EncoderKind), FatalError>::Err(FatalError::NoSpeechEngine),
        selected_engine(*eng) is Some && selected_encoder(format, *enc) is None ==> r
            == Result::<(SpeechEngine, EncoderKind), FatalError>::Err(FatalError::NoEncoder(format)),
        selected_engine(*eng) is Some && selected_encoder(format, *enc) is Some ==> r
            == Result::<(SpeechEngine, EncoderKind), FatalError>::Ok(
            (selected_engine(*eng)->0, selected_encoder(format, *enc)->0),
        ),
{
    match select_engine(eng) {
        None => Err(FatalError::NoSpeechEngine),
        Some(e) => {
            match select_encoder(format, enc) {
                None => Err(FatalError::NoEncoder(format)),
                Some(k) => Ok((e, k)),
            }
        },
    }
}

/// What to do for one segment, given the run's caching flag and whether
/// its key is already cached.
#[derive(Clone, Copy, Debug, PartialEq, Eq, Structural)]
pub enum SynthesisDecision {
    /// The cached waveform is reused; the engine is not invoked.
    ReuseCached,
    /// The engine runs once and its output is stored under the key.
    SynthesizeAndStore,
    /// Caching is off: the engine runs and the output is ephemeral.
    SynthesizeEphemeral,
}

/// Decides one segment's synthesis. The engine is invoked exactly when
/// the waveform is not already cached or caching is off.
pub fn synthesis_decision(cache_enabled: bool, already_cached: bool) -> (r: SynthesisDecision)
    ensures
        r is ReuseCached <==> (cache_enabled && already_cached),
        r is SynthesizeAndStore <==> (cache_enabled && !already_cached),
        r is SynthesizeEphemeral <==> !cache_enabled,
{
    if cache_enabled {
        if already_cached {
            SynthesisDecision::ReuseCached
        } else {
            SynthesisDecision::SynthesizeAndStore
        }
    } else {
        SynthesisDecision::SynthesizeEphemeral
    }
}

/// The stages a run passes through.
#[derive(Clone, Copy, Debug, PartialEq, Eq, Structural)]
pub enum RunStage {
    Idle,
    Extracting,
    Synthesizing,
    Writing,
    Completed,
    Failed,
}

/// One step of the run's stage machine: a fatal error moves to `Failed`
/// from anywhere; otherwise the stages advance in their fixed order and
/// the terminal stages stay put.
pub fn next_stage(s: RunStage, fatal: bool) -> (r: RunStage)
    ensures
        fatal ==> r is Failed,
        !fatal && s is Idle ==> r is Extracting,
        !fatal && s is Extracting ==> r is Synthesizing,
        !fatal && s is Synthesizing ==> r is Writing,
        !fatal && s is Writing ==> r is Completed,
        !fatal && s is Completed ==> r is Completed,
        !fatal && s is Failed ==> r is Failed,
{
    if fatal {
        RunStage::Failed
    } else {
        match s {
            RunStage::Idle => RunStage::Extracting,
            RunStage::Extracting => RunStage::Synthesizing,
            RunStage::Synthesizing => RunStage::Writing,
            RunStage::Writing => RunStage::Completed,
            RunStage::Completed => RunStage::Completed,
            RunStage::Failed => RunStage::Failed,
        }
    }
}

/// One missing segment: a synthesis or encoding call that exited non-zero.
#[derive(Clone, Copy, Debug, PartialEq, Eq, Structural)]
pub struct SegmentFailure {
    pub chapter_order: usize,
    pub chunk_index: usize,
}

/// What one chapter's worker reports back.
pub struct ChapterOutcome {
    pub order: usize,
    pub chunks_total: usize,
    pub failed_chunks: Vec<usize>,
}

/// The terminal report of a completed run.
pub struct RunSummary {
    pub success: bool,
    pub chapters_completed: usize,
    pub warnings: Vec<SegmentFailure>,
}

/// The failed segments of one chapter.
pub open spec fn chapter_failures(o: ChapterOutcome) -> Seq<SegmentFailure> {
    Seq::new(
        o.failed_chunks@.len(),
        |j: int|
            SegmentFailure { chapter_order: o.order, chunk_index: o.failed_chunks@[j] },
    )
}

/// All failed segments of a run, in chapter report order.
pub open spec fn all_failures(s: Seq<ChapterOutcome>) -> Seq<SegmentFailure>
    decreases s.len(),
{
    if s.len() == 0 {
        Seq::empty()
    } else {
        chapter_failures(s[0]) + all_failures(s.skip(1))
    }
}

proof fn lemma_all_failures_push(s: Seq<ChapterOutcome>, o: ChapterOutcome)
    ensures
        all_failures(s.push(o)) == all_failures(s) + chapter_failures(o),
    decreases s.len(),
{
    if s.len() == 0 {
        assert(s.push(o)[0] == o);
        assert(s.push(o).skip(1) =~= Seq::<ChapterOutcome>::empty());
        assert(all_failures(s.push(o)) == chapter_failures(o) + all_failures(
            s.push(o).skip(1),
        ));
        assert(all_failures(s.push(o).skip(1)).len() == 0);
        assert(all_failures(s.push(o)) =~= chapter_failures(o));
        assert(all_failures(s) + chapter_failures(o) =~= chapter_failures(o));
    } else {
        assert(s.push(o)[0] == s[0]);
        assert(s.push(o).skip(1) =~= s.skip(1).push(o));
        lemma_all_failures_push(s.skip(1), o);
        assert(chapter_failures(s[0]) + (all_failures(s.skip(1)) + chapter_failures(o))
            =~= (chapter_failures(s[0]) + all_failures(s.skip(1))) + chapter_failures(o));
    }
}

/// Aggregates the chapter outcomes of a completed run. Per-segment
/// failures are warnings, never a run failure: the summary reports
/// success, counts every chapter, and lists exactly the failed segments.
pub fn summarize(outcomes: &Vec<ChapterOutcome>) -> (r: RunSummary)
    ensures
        r.success == true,
        r.chapters_completed == outcomes@.len(),
        r.warnings@ == all_failures(outcomes@),
{
    let n = outcomes.len();
    let mut warnings: Vec<SegmentFailure> = Vec::new();
    let mut i: usize = 0;
    proof {
        assert(outcomes@.take(0) =~= Seq::<ChapterOutcome>::empty());
    }
    while i < n
        invariant
            i <= n,
            n == outcomes@.len(),
            warnings@ == all_failures(outcomes@.take(i as int)),
        decreases n - i,
    {
        let o = &outcomes[i];
        let m = o.failed_chunks.len();
        let mut j: usize = 0;
        let ghost w0 = warnings@;
        while j < m
            invariant
                j <= m,
                m == o.failed_chunks@.len(),
                o == outcomes@[i as int],
                warnings@ == w0 + chapter_failures(outcomes@[i as int]).take(j as int),
            decreases m - j,
        {
            warnings.push(
                SegmentFailure { chapter_order: o.order, chunk_index: o.failed_chunks[j] },
            );
            j = j + 1;
            proof {
                assert(warnings@ =~= w0 + chapter_failures(outcomes@[i as int]).take(j as int));
            }
        }
        i = i + 1;
        proof {
            assert(chapter_failures(outcomes@[i - 1]).take(m as int) =~= chapter_failures(
                outcomes@[i - 1],
            ));
            assert(outcomes@.take(i as int) =~= outcomes@.take(i - 1).push(outcomes@[i - 1]));
            lemma_all_failures_push(outcomes@.take(i - 1), outcomes@[i - 1]);
        }
    }
    proof {
        assert(outcomes@.take(n as int) =~= outcomes@);
    }
    RunSummary { success: true, chapters_completed: n, warnings }
}

/// One progress event: a stage description and the chapter counts, plus an
/// optional estimate of the seconds remaining. Best effort: a consumer may
/// miss intermediate events and must only rely on a terminal one arriving.
pub struct ProgressEvent {
    pub stage: String,
    pub chapters_completed: usize,
    pub chapters_total: usize,
    pub eta_seconds: Option<u64>,
}

/// Builds one progress event.
pub fn progress_event(stage: &str, completed: usize, total: usize, eta_seconds: Option<u64>) -> (r:
    ProgressEvent)
    ensures
        r.stage@ == stage@,
        r.chapters_completed == completed,
        r.chapters_total == total,
        r.eta_seconds == eta_seconds,
{
    ProgressEvent { stage: stage.to_owned(), chapters_completed: completed, chapters_total: total, eta_seconds }
}

/// `pat` occurs at position `i`.
pub open spec fn sub_at(s: Seq<char>, i: int, pat: Seq<char>) -> bool {
    0 <= i && i + pat.len() <= s.len() && s.subrange(i, i + pat.len()) == pat
}

/// The first occurrence of `pat` at or after `i`, or -1 when there is
/// none.
pub open spec fn first_sub_from(s: Seq<char>, pat: Seq<char>, i: int) -> int
    decreases s.len() - i,
    when 0 <= i <= s.len()
{
    if sub_at(s, i, pat) {
        i
    } else if i >= s.len() {
        -1
    } else {
        first_sub_from(s, pat, i + 1)
    }
}

proof fn lemma_first_sub_tail(s: Seq<char>, pat: Seq<char>, j: int)
    requires
        0 <= j <= s.len(),
        j + pat.len() > s.len(),
    ensures
        first_sub_from(s, pat, j) == -1,
    decreases s.len() - j,
{
    assert(!sub_at(s, j, pat));
    if j < s.len() {
        lemma_first_sub_tail(s, pat, j + 1);
    }
}

fn find_sub(v: &Vec<char>, pat: &Vec<char>, from: usize) -> (r: Option<usize>)
    requires
        from <= v@.len(),
    ensures
        match r {
            Some(p) => first_sub_from(v@, pat@, from as int) == p && from <= p <= v@.len(),
            None => first_sub_from(v@, pat@, from as int) == -1,
        },
{
    let n = v.len();
    let m = pat.len();
    let mut j = from;
    while n - j >= m
        invariant
            from <= j,
            j <= n,
            n == v@.len(),
            m == pat@.len(),
            first_sub_from(v@, pat@, from as int) == first_sub_from(v@, pat@, j as int),
        decreases n - j,
    {
        if pattern_at(v, j, pat) {
            proof {
                assert(sub_at(v@, j as int, pat@));
            }
            return Some(j);
        }
        proof {
            if pat@.len() == 0 {
                assert(v@.subrange(j as int, j + pat@.len()) =~= pat@);
            }
            assert(!sub_at(v@, j as int, pat@));
        }
        j = j + 1;
    }
    proof {
        lemma_first_sub_tail(v@, pat@, j as int);
    }
    None
}

/// All characters are decimal digits.
pub open spec fn all_digits(s: Seq<char>) -> bool {
    forall|i: int| 0 <= i < s.len() ==> is_digit(s[i])
}

/// The value of a digit string, most significant first.
pub open spec fn digits_val(s: Seq<char>) -> int
    decreases s.len(),
{
    if s.len() == 0 {
        0
    } else {
        digits_val(s.drop_last()) * 10 + (s[s.len() - 1] as int - '0' as int)
    }
}

proof fn lemma_digits_val_nonneg(s: Seq<char>)
    requires
        all_digits(s),
    ensures
        digits_val(s) >= 0,
    decreases s.len(),
{
    if s.len() > 0 {
        assert(all_digits(s.drop_last()));
        lemma_digits_val_nonneg(s.drop_last());
        assert(s[s.len() - 1] as int - '0' as int >= 0);
    }
}

proof fn lemma_digits_val_prefix(s: Seq<char>, i: int)
    requires
        all_digits(s),
        0 <= i <= s.len(),
    ensures
        digits_val(s.take(i)) <= digits_val(s),
    decreases s.len() - i,
{
    if i == s.len() {
        assert(s.take(i) =~= s);
    } else {
        assert(all_digits(s.drop_last()));
        assert(s.drop_last().take(i) =~= s.take(i));
        lemma_digits_val_prefix(s.drop_last(), i);
        lemma_digits_val_nonneg(s.drop_last());
        assert(s[s.len() - 1] as int - '0' as int >= 0);
        assert(digits_val(s) >= digits_val(s.drop_last()));
    }
}

/// What parsing an unsigned number from a digit string yields: an optional
/// leading `+`, then at least one digit, and a value that fits the machine
/// word; anything else is no number.
pub open spec fn parse_body(s: Seq<char>) -> Seq<char> {
    if s.len() > 0 && s[0] == '+' {
        s.skip(1)
    } else {
        s
    }
}

pub open spec fn parse_usize_spec(s: Seq<char>) -> Option<int> {
    let body = parse_body(s);
    if body.len() >= 1 && all_digits(body) && digits_val(body) <= usize::MAX {
        Some(digits_val(body))
    } else {
        None
    }
}

fn parse_usize(v: &Vec<char>) -> (r: Option<usize>)
    ensures
        match r {
            Some(x) => parse_usize_spec(v@) == Some(x as int),
            None => parse_usize_spec(v@) is None,
        },
{
    let n = v.len();
    let start: usize = if n > 0 && v[0] == '+' {
        1
    } else {
        0
    };
    let ghost body = parse_body(v@);
    proof {
        assert(body =~= v@.subrange(start as int, n as int));
    }
    if n == start {
        return None;
    }
    let mut val: usize = 0;
    let mut i = start;
    proof {
        assert(body.take(0) =~= Seq::<char>::empty());
    }
    while i < n
        invariant
            start <= i <= n,
            n == v@.len(),
            body == parse_body(v@),
            body == v@.subrange(start as int, n as int),
            start <= 1,
            val == digits_val(body.take(i - start)),
            all_digits(body.take(i - start)),
        decreases n - i,
    {
        let c = v[i];
        if !digit_char(c) {
            proof {
                assert(body[i - start] == v@[i as int]);
                assert(!is_digit(body[i - start]));
            }
            return None;
        }
        let d: usize = (c as u32 - 48) as usize;
        proof {
            assert(body.take(i - start + 1).drop_last() =~= body.take(i - start));
            assert(body.take(i - start + 1)[i - start] == v@[i as int]);
            assert(d == c as int - '0' as int);
            assert(d <= 9);
        }
        if val > (usize::MAX - d) / 10 {
            proof {
                assert(all_digits(body.take(i - start + 1)));
                assert(digits_val(body.take(i - start + 1)) == val * 10 + d);
                assert(val * 10 + d > usize::MAX);
                // the full value can only be larger, so parsing fails
                if all_digits(body) {
                    lemma_digits_val_prefix(body, i - start + 1);
                    assert(digits_val(body) > usize::MAX);
                }
            }
            return None;
        }
        val = val * 10 + d;
        i = i + 1;
        proof {
            assert(val == digits_val(body.take(i - start)));
        }
    }
    proof {
        assert(body.take(n - start) =~= body);
    }
    Some(val)
}

/// What scanning a progress line yields: the text between the first
/// occurrence of `before` and the first occurrence of `after` at or past
/// it, trimmed and parsed as a number; nothing when either marker is
/// missing, the markers overlap, or no number stands between them.
pub open spec fn extract_number_spec(line: Seq<char>, before: Seq<char>, after: Seq<char>) -> Option<
    int,
> {
    let b = first_sub_from(line, before, 0);
    if b < 0 {
        None
    } else {
        let a = first_sub_from(line, after, b);
        if a < 0 || a < b + before.len() {
            None
        } else {
            parse_usize_spec(trimmed(line.subrange(b + before.len(), a)))
        }
    }
}

/// Reads the number standing between `before` and `after` in a progress
/// line, as the caller's progress display does with lines such as
/// `Found 12 chapters`.
pub fn extract_number_from_line(line: &str, before: &str, after: &str) -> (r: Option<usize>)
    ensures
        match r {
            Some(x) => extract_number_spec(line@, before@, after@) == Some(x as int),
            None => extract_number_spec(line@, before@, after@) is None,
        },
{
    let lv = chars_of(line);
    let bv = chars_of(before);
    let av = chars_of(after);
    let b = match find_sub(&lv, &bv, 0) {
        None => {
            return None;
        },
        Some(b) => b,
    };
    let a = match find_sub(&lv, &av, b) {
        None => {
            return None;
        },
        Some(a) => a,
    };
    if a - b < bv.len() {
        return None;
    }
    let piece = copy_range(&lv, b + bv.len(), a);
    let t = trim_chars(&piece);
    parse_usize(&t)
}

} // verus!
