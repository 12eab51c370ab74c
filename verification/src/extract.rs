//! Chapter extraction: each section of the document's reading order is
//! turned into plain text, normalized, and kept as a titled chapter when
//! any text remains. The title is the first heading found in the section's
//! markup, else a numbered label; the section's position in the reading
//! order is the chapter's stable order.

use vstd::prelude::*;
use vstd::string::*;
use crate::config::Config;
use crate::textutil::{words, chars_of, string_of, trim_chars, trimmed, lemma_words_head};
use crate::normalize::{normalize_spec, normalize};
use crate::naming::{dec_chars, u64_to_dec, chapter_dir_spec, chunk_file_spec};
use crate::chunk::{chunks_of, append_chars, copy_range};

verus! {

/// What the HTML-to-text conversion of a section yields, wrapped to the
/// given column width; determined by the markup and the width alone.
pub uninterp spec fn html_to_text(html: Seq<char>, width: int) -> Seq<char>;

/// One character, compared against a letter in either case.
pub open spec fn ci(c: char, lo: char, up: char) -> bool {
    c == lo || c == up
}

fn ci_char(c: char, lo: char, up: char) -> (r: bool)
    ensures
        r == ci(c, lo, up),
{
    c == lo || c == up
}

/// A `table` element can open at `i`.
pub open spec fn table_tag_at(s: Seq<char>, i: int) -> bool {
    &&& 0 <= i
    &&& i + 6 <= s.len()
    &&& s[i] == '<'
    &&& ci(s[i + 1], 't', 'T')
    &&& ci(s[i + 2], 'a', 'A')
    &&& ci(s[i + 3], 'b', 'B')
    &&& ci(s[i + 4], 'l', 'L')
    &&& ci(s[i + 5], 'e', 'E')
}

/// A `blockquote` element can open at `i`.
pub open spec fn blockquote_tag_at(s: Seq<char>, i: int) -> bool {
    &&& 0 <= i
    &&& i + 11 <= s.len()
    &&& s[i] == '<'
    &&& ci(s[i + 1], 'b', 'B')
    &&& ci(s[i + 2], 'l', 'L')
    &&& ci(s[i + 3], 'o', 'O')
    &&& ci(s[i + 4], 'c', 'C')
    &&& ci(s[i + 5], 'k', 'K')
    &&& ci(s[i + 6], 'q', 'Q')
    &&& ci(s[i + 7], 'u', 'U')
    &&& ci(s[i + 8], 'o', 'O')
    &&& ci(s[i + 9], 't', 'T')
    &&& ci(s[i + 10], 'e', 'E')
}

/// A `ul` element can open at `i`.
pub open spec fn ul_tag_at(s: Seq<char>, i: int) -> bool {
    &&& 0 <= i
    &&& i + 3 <= s.len()
    &&& s[i] == '<'
    &&& ci(s[i + 1], 'u', 'U')
    &&& ci(s[i + 2], 'l', 'L')
}

/// An `ol` element can open at `i`.
pub open spec fn ol_tag_at(s: Seq<char>, i: int) -> bool {
    &&& 0 <= i
    &&& i + 3 <= s.len()
    &&& s[i] == '<'
    &&& ci(s[i + 1], 'o', 'O')
    &&& ci(s[i + 2], 'l', 'L')
}

/// A `dd` element can open at `i`.
pub open spec fn dd_tag_at(s: Seq<char>, i: int) -> bool {
    &&& 0 <= i
    &&& i + 3 <= s.len()
    &&& s[i] == '<'
    &&& ci(s[i + 1], 'd', 'D')
    &&& ci(s[i + 2], 'd', 'D')
}

/// Markup whose rendering narrows the layout width or divides by a cell
/// span can open at `i`. These elements require their literal tag name in
/// the text, so text without these openings parses to a document without
/// them.
pub open spec fn narrowing_markup_at(s: Seq<char>, i: int) -> bool {
    table_tag_at(s, i) || blockquote_tag_at(s, i) || ul_tag_at(s, i) || ol_tag_at(s, i)
        || dd_tag_at(s, i)
}

/// No table, blockquote, list or definition-description element can open
/// anywhere in the text.
pub open spec fn markup_tamed(s: Seq<char>) -> bool {
    forall|i: int| !narrowing_markup_at(s, i)
}

/// The text with every such element opening disarmed: the `<` of the
/// opening becomes a space, so the converter sees no table to divide by a
/// cell span and no quote or list nesting to narrow its width by. All
/// other markup and all text content pass through unchanged.
pub open spec fn tame_markup(s: Seq<char>) -> Seq<char> {
    Seq::new(
        s.len(),
        |i: int|
            if narrowing_markup_at(s, i) {
                ' '
            } else {
                s[i]
            },
    )
}

proof fn lemma_tame_keeps(s: Seq<char>, k: int)
    requires
        0 <= k < s.len(),
        tame_markup(s)[k] != ' ',
    ensures
        tame_markup(s)[k] == s[k],
        !narrowing_markup_at(s, k),
{
}

/// Disarming leaves nothing to disarm: the rewritten text has no opening
/// of the excluded elements.
pub proof fn lemma_tame_markup_tamed(s: Seq<char>)
    ensures
        markup_tamed(tame_markup(s)),
{
    let t = tame_markup(s);
    assert forall|i: int| !narrowing_markup_at(t, i) by {
        if narrowing_markup_at(t, i) {
            assert(t[i] == '<');
            lemma_tame_keeps(s, i);
            if table_tag_at(t, i) {
                lemma_tame_keeps(s, i + 1);
                lemma_tame_keeps(s, i + 2);
                lemma_tame_keeps(s, i + 3);
                lemma_tame_keeps(s, i + 4);
                lemma_tame_keeps(s, i + 5);
                assert(table_tag_at(s, i));
            } else if blockquote_tag_at(t, i) {
                lemma_tame_keeps(s, i + 1);
                lemma_tame_keeps(s, i + 2);
                lemma_tame_keeps(s, i + 3);
                lemma_tame_keeps(s, i + 4);
                lemma_tame_keeps(s, i + 5);
                lemma_tame_keeps(s, i + 6);
                lemma_tame_keeps(s, i + 7);
                lemma_tame_keeps(s, i + 8);
                lemma_tame_keeps(s, i + 9);
                lemma_tame_keeps(s, i + 10);
                assert(blockquote_tag_at(s, i));
            } else {
                lemma_tame_keeps(s, i + 1);
                lemma_tame_keeps(s, i + 2);
                assert(ul_tag_at(s, i) || ol_tag_at(s, i) || dd_tag_at(s, i));
            }
        }
    }
}

fn narrowing_at(v: &Vec<char>, i: usize) -> (r: bool)
    requires
        i < v@.len(),
    ensures
        r == narrowing_markup_at(v@, i as int),
{
    let n = v.len();
    if v[i] != '<' {
        return false;
    }
    if n - i >= 6 && ci_char(v[i + 1], 't', 'T') && ci_char(v[i + 2], 'a', 'A') && ci_char(
        v[i + 3],
        'b',
        'B',
    ) && ci_char(v[i + 4], 'l', 'L') && ci_char(v[i + 5], 'e', 'E') {
        return true;
    }
    if n - i >= 11 && ci_char(v[i + 1], 'b', 'B') && ci_char(v[i + 2], 'l', 'L') && ci_char(
        v[i + 3],
        'o',
        'O',
    ) && ci_char(v[i + 4], 'c', 'C') && ci_char(v[i + 5], 'k', 'K') && ci_char(v[i + 6], 'q', 'Q')
        && ci_char(v[i + 7], 'u', 'U') && ci_char(v[i + 8], 'o', 'O') && ci_char(v[i + 9], 't', 'T')
        && ci_char(v[i + 10], 'e', 'E') {
        return true;
    }
    if n - i >= 3 && ci_char(v[i + 1], 'u', 'U') && ci_char(v[i + 2], 'l', 'L') {
        return true;
    }
    if n - i >= 3 && ci_char(v[i + 1], 'o', 'O') && ci_char(v[i + 2], 'l', 'L') {
        return true;
    }
    if n - i >= 3 && ci_char(v[i + 1], 'd', 'D') && ci_char(v[i + 2], 'd', 'D') {
        return true;
    }
    false
}

/// Disarms the excluded element openings in a section's markup.
fn tame_markup_chars(v: &Vec<char>) -> (r: Vec<char>)
    ensures
        r@ == tame_markup(v@),
{
    let n = v.len();
    let mut r: Vec<char> = Vec::new();
    let mut i: usize = 0;
    while i < n
        invariant
            i <= n,
            n == v@.len(),
            r@.len() == i,
            forall|j: int| 0 <= j < i ==> r@[j] == tame_markup(v@)[j],
        decreases n - i,
    {
        if narrowing_at(v, i) {
            r.push(' ');
        } else {
            r.push(v[i]);
        }
        i = i + 1;
    }
    proof {
        assert(r@ =~= tame_markup(v@));
    }
    r
}

/// Relies on html2text's `from_read` at the fixed 80-column width: plain
/// text extracted from HTML, a function of the input text alone. The
/// precondition excludes the markup on which this version of the renderer
/// does not return normally: a table cell's size is divided by its
/// `colspan` (zero divides), and each nested quote, list or
/// definition-description level subtracts its prefix from the width
/// (deep nesting underflows). The callers disarm such markup first.
#[verifier::external_body]
fn html_to_plain(html: &str) -> (r: String)
    requires
        markup_tamed(html@),
    ensures
        r@ == html_to_text(html@, 80),
{
    html2text::from_read(html.as_bytes(), 80)
}

/// A heading level digit.
pub open spec fn is_h_digit(c: char) -> bool {
    c == '1' || c == '2' || c == '3'
}

fn h_digit_char(c: char) -> (r: bool)
    ensures
        r == is_h_digit(c),
{
    c == '1' || c == '2' || c == '3'
}

/// Position of the first `>` at or after `i`, or the length.
pub open spec fn gt_end(s: Seq<char>, i: int) -> int
    decreases s.len() - i,
    when 0 <= i <= s.len()
{
    if i == s.len() || s[i] == '>' {
        i
    } else {
        gt_end(s, i + 1)
    }
}

/// Position of the first `<` at or after `i`, or the length.
pub open spec fn lt_end(s: Seq<char>, i: int) -> int
    decreases s.len() - i,
    when 0 <= i <= s.len()
{
    if i == s.len() || s[i] == '<' {
        i
    } else {
        lt_end(s, i + 1)
    }
}

pub proof fn lemma_lt_end(s: Seq<char>, i: int)
    requires
        0 <= i <= s.len(),
    ensures
        i <= lt_end(s, i) <= s.len(),
        forall|j: int| i <= j < lt_end(s, i) ==> s[j] != '<',
    decreases s.len() - i,
{
    if i < s.len() && s[i] != '<' {
        lemma_lt_end(s, i + 1);
    }
}

/// A heading element (`<h1>`–`<h3>` with any attributes, text content, and
/// a closing heading tag) starts at `i`.
pub open spec fn heading_at(s: Seq<char>, i: int) -> bool {
    &&& 0 <= i
    &&& i + 3 <= s.len()
    &&& s[i] == '<'
    &&& s[i + 1] == 'h'
    &&& is_h_digit(s[i + 2])
    &&& {
        let g = gt_end(s, i + 3);
        &&& g < s.len()
        &&& {
            let t = lt_end(s, g + 1);
            &&& t > g + 1
            &&& t + 5 <= s.len()
            &&& s[t + 1] == '/'
            &&& s[t + 2] == 'h'
            &&& is_h_digit(s[t + 3])
            &&& s[t + 4] == '>'
        }
    }
}

/// The heading's text content: what stands between the opening tag's `>`
/// and the closing tag's `<`.
pub open spec fn heading_text(s: Seq<char>, i: int) -> Seq<char> {
    let g = gt_end(s, i + 3);
    s.subrange(g + 1, lt_end(s, g + 1))
}

/// Position of the first heading at or after `i`, or -1.
pub open spec fn first_heading_from(s: Seq<char>, i: int) -> int
    decreases s.len() - i,
    when 0 <= i <= s.len()
{
    if i >= s.len() {
        -1
    } else if heading_at(s, i) {
        i
    } else {
        first_heading_from(s, i + 1)
    }
}

fn scan_to_gt(v: &Vec<char>, i: usize) -> (r: usize)
    requires
        i <= v@.len(),
    ensures
        r == gt_end(v@, i as int),
        i <= r <= v@.len(),
{
    let n = v.len();
    let mut j = i;
    while j < n && v[j] != '>'
        invariant
            i <= j <= n,
            n == v@.len(),
            gt_end(v@, i as int) == gt_end(v@, j as int),
        decreases n - j,
    {
        j = j + 1;
    }
    j
}

fn scan_to_lt(v: &Vec<char>, i: usize) -> (r: usize)
    requires
        i <= v@.len(),
    ensures
        r == lt_end(v@, i as int),
        i <= r <= v@.len(),
{
    let n = v.len();
    let mut j = i;
    while j < n && v[j] != '<'
        invariant
            i <= j <= n,
            n == v@.len(),
            lt_end(v@, i as int) == lt_end(v@, j as int),
        decreases n - j,
    {
        j = j + 1;
    }
    j
}

/// The title of a section: the first heading's text handed through the
/// HTML-to-text conversion and trimmed, or the numbered label when the
/// section has no heading.
pub open spec fn title_spec(html: Seq<char>, order: int) -> Seq<char> {
    let h = first_heading_from(html, 0);
    if h >= 0 {
        trimmed(html_to_text(heading_text(html, h), 80))
    } else {
        "Chapter "@ + dec_chars(order + 1)
    }
}

/// Extracts the title of one section.
fn extract_title(v: &Vec<char>, order: u64) -> (r: String)
    requires
        order < u64::MAX,
    ensures
        r@ == title_spec(v@, order as int),
{
    let n = v.len();
    let mut i: usize = 0;
    while i < n
        invariant
            i <= n,
            n == v@.len(),
            first_heading_from(v@, 0) == first_heading_from(v@, i as int),
        decreases n - i,
    {
        let mut found = false;
        let mut cap_lo: usize = 0;
        let mut cap_hi: usize = 0;
        if v[i] == '<' && n - i >= 3 && v[i + 1] == 'h' && h_digit_char(v[i + 2]) {
            let g = scan_to_gt(v, i + 3);
            if g < n {
                let t = scan_to_lt(v, g + 1);
                if t > g + 1 && n - t >= 5 && v[t + 1] == '/' && v[t + 2] == 'h' && h_digit_char(
                    v[t + 3],
                ) && v[t + 4] == '>' {
                    found = true;
                    cap_lo = g + 1;
                    cap_hi = t;
                }
            }
        }
        if found {
            proof {
                assert(heading_at(v@, i as int));
                assert(first_heading_from(v@, i as int) == i);
            }
            let cap = copy_range(v, cap_lo, cap_hi);
            proof {
                assert(cap@ =~= heading_text(v@, i as int));
                // the captured text stops before the first `<`, so it
                // holds none of the excluded element openings
                lemma_lt_end(v@, cap_lo as int);
                assert(forall|x: int| 0 <= x < cap@.len() ==> cap@[x] != '<');
                assert(markup_tamed(cap@));
            }
            let plain = html_to_plain(string_of(&cap).as_str());
            let pv = chars_of(plain.as_str());
            let t = trim_chars(&pv);
            return string_of(&t);
        }
        proof {
            assert(!heading_at(v@, i as int));
        }
        i = i + 1;
    }
    let mut label = chars_of("Chapter ");
    let digits = u64_to_dec(order + 1);
    append_chars(&mut label, &digits);
    proof {
        assert(first_heading_from(v@, n as int) == -1);
        assert(label@ =~= title_spec(v@, order as int));
    }
    string_of(&label)
}

/// One chapter of the document: title, normalized text, spine position,
/// and the word count of the normalized text.
pub struct Chapter {
    pub title: String,
    pub content: String,
    pub order: usize,
    pub word_count: usize,
}

/// What one section contributes: its markup disarmed, converted to plain
/// text, and normalized.
pub open spec fn content_spec(html: Seq<char>, aggressive: bool) -> Seq<char> {
    normalize_spec(html_to_text(tame_markup(html), 80), aggressive)
}

/// The chapters of the sections from `i` on: one per section whose
/// normalized text is non-empty, as (title, content, order, word count).
pub open spec fn chapters_from(secs: Seq<Seq<char>>, i: int, aggressive: bool) -> Seq<
    (Seq<char>, Seq<char>, int, int),
>
    decreases secs.len() - i,
    when 0 <= i <= secs.len()
{
    if i >= secs.len() {
        Seq::empty()
    } else {
        let content = content_spec(secs[i], aggressive);
        let rest = chapters_from(secs, i + 1, aggressive);
        if content.len() > 0 {
            seq![(title_spec(secs[i], i), content, i, words(content).len() as int)] + rest
        } else {
            rest
        }
    }
}

/// The chapters of a whole document.
pub open spec fn chapters_of(secs: Seq<Seq<char>>, aggressive: bool) -> Seq<
    (Seq<char>, Seq<char>, int, int),
> {
    chapters_from(secs, 0, aggressive)
}

/// The number of whitespace-separated words.
fn count_words(v: &Vec<char>) -> (r: usize)
    ensures
        r == words(v@).len(),
{
    let n = v.len();
    let mut cnt: usize = 0;
    let mut i: usize = n;
    proof {
        assert(v@.skip(n as int) =~= Seq::<char>::empty());
    }
    while i > 0
        invariant
            i <= n,
            n == v@.len(),
            cnt == words(v@.skip(i as int)).len(),
            cnt <= n - i,
        decreases i,
    {
        i = i - 1;
        proof {
            assert(v@.skip(i as int)[0] == v@[i as int]);
            assert(v@.skip(i as int).skip(1) =~= v@.skip(i + 1));
        }
        if !crate::textutil::space_char(v[i]) {
            let next_space = i + 1 == n || crate::textutil::space_char(v[i + 1]);
            if next_space {
                cnt = cnt + 1;
            } else {
                proof {
                    lemma_words_head(v@.skip(i + 1));
                }
            }
        }
    }
    proof {
        assert(v@.skip(0) =~= v@);
    }
    cnt
}

/// Turns the document's sections, in reading order, into the ordered
/// chapter sequence: each section's text is extracted and normalized, a
/// title is found or synthesized, and sections left empty by cleaning are
/// dropped rather than kept as empty chapters.
pub fn extract_chapters(sections: &Vec<String>, aggressive: bool) -> (r: Vec<Chapter>)
    ensures
        r@.len() == chapters_of(sections.deep_view(), aggressive).len(),
        forall|k: int|
            0 <= k < r@.len() ==> {
                let c = chapters_of(sections.deep_view(), aggressive)[k];
                (#[trigger] r@[k]).title@ == c.0 && r@[k].content@ == c.1 && r@[k].order == c.2
                    && r@[k].word_count == c.3
            },
{
    let ghost secs = sections.deep_view();
    let n = sections.len();
    proof {
        assert(secs.len() == n);
        assert(forall|k: int| 0 <= k < n ==> secs[k] == sections@[k]@);
    }
    let mut r: Vec<Chapter> = Vec::new();
    let mut i: usize = 0;
    let ghost target = chapters_of(secs, aggressive);
    proof {
        assert(r@.map_values(|c: Chapter| (c.title@, c.content@, c.order as int, c.word_count as int))
            + chapters_from(secs, 0, aggressive) =~= target);
    }
    while i < n
        invariant
            i <= n,
            n == sections@.len(),
            secs == sections.deep_view(),
            secs.len() == n,
            forall|k: int| 0 <= k < n ==> secs[k] == sections@[k]@,
            target == chapters_of(secs, aggressive),
            r@.map_values(
                |c: Chapter| (c.title@, c.content@, c.order as int, c.word_count as int),
            ) + chapters_from(secs, i as int, aggressive) =~= target,
        decreases n - i,
    {
        let section = &sections[i];
        let sv = chars_of(section.as_str());
        let tamed = tame_markup_chars(&sv);
        proof {
            lemma_tame_markup_tamed(sv@);
        }
        let tame_s = string_of(&tamed);
        let plain = html_to_plain(tame_s.as_str());
        let content = normalize(plain.as_str(), aggressive);
        let cv = chars_of(content.as_str());
        let ghost r0 = r@;
        if cv.len() > 0 {
            let title = extract_title(&sv, i as u64);
            let wc = count_words(&cv);
            r.push(Chapter { title, content, order: i, word_count: wc });
            proof {
                assert(r@ =~= r0.push(r@[r@.len() - 1]));
            }
        }
        i = i + 1;
        proof {
            let m = |c: Chapter| (c.title@, c.content@, c.order as int, c.word_count as int);
            assert(r@.map_values(m) + chapters_from(secs, i as int, aggressive) =~= target);
        }
    }
    proof {
        assert(chapters_from(secs, n as int, aggressive) =~= Seq::<
            (Seq<char>, Seq<char>, int, int),
        >::empty());
        let m = |c: Chapter| (c.title@, c.content@, c.order as int, c.word_count as int);
        assert(r@.map_values(m) =~= target);
        assert forall|k: int| 0 <= k < r@.len() implies {
            let c = chapters_of(sections.deep_view(), aggressive)[k];
            (#[trigger] r@[k]).title@ == c.0 && r@[k].content@ == c.1 && r@[k].order == c.2
                && r@[k].word_count == c.3
        } by {
            assert(r@.map_values(m)[k] == m(r@[k]));
        }
    }
    r
}

/// The planned output of one chapter: its directory name and the file
/// name of each of its segments.
pub open spec fn chapter_layout(
    c: (Seq<char>, Seq<char>, int, int),
    ext: Seq<char>,
    max: int,
) -> (Seq<char>, Seq<Seq<char>>) {
    (
        chapter_dir_spec(c.2, c.0),
        Seq::new(chunks_of(c.1, max).len(), |j: int| chunk_file_spec(j, c.0, ext)),
    )
}

/// The planned output layout of a whole run: for each kept chapter, its
/// directory and segment file names, fixed by document and configuration.
pub open spec fn run_layout(secs: Seq<Seq<char>>, cfg: Config) -> Seq<(Seq<char>, Seq<Seq<char>>)> {
    let chapters = chapters_of(secs, cfg.preprocessing_aggressive);
    Seq::new(
        chapters.len(),
        |k: int|
            chapter_layout(
                chapters[k],
                cfg.output_format.extension_spec(),
                cfg.chunk_size as int,
            ),
    )
}

/// Running the pipeline twice on the same document and configuration
/// plans the identical directory structure and file names: the layout is
/// a function of the sections and the configuration and of nothing else.
pub proof fn lemma_run_layout_deterministic(
    s1: Seq<Seq<char>>,
    c1: Config,
    s2: Seq<Seq<char>>,
    c2: Config,
)
    requires
        s1 == s2,
        c1 == c2,
    ensures
        run_layout(s1, c1) == run_layout(s2, c2),
{
}

} // verus!
