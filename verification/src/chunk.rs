//! Sentence-aligned chunking: a chapter's text is split at sentence
//! boundaries (terminal `.`, `!` or `?` followed by whitespace) and the
//! sentences are packed greedily into segments of a bounded UTF-8 byte size.
//! A single over-long sentence is still emitted whole; the bound is a soft
//! target. Joining the segments back together preserves the sentence
//! content: no sentence is dropped, duplicated or reordered.

use vstd::prelude::*;
use crate::textutil::{
    is_space, is_sentence_end, space_char, sentence_end_char, chars_of, string_of, trim_chars,
    trimmed, words, join_spaces, wsnorm, flat_words, lemma_words_trimmed, lemma_words_join_cons,
    lemma_words_join_flat, lemma_words_append_sep, lemma_words_trailing_space, lemma_trimmed_edges,
    lemma_words_head, lemma_deep_view_chars,
};

verus! {

/// UTF-8 encoded size of one character.
pub open spec fn char_utf8_len(c: char) -> int {
    if (c as u32) < 0x80 {
        1
    } else if (c as u32) < 0x800 {
        2
    } else if (c as u32) < 0x10000 {
        3
    } else {
        4
    }
}

/// UTF-8 encoded size of a character sequence.
pub open spec fn utf8_len_of(s: Seq<char>) -> int
    decreases s.len(),
{
    if s.len() == 0 {
        0
    } else {
        char_utf8_len(s[0]) + utf8_len_of(s.skip(1))
    }
}

pub proof fn lemma_utf8_len_of_bounds(s: Seq<char>)
    ensures
        s.len() <= utf8_len_of(s) <= 4 * s.len(),
    decreases s.len(),
{
    if s.len() > 0 {
        lemma_utf8_len_of_bounds(s.skip(1));
    }
}

proof fn lemma_utf8_len_of_push(s: Seq<char>, c: char)
    ensures
        utf8_len_of(s.push(c)) == utf8_len_of(s) + char_utf8_len(c),
    decreases s.len(),
{
    if s.len() == 0 {
        assert(s.push(c)[0] == c);
        assert(s.push(c).skip(1) =~= Seq::<char>::empty());
        assert(utf8_len_of(s.push(c)) == char_utf8_len(c) + utf8_len_of(Seq::<char>::empty()));
        assert(utf8_len_of(Seq::<char>::empty()) == 0);
        assert(utf8_len_of(s) == 0);
    } else {
        assert(s.push(c)[0] == s[0]);
        assert(s.push(c).skip(1) =~= s.skip(1).push(c));
        lemma_utf8_len_of_push(s.skip(1), c);
        assert(utf8_len_of(s.push(c)) == char_utf8_len(s[0]) + utf8_len_of(s.skip(1).push(c)));
        assert(utf8_len_of(s) == char_utf8_len(s[0]) + utf8_len_of(s.skip(1)));
    }
}

fn char_len_utf8(c: char) -> (r: u32)
    ensures
        r == char_utf8_len(c),
{
    let u = c as u32;
    if u < 0x80 {
        1
    } else if u < 0x800 {
        2
    } else if u < 0x10000 {
        3
    } else {
        4
    }
}

/// UTF-8 encoded size of the whole vector.
fn utf8_len_vec(v: &Vec<char>) -> (r: u128)
    ensures
        r == utf8_len_of(v@),
{
    let n = v.len();
    let mut r: u128 = 0;
    let mut i: usize = 0;
    while i < n
        invariant
            i <= n,
            n == v@.len(),
            r == utf8_len_of(v@.take(i as int)),
            r <= 4 * i,
        decreases n - i,
    {
        proof {
            assert(v@.take(i + 1) =~= v@.take(i as int).push(v@[i as int]));
            lemma_utf8_len_of_push(v@.take(i as int), v@[i as int]);
        }
        r = r + char_len_utf8(v[i]) as u128;
        i = i + 1;
    }
    proof {
        assert(v@.take(n as int) =~= v@);
    }
    r
}

/// End of the run of sentence-terminal punctuation starting at `i`.
pub open spec fn punct_run_end(s: Seq<char>, i: int) -> int
    decreases s.len() - i,
    when 0 <= i <= s.len()
{
    if i == s.len() || !is_sentence_end(s[i]) {
        i
    } else {
        punct_run_end(s, i + 1)
    }
}

/// End of the run of whitespace starting at `i`.
pub open spec fn space_run_end(s: Seq<char>, i: int) -> int
    decreases s.len() - i,
    when 0 <= i <= s.len()
{
    if i == s.len() || !is_space(s[i]) {
        i
    } else {
        space_run_end(s, i + 1)
    }
}

pub proof fn lemma_punct_run_end(s: Seq<char>, i: int)
    requires
        0 <= i <= s.len(),
    ensures
        i <= punct_run_end(s, i) <= s.len(),
        forall|j: int| i <= j < punct_run_end(s, i) ==> is_sentence_end(s[j]),
        punct_run_end(s, i) < s.len() ==> !is_sentence_end(s[punct_run_end(s, i)]),
    decreases s.len() - i,
{
    if i < s.len() && is_sentence_end(s[i]) {
        lemma_punct_run_end(s, i + 1);
    }
}

pub proof fn lemma_space_run_end(s: Seq<char>, i: int)
    requires
        0 <= i <= s.len(),
    ensures
        i <= space_run_end(s, i) <= s.len(),
        forall|j: int| i <= j < space_run_end(s, i) ==> is_space(s[j]),
        space_run_end(s, i) < s.len() ==> !is_space(s[space_run_end(s, i)]),
    decreases s.len() - i,
{
    if i < s.len() && is_space(s[i]) {
        lemma_space_run_end(s, i + 1);
    }
}

/// A sentence separator starts at `i`: at least one terminal punctuation
/// character whose run is followed by at least one whitespace character.
pub open spec fn sep_at(s: Seq<char>, i: int) -> bool {
    &&& 0 <= i < s.len()
    &&& is_sentence_end(s[i])
    &&& punct_run_end(s, i) < s.len()
    &&& is_space(s[punct_run_end(s, i)])
}

/// Where the separator starting at `i` ends.
pub open spec fn sep_end(s: Seq<char>, i: int) -> int {
    space_run_end(s, punct_run_end(s, i))
}

/// Position of the first sentence separator at or after `i` (the length of
/// the sequence when there is none).
pub open spec fn first_sep_from(s: Seq<char>, i: int) -> int
    decreases s.len() - i,
    when 0 <= i <= s.len()
{
    if i == s.len() {
        i
    } else if sep_at(s, i) {
        i
    } else {
        first_sep_from(s, i + 1)
    }
}

pub proof fn lemma_first_sep_from(s: Seq<char>, i: int)
    requires
        0 <= i <= s.len(),
    ensures
        i <= first_sep_from(s, i) <= s.len(),
        forall|j: int| i <= j < first_sep_from(s, i) ==> !sep_at(s, j),
        first_sep_from(s, i) < s.len() ==> sep_at(s, first_sep_from(s, i)),
    decreases s.len() - i,
{
    if i < s.len() && !sep_at(s, i) {
        lemma_first_sep_from(s, i + 1);
    }
}

#[via_fn]
proof fn sentences_from_dec(s: Seq<char>, i: int) {
    lemma_first_sep_from(s, i);
    let p = first_sep_from(s, i);
    if p < s.len() {
        lemma_punct_run_end(s, p);
        lemma_space_run_end(s, punct_run_end(s, p));
    }
}

/// The sentences of `s` from position `i` on: the pieces between sentence
/// separators, with the separators themselves removed.
pub open spec fn sentences_from(s: Seq<char>, i: int) -> Seq<Seq<char>>
    decreases s.len() - i,
    when 0 <= i <= s.len()
    via sentences_from_dec
{
    if first_sep_from(s, i) == s.len() {
        seq![s.subrange(i, s.len() as int)]
    } else {
        let p = first_sep_from(s, i);
        seq![s.subrange(i, p)] + sentences_from(s, sep_end(s, p))
    }
}

/// The sentences of a whole text.
pub open spec fn sentences_of(s: Seq<char>) -> Seq<Seq<char>> {
    sentences_from(s, 0)
}

fn scan_punct_run(v: &Vec<char>, i: usize) -> (r: usize)
    requires
        i <= v@.len(),
    ensures
        r == punct_run_end(v@, i as int),
{
    let n = v.len();
    let mut j = i;
    while j < n && sentence_end_char(v[j])
        invariant
            i <= j <= n,
            n == v@.len(),
            punct_run_end(v@, i as int) == punct_run_end(v@, j as int),
        decreases n - j,
    {
        j = j + 1;
    }
    j
}

pub(crate) fn scan_space_run(v: &Vec<char>, i: usize) -> (r: usize)
    requires
        i <= v@.len(),
    ensures
        r == space_run_end(v@, i as int),
        i <= r <= v@.len(),
{
    let n = v.len();
    let mut j = i;
    while j < n && space_char(v[j])
        invariant
            i <= j <= n,
            n == v@.len(),
            space_run_end(v@, i as int) == space_run_end(v@, j as int),
        decreases n - j,
    {
        j = j + 1;
    }
    j
}

fn find_sep(v: &Vec<char>, i: usize) -> (p: usize)
    requires
        i <= v@.len(),
    ensures
        p == first_sep_from(v@, i as int),
        i <= p <= v@.len(),
{
    let n = v.len();
    let mut j = i;
    while j < n
        invariant
            i <= j <= n,
            n == v@.len(),
            first_sep_from(v@, i as int) == first_sep_from(v@, j as int),
        decreases n - j,
    {
        if sentence_end_char(v[j]) {
            let e = scan_punct_run(v, j);
            if e < n && space_char(v[e]) {
                proof {
                    assert(sep_at(v@, j as int));
                }
                return j;
            }
        }
        proof {
            assert(!sep_at(v@, j as int));
        }
        j = j + 1;
    }
    proof {
        lemma_first_sep_from(v@, i as int);
    }
    n
}

pub(crate) fn copy_range(v: &Vec<char>, a: usize, b: usize) -> (r: Vec<char>)
    requires
        a <= b <= v@.len(),
    ensures
        r@ == v@.subrange(a as int, b as int),
{
    let mut r: Vec<char> = Vec::new();
    let mut i = a;
    while i < b
        invariant
            a <= i <= b <= v@.len(),
            r@ == v@.subrange(a as int, i as int),
        decreases b - i,
    {
        r.push(v[i]);
        i = i + 1;
        proof {
            assert(r@ =~= v@.subrange(a as int, i as int));
        }
    }
    r
}

/// The sentences of the text, as vectors of characters.
fn split_sentences(v: &Vec<char>) -> (r: Vec<Vec<char>>)
    ensures
        r.deep_view() == sentences_of(v@),
{
    let n = v.len();
    let mut r: Vec<Vec<char>> = Vec::new();
    let mut i: usize = 0;
    let mut done = false;
    while !done
        invariant
            i <= n,
            n == v@.len(),
            !done ==> r.deep_view() + sentences_from(v@, i as int) =~= sentences_of(v@),
            done ==> r.deep_view() =~= sentences_of(v@),
        decreases (n - i) + (if done { 0int } else { 1 }),
    {
        let p = find_sep(v, i);
        let piece = copy_range(v, i, p);
        proof {
            lemma_first_sep_from(v@, i as int);
        }
        if p == n {
            r.push(piece);
            done = true;
            proof {
                assert(sentences_from(v@, i as int) == seq![v@.subrange(i as int, n as int)]);
                assert(r.deep_view() =~~= sentences_of(v@));
            }
        } else {
            let ghost olddv = r.deep_view();
            r.push(piece);
            let pe = scan_punct_run(v, p);
            proof {
                lemma_punct_run_end(v@, p as int);
                lemma_space_run_end(v@, pe as int);
            }
            let next = scan_space_run(v, pe);
            proof {
                assert(sep_at(v@, p as int));
                assert(pe > p);
                assert(next > p);
                assert(sentences_from(v@, i as int) == seq![v@.subrange(i as int, p as int)]
                    + sentences_from(v@, next as int));
                assert(r.deep_view() =~~= olddv.push(piece@));
                assert(r.deep_view() + sentences_from(v@, next as int) =~~= sentences_of(v@));
            }
            i = next;
        }
    }
    r
}

/// Greedy packing of sentences into segments: the running segment is
/// flushed once adding the next sentence would pass the size target, each
/// flushed segment is trimmed, and whitespace-only segments are not kept.
pub open spec fn packed_chunks(
    sents: Seq<Seq<char>>,
    cur: Seq<char>,
    curlen: int,
    max: int,
) -> Seq<Seq<char>>
    decreases sents.len(),
{
    if sents.len() == 0 {
        if trimmed(cur).len() > 0 {
            seq![trimmed(cur)]
        } else {
            Seq::empty()
        }
    } else {
        let sl = utf8_len_of(sents[0]);
        if curlen + sl > max && cur.len() > 0 {
            let flushed: Seq<Seq<char>> = if trimmed(cur).len() > 0 {
                seq![trimmed(cur)]
            } else {
                Seq::empty()
            };
            flushed + packed_chunks(sents.skip(1), sents[0] + seq![' '], sl + 1, max)
        } else {
            packed_chunks(sents.skip(1), cur + sents[0] + seq![' '], curlen + sl + 1, max)
        }
    }
}

/// The segments produced for a text under a byte-size target.
pub open spec fn chunks_of(s: Seq<char>, max: int) -> Seq<Seq<char>> {
    packed_chunks(sentences_of(s), Seq::empty(), 0, max)
}

pub(crate) fn append_chars(dst: &mut Vec<char>, src: &Vec<char>)
    ensures
        final(dst)@ == old(dst)@ + src@,
{
    let n = src.len();
    let mut i: usize = 0;
    while i < n
        invariant
            i <= n,
            n == src@.len(),
            dst@ == old(dst)@ + src@.take(i as int),
        decreases n - i,
    {
        dst.push(src[i]);
        i = i + 1;
        proof {
            assert(dst@ =~= old(dst)@ + src@.take(i as int));
        }
    }
    proof {
        assert(old(dst)@ + src@.take(n as int) =~= old(dst)@ + src@);
    }
}

/// Splits text into sentence-aligned segments of at most `chunk_size`
/// UTF-8 bytes each, except that a single longer sentence is emitted whole.
/// Segments keep source order and none is empty or whitespace-only.
pub fn split_into_chunks(text: &str, chunk_size: usize) -> (r: Vec<String>)
    ensures
        r.deep_view() == chunks_of(text@, chunk_size as int),
{
    let v = chars_of(text);
    let sents = split_sentences(&v);
    let ghost sdv = sents.deep_view();
    let m = sents.len();
    proof {
        lemma_deep_view_chars(sents);
        assert(sdv.len() == m);
        assert(sdv.skip(0) =~= sdv);
    }
    let mut out: Vec<String> = Vec::new();
    let mut cur: Vec<char> = Vec::new();
    let mut curlen: u128 = 0;
    let mut i: usize = 0;
    while i < m
        invariant
            i <= m,
            m == sdv.len(),
            sdv == sents.deep_view(),
            m == sents@.len(),
            forall|k: int| 0 <= k < m ==> sdv[k] == sents@[k]@,
            curlen == utf8_len_of(cur@),
            out.deep_view() + packed_chunks(sdv.skip(i as int), cur@, curlen as int, chunk_size as int)
                =~= chunks_of(text@, chunk_size as int),
        decreases m - i,
    {
        let sent = &sents[i];
        let sl = utf8_len_vec(sent);
        proof {
            assert(sdv.skip(i as int)[0] == sdv[i as int]);
            assert(sdv.skip(i as int).skip(1) =~= sdv.skip(i + 1));
            lemma_utf8_len_of_bounds(cur@);
            lemma_utf8_len_of_bounds(sent@);
            assert(cur@.len() <= usize::MAX) by {
                assert(cur@.len() == cur.len());
            }
            assert(sent@.len() <= usize::MAX) by {
                assert(sent@.len() == sent.len());
            }
        }
        if curlen + sl > chunk_size as u128 && cur.len() > 0 {
            let t = trim_chars(&cur);
            let ghost oldout = out.deep_view();
            if t.len() > 0 {
                out.push(string_of(&t));
                proof {
                    assert(out.deep_view() =~~= oldout.push(t@));
                }
            }
            let mut newcur = copy_range(sent, 0, sent.len());
            proof {
                assert(newcur@ =~= sent@);
            }
            newcur.push(' ');
            proof {
                assert(newcur@ =~= sent@ + seq![' ']);
                lemma_utf8_len_of_push(sent@, ' ');
                assert(utf8_len_of(newcur@) == sl + 1);
            }
            cur = newcur;
            curlen = sl + 1;
            proof {
                assert(out.deep_view() + packed_chunks(
                    sdv.skip(i + 1),
                    cur@,
                    curlen as int,
                    chunk_size as int,
                ) =~= chunks_of(text@, chunk_size as int));
            }
        } else {
            let ghost c0 = cur@;
            append_chars(&mut cur, sent);
            cur.push(' ');
            proof {
                assert(cur@ =~= c0 + sent@ + seq![' ']);
                lemma_utf8_len_of_concat(c0, sent@);
                lemma_utf8_len_of_push(c0 + sent@, ' ');
                assert((c0 + sent@).push(' ') =~= c0 + sent@ + seq![' ']);
            }
            curlen = curlen + sl + 1;
            proof {
                assert(out.deep_view() + packed_chunks(
                    sdv.skip(i + 1),
                    cur@,
                    curlen as int,
                    chunk_size as int,
                ) =~= chunks_of(text@, chunk_size as int));
            }
        }
        i = i + 1;
    }
    proof {
        assert(sdv.skip(m as int) =~= Seq::<Seq<char>>::empty());
    }
    let t = trim_chars(&cur);
    let ghost oldout = out.deep_view();
    if t.len() > 0 {
        out.push(string_of(&t));
        proof {
            assert(out.deep_view() =~~= oldout.push(t@));
        }
    }
    proof {
        assert(out.deep_view() =~~= chunks_of(text@, chunk_size as int));
    }
    out
}

proof fn lemma_utf8_len_of_concat(a: Seq<char>, b: Seq<char>)
    ensures
        utf8_len_of(a + b) == utf8_len_of(a) + utf8_len_of(b),
    decreases a.len(),
{
    if a.len() == 0 {
        assert(a + b =~= b);
    } else {
        assert((a + b)[0] == a[0]);
        assert((a + b).skip(1) =~= a.skip(1) + b);
        lemma_utf8_len_of_concat(a.skip(1), b);
    }
}

proof fn lemma_packed_words(sents: Seq<Seq<char>>, cur: Seq<char>, curlen: int, max: int)
    requires
        cur.len() == 0 || cur[cur.len() - 1] == ' ',
    ensures
        words(join_spaces(packed_chunks(sents, cur, curlen, max))) == words(cur) + flat_words(
            sents,
        ),
    decreases sents.len(),
{
    if sents.len() == 0 {
        lemma_words_trimmed(cur);
        if trimmed(cur).len() > 0 {
            assert(join_spaces(seq![trimmed(cur)]) == trimmed(cur));
            assert(words(cur) + flat_words(sents) =~= words(cur));
        } else {
            assert(words(trimmed(cur)) =~= Seq::<Seq<char>>::empty());
            assert(words(cur) + flat_words(sents) =~= Seq::<Seq<char>>::empty());
        }
    } else {
        let s0 = sents[0];
        let sl = utf8_len_of(s0);
        assert(flat_words(sents) == words(s0) + flat_words(sents.skip(1)));
        lemma_words_trailing_space(s0, ' ');
        if curlen + sl > max && cur.len() > 0 {
            lemma_packed_words(sents.skip(1), s0 + seq![' '], sl + 1, max);
            let rest = packed_chunks(sents.skip(1), s0 + seq![' '], sl + 1, max);
            assert((s0 + seq![' '])[s0.len() as int] == ' ');
            assert(words(join_spaces(rest)) == words(s0) + flat_words(sents.skip(1)));
            lemma_words_trimmed(cur);
            if trimmed(cur).len() > 0 {
                lemma_words_join_cons(trimmed(cur), rest);
                assert(packed_chunks(sents, cur, curlen, max) == seq![trimmed(cur)] + rest);
                assert(words(trimmed(cur)) + (words(s0) + flat_words(sents.skip(1))) =~= words(cur)
                    + flat_words(sents));
            } else {
                assert(packed_chunks(sents, cur, curlen, max) =~= rest);
                assert(words(cur) =~= Seq::<Seq<char>>::empty());
                assert(words(s0) + flat_words(sents.skip(1)) =~= words(cur) + flat_words(sents));
            }
        } else {
            let cur2 = cur + s0 + seq![' '];
            assert(cur2[cur2.len() - 1] == ' ');
            lemma_packed_words(sents.skip(1), cur2, curlen + sl + 1, max);
            if cur.len() == 0 {
                assert(cur2 =~= s0 + seq![' ']);
                assert(words(cur2) == words(s0));
                assert(words(cur) =~= Seq::<Seq<char>>::empty());
            } else {
                let cd = cur.drop_last();
                assert(cur =~= cd + seq![' ']);
                assert(cur2 =~= cd + seq![' '] + (s0 + seq![' ']));
                lemma_words_append_sep(cd, ' ', s0 + seq![' ']);
                lemma_words_trailing_space(cd, ' ');
                assert(words(cur2) == words(cur) + words(s0));
            }
            assert(words(cur) + words(s0) + flat_words(sents.skip(1)) =~= words(cur) + flat_words(
                sents,
            ));
        }
    }
}

/// Concatenating the segments of `split_into_chunks` in order and
/// normalizing whitespace reproduces the sentence-level content of the
/// input: the word sequence of the joined segments equals the word
/// sequence of the joined sentences, so no sentence is dropped, duplicated
/// or reordered, for every text and every size target.
pub proof fn lemma_chunking_preserves_content(text: Seq<char>, max: int)
    ensures
        words(join_spaces(chunks_of(text, max))) == words(join_spaces(sentences_of(text))),
        wsnorm(join_spaces(chunks_of(text, max))) == wsnorm(join_spaces(sentences_of(text))),
{
    lemma_packed_words(sentences_of(text), Seq::empty(), 0, max);
    lemma_words_join_flat(sentences_of(text));
    assert(words(Seq::<char>::empty()) + flat_words(sentences_of(text)) =~= flat_words(
        sentences_of(text),
    ));
}

proof fn lemma_packed_not_blank(sents: Seq<Seq<char>>, cur: Seq<char>, curlen: int, max: int)
    ensures
        forall|k: int|
            0 <= k < packed_chunks(sents, cur, curlen, max).len() ==> (#[trigger] packed_chunks(
                sents,
                cur,
                curlen,
                max,
            )[k]).len() > 0 && !is_space(packed_chunks(sents, cur, curlen, max)[k][0]),
    decreases sents.len(),
{
    let r = packed_chunks(sents, cur, curlen, max);
    if sents.len() == 0 {
        if trimmed(cur).len() > 0 {
            lemma_trimmed_edges(cur);
            assert(r[0] == trimmed(cur));
        }
    } else {
        let sl = utf8_len_of(sents[0]);
        if curlen + sl > max && cur.len() > 0 {
            let rest = packed_chunks(sents.skip(1), sents[0] + seq![' '], sl + 1, max);
            lemma_packed_not_blank(sents.skip(1), sents[0] + seq![' '], sl + 1, max);
            lemma_trimmed_edges(cur);
            if trimmed(cur).len() > 0 {
                assert(r == seq![trimmed(cur)] + rest);
                assert forall|k: int| 0 <= k < r.len() implies (#[trigger] r[k]).len() > 0
                    && !is_space(r[k][0]) by {
                    if k == 0 {
                        assert(r[k] == trimmed(cur));
                    } else {
                        assert(r[k] == rest[k - 1]);
                    }
                }
            } else {
                assert(r =~= rest);
            }
        } else {
            lemma_packed_not_blank(sents.skip(1), cur + sents[0] + seq![' '], curlen + sl + 1, max);
            assert(r == packed_chunks(sents.skip(1), cur + sents[0] + seq![' '], curlen + sl + 1, max));
        }
    }
}

/// No produced segment is empty or whitespace-only.
pub proof fn lemma_chunks_not_blank(text: Seq<char>, max: int)
    ensures
        forall|k: int|
            0 <= k < chunks_of(text, max).len() ==> (#[trigger] chunks_of(text, max)[k]).len() > 0
                && !is_space(chunks_of(text, max)[k][0]),
{
    lemma_packed_not_blank(sentences_of(text), Seq::empty(), 0, max);
}

} // verus!
