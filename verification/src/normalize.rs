//! Text normalization: a fixed ordered sequence of structural cleanup
//! passes over extracted chapter text, followed — when aggressive cleanup
//! is on — by hyphenation repair, abbreviation expansion and sentence
//! boundary spacing. Each pass is defined by a scanning function over the
//! character sequence, and the executable passes return exactly what the
//! definitions say.

use vstd::prelude::*;
use crate::textutil::{
    is_space, is_word_char, is_digit, is_upper, is_sentence_end, space_char, word_char, digit_char,
    upper_char, sentence_end_char, chars_of, string_of, trim_chars, trimmed,
};
use crate::chunk::{space_run_end, lemma_space_run_end, scan_space_run, append_chars};

verus! {

/// Characters allowed inside an HTML entity reference.
pub open spec fn is_entity_char(c: char) -> bool {
    ('a' <= c && c <= 'z') || ('A' <= c && c <= 'Z') || ('0' <= c && c <= '9') || c == '#'
}

fn entity_char(c: char) -> (r: bool)
    ensures
        r == is_entity_char(c),
{
    ('a' <= c && c <= 'z') || ('A' <= c && c <= 'Z') || ('0' <= c && c <= '9') || c == '#'
}

/// Punctuation whose surrounding spacing is normalized.
pub open spec fn is_punct(c: char) -> bool {
    c == ',' || c == '.' || c == '!' || c == '?' || c == ';' || c == ':'
}

fn punct_char(c: char) -> (r: bool)
    ensures
        r == is_punct(c),
{
    c == ',' || c == '.' || c == '!' || c == '?' || c == ';' || c == ':'
}

/// End of the run of entity characters starting at `i`.
pub open spec fn entity_run_end(s: Seq<char>, i: int) -> int
    decreases s.len() - i,
    when 0 <= i <= s.len()
{
    if i == s.len() || !is_entity_char(s[i]) {
        i
    } else {
        entity_run_end(s, i + 1)
    }
}

pub proof fn lemma_entity_run_end(s: Seq<char>, i: int)
    requires
        0 <= i <= s.len(),
    ensures
        i <= entity_run_end(s, i) <= s.len(),
    decreases s.len() - i,
{
    if i < s.len() && is_entity_char(s[i]) {
        lemma_entity_run_end(s, i + 1);
    }
}

fn scan_entity_run(v: &Vec<char>, i: usize) -> (r: usize)
    requires
        i <= v@.len(),
    ensures
        r == entity_run_end(v@, i as int),
        i <= r <= v@.len(),
{
    let n = v.len();
    let mut j = i;
    while j < n && entity_char(v[j])
        invariant
            i <= j <= n,
            n == v@.len(),
            entity_run_end(v@, i as int) == entity_run_end(v@, j as int),
        decreases n - j,
    {
        j = j + 1;
    }
    proof {
        lemma_entity_run_end(v@, i as int);
    }
    j
}

/// End of the run of decimal digits starting at `i`.
pub open spec fn digit_run_end(s: Seq<char>, i: int) -> int
    decreases s.len() - i,
    when 0 <= i <= s.len()
{
    if i == s.len() || !is_digit(s[i]) {
        i
    } else {
        digit_run_end(s, i + 1)
    }
}

pub proof fn lemma_digit_run_end(s: Seq<char>, i: int)
    requires
        0 <= i <= s.len(),
    ensures
        i <= digit_run_end(s, i) <= s.len(),
    decreases s.len() - i,
{
    if i < s.len() && is_digit(s[i]) {
        lemma_digit_run_end(s, i + 1);
    }
}

fn scan_digit_run(v: &Vec<char>, i: usize) -> (r: usize)
    requires
        i <= v@.len(),
    ensures
        r == digit_run_end(v@, i as int),
        i <= r <= v@.len(),
{
    let n = v.len();
    let mut j = i;
    while j < n && digit_char(v[j])
        invariant
            i <= j <= n,
            n == v@.len(),
            digit_run_end(v@, i as int) == digit_run_end(v@, j as int),
        decreases n - j,
    {
        j = j + 1;
    }
    proof {
        lemma_digit_run_end(v@, i as int);
    }
    j
}

/// An HTML entity reference (`&` + name or number + `;`) starts at `i`.
pub open spec fn entity_at(s: Seq<char>, i: int) -> bool {
    &&& 0 <= i < s.len()
    &&& s[i] == '&'
    &&& entity_run_end(s, i + 1) > i + 1
    &&& entity_run_end(s, i + 1) < s.len()
    &&& s[entity_run_end(s, i + 1)] == ';'
}

#[via_fn]
proof fn strip_entities_from_dec(s: Seq<char>, i: int) {
    if 0 <= i < s.len() && entity_at(s, i) {
        lemma_entity_run_end(s, i + 1);
    }
}

/// Entity references replaced by a single space.
pub open spec fn strip_entities_from(s: Seq<char>, i: int) -> Seq<char>
    decreases s.len() - i,
    when 0 <= i <= s.len()
    via strip_entities_from_dec
{
    if i >= s.len() {
        Seq::empty()
    } else if entity_at(s, i) {
        seq![' '] + strip_entities_from(s, entity_run_end(s, i + 1) + 1)
    } else {
        seq![s[i]] + strip_entities_from(s, i + 1)
    }
}

fn strip_entities(v: &Vec<char>) -> (r: Vec<char>)
    ensures
        r@ == strip_entities_from(v@, 0),
{
    let n = v.len();
    let mut r: Vec<char> = Vec::new();
    let mut i: usize = 0;
    while i < n
        invariant
            i <= n,
            n == v@.len(),
            r@ + strip_entities_from(v@, i as int) =~= strip_entities_from(v@, 0),
        decreases n - i,
    {
        let mut matched = false;
        let mut jump: usize = 0;
        if v[i] == '&' {
            let e = scan_entity_run(v, i + 1);
            if e > i + 1 && e < n && v[e] == ';' {
                matched = true;
                jump = e + 1;
            }
        }
        if matched {
            proof {
                assert(entity_at(v@, i as int));
            }
            r.push(' ');
            proof {
                assert(r@ + strip_entities_from(v@, jump as int) =~= strip_entities_from(v@, 0));
            }
            i = jump;
        } else {
            proof {
                assert(!entity_at(v@, i as int));
            }
            r.push(v[i]);
            proof {
                assert(r@ + strip_entities_from(v@, i + 1) =~= strip_entities_from(v@, 0));
            }
            i = i + 1;
        }
    }
    proof {
        assert(r@ + strip_entities_from(v@, n as int) =~= strip_entities_from(v@, 0));
        assert(r@ =~= strip_entities_from(v@, 0));
    }
    r
}

#[via_fn]
proof fn collapse_ws_from_dec(s: Seq<char>, i: int) {
    if 0 <= i < s.len() && is_space(s[i]) {
        lemma_space_run_end(s, i);
    }
}

/// Whitespace runs collapsed to a single space.
pub open spec fn collapse_ws_from(s: Seq<char>, i: int) -> Seq<char>
    decreases s.len() - i,
    when 0 <= i <= s.len()
    via collapse_ws_from_dec
{
    if i >= s.len() {
        Seq::empty()
    } else if is_space(s[i]) {
        seq![' '] + collapse_ws_from(s, space_run_end(s, i))
    } else {
        seq![s[i]] + collapse_ws_from(s, i + 1)
    }
}

fn collapse_ws(v: &Vec<char>) -> (r: Vec<char>)
    ensures
        r@ == collapse_ws_from(v@, 0),
{
    let n = v.len();
    let mut r: Vec<char> = Vec::new();
    let mut i: usize = 0;
    while i < n
        invariant
            i <= n,
            n == v@.len(),
            r@ + collapse_ws_from(v@, i as int) =~= collapse_ws_from(v@, 0),
        decreases n - i,
    {
        if space_char(v[i]) {
            proof {
                lemma_space_run_end(v@, i as int);
            }
            let e = scan_space_run(v, i);
            r.push(' ');
            proof {
                assert(e > i);
                assert(r@ + collapse_ws_from(v@, e as int) =~= collapse_ws_from(v@, 0));
            }
            i = e;
        } else {
            r.push(v[i]);
            proof {
                assert(r@ + collapse_ws_from(v@, i + 1) =~= collapse_ws_from(v@, 0));
            }
            i = i + 1;
        }
    }
    proof {
        assert(r@ =~= collapse_ws_from(v@, 0));
    }
    r
}

/// A stray character standing alone between non-word characters, as an
/// optical-scan artifact: the `l`-for-`I` and `O`-for-zero fixes.
pub open spec fn standalone_at(s: Seq<char>, i: int, what: char) -> bool {
    &&& 0 <= i < s.len()
    &&& s[i] == what
    &&& (i == 0 || !is_word_char(s[i - 1]))
    &&& (i == s.len() - 1 || !is_word_char(s[i + 1]))
}

/// Every standalone `what` replaced by `with`.
pub open spec fn fix_standalone(s: Seq<char>, what: char, with: char) -> Seq<char> {
    Seq::new(
        s.len(),
        |i: int|
            if standalone_at(s, i, what) {
                with
            } else {
                s[i]
            },
    )
}

fn apply_standalone(v: &Vec<char>, what: char, with: char) -> (r: Vec<char>)
    ensures
        r@ == fix_standalone(v@, what, with),
{
    let n = v.len();
    let mut r: Vec<char> = Vec::new();
    let mut i: usize = 0;
    while i < n
        invariant
            i <= n,
            n == v@.len(),
            r@.len() == i,
            forall|j: int| 0 <= j < i ==> r@[j] == fix_standalone(v@, what, with)[j],
        decreases n - i,
    {
        let prev_ok = i == 0 || !word_char(v[i - 1]);
        let next_ok = i == n - 1 || !word_char(v[i + 1]);
        if v[i] == what && prev_ok && next_ok {
            r.push(with);
            proof {
                assert(standalone_at(v@, i as int, what));
            }
        } else {
            r.push(v[i]);
            proof {
                assert(!standalone_at(v@, i as int, what));
            }
        }
        i = i + 1;
    }
    proof {
        assert(r@ =~= fix_standalone(v@, what, with));
    }
    r
}

/// A page-number artifact (`Page 12` or `page 12`) starts at `i`.
pub open spec fn page_ref_at(s: Seq<char>, i: int) -> bool {
    &&& 0 <= i
    &&& i + 4 <= s.len()
    &&& (i == 0 || !is_word_char(s[i - 1]))
    &&& (s[i] == 'P' || s[i] == 'p')
    &&& s[i + 1] == 'a'
    &&& s[i + 2] == 'g'
    &&& s[i + 3] == 'e'
    &&& space_run_end(s, i + 4) > i + 4
    &&& digit_run_end(s, space_run_end(s, i + 4)) > space_run_end(s, i + 4)
    &&& {
        let de = digit_run_end(s, space_run_end(s, i + 4));
        de == s.len() || !is_word_char(s[de])
    }
}

/// Where the page-number artifact starting at `i` ends.
pub open spec fn page_ref_end(s: Seq<char>, i: int) -> int {
    digit_run_end(s, space_run_end(s, i + 4))
}

#[via_fn]
proof fn strip_page_refs_from_dec(s: Seq<char>, i: int) {
    if 0 <= i < s.len() && page_ref_at(s, i) {
        lemma_space_run_end(s, i + 4);
        lemma_digit_run_end(s, space_run_end(s, i + 4));
    }
}

/// Page-number artifacts removed.
pub open spec fn strip_page_refs_from(s: Seq<char>, i: int) -> Seq<char>
    decreases s.len() - i,
    when 0 <= i <= s.len()
    via strip_page_refs_from_dec
{
    if i >= s.len() {
        Seq::empty()
    } else if page_ref_at(s, i) {
        strip_page_refs_from(s, page_ref_end(s, i))
    } else {
        seq![s[i]] + strip_page_refs_from(s, i + 1)
    }
}

fn strip_page_refs(v: &Vec<char>) -> (r: Vec<char>)
    ensures
        r@ == strip_page_refs_from(v@, 0),
{
    let n = v.len();
    let mut r: Vec<char> = Vec::new();
    let mut i: usize = 0;
    while i < n
        invariant
            i <= n,
            n == v@.len(),
            r@ + strip_page_refs_from(v@, i as int) =~= strip_page_refs_from(v@, 0),
        decreases n - i,
    {
        let mut matched = false;
        let mut jump: usize = 0;
        if (v[i] == 'P' || v[i] == 'p') && n - i >= 4 && (i == 0 || !word_char(v[i - 1])) {
            if v[i + 1] == 'a' && v[i + 2] == 'g' && v[i + 3] == 'e' {
                let sp = scan_space_run(v, i + 4);
                if sp > i + 4 {
                    let de = scan_digit_run(v, sp);
                    if de > sp && (de == n || !word_char(v[de])) {
                        matched = true;
                        jump = de;
                    }
                }
            }
        }
        if matched {
            proof {
                assert(page_ref_at(v@, i as int));
                assert(jump == page_ref_end(v@, i as int));
                assert(jump > i);
                assert(r@ + strip_page_refs_from(v@, jump as int) =~= strip_page_refs_from(v@, 0));
            }
            i = jump;
        } else {
            proof {
                assert(!page_ref_at(v@, i as int));
            }
            r.push(v[i]);
            proof {
                assert(r@ + strip_page_refs_from(v@, i + 1) =~= strip_page_refs_from(v@, 0));
            }
            i = i + 1;
        }
    }
    proof {
        assert(r@ =~= strip_page_refs_from(v@, 0));
    }
    r
}

/// Dash characters that introduce a numeric range.
pub open spec fn is_range_dash(c: char) -> bool {
    c == '-' || c == '\u{2013}' || c == '\u{2014}'
}

fn range_dash_char(c: char) -> (r: bool)
    ensures
        r == is_range_dash(c),
{
    c == '-' || c == '\u{2013}' || c == '\u{2014}'
}

/// A bare number range (`12 - 34`) starts at `i`.
pub open spec fn number_range_at(s: Seq<char>, i: int) -> bool {
    &&& 0 <= i < s.len()
    &&& (i == 0 || !is_word_char(s[i - 1]))
    &&& is_digit(s[i])
    &&& {
        let d1 = digit_run_end(s, i);
        let sp1 = space_run_end(s, d1);
        &&& sp1 < s.len()
        &&& is_range_dash(s[sp1])
        &&& {
            let sp2 = space_run_end(s, sp1 + 1);
            let d2 = digit_run_end(s, sp2);
            &&& d2 > sp2
            &&& (d2 == s.len() || !is_word_char(s[d2]))
        }
    }
}

/// Where the number range starting at `i` ends.
pub open spec fn number_range_end(s: Seq<char>, i: int) -> int {
    digit_run_end(s, space_run_end(s, space_run_end(s, digit_run_end(s, i)) + 1))
}

#[via_fn]
proof fn strip_number_ranges_from_dec(s: Seq<char>, i: int) {
    if 0 <= i < s.len() && number_range_at(s, i) {
        lemma_number_range_end(s, i);
    }
}

pub proof fn lemma_number_range_end(s: Seq<char>, i: int)
    requires
        0 <= i < s.len(),
        number_range_at(s, i),
    ensures
        i < number_range_end(s, i) <= s.len(),
{
    lemma_digit_run_end(s, i);
    let d1 = digit_run_end(s, i);
    lemma_space_run_end(s, d1);
    let sp1 = space_run_end(s, d1);
    lemma_space_run_end(s, sp1 + 1);
    let sp2 = space_run_end(s, sp1 + 1);
    lemma_digit_run_end(s, sp2);
}

/// Bare number ranges removed.
pub open spec fn strip_number_ranges_from(s: Seq<char>, i: int) -> Seq<char>
    decreases s.len() - i,
    when 0 <= i <= s.len()
    via strip_number_ranges_from_dec
{
    if i >= s.len() {
        Seq::empty()
    } else if number_range_at(s, i) {
        strip_number_ranges_from(s, number_range_end(s, i))
    } else {
        seq![s[i]] + strip_number_ranges_from(s, i + 1)
    }
}

fn strip_number_ranges(v: &Vec<char>) -> (r: Vec<char>)
    ensures
        r@ == strip_number_ranges_from(v@, 0),
{
    let n = v.len();
    let mut r: Vec<char> = Vec::new();
    let mut i: usize = 0;
    while i < n
        invariant
            i <= n,
            n == v@.len(),
            r@ + strip_number_ranges_from(v@, i as int) =~= strip_number_ranges_from(v@, 0),
        decreases n - i,
    {
        let mut matched = false;
        let mut jump: usize = 0;
        if digit_char(v[i]) && (i == 0 || !word_char(v[i - 1])) {
            let d1 = scan_digit_run(v, i);
            let sp1 = scan_space_run(v, d1);
            if sp1 < n && range_dash_char(v[sp1]) {
                let sp2 = scan_space_run(v, sp1 + 1);
                let d2 = scan_digit_run(v, sp2);
                if d2 > sp2 && (d2 == n || !word_char(v[d2])) {
                    matched = true;
                    jump = d2;
                }
            }
        }
        if matched {
            proof {
                assert(number_range_at(v@, i as int));
                assert(jump == number_range_end(v@, i as int));
                lemma_number_range_end(v@, i as int);
                assert(r@ + strip_number_ranges_from(v@, jump as int) =~= strip_number_ranges_from(
                    v@,
                    0,
                ));
            }
            i = jump;
        } else {
            proof {
                assert(!number_range_at(v@, i as int));
            }
            r.push(v[i]);
            proof {
                assert(r@ + strip_number_ranges_from(v@, i + 1) =~= strip_number_ranges_from(
                    v@,
                    0,
                ));
            }
            i = i + 1;
        }
    }
    proof {
        assert(r@ =~= strip_number_ranges_from(v@, 0));
    }
    r
}

/// Quotation glyphs unified to `"` and long dashes to `-`.
pub open spec fn unify_glyph(c: char) -> char {
    if c == '\u{201C}' || c == '\u{201D}' || c == '\u{2018}' || c == '\u{2019}' || c == '`' {
        '"'
    } else if c == '\u{2013}' || c == '\u{2014}' {
        '-'
    } else {
        c
    }
}

pub open spec fn unify_glyphs_spec(s: Seq<char>) -> Seq<char> {
    Seq::new(s.len(), |i: int| unify_glyph(s[i]))
}

fn unify_glyphs(v: &Vec<char>) -> (r: Vec<char>)
    ensures
        r@ == unify_glyphs_spec(v@),
{
    let n = v.len();
    let mut r: Vec<char> = Vec::new();
    let mut i: usize = 0;
    while i < n
        invariant
            i <= n,
            n == v@.len(),
            r@.len() == i,
            forall|j: int| 0 <= j < i ==> r@[j] == unify_glyphs_spec(v@)[j],
        decreases n - i,
    {
        let c = v[i];
        if c == '\u{201C}' || c == '\u{201D}' || c == '\u{2018}' || c == '\u{2019}' || c == '`' {
            r.push('"');
        } else if c == '\u{2013}' || c == '\u{2014}' {
            r.push('-');
        } else {
            r.push(c);
        }
        i = i + 1;
    }
    proof {
        assert(r@ =~= unify_glyphs_spec(v@));
    }
    r
}

/// In a run of four or more periods, the periods after the third are
/// dropped, so any long ellipsis becomes exactly `...`.
pub open spec fn collapse_ellipsis_from(s: Seq<char>, i: int) -> Seq<char>
    decreases s.len() - i,
    when 0 <= i <= s.len()
{
    if i >= s.len() {
        Seq::empty()
    } else if s[i] == '.' && i >= 3 && s[i - 1] == '.' && s[i - 2] == '.' && s[i - 3] == '.' {
        collapse_ellipsis_from(s, i + 1)
    } else {
        seq![s[i]] + collapse_ellipsis_from(s, i + 1)
    }
}

fn collapse_ellipsis(v: &Vec<char>) -> (r: Vec<char>)
    ensures
        r@ == collapse_ellipsis_from(v@, 0),
{
    let n = v.len();
    let mut r: Vec<char> = Vec::new();
    let mut i: usize = 0;
    while i < n
        invariant
            i <= n,
            n == v@.len(),
            r@ + collapse_ellipsis_from(v@, i as int) =~= collapse_ellipsis_from(v@, 0),
        decreases n - i,
    {
        if v[i] == '.' && i >= 3 && v[i - 1] == '.' && v[i - 2] == '.' && v[i - 3] == '.' {
        } else {
            r.push(v[i]);
        }
        i = i + 1;
        proof {
            assert(r@ + collapse_ellipsis_from(v@, i as int) =~= collapse_ellipsis_from(v@, 0));
        }
    }
    proof {
        assert(r@ =~= collapse_ellipsis_from(v@, 0));
    }
    r
}

#[via_fn]
proof fn drop_space_before_punct_from_dec(s: Seq<char>, i: int) {
    if 0 <= i < s.len() && is_space(s[i]) {
        lemma_space_run_end(s, i);
    }
}

/// Whitespace standing directly before punctuation removed.
pub open spec fn drop_space_before_punct_from(s: Seq<char>, i: int) -> Seq<char>
    decreases s.len() - i,
    when 0 <= i <= s.len()
    via drop_space_before_punct_from_dec
{
    if i >= s.len() {
        Seq::empty()
    } else if is_space(s[i]) && space_run_end(s, i) < s.len() && is_punct(
        s[space_run_end(s, i)],
    ) {
        drop_space_before_punct_from(s, space_run_end(s, i))
    } else {
        seq![s[i]] + drop_space_before_punct_from(s, i + 1)
    }
}

fn drop_space_before_punct(v: &Vec<char>) -> (r: Vec<char>)
    ensures
        r@ == drop_space_before_punct_from(v@, 0),
{
    let n = v.len();
    let mut r: Vec<char> = Vec::new();
    let mut i: usize = 0;
    while i < n
        invariant
            i <= n,
            n == v@.len(),
            r@ + drop_space_before_punct_from(v@, i as int) =~= drop_space_before_punct_from(
                v@,
                0,
            ),
        decreases n - i,
    {
        let mut matched = false;
        let mut jump: usize = 0;
        if space_char(v[i]) {
            let e = scan_space_run(v, i);
            if e < n && punct_char(v[e]) {
                matched = true;
                jump = e;
            }
        }
        if matched {
            proof {
                lemma_space_run_end(v@, i as int);
                assert(jump > i);
                assert(r@ + drop_space_before_punct_from(v@, jump as int)
                    =~= drop_space_before_punct_from(v@, 0));
            }
            i = jump;
        } else {
            r.push(v[i]);
            proof {
                assert(r@ + drop_space_before_punct_from(v@, i + 1)
                    =~= drop_space_before_punct_from(v@, 0));
            }
            i = i + 1;
        }
    }
    proof {
        assert(r@ =~= drop_space_before_punct_from(v@, 0));
    }
    r
}

#[via_fn]
proof fn single_space_after_punct_from_dec(s: Seq<char>, i: int) {
    if 0 <= i < s.len() - 1 {
        lemma_space_run_end(s, i + 1);
    }
}

/// Whitespace directly after punctuation collapsed to one space.
pub open spec fn single_space_after_punct_from(s: Seq<char>, i: int) -> Seq<char>
    decreases s.len() - i,
    when 0 <= i <= s.len()
    via single_space_after_punct_from_dec
{
    if i >= s.len() {
        Seq::empty()
    } else if is_punct(s[i]) && i + 1 < s.len() && is_space(s[i + 1]) {
        seq![s[i], ' '] + single_space_after_punct_from(s, space_run_end(s, i + 1))
    } else {
        seq![s[i]] + single_space_after_punct_from(s, i + 1)
    }
}

fn single_space_after_punct(v: &Vec<char>) -> (r: Vec<char>)
    ensures
        r@ == single_space_after_punct_from(v@, 0),
{
    let n = v.len();
    let mut r: Vec<char> = Vec::new();
    let mut i: usize = 0;
    while i < n
        invariant
            i <= n,
            n == v@.len(),
            r@ + single_space_after_punct_from(v@, i as int) =~= single_space_after_punct_from(
                v@,
                0,
            ),
        decreases n - i,
    {
        if punct_char(v[i]) && i + 1 < n && space_char(v[i + 1]) {
            proof {
                lemma_space_run_end(v@, i + 1);
            }
            let e = scan_space_run(v, i + 1);
            r.push(v[i]);
            r.push(' ');
            proof {
                assert(e > i + 1 - 1);
                assert(r@ + single_space_after_punct_from(v@, e as int)
                    =~= single_space_after_punct_from(v@, 0));
            }
            i = e;
        } else {
            r.push(v[i]);
            proof {
                assert(r@ + single_space_after_punct_from(v@, i + 1)
                    =~= single_space_after_punct_from(v@, 0));
            }
            i = i + 1;
        }
    }
    proof {
        assert(r@ =~= single_space_after_punct_from(v@, 0));
    }
    r
}

#[via_fn]
proof fn repair_hyphenation_from_dec(s: Seq<char>, i: int) {
    if 0 <= i && i + 2 <= s.len() {
        lemma_space_run_end(s, i + 2);
    }
}

/// A hyphen broken across a line boundary (word character, `-`, whitespace,
/// word character) is repaired by joining the two word parts.
pub open spec fn repair_hyphenation_from(s: Seq<char>, i: int) -> Seq<char>
    decreases s.len() - i,
    when 0 <= i <= s.len()
    via repair_hyphenation_from_dec
{
    if i >= s.len() {
        Seq::empty()
    } else if is_word_char(s[i]) && i + 1 < s.len() && s[i + 1] == '-' && space_run_end(s, i + 2)
        > i + 2 && space_run_end(s, i + 2) < s.len() && is_word_char(
        s[space_run_end(s, i + 2)],
    ) {
        seq![s[i]] + repair_hyphenation_from(s, space_run_end(s, i + 2))
    } else {
        seq![s[i]] + repair_hyphenation_from(s, i + 1)
    }
}

fn repair_hyphenation(v: &Vec<char>) -> (r: Vec<char>)
    ensures
        r@ == repair_hyphenation_from(v@, 0),
{
    let n = v.len();
    let mut r: Vec<char> = Vec::new();
    let mut i: usize = 0;
    while i < n
        invariant
            i <= n,
            n == v@.len(),
            r@ + repair_hyphenation_from(v@, i as int) =~= repair_hyphenation_from(v@, 0),
        decreases n - i,
    {
        let mut matched = false;
        let mut jump: usize = 0;
        if word_char(v[i]) && i + 1 < n && v[i + 1] == '-' {
            let e = scan_space_run(v, i + 2);
            if e > i + 2 && e < n && word_char(v[e]) {
                matched = true;
                jump = e;
            }
        }
        if matched {
            r.push(v[i]);
            proof {
                assert(r@ + repair_hyphenation_from(v@, jump as int) =~= repair_hyphenation_from(
                    v@,
                    0,
                ));
            }
            i = jump;
        } else {
            r.push(v[i]);
            proof {
                assert(r@ + repair_hyphenation_from(v@, i + 1) =~= repair_hyphenation_from(v@, 0));
            }
            i = i + 1;
        }
    }
    proof {
        assert(r@ =~= repair_hyphenation_from(v@, 0));
    }
    r
}

/// The abbreviation `pat` occurs at `i`, bounded by non-word characters.
pub open spec fn abbrev_at(s: Seq<char>, i: int, pat: Seq<char>) -> bool {
    &&& 0 <= i
    &&& i + pat.len() <= s.len()
    &&& s.subrange(i, i + pat.len()) == pat
    &&& (i == 0 || !is_word_char(s[i - 1]))
    &&& (i + pat.len() == s.len() || !is_word_char(s[i + pat.len()]))
}

/// Every bounded occurrence of `pat` replaced by `rep`, left to right.
pub open spec fn expand_one_from(s: Seq<char>, i: int, pat: Seq<char>, rep: Seq<char>) -> Seq<
    char,
>
    decreases s.len() - i,
    when 0 <= i <= s.len() && pat.len() >= 1
{
    if i >= s.len() {
        Seq::empty()
    } else if abbrev_at(s, i, pat) {
        rep + expand_one_from(s, i + pat.len(), pat, rep)
    } else {
        seq![s[i]] + expand_one_from(s, i + 1, pat, rep)
    }
}

pub(crate) fn pattern_at(v: &Vec<char>, i: usize, pat: &Vec<char>) -> (r: bool)
    requires
        i + pat@.len() <= v@.len(),
    ensures
        r == (v@.subrange(i as int, i + pat@.len()) == pat@),
{
    let n = v.len();
    let m = pat.len();
    let mut j: usize = 0;
    while j < m
        invariant
            j <= m,
            m == pat@.len(),
            n == v@.len(),
            i + m <= n,
            forall|k: int| 0 <= k < j ==> v@[i + k] == pat@[k],
        decreases m - j,
    {
        if v[i + j] != pat[j] {
            proof {
                assert(v@.subrange(i as int, i + pat@.len())[j as int] != pat@[j as int]);
            }
            return false;
        }
        j = j + 1;
    }
    proof {
        assert(v@.subrange(i as int, i + pat@.len()) =~= pat@);
    }
    true
}

fn expand_one(v: &Vec<char>, pat: &Vec<char>, rep: &Vec<char>) -> (r: Vec<char>)
    requires
        pat@.len() >= 1,
    ensures
        r@ == expand_one_from(v@, 0, pat@, rep@),
{
    let n = v.len();
    let m = pat.len();
    let mut r: Vec<char> = Vec::new();
    let mut i: usize = 0;
    while i < n
        invariant
            i <= n,
            n == v@.len(),
            m == pat@.len(),
            m >= 1,
            r@ + expand_one_from(v@, i as int, pat@, rep@) =~= expand_one_from(v@, 0, pat@, rep@),
        decreases n - i,
    {
        let mut matched = false;
        if n - i >= m && (i == 0 || !word_char(v[i - 1])) && (i + m == n || !word_char(v[i + m])) {
            if pattern_at(v, i, pat) {
                matched = true;
            }
        }
        if matched {
            proof {
                assert(abbrev_at(v@, i as int, pat@));
            }
            append_chars(&mut r, rep);
            proof {
                assert(r@ + expand_one_from(v@, i + pat@.len(), pat@, rep@) =~= expand_one_from(
                    v@,
                    0,
                    pat@,
                    rep@,
                ));
            }
            i = i + m;
        } else {
            proof {
                assert(!abbrev_at(v@, i as int, pat@));
            }
            r.push(v[i]);
            proof {
                assert(r@ + expand_one_from(v@, i + 1, pat@, rep@) =~= expand_one_from(
                    v@,
                    0,
                    pat@,
                    rep@,
                ));
            }
            i = i + 1;
        }
    }
    proof {
        assert(r@ =~= expand_one_from(v@, 0, pat@, rep@));
    }
    r
}

/// The fixed abbreviation table, expanded in order for better
/// pronunciation by a speech engine.
pub open spec fn expand_abbreviations_spec(s: Seq<char>) -> Seq<char> {
    let s1 = expand_one_from(s, 0, "Mr."@, "Mister"@);
    let s2 = expand_one_from(s1, 0, "Mrs."@, "Missus"@);
    let s3 = expand_one_from(s2, 0, "Dr."@, "Doctor"@);
    let s4 = expand_one_from(s3, 0, "Prof."@, "Professor"@);
    let s5 = expand_one_from(s4, 0, "St."@, "Saint"@);
    let s6 = expand_one_from(s5, 0, "vs."@, "versus"@);
    let s7 = expand_one_from(s6, 0, "etc."@, "etcetera"@);
    let s8 = expand_one_from(s7, 0, "i.e."@, "that is"@);
    expand_one_from(s8, 0, "e.g."@, "for example"@)
}

fn expand_abbreviations(v: &Vec<char>) -> (r: Vec<char>)
    ensures
        r@ == expand_abbreviations_spec(v@),
{
    proof {
        reveal_strlit("Mr.");
        reveal_strlit("Mrs.");
        reveal_strlit("Dr.");
        reveal_strlit("Prof.");
        reveal_strlit("St.");
        reveal_strlit("vs.");
        reveal_strlit("etc.");
        reveal_strlit("i.e.");
        reveal_strlit("e.g.");
    }
    let s1 = expand_one(v, &chars_of("Mr."), &chars_of("Mister"));
    let s2 = expand_one(&s1, &chars_of("Mrs."), &chars_of("Missus"));
    let s3 = expand_one(&s2, &chars_of("Dr."), &chars_of("Doctor"));
    let s4 = expand_one(&s3, &chars_of("Prof."), &chars_of("Professor"));
    let s5 = expand_one(&s4, &chars_of("St."), &chars_of("Saint"));
    let s6 = expand_one(&s5, &chars_of("vs."), &chars_of("versus"));
    let s7 = expand_one(&s6, &chars_of("etc."), &chars_of("etcetera"));
    let s8 = expand_one(&s7, &chars_of("i.e."), &chars_of("that is"));
    expand_one(&s8, &chars_of("e.g."), &chars_of("for example"))
}

#[via_fn]
proof fn sentence_gap_from_dec(s: Seq<char>, i: int) {
    if 0 <= i < s.len() {
        lemma_space_run_end(s, i + 1);
    }
}

/// A capital letter following sentence-terminal punctuation gets exactly
/// one separating space, inserting one where it is missing.
pub open spec fn sentence_gap_from(s: Seq<char>, i: int) -> Seq<char>
    decreases s.len() - i,
    when 0 <= i <= s.len()
    via sentence_gap_from_dec
{
    if i >= s.len() {
        Seq::empty()
    } else if is_sentence_end(s[i]) && space_run_end(s, i + 1) < s.len() && is_upper(
        s[space_run_end(s, i + 1)],
    ) {
        seq![s[i], ' '] + sentence_gap_from(s, space_run_end(s, i + 1))
    } else {
        seq![s[i]] + sentence_gap_from(s, i + 1)
    }
}

fn sentence_gap(v: &Vec<char>) -> (r: Vec<char>)
    ensures
        r@ == sentence_gap_from(v@, 0),
{
    let n = v.len();
    let mut r: Vec<char> = Vec::new();
    let mut i: usize = 0;
    while i < n
        invariant
            i <= n,
            n == v@.len(),
            r@ + sentence_gap_from(v@, i as int) =~= sentence_gap_from(v@, 0),
        decreases n - i,
    {
        let mut matched = false;
        let mut jump: usize = 0;
        if sentence_end_char(v[i]) {
            let e = scan_space_run(v, i + 1);
            if e < n && upper_char(v[e]) {
                matched = true;
                jump = e;
            }
        }
        if matched {
            proof {
                lemma_space_run_end(v@, i + 1);
            }
            r.push(v[i]);
            r.push(' ');
            proof {
                assert(r@ + sentence_gap_from(v@, jump as int) =~= sentence_gap_from(v@, 0));
            }
            i = jump;
        } else {
            r.push(v[i]);
            proof {
                assert(r@ + sentence_gap_from(v@, i + 1) =~= sentence_gap_from(v@, 0));
            }
            i = i + 1;
        }
    }
    proof {
        assert(r@ =~= sentence_gap_from(v@, 0));
    }
    r
}

/// The fixed ordered sequence of structural cleanup passes that every
/// normalization applies.
pub open spec fn base_passes(s: Seq<char>) -> Seq<char> {
    let a = strip_entities_from(s, 0);
    let b = collapse_ws_from(a, 0);
    let c = fix_standalone(b, 'l', 'I');
    let d = fix_standalone(c, 'O', '0');
    let e = strip_page_refs_from(d, 0);
    let f = strip_number_ranges_from(e, 0);
    let g = unify_glyphs_spec(f);
    let h = collapse_ellipsis_from(g, 0);
    let p = drop_space_before_punct_from(h, 0);
    single_space_after_punct_from(p, 0)
}

/// The additional aggressive rewrites, applied after the structural passes.
pub open spec fn aggressive_passes(s: Seq<char>) -> Seq<char> {
    sentence_gap_from(expand_abbreviations_spec(repair_hyphenation_from(s, 0)), 0)
}

/// What normalization returns: the structural passes, then — when
/// aggressive cleanup is on — the semantic rewrites, then a final trim.
pub open spec fn normalize_spec(s: Seq<char>, aggressive: bool) -> Seq<char> {
    if aggressive {
        trimmed(aggressive_passes(base_passes(s)))
    } else {
        trimmed(base_passes(s))
    }
}

/// Cleans raw extracted text into speech-friendly prose. The structural
/// fixes always run in a fixed order; `aggressive` additionally repairs
/// broken hyphenation, expands the abbreviation table and restores the
/// spacing after sentence ends. Pure text transformation with no error
/// conditions; the result may be empty and is not checked here.
pub fn normalize(text: &str, aggressive: bool) -> (r: String)
    ensures
        r@ == normalize_spec(text@, aggressive),
{
    let v = chars_of(text);
    let a = strip_entities(&v);
    let b = collapse_ws(&a);
    let c = apply_standalone(&b, 'l', 'I');
    let d = apply_standalone(&c, 'O', '0');
    let e = strip_page_refs(&d);
    let f = strip_number_ranges(&e);
    let g = unify_glyphs(&f);
    let h = collapse_ellipsis(&g);
    let p = drop_space_before_punct(&h);
    let q = single_space_after_punct(&p);
    if aggressive {
        let k = repair_hyphenation(&q);
        let l = expand_abbreviations(&k);
        let m = sentence_gap(&l);
        let t = trim_chars(&m);
        string_of(&t)
    } else {
        let t = trim_chars(&q);
        string_of(&t)
    }
}

} // verus!
