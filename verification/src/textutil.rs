//! Character-level ground work: character classes, conversions between
//! strings and character vectors, trimming, and the word decomposition that
//! the chunking guarantees are stated over.

use vstd::prelude::*;

verus! {

/// Whitespace as the cleanup rules understand it.
pub open spec fn is_space(c: char) -> bool {
    c == ' ' || c == '\t' || c == '\n' || c == '\r' || c == '\u{000C}'
}

/// Word constituents: ASCII letters, digits and the underscore.
pub open spec fn is_word_char(c: char) -> bool {
    ('a' <= c && c <= 'z') || ('A' <= c && c <= 'Z') || ('0' <= c && c <= '9') || c == '_'
}

pub open spec fn is_digit(c: char) -> bool {
    '0' <= c && c <= '9'
}

pub open spec fn is_upper(c: char) -> bool {
    'A' <= c && c <= 'Z'
}

/// Sentence-terminal punctuation.
pub open spec fn is_sentence_end(c: char) -> bool {
    c == '.' || c == '!' || c == '?'
}

pub fn space_char(c: char) -> (r: bool)
    ensures
        r == is_space(c),
{
    c == ' ' || c == '\t' || c == '\n' || c == '\r' || c == '\u{000C}'
}

pub fn word_char(c: char) -> (r: bool)
    ensures
        r == is_word_char(c),
{
    ('a' <= c && c <= 'z') || ('A' <= c && c <= 'Z') || ('0' <= c && c <= '9') || c == '_'
}

pub fn digit_char(c: char) -> (r: bool)
    ensures
        r == is_digit(c),
{
    '0' <= c && c <= '9'
}

pub fn upper_char(c: char) -> (r: bool)
    ensures
        r == is_upper(c),
{
    'A' <= c && c <= 'Z'
}

pub fn sentence_end_char(c: char) -> (r: bool)
    ensures
        r == is_sentence_end(c),
{
    c == '.' || c == '!' || c == '?'
}

/// The characters of a string slice, in order.
pub fn chars_of(s: &str) -> (r: Vec<char>)
    ensures
        r@ == s@,
{
    let n = s.unicode_len();
    let mut r: Vec<char> = Vec::new();
    let mut i: usize = 0;
    while i < n
        invariant
            n == s@.len(),
            i <= n,
            r@ == s@.take(i as int),
        decreases n - i,
    {
        r.push(s.get_char(i));
        i = i + 1;
        proof {
            assert(r@ =~= s@.take(i as int));
        }
    }
    proof {
        assert(s@.take(n as int) =~= s@);
    }
    r
}

/// Relies on `String::push`: appends exactly the given character.
#[verifier::external_body]
fn push_char(s: &mut String, c: char)
    ensures
        final(s)@ == old(s)@.push(c),
{
    s.push(c);
}

/// A `String` holding exactly the given characters.
pub fn string_of(v: &Vec<char>) -> (r: String)
    ensures
        r@ == v@,
{
    let mut r = String::new();
    let mut i: usize = 0;
    while i < v.len()
        invariant
            i <= v@.len(),
            r@ == v@.take(i as int),
        decreases v@.len() - i,
    {
        push_char(&mut r, v[i]);
        i = i + 1;
        proof {
            assert(r@ =~= v@.take(i as int));
        }
    }
    proof {
        assert(v@.take(v@.len() as int) =~= v@);
    }
    r
}

/// Whether two string slices hold the same characters.
pub fn str_eq(a: &str, b: &str) -> (r: bool)
    ensures
        r == (a@ == b@),
{
    let n = a.unicode_len();
    if n != b.unicode_len() {
        return false;
    }
    let mut i: usize = 0;
    while i < n
        invariant
            i <= n,
            n == a@.len(),
            n == b@.len(),
            forall|j: int| 0 <= j < i ==> a@[j] == b@[j],
        decreases n - i,
    {
        if a.get_char(i) != b.get_char(i) {
            return false;
        }
        i = i + 1;
    }
    proof {
        assert(a@ =~= b@);
    }
    true
}

/// The deep view of a vector of character vectors is the sequence of the
/// elements' views.
pub proof fn lemma_deep_view_chars(v: Vec<Vec<char>>)
    ensures
        v.deep_view().len() == v@.len(),
        forall|k: int| 0 <= k < v@.len() ==> v.deep_view()[k] == v@[k]@,
{
    assert forall|k: int| 0 <= k < v@.len() implies v.deep_view()[k] == v@[k]@ by {
        assert(v.deep_view()[k] =~= v@[k]@);
    }
}

/// The sequence without its leading whitespace.
pub open spec fn drop_leading_spaces(s: Seq<char>) -> Seq<char>
    decreases s.len(),
{
    if s.len() > 0 && is_space(s[0]) {
        drop_leading_spaces(s.skip(1))
    } else {
        s
    }
}

/// The sequence without its trailing whitespace.
pub open spec fn drop_trailing_spaces(s: Seq<char>) -> Seq<char>
    decreases s.len(),
{
    if s.len() > 0 && is_space(s[s.len() - 1]) {
        drop_trailing_spaces(s.drop_last())
    } else {
        s
    }
}

/// The sequence without leading and trailing whitespace.
pub open spec fn trimmed(s: Seq<char>) -> Seq<char> {
    drop_trailing_spaces(drop_leading_spaces(s))
}

proof fn lemma_drop_trailing_is_take(s: Seq<char>)
    ensures
        exists|k: int|
            0 <= k <= s.len() && drop_trailing_spaces(s) == s.take(k) && (forall|i: int|
                k <= i < s.len() ==> is_space(s[i])),
    decreases s.len(),
{
    if s.len() > 0 && is_space(s[s.len() - 1]) {
        lemma_drop_trailing_is_take(s.drop_last());
        let k0 = choose|k0: int|
            0 <= k0 <= s.drop_last().len() && drop_trailing_spaces(s.drop_last())
                == s.drop_last().take(k0) && (forall|i: int|
                k0 <= i < s.drop_last().len() ==> is_space(s.drop_last()[i]));
        assert(s.drop_last().take(k0) =~= s.take(k0));
        assert(forall|i: int| k0 <= i < s.len() ==> is_space(s[i])) by {
            assert(forall|i: int| k0 <= i < s.len() - 1 ==> s[i] == s.drop_last()[i]);
        }
    } else {
        assert(drop_trailing_spaces(s) == s.take(s.len() as int)) by {
            assert(s.take(s.len() as int) =~= s);
        }
    }
}

/// A trimmed, non-empty sequence neither starts nor ends with whitespace.
pub proof fn lemma_trimmed_edges(s: Seq<char>)
    ensures
        trimmed(s).len() > 0 ==> !is_space(trimmed(s)[0]),
        trimmed(s).len() > 0 ==> !is_space(trimmed(s)[trimmed(s).len() - 1]),
    decreases s.len(),
{
    let d = drop_leading_spaces(s);
    lemma_drop_leading_head(s);
    lemma_drop_trailing_last(d);
    if trimmed(s).len() > 0 {
        lemma_drop_trailing_is_take(d);
        let k = choose|k: int|
            0 <= k <= d.len() && drop_trailing_spaces(d) == d.take(k) && (forall|i: int|
                k <= i < d.len() ==> is_space(d[i]));
        assert(trimmed(s)[0] == d[0]);
    }
}

proof fn lemma_drop_leading_head(s: Seq<char>)
    ensures
        drop_leading_spaces(s).len() > 0 ==> !is_space(drop_leading_spaces(s)[0]),
    decreases s.len(),
{
    if s.len() > 0 && is_space(s[0]) {
        lemma_drop_leading_head(s.skip(1));
    }
}

proof fn lemma_drop_trailing_last(s: Seq<char>)
    ensures
        drop_trailing_spaces(s).len() > 0 ==> !is_space(
            drop_trailing_spaces(s)[drop_trailing_spaces(s).len() - 1],
        ),
    decreases s.len(),
{
    if s.len() > 0 && is_space(s[s.len() - 1]) {
        lemma_drop_trailing_last(s.drop_last());
    }
}

/// Characters with surrounding whitespace removed.
pub fn trim_chars(v: &Vec<char>) -> (r: Vec<char>)
    ensures
        r@ == trimmed(v@),
{
    let n = v.len();
    let mut a: usize = 0;
    while a < n && space_char(v[a])
        invariant
            a <= n,
            n == v@.len(),
            forall|i: int| 0 <= i < a ==> is_space(v@[i]),
        decreases n - a,
    {
        a = a + 1;
    }
    let mut b: usize = n;
    while b > a && space_char(v[b - 1])
        invariant
            a <= b <= n,
            n == v@.len(),
            forall|i: int| 0 <= i < a ==> is_space(v@[i]),
            forall|i: int| b <= i < n ==> is_space(v@[i]),
        decreases b,
    {
        b = b - 1;
    }
    let mut r: Vec<char> = Vec::new();
    let mut i: usize = a;
    while i < b
        invariant
            a <= i <= b <= n,
            n == v@.len(),
            r@ == v@.subrange(a as int, i as int),
        decreases b - i,
    {
        r.push(v[i]);
        i = i + 1;
        proof {
            assert(r@ =~= v@.subrange(a as int, i as int));
        }
    }
    proof {
        lemma_trim_segment(v@, a as int, b as int);
    }
    r
}

proof fn lemma_trim_segment(s: Seq<char>, a: int, b: int)
    requires
        0 <= a <= b <= s.len(),
        forall|i: int| 0 <= i < a ==> is_space(s[i]),
        forall|i: int| b <= i < s.len() ==> is_space(s[i]),
        a < b ==> !is_space(s[a]),
        a < b ==> !is_space(s[b - 1]),
        a == b ==> a == s.len() || (forall|i: int| 0 <= i < s.len() ==> is_space(s[i])),
    ensures
        trimmed(s) == s.subrange(a, b),
{
    if a < b || a == s.len() {
        lemma_drop_leading_spaces_count(s, a);
        let d = s.skip(a);
        if a < b {
            lemma_drop_trailing_spaces_count(d, b - a);
            assert(d.take(b - a) =~= s.subrange(a, b));
        } else {
            assert(d.len() == 0);
            assert(trimmed(s) == d);
            assert(d =~= s.subrange(a, b));
        }
    } else {
        // the whole sequence is whitespace
        assert(forall|i: int| 0 <= i < s.len() ==> is_space(s[i]));
        lemma_drop_leading_spaces_count(s, s.len() as int);
        let d = s.skip(s.len() as int);
        assert(d.len() == 0);
        assert(trimmed(s) == d);
        assert(d =~= s.subrange(a, b));
    }
}

proof fn lemma_drop_leading_spaces_count(s: Seq<char>, a: int)
    requires
        0 <= a <= s.len(),
        forall|i: int| 0 <= i < a ==> is_space(s[i]),
        a < s.len() ==> !is_space(s[a]),
    ensures
        drop_leading_spaces(s) == s.skip(a),
    decreases s.len(),
{
    if a == 0 {
        assert(s.skip(0) =~= s);
    } else {
        lemma_drop_leading_spaces_count(s.skip(1), a - 1);
        assert(forall|i: int| 0 <= i < a - 1 ==> s.skip(1)[i] == s[i + 1]);
        assert(s.skip(1).skip(a - 1) =~= s.skip(a));
    }
}

proof fn lemma_drop_trailing_spaces_count(s: Seq<char>, b: int)
    requires
        0 <= b <= s.len(),
        forall|i: int| b <= i < s.len() ==> is_space(s[i]),
        b > 0 ==> !is_space(s[b - 1]),
    ensures
        drop_trailing_spaces(s) == s.take(b),
    decreases s.len(),
{
    if b == s.len() {
        assert(s.take(b) =~= s);
    } else {
        lemma_drop_trailing_spaces_count(s.drop_last(), b);
        assert(forall|i: int| b <= i < s.len() - 1 ==> s.drop_last()[i] == s[i]);
        assert(s.drop_last().take(b) =~= s.take(b));
    }
}

/// The whitespace-separated words of a sequence, in order, without empties.
/// A non-space character either opens a new word or, when the next character
/// is also non-space, extends the word that follows it.
pub open spec fn words(s: Seq<char>) -> Seq<Seq<char>>
    decreases s.len(),
{
    if s.len() == 0 {
        Seq::empty()
    } else if is_space(s[0]) {
        words(s.skip(1))
    } else {
        let rest = words(s.skip(1));
        if s.len() > 1 && !is_space(s[1]) {
            seq![seq![s[0]] + rest[0]] + rest.skip(1)
        } else {
            seq![seq![s[0]]] + rest
        }
    }
}

/// A sequence opening with a non-space character has a first word that
/// starts with it.
pub proof fn lemma_words_head(s: Seq<char>)
    requires
        s.len() > 0,
        !is_space(s[0]),
    ensures
        words(s).len() >= 1,
        words(s)[0].len() >= 1,
        words(s)[0][0] == s[0],
    decreases s.len(),
{
    if s.len() > 1 && !is_space(s[1]) {
        lemma_words_head(s.skip(1));
    }
}

/// Words joined by single spaces.
pub open spec fn join_spaces(ws: Seq<Seq<char>>) -> Seq<char>
    decreases ws.len(),
{
    if ws.len() == 0 {
        Seq::empty()
    } else if ws.len() == 1 {
        ws[0]
    } else {
        ws[0] + seq![' '] + join_spaces(ws.skip(1))
    }
}

/// Whitespace normalization: the words of the text joined by single spaces.
pub open spec fn wsnorm(s: Seq<char>) -> Seq<char> {
    join_spaces(words(s))
}

/// The words of each piece, concatenated in order.
pub open spec fn flat_words(ps: Seq<Seq<char>>) -> Seq<Seq<char>>
    decreases ps.len(),
{
    if ps.len() == 0 {
        Seq::empty()
    } else {
        words(ps[0]) + flat_words(ps.skip(1))
    }
}

/// Splitting at an inserted whitespace character splits the word list.
pub proof fn lemma_words_append_sep(a: Seq<char>, c: char, b: Seq<char>)
    requires
        is_space(c),
    ensures
        words(a + seq![c] + b) == words(a) + words(b),
    decreases a.len(),
{
    let s = a + seq![c] + b;
    if a.len() == 0 {
        assert(s =~= seq![c] + b);
        assert(is_space(s[0]));
        assert(s.skip(1) =~= b);
        assert(words(a) + words(b) =~= words(b));
    } else if is_space(a[0]) {
        assert(s[0] == a[0]);
        lemma_words_append_sep(a.skip(1), c, b);
        assert(s.skip(1) =~= a.skip(1) + seq![c] + b);
    } else {
        assert(s[0] == a[0]);
        lemma_words_append_sep(a.skip(1), c, b);
        assert(s.skip(1) =~= a.skip(1) + seq![c] + b);
        let rest_s = words(s.skip(1));
        if a.len() == 1 {
            assert(s[1] == c);
            assert(is_space(s[1]));
            assert(a.skip(1) =~= Seq::<char>::empty());
            assert(rest_s == words(b));
            assert(words(s) == seq![seq![s[0]]] + words(b));
            assert(words(a) =~= seq![seq![a[0]]]);
            assert(seq![seq![a[0]]] + words(b) =~= words(a) + words(b));
        } else if is_space(a[1]) {
            assert(s[1] == a[1]);
            assert(words(s) == seq![seq![s[0]]] + rest_s);
            assert(words(a) == seq![seq![a[0]]] + words(a.skip(1)));
            assert(seq![seq![a[0]]] + (words(a.skip(1)) + words(b)) =~= (seq![seq![a[0]]] + words(
                a.skip(1),
            )) + words(b));
        } else {
            assert(s[1] == a[1]);
            assert(!is_space(s[1]));
            lemma_words_head(a.skip(1));
            let wa = words(a.skip(1));
            assert(rest_s == wa + words(b));
            assert(wa.len() >= 1);
            assert(rest_s[0] == wa[0]);
            assert(rest_s.skip(1) =~= wa.skip(1) + words(b));
            assert(words(s) == seq![seq![s[0]] + rest_s[0]] + rest_s.skip(1));
            assert(words(a) == seq![seq![a[0]] + wa[0]] + wa.skip(1));
            assert(seq![seq![a[0]] + wa[0]] + (wa.skip(1) + words(b)) =~= (seq![seq![a[0]] + wa[0]]
                + wa.skip(1)) + words(b));
        }
    }
}

/// A trailing whitespace character changes no words.
pub proof fn lemma_words_trailing_space(a: Seq<char>, c: char)
    requires
        is_space(c),
    ensures
        words(a + seq![c]) == words(a),
{
    lemma_words_append_sep(a, c, Seq::empty());
    assert(a + seq![c] + Seq::<char>::empty() =~= a + seq![c]);
    assert(words(a) + words(Seq::<char>::empty()) =~= words(a));
}

/// Trimming changes no words.
pub proof fn lemma_words_trimmed(s: Seq<char>)
    ensures
        words(trimmed(s)) == words(s),
{
    lemma_words_drop_leading(s);
    lemma_words_drop_trailing(drop_leading_spaces(s));
}

proof fn lemma_words_drop_leading(s: Seq<char>)
    ensures
        words(drop_leading_spaces(s)) == words(s),
    decreases s.len(),
{
    if s.len() > 0 && is_space(s[0]) {
        lemma_words_drop_leading(s.skip(1));
    }
}

proof fn lemma_words_drop_trailing(s: Seq<char>)
    ensures
        words(drop_trailing_spaces(s)) == words(s),
    decreases s.len(),
{
    if s.len() > 0 && is_space(s[s.len() - 1]) {
        lemma_words_drop_trailing(s.drop_last());
        lemma_words_trailing_space(s.drop_last(), s[s.len() - 1]);
        assert(s.drop_last() + seq![s[s.len() - 1]] =~= s);
    }
}

/// Joining one more piece in front splits the word list.
pub proof fn lemma_words_join_cons(c: Seq<char>, rest: Seq<Seq<char>>)
    ensures
        words(join_spaces(seq![c] + rest)) == words(c) + words(join_spaces(rest)),
{
    let ws = seq![c] + rest;
    if rest.len() == 0 {
        assert(ws.len() == 1);
        assert(ws[0] == c);
        assert(words(c) + words(join_spaces(rest)) =~= words(c));
    } else {
        assert(ws.len() >= 2);
        assert(ws[0] == c);
        assert(ws.skip(1) =~= rest);
        lemma_words_append_sep(c, ' ', join_spaces(rest));
    }
}

/// The words of a space-joined list are the concatenated words of its pieces.
pub proof fn lemma_words_join_flat(ps: Seq<Seq<char>>)
    ensures
        words(join_spaces(ps)) == flat_words(ps),
    decreases ps.len(),
{
    if ps.len() == 0 {
    } else {
        assert(seq![ps[0]] + ps.skip(1) =~= ps);
        lemma_words_join_cons(ps[0], ps.skip(1));
        lemma_words_join_flat(ps.skip(1));
    }
}

} // verus!
