//! Output naming: decimal rendering, the zero-padded numeric prefixes that
//! make lexical file order equal chapter and segment order, and filename
//! sanitization.

use vstd::prelude::*;
use crate::textutil::{chars_of, string_of};
use crate::chunk::append_chars;

verus! {

/// One decimal digit character.
pub open spec fn dec_digit(d: int) -> char {
    if d == 0 {
        '0'
    } else if d == 1 {
        '1'
    } else if d == 2 {
        '2'
    } else if d == 3 {
        '3'
    } else if d == 4 {
        '4'
    } else if d == 5 {
        '5'
    } else if d == 6 {
        '6'
    } else if d == 7 {
        '7'
    } else if d == 8 {
        '8'
    } else {
        '9'
    }
}

fn dec_digit_char(d: u64) -> (r: char)
    requires
        d <= 9,
    ensures
        r == dec_digit(d as int),
{
    if d == 0 {
        '0'
    } else if d == 1 {
        '1'
    } else if d == 2 {
        '2'
    } else if d == 3 {
        '3'
    } else if d == 4 {
        '4'
    } else if d == 5 {
        '5'
    } else if d == 6 {
        '6'
    } else if d == 7 {
        '7'
    } else if d == 8 {
        '8'
    } else {
        '9'
    }
}

/// The decimal digits of a non-negative number, most significant first,
/// without leading zeros (zero itself is `0`).
pub open spec fn dec_chars(n: int) -> Seq<char>
    decreases n,
    when n >= 0
{
    if n < 10 {
        seq![dec_digit(n)]
    } else {
        dec_chars(n / 10) + seq![dec_digit(n % 10)]
    }
}

/// The decimal digits of a number, as characters.
pub fn u64_to_dec(n: u64) -> (r: Vec<char>)
    ensures
        r@ == dec_chars(n as int),
{
    let mut tmp: Vec<char> = Vec::new();
    let mut m: u64 = n;
    proof {
        assert(tmp@.reverse() =~= Seq::<char>::empty());
    }
    while m >= 10
        invariant
            dec_chars(n as int) =~= dec_chars(m as int) + tmp@.reverse(),
        decreases m,
    {
        let ghost t0 = tmp@;
        tmp.push(dec_digit_char(m % 10));
        proof {
            assert(tmp@.reverse() =~= seq![dec_digit((m % 10) as int)] + t0.reverse());
            assert(dec_chars(m as int) == dec_chars(m as int / 10) + seq![
                dec_digit((m % 10) as int),
            ]);
            assert(dec_chars(m as int / 10) + (seq![dec_digit((m % 10) as int)] + t0.reverse())
                =~= dec_chars(m as int) + t0.reverse());
        }
        m = m / 10;
    }
    let mut r: Vec<char> = Vec::new();
    r.push(dec_digit_char(m));
    let k = tmp.len();
    let mut j: usize = 0;
    while j < k
        invariant
            j <= k,
            k == tmp@.len(),
            r@ == seq![dec_digit(m as int)] + tmp@.reverse().take(j as int),
            m <= 9,
        decreases k - j,
    {
        r.push(tmp[k - 1 - j]);
        j = j + 1;
        proof {
            assert(tmp@.reverse()[j - 1] == tmp@[k - j]);
            assert(r@ =~= seq![dec_digit(m as int)] + tmp@.reverse().take(j as int));
        }
    }
    proof {
        assert(tmp@.reverse().take(k as int) =~= tmp@.reverse());
        assert(r@ =~= dec_chars(m as int) + tmp@.reverse());
    }
    r
}

/// The number rendered with at least three digits, zero-padded, as used in
/// chapter directory and segment file prefixes.
pub open spec fn pad3(n: int) -> Seq<char> {
    if n < 10 {
        seq!['0', '0'] + dec_chars(n)
    } else if n < 100 {
        seq!['0'] + dec_chars(n)
    } else {
        dec_chars(n)
    }
}

pub fn zero_pad3(n: u64) -> (r: Vec<char>)
    ensures
        r@ == pad3(n as int),
{
    let digits = u64_to_dec(n);
    let mut r: Vec<char> = Vec::new();
    if n < 10 {
        r.push('0');
        r.push('0');
    } else if n < 100 {
        r.push('0');
    }
    append_chars(&mut r, &digits);
    proof {
        assert(r@ =~= pad3(n as int));
    }
    r
}

/// Strict lexicographic order on character sequences, by code point.
pub open spec fn lex_lt(x: Seq<char>, y: Seq<char>) -> bool
    decreases x.len(),
{
    if y.len() == 0 {
        false
    } else if x.len() == 0 {
        true
    } else if x[0] != y[0] {
        (x[0] as u32) < (y[0] as u32)
    } else {
        lex_lt(x.skip(1), y.skip(1))
    }
}

proof fn lemma_dec_digit_monotone(i: int, j: int)
    requires
        0 <= i < j <= 9,
    ensures
        (dec_digit(i) as u32) < (dec_digit(j) as u32),
{
}

proof fn lemma_pad3_digits(n: int)
    requires
        0 <= n < 1000,
    ensures
        pad3(n) =~= seq![dec_digit(n / 100), dec_digit((n / 10) % 10), dec_digit(n % 10)],
{
    if n < 10 {
        assert(n / 100 == 0 && (n / 10) % 10 == 0 && n % 10 == n);
        assert(dec_chars(n) =~= seq![dec_digit(n)]);
    } else if n < 100 {
        assert(dec_chars(n) == dec_chars(n / 10) + seq![dec_digit(n % 10)]);
        assert(dec_chars(n / 10) =~= seq![dec_digit(n / 10)]);
        assert(n / 100 == 0 && (n / 10) % 10 == n / 10);
    } else {
        assert(dec_chars(n) == dec_chars(n / 10) + seq![dec_digit(n % 10)]);
        assert(dec_chars(n / 10) == dec_chars(n / 10 / 10) + seq![dec_digit((n / 10) % 10)]);
        assert(n / 10 / 10 == n / 100);
        assert(dec_chars(n / 100) =~= seq![dec_digit(n / 100)]);
    }
}

/// For orders below a thousand, the zero-padded prefixes sort lexically
/// exactly as the numbers sort: listing the output files in lexical order
/// reproduces chapter and segment order, as the playlist relies on.
pub proof fn lemma_pad3_lex_order(a: int, b: int)
    requires
        0 <= a < b < 1000,
    ensures
        lex_lt(pad3(a), pad3(b)),
{
    lemma_pad3_digits(a);
    lemma_pad3_digits(b);
    let xa = pad3(a);
    let xb = pad3(b);
    assert(a / 100 <= b / 100);
    if a / 100 < b / 100 {
        lemma_dec_digit_monotone(a / 100, b / 100);
        assert(xa[0] != xb[0]);
        assert(lex_lt(xa, xb));
    } else {
        assert(xa[0] == xb[0]);
        assert(xa.skip(1) =~= seq![dec_digit((a / 10) % 10), dec_digit(a % 10)]);
        assert(xb.skip(1) =~= seq![dec_digit((b / 10) % 10), dec_digit(b % 10)]);
        assert((a / 10) % 10 <= (b / 10) % 10) by {
            assert(a / 10 <= b / 10);
            assert(a / 10 / 10 == a / 100 && b / 10 / 10 == b / 100);
        }
        if (a / 10) % 10 < (b / 10) % 10 {
            lemma_dec_digit_monotone((a / 10) % 10, (b / 10) % 10);
            assert(xa.skip(1)[0] != xb.skip(1)[0]);
            assert(lex_lt(xa.skip(1), xb.skip(1)));
        } else {
            assert(a / 10 == b / 10);
            assert(a % 10 < b % 10);
            lemma_dec_digit_monotone(a % 10, b % 10);
            assert(xa.skip(1)[0] == xb.skip(1)[0]);
            assert(xa.skip(1).skip(1) =~= seq![dec_digit(a % 10)]);
            assert(xb.skip(1).skip(1) =~= seq![dec_digit(b % 10)]);
            assert(xa.skip(1).skip(1)[0] != xb.skip(1).skip(1)[0]);
            assert(lex_lt(xa.skip(1).skip(1), xb.skip(1).skip(1)));
            assert(lex_lt(xa.skip(1), xb.skip(1)));
        }
        assert(lex_lt(xa, xb));
    }
}

/// Characters that cannot stand in a file name are replaced by `_`.
pub open spec fn sanitize_char(c: char) -> char {
    if c == '<' || c == '>' || c == ':' || c == '"' || c == '/' || c == '\\' || c == '|' || c == '?'
        || c == '*' {
        '_'
    } else {
        c
    }
}

pub open spec fn sanitize_spec(s: Seq<char>) -> Seq<char> {
    Seq::new(s.len(), |i: int| sanitize_char(s[i]))
}

/// Replaces the characters that are invalid in file names by underscores.
pub fn sanitize_filename(name: &str) -> (r: String)
    ensures
        r@ == sanitize_spec(name@),
{
    let v = chars_of(name);
    let n = v.len();
    let mut out: Vec<char> = Vec::new();
    let mut i: usize = 0;
    while i < n
        invariant
            i <= n,
            n == v@.len(),
            v@ == name@,
            out@.len() == i,
            forall|j: int| 0 <= j < i ==> out@[j] == sanitize_spec(name@)[j],
        decreases n - i,
    {
        let c = v[i];
        if c == '<' || c == '>' || c == ':' || c == '"' || c == '/' || c == '\\' || c == '|' || c
            == '?' || c == '*' {
            out.push('_');
        } else {
            out.push(c);
        }
        i = i + 1;
    }
    proof {
        assert(out@ =~= sanitize_spec(name@));
    }
    string_of(&out)
}

/// The directory name of one chapter: zero-padded order, underscore,
/// sanitized title.
pub open spec fn chapter_dir_spec(order: int, title: Seq<char>) -> Seq<char> {
    pad3(order) + seq!['_'] + sanitize_spec(title)
}

pub fn chapter_dir_name(order: u64, title: &str) -> (r: String)
    ensures
        r@ == chapter_dir_spec(order as int, title@),
{
    let mut v = zero_pad3(order);
    v.push('_');
    let t = chars_of(title);
    let n = t.len();
    let ghost base = v@;
    let mut i: usize = 0;
    while i < n
        invariant
            i <= n,
            n == t@.len(),
            t@ == title@,
            v@.len() == base.len() + i,
            v@.take(base.len() as int) == base,
            forall|j: int| 0 <= j < i ==> v@[base.len() + j] == sanitize_spec(title@)[j],
        decreases n - i,
    {
        let c = t[i];
        if c == '<' || c == '>' || c == ':' || c == '"' || c == '/' || c == '\\' || c == '|' || c
            == '?' || c == '*' {
            v.push('_');
        } else {
            v.push(c);
        }
        i = i + 1;
        proof {
            assert(v@.take(base.len() as int) =~= base);
        }
    }
    proof {
        assert(base =~= pad3(order as int) + seq!['_']);
        assert forall|j: int| 0 <= j < base.len() implies v@[j] == base[j] by {
            assert(v@.take(base.len() as int)[j] == v@[j]);
        }
        assert(v@ =~= chapter_dir_spec(order as int, title@));
    }
    string_of(&v)
}

/// The file name of one audio segment: zero-padded segment index,
/// underscore, sanitized title, dot, format extension.
pub open spec fn chunk_file_spec(idx: int, title: Seq<char>, ext: Seq<char>) -> Seq<char> {
    pad3(idx) + seq!['_'] + sanitize_spec(title) + seq!['.'] + ext
}

pub fn chunk_file_name(idx: u64, title: &str, ext: &str) -> (r: String)
    ensures
        r@ == chunk_file_spec(idx as int, title@, ext@),
{
    let sane = sanitize_filename(title);
    let mut v = zero_pad3(idx);
    v.push('_');
    let sv = chars_of(sane.as_str());
    append_chars(&mut v, &sv);
    v.push('.');
    let ev = chars_of(ext);
    append_chars(&mut v, &ev);
    proof {
        assert(v@ =~= chunk_file_spec(idx as int, title@, ext@));
    }
    string_of(&v)
}

} // verus!
