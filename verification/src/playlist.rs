//! Playlist assembly: the produced audio segments, which parallel workers
//! may report in any completion order, are put back into chapter and
//! segment order and rendered as a sequential playlist. Order comes from
//! the numeric identities, never from completion timing.

use vstd::prelude::*;
use vstd::string::*;
use crate::textutil::string_of;
use crate::chunk::append_chars;

verus! {

/// One produced audio segment: its stable identity and where its file
/// stands.
#[derive(Clone)]
pub struct PlaylistEntry {
    pub chapter_order: usize,
    pub chunk_index: usize,
    pub dir_name: String,
    pub file_name: String,
}

/// Chapter order first, segment index second.
pub open spec fn entry_le(a: PlaylistEntry, b: PlaylistEntry) -> bool {
    a.chapter_order < b.chapter_order || (a.chapter_order == b.chapter_order && a.chunk_index
        <= b.chunk_index)
}

pub open spec fn entries_sorted(s: Seq<PlaylistEntry>) -> bool {
    forall|i: int, j: int| 0 <= i < j < s.len() ==> entry_le(s[i], s[j])
}

fn entry_le_exec(a: &PlaylistEntry, b: &PlaylistEntry) -> (r: bool)
    ensures
        r == entry_le(*a, *b),
{
    a.chapter_order < b.chapter_order || (a.chapter_order == b.chapter_order && a.chunk_index
        <= b.chunk_index)
}

/// The entries in chapter/segment order, whatever order the workers
/// finished in: the result is sorted and holds exactly the given entries.
pub fn sort_entries(entries: Vec<PlaylistEntry>) -> (r: Vec<PlaylistEntry>)
    ensures
        entries_sorted(r@),
        r@.to_multiset() == entries@.to_multiset(),
        r@.len() == entries@.len(),
{
    broadcast use vstd::seq_lib::group_to_multiset_ensures;

    let mut src = entries;
    let mut out: Vec<PlaylistEntry> = Vec::new();
    let ghost full = src@.to_multiset();
    proof {
        assert(out@.to_multiset().add(src@.to_multiset()) =~= full);
    }
    while src.len() > 0
        invariant
            entries_sorted(out@),
            out@.to_multiset().add(src@.to_multiset()) == full,
            full == entries@.to_multiset(),
            out@.len() + src@.len() == entries@.len(),
            forall|i: int, j: int|
                0 <= i < out@.len() && 0 <= j < src@.len() ==> entry_le(out@[i], src@[j]),
        decreases src@.len(),
    {
        let n = src.len();
        let mut best: usize = 0;
        let mut j: usize = 1;
        while j < n
            invariant
                best < j <= n,
                n == src@.len(),
                forall|k: int| 0 <= k < j ==> entry_le(src@[best as int], src@[k]),
            decreases n - j,
        {
            if !entry_le_exec(&src[best], &src[j]) {
                proof {
                    assert forall|k: int| 0 <= k < j + 1 implies entry_le(
                        src@[j as int],
                        src@[k],
                    ) by {
                        if k < j {
                            assert(entry_le(src@[best as int], src@[k]));
                        }
                    }
                }
                best = j;
            }
            j = j + 1;
        }
        let ghost s0 = src@;
        let ghost o0 = out@;
        let e = src.remove(best);
        out.push(e);
        proof {
            o0.to_multiset_ensures();
            s0.to_multiset_ensures();
            assert(out@ == o0.push(e));
            assert(src@ == s0.remove(best as int));
            assert(o0.push(e).to_multiset() =~= o0.to_multiset().insert(e));
            assert(s0.remove(best as int).to_multiset() =~= s0.to_multiset().remove(
                s0[best as int],
            ));
            assert(s0.contains(s0[best as int]));
            assert(s0.to_multiset().count(s0[best as int]) > 0);
            assert(o0.to_multiset().insert(e).add(s0.to_multiset().remove(e)) =~= o0.to_multiset()
                .add(s0.to_multiset()));
            assert forall|i: int, j2: int|
                0 <= i < j2 < out@.len() implies entry_le(out@[i], out@[j2]) by {
                if j2 == out@.len() - 1 {
                    assert(entry_le(o0[i], s0[best as int]));
                }
            }
            assert forall|i: int, j2: int|
                0 <= i < out@.len() && 0 <= j2 < src@.len() implies entry_le(
                out@[i],
                src@[j2],
            ) by {
                let orig = if j2 < best { j2 } else { j2 + 1 };
                assert(src@[j2] == s0[orig]);
                if i < out@.len() - 1 {
                    assert(entry_le(o0[i], s0[orig]));
                } else {
                    assert(out@[i] == s0[best as int]);
                    assert(entry_le(s0[best as int], s0[orig]));
                }
            }
        }
    }
    out
}

/// No two entries share a (chapter, segment) identity — what the stable
/// numbering of produced segments guarantees.
pub open spec fn distinct_keys(s: Seq<PlaylistEntry>) -> bool {
    forall|i: int, j: int|
        0 <= i < j < s.len() ==> !(s[i].chapter_order == s[j].chapter_order && s[i].chunk_index
            == s[j].chunk_index)
}

/// A sorted arrangement of entries with distinct identities is unique:
/// two sorted sequences holding the same entries are equal, so the
/// playlist order is fully determined by the identities, never by the
/// order the workers finished in.
pub proof fn lemma_sorted_perm_unique(s1: Seq<PlaylistEntry>, s2: Seq<PlaylistEntry>)
    requires
        entries_sorted(s1),
        entries_sorted(s2),
        s1.to_multiset() == s2.to_multiset(),
        distinct_keys(s1),
    ensures
        s1 == s2,
    decreases s1.len(),
{
    broadcast use vstd::seq_lib::group_to_multiset_ensures;

    assert(s1.to_multiset().len() == s1.len());
    assert(s2.to_multiset().len() == s2.len());
    if s1.len() == 0 {
        assert(s2.len() == 0);
        assert(s1 =~= s2);
    } else {
        assert(s2.len() == s1.len());
        // each head is a minimal element of the shared multiset
        assert(s1.to_multiset().count(s1[0]) > 0);
        assert(s2.contains(s1[0]));
        let k = choose|k: int| 0 <= k < s2.len() && s2[k] == s1[0];
        assert(entry_le(s2[0], s1[0])) by {
            if k > 0 {
                assert(entry_le(s2[0], s2[k]));
            }
        }
        assert(s2.to_multiset().count(s2[0]) > 0);
        assert(s1.contains(s2[0]));
        let j = choose|j: int| 0 <= j < s1.len() && s1[j] == s2[0];
        assert(entry_le(s1[0], s2[0])) by {
            if j > 0 {
                assert(entry_le(s1[0], s1[j]));
            }
        }
        // both orders hold, so the identities agree; distinctness then
        // forces the heads to be the same entry
        assert(s1[j].chapter_order == s1[0].chapter_order && s1[j].chunk_index
            == s1[0].chunk_index);
        assert(j == 0);
        assert(s1[0] == s2[0]);
        // the tails hold the same entries and inherit the hypotheses
        let t1 = s1.remove(0);
        let t2 = s2.remove(0);
        assert(t1.to_multiset() =~= s1.to_multiset().remove(s1[0]));
        assert(t2.to_multiset() =~= s2.to_multiset().remove(s2[0]));
        assert(t1.to_multiset() == t2.to_multiset());
        assert(forall|a: int| 0 <= a < t1.len() ==> t1[a] == s1[a + 1]);
        assert(forall|a: int| 0 <= a < t2.len() ==> t2[a] == s2[a + 1]);
        assert(entries_sorted(t1));
        assert(entries_sorted(t2));
        assert(distinct_keys(t1));
        lemma_sorted_perm_unique(t1, t2);
        assert forall|a: int| 0 <= a < s1.len() implies s1[a] == s2[a] by {
            if a > 0 {
                assert(t1[a - 1] == t2[a - 1]);
            }
        }
        assert(s1 =~= s2);
    }
}

/// The playlist line of one segment: its directory-relative path.
pub open spec fn playlist_line(e: PlaylistEntry) -> Seq<char> {
    e.dir_name@ + seq!['/'] + e.file_name@
}

/// The playlist header line.
pub open spec fn playlist_header() -> Seq<char> {
    "#EXTM3U"@
}

/// Renders already-ordered entries as playlist lines: the header first,
/// then one directory-relative path per segment, in the given order.
pub fn render_playlist(sorted: &Vec<PlaylistEntry>) -> (r: Vec<String>)
    ensures
        r@.len() == sorted@.len() + 1,
        r@[0]@ == playlist_header(),
        forall|i: int| 0 <= i < sorted@.len() ==> r@[i + 1]@ == playlist_line(sorted@[i]),
{
    let mut r: Vec<String> = Vec::new();
    r.push("#EXTM3U".to_owned());
    let n = sorted.len();
    let mut i: usize = 0;
    while i < n
        invariant
            i <= n,
            n == sorted@.len(),
            r@.len() == i + 1,
            r@[0]@ == playlist_header(),
            forall|k: int| 0 <= k < i ==> r@[k + 1]@ == playlist_line(sorted@[k]),
        decreases n - i,
    {
        let e = &sorted[i];
        let mut line = crate::textutil::chars_of(e.dir_name.as_str());
        line.push('/');
        let fv = crate::textutil::chars_of(e.file_name.as_str());
        append_chars(&mut line, &fv);
        proof {
            assert(line@ =~= playlist_line(sorted@[i as int]));
        }
        r.push(string_of(&line));
        i = i + 1;
    }
    r
}

/// Builds the playlist for entries reported in any order: a header line,
/// then every segment exactly once, sorted by chapter and segment. For
/// entries with distinct identities the line order is fully determined:
/// any sorted arrangement of the given entries names the lines.
pub fn build_playlist(entries: Vec<PlaylistEntry>) -> (r: Vec<String>)
    ensures
        r@.len() == entries@.len() + 1,
        r@[0]@ == playlist_header(),
        exists|s: Seq<PlaylistEntry>|
            entries_sorted(s) && s.to_multiset() == entries@.to_multiset() && s.len()
                == entries@.len() && (forall|i: int|
                0 <= i < s.len() ==> r@[i + 1]@ == playlist_line(s[i])),
        forall|s: Seq<PlaylistEntry>|
            entries_sorted(s) && s.to_multiset() == entries@.to_multiset() && distinct_keys(s)
                ==> (forall|i: int| 0 <= i < s.len() ==> r@[i + 1]@ == playlist_line(s[i])),
{
    let sorted = sort_entries(entries);
    let r = render_playlist(&sorted);
    proof {
        let w = sorted@;
        assert(entries_sorted(w) && (forall|i: int|
            0 <= i < w.len() ==> r@[i + 1]@ == playlist_line(w[i])));
        assert forall|s: Seq<PlaylistEntry>|
            entries_sorted(s) && s.to_multiset() == entries@.to_multiset() && distinct_keys(
                s,
            ) implies (forall|i: int| 0 <= i < s.len() ==> r@[i + 1]@ == playlist_line(s[i])) by {
            lemma_sorted_perm_unique(s, w);
        }
    }
    r
}

} // verus!
