//! The content-addressed speech cache, modeled as a map from key to
//! waveform bytes. An entry is created on the first synthesis of a key and
//! read back unchanged afterwards, so a second request for the same key
//! needs no new synthesis. The caller keeps the entries on durable storage;
//! this model is what its directory of key-named files must behave as.

use vstd::prelude::*;
use crate::textutil::str_eq;

verus! {

/// One cached waveform under its hexadecimal key.
pub struct CacheEntry {
    pub key: String,
    pub data: Vec<u8>,
}

/// The speech cache: key-addressed waveforms, plus the run's caching flag.
pub struct SpeechCache {
    enabled: bool,
    entries: Vec<CacheEntry>,
    model: Ghost<Map<Seq<char>, Seq<u8>>>,
}

impl SpeechCache {
    /// What the cache holds: waveform bytes by key.
    pub closed spec fn contents(&self) -> Map<Seq<char>, Seq<u8>> {
        self.model@
    }

    /// Whether this run caches at all.
    pub closed spec fn spec_enabled(&self) -> bool {
        self.enabled
    }

    /// Whether this run caches at all.
    pub fn is_enabled(&self) -> (r: bool)
        ensures
            r == self.spec_enabled(),
    {
        self.enabled
    }

    /// The entries carry exactly the modeled contents, with no key twice.
    pub closed spec fn wf(&self) -> bool {
        &&& forall|i: int, j: int|
            0 <= i < j < self.entries@.len() ==> self.entries@[i].key@ != self.entries@[j].key@
        &&& forall|i: int|
            0 <= i < self.entries@.len() ==> self.model@.contains_key(
                (#[trigger] self.entries@[i]).key@,
            ) && self.model@[self.entries@[i].key@] == self.entries@[i].data@
        &&& forall|k: Seq<char>|
            self.model@.contains_key(k) ==> exists|i: int|
                0 <= i < self.entries@.len() && (#[trigger] self.entries@[i]).key@ == k
    }

    /// An empty cache.
    pub fn new(enabled: bool) -> (r: Self)
        ensures
            r.wf(),
            r.spec_enabled() == enabled,
            r.contents() == Map::<Seq<char>, Seq<u8>>::empty(),
    {
        SpeechCache {
            enabled,
            entries: Vec::new(),
            model: Ghost(Map::empty()),
        }
    }

    /// The waveform cached under `key`, or nothing on a miss; the cache is
    /// not changed.
    pub fn lookup(&self, key: &String) -> (r: Option<Vec<u8>>)
        requires
            self.wf(),
        ensures
            match r {
                Some(d) => self.contents().contains_key(key@) && d@ == self.contents()[key@],
                None => !self.contents().contains_key(key@),
            },
    {
        let n = self.entries.len();
        let mut i: usize = 0;
        while i < n
            invariant
                i <= n,
                n == self.entries@.len(),
                self.wf(),
                forall|j: int| 0 <= j < i ==> (#[trigger] self.entries@[j]).key@ != key@,
            decreases n - i,
        {
            if str_eq(self.entries[i].key.as_str(), key.as_str()) {
                let d = self.entries[i].data.clone();
                return Some(d);
            }
            i = i + 1;
        }
        proof {
            if self.contents().contains_key(key@) {
                let w = choose|w: int|
                    0 <= w < self.entries@.len() && (#[trigger] self.entries@[w]).key@ == key@;
                assert(false);
            }
        }
        None
    }

    /// Stores a waveform under its key; a later entry for the same key
    /// replaces the earlier one, which wrote identical content anyway.
    pub fn store(&mut self, key: String, data: Vec<u8>)
        requires
            old(self).wf(),
        ensures
            final(self).wf(),
            final(self).spec_enabled() == old(self).spec_enabled(),
            final(self).contents() == old(self).contents().insert(key@, data@),
    {
        let ghost m0 = self.model@;
        let n = self.entries.len();
        let mut i: usize = 0;
        while i < n
            invariant
                i <= n,
                n == self.entries@.len(),
                self.wf(),
                self.model@ == m0,
                m0 == old(self).contents(),
                self.spec_enabled() == old(self).spec_enabled(),
                forall|j: int| 0 <= j < i ==> (#[trigger] self.entries@[j]).key@ != key@,
            decreases n - i,
        {
            if str_eq(self.entries[i].key.as_str(), key.as_str()) {
                let ghost e0 = self.entries@;
                self.entries.set(i, CacheEntry { key, data });
                self.model = Ghost(m0.insert(self.entries@[i as int].key@, self.entries@[i as int].data@));
                proof {
                    assert(self.entries@[i as int].key@ == key@);
                    assert(self.entries@[i as int].data@ == data@);
                    assert(self.model@ =~= m0.insert(key@, data@));
                    assert(self.model@ =~= old(self).contents().insert(key@, data@));
                    assert forall|a: int, b: int|
                        0 <= a < b < self.entries@.len() implies self.entries@[a].key@
                        != self.entries@[b].key@ by {
                        assert(e0[a].key@ != e0[b].key@);
                    }
                    assert forall|k: Seq<char>| self.model@.contains_key(k) implies exists|w: int|
                        0 <= w < self.entries@.len() && (#[trigger] self.entries@[w]).key@ == k by {
                        if k == e0[i as int].key@ {
                            assert(self.entries@[i as int].key@ == k);
                        } else {
                            let w = choose|w: int|
                                0 <= w < e0.len() && (#[trigger] e0[w]).key@ == k;
                            assert(self.entries@[w].key@ == k);
                        }
                    }
                    assert(self.model@ =~= m0.insert(self.entries@[i as int].key@, self.entries@[i as int].data@));
                }
                return ;
            }
            i = i + 1;
        }
        let ghost e0 = self.entries@;
        self.entries.push(CacheEntry { key, data });
        self.model = Ghost(
            m0.insert(self.entries@[e0.len() as int].key@, self.entries@[e0.len() as int].data@),
        );
        proof {
            let nk = self.entries@[e0.len() as int].key@;
            let nd = self.entries@[e0.len() as int].data@;
            assert(nk == key@ && nd == data@);
            assert(self.model@ =~= m0.insert(key@, data@));
            assert forall|a: int, b: int|
                0 <= a < b < self.entries@.len() implies self.entries@[a].key@
                != self.entries@[b].key@ by {
                if b < e0.len() {
                    assert(e0[a].key@ != e0[b].key@);
                } else {
                    assert(self.entries@[a].key@ != nk);
                }
            }
            assert forall|k: Seq<char>| self.model@.contains_key(k) implies exists|w: int|
                0 <= w < self.entries@.len() && (#[trigger] self.entries@[w]).key@ == k by {
                if k == nk {
                    assert(self.entries@[e0.len() as int].key@ == k);
                } else {
                    let w = choose|w: int| 0 <= w < e0.len() && (#[trigger] e0[w]).key@ == k;
                    assert(self.entries@[w].key@ == k);
                }
            }
        }
    }
}

impl SpeechCache {
    /// Records one synthesis outcome: a produced waveform is stored under
    /// its key exactly when caching is on, and a failed synthesis —
    /// nothing produced — creates no cache entry at all; the waveform is
    /// handed back either way for the caller to encode.
    pub fn record_synthesis(&mut self, key: &String, produced: Option<Vec<u8>>) -> (r: Option<
        Vec<u8>,
    >)
        requires
            old(self).wf(),
        ensures
            final(self).wf(),
            final(self).spec_enabled() == old(self).spec_enabled(),
            produced is None ==> final(self).contents() == old(self).contents() && r is None,
            produced is Some && old(self).spec_enabled() ==> final(self).contents() == old(
                self,
            ).contents().insert(key@, produced->0@) && r == produced,
            produced is Some && !old(self).spec_enabled() ==> final(self).contents() == old(
                self,
            ).contents() && r == produced,
    {
        match produced {
            None => None,
            Some(d) => {
                if self.is_enabled() {
                    self.store(key.clone(), d.clone());
                }
                Some(d)
            },
        }
    }
}

/// After a successful synthesis is stored under key K, a later request for
/// K finds exactly the stored bytes: the cache-hit path returns content
/// byte-identical to what the first call produced, and no new synthesis is
/// needed for it.
pub proof fn lemma_cache_hit_returns_stored(
    m: Map<Seq<char>, Seq<u8>>,
    k: Seq<char>,
    d: Seq<u8>,
)
    ensures
        m.insert(k, d).contains_key(k),
        m.insert(k, d)[k] == d,
{
}

} // verus!
