use vstd::prelude::*;
use crate::errors::Error;

verus! {

/// Unique, totally ordered key for one resolved dependency in a run: the
/// package's name, version and source discriminator rendered as one string.
#[derive(Debug)]
pub struct PackageId {
    pub repr: String,
}

impl View for PackageId {
    type V = Seq<char>;

    open spec fn view(&self) -> Seq<char> {
        self.repr@
    }
}

impl DeepView for PackageId {
    type V = Seq<char>;

    open spec fn deep_view(&self) -> Seq<char> {
        self.repr@
    }
}

impl PackageId {
    /// Wraps the rendered identity string.
    pub fn new(repr: String) -> (r: PackageId)
        ensures
            r@ == repr@,
    {
        PackageId { repr }
    }

    /// A copy of this identity.
    pub fn dup(&self) -> (r: PackageId)
        ensures
            r@ == self@,
    {
        PackageId { repr: self.repr.clone() }
    }

    /// Equality of identities, decided on the rendered string.
    pub fn same(&self, other: &PackageId) -> (r: bool)
        ensures
            r == (self@ == other@),
    {
        self.repr == other.repr
    }
}

/// The key-value pairs carried by an entry sequence, as plain values.
pub open spec fn pairs_view(s: Seq<(PackageId, String)>) -> Seq<(Seq<char>, Seq<char>)> {
    s.map_values(|e: (PackageId, String)| (e.0@, e.1@))
}

/// Whether the first components of the pairs are pairwise distinct.
pub open spec fn distinct_firsts(s: Seq<(Seq<char>, Seq<char>)>) -> bool {
    forall|i: int, j: int| 0 <= i < j < s.len() ==> s[i].0 != s[j].0
}

/// The mapping that a pair sequence denotes; on a duplicated key the later
/// pair wins.
pub open spec fn pairs_map(s: Seq<(Seq<char>, Seq<char>)>) -> Map<Seq<char>, Seq<char>>
    decreases s.len(),
{
    if s.len() == 0 {
        Map::empty()
    } else {
        pairs_map(s.drop_last()).insert(s.last().0, s.last().1)
    }
}

pub proof fn lemma_pairs_map(s: Seq<(Seq<char>, Seq<char>)>)
    ensures
        forall|k: Seq<char>|
            pairs_map(s).contains_key(k) <==> exists|i: int| 0 <= i < s.len() && s[i].0 == k,
        distinct_firsts(s) ==> forall|i: int|
            0 <= i < s.len() ==> pairs_map(s).contains_key(#[trigger] s[i].0) && pairs_map(s)[s[i].0]
                == s[i].1,
    decreases s.len(),
{
    if s.len() > 0 {
        let d = s.drop_last();
        lemma_pairs_map(d);
        assert forall|k: Seq<char>| pairs_map(s).contains_key(k) implies exists|i: int|
            0 <= i < s.len() && s[i].0 == k by {
            if k == s.last().0 {
                assert(0 <= s.len() - 1 < s.len() && s[s.len() - 1].0 == k);
            } else {
                assert(pairs_map(d).contains_key(k));
                let i = choose|i: int| 0 <= i < d.len() && d[i].0 == k;
                assert(0 <= i < s.len() && s[i].0 == k);
            }
        }
        assert forall|k: Seq<char>| (exists|i: int| 0 <= i < s.len() && s[i].0 == k) implies pairs_map(
            s,
        ).contains_key(k) by {
            let i = choose|i: int| 0 <= i < s.len() && s[i].0 == k;
            if i < s.len() - 1 {
                assert(0 <= i < d.len() && d[i].0 == k);
                assert(pairs_map(d).contains_key(k));
            } else {
                assert(k == s.last().0);
            }
        }
        if distinct_firsts(s) {
            assert(distinct_firsts(d));
            assert forall|i: int| 0 <= i < s.len() implies pairs_map(s).contains_key(
                #[trigger] s[i].0,
            ) && pairs_map(s)[s[i].0] == s[i].1 by {
                if i < s.len() - 1 {
                    assert(d[i] == s[i]);
                    assert(s[i].0 != s.last().0);
                }
            }
        }
    }
}

/// Persistent mapping from package identity to content hash, held as an
/// association list with pairwise distinct keys.
#[derive(Debug)]
pub struct CacheMap {
    entries: Vec<(PackageId, String)>,
}

impl View for CacheMap {
    type V = Seq<(Seq<char>, Seq<char>)>;

    closed spec fn view(&self) -> Seq<(Seq<char>, Seq<char>)> {
        pairs_view(self.entries@)
    }
}

impl CacheMap {
    /// Keys are pairwise distinct.
    pub open spec fn wf(&self) -> bool {
        distinct_firsts(self@)
    }

    /// The mapping this cache denotes.
    pub open spec fn as_map(&self) -> Map<Seq<char>, Seq<char>> {
        pairs_map(self@)
    }

    /// The empty cache.
    pub fn new() -> (r: CacheMap)
        ensures
            r.wf(),
            r.as_map() == Map::<Seq<char>, Seq<char>>::empty(),
            r@.len() == 0,
    {
        let r = CacheMap { entries: Vec::new() };
        proof {
            assert(r@ =~= Seq::<(Seq<char>, Seq<char>)>::empty());
        }
        r
    }

    /// The number of entries.
    pub fn len(&self) -> (r: usize)
        ensures
            r == self@.len(),
    {
        self.entries.len()
    }

    /// Looks the identity up and hands back the stored hash, if any.
    pub fn get<'a>(&'a self, id: &PackageId) -> (r: Option<&'a String>)
        requires
            self.wf(),
        ensures
            match r {
                Some(h) => self.as_map().contains_key(id@) && self.as_map()[id@] == h@,
                None => !self.as_map().contains_key(id@),
            },
    {
        proof {
            lemma_pairs_map(self@);
        }
        let n = self.entries.len();
        let mut i: usize = 0;
        while i < n
            invariant
                0 <= i <= n,
                n == self.entries@.len(),
                self.wf(),
                forall|j: int| 0 <= j < i ==> self@[j].0 != id@,
            decreases n - i,
        {
            if self.entries[i].0.same(id) {
                proof {
                    assert(self@[i as int].0 == id@);
                    lemma_pairs_map(self@);
                }
                return Some(&self.entries[i].1);
            }
            i = i + 1;
        }
        proof {
            assert forall|j: int| 0 <= j < self@.len() implies self@[j].0 != id@ by {}
        }
        None
    }

    /// Whether the identity has a cached hash.
    pub fn contains(&self, id: &PackageId) -> (r: bool)
        requires
            self.wf(),
        ensures
            r == self.as_map().contains_key(id@),
    {
        self.get(id).is_some()
    }

    /// Adds an entry for an identity that has none yet.
    pub fn insert(&mut self, id: PackageId, hash: String)
        requires
            old(self).wf(),
            !old(self).as_map().contains_key(id@),
        ensures
            final(self).wf(),
            final(self).as_map() == old(self).as_map().insert(id@, hash@),
            final(self)@ == old(self)@.push((id@, hash@)),
    {
        proof {
            lemma_pairs_map(old(self)@);
        }
        let ghost idv = id@;
        let ghost hv = hash@;
        self.entries.push((id, hash));
        proof {
            assert(self@ =~= old(self)@.push((idv, hv)));
            assert(self@.drop_last() =~= old(self)@);
            assert forall|i: int, j: int| 0 <= i < j < self@.len() implies self@[i].0
                != self@[j].0 by {
                if j == self@.len() - 1 {
                    assert(!old(self).as_map().contains_key(idv));
                }
            }
        }
    }

    /// Whether the two caches denote pointwise equal mappings.
    pub fn same_mapping(&self, other: &CacheMap) -> (r: bool)
        requires
            self.wf(),
            other.wf(),
        ensures
            r == (self.as_map() == other.as_map()),
    {
        proof {
            lemma_pairs_map(self@);
            lemma_pairs_map(other@);
        }
        let n = self.entries.len();
        let mut i: usize = 0;
        while i < n
            invariant
                0 <= i <= n,
                n == self.entries@.len(),
                self.wf(),
                other.wf(),
                forall|j: int| 0 <= j < i ==> other.as_map().contains_key(#[trigger] self@[j].0)
                    && other.as_map()[self@[j].0] == self@[j].1,
            decreases n - i,
        {
            let found = other.get(&self.entries[i].0);
            match found {
                Some(h) => {
                    if !(*h == self.entries[i].1) {
                        proof {
                            lemma_pairs_map(self@);
                            assert(self.as_map()[self@[i as int].0] == self@[i as int].1);
                        }
                        return false;
                    }
                },
                None => {
                    proof {
                        lemma_pairs_map(self@);
                        assert(self.as_map().contains_key(self@[i as int].0));
                    }
                    return false;
                },
            }
            i = i + 1;
        }
        let m = other.entries.len();
        let mut k: usize = 0;
        while k < m
            invariant
                0 <= k <= m,
                m == other.entries@.len(),
                self.wf(),
                other.wf(),
                forall|j: int| 0 <= j < self@.len() ==> other.as_map().contains_key(
                    #[trigger] self@[j].0,
                ) && other.as_map()[self@[j].0] == self@[j].1,
                forall|j: int| 0 <= j < k ==> self.as_map().contains_key(#[trigger] other@[j].0),
            decreases m - k,
        {
            let found = self.get(&other.entries[k].0);
            if found.is_none() {
                proof {
                    lemma_pairs_map(other@);
                    assert(other.as_map().contains_key(other@[k as int].0));
                }
                return false;
            }
            k = k + 1;
        }
        proof {
            lemma_pairs_map(self@);
            lemma_pairs_map(other@);
            assert forall|key: Seq<char>| self.as_map().contains_key(key) implies other.as_map()
                .contains_key(key) && other.as_map()[key] == self.as_map()[key] by {
                let j = choose|j: int| 0 <= j < self@.len() && self@[j].0 == key;
                assert(self.as_map()[key] == self@[j].1);
            }
            assert forall|key: Seq<char>| other.as_map().contains_key(key) implies self.as_map()
                .contains_key(key) by {
                let j = choose|j: int| 0 <= j < other@.len() && other@[j].0 == key;
            }
            assert(self.as_map() =~= other.as_map());
        }
        true
    }
}

/// The pair sequence that the text denotes as a JSON object of strings,
/// where it is one.
pub uninterp spec fn json_hash_map_of(s: Seq<char>) -> Option<Seq<(Seq<char>, Seq<char>)>>;

/// Relies on serde_json::from_str: parsing a JSON object of string values
/// is deterministic in the input text, and an object's keys, collected
/// through a BTreeMap, are pairwise distinct.
#[verifier::external_body]
fn parse_hash_map(s: &str) -> (r: Option<Vec<(String, String)>>)
    ensures
        r.deep_view() == json_hash_map_of(s@),
        r matches Some(v) ==> distinct_firsts(v.deep_view()),
{
    let m: std::collections::BTreeMap<String, String> = match serde_json::from_str(s) {
        Ok(m) => m,
        Err(_) => return None,
    };
    Some(m.into_iter().collect())
}

/// The pretty-printed JSON object that renders the mapping, keys sorted.
pub uninterp spec fn json_render_of(m: Map<Seq<char>, Seq<char>>) -> Seq<u8>;

/// Relies on serde_json::to_vec_pretty: rendering a BTreeMap of strings
/// cannot fail and depends only on the key-value mapping, since the
/// BTreeMap orders its keys itself.
#[verifier::external_body]
fn render_hash_map(pairs: &Vec<(String, String)>) -> (r: Vec<u8>)
    requires
        distinct_firsts(pairs.deep_view()),
    ensures
        r@ == json_render_of(pairs_map(pairs.deep_view())),
{
    let m: std::collections::BTreeMap<&str, &str> = pairs.iter().map(
        |p| (p.0.as_str(), p.1.as_str()),
    ).collect();
    serde_json::to_vec_pretty(&m).unwrap_or_default()
}

/// Reads the persisted cache: a JSON object mapping identity strings to
/// hash strings.  The caller hands in the file's text, with "{}" standing
/// for a missing or unreadable file.
pub fn load_cache(text: &str) -> (r: Result<CacheMap, Error>)
    ensures
        match r {
            Ok(m) => m.wf() && (json_hash_map_of(text@) matches Some(pairs) && m.as_map()
                == pairs_map(pairs)),
            Err(e) => e == Error::CacheCorrupt && json_hash_map_of(text@) is None,
        },
{
    let pairs = match parse_hash_map(text) {
        Some(v) => v,
        None => {
            return Err(Error::CacheCorrupt);
        },
    };
    let ghost pv = pairs.deep_view();
    proof {
        lemma_pairs_map(pv);
    }
    let mut m = CacheMap::new();
    let n = pairs.len();
    let mut i: usize = 0;
    while i < n
        invariant
            0 <= i <= n,
            n == pairs@.len(),
            pv == pairs.deep_view(),
            distinct_firsts(pv),
            m.wf(),
            m@ == pv.take(i as int),
        decreases n - i,
    {
        let id = PackageId::new(pairs[i].0.clone());
        let hash = pairs[i].1.clone();
        proof {
            lemma_pairs_map(m@);
            assert(pv[i as int] == (pairs@[i as int].0@, pairs@[i as int].1@));
            assert forall|j: int| 0 <= j < i implies m@[j].0 != id@ by {
                assert(m@[j] == pv[j]);
            }
        }
        m.insert(id, hash);
        proof {
            assert(m@ =~= pv.take(i as int + 1));
        }
        i = i + 1;
    }
    proof {
        assert(m@ =~= pv);
    }
    Ok(m)
}

/// Decides persistence and produces the bytes to write: `None` when the
/// reconciled mapping equals the loaded one, so that no write occurs,
/// otherwise the rendered JSON object.
pub fn cache_bytes_if_changed(new: &CacheMap, old_cache: &CacheMap) -> (r: Option<Vec<u8>>)
    requires
        new.wf(),
        old_cache.wf(),
    ensures
        (r is None) <==> new.as_map() == old_cache.as_map(),
        r matches Some(b) ==> b@ == json_render_of(new.as_map()),
{
    if new.same_mapping(old_cache) {
        None
    } else {
        let mut pairs: Vec<(String, String)> = Vec::new();
        let n = new.len();
        let mut i: usize = 0;
        while i < n
            invariant
                0 <= i <= n,
                n == new@.len(),
                new.wf(),
                pairs.deep_view() == new@.take(i as int),
            decreases n - i,
        {
            let (id, hash) = new.entry_at(i);
            let id_s = id.repr.clone();
            let hash_s = hash.clone();
            proof {
                assert(id_s@ == new@[i as int].0);
                assert(hash_s@ == new@[i as int].1);
            }
            let ghost old_dv = pairs.deep_view();
            proof {
                assert(pairs.deep_view().len() == pairs@.len());
                assert(pairs@.len() == i);
            }
            pairs.push((id_s, hash_s));
            proof {
                assert(pairs@.len() == i + 1);
                assert forall|j: int| 0 <= j < i + 1 implies pairs.deep_view()[j] == new@.take(
                    i as int + 1,
                )[j] by {
                    if j < i {
                        assert(pairs.deep_view()[j] == old_dv[j]);
                        assert(old_dv[j] == new@[j]);
                    } else {
                        assert(pairs@[j] == (id_s, hash_s));
                    }
                }
                assert(pairs.deep_view() =~~= new@.take(i as int + 1));
            }
            i = i + 1;
        }
        proof {
            assert(pairs.deep_view() =~~= new@);
        }
        Some(render_hash_map(&pairs))
    }
}

impl CacheMap {
    /// The entry at the given position.
    pub fn entry_at<'a>(&'a self, i: usize) -> (r: (&'a PackageId, &'a String))
        requires
            i < self@.len(),
        ensures
            r.0@ == self@[i as int].0,
            r.1@ == self@[i as int].1,
    {
        let e = &self.entries[i];
        (&e.0, &e.1)
    }
}

} // verus!
