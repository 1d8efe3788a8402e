//! The statistics cache: a key/value store of `(snapshot, stored-at)` pairs
//! with TTL-based freshness.  The map itself is held as an association list
//! with unique keys; its mathematical content is a `Map` from usernames to
//! snapshot views.  The same structure backs the in-memory cache and the
//! value that the file-backed cache round-trips through disk.
use vstd::prelude::*;

use crate::ContributionStats;
use crate::StatsView;

verus! {

/// View of one cache entry: key, snapshot, storage time in epoch seconds.
pub type EntryView = (Seq<char>, StatsView, u64);

/// The views of a sequence of cache entries.
pub open spec fn entry_views(s: Seq<(String, ContributionStats, u64)>) -> Seq<EntryView> {
    s.map(|i: int, e: (String, ContributionStats, u64)| (e.0@, e.1@, e.2))
}

/// No two entries share a key.
pub open spec fn unique_keys(s: Seq<EntryView>) -> bool {
    forall|i: int, j: int| #![trigger s[i], s[j]] 0 <= i < j < s.len() ==> s[i].0 != s[j].0
}

/// The map built by inserting the entries left to right.
pub open spec fn map_of(s: Seq<EntryView>) -> Map<Seq<char>, (StatsView, u64)>
    decreases s.len(),
{
    if s.len() == 0 {
        Map::empty()
    } else {
        map_of(s.drop_last()).insert(s.last().0, (s.last().1, s.last().2))
    }
}

/// An entry stored at `stored` is still fresh at `now` under `ttl`.
pub open spec fn entry_fresh(stored: u64, now: u64, ttl: u64) -> bool {
    stored <= now && now - stored < ttl
}

/// What a lookup returns: the stored snapshot when the key is present and
/// fresh, a miss otherwise.  An expired entry behaves exactly like an absent
/// one.
pub open spec fn lookup_spec(
    m: Map<Seq<char>, (StatsView, u64)>,
    key: Seq<char>,
    now: u64,
    ttl: u64,
) -> Option<StatsView> {
    if m.contains_key(key) && entry_fresh(m[key].1, now, ttl) {
        Some(m[key].0)
    } else {
        None
    }
}

/// The restriction of `m` to its fresh entries.
pub open spec fn fresh_restriction(
    m: Map<Seq<char>, (StatsView, u64)>,
    now: u64,
    ttl: u64,
) -> Map<Seq<char>, (StatsView, u64)> {
    Map::new(|k: Seq<char>| m.contains_key(k) && entry_fresh(m[k].1, now, ttl), |k: Seq<char>| m[k])
}

proof fn lemma_map_of_key(s: Seq<EntryView>, k: Seq<char>)
    ensures
        map_of(s).contains_key(k) <==> exists|i: int| 0 <= i < s.len() && #[trigger] s[i].0 == k,
    decreases s.len(),
{
    if s.len() > 0 {
        lemma_map_of_key(s.drop_last(), k);
        if s.last().0 == k {
            assert(s[s.len() - 1].0 == k);
        } else if map_of(s).contains_key(k) {
            let i = choose|i: int| 0 <= i < s.drop_last().len() && #[trigger] s.drop_last()[i].0 == k;
            assert(s[i].0 == k);
        } else {
            if exists|i: int| 0 <= i < s.len() && #[trigger] s[i].0 == k {
                let i = choose|i: int| 0 <= i < s.len() && #[trigger] s[i].0 == k;
                assert(i < s.len() - 1);
                assert(s.drop_last()[i].0 == k);
            }
        }
    }
}

proof fn lemma_map_of_index(s: Seq<EntryView>, i: int)
    requires
        unique_keys(s),
        0 <= i < s.len(),
    ensures
        map_of(s).contains_key(s[i].0),
        map_of(s)[s[i].0] == (s[i].1, s[i].2),
    decreases s.len(),
{
    if i == s.len() - 1 {
    } else {
        assert(unique_keys(s.drop_last()));
        assert(s.drop_last()[i] == s[i]);
        lemma_map_of_index(s.drop_last(), i);
        assert(s[i].0 != s.last().0);
    }
}

proof fn lemma_map_of_remove(s: Seq<EntryView>, i: int)
    requires
        unique_keys(s),
        0 <= i < s.len(),
    ensures
        map_of(s.remove(i)) =~= map_of(s).remove(s[i].0),
    decreases s.len(),
{
    if i == s.len() - 1 {
        assert(s.remove(i) =~= s.drop_last());
        lemma_map_of_key(s.drop_last(), s[i].0);
        assert(!map_of(s.drop_last()).contains_key(s[i].0)) by {
            if map_of(s.drop_last()).contains_key(s[i].0) {
                let j = choose|j: int|
                    0 <= j < s.drop_last().len() && #[trigger] s.drop_last()[j].0 == s[i].0;
                assert(s[j].0 == s[i].0);
            }
        }
        assert(map_of(s).remove(s[i].0) =~= map_of(s.drop_last()));
    } else {
        assert(unique_keys(s.drop_last()));
        assert(s.drop_last()[i] == s[i]);
        lemma_map_of_remove(s.drop_last(), i);
        assert(s.remove(i).drop_last() =~= s.drop_last().remove(i));
        assert(s.remove(i).last() == s.last());
        assert(map_of(s.remove(i)) == map_of(s.drop_last().remove(i)).insert(
            s.last().0,
            (s.last().1, s.last().2),
        ));
        assert(s[i].0 != s.last().0);
        assert(map_of(s.remove(i)) =~= map_of(s).remove(s[i].0));
    }
}

proof fn lemma_map_of_dom(s: Seq<EntryView>)
    requires
        unique_keys(s),
    ensures
        map_of(s).dom().finite(),
        map_of(s).dom().len() == s.len(),
    decreases s.len(),
{
    if s.len() > 0 {
        assert(unique_keys(s.drop_last()));
        lemma_map_of_dom(s.drop_last());
        lemma_map_of_key(s.drop_last(), s.last().0);
        assert(!map_of(s.drop_last()).contains_key(s.last().0)) by {
            if map_of(s.drop_last()).contains_key(s.last().0) {
                let j = choose|j: int|
                    0 <= j < s.drop_last().len() && #[trigger] s.drop_last()[j].0 == s.last().0;
                assert(s[j].0 == s[s.len() - 1].0);
            }
        }
        assert(map_of(s).dom() =~= map_of(s.drop_last()).dom().insert(s.last().0));
    }
}

/// The entries that survive a sweep at `now`, in their original order.
pub open spec fn fresh_filter(s: Seq<EntryView>, now: u64, ttl: u64) -> Seq<EntryView>
    decreases s.len(),
{
    if s.len() == 0 {
        Seq::empty()
    } else if entry_fresh(s.last().2, now, ttl) {
        fresh_filter(s.drop_last(), now, ttl).push(s.last())
    } else {
        fresh_filter(s.drop_last(), now, ttl)
    }
}

proof fn lemma_fresh_filter_elems(s: Seq<EntryView>, now: u64, ttl: u64)
    ensures
        forall|e: EntryView| #[trigger] fresh_filter(s, now, ttl).contains(e) ==> s.contains(e),
    decreases s.len(),
{
    if s.len() > 0 {
        lemma_fresh_filter_elems(s.drop_last(), now, ttl);
        assert forall|e: EntryView| #[trigger]
            fresh_filter(s, now, ttl).contains(e) implies s.contains(e) by {
            let f = fresh_filter(s, now, ttl);
            let i = choose|i: int| 0 <= i < f.len() && f[i] == e;
            if entry_fresh(s.last().2, now, ttl) && i == f.len() - 1 {
                assert(s[s.len() - 1] == e);
            } else {
                assert(fresh_filter(s.drop_last(), now, ttl).contains(e));
                let j = choose|j: int|
                    0 <= j < s.drop_last().len() && s.drop_last()[j] == e;
                assert(s[j] == e);
            }
        }
    }
}

proof fn lemma_fresh_filter_unique(s: Seq<EntryView>, now: u64, ttl: u64)
    requires
        unique_keys(s),
    ensures
        unique_keys(fresh_filter(s, now, ttl)),
        map_of(fresh_filter(s, now, ttl)) =~= fresh_restriction(map_of(s), now, ttl),
    decreases s.len(),
{
    let f = fresh_filter(s, now, ttl);
    if s.len() == 0 {
        assert(map_of(f) =~= fresh_restriction(map_of(s), now, ttl));
    } else {
        assert(unique_keys(s.drop_last()));
        lemma_fresh_filter_unique(s.drop_last(), now, ttl);
        lemma_fresh_filter_elems(s.drop_last(), now, ttl);
        lemma_map_of_key(s.drop_last(), s.last().0);
        let fd = fresh_filter(s.drop_last(), now, ttl);
        // the last key occurs nowhere earlier, so not among the kept entries
        assert(forall|j: int| #![trigger s[j]] 0 <= j < s.len() - 1 ==> s[j].0 != s.last().0) by {
            assert(forall|j: int| #![trigger s[j]]
                0 <= j < s.len() - 1 ==> s[j].0 != s[s.len() - 1].0);
        }
        assert(forall|j: int| #![trigger fd[j]] 0 <= j < fd.len() ==> fd[j].0 != s.last().0) by {
            assert forall|j: int| #![trigger fd[j]] 0 <= j < fd.len() implies fd[j].0 != s.last().0 by {
                assert(fd.contains(fd[j]));
                assert(s.drop_last().contains(fd[j]));
                let m = choose|m: int| 0 <= m < s.drop_last().len() && s.drop_last()[m] == fd[j];
                assert(s[m] == fd[j]);
            }
        }
        assert(!map_of(s.drop_last()).contains_key(s.last().0)) by {
            if map_of(s.drop_last()).contains_key(s.last().0) {
                let j = choose|j: int|
                    0 <= j < s.drop_last().len() && #[trigger] s.drop_last()[j].0 == s.last().0;
                assert(s[j].0 == s.last().0);
            }
        }
        lemma_map_of_key(fd, s.last().0);
        assert(!map_of(fd).contains_key(s.last().0)) by {
            if map_of(fd).contains_key(s.last().0) {
                let j = choose|j: int| 0 <= j < fd.len() && #[trigger] fd[j].0 == s.last().0;
            }
        }
        if entry_fresh(s.last().2, now, ttl) {
            assert(f == fd.push(s.last()));
            assert(f.drop_last() =~= fd);
            assert(f.last() == s.last());
            assert(map_of(f) == map_of(fd).insert(s.last().0, (s.last().1, s.last().2)));
            assert(unique_keys(f)) by {
                assert forall|i: int, j: int| #![trigger f[i], f[j]]
                    0 <= i < j < f.len() implies f[i].0 != f[j].0 by {
                    if j < f.len() - 1 {
                        assert(fd[i].0 != fd[j].0);
                    } else {
                        assert(f[i] == fd[i]);
                    }
                }
            }
            assert(map_of(f) =~= fresh_restriction(map_of(s), now, ttl));
        } else {
            assert(f == fd);
            assert(map_of(f) =~= fresh_restriction(map_of(s), now, ttl));
        }
    }
}

/// An in-process cache of statistics snapshots keyed by username.
pub struct CacheMap {
    entries: Vec<(String, ContributionStats, u64)>,
}

impl CacheMap {
    /// Keys are pairwise distinct.
    pub closed spec fn wf(&self) -> bool {
        unique_keys(entry_views(self.entries@))
    }

    /// The stored mapping from usernames to `(snapshot view, stored at)`.
    pub closed spec fn contents(&self) -> Map<Seq<char>, (StatsView, u64)> {
        map_of(entry_views(self.entries@))
    }

    /// An empty cache.
    pub fn new() -> (r: CacheMap)
        ensures
            r.wf(),
            r.contents() == Map::<Seq<char>, (StatsView, u64)>::empty(),
    {
        let r = CacheMap { entries: Vec::new() };
        proof {
            assert(entry_views(r.entries@) =~= Seq::<EntryView>::empty());
        }
        r
    }

    /// Number of entries held.
    pub fn len(&self) -> (r: usize)
        requires
            self.wf(),
        ensures
            r == self.contents().dom().len(),
    {
        proof {
            lemma_map_of_dom(entry_views(self.entries@));
        }
        self.entries.len()
    }

    /// Look up `key` at time `now`: the stored snapshot if present and fresh,
    /// a miss otherwise.
    pub fn lookup(&self, key: &str, now: u64, ttl: u64) -> (r: Option<ContributionStats>)
        requires
            self.wf(),
        ensures
            match r {
                Some(v) => lookup_spec(self.contents(), key@, now, ttl) == Some(v@),
                None => lookup_spec(self.contents(), key@, now, ttl) is None,
            },
    {
        let ghost vs = entry_views(self.entries@);
        let n = self.entries.len();
        let mut i: usize = 0;
        while i < n
            invariant
                i <= n,
                n == self.entries@.len(),
                vs == entry_views(self.entries@),
                unique_keys(vs),
                forall|j: int| #![trigger vs[j]] 0 <= j < i ==> vs[j].0 != key@,
            decreases n - i,
        {
            if crate::text::str_eq(self.entries[i].0.as_str(), key) {
                let stored = self.entries[i].2;
                proof {
                    lemma_map_of_index(vs, i as int);
                }
                if stored <= now && now - stored < ttl {
                    return Some(self.entries[i].1.clone());
                } else {
                    return None;
                }
            }
            i = i + 1;
        }
        proof {
            lemma_map_of_key(vs, key@);
            if map_of(vs).contains_key(key@) {
                let j = choose|j: int| 0 <= j < vs.len() && #[trigger] vs[j].0 == key@;
            }
        }
        None
    }

    /// Store or replace the snapshot under `key`, stamped with `now`.
    pub fn store(&mut self, key: &str, value: ContributionStats, now: u64)
        requires
            old(self).wf(),
        ensures
            final(self).wf(),
            final(self).contents() == old(self).contents().insert(key@, (value@, now)),
    {
        let ghost vs = entry_views(self.entries@);
        let n = self.entries.len();
        let mut i: usize = 0;
        let mut found: bool = false;
        while i < n && !found
            invariant
                i <= n,
                n == self.entries@.len(),
                vs == entry_views(self.entries@),
                found ==> i < n && vs[i as int].0 == key@,
                !found ==> forall|j: int| #![trigger vs[j]] 0 <= j < i ==> vs[j].0 != key@,
            decreases n - i + if found { 0int } else { 1int },
        {
            if crate::text::str_eq(self.entries[i].0.as_str(), key) {
                found = true;
            } else {
                i = i + 1;
            }
        }
        if found {
            proof {
                lemma_map_of_remove(vs, i as int);
            }
            let ghost pre = self.entries@;
            self.entries.remove(i);
            proof {
                assert(entry_views(self.entries@) =~= vs.remove(i as int));
                assert(unique_keys(vs.remove(i as int))) by {
                    assert forall|a: int, b: int| #![trigger vs.remove(i as int)[a], vs.remove(i as int)[b]]
                        0 <= a < b < vs.remove(i as int).len() implies vs.remove(
                        i as int,
                    )[a].0 != vs.remove(i as int)[b].0 by {
                        let ra = if a < i { a } else { a + 1 };
                        let rb = if b < i { b } else { b + 1 };
                        assert(vs.remove(i as int)[a] == vs[ra]);
                        assert(vs.remove(i as int)[b] == vs[rb]);
                    }
                }
            }
            self.push_new(key, value, now);
            proof {
                assert(final(self).contents() =~= old(self).contents().insert(key@, (value@, now)));
            }
        } else {
            proof {
                lemma_map_of_key(vs, key@);
                if map_of(vs).contains_key(key@) {
                    let j = choose|j: int| 0 <= j < vs.len() && #[trigger] vs[j].0 == key@;
                }
            }
            self.push_new(key, value, now);
            proof {
                assert(final(self).contents() =~= old(self).contents().insert(key@, (value@, now)));
            }
        }
    }

    /// Append an entry whose key is not yet present.
    fn push_new(&mut self, key: &str, value: ContributionStats, now: u64)
        requires
            old(self).wf(),
            forall|j: int| #![trigger entry_views(old(self).entries@)[j]]
                0 <= j < entry_views(old(self).entries@).len() ==> entry_views(
                    old(self).entries@,
                )[j].0 != key@,
        ensures
            final(self).wf(),
            final(self).contents() == old(self).contents().insert(key@, (value@, now)),
            entry_views(final(self).entries@) == entry_views(old(self).entries@).push(
                (key@, value@, now),
            ),
    {
        let ghost vs = entry_views(self.entries@);
        self.entries.push((key.to_owned(), value, now));
        proof {
            assert(entry_views(self.entries@) =~~= vs.push((key@, value@, now)));
            let nvs = entry_views(self.entries@);
            assert(unique_keys(nvs)) by {
                assert forall|a: int, b: int| #![trigger nvs[a], nvs[b]]
                    0 <= a < b < nvs.len() implies nvs[a].0 != nvs[b].0 by {
                    if b < nvs.len() - 1 {
                        assert(vs[a].0 != vs[b].0);
                    } else {
                        assert(nvs[a] == vs[a]);
                    }
                }
            }
            assert(map_of(nvs) == map_of(vs).insert(key@, (value@, now))) by {
                assert(nvs.drop_last() =~= vs);
            }
        }
    }

    /// Drop every entry that is no longer fresh at `now`; the survivors keep
    /// their order, and the contents become the fresh restriction.
    pub fn sweep(&mut self, now: u64, ttl: u64)
        requires
            old(self).wf(),
        ensures
            final(self).wf(),
            final(self).contents() == fresh_restriction(old(self).contents(), now, ttl),
    {
        let ghost vs = entry_views(self.entries@);
        let n = self.entries.len();
        let mut kept: Vec<(String, ContributionStats, u64)> = Vec::new();
        let mut i: usize = 0;
        proof {
            assert(entry_views(kept@) =~= fresh_filter(vs.take(0), now, ttl));
        }
        while i < n
            invariant
                i <= n,
                n == self.entries@.len(),
                vs == entry_views(self.entries@),
                entry_views(kept@) == fresh_filter(vs.take(i as int), now, ttl),
            decreases n - i,
        {
            let stored = self.entries[i].2;
            let ghost pre = entry_views(kept@);
            proof {
                assert(vs.take(i + 1).drop_last() =~= vs.take(i as int));
                assert(vs.take(i + 1).last() == vs[i as int]);
            }
            if stored <= now && now - stored < ttl {
                let e = &self.entries[i];
                kept.push((e.0.clone(), e.1.clone(), e.2));
                proof {
                    assert(entry_views(kept@) =~~= pre.push(vs[i as int]));
                }
            }
            i = i + 1;
        }
        proof {
            assert(vs.take(n as int) =~= vs);
            lemma_fresh_filter_unique(vs, now, ttl);
        }
        self.entries = kept;
    }
}

/// Round trip through the cache model: a snapshot stored at `stored` is
/// returned by a lookup of the same key at any `now` within the TTL, and is
/// missed once the TTL has elapsed.
pub proof fn lemma_cache_round_trip(
    m: Map<Seq<char>, (StatsView, u64)>,
    key: Seq<char>,
    v: StatsView,
    stored: u64,
    now: u64,
    ttl: u64,
)
    ensures
        entry_fresh(stored, now, ttl) ==> lookup_spec(m.insert(key, (v, stored)), key, now, ttl)
            == Some(v),
        !entry_fresh(stored, now, ttl) ==> lookup_spec(m.insert(key, (v, stored)), key, now, ttl)
            is None,
{
}

} // verus!
