//! The content-addressed verdict cache: entries keyed by fingerprint, with
//! point lookup and idempotent (last-write-wins) upsert.
//!
//! `CacheStore` is the store's table: at most one entry per fingerprint.
//! Observably it is a map from fingerprint to verdict, and both operations
//! are specified against that map.

use vstd::prelude::*;

verus! {

/// Mathematical content of a [`CacheEntry`].
#[verifier::ext_equal]
pub ghost struct CacheEntryView {
    pub name: Seq<char>,
    pub confidence: Seq<char>,
    pub hash: Seq<char>,
    pub errors: Seq<Seq<char>>,
    pub warnings: Seq<Seq<char>>,
}

/// A persisted verdict, uniquely keyed by `hash` (the content fingerprint).
///
/// `confidence` is kept as the decimal text of a number in `[0.0, 1.0]`,
/// exactly as it appears in the verdict payload; the store passes it through
/// without interpreting it.
#[derive(Debug, Clone)]
pub struct CacheEntry {
    /// Function name at the time the verdict was produced.
    pub name: String,
    /// Decimal text of the assessor's confidence, in `[0.0, 1.0]`.
    pub confidence: String,
    /// The content fingerprint: the unique key.
    pub hash: String,
    /// Ordered list of required fixes.
    pub errors: Vec<String>,
    /// Ordered list of non-blocking suggestions.
    pub warnings: Vec<String>,
}

impl View for CacheEntry {
    type V = CacheEntryView;

    open spec fn view(&self) -> CacheEntryView {
        CacheEntryView {
            name: self.name@,
            confidence: self.confidence@,
            hash: self.hash@,
            errors: self.errors.deep_view(),
            warnings: self.warnings.deep_view(),
        }
    }
}

/// The map that a sequence of rows denotes: later rows win, as with
/// replace-on-conflict writes.
pub open spec fn map_of(entries: Seq<CacheEntry>) -> Map<Seq<char>, CacheEntryView>
    decreases entries.len(),
{
    if entries.len() == 0 {
        Map::empty()
    } else {
        map_of(entries.drop_last()).insert(entries.last().hash@, entries.last()@)
    }
}

/// The verdict cache: a mapping from fingerprint to verdict, with point
/// lookup and idempotent upsert. Observable state is the map `self@`.
pub struct CacheStore {
    entries: Vec<CacheEntry>,
}

impl View for CacheStore {
    type V = Map<Seq<char>, CacheEntryView>;

    closed spec fn view(&self) -> Map<Seq<char>, CacheEntryView> {
        map_of(self.entries@)
    }
}

/// No two rows share a fingerprint.
pub open spec fn unique_hashes(entries: Seq<CacheEntry>) -> bool {
    forall|i: int, j: int|
        0 <= i < j < entries.len() ==> entries[i].hash@ != entries[j].hash@
}

proof fn lemma_map_of_contains(entries: Seq<CacheEntry>, h: Seq<char>)
    ensures
        map_of(entries).contains_key(h) <==> exists|i: int|
            0 <= i < entries.len() && entries[i].hash@ == h,
    decreases entries.len(),
{
    if entries.len() > 0 {
        lemma_map_of_contains(entries.drop_last(), h);
        if entries.last().hash@ == h {
            assert(entries[entries.len() - 1].hash@ == h);
        } else if map_of(entries).contains_key(h) {
            let i = choose|i: int|
                0 <= i < entries.drop_last().len() && entries.drop_last()[i].hash@ == h;
            assert(entries[i].hash@ == h);
        } else {
            assert forall|i: int| 0 <= i < entries.len() implies entries[i].hash@ != h by {
                if i < entries.len() - 1 {
                    assert(entries.drop_last()[i] == entries[i]);
                }
            }
        }
    }
}

proof fn lemma_map_of_get(entries: Seq<CacheEntry>, i: int)
    requires
        unique_hashes(entries),
        0 <= i < entries.len(),
    ensures
        map_of(entries).contains_key(entries[i].hash@),
        map_of(entries)[entries[i].hash@] == entries[i]@,
    decreases entries.len(),
{
    if i == entries.len() - 1 {
    } else {
        assert(entries.drop_last()[i] == entries[i]);
        assert(unique_hashes(entries.drop_last())) by {
            assert forall|p: int, q: int|
                0 <= p < q < entries.drop_last().len() implies entries.drop_last()[p].hash@
                != entries.drop_last()[q].hash@ by {
                assert(entries.drop_last()[p] == entries[p]);
                assert(entries.drop_last()[q] == entries[q]);
            }
        }
        lemma_map_of_get(entries.drop_last(), i);
        assert(entries[i].hash@ != entries.last().hash@);
    }
}

proof fn lemma_map_of_update(entries: Seq<CacheEntry>, j: int, e: CacheEntry)
    requires
        unique_hashes(entries),
        0 <= j < entries.len(),
        entries[j].hash@ == e.hash@,
    ensures
        map_of(entries.update(j, e)) =~= map_of(entries).insert(e.hash@, e@),
    decreases entries.len(),
{
    let upd = entries.update(j, e);
    if j == entries.len() - 1 {
        assert(upd.drop_last() =~= entries.drop_last());
        assert(upd.last() == e);
    } else {
        assert(upd.drop_last() =~= entries.drop_last().update(j, e));
        assert(upd.last() == entries.last());
        assert(entries.drop_last()[j] == entries[j]);
        assert(unique_hashes(entries.drop_last())) by {
            assert forall|p: int, q: int|
                0 <= p < q < entries.drop_last().len() implies entries.drop_last()[p].hash@
                != entries.drop_last()[q].hash@ by {
                assert(entries.drop_last()[p] == entries[p]);
                assert(entries.drop_last()[q] == entries[q]);
            }
        }
        lemma_map_of_update(entries.drop_last(), j, e);
        assert(entries.last().hash@ != e.hash@);
    }
}

impl CacheStore {
    /// Rows are unique by fingerprint. Established by [`CacheStore::new`]
    /// and preserved by every operation.
    pub closed spec fn wf(self) -> bool {
        unique_hashes(self.entries@)
    }

    /// An empty store.
    pub fn new() -> (r: CacheStore)
        ensures
            r.wf(),
            r@ == Map::<Seq<char>, CacheEntryView>::empty(),
    {
        CacheStore { entries: Vec::new() }
    }

    /// Point lookup by fingerprint: the entry previously upserted under
    /// `hash`, if any.
    pub fn get_cache_entry_by_hash(&self, hash: &str) -> (r: Option<&CacheEntry>)
        requires
            self.wf(),
        ensures
            match r {
                Some(e) => self@.contains_key(hash@) && e@ == self@[hash@],
                None => !self@.contains_key(hash@),
            },
    {
        let n = self.entries.len();
        let mut i: usize = 0;
        while i < n
            invariant
                n == self.entries.len(),
                0 <= i <= n,
                unique_hashes(self.entries@),
                forall|j: int| 0 <= j < i ==> self.entries@[j].hash@ != hash@,
            decreases n - i,
        {
            if str_eq(self.entries[i].hash.as_str(), hash) {
                proof {
                    lemma_map_of_get(self.entries@, i as int);
                }
                return Some(&self.entries[i]);
            }
            i = i + 1;
        }
        proof {
            lemma_map_of_contains(self.entries@, hash@);
        }
        None
    }

    /// Idempotent upsert: replace-on-conflict keyed by the entry's own
    /// `hash` field. Afterwards the store maps `entry.hash` to `entry` and
    /// is otherwise unchanged.
    pub fn insert_or_update_cache_entry(&mut self, entry: CacheEntry)
        requires
            old(self).wf(),
        ensures
            final(self).wf(),
            final(self)@ == old(self)@.insert(entry.hash@, entry@),
    {
        let n = self.entries.len();
        let mut i: usize = 0;
        while i < n
            invariant
                n == self.entries.len(),
                0 <= i <= n,
                unique_hashes(self.entries@),
                self.entries == old(self).entries,
                forall|j: int| 0 <= j < i ==> self.entries@[j].hash@ != entry.hash@,
            decreases n - i,
        {
            if str_eq(self.entries[i].hash.as_str(), entry.hash.as_str()) {
                proof {
                    lemma_map_of_update(self.entries@, i as int, entry);
                }
                self.entries[i] = entry;
                return ;
            }
            i = i + 1;
        }
        proof {
            assert(self.entries@.push(entry).drop_last() =~= self.entries@);
            assert(map_of(self.entries@.push(entry)) =~= map_of(self.entries@).insert(
                entry.hash@,
                entry@,
            ));
        }
        self.entries.push(entry);
    }
}

/// Compares two strings by content.
fn str_eq(a: &str, b: &str) -> (r: bool)
    ensures
        r == (a@ == b@),
{
    a.to_owned() == b.to_owned()
}

/// Cache idempotence: upserting the same entry twice leaves the store in the
/// same observable state as upserting it once. Stated over the store's map
/// view, which `insert_or_update_cache_entry` pins down exactly.
pub proof fn lemma_upsert_idempotent(
    m: Map<Seq<char>, CacheEntryView>,
    h: Seq<char>,
    v: CacheEntryView,
)
    ensures
        m.insert(h, v).insert(h, v) == m.insert(h, v),
{
    assert(m.insert(h, v).insert(h, v) =~= m.insert(h, v));
}

} // verus!
