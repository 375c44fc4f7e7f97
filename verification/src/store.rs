//! The resource store: a process-wide mapping from a stable type identifier to
//! the serialized blob last captured for that type. It is created once at
//! harness startup, outlives every module load, and is only ever written by
//! upsert — entries are never deleted, and at most one entry exists per
//! identifier (last write wins).

use vstd::prelude::*;

verus! {

struct StoreEntry {
    key: String,
    blob: Vec<u8>,
}

/// The store itself. Its view is the mapping it holds: `st@` is a
/// `Map<Seq<char>, Seq<u8>>` from identifier to blob.
pub struct ResourceStore {
    entries: Vec<StoreEntry>,
}

/// The mapping described by a sequence of entries; a later entry for the same
/// key shadows an earlier one.
spec fn entries_map(s: Seq<StoreEntry>) -> Map<Seq<char>, Seq<u8>>
    decreases s.len(),
{
    if s.len() == 0 {
        Map::empty()
    } else {
        entries_map(s.drop_last()).insert(s.last().key@, s.last().blob@)
    }
}

/// Keys of a sequence of entries are pairwise distinct.
spec fn unique_keys(s: Seq<StoreEntry>) -> bool {
    forall|i: int, j: int| 0 <= i < j < s.len() ==> s[i].key@ != s[j].key@
}

proof fn lemma_entries_map_domain(s: Seq<StoreEntry>, k: Seq<char>)
    ensures
        entries_map(s).contains_key(k) <==> exists|i: int| 0 <= i < s.len() && s[i].key@ == k,
    decreases s.len(),
{
    if s.len() > 0 {
        lemma_entries_map_domain(s.drop_last(), k);
        if entries_map(s).contains_key(k) {
            if s.last().key@ != k {
                let i = choose|i: int| 0 <= i < s.drop_last().len() && s.drop_last()[i].key@ == k;
                assert(s[i].key@ == k);
            }
        }
        if exists|i: int| 0 <= i < s.len() && s[i].key@ == k {
            let i = choose|i: int| 0 <= i < s.len() && s[i].key@ == k;
            if i < s.len() - 1 {
                assert(s.drop_last()[i].key@ == k);
            }
        }
    }
}

proof fn lemma_entries_map_index(s: Seq<StoreEntry>, i: int)
    requires
        unique_keys(s),
        0 <= i < s.len(),
    ensures
        entries_map(s).contains_key(s[i].key@),
        entries_map(s)[s[i].key@] == s[i].blob@,
    decreases s.len(),
{
    assert(unique_keys(s.drop_last()));
    if i == s.len() - 1 {
    } else {
        lemma_entries_map_index(s.drop_last(), i);
        assert(s.drop_last()[i] == s[i]);
        assert(s[i].key@ != s.last().key@);
    }
}

impl View for ResourceStore {
    type V = Map<Seq<char>, Seq<u8>>;

    closed spec fn view(&self) -> Map<Seq<char>, Seq<u8>> {
        entries_map(self.entries@)
    }
}

impl ResourceStore {
    /// Internal shape: one entry per identifier.
    pub closed spec fn wf(&self) -> bool {
        unique_keys(self.entries@)
    }

    /// An empty store, created once at harness startup.
    pub fn new() -> (st: Self)
        ensures
            st.wf(),
            st@ == Map::<Seq<char>, Seq<u8>>::empty(),
    {
        let st = ResourceStore { entries: Vec::new() };
        proof {
            assert(st.entries@.len() == 0);
        }
        st
    }

    /// The blob last stored for `key`, if any type of that identifier was ever
    /// captured.
    pub fn get<'a>(&'a self, key: &String) -> (r: Option<&'a Vec<u8>>)
        requires
            self.wf(),
        ensures
            match r {
                Some(blob) => self@.contains_key(key@) && blob@ == self@[key@],
                None => !self@.contains_key(key@),
            },
    {
        let n = self.entries.len();
        let mut i: usize = 0;
        while i < n
            invariant
                n == self.entries@.len(),
                i <= n,
                self.wf(),
                forall|j: int| 0 <= j < i ==> self.entries@[j].key@ != key@,
            decreases n - i,
        {
            if self.entries[i].key == *key {
                proof {
                    lemma_entries_map_index(self.entries@, i as int);
                }
                return Some(&self.entries[i].blob);
            }
            i += 1;
        }
        proof {
            lemma_entries_map_domain(self.entries@, key@);
        }
        None
    }

    /// Whether a blob was ever stored for `key`.
    pub fn contains(&self, key: &String) -> (r: bool)
        requires
            self.wf(),
        ensures
            r == self@.contains_key(key@),
    {
        match self.get(key) {
            Some(_) => true,
            None => false,
        }
    }

    /// Upsert: overwrite or insert the blob for `key`; never fails, never
    /// evicts another entry.
    pub fn put(&mut self, key: String, blob: Vec<u8>)
        requires
            old(self).wf(),
        ensures
            final(self).wf(),
            final(self)@ == old(self)@.insert(key@, blob@),
    {
        let n = self.entries.len();
        let mut i: usize = 0;
        while i < n
            invariant
                n == self.entries@.len(),
                i <= n,
                self.wf(),
                self == old(self),
                forall|j: int| 0 <= j < i ==> self.entries@[j].key@ != key@,
            decreases n - i,
        {
            if self.entries[i].key == *(&key) {
                proof {
                    lemma_entries_map_remove(self.entries@, i as int);
                }
                let ghost pre = self.entries@;
                self.entries.remove(i);
                proof {
                    assert(self.entries@ =~= pre.remove(i as int));
                    assert(unique_keys(self.entries@)) by {
                        assert(forall|a: int, b: int|
                            0 <= a < b < self.entries@.len() ==> #[trigger] self.entries@[a].key@
                                != #[trigger] self.entries@[b].key@) by {
                            assert(forall|a: int| 0 <= a < self.entries@.len()
                                ==> #[trigger] self.entries@[a] == if a < i as int {
                                pre[a]
                            } else {
                                pre[a + 1]
                            });
                        }
                    }
                    lemma_entries_map_domain(self.entries@, key@);
                }
                self.entries.push(StoreEntry { key, blob });
                proof {
                    assert(self.entries@.drop_last() =~= pre.remove(i as int));
                    assert(final(self)@ =~= old(self)@.insert(key@, blob@));
                }
                return ;
            }
            i += 1;
        }
        proof {
            lemma_entries_map_domain(self.entries@, key@);
        }
        self.entries.push(StoreEntry { key, blob });
        proof {
            assert(self.entries@.drop_last() =~= old(self).entries@);
            assert(final(self)@ =~= old(self)@.insert(key@, blob@));
        }
    }
}

proof fn lemma_entries_map_remove(s: Seq<StoreEntry>, i: int)
    requires
        unique_keys(s),
        0 <= i < s.len(),
    ensures
        entries_map(s.remove(i)) == entries_map(s).remove(s[i].key@),
    decreases s.len(),
{
    if i == s.len() - 1 {
        assert(s.remove(i) =~= s.drop_last());
        lemma_entries_map_domain(s.drop_last(), s[i].key@);
        assert(!entries_map(s.drop_last()).contains_key(s[i].key@));
        assert(entries_map(s).remove(s[i].key@) =~= entries_map(s.drop_last()));
    } else {
        assert(unique_keys(s.drop_last()));
        lemma_entries_map_remove(s.drop_last(), i);
        assert(s.remove(i).drop_last() =~= s.drop_last().remove(i));
        assert(s.remove(i).last() == s.last());
        assert(s[i].key@ != s.last().key@);
        assert(entries_map(s.remove(i)) =~= entries_map(s).remove(s[i].key@));
    }
}

} // verus!
