//! One named table of the storage engine: a byte-keyed store with a
//! mathematical `Map` view.
//!
//! Keys are byte strings and are unique; `get`, `put` and `delete` are
//! proved against the map view, so every contract of the storage engine can
//! speak of plain `Map` operations.

use vstd::prelude::*;

verus! {

/// A byte-keyed table holding values of one type.
pub struct Table<V> {
    entries: Vec<(Vec<u8>, V)>,
}

/// The map a list of entries denotes; a later entry for the same key wins.
pub open spec fn entries_map<V: View>(s: Seq<(Vec<u8>, V)>) -> Map<Seq<u8>, V::V>
    decreases s.len(),
{
    if s.len() == 0 {
        Map::empty()
    } else {
        entries_map(s.drop_last()).insert(s.last().0@, s.last().1@)
    }
}

/// No two entries share a key.
pub open spec fn keys_unique<V>(s: Seq<(Vec<u8>, V)>) -> bool {
    forall|i: int, j: int| 0 <= i < j < s.len() ==> s[i].0@ != s[j].0@
}

impl<V: View> View for Table<V> {
    type V = Map<Seq<u8>, V::V>;

    closed spec fn view(&self) -> Map<Seq<u8>, V::V> {
        entries_map(self.entries@)
    }
}

proof fn lemma_entries_map_contains<V: View>(s: Seq<(Vec<u8>, V)>, k: Seq<u8>)
    ensures
        entries_map(s).contains_key(k) <==> exists|i: int| 0 <= i < s.len() && s[i].0@ == k,
    decreases s.len(),
{
    if s.len() > 0 {
        lemma_entries_map_contains(s.drop_last(), k);
        if s.last().0@ == k {
            assert(s[s.len() - 1].0@ == k);
        } else if entries_map(s).contains_key(k) {
            let i = choose|i: int| 0 <= i < s.drop_last().len() && s.drop_last()[i].0@ == k;
            assert(s[i].0@ == k);
        } else {
            assert forall|i: int| 0 <= i < s.len() implies s[i].0@ != k by {
                if i < s.len() - 1 {
                    assert(s.drop_last()[i].0@ == s[i].0@);
                }
            }
        }
    }
}

proof fn lemma_entries_map_index<V: View>(s: Seq<(Vec<u8>, V)>, i: int)
    requires
        keys_unique(s),
        0 <= i < s.len(),
    ensures
        entries_map(s).contains_key(s[i].0@),
        entries_map(s)[s[i].0@] == s[i].1@,
    decreases s.len(),
{
    if i == s.len() - 1 {
    } else {
        assert(s.drop_last()[i] == s[i]);
        assert(keys_unique(s.drop_last())) by {
            assert forall|a: int, b: int|
                0 <= a < b < s.drop_last().len() implies s.drop_last()[a].0@ != s.drop_last()[b].0@ by {
                assert(s.drop_last()[a] == s[a]);
                assert(s.drop_last()[b] == s[b]);
            }
        }
        lemma_entries_map_index(s.drop_last(), i);
        assert(s[i].0@ != s.last().0@);
    }
}

impl<V: View> Table<V> {
    /// Whether the table's internal layout is consistent.
    pub closed spec fn wf(&self) -> bool {
        keys_unique(self.entries@)
    }

    /// An empty table.
    pub fn new() -> (r: Self)
        ensures
            r.wf(),
            r@ == Map::<Seq<u8>, V::V>::empty(),
    {
        Table { entries: Vec::new() }
    }

    /// Looks a key up; `None` means the key is absent.
    #[verifier::loop_isolation(false)]
    pub fn get(&self, key: &[u8]) -> (r: Option<&V>)
        requires
            self.wf(),
        ensures
            match r {
                Some(v) => self@.contains_key(key@) && v@ == self@[key@],
                None => !self@.contains_key(key@),
            },
    {
        let n = self.entries.len();
        let mut i: usize = 0;
        while i < n
            invariant
                0 <= i <= n,
                forall|j: int| 0 <= j < i ==> self.entries@[j].0@ != key@,
            decreases n - i,
        {
            if bytes_eq(self.entries[i].0.as_slice(), key) {
                proof {
                    lemma_entries_map_index(self.entries@, i as int);
                }
                return Some(&self.entries[i].1);
            }
            i += 1;
        }
        proof {
            lemma_entries_map_contains(self.entries@, key@);
        }
        None
    }

    /// Binds a key to a value, replacing any earlier binding.
    #[verifier::loop_isolation(false)]
    pub fn put(&mut self, key: Vec<u8>, value: V)
        requires
            old(self).wf(),
        ensures
            final(self).wf(),
            final(self)@ == old(self)@.insert(key@, value@),
    {
        let n = self.entries.len();
        let mut i: usize = 0;
        while i < n
            invariant
                0 <= i <= n,
                self.entries@ == old(self).entries@,
                n == self.entries@.len(),
                forall|j: int| 0 <= j < i ==> self.entries@[j].0@ != key@,
            decreases n - i,
        {
            if bytes_eq(self.entries[i].0.as_slice(), key.as_slice()) {
                proof {
                    lemma_entries_map_update(self.entries@, i as int, key@, value@);
                }
                self.entries.set(i, (key, value));
                return ;
            }
            i += 1;
        }
        let ghost prev = self.entries@;
        self.entries.push((key, value));
        proof {
            assert(self.entries@.drop_last() =~= prev);
            assert(keys_unique(self.entries@)) by {
                assert forall|a: int, b: int|
                    0 <= a < b < self.entries@.len() implies self.entries@[a].0@ != self.entries@[b].0@ by {
                    if b < self.entries@.len() - 1 {
                        assert(self.entries@[a] == prev[a]);
                        assert(self.entries@[b] == prev[b]);
                    } else {
                        assert(self.entries@[a] == prev[a]);
                    }
                }
            }
        }
    }

    /// Removes a key's binding, if any.
    #[verifier::loop_isolation(false)]
    pub fn delete(&mut self, key: &[u8])
        requires
            old(self).wf(),
        ensures
            final(self).wf(),
            final(self)@ == old(self)@.remove(key@),
    {
        let n = self.entries.len();
        let mut i: usize = 0;
        while i < n
            invariant
                0 <= i <= n,
                self.entries@ == old(self).entries@,
                n == self.entries@.len(),
                forall|j: int| 0 <= j < i ==> self.entries@[j].0@ != key@,
            decreases n - i,
        {
            if bytes_eq(self.entries[i].0.as_slice(), key) {
                proof {
                    lemma_entries_map_remove(self.entries@, i as int, key@);
                }
                self.entries.remove(i);
                return ;
            }
            i += 1;
        }
        proof {
            lemma_entries_map_contains(self.entries@, key@);
            assert(self@ =~= self@.remove(key@));
        }
    }
}

/// Whether two byte strings hold the same bytes.
#[verifier::loop_isolation(false)]
pub fn bytes_eq(a: &[u8], b: &[u8]) -> (r: bool)
    ensures
        r <==> a@ == b@,
{
    if a.len() != b.len() {
        proof {
            assert(a@.len() != b@.len());
        }
        return false;
    }
    let n = a.len();
    let mut i: usize = 0;
    while i < n
        invariant
            0 <= i <= n,
            forall|j: int| 0 <= j < i ==> a@[j] == b@[j],
        decreases n - i,
    {
        if a[i] != b[i] {
            return false;
        }
        i += 1;
    }
    proof {
        assert(a@ =~= b@);
    }
    true
}

proof fn lemma_entries_map_update<V: View>(
    s: Seq<(Vec<u8>, V)>,
    i: int,
    k: Seq<u8>,
    v: V::V,
)
    requires
        keys_unique(s),
        0 <= i < s.len(),
        s[i].0@ == k,
    ensures
        forall|e: (Vec<u8>, V)|
            e.0@ == k && e.1@ == v ==> entries_map(#[trigger] s.update(i, e)) == entries_map(
                s,
            ).insert(k, v) && keys_unique(s.update(i, e)),
    decreases s.len(),
{
    assert forall|e: (Vec<u8>, V)|
        e.0@ == k && e.1@ == v implies entries_map(#[trigger] s.update(i, e)) == entries_map(
        s,
    ).insert(k, v) && keys_unique(s.update(i, e)) by {
        let s2 = s.update(i, e);
        assert(keys_unique(s2)) by {
            assert forall|a: int, b: int| 0 <= a < b < s2.len() implies s2[a].0@ != s2[b].0@ by {
                assert(s[a].0@ != s[b].0@);
            }
        }
        if i == s.len() - 1 {
            assert(s2.drop_last() =~= s.drop_last());
            assert(s2.last() == e);
            assert(entries_map(s2) == entries_map(s.drop_last()).insert(k, v));
            assert(entries_map(s) == entries_map(s.drop_last()).insert(k, s.last().1@));
            assert(entries_map(s.drop_last()).insert(k, v) =~= entries_map(s.drop_last()).insert(
                k,
                s.last().1@,
            ).insert(k, v));
        } else {
            assert(keys_unique(s.drop_last())) by {
                assert forall|a: int, b: int|
                    0 <= a < b < s.drop_last().len() implies s.drop_last()[a].0@ != s.drop_last()[b].0@ by {
                    assert(s.drop_last()[a] == s[a]);
                    assert(s.drop_last()[b] == s[b]);
                }
            }
            assert(s.drop_last()[i] == s[i]);
            lemma_entries_map_update(s.drop_last(), i, k, v);
            assert(s2.drop_last() =~= s.drop_last().update(i, e));
            assert(s2.last() == s.last());
            assert(entries_map(s2) == entries_map(s.drop_last().update(i, e)).insert(
                s.last().0@,
                s.last().1@,
            ));
            assert(entries_map(s.drop_last().update(i, e)) == entries_map(s.drop_last()).insert(
                k,
                v,
            ));
            assert(s.last().0@ != k);
            assert(entries_map(s.drop_last()).insert(k, v).insert(s.last().0@, s.last().1@)
                =~= entries_map(s.drop_last()).insert(s.last().0@, s.last().1@).insert(k, v));
        }
    }
}

proof fn lemma_entries_map_remove<V: View>(s: Seq<(Vec<u8>, V)>, i: int, k: Seq<u8>)
    requires
        keys_unique(s),
        0 <= i < s.len(),
        s[i].0@ == k,
    ensures
        entries_map(s.remove(i)) == entries_map(s).remove(k),
        keys_unique(s.remove(i)),
    decreases s.len(),
{
    let s2 = s.remove(i);
    assert(keys_unique(s2)) by {
        assert forall|a: int, b: int| 0 <= a < b < s2.len() implies s2[a].0@ != s2[b].0@ by {
            let a0: int = if a < i {
                a
            } else {
                a + 1
            };
            let b0: int = if b < i {
                b
            } else {
                b + 1
            };
            assert(s2[a] == s[a0]);
            assert(s2[b] == s[b0]);
            assert(s[a0].0@ != s[b0].0@);
        }
    }
    assert(keys_unique(s.drop_last())) by {
        assert forall|a: int, b: int|
            0 <= a < b < s.drop_last().len() implies s.drop_last()[a].0@ != s.drop_last()[b].0@ by {
            assert(s.drop_last()[a] == s[a]);
            assert(s.drop_last()[b] == s[b]);
        }
    }
    if i == s.len() - 1 {
        assert(s2 =~= s.drop_last());
        lemma_entries_map_contains(s.drop_last(), k);
        assert forall|j: int| 0 <= j < s.drop_last().len() implies s.drop_last()[j].0@ != k by {
            assert(s.drop_last()[j] == s[j]);
            assert(s[j].0@ != s[i].0@);
        }
        assert(!entries_map(s.drop_last()).contains_key(k));
        assert(entries_map(s.drop_last()) =~= entries_map(s.drop_last()).insert(
            k,
            s.last().1@,
        ).remove(k));
    } else {
        assert(s.drop_last()[i] == s[i]);
        lemma_entries_map_remove(s.drop_last(), i, k);
        assert(s2.drop_last() =~= s.drop_last().remove(i));
        assert(s2.last() == s.last());
        assert(entries_map(s2) == entries_map(s.drop_last()).remove(k).insert(
            s.last().0@,
            s.last().1@,
        ));
        assert(s.last().0@ != k);
        assert(entries_map(s.drop_last()).remove(k).insert(s.last().0@, s.last().1@)
            =~= entries_map(s.drop_last()).insert(s.last().0@, s.last().1@).remove(k));
    }
}

} // verus!
