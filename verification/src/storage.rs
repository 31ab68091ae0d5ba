//! Storage keyed by unit name: small association maps and sets with unique
//! keys, used for the description stores, the status table and the dirty
//! sets.

use vstd::prelude::*;

use crate::unit::{UnitName, UnitNameView};

verus! {

/// A mapping from unit names to values, with each name present at most once.
pub struct NameMap<V> {
    entries: Vec<(UnitName, V)>,
}

impl<V> NameMap<V> {
    /// The keys, in insertion order.
    pub closed spec fn keys(self) -> Seq<UnitNameView> {
        self.entries@.map_values(|e: (UnitName, V)| e.0@)
    }

    /// The values, in insertion order.
    pub closed spec fn vals(self) -> Seq<V> {
        self.entries@.map_values(|e: (UnitName, V)| e.1)
    }

    pub open spec fn contains_key(self, k: UnitNameView) -> bool {
        self.keys().contains(k)
    }

    /// Each key appears at most once.
    pub closed spec fn wf(self) -> bool {
        forall|i: int, j: int|
            0 <= i < j < self.keys().len() ==> self.keys()[i] != self.keys()[j]
    }

    /// The value under a key, if present.
    pub open spec fn get_spec(self, k: UnitNameView) -> Option<V> {
        if self.contains_key(k) {
            Some(self.vals()[choose|i: int| 0 <= i < self.keys().len() && self.keys()[i] == k])
        } else {
            None
        }
    }

    /// With unique keys, the entry at a position is the one its key maps to.
    pub proof fn lemma_at(self, i: int)
        requires
            self.wf(),
            0 <= i < self.keys().len(),
        ensures
            self.get_spec(self.keys()[i]) == Some(self.vals()[i]),
    {
        let k = self.keys()[i];
        assert(self.contains_key(k)) by {
            assert(self.keys()[i] == k);
        }
        let j = choose|j: int| 0 <= j < self.keys().len() && self.keys()[j] == k;
        if j != i {
            if j < i {
                assert(self.keys()[j] != self.keys()[i]);
            } else {
                assert(self.keys()[i] != self.keys()[j]);
            }
        }
    }

    pub fn new() -> (r: NameMap<V>)
        ensures
            r.wf(),
            r.keys().len() == 0,
            forall|k: UnitNameView| !r.contains_key(k),
    {
        NameMap { entries: Vec::new() }
    }

    pub fn len(&self) -> (r: usize)
        ensures
            r == self.keys().len(),
    {
        self.entries.len()
    }

    /// The position of a name among the keys, if present.
    fn find(&self, name: &UnitName) -> (r: Option<usize>)
        ensures
            match r {
                Some(i) => i < self.keys().len() && self.keys()[i as int] == name@,
                None => !self.contains_key(name@),
            },
    {
        let mut i: usize = 0;
        while i < self.entries.len()
            invariant
                i <= self.keys().len(),
                forall|j: int| 0 <= j < i ==> self.keys()[j] != name@,
            decreases self.entries@.len() - i,
        {
            if self.entries[i].0.eq_name(name) {
                return Some(i);
            }
            i = i + 1;
        }
        None
    }

    pub fn contains(&self, name: &UnitName) -> (r: bool)
        requires
            self.wf(),
        ensures
            r == self.contains_key(name@),
    {
        match self.find(name) {
            Some(i) => {
                proof {
                    assert(self.keys()[i as int] == name@);
                }
                true
            },
            None => false,
        }
    }

    pub fn get(&self, name: &UnitName) -> (r: Option<&V>)
        requires
            self.wf(),
        ensures
            match r {
                Some(v) => self.get_spec(name@) == Some(*v) && self.contains_key(name@),
                None => !self.contains_key(name@) && self.get_spec(name@) is None,
            },
    {
        match self.find(name) {
            Some(i) => {
                proof {
                    self.lemma_at(i as int);
                }
                Some(&self.entries[i].1)
            },
            None => None,
        }
    }

    /// Inserts or replaces the value under a name.
    pub fn insert(&mut self, name: UnitName, v: V)
        requires
            old(self).wf(),
        ensures
            final(self).wf(),
            final(self).contains_key(name@),
            final(self).get_spec(name@) == Some(v),
            forall|k: UnitNameView|
                k != name@ ==> #[trigger] final(self).contains_key(k) == old(self).contains_key(k),
            forall|k: UnitNameView|
                k != name@ ==> #[trigger] final(self).get_spec(k) == old(self).get_spec(k),
            final(self).keys().len() == if old(self).contains_key(name@) {
                old(self).keys().len()
            } else {
                old(self).keys().len() + 1
            },
    {
        let ghost prev = *self;
        match self.find(&name) {
            Some(i) => {
                let ghost nv = name@;
                self.entries.set(i, (name, v));
                proof {
                    assert(self.keys() =~= prev.keys());
                    assert(self.vals() =~= prev.vals().update(i as int, v));
                    self.lemma_at(i as int);
                    assert forall|k: UnitNameView| k != nv implies #[trigger] self.get_spec(k)
                        == prev.get_spec(k) by {
                        if self.contains_key(k) {
                            let j = choose|j: int|
                                0 <= j < self.keys().len() && self.keys()[j] == k;
                            assert(j != i);
                            self.lemma_at(j);
                            prev.lemma_at(j);
                        }
                    }
                }
            },
            None => {
                let ghost nv = name@;
                self.entries.push((name, v));
                proof {
                    assert(self.keys() =~= prev.keys().push(nv));
                    assert(self.vals() =~= prev.vals().push(v));
                    assert(forall|j: int|
                        0 <= j < prev.keys().len() ==> self.keys()[j] == prev.keys()[j]);
                    assert(self.keys()[self.keys().len() - 1] == nv);
                    assert(self.wf());
                    self.lemma_at(self.keys().len() - 1);
                    assert forall|k: UnitNameView| k != nv implies #[trigger] self.contains_key(k)
                        == prev.contains_key(k) by {
                        if prev.contains_key(k) {
                            let j = choose|j: int|
                                0 <= j < prev.keys().len() && prev.keys()[j] == k;
                            assert(self.keys()[j] == k);
                        }
                        if self.contains_key(k) {
                            let j = choose|j: int|
                                0 <= j < self.keys().len() && self.keys()[j] == k;
                            assert(j < prev.keys().len());
                            assert(prev.keys()[j] == k);
                        }
                    }
                    assert forall|k: UnitNameView| k != nv implies #[trigger] self.get_spec(k)
                        == prev.get_spec(k) by {
                        if self.contains_key(k) {
                            let j = choose|j: int|
                                0 <= j < self.keys().len() && self.keys()[j] == k;
                            assert(j < prev.keys().len());
                            self.lemma_at(j);
                            prev.lemma_at(j);
                        }
                    }
                }
            },
        }
    }

    /// Removes a name and its value, if present.
    pub fn remove(&mut self, name: &UnitName)
        requires
            old(self).wf(),
        ensures
            final(self).wf(),
            !final(self).contains_key(name@),
            forall|k: UnitNameView|
                k != name@ ==> #[trigger] final(self).contains_key(k) == old(self).contains_key(k),
            forall|k: UnitNameView|
                k != name@ ==> #[trigger] final(self).get_spec(k) == old(self).get_spec(k),
            final(self).keys().len() == if old(self).contains_key(name@) {
                old(self).keys().len() - 1
            } else {
                old(self).keys().len() as int
            },
            !old(self).contains_key(name@) ==> *final(self) == *old(self),
    {
        let ghost prev = *self;
        match self.find(name) {
            Some(i) => {
                self.entries.remove(i);
                proof {
                    assert(self.keys() =~= prev.keys().remove(i as int));
                    assert(self.vals() =~= prev.vals().remove(i as int));
                    assert(forall|j: int|
                        0 <= j < i ==> #[trigger] self.keys()[j] == prev.keys()[j]);
                    assert(forall|j: int|
                        i <= j < self.keys().len() ==> #[trigger] self.keys()[j] == prev.keys()[j
                            + 1]);
                    assert(self.wf());
                    if self.contains_key(name@) {
                        let j = choose|j: int| 0 <= j < self.keys().len() && self.keys()[j]
                            == name@;
                        if j < i {
                            assert(prev.keys()[j] == name@);
                            assert(prev.keys()[i as int] == name@);
                        } else {
                            assert(prev.keys()[j + 1] == name@);
                            assert(prev.keys()[i as int] == name@);
                        }
                        assert(false);
                    }
                    assert forall|k: UnitNameView| k != name@ implies #[trigger] self.contains_key(
                        k,
                    ) == prev.contains_key(k) by {
                        if prev.contains_key(k) {
                            let j = choose|j: int|
                                0 <= j < prev.keys().len() && prev.keys()[j] == k;
                            assert(j != i);
                            if j < i {
                                assert(self.keys()[j] == k);
                            } else {
                                assert(self.keys()[j - 1] == k);
                            }
                        }
                        if self.contains_key(k) {
                            let j = choose|j: int|
                                0 <= j < self.keys().len() && self.keys()[j] == k;
                            if j < i {
                                assert(prev.keys()[j] == k);
                            } else {
                                assert(prev.keys()[j + 1] == k);
                            }
                        }
                    }
                    assert forall|k: UnitNameView| k != name@ implies #[trigger] self.get_spec(k)
                        == prev.get_spec(k) by {
                        if self.contains_key(k) {
                            let j = choose|j: int|
                                0 <= j < self.keys().len() && self.keys()[j] == k;
                            self.lemma_at(j);
                            if j < i {
                                prev.lemma_at(j);
                            } else {
                                prev.lemma_at(j + 1);
                            }
                        }
                    }
                }
            },
            None => {},
        }
    }

    /// Removes a name, handing back the value that was under it.
    pub fn take(&mut self, name: &UnitName) -> (r: Option<V>)
        requires
            old(self).wf(),
        ensures
            final(self).wf(),
            !final(self).contains_key(name@),
            match r {
                Some(v) => old(self).get_spec(name@) == Some(v),
                None => !old(self).contains_key(name@) && *final(self) == *old(self),
            },
            forall|k: UnitNameView|
                k != name@ ==> #[trigger] final(self).contains_key(k) == old(self).contains_key(k),
            forall|k: UnitNameView|
                k != name@ ==> #[trigger] final(self).get_spec(k) == old(self).get_spec(k),
    {
        let ghost prev = *self;
        match self.find(name) {
            Some(i) => {
                let (_, v) = self.entries.remove(i);
                proof {
                    prev.lemma_at(i as int);
                    assert(self.keys() =~= prev.keys().remove(i as int));
                    assert(self.vals() =~= prev.vals().remove(i as int));
                    assert(forall|j: int|
                        0 <= j < i ==> #[trigger] self.keys()[j] == prev.keys()[j]);
                    assert(forall|j: int|
                        i <= j < self.keys().len() ==> #[trigger] self.keys()[j] == prev.keys()[j
                            + 1]);
                    assert(self.wf());
                    if self.contains_key(name@) {
                        let j = choose|j: int| 0 <= j < self.keys().len() && self.keys()[j]
                            == name@;
                        if j < i {
                            assert(prev.keys()[j] == name@);
                            assert(prev.keys()[i as int] == name@);
                        } else {
                            assert(prev.keys()[j + 1] == name@);
                            assert(prev.keys()[i as int] == name@);
                        }
                        assert(false);
                    }
                    assert forall|k: UnitNameView| k != name@ implies #[trigger] self.contains_key(
                        k,
                    ) == prev.contains_key(k) by {
                        if prev.contains_key(k) {
                            let j = choose|j: int|
                                0 <= j < prev.keys().len() && prev.keys()[j] == k;
                            assert(j != i);
                            if j < i {
                                assert(self.keys()[j] == k);
                            } else {
                                assert(self.keys()[j - 1] == k);
                            }
                        }
                        if self.contains_key(k) {
                            let j = choose|j: int|
                                0 <= j < self.keys().len() && self.keys()[j] == k;
                            if j < i {
                                assert(prev.keys()[j] == k);
                            } else {
                                assert(prev.keys()[j + 1] == k);
                            }
                        }
                    }
                    assert forall|k: UnitNameView| k != name@ implies #[trigger] self.get_spec(k)
                        == prev.get_spec(k) by {
                        if self.contains_key(k) {
                            let j = choose|j: int|
                                0 <= j < self.keys().len() && self.keys()[j] == k;
                            self.lemma_at(j);
                            if j < i {
                                prev.lemma_at(j);
                            } else {
                                prev.lemma_at(j + 1);
                            }
                        }
                    }
                }
                Some(v)
            },
            None => None,
        }
    }

    pub fn key_at(&self, i: usize) -> (r: &UnitName)
        requires
            i < self.keys().len(),
        ensures
            r@ == self.keys()[i as int],
    {
        &self.entries[i].0
    }

    pub fn val_at(&self, i: usize) -> (r: &V)
        requires
            i < self.keys().len(),
        ensures
            *r == self.vals()[i as int],
    {
        &self.entries[i].1
    }
}

/// Every entry of a map satisfies a key/value property.
pub open spec fn map_entries_ok<V>(m: NameMap<V>, p: spec_fn(UnitNameView, V) -> bool) -> bool {
    forall|i: int| 0 <= i < m.keys().len() ==> p(m.keys()[i], #[trigger] m.vals()[i])
}

/// A value looked up in a property-respecting map satisfies the property.
pub proof fn lemma_entries_ok_at<V>(m: NameMap<V>, p: spec_fn(UnitNameView, V) -> bool, k: UnitNameView)
    requires
        m.wf(),
        map_entries_ok(m, p),
        m.contains_key(k),
    ensures
        m.get_spec(k) matches Some(v) && p(k, v),
{
    let j = choose|j: int| 0 <= j < m.keys().len() && m.keys()[j] == k;
    m.lemma_at(j);
}

/// The property survives any single-key change that keeps the changed key's
/// value respecting it.
pub proof fn lemma_entries_ok_preserved<V>(
    prev: NameMap<V>,
    cur: NameMap<V>,
    k: UnitNameView,
    p: spec_fn(UnitNameView, V) -> bool,
)
    requires
        prev.wf(),
        cur.wf(),
        map_entries_ok(prev, p),
        forall|k2: UnitNameView|
            k2 != k ==> #[trigger] cur.get_spec(k2) == prev.get_spec(k2) && cur.contains_key(k2)
                == prev.contains_key(k2),
        cur.contains_key(k) ==> (cur.get_spec(k) matches Some(v) && p(k, v)),
    ensures
        map_entries_ok(cur, p),
{
    assert forall|i: int| 0 <= i < cur.keys().len() implies p(
        cur.keys()[i],
        #[trigger] cur.vals()[i],
    ) by {
        cur.lemma_at(i);
        let key = cur.keys()[i];
        assert(cur.contains_key(key));
        if key != k {
            assert(prev.contains_key(key));
            lemma_entries_ok_at(prev, p, key);
        }
    }
}

/// The property survives any change that only removes keys.
pub proof fn lemma_entries_ok_shrunk<V>(
    prev: NameMap<V>,
    cur: NameMap<V>,
    p: spec_fn(UnitNameView, V) -> bool,
)
    requires
        prev.wf(),
        cur.wf(),
        map_entries_ok(prev, p),
        forall|k: UnitNameView|
            #[trigger] cur.contains_key(k) ==> prev.contains_key(k) && cur.get_spec(k)
                == prev.get_spec(k),
    ensures
        map_entries_ok(cur, p),
{
    assert forall|i: int| 0 <= i < cur.keys().len() implies p(
        cur.keys()[i],
        #[trigger] cur.vals()[i],
    ) by {
        cur.lemma_at(i);
        let key = cur.keys()[i];
        assert(cur.contains_key(key));
        lemma_entries_ok_at(prev, p, key);
    }
}

/// With unique keys, two positions never hold the same key.
pub proof fn lemma_map_distinct<V>(m: NameMap<V>)
    requires
        m.wf(),
    ensures
        forall|i: int, j: int|
            0 <= i < j < m.keys().len() ==> m.keys()[i] != m.keys()[j],
{
}

/// A well-formed set lists each member once.
pub proof fn lemma_set_distinct(s: NameSet)
    requires
        s.wf(),
    ensures
        forall|i: int, j: int|
            0 <= i < j < s.names().len() ==> s.names()[i] != s.names()[j],
{
}

/// A set of unit names.
pub struct NameSet {
    items: Vec<UnitName>,
}

impl NameSet {
    /// The members, in insertion order.
    pub closed spec fn names(self) -> Seq<UnitNameView> {
        self.items@.map_values(|n: UnitName| n@)
    }

    pub open spec fn has(self, k: UnitNameView) -> bool {
        self.names().contains(k)
    }

    pub closed spec fn wf(self) -> bool {
        forall|i: int, j: int|
            0 <= i < j < self.names().len() ==> self.names()[i] != self.names()[j]
    }

    pub fn new() -> (r: NameSet)
        ensures
            r.wf(),
            r.names().len() == 0,
            forall|k: UnitNameView| !r.has(k),
    {
        NameSet { items: Vec::new() }
    }

    pub fn len(&self) -> (r: usize)
        ensures
            r == self.names().len(),
    {
        self.items.len()
    }

    pub fn is_empty(&self) -> (r: bool)
        ensures
            r == (self.names().len() == 0),
    {
        self.items.len() == 0
    }

    fn find(&self, name: &UnitName) -> (r: Option<usize>)
        ensures
            match r {
                Some(i) => i < self.names().len() && self.names()[i as int] == name@,
                None => !self.has(name@),
            },
    {
        let mut i: usize = 0;
        while i < self.items.len()
            invariant
                i <= self.names().len(),
                forall|j: int| 0 <= j < i ==> self.names()[j] != name@,
            decreases self.items@.len() - i,
        {
            if self.items[i].eq_name(name) {
                return Some(i);
            }
            i = i + 1;
        }
        None
    }

    pub fn contains(&self, name: &UnitName) -> (r: bool)
        ensures
            r == self.has(name@),
    {
        match self.find(name) {
            Some(i) => {
                proof {
                    assert(self.names()[i as int] == name@);
                }
                true
            },
            None => false,
        }
    }

    /// Adds a name; nothing changes when it is already a member.
    pub fn insert(&mut self, name: UnitName)
        requires
            old(self).wf(),
        ensures
            final(self).wf(),
            final(self).has(name@),
            forall|k: UnitNameView| k != name@ ==> #[trigger] final(self).has(k) == old(self).has(k),
            final(self).names().len() == if old(self).has(name@) {
                old(self).names().len()
            } else {
                old(self).names().len() + 1
            },
    {
        let ghost prev = *self;
        match self.find(&name) {
            Some(_) => {},
            None => {
                let ghost nv = name@;
                self.items.push(name);
                proof {
                    assert(self.names() =~= prev.names().push(nv));
                    assert(forall|j: int|
                        0 <= j < prev.names().len() ==> self.names()[j] == prev.names()[j]);
                    assert(self.names()[self.names().len() - 1] == nv);
                    assert(self.wf());
                    assert forall|k: UnitNameView| k != nv implies #[trigger] self.has(k)
                        == prev.has(k) by {
                        if prev.has(k) {
                            let j = choose|j: int|
                                0 <= j < prev.names().len() && prev.names()[j] == k;
                            assert(self.names()[j] == k);
                        }
                        if self.has(k) {
                            let j = choose|j: int|
                                0 <= j < self.names().len() && self.names()[j] == k;
                            assert(j < prev.names().len());
                            assert(prev.names()[j] == k);
                        }
                    }
                }
            },
        }
    }

    /// Removes a name, if present.
    pub fn remove(&mut self, name: &UnitName)
        requires
            old(self).wf(),
        ensures
            final(self).wf(),
            !final(self).has(name@),
            forall|k: UnitNameView| k != name@ ==> #[trigger] final(self).has(k) == old(self).has(k),
            final(self).names().len() == if old(self).has(name@) {
                old(self).names().len() - 1
            } else {
                old(self).names().len() as int
            },
            !old(self).has(name@) ==> *final(self) == *old(self),
    {
        let ghost prev = *self;
        match self.find(name) {
            Some(i) => {
                self.items.remove(i);
                proof {
                    assert(self.names() =~= prev.names().remove(i as int));
                    assert(forall|j: int|
                        0 <= j < i ==> #[trigger] self.names()[j] == prev.names()[j]);
                    assert(forall|j: int|
                        i <= j < self.names().len() ==> #[trigger] self.names()[j] == prev.names()[
                            j + 1]);
                    assert(self.wf());
                    if self.has(name@) {
                        let j = choose|j: int| 0 <= j < self.names().len() && self.names()[j]
                            == name@;
                        if j < i {
                            assert(prev.names()[j] == name@);
                            assert(prev.names()[i as int] == name@);
                        } else {
                            assert(prev.names()[j + 1] == name@);
                            assert(prev.names()[i as int] == name@);
                        }
                        assert(false);
                    }
                    assert forall|k: UnitNameView| k != name@ implies #[trigger] self.has(k)
                        == prev.has(k) by {
                        if prev.has(k) {
                            let j = choose|j: int|
                                0 <= j < prev.names().len() && prev.names()[j] == k;
                            assert(j != i);
                            if j < i {
                                assert(self.names()[j] == k);
                            } else {
                                assert(self.names()[j - 1] == k);
                            }
                        }
                        if self.has(k) {
                            let j = choose|j: int|
                                0 <= j < self.names().len() && self.names()[j] == k;
                            if j < i {
                                assert(prev.names()[j] == k);
                            } else {
                                assert(prev.names()[j + 1] == k);
                            }
                        }
                    }
                }
            },
            None => {},
        }
    }

    /// Empties the set.
    pub fn clear(&mut self)
        ensures
            final(self).wf(),
            final(self).names().len() == 0,
            forall|k: UnitNameView| !final(self).has(k),
    {
        self.items.clear();
    }

    pub fn name_at(&self, i: usize) -> (r: &UnitName)
        requires
            i < self.names().len(),
        ensures
            r@ == self.names()[i as int],
            self.has(r@),
    {
        proof {
            assert(self.names()[i as int] == self.names()[i as int]);
        }
        &self.items[i]
    }
}

} // verus!
