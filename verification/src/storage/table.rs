use vstd::prelude::*;

verus! {

/// A key that can be compared at run time, where two keys are the same
/// exactly when their values are equal.
pub trait TableKey: View + Sized {
    fn same_key(&self, other: &Self) -> (same: bool)
        ensures
            same == (self@ == other@),
    ;
}

impl TableKey for String {
    fn same_key(&self, other: &Self) -> (same: bool) {
        *self == *other
    }
}

impl TableKey for (String, String) {
    fn same_key(&self, other: &Self) -> (same: bool) {
        self.0 == other.0 && self.1 == other.1
    }
}

/// A finite map from keys to values, held as two columns of equal length in
/// which no key occurs twice.
///
/// Its value is the mathematical map from each key's value to the value of
/// what is stored under it.
pub struct Table<K, V> {
    keys: Vec<K>,
    values: Vec<V>,
}

impl<K: TableKey, V: View> Table<K, V> {
    spec fn holds_at(&self, at: int, key: K::V) -> bool {
        0 <= at < self.keys@.len() && self.keys@[at]@ == key
    }

    spec fn slot(&self, key: K::V) -> int {
        choose|at: int| self.holds_at(at, key)
    }

    /// The columns line up and no key occurs twice.
    pub closed spec fn wf(&self) -> bool {
        &&& self.keys@.len() == self.values@.len()
        &&& forall|a: int, b: int|
            0 <= a < self.keys@.len() && 0 <= b < self.keys@.len() && a != b
                ==> self.keys@[a]@ != self.keys@[b]@
    }

    /// The map this table stands for.
    pub closed spec fn view(&self) -> Map<K::V, V::V> {
        Map::new(
            |key: K::V| exists|at: int| self.holds_at(at, key),
            |key: K::V| self.values@[self.slot(key)]@,
        )
    }

    proof fn lemma_slot(&self, at: int)
        requires
            self.wf(),
            0 <= at < self.keys@.len(),
        ensures
            self.holds_at(at, self.keys@[at]@),
            self.slot(self.keys@[at]@) == at,
            self.view().contains_key(self.keys@[at]@),
            self.view()[self.keys@[at]@] == self.values@[at]@,
    {
        assert(self.holds_at(at, self.keys@[at]@));
    }

    pub fn new() -> (table: Self)
        ensures
            table.wf(),
            table.view() == Map::<K::V, V::V>::empty(),
    {
        let table = Table { keys: Vec::new(), values: Vec::new() };
        assert(table.view() =~= Map::<K::V, V::V>::empty());
        table
    }

    fn find(&self, key: &K) -> (found: Option<usize>)
        requires
            self.wf(),
        ensures
            match found {
                Some(at) => self.holds_at(at as int, key@) && self.slot(key@) == at,
                None => !self.view().contains_key(key@),
            },
    {
        let mut at: usize = 0;
        while at < self.keys.len()
            invariant
                self.wf(),
                at <= self.keys@.len(),
                forall|k: int| 0 <= k < at ==> !self.holds_at(k, key@),
            decreases self.keys@.len() - at,
        {
            if self.keys[at].same_key(key) {
                proof {
                    self.lemma_slot(at as int);
                }
                return Some(at);
            }
            at += 1;
        }
        None
    }

    pub fn contains_key(&self, key: &K) -> (held: bool)
        requires
            self.wf(),
        ensures
            held == self.view().contains_key(key@),
    {
        match self.find(key) {
            Some(_) => true,
            None => false,
        }
    }

    /// What is stored under `key`, if anything.
    pub fn get(&self, key: &K) -> (found: Option<&V>)
        requires
            self.wf(),
        ensures
            match found {
                Some(value) => self.view().contains_key(key@) && value@ == self.view()[key@],
                None => !self.view().contains_key(key@),
            },
    {
        match self.find(key) {
            Some(at) => Some(&self.values[at]),
            None => None,
        }
    }

    /// Stores `value` under `key`, in place of what was there.
    pub fn insert(&mut self, key: K, value: V)
        requires
            old(self).wf(),
        ensures
            final(self).wf(),
            final(self).view() == old(self).view().insert(key@, value@),
    {
        let ghost before = *self;
        let ghost target = before.view().insert(key@, value@);
        match self.find(&key) {
            Some(at) => {
                self.values.set(at, value);
                assert(self.keys@ == before.keys@);
                assert forall|k: K::V| #[trigger] self.view().contains_key(k) == target.contains_key(
                    k,
                ) by {
                    if self.view().contains_key(k) {
                        let i = self.slot(k);
                        assert(before.holds_at(i, k));
                    }
                    if target.contains_key(k) {
                        let i = if k == key@ { at as int } else { before.slot(k) };
                        assert(self.holds_at(i, k));
                    }
                }
                assert forall|k: K::V| #[trigger] self.view().contains_key(k) implies self.view()[k]
                    == target[k] by {
                    let i = self.slot(k);
                    assert(self.holds_at(i, k));
                    assert(before.holds_at(i, k));
                    before.lemma_slot(i);
                }
                assert(self.view() =~= target);
            },
            None => {
                let ghost last = before.keys@.len() as int;
                assert forall|a: int| 0 <= a < last implies before.keys@[a]@ != key@ by {
                    if before.keys@[a]@ == key@ {
                        assert(before.holds_at(a, key@));
                    }
                }
                self.keys.push(key);
                self.values.push(value);
                assert forall|k: K::V| #[trigger] self.view().contains_key(k) == target.contains_key(
                    k,
                ) by {
                    if self.view().contains_key(k) {
                        let i = self.slot(k);
                        if i < last {
                            assert(before.holds_at(i, k));
                        }
                    }
                    if target.contains_key(k) {
                        let i = if k == key@ { last } else { before.slot(k) };
                        assert(self.holds_at(i, k));
                    }
                }
                assert forall|k: K::V| #[trigger] self.view().contains_key(k) implies self.view()[k]
                    == target[k] by {
                    let i = self.slot(k);
                    assert(self.holds_at(i, k));
                    if i < last {
                        assert(before.holds_at(i, k));
                        before.lemma_slot(i);
                    }
                }
                assert(self.view() =~= target);
            },
        }
    }

    /// Drops what is stored under `key`; says whether anything was.
    pub fn remove(&mut self, key: &K) -> (removed: bool)
        requires
            old(self).wf(),
        ensures
            final(self).wf(),
            removed == old(self).view().contains_key(key@),
            final(self).view() == old(self).view().remove(key@),
    {
        let ghost before = *self;
        let ghost target = before.view().remove(key@);
        match self.find(key) {
            Some(at) => {
                self.keys.remove(at);
                self.values.remove(at);
                assert(before.holds_at(at as int, key@));
                assert forall|k: K::V| #[trigger] self.view().contains_key(k) == target.contains_key(
                    k,
                ) by {
                    if self.view().contains_key(k) {
                        let i = self.slot(k);
                        let j = if i < at { i } else { i + 1 };
                        assert(before.holds_at(j, k));
                    }
                    if target.contains_key(k) {
                        let j = before.slot(k);
                        assert(before.holds_at(j, k));
                        let i = if j < at { j } else { j - 1 };
                        assert(self.holds_at(i, k));
                    }
                }
                assert forall|k: K::V| #[trigger] self.view().contains_key(k) implies self.view()[k]
                    == target[k] by {
                    let i = self.slot(k);
                    assert(self.holds_at(i, k));
                    let j = if i < at { i } else { i + 1 };
                    assert(before.holds_at(j, k));
                    before.lemma_slot(j);
                }
                assert(self.view() =~= target);
                true
            },
            None => {
                assert(self.view() =~= target);
                false
            },
        }
    }
}

} // verus!
