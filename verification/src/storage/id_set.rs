use vstd::prelude::*;

verus! {

/// A set of ids that remembers the order in which they were added.
///
/// Its value is the sequence of the ids, oldest first, and no id occurs in
/// it twice.
pub struct IdSet {
    ids: Vec<String>,
}

impl View for IdSet {
    type V = Seq<Seq<char>>;

    closed spec fn view(&self) -> Seq<Seq<char>> {
        texts(self.ids@)
    }
}

/// The values of a list of ids, in the same order.
pub open spec fn texts(ids: Seq<String>) -> Seq<Seq<char>> {
    ids.map_values(|id: String| id@)
}

/// Pushing a value that a duplicate-free sequence lacks keeps it
/// duplicate-free, and adds that value to what it holds and nothing else.
pub proof fn lemma_push_fresh(ids: Seq<Seq<char>>, id: Seq<char>)
    requires
        ids.no_duplicates(),
        !ids.contains(id),
    ensures
        ids.push(id).no_duplicates(),
        forall|other: Seq<char>| #[trigger]
            ids.push(id).contains(other) <==> (ids.contains(other) || other == id),
{
    let longer = ids.push(id);
    assert forall|a: int, b: int| 0 <= a < longer.len() && 0 <= b < longer.len() && a != b implies longer[a]
        != longer[b] by {
        if a < ids.len() {
            assert(ids.contains(longer[a]));
        }
        if b < ids.len() {
            assert(ids.contains(longer[b]));
        }
    }
    assert forall|other: Seq<char>| longer.contains(other) <==> (ids.contains(other) || other
        == id) by {
        if longer.contains(other) {
            let k = choose|k: int| 0 <= k < longer.len() && longer[k] == other;
            if k < ids.len() {
                assert(ids[k] == other);
            }
        }
        if ids.contains(other) {
            let k = choose|k: int| 0 <= k < ids.len() && ids[k] == other;
            assert(longer[k] == other);
        }
        if other == id {
            assert(longer[ids.len() as int] == other);
        }
    }
}

/// Removing the one occurrence of `id` from a duplicate-free sequence leaves
/// a duplicate-free sequence that holds every other id and no longer `id`.
pub proof fn lemma_remove_value(ids: Seq<Seq<char>>, id: Seq<char>)
    requires
        ids.no_duplicates(),
    ensures
        ids.remove_value(id).no_duplicates(),
        forall|other: Seq<char>| #[trigger]
            ids.remove_value(id).contains(other) <==> (ids.contains(other) && other != id),
        ids.contains(id) ==> ids.remove_value(id).len() + 1 == ids.len(),
        !ids.contains(id) ==> ids.remove_value(id) == ids,
{
    ids.index_of_first_ensures(id);
    match ids.index_of_first(id) {
        Some(at) => {
            let rest = ids.remove(at);
            ids.remove_ensures(at);
            assert forall|other: Seq<char>| rest.contains(other) <==> (ids.contains(other) && other
                != id) by {
                if rest.contains(other) {
                    let k = choose|k: int| 0 <= k < rest.len() && rest[k] == other;
                    if k < at {
                        assert(ids[k] == other);
                    } else {
                        assert(ids[k + 1] == other);
                    }
                }
                if ids.contains(other) && other != id {
                    let k = choose|k: int| 0 <= k < ids.len() && ids[k] == other;
                    if k < at {
                        assert(rest[k] == other);
                    } else {
                        assert(rest[k - 1] == other);
                    }
                }
            }
        },
        None => {},
    }
}

impl IdSet {
    /// No id occurs twice.
    pub open spec fn wf(&self) -> bool {
        self@.no_duplicates()
    }

    pub fn new() -> (set: IdSet)
        ensures
            set.wf(),
            set@ == Seq::<Seq<char>>::empty(),
    {
        let set = IdSet { ids: Vec::new() };
        assert(set@ =~= Seq::<Seq<char>>::empty());
        set
    }

    pub fn len(&self) -> (n: usize)
        ensures
            n == self@.len(),
    {
        self.ids.len()
    }

    /// The id at position `at`, counting from the oldest.
    pub fn get(&self, at: usize) -> (id: &String)
        requires
            at < self@.len(),
        ensures
            id@ == self@[at as int],
    {
        &self.ids[at]
    }

    /// The position of `id`, if the set holds it.
    pub fn position(&self, id: &String) -> (found: Option<usize>)
        ensures
            match found {
                Some(at) => at < self@.len() && self@[at as int] == id@ && forall|k: int|
                    0 <= k < at ==> self@[k] != id@,
                None => !self@.contains(id@),
            },
    {
        let mut at: usize = 0;
        while at < self.ids.len()
            invariant
                at <= self.ids@.len(),
                forall|k: int| 0 <= k < at ==> self@[k] != id@,
            decreases self.ids@.len() - at,
        {
            if self.ids[at] == *id {
                return Some(at);
            }
            at += 1;
        }
        None
    }

    pub fn contains(&self, id: &String) -> (held: bool)
        ensures
            held == self@.contains(id@),
    {
        self.position(id).is_some()
    }

    /// The ids as a list, oldest first.
    pub fn to_vec(&self) -> (list: Vec<String>)
        ensures
            texts(list@) == self@,
    {
        let mut list: Vec<String> = Vec::new();
        let mut at: usize = 0;
        assert(texts(list@) =~= self@.take(0));
        while at < self.ids.len()
            invariant
                at <= self.ids@.len(),
                list@.len() == at,
                texts(list@) == self@.take(at as int),
            decreases self.ids@.len() - at,
        {
            let ghost before = list@;
            list.push(self.ids[at].clone());
            assert forall|k: int| 0 <= k < at + 1 implies texts(list@)[k] == self@.take(at + 1)[k] by {
                if k < at {
                    assert(texts(before)[k] == self@.take(at as int)[k]);
                }
            }
            assert(texts(list@) =~= self@.take(at + 1));
            at += 1;
        }
        assert(self@.take(at as int) =~= self@);
        list
    }

    /// Adds `id` behind the others unless the set holds it already; says
    /// whether it was added.
    pub fn insert(&mut self, id: String) -> (added: bool)
        requires
            old(self).wf(),
        ensures
            final(self).wf(),
            added == !old(self)@.contains(id@),
            final(self)@ == if added {
                old(self)@.push(id@)
            } else {
                old(self)@
            },
    {
        if self.contains(&id) {
            false
        } else {
            self.ids.push(id);
            assert(self@ =~= old(self)@.push(id@));
            true
        }
    }

    /// Takes `id` out, keeping the others in their order; says whether the
    /// set held it.
    pub fn remove(&mut self, id: &String) -> (removed: bool)
        requires
            old(self).wf(),
        ensures
            final(self).wf(),
            removed == old(self)@.contains(id@),
            final(self)@ == old(self)@.remove_value(id@),
    {
        proof {
            lemma_remove_value(self@, id@);
            self@.index_of_first_ensures(id@);
        }
        match self.position(id) {
            Some(at) => {
                self.ids.remove(at);
                assert(self@ =~= old(self)@.remove(at as int));
                true
            },
            None => false,
        }
    }
}

} // verus!
