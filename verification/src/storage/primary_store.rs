use crate::storage::id_set::{lemma_push_fresh, lemma_remove_value, texts, IdSet};
use crate::storage::table::Table;
use crate::structs::project::{Project, ProjectView};
use vstd::prelude::*;

verus! {

/// The source of truth for all projects: the record under each id, and the
/// ids in the order in which they were first stored. The two are changed
/// together. Nobody is asked who they are here.
pub struct PrimaryStore {
    ids: IdSet,
    records: Table<String, Project>,
}

impl PrimaryStore {
    /// The stored ids, oldest first.
    pub closed spec fn ids(&self) -> Seq<Seq<char>> {
        self.ids@
    }

    /// The record under each stored id.
    pub closed spec fn records(&self) -> Map<Seq<char>, ProjectView> {
        self.records.view()
    }

    /// The list of ids holds each id that has a record, once, and no other.
    pub closed spec fn wf(&self) -> bool {
        &&& self.ids.wf()
        &&& self.records.wf()
        &&& forall|id: Seq<char>|
            #![trigger self.ids@.contains(id)]
            #![trigger self.records.view().contains_key(id)]
            self.ids@.contains(id) <==> self.records.view().contains_key(id)
    }

    /// What a sound store guarantees of its two parts.
    pub proof fn lemma_wf(&self)
        requires
            self.wf(),
        ensures
            self.ids().no_duplicates(),
            forall|id: Seq<char>|
                #![trigger self.ids().contains(id)]
                #![trigger self.records().contains_key(id)]
                self.ids().contains(id) <==> self.records().contains_key(id),
    {
    }

    pub fn new() -> (store: PrimaryStore)
        ensures
            store.wf(),
            store.ids() == Seq::<Seq<char>>::empty(),
            store.records() == Map::<Seq<char>, ProjectView>::empty(),
    {
        PrimaryStore { ids: IdSet::new(), records: Table::new() }
    }

    /// A copy of the record under `id`, if there is one.
    pub fn get(&self, id: &String) -> (found: Option<Project>)
        requires
            self.wf(),
        ensures
            match found {
                Some(record) => self.records().contains_key(id@) && record@ == self.records()[id@],
                None => !self.records().contains_key(id@),
            },
    {
        match self.records.get(id) {
            Some(record) => Some(record.clone()),
            None => None,
        }
    }

    pub fn contains(&self, id: &String) -> (held: bool)
        requires
            self.wf(),
        ensures
            held == self.records().contains_key(id@),
    {
        self.records.contains_key(id)
    }

    /// Stores `record` under `id`, in place of the record there; a new id
    /// goes behind the others.
    pub fn put(&mut self, id: String, record: Project)
        requires
            old(self).wf(),
        ensures
            final(self).wf(),
            final(self).records() == old(self).records().insert(id@, record@),
            final(self).ids() == if old(self).records().contains_key(id@) {
                old(self).ids()
            } else {
                old(self).ids().push(id@)
            },
    {
        proof {
            if !self.ids@.contains(id@) {
                lemma_push_fresh(self.ids@, id@);
            }
        }
        self.ids.insert(id.clone());
        self.records.insert(id, record);
    }

    /// Drops the record under `id` and the id; says whether there was one.
    pub fn delete(&mut self, id: &String) -> (removed: bool)
        requires
            old(self).wf(),
        ensures
            final(self).wf(),
            removed == old(self).records().contains_key(id@),
            final(self).records() == old(self).records().remove(id@),
            final(self).ids() == old(self).ids().remove_value(id@),
    {
        proof {
            lemma_remove_value(self.ids@, id@);
        }
        self.ids.remove(id);
        self.records.remove(id)
    }

    /// The stored ids, oldest first.
    pub fn list_ids(&self) -> (ids: Vec<String>)
        ensures
            texts(ids@) == self.ids(),
    {
        self.ids.to_vec()
    }

    /// How many projects are stored.
    pub fn len(&self) -> (count: usize)
        ensures
            count == self.ids().len(),
    {
        self.ids.len()
    }

    /// The id at position `at`, counting from the oldest.
    pub fn id_at(&self, at: usize) -> (id: &String)
        requires
            at < self.ids().len(),
        ensures
            id@ == self.ids()[at as int],
    {
        self.ids.get(at)
    }
}

} // verus!
