use crate::storage::id_set::{lemma_remove_value, texts, IdSet};
use crate::storage::table::Table;
use crate::structs::project::{Project, ProjectView};
use vstd::prelude::*;

verus! {

/// The index that answers which projects a worker is on without a walk
/// through the primary store: a copy of each assigned project, filed under
/// its worker and its id, and the ids that are filed, in the order in which
/// they came in. The two are changed together. That the copies agree with the
/// primary store is the business of whoever changes both.
pub struct WorkerIndex {
    ids: IdSet,
    filed: Table<(String, String), Project>,
}

impl WorkerIndex {
    /// The indexed ids, in the order in which they came in.
    pub closed spec fn ids(&self) -> Seq<Seq<char>> {
        self.ids@
    }

    /// The copy filed under each pair of worker and id.
    pub closed spec fn filed(&self) -> Map<(Seq<char>, Seq<char>), ProjectView> {
        self.filed.view()
    }

    pub closed spec fn wf(&self) -> bool {
        self.ids.wf() && self.filed.wf()
    }

    /// In a sound index no id is listed twice.
    pub proof fn lemma_wf(&self)
        requires
            self.wf(),
        ensures
            self.ids().no_duplicates(),
    {
    }

    pub fn new() -> (index: WorkerIndex)
        ensures
            index.wf(),
            index.ids() == Seq::<Seq<char>>::empty(),
            index.filed() == Map::<(Seq<char>, Seq<char>), ProjectView>::empty(),
    {
        WorkerIndex { ids: IdSet::new(), filed: Table::new() }
    }

    /// Files `snapshot` under `worker` and `id`, in place of the copy there;
    /// an id that is not listed yet goes behind the others.
    pub fn assign(&mut self, worker: String, id: String, snapshot: Project)
        requires
            old(self).wf(),
        ensures
            final(self).wf(),
            final(self).filed() == old(self).filed().insert((worker@, id@), snapshot@),
            final(self).ids() == if old(self).ids().contains(id@) {
                old(self).ids()
            } else {
                old(self).ids().push(id@)
            },
    {
        self.ids.insert(id.clone());
        self.filed.insert((worker, id), snapshot);
    }

    /// Drops the copy filed under `worker` and `id`, and takes the id off
    /// the list; says whether there was such a copy.
    pub fn unassign(&mut self, worker: &String, id: &String) -> (removed: bool)
        requires
            old(self).wf(),
        ensures
            final(self).wf(),
            removed == old(self).filed().contains_key((worker@, id@)),
            final(self).filed() == old(self).filed().remove((worker@, id@)),
            final(self).ids() == old(self).ids().remove_value(id@),
    {
        proof {
            lemma_remove_value(self.ids@, id@);
        }
        self.ids.remove(id);
        let key = (worker.clone(), id.clone());
        self.filed.remove(&key)
    }

    /// A copy of what is filed under `worker` and `id`, if anything.
    pub fn get(&self, worker: &String, id: &String) -> (found: Option<Project>)
        requires
            self.wf(),
        ensures
            match found {
                Some(record) => self.filed().contains_key((worker@, id@)) && record@
                    == self.filed()[(worker@, id@)],
                None => !self.filed().contains_key((worker@, id@)),
            },
    {
        let key = (worker.clone(), id.clone());
        match self.filed.get(&key) {
            Some(record) => Some(record.clone()),
            None => None,
        }
    }

    /// Whether `id` is listed.
    pub fn is_indexed(&self, id: &String) -> (held: bool)
        ensures
            held == self.ids().contains(id@),
    {
        self.ids.contains(id)
    }

    /// The indexed ids, in the order in which they came in.
    pub fn list_indexed_ids(&self) -> (ids: Vec<String>)
        ensures
            texts(ids@) == self.ids(),
    {
        self.ids.to_vec()
    }

    /// How many ids are listed.
    pub fn len(&self) -> (count: usize)
        ensures
            count == self.ids().len(),
    {
        self.ids.len()
    }

    /// The id at position `at` of the list.
    pub fn id_at(&self, at: usize) -> (id: &String)
        requires
            at < self.ids().len(),
        ensures
            id@ == self.ids()[at as int],
    {
        self.ids.get(at)
    }
}

} // verus!
