use crate::consistency::{
    lemma_empty_wf, lemma_loaded, lemma_with_assigned_wf, lemma_with_created_wf,
    lemma_with_record_wf, lemma_with_released_wf, lemma_with_removed_wf,
};
use crate::error::ProjectError;
use crate::guard::{is_owner_call, is_self_settlement, is_worker_or_owner, CallContext};
use crate::model::{
    lemma_select_empty, lemma_select_push, listed, loadable, restorable, select, ManagementView,
    PaymentView,
};
use crate::storage::id_set::{lemma_push_fresh, lemma_remove_value, texts};
use crate::storage::primary_store::PrimaryStore;
use crate::storage::worker_index::WorkerIndex;
use crate::structs::all_projects_return::AllProjectsReturn;
use crate::structs::project::{status_of_label, views, Project, Status};
use crate::structs::user_project_returns::UserProjectsReturn;
use crate::text::{lowercase_of, to_lowercase};
use vstd::prelude::*;

verus! {

/// The order to transfer `amount` to `recipient`. The library decides that
/// the transfer is due; carrying it out is the caller's business.
#[derive(Debug, PartialEq, Eq)]
pub struct Payment {
    pub recipient: String,
    pub amount: u128,
}

impl View for Payment {
    type V = PaymentView;

    open spec fn view(&self) -> PaymentView {
        PaymentView { recipient: self.recipient@, amount: self.amount }
    }
}

/// What answering a submission gives back: the payment that an approval
/// releases, or a note that nothing was changed.
#[derive(Debug)]
pub enum ApproveReturn {
    Promise(Payment),
    String(String),
}

/// The marketplace: the primary store of projects and the worker index,
/// changed only together.
pub struct ProjectManagement {
    store: PrimaryStore,
    index: WorkerIndex,
}

impl View for ProjectManagement {
    type V = ManagementView;

    closed spec fn view(&self) -> ManagementView {
        ManagementView {
            project_ids: self.store.ids(),
            projects: self.store.records(),
            user_ids: self.index.ids(),
            user_projects: self.index.filed(),
        }
    }
}

impl ProjectManagement {
    spec fn stores_wf(&self) -> bool {
        self.store.wf() && self.index.wf()
    }

    /// The stores are sound and the state they stand for is well formed.
    pub closed spec fn wf(&self) -> bool {
        self.stores_wf() && self@.wf()
    }

    /// A well-formed marketplace stands for a well-formed state.
    pub proof fn lemma_view_wf(&self)
        requires
            self.wf(),
        ensures
            self@.wf(),
    {
    }

    pub fn new() -> (management: ProjectManagement)
        ensures
            management.wf(),
            management@ == ManagementView::empty(),
    {
        let management = ProjectManagement { store: PrimaryStore::new(), index: WorkerIndex::new() };
        proof {
            lemma_empty_wf();
        }
        management
    }

    /// Rebuilds a marketplace from what was kept of one: `records`, the
    /// projects oldest first, and `user_ids`, the ids in the worker index in
    /// their order. Gives nothing where the two do not describe a well-formed
    /// state.
    pub fn restore(records: Vec<Project>, user_ids: Vec<String>) -> (restored: Option<
        ProjectManagement,
    >)
        ensures
            match restored {
                Some(management) => {
                    &&& restorable(views(records@), texts(user_ids@))
                    &&& management.wf()
                    &&& management@ == ManagementView::restored(views(records@), texts(user_ids@))
                },
                None => !restorable(views(records@), texts(user_ids@)),
            },
    {
        let ghost recs = views(records@);
        let ghost idx = texts(user_ids@);
        let mut store = PrimaryStore::new();
        let mut at: usize = 0;
        assert(recs.take(0) =~= Seq::empty());
        while at < records.len()
            invariant
                recs == views(records@),
                at <= records@.len(),
                store.wf(),
                loadable(recs.take(at as int)),
                store.ids() == ManagementView::loaded(recs.take(at as int)).project_ids,
                store.records() == ManagementView::loaded(recs.take(at as int)).projects,
            decreases records@.len() - at,
        {
            let ghost earlier = recs.take(at as int);
            let ghost longer = recs.take(at + 1);
            proof {
                lemma_loaded(earlier);
                assert(longer.drop_last() =~= earlier);
                assert(longer.last() == recs[at as int]);
            }
            let record = records[at].clone();
            if store.contains(&record.id) {
                proof {
                    assert(listed(earlier, record@.id));
                    let a = choose|a: int|
                        0 <= a < earlier.len() && (#[trigger] earlier[a]).id == record@.id;
                    assert(recs[a].id == recs[at as int].id);
                }
                return None;
            }
            let fits = match record.status {
                Status::Created => record.worker.is_none(),
                _ => record.worker.is_some(),
            };
            if !fits {
                proof {
                    assert(!recs[at as int].worker_matches_status());
                }
                return None;
            }
            proof {
                assert forall|a: int, b: int|
                    0 <= a < longer.len() && 0 <= b < longer.len() && a != b implies (
                #[trigger] longer[a]).id != (#[trigger] longer[b]).id by {
                    if a < at && b < at {
                        assert(earlier[a].id != earlier[b].id);
                    } else {
                        let c = if a < at { a } else { b };
                        assert(earlier[c].id == recs[c].id);
                        assert(listed(earlier, earlier[c].id));
                    }
                }
                assert forall|a: int| 0 <= a < longer.len() implies (
                #[trigger] longer[a]).worker_matches_status() by {
                    if a < at {
                        assert(earlier[a].worker_matches_status());
                    }
                }
            }
            store.put(record.id.clone(), record);
            at += 1;
        }
        assert(recs.take(at as int) =~= recs);
        let ghost loaded = ManagementView::loaded(recs);
        proof {
            lemma_loaded(recs);
        }
        let mut index = WorkerIndex::new();
        let mut at: usize = 0;
        assert(idx.take(0) =~= Seq::empty());
        while at < user_ids.len()
            invariant
                recs == views(records@),
                idx == texts(user_ids@),
                at <= user_ids@.len(),
                store.wf(),
                index.wf(),
                loadable(recs),
                loaded == ManagementView::loaded(recs),
                store.ids() == loaded.project_ids,
                store.records() == loaded.projects,
                index.ids() == idx.take(at as int),
                forall|k: int| 0 <= k < at ==> loaded.has_worker(#[trigger] idx[k]),
                forall|worker: Seq<char>, id: Seq<char>|
                    #![trigger index.filed().contains_key((worker, id))]
                    index.filed().contains_key((worker, id)) <==> idx.take(at as int).contains(id)
                        && loaded.assigned_to(worker, id),
                forall|worker: Seq<char>, id: Seq<char>| #[trigger]
                    index.filed().contains_key((worker, id)) ==> index.filed()[(worker, id)]
                        == loaded.projects[id],
            decreases user_ids@.len() - at,
        {
            proof {
                lemma_loaded(recs);
                index.lemma_wf();
            }
            let id = &user_ids[at];
            let ghost listed_before = idx.take(at as int);
            assert(id@ == idx[at as int]);
            assert(idx.contains(idx[at as int]));
            let record = match store.get(id) {
                Some(record) => record,
                None => {
                    proof {
                        if restorable(recs, idx) {
                            let a = choose|a: int|
                                0 <= a < recs.len() && (#[trigger] recs[a]).id == id@
                                    && recs[a].worker.is_some();
                            assert(loaded.projects.contains_key(recs[a].id));
                        }
                    }
                    return None;
                },
            };
            let worker = match &record.worker {
                Some(worker) => worker.clone(),
                None => {
                    proof {
                        if restorable(recs, idx) {
                            let a = choose|a: int|
                                0 <= a < recs.len() && (#[trigger] recs[a]).id == id@
                                    && recs[a].worker.is_some();
                            assert(loaded.projects[recs[a].id] == recs[a]);
                        }
                    }
                    return None;
                },
            };
            if index.is_indexed(id) {
                proof {
                    let k = choose|k: int| 0 <= k < at && listed_before[k] == id@;
                    assert(idx[k] == idx[at as int]);
                }
                return None;
            }
            index.assign(worker, id.clone(), record);
            proof {
                let listed_now = idx.take(at + 1);
                assert(listed_now =~= listed_before.push(id@));
                lemma_push_fresh(listed_before, id@);
            }
            at += 1;
        }
        assert(idx.take(at as int) =~= idx);
        assert(forall|k: int| 0 <= k < idx.len() ==> loaded.has_worker(#[trigger] idx[k]));
        let mut at: usize = 0;
        while at < records.len()
            invariant
                recs == views(records@),
                idx == texts(user_ids@),
                at <= records@.len(),
                index.wf(),
                index.ids() == idx,
                forall|a: int|
                    0 <= a < at && (#[trigger] recs[a]).worker.is_some() ==> idx.contains(recs[a].id),
            decreases records@.len() - at,
        {
            if records[at].worker.is_some() && !index.is_indexed(&records[at].id) {
                proof {
                    assert(recs[at as int].worker.is_some() && !idx.contains(recs[at as int].id));
                }
                return None;
            }
            at += 1;
        }
        let management = ProjectManagement { store, index };
        proof {
            lemma_loaded(recs);
            management.index.lemma_wf();
            let s = management@;
            assert forall|id: Seq<char>| loaded.has_worker(id) implies idx.contains(id) by {
                assert(listed(recs, id));
                let a = choose|a: int| 0 <= a < recs.len() && (#[trigger] recs[a]).id == id;
                assert(loaded.projects[recs[a].id] == recs[a]);
            }
            assert forall|key: (Seq<char>, Seq<char>)|
                s.user_projects.contains_key(key) <==> loaded.user_projects.contains_key(key) by {
                assert(s.user_projects.contains_key((key.0, key.1)) <==> idx.contains(key.1)
                    && loaded.assigned_to(key.0, key.1));
                assert(loaded.user_projects.contains_key((key.0, key.1)) <==> loaded.assigned_to(
                    key.0,
                    key.1,
                ));
                if loaded.assigned_to(key.0, key.1) {
                    assert(loaded.has_worker(key.1));
                }
            }
            assert forall|key: (Seq<char>, Seq<char>)|
                s.user_projects.contains_key(key) implies s.user_projects[key]
                == loaded.user_projects[key] by {
                assert(s.user_projects.contains_key((key.0, key.1)));
                assert(loaded.user_projects.contains_key((key.0, key.1)));
            }
            assert(s.user_projects =~= loaded.user_projects);
            assert(s == ManagementView::restored(recs, idx));
            assert forall|id: Seq<char>| s.user_ids.contains(id) <==> s.has_worker(id) by {
                if s.user_ids.contains(id) {
                    let k = choose|k: int| 0 <= k < idx.len() && idx[k] == id;
                    assert(loaded.has_worker(idx[k]));
                }
            }
            assert forall|id: Seq<char>| #[trigger] idx.contains(id) <==> exists|a: int|
                0 <= a < recs.len() && (#[trigger] recs[a]).id == id && recs[a].worker.is_some() by {
                if s.has_worker(id) {
                    assert(listed(recs, id));
                    let a = choose|a: int| 0 <= a < recs.len() && (#[trigger] recs[a]).id == id;
                    assert(s.projects[recs[a].id] == recs[a]);
                }
                if exists|a: int|
                    0 <= a < recs.len() && (#[trigger] recs[a]).id == id && recs[a].worker.is_some() {
                    let a = choose|a: int|
                        0 <= a < recs.len() && (#[trigger] recs[a]).id == id
                            && recs[a].worker.is_some();
                    assert(s.projects[recs[a].id] == recs[a]);
                }
            }
        }
        Some(management)
    }

    /// The record that the primary store holds under `id`, if any.
    pub fn get_project(&self, id: &String) -> (found: Option<Project>)
        requires
            self.wf(),
        ensures
            match found {
                Some(record) => self@.projects.contains_key(id@) && record@ == self@.projects[id@],
                None => !self@.projects.contains_key(id@),
            },
    {
        self.store.get(id)
    }

    /// The ids of all projects, oldest first.
    pub fn get_project_ids(&self) -> (ids: Vec<String>)
        requires
            self.wf(),
        ensures
            texts(ids@) == self@.project_ids,
    {
        self.store.list_ids()
    }

    /// The copy that the worker index files under `worker_id` for project
    /// `id`, if any.
    pub fn get_user_project(&self, worker_id: &String, id: &String) -> (found: Option<Project>)
        requires
            self.wf(),
        ensures
            match found {
                Some(record) => self@.user_projects.contains_key((worker_id@, id@)) && record@
                    == self@.user_projects[(worker_id@, id@)],
                None => !self@.user_projects.contains_key((worker_id@, id@)),
            },
    {
        self.index.get(worker_id, id)
    }

    /// The ids in the worker index, in the order in which the projects got
    /// their workers.
    pub fn get_user_ids(&self) -> (ids: Vec<String>)
        requires
            self.wf(),
        ensures
            texts(ids@) == self@.user_ids,
    {
        self.index.list_indexed_ids()
    }

    fn store_record(&mut self, record: Project)
        requires
            old(self).wf(),
            old(self)@.projects.contains_key(record@.id),
            record@.worker == old(self)@.projects[record@.id].worker,
        ensures
            final(self).stores_wf(),
            final(self)@ == old(self)@.with_record(record@),
    {
        proof {
            assert(self@.user_ids.contains(record@.id) <==> self@.has_worker(record@.id));
        }
        match &record.worker {
            Some(worker) => {
                self.index.assign(worker.clone(), record.id.clone(), record.clone());
            },
            None => {},
        }
        self.store.put(record.id.clone(), record);
    }

    fn release(&mut self, record: Project)
        requires
            old(self).wf(),
            old(self)@.projects.contains_key(record@.id),
            old(self)@.projects[record@.id] == record@,
        ensures
            final(self).stores_wf(),
            final(self)@ == old(self)@.with_released(record@.id),
    {
        let Project { id, github_issue_link, description, reward, status: _, worker, project_owner } =
            record;
        match worker {
            Some(worker) => {
                self.index.unassign(&worker, &id);
            },
            None => {
                proof {
                    assert(self@.user_ids.contains(id@) <==> self@.has_worker(id@));
                    self.index.lemma_wf();
                    lemma_remove_value(self@.user_ids, id@);
                }
            },
        }
        self.store.put(
            id.clone(),
            Project {
                id,
                github_issue_link,
                description,
                reward,
                status: Status::Created,
                worker: None,
                project_owner,
            },
        );
    }

    /// Creates a project under `id`, in `Created` and without a worker, and
    /// gives the id back. Only the sponsor may; an id in use is refused.
    pub fn add_project(
        &mut self,
        ctx: &CallContext,
        id: String,
        github_issue_link: String,
        description: String,
        reward: u128,
        project_owner: String,
    ) -> (result: Result<String, ProjectError>)
        requires
            old(self).wf(),
        ensures
            final(self).wf(),
            match old(self)@.add_project(
                ctx@,
                id@,
                github_issue_link@,
                description@,
                reward,
                project_owner@,
            ) {
                Ok(next) => final(self)@ == next && result.is_ok() && result.unwrap()@ == id@,
                Err(refusal) => final(self)@ == old(self)@ && result == Err::<String, ProjectError>(
                    refusal,
                ),
            },
    {
        if !is_owner_call(&ctx.signer_account_id, &ctx.current_account_id) {
            return Err(ProjectError::Unauthorized);
        }
        if self.store.contains(&id) {
            return Err(ProjectError::DuplicateId);
        }
        let record = Project::new(id.clone(), github_issue_link, description, reward, project_owner);
        proof {
            lemma_with_created_wf(self@, record@);
        }
        self.store.put(id.clone(), record);
        Ok(id)
    }

    /// Replaces the fields of project `id` that are supplied and leaves the
    /// others, its status and its worker as they are. Only the sponsor may.
    pub fn update_project(
        &mut self,
        ctx: &CallContext,
        id: String,
        github_issue_link: Option<String>,
        description: Option<String>,
        reward: Option<u128>,
    ) -> (result: Result<String, ProjectError>)
        requires
            old(self).wf(),
        ensures
            final(self).wf(),
            match old(self)@.update_project(
                ctx@,
                id@,
                match github_issue_link {
                    Some(link) => Some(link@),
                    None => None,
                },
                match description {
                    Some(text) => Some(text@),
                    None => None,
                },
                reward,
            ) {
                Ok(next) => final(self)@ == next && result.is_ok() && result.unwrap()@ == id@,
                Err(refusal) => final(self)@ == old(self)@ && result == Err::<String, ProjectError>(
                    refusal,
                ),
            },
    {
        if !is_owner_call(&ctx.signer_account_id, &ctx.current_account_id) {
            return Err(ProjectError::Unauthorized);
        }
        let mut record = match self.store.get(&id) {
            Some(record) => record,
            None => {
                return Err(ProjectError::NotFound);
            },
        };
        match github_issue_link {
            Some(link) => {
                record.github_issue_link = link;
            },
            None => {},
        }
        match description {
            Some(text) => {
                record.description = text;
            },
            None => {},
        }
        match reward {
            Some(amount) => {
                record.reward = amount;
            },
            None => {},
        }
        proof {
            lemma_with_record_wf(self@, record@);
        }
        self.store_record(record);
        Ok(id)
    }

    /// Deletes project `job_id`. Only a project still in `Created` can be
    /// deleted, and only by the sponsor.
    pub fn remove_project(&mut self, ctx: &CallContext, job_id: String) -> (result: Result<
        (),
        ProjectError,
    >)
        requires
            old(self).wf(),
        ensures
            final(self).wf(),
            match old(self)@.remove_project(ctx@, job_id@) {
                Ok(next) => final(self)@ == next && result.is_ok(),
                Err(refusal) => final(self)@ == old(self)@ && result == Err::<(), ProjectError>(
                    refusal,
                ),
            },
    {
        let record = match self.store.get(&job_id) {
            Some(record) => record,
            None => {
                return Err(ProjectError::NotFound);
            },
        };
        match record.status {
            Status::Created => {},
            _ => {
                return Err(ProjectError::InvalidTransition);
            },
        }
        if !is_owner_call(&ctx.signer_account_id, &ctx.current_account_id) {
            return Err(ProjectError::Unauthorized);
        }
        proof {
            lemma_with_removed_wf(self@, job_id@);
        }
        self.store.delete(&job_id);
        Ok(())
    }

    fn apply_status(&mut self, id: String, target: Option<Status>) -> (result: Result<
        (),
        ProjectError,
    >)
        requires
            old(self).wf(),
        ensures
            final(self).wf(),
            match old(self)@.set_project_status(id@, target) {
                Ok(next) => final(self)@ == next && result.is_ok(),
                Err(refusal) => final(self)@ == old(self)@ && result == Err::<(), ProjectError>(
                    refusal,
                ),
            },
    {
        let mut record = match self.store.get(&id) {
            Some(record) => record,
            None => {
                return Err(ProjectError::NotFound);
            },
        };
        if record.worker.is_none() {
            return Err(ProjectError::InvalidTransition);
        }
        match record.status {
            Status::PendingWorkerApproval | Status::Complete => {
                return Err(ProjectError::InvalidTransition);
            },
            _ => {},
        }
        match target {
            Some(Status::NotStarted) => {
                record.status = Status::NotStarted;
            },
            Some(Status::InProgress) => {
                record.status = Status::InProgress;
            },
            Some(Status::PendingFinalApproval) => {
                record.status = Status::PendingFinalApproval;
            },
            _ => {
                return Err(ProjectError::InvalidInput);
            },
        }
        proof {
            lemma_with_record_wf(self@, record@);
        }
        self.store_record(record);
        Ok(())
    }

    /// Overwrites the status of project `id` with `target`. The project must
    /// have a worker whose assignment is approved and must not be settled;
    /// only `NotStarted`, `InProgress` and `PendingFinalApproval` can be set.
    pub fn set_project_status_to(&mut self, id: String, target: Status) -> (result: Result<
        (),
        ProjectError,
    >)
        requires
            old(self).wf(),
        ensures
            final(self).wf(),
            match old(self)@.set_project_status(id@, Some(target)) {
                Ok(next) => final(self)@ == next && result.is_ok(),
                Err(refusal) => final(self)@ == old(self)@ && result == Err::<(), ProjectError>(
                    refusal,
                ),
            },
    {
        self.apply_status(id, Some(target))
    }

    /// Overwrites the status of project `id` with the one that `status`
    /// names once it is put in lower case: "not started", "in progress" or
    /// "pending final approval". Any other text is refused.
    pub fn set_project_status(&mut self, id: String, status: String) -> (result: Result<
        (),
        ProjectError,
    >)
        requires
            old(self).wf(),
        ensures
            final(self).wf(),
            match old(self)@.set_project_status(id@, status_of_label(lowercase_of(status@))) {
                Ok(next) => final(self)@ == next && result.is_ok(),
                Err(refusal) => final(self)@ == old(self)@ && result == Err::<(), ProjectError>(
                    refusal,
                ),
            },
    {
        let lowered = to_lowercase(&status);
        self.apply_status(id, Status::from_label(&lowered))
    }

    /// Puts `worker_id` on project `id`, which then awaits the sponsor's
    /// approval, and enters the project in the worker index. A project that
    /// has a worker is refused.
    pub fn set_user_for_project(&mut self, id: String, worker_id: String) -> (result: Result<
        (),
        ProjectError,
    >)
        requires
            old(self).wf(),
        ensures
            final(self).wf(),
            match old(self)@.set_user_for_project(id@, worker_id@) {
                Ok(next) => final(self)@ == next && result.is_ok(),
                Err(refusal) => final(self)@ == old(self)@ && result == Err::<(), ProjectError>(
                    refusal,
                ),
            },
    {
        let mut record = match self.store.get(&id) {
            Some(record) => record,
            None => {
                return Err(ProjectError::NotFound);
            },
        };
        if record.worker.is_some() {
            return Err(ProjectError::AlreadyAssigned);
        }
        proof {
            lemma_with_assigned_wf(self@, id@, worker_id@);
            assert(self@.user_ids.contains(id@) <==> self@.has_worker(id@));
        }
        record.worker = Some(worker_id.clone());
        record.status = Status::PendingWorkerApproval;
        self.index.assign(worker_id, id.clone(), record.clone());
        self.store.put(id, record);
        Ok(())
    }

    /// Answers the assignment that project `id` awaits: approval moves it to
    /// `NotStarted`, rejection takes the worker off and moves it back to
    /// `Created`. Only the sponsor may.
    pub fn approve_user_for_project(&mut self, ctx: &CallContext, id: String, approve: bool) -> (result:
        Result<(), ProjectError>)
        requires
            old(self).wf(),
        ensures
            final(self).wf(),
            match old(self)@.approve_user_for_project(ctx@, id@, approve) {
                Ok(next) => final(self)@ == next && result.is_ok(),
                Err(refusal) => final(self)@ == old(self)@ && result == Err::<(), ProjectError>(
                    refusal,
                ),
            },
    {
        if !is_owner_call(&ctx.signer_account_id, &ctx.current_account_id) {
            return Err(ProjectError::Unauthorized);
        }
        let mut record = match self.store.get(&id) {
            Some(record) => record,
            None => {
                return Err(ProjectError::NotFound);
            },
        };
        match record.status {
            Status::PendingWorkerApproval => {},
            _ => {
                return Err(ProjectError::InvalidTransition);
            },
        }
        if approve {
            record.status = Status::NotStarted;
            proof {
                lemma_with_record_wf(self@, record@);
            }
            self.store_record(record);
        } else {
            proof {
                lemma_with_released_wf(self@, id@);
            }
            self.release(record);
        }
        Ok(())
    }

    /// Takes the worker off project `job_id` and moves it back to `Created`.
    /// Possible while the assignment awaits approval or the work has not been
    /// handed in; only the worker, the project's owner or the sponsor may.
    pub fn remove_user_from_project(&mut self, ctx: &CallContext, job_id: String) -> (result: Result<
        (),
        ProjectError,
    >)
        requires
            old(self).wf(),
        ensures
            final(self).wf(),
            match old(self)@.remove_user_from_project(ctx@, job_id@) {
                Ok(next) => final(self)@ == next && result.is_ok(),
                Err(refusal) => final(self)@ == old(self)@ && result == Err::<(), ProjectError>(
                    refusal,
                ),
            },
    {
        let record = match self.store.get(&job_id) {
            Some(record) => record,
            None => {
                return Err(ProjectError::NotFound);
            },
        };
        match record.status {
            Status::InProgress | Status::NotStarted | Status::PendingWorkerApproval => {},
            _ => {
                return Err(ProjectError::InvalidTransition);
            },
        }
        if !is_worker_or_owner(&ctx.signer_account_id, &record) && !is_owner_call(
            &ctx.signer_account_id,
            &ctx.current_account_id,
        ) {
            return Err(ProjectError::Unauthorized);
        }
        proof {
            lemma_with_released_wf(self@, job_id@);
        }
        self.release(record);
        Ok(())
    }

    /// Answers the work handed in for project `id`. Approval settles the
    /// project as `set_project_complete` does and gives back the payment;
    /// rejection changes nothing and gives back a note. Only the sponsor may.
    pub fn approve_submission(&mut self, ctx: &CallContext, id: String, approve: bool) -> (result:
        Result<ApproveReturn, ProjectError>)
        requires
            old(self).wf(),
        ensures
            final(self).wf(),
            match old(self)@.approve_submission(ctx@, id@, approve) {
                Ok(next) => final(self)@ == next && match result {
                    Ok(ApproveReturn::Promise(payment)) => approve && payment@ == old(
                        self,
                    )@.payment_for(id@),
                    Ok(ApproveReturn::String(note)) => !approve && note@
                        == "project was returned to in progress state"@,
                    Err(_) => false,
                },
                Err(refusal) => final(self)@ == old(self)@ && (result matches Err(given) && given
                    == refusal),
            },
    {
        if !is_owner_call(&ctx.signer_account_id, &ctx.current_account_id) {
            return Err(ProjectError::Unauthorized);
        }
        if approve {
            match self.set_project_complete(ctx, id) {
                Ok(payment) => Ok(ApproveReturn::Promise(payment)),
                Err(refusal) => Err(refusal),
            }
        } else {
            Ok(ApproveReturn::String("project was returned to in progress state".to_owned()))
        }
    }

    /// Settles project `id`: marks it `Complete`, in the primary store and in
    /// the worker index, and gives back the order to pay its reward to its
    /// worker. Only the contract calling itself may, and only once.
    pub fn set_project_complete(&mut self, ctx: &CallContext, id: String) -> (result: Result<
        Payment,
        ProjectError,
    >)
        requires
            old(self).wf(),
        ensures
            final(self).wf(),
            match old(self)@.set_project_complete(ctx@, id@) {
                Ok(next) => final(self)@ == next && result.is_ok() && result.unwrap()@ == old(
                    self,
                )@.payment_for(id@),
                Err(refusal) => final(self)@ == old(self)@ && result == Err::<Payment, ProjectError>(
                    refusal,
                ),
            },
    {
        if !is_self_settlement(&ctx.predecessor_account_id, &ctx.current_account_id) {
            return Err(ProjectError::Unauthorized);
        }
        let mut record = match self.store.get(&id) {
            Some(record) => record,
            None => {
                return Err(ProjectError::NotFound);
            },
        };
        match record.status {
            Status::Complete => {
                return Err(ProjectError::AlreadyComplete);
            },
            _ => {},
        }
        let recipient = match &record.worker {
            Some(worker) => worker.clone(),
            None => {
                return Err(ProjectError::InvalidTransition);
            },
        };
        let payment = Payment { recipient, amount: record.reward };
        record.status = Status::Complete;
        proof {
            lemma_with_record_wf(self@, record@);
        }
        self.store_record(record);
        Ok(payment)
    }

    /// Every project, oldest first, sorted by status.
    pub fn get_all_projects(&self) -> (listing: AllProjectsReturn)
        requires
            self.wf(),
        ensures
            forall|status: Status| listing@.bucket(status) == self@.all_with(status),
    {
        let mut listing = AllProjectsReturn::new();
        let count = self.store.len();
        let mut at: usize = 0;
        proof {
            assert(self@.project_ids.take(0) =~= Seq::empty());
            assert forall|status: Status|
                listing@.bucket(status) == select(
                    self@.project_ids.take(0),
                    self@.projects,
                    status,
                ) by {
                lemma_select_empty(self@.projects, status);
            }
        }
        while at < count
            invariant
                self.wf(),
                count == self@.project_ids.len(),
                at <= count,
                forall|status: Status|
                    listing@.bucket(status) == select(
                        self@.project_ids.take(at as int),
                        self@.projects,
                        status,
                    ),
            decreases count - at,
        {
            let id = self.store.id_at(at);
            match self.store.get(id) {
                Some(record) => {
                    listing.file(record);
                },
                None => {},
            }
            proof {
                assert(self@.project_ids.take(at + 1) =~= self@.project_ids.take(at as int).push(
                    id@,
                ));
                assert forall|status: Status|
                    listing@.bucket(status) == select(
                        self@.project_ids.take(at + 1),
                        self@.projects,
                        status,
                    ) by {
                    lemma_select_push(
                        self@.project_ids.take(at as int),
                        id@,
                        self@.projects,
                        status,
                    );
                }
            }
            at += 1;
        }
        proof {
            assert(self@.project_ids.take(count as int) =~= self@.project_ids);
        }
        listing
    }

    /// The projects filed under `worker_id` in the worker index, in the
    /// order in which they got their worker, sorted by status.
    pub fn get_user_projects(&self, worker_id: String) -> (listing: UserProjectsReturn)
        requires
            self.wf(),
        ensures
            forall|status: Status| listing@.bucket(status) == self@.worker_with(worker_id@, status),
    {
        let mut listing = UserProjectsReturn::new();
        let count = self.index.len();
        let mut at: usize = 0;
        let ghost filed = self@.filed_under(worker_id@);
        proof {
            assert(self@.user_ids.take(0) =~= Seq::empty());
            assert forall|status: Status|
                listing@.bucket(status) == select(self@.user_ids.take(0), filed, status) by {
                lemma_select_empty(filed, status);
            }
        }
        while at < count
            invariant
                self.wf(),
                count == self@.user_ids.len(),
                at <= count,
                filed == self@.filed_under(worker_id@),
                forall|status: Status|
                    listing@.bucket(status) == select(
                        self@.user_ids.take(at as int),
                        filed,
                        status,
                    ),
            decreases count - at,
        {
            let id = self.index.id_at(at);
            match self.index.get(&worker_id, id) {
                Some(record) => {
                    proof {
                        assert(self@.user_projects.contains_key((worker_id@, id@)));
                        assert(self@.assigned_to(worker_id@, id@));
                    }
                    listing.file(record);
                },
                None => {},
            }
            proof {
                assert(self@.user_ids.take(at + 1) =~= self@.user_ids.take(at as int).push(id@));
                assert forall|status: Status|
                    listing@.bucket(status) == select(self@.user_ids.take(at + 1), filed, status) by {
                    lemma_select_push(self@.user_ids.take(at as int), id@, filed, status);
                }
            }
            at += 1;
        }
        proof {
            assert(self@.user_ids.take(count as int) =~= self@.user_ids);
        }
        listing
    }
}

} // verus!
