use crate::error::ProjectError;
use crate::guard::CallContextView;
use crate::structs::project::{ProjectView, Status};
use vstd::prelude::*;

verus! {

/// The state of the marketplace as mathematics: the primary store (the ids in
/// the order they were created, and the record under each id) and the worker
/// index (the ids that carry a worker, in the order they were assigned, and
/// the copy of each record filed under its worker).
pub struct ManagementView {
    pub project_ids: Seq<Seq<char>>,
    pub projects: Map<Seq<char>, ProjectView>,
    pub user_ids: Seq<Seq<char>>,
    pub user_projects: Map<(Seq<char>, Seq<char>), ProjectView>,
}

/// The transfer that settling a project asks for.
pub struct PaymentView {
    pub recipient: Seq<char>,
    pub amount: u128,
}

/// One call of an operation that may change the state, with its arguments.
pub enum Call {
    AddProject {
        id: Seq<char>,
        github_issue_link: Seq<char>,
        description: Seq<char>,
        reward: u128,
        project_owner: Seq<char>,
    },
    UpdateProject {
        id: Seq<char>,
        new_github_issue_link: Option<Seq<char>>,
        new_description: Option<Seq<char>>,
        new_reward: Option<u128>,
    },
    RemoveProject { id: Seq<char> },
    SetProjectStatus { id: Seq<char>, target: Option<Status> },
    SetUserForProject { id: Seq<char>, worker: Seq<char> },
    ApproveUserForProject { id: Seq<char>, approve: bool },
    RemoveUserFromProject { id: Seq<char> },
    ApproveSubmission { id: Seq<char>, approve: bool },
    SetProjectComplete { id: Seq<char> },
}

/// A call together with the identities it comes with.
pub struct Request {
    pub ctx: CallContextView,
    pub call: Call,
}

/// The ids of `records`, in the same order.
pub open spec fn ids_of(records: Seq<ProjectView>) -> Seq<Seq<char>> {
    records.map_values(|record: ProjectView| record.id)
}

/// Whether one of `records` has the id `id`.
pub open spec fn listed(records: Seq<ProjectView>, id: Seq<char>) -> bool {
    exists|a: int| 0 <= a < records.len() && (#[trigger] records[a]).id == id
}

/// Whether no two of `records` share an id and each carries a worker exactly
/// when it has left `Created`.
pub open spec fn loadable(records: Seq<ProjectView>) -> bool {
    &&& forall|a: int, b: int|
        0 <= a < records.len() && 0 <= b < records.len() && a != b ==> (#[trigger] records[a]).id
            != (#[trigger] records[b]).id
    &&& forall|a: int| 0 <= a < records.len() ==> (#[trigger] records[a]).worker_matches_status()
}

/// Whether `records` and `indexed` describe a well-formed state: no two
/// records share an id, each carries a worker exactly when it has left
/// `Created`, and `indexed` holds, once each, exactly the ids of the records
/// that carry a worker.
pub open spec fn restorable(records: Seq<ProjectView>, indexed: Seq<Seq<char>>) -> bool {
    &&& loadable(records)
    &&& indexed.no_duplicates()
    &&& forall|id: Seq<char>| #[trigger]
        indexed.contains(id) <==> exists|a: int|
            0 <= a < records.len() && (#[trigger] records[a]).id == id && records[a].worker.is_some()
}

/// The statuses a caller may set directly.
pub open spec fn settable(target: Status) -> bool {
    target == Status::NotStarted || target == Status::InProgress || target
        == Status::PendingFinalApproval
}

/// The statuses in which a worker may still be taken off a project.
pub open spec fn releasable(status: Status) -> bool {
    status == Status::PendingWorkerApproval || status == Status::NotStarted || status
        == Status::InProgress
}

/// The records of `ids`, in that order, that `records` holds with status
/// `status`.
pub open spec fn select(
    ids: Seq<Seq<char>>,
    records: Map<Seq<char>, ProjectView>,
    status: Status,
) -> Seq<ProjectView> {
    ids.filter(|id: Seq<char>| records.contains_key(id) && records[id].status == status).map_values(
        |id: Seq<char>| records[id],
    )
}

/// Nothing is selected from no ids.
pub proof fn lemma_select_empty(records: Map<Seq<char>, ProjectView>, status: Status)
    ensures
        select(Seq::empty(), records, status) == Seq::<ProjectView>::empty(),
{
    reveal(Seq::filter);
    assert(select(Seq::empty(), records, status) =~= Seq::<ProjectView>::empty());
}

/// One more id adds its record to the selection if the record is stored with
/// the status asked for, and nothing otherwise.
pub proof fn lemma_select_push(
    ids: Seq<Seq<char>>,
    id: Seq<char>,
    records: Map<Seq<char>, ProjectView>,
    status: Status,
)
    ensures
        select(ids.push(id), records, status) == if records.contains_key(id) && records[id].status
            == status {
            select(ids, records, status).push(records[id])
        } else {
            select(ids, records, status)
        },
{
    reveal(Seq::filter);
    let longer = ids.push(id);
    assert(longer.drop_last() =~= ids);
    let shorter = select(ids, records, status);
    if records.contains_key(id) && records[id].status == status {
        assert(select(longer, records, status) =~= shorter.push(records[id]));
    } else {
        assert(select(longer, records, status) =~= shorter);
    }
}

impl ManagementView {
    pub open spec fn empty() -> ManagementView {
        ManagementView {
            project_ids: Seq::empty(),
            projects: Map::empty(),
            user_ids: Seq::empty(),
            user_projects: Map::empty(),
        }
    }

    /// The primary store is sound: the list of ids holds each stored id
    /// once, every record is stored under its own id, and a record carries a
    /// worker exactly when it has left `Created`.
    pub open spec fn primary_wf(self) -> bool {
        &&& self.project_ids.no_duplicates()
        &&& forall|id: Seq<char>|
            #![trigger self.project_ids.contains(id)]
            #![trigger self.projects.contains_key(id)]
            self.project_ids.contains(id) <==> self.projects.contains_key(id)
        &&& forall|id: Seq<char>| #[trigger]
            self.projects.contains_key(id) ==> self.projects[id].id == id
                && self.projects[id].worker_matches_status()
    }

    /// The list of indexed ids holds, once each, exactly the ids of the
    /// projects that carry a worker.
    pub open spec fn index_wf(self) -> bool {
        &&& self.user_ids.no_duplicates()
        &&& forall|id: Seq<char>|
            #![trigger self.user_ids.contains(id)]
            #![trigger self.has_worker(id)]
            self.user_ids.contains(id) <==> self.has_worker(id)
    }

    /// A record is filed under a worker exactly when that worker is the
    /// project's, and what is filed is a copy of the stored record.
    pub open spec fn filing_wf(self) -> bool {
        &&& forall|worker: Seq<char>, id: Seq<char>|
            #![trigger self.user_projects.contains_key((worker, id))]
            #![trigger self.assigned_to(worker, id)]
            self.user_projects.contains_key((worker, id)) <==> self.assigned_to(worker, id)
        &&& forall|worker: Seq<char>, id: Seq<char>| #[trigger]
            self.user_projects.contains_key((worker, id)) ==> self.user_projects[(worker, id)]
                == self.projects[id]
    }

    /// The two stores agree with themselves and with each other.
    pub open spec fn wf(self) -> bool {
        self.primary_wf() && self.index_wf() && self.filing_wf()
    }

    /// A project is stored under `id` and carries a worker.
    pub open spec fn has_worker(self, id: Seq<char>) -> bool {
        self.projects.contains_key(id) && self.projects[id].worker.is_some()
    }

    /// A project is stored under `id` and its worker is `worker`.
    pub open spec fn assigned_to(self, worker: Seq<char>, id: Seq<char>) -> bool {
        self.projects.contains_key(id) && self.projects[id].worker == Some(worker)
    }

    /// What the worker index files under `worker`, by project id.
    pub open spec fn filed_under(self, worker: Seq<char>) -> Map<Seq<char>, ProjectView> {
        Map::new(
            |id: Seq<char>| self.user_projects.contains_key((worker, id)),
            |id: Seq<char>| self.user_projects[(worker, id)],
        )
    }

    /// All projects with status `status`, oldest first.
    pub open spec fn all_with(self, status: Status) -> Seq<ProjectView> {
        select(self.project_ids, self.projects, status)
    }

    /// The projects filed under `worker` with status `status`, in the order
    /// in which they got their worker.
    pub open spec fn worker_with(self, worker: Seq<char>, status: Status) -> Seq<ProjectView> {
        select(self.user_ids, self.filed_under(worker), status)
    }

    /// The state with `record` stored under its id in place of the record
    /// there, and the copy in the worker index replaced with it.
    pub open spec fn with_record(self, record: ProjectView) -> ManagementView {
        ManagementView {
            projects: self.projects.insert(record.id, record),
            user_projects: match record.worker {
                Some(worker) => self.user_projects.insert((worker, record.id), record),
                None => self.user_projects,
            },
            ..self
        }
    }

    /// The state with a new `record` added behind the others.
    pub open spec fn with_created(self, record: ProjectView) -> ManagementView {
        ManagementView {
            project_ids: self.project_ids.push(record.id),
            projects: self.projects.insert(record.id, record),
            ..self
        }
    }

    /// The state with `record` added behind the others as it is, with the
    /// copy for its worker filed if it has one. The list of indexed ids is
    /// left alone.
    pub open spec fn with_loaded(self, record: ProjectView) -> ManagementView {
        ManagementView {
            project_ids: self.project_ids.push(record.id),
            projects: self.projects.insert(record.id, record),
            user_projects: match record.worker {
                Some(worker) => self.user_projects.insert((worker, record.id), record),
                None => self.user_projects,
            },
            ..self
        }
    }

    /// The stores filled with `records`, in that order, and no id indexed.
    pub open spec fn loaded(records: Seq<ProjectView>) -> ManagementView
        decreases records.len(),
    {
        if records.len() == 0 {
            ManagementView::empty()
        } else {
            ManagementView::loaded(records.drop_last()).with_loaded(records.last())
        }
    }

    /// The state that `records`, oldest first, and `indexed`, the ids that
    /// carry a worker in the order in which they got it, describe.
    pub open spec fn restored(records: Seq<ProjectView>, indexed: Seq<Seq<char>>) -> ManagementView {
        ManagementView { user_ids: indexed, ..ManagementView::loaded(records) }
    }

    /// The records of all projects, oldest first.
    pub open spec fn records(self) -> Seq<ProjectView> {
        self.project_ids.map_values(|id: Seq<char>| self.projects[id])
    }

    /// The state without the project `id`.
    pub open spec fn with_removed(self, id: Seq<char>) -> ManagementView {
        ManagementView {
            project_ids: self.project_ids.remove_value(id),
            projects: self.projects.remove(id),
            ..self
        }
    }

    /// The state with `worker` put on the project `id`, awaiting approval,
    /// and the project entered in the worker index.
    pub open spec fn with_assigned(self, id: Seq<char>, worker: Seq<char>) -> ManagementView {
        let record = ProjectView {
            worker: Some(worker),
            status: Status::PendingWorkerApproval,
            ..self.projects[id]
        };
        ManagementView {
            projects: self.projects.insert(id, record),
            user_ids: self.user_ids.push(id),
            user_projects: self.user_projects.insert((worker, id), record),
            ..self
        }
    }

    /// The state with the project `id` back in `Created`, without its worker,
    /// and taken out of the worker index.
    pub open spec fn with_released(self, id: Seq<char>) -> ManagementView {
        let record = ProjectView { worker: None, status: Status::Created, ..self.projects[id] };
        ManagementView {
            projects: self.projects.insert(id, record),
            user_ids: self.user_ids.remove_value(id),
            user_projects: match self.projects[id].worker {
                Some(worker) => self.user_projects.remove((worker, id)),
                None => self.user_projects,
            },
            ..self
        }
    }

    /// The state with the status of project `id` overwritten.
    pub open spec fn with_status(self, id: Seq<char>, status: Status) -> ManagementView {
        self.with_record(ProjectView { status, ..self.projects[id] })
    }

    /// Creating a project: the new state, or why the call is refused.
    pub open spec fn add_project(
        self,
        ctx: CallContextView,
        id: Seq<char>,
        github_issue_link: Seq<char>,
        description: Seq<char>,
        reward: u128,
        project_owner: Seq<char>,
    ) -> Result<ManagementView, ProjectError> {
        if !ctx.from_sponsor() {
            Err(ProjectError::Unauthorized)
        } else if self.projects.contains_key(id) {
            Err(ProjectError::DuplicateId)
        } else {
            Ok(
                self.with_created(
                    ProjectView::fresh(id, github_issue_link, description, reward, project_owner),
                ),
            )
        }
    }

    /// The record of project `id` with the supplied fields replaced.
    pub open spec fn updated_record(
        self,
        id: Seq<char>,
        github_issue_link: Option<Seq<char>>,
        description: Option<Seq<char>>,
        reward: Option<u128>,
    ) -> ProjectView {
        let record = self.projects[id];
        ProjectView {
            github_issue_link: match github_issue_link {
                Some(link) => link,
                None => record.github_issue_link,
            },
            description: match description {
                Some(text) => text,
                None => record.description,
            },
            reward: match reward {
                Some(amount) => amount,
                None => record.reward,
            },
            ..record
        }
    }

    /// Updating a project: the new state, or why the call is refused.
    pub open spec fn update_project(
        self,
        ctx: CallContextView,
        id: Seq<char>,
        github_issue_link: Option<Seq<char>>,
        description: Option<Seq<char>>,
        reward: Option<u128>,
    ) -> Result<ManagementView, ProjectError> {
        if !ctx.from_sponsor() {
            Err(ProjectError::Unauthorized)
        } else if !self.projects.contains_key(id) {
            Err(ProjectError::NotFound)
        } else {
            Ok(self.with_record(self.updated_record(id, github_issue_link, description, reward)))
        }
    }

    /// Removing a project: the new state, or why the call is refused.
    pub open spec fn remove_project(self, ctx: CallContextView, id: Seq<char>) -> Result<
        ManagementView,
        ProjectError,
    > {
        if !self.projects.contains_key(id) {
            Err(ProjectError::NotFound)
        } else if self.projects[id].status != Status::Created {
            Err(ProjectError::InvalidTransition)
        } else if !ctx.from_sponsor() {
            Err(ProjectError::Unauthorized)
        } else {
            Ok(self.with_removed(id))
        }
    }

    /// Putting a worker on a project: the new state, or why the call is
    /// refused.
    pub open spec fn set_user_for_project(self, id: Seq<char>, worker: Seq<char>) -> Result<
        ManagementView,
        ProjectError,
    > {
        if !self.projects.contains_key(id) {
            Err(ProjectError::NotFound)
        } else if self.projects[id].worker.is_some() {
            Err(ProjectError::AlreadyAssigned)
        } else {
            Ok(self.with_assigned(id, worker))
        }
    }

    /// Answering a worker's assignment: the new state, or why the call is
    /// refused.
    pub open spec fn approve_user_for_project(
        self,
        ctx: CallContextView,
        id: Seq<char>,
        approve: bool,
    ) -> Result<ManagementView, ProjectError> {
        if !ctx.from_sponsor() {
            Err(ProjectError::Unauthorized)
        } else if !self.projects.contains_key(id) {
            Err(ProjectError::NotFound)
        } else if self.projects[id].status != Status::PendingWorkerApproval {
            Err(ProjectError::InvalidTransition)
        } else if approve {
            Ok(self.with_status(id, Status::NotStarted))
        } else {
            Ok(self.with_released(id))
        }
    }

    /// Setting a status directly: the new state, or why the call is refused.
    /// `target` is `None` where the caller named no status that exists.
    pub open spec fn set_project_status(self, id: Seq<char>, target: Option<Status>) -> Result<
        ManagementView,
        ProjectError,
    > {
        if !self.projects.contains_key(id) {
            Err(ProjectError::NotFound)
        } else if self.projects[id].worker.is_none() || self.projects[id].status
            == Status::PendingWorkerApproval || self.projects[id].status == Status::Complete {
            Err(ProjectError::InvalidTransition)
        } else {
            match target {
                Some(status) if settable(status) => Ok(self.with_status(id, status)),
                _ => Err(ProjectError::InvalidInput),
            }
        }
    }

    /// Taking the worker off a project: the new state, or why the call is
    /// refused.
    pub open spec fn remove_user_from_project(self, ctx: CallContextView, id: Seq<char>) -> Result<
        ManagementView,
        ProjectError,
    > {
        if !self.projects.contains_key(id) {
            Err(ProjectError::NotFound)
        } else if !releasable(self.projects[id].status) {
            Err(ProjectError::InvalidTransition)
        } else if !ctx.from_worker_or_owner(self.projects[id]) {
            Err(ProjectError::Unauthorized)
        } else {
            Ok(self.with_released(id))
        }
    }

    /// Settling a project: the new state, or why the call is refused.
    pub open spec fn set_project_complete(self, ctx: CallContextView, id: Seq<char>) -> Result<
        ManagementView,
        ProjectError,
    > {
        if !ctx.from_settlement() {
            Err(ProjectError::Unauthorized)
        } else if !self.projects.contains_key(id) {
            Err(ProjectError::NotFound)
        } else if self.projects[id].status == Status::Complete {
            Err(ProjectError::AlreadyComplete)
        } else if self.projects[id].worker.is_none() {
            Err(ProjectError::InvalidTransition)
        } else {
            Ok(self.with_status(id, Status::Complete))
        }
    }

    /// The transfer that settling project `id` asks for: its reward, to its
    /// worker.
    pub open spec fn payment_for(self, id: Seq<char>) -> PaymentView {
        PaymentView {
            recipient: self.projects[id].worker.unwrap(),
            amount: self.projects[id].reward,
        }
    }

    /// Answering a submission: the new state, or why the call is refused.
    /// Approval settles the project; rejection changes nothing.
    pub open spec fn approve_submission(self, ctx: CallContextView, id: Seq<char>, approve: bool)
        -> Result<ManagementView, ProjectError> {
        if !ctx.from_sponsor() {
            Err(ProjectError::Unauthorized)
        } else if approve {
            self.set_project_complete(ctx, id)
        } else {
            Ok(self)
        }
    }

    /// The state that an attempted call leaves behind: the new state where
    /// it succeeds, this one where it is refused.
    pub open spec fn after(self, attempt: Result<ManagementView, ProjectError>) -> ManagementView {
        match attempt {
            Ok(next) => next,
            Err(_) => self,
        }
    }

    /// What `call` makes of this state.
    pub open spec fn step(self, ctx: CallContextView, call: Call) -> Result<
        ManagementView,
        ProjectError,
    > {
        match call {
            Call::AddProject { id, github_issue_link, description, reward, project_owner } => {
                self.add_project(ctx, id, github_issue_link, description, reward, project_owner)
            },
            Call::UpdateProject { id, new_github_issue_link, new_description, new_reward } => {
                self.update_project(ctx, id, new_github_issue_link, new_description, new_reward)
            },
            Call::RemoveProject { id } => self.remove_project(ctx, id),
            Call::SetProjectStatus { id, target } => self.set_project_status(id, target),
            Call::SetUserForProject { id, worker } => self.set_user_for_project(id, worker),
            Call::ApproveUserForProject { id, approve } => {
                self.approve_user_for_project(ctx, id, approve)
            },
            Call::RemoveUserFromProject { id } => self.remove_user_from_project(ctx, id),
            Call::ApproveSubmission { id, approve } => self.approve_submission(ctx, id, approve),
            Call::SetProjectComplete { id } => self.set_project_complete(ctx, id),
        }
    }

    /// The state after the calls of `requests`, made one after the other.
    pub open spec fn run(self, requests: Seq<Request>) -> ManagementView
        decreases requests.len(),
    {
        if requests.len() == 0 {
            self
        } else {
            let before = self.run(requests.drop_last());
            before.after(before.step(requests.last().ctx, requests.last().call))
        }
    }
}

} // verus!
