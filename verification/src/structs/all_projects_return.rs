use crate::structs::project::{views, Project, ProjectView, Status};
use vstd::prelude::*;

verus! {

/// Every project, sorted into one list per status.
#[derive(Debug)]
pub struct AllProjectsReturn {
    pub not_started: Vec<Project>,
    pub in_progress: Vec<Project>,
    pub complete: Vec<Project>,
    pub pending_work_approval: Vec<Project>,
    pub created: Vec<Project>,
    pub pending_final_approval: Vec<Project>,
}

pub struct AllProjectsView {
    pub not_started: Seq<ProjectView>,
    pub in_progress: Seq<ProjectView>,
    pub complete: Seq<ProjectView>,
    pub pending_work_approval: Seq<ProjectView>,
    pub created: Seq<ProjectView>,
    pub pending_final_approval: Seq<ProjectView>,
}

impl AllProjectsView {
    /// The list kept for `status`.
    pub open spec fn bucket(self, status: Status) -> Seq<ProjectView> {
        match status {
            Status::Complete => self.complete,
            Status::PendingFinalApproval => self.pending_final_approval,
            Status::InProgress => self.in_progress,
            Status::NotStarted => self.not_started,
            Status::PendingWorkerApproval => self.pending_work_approval,
            Status::Created => self.created,
        }
    }
}

impl View for AllProjectsReturn {
    type V = AllProjectsView;

    open spec fn view(&self) -> AllProjectsView {
        AllProjectsView {
            not_started: views(self.not_started@),
            in_progress: views(self.in_progress@),
            complete: views(self.complete@),
            pending_work_approval: views(self.pending_work_approval@),
            created: views(self.created@),
            pending_final_approval: views(self.pending_final_approval@),
        }
    }
}

impl AllProjectsReturn {
    pub fn new() -> (listing: AllProjectsReturn)
        ensures
            forall|status: Status| listing@.bucket(status) == Seq::<ProjectView>::empty(),
    {
        let listing = AllProjectsReturn {
            not_started: Vec::new(),
            in_progress: Vec::new(),
            complete: Vec::new(),
            pending_work_approval: Vec::new(),
            created: Vec::new(),
            pending_final_approval: Vec::new(),
        };
        assert forall|status: Status| listing@.bucket(status) == Seq::<ProjectView>::empty() by {
            assert(listing@.bucket(status) =~= Seq::<ProjectView>::empty());
        }
        listing
    }

    /// Appends `project` to the list kept for its status.
    pub fn file(&mut self, project: Project)
        ensures
            forall|status: Status|
                final(self)@.bucket(status) == if status == project@.status {
                    old(self)@.bucket(status).push(project@)
                } else {
                    old(self)@.bucket(status)
                },
    {
        let ghost filed = project@;
        match project.status {
            Status::Complete => {
                self.complete.push(project);
                assert(views(self.complete@) =~= views(old(self).complete@).push(filed));
            },
            Status::InProgress => {
                self.in_progress.push(project);
                assert(views(self.in_progress@) =~= views(old(self).in_progress@).push(filed));
            },
            Status::Created => {
                self.created.push(project);
                assert(views(self.created@) =~= views(old(self).created@).push(filed));
            },
            Status::PendingWorkerApproval => {
                self.pending_work_approval.push(project);
                assert(views(self.pending_work_approval@) =~= views(
                    old(self).pending_work_approval@,
                ).push(filed));
            },
            Status::NotStarted => {
                self.not_started.push(project);
                assert(views(self.not_started@) =~= views(old(self).not_started@).push(filed));
            },
            Status::PendingFinalApproval => {
                self.pending_final_approval.push(project);
                assert(views(self.pending_final_approval@) =~= views(
                    old(self).pending_final_approval@,
                ).push(filed));
            },
        }
    }
}

} // verus!
