use crate::structs::project::{views, Project, ProjectView, Status};
use vstd::prelude::*;

verus! {

/// The projects of one worker, sorted into one list per status. There is no
/// list for `Created`: a project with a worker has left that status.
#[derive(Debug)]
pub struct UserProjectsReturn {
    pub in_progress: Vec<Project>,
    pub complete: Vec<Project>,
    pub pending_work_approval: Vec<Project>,
    pub not_started: Vec<Project>,
    pub pending_final_approval: Vec<Project>,
}

pub struct UserProjectsView {
    pub in_progress: Seq<ProjectView>,
    pub complete: Seq<ProjectView>,
    pub pending_work_approval: Seq<ProjectView>,
    pub not_started: Seq<ProjectView>,
    pub pending_final_approval: Seq<ProjectView>,
}

impl UserProjectsView {
    /// The list kept for `status`; none is kept for `Created`.
    pub open spec fn bucket(self, status: Status) -> Seq<ProjectView> {
        match status {
            Status::Complete => self.complete,
            Status::PendingFinalApproval => self.pending_final_approval,
            Status::InProgress => self.in_progress,
            Status::NotStarted => self.not_started,
            Status::PendingWorkerApproval => self.pending_work_approval,
            Status::Created => Seq::empty(),
        }
    }
}

impl View for UserProjectsReturn {
    type V = UserProjectsView;

    open spec fn view(&self) -> UserProjectsView {
        UserProjectsView {
            in_progress: views(self.in_progress@),
            complete: views(self.complete@),
            pending_work_approval: views(self.pending_work_approval@),
            not_started: views(self.not_started@),
            pending_final_approval: views(self.pending_final_approval@),
        }
    }
}

impl UserProjectsReturn {
    pub fn new() -> (listing: UserProjectsReturn)
        ensures
            forall|status: Status| listing@.bucket(status) == Seq::<ProjectView>::empty(),
    {
        let listing = UserProjectsReturn {
            in_progress: Vec::new(),
            complete: Vec::new(),
            pending_work_approval: Vec::new(),
            not_started: Vec::new(),
            pending_final_approval: Vec::new(),
        };
        assert forall|status: Status| listing@.bucket(status) == Seq::<ProjectView>::empty() by {
            assert(listing@.bucket(status) =~= Seq::<ProjectView>::empty());
        }
        listing
    }

    /// Appends `project` to the list kept for its status; one still in
    /// `Created` is dropped.
    pub fn file(&mut self, project: Project)
        ensures
            forall|status: Status|
                final(self)@.bucket(status) == if status == project@.status && status
                    != Status::Created {
                    old(self)@.bucket(status).push(project@)
                } else {
                    old(self)@.bucket(status)
                },
    {
        let ghost filed = project@;
        match project.status {
            Status::Complete => {
                self.complete.push(project);
                assert(views(self.complete@) =~= views(old(self).complete@).push(filed));
            },
            Status::InProgress => {
                self.in_progress.push(project);
                assert(views(self.in_progress@) =~= views(old(self).in_progress@).push(filed));
            },
            Status::NotStarted => {
                self.not_started.push(project);
                assert(views(self.not_started@) =~= views(old(self).not_started@).push(filed));
            },
            Status::PendingWorkerApproval => {
                self.pending_work_approval.push(project);
                assert(views(self.pending_work_approval@) =~= views(
                    old(self).pending_work_approval@,
                ).push(filed));
            },
            Status::PendingFinalApproval => {
                self.pending_final_approval.push(project);
                assert(views(self.pending_final_approval@) =~= views(
                    old(self).pending_final_approval@,
                ).push(filed));
            },
            Status::Created => {},
        }
    }
}

} // verus!
