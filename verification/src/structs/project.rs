use vstd::prelude::*;

verus! {

/// Where a project stands in its lifecycle.
#[derive(Clone, Copy, PartialEq, Eq, Structural, Debug)]
pub enum Status {
    Complete,
    PendingFinalApproval,
    InProgress,
    NotStarted,
    PendingWorkerApproval,
    Created,
}

/// Mathematical value of a [`Project`]: every text field as a sequence of
/// characters.
pub struct ProjectView {
    pub id: Seq<char>,
    pub github_issue_link: Seq<char>,
    pub description: Seq<char>,
    pub reward: u128,
    pub status: Status,
    pub worker: Option<Seq<char>>,
    pub project_owner: Seq<char>,
}

/// A unit of sponsored work. The reward is counted in the smallest currency
/// unit.
#[derive(Debug, PartialEq, Eq)]
pub struct Project {
    pub id: String,
    pub github_issue_link: String,
    pub description: String,
    pub reward: u128,
    pub status: Status,
    pub worker: Option<String>,
    pub project_owner: String,
}

impl View for Project {
    type V = ProjectView;

    open spec fn view(&self) -> ProjectView {
        ProjectView {
            id: self.id@,
            github_issue_link: self.github_issue_link@,
            description: self.description@,
            reward: self.reward,
            status: self.status,
            worker: match self.worker {
                Some(w) => Some(w@),
                None => None,
            },
            project_owner: self.project_owner@,
        }
    }
}

/// The values of a list of projects, in the same order.
pub open spec fn views(projects: Seq<Project>) -> Seq<ProjectView> {
    projects.map_values(|project: Project| project@)
}

/// The status that a lower-case label names, if it names one that a caller
/// may set.
pub open spec fn status_of_label(label: Seq<char>) -> Option<Status> {
    if label == "not started"@ {
        Some(Status::NotStarted)
    } else if label == "in progress"@ {
        Some(Status::InProgress)
    } else if label == "pending final approval"@ {
        Some(Status::PendingFinalApproval)
    } else {
        None
    }
}

impl Status {
    /// Reads a lower-case label as the status it names.
    pub fn from_label(label: &String) -> (status: Option<Status>)
        ensures
            status == status_of_label(label@),
    {
        if *label == "not started".to_owned() {
            Some(Status::NotStarted)
        } else if *label == "in progress".to_owned() {
            Some(Status::InProgress)
        } else if *label == "pending final approval".to_owned() {
            Some(Status::PendingFinalApproval)
        } else {
            None
        }
    }
}

impl ProjectView {
    /// The record a freshly created project starts from: no worker, status
    /// `Created`.
    pub open spec fn fresh(
        id: Seq<char>,
        github_issue_link: Seq<char>,
        description: Seq<char>,
        reward: u128,
        project_owner: Seq<char>,
    ) -> ProjectView {
        ProjectView {
            id,
            github_issue_link,
            description,
            reward,
            status: Status::Created,
            worker: None,
            project_owner,
        }
    }

    /// A worker is attached exactly when the project has left `Created`.
    pub open spec fn worker_matches_status(self) -> bool {
        self.worker.is_some() <==> self.status != Status::Created
    }
}

impl Project {
    pub fn new(
        id: String,
        github_issue_link: String,
        description: String,
        reward: u128,
        project_owner: String,
    ) -> (project: Project)
        ensures
            project@ == ProjectView::fresh(
                id@,
                github_issue_link@,
                description@,
                reward,
                project_owner@,
            ),
    {
        Project {
            id,
            github_issue_link,
            description,
            reward,
            status: Status::Created,
            worker: None,
            project_owner,
        }
    }
}

impl Clone for Project {
    fn clone(&self) -> (copy: Project)
        ensures
            copy@ == self@,
    {
        let worker = match &self.worker {
            Some(w) => Some(w.clone()),
            None => None,
        };
        Project {
            id: self.id.clone(),
            github_issue_link: self.github_issue_link.clone(),
            description: self.description.clone(),
            reward: self.reward,
            status: self.status,
            worker,
            project_owner: self.project_owner.clone(),
        }
    }
}

} // verus!
