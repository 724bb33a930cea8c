use project_management::error::ProjectError;
use project_management::guard::CallContext;
use project_management::structs::project::{Project, Status};
use project_management::structs::project_management::{ApproveReturn, Payment, ProjectManagement};

const CONTRACT: &str = "market.testnet";
const WORKER: &str = "worker.testnet";

fn text(s: &str) -> String {
    s.to_string()
}

/// The contract's own account signs and calls.
fn sponsor() -> CallContext {
    CallContext::new(text(CONTRACT), text(CONTRACT), text(CONTRACT))
}

/// `who` signs and calls the contract directly.
fn outsider(who: &str) -> CallContext {
    CallContext::new(text(CONTRACT), text(who), text(who))
}

/// The contract's account signed, but another account makes the call.
fn sponsor_through(relay: &str) -> CallContext {
    CallContext::new(text(CONTRACT), text(CONTRACT), text(relay))
}

fn create(m: &mut ProjectManagement, id: &str, reward: u128) {
    let made = m.add_project(&sponsor(), text(id), text("link"), text("about"), reward, text(CONTRACT));
    assert_eq!(made, Ok(text(id)));
}

/// A marketplace with project `id` in the given status, worked on by WORKER
/// where the status asks for a worker.
fn with_project_in(id: &str, status: Status) -> ProjectManagement {
    let mut m = ProjectManagement::new();
    create(&mut m, id, 500);
    if status == Status::Created {
        return m;
    }
    m.set_user_for_project(text(id), text(WORKER)).unwrap();
    if status == Status::PendingWorkerApproval {
        return m;
    }
    m.approve_user_for_project(&sponsor(), text(id), true).unwrap();
    match status {
        Status::NotStarted => {}
        Status::InProgress => {
            m.set_project_status_to(text(id), Status::InProgress).unwrap();
        }
        Status::PendingFinalApproval => {
            m.set_project_status_to(text(id), Status::PendingFinalApproval).unwrap();
        }
        Status::Complete => {
            m.set_project_complete(&sponsor(), text(id)).unwrap();
        }
        _ => unreachable!(),
    }
    m
}

fn record(m: &ProjectManagement, id: &str) -> Project {
    m.get_project(&text(id)).unwrap()
}

/// The two stores agree: an id is indexed exactly when its project has a
/// worker, which is exactly when it has left `Created`, and the copy filed
/// under the worker equals the stored record.
fn assert_coupled(m: &ProjectManagement) {
    let indexed = m.get_user_ids();
    for id in m.get_project_ids() {
        let stored = m.get_project(&id).unwrap();
        assert_eq!(stored.id, id);
        assert_eq!(stored.worker.is_some(), stored.status != Status::Created);
        assert_eq!(indexed.contains(&id), stored.worker.is_some());
        if let Some(worker) = &stored.worker {
            assert_eq!(m.get_user_project(worker, &id), Some(stored.clone()));
        }
    }
    for id in &indexed {
        assert!(m.get_project(id).is_some());
    }
}

const ALL_STATUSES: [Status; 6] = [
    Status::Created,
    Status::PendingWorkerApproval,
    Status::NotStarted,
    Status::InProgress,
    Status::PendingFinalApproval,
    Status::Complete,
];

#[test]
fn new_marketplace_is_empty() {
    let m = ProjectManagement::new();
    assert!(m.get_project_ids().is_empty());
    assert!(m.get_user_ids().is_empty());
    let all = m.get_all_projects();
    assert_eq!(
        all.created.len()
            + all.pending_work_approval.len()
            + all.not_started.len()
            + all.in_progress.len()
            + all.pending_final_approval.len()
            + all.complete.len(),
        0
    );
    assert!(m.get_project(&text("1")).is_none());
}

#[test]
fn helper_reaches_every_status() {
    for status in ALL_STATUSES {
        let m = with_project_in("p", status);
        assert_eq!(record(&m, "p").status, status);
        assert_coupled(&m);
    }
}

#[test]
fn create_stores_a_fresh_record() {
    let mut m = ProjectManagement::new();
    let made = m.add_project(&sponsor(), text("a"), text("l"), text("d"), 42, text("owner.testnet"));
    assert_eq!(made, Ok(text("a")));
    assert_eq!(
        record(&m, "a"),
        Project {
            id: text("a"),
            github_issue_link: text("l"),
            description: text("d"),
            reward: 42,
            status: Status::Created,
            worker: None,
            project_owner: text("owner.testnet"),
        }
    );
    assert_eq!(m.get_project_ids(), vec![text("a")]);
    assert!(m.get_user_ids().is_empty());
}

#[test]
fn create_needs_the_sponsor() {
    let mut m = ProjectManagement::new();
    let made = m.add_project(&outsider("eve.testnet"), text("a"), text("l"), text("d"), 1, text("eve.testnet"));
    assert_eq!(made, Err(ProjectError::Unauthorized));
    assert!(m.get_project_ids().is_empty());
    // Who relays the call does not matter, who signed does.
    let made = m.add_project(&sponsor_through("relay.testnet"), text("a"), text("l"), text("d"), 1, text(CONTRACT));
    assert_eq!(made, Ok(text("a")));
}

#[test]
fn create_refuses_an_id_in_use() {
    let mut m = ProjectManagement::new();
    create(&mut m, "a", 10);
    let again = m.add_project(&sponsor(), text("a"), text("other"), text("other"), 99, text(CONTRACT));
    assert_eq!(again, Err(ProjectError::DuplicateId));
    assert_eq!(m.get_project_ids(), vec![text("a")]);
    assert_eq!(record(&m, "a").reward, 10);
    assert_eq!(record(&m, "a").github_issue_link, "link");
    // An unauthorized caller learns nothing about the id.
    let again = m.add_project(&outsider("eve.testnet"), text("a"), text("l"), text("d"), 1, text(CONTRACT));
    assert_eq!(again, Err(ProjectError::Unauthorized));
}

#[test]
fn creation_count() {
    let mut m = ProjectManagement::new();
    for n in 1..=9usize {
        create(&mut m, &format!("id-{}", n), n as u128);
        let all = m.get_all_projects();
        assert_eq!(all.created.len(), n);
        assert_eq!(all.pending_work_approval.len(), 0);
        assert_eq!(all.not_started.len(), 0);
        assert_eq!(all.in_progress.len(), 0);
        assert_eq!(all.pending_final_approval.len(), 0);
        assert_eq!(all.complete.len(), 0);
    }
    let all = m.get_all_projects();
    for (k, project) in all.created.iter().enumerate() {
        assert_eq!(project.id, format!("id-{}", k + 1));
        assert_eq!(project.reward, (k + 1) as u128);
        assert_eq!(project.status, Status::Created);
    }
}

#[test]
fn update_replaces_only_what_is_supplied() {
    let mut m = with_project_in("a", Status::InProgress);
    let done = m.update_project(&sponsor(), text("a"), None, Some(text("new text")), None);
    assert_eq!(done, Ok(text("a")));
    let after = record(&m, "a");
    assert_eq!(after.description, "new text");
    assert_eq!(after.github_issue_link, "link");
    assert_eq!(after.reward, 500);
    assert_eq!(after.status, Status::InProgress);
    assert_eq!(after.worker, Some(text(WORKER)));
    assert_eq!(after.project_owner, CONTRACT);

    let done = m.update_project(&sponsor(), text("a"), Some(text("new link")), None, Some(7));
    assert_eq!(done, Ok(text("a")));
    let after = record(&m, "a");
    assert_eq!(after.description, "new text");
    assert_eq!(after.github_issue_link, "new link");
    assert_eq!(after.reward, 7);
    assert_eq!(after.status, Status::InProgress);
    assert_coupled(&m);
    assert_eq!(m.get_user_projects(text(WORKER)).in_progress[0].reward, 7);

    let before = record(&m, "a");
    assert_eq!(m.update_project(&sponsor(), text("a"), None, None, None), Ok(text("a")));
    assert_eq!(record(&m, "a"), before);
}

#[test]
fn update_refusals() {
    let mut m = with_project_in("a", Status::Created);
    let before = record(&m, "a");
    assert_eq!(
        m.update_project(&outsider("eve.testnet"), text("a"), None, None, Some(1)),
        Err(ProjectError::Unauthorized)
    );
    assert_eq!(
        m.update_project(&outsider("eve.testnet"), text("missing"), None, None, Some(1)),
        Err(ProjectError::Unauthorized)
    );
    assert_eq!(
        m.update_project(&sponsor(), text("missing"), None, None, Some(1)),
        Err(ProjectError::NotFound)
    );
    assert_eq!(record(&m, "a"), before);
    assert_eq!(m.get_project_ids(), vec![text("a")]);
}

#[test]
fn remove_deletes_a_created_project() {
    let mut m = ProjectManagement::new();
    create(&mut m, "a", 1);
    create(&mut m, "b", 2);
    create(&mut m, "c", 3);
    assert_eq!(m.remove_project(&sponsor(), text("b")), Ok(()));
    assert_eq!(m.get_project_ids(), vec![text("a"), text("c")]);
    assert!(m.get_project(&text("b")).is_none());
    assert_eq!(m.get_all_projects().created.len(), 2);
    assert_eq!(m.remove_project(&sponsor(), text("b")), Err(ProjectError::NotFound));
    // The id is free again.
    create(&mut m, "b", 4);
    assert_eq!(m.get_project_ids(), vec![text("a"), text("c"), text("b")]);
    assert_coupled(&m);
}

#[test]
fn removal_guard() {
    for status in ALL_STATUSES {
        let mut m = with_project_in("a", status);
        let before = record(&m, "a");
        let outcome = m.remove_project(&sponsor(), text("a"));
        if status == Status::Created {
            assert_eq!(outcome, Ok(()));
            assert!(m.get_project(&text("a")).is_none());
        } else {
            assert_eq!(outcome, Err(ProjectError::InvalidTransition));
            assert_eq!(record(&m, "a"), before);
            assert_eq!(m.get_project_ids(), vec![text("a")]);
        }
        assert_coupled(&m);
    }
}

#[test]
fn remove_refusals_in_order() {
    let mut m = with_project_in("a", Status::NotStarted);
    create(&mut m, "b", 1);
    let eve = outsider("eve.testnet");
    assert_eq!(m.remove_project(&eve, text("missing")), Err(ProjectError::NotFound));
    assert_eq!(m.remove_project(&eve, text("a")), Err(ProjectError::InvalidTransition));
    assert_eq!(m.remove_project(&eve, text("b")), Err(ProjectError::Unauthorized));
    assert_eq!(m.get_project_ids(), vec![text("a"), text("b")]);
}

#[test]
fn assign_puts_the_worker_on() {
    let mut m = with_project_in("a", Status::Created);
    assert_eq!(m.set_user_for_project(text("a"), text(WORKER)), Ok(()));
    let after = record(&m, "a");
    assert_eq!(after.worker, Some(text(WORKER)));
    assert_eq!(after.status, Status::PendingWorkerApproval);
    assert_eq!(after.reward, 500);
    assert_eq!(m.get_user_ids(), vec![text("a")]);
    assert_eq!(m.get_user_project(&text(WORKER), &text("a")), Some(after));
    assert_coupled(&m);
}

#[test]
fn assign_refusals() {
    let mut m = ProjectManagement::new();
    assert_eq!(m.set_user_for_project(text("a"), text(WORKER)), Err(ProjectError::NotFound));
    assert!(m.get_user_ids().is_empty());
}

#[test]
fn no_double_assignment() {
    for status in ALL_STATUSES {
        if status == Status::Created {
            continue;
        }
        let mut m = with_project_in("a", status);
        let before = record(&m, "a");
        for who in [WORKER, "second.testnet"] {
            assert_eq!(
                m.set_user_for_project(text("a"), text(who)),
                Err(ProjectError::AlreadyAssigned)
            );
            assert_eq!(record(&m, "a"), before);
            assert_eq!(m.get_user_ids(), vec![text("a")]);
            assert!(m.get_user_project(&text("second.testnet"), &text("a")).is_none());
        }
        assert_coupled(&m);
    }
}

#[test]
fn approval_starts_the_project() {
    let mut m = with_project_in("a", Status::PendingWorkerApproval);
    assert_eq!(m.approve_user_for_project(&sponsor(), text("a"), true), Ok(()));
    let after = record(&m, "a");
    assert_eq!(after.status, Status::NotStarted);
    assert_eq!(after.worker, Some(text(WORKER)));
    assert_eq!(m.get_user_projects(text(WORKER)).not_started.len(), 1);
    assert_eq!(m.get_user_projects(text(WORKER)).pending_work_approval.len(), 0);
    assert_coupled(&m);
}

#[test]
fn rejection_reverts() {
    let mut m = with_project_in("a", Status::PendingWorkerApproval);
    create(&mut m, "b", 9);
    m.set_user_for_project(text("b"), text(WORKER)).unwrap();
    assert_eq!(m.approve_user_for_project(&sponsor(), text("a"), false), Ok(()));
    let after = record(&m, "a");
    assert_eq!(after.status, Status::Created);
    assert_eq!(after.worker, None);
    assert_eq!(after.reward, 500);
    assert_eq!(m.get_user_ids(), vec![text("b")]);
    assert!(m.get_user_project(&text(WORKER), &text("a")).is_none());
    let mine = m.get_user_projects(text(WORKER));
    assert_eq!(mine.pending_work_approval.len(), 1);
    assert_eq!(mine.pending_work_approval[0].id, "b");
    assert_eq!(mine.not_started.len() + mine.in_progress.len(), 0);
    assert_eq!(mine.pending_final_approval.len() + mine.complete.len(), 0);
    assert_coupled(&m);
    // The project can be given to someone else now.
    assert_eq!(m.set_user_for_project(text("a"), text("second.testnet")), Ok(()));
    assert_eq!(m.get_user_ids(), vec![text("b"), text("a")]);
    assert_coupled(&m);
}

#[test]
fn approval_refusals() {
    for approve in [true, false] {
        let mut m = with_project_in("a", Status::PendingWorkerApproval);
        let eve = outsider("eve.testnet");
        assert_eq!(
            m.approve_user_for_project(&eve, text("a"), approve),
            Err(ProjectError::Unauthorized)
        );
        assert_eq!(
            m.approve_user_for_project(&eve, text("missing"), approve),
            Err(ProjectError::Unauthorized)
        );
        assert_eq!(
            m.approve_user_for_project(&sponsor(), text("missing"), approve),
            Err(ProjectError::NotFound)
        );
        assert_eq!(record(&m, "a").status, Status::PendingWorkerApproval);
        for status in ALL_STATUSES {
            if status == Status::PendingWorkerApproval {
                continue;
            }
            let mut m = with_project_in("a", status);
            let before = record(&m, "a");
            assert_eq!(
                m.approve_user_for_project(&sponsor(), text("a"), approve),
                Err(ProjectError::InvalidTransition)
            );
            assert_eq!(record(&m, "a"), before);
            assert_coupled(&m);
        }
    }
}

#[test]
fn status_can_be_set_to_three_targets() {
    for from in [Status::NotStarted, Status::InProgress, Status::PendingFinalApproval] {
        for to in [Status::NotStarted, Status::InProgress, Status::PendingFinalApproval] {
            let mut m = with_project_in("a", from);
            assert_eq!(m.set_project_status_to(text("a"), to), Ok(()));
            let after = record(&m, "a");
            assert_eq!(after.status, to);
            assert_eq!(after.worker, Some(text(WORKER)));
            assert_eq!(m.get_user_project(&text(WORKER), &text("a")).unwrap().status, to);
            assert_coupled(&m);
        }
    }
}

#[test]
fn status_refuses_other_targets() {
    for to in [Status::Created, Status::PendingWorkerApproval, Status::Complete] {
        let mut m = with_project_in("a", Status::InProgress);
        assert_eq!(m.set_project_status_to(text("a"), to), Err(ProjectError::InvalidInput));
        assert_eq!(record(&m, "a").status, Status::InProgress);
    }
}

#[test]
fn status_refusals_in_order() {
    let mut m = ProjectManagement::new();
    assert_eq!(
        m.set_project_status_to(text("a"), Status::InProgress),
        Err(ProjectError::NotFound)
    );
    assert_eq!(m.set_project_status(text("a"), text("nonsense")), Err(ProjectError::NotFound));
    for from in [Status::Created, Status::PendingWorkerApproval, Status::Complete] {
        let mut m = with_project_in("a", from);
        let before = record(&m, "a");
        assert_eq!(
            m.set_project_status_to(text("a"), Status::InProgress),
            Err(ProjectError::InvalidTransition)
        );
        assert_eq!(
            m.set_project_status_to(text("a"), Status::Created),
            Err(ProjectError::InvalidTransition)
        );
        assert_eq!(
            m.set_project_status(text("a"), text("nonsense")),
            Err(ProjectError::InvalidTransition)
        );
        assert_eq!(record(&m, "a"), before);
    }
}

#[test]
fn status_by_label() {
    let labels = [
        ("not started", Status::NotStarted),
        ("in progress", Status::InProgress),
        ("pending final approval", Status::PendingFinalApproval),
        ("Not Started", Status::NotStarted),
        ("IN PROGRESS", Status::InProgress),
        ("Pending Final Approval", Status::PendingFinalApproval),
    ];
    for (label, status) in labels {
        let mut m = with_project_in("a", Status::NotStarted);
        if status == Status::NotStarted {
            m.set_project_status_to(text("a"), Status::InProgress).unwrap();
        }
        assert_eq!(m.set_project_status(text("a"), text(label)), Ok(()));
        assert_eq!(record(&m, "a").status, status);
        assert_coupled(&m);
    }
}

#[test]
fn status_refuses_unknown_labels() {
    for label in ["", "complete", "created", "in  progress", "in progress ", "inprogress", "done"] {
        let mut m = with_project_in("a", Status::NotStarted);
        assert_eq!(m.set_project_status(text("a"), text(label)), Err(ProjectError::InvalidInput));
        assert_eq!(record(&m, "a").status, Status::NotStarted);
    }
}

#[test]
fn labels_are_read_exactly() {
    assert_eq!(Status::from_label(&text("not started")), Some(Status::NotStarted));
    assert_eq!(Status::from_label(&text("in progress")), Some(Status::InProgress));
    assert_eq!(
        Status::from_label(&text("pending final approval")),
        Some(Status::PendingFinalApproval)
    );
    assert_eq!(Status::from_label(&text("In Progress")), None);
    assert_eq!(Status::from_label(&text("complete")), None);
    assert_eq!(Status::from_label(&text("")), None);
}

#[test]
fn unassign_by_worker_or_owner() {
    for from in [Status::PendingWorkerApproval, Status::NotStarted, Status::InProgress] {
        for who in [WORKER, CONTRACT] {
            let mut m = with_project_in("a", from);
            assert_eq!(m.remove_user_from_project(&outsider(who), text("a")), Ok(()));
            let after = record(&m, "a");
            assert_eq!(after.worker, None);
            assert_eq!(after.status, Status::Created);
            assert_eq!(after.reward, 500);
            assert!(m.get_user_ids().is_empty());
            assert!(m.get_user_project(&text(WORKER), &text("a")).is_none());
            assert_eq!(m.get_all_projects().created.len(), 1);
            assert_coupled(&m);
        }
    }
}

#[test]
fn unassign_by_an_owner_other_than_the_sponsor() {
    for who in ["owner.testnet", WORKER, CONTRACT] {
        let mut m = ProjectManagement::new();
        m.add_project(&sponsor(), text("a"), text("l"), text("d"), 1, text("owner.testnet"))
            .unwrap();
        m.set_user_for_project(text("a"), text(WORKER)).unwrap();
        assert_eq!(
            m.remove_user_from_project(&outsider("eve.testnet"), text("a")),
            Err(ProjectError::Unauthorized)
        );
        assert_eq!(record(&m, "a").worker, Some(text(WORKER)));
        assert_eq!(m.remove_user_from_project(&outsider(who), text("a")), Ok(()));
        assert_eq!(record(&m, "a").worker, None);
        assert_eq!(record(&m, "a").project_owner, "owner.testnet");
    }
    // Who signed counts, not who relays the call.
    let mut m = with_project_in("a", Status::NotStarted);
    let relayed = CallContext::new(text(CONTRACT), text("eve.testnet"), text(WORKER));
    assert_eq!(m.remove_user_from_project(&relayed, text("a")), Err(ProjectError::Unauthorized));
}

#[test]
fn unassign_refusals_in_order() {
    let eve = outsider("eve.testnet");
    let mut m = ProjectManagement::new();
    assert_eq!(m.remove_user_from_project(&eve, text("a")), Err(ProjectError::NotFound));
    for from in [Status::Created, Status::PendingFinalApproval, Status::Complete] {
        for who in [WORKER, CONTRACT, "eve.testnet"] {
            let mut m = with_project_in("a", from);
            let before = record(&m, "a");
            assert_eq!(
                m.remove_user_from_project(&outsider(who), text("a")),
                Err(ProjectError::InvalidTransition)
            );
            assert_eq!(record(&m, "a"), before);
            assert_coupled(&m);
        }
    }
    for from in [Status::PendingWorkerApproval, Status::NotStarted, Status::InProgress] {
        let mut m = with_project_in("a", from);
        let before = record(&m, "a");
        assert_eq!(m.remove_user_from_project(&eve, text("a")), Err(ProjectError::Unauthorized));
        assert_eq!(record(&m, "a"), before);
        assert_eq!(m.get_user_ids(), vec![text("a")]);
    }
}

#[test]
fn completion_pays_once() {
    let mut m = with_project_in("a", Status::PendingFinalApproval);
    let paid = m.set_project_complete(&sponsor(), text("a"));
    assert_eq!(paid, Ok(Payment { recipient: text(WORKER), amount: 500 }));
    let after = record(&m, "a");
    assert_eq!(after.status, Status::Complete);
    assert_eq!(after.worker, Some(text(WORKER)));
    assert_eq!(m.get_user_project(&text(WORKER), &text("a")).unwrap().status, Status::Complete);
    assert_eq!(m.get_user_projects(text(WORKER)).complete.len(), 1);
    assert_coupled(&m);
    for _ in 0..3 {
        assert_eq!(
            m.set_project_complete(&sponsor(), text("a")),
            Err(ProjectError::AlreadyComplete)
        );
        match m.approve_submission(&sponsor(), text("a"), true) {
            Err(ProjectError::AlreadyComplete) => {}
            other => panic!("unexpected answer: {:?}", other),
        }
        assert_eq!(record(&m, "a"), after);
    }
}

#[test]
fn completion_is_terminal() {
    let mut m = with_project_in("a", Status::Complete);
    let settled = record(&m, "a");
    assert_eq!(m.remove_project(&sponsor(), text("a")), Err(ProjectError::InvalidTransition));
    assert_eq!(
        m.set_user_for_project(text("a"), text("second.testnet")),
        Err(ProjectError::AlreadyAssigned)
    );
    assert_eq!(
        m.approve_user_for_project(&sponsor(), text("a"), false),
        Err(ProjectError::InvalidTransition)
    );
    assert_eq!(
        m.set_project_status_to(text("a"), Status::InProgress),
        Err(ProjectError::InvalidTransition)
    );
    assert_eq!(
        m.set_project_status(text("a"), text("not started")),
        Err(ProjectError::InvalidTransition)
    );
    assert_eq!(
        m.remove_user_from_project(&outsider(WORKER), text("a")),
        Err(ProjectError::InvalidTransition)
    );
    assert_eq!(record(&m, "a"), settled);
    assert_eq!(m.get_all_projects().complete.len(), 1);
    assert_coupled(&m);
}

#[test]
fn completion_refusals_in_order() {
    let relayed = sponsor_through("relay.testnet");
    let mut m = with_project_in("a", Status::InProgress);
    create(&mut m, "b", 3);
    assert_eq!(m.set_project_complete(&relayed, text("a")), Err(ProjectError::Unauthorized));
    assert_eq!(m.set_project_complete(&relayed, text("missing")), Err(ProjectError::Unauthorized));
    assert_eq!(m.set_project_complete(&sponsor(), text("missing")), Err(ProjectError::NotFound));
    assert_eq!(m.set_project_complete(&sponsor(), text("b")), Err(ProjectError::InvalidTransition));
    assert_eq!(record(&m, "a").status, Status::InProgress);
    assert_eq!(record(&m, "b").status, Status::Created);
    // A caller that is the contract, whoever signed, may settle.
    let inner = CallContext::new(text(CONTRACT), text("someone.testnet"), text(CONTRACT));
    assert_eq!(
        m.set_project_complete(&inner, text("a")),
        Ok(Payment { recipient: text(WORKER), amount: 500 })
    );
}

#[test]
fn completion_pays_the_current_reward() {
    let mut m = with_project_in("a", Status::InProgress);
    m.update_project(&sponsor(), text("a"), None, None, Some(u128::MAX)).unwrap();
    assert_eq!(
        m.set_project_complete(&sponsor(), text("a")),
        Ok(Payment { recipient: text(WORKER), amount: u128::MAX })
    );
}

#[test]
fn submission_approved() {
    let mut m = with_project_in("a", Status::PendingFinalApproval);
    match m.approve_submission(&sponsor(), text("a"), true) {
        Ok(ApproveReturn::Promise(payment)) => {
            assert_eq!(payment, Payment { recipient: text(WORKER), amount: 500 });
        }
        other => panic!("unexpected answer: {:?}", other),
    }
    assert_eq!(record(&m, "a").status, Status::Complete);
}

#[test]
fn submission_rejected_changes_nothing() {
    let mut m = with_project_in("a", Status::PendingFinalApproval);
    let before = record(&m, "a");
    match m.approve_submission(&sponsor(), text("a"), false) {
        Ok(ApproveReturn::String(note)) => {
            assert_eq!(note, "project was returned to in progress state");
        }
        other => panic!("unexpected answer: {:?}", other),
    }
    assert_eq!(record(&m, "a"), before);
    // Nothing is looked up for a rejection.
    match m.approve_submission(&sponsor_through("relay.testnet"), text("missing"), false) {
        Ok(ApproveReturn::String(_)) => {}
        other => panic!("unexpected answer: {:?}", other),
    }
}

#[test]
fn submission_refusals() {
    let mut m = with_project_in("a", Status::PendingFinalApproval);
    for approve in [true, false] {
        match m.approve_submission(&outsider("eve.testnet"), text("a"), approve) {
            Err(ProjectError::Unauthorized) => {}
            other => panic!("unexpected answer: {:?}", other),
        }
    }
    // The sponsor signed, but the call did not come from the contract.
    match m.approve_submission(&sponsor_through("relay.testnet"), text("a"), true) {
        Err(ProjectError::Unauthorized) => {}
        other => panic!("unexpected answer: {:?}", other),
    }
    match m.approve_submission(&sponsor(), text("missing"), true) {
        Err(ProjectError::NotFound) => {}
        other => panic!("unexpected answer: {:?}", other),
    }
    assert_eq!(record(&m, "a").status, Status::PendingFinalApproval);
}

#[test]
fn reward_changes_only_by_update() {
    let mut m = with_project_in("a", Status::Created);
    let eve = outsider("eve.testnet");
    m.set_user_for_project(text("a"), text(WORKER)).unwrap();
    assert_eq!(record(&m, "a").reward, 500);
    m.approve_user_for_project(&sponsor(), text("a"), true).unwrap();
    assert_eq!(record(&m, "a").reward, 500);
    m.set_project_status(text("a"), text("in progress")).unwrap();
    assert_eq!(record(&m, "a").reward, 500);
    m.remove_user_from_project(&outsider(WORKER), text("a")).unwrap();
    assert_eq!(record(&m, "a").reward, 500);
    assert!(m.update_project(&eve, text("a"), None, None, Some(1)).is_err());
    assert_eq!(record(&m, "a").reward, 500);
    m.update_project(&sponsor(), text("a"), None, None, Some(1)).unwrap();
    assert_eq!(record(&m, "a").reward, 1);
}

#[test]
fn index_coupling_through_a_long_run() {
    let mut m = ProjectManagement::new();
    for id in ["a", "b", "c", "d", "e"] {
        create(&mut m, id, 10);
        assert_coupled(&m);
    }
    m.set_user_for_project(text("c"), text("w1")).unwrap();
    assert_coupled(&m);
    m.set_user_for_project(text("a"), text("w2")).unwrap();
    assert_coupled(&m);
    m.set_user_for_project(text("e"), text("w1")).unwrap();
    assert_coupled(&m);
    assert_eq!(m.get_user_ids(), vec![text("c"), text("a"), text("e")]);
    m.approve_user_for_project(&sponsor(), text("c"), true).unwrap();
    m.approve_user_for_project(&sponsor(), text("a"), false).unwrap();
    assert_coupled(&m);
    assert_eq!(m.get_user_ids(), vec![text("c"), text("e")]);
    m.set_project_status_to(text("c"), Status::InProgress).unwrap();
    m.remove_project(&sponsor(), text("b")).unwrap();
    m.approve_user_for_project(&sponsor(), text("e"), true).unwrap();
    m.set_project_complete(&sponsor(), text("e")).unwrap();
    assert_coupled(&m);
    m.remove_user_from_project(&outsider("w1"), text("c")).unwrap();
    assert_coupled(&m);
    assert_eq!(m.get_user_ids(), vec![text("e")]);
    assert_eq!(m.get_project_ids(), vec![text("a"), text("c"), text("d"), text("e")]);
    let all = m.get_all_projects();
    assert_eq!(all.created.len(), 3);
    assert_eq!(all.complete.len(), 1);
    let w1 = m.get_user_projects(text("w1"));
    assert_eq!(w1.complete.len(), 1);
    assert_eq!(w1.complete[0].id, "e");
    assert_eq!(w1.in_progress.len(), 0);
    let w2 = m.get_user_projects(text("w2"));
    assert_eq!(w2.pending_work_approval.len() + w2.not_started.len() + w2.complete.len(), 0);
}
