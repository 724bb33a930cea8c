use project_management::error::ProjectError;
use project_management::guard::CallContext;
use project_management::structs::project::Status;
use project_management::structs::project_management::{ApproveReturn, ProjectManagement};

fn get_context(signer: String) -> CallContext {
    CallContext {
        current_account_id: "alice.testnet".to_string(),
        signer_account_id: signer,
        predecessor_account_id: "jane.testnet".to_string(),
    }
}

fn settlement_context() -> CallContext {
    CallContext {
        current_account_id: "alice.testnet".to_string(),
        signer_account_id: "alice.testnet".to_string(),
        predecessor_account_id: "alice.testnet".to_string(),
    }
}

#[test]
fn test_get_all_projects() {
    let context = get_context("alice.testnet".to_string());
    let mut contract = ProjectManagement::new();
    for i in 1..5 {
        let result = contract.add_project(
            &context,
            i.to_string(),
            "https://github.com/test-project/issues/1".to_string(),
            "This is a test".to_string(),
            "2000".parse().unwrap(),
            context.signer_account_id.clone(),
        );
        assert_eq!(result.is_ok(), true);
        let projects = contract.get_all_projects();
        assert_eq!(projects.created.len(), i as usize);
        assert_eq!(projects.not_started.len(), 0 as usize);
        assert_eq!(projects.in_progress.len(), 0 as usize);
        assert_eq!(projects.complete.len(), 0 as usize);
    }
    for i in 1..3 {
        let result =
            contract.set_user_for_project(i.to_string(), context.current_account_id.clone());
        assert_eq!(result.is_ok(), true);
        let projects = contract.get_all_projects();
        assert_eq!(projects.created.len(), 4 - i as usize);
        assert_eq!(projects.pending_work_approval.len(), i as usize);
        assert_eq!(projects.in_progress.len(), 0 as usize);
        assert_eq!(projects.complete.len(), 0 as usize);
    }
    for i in 1..3 {
        // A caller other than the contract itself cannot settle.
        let refused = contract.set_project_complete(&context, i.to_string());
        assert_eq!(refused, Err(ProjectError::Unauthorized));
        let settled = contract.set_project_complete(&settlement_context(), i.to_string());
        assert_eq!(settled.is_ok(), true);
        let projects = contract.get_all_projects();
        assert_eq!(projects.created.len(), 2 as usize);
        assert_eq!(projects.pending_work_approval.len(), 2 - i as usize);
        assert_eq!(projects.complete.len(), i as usize);
    }
}

#[test]
fn test_get_user_projects() {
    let context = get_context("alice.testnet".to_string());
    let mut contract = ProjectManagement::new();
    for i in 1..5 {
        let result = contract.add_project(
            &context,
            i.to_string(),
            "https://github.com/test-project/issues/1".to_string(),
            "This is a test".to_string(),
            "2000".parse().unwrap(),
            context.signer_account_id.clone(),
        );
        assert_eq!(result.is_ok(), true);
        let projects = contract.get_user_projects(context.current_account_id.clone());
        assert_eq!(projects.in_progress.len(), 0 as usize);
        assert_eq!(projects.pending_work_approval.len(), 0 as usize);
        assert_eq!(projects.complete.len(), 0 as usize);
    }
    for i in 1..3 {
        let result =
            contract.set_user_for_project(i.to_string(), context.current_account_id.clone());
        assert_eq!(result.is_ok(), true);
        let projects = contract.get_user_projects(context.current_account_id.clone());
        assert_eq!(projects.pending_work_approval.len(), i as usize);
        assert_eq!(projects.complete.len(), 0 as usize);
    }
    for i in 1..3 {
        let settled = contract.set_project_complete(&settlement_context(), i.to_string());
        assert_eq!(settled.is_ok(), true);
        let projects = contract.get_user_projects(context.current_account_id.clone());
        assert_eq!(projects.pending_work_approval.len(), 2 - i as usize);
        assert_eq!(projects.complete.len(), i as usize);
    }
}

#[test]
fn test_create_project() {
    let context = get_context("alice.testnet".to_string());
    let mut contract = ProjectManagement::new();
    let result = contract.add_project(
        &context,
        "1".parse().unwrap(),
        "https://github.com/test-project/issues/1".to_string(),
        "This is a test".to_string(),
        "2000".parse().unwrap(),
        context.signer_account_id.clone(),
    );
    assert_eq!(result.is_ok(), true);
}

#[test]
fn test_add_user_to_project() {
    let context = get_context("alice.testnet".to_string());
    let worker_account = String::from("subaccount.example.near");
    let mut contract = ProjectManagement::new();
    let id = contract.add_project(
        &context,
        "1".parse().unwrap(),
        "https://github.com/test-project/issues/1".to_string(),
        "This is a test".to_string(),
        "100".parse().unwrap(),
        context.signer_account_id.clone(),
    );
    assert_eq!(id.is_ok(), true);
    let result = contract.set_user_for_project(id.clone().unwrap(), worker_account.clone());
    assert_eq!(result.is_ok(), true);
    // A second project goes to a worker who already has one.
    let id = contract.add_project(
        &context,
        "2".parse().unwrap(),
        "https://github.com/test-project/issues/2".to_string(),
        "This is a test 2".to_string(),
        "2000".parse().unwrap(),
        context.signer_account_id.clone(),
    );
    assert_eq!(id.is_ok(), true);
    let result = contract.set_user_for_project(id.clone().unwrap(), worker_account.clone());
    assert_eq!(result.is_ok(), true);
    let _ = contract.set_project_complete(&context, id.clone().unwrap());
    let listing = contract.get_user_projects(worker_account.clone());
    assert_eq!(listing.pending_work_approval.len(), 2);
    assert_eq!(listing.pending_work_approval[0].id, "1");
    assert_eq!(listing.pending_work_approval[1].id, "2");
    assert_eq!(listing.pending_work_approval[0].reward, 100);
    assert_eq!(listing.pending_work_approval[1].reward, 2000);
}

#[test]
fn scenario_create_one_project() {
    let owner = settlement_context();
    let mut contract = ProjectManagement::new();
    let result = contract.add_project(
        &owner,
        "1".to_string(),
        "url".to_string(),
        "desc".to_string(),
        2000,
        "alice.testnet".to_string(),
    );
    assert_eq!(result, Ok("1".to_string()));
    let listing = contract.get_all_projects();
    assert_eq!(listing.created.len(), 1);
    let record = &listing.created[0];
    assert_eq!(record.id, "1");
    assert_eq!(record.github_issue_link, "url");
    assert_eq!(record.description, "desc");
    assert_eq!(record.reward, 2000);
    assert_eq!(record.status, Status::Created);
    assert_eq!(record.worker, None);
    assert_eq!(record.project_owner, "alice.testnet");
}

#[test]
fn scenario_four_projects_two_settled() {
    let owner = settlement_context();
    let worker = "worker.testnet".to_string();
    let mut contract = ProjectManagement::new();
    for i in 1..5 {
        let result = contract.add_project(
            &owner,
            i.to_string(),
            "url".to_string(),
            "desc".to_string(),
            2000,
            "alice.testnet".to_string(),
        );
        assert_eq!(result, Ok(i.to_string()));
    }
    for i in 1..3 {
        assert_eq!(contract.set_user_for_project(i.to_string(), worker.clone()), Ok(()));
        assert_eq!(contract.approve_user_for_project(&owner, i.to_string(), true), Ok(()));
    }
    let listing = contract.get_all_projects();
    assert_eq!(listing.not_started.len(), 2);
    assert_eq!(listing.created.len(), 2);
    assert_eq!(listing.not_started[0].id, "1");
    assert_eq!(listing.not_started[1].id, "2");
    assert_eq!(listing.created[0].id, "3");
    assert_eq!(listing.created[1].id, "4");
    for i in 1..3 {
        match contract.approve_submission(&owner, i.to_string(), true) {
            Ok(ApproveReturn::Promise(payment)) => {
                assert_eq!(payment.recipient, worker);
                assert_eq!(payment.amount, 2000);
            }
            other => panic!("unexpected answer: {:?}", other),
        }
    }
    let listing = contract.get_all_projects();
    assert_eq!(listing.complete.len(), 2);
    assert_eq!(listing.not_started.len(), 0);
    assert_eq!(listing.created.len(), 2);
    let mine = contract.get_user_projects(worker.clone());
    assert_eq!(mine.complete.len(), 2);
    assert_eq!(mine.not_started.len(), 0);
}

#[test]
fn scenario_second_assignment_is_refused() {
    let owner = settlement_context();
    let mut contract = ProjectManagement::new();
    contract
        .add_project(
            &owner,
            "1".to_string(),
            "url".to_string(),
            "desc".to_string(),
            2000,
            "alice.testnet".to_string(),
        )
        .unwrap();
    assert_eq!(contract.set_user_for_project("1".to_string(), "w.testnet".to_string()), Ok(()));
    assert_eq!(
        contract.set_user_for_project("1".to_string(), "w2.testnet".to_string()),
        Err(ProjectError::AlreadyAssigned)
    );
    let record = contract.get_project(&"1".to_string()).unwrap();
    assert_eq!(record.worker, Some("w.testnet".to_string()));
    assert_eq!(record.status, Status::PendingWorkerApproval);
    assert!(contract.get_user_project(&"w2.testnet".to_string(), &"1".to_string()).is_none());
    assert_eq!(contract.get_user_ids(), vec!["1".to_string()]);
}

#[test]
fn scenario_unassign_while_pending_final_approval() {
    let owner = settlement_context();
    let mut contract = ProjectManagement::new();
    contract
        .add_project(
            &owner,
            "7".to_string(),
            "url".to_string(),
            "desc".to_string(),
            5,
            "alice.testnet".to_string(),
        )
        .unwrap();
    contract.set_user_for_project("7".to_string(), "w.testnet".to_string()).unwrap();
    contract.approve_user_for_project(&owner, "7".to_string(), true).unwrap();
    contract.set_project_status_to("7".to_string(), Status::InProgress).unwrap();
    contract.set_project_status_to("7".to_string(), Status::PendingFinalApproval).unwrap();
    assert_eq!(
        contract.remove_user_from_project(&owner, "7".to_string()),
        Err(ProjectError::InvalidTransition)
    );
    let record = contract.get_project(&"7".to_string()).unwrap();
    assert_eq!(record.status, Status::PendingFinalApproval);
    assert_eq!(record.worker, Some("w.testnet".to_string()));
}
