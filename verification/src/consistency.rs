use crate::guard::CallContextView;
use crate::model::{ids_of, listed, loadable, Call, ManagementView, Request};
use crate::storage::id_set::{lemma_push_fresh, lemma_remove_value};
use crate::structs::project::{ProjectView, Status};
use vstd::prelude::*;

verus! {

/// The empty state is well formed.
pub proof fn lemma_empty_wf()
    ensures
        ManagementView::empty().wf(),
{
}

/// Adding a record without a worker under an unused id keeps the state well
/// formed.
pub proof fn lemma_with_created_wf(s: ManagementView, record: ProjectView)
    requires
        s.wf(),
        !s.projects.contains_key(record.id),
        record.worker.is_none(),
        record.status == Status::Created,
    ensures
        s.with_created(record).wf(),
{
    lemma_push_fresh(s.project_ids, record.id);
    let next = s.with_created(record);
    assert forall|worker: Seq<char>, id: Seq<char>|
        next.user_projects.contains_key((worker, id)) <==> next.assigned_to(worker, id) by {
        assert(s.user_projects.contains_key((worker, id)) <==> s.assigned_to(worker, id));
    }
    assert forall|id: Seq<char>| next.user_ids.contains(id) <==> next.has_worker(id) by {
        assert(s.user_ids.contains(id) <==> s.has_worker(id));
    }
}

/// Removing a project that has no worker keeps the state well formed.
pub proof fn lemma_with_removed_wf(s: ManagementView, id: Seq<char>)
    requires
        s.wf(),
        s.projects.contains_key(id),
        s.projects[id].status == Status::Created,
    ensures
        s.with_removed(id).wf(),
{
    lemma_remove_value(s.project_ids, id);
    let next = s.with_removed(id);
    assert forall|worker: Seq<char>, other: Seq<char>|
        next.user_projects.contains_key((worker, other)) <==> next.assigned_to(worker, other) by {
        assert(s.user_projects.contains_key((worker, other)) <==> s.assigned_to(worker, other));
    }
    assert forall|other: Seq<char>| next.user_ids.contains(other) <==> next.has_worker(other) by {
        assert(s.user_ids.contains(other) <==> s.has_worker(other));
    }
}

/// Putting a worker on a project that has none keeps the state well formed.
pub proof fn lemma_with_assigned_wf(s: ManagementView, id: Seq<char>, worker: Seq<char>)
    requires
        s.wf(),
        s.projects.contains_key(id),
        s.projects[id].worker.is_none(),
    ensures
        s.with_assigned(id, worker).wf(),
{
    assert(s.user_ids.contains(id) <==> s.has_worker(id));
    lemma_push_fresh(s.user_ids, id);
    let next = s.with_assigned(id, worker);
    assert forall|other: Seq<char>| next.project_ids.contains(other) <==> next.projects.contains_key(
        other,
    ) by {
        assert(s.project_ids.contains(other) <==> s.projects.contains_key(other));
    }
    assert forall|w: Seq<char>, other: Seq<char>|
        next.user_projects.contains_key((w, other)) <==> next.assigned_to(w, other) by {
        assert(s.user_projects.contains_key((w, other)) <==> s.assigned_to(w, other));
    }
    assert forall|other: Seq<char>| next.user_ids.contains(other) <==> next.has_worker(other) by {
        assert(s.user_ids.contains(other) <==> s.has_worker(other));
    }
}

/// Taking the worker off a project keeps the state well formed.
pub proof fn lemma_with_released_wf(s: ManagementView, id: Seq<char>)
    requires
        s.wf(),
        s.projects.contains_key(id),
    ensures
        s.with_released(id).wf(),
{
    lemma_remove_value(s.user_ids, id);
    let next = s.with_released(id);
    assert forall|other: Seq<char>| next.project_ids.contains(other) <==> next.projects.contains_key(
        other,
    ) by {
        assert(s.project_ids.contains(other) <==> s.projects.contains_key(other));
    }
    assert forall|w: Seq<char>, other: Seq<char>|
        next.user_projects.contains_key((w, other)) <==> next.assigned_to(w, other) by {
        assert(s.user_projects.contains_key((w, other)) <==> s.assigned_to(w, other));
    }
    assert forall|other: Seq<char>| next.user_ids.contains(other) <==> next.has_worker(other) by {
        assert(s.user_ids.contains(other) <==> s.has_worker(other));
    }
}

/// Replacing a stored record with one of the same id and worker, whose
/// status still fits its worker, keeps the state well formed.
pub proof fn lemma_with_record_wf(s: ManagementView, record: ProjectView)
    requires
        s.wf(),
        s.projects.contains_key(record.id),
        record.worker == s.projects[record.id].worker,
        record.worker_matches_status(),
    ensures
        s.with_record(record).wf(),
{
    let next = s.with_record(record);
    assert forall|other: Seq<char>| next.project_ids.contains(other) <==> next.projects.contains_key(
        other,
    ) by {
        assert(s.project_ids.contains(other) <==> s.projects.contains_key(other));
    }
    assert forall|w: Seq<char>, other: Seq<char>|
        next.user_projects.contains_key((w, other)) <==> next.assigned_to(w, other) by {
        assert(s.user_projects.contains_key((w, other)) <==> s.assigned_to(w, other));
    }
    assert forall|other: Seq<char>| next.user_ids.contains(other) <==> next.has_worker(other) by {
        assert(s.user_ids.contains(other) <==> s.has_worker(other));
    }
}

/// Loading records of which no two share an id, and each of which carries a
/// worker exactly when it has left `Created`, gives sound stores that hold
/// exactly those records, in their order.
pub proof fn lemma_loaded(records: Seq<ProjectView>)
    requires
        loadable(records),
    ensures
        ManagementView::loaded(records).primary_wf(),
        ManagementView::loaded(records).filing_wf(),
        ManagementView::loaded(records).user_ids == Seq::<Seq<char>>::empty(),
        ManagementView::loaded(records).project_ids == ids_of(records),
        forall|id: Seq<char>| #[trigger]
            ManagementView::loaded(records).projects.contains_key(id) <==> listed(records, id),
        forall|a: int|
            0 <= a < records.len() ==> ManagementView::loaded(records).projects.contains_key(
                (#[trigger] records[a]).id,
            ) && ManagementView::loaded(records).projects[records[a].id] == records[a],
    decreases records.len(),
{
    let s = ManagementView::loaded(records);
    if records.len() == 0 {
        assert(s.project_ids =~= ids_of(records));
    } else {
        let earlier = records.drop_last();
        let last = records.last();
        let before = ManagementView::loaded(earlier);
        assert forall|a: int, b: int|
            0 <= a < earlier.len() && 0 <= b < earlier.len() && a != b implies (#[trigger] earlier[a]).id
            != (#[trigger] earlier[b]).id by {
            assert(records[a].id != records[b].id);
        }
        assert forall|a: int| 0 <= a < earlier.len() implies (#[trigger] earlier[a]).worker_matches_status() by {
            assert(records[a].worker_matches_status());
        }
        lemma_loaded(earlier);
        assert(!before.projects.contains_key(last.id)) by {
            if listed(earlier, last.id) {
                let a = choose|a: int| 0 <= a < earlier.len() && (#[trigger] earlier[a]).id == last.id;
                assert(records[a].id != records[records.len() - 1].id);
            }
        }
        assert(records[records.len() - 1].worker_matches_status());
        assert(before.project_ids.contains(last.id) <==> before.projects.contains_key(last.id));
        lemma_push_fresh(before.project_ids, last.id);
        assert(s.project_ids =~= ids_of(records));
        assert forall|id: Seq<char>| #[trigger] s.projects.contains_key(id) <==> listed(
            records,
            id,
        ) by {
            if listed(records, id) {
                let a = choose|a: int| 0 <= a < records.len() && (#[trigger] records[a]).id == id;
                if a < earlier.len() {
                    assert(earlier[a].id == id);
                    assert(listed(earlier, id));
                }
            }
            if s.projects.contains_key(id) {
                if id == last.id {
                    assert(records[records.len() - 1].id == id);
                } else {
                    assert(listed(earlier, id));
                    let a = choose|a: int| 0 <= a < earlier.len() && (#[trigger] earlier[a]).id == id;
                    assert(records[a].id == id);
                }
            }
        }
        assert forall|a: int| 0 <= a < records.len() implies s.projects.contains_key(
            (#[trigger] records[a]).id,
        ) && s.projects[records[a].id] == records[a] by {
            if a < earlier.len() {
                assert(earlier[a] == records[a]);
                assert(before.projects.contains_key(earlier[a].id));
                assert(records[a].id != records[records.len() - 1].id);
            }
        }
        assert forall|worker: Seq<char>, id: Seq<char>|
            s.user_projects.contains_key((worker, id)) <==> s.assigned_to(worker, id) by {
            assert(before.user_projects.contains_key((worker, id)) <==> before.assigned_to(
                worker,
                id,
            ));
        }
    }
}

/// No call takes a well-formed state to one that is not.
pub proof fn lemma_step_wf(s: ManagementView, ctx: CallContextView, call: Call)
    requires
        s.wf(),
    ensures
        s.after(s.step(ctx, call)).wf(),
{
    if s.step(ctx, call).is_ok() {
        match call {
            Call::AddProject { id, github_issue_link, description, reward, project_owner } => {
                lemma_with_created_wf(
                    s,
                    ProjectView::fresh(id, github_issue_link, description, reward, project_owner),
                );
            },
            Call::UpdateProject { id, new_github_issue_link, new_description, new_reward } => {
                lemma_with_record_wf(
                    s,
                    s.updated_record(id, new_github_issue_link, new_description, new_reward),
                );
            },
            Call::RemoveProject { id } => {
                lemma_with_removed_wf(s, id);
            },
            Call::SetProjectStatus { id, target } => {
                lemma_with_record_wf(s, ProjectView { status: target.unwrap(), ..s.projects[id] });
            },
            Call::SetUserForProject { id, worker } => {
                lemma_with_assigned_wf(s, id, worker);
            },
            Call::ApproveUserForProject { id, approve } => {
                if approve {
                    lemma_with_record_wf(
                        s,
                        ProjectView { status: Status::NotStarted, ..s.projects[id] },
                    );
                } else {
                    lemma_with_released_wf(s, id);
                }
            },
            Call::RemoveUserFromProject { id } => {
                lemma_with_released_wf(s, id);
            },
            Call::ApproveSubmission { id, approve } => {
                if approve {
                    lemma_with_record_wf(
                        s,
                        ProjectView { status: Status::Complete, ..s.projects[id] },
                    );
                }
            },
            Call::SetProjectComplete { id } => {
                lemma_with_record_wf(s, ProjectView { status: Status::Complete, ..s.projects[id] });
            },
        }
    }
}

/// No sequence of calls takes a well-formed state to one that is not.
pub proof fn lemma_run_wf(s: ManagementView, requests: Seq<Request>)
    requires
        s.wf(),
    ensures
        s.run(requests).wf(),
    decreases requests.len(),
{
    if requests.len() > 0 {
        lemma_run_wf(s, requests.drop_last());
        lemma_step_wf(s.run(requests.drop_last()), requests.last().ctx, requests.last().call);
    }
}

} // verus!
