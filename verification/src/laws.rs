use crate::consistency::{lemma_loaded, lemma_run_wf, lemma_step_wf};
use crate::error::ProjectError;
use crate::guard::CallContextView;
use crate::model::{
    lemma_select_empty, lemma_select_push, listed, loadable, restorable, select, Call,
    ManagementView, PaymentView, Request,
};
use crate::structs::project::{ProjectView, Status};
use vstd::prelude::*;

verus! {

/// Every record in a selection is the record stored under one of the ids
/// selected from, and has the status asked for.
pub proof fn lemma_select_members(
    ids: Seq<Seq<char>>,
    records: Map<Seq<char>, ProjectView>,
    status: Status,
)
    ensures
        forall|record: ProjectView| #[trigger]
            select(ids, records, status).contains(record) ==> exists|id: Seq<char>|
                ids.contains(id) && records.contains_key(id) && #[trigger] records[id] == record
                    && record.status == status,
    decreases ids.len(),
{
    let chosen = select(ids, records, status);
    if ids.len() == 0 {
        lemma_select_empty(records, status);
        assert(ids =~= Seq::empty());
    } else {
        let last = ids.len() - 1;
        let shorter = ids.drop_last();
        lemma_select_push(shorter, ids[last], records, status);
        assert(ids =~= shorter.push(ids[last]));
        lemma_select_members(shorter, records, status);
        let fewer = select(shorter, records, status);
        assert forall|record: ProjectView| #[trigger] chosen.contains(record) implies exists|
            id: Seq<char>,
        |
            ids.contains(id) && records.contains_key(id) && #[trigger] records[id] == record
                && record.status == status by {
            let at = choose|at: int| 0 <= at < chosen.len() && chosen[at] == record;
            if at < fewer.len() {
                assert(fewer[at] == record);
                assert(fewer.contains(record));
                let id = choose|id: Seq<char>|
                    shorter.contains(id) && records.contains_key(id) && #[trigger] records[id]
                        == record && record.status == status;
                let k = choose|k: int| 0 <= k < shorter.len() && shorter[k] == id;
                assert(ids[k] == id);
            } else {
                assert(ids.contains(ids[last]));
                assert(records[ids[last]] == record);
            }
        }
    }
}

/// Where every id selected from is stored, the selections for the six
/// statuses hold together as many records as there are ids.
pub proof fn lemma_select_total(ids: Seq<Seq<char>>, records: Map<Seq<char>, ProjectView>)
    requires
        forall|at: int| 0 <= at < ids.len() ==> records.contains_key(#[trigger] ids[at]),
    ensures
        select(ids, records, Status::Complete).len() + select(
            ids,
            records,
            Status::PendingFinalApproval,
        ).len() + select(ids, records, Status::InProgress).len() + select(
            ids,
            records,
            Status::NotStarted,
        ).len() + select(ids, records, Status::PendingWorkerApproval).len() + select(
            ids,
            records,
            Status::Created,
        ).len() == ids.len(),
    decreases ids.len(),
{
    if ids.len() == 0 {
        assert(ids =~= Seq::empty());
        lemma_select_empty(records, Status::Complete);
        lemma_select_empty(records, Status::PendingFinalApproval);
        lemma_select_empty(records, Status::InProgress);
        lemma_select_empty(records, Status::NotStarted);
        lemma_select_empty(records, Status::PendingWorkerApproval);
        lemma_select_empty(records, Status::Created);
    } else {
        let last = ids.len() - 1;
        let shorter = ids.drop_last();
        assert(ids =~= shorter.push(ids[last]));
        assert(records.contains_key(ids[last]));
        assert forall|at: int| 0 <= at < shorter.len() implies records.contains_key(
            #[trigger] shorter[at],
        ) by {
            assert(shorter[at] == ids[at]);
        }
        lemma_select_total(shorter, records);
        lemma_select_push(shorter, ids[last], records, Status::Complete);
        lemma_select_push(shorter, ids[last], records, Status::PendingFinalApproval);
        lemma_select_push(shorter, ids[last], records, Status::InProgress);
        lemma_select_push(shorter, ids[last], records, Status::NotStarted);
        lemma_select_push(shorter, ids[last], records, Status::PendingWorkerApproval);
        lemma_select_push(shorter, ids[last], records, Status::Created);
    }
}

/// Where no id selected from is stored with the status asked for, the
/// selection is empty.
pub proof fn lemma_select_none(
    ids: Seq<Seq<char>>,
    records: Map<Seq<char>, ProjectView>,
    status: Status,
)
    requires
        forall|at: int|
            0 <= at < ids.len() && records.contains_key(#[trigger] ids[at]) ==> records[ids[at]].status
                != status,
    ensures
        select(ids, records, status).len() == 0,
{
    lemma_select_members(ids, records, status);
    let chosen = select(ids, records, status);
    if chosen.len() > 0 {
        assert(chosen.contains(chosen[0]));
    }
}

/// The listing of all projects covers the store: in a well-formed state the
/// six lists hold together exactly as many projects as are stored.
pub proof fn law_listing_covers_store(s: ManagementView)
    requires
        s.wf(),
    ensures
        s.all_with(Status::Complete).len() + s.all_with(Status::PendingFinalApproval).len()
            + s.all_with(Status::InProgress).len() + s.all_with(Status::NotStarted).len()
            + s.all_with(Status::PendingWorkerApproval).len() + s.all_with(Status::Created).len()
            == s.project_ids.len(),
{
    assert forall|at: int| 0 <= at < s.project_ids.len() implies s.projects.contains_key(
        #[trigger] s.project_ids[at],
    ) by {
        assert(s.project_ids.contains(s.project_ids[at]));
    }
    lemma_select_total(s.project_ids, s.projects);
}

/// Whether every call of `requests` creates a project and succeeds when the
/// calls are made one after the other from state `s`.
pub open spec fn all_create(s: ManagementView, requests: Seq<Request>) -> bool {
    forall|at: int|
        0 <= at < requests.len() ==> (#[trigger] requests[at]).call is AddProject && s.run(
            requests.take(at),
        ).step(requests[at].ctx, requests[at].call).is_ok()
}

proof fn lemma_only_created(requests: Seq<Request>)
    requires
        all_create(ManagementView::empty(), requests),
    ensures
        ManagementView::empty().run(requests).wf(),
        ManagementView::empty().run(requests).project_ids.len() == requests.len(),
        forall|id: Seq<char>| #[trigger]
            ManagementView::empty().run(requests).projects.contains_key(id)
                ==> ManagementView::empty().run(requests).projects[id].status == Status::Created,
    decreases requests.len(),
{
    let start = ManagementView::empty();
    lemma_run_wf(start, requests);
    if requests.len() > 0 {
        let last = requests.len() - 1;
        let earlier = requests.drop_last();
        assert(requests.take(last) =~= earlier);
        assert forall|at: int| 0 <= at < earlier.len() implies (#[trigger] earlier[at]).call is AddProject
            && start.run(earlier.take(at)).step(earlier[at].ctx, earlier[at].call).is_ok() by {
            assert(earlier.take(at) =~= requests.take(at));
            assert(requests[at].call is AddProject);
        }
        lemma_only_created(earlier);
        assert(requests[last].call is AddProject);
    }
}

/// Creation count: after any number of successful creations, starting from
/// nothing, the listing of all projects holds exactly that many projects, all
/// of them under `Created`.
pub proof fn law_creation_count(requests: Seq<Request>)
    requires
        all_create(ManagementView::empty(), requests),
    ensures
        ManagementView::empty().run(requests).all_with(Status::Created).len() == requests.len(),
        forall|status: Status|
            status != Status::Created ==> #[trigger] ManagementView::empty().run(requests).all_with(
                status,
            ).len() == 0,
{
    let s = ManagementView::empty().run(requests);
    lemma_only_created(requests);
    law_listing_covers_store(s);
    assert forall|status: Status| status != Status::Created implies #[trigger] s.all_with(
        status,
    ).len() == 0 by {
        lemma_select_none(s.project_ids, s.projects, status);
    }
}

/// Index coupling: in a well-formed state an id is in the worker index
/// exactly when its project carries a worker, which is exactly when the
/// project has left `Created`; and a record is filed under a worker exactly
/// when that worker is the project's, in which case it is a copy of the
/// stored record.
pub proof fn law_index_coupling(s: ManagementView, worker: Seq<char>, id: Seq<char>)
    requires
        s.wf(),
    ensures
        s.user_ids.contains(id) <==> s.projects.contains_key(id) && s.projects[id].worker.is_some()
            && s.projects[id].status != Status::Created,
        s.user_ids.contains(id) <==> s.projects.contains_key(id) && s.projects[id].status
            != Status::Created,
        s.user_projects.contains_key((worker, id)) <==> s.projects.contains_key(id)
            && s.projects[id].worker == Some(worker),
        s.user_projects.contains_key((worker, id)) ==> s.user_projects[(worker, id)]
            == s.projects[id],
        s.project_ids.contains(id) <==> s.projects.contains_key(id),
{
    assert(s.user_ids.contains(id) <==> s.has_worker(id));
    assert(s.user_projects.contains_key((worker, id)) <==> s.assigned_to(worker, id));
}

/// The coupling of the two stores holds in every state that calls can reach
/// from nothing.
pub proof fn law_reachable_states_are_coupled(requests: Seq<Request>)
    ensures
        ManagementView::empty().run(requests).wf(),
{
    lemma_run_wf(ManagementView::empty(), requests);
}

/// No double assignment: putting a worker on a project that has one is
/// refused with `AlreadyAssigned` and changes nothing; so a second
/// assignment right after a successful one is refused.
pub proof fn law_no_double_assignment(
    s: ManagementView,
    id: Seq<char>,
    first: Seq<char>,
    second: Seq<char>,
)
    ensures
        s.projects.contains_key(id) && s.projects[id].worker.is_some() ==> {
            &&& s.set_user_for_project(id, second) == Err::<ManagementView, ProjectError>(
                ProjectError::AlreadyAssigned,
            )
            &&& s.after(s.set_user_for_project(id, second)) == s
        },
        s.set_user_for_project(id, first).is_ok() ==> s.after(
            s.set_user_for_project(id, first),
        ).set_user_for_project(id, second) == Err::<ManagementView, ProjectError>(
            ProjectError::AlreadyAssigned,
        ),
{
}

/// Rejection reverts: turning an assignment down puts the project back in
/// `Created` without a worker, takes its id out of the worker index, and
/// leaves it out of every worker's listing.
pub proof fn law_rejection_reverts(s: ManagementView, ctx: CallContextView, id: Seq<char>)
    requires
        s.wf(),
        s.approve_user_for_project(ctx, id, false).is_ok(),
    ensures
        ({
            let next = s.after(s.approve_user_for_project(ctx, id, false));
            &&& next.projects.contains_key(id)
            &&& next.projects[id].status == Status::Created
            &&& next.projects[id].worker.is_none()
            &&& !next.user_ids.contains(id)
            &&& forall|worker: Seq<char>, status: Status, record: ProjectView| #[trigger]
                next.worker_with(worker, status).contains(record) ==> record.id != id
        }),
{
    let next = s.after(s.approve_user_for_project(ctx, id, false));
    lemma_step_wf(s, ctx, Call::ApproveUserForProject { id, approve: false });
    assert(next.user_ids.contains(id) <==> next.has_worker(id));
    assert forall|worker: Seq<char>, status: Status, record: ProjectView| #[trigger]
        next.worker_with(worker, status).contains(record) implies record.id != id by {
        let filed = next.filed_under(worker);
        lemma_select_members(next.user_ids, filed, status);
        let found = choose|found: Seq<char>|
            next.user_ids.contains(found) && filed.contains_key(found) && #[trigger] filed[found]
                == record && record.status == status;
        assert(next.user_projects.contains_key((worker, found)));
        assert(next.assigned_to(worker, found));
    }
}

/// A settled project stays settled: whatever is called on a well-formed
/// state, a project that is `Complete` before is stored and `Complete`
/// after.
pub proof fn law_complete_is_terminal(
    s: ManagementView,
    ctx: CallContextView,
    call: Call,
    id: Seq<char>,
)
    requires
        s.wf(),
        s.projects.contains_key(id),
        s.projects[id].status == Status::Complete,
    ensures
        s.after(s.step(ctx, call)).projects.contains_key(id),
        s.after(s.step(ctx, call)).projects[id].status == Status::Complete,
{
}

/// A settled project stays settled through any sequence of calls.
pub proof fn law_complete_stays_complete(s: ManagementView, requests: Seq<Request>, id: Seq<char>)
    requires
        s.wf(),
        s.projects.contains_key(id),
        s.projects[id].status == Status::Complete,
    ensures
        s.run(requests).wf(),
        s.run(requests).projects.contains_key(id),
        s.run(requests).projects[id].status == Status::Complete,
    decreases requests.len(),
{
    lemma_run_wf(s, requests);
    if requests.len() > 0 {
        let earlier = requests.drop_last();
        law_complete_stays_complete(s, earlier, id);
        law_complete_is_terminal(s.run(earlier), requests.last().ctx, requests.last().call, id);
    }
}

/// Completion pays once: a successful settlement releases the project's
/// reward to its worker and marks the project `Complete`; whatever is called
/// afterwards, every further settlement of it is refused, with
/// `AlreadyComplete` where the caller is entitled to settle, so no second
/// payment is released.
pub proof fn law_completion_pays_once(
    s: ManagementView,
    ctx: CallContextView,
    id: Seq<char>,
    later: Seq<Request>,
    again: CallContextView,
)
    requires
        s.wf(),
        s.set_project_complete(ctx, id).is_ok(),
    ensures
        s.projects[id].worker.is_some(),
        s.payment_for(id) == (PaymentView {
            recipient: s.projects[id].worker.unwrap(),
            amount: s.projects[id].reward,
        }),
        ({
            let settled = s.after(s.set_project_complete(ctx, id)).run(later);
            &&& settled.projects.contains_key(id)
            &&& settled.projects[id].status == Status::Complete
            &&& settled.set_project_complete(again, id).is_err()
            &&& settled.approve_submission(again, id, true).is_err()
            &&& again.from_settlement() ==> settled.set_project_complete(again, id) == Err::<
                ManagementView,
                ProjectError,
            >(ProjectError::AlreadyComplete)
        }),
{
    let next = s.after(s.set_project_complete(ctx, id));
    lemma_step_wf(s, ctx, Call::SetProjectComplete { id });
    law_complete_stays_complete(next, later, id);
}

/// Removal guard: a stored project is removed only while it is `Created`;
/// in every other status the removal is refused with `InvalidTransition` and
/// the project stays in the store. A removal that succeeds takes the project
/// out of the store.
pub proof fn law_removal_guard(s: ManagementView, ctx: CallContextView, id: Seq<char>)
    requires
        s.wf(),
        s.projects.contains_key(id),
    ensures
        s.remove_project(ctx, id).is_ok() ==> s.projects[id].status == Status::Created,
        s.projects[id].status != Status::Created ==> s.remove_project(ctx, id) == Err::<
            ManagementView,
            ProjectError,
        >(ProjectError::InvalidTransition),
        s.remove_project(ctx, id).is_err() ==> s.after(s.remove_project(ctx, id)) == s,
        s.remove_project(ctx, id).is_ok() ==> !s.after(
            s.remove_project(ctx, id),
        ).projects.contains_key(id) && !s.after(s.remove_project(ctx, id)).project_ids.contains(id),
{
    if s.remove_project(ctx, id).is_ok() {
        lemma_step_wf(s, ctx, Call::RemoveProject { id });
        let next = s.after(s.remove_project(ctx, id));
        assert(next.project_ids.contains(id) <==> next.projects.contains_key(id));
    }
}

/// What is kept of a well-formed state describes that state: its records,
/// oldest first, and its indexed ids can be restored, and restoring them
/// gives the state back.
pub proof fn law_state_survives_restoring(s: ManagementView)
    requires
        s.wf(),
    ensures
        restorable(s.records(), s.user_ids),
        ManagementView::restored(s.records(), s.user_ids) == s,
{
    let records = s.records();
    assert forall|a: int| 0 <= a < records.len() implies s.projects.contains_key(s.project_ids[a])
        && (#[trigger] records[a]) == s.projects[s.project_ids[a]] && records[a].id
        == s.project_ids[a] by {
        assert(s.project_ids.contains(s.project_ids[a]));
    }
    assert(loadable(records));
    lemma_loaded(records);
    let loaded = ManagementView::loaded(records);
    assert(loaded.project_ids =~= s.project_ids);
    assert forall|id: Seq<char>| loaded.projects.contains_key(id) <==> s.projects.contains_key(
        id,
    ) by {
        if listed(records, id) {
            let a = choose|a: int| 0 <= a < records.len() && (#[trigger] records[a]).id == id;
            assert(s.project_ids.contains(s.project_ids[a]));
        }
        if s.projects.contains_key(id) {
            assert(s.project_ids.contains(id));
            let a = choose|a: int| 0 <= a < s.project_ids.len() && s.project_ids[a] == id;
            assert(records[a].id == id);
            assert(listed(records, id));
        }
    }
    assert forall|id: Seq<char>| loaded.projects.contains_key(id) implies loaded.projects[id]
        == s.projects[id] by {
        assert(listed(records, id));
        let a = choose|a: int| 0 <= a < records.len() && (#[trigger] records[a]).id == id;
        assert(loaded.projects[records[a].id] == records[a]);
    }
    assert(loaded.projects =~= s.projects);
    assert forall|key: (Seq<char>, Seq<char>)| loaded.user_projects.contains_key(key)
        <==> s.user_projects.contains_key(key) by {
        assert(loaded.user_projects.contains_key((key.0, key.1)) <==> loaded.assigned_to(
            key.0,
            key.1,
        ));
        assert(s.user_projects.contains_key((key.0, key.1)) <==> s.assigned_to(key.0, key.1));
    }
    assert forall|key: (Seq<char>, Seq<char>)| loaded.user_projects.contains_key(
        key,
    ) implies loaded.user_projects[key] == s.user_projects[key] by {
        assert(loaded.user_projects.contains_key((key.0, key.1)));
        assert(s.user_projects.contains_key((key.0, key.1)));
    }
    assert(loaded.user_projects =~= s.user_projects);
    assert forall|id: Seq<char>| #[trigger] s.user_ids.contains(id) <==> exists|a: int|
        0 <= a < records.len() && (#[trigger] records[a]).id == id && records[a].worker.is_some() by {
        assert(s.user_ids.contains(id) <==> s.has_worker(id));
        if s.has_worker(id) {
            assert(s.project_ids.contains(id));
            let a = choose|a: int| 0 <= a < s.project_ids.len() && s.project_ids[a] == id;
            assert(records[a].id == id && records[a].worker.is_some());
        }
    }
}

/// The reward of a project changes through an update that supplies a reward
/// and through nothing else.
pub proof fn law_reward_changes_only_by_update(
    s: ManagementView,
    ctx: CallContextView,
    call: Call,
    id: Seq<char>,
)
    requires
        s.wf(),
        s.projects.contains_key(id),
        s.after(s.step(ctx, call)).projects.contains_key(id),
        s.after(s.step(ctx, call)).projects[id].reward != s.projects[id].reward,
    ensures
        call matches Call::UpdateProject { id: updated, new_reward: Some(amount), .. } && updated
            == id
            && amount == s.after(s.step(ctx, call)).projects[id].reward,
{
}

} // verus!
