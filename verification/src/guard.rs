use crate::structs::project::{Project, ProjectView};
use vstd::prelude::*;

verus! {

/// The identities that come with one call. They are opaque tokens: the
/// library only compares them.
#[derive(Debug)]
pub struct CallContext {
    /// The account the contract itself runs under.
    pub current_account_id: String,
    /// The account that signed the transaction the call stems from.
    pub signer_account_id: String,
    /// The account that made this very call.
    pub predecessor_account_id: String,
}

pub struct CallContextView {
    pub current_account_id: Seq<char>,
    pub signer_account_id: Seq<char>,
    pub predecessor_account_id: Seq<char>,
}

impl View for CallContext {
    type V = CallContextView;

    open spec fn view(&self) -> CallContextView {
        CallContextView {
            current_account_id: self.current_account_id@,
            signer_account_id: self.signer_account_id@,
            predecessor_account_id: self.predecessor_account_id@,
        }
    }
}

impl CallContextView {
    /// The call stems from the sponsor: the contract's own account signed it.
    pub open spec fn from_sponsor(self) -> bool {
        owner_call(self.signer_account_id, self.current_account_id)
    }

    /// The call is the contract calling itself to settle a project.
    pub open spec fn from_settlement(self) -> bool {
        self_settlement(self.predecessor_account_id, self.current_account_id)
    }

    /// The call stems from the worker of `project`, from its owner or from
    /// the sponsor.
    pub open spec fn from_worker_or_owner(self, project: ProjectView) -> bool {
        worker_or_owner(self.signer_account_id, project) || self.from_sponsor()
    }
}

pub open spec fn owner_call(caller: Seq<char>, contract_owner: Seq<char>) -> bool {
    caller == contract_owner
}

pub open spec fn self_settlement(caller: Seq<char>, executing: Seq<char>) -> bool {
    caller == executing
}

pub open spec fn worker_or_owner(caller: Seq<char>, project: ProjectView) -> bool {
    project.worker == Some(caller) || project.project_owner == caller
}

/// Whether `caller` is the identity entitled to act as sponsor.
pub fn is_owner_call(caller: &String, contract_owner: &String) -> (allowed: bool)
    ensures
        allowed == owner_call(caller@, contract_owner@),
{
    *caller == *contract_owner
}

/// Whether `caller` is the contract itself, on the path that settles a
/// project.
pub fn is_self_settlement(caller: &String, executing: &String) -> (allowed: bool)
    ensures
        allowed == self_settlement(caller@, executing@),
{
    *caller == *executing
}

/// Whether `caller` is the worker assigned to `project` or its owner.
pub fn is_worker_or_owner(caller: &String, project: &Project) -> (allowed: bool)
    ensures
        allowed == worker_or_owner(caller@, project@),
{
    let is_worker = match &project.worker {
        Some(w) => *w == *caller,
        None => false,
    };
    is_worker || project.project_owner == *caller
}

impl CallContext {
    pub fn new(
        current_account_id: String,
        signer_account_id: String,
        predecessor_account_id: String,
    ) -> (ctx: CallContext)
        ensures
            ctx@ == (CallContextView {
                current_account_id: current_account_id@,
                signer_account_id: signer_account_id@,
                predecessor_account_id: predecessor_account_id@,
            }),
    {
        CallContext { current_account_id, signer_account_id, predecessor_account_id }
    }
}

} // verus!
