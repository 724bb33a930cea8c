use vstd::prelude::*;

verus! {

/// Why an operation was refused. A refused operation leaves the stores as
/// they were.
#[derive(Clone, Copy, PartialEq, Eq, Structural, Debug)]
pub enum ProjectError {
    /// The caller does not hold the role the operation asks for.
    Unauthorized,
    /// No project is stored under the id.
    NotFound,
    /// A project is already stored under the id.
    DuplicateId,
    /// The project already has a worker.
    AlreadyAssigned,
    /// The project was settled before.
    AlreadyComplete,
    /// The project's status does not allow the operation.
    InvalidTransition,
    /// The requested status is not one a caller may set.
    InvalidInput,
}

} // verus!
