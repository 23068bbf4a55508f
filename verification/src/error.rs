use vstd::prelude::*;

verus! {

/// The recoverable failures of the core. Every fallible operation returns
/// one of these explicitly; the core never aborts.
#[derive(Copy, Clone, Debug, PartialEq, Eq, Structural)]
pub enum EcsError {
    /// The id is out of range or its generation is stale.
    InvalidEntity,
    /// An insert targeted an owner that already holds a component of that kind.
    DuplicateComponent,
    /// A deletion targeted an owner that holds no component of that kind.
    MissingComponent,
    /// An attach targeted a component kind with no registered manager.
    MissingManager,
}

} // verus!
