use vstd::prelude::*;

verus! {

/// Errors reported by the root service.
#[derive(Debug, PartialEq, Eq)]
pub enum Error {
    /// No root core is installed: this process does not lead the metadata group.
    NotRootLeader,
    /// The replica backing the schema lost its leadership during the operation.
    NotLeader,
    /// The named database does not exist.
    DatabaseNotFound(String),
    /// An entity with the same name already exists in its scope.
    AlreadyExists(String),
    /// The cluster has not been bootstrapped yet.
    NotBootstrapped,
    /// Every identifier has been handed out.
    IdExhausted,
}

} // verus!
