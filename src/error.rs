use vstd::prelude::*;

verus! {

/// Why an operation on the forum store was refused.
#[derive(Clone, Copy, Debug, PartialEq, Eq, Structural)]
pub enum ContractError {
    /// The thread or comment id does not name a stored record.
    NotFound,
    /// The caller is not the author of the record it tries to change.
    Unauthorized,
    /// A comment was added to a thread id that names no stored thread.
    ThreadNotExists,
}

} // verus!
