//! What resolves a terminal.

use vstd::prelude::*;

verus! {

/// Why a requirement could not be checked.
pub type RequirementError = String;

/// Whether a requirement is met, or why that could not be told.
pub type RequirementResult = Result<bool, RequirementError>;

/// A check that decides one terminal of a policy. What it asks, and of
/// whom, is its own business: nothing is promised of the outcome.
pub trait Requirement {
    /// The context that a check is made in, such as a client. It is handed
    /// through to `check` and never looked at.
    type Querier;

    fn check(&self, querier: &Self::Querier) -> RequirementResult;
}

/// A reference to a requirement is a requirement: it checks what it refers
/// to. So requirements of different types can stand behind `&dyn Requirement`.
impl<'a, T: Requirement + ?Sized> Requirement for &'a T {
    type Querier = T::Querier;

    fn check(&self, querier: &Self::Querier) -> (outcome: RequirementResult)
        ensures
            call_ensures(T::check, (*self, querier), outcome),
    {
        (**self).check(querier)
    }
}

} // verus!
