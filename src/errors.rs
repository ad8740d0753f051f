use vstd::prelude::*;

verus! {

/// The ways an operation of the library can be refused. A refused operation
/// leaves the state as it was.
#[derive(Debug, Clone, Copy, PartialEq, Eq, Structural)]
pub enum EfficacyError {
    /// The task id is not below the number of tasks.
    MismatchedIdError,
    /// No task carries the category label.
    NonexistentCategoryError,
    /// The context name is reserved or holds whitespace.
    BadContextNameError,
    /// No context of that name is registered.
    NonexistentContextError,
}

} // verus!
