use vstd::prelude::*;

verus! {

/// Everything that an operation of this crate can report to its caller.
#[derive(Debug, Clone, Copy, PartialEq, Eq, Structural)]
pub enum EcsError {
    /// A column for the component type is already registered.
    DuplicateStorageError,
    /// No column is registered for the component type.
    MissingStorageError,
    /// A system with the same type key is already registered.
    DuplicateSystemError,
    /// No system with the type key is registered.
    MissingSystemError,
    /// A slot holds a payload whose type key is not the one the reader asked for.
    ComponentTypeMismatch,
    /// The entity handle lies beyond the end of a column.
    OutOfRangeEntity,
}

} // verus!
