//! The error taxonomy, layered as the crate is: store errors are wrapped
//! unchanged up through manager and arena.

use vstd::prelude::*;

use crate::index::{Index, Length};

verus! {

/// Failures of the store layer.
#[derive(Clone, Copy, Debug, PartialEq, Eq, Structural)]
pub enum StoreError {
    /// Access at an index that lies beyond the store's occupied row space;
    /// carries the index and the length it was held against.
    OutOfBounds(Index, Length),
    /// Access at an index whose slot has been freed and not reused yet.
    AccessAfterFree(Index),
    /// Removal of a slot that is already free.
    DoubleFree(Index),
    /// Growth would exceed the maximum representable index; carries the
    /// current and the requested capacity.
    OutofMemory(Length, Length),
    /// Batch mutable access was asked for indices that are not pairwise
    /// disjoint.
    DisjointError,
    /// A shrink was requested where only growth is legal; carries the
    /// requested and the current capacity.
    Narrow(Length, Length),
    /// A column layout computation overflowed or misaligned.
    InvalidLayout,
    /// A requested column type was never registered.
    InvalidQuery,
}

impl StoreError {
    /// A short description, in place of a `Display` impl.
    pub fn describe(&self) -> &'static str {
        match self {
            StoreError::OutOfBounds(_, _) => "access out of bounds",
            StoreError::AccessAfterFree(_) => "access to previously freed data",
            StoreError::DoubleFree(_) => "free of already freed data",
            StoreError::OutofMemory(_, _) => "collection too large to resize",
            StoreError::DisjointError => "overlapping indices",
            StoreError::Narrow(_, _) => "new capacity smaller than current capacity",
            StoreError::InvalidLayout => "invalid columns layout",
            StoreError::InvalidQuery => "column type was never registered",
        }
    }
}

/// The reason a handle was rejected by a manager.
#[derive(Clone, Copy, Debug, PartialEq, Eq, Structural)]
pub enum HandleFault {
    /// The handle's generation stamp does not match the slot's stored
    /// generation.
    VersionMismatch,
    /// The handle was minted by a different manager or port.
    WrongBrand,
}

/// Failures of the manager layer: store failures wrapped unchanged, plus
/// handle validation failures.
#[derive(Clone, Copy, Debug, PartialEq, Eq, Structural)]
pub enum ManagerError {
    /// A store error, passed through unchanged.
    StoreError(StoreError),
    /// The presented handle failed validation.
    BadHandle(HandleFault),
}

impl ManagerError {
    /// A short description, in place of a `Display` impl.
    pub fn describe(&self) -> &'static str {
        match self {
            ManagerError::StoreError(e) => e.describe(),
            ManagerError::BadHandle(HandleFault::VersionMismatch) => "bad handle: version mismatch",
            ManagerError::BadHandle(HandleFault::WrongBrand) => "bad handle: wrong arena",
        }
    }
}

/// Failures of the arena layer: manager failures wrapped unchanged.
#[derive(Clone, Copy, Debug, PartialEq, Eq, Structural)]
pub enum ArenaError {
    /// A manager error, passed through unchanged.
    ManagerError(ManagerError),
}

impl ArenaError {
    /// A short description, in place of a `Display` impl.
    pub fn describe(&self) -> &'static str {
        match self {
            ArenaError::ManagerError(e) => e.describe(),
        }
    }
}

/// Shorthand for store results, as used throughout the store layer.
pub type SResult<T> = Result<T, StoreError>;

/// Shorthand for manager results.
pub type MResult<T> = Result<T, ManagerError>;

/// Shorthand for arena results.
pub type AResult<T> = Result<T, ArenaError>;

} // verus!
