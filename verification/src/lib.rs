//! An embeddable memory-arena library: allocators that hand out typed,
//! validated handles (lightweight logical pointers) into pre-reserved
//! backing storage, catching use-after-free and cross-arena misuse.
//!
//! The crate is layered bottom-up:
//! - [`index`]: slot identifiers, lengths and generation counters;
//! - [`store`]: backing stores with index-based access, reuse and growth;
//! - [`manager`]: a store coupled with an identity token and, for the
//!   versioned strategy, generation bookkeeping;
//! - [`arena`]: the public facade, with the exclusive and the versioned
//!   safety strategies, ports and handle migration.

use vstd::prelude::*;

pub mod arena;
pub mod errors;
pub mod index;
pub mod manager;
pub mod store;

verus! {

/// Marker trait for the closed sets of this crate's type-level tags (the
/// element kinds and safety strategies): only types of this crate carry it.
pub trait Sealed {

}

} // verus!
