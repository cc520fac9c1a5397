//! The arena layer: the public facade over a manager.
//!
//! Two safety strategies are offered.  The exclusive arena trusts the
//! caller's ownership of non-copyable handles and checks only brands and
//! slot state.  The versioned arena stamps generations, supports ports
//! (independent facades over one backing manager, each with its own brand
//! and an optional header), and migrates handles between ports only through
//! a generation bump, so a stale identity can never silently succeed.

use vstd::prelude::*;

mod exclusive;
mod version;

pub use exclusive::XArena;
pub use version::HandleMap;
pub use version::PortId;
pub use version::VArena;
pub use version::VersionArena;

verus! {

/// A user-defined value carried by each port of a versioned arena, merged
/// when two ports are joined.  Implementors choose the merge policy.
pub trait Header: Sized {
    /// What merging another header into this one produces.
    spec fn merged(&self, other: &Self) -> Self;

    /// The header a newly split port starts with.
    spec fn fresh_spec() -> Self;

    /// A fresh header for a newly split port.
    fn fresh() -> (r: Self)
        ensures
            r == Self::fresh_spec(),
    ;

    /// Merges `other` into `self`, following the implementor's policy.
    fn merge(&mut self, other: &mut Self)
        ensures
            *final(self) == old(self).merged(&*old(other)),
    ;
}

/// The trivial header: no data, and merging is a no-op.
#[derive(Clone, Copy, Debug, PartialEq, Eq, Structural)]
pub struct Headless;

impl Header for Headless {
    open spec fn merged(&self, other: &Self) -> Self {
        Headless
    }

    open spec fn fresh_spec() -> Self {
        Headless
    }

    fn fresh() -> (r: Self) {
        Headless
    }

    fn merge(&mut self, other: &mut Self) {
    }
}

/// A sample header: a running count, merged by (wrapping) addition, as a
/// port might use to tally how many values it has absorbed.
#[derive(Clone, Copy, Debug, PartialEq, Eq, Structural)]
pub struct CountHeader {
    /// The tally this port carries.
    pub count: u32,
}

impl Header for CountHeader {
    open spec fn merged(&self, other: &Self) -> Self {
        CountHeader { count: ((self.count + other.count) % 0x1_0000_0000) as u32 }
    }

    open spec fn fresh_spec() -> Self {
        CountHeader { count: 0 }
    }

    fn fresh() -> (r: Self) {
        CountHeader { count: 0 }
    }

    fn merge(&mut self, other: &mut Self) {
        let sum = self.count as u64 + other.count as u64;
        self.count = (sum % 0x1_0000_0000) as u32;
    }
}

} // verus!
