//! Primitive identifiers: slot indices, lengths and generation counters.

use vstd::prelude::*;

verus! {

/// Number of rows / elements; capacities and lengths are counted in this type.
pub type Length = u32;

/// The largest value an [`Index`] may hold.  `u32::MAX` itself is reserved as
/// a sentinel so that an absent index can be encoded without extra storage.
pub const INDEX_MAX: u32 = u32::MAX - 1;

/// A slot identifier into a store's logical row space.
///
/// One value (`u32::MAX`) is reserved, so every valid index is at most
/// [`INDEX_MAX`] and a store's capacity is at most `INDEX_MAX + 1`.
#[derive(Clone, Copy, Debug, Hash, PartialEq, Eq, Structural)]
pub struct Index {
    raw: u32,
}

impl View for Index {
    type V = int;

    closed spec fn view(&self) -> int {
        self.raw as int
    }
}

impl Index {
    #[verifier::type_invariant]
    pub closed spec fn inv(self) -> bool {
        self.raw <= INDEX_MAX
    }

    /// Wraps a raw value; the reserved sentinel value is rejected.
    pub fn new(value: u32) -> (r: Option<Index>)
        ensures
            match r {
                Some(i) => value <= INDEX_MAX && i@ == value,
                None => value > INDEX_MAX,
            },
    {
        if value <= INDEX_MAX {
            Some(Index { raw: value })
        } else {
            None
        }
    }

    /// The raw value of this index.
    pub fn get(self) -> (r: u32)
        ensures
            r == self@,
            r <= INDEX_MAX,
    {
        proof {
            use_type_invariant(self);
        }
        self.raw
    }
}

/// Every index value is a nonnegative number in the machine range.
pub broadcast proof fn lemma_index_bounds(i: Index)
    ensures
        0 <= #[trigger] i@ <= u32::MAX,
{
}

/// Every generation value is a nonnegative number in the machine range.
pub broadcast proof fn lemma_version_bounds(v: Version)
    ensures
        0 <= #[trigger] v@ <= u32::MAX,
{
}

/// Two indices are the same value exactly when they are the same number.
pub broadcast proof fn lemma_index_injective(a: Index, b: Index)
    ensures
        #![trigger a@, b@]
        (a@ == b@) == (a == b),
{
}

/// Two generations are the same value exactly when they are the same number.
pub broadcast proof fn lemma_version_injective(a: Version, b: Version)
    ensures
        #![trigger a@, b@]
        (a@ == b@) == (a == b),
{
}

/// The generation that follows `v`: one more, wrapping back to the first
/// generation (and skipping the reserved zero) at the end of the counter's
/// range.
pub open spec fn next_version(v: int) -> int {
    if v == u32::MAX {
        1
    } else {
        v + 1
    }
}

/// Law: the generation counter always moves.  Bumping a slot's stored
/// generation — on reuse after a removal, or on a handle migration — never
/// reproduces the stamp it just held, so a handle minted before the bump
/// can never match the slot again until the counter wraps its whole range.
pub proof fn lemma_generation_advances(v: int)
    requires
        1 <= v <= u32::MAX,
    ensures
        next_version(v) != v,
        1 <= next_version(v) <= u32::MAX,
{
}

/// A strictly-positive generation counter.
///
/// It is bumped whenever a freed slot may be about to be reused, so a handle
/// minted before the bump is rejected if presented after.  Zero is reserved,
/// which keeps `Option<Version>` free of extra storage in the reference
/// memory layout.
#[derive(Clone, Copy, Debug, Hash, PartialEq, Eq, Structural)]
pub struct Version {
    v: u32,
}

impl View for Version {
    type V = int;

    closed spec fn view(&self) -> int {
        self.v as int
    }
}

impl Version {
    #[verifier::type_invariant]
    pub closed spec fn inv(self) -> bool {
        self.v >= 1
    }

    /// Wraps a raw value; the reserved zero value is rejected.
    pub fn new(value: u32) -> (r: Option<Version>)
        ensures
            match r {
                Some(v) => value >= 1 && v@ == value,
                None => value == 0,
            },
    {
        if value >= 1 {
            Some(Version { v: value })
        } else {
            None
        }
    }

    /// The first generation: every manager starts counting here, and the
    /// counter wraps back to it when it overflows.
    pub fn one() -> (r: Version)
        ensures
            r@ == 1,
    {
        Version { v: 1 }
    }

    /// The raw value of this generation counter.
    pub fn get(self) -> (r: u32)
        ensures
            r == self@,
            r >= 1,
    {
        proof {
            use_type_invariant(self);
        }
        self.v
    }

    /// Adds `other`, failing on overflow (the reserved zero value is never
    /// produced).
    pub fn checked_add(self, other: u32) -> (r: Option<Version>)
        ensures
            match r {
                Some(v) => self@ + other <= u32::MAX && v@ == self@ + other,
                None => self@ + other > u32::MAX,
            },
    {
        proof {
            use_type_invariant(self);
        }
        match self.v.checked_add(other) {
            Some(v) => Some(Version { v }),
            None => None,
        }
    }

    /// The generation that follows `self`: one more, or back to the first
    /// generation when the counter would overflow (skipping the reserved
    /// zero value).
    pub fn next(self) -> (r: Version)
        ensures
            r@ == next_version(self@),
    {
        match self.checked_add(1) {
            Some(v) => v,
            None => Version::one(),
        }
    }
}

} // verus!
