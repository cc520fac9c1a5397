//! The manager layer: a store coupled with a per-instance identity token
//! (the brand) and, for the versioned strategy, generation bookkeeping.
//!
//! The brand is a runtime-checked instance identifier: two managers only
//! compare handles as their own when the brands match, so a handle used on
//! the wrong manager is rejected with a bad-handle error instead of reading
//! another instance's data.

use vstd::prelude::*;

use crate::errors::{HandleFault, ManagerError};
use crate::index::Index;
use crate::store::{miss_err_of, remove_err_of};

mod exclusive;
mod slices;
mod soa;
mod version;

pub use exclusive::ExclusiveManager;
pub use soa::SoAManager;
pub use slices::slices_fault;
pub use slices::SliceCell;
pub use slices::Slices;
pub use slices::SlicesManager;
pub use exclusive::XHandle;
pub use exclusive::XManager;
pub use version::VHandle;
pub use version::VManager;
pub use version::VersionManager;

pub use version::stored_value_of;
pub use version::stored_version_of;

pub(crate) use exclusive::mint_exclusive;
pub(crate) use version::mint;
pub(crate) use version::restamp;

verus! {

/// A plain storage unit: a type whose values are raw, byte-compatible
/// payload with no ownership of their own, fit to be stored in runs.
pub trait RawBytes: Copy {

}

impl RawBytes for u8 {

}

impl RawBytes for u16 {

}

impl RawBytes for u32 {

}

impl RawBytes for u64 {

}

impl RawBytes for u128 {

}

/// Marks the exclusive (structural) safety strategy; `REUSE` selects a
/// store that can free individual slots.
pub struct Exclusive<const REUSE: bool>;

/// Marks the versioned (generation-stamping) safety strategy; `REUSE`
/// selects a store that can free individual slots, and `H` is the header
/// type the arena's ports carry.
pub struct Versioned<const REUSE: bool, H>(core::marker::PhantomData<H>);

/// Marks the element kind of a single fixed-type value per slot.
pub struct Typed<T>(core::marker::PhantomData<T>);

/// Marks the columnar (structure-of-arrays) element kind: one record per
/// row, spread over independently stored columns.
pub struct SoA<C>(core::marker::PhantomData<C>);

/// Type-level wiring from an element kind and a safety strategy to the
/// store and manager that realize them.
pub trait Config {
    /// The backing store the configuration uses.
    type Store;

    /// The manager the configuration uses.
    type Manager;
}

/// The configuration selector: `GlobalConfig<K, C>` names the combination
/// of element kind `K` and strategy `C`.
pub struct GlobalConfig<K, C>(core::marker::PhantomData<(K, C)>);

impl<const REUSE: bool> crate::Sealed for Exclusive<REUSE> {

}

impl<const REUSE: bool, H> crate::Sealed for Versioned<REUSE, H> {

}

impl<T> crate::Sealed for Typed<T> {

}

impl<C> crate::Sealed for SoA<C> {

}

impl<U> crate::Sealed for Slices<U> {

}

impl<T> Config for GlobalConfig<Typed<T>, Exclusive<false>> {
    type Store = crate::store::SimpleStore<T>;

    type Manager = ExclusiveManager<T, crate::store::SimpleStore<T>>;
}

impl<T> Config for GlobalConfig<Typed<T>, Exclusive<true>> {
    type Store = crate::store::FreelistStore<T>;

    type Manager = ExclusiveManager<T, crate::store::FreelistStore<T>>;
}

impl<C: crate::store::Columns> Config for GlobalConfig<SoA<C>, Exclusive<false>> {
    type Store = crate::store::SoAFreelistStore<C>;

    type Manager = SoAManager<C>;
}

impl<C: crate::store::Columns> Config for GlobalConfig<SoA<C>, Exclusive<true>> {
    type Store = crate::store::SoAFreelistStore<C>;

    type Manager = SoAManager<C>;
}

impl<U: RawBytes, H> Config for GlobalConfig<Slices<U>, Versioned<true, H>> {
    type Store = crate::store::IntervaltreeStore<SliceCell<U>>;

    type Manager = SlicesManager<U>;
}

impl<T, H> Config for GlobalConfig<Typed<T>, Versioned<false, H>> {
    type Store = crate::store::SimpleStore<(crate::index::Version, T)>;

    type Manager = VersionManager<T, crate::store::SimpleStore<(crate::index::Version, T)>>;
}

impl<T, H> Config for GlobalConfig<Typed<T>, Versioned<true, H>> {
    type Store = crate::store::FreelistStore<(crate::index::Version, T)>;

    type Manager = VersionManager<T, crate::store::FreelistStore<(crate::index::Version, T)>>;
}

/// The error an access through a handle reports: a foreign brand is a bad
/// handle; a missing slot is the store's own complaint; a live slot whose
/// stored generation disagrees with the handle's stamp is a version
/// mismatch.
pub open spec fn access_fault(brand_ok: bool, live: bool, extent: int, index: Index) -> ManagerError {
    if !brand_ok {
        ManagerError::BadHandle(HandleFault::WrongBrand)
    } else if !live {
        ManagerError::StoreError(miss_err_of(extent, index))
    } else {
        ManagerError::BadHandle(HandleFault::VersionMismatch)
    }
}

/// The error a removal through a handle reports; as [`access_fault`], but a
/// missing slot below the bump frontier is a double free.
pub open spec fn remove_fault(brand_ok: bool, live: bool, extent: int, index: Index) -> ManagerError {
    if !brand_ok {
        ManagerError::BadHandle(HandleFault::WrongBrand)
    } else if !live {
        ManagerError::StoreError(remove_err_of(extent, index))
    } else {
        ManagerError::BadHandle(HandleFault::VersionMismatch)
    }
}

} // verus!
