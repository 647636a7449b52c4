//! The errors of compositing.

use vstd::prelude::*;

verus! {

/// Why one configuration could not be composited.
#[derive(Clone, Copy, Debug, PartialEq, Eq, Hash, Structural)]
pub enum CompositeError {
    /// No layer bundle is loaded for the asset of the section at this
    /// position among the sections of the half.
    MissingAsset(usize),
    /// A pixel holds this identity hash, which the table does not list.
    UnknownIdentity(u32),
    /// This identity code is above 63 and cannot be packed in six bits.
    PackingOverflow(u8),
}

} // verus!
