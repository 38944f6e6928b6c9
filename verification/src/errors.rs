use vstd::prelude::*;

verus! {

/// Failure kinds surfaced to callers of the registry. No recovery is
/// attempted internally; every kind is reported verbatim.
#[derive(Clone, Copy, Debug, PartialEq, Eq, Structural)]
pub enum Error {
    /// Caller identity could not be established.
    Unauthenticated,
    /// A referenced asset id has no table entry.
    UnknownAsset,
    /// The sender is not the recorded owner of the referenced asset.
    NotOwner,
    /// Breeding was invoked with identical parent identifiers.
    SameParent,
    /// Transfer was invoked with sender equal to recipient.
    SelfTransfer,
    /// The next asset id would exceed the representable range.
    SupplyOverflow,
    /// Internal-consistency fault: an asset id was inserted twice.
    DuplicateAsset,
}

} // verus!
