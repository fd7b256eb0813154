use vstd::prelude::*;

verus! {

/// Identifier of a principal: the party that creates a record or requests a
/// mutation of it. Two principals are the same exactly when their identifiers
/// are equal.
#[derive(Clone, Copy, Debug, PartialEq, Eq, Structural)]
pub struct Principal {
    pub id: u64,
}

/// One counter record, as it is stored.
///
/// `authority` is the only principal allowed to mutate the record; it is set
/// at creation and never changes. `count` is the counter value; it is never
/// taken below zero. `bump` is the derivation parameter fixed at creation,
/// kept so that the record's address can be re-derived from the namespace tag
/// on later lookups.
#[derive(Clone, Copy, Debug, PartialEq, Eq, Structural)]
pub struct Counter {
    pub authority: Principal,
    pub count: u64,
    pub bump: u8,
}

/// Why an operation was rejected. Every rejection leaves the store unchanged.
#[derive(Clone, Copy, Debug, PartialEq, Eq, Structural)]
pub enum ErrorCode {
    /// A record already exists under the given namespace tag; `initialize`
    /// never overwrites it.
    AlreadyExists,
    /// No record exists under the given namespace tag.
    NotFound,
    /// The requester does not match the record's stored authority.
    Unauthorized,
    /// The count is zero and cannot be decremented; it is rejected, not
    /// clamped.
    Underflow,
    /// The count is at the largest representable value and cannot be
    /// incremented; the chosen policy is to reject rather than wrap.
    Overflow,
}

} // verus!
