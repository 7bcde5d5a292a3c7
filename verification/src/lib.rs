use vstd::prelude::*;

pub mod clock;
pub mod digits;
pub mod gate;
pub mod service;
pub mod keys;
pub mod store;
pub mod text;

verus! {

/// A stored object is past its lifetime when its age, measured from the
/// creation time the storage medium reported, strictly exceeds the
/// retention window.
pub open spec fn is_expired_spec(created_at: u64, now: u64, window: u64) -> bool {
    now > created_at + window
}

/// Decides whether the retention sweeper must delete an object.
/// An object whose creation time lies in the future (clock skew between
/// the key's clock and the medium's clock) is never considered expired.
pub fn is_expired(created_at: u64, now: u64, window: u64) -> (r: bool)
    ensures
        r == is_expired_spec(created_at, now, window),
{
    created_at < now && now - created_at > window
}

} // verus!
