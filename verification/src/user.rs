use vstd::prelude::*;
use crate::entropy::fresh_uuid;

verus! {

/// A member identity as stored by the application.
pub struct User {
    pub uuid: u128,
    pub name: String,
}

/// The fields a caller supplies to mint a new user.
pub struct UserBuildable {
    pub name: String,
}

/// The longest display name accepted for users and rooms, in bytes.
pub const NAME_BYTE_LIMIT: usize = 64;

/// Whether a display name fits the accepted length; requests with a
/// longer user or room name are rejected before anything is stored.
pub fn name_within_limit(name: &str) -> (r: bool)
    ensures
        r == (name.len() <= NAME_BYTE_LIMIT),
{
    name.len() <= NAME_BYTE_LIMIT
}

impl User {
    /// Mints a user under a fresh identifier, carrying the given name.
    pub fn create(buildable: UserBuildable) -> (r: User)
        ensures
            r.name == buildable.name,
    {
        User { uuid: fresh_uuid(), name: buildable.name }
    }
}

} // verus!
