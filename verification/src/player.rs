//! The per-connection player profile: empty at session start, populated once
//! during login, immutable afterwards.

use vstd::prelude::*;

use crate::uuid::UUID;

verus! {

/// The profile of the player behind one connection.
pub struct Player {
    /// The username sent in Login Start; empty before login.
    pub username: String,
    /// The 128-bit identity assigned at login; absent before login.
    pub uuid: Option<UUID>,
}

impl Default for Player {
    /// An empty profile: no name, no identity.
    fn default() -> (r: Self)
        ensures
            r.username@ == Seq::<char>::empty(),
            r.uuid is None,
    {
        Player { username: String::new(), uuid: None }
    }
}

} // verus!
