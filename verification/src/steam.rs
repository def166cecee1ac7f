//! The game-platform account store: its location and the account records
//! read from it.

use vstd::prelude::*;

verus! {

/// The platform installation, when one was found.
#[derive(Debug, Clone)]
pub struct Steam {
    pub location: Option<String>,
}

/// One stored account.
#[derive(Debug, Clone)]
pub struct SteamAccount {
    pub id: String,
    pub persona_name: String,
    pub account_name: String,
    pub most_recent: u16,
    pub timestamp: u32,
}

impl Steam {
    /// Holds the installation path the caller located, if any.
    pub fn new(location: Option<String>) -> (r: Steam)
        ensures
            r.location == location,
    {
        Steam { location }
    }
}

} // verus!
