//! The roster that a bot is configured with.

use vstd::prelude::*;

verus! {

/// One registered member: the alias that chat messages name the member by,
/// and the name the member is shown under.
pub struct Member {
    pub name: String,
    pub display_name: String,
}

/// The roster of registered members.
pub struct Config {
    pub members: Vec<Member>,
}

} // verus!
