//! The user-facing command set: which actions the client offers and the
//! arguments each takes. Argument parsing itself stays with the surrounding
//! binary; these types carry its outcome.

use vstd::prelude::*;

verus! {

/// The user command with its chosen action.
pub struct UserCommand {
    pub commands: UserAction,
}

/// One action on the user account.
pub enum UserAction {
    /// List the accounts that follow the user.
    Follower(FollowArg),
    /// List the accounts the user follows.
    Following(FollowArg),
    /// Log in with an access token.
    Login { token: String },
    /// Log out, discarding the stored session.
    Logout,
    /// Show the login state, with the user's profile when logged in.
    Status,
    /// Show the stored access token.
    Token,
}

/// Paging for the follower and following listings.
pub struct FollowArg {
    /// Page number, counted from one.
    pub page_index: u64,
    /// Entries per page.
    pub page_size: u64,
}

impl Default for FollowArg {
    /// The paging used when the caller gives none: the first page, twenty
    /// entries to a page.
    fn default() -> (r: Self)
        ensures
            r.page_index == 1,
            r.page_size == 20,
    {
        FollowArg { page_index: 1, page_size: 20 }
    }
}

} // verus!
