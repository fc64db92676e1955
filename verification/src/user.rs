//! The user session: the profile the platform reports, the cached login
//! state, and what each user action decides. Fetching over the network and
//! printing stay with the surrounding binary; the decisions live here.

use vstd::prelude::*;

verus! {

/// A user profile as the platform reports it.
pub struct UserInfo {
    pub user_id: String,
    pub space_user_id: usize,
    pub blog_id: usize,
    pub display_name: String,
    pub face: String,
    pub avatar: String,
    pub seniority: String,
    pub blog_app: String,
    pub following_count: usize,
    pub followers_count: usize,
    pub is_vip: bool,
    pub joined: String,
}

/// What the session stores between runs: the access token and the profile it
/// belongs to.
pub struct Cache {
    pub token: String,
    pub user: UserInfo,
}

/// The login state: a stored cache, or nothing when logged out.
pub struct Session {
    pub cache: Option<Cache>,
}

/// How the platform answered a login attempt, with the profile it returned
/// on success.
pub enum LoginStatus {
    /// The token was refused.
    Unauthorized,
    /// The token was accepted and this profile came back.
    Success(UserInfo),
    /// The request failed some other way.
    Failure,
}

/// What a login attempt decided.
pub enum LoginOutcome {
    /// The token was wrong; tell the user to re-enter it.
    RejectedToken,
    /// Logged in: greet the user by this display name.
    Welcome(String),
    /// Failed without deciding anything about the token.
    Failed,
}

/// Decides a login attempt: an accepted token is stored with its profile and
/// the user is greeted; anything else leaves the session untouched.
pub fn handle_login(session: &mut Session, token: String, status: LoginStatus) -> (r:
    LoginOutcome)
    ensures
        status matches LoginStatus::Success(info) ==> ({
            &&& final(session).cache matches Some(c) && c.token == token && c.user == info
            &&& r matches LoginOutcome::Welcome(name) && name@ == info.display_name@
        }),
        status is Unauthorized ==> *final(session) == *old(session) && r is RejectedToken,
        status is Failure ==> *final(session) == *old(session) && r is Failed,
{
    match status {
        LoginStatus::Success(info) => {
            let name = info.display_name.clone();
            session.cache = Some(Cache { token, user: info });
            LoginOutcome::Welcome(name)
        },
        LoginStatus::Unauthorized => LoginOutcome::RejectedToken,
        LoginStatus::Failure => LoginOutcome::Failed,
    }
}

/// Logs out: whatever was stored, the session ends empty.
pub fn handle_logout(session: &mut Session)
    ensures
        final(session).cache is None,
{
    session.cache = None;
}

/// The line that shows the stored access token.
pub fn handle_print_token(token: &str) -> (r: String)
    ensures
        r@ == "[Token]: "@ + token@,
{
    let mut line = String::from_str("[Token]: ");
    line.append(token);
    line
}

} // verus!
