//! The account side of the web service: who is logged in, and what logging out does.
use vstd::prelude::*;

use crate::protocol::MyState;

verus! {

/// The name of the private cookie that holds the account id.
pub const USERID: &'static str = "userid";

/// Where the browser goes after a session change.
pub const HOME: &'static str = "/";

/// A logged-in user, identified by their account id.
#[derive(Clone, Copy, PartialEq, Eq, Structural, Debug)]
pub struct LoggedIn {
    pub steamid: i64,
}

/// A change to the browser's session: a cookie to remove, and a page to go to.
#[derive(Clone, Copy, PartialEq, Eq, Debug)]
pub struct SessionUpdate {
    pub remove_cookie: Option<&'static str>,
    pub redirect_to: &'static str,
}

/// Logging out drops the account cookie and returns to the start page.
pub fn logout() -> (r: SessionUpdate)
    ensures
        r.remove_cookie == Some(USERID),
        r.redirect_to == HOME,
{
    SessionUpdate { remove_cookie: Some(USERID), redirect_to: HOME }
}

/// What a visitor without a session is told about themselves.
pub fn me_loggedout() -> (r: MyState)
    ensures
        r is LoggedOut,
{
    MyState::LoggedOut
}

/// The session of the account id found in the cookie, if there is one.
pub fn logged_in(cookie: Option<i64>) -> (r: Option<LoggedIn>)
    ensures
        r == (match cookie {
            Some(id) => Some(LoggedIn { steamid: id }),
            None => None,
        }),
{
    match cookie {
        Some(id) => Some(LoggedIn { steamid: id }),
        None => None,
    }
}

} // verus!
