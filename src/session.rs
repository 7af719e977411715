use crate::errors::ServiceError;
use crate::models::{SlimUser, Timestamp};
use vstd::prelude::*;
use vstd::string::StringExecFns;

verus! {

/// How long a session stays valid after it was issued: one day, in seconds.
pub const SESSION_MAX_AGE: u64 = 86400;

/// What the signed session cookie carries: who logged in, and when.
#[derive(Debug)]
pub struct Session {
    pub user: SlimUser,
    pub issued_at: Timestamp,
}

/// Whom a request acts for.
#[derive(Debug)]
pub enum Identity {
    User(SlimUser),
    Anonymous,
}

impl Session {
    /// Issued no later than `now`, and less than a day before it.
    pub open spec fn valid_at(self, now: Timestamp) -> bool {
        self.issued_at <= now && now - self.issued_at < SESSION_MAX_AGE
    }

    /// A session for `user`, issued at `now`.
    pub fn issue(user: SlimUser, now: Timestamp) -> (r: Session)
        ensures
            r.user == user,
            r.issued_at == now,
            r.valid_at(now),
    {
        Session { user, issued_at: now }
    }

    pub fn is_valid_at(&self, now: Timestamp) -> (r: bool)
        ensures
            r == self.valid_at(now),
    {
        self.issued_at <= now && now - self.issued_at < SESSION_MAX_AGE
    }
}

/// The identity a request carries: its user while the session is valid, and
/// anonymous when there is no session or it has expired.
pub fn resolve(session: Option<&Session>, now: Timestamp) -> (r: Identity)
    ensures
        match session {
            Some(s) => if s.valid_at(now) {
                r == Identity::User(s.user)
            } else {
                r == Identity::Anonymous
            },
            None => r == Identity::Anonymous,
        },
{
    match session {
        Some(s) => if s.is_valid_at(now) {
            Identity::User(s.user.clone())
        } else {
            Identity::Anonymous
        },
        None => Identity::Anonymous,
    }
}

/// The user of a request that needs one; without a valid session the request
/// is refused.
pub fn require_user(session: Option<&Session>, now: Timestamp) -> (r: Result<SlimUser, ServiceError>)
    ensures
        match session {
            Some(s) => if s.valid_at(now) {
                r == Ok::<SlimUser, ServiceError>(s.user)
            } else {
                r == Err::<SlimUser, ServiceError>(ServiceError::Unauthorized)
            },
            None => r == Err::<SlimUser, ServiceError>(ServiceError::Unauthorized),
        },
{
    match resolve(session, now) {
        Identity::User(u) => Ok(u),
        Identity::Anonymous => Err(ServiceError::Unauthorized),
    }
}

/// The greeting of the front page: the user's email, or the world.
pub fn greeting(identity: &Identity) -> (r: String)
    ensures
        match identity {
            Identity::User(u) => r@ == "Hello "@ + u.email@,
            Identity::Anonymous => r@ == "Hello World"@,
        },
{
    match identity {
        Identity::User(u) => {
            let mut s = String::from_str("Hello ");
            s.append(u.email.as_str());
            s
        },
        Identity::Anonymous => String::from_str("Hello World"),
    }
}

} // verus!
