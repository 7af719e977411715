use crate::errors::ServiceError;
use crate::models::{NewUser, SlimUser, User};
use crate::store::{Store, StoreView};
use vstd::prelude::*;

verus! {

/// The digest that Argon2 (default parameters, keyed with `secret`) makes of a
/// password with a salt, or `None` where it refuses the input.
pub uninterp spec fn argon2_digest(password: Seq<char>, salt: Seq<char>, secret: Seq<char>) -> Option<Seq<char>>;

/// Whether an encoded Argon2 digest, keyed with `secret`, matches a password;
/// false also where the digest cannot be decoded.
pub uninterp spec fn argon2_matches(digest: Seq<char>, password: Seq<char>, secret: Seq<char>) -> bool;

/// The keys that hash and check passwords, fixed for the life of the process.
pub struct PasswordConfig {
    pub secret: String,
    pub salt: String,
}

/// Relies on argon2::hash_encoded: the encoded digest of the password under
/// the salt and the keyed default configuration, or an error (a salt shorter
/// than eight bytes, for one) that depends on the arguments alone.
#[verifier::external_body]
fn hash_password(password: &str, config: &PasswordConfig) -> (r: Option<String>)
    ensures
        match r {
            Some(d) => argon2_digest(password@, config.salt@, config.secret@) == Some(d@),
            None => argon2_digest(password@, config.salt@, config.secret@) is None,
        },
{
    let argon = argon2::Config { secret: config.secret.as_bytes(), ..argon2::Config::default() };
    argon2::hash_encoded(password.as_bytes(), config.salt.as_bytes(), &argon).ok()
}

/// Relies on argon2::verify_encoded_ext: decodes the digest and checks the
/// password against it with the key; a digest that does not decode is an error,
/// taken here as a mismatch.
#[verifier::external_body]
fn verify_password(digest: &str, password: &str, config: &PasswordConfig) -> (r: bool)
    ensures
        r == argon2_matches(digest@, password@, config.secret@),
{
    argon2::verify_encoded_ext(digest, password.as_bytes(), config.secret.as_bytes(), &[])
        .unwrap_or(false)
}

impl StoreView {
    pub open spec fn email_taken(self, email: Seq<char>) -> bool {
        exists|i: int| 0 <= i < self.users.len() && #[trigger] self.users[i].email@ == email
    }

    /// `next` is `self` with one user added under the next id; the other tables
    /// are as they were.
    pub open spec fn user_added(self, next: StoreView, email: String, hash: Seq<char>) -> bool {
        &&& next.users.len() == self.users.len() + 1
        &&& next.users.drop_last() == self.users
        &&& next.users.last().id == self.users.len() + 1
        &&& next.users.last().email == email
        &&& next.users.last().hash@ == hash
        &&& next.moods == self.moods
        &&& next.activities == self.activities
        &&& next.entries == self.entries
        &&& next.links == self.links
        &&& next.row_limit == self.row_limit
    }

    /// What storing a user with this email and digest does: the result and
    /// the next state.
    pub open spec fn insert_user_post(
        self,
        next: StoreView,
        email: String,
        hash: Seq<char>,
        r: Result<SlimUser, ServiceError>,
    ) -> bool {
        if self.email_taken(email@) {
            r == Err::<SlimUser, ServiceError>(ServiceError::Conflict) && next == self
        } else if self.users.len() >= self.row_limit {
            r == Err::<SlimUser, ServiceError>(ServiceError::InternalServerError) && next == self
        } else {
            r == Ok::<SlimUser, ServiceError>(
                SlimUser { id: (self.users.len() + 1) as i32, email: email },
            ) && self.user_added(next, email, hash)
        }
    }
}

/// What a login attempt answers, given the account found for the email (if
/// any) and whether the password matched its digest. Every failure has the
/// same shape, so a caller cannot tell an unknown email from a wrong password.
pub open spec fn login_outcome(user: Option<User>, password_ok: bool) -> Result<SlimUser, ServiceError> {
    match user {
        Some(u) => if password_ok {
            Ok(SlimUser::of_user(u))
        } else {
            Err(ServiceError::Unauthorized)
        },
        None => Err(ServiceError::Unauthorized),
    }
}

/// Decides a login from the account found for the email and the password
/// check's verdict.
pub fn check_login(user: Option<&User>, password_ok: bool) -> (r: Result<SlimUser, ServiceError>)
    ensures
        r == login_outcome(
            match user {
                Some(u) => Some(*u),
                None => None,
            },
            password_ok,
        ),
{
    match user {
        Some(u) => if password_ok {
            Ok(SlimUser { id: u.id, email: u.email.clone() })
        } else {
            Err(ServiceError::Unauthorized)
        },
        None => Err(ServiceError::Unauthorized),
    }
}

impl Store {
    /// Stores a new account under the next id, unless its email is taken.
    pub fn insert_user(&mut self, new_user: NewUser) -> (r: Result<SlimUser, ServiceError>)
        requires
            old(self).wf(),
        ensures
            final(self).wf(),
            old(self)@.insert_user_post(final(self)@, new_user.email, new_user.hash@, r),
    {
        if self.find_user_by_email(&new_user.email).is_some() {
            return Err(ServiceError::Conflict);
        }
        if self.users().len() >= self.row_limit() {
            return Err(ServiceError::InternalServerError);
        }
        let email = new_user.email.clone();
        let ghost before = self@;
        let id = self.push_user(new_user.email, new_user.hash);
        assert(self@.users.drop_last() == before.users);
        Ok(SlimUser { id, email })
    }

    /// The account registered under `email`, if there is one.
    pub fn find_user_by_email(&self, email: &String) -> (r: Option<&User>)
        requires
            self.wf(),
        ensures
            match r {
                Some(u) => exists|i: int|
                    0 <= i < self@.users.len() && self@.users[i] == *u && u.email@ == email@,
                None => !self@.email_taken(email@),
            },
    {
        let users = self.users();
        let mut i: usize = 0;
        while i < users.len()
            invariant
                users@ == self@.users,
                0 <= i <= users.len(),
                forall|k: int| 0 <= k < i ==> #[trigger] self@.users[k].email@ != email@,
            decreases users.len() - i,
        {
            if users[i].email == *email {
                return Some(&users[i]);
            }
            i = i + 1;
        }
        None
    }
}

/// The email and password that a client registers or logs in with.
pub struct AuthData {
    pub email: String,
    pub password: String,
}

/// Registers an account: refuses an email that is already taken, and
/// otherwise hashes the password and stores the digest.
pub fn register(user_data: AuthData, config: &PasswordConfig, store: &mut Store) -> (r: Result<
    SlimUser,
    ServiceError,
>)
    requires
        old(store).wf(),
    ensures
        final(store).wf(),
        old(store)@.email_taken(user_data.email@) ==> r == Err::<SlimUser, ServiceError>(
            ServiceError::Conflict,
        ) && final(store)@ == old(store)@,
        !old(store)@.email_taken(user_data.email@) && argon2_digest(
            user_data.password@,
            config.salt@,
            config.secret@,
        ) is None ==> r == Err::<SlimUser, ServiceError>(ServiceError::InternalServerError)
            && final(store)@ == old(store)@,
        !old(store)@.email_taken(user_data.email@) && argon2_digest(
            user_data.password@,
            config.salt@,
            config.secret@,
        ) is Some ==> old(store)@.insert_user_post(
            final(store)@,
            user_data.email,
            argon2_digest(user_data.password@, config.salt@, config.secret@)->0,
            r,
        ),
{
    let AuthData { email, password } = user_data;
    if store.find_user_by_email(&email).is_some() {
        return Err(ServiceError::Conflict);
    }
    match hash_password(password.as_str(), config) {
        Some(digest) => store.insert_user(NewUser::from_details(email, digest)),
        None => Err(ServiceError::InternalServerError),
    }
}

/// Checks an email and password against the stored digest. An unknown email
/// and a wrong password fail alike.
pub fn login(auth_data: &AuthData, config: &PasswordConfig, store: &Store) -> (r: Result<
    SlimUser,
    ServiceError,
>)
    requires
        store.wf(),
    ensures
        forall|i: int|
            0 <= i < store@.users.len() && #[trigger] store@.users[i].email@ == auth_data.email@
                ==> r == login_outcome(
                Some(store@.users[i]),
                argon2_matches(store@.users[i].hash@, auth_data.password@, config.secret@),
            ),
        !store@.email_taken(auth_data.email@) ==> r == Err::<SlimUser, ServiceError>(
            ServiceError::Unauthorized,
        ),
{
    let user = store.find_user_by_email(&auth_data.email);
    let password_ok = match user {
        Some(u) => verify_password(u.hash.as_str(), auth_data.password.as_str(), config),
        None => false,
    };
    let r = check_login(user, password_ok);
    proof {
        if let Some(u) = user {
            let i = choose|i: int|
                0 <= i < store@.users.len() && store@.users[i] == *u && u.email@
                    == auth_data.email@;
            assert forall|j: int|
                0 <= j < store@.users.len() && #[trigger] store@.users[j].email@
                    == auth_data.email@ implies j == i by {
                if j < i {
                    assert(store@.users[j].email@ != store@.users[i].email@);
                } else if i < j {
                    assert(store@.users[i].email@ != store@.users[j].email@);
                }
            }
        }
    }
    r
}

} // verus!
