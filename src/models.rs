use vstd::prelude::*;

verus! {

/// Seconds since the Unix epoch.
pub type Timestamp = u64;

/// A registered account. `hash` is the password digest, never the password.
#[derive(Debug)]
pub struct User {
    pub id: i32,
    pub email: String,
    pub hash: String,
}

impl Clone for User {
    fn clone(&self) -> (r: Self)
        ensures
            r == *self,
    {
        User { id: self.id, email: self.email.clone(), hash: self.hash.clone() }
    }
}

/// The values of a user row that is about to be stored; the store gives the id.
#[derive(Debug)]
pub struct NewUser {
    pub email: String,
    pub hash: String,
}

impl NewUser {
    pub fn from_details(email: String, hash: String) -> (r: Self)
        ensures
            r.email == email,
            r.hash == hash,
    {
        NewUser { email, hash }
    }
}

/// What a caller may learn of an account: everything but the digest.
#[derive(Debug, PartialEq, Eq)]
pub struct SlimUser {
    pub id: i32,
    pub email: String,
}

impl Clone for SlimUser {
    fn clone(&self) -> (r: Self)
        ensures
            r == *self,
    {
        SlimUser { id: self.id, email: self.email.clone() }
    }
}

impl SlimUser {
    pub open spec fn of_user(u: User) -> SlimUser {
        SlimUser { id: u.id, email: u.email }
    }
}

impl From<User> for SlimUser {
    fn from(user: User) -> (r: Self) {
        SlimUser { id: user.id, email: user.email }
    }
}

impl vstd::std_specs::convert::FromSpecImpl<User> for SlimUser {
    open spec fn obeys_from_spec() -> bool {
        true
    }

    open spec fn from_spec(user: User) -> SlimUser {
        SlimUser::of_user(user)
    }
}

/// A mood of one user's catalog; `value` ranks it, higher is better.
#[derive(Debug, PartialEq, Eq)]
pub struct Mood {
    pub id: i32,
    pub user_id: i32,
    pub name: String,
    pub value: i32,
    pub icon: String,
}

impl Clone for Mood {
    fn clone(&self) -> (r: Self)
        ensures
            r == *self,
    {
        Mood {
            id: self.id,
            user_id: self.user_id,
            name: self.name.clone(),
            value: self.value,
            icon: self.icon.clone(),
        }
    }
}

/// The values of a mood row that is about to be stored.
#[derive(Debug)]
pub struct NewMood {
    pub user_id: i32,
    pub name: String,
    pub value: i32,
    pub icon: String,
}

/// An activity of one user's catalog.
#[derive(Debug, PartialEq, Eq)]
pub struct Activity {
    pub id: i32,
    pub user_id: i32,
    pub name: String,
    pub icon: String,
}

impl Clone for Activity {
    fn clone(&self) -> (r: Self)
        ensures
            r == *self,
    {
        Activity {
            id: self.id,
            user_id: self.user_id,
            name: self.name.clone(),
            icon: self.icon.clone(),
        }
    }
}

/// The values of an activity row that is about to be stored.
#[derive(Debug)]
pub struct NewActivity<'a> {
    pub user_id: i32,
    pub name: &'a str,
    pub icon: String,
}

/// A journal entry: one mood of its owner at one moment, with an optional note.
#[derive(Debug, PartialEq, Eq)]
pub struct Entry {
    pub id: i32,
    pub user_id: i32,
    pub mood_id: i32,
    pub desc: Option<String>,
    pub created_at: Timestamp,
}

impl Clone for Entry {
    fn clone(&self) -> (r: Self)
        ensures
            r == *self,
    {
        let desc = match &self.desc {
            Some(d) => Some(d.clone()),
            None => None,
        };
        Entry {
            id: self.id,
            user_id: self.user_id,
            mood_id: self.mood_id,
            desc,
            created_at: self.created_at,
        }
    }
}

/// The values of an entry row that is about to be stored; without a time the
/// store stamps the entry with the current time.
#[derive(Debug)]
pub struct NewEntry {
    pub user_id: i32,
    pub mood_id: i32,
    pub desc: Option<String>,
    pub created_at: Option<Timestamp>,
}

/// An image attached to an entry.
#[derive(Debug)]
pub struct EnrtyImage {
    pub id: i32,
    pub user_id: i32,
    pub entry_id: i32,
    pub image_url: String,
}

/// The values of an entry image row that is about to be stored.
#[derive(Debug)]
pub struct NewEntryImage<'a> {
    pub user_id: i32,
    pub entry_id: i32,
    pub image_url: &'a str,
}

/// A link between an entry and one activity done during it.
#[derive(Debug, PartialEq, Eq, Structural, Clone, Copy)]
pub struct EntryActivity {
    pub id: i32,
    pub entry_id: i32,
    pub activity_id: i32,
}

/// The values of a link row that is about to be stored.
#[derive(Debug, PartialEq, Eq, Structural, Clone, Copy)]
pub struct NewEntryActivity {
    pub entry_id: i32,
    pub activity_id: i32,
}

} // verus!
