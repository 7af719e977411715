use crate::models::{Activity, Entry, EntryActivity, Mood, NewEntry, NewEntryActivity, NewMood, Timestamp, User};
use vstd::prelude::*;

verus! {

/// The largest number of rows a table can hold: ids are positive `i32`s.
pub const MAX_ROWS: usize = 2147483647;

/// The moment an entry is stamped with: the one given, else now.
pub open spec fn stamp(given: Option<Timestamp>, now: Timestamp) -> Timestamp {
    match given {
        Some(t) => t,
        None => now,
    }
}

/// The tables of the journal, row by row in the order they were stored.
pub struct StoreView {
    pub users: Seq<User>,
    pub moods: Seq<Mood>,
    pub activities: Seq<Activity>,
    pub entries: Seq<Entry>,
    pub links: Seq<EntryActivity>,
    pub row_limit: nat,
}

pub open spec fn activity_owner_is(u: int) -> spec_fn(Activity) -> bool {
    |a: Activity| a.user_id == u
}

impl StoreView {
    /// The activities of user `u`, in the order they were stored.
    pub open spec fn activities_of(self, u: int) -> Seq<Activity> {
        self.activities.filter(activity_owner_is(u))
    }

    pub open spec fn has_user(self, u: int) -> bool {
        1 <= u <= self.users.len()
    }

    /// The mood `mid` exists and belongs to user `u`.
    pub open spec fn mood_owned(self, u: int, mid: int) -> bool {
        1 <= mid <= self.moods.len() && self.moods[mid - 1].user_id == u
    }

    /// The activity `aid` exists and belongs to user `u`.
    pub open spec fn activity_owned(self, u: int, aid: int) -> bool {
        1 <= aid <= self.activities.len() && self.activities[aid - 1].user_id == u
    }

    /// The entry `eid` exists and belongs to user `u`.
    pub open spec fn entry_owned(self, u: int, eid: int) -> bool {
        1 <= eid <= self.entries.len() && self.entries[eid - 1].user_id == u
    }

    /// Ids are given in order from 1, so a row's id is its position plus one.
    pub open spec fn ids_sequential(self) -> bool {
        &&& forall|i: int| 0 <= i < self.users.len() ==> #[trigger] self.users[i].id == i + 1
        &&& forall|i: int| 0 <= i < self.moods.len() ==> #[trigger] self.moods[i].id == i + 1
        &&& forall|i: int|
            0 <= i < self.activities.len() ==> #[trigger] self.activities[i].id == i + 1
        &&& forall|i: int| 0 <= i < self.entries.len() ==> #[trigger] self.entries[i].id == i + 1
        &&& forall|i: int| 0 <= i < self.links.len() ==> #[trigger] self.links[i].id == i + 1
    }

    pub open spec fn within_limit(self) -> bool {
        &&& self.row_limit <= MAX_ROWS
        &&& self.users.len() <= self.row_limit
        &&& self.moods.len() <= self.row_limit
        &&& self.activities.len() <= self.row_limit
        &&& self.entries.len() <= self.row_limit
        &&& self.links.len() <= self.row_limit
    }

    /// Every reference points at an existing row of the same owner.
    pub open spec fn references_hold(self) -> bool {
        &&& forall|i: int|
            0 <= i < self.moods.len() ==> self.has_user(#[trigger] self.moods[i].user_id as int)
        &&& forall|i: int|
            0 <= i < self.activities.len() ==> self.has_user(
                #[trigger] self.activities[i].user_id as int,
            )
        &&& forall|i: int|
            0 <= i < self.entries.len() ==> {
                let e = #[trigger] self.entries[i];
                self.has_user(e.user_id as int) && self.mood_owned(
                    e.user_id as int,
                    e.mood_id as int,
                )
            }
        &&& forall|k: int|
            0 <= k < self.links.len() ==> {
                let l = #[trigger] self.links[k];
                1 <= l.entry_id <= self.entries.len() && self.activity_owned(
                    self.entries[l.entry_id - 1].user_id as int,
                    l.activity_id as int,
                )
            }
    }

    pub open spec fn emails_unique(self) -> bool {
        forall|i: int, j: int|
            0 <= i < j < self.users.len() ==> #[trigger] self.users[i].email@
                != #[trigger] self.users[j].email@
    }

    pub open spec fn wf(self) -> bool {
        &&& self.ids_sequential()
        &&& self.within_limit()
        &&& self.references_hold()
        &&& self.emails_unique()
    }
}

/// The journal's storage: one table per kind of row.
pub struct Store {
    users: Vec<User>,
    moods: Vec<Mood>,
    activities: Vec<Activity>,
    entries: Vec<Entry>,
    links: Vec<EntryActivity>,
    row_limit: usize,
}

impl View for Store {
    type V = StoreView;

    closed spec fn view(&self) -> StoreView {
        StoreView {
            users: self.users@,
            moods: self.moods@,
            activities: self.activities@,
            entries: self.entries@,
            links: self.links@,
            row_limit: self.row_limit as nat,
        }
    }
}

impl Store {
    pub open spec fn wf(&self) -> bool {
        self@.wf()
    }

    /// An empty store whose tables can grow as far as ids allow.
    pub fn new() -> (r: Store)
        ensures
            r.wf(),
            r@.row_limit == MAX_ROWS,
            r@.users.len() == 0,
            r@.moods.len() == 0,
            r@.activities.len() == 0,
            r@.entries.len() == 0,
            r@.links.len() == 0,
    {
        Store::with_row_limit(MAX_ROWS)
    }

    /// An empty store in which no table holds more than `limit` rows; a write
    /// past that fails as a storage fault would.
    pub fn with_row_limit(limit: usize) -> (r: Store)
        requires
            limit <= MAX_ROWS,
        ensures
            r.wf(),
            r@.row_limit == limit,
            r@.users.len() == 0,
            r@.moods.len() == 0,
            r@.activities.len() == 0,
            r@.entries.len() == 0,
            r@.links.len() == 0,
    {
        Store {
            users: Vec::new(),
            moods: Vec::new(),
            activities: Vec::new(),
            entries: Vec::new(),
            links: Vec::new(),
            row_limit: limit,
        }
    }
}

impl Store {
    pub fn users(&self) -> (r: &Vec<User>)
        ensures
            r@ == self@.users,
    {
        &self.users
    }

    pub fn moods(&self) -> (r: &Vec<Mood>)
        ensures
            r@ == self@.moods,
    {
        &self.moods
    }

    pub fn activities(&self) -> (r: &Vec<Activity>)
        ensures
            r@ == self@.activities,
    {
        &self.activities
    }

    pub fn entries(&self) -> (r: &Vec<Entry>)
        ensures
            r@ == self@.entries,
    {
        &self.entries
    }

    pub fn entry_activities(&self) -> (r: &Vec<EntryActivity>)
        ensures
            r@ == self@.links,
    {
        &self.links
    }

    pub fn row_limit(&self) -> (r: usize)
        ensures
            r == self@.row_limit,
    {
        self.row_limit
    }

    /// Whether `user_id` names a registered account.
    pub fn has_user(&self, user_id: i32) -> (r: bool)
        ensures
            r == self@.has_user(user_id as int),
    {
        1 <= user_id && (user_id as usize) <= self.users.len()
    }

    /// Whether mood `mood_id` exists and belongs to user `user_id`.
    pub fn owns_mood(&self, user_id: i32, mood_id: i32) -> (r: bool)
        ensures
            r == self@.mood_owned(user_id as int, mood_id as int),
    {
        1 <= mood_id && (mood_id as usize) <= self.moods.len() && self.moods[(mood_id - 1) as usize].user_id
            == user_id
    }

    /// Whether activity `activity_id` exists and belongs to user `user_id`.
    pub fn owns_activity(&self, user_id: i32, activity_id: i32) -> (r: bool)
        ensures
            r == self@.activity_owned(user_id as int, activity_id as int),
    {
        1 <= activity_id && (activity_id as usize) <= self.activities.len()
            && self.activities[(activity_id - 1) as usize].user_id == user_id
    }

    /// Whether entry `entry_id` exists and belongs to user `user_id`.
    pub fn owns_entry(&self, user_id: i32, entry_id: i32) -> (r: bool)
        ensures
            r == self@.entry_owned(user_id as int, entry_id as int),
    {
        1 <= entry_id && (entry_id as usize) <= self.entries.len()
            && self.entries[(entry_id - 1) as usize].user_id == user_id
    }

    /// Appends a user row under the next id.
    pub(crate) fn push_user(&mut self, email: String, hash: String) -> (id: i32)
        requires
            old(self).wf(),
            !old(self)@.email_taken(email@),
            old(self)@.users.len() < old(self)@.row_limit,
        ensures
            final(self).wf(),
            id == old(self)@.users.len() + 1,
            final(self)@ == (StoreView {
                users: old(self)@.users.push(User { id, email, hash }),
                ..old(self)@
            }),
    {
        let id = (self.users.len() + 1) as i32;
        let ghost before = self@;
        self.users.push(User { id, email, hash });
        proof {
            assert forall|i: int| 0 <= i < before.users.len() implies #[trigger] self@.users[i].email@
                != email@ by {
                if self@.users[i].email@ == email@ {
                    assert(before.users[i].email@ == email@);
                }
            }
            lemma_more_users_keep_references(before, self@);
        }
        id
    }

    /// Appends a mood row of an existing user under the next id.
    pub(crate) fn push_mood(&mut self, new_mood: NewMood) -> (id: i32)
        requires
            old(self).wf(),
            old(self)@.has_user(new_mood.user_id as int),
            old(self)@.moods.len() < old(self)@.row_limit,
        ensures
            final(self).wf(),
            id == old(self)@.moods.len() + 1,
            final(self)@ == (StoreView {
                moods: old(self)@.moods.push(
                    Mood {
                        id,
                        user_id: new_mood.user_id,
                        name: new_mood.name,
                        value: new_mood.value,
                        icon: new_mood.icon,
                    },
                ),
                ..old(self)@
            }),
    {
        let id = (self.moods.len() + 1) as i32;
        let ghost before = self@;
        let NewMood { user_id, name, value, icon } = new_mood;
        self.moods.push(Mood { id, user_id, name, value, icon });
        proof {
            assert forall|i: int| 0 <= i < self@.entries.len() implies self@.mood_owned(
                #[trigger] self@.entries[i].user_id as int,
                self@.entries[i].mood_id as int,
            ) by {
                assert(before.mood_owned(
                    before.entries[i].user_id as int,
                    before.entries[i].mood_id as int,
                ));
            }
        }
        id
    }

    /// Appends an activity row of an existing user under the next id.
    pub(crate) fn push_activity(&mut self, user_id: i32, name: String, icon: String) -> (id: i32)
        requires
            old(self).wf(),
            old(self)@.has_user(user_id as int),
            old(self)@.activities.len() < old(self)@.row_limit,
        ensures
            final(self).wf(),
            id == old(self)@.activities.len() + 1,
            final(self)@ == (StoreView {
                activities: old(self)@.activities.push(Activity { id, user_id, name, icon }),
                ..old(self)@
            }),
    {
        let id = (self.activities.len() + 1) as i32;
        let ghost before = self@;
        self.activities.push(Activity { id, user_id, name, icon });
        proof {
            assert forall|k: int| 0 <= k < self@.links.len() implies {
                let l = #[trigger] self@.links[k];
                1 <= l.entry_id <= self@.entries.len() && self@.activity_owned(
                    self@.entries[l.entry_id - 1].user_id as int,
                    l.activity_id as int,
                )
            } by {
                let l = before.links[k];
                assert(before.activity_owned(
                    before.entries[l.entry_id - 1].user_id as int,
                    l.activity_id as int,
                ));
            }
        }
        id
    }

    /// Appends an entry row whose mood belongs to its owner, under the next id;
    /// an entry given no moment is stamped with `now`.
    pub(crate) fn push_entry(&mut self, new_entry: NewEntry, now: Timestamp) -> (id: i32)
        requires
            old(self).wf(),
            old(self)@.has_user(new_entry.user_id as int),
            old(self)@.mood_owned(new_entry.user_id as int, new_entry.mood_id as int),
            old(self)@.entries.len() < old(self)@.row_limit,
        ensures
            final(self).wf(),
            id == old(self)@.entries.len() + 1,
            final(self)@ == (StoreView {
                entries: old(self)@.entries.push(
                    Entry {
                        id,
                        user_id: new_entry.user_id,
                        mood_id: new_entry.mood_id,
                        desc: new_entry.desc,
                        created_at: stamp(new_entry.created_at, now),
                    },
                ),
                ..old(self)@
            }),
    {
        let id = (self.entries.len() + 1) as i32;
        let ghost before = self@;
        let NewEntry { user_id, mood_id, desc, created_at } = new_entry;
        let created_at = match created_at {
            Some(t) => t,
            None => now,
        };
        self.entries.push(Entry { id, user_id, mood_id, desc, created_at });
        proof {
            assert forall|k: int| 0 <= k < self@.links.len() implies {
                let l = #[trigger] self@.links[k];
                1 <= l.entry_id <= self@.entries.len() && self@.activity_owned(
                    self@.entries[l.entry_id - 1].user_id as int,
                    l.activity_id as int,
                )
            } by {
                let l = before.links[k];
                assert(before.links[k] == self@.links[k]);
                assert(self@.entries[l.entry_id - 1] == before.entries[l.entry_id - 1]);
            }
        }
        id
    }

    /// Appends a link from an entry to an activity of the entry's owner.
    pub(crate) fn push_link(&mut self, new_link: NewEntryActivity) -> (id: i32)
        requires
            old(self).wf(),
            1 <= new_link.entry_id <= old(self)@.entries.len(),
            old(self)@.activity_owned(
                old(self)@.entries[new_link.entry_id - 1].user_id as int,
                new_link.activity_id as int,
            ),
            old(self)@.links.len() < old(self)@.row_limit,
        ensures
            final(self).wf(),
            id == old(self)@.links.len() + 1,
            final(self)@ == (StoreView {
                links: old(self)@.links.push(
                    EntryActivity {
                        id,
                        entry_id: new_link.entry_id,
                        activity_id: new_link.activity_id,
                    },
                ),
                ..old(self)@
            }),
    {
        let id = (self.links.len() + 1) as i32;
        self.links.push(EntryActivity { id, entry_id: new_link.entry_id, activity_id: new_link.activity_id });
        id
    }

    /// Drops the entries and links stored after the given lengths, which the
    /// tables had when a unit of work began.
    pub(crate) fn roll_back(&mut self, entries_len: usize, links_len: usize)
        requires
            old(self).wf(),
            entries_len <= old(self)@.entries.len(),
            links_len <= old(self)@.links.len(),
            forall|k: int| 0 <= k < links_len ==> #[trigger] old(self)@.links[k].entry_id <= entries_len,
        ensures
            final(self).wf(),
            final(self)@ == (StoreView {
                entries: old(self)@.entries.subrange(0, entries_len as int),
                links: old(self)@.links.subrange(0, links_len as int),
                ..old(self)@
            }),
    {
        let ghost before = self@;
        self.links.truncate(links_len);
        self.entries.truncate(entries_len);
        proof {
            assert forall|k: int| 0 <= k < self@.links.len() implies {
                let l = #[trigger] self@.links[k];
                1 <= l.entry_id <= self@.entries.len() && self@.activity_owned(
                    self@.entries[l.entry_id - 1].user_id as int,
                    l.activity_id as int,
                )
            } by {
                assert(self@.links[k] == before.links[k]);
                let l = before.links[k];
                assert(self@.entries[l.entry_id - 1] == before.entries[l.entry_id - 1]);
            }
        }
    }
}

impl StoreView {
    spec fn users_checked(self, n: int) -> bool {
        &&& forall|k: int| 0 <= k < n ==> #[trigger] self.users[k].id == k + 1
        &&& forall|a: int, b: int|
            0 <= a < b < n ==> #[trigger] self.users[a].email@ != #[trigger] self.users[b].email@
    }

    spec fn moods_checked(self, n: int) -> bool {
        &&& forall|k: int| 0 <= k < n ==> #[trigger] self.moods[k].id == k + 1
        &&& forall|k: int| 0 <= k < n ==> self.has_user(#[trigger] self.moods[k].user_id as int)
    }

    spec fn activities_checked(self, n: int) -> bool {
        &&& forall|k: int| 0 <= k < n ==> #[trigger] self.activities[k].id == k + 1
        &&& forall|k: int|
            0 <= k < n ==> self.has_user(#[trigger] self.activities[k].user_id as int)
    }

    spec fn entries_checked(self, n: int) -> bool {
        &&& forall|k: int| 0 <= k < n ==> #[trigger] self.entries[k].id == k + 1
        &&& forall|k: int|
            0 <= k < n ==> {
                let e = #[trigger] self.entries[k];
                self.has_user(e.user_id as int) && self.mood_owned(
                    e.user_id as int,
                    e.mood_id as int,
                )
            }
    }

    spec fn links_checked(self, n: int) -> bool {
        &&& forall|k: int| 0 <= k < n ==> #[trigger] self.links[k].id == k + 1
        &&& forall|k: int|
            0 <= k < n ==> {
                let l = #[trigger] self.links[k];
                1 <= l.entry_id <= self.entries.len() && self.activity_owned(
                    self.entries[l.entry_id - 1].user_id as int,
                    l.activity_id as int,
                )
            }
    }
}

impl Store {
    /// A store holding the given tables, if they form a well-formed journal:
    /// ids in order from 1, references to rows of the same owner, distinct
    /// emails, and no table over `MAX_ROWS` rows.
    pub fn from_tables(
        users: Vec<User>,
        moods: Vec<Mood>,
        activities: Vec<Activity>,
        entries: Vec<Entry>,
        links: Vec<EntryActivity>,
    ) -> (r: Option<Store>)
        ensures
            ({
                let v = StoreView {
                    users: users@,
                    moods: moods@,
                    activities: activities@,
                    entries: entries@,
                    links: links@,
                    row_limit: MAX_ROWS as nat,
                };
                match r {
                    Some(s) => s@ == v && s.wf(),
                    None => !v.wf(),
                }
            }),
    {
        let s = Store { users, moods, activities, entries, links, row_limit: MAX_ROWS };
        if s.is_well_formed() {
            Some(s)
        } else {
            None
        }
    }

    /// Checks every clause of the store's invariant.
    fn is_well_formed(&self) -> (r: bool)
        ensures
            r == self@.wf(),
    {
        let limit = self.row_limit;
        if limit > MAX_ROWS || self.users.len() > limit || self.moods.len() > limit
            || self.activities.len() > limit || self.entries.len() > limit || self.links.len() > limit {
            return false;
        }
        let ghost v = self@;
        assert(v.within_limit());
        let mut i: usize = 0;
        while i < self.users.len()
            invariant
                v == self@,
                v.within_limit(),
                0 <= i <= self.users.len(),
                v.users_checked(i as int),
            decreases self.users.len() - i,
        {
            if self.users[i].id as usize != i + 1 || self.users[i].id < 1 {
                return false;
            }
            let mut j: usize = 0;
            while j < i
                invariant
                    v == self@,
                    0 <= j <= i < self.users.len(),
                    self@.users[i as int].id == i + 1,
                    v.users_checked(i as int),
                    forall|k: int|
                        0 <= k < j ==> #[trigger] self@.users[k].email@ != self@.users[i as int].email@,
                decreases i - j,
            {
                if self.users[j].email == self.users[i].email {
                    assert(self@.users[j as int].email@ == self@.users[i as int].email@);
                    return false;
                }
                j = j + 1;
            }
            i = i + 1;
        }
        i = 0;
        while i < self.moods.len()
            invariant
                v == self@,
                v.within_limit(),
                v.users_checked(v.users.len() as int),
                0 <= i <= self.moods.len(),
                v.moods_checked(i as int),
            decreases self.moods.len() - i,
        {
            let m = &self.moods[i];
            if m.id as usize != i + 1 || m.id < 1 || !self.has_user(m.user_id) {
                return false;
            }
            i = i + 1;
        }
        i = 0;
        while i < self.activities.len()
            invariant
                v == self@,
                v.within_limit(),
                v.users_checked(v.users.len() as int),
                v.moods_checked(v.moods.len() as int),
                0 <= i <= self.activities.len(),
                v.activities_checked(i as int),
            decreases self.activities.len() - i,
        {
            let a = &self.activities[i];
            if a.id as usize != i + 1 || a.id < 1 || !self.has_user(a.user_id) {
                return false;
            }
            i = i + 1;
        }
        i = 0;
        while i < self.entries.len()
            invariant
                v == self@,
                v.within_limit(),
                v.users_checked(v.users.len() as int),
                v.moods_checked(v.moods.len() as int),
                v.activities_checked(v.activities.len() as int),
                0 <= i <= self.entries.len(),
                v.entries_checked(i as int),
            decreases self.entries.len() - i,
        {
            let e = &self.entries[i];
            if e.id as usize != i + 1 || e.id < 1 || !self.has_user(e.user_id) || !self.owns_mood(
                e.user_id,
                e.mood_id,
            ) {
                return false;
            }
            i = i + 1;
        }
        i = 0;
        while i < self.links.len()
            invariant
                v == self@,
                v.within_limit(),
                v.users_checked(v.users.len() as int),
                v.moods_checked(v.moods.len() as int),
                v.activities_checked(v.activities.len() as int),
                v.entries_checked(v.entries.len() as int),
                0 <= i <= self.links.len(),
                v.links_checked(i as int),
            decreases self.links.len() - i,
        {
            let l = &self.links[i];
            if l.id as usize != i + 1 || l.id < 1 || l.entry_id < 1 || (l.entry_id as usize)
                > self.entries.len() {
                return false;
            }
            let owner = self.entries[(l.entry_id - 1) as usize].user_id;
            if !self.owns_activity(owner, l.activity_id) {
                return false;
            }
            i = i + 1;
        }
        true
    }
}

/// Adding users leaves every reference of the other tables valid.
proof fn lemma_more_users_keep_references(before: StoreView, after: StoreView)
    requires
        before.references_hold(),
        after.users.len() >= before.users.len(),
        after.moods == before.moods,
        after.activities == before.activities,
        after.entries == before.entries,
        after.links == before.links,
    ensures
        after.references_hold(),
{
    assert forall|i: int| 0 <= i < after.moods.len() implies after.has_user(
        #[trigger] after.moods[i].user_id as int,
    ) by {
        assert(before.has_user(before.moods[i].user_id as int));
    }
    assert forall|i: int| 0 <= i < after.activities.len() implies after.has_user(
        #[trigger] after.activities[i].user_id as int,
    ) by {
        assert(before.has_user(before.activities[i].user_id as int));
    }
    assert forall|i: int| 0 <= i < after.entries.len() implies {
        let e = #[trigger] after.entries[i];
        after.has_user(e.user_id as int) && after.mood_owned(e.user_id as int, e.mood_id as int)
    } by {
        let e = before.entries[i];
        assert(before.has_user(e.user_id as int));
    }
}

} // verus!
