use crate::errors::ServiceError;
use crate::models::{
    Activity, Entry, EntryActivity, Mood, NewEntry, NewEntryActivity, SlimUser, Timestamp,
};
use crate::store::{stamp, Store, StoreView};
use vstd::prelude::*;

verus! {

/// An entry as clients see it: its mood and its activities written out in full.
#[derive(Debug)]
pub struct BigEntry {
    pub id: i32,
    pub user_id: i32,
    pub mood: Mood,
    pub desc: Option<String>,
    pub created_at: Timestamp,
    pub activities: Vec<Activity>,
}

/// The fields of a new entry, as the client sends them.
#[derive(Debug)]
pub struct EntryData {
    pub mood_id: i32,
    pub desc: Option<String>,
    pub created_at: Option<Timestamp>,
    pub activity_ids: Vec<i32>,
}

/// `a` is listed before `b`: the later moment first, and of two entries made
/// at the same moment the one stored last.
pub open spec fn entry_precedes(a: Entry, b: Entry) -> bool {
    a.created_at > b.created_at || (a.created_at == b.created_at && a.id > b.id)
}

impl StoreView {
    /// Some link ties entry `eid` to activity `aid`.
    pub open spec fn is_linked(self, eid: int, aid: int) -> bool {
        exists|k: int|
            0 <= k < self.links.len() && (#[trigger] self.links[k]).entry_id == eid
                && self.links[k].activity_id == aid
    }

    pub open spec fn linked_to(self, eid: int) -> spec_fn(Activity) -> bool {
        |a: Activity| self.is_linked(eid, a.id as int)
    }

    /// The activities linked to entry `eid`, each once, in the order they were
    /// stored.
    pub open spec fn linked_activities(self, eid: int) -> Seq<Activity> {
        self.activities.filter(self.linked_to(eid))
    }

    /// `b` is the stored entry `b.id` with its mood and activities written out.
    pub open spec fn assembles(self, b: BigEntry) -> bool {
        &&& 1 <= b.id <= self.entries.len()
        &&& {
            let e = self.entries[b.id - 1];
            &&& b.user_id == e.user_id
            &&& b.mood == self.moods[e.mood_id - 1]
            &&& b.desc == e.desc
            &&& b.created_at == e.created_at
            &&& b.activities@ == self.linked_activities(b.id as int)
        }
    }

    /// Every id of `ids` names an activity of user `u`.
    pub open spec fn activities_usable(self, u: int, ids: Seq<i32>) -> bool {
        forall|k: int| 0 <= k < ids.len() ==> self.activity_owned(u, #[trigger] ids[k] as int)
    }

    /// The tables can take one more entry and `n` more links.
    pub open spec fn has_room_for_entry(self, n: int) -> bool {
        self.entries.len() < self.row_limit && self.links.len() + n <= self.row_limit
    }

    /// The links that tie entry `eid` to each id of `ids` in turn, under the
    /// next ids of the link table.
    pub open spec fn links_for(self, eid: int, ids: Seq<i32>) -> Seq<EntryActivity> {
        Seq::new(
            ids.len(),
            |k: int|
                EntryActivity {
                    id: (self.links.len() + 1 + k) as i32,
                    entry_id: eid as i32,
                    activity_id: ids[k],
                },
        )
    }

    /// `r` lists exactly the entries of user `u`, newest first, each assembled.
    pub open spec fn lists_entries_of(self, u: int, r: Seq<BigEntry>) -> bool {
        &&& forall|i: int|
            0 <= i < r.len() ==> self.assembles(#[trigger] r[i]) && self.entries[r[i].id
                - 1].user_id == u
        &&& forall|k: int|
            0 <= k < self.entries.len() && #[trigger] self.entries[k].user_id == u ==> exists|
                i: int,
            |
                0 <= i < r.len() && #[trigger] r[i].id == k + 1
        &&& forall|i: int, j: int|
            0 <= i < j < r.len() ==> entry_precedes(
                self.entries[#[trigger] r[i].id - 1],
                self.entries[#[trigger] r[j].id - 1],
            )
    }
}

/// Whether some link ties the entry to the activity.
fn is_linked(store: &Store, entry_id: i32, activity_id: i32) -> (r: bool)
    ensures
        r == store@.is_linked(entry_id as int, activity_id as int),
{
    let links = store.entry_activities();
    let mut k: usize = 0;
    while k < links.len()
        invariant
            links@ == store@.links,
            0 <= k <= links.len(),
            forall|m: int|
                0 <= m < k ==> !((#[trigger] links@[m]).entry_id == entry_id
                    && links@[m].activity_id == activity_id),
        decreases links.len() - k,
    {
        if links[k].entry_id == entry_id && links[k].activity_id == activity_id {
            return true;
        }
        k = k + 1;
    }
    false
}

/// The stored entry written out with its mood and linked activities.
fn assemble(store: &Store, entry: &Entry) -> (r: BigEntry)
    requires
        store.wf(),
        1 <= entry.id <= store@.entries.len(),
        *entry == store@.entries[entry.id - 1],
    ensures
        r.id == entry.id,
        store@.assembles(r),
{
    proof {
        assert(store@.entries[entry.id - 1] == *entry);
    }
    let mood = store.moods()[(entry.mood_id - 1) as usize].clone();
    let acts = store.activities();
    let ghost pred = store@.linked_to(entry.id as int);
    let mut activities: Vec<Activity> = Vec::new();
    let mut i: usize = 0;
    while i < acts.len()
        invariant
            acts@ == store@.activities,
            0 <= i <= acts.len(),
            pred == store@.linked_to(entry.id as int),
            activities@ == acts@.take(i as int).filter(pred),
        decreases acts.len() - i,
    {
        proof {
            assert(acts@.take(i + 1) == acts@.take(i as int).push(acts@[i as int]));
            acts@.take(i as int).lemma_filter_push(acts@[i as int], pred);
        }
        if is_linked(store, entry.id, acts[i].id) {
            activities.push(acts[i].clone());
        }
        i = i + 1;
    }
    assert(acts@.take(acts.len() as int) == acts@);
    let desc = match &entry.desc {
        Some(d) => Some(d.clone()),
        None => None,
    };
    BigEntry {
        id: entry.id,
        user_id: entry.user_id,
        mood,
        desc,
        created_at: entry.created_at,
        activities,
    }
}

/// The logged-in user's entry `id`, written out; an entry of another user is
/// not found, exactly as a missing one.
pub fn get_entry_by_id(id: i32, logged_user: &SlimUser, store: &Store) -> (r: Result<
    BigEntry,
    ServiceError,
>)
    requires
        store.wf(),
    ensures
        store@.entry_owned(logged_user.id as int, id as int) ==> r is Ok && r->Ok_0.id == id
            && store@.assembles(r->Ok_0),
        !store@.entry_owned(logged_user.id as int, id as int) ==> r == Err::<
            BigEntry,
            ServiceError,
        >(ServiceError::NotFound),
{
    if !store.owns_entry(logged_user.id, id) {
        return Err(ServiceError::NotFound);
    }
    Ok(assemble(store, &store.entries()[(id - 1) as usize]))
}

/// The entries of user `u`, newest first.
fn sorted_entries_of(store: &Store, u: i32) -> (r: Vec<Entry>)
    requires
        store.wf(),
    ensures
        forall|i: int|
            0 <= i < r.len() ==> 1 <= #[trigger] r@[i].id <= store@.entries.len() && r@[i]
                == store@.entries[r@[i].id - 1] && r@[i].user_id == u,
        forall|k: int|
            0 <= k < store@.entries.len() && #[trigger] store@.entries[k].user_id == u
                ==> r@.contains(store@.entries[k]),
        forall|a: int, b: int|
            0 <= a < b < r.len() ==> entry_precedes(#[trigger] r@[a], #[trigger] r@[b]),
{
    let entries = store.entries();
    let mut r: Vec<Entry> = Vec::new();
    let mut j: usize = 0;
    while j < entries.len()
        invariant
            store.wf(),
            entries@ == store@.entries,
            0 <= j <= entries.len(),
            forall|i: int|
                0 <= i < r.len() ==> 1 <= #[trigger] r@[i].id <= j && r@[i] == entries@[r@[i].id
                    - 1] && r@[i].user_id == u,
            forall|k: int|
                0 <= k < j && #[trigger] entries@[k].user_id == u ==> r@.contains(entries@[k]),
            forall|a: int, b: int|
                0 <= a < b < r.len() ==> entry_precedes(#[trigger] r@[a], #[trigger] r@[b]),
        decreases entries.len() - j,
    {
        if entries[j].user_id == u {
            let x = entries[j].clone();
            assert(x.id == j + 1);
            let mut p: usize = 0;
            while p < r.len() && r[p].created_at > x.created_at
                invariant
                    0 <= p <= r.len(),
                    forall|i: int| 0 <= i < p ==> #[trigger] r@[i].created_at > x.created_at,
                decreases r.len() - p,
            {
                p = p + 1;
            }
            let ghost before = r@;
            proof {
                before.insert_ensures(p as int, x);
            }
            r.insert(p, x);
            proof {
                assert forall|k: int|
                    0 <= k <= j && #[trigger] entries@[k].user_id == u implies r@.contains(
                    entries@[k],
                ) by {
                    if k == j {
                        assert(r@[p as int] == entries@[k]);
                    } else {
                        assert(before.contains(entries@[k]));
                        let i = choose|i: int| 0 <= i < before.len() && before[i] == entries@[k];
                        if i < p {
                            assert(r@[i] == entries@[k]);
                        } else {
                            assert(r@[i + 1] == entries@[k]);
                        }
                    }
                }
                assert forall|a: int, b: int| 0 <= a < b < r.len() implies entry_precedes(
                    #[trigger] r@[a],
                    #[trigger] r@[b],
                ) by {
                    if b < p {
                        assert(r@[a] == before[a] && r@[b] == before[b]);
                    } else if b == p {
                        assert(r@[a] == before[a]);
                    } else if a < p {
                        assert(r@[a] == before[a] && r@[b] == before[b - 1]);
                    } else if a == p {
                        assert(r@[b] == before[b - 1]);
                        assert(before[p as int].created_at <= x.created_at);
                        if p < b - 1 {
                            assert(entry_precedes(before[p as int], before[b - 1]));
                        }
                    } else {
                        assert(r@[a] == before[a - 1] && r@[b] == before[b - 1]);
                    }
                }
                assert forall|i: int| 0 <= i < r.len() implies 1 <= #[trigger] r@[i].id <= j + 1
                    && r@[i] == entries@[r@[i].id - 1] && r@[i].user_id == u by {
                    if i < p {
                        assert(r@[i] == before[i]);
                    } else if i > p {
                        assert(r@[i] == before[i - 1]);
                    }
                }
            }
        }
        j = j + 1;
    }
    r
}

/// The logged-in user's entries, newest first, each with its mood and
/// activities written out.
pub fn get_entrys(logged_user: &SlimUser, store: &Store) -> (r: Result<Vec<BigEntry>, ServiceError>)
    requires
        store.wf(),
    ensures
        !store@.has_user(logged_user.id as int) ==> r == Err::<Vec<BigEntry>, ServiceError>(
            ServiceError::Unauthorized,
        ),
        store@.has_user(logged_user.id as int) ==> r is Ok && store@.lists_entries_of(
            logged_user.id as int,
            r->Ok_0@,
        ),
{
    if !store.has_user(logged_user.id) {
        return Err(ServiceError::Unauthorized);
    }
    let u = logged_user.id;
    let sorted = sorted_entries_of(store, u);
    let mut r: Vec<BigEntry> = Vec::new();
    let mut i: usize = 0;
    while i < sorted.len()
        invariant
            store.wf(),
            0 <= i <= sorted.len(),
            r.len() == i,
            forall|k: int|
                0 <= k < sorted.len() ==> 1 <= #[trigger] sorted@[k].id <= store@.entries.len()
                    && sorted@[k] == store@.entries[sorted@[k].id - 1] && sorted@[k].user_id == u,
            forall|k: int|
                0 <= k < i ==> store@.assembles(#[trigger] r@[k]) && r@[k].id == sorted@[k].id,
        decreases sorted.len() - i,
    {
        let b = assemble(store, &sorted[i]);
        r.push(b);
        i = i + 1;
    }
    proof {
        assert forall|k: int|
            0 <= k < store@.entries.len() && #[trigger] store@.entries[k].user_id == u implies exists|
            i: int,
        | 0 <= i < r.len() && #[trigger] r@[i].id == k + 1 by {
            assert(sorted@.contains(store@.entries[k]));
            let i = choose|i: int| 0 <= i < sorted.len() && sorted@[i] == store@.entries[k];
            assert(r@[i].id == k + 1);
        }
        assert forall|a: int, b: int| 0 <= a < b < r.len() implies entry_precedes(
            store@.entries[#[trigger] r@[a].id - 1],
            store@.entries[#[trigger] r@[b].id - 1],
        ) by {
            assert(entry_precedes(sorted@[a], sorted@[b]));
        }
    }
    Ok(r)
}

/// Stores an entry of the logged-in user with one link per activity id, in
/// the order given (a repeated id gives a repeated link). The mood and every
/// activity must be the user's own. The entry and its links are stored
/// together or not at all.
pub fn create_entry(
    logged_user: &SlimUser,
    entry_data: EntryData,
    now: Timestamp,
    store: &mut Store,
) -> (r: Result<(Entry, Vec<EntryActivity>), ServiceError>)
    requires
        old(store).wf(),
    ensures
        final(store).wf(),
        r is Err ==> final(store)@ == old(store)@,
        !old(store)@.mood_owned(logged_user.id as int, entry_data.mood_id as int) ==> r == Err::<
            (Entry, Vec<EntryActivity>),
            ServiceError,
        >(ServiceError::NotFound),
        old(store)@.mood_owned(logged_user.id as int, entry_data.mood_id as int) && !old(
            store,
        )@.activities_usable(logged_user.id as int, entry_data.activity_ids@) ==> r == Err::<
            (Entry, Vec<EntryActivity>),
            ServiceError,
        >(ServiceError::BadRequest),
        old(store)@.mood_owned(logged_user.id as int, entry_data.mood_id as int) && old(
            store,
        )@.activities_usable(logged_user.id as int, entry_data.activity_ids@) && !old(
            store,
        )@.has_room_for_entry(entry_data.activity_ids@.len() as int) ==> r == Err::<
            (Entry, Vec<EntryActivity>),
            ServiceError,
        >(ServiceError::InternalServerError),
        old(store)@.mood_owned(logged_user.id as int, entry_data.mood_id as int) && old(
            store,
        )@.activities_usable(logged_user.id as int, entry_data.activity_ids@) && old(
            store,
        )@.has_room_for_entry(entry_data.activity_ids@.len() as int) ==> r is Ok && {
            let e = r->Ok_0.0;
            let links = r->Ok_0.1@;
            &&& e == Entry {
                id: (old(store)@.entries.len() + 1) as i32,
                user_id: logged_user.id,
                mood_id: entry_data.mood_id,
                desc: entry_data.desc,
                created_at: stamp(entry_data.created_at, now),
            }
            &&& links == old(store)@.links_for(e.id as int, entry_data.activity_ids@)
            &&& final(store)@ == (StoreView {
                entries: old(store)@.entries.push(e),
                links: old(store)@.links + links,
                ..old(store)@
            })
        },
{
    let u = logged_user.id;
    let EntryData { mood_id, desc, created_at, activity_ids } = entry_data;
    if !store.owns_mood(u, mood_id) {
        return Err(ServiceError::NotFound);
    }
    let mut k: usize = 0;
    while k < activity_ids.len()
        invariant
            store.wf(),
            store@ == old(store)@,
            store@.mood_owned(u as int, mood_id as int),
            u == logged_user.id,
            mood_id == entry_data.mood_id,
            activity_ids == entry_data.activity_ids,
            0 <= k <= activity_ids.len(),
            forall|m: int|
                0 <= m < k ==> store@.activity_owned(u as int, #[trigger] activity_ids@[m] as int),
        decreases activity_ids.len() - k,
    {
        if !store.owns_activity(u, activity_ids[k]) {
            return Err(ServiceError::BadRequest);
        }
        k = k + 1;
    }
    if store.entries().len() >= store.row_limit() {
        return Err(ServiceError::InternalServerError);
    }
    let ghost start = store@;
    let entries_len = store.entries().len();
    let links_len = store.entry_activities().len();
    let ghost time = stamp(created_at, now);
    let new_entry = NewEntry { user_id: u, mood_id, desc, created_at };
    let entry_id = store.push_entry(new_entry, now);
    let entry = store.entries()[(entry_id - 1) as usize].clone();
    let ghost planned = start.links_for(entry_id as int, activity_ids@);
    let mut links: Vec<EntryActivity> = Vec::new();
    let mut k: usize = 0;
    while k < activity_ids.len()
        invariant
            store.wf(),
            0 <= k <= activity_ids.len(),
            entries_len == start.entries.len(),
            links_len == start.links.len(),
            entry_id == entries_len + 1,
            start.wf(),
            start == old(store)@,
            start.mood_owned(u as int, mood_id as int),
            u == logged_user.id,
            mood_id == entry_data.mood_id,
            activity_ids == entry_data.activity_ids,
            start.activities_usable(u as int, activity_ids@),
            entry == (Entry { id: entry_id, user_id: u, mood_id, desc: entry_data.desc, created_at: time }),
            planned == start.links_for(entry_id as int, activity_ids@),
            links@ == planned.take(k as int),
            store@ == (StoreView {
                entries: start.entries.push(entry),
                links: start.links + planned.take(k as int),
                ..start
            }),
        decreases activity_ids.len() - k,
    {
        if store.entry_activities().len() >= store.row_limit() {
            proof {
                assert forall|m: int| 0 <= m < links_len implies #[trigger] store@.links[m].entry_id
                    <= entries_len by {
                    assert(store@.links[m] == start.links[m]);
                }
            }
            store.roll_back(entries_len, links_len);
            proof {
                assert(store@.entries =~= start.entries);
                assert(store@.links =~= start.links);
            }
            return Err(ServiceError::InternalServerError);
        }
        let aid = activity_ids[k];
        proof {
            assert(start.activity_owned(u as int, activity_ids@[k as int] as int));
        }
        let link_id = store.push_link(NewEntryActivity { entry_id, activity_id: aid });
        links.push(EntryActivity { id: link_id, entry_id, activity_id: aid });
        proof {
            assert(planned.take(k + 1) =~= planned.take(k as int).push(planned[k as int]));
            assert(store@.links =~= start.links + planned.take(k + 1));
        }
        k = k + 1;
    }
    proof {
        assert(planned.take(k as int) =~= planned);
    }
    Ok((entry, links))
}

} // verus!
