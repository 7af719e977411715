use crate::errors::ServiceError;
use crate::models::{Activity, Mood, NewMood, SlimUser};
use crate::store::{activity_owner_is, Store, StoreView};
use vstd::prelude::*;

verus! {

/// The fields of a new mood, as the client sends them.
pub struct MoodData {
    pub name: String,
    pub icon: String,
    pub value: i32,
}

/// The fields of a new activity, as the client sends them.
pub struct ActivityData {
    pub name: String,
    pub icon: String,
}

/// `a` is listed before `b`: the higher value first, and among equal values
/// the one stored first.
pub open spec fn mood_precedes(a: Mood, b: Mood) -> bool {
    a.value > b.value || (a.value == b.value && a.id < b.id)
}

impl StoreView {
    /// `r` lists exactly the moods of user `u`, best first.
    pub open spec fn lists_moods_of(self, u: int, r: Seq<Mood>) -> bool {
        &&& forall|i: int|
            0 <= i < r.len() ==> 1 <= #[trigger] r[i].id <= self.moods.len() && r[i]
                == self.moods[r[i].id - 1] && r[i].user_id == u
        &&& forall|k: int|
            0 <= k < self.moods.len() && #[trigger] self.moods[k].user_id == u ==> r.contains(
                self.moods[k],
            )
        &&& forall|i: int, j: int| 0 <= i < j < r.len() ==> mood_precedes(#[trigger] r[i], #[trigger] r[j])
    }
}

/// Stores a mood for the logged-in user.
pub fn create_mood(logged_user: &SlimUser, mood_data: MoodData, store: &mut Store) -> (r: Result<
    Mood,
    ServiceError,
>)
    requires
        old(store).wf(),
    ensures
        final(store).wf(),
        !old(store)@.has_user(logged_user.id as int) ==> r == Err::<Mood, ServiceError>(
            ServiceError::Unauthorized,
        ) && final(store)@ == old(store)@,
        old(store)@.has_user(logged_user.id as int) && old(store)@.moods.len()
            >= old(store)@.row_limit ==> r == Err::<Mood, ServiceError>(
            ServiceError::InternalServerError,
        ) && final(store)@ == old(store)@,
        old(store)@.has_user(logged_user.id as int) && old(store)@.moods.len()
            < old(store)@.row_limit ==> {
            let m = Mood {
                id: (old(store)@.moods.len() + 1) as i32,
                user_id: logged_user.id,
                name: mood_data.name,
                value: mood_data.value,
                icon: mood_data.icon,
            };
            r == Ok::<Mood, ServiceError>(m) && final(store)@ == (StoreView {
                moods: old(store)@.moods.push(m),
                ..old(store)@
            })
        },
{
    if !store.has_user(logged_user.id) {
        return Err(ServiceError::Unauthorized);
    }
    if store.moods().len() >= store.row_limit() {
        return Err(ServiceError::InternalServerError);
    }
    let MoodData { name, icon, value } = mood_data;
    let new_mood = NewMood { user_id: logged_user.id, name, value, icon };
    let id = store.push_mood(new_mood);
    let stored = &store.moods()[(id - 1) as usize];
    Ok(stored.clone())
}

/// The logged-in user's moods, the highest value first; moods of equal value
/// keep the order in which they were stored.
pub fn get_moods(logged_user: &SlimUser, store: &Store) -> (r: Result<Vec<Mood>, ServiceError>)
    requires
        store.wf(),
    ensures
        !store@.has_user(logged_user.id as int) ==> r == Err::<Vec<Mood>, ServiceError>(
            ServiceError::Unauthorized,
        ),
        store@.has_user(logged_user.id as int) ==> r is Ok && store@.lists_moods_of(
            logged_user.id as int,
            r->Ok_0@,
        ),
{
    if !store.has_user(logged_user.id) {
        return Err(ServiceError::Unauthorized);
    }
    let u = logged_user.id;
    let moods = store.moods();
    let mut r: Vec<Mood> = Vec::new();
    let mut j: usize = 0;
    while j < moods.len()
        invariant
            store.wf(),
            moods@ == store@.moods,
            0 <= j <= moods.len(),
            forall|i: int|
                0 <= i < r.len() ==> 1 <= #[trigger] r@[i].id <= j && r@[i] == moods@[r@[i].id - 1]
                    && r@[i].user_id == u,
            forall|k: int| 0 <= k < j && #[trigger] moods@[k].user_id == u ==> r@.contains(moods@[k]),
            forall|a: int, b: int| 0 <= a < b < r.len() ==> mood_precedes(#[trigger] r@[a], #[trigger] r@[b]),
        decreases moods.len() - j,
    {
        if moods[j].user_id == u {
            let x = moods[j].clone();
            assert(x.id == j + 1);
            let mut p: usize = 0;
            while p < r.len() && r[p].value >= x.value
                invariant
                    0 <= p <= r.len(),
                    forall|i: int| 0 <= i < p ==> #[trigger] r@[i].value >= x.value,
                decreases r.len() - p,
            {
                p = p + 1;
            }
            let ghost before = r@;
            proof {
                before.insert_ensures(p as int, x);
            }
            r.insert(p, x);
            proof {
                assert forall|k: int| 0 <= k <= j && #[trigger] moods@[k].user_id == u implies r@.contains(
                    moods@[k],
                ) by {
                    if k == j {
                        assert(r@[p as int] == moods@[k]);
                    } else {
                        assert(before.contains(moods@[k]));
                        let i = choose|i: int| 0 <= i < before.len() && before[i] == moods@[k];
                        if i < p {
                            assert(r@[i] == moods@[k]);
                        } else {
                            assert(r@[i + 1] == moods@[k]);
                        }
                    }
                }
                assert forall|a: int, b: int| 0 <= a < b < r.len() implies mood_precedes(
                    #[trigger] r@[a],
                    #[trigger] r@[b],
                ) by {
                    if b < p {
                        assert(r@[a] == before[a] && r@[b] == before[b]);
                    } else if b == p {
                        assert(r@[a] == before[a]);
                    } else if a < p {
                        assert(r@[a] == before[a] && r@[b] == before[b - 1]);
                    } else if a == p {
                        assert(r@[b] == before[b - 1]);
                        assert(before[p as int].value < x.value);
                        if p < b - 1 {
                            assert(mood_precedes(before[p as int], before[b - 1]));
                        }
                    } else {
                        assert(r@[a] == before[a - 1] && r@[b] == before[b - 1]);
                    }
                }
                assert forall|i: int| 0 <= i < r.len() implies 1 <= #[trigger] r@[i].id <= j + 1
                    && r@[i] == moods@[r@[i].id - 1] && r@[i].user_id == u by {
                    if i < p {
                        assert(r@[i] == before[i]);
                    } else if i > p {
                        assert(r@[i] == before[i - 1]);
                    }
                }
            }
        }
        j = j + 1;
    }
    Ok(r)
}

/// Stores an activity for the logged-in user.
pub fn create_activity(
    logged_user: &SlimUser,
    activity_data: ActivityData,
    store: &mut Store,
) -> (r: Result<Activity, ServiceError>)
    requires
        old(store).wf(),
    ensures
        final(store).wf(),
        !old(store)@.has_user(logged_user.id as int) ==> r == Err::<Activity, ServiceError>(
            ServiceError::Unauthorized,
        ) && final(store)@ == old(store)@,
        old(store)@.has_user(logged_user.id as int) && old(store)@.activities.len()
            >= old(store)@.row_limit ==> r == Err::<Activity, ServiceError>(
            ServiceError::InternalServerError,
        ) && final(store)@ == old(store)@,
        old(store)@.has_user(logged_user.id as int) && old(store)@.activities.len()
            < old(store)@.row_limit ==> {
            let a = Activity {
                id: (old(store)@.activities.len() + 1) as i32,
                user_id: logged_user.id,
                name: activity_data.name,
                icon: activity_data.icon,
            };
            r == Ok::<Activity, ServiceError>(a) && final(store)@ == (StoreView {
                activities: old(store)@.activities.push(a),
                ..old(store)@
            })
        },
{
    if !store.has_user(logged_user.id) {
        return Err(ServiceError::Unauthorized);
    }
    if store.activities().len() >= store.row_limit() {
        return Err(ServiceError::InternalServerError);
    }
    let ActivityData { name, icon } = activity_data;
    let id = store.push_activity(logged_user.id, name, icon);
    let stored = &store.activities()[(id - 1) as usize];
    Ok(stored.clone())
}

/// The logged-in user's activities, in the order they were stored.
pub fn get_activities(logged_user: &SlimUser, store: &Store) -> (r: Result<
    Vec<Activity>,
    ServiceError,
>)
    requires
        store.wf(),
    ensures
        !store@.has_user(logged_user.id as int) ==> r == Err::<Vec<Activity>, ServiceError>(
            ServiceError::Unauthorized,
        ),
        store@.has_user(logged_user.id as int) ==> r is Ok && r->Ok_0@ == store@.activities_of(
            logged_user.id as int,
        ),
{
    if !store.has_user(logged_user.id) {
        return Err(ServiceError::Unauthorized);
    }
    let u = logged_user.id;
    let acts = store.activities();
    let ghost pred = activity_owner_is(u as int);
    let mut r: Vec<Activity> = Vec::new();
    let mut i: usize = 0;
    while i < acts.len()
        invariant
            acts@ == store@.activities,
            0 <= i <= acts.len(),
            pred == activity_owner_is(u as int),
            r@ == acts@.take(i as int).filter(pred),
        decreases acts.len() - i,
    {
        proof {
            assert(acts@.take(i + 1) == acts@.take(i as int).push(acts@[i as int]));
            acts@.take(i as int).lemma_filter_push(acts@[i as int], pred);
        }
        if acts[i].user_id == u {
            r.push(acts[i].clone());
        }
        i = i + 1;
    }
    assert(acts@.take(acts.len() as int) == acts@);
    Ok(r)
}

} // verus!
