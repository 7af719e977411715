use crate::accounts::login_outcome;
use crate::catalog::mood_precedes;
use crate::errors::ServiceError;
use crate::journal::{entry_precedes, BigEntry};
use crate::models::{Activity, Entry, EntryActivity, Mood, SlimUser, User};
use crate::store::{activity_owner_is, StoreView};
use vstd::prelude::*;

verus! {

/// What one user's listings return never holds a row of another user, however
/// much the other user has stored.
pub proof fn lemma_listings_stay_with_owner(
    store: StoreView,
    a: int,
    b: int,
    moods: Seq<Mood>,
    activities: Seq<Activity>,
    entries: Seq<BigEntry>,
)
    requires
        store.wf(),
        a != b,
        store.lists_moods_of(a, moods),
        activities == store.activities_of(a),
        store.lists_entries_of(a, entries),
    ensures
        forall|i: int| 0 <= i < moods.len() ==> #[trigger] moods[i].user_id != b,
        forall|i: int| 0 <= i < activities.len() ==> #[trigger] activities[i].user_id != b,
        forall|i: int| 0 <= i < entries.len() ==> #[trigger] entries[i].user_id != b,
{
    assert forall|i: int| 0 <= i < moods.len() implies #[trigger] moods[i].user_id != b by {
        assert(1 <= moods[i].id);
    }
    assert forall|i: int| 0 <= i < activities.len() implies #[trigger] activities[i].user_id
        != b by {
        store.activities.lemma_filter_pred(activity_owner_is(a), i);
    }
}

/// An entry of one user is never found for another.
pub proof fn lemma_foreign_entry_not_found(store: StoreView, a: int, b: int, id: int)
    requires
        a != b,
        store.entry_owned(b, id),
    ensures
        !store.entry_owned(a, id),
{
}

/// An entry read back right after it was created has the mood it was created
/// with, and its activities are exactly those whose ids were given, each once,
/// whatever order or repeats the ids came in.
pub proof fn lemma_created_entry_reads_back(
    before: StoreView,
    after: StoreView,
    u: int,
    ids: Seq<i32>,
    e: Entry,
    links: Seq<EntryActivity>,
)
    requires
        before.wf(),
        before.mood_owned(u, e.mood_id as int),
        before.activities_usable(u, ids),
        before.has_room_for_entry(ids.len() as int),
        e.id == before.entries.len() + 1,
        e.user_id == u,
        links == before.links_for(e.id as int, ids),
        after == (StoreView {
            entries: before.entries.push(e),
            links: before.links + links,
            ..before
        }),
    ensures
        after.entry_owned(u, e.id as int),
        after.moods[after.entries[e.id - 1].mood_id - 1] == before.moods[e.mood_id - 1],
        forall|act: Activity|
            #[trigger] after.linked_activities(e.id as int).contains(act) <==> (
            before.activities.contains(act) && ids.contains(act.id)),
        forall|x: i32|
            ids.contains(x) <==> exists|j: int|
                0 <= j < after.linked_activities(e.id as int).len()
                    && #[trigger] after.linked_activities(e.id as int)[j].id == x,
        forall|i: int, j: int|
            0 <= i < j < after.linked_activities(e.id as int).len() ==> (
            #[trigger] after.linked_activities(e.id as int)[i]).id < (
            #[trigger] after.linked_activities(e.id as int)[j]).id,
        ids.len() == 2 && ids[0] != ids[1] ==> after.linked_activities(e.id as int).len() == 2,
{
    let eid = e.id as int;
    let pred = after.linked_to(eid);
    assert forall|aid: int| after.is_linked(eid, aid) <==> ids.contains(aid as i32) && 0 <= aid
        <= i32::MAX by {
        if after.is_linked(eid, aid) {
            let k = choose|k: int|
                0 <= k < after.links.len() && (#[trigger] after.links[k]).entry_id == eid
                    && after.links[k].activity_id == aid;
            if k < before.links.len() {
                assert(before.links[k] == after.links[k]);
                assert(false);
            } else {
                assert(after.links[k] == links[k - before.links.len()]);
                assert(ids[k - before.links.len()] == aid);
            }
        }
        if ids.contains(aid as i32) && 0 <= aid <= i32::MAX {
            let k = choose|k: int| 0 <= k < ids.len() && ids[k] == aid as i32;
            assert(after.links[before.links.len() + k] == links[k]);
        }
    }
    assert forall|act: Activity|
        #[trigger] after.linked_activities(eid).contains(act) <==> (before.activities.contains(
            act,
        ) && ids.contains(act.id)) by {
        if after.linked_activities(eid).contains(act) {
            before.activities.lemma_filter_contains_rev(pred, act);
            let j = choose|j: int|
                0 <= j < after.linked_activities(eid).len() && after.linked_activities(eid)[j]
                    == act;
            before.activities.lemma_filter_pred(pred, j);
        }
        if before.activities.contains(act) && ids.contains(act.id) {
            let i = choose|i: int| 0 <= i < before.activities.len() && before.activities[i] == act;
            assert(pred(before.activities[i]));
            before.activities.lemma_filter_contains(pred, i);
        }
    }
    assert forall|x: i32|
        ids.contains(x) <==> exists|j: int|
            0 <= j < after.linked_activities(eid).len() && #[trigger] after.linked_activities(
                eid,
            )[j].id == x by {
        if ids.contains(x) {
            let k = choose|k: int| 0 <= k < ids.len() && ids[k] == x;
            assert(before.activity_owned(u, ids[k] as int));
            let act = before.activities[x - 1];
            assert(before.activities.contains(act));
            assert(after.linked_activities(eid).contains(act));
            let j = choose|j: int|
                0 <= j < after.linked_activities(eid).len() && after.linked_activities(eid)[j]
                    == act;
            assert(after.linked_activities(eid)[j].id == x);
        }
        if exists|j: int|
            0 <= j < after.linked_activities(eid).len() && #[trigger] after.linked_activities(
                eid,
            )[j].id == x {
            let j = choose|j: int|
                0 <= j < after.linked_activities(eid).len() && #[trigger] after.linked_activities(
                    eid,
                )[j].id == x;
            let act = after.linked_activities(eid)[j];
            assert(after.linked_activities(eid).contains(act));
        }
    }
    let linked = after.linked_activities(eid);
    assert forall|i: int, j: int| 0 <= i < j < before.activities.len() implies (
    #[trigger] before.activities[i]).id < (#[trigger] before.activities[j]).id by {}
    lemma_filter_keeps_ids_increasing(before.activities, pred);
    if ids.len() == 2 && ids[0] != ids[1] {
        assert(ids.contains(ids[0]));
        assert(ids.contains(ids[1]));
        let j0 = choose|j: int| 0 <= j < linked.len() && #[trigger] linked[j].id == ids[0];
        let j1 = choose|j: int| 0 <= j < linked.len() && #[trigger] linked[j].id == ids[1];
        assert(j0 != j1);
        if linked.len() > 2 {
            assert(linked[0].id < linked[1].id && linked[1].id < linked[2].id);
            assert forall|k: int| 0 <= k < 3 implies ids.contains(#[trigger] linked[k].id) by {
                assert(exists|j: int| 0 <= j < linked.len() && #[trigger] linked[j].id == linked[k].id);
            }
            let k0 = choose|k: int| 0 <= k < ids.len() && ids[k] == linked[0].id;
            let k1 = choose|k: int| 0 <= k < ids.len() && ids[k] == linked[1].id;
            let k2 = choose|k: int| 0 <= k < ids.len() && ids[k] == linked[2].id;
            assert(false);
        }
    }
}

/// Keeping some rows of a table whose ids increase leaves ids that increase.
proof fn lemma_filter_keeps_ids_increasing(s: Seq<Activity>, pred: spec_fn(Activity) -> bool)
    requires
        forall|i: int, j: int| 0 <= i < j < s.len() ==> (#[trigger] s[i]).id < (#[trigger] s[j]).id,
    ensures
        forall|i: int, j: int|
            0 <= i < j < s.filter(pred).len() ==> (#[trigger] s.filter(pred)[i]).id < (
            #[trigger] s.filter(pred)[j]).id,
    decreases s.len(),
{
    reveal(Seq::filter);
    if s.len() > 0 {
        let rest = s.drop_last();
        lemma_filter_keeps_ids_increasing(rest, pred);
        let f = s.filter(pred);
        let g = rest.filter(pred);
        if pred(s.last()) {
            assert(f == g.push(s.last()));
            assert forall|i: int, j: int| 0 <= i < j < f.len() implies (#[trigger] f[i]).id < (
            #[trigger] f[j]).id by {
                if j == f.len() - 1 {
                    assert(g.contains(f[i]));
                    rest.lemma_filter_contains_rev(pred, f[i]);
                    let k = choose|k: int| 0 <= k < rest.len() && rest[k] == f[i];
                    assert(s[k] == f[i]);
                } else {
                    assert(f[i] == g[i] && f[j] == g[j]);
                }
            }
        } else {
            assert(f == g);
        }
    }
}

/// A listing of entries runs from the newest to the oldest: moments never
/// increase along it. No entry is listed twice.
pub proof fn lemma_entries_newest_first(store: StoreView, u: int, entries: Seq<BigEntry>)
    requires
        store.lists_entries_of(u, entries),
    ensures
        forall|i: int, j: int|
            0 <= i < j < entries.len() ==> #[trigger] entries[i].created_at
                >= #[trigger] entries[j].created_at,
        forall|i: int, j: int|
            0 <= i < j < entries.len() ==> #[trigger] entries[i].id != #[trigger] entries[j].id,
{
    assert forall|i: int, j: int| 0 <= i < j < entries.len() implies #[trigger] entries[i].id
        != #[trigger] entries[j].id by {
        assert(entry_precedes(
            store.entries[entries[i].id - 1],
            store.entries[entries[j].id - 1],
        ));
    }
    assert forall|i: int, j: int| 0 <= i < j < entries.len() implies #[trigger] entries[i].created_at
        >= #[trigger] entries[j].created_at by {
        assert(entry_precedes(
            store.entries[entries[i].id - 1],
            store.entries[entries[j].id - 1],
        ));
    }
}

/// A listing of moods runs from the highest value to the lowest. No mood is
/// listed twice.
pub proof fn lemma_moods_best_first(store: StoreView, u: int, moods: Seq<Mood>)
    requires
        store.lists_moods_of(u, moods),
    ensures
        forall|i: int, j: int|
            0 <= i < j < moods.len() ==> #[trigger] moods[i].value >= #[trigger] moods[j].value,
        forall|i: int, j: int|
            0 <= i < j < moods.len() ==> #[trigger] moods[i].id != #[trigger] moods[j].id,
{
    assert forall|i: int, j: int| 0 <= i < j < moods.len() implies #[trigger] moods[i].id
        != #[trigger] moods[j].id by {
        assert(mood_precedes(moods[i], moods[j]));
    }
    assert forall|i: int, j: int| 0 <= i < j < moods.len() implies #[trigger] moods[i].value
        >= #[trigger] moods[j].value by {
        assert(mood_precedes(moods[i], moods[j]));
    }
}

/// A login with an unknown email and one with a wrong password fail with the
/// same error, so neither tells whether the email is registered.
pub proof fn lemma_login_failures_alike(user: User, password_ok: bool)
    ensures
        login_outcome(None, password_ok) == login_outcome(Some(user), false),
        login_outcome(Some(user), false) == Err::<SlimUser, ServiceError>(
            ServiceError::Unauthorized,
        ),
{
}

impl StoreView {
    /// Every row of user `a` in `self` stands at the same place in `other`:
    /// moods, activities, entries, and the links of `a`'s entries.
    pub open spec fn keeps_rows_of(self, other: StoreView, a: int) -> bool {
        &&& forall|k: int|
            0 <= k < self.moods.len() && #[trigger] self.moods[k].user_id == a ==> k
                < other.moods.len() && other.moods[k] == self.moods[k]
        &&& forall|k: int|
            0 <= k < self.activities.len() && #[trigger] self.activities[k].user_id == a ==> k
                < other.activities.len() && other.activities[k] == self.activities[k]
        &&& forall|k: int|
            0 <= k < self.entries.len() && #[trigger] self.entries[k].user_id == a ==> k
                < other.entries.len() && other.entries[k] == self.entries[k]
        &&& forall|k: int|
            0 <= k < self.links.len() && self.entry_owned(a, (#[trigger] self.links[k]).entry_id as int)
                ==> k < other.links.len() && other.links[k] == self.links[k]
    }
}

/// Two sequences, each strictly ordered by the same asymmetric relation, that
/// hold the same elements are equal.
proof fn lemma_sorted_same_elements<T>(r1: Seq<T>, r2: Seq<T>, lt: spec_fn(T, T) -> bool)
    requires
        forall|x: T, y: T| #[trigger] lt(x, y) ==> !lt(y, x),
        forall|i: int, j: int| 0 <= i < j < r1.len() ==> lt(#[trigger] r1[i], #[trigger] r1[j]),
        forall|i: int, j: int| 0 <= i < j < r2.len() ==> lt(#[trigger] r2[i], #[trigger] r2[j]),
        forall|x: T| r1.contains(x) <==> r2.contains(x),
    ensures
        r1 == r2,
    decreases r1.len(),
{
    if r1.len() == 0 {
        if r2.len() > 0 {
            assert(r2.contains(r2[0]));
        }
        assert(r1 =~= r2);
    } else {
        assert(r1.contains(r1[0]));
        let j = choose|j: int| 0 <= j < r2.len() && r2[j] == r1[0];
        assert(r2.contains(r2[0]));
        let i = choose|i: int| 0 <= i < r1.len() && r1[i] == r2[0];
        if i > 0 && j > 0 {
            assert(lt(r1[0], r1[i]));
            assert(lt(r2[0], r2[j]));
        }
        assert(r1[0] == r2[0]);
        let t1 = r1.subrange(1, r1.len() as int);
        let t2 = r2.subrange(1, r2.len() as int);
        assert forall|x: T| t1.contains(x) <==> t2.contains(x) by {
            if t1.contains(x) {
                let k = choose|k: int| 0 <= k < t1.len() && t1[k] == x;
                assert(r1[k + 1] == x);
                assert(lt(r1[0], r1[k + 1]));
                assert(r2.contains(x));
                let m = choose|m: int| 0 <= m < r2.len() && r2[m] == x;
                if m == 0 {
                    assert(lt(x, x));
                }
                assert(t2[m - 1] == x);
            }
            if t2.contains(x) {
                let k = choose|k: int| 0 <= k < t2.len() && t2[k] == x;
                assert(r2[k + 1] == x);
                assert(lt(r2[0], r2[k + 1]));
                assert(r1.contains(x));
                let m = choose|m: int| 0 <= m < r1.len() && r1[m] == x;
                if m == 0 {
                    assert(lt(x, x));
                }
                assert(t1[m - 1] == x);
            }
        }
        assert forall|i: int, j: int| 0 <= i < j < t1.len() implies lt(#[trigger] t1[i], #[trigger] t1[j]) by {
            assert(t1[i] == r1[i + 1] && t1[j] == r1[j + 1]);
        }
        assert forall|i: int, j: int| 0 <= i < j < t2.len() implies lt(#[trigger] t2[i], #[trigger] t2[j]) by {
            assert(t2[i] == r2[i + 1] && t2[j] == r2[j + 1]);
        }
        lemma_sorted_same_elements(t1, t2, lt);
        assert(r1 =~= r2) by {
            assert forall|k: int| 0 <= k < r1.len() implies r1[k] == r2[k] by {
                if k > 0 {
                    assert(r1[k] == t1[k - 1] && r2[k] == t2[k - 1]);
                }
            }
        }
    }
}

spec fn id_lt(x: Activity, y: Activity) -> bool {
    x.id < y.id
}

/// An activity that `a` sees in `s1` is one `a` sees in `s2`.
proof fn lemma_activity_seen_in_both(s1: StoreView, s2: StoreView, a: int, act: Activity)
    requires
        s1.wf(),
        s2.wf(),
        s1.keeps_rows_of(s2, a),
        s1.activities_of(a).contains(act),
    ensures
        s2.activities_of(a).contains(act),
{
    let p = activity_owner_is(a);
    s1.activities.lemma_filter_contains_rev(p, act);
    let k = choose|k: int| 0 <= k < s1.activities.len() && s1.activities[k] == act;
    let j = choose|j: int| 0 <= j < s1.activities_of(a).len() && s1.activities_of(a)[j] == act;
    s1.activities.lemma_filter_pred(p, j);
    assert(s2.activities[k] == act);
    s2.activities.lemma_filter_contains(p, k);
}

/// An activity linked to `a`'s entry `eid` in `s1` is linked to it in `s2`.
proof fn lemma_link_seen_in_both(s1: StoreView, s2: StoreView, a: int, eid: int, act: Activity)
    requires
        s1.wf(),
        s2.wf(),
        s1.keeps_rows_of(s2, a),
        s1.entry_owned(a, eid),
        s1.linked_activities(eid).contains(act),
    ensures
        s2.linked_activities(eid).contains(act),
{
    let p1 = s1.linked_to(eid);
    let p2 = s2.linked_to(eid);
    s1.activities.lemma_filter_contains_rev(p1, act);
    let j = choose|j: int| 0 <= j < s1.linked_activities(eid).len() && s1.linked_activities(eid)[j] == act;
    s1.activities.lemma_filter_pred(p1, j);
    assert(s1.is_linked(eid, act.id as int));
    let m = choose|m: int|
        0 <= m < s1.links.len() && (#[trigger] s1.links[m]).entry_id == eid && s1.links[m].activity_id
            == act.id;
    assert(s2.links[m] == s1.links[m]);
    assert(s2.is_linked(eid, act.id as int));
    let k = choose|k: int| 0 <= k < s1.activities.len() && s1.activities[k] == act;
    assert(s1.activity_owned(s1.entries[eid - 1].user_id as int, act.id as int));
    assert(s2.activities[k] == act);
    assert(p2(s2.activities[k]));
    s2.activities.lemma_filter_contains(p2, k);
}

proof fn lemma_linked_same(s1: StoreView, s2: StoreView, a: int, eid: int)
    requires
        s1.wf(),
        s2.wf(),
        s1.keeps_rows_of(s2, a),
        s2.keeps_rows_of(s1, a),
        s1.entry_owned(a, eid),
    ensures
        s1.linked_activities(eid) == s2.linked_activities(eid),
{
    let k = eid - 1;
    assert(s1.entries[k].user_id == a);
    assert(s2.entries[k] == s1.entries[k]);
    assert forall|act: Activity|
        s1.linked_activities(eid).contains(act) <==> s2.linked_activities(eid).contains(act) by {
        if s1.linked_activities(eid).contains(act) {
            lemma_link_seen_in_both(s1, s2, a, eid, act);
        }
        if s2.linked_activities(eid).contains(act) {
            lemma_link_seen_in_both(s2, s1, a, eid, act);
        }
    }
    assert forall|i: int, j: int| 0 <= i < j < s1.activities.len() implies (
    #[trigger] s1.activities[i]).id < (#[trigger] s1.activities[j]).id by {}
    assert forall|i: int, j: int| 0 <= i < j < s2.activities.len() implies (
    #[trigger] s2.activities[i]).id < (#[trigger] s2.activities[j]).id by {}
    lemma_filter_keeps_ids_increasing(s1.activities, s1.linked_to(eid));
    lemma_filter_keeps_ids_increasing(s2.activities, s2.linked_to(eid));
    let r1 = s1.linked_activities(eid);
    let r2 = s2.linked_activities(eid);
    assert forall|i: int, j: int| 0 <= i < j < r1.len() implies id_lt(#[trigger] r1[i], #[trigger] r1[j]) by {}
    assert forall|i: int, j: int| 0 <= i < j < r2.len() implies id_lt(#[trigger] r2[i], #[trigger] r2[j]) by {}
    lemma_sorted_same_elements(r1, r2, |x: Activity, y: Activity| id_lt(x, y));
}

/// What user `a`'s listings return depends on `a`'s rows alone: two stores
/// that hold the same rows of `a`, however much else either holds, give `a`
/// the same activities, the same moods and the same entries.
pub proof fn lemma_listings_ignore_other_users(
    s1: StoreView,
    s2: StoreView,
    a: int,
    moods1: Seq<Mood>,
    moods2: Seq<Mood>,
    entries1: Seq<BigEntry>,
    entries2: Seq<BigEntry>,
)
    requires
        s1.wf(),
        s2.wf(),
        s1.keeps_rows_of(s2, a),
        s2.keeps_rows_of(s1, a),
        s1.lists_moods_of(a, moods1),
        s2.lists_moods_of(a, moods2),
        s1.lists_entries_of(a, entries1),
        s2.lists_entries_of(a, entries2),
    ensures
        s1.activities_of(a) == s2.activities_of(a),
        moods1 == moods2,
        entries1.len() == entries2.len(),
        forall|i: int|
            0 <= i < entries1.len() ==> {
                let b1 = #[trigger] entries1[i];
                let b2 = entries2[i];
                &&& b1.id == b2.id
                &&& b1.user_id == b2.user_id
                &&& b1.mood == b2.mood
                &&& b1.desc == b2.desc
                &&& b1.created_at == b2.created_at
                &&& b1.activities@ == b2.activities@
            },
{
    // activities
    let p = activity_owner_is(a);
    assert forall|act: Activity|
        s1.activities_of(a).contains(act) <==> s2.activities_of(a).contains(act) by {
        if s1.activities_of(a).contains(act) {
            lemma_activity_seen_in_both(s1, s2, a, act);
        }
        if s2.activities_of(a).contains(act) {
            lemma_activity_seen_in_both(s2, s1, a, act);
        }
    }
    assert forall|i: int, j: int| 0 <= i < j < s1.activities.len() implies (
    #[trigger] s1.activities[i]).id < (#[trigger] s1.activities[j]).id by {}
    assert forall|i: int, j: int| 0 <= i < j < s2.activities.len() implies (
    #[trigger] s2.activities[i]).id < (#[trigger] s2.activities[j]).id by {}
    lemma_filter_keeps_ids_increasing(s1.activities, p);
    lemma_filter_keeps_ids_increasing(s2.activities, p);
    let f1 = s1.activities_of(a);
    let f2 = s2.activities_of(a);
    assert forall|i: int, j: int| 0 <= i < j < f1.len() implies id_lt(#[trigger] f1[i], #[trigger] f1[j]) by {}
    assert forall|i: int, j: int| 0 <= i < j < f2.len() implies id_lt(#[trigger] f2[i], #[trigger] f2[j]) by {}
    lemma_sorted_same_elements(f1, f2, |x: Activity, y: Activity| id_lt(x, y));

    // moods
    assert forall|m: Mood| moods1.contains(m) <==> moods2.contains(m) by {
        if moods1.contains(m) {
            let i = choose|i: int| 0 <= i < moods1.len() && moods1[i] == m;
            assert(1 <= moods1[i].id);
            assert(s2.moods[m.id - 1] == m);
        }
        if moods2.contains(m) {
            let i = choose|i: int| 0 <= i < moods2.len() && moods2[i] == m;
            assert(1 <= moods2[i].id);
            assert(s1.moods[m.id - 1] == m);
        }
    }
    lemma_sorted_same_elements(moods1, moods2, |x: Mood, y: Mood| mood_precedes(x, y));

    // entries, compared by id under the order of `a`'s stored entries
    let ids1 = entries1.map_values(|b: BigEntry| b.id);
    let ids2 = entries2.map_values(|b: BigEntry| b.id);
    let lt = |x: i32, y: i32| entry_precedes(s1.entries[x - 1], s1.entries[y - 1]);
    assert forall|i: int| 0 <= i < entries2.len() implies s2.entries[(#[trigger] entries2[i]).id - 1]
        == s1.entries[entries2[i].id - 1] by {
        assert(s2.assembles(entries2[i]));
        assert(s2.entries[entries2[i].id - 1].user_id == a);
    }
    assert forall|i: int, j: int| 0 <= i < j < ids1.len() implies lt(#[trigger] ids1[i], #[trigger] ids1[j]) by {
        assert(entry_precedes(s1.entries[entries1[i].id - 1], s1.entries[entries1[j].id - 1]));
    }
    assert forall|i: int, j: int| 0 <= i < j < ids2.len() implies lt(#[trigger] ids2[i], #[trigger] ids2[j]) by {
        assert(entry_precedes(s2.entries[entries2[i].id - 1], s2.entries[entries2[j].id - 1]));
    }
    assert forall|x: i32| ids1.contains(x) <==> ids2.contains(x) by {
        if ids1.contains(x) {
            let i = choose|i: int| 0 <= i < ids1.len() && ids1[i] == x;
            assert(s1.assembles(entries1[i]));
            assert(s1.entries[x - 1].user_id == a);
            assert(s2.entries[x - 1] == s1.entries[x - 1]);
            let j = choose|j: int| 0 <= j < entries2.len() && #[trigger] entries2[j].id == (x - 1) + 1;
            assert(ids2[j] == x);
        }
        if ids2.contains(x) {
            let i = choose|i: int| 0 <= i < ids2.len() && ids2[i] == x;
            assert(s2.assembles(entries2[i]));
            assert(s2.entries[x - 1].user_id == a);
            assert(s1.entries[x - 1] == s2.entries[x - 1]);
            let j = choose|j: int| 0 <= j < entries1.len() && #[trigger] entries1[j].id == (x - 1) + 1;
            assert(ids1[j] == x);
        }
    }
    lemma_sorted_same_elements(ids1, ids2, lt);
    assert forall|i: int| 0 <= i < entries1.len() implies {
        let b1 = #[trigger] entries1[i];
        let b2 = entries2[i];
        &&& b1.id == b2.id
        &&& b1.user_id == b2.user_id
        &&& b1.mood == b2.mood
        &&& b1.desc == b2.desc
        &&& b1.created_at == b2.created_at
        &&& b1.activities@ == b2.activities@
    } by {
        assert(ids1[i] == ids2[i]);
        let b1 = entries1[i];
        let b2 = entries2[i];
        assert(s1.assembles(b1));
        assert(s2.assembles(b2));
        let e = s1.entries[b1.id - 1];
        assert(e.user_id == a);
        assert(s2.entries[b1.id - 1] == e);
        assert(s1.mood_owned(e.user_id as int, e.mood_id as int));
        assert(s1.moods[e.mood_id - 1].user_id == a);
        assert(s2.moods[e.mood_id - 1] == s1.moods[e.mood_id - 1]);
        lemma_linked_same(s1, s2, a, b1.id as int);
    }
}

} // verus!
