use mood_journal::{
    check_login, create_activity, create_entry, create_mood, get_activities, get_entry_by_id,
    get_entrys, get_moods, greeting, login, register, require_user, resolve, settle_blocking,
    ActivityData, AuthData, EntryData, Identity, MoodData, NewUser, PasswordConfig, ServiceError,
    Session, SlimUser, Store, User, SESSION_MAX_AGE,
};
use mood_journal::{Activity, Entry, EntryActivity, Mood};

fn config() -> PasswordConfig {
    PasswordConfig { secret: "0123".repeat(8), salt: "supersecuresalt".to_string() }
}

fn sign_up(store: &mut Store, email: &str, password: &str) -> SlimUser {
    let data = AuthData { email: email.to_string(), password: password.to_string() };
    register(data, &config(), store).unwrap()
}

fn mood(store: &mut Store, user: &SlimUser, name: &str, value: i32) -> i32 {
    let data = MoodData { name: name.to_string(), icon: "icon".to_string(), value };
    create_mood(user, data, store).unwrap().id
}

fn activity(store: &mut Store, user: &SlimUser, name: &str) -> i32 {
    let data = ActivityData { name: name.to_string(), icon: "icon".to_string() };
    create_activity(user, data, store).unwrap().id
}

fn entry_data(mood_id: i32, at: Option<u64>, activity_ids: Vec<i32>) -> EntryData {
    EntryData { mood_id, desc: None, created_at: at, activity_ids }
}

#[test]
fn example_journal_day() {
    let mut store = Store::new();
    let alice = sign_up(&mut store, "alice@x.com", "pw1");
    assert_eq!(alice.email, "alice@x.com");
    let happy = mood(&mut store, &alice, "Happy", 5);
    let run = activity(&mut store, &alice, "Run");
    create_entry(&alice, entry_data(happy, None, vec![run]), 100, &mut store).unwrap();
    let entries = get_entrys(&alice, &store).unwrap();
    assert_eq!(entries.len(), 1);
    assert_eq!(entries[0].mood.name, "Happy");
    assert_eq!(entries[0].activities.len(), 1);
    assert_eq!(entries[0].activities[0].name, "Run");
}

#[test]
fn listings_hold_only_own_rows() {
    let mut store = Store::new();
    let a = sign_up(&mut store, "a@x.com", "pa");
    let b = sign_up(&mut store, "b@x.com", "pb");
    let ma = mood(&mut store, &a, "Calm", 2);
    let mb1 = mood(&mut store, &b, "Calm", 2);
    let mb2 = mood(&mut store, &b, "Glad", 4);
    let aa = activity(&mut store, &a, "Read");
    let ab = activity(&mut store, &b, "Read");
    create_entry(&a, entry_data(ma, Some(5), vec![aa]), 0, &mut store).unwrap();
    create_entry(&b, entry_data(mb1, Some(5), vec![ab]), 0, &mut store).unwrap();
    create_entry(&b, entry_data(mb2, Some(6), vec![]), 0, &mut store).unwrap();
    let moods = get_moods(&a, &store).unwrap();
    assert_eq!(moods.len(), 1);
    assert!(moods.iter().all(|m| m.user_id == a.id));
    let acts = get_activities(&a, &store).unwrap();
    assert_eq!(acts.len(), 1);
    assert!(acts.iter().all(|x| x.user_id == a.id));
    let entries = get_entrys(&a, &store).unwrap();
    assert_eq!(entries.len(), 1);
    assert!(entries.iter().all(|e| e.user_id == a.id && e.mood.user_id == a.id));
    assert_eq!(get_entrys(&b, &store).unwrap().len(), 2);
}

#[test]
fn foreign_entry_is_not_found() {
    let mut store = Store::new();
    let a = sign_up(&mut store, "a@x.com", "pa");
    let b = sign_up(&mut store, "b@x.com", "pb");
    let mb = mood(&mut store, &b, "Low", 1);
    let (e, _) = create_entry(&b, entry_data(mb, Some(1), vec![]), 0, &mut store).unwrap();
    assert_eq!(get_entry_by_id(e.id, &a, &store).unwrap_err(), ServiceError::NotFound);
    assert_eq!(get_entry_by_id(e.id + 1, &b, &store).unwrap_err(), ServiceError::NotFound);
    assert_eq!(get_entry_by_id(e.id, &b, &store).unwrap().id, e.id);
}

#[test]
fn created_entry_reads_back() {
    let mut store = Store::new();
    let u = sign_up(&mut store, "u@x.com", "pu");
    let m = mood(&mut store, &u, "Fine", 3);
    let a1 = activity(&mut store, &u, "Walk");
    let a2 = activity(&mut store, &u, "Cook");
    let data = EntryData {
        mood_id: m,
        desc: Some("quiet day".to_string()),
        created_at: Some(42),
        activity_ids: vec![a2, a1],
    };
    let (e, links) = create_entry(&u, data, 0, &mut store).unwrap();
    assert_eq!(links.len(), 2);
    assert_eq!(links[0].activity_id, a2);
    assert_eq!(links[1].activity_id, a1);
    assert!(links.iter().all(|l| l.entry_id == e.id));
    let big = get_entry_by_id(e.id, &u, &store).unwrap();
    assert_eq!(big.mood.id, m);
    assert_eq!(big.mood.name, "Fine");
    assert_eq!(big.desc, Some("quiet day".to_string()));
    assert_eq!(big.created_at, 42);
    let mut ids: Vec<i32> = big.activities.iter().map(|a| a.id).collect();
    ids.sort();
    assert_eq!(ids, vec![a1, a2]);
}

#[test]
fn repeated_activity_ids_read_back_once() {
    let mut store = Store::new();
    let u = sign_up(&mut store, "u@x.com", "pu");
    let m = mood(&mut store, &u, "Fine", 3);
    let a1 = activity(&mut store, &u, "Walk");
    let (e, links) = create_entry(&u, entry_data(m, Some(1), vec![a1, a1]), 0, &mut store).unwrap();
    assert_eq!(links.len(), 2);
    assert_eq!(store.entry_activities().len(), 2);
    let big = get_entry_by_id(e.id, &u, &store).unwrap();
    assert_eq!(big.activities.len(), 1);
    assert_eq!(big.activities[0].id, a1);
}

#[test]
fn failed_link_leaves_nothing_behind() {
    let mut store = Store::with_row_limit(2);
    let u = sign_up(&mut store, "u@x.com", "pu");
    let m = mood(&mut store, &u, "Fine", 3);
    let a1 = activity(&mut store, &u, "Walk");
    let a2 = activity(&mut store, &u, "Swim");
    let r = create_entry(&u, entry_data(m, Some(1), vec![a1, a2, a1, a2]), 0, &mut store);
    assert_eq!(r.unwrap_err(), ServiceError::InternalServerError);
    assert_eq!(store.entries().len(), 0);
    assert_eq!(store.entry_activities().len(), 0);
    let (e, links) = create_entry(&u, entry_data(m, Some(1), vec![a1, a2]), 0, &mut store).unwrap();
    assert_eq!(e.id, 1);
    assert_eq!(links.len(), 2);
}

#[test]
fn entries_come_newest_first() {
    let mut store = Store::new();
    let u = sign_up(&mut store, "u@x.com", "pu");
    let m = mood(&mut store, &u, "Fine", 3);
    for t in [10u64, 30, 20, 5] {
        create_entry(&u, entry_data(m, Some(t), vec![]), 0, &mut store).unwrap();
    }
    let times: Vec<u64> = get_entrys(&u, &store).unwrap().iter().map(|e| e.created_at).collect();
    assert_eq!(times, vec![30, 20, 10, 5]);
}

#[test]
fn entries_at_one_moment_list_last_stored_first() {
    let mut store = Store::new();
    let u = sign_up(&mut store, "u@x.com", "pu");
    let m = mood(&mut store, &u, "Fine", 3);
    let (e1, _) = create_entry(&u, entry_data(m, Some(7), vec![]), 0, &mut store).unwrap();
    let (e2, _) = create_entry(&u, entry_data(m, Some(7), vec![]), 0, &mut store).unwrap();
    let ids: Vec<i32> = get_entrys(&u, &store).unwrap().iter().map(|e| e.id).collect();
    assert_eq!(ids, vec![e2.id, e1.id]);
}

#[test]
fn entry_without_time_takes_now() {
    let mut store = Store::new();
    let u = sign_up(&mut store, "u@x.com", "pu");
    let m = mood(&mut store, &u, "Fine", 3);
    let (e, _) = create_entry(&u, entry_data(m, None, vec![]), 1234, &mut store).unwrap();
    assert_eq!(e.created_at, 1234);
    assert_eq!(e.user_id, u.id);
    assert_eq!(e.mood_id, m);
}

#[test]
fn moods_come_best_first() {
    let mut store = Store::new();
    let u = sign_up(&mut store, "u@x.com", "pu");
    let m3 = mood(&mut store, &u, "Okay", 3);
    let m5a = mood(&mut store, &u, "Happy", 5);
    let m1 = mood(&mut store, &u, "Sad", 1);
    let m5b = mood(&mut store, &u, "Great", 5);
    let ids: Vec<i32> = get_moods(&u, &store).unwrap().iter().map(|m| m.id).collect();
    assert_eq!(ids, vec![m5a, m5b, m3, m1]);
}

#[test]
fn activities_keep_stored_order() {
    let mut store = Store::new();
    let u = sign_up(&mut store, "u@x.com", "pu");
    let v = sign_up(&mut store, "v@x.com", "pv");
    let a = activity(&mut store, &u, "Zumba");
    activity(&mut store, &v, "Chess");
    let b = activity(&mut store, &u, "Archery");
    let ids: Vec<i32> = get_activities(&u, &store).unwrap().iter().map(|x| x.id).collect();
    assert_eq!(ids, vec![a, b]);
}

#[test]
fn login_failures_look_alike() {
    let mut store = Store::new();
    sign_up(&mut store, "alice@x.com", "pw1");
    let cfg = config();
    let wrong = AuthData { email: "alice@x.com".to_string(), password: "nope".to_string() };
    let unknown = AuthData { email: "bob@x.com".to_string(), password: "pw1".to_string() };
    let right = AuthData { email: "alice@x.com".to_string(), password: "pw1".to_string() };
    let e1 = login(&wrong, &cfg, &store).unwrap_err();
    let e2 = login(&unknown, &cfg, &store).unwrap_err();
    assert_eq!(e1, ServiceError::Unauthorized);
    assert_eq!(e1, e2);
    let ok = login(&right, &cfg, &store).unwrap();
    assert_eq!(ok.id, 1);
    assert_eq!(ok.email, "alice@x.com");
}

#[test]
fn stored_digest_is_not_the_password() {
    let mut store = Store::new();
    sign_up(&mut store, "alice@x.com", "pw1");
    let hash = &store.users()[0].hash;
    assert_ne!(hash, "pw1");
    assert!(hash.starts_with("$argon2"));
}

#[test]
fn check_login_decides_from_verdict() {
    let user = User { id: 3, email: "c@x.com".to_string(), hash: "h".to_string() };
    assert_eq!(check_login(Some(&user), true).unwrap().id, 3);
    assert_eq!(check_login(Some(&user), false).unwrap_err(), ServiceError::Unauthorized);
    assert_eq!(check_login(None, true).unwrap_err(), ServiceError::Unauthorized);
}

#[test]
fn duplicate_email_conflicts() {
    let mut store = Store::new();
    sign_up(&mut store, "a@x.com", "p");
    let again = AuthData { email: "a@x.com".to_string(), password: "q".to_string() };
    assert_eq!(register(again, &config(), &mut store).unwrap_err(), ServiceError::Conflict);
    assert_eq!(store.users().len(), 1);
    let other = store.insert_user(NewUser::from_details("b@x.com".to_string(), "d".to_string()));
    assert_eq!(other.unwrap().id, 2);
}

#[test]
fn short_salt_fails_registration() {
    let mut store = Store::new();
    let cfg = PasswordConfig { secret: "k".to_string(), salt: "short".to_string() };
    let data = AuthData { email: "a@x.com".to_string(), password: "p".to_string() };
    assert_eq!(register(data, &cfg, &mut store).unwrap_err(), ServiceError::InternalServerError);
    assert_eq!(store.users().len(), 0);
}

#[test]
fn entry_refuses_foreign_mood_and_activity() {
    let mut store = Store::new();
    let a = sign_up(&mut store, "a@x.com", "pa");
    let b = sign_up(&mut store, "b@x.com", "pb");
    let ma = mood(&mut store, &a, "Calm", 2);
    let mb = mood(&mut store, &b, "Calm", 2);
    let ab = activity(&mut store, &b, "Read");
    let r1 = create_entry(&a, entry_data(mb, Some(1), vec![]), 0, &mut store);
    assert_eq!(r1.unwrap_err(), ServiceError::NotFound);
    let r2 = create_entry(&a, entry_data(99, Some(1), vec![]), 0, &mut store);
    assert_eq!(r2.unwrap_err(), ServiceError::NotFound);
    let r3 = create_entry(&a, entry_data(ma, Some(1), vec![ab]), 0, &mut store);
    assert_eq!(r3.unwrap_err(), ServiceError::BadRequest);
    assert_eq!(store.entries().len(), 0);
    assert_eq!(store.entry_activities().len(), 0);
}

#[test]
fn unknown_user_is_unauthorized() {
    let mut store = Store::new();
    let stranger = SlimUser { id: 7, email: "g@x.com".to_string() };
    assert_eq!(get_moods(&stranger, &store).unwrap_err(), ServiceError::Unauthorized);
    assert_eq!(get_activities(&stranger, &store).unwrap_err(), ServiceError::Unauthorized);
    assert_eq!(get_entrys(&stranger, &store).unwrap_err(), ServiceError::Unauthorized);
    let data = MoodData { name: "x".to_string(), icon: "i".to_string(), value: 1 };
    assert_eq!(create_mood(&stranger, data, &mut store).unwrap_err(), ServiceError::Unauthorized);
    let data = ActivityData { name: "x".to_string(), icon: "i".to_string() };
    assert_eq!(create_activity(&stranger, data, &mut store).unwrap_err(), ServiceError::Unauthorized);
}

#[test]
fn full_table_is_a_storage_fault() {
    let mut store = Store::with_row_limit(1);
    let u = sign_up(&mut store, "u@x.com", "pu");
    mood(&mut store, &u, "One", 1);
    let data = MoodData { name: "Two".to_string(), icon: "i".to_string(), value: 2 };
    assert_eq!(create_mood(&u, data, &mut store).unwrap_err(), ServiceError::InternalServerError);
    let more = AuthData { email: "v@x.com".to_string(), password: "pv".to_string() };
    assert_eq!(register(more, &config(), &mut store).unwrap_err(), ServiceError::InternalServerError);
}

#[test]
fn sessions_expire_after_a_day() {
    let user = SlimUser { id: 1, email: "a@x.com".to_string() };
    let s = Session::issue(user.clone(), 1000);
    assert!(s.is_valid_at(1000));
    assert!(s.is_valid_at(1000 + SESSION_MAX_AGE - 1));
    assert!(!s.is_valid_at(1000 + SESSION_MAX_AGE));
    assert!(!s.is_valid_at(999));
    assert_eq!(require_user(Some(&s), 2000).unwrap(), user);
    assert_eq!(require_user(Some(&s), 1000 + 86400).unwrap_err(), ServiceError::Unauthorized);
    assert_eq!(require_user(None, 0).unwrap_err(), ServiceError::Unauthorized);
    assert!(matches!(resolve(None, 0), Identity::Anonymous));
    assert!(matches!(resolve(Some(&s), 80000), Identity::User(_)));
}

#[test]
fn greeting_names_the_user() {
    let user = SlimUser { id: 1, email: "a@x.com".to_string() };
    assert_eq!(greeting(&Identity::User(user)), "Hello a@x.com");
    assert_eq!(greeting(&Identity::Anonymous), "Hello World");
}

#[test]
fn errors_map_to_status_codes() {
    assert_eq!(ServiceError::Unauthorized.status_code(), 401);
    assert_eq!(ServiceError::NotFound.status_code(), 404);
    assert_eq!(ServiceError::BadRequest.status_code(), 400);
    assert_eq!(ServiceError::Conflict.status_code(), 409);
    assert_eq!(ServiceError::InternalServerError.status_code(), 500);
}

#[test]
fn abandoned_work_is_an_internal_error() {
    let gone: Option<Result<i32, ServiceError>> = None;
    assert_eq!(settle_blocking(gone), Err(ServiceError::InternalServerError));
    assert_eq!(settle_blocking(Some(Ok(3))), Ok(3));
    assert_eq!(settle_blocking::<i32>(Some(Err(ServiceError::NotFound))), Err(ServiceError::NotFound));
}

#[test]
fn slim_user_drops_the_digest() {
    let user = User { id: 4, email: "d@x.com".to_string(), hash: "secret".to_string() };
    let slim = SlimUser::from(user);
    assert_eq!(slim, SlimUser { id: 4, email: "d@x.com".to_string() });
}

fn rows() -> (Vec<User>, Vec<Mood>, Vec<Activity>, Vec<Entry>, Vec<EntryActivity>) {
    let users = vec![
        User { id: 1, email: "a@x.com".to_string(), hash: "h1".to_string() },
        User { id: 2, email: "b@x.com".to_string(), hash: "h2".to_string() },
    ];
    let moods = vec![Mood { id: 1, user_id: 2, name: "Glad".to_string(), value: 4, icon: "g".to_string() }];
    let activities = vec![Activity { id: 1, user_id: 2, name: "Run".to_string(), icon: "r".to_string() }];
    let entries = vec![Entry { id: 1, user_id: 2, mood_id: 1, desc: None, created_at: 9 }];
    let links = vec![EntryActivity { id: 1, entry_id: 1, activity_id: 1 }];
    (users, moods, activities, entries, links)
}

#[test]
fn stored_tables_load_back() {
    let (u, m, a, e, l) = rows();
    let store = Store::from_tables(u, m, a, e, l).unwrap();
    let b = SlimUser { id: 2, email: "b@x.com".to_string() };
    let list = get_entrys(&b, &store).unwrap();
    assert_eq!(list.len(), 1);
    assert_eq!(list[0].mood.name, "Glad");
    assert_eq!(list[0].activities[0].name, "Run");
    assert_eq!(store.row_limit(), mood_journal::MAX_ROWS);
}

#[test]
fn broken_tables_are_refused() {
    let (mut u, m, a, e, l) = rows();
    u[1].email = "a@x.com".to_string();
    assert!(Store::from_tables(u, m, a, e, l).is_none());

    let (u, mut m, a, e, l) = rows();
    m[0].id = 2;
    assert!(Store::from_tables(u, m, a, e, l).is_none());

    let (u, m, a, mut e, l) = rows();
    e[0].user_id = 1;
    assert!(Store::from_tables(u, m, a, e, l).is_none());

    let (u, m, mut a, e, l) = rows();
    a[0].user_id = 1;
    assert!(Store::from_tables(u, m, a, e, l).is_none());

    let (u, m, a, e, mut l) = rows();
    l[0].entry_id = 2;
    assert!(Store::from_tables(u, m, a, e, l).is_none());
}

#[test]
fn taken_email_conflicts_before_hashing() {
    let mut store = Store::new();
    sign_up(&mut store, "a@x.com", "p");
    let cfg = PasswordConfig { secret: "k".to_string(), salt: "short".to_string() };
    let again = AuthData { email: "a@x.com".to_string(), password: "q".to_string() };
    assert_eq!(register(again, &cfg, &mut store).unwrap_err(), ServiceError::Conflict);
    assert_eq!(store.users().len(), 1);
}

fn build(with_b_extras: bool) -> (Store, SlimUser) {
    let mut store = Store::new();
    let a = sign_up(&mut store, "a@x.com", "pa");
    let b = sign_up(&mut store, "b@x.com", "pb");
    let ma = mood(&mut store, &a, "Calm", 2);
    let aa = activity(&mut store, &a, "Read");
    create_entry(&a, entry_data(ma, Some(5), vec![aa]), 0, &mut store).unwrap();
    if with_b_extras {
        let mb = mood(&mut store, &b, "Calm", 9);
        let ab = activity(&mut store, &b, "Read");
        create_entry(&b, entry_data(mb, Some(50), vec![ab, ab]), 0, &mut store).unwrap();
        create_entry(&b, entry_data(mb, Some(5), vec![]), 0, &mut store).unwrap();
    }
    (store, a)
}

#[test]
fn other_users_rows_do_not_change_listings() {
    let (s1, a) = build(false);
    let (s2, _) = build(true);
    assert_eq!(get_moods(&a, &s1).unwrap(), get_moods(&a, &s2).unwrap());
    assert_eq!(get_activities(&a, &s1).unwrap(), get_activities(&a, &s2).unwrap());
    let e1 = get_entrys(&a, &s1).unwrap();
    let e2 = get_entrys(&a, &s2).unwrap();
    assert_eq!(e1.len(), 1);
    assert_eq!(e1.len(), e2.len());
    assert_eq!(e1[0].id, e2[0].id);
    assert_eq!(e1[0].mood, e2[0].mood);
    assert_eq!(e1[0].activities, e2[0].activities);
}
