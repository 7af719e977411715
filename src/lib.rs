//! A mood-and-activity journal: users keep a catalog of their own moods and
//! activities and record entries that tie a mood and a set of activities to a
//! moment in time. Every row is owned by one user, and no operation reads or
//! changes another user's rows.
pub mod accounts;
pub mod catalog;
pub mod errors;
pub mod journal;
pub mod laws;
pub mod models;
pub mod session;
pub mod store;

pub use accounts::{check_login, login, register, AuthData, PasswordConfig};
pub use catalog::{create_activity, create_mood, get_activities, get_moods, ActivityData, MoodData};
pub use errors::{settle_blocking, ServiceError};
pub use journal::{create_entry, get_entry_by_id, get_entrys, BigEntry, EntryData};
pub use models::{
    Activity, EnrtyImage, Entry, EntryActivity, Mood, NewActivity, NewEntry, NewEntryActivity,
    NewEntryImage, NewMood, NewUser, SlimUser, Timestamp, User,
};
pub use session::{greeting, require_user, resolve, Identity, Session, SESSION_MAX_AGE};
pub use store::{Store, StoreView, MAX_ROWS};
