//! Domain records as the remote service returns them.
//!
//! All fields are plain values; the structs are immutable value objects
//! once fetched. Equality and cloning are only ever used by unverified
//! callers (tests and the surrounding application); verified code moves
//! the values and reads their fields.

use vstd::prelude::*;

verus! {

/// A link embedded in a message.
#[derive(Clone, Debug, PartialEq)]
pub struct Url {
    pub url: String,
}

/// An @-mention inside a message, identified by the mentioned user's
/// screen name.
#[derive(Clone, Debug, PartialEq)]
pub struct Mention {
    pub screen_name: String,
}

/// A user account. The local user is fetched once at startup; remote
/// users arrive embedded in messages.
#[derive(Clone, Debug, PartialEq)]
pub struct User {
    pub id: String,
    pub username: String,
    pub display_name: String,
    pub url: String,
    pub avatar_url_small: String,
    pub avatar_url_medium: String,
}

/// A chat room. The full set is fetched once at startup and never
/// refreshed during the session.
#[derive(Clone, Debug, PartialEq)]
pub struct Room {
    pub id: String,
    pub name: String,
    pub topic: String,
    pub url: String,
    pub one_to_one: bool,
    pub mentions: u32,
    pub github_type: String,
    pub lurk: bool,
}

/// A chat message. Ordering is defined by the server-assigned sequence:
/// a fetched page is oldest first, newest last.
#[derive(Clone, Debug, PartialEq)]
pub struct Message {
    pub id: String,
    pub text: String,
    pub html: String,
    pub sent: String,
    pub from_user: User,
    pub unread: bool,
    pub read_by: i32,
    pub urls: Vec<Url>,
    pub mentions: Vec<Mention>,
    pub v: i32,
}

} // verus!
