//! The values that the calendar shows: users, games and gaming sessions.

use vstd::prelude::*;

verus! {

/// A participant, identified by display name, with a picture reference.
#[derive(Clone, Debug)]
pub struct User {
    pub name: String,
    pub picture: String,
}

impl User {
    pub fn get_name(&self) -> (r: String)
        ensures
            r@ == self.name@,
    {
        self.name.clone()
    }

    pub fn get_picture(&self) -> (r: String)
        ensures
            r@ == self.picture@,
    {
        self.picture.clone()
    }
}

/// A game as shown on an event card.
#[derive(Clone, Debug)]
pub struct Game {
    pub title: String,
    pub cover_url: String,
}

impl Game {
    pub fn get_title(&self) -> (r: String)
        ensures
            r@ == self.title@,
    {
        self.title.clone()
    }

    pub fn get_cover_url(&self) -> (r: String)
        ensures
            r@ == self.cover_url@,
    {
        self.cover_url.clone()
    }
}

/// A gaming session ("event") of one group. Times are UTC seconds since the
/// Unix epoch; the interval is `[start_time, end_time)`.
#[derive(Clone, Debug)]
pub struct GamingSession {
    pub server_id: String,
    pub session_id: i64,
    pub title: String,
    pub start_time: i64,
    pub end_time: i64,
    pub owner: User,
    pub participants: Vec<User>,
    pub game: Option<String>,
}

} // verus!
