//! Rows of the backing store and their assembly into sessions.

use crate::model::{GamingSession, User};
use crate::time_window::LocalTime;
use vstd::prelude::*;

verus! {

/// A row of the sessions table. Times are RFC 3339 text.
#[derive(Clone, Debug)]
pub struct SessionRecord {
    pub session_id: Option<i64>,
    pub server_id: String,
    pub title: String,
    pub start_time: String,
    pub end_time: String,
    pub owner: String,
    pub is_selected: bool,
    pub game: Option<String>,
}

/// A row of the users table: one participant of one session.
#[derive(Clone, Debug)]
pub struct UserRecord {
    pub session_id: i64,
    pub user_id: String,
    pub user_photo: String,
}

/// A row of the game preferences table.
#[derive(Clone, Debug)]
pub struct GamePreferenceRecord {
    pub id: i64,
    pub user_id: String,
    pub session_id: i64,
    pub suggested_game: String,
    pub is_selected: bool,
}

/// Why rows could not be assembled into a session.
#[derive(Clone, Copy, Debug, PartialEq, Eq, Structural)]
pub enum RecordError {
    /// The session row carries no id.
    MissingSessionId,
    /// No participant row belongs to the session's owner.
    OwnerNotFound,
    /// The start time is not RFC 3339 text.
    InvalidStartTime,
    /// The end time is not RFC 3339 text.
    InvalidEndTime,
}

/// The instant and offset that RFC 3339 text denotes, if it is valid RFC 3339.
pub uninterp spec fn rfc3339_instant(s: Seq<char>) -> Option<LocalTime>;

/// Relies on chrono's `DateTime::parse_from_rfc3339`: whether the text is valid
/// RFC 3339 and which instant it denotes depend on the text alone. The result is
/// read back through `timestamp` and `offset().local_minus_utc()`.
#[verifier::external_body]
pub(crate) fn parse_rfc3339(s: &str) -> (r: Option<LocalTime>)
    ensures
        r == rfc3339_instant(s@),
{
    match chrono::DateTime::parse_from_rfc3339(s) {
        Ok(d) => Some(LocalTime { timestamp: d.timestamp(), offset_seconds: d.offset().local_minus_utc() }),
        Err(_) => None,
    }
}

/// The participant that a users-table row describes.
pub open spec fn user_of(r: UserRecord) -> User {
    User { name: r.user_id, picture: r.user_photo }
}

impl From<&UserRecord> for User {
    fn from(record: &UserRecord) -> (r: User) {
        User { name: record.user_id.clone(), picture: record.user_photo.clone() }
    }
}

impl vstd::std_specs::convert::FromSpecImpl<&UserRecord> for User {
    open spec fn obeys_from_spec() -> bool {
        true
    }

    open spec fn from_spec(record: &UserRecord) -> User {
        user_of(*record)
    }
}

/// Index of the first row, from `j` on, of user `name`; `u.len()` when none.
pub open spec fn user_row_index(u: Seq<UserRecord>, name: Seq<char>, j: int) -> int
    decreases u.len() - j,
{
    if j < 0 || j >= u.len() || u[j].user_id@ == name {
        j
    } else {
        user_row_index(u, name, j + 1)
    }
}

proof fn lemma_user_row_index(u: Seq<UserRecord>, name: Seq<char>, j: int)
    requires
        0 <= j <= u.len(),
    ensures
        j <= user_row_index(u, name, j) <= u.len(),
        user_row_index(u, name, j) < u.len() ==> u[user_row_index(u, name, j)].user_id@ == name,
        forall|k: int| j <= k < user_row_index(u, name, j) ==> u[k].user_id@ != name,
    decreases u.len() - j,
{
    if j < u.len() && u[j].user_id@ != name {
        lemma_user_row_index(u, name, j + 1);
    }
}

/// Assembles a session from its row and the rows of its participants. The
/// owner is the first participant row of the owner's id; every participant row
/// becomes a participant, in order.
pub fn session_from_records(record: &SessionRecord, users: &Vec<UserRecord>) -> (r: Result<
    GamingSession,
    RecordError,
>)
    ensures
        record.session_id is None ==> r == Err::<GamingSession, RecordError>(
            RecordError::MissingSessionId,
        ),
        record.session_id is Some && user_row_index(users@, record.owner@, 0) == users@.len()
            ==> r == Err::<GamingSession, RecordError>(RecordError::OwnerNotFound),
        record.session_id is Some && user_row_index(users@, record.owner@, 0) < users@.len()
            && rfc3339_instant(record.start_time@) is None ==> r == Err::<
            GamingSession,
            RecordError,
        >(RecordError::InvalidStartTime),
        record.session_id is Some && user_row_index(users@, record.owner@, 0) < users@.len()
            && rfc3339_instant(record.start_time@) is Some && rfc3339_instant(record.end_time@) is None
            ==> r == Err::<GamingSession, RecordError>(RecordError::InvalidEndTime),
        r is Ok <==> record.session_id is Some && user_row_index(users@, record.owner@, 0)
            < users@.len() && rfc3339_instant(record.start_time@) is Some && rfc3339_instant(
            record.end_time@,
        ) is Some,
        r matches Ok(s) ==> {
            &&& s.session_id == record.session_id->Some_0
            &&& s.server_id == record.server_id
            &&& s.title == record.title
            &&& s.start_time == rfc3339_instant(record.start_time@)->Some_0.timestamp
            &&& s.end_time == rfc3339_instant(record.end_time@)->Some_0.timestamp
            &&& s.owner == user_of(users@[user_row_index(users@, record.owner@, 0)])
            &&& s.participants@ == users@.map_values(|u: UserRecord| user_of(u))
            &&& s.game == record.game
        },
{
    let session_id = match record.session_id {
        Some(id) => id,
        None => return Err(RecordError::MissingSessionId),
    };
    proof {
        lemma_user_row_index(users@, record.owner@, 0);
    }
    let mut j: usize = 0;
    while j < users.len() && users[j].user_id != record.owner
        invariant
            j <= users.len(),
            user_row_index(users@, record.owner@, j as int) == user_row_index(
                users@,
                record.owner@,
                0,
            ),
        decreases users.len() - j,
    {
        j = j + 1;
    }
    if j == users.len() {
        return Err(RecordError::OwnerNotFound);
    }
    let owner = User::from(&users[j]);
    let start = match parse_rfc3339(record.start_time.as_str()) {
        Some(t) => t,
        None => return Err(RecordError::InvalidStartTime),
    };
    let end = match parse_rfc3339(record.end_time.as_str()) {
        Some(t) => t,
        None => return Err(RecordError::InvalidEndTime),
    };
    let mut participants: Vec<User> = Vec::new();
    let mut i: usize = 0;
    while i < users.len()
        invariant
            i <= users.len(),
            participants@ == users@.take(i as int).map_values(|u: UserRecord| user_of(u)),
        decreases users.len() - i,
    {
        participants.push(User::from(&users[i]));
        proof {
            assert(users@.take(i as int + 1).map_values(|u: UserRecord| user_of(u))
                =~= users@.take(i as int).map_values(|u: UserRecord| user_of(u)).push(
                user_of(users@[i as int]),
            ));
        }
        i = i + 1;
    }
    proof {
        assert(users@.take(users.len() as int) =~= users@);
    }
    let game = match &record.game {
        Some(g) => Some(g.clone()),
        None => None,
    };
    Ok(GamingSession {
        server_id: record.server_id.clone(),
        session_id,
        title: record.title.clone(),
        start_time: start.timestamp,
        end_time: end.timestamp,
        owner,
        participants,
        game,
    })
}

} // verus!
