//! The client-held collection of the sessions loaded for one window.

use crate::model::{GamingSession, User};
use vstd::prelude::*;

verus! {

/// Index of the first session, from `j` on, whose id is `id`; `s.len()` when none.
pub open spec fn session_index(s: Seq<GamingSession>, id: i64, j: int) -> int
    decreases s.len() - j,
{
    if j < 0 || j >= s.len() || s[j].session_id == id {
        j
    } else {
        session_index(s, id, j + 1)
    }
}

/// Index of the first user, from `j` on, named `name`; `u.len()` when none.
pub open spec fn participant_index(u: Seq<User>, name: Seq<char>, j: int) -> int
    decreases u.len() - j,
{
    if j < 0 || j >= u.len() || u[j].name@ == name {
        j
    } else {
        participant_index(u, name, j + 1)
    }
}

/// Whether one of `u` is named `name`.
pub open spec fn has_participant(u: Seq<User>, name: Seq<char>) -> bool {
    exists|k: int| 0 <= k < u.len() && u[k].name@ == name
}

/// `new` is `old` with the participants of its `i`-th session replaced by `parts`.
pub open spec fn participants_replaced(
    old: Seq<GamingSession>,
    new: Seq<GamingSession>,
    i: int,
    parts: Seq<User>,
) -> bool {
    &&& new.len() == old.len()
    &&& forall|k: int| 0 <= k < old.len() && k != i ==> new[k] == old[k]
    &&& new[i].server_id == old[i].server_id
    &&& new[i].session_id == old[i].session_id
    &&& new[i].title == old[i].title
    &&& new[i].start_time == old[i].start_time
    &&& new[i].end_time == old[i].end_time
    &&& new[i].owner == old[i].owner
    &&& new[i].game == old[i].game
    &&& new[i].participants@ == parts
}

/// The participants after `user` joins: unchanged if someone of that name is
/// already there, else `user` appended.
pub open spec fn joined(u: Seq<User>, user: User) -> Seq<User> {
    if has_participant(u, user.name@) {
        u
    } else {
        u.push(user)
    }
}

/// The participants after `name` leaves: the first one of that name removed.
pub open spec fn left(u: Seq<User>, name: Seq<char>) -> Seq<User> {
    let k = participant_index(u, name, 0);
    if k < u.len() {
        u.remove(k)
    } else {
        u
    }
}

proof fn lemma_participant_index(u: Seq<User>, name: Seq<char>, j: int)
    requires
        0 <= j <= u.len(),
        forall|k: int| 0 <= k < j ==> u[k].name@ != name,
    ensures
        j <= participant_index(u, name, j) <= u.len(),
        participant_index(u, name, j) < u.len() <==> has_participant(u, name),
        participant_index(u, name, j) < u.len() ==> u[participant_index(u, name, j)].name@ == name,
    decreases u.len() - j,
{
    if j < u.len() && u[j].name@ != name {
        lemma_participant_index(u, name, j + 1);
    }
}

proof fn lemma_session_index(s: Seq<GamingSession>, id: i64, j: int)
    requires
        0 <= j <= s.len(),
    ensures
        j <= session_index(s, id, j) <= s.len(),
        session_index(s, id, j) < s.len() ==> s[session_index(s, id, j)].session_id == id,
        forall|k: int| j <= k < session_index(s, id, j) ==> s[k].session_id != id,
    decreases s.len() - j,
{
    if j < s.len() && s[j].session_id != id {
        lemma_session_index(s, id, j + 1);
    }
}

/// Finds the first session with id `id`.
fn find_session(events: &Vec<GamingSession>, id: i64) -> (r: usize)
    ensures
        r == session_index(events@, id, 0),
        r <= events.len(),
{
    proof {
        lemma_session_index(events@, id, 0);
    }
    let mut j: usize = 0;
    while j < events.len() && events[j].session_id != id
        invariant
            j <= events.len(),
            session_index(events@, id, j as int) == session_index(events@, id, 0),
        decreases events.len() - j,
    {
        j = j + 1;
    }
    j
}

/// Finds the first participant named `name`.
fn find_participant(users: &Vec<User>, name: &String) -> (r: usize)
    ensures
        r == participant_index(users@, name@, 0),
        r < users.len() <==> has_participant(users@, name@),
{
    proof {
        lemma_participant_index(users@, name@, 0);
    }
    let mut j: usize = 0;
    while j < users.len() && users[j].name != *name
        invariant
            j <= users.len(),
            participant_index(users@, name@, j as int) == participant_index(users@, name@, 0),
        decreases users.len() - j,
    {
        j = j + 1;
    }
    j
}

/// The sessions loaded for the current window, in the order received.
pub struct EventStore {
    events: Vec<GamingSession>,
}

impl View for EventStore {
    type V = Seq<GamingSession>;

    closed spec fn view(&self) -> Seq<GamingSession> {
        self.events@
    }
}

impl EventStore {
    pub fn new() -> (r: EventStore)
        ensures
            r@ == Seq::<GamingSession>::empty(),
    {
        EventStore { events: Vec::new() }
    }

    /// The sessions held.
    pub fn sessions(&self) -> (r: &Vec<GamingSession>)
        ensures
            r@ == self@,
    {
        &self.events
    }

    /// Discards the held sessions and holds `sessions` instead.
    pub fn replace_all(&mut self, sessions: Vec<GamingSession>)
        ensures
            final(self)@ == sessions@,
    {
        self.events = sessions;
    }

    /// Appends a newly created session.
    pub fn insert(&mut self, session: GamingSession)
        ensures
            final(self)@ == old(self)@.push(session),
    {
        self.events.push(session);
    }

    /// Removes every session with id `session_id`.
    pub fn remove(&mut self, session_id: i64)
        ensures
            final(self)@ == old(self)@.filter(|s: GamingSession| s.session_id != session_id),
    {
        let ghost start = self.events@;
        let ghost pred = |s: GamingSession| s.session_id != session_id;
        let mut i: usize = 0;
        let mut j: usize = 0;
        proof {
            assert(start.len() == self.events.len());
        }
        while i < self.events.len()
            invariant
                j <= start.len(),
                start.len() <= usize::MAX,
                pred == (|s: GamingSession| s.session_id != session_id),
                i <= self.events.len(),
                self.events@.len() - i == start.len() - j,
                self.events@.take(i as int) == start.take(j as int).filter(pred),
                self.events@.skip(i as int) == start.skip(j as int),
            decreases self.events.len() - i,
        {
            let ghost before = self.events@;
            proof {
                assert(before.skip(i as int)[0] == start.skip(j as int)[0]);
                assert(before[i as int] == start[j as int]);
                assert(start.take(j as int + 1) =~= start.take(j as int).push(start[j as int]));
                start.take(j as int).lemma_filter_push(start[j as int], pred);
                assert(start.skip(j as int + 1) =~= start.skip(j as int).skip(1));
                assert(before.skip(i as int + 1) =~= before.skip(i as int).skip(1));
            }
            if self.events[i].session_id == session_id {
                self.events.remove(i);
                proof {
                    assert(self.events@.take(i as int) =~= before.take(i as int));
                    assert(self.events@.skip(i as int) =~= before.skip(i as int + 1));
                }
            } else {
                proof {
                    assert(before.take(i as int + 1) =~= before.take(i as int).push(before[i as int]));
                }
                i = i + 1;
            }
            j = j + 1;
        }
        proof {
            assert(start.take(j as int) =~= start);
            assert(self.events@.take(i as int) =~= self.events@);
        }
    }

    /// Whether the session `session_id` (the first with that id) has a
    /// participant named `name`.
    pub fn is_participating(&self, session_id: i64, name: &String) -> (r: bool)
        ensures
            r == (session_index(self@, session_id, 0) < self@.len() && has_participant(
                self@[session_index(self@, session_id, 0)].participants@,
                name@,
            )),
    {
        let i = find_session(&self.events, session_id);
        if i == self.events.len() {
            false
        } else {
            find_participant(&self.events[i].participants, name) < self.events[i].participants.len()
        }
    }

    /// Adds `user` to the participants of session `session_id` (the first with
    /// that id) unless someone of that name is there already. No change when no
    /// session has that id.
    pub fn add_participant(&mut self, session_id: i64, user: User)
        ensures
            ({
                let i = session_index(old(self)@, session_id, 0);
                if i < old(self)@.len() {
                    participants_replaced(
                        old(self)@,
                        final(self)@,
                        i,
                        joined(old(self)@[i].participants@, user),
                    )
                } else {
                    final(self)@ == old(self)@
                }
            }),
    {
        let i = find_session(&self.events, session_id);
        if i < self.events.len() {
            let k = find_participant(&self.events[i].participants, &user.name);
            if k >= self.events[i].participants.len() {
                let session = &mut self.events[i];
                session.participants.push(user);
            }
        }
    }

    /// Removes the first participant named `name` from session `session_id` (the
    /// first with that id). No change when no session has that id.
    pub fn remove_participant(&mut self, session_id: i64, name: &String)
        ensures
            ({
                let i = session_index(old(self)@, session_id, 0);
                if i < old(self)@.len() {
                    participants_replaced(
                        old(self)@,
                        final(self)@,
                        i,
                        left(old(self)@[i].participants@, name@),
                    )
                } else {
                    final(self)@ == old(self)@
                }
            }),
    {
        let i = find_session(&self.events, session_id);
        if i < self.events.len() {
            let k = find_participant(&self.events[i].participants, name);
            if k < self.events[i].participants.len() {
                let session = &mut self.events[i];
                session.participants.remove(k);
            }
        }
    }
}

} // verus!
