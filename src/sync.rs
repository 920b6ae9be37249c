//! Keeps the event store consistent with the backing store: window fetches
//! tagged with sequence numbers, and optimistic create / delete / join / leave
//! mutations confirmed or failed by the store's answer.

use crate::event_store::{
    has_participant, joined, left, participants_replaced, session_index, EventStore,
};
use crate::model::{GamingSession, User};
use vstd::prelude::*;

verus! {

/// Where the latest user-initiated mutation stands.
#[derive(Clone, Copy, Debug, PartialEq, Eq, Structural)]
pub enum MutationStatus {
    Idle,
    Pending,
    Committed,
    Failed,
}

/// Errors reported by the backing store.
#[derive(Clone, Copy, Debug, PartialEq, Eq, Structural)]
pub enum SyncError {
    /// A create, delete, join or leave request failed; it may be retried.
    MutationFailed,
    /// A window fetch failed; the last contents are kept.
    FetchFailed,
}

/// What became of a fetch completion.
#[derive(Clone, Copy, Debug, PartialEq, Eq, Structural)]
pub enum FetchOutcome {
    /// The completion answered the latest request and now fills the store.
    Applied,
    /// A newer request was issued after it; it was discarded.
    Stale,
    /// The latest request failed; the store keeps its contents.
    Failed,
}

/// The state of a controller, as the contracts see it.
pub struct SyncView {
    pub events: Seq<GamingSession>,
    pub latest_issued: nat,
    pub latest_applied: nat,
    pub status: MutationStatus,
    pub error: bool,
}

impl SyncView {
    /// The latest applied completion is never newer than the latest request.
    pub open spec fn wf(self) -> bool {
        self.latest_applied <= self.latest_issued
    }
}

/// The state after the completion of fetch `seq` with `result` arrives.
pub open spec fn fetch_step(
    s: SyncView,
    seq: nat,
    result: Result<Seq<GamingSession>, SyncError>,
) -> SyncView {
    if seq == s.latest_issued && result is Ok {
        SyncView { events: result->Ok_0, latest_applied: seq, ..s }
    } else {
        s
    }
}

/// Orchestrates fetches and mutations over one event store.
pub struct SyncController {
    store: EventStore,
    latest_issued: u64,
    latest_applied: u64,
    status: MutationStatus,
    error: bool,
}

impl View for SyncController {
    type V = SyncView;

    closed spec fn view(&self) -> SyncView {
        SyncView {
            events: self.store@,
            latest_issued: self.latest_issued as nat,
            latest_applied: self.latest_applied as nat,
            status: self.status,
            error: self.error,
        }
    }
}

impl SyncController {
    pub closed spec fn wf(&self) -> bool {
        self@.wf()
    }

    pub fn new() -> (r: SyncController)
        ensures
            r.wf(),
            r@.events == Seq::<GamingSession>::empty(),
            r@.latest_issued == 0,
            r@.latest_applied == 0,
            r@.status == MutationStatus::Idle,
            !r@.error,
    {
        SyncController {
            store: EventStore::new(),
            latest_issued: 0,
            latest_applied: 0,
            status: MutationStatus::Idle,
            error: false,
        }
    }

    /// The sessions held.
    pub fn sessions(&self) -> (r: &Vec<GamingSession>)
        ensures
            r@ == self@.events,
    {
        self.store.sessions()
    }

    pub fn status(&self) -> (r: MutationStatus)
        ensures
            r == self@.status,
    {
        self.status
    }

    /// Whether the latest mutation failed and the error is shown.
    pub fn has_error(&self) -> (r: bool)
        ensures
            r == self@.error,
    {
        self.error
    }

    /// Issues a new fetch: returns its sequence number, newer than every earlier one.
    pub fn begin_fetch(&mut self) -> (seq: u64)
        requires
            old(self).wf(),
            old(self)@.latest_issued < u64::MAX,
        ensures
            final(self).wf(),
            seq == old(self)@.latest_issued + 1,
            final(self)@ == (SyncView { latest_issued: seq as nat, ..old(self)@ }),
    {
        self.latest_issued = self.latest_issued + 1;
        self.latest_issued
    }

    /// Takes the completion of fetch `seq`. Only the latest request may replace
    /// the store's contents; an older one is discarded, and a failure keeps them.
    pub fn complete_fetch(
        &mut self,
        seq: u64,
        result: Result<Vec<GamingSession>, SyncError>,
    ) -> (r: FetchOutcome)
        requires
            old(self).wf(),
        ensures
            final(self).wf(),
            final(self)@ == fetch_step(
                old(self)@,
                seq as nat,
                match result {
                    Ok(v) => Ok(v@),
                    Err(e) => Err(e),
                },
            ),
            r == (if seq as nat != old(self)@.latest_issued {
                FetchOutcome::Stale
            } else if result is Ok {
                FetchOutcome::Applied
            } else {
                FetchOutcome::Failed
            }),
    {
        if seq != self.latest_issued {
            return FetchOutcome::Stale;
        }
        match result {
            Ok(sessions) => {
                self.store.replace_all(sessions);
                self.latest_applied = seq;
                FetchOutcome::Applied
            },
            Err(_) => FetchOutcome::Failed,
        }
    }
}

impl SyncController {
    /// A create request was sent; nothing is inserted until the store answers
    /// with the session and its assigned id.
    pub fn begin_create(&mut self)
        ensures
            final(self)@ == (SyncView { status: MutationStatus::Pending, ..old(self)@ }),
    {
        self.status = MutationStatus::Pending;
    }

    /// The store answered a create request: on success the returned session is
    /// inserted and the error cleared; on failure the error is raised.
    pub fn finish_create(&mut self, result: Result<GamingSession, SyncError>)
        ensures
            match result {
                Ok(s) => final(self)@ == (SyncView {
                    events: old(self)@.events.push(s),
                    status: MutationStatus::Committed,
                    error: false,
                    ..old(self)@
                }),
                Err(_) => final(self)@ == (SyncView {
                    status: MutationStatus::Failed,
                    error: true,
                    ..old(self)@
                }),
            },
    {
        match result {
            Ok(session) => {
                self.store.insert(session);
                self.status = MutationStatus::Committed;
                self.error = false;
            },
            Err(_) => {
                self.status = MutationStatus::Failed;
                self.error = true;
            },
        }
    }

    /// Whether `user_id` owns session `session_id` (the first with that id) and
    /// so may delete it. Identity is the display name.
    pub fn can_delete(&self, session_id: i64, user_id: &String) -> (r: bool)
        ensures
            r == owns(self@.events, session_id, user_id@),
    {
        let sessions = self.store.sessions();
        let mut j: usize = 0;
        while j < sessions.len() && sessions[j].session_id != session_id
            invariant
                j <= sessions.len(),
                sessions@ == self@.events,
                session_index(sessions@, session_id, j as int) == session_index(
                    sessions@,
                    session_id,
                    0,
                ),
            decreases sessions.len() - j,
        {
            j = j + 1;
        }
        j < sessions.len() && sessions[j].owner.name == *user_id
    }

    /// The owner asks to delete session `session_id`: it is removed at once and
    /// the request is pending. Anyone else is refused and nothing changes.
    pub fn begin_delete(&mut self, session_id: i64, user_id: &String) -> (r: bool)
        ensures
            r == owns(old(self)@.events, session_id, user_id@),
            r ==> final(self)@ == (SyncView {
                events: old(self)@.events.filter(|s: GamingSession| s.session_id != session_id),
                status: MutationStatus::Pending,
                ..old(self)@
            }),
            !r ==> final(self)@ == old(self)@,
    {
        if !self.can_delete(session_id, user_id) {
            return false;
        }
        self.store.remove(session_id);
        self.status = MutationStatus::Pending;
        true
    }

    /// `user` asks to join session `session_id`: they are added at once and the
    /// request is pending.
    pub fn begin_join(&mut self, session_id: i64, user: User)
        ensures
            final(self)@.latest_issued == old(self)@.latest_issued,
            final(self)@.latest_applied == old(self)@.latest_applied,
            final(self)@.error == old(self)@.error,
            final(self)@.status == MutationStatus::Pending,
            ({
                let i = session_index(old(self)@.events, session_id, 0);
                if i < old(self)@.events.len() {
                    participants_replaced(
                        old(self)@.events,
                        final(self)@.events,
                        i,
                        joined(old(self)@.events[i].participants@, user),
                    )
                } else {
                    final(self)@.events == old(self)@.events
                }
            }),
    {
        self.store.add_participant(session_id, user);
        self.status = MutationStatus::Pending;
    }

    /// `name` asks to leave session `session_id`: they are removed at once and
    /// the request is pending.
    pub fn begin_leave(&mut self, session_id: i64, name: &String)
        ensures
            final(self)@.latest_issued == old(self)@.latest_issued,
            final(self)@.latest_applied == old(self)@.latest_applied,
            final(self)@.error == old(self)@.error,
            final(self)@.status == MutationStatus::Pending,
            ({
                let i = session_index(old(self)@.events, session_id, 0);
                if i < old(self)@.events.len() {
                    participants_replaced(
                        old(self)@.events,
                        final(self)@.events,
                        i,
                        left(old(self)@.events[i].participants@, name@),
                    )
                } else {
                    final(self)@.events == old(self)@.events
                }
            }),
    {
        self.store.remove_participant(session_id, name);
        self.status = MutationStatus::Pending;
    }

    /// The store answered a delete, join or leave request. The change made at
    /// once stands either way: success clears the error, failure raises it.
    pub fn finish_mutation(&mut self, result: Result<(), SyncError>)
        ensures
            result is Ok ==> final(self)@ == (SyncView {
                status: MutationStatus::Committed,
                error: false,
                ..old(self)@
            }),
            result is Err ==> final(self)@ == (SyncView {
                status: MutationStatus::Failed,
                error: true,
                ..old(self)@
            }),
    {
        if result.is_ok() {
            self.status = MutationStatus::Committed;
            self.error = false;
        } else {
            self.status = MutationStatus::Failed;
            self.error = true;
        }
    }
}

/// Whether the first session with id `session_id` is owned by `user_id`.
pub open spec fn owns(events: Seq<GamingSession>, session_id: i64, user_id: Seq<char>) -> bool {
    let i = session_index(events, session_id, 0);
    i < events.len() && events[i].owner.name@ == user_id
}

/// A completion older than the latest request never replaces the contents, so
/// contents filled by a newer completion are never overwritten by an older one.
pub proof fn lemma_stale_fetch_keeps_contents(
    s: SyncView,
    seq: nat,
    result: Result<Seq<GamingSession>, SyncError>,
)
    requires
        s.wf(),
        seq < s.latest_issued,
    ensures
        fetch_step(s, seq, result).events == s.events,
        fetch_step(s, seq, result) == s,
{
}

/// Once the completion of request `applied` has filled the store, a completion
/// of any older request leaves what it filled in place, whatever it carries.
pub proof fn lemma_newer_contents_survive(
    s: SyncView,
    applied: nat,
    contents: Seq<GamingSession>,
    older: nat,
    result: Result<Seq<GamingSession>, SyncError>,
)
    requires
        s.wf(),
        applied == s.latest_issued,
        older < applied,
    ensures
        fetch_step(fetch_step(s, applied, Ok(contents)), older, result).events == contents,
{
}

} // verus!
