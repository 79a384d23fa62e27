//! Parked transfer sessions, and when they are let go.
//!
//! A session lives only as long as someone holds it. The manager holds each one from the moment it
//! is opened until it detaches, fails or is left alone for too long.

use crate::ids::{LogicalResourceId, SessionId};
use crate::message::{part_views, MessagePart, PartView};
use crate::ordered::KeySet;
use crate::time::{max_nat, min_nat, Duration, NANOS_PER_MILLI, NANOS_PER_SEC};
use dashmap::DashMap;
use vstd::prelude::*;

verus! {

/// The map of `dashmap`, as it stands; what it holds is named by [`parked`].
#[verifier::external_type_specification]
#[verifier::external_body]
#[verifier::reject_recursive_types(K)]
#[verifier::reject_recursive_types(V)]
#[verifier::reject_recursive_types(S)]
pub struct ExDashMap<K, V, S>(DashMap<K, V, S>);

/// Session handles by session identifier.
pub type ParkedSessions = DashMap<u128, u64>;

/// The sessions that a map holds: the handle of each under its identifier.
pub uninterp spec fn parked(sessions: ParkedSessions) -> Map<u128, u64>;

/// Calls `DashMap::new`, which makes a map without entries.
#[verifier::external_body]
fn park_new() -> (r: ParkedSessions)
    ensures
        parked(r).dom() == Set::<u128>::empty(),
{
    DashMap::new()
}

/// Calls `DashMap::insert`, which puts a value under a key and hands back the one it replaces.
#[verifier::external_body]
fn park_insert(sessions: &mut ParkedSessions, id: u128, handle: u64) -> (r: Option<u64>)
    ensures
        parked(*final(sessions)) == parked(*old(sessions)).insert(id, handle),
        r == if parked(*old(sessions)).contains_key(id) {
            Some(parked(*old(sessions))[id])
        } else {
            None
        },
{
    sessions.insert(id, handle)
}

/// Calls `DashMap::get`, which finds the value under a key; it is copied out at once.
#[verifier::external_body]
fn park_get(sessions: &ParkedSessions, id: u128) -> (r: Option<u64>)
    ensures
        r == if parked(*sessions).contains_key(id) {
            Some(parked(*sessions)[id])
        } else {
            None
        },
{
    sessions.get(&id).map(|entry| *entry)
}

/// Calls `DashMap::remove`, which takes the entry of a key out of the map.
#[verifier::external_body]
fn park_remove(sessions: &mut ParkedSessions, id: u128) -> (r: Option<u64>)
    ensures
        parked(*final(sessions)) == parked(*old(sessions)).remove(id),
        r == if parked(*old(sessions)).contains_key(id) {
            Some(parked(*old(sessions))[id])
        } else {
            None
        },
{
    sessions.remove(&id).map(|entry| entry.1)
}

/// Calls `DashMap::len`, which counts the entries.
#[verifier::external_body]
fn park_len(sessions: &ParkedSessions) -> (r: usize)
    ensures
        r == parked(*sessions).len(),
{
    sessions.len()
}

/// Calls `DashMap::is_empty`, which says whether there is no entry.
#[verifier::external_body]
fn park_is_empty(sessions: &ParkedSessions) -> (r: bool)
    ensures
        r == (parked(*sessions).dom() == Set::<u128>::empty()),
{
    sessions.is_empty()
}

/// What stands for one live session.
#[derive(Clone, Copy, Debug, PartialEq, Eq, Structural)]
pub struct SessionHandle(pub u64);

/// The mathematical content of a [`SessionManager`].
pub struct ManagerView {
    pub sessions: Map<u128, u64>,
    pub watchdog: nat,
}

/// Live sessions by identifier.
pub struct SessionManager {
    sessions: ParkedSessions,
    watchdog: Duration,
}

impl View for SessionManager {
    type V = ManagerView;

    closed spec fn view(&self) -> ManagerView {
        ManagerView { sessions: parked(self.sessions), watchdog: self.watchdog@ }
    }
}

/// How long a session may be idle: as asked for, but within the configured limit and never less
/// than a millisecond.
pub open spec fn granted_watchdog(requested: nat, configured: nat) -> nat {
    max_nat(min_nat(requested, configured), NANOS_PER_MILLI as nat)
}

/// A parked handle, where there is one.
pub open spec fn handle_at(sessions: Map<u128, u64>, id: u128) -> Option<SessionHandle> {
    if sessions.contains_key(id) {
        Some(SessionHandle(sessions[id]))
    } else {
        None
    }
}

impl SessionManager {
    pub fn new(watchdog: Duration) -> (r: Self)
        ensures
            r@ == (ManagerView { sessions: Map::empty(), watchdog: watchdog@ }),
    {
        let r = SessionManager { sessions: park_new(), watchdog };
        assert(r@.sessions =~= Map::<u128, u64>::empty());
        r
    }

    /// A manager that gives every session half a minute.
    pub fn with_default_watchdog() -> (r: Self)
        ensures
            r@.sessions == Map::<u128, u64>::empty(),
            r@.watchdog == 30 * NANOS_PER_SEC,
    {
        Self::new(Duration::from_secs(30))
    }

    /// Parks a session under the configured watchdog.
    pub fn register(&mut self, session_id: SessionId, session: SessionHandle) -> (r: SessionWatch)
        ensures
            final(self)@ == (ManagerView {
                sessions: old(self)@.sessions.insert(session_id.0, session.0),
                ..old(self)@
            }),
            r@ == (WatchView {
                session_id,
                watchdog: granted_watchdog(old(self)@.watchdog, old(self)@.watchdog),
                state: WatchState::Watching,
            }),
    {
        let watchdog = self.watchdog;
        self.register_with_watchdog(session_id, session, watchdog)
    }

    /// Parks a session and starts to watch it, under a watchdog that the configured one limits.
    pub fn register_with_watchdog(
        &mut self,
        session_id: SessionId,
        session: SessionHandle,
        requested: Duration,
    ) -> (r: SessionWatch)
        ensures
            final(self)@ == (ManagerView {
                sessions: old(self)@.sessions.insert(session_id.0, session.0),
                ..old(self)@
            }),
            r@ == (WatchView {
                session_id,
                watchdog: granted_watchdog(requested@, old(self)@.watchdog),
                state: WatchState::Watching,
            }),
    {
        park_insert(&mut self.sessions, session_id.0, session.0);
        let watchdog = requested.min(self.watchdog).max(Duration::from_millis(1));
        SessionWatch { session_id, watchdog, state: WatchState::Watching }
    }

    /// Looks a live session up.
    pub fn get(&self, session_id: &SessionId) -> (r: Option<SessionHandle>)
        ensures
            r == handle_at(self@.sessions, session_id.0),
    {
        match park_get(&self.sessions, session_id.0) {
            Some(handle) => Some(SessionHandle(handle)),
            None => None,
        }
    }

    /// Lets a session go.
    pub fn remove(&mut self, session_id: &SessionId) -> (r: Option<SessionHandle>)
        ensures
            final(self)@ == (ManagerView {
                sessions: old(self)@.sessions.remove(session_id.0),
                ..old(self)@
            }),
            r == handle_at(old(self)@.sessions, session_id.0),
    {
        match park_remove(&mut self.sessions, session_id.0) {
            Some(handle) => Some(SessionHandle(handle)),
            None => None,
        }
    }

    /// The number of parked sessions.
    pub fn len(&self) -> (r: usize)
        ensures
            r == self@.sessions.len(),
    {
        park_len(&self.sessions)
    }

    pub fn is_empty(&self) -> (r: bool)
        ensures
            r == (self@.sessions == Map::<u128, u64>::empty()),
    {
        let r = park_is_empty(&self.sessions);
        proof {
            if r {
                assert(self@.sessions =~= Map::<u128, u64>::empty());
            }
        }
        r
    }
}

/// Why a session is let go.
#[derive(Clone, Copy, Debug, PartialEq, Eq, Structural)]
pub enum SessionEnd {
    Detached,
    Failed,
    StreamEnded,
    WatchdogTimeout,
}

impl SessionEnd {
    /// What the end is shown as.
    pub open spec fn parts(self) -> Seq<PartView> {
        match self {
            SessionEnd::Detached => seq![PartView::Text("session detached: "@), PartView::Cause],
            SessionEnd::Failed => seq![PartView::Text("session failed: "@), PartView::Cause],
            SessionEnd::StreamEnded => seq![PartView::Text("lifecycle stream ended"@)],
            SessionEnd::WatchdogTimeout => seq![PartView::Text("session watchdog timeout"@)],
        }
    }

    /// What the peer is told when the session closes, part by part.
    pub fn message(self) -> (r: Vec<MessagePart>)
        ensures
            part_views(r@) == self.parts(),
    {
        let parts = match self {
            SessionEnd::Detached => vec![
                MessagePart::Text("session detached: "),
                MessagePart::Cause,
            ],
            SessionEnd::Failed => vec![MessagePart::Text("session failed: "), MessagePart::Cause],
            SessionEnd::StreamEnded => vec![MessagePart::Text("lifecycle stream ended")],
            SessionEnd::WatchdogTimeout => vec![MessagePart::Text("session watchdog timeout")],
        };
        assert(part_views(parts@) =~= self.parts());
        parts
    }
}

/// Where the watch over one session stands.
#[derive(Clone, Copy, Debug, PartialEq, Eq, Structural)]
pub enum WatchState {
    Watching,
    /// Closed, but pulls may still be under way.
    Quarantined(SessionEnd),
    Evicted(SessionEnd),
}

/// What a watch is told.
#[derive(Clone, Copy, Debug, PartialEq, Eq, Structural)]
pub enum WatchEvent {
    Attached,
    Detached,
    Failed,
    StreamEnded,
    WatchdogTimeout,
    /// Whether the closed session still has pulls under way.
    Pulls { inflight: bool },
}

/// What a watch asks for.
#[derive(Clone, Copy, Debug, PartialEq, Eq, Structural)]
pub enum WatchAction {
    /// Wait for the next lifecycle event, at most for the watchdog's time.
    Wait,
    /// Close the session, then ask whether pulls are under way.
    Close(SessionEnd),
    /// Sleep for the watchdog's time, then ask again whether pulls are under way.
    Sleep,
    /// Remove the session from the manager.
    Evict(SessionEnd),
    /// The event does not belong to the state and changes nothing.
    Ignore,
}

/// The mathematical content of a [`SessionWatch`].
pub struct WatchView {
    pub session_id: SessionId,
    pub watchdog: nat,
    pub state: WatchState,
}

impl WatchView {
    pub open spec fn closing(self, end: SessionEnd) -> (WatchView, WatchAction) {
        (
            WatchView { state: WatchState::Quarantined(end), ..self },
            WatchAction::Close(end),
        )
    }

    /// Where an event takes the watch, and what it then asks for.
    pub open spec fn stepped(self, event: WatchEvent) -> (WatchView, WatchAction) {
        match (self.state, event) {
            (WatchState::Watching, WatchEvent::Attached) => (self, WatchAction::Wait),
            (WatchState::Watching, WatchEvent::Detached) => self.closing(SessionEnd::Detached),
            (WatchState::Watching, WatchEvent::Failed) => self.closing(SessionEnd::Failed),
            (WatchState::Watching, WatchEvent::StreamEnded) => self.closing(
                SessionEnd::StreamEnded,
            ),
            (WatchState::Watching, WatchEvent::WatchdogTimeout) => self.closing(
                SessionEnd::WatchdogTimeout,
            ),
            (WatchState::Quarantined(end), WatchEvent::Pulls { inflight }) => if inflight {
                (self, WatchAction::Sleep)
            } else {
                (
                    WatchView { state: WatchState::Evicted(end), ..self },
                    WatchAction::Evict(end),
                )
            },
            _ => (self, WatchAction::Ignore),
        }
    }
}

/// The watch over one parked session.
#[derive(Debug)]
pub struct SessionWatch {
    session_id: SessionId,
    watchdog: Duration,
    state: WatchState,
}

impl View for SessionWatch {
    type V = WatchView;

    closed spec fn view(&self) -> WatchView {
        WatchView {
            session_id: self.session_id,
            watchdog: self.watchdog@,
            state: self.state,
        }
    }
}

impl SessionWatch {
    pub fn session_id(&self) -> (r: SessionId)
        ensures
            r == self@.session_id,
    {
        self.session_id
    }

    pub fn watchdog(&self) -> (r: Duration)
        ensures
            r@ == self@.watchdog,
    {
        self.watchdog
    }

    fn close(&mut self, end: SessionEnd) -> (r: WatchAction)
        ensures
            (final(self)@, r) == old(self)@.closing(end),
    {
        self.state = WatchState::Quarantined(end);
        WatchAction::Close(end)
    }

    /// Takes the watch one step further.
    pub fn step(&mut self, event: WatchEvent) -> (r: WatchAction)
        ensures
            (final(self)@, r) == old(self)@.stepped(event),
    {
        match (self.state, event) {
            (WatchState::Watching, WatchEvent::Attached) => WatchAction::Wait,
            (WatchState::Watching, WatchEvent::Detached) => self.close(SessionEnd::Detached),
            (WatchState::Watching, WatchEvent::Failed) => self.close(SessionEnd::Failed),
            (WatchState::Watching, WatchEvent::StreamEnded) => self.close(SessionEnd::StreamEnded),
            (WatchState::Watching, WatchEvent::WatchdogTimeout) => self.close(
                SessionEnd::WatchdogTimeout,
            ),
            (WatchState::Quarantined(end), WatchEvent::Pulls { inflight }) => {
                if inflight {
                    WatchAction::Sleep
                } else {
                    self.state = WatchState::Evicted(end);
                    WatchAction::Evict(end)
                }
            },
            _ => WatchAction::Ignore,
        }
    }
}

/// A session is evicted only after it was closed and reported no pulls under way.
pub proof fn eviction_waits_for_pulls(watch: WatchView, event: WatchEvent)
    requires
        watch.stepped(event).1 is Evict,
    ensures
        watch.state is Quarantined,
        event == (WatchEvent::Pulls { inflight: false }),
{
}

/// Every session gets a watchdog of at least a millisecond, and none beyond the configured one
/// unless that is shorter still.
pub proof fn watchdogs_are_bounded(requested: nat, configured: nat)
    ensures
        granted_watchdog(requested, configured) >= NANOS_PER_MILLI,
        configured >= NANOS_PER_MILLI ==> granted_watchdog(requested, configured) <= configured,
{
}

/// Why a pull cannot start.
#[derive(Clone, Copy, Debug, PartialEq, Eq, Structural)]
pub enum SessionError {
    /// No block manager serves the resource.
    ResourceNotFound { resource: LogicalResourceId },
    EndpointRequired,
    NotInitialized,
}

/// The resource a request names, or the primary one, if a block manager serves it.
pub fn resolve_g2_manager(
    requested: Option<LogicalResourceId>,
    primary: LogicalResourceId,
    served: &KeySet<LogicalResourceId>,
) -> (r: Result<LogicalResourceId, SessionError>)
    ensures
        ({
            let resource = match requested {
                Some(resource) => resource,
                None => primary,
            };
            r == if served@.contains(resource) {
                Ok::<LogicalResourceId, SessionError>(resource)
            } else {
                Err(SessionError::ResourceNotFound { resource })
            }
        }),
{
    let resource = match requested {
        Some(resource) => resource,
        None => primary,
    };
    if served.contains(&resource) {
        Ok(resource)
    } else {
        Err(SessionError::ResourceNotFound { resource })
    }
}

/// Checks what a pull needs before it attaches: a served resource, an endpoint and a session
/// factory.
pub fn stage_from_session(
    requested: Option<LogicalResourceId>,
    primary: LogicalResourceId,
    served: &KeySet<LogicalResourceId>,
    endpoint: bool,
    factory: bool,
) -> (r: Result<LogicalResourceId, SessionError>)
    ensures
        ({
            let resource = match requested {
                Some(resource) => resource,
                None => primary,
            };
            r == if !served@.contains(resource) {
                Err::<LogicalResourceId, SessionError>(
                    SessionError::ResourceNotFound { resource },
                )
            } else if !endpoint {
                Err(SessionError::EndpointRequired)
            } else if !factory {
                Err(SessionError::NotInitialized)
            } else {
                Ok(resource)
            }
        }),
{
    let resource = match resolve_g2_manager(requested, primary, served) {
        Ok(resource) => resource,
        Err(e) => {
            return Err(e);
        },
    };
    if !endpoint {
        return Err(SessionError::EndpointRequired);
    }
    if !factory {
        return Err(SessionError::NotInitialized);
    }
    Ok(resource)
}

/// A session is found under its identifier from the moment it is parked until it is removed, and
/// neither touches another session.
pub proof fn parked_sessions_are_found_until_removed(
    sessions: Map<u128, u64>,
    id: u128,
    handle: u64,
    other: u128,
)
    ensures
        handle_at(sessions.insert(id, handle), id) == Some(SessionHandle(handle)),
        handle_at(sessions.remove(id), id) is None,
        other != id ==> handle_at(sessions.insert(id, handle), other) == handle_at(sessions, other),
        other != id ==> handle_at(sessions.remove(id), other) == handle_at(sessions, other),
{
}

/// A session has the time it asks for, where that lies between a millisecond and the configured
/// limit, and otherwise the bound that it crosses.
pub proof fn watchdogs_are_as_asked_within_bounds(requested: nat, configured: nat)
    requires
        configured >= 1_000_000,
    ensures
        1_000_000 <= requested <= configured ==> granted_watchdog(requested, configured)
            == requested,
        requested > configured ==> granted_watchdog(requested, configured) == configured,
        requested < 1_000_000 ==> granted_watchdog(requested, configured) == 1_000_000,
{
}

/// A watched session is closed for what ended it and then quarantined for that; it stays there while
/// pulls are under way, is evicted for the same end once none is, and never comes back.
pub proof fn sessions_are_closed_for_what_ended_them(watch: WatchView, event: WatchEvent)
    ensures
        ({
            let (after, action) = watch.stepped(event);
            &&& after.session_id == watch.session_id
            &&& after.watchdog == watch.watchdog
            &&& match watch.state {
                WatchState::Watching => match event {
                    WatchEvent::Attached => after == watch && action is Wait,
                    WatchEvent::Detached => action == WatchAction::Close(SessionEnd::Detached),
                    WatchEvent::Failed => action == WatchAction::Close(SessionEnd::Failed),
                    WatchEvent::StreamEnded => action == WatchAction::Close(
                        SessionEnd::StreamEnded,
                    ),
                    WatchEvent::WatchdogTimeout => action == WatchAction::Close(
                        SessionEnd::WatchdogTimeout,
                    ),
                    WatchEvent::Pulls { .. } => action is Ignore,
                },
                WatchState::Quarantined(end) => match event {
                    WatchEvent::Pulls { inflight } => {
                        &&& inflight ==> action is Sleep && after == watch
                        &&& !inflight ==> action == WatchAction::Evict(end) && after.state
                            == WatchState::Evicted(end)
                    },
                    _ => action is Ignore,
                },
                WatchState::Evicted(_) => action is Ignore,
            }
            &&& action matches WatchAction::Close(end) ==> after.state == WatchState::Quarantined(
                end,
            )
            &&& action is Ignore ==> after == watch
        }),
{
}

} // verus!
