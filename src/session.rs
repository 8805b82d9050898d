//! The life of one granted session: its hand-off listener waits a bounded
//! time for the one peer it will serve, serves it until it leaves, and the
//! resource's permit is held for exactly as long as the session lives.
use vstd::prelude::*;

verus! {

/// How long a granted session waits for its peer to connect, in seconds.
pub const ACCEPT_TIMEOUT_SECS: u64 = 5;

/// Where a granted session stands.
#[derive(Debug, Clone, Copy, PartialEq, Eq, Structural)]
pub enum Session {
    /// The listener is bound and waits for the peer.
    AwaitingPeer,
    /// The peer is connected and being served.
    Serving,
    /// The session is over and its permit given back.
    Closed,
}

/// What happened to a granted session.
#[derive(Debug, Clone, Copy, PartialEq, Eq, Structural)]
pub enum SessionEvent {
    /// The peer connected.
    Accepted,
    /// Accepting the peer failed.
    AcceptFailed,
    /// No peer connected within the accept timeout.
    TimedOut,
    /// The peer closed its connection.
    Disconnected,
    /// The connection failed in transport.
    TransportFailed,
}

impl SessionEvent {
    /// This event ends the session, whatever it was doing.
    pub open spec fn ends_session(self) -> bool {
        !(self is Accepted)
    }
}

impl Session {
    /// The state after `event`. Events that do not belong to the current
    /// state leave it unchanged.
    pub open spec fn next(self, event: SessionEvent) -> Session {
        match self {
            Session::AwaitingPeer => match event {
                SessionEvent::Accepted => Session::Serving,
                SessionEvent::AcceptFailed | SessionEvent::TimedOut => Session::Closed,
                _ => self,
            },
            Session::Serving => match event {
                SessionEvent::Disconnected | SessionEvent::TransportFailed => Session::Closed,
                _ => self,
            },
            Session::Closed => Session::Closed,
        }
    }

    /// The state after the events, taken in order.
    pub open spec fn run(self, events: Seq<SessionEvent>) -> Session
        decreases events.len(),
    {
        if events.len() == 0 {
            self
        } else {
            self.run(events.drop_last()).next(events.last())
        }
    }

    /// The session holds its resource's permit.
    pub open spec fn holds_permit_spec(self) -> bool {
        !(self is Closed)
    }

    /// A session just granted: it holds the permit and waits for its peer.
    pub fn new() -> (r: Session)
        ensures
            r == Session::AwaitingPeer,
            r.holds_permit_spec(),
    {
        Session::AwaitingPeer
    }

    /// Advances the session by one event.
    pub fn step(self, event: SessionEvent) -> (r: Session)
        ensures
            r == self.next(event),
    {
        match self {
            Session::AwaitingPeer => match event {
                SessionEvent::Accepted => Session::Serving,
                SessionEvent::AcceptFailed | SessionEvent::TimedOut => Session::Closed,
                _ => Session::AwaitingPeer,
            },
            Session::Serving => match event {
                SessionEvent::Disconnected | SessionEvent::TransportFailed => Session::Closed,
                _ => Session::Serving,
            },
            Session::Closed => Session::Closed,
        }
    }

    /// Whether the session holds its resource's permit.
    pub fn holds_permit(&self) -> (r: bool)
        ensures
            r == self.holds_permit_spec(),
    {
        match self {
            Session::Closed => false,
            _ => true,
        }
    }
}

proof fn lemma_run_prefix(s: Session, events: Seq<SessionEvent>, m: int)
    requires
        0 <= m < events.len(),
    ensures
        s.run(events.take(m + 1)) == s.run(events.take(m)).next(events[m]),
{
    assert(events.take(m + 1).drop_last() =~= events.take(m));
}

/// A session whose peer never connects gives its permit back once the
/// accept wait runs out: a timeout that comes before any accepted
/// connection closes the session, and it stays closed whatever follows.
pub proof fn lemma_unanswered_grant_releases_permit(events: Seq<SessionEvent>, k: int)
    requires
        0 <= k < events.len(),
        events[k] == SessionEvent::TimedOut,
        forall|j: int| 0 <= j < k ==> #[trigger] events[j] != SessionEvent::Accepted,
    ensures
        forall|m: int| k < m <= events.len() ==> !#[trigger] Session::AwaitingPeer.run(events.take(m)).holds_permit_spec(),
{
    let s = Session::AwaitingPeer;
    assert forall|m: int| k < m <= events.len() implies !#[trigger] s.run(events.take(m)).holds_permit_spec() by {
        lemma_waiting_without_peer(events, k, k);
        lemma_run_prefix(s, events, k);
        assert(s.run(events.take(k + 1)) == Session::Closed);
        lemma_closed_after(s, events, k + 1, m);
    }
}

proof fn lemma_waiting_without_peer(events: Seq<SessionEvent>, k: int, m: int)
    requires
        0 <= m <= k < events.len(),
        forall|j: int| 0 <= j < k ==> #[trigger] events[j] != SessionEvent::Accepted,
    ensures
        Session::AwaitingPeer.run(events.take(m)) == Session::AwaitingPeer
            || Session::AwaitingPeer.run(events.take(m)) == Session::Closed,
    decreases m,
{
    if m == 0 {
        assert(events.take(0) =~= Seq::<SessionEvent>::empty());
    } else {
        lemma_waiting_without_peer(events, k, m - 1);
        lemma_run_prefix(Session::AwaitingPeer, events, m - 1);
        assert(events[m - 1] != SessionEvent::Accepted);
    }
}

proof fn lemma_closed_after(s: Session, events: Seq<SessionEvent>, k: int, m: int)
    requires
        0 <= k <= m <= events.len(),
        s.run(events.take(k)) == Session::Closed,
    ensures
        s.run(events.take(m)) == Session::Closed,
    decreases m - k,
{
    if m > k {
        lemma_closed_after(s, events, k, m - 1);
        lemma_run_prefix(s, events, m - 1);
    }
}

/// A granted session gives its permit back once, when it ends, and never
/// takes it again: while the session lives it holds the permit; it lets it
/// go only on an event that ends the session (a failed or timed-out accept,
/// or the peer's connection closing or failing); after that it stays
/// released whatever follows.
pub proof fn lemma_permit_released_once_when_session_ends(events: Seq<SessionEvent>)
    ensures
        Session::AwaitingPeer.run(events.take(0)).holds_permit_spec(),
        forall|m: int|
            0 <= m < events.len() && #[trigger] Session::AwaitingPeer.run(events.take(m)).holds_permit_spec()
                && !Session::AwaitingPeer.run(events.take(m + 1)).holds_permit_spec()
            ==> events[m].ends_session(),
        forall|m1: int, m2: int|
            0 <= m1 <= m2 <= events.len()
                && !#[trigger] Session::AwaitingPeer.run(events.take(m1)).holds_permit_spec()
            ==> !#[trigger] Session::AwaitingPeer.run(events.take(m2)).holds_permit_spec(),
{
    let s = Session::AwaitingPeer;
    assert(events.take(0) =~= Seq::<SessionEvent>::empty());
    assert forall|m: int|
        0 <= m < events.len() && #[trigger] s.run(events.take(m)).holds_permit_spec()
            && !s.run(events.take(m + 1)).holds_permit_spec()
        implies events[m].ends_session() by {
        lemma_run_prefix(s, events, m);
    }
    assert forall|m1: int, m2: int|
        0 <= m1 <= m2 <= events.len() && !#[trigger] s.run(events.take(m1)).holds_permit_spec()
        implies !#[trigger] s.run(events.take(m2)).holds_permit_spec() by {
        lemma_closed_after(s, events, m1, m2);
    }
}

} // verus!
