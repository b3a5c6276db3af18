//! When the dashboard's poller connects, fetches, hands on snapshots,
//! reports errors and waits: its decisions, as steps from a state and an
//! event to the next state and the actions to perform.

use vstd::prelude::*;

verus! {

/// Whether the poller holds a connection.
#[derive(Clone, Copy, Debug, PartialEq, Eq, Structural)]
pub enum PollState {
    Disconnected,
    Connected,
}

/// What came of the last action.
#[derive(Debug)]
pub enum PollEvent {
    /// The connection was made.
    ConnectOk,
    /// The connection failed, for the reason given.
    ConnectFailed(String),
    /// A snapshot was fetched.
    FetchOk,
    /// Fetching a snapshot failed, for the reason given.
    FetchFailed(String),
    /// The snapshot was handed on.
    Delivered,
    /// Nobody takes snapshots any more.
    ReceiverGone,
}

/// What the poller does next.
#[derive(Debug)]
pub enum PollAction {
    /// Connect to the server.
    Connect,
    /// Fetch a snapshot.
    Fetch,
    /// Hand on the snapshot just fetched.
    Deliver,
    /// Hand on an error message.
    Report(String),
    /// Wait the poll interval.
    WaitInterval,
    /// Wait before connecting again.
    WaitRetry,
    /// Stop polling.
    Stop,
}

/// An action as the contracts see it, a report by the text of its message.
pub enum Planned {
    Connect,
    Fetch,
    Deliver,
    Report(Seq<char>),
    WaitInterval,
    WaitRetry,
    Stop,
}

impl View for PollAction {
    type V = Planned;

    open spec fn view(&self) -> Planned {
        match self {
            PollAction::Connect => Planned::Connect,
            PollAction::Fetch => Planned::Fetch,
            PollAction::Deliver => Planned::Deliver,
            PollAction::Report(m) => Planned::Report(m@),
            PollAction::WaitInterval => Planned::WaitInterval,
            PollAction::WaitRetry => Planned::WaitRetry,
            PollAction::Stop => Planned::Stop,
        }
    }
}

/// The actions of `v`, as the contracts see them.
pub open spec fn planned(v: Seq<PollAction>) -> Seq<Planned> {
    v.map_values(|a: PollAction| a@)
}

/// The state and actions that follow `event` in `state`: a fetched
/// snapshot is handed on; once handed on, the next comes after the poll
/// interval; a failed fetch is reported and the poller connects again at
/// once; a failed connection is reported as such and retried after a
/// wait; the poller stops when nobody takes snapshots. An event that
/// cannot happen in the state leads nowhere.
pub open spec fn poll_next(state: PollState, event: PollEvent) -> (PollState, Seq<Planned>) {
    match (state, event) {
        (_, PollEvent::ReceiverGone) => (state, seq![Planned::Stop]),
        (PollState::Disconnected, PollEvent::ConnectOk) => (PollState::Connected, seq![Planned::Fetch]),
        (PollState::Disconnected, PollEvent::ConnectFailed(e)) => (
            PollState::Disconnected,
            seq![Planned::Report(connect_failed_message(e@)), Planned::WaitRetry, Planned::Connect],
        ),
        (PollState::Connected, PollEvent::FetchOk) => (PollState::Connected, seq![Planned::Deliver]),
        (PollState::Connected, PollEvent::FetchFailed(e)) => (
            PollState::Disconnected,
            seq![Planned::Report(e@), Planned::Connect],
        ),
        (PollState::Connected, PollEvent::Delivered) => (
            PollState::Connected,
            seq![Planned::WaitInterval, Planned::Fetch],
        ),
        _ => (state, Seq::empty()),
    }
}

/// The message that reports a failed connection.
pub open spec fn connect_failed_message(reason: Seq<char>) -> Seq<char> {
    "Connect failed: "@ + reason
}

/// After a failure the poller connects again: a failed fetch or a failed
/// connection leaves it disconnected, with connecting as its last action,
/// after reporting the failure.
pub proof fn law_poller_reconnects(reason: String)
    ensures
        ({
            let (s, acts) = poll_next(PollState::Connected, PollEvent::FetchFailed(reason));
            &&& s == PollState::Disconnected
            &&& acts.len() > 0 && acts.last() == Planned::Connect
            &&& acts[0] == Planned::Report(reason@)
        }),
        ({
            let (s, acts) = poll_next(PollState::Disconnected, PollEvent::ConnectFailed(reason));
            &&& s == PollState::Disconnected
            &&& acts.len() > 0 && acts.last() == Planned::Connect
            &&& acts[0] == Planned::Report(connect_failed_message(reason@))
        }),
{
}

/// The poller stops exactly when nobody takes its snapshots any more.
pub proof fn law_poller_stops_only_when_unheard(state: PollState, event: PollEvent)
    ensures
        poll_next(state, event).1.contains(Planned::Stop) <==> event is ReceiverGone,
{
    let acts = poll_next(state, event).1;
    if event is ReceiverGone {
        assert(acts[0] == Planned::Stop);
    } else if acts.contains(Planned::Stop) {
        let i = choose|i: int| 0 <= i < acts.len() && acts[i] == Planned::Stop;
        assert(acts[i] == Planned::Stop);
    }
}

/// The poller fetches only over a connection and connects only without
/// one; it hands on a snapshot exactly after a fetch over its connection
/// succeeded, and waits the poll interval exactly after handing one on.
pub proof fn law_poller_actions_fit_state(state: PollState, event: PollEvent)
    ensures
        ({
            let (next, acts) = poll_next(state, event);
            &&& acts.contains(Planned::Fetch) ==> next == PollState::Connected
            &&& acts.contains(Planned::Connect) ==> next == PollState::Disconnected
            &&& acts.contains(Planned::Deliver) <==> (state == PollState::Connected && event is FetchOk)
            &&& acts.contains(Planned::WaitInterval) <==> (state == PollState::Connected
                && event is Delivered)
        }),
{
    let (next, acts) = poll_next(state, event);
    if acts.contains(Planned::Fetch) {
        let i = choose|i: int| 0 <= i < acts.len() && acts[i] == Planned::Fetch;
        assert(acts[i] == Planned::Fetch);
    }
    if acts.contains(Planned::Connect) {
        let i = choose|i: int| 0 <= i < acts.len() && acts[i] == Planned::Connect;
        assert(acts[i] == Planned::Connect);
    }
    if acts.contains(Planned::Deliver) {
        let i = choose|i: int| 0 <= i < acts.len() && acts[i] == Planned::Deliver;
        assert(acts[i] == Planned::Deliver);
    }
    if acts.contains(Planned::WaitInterval) {
        let i = choose|i: int| 0 <= i < acts.len() && acts[i] == Planned::WaitInterval;
        assert(acts[i] == Planned::WaitInterval);
    }
    if state == PollState::Connected && event is FetchOk {
        assert(acts[0] == Planned::Deliver);
    }
    if state == PollState::Connected && event is Delivered {
        assert(acts[0] == Planned::WaitInterval);
    }
}

/// How the poller starts: disconnected, about to connect.
pub fn poll_start() -> (r: (PollState, Vec<PollAction>))
    ensures
        r.0 == PollState::Disconnected,
        planned(r.1@) == seq![Planned::Connect],
{
    let mut actions = Vec::new();
    actions.push(PollAction::Connect);
    assert(planned(actions@) =~= seq![Planned::Connect]);
    (PollState::Disconnected, actions)
}

/// The state and actions that follow `event` in `state`.
pub fn poll_step(state: PollState, event: PollEvent) -> (r: (PollState, Vec<PollAction>))
    ensures
        r.0 == poll_next(state, event).0,
        planned(r.1@) == poll_next(state, event).1,
{
    let ghost expected = poll_next(state, event).1;
    let mut actions: Vec<PollAction> = Vec::new();
    let next = match (state, event) {
        (_, PollEvent::ReceiverGone) => {
            actions.push(PollAction::Stop);
            state
        },
        (PollState::Disconnected, PollEvent::ConnectOk) => {
            actions.push(PollAction::Fetch);
            PollState::Connected
        },
        (PollState::Disconnected, PollEvent::ConnectFailed(e)) => {
            let mut msg = String::new();
            msg.append("Connect failed: ");
            msg.append(e.as_str());
            actions.push(PollAction::Report(msg));
            actions.push(PollAction::WaitRetry);
            actions.push(PollAction::Connect);
            PollState::Disconnected
        },
        (PollState::Connected, PollEvent::FetchOk) => {
            actions.push(PollAction::Deliver);
            PollState::Connected
        },
        (PollState::Connected, PollEvent::FetchFailed(e)) => {
            actions.push(PollAction::Report(e));
            actions.push(PollAction::Connect);
            PollState::Disconnected
        },
        (PollState::Connected, PollEvent::Delivered) => {
            actions.push(PollAction::WaitInterval);
            actions.push(PollAction::Fetch);
            PollState::Connected
        },
        _ => state,
    };
    assert(planned(actions@) =~= expected);
    (next, actions)
}

} // verus!
