use crate::subscriber::SubscriberError;
use vstd::prelude::*;

verus! {

/// How long a worker waits after a transport fault before it opens the next
/// session, in seconds.
pub const RETRY_DELAY_SECS: u64 = 3;

/// Where the worker of one credential stands.
#[derive(Clone, Copy, Debug, PartialEq, Eq, Structural)]
pub enum SessionState {
    /// No session is open.
    Idle,
    /// A stream is open on a snapshot of the filter set.
    Running,
    /// The session is being torn down.
    Stopping,
    /// The worker has ended for good.
    Terminated,
}

/// What happens to a worker.
#[derive(Clone, Copy, Debug, PartialEq, Eq, Structural)]
pub enum SessionEvent {
    /// A rebalance request for the credential was taken from the queue.
    /// `watching` says whether the credential is registered and has a filter
    /// set that is not empty.
    Rebalance { watching: bool },
    /// The stream delivered a message.
    Message,
    /// The stream failed. `alive` says whether the liveness probe that
    /// followed gave the expected handle.
    Fault { alive: bool },
    /// The cancellation handle of the session was signalled.
    Cancelled,
    /// The credential was removed.
    Removed,
    /// The teardown of the session is complete. `watching` as for a
    /// rebalance, at this moment.
    Drained { watching: bool },
}

/// What the worker has to do next.
#[derive(Clone, Copy, Debug, PartialEq, Eq, Structural)]
pub enum SessionAction {
    /// Nothing.
    Nothing,
    /// Open a stream pinned to the current filter set and keep its
    /// cancellation handle.
    Open,
    /// Put the message on the inbound queue.
    Forward,
    /// Close the stream and report when it is drained.
    Stop,
    /// Close the stream, wait for the retry delay, then report that it is
    /// drained.
    Backoff,
    /// Close the stream and remove the credential.
    RemoveCredential,
}

/// The transition table of a worker. A session opens only for a credential
/// that has something to watch; a fault with a live credential restarts the
/// session after the retry delay, and one with a dead credential removes it;
/// nothing leaves `Terminated`; an event that has no meaning in a state
/// changes nothing.
pub open spec fn spec_session_step(state: SessionState, event: SessionEvent) -> (
    SessionState,
    SessionAction,
) {
    match (state, event) {
        (SessionState::Idle, SessionEvent::Rebalance { watching }) => if watching {
            (SessionState::Running, SessionAction::Open)
        } else {
            (SessionState::Terminated, SessionAction::Nothing)
        },
        (SessionState::Idle, SessionEvent::Removed) => (
            SessionState::Terminated,
            SessionAction::Nothing,
        ),
        (SessionState::Running, SessionEvent::Message) => (
            SessionState::Running,
            SessionAction::Forward,
        ),
        (SessionState::Running, SessionEvent::Rebalance { watching }) => (
            SessionState::Stopping,
            SessionAction::Stop,
        ),
        (SessionState::Running, SessionEvent::Cancelled) => (
            SessionState::Stopping,
            SessionAction::Stop,
        ),
        (SessionState::Running, SessionEvent::Fault { alive }) => if alive {
            (SessionState::Stopping, SessionAction::Backoff)
        } else {
            (SessionState::Terminated, SessionAction::RemoveCredential)
        },
        (SessionState::Running, SessionEvent::Removed) => (
            SessionState::Terminated,
            SessionAction::Stop,
        ),
        (SessionState::Stopping, SessionEvent::Drained { watching }) => if watching {
            (SessionState::Running, SessionAction::Open)
        } else {
            (SessionState::Terminated, SessionAction::Nothing)
        },
        (SessionState::Stopping, SessionEvent::Removed) => (
            SessionState::Terminated,
            SessionAction::Nothing,
        ),
        _ => (state, SessionAction::Nothing),
    }
}

/// The next state of a worker and what it has to do.
pub fn session_step(state: SessionState, event: SessionEvent) -> (r: (SessionState, SessionAction))
    ensures
        r == spec_session_step(state, event),
{
    match state {
        SessionState::Idle => match event {
            SessionEvent::Rebalance { watching } => if watching {
                (SessionState::Running, SessionAction::Open)
            } else {
                (SessionState::Terminated, SessionAction::Nothing)
            },
            SessionEvent::Removed => (SessionState::Terminated, SessionAction::Nothing),
            _ => (state, SessionAction::Nothing),
        },
        SessionState::Running => match event {
            SessionEvent::Message => (SessionState::Running, SessionAction::Forward),
            SessionEvent::Rebalance { watching: _ } => (SessionState::Stopping, SessionAction::Stop),
            SessionEvent::Cancelled => (SessionState::Stopping, SessionAction::Stop),
            SessionEvent::Fault { alive } => if alive {
                (SessionState::Stopping, SessionAction::Backoff)
            } else {
                (SessionState::Terminated, SessionAction::RemoveCredential)
            },
            SessionEvent::Removed => (SessionState::Terminated, SessionAction::Stop),
            SessionEvent::Drained { watching: _ } => (state, SessionAction::Nothing),
        },
        SessionState::Stopping => match event {
            SessionEvent::Drained { watching } => if watching {
                (SessionState::Running, SessionAction::Open)
            } else {
                (SessionState::Terminated, SessionAction::Nothing)
            },
            SessionEvent::Removed => (SessionState::Terminated, SessionAction::Nothing),
            _ => (state, SessionAction::Nothing),
        },
        SessionState::Terminated => (state, SessionAction::Nothing),
    }
}

/// What a failure of the stream is to the worker, given what the liveness
/// probe that followed it came to: the credential is alive only where the
/// probe answered with the expected handle. An unexpected handle, a token
/// that cannot be read, and a probe without an answer all count as expiry.
pub open spec fn spec_fault_event(probe: Result<bool, SubscriberError>) -> SessionEvent {
    SessionEvent::Fault { alive: probe == Ok::<bool, SubscriberError>(true) }
}

/// The event that a failure of the stream is, given the verdict of the
/// liveness probe that followed it.
pub fn fault_event(probe: &Result<bool, SubscriberError>) -> (e: SessionEvent)
    ensures
        e == spec_fault_event(*probe),
{
    match probe {
        Ok(alive) => SessionEvent::Fault { alive: *alive },
        Err(_) => SessionEvent::Fault { alive: false },
    }
}

/// The state of a worker after a sequence of events, first to last.
pub open spec fn session_run(state: SessionState, events: Seq<SessionEvent>) -> SessionState
    decreases events.len(),
{
    if events.len() == 0 {
        state
    } else {
        spec_session_step(session_run(state, events.drop_last()), events.last()).0
    }
}

/// How many streams a worker opens from `state` on over the events, first to
/// last.
pub open spec fn sessions_opened(state: SessionState, events: Seq<SessionEvent>) -> nat
    decreases events.len(),
{
    if events.len() == 0 {
        0
    } else {
        let before = sessions_opened(state, events.drop_last());
        if spec_session_step(session_run(state, events.drop_last()), events.last()).1
            == SessionAction::Open {
            before + 1
        } else {
            before
        }
    }
}

/// How many of the events are rebalance requests.
pub open spec fn rebalances_drained(events: Seq<SessionEvent>) -> nat
    decreases events.len(),
{
    if events.len() == 0 {
        0
    } else if events.last() is Rebalance {
        rebalances_drained(events.drop_last()) + 1
    } else {
        rebalances_drained(events.drop_last())
    }
}

/// No stream fails and no session is signalled among the events.
pub open spec fn undisturbed(events: Seq<SessionEvent>) -> bool {
    forall|i: int|
        0 <= i < events.len() ==> !((#[trigger] events[i]) is Fault) && !(events[i] is Cancelled)
}

/// Coalescing: a worker that starts idle, and whose stream neither fails nor
/// is signalled, opens no more sessions than rebalance requests were
/// drained; while it is tearing a session down, it has opened fewer.
pub proof fn law_sessions_bounded_by_rebalances(events: Seq<SessionEvent>)
    requires
        undisturbed(events),
    ensures
        sessions_opened(SessionState::Idle, events) <= rebalances_drained(events),
        session_run(SessionState::Idle, events) == SessionState::Stopping ==> sessions_opened(
            SessionState::Idle,
            events,
        ) < rebalances_drained(events),
    decreases events.len(),
{
    if events.len() > 0 {
        let fewer = events.drop_last();
        assert forall|i: int| 0 <= i < fewer.len() implies !((#[trigger] fewer[i]) is Fault) && !(
        fewer[i] is Cancelled) by {
            assert(fewer[i] == events[i]);
        }
        law_sessions_bounded_by_rebalances(fewer);
        assert(!(events[events.len() - 1] is Fault) && !(events[events.len() - 1] is Cancelled));
    }
}

/// A worker that has ended stays ended, whatever happens.
pub proof fn law_terminated_is_final(events: Seq<SessionEvent>)
    ensures
        session_run(SessionState::Terminated, events) == SessionState::Terminated,
    decreases events.len(),
{
    if events.len() > 0 {
        law_terminated_is_final(events.drop_last());
    }
}

/// No orphan streams: a stream is opened only on an event that says that
/// the credential has something to watch, and a worker that learns that it
/// has nothing to watch ends.
pub proof fn law_no_orphan_stream(state: SessionState, event: SessionEvent)
    ensures
        spec_session_step(state, event).1 == SessionAction::Open ==> (event
            == SessionEvent::Rebalance { watching: true } || event == SessionEvent::Drained {
            watching: true,
        }),
        spec_session_step(state, event).1 == SessionAction::Open ==> spec_session_step(
            state,
            event,
        ).0 == SessionState::Running,
        state == SessionState::Idle && event == (SessionEvent::Rebalance { watching: false })
            ==> spec_session_step(state, event).0 == SessionState::Terminated,
        state == SessionState::Stopping && event == (SessionEvent::Drained { watching: false })
            ==> spec_session_step(state, event).0 == SessionState::Terminated,
{
}

/// Termination: whatever state a worker is in, once its credential has
/// nothing left to watch it ends within one rebalance: the request stops the
/// session, if one is open, and the drained session is not opened again.
pub proof fn law_unwatched_worker_ends(state: SessionState)
    ensures
        session_run(
            state,
            seq![
                SessionEvent::Rebalance { watching: false },
                SessionEvent::Drained { watching: false },
            ],
        ) == SessionState::Terminated,
{
    let events = seq![
        SessionEvent::Rebalance { watching: false },
        SessionEvent::Drained { watching: false },
    ];
    assert(events.drop_last() =~= seq![SessionEvent::Rebalance { watching: false }]);
    assert(events.drop_last().drop_last() =~= Seq::<SessionEvent>::empty());
    assert(session_run(state, events.drop_last().drop_last()) == state);
    assert(session_run(state, events.drop_last()) == spec_session_step(
        state,
        SessionEvent::Rebalance { watching: false },
    ).0);
}

} // verus!
