//! The connection of a TCP destination: opened for the first record, and again after a failure.
use vstd::prelude::*;

verus! {

/// Whether the sink holds a connection.
#[derive(Debug, Clone, Copy, PartialEq, Eq, Structural)]
pub enum TcpState {
    Closed,
    Open,
}

impl Default for TcpState {
    /// A sink connects when its first record comes, not before.
    fn default() -> (r: TcpState)
        ensures
            r == TcpState::Closed,
    {
        TcpState::Closed
    }
}

/// What happened to the connection.
#[derive(Debug, Clone, Copy, PartialEq, Eq, Structural)]
pub enum TcpEvent {
    /// A record is to be sent.
    Record,
    /// The connection asked for was made.
    Connected,
    /// The connection asked for could not be made.
    ConnectFailed,
    /// The frame was written.
    Written,
    /// The frame could not be written.
    WriteFailed,
}

/// What is to be done next for a record.
#[derive(Debug, Clone, Copy, PartialEq, Eq, Structural)]
pub enum TcpAction {
    /// Connect to the address.
    Connect,
    /// Write the frame of the record.
    Write,
    /// Nothing: the record is written or dropped.
    Finish,
}

/// The next state and action.
pub open spec fn tcp_step(state: TcpState, event: TcpEvent) -> (TcpState, TcpAction) {
    match event {
        TcpEvent::Record => match state {
            TcpState::Closed => (TcpState::Closed, TcpAction::Connect),
            TcpState::Open => (TcpState::Open, TcpAction::Write),
        },
        TcpEvent::Connected => (TcpState::Open, TcpAction::Write),
        TcpEvent::ConnectFailed => (TcpState::Closed, TcpAction::Finish),
        TcpEvent::Written => (TcpState::Open, TcpAction::Finish),
        TcpEvent::WriteFailed => (TcpState::Closed, TcpAction::Finish),
    }
}

/// What the network makes of one record: whether a connection, if it is asked for, can be made,
/// and whether the frame, if it gets that far, can be written.
pub struct TcpOutcome {
    pub connects: bool,
    pub writes: bool,
}

/// What follows an action on this network; nothing follows the last one.
pub open spec fn tcp_reply(action: TcpAction, outcome: TcpOutcome) -> Option<TcpEvent> {
    match action {
        TcpAction::Connect => Some(
            if outcome.connects {
                TcpEvent::Connected
            } else {
                TcpEvent::ConnectFailed
            },
        ),
        TcpAction::Write => Some(
            if outcome.writes {
                TcpEvent::Written
            } else {
                TcpEvent::WriteFailed
            },
        ),
        TcpAction::Finish => None,
    }
}

/// The state after an event and all that follows it, and the actions on the way. At most `fuel`
/// steps are taken.
pub open spec fn tcp_run(state: TcpState, event: TcpEvent, outcome: TcpOutcome, fuel: nat) -> (
    TcpState,
    Seq<TcpAction>,
)
    decreases fuel,
{
    let (next, action) = tcp_step(state, event);
    match tcp_reply(action, outcome) {
        Some(reply) if fuel > 0 => {
            let (last, actions) = tcp_run(next, reply, outcome, (fuel - 1) as nat);
            (last, seq![action] + actions)
        },
        _ => (next, seq![action]),
    }
}

/// Whether the frame of a record is written, from this state on this network.
pub open spec fn tcp_delivers(state: TcpState, outcome: TcpOutcome) -> bool {
    (state == TcpState::Open || outcome.connects) && outcome.writes
}

/// The state after the records of a sink that was closed at first.
pub open spec fn tcp_after(outcomes: Seq<TcpOutcome>) -> TcpState
    decreases outcomes.len(),
{
    if outcomes.len() == 0 {
        TcpState::Closed
    } else {
        tcp_run(tcp_after(outcomes.drop_last()), TcpEvent::Record, outcomes.last(), 3).0
    }
}

/// A record is handled in at most three steps whatever the network does, and is never retried: it
/// connects only where there is no connection, at most once; it writes at most once, and not after
/// a failed connection; and it ends with a connection exactly when its frame was written.
pub proof fn law_tcp_never_retries(state: TcpState, outcome: TcpOutcome, fuel: nat)
    requires
        fuel >= 2,
    ensures
        tcp_run(state, TcpEvent::Record, outcome, fuel).1 == (if state == TcpState::Open {
            seq![TcpAction::Write, TcpAction::Finish]
        } else if outcome.connects {
            seq![TcpAction::Connect, TcpAction::Write, TcpAction::Finish]
        } else {
            seq![TcpAction::Connect, TcpAction::Finish]
        }),
        (tcp_run(state, TcpEvent::Record, outcome, fuel).0 == TcpState::Open) == tcp_delivers(
            state,
            outcome,
        ),
        tcp_delivers(state, outcome) <==> (state == TcpState::Open || outcome.connects)
            && outcome.writes,
{
    reveal_with_fuel(tcp_run, 4);
    let actions = tcp_run(state, TcpEvent::Record, outcome, fuel).1;
    if state == TcpState::Open {
        assert(actions =~= seq![TcpAction::Write, TcpAction::Finish]);
    } else if outcome.connects {
        assert(actions =~= seq![TcpAction::Connect, TcpAction::Write, TcpAction::Finish]);
    } else {
        assert(actions =~= seq![TcpAction::Connect, TcpAction::Finish]);
    }
}

/// The sink connects for its first record, and again for the record after one that was not
/// delivered, and for no other.
pub proof fn law_tcp_connects_lazily_and_again(outcomes: Seq<TcpOutcome>)
    ensures
        tcp_step(tcp_after(outcomes), TcpEvent::Record).1 == (if outcomes.len() > 0
            && tcp_delivers(tcp_after(outcomes.drop_last()), outcomes.last()) {
            TcpAction::Write
        } else {
            TcpAction::Connect
        }),
{
    if outcomes.len() > 0 {
        law_tcp_never_retries(tcp_after(outcomes.drop_last()), outcomes.last(), 3);
    }
}

/// What one record makes of the connection, step by step. Without a connection it asks for one, and
/// writes once it has it; with one it writes at once. Whatever fails ends the record and leaves no
/// connection; a frame that was written ends it and leaves the connection open.
pub proof fn law_tcp_steps_of_a_record(state: TcpState)
    ensures
        state == TcpState::Closed ==> tcp_step(state, TcpEvent::Record).1 == TcpAction::Connect,
        state == TcpState::Open ==> tcp_step(state, TcpEvent::Record).1 == TcpAction::Write,
        tcp_step(state, TcpEvent::Record).0 == state,
        tcp_step(state, TcpEvent::Connected) == (TcpState::Open, TcpAction::Write),
        tcp_step(state, TcpEvent::ConnectFailed) == (TcpState::Closed, TcpAction::Finish),
        tcp_step(state, TcpEvent::Written) == (TcpState::Open, TcpAction::Finish),
        tcp_step(state, TcpEvent::WriteFailed) == (TcpState::Closed, TcpAction::Finish),
{
}

/// From one record to the next: after a failure of any kind the next record connects first, and
/// after a frame that was written it does not.
pub proof fn law_tcp_from_record_to_record(state: TcpState)
    ensures
        tcp_step(tcp_step(state, TcpEvent::WriteFailed).0, TcpEvent::Record).1
            == TcpAction::Connect,
        tcp_step(tcp_step(state, TcpEvent::ConnectFailed).0, TcpEvent::Record).1
            == TcpAction::Connect,
        tcp_step(tcp_step(state, TcpEvent::Written).0, TcpEvent::Record).1 == TcpAction::Write,
{
}

} // verus!
