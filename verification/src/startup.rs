//! Making sure that there is a daemon to talk to.
use crate::error::StayError;
use vstd::prelude::*;
use vstd::string::*;

verus! {

/// How long a daemon that was just launched is waited for, in milliseconds.
pub const START_PATIENCE_MS: u64 = 3000;

/// The pause between two attempts to reach it, in milliseconds.
pub const START_PAUSE_MS: u64 = 50;

/// What a client that needs the daemon does.
#[derive(Clone, Copy, Debug, PartialEq, Eq, Structural)]
pub enum StartState {
    /// Tries whether the daemon is there.
    Probing,
    /// Looks at the clock.
    Waiting,
    /// Tries whether the daemon that was launched is there.
    Connecting,
    /// Talks to the daemon.
    Ready,
    /// Gives up.
    Failed,
}

/// What happens to a client that needs the daemon.
#[derive(Clone, Copy, Debug, PartialEq, Eq, Structural)]
pub enum StartEvent {
    /// The daemon was reached, or not.
    Reached(bool),
    /// So many milliseconds have passed since it was launched.
    Clock(u64),
}

/// What a client that needs the daemon does next: launches it, or pauses, or
/// neither, and goes on in `state`.
#[derive(Clone, Copy, Debug, PartialEq, Eq, Structural)]
pub struct StartMove {
    pub state: StartState,
    pub launch: bool,
    pub pause_ms: u64,
}

/// An event is one that the state waits for.
pub open spec fn start_awaits(state: StartState, event: StartEvent) -> bool {
    match state {
        StartState::Probing | StartState::Connecting => event is Reached,
        StartState::Waiting => event is Clock,
        StartState::Ready | StartState::Failed => false,
    }
}

/// What a client that needs the daemon does next.
pub open spec fn start_move(state: StartState, event: StartEvent) -> StartMove {
    match event {
        StartEvent::Reached(true) => StartMove {
            state: StartState::Ready,
            launch: false,
            pause_ms: 0,
        },
        StartEvent::Reached(false) => StartMove {
            state: StartState::Waiting,
            launch: state == StartState::Probing,
            pause_ms: if state == StartState::Probing {
                0
            } else {
                START_PAUSE_MS
            },
        },
        StartEvent::Clock(elapsed_ms) => StartMove {
            state: if elapsed_ms < START_PATIENCE_MS {
                StartState::Connecting
            } else {
                StartState::Failed
            },
            launch: false,
            pause_ms: 0,
        },
    }
}

/// What a client that needs the daemon does next.
pub fn start_step(state: StartState, event: StartEvent) -> (next: StartMove)
    requires
        start_awaits(state, event),
    ensures
        next == start_move(state, event),
{
    match event {
        StartEvent::Reached(reached) => if reached {
            StartMove { state: StartState::Ready, launch: false, pause_ms: 0 }
        } else if state == StartState::Probing {
            StartMove { state: StartState::Waiting, launch: true, pause_ms: 0 }
        } else {
            StartMove { state: StartState::Waiting, launch: false, pause_ms: START_PAUSE_MS }
        },
        StartEvent::Clock(elapsed_ms) => {
            let state = if elapsed_ms < START_PATIENCE_MS {
                StartState::Connecting
            } else {
                StartState::Failed
            };
            StartMove { state, launch: false, pause_ms: 0 }
        },
    }
}

/// The error of a client that gave up on the daemon.
pub fn start_timeout() -> (error: StayError)
    ensures
        error@ == "Failed to start stay daemon."@,
{
    StayError::new("Failed to start stay daemon.")
}

/// The complaint of a daemon that cannot listen on its socket.
pub open spec fn socket_text(path: Seq<char>) -> Seq<char> {
    "Failed to create socket:\n\n"@ + path + "\n\nPlease check directory permissions."@
}

/// The error of a daemon that cannot listen on its socket.
pub fn socket_failure(path: &str) -> (error: StayError)
    ensures
        error@ == socket_text(path@),
{
    let mut message = String::new();
    message.append("Failed to create socket:\n\n");
    message.append(path);
    message.append("\n\nPlease check directory permissions.");
    assert(message@ =~= socket_text(path@));
    StayError::new(message)
}

/// A daemon that is there is never launched again, and one that is not is launched
/// once: only the first look can lead to it, and nothing leads back to that.
pub proof fn law_daemon_is_launched_once(state: StartState, event: StartEvent)
    requires
        start_awaits(state, event),
    ensures
        start_move(state, event).launch ==> state == StartState::Probing && event
            == StartEvent::Reached(false),
        start_move(state, event).state != StartState::Probing,
{
}

/// A client does not wait for ever: once its patience is over it gives up, and not
/// before.
pub proof fn law_waiting_for_the_daemon_ends(elapsed_ms: u64)
    ensures
        start_move(StartState::Waiting, StartEvent::Clock(elapsed_ms)).state == StartState::Failed
            <==> elapsed_ms >= START_PATIENCE_MS,
{
}

/// A daemon that is reached is used; one that is not there at first is launched and
/// waited for; one that was launched is tried again every twentieth of a second, for
/// three seconds.
pub proof fn law_daemon_is_reached_or_launched(state: StartState, elapsed_ms: u64)
    ensures
        start_move(state, StartEvent::Reached(true)) == (StartMove {
            state: StartState::Ready,
            launch: false,
            pause_ms: 0,
        }),
        start_move(StartState::Probing, StartEvent::Reached(false)) == (StartMove {
            state: StartState::Waiting,
            launch: true,
            pause_ms: 0,
        }),
        start_move(StartState::Connecting, StartEvent::Reached(false)) == (StartMove {
            state: StartState::Waiting,
            launch: false,
            pause_ms: 50,
        }),
        elapsed_ms < 3000 ==> start_move(StartState::Waiting, StartEvent::Clock(elapsed_ms)) == (
        StartMove { state: StartState::Connecting, launch: false, pause_ms: 0 }),
        elapsed_ms >= 3000 ==> start_move(StartState::Waiting, StartEvent::Clock(elapsed_ms)) == (
        StartMove { state: StartState::Failed, launch: false, pause_ms: 0 }),
{
}

/// The complaint about a socket names it.
pub proof fn law_socket_complaint_names_it(path: Seq<char>)
    ensures
        socket_text(path) == "Failed to create socket:\n\n"@ + path
            + "\n\nPlease check directory permissions."@,
{
}

} // verus!
