//! What is known of a session, what a client asks of the daemon, and what the
//! daemon answers.
use crate::text;
use vstd::prelude::*;
use vstd::string::*;

verus! {

/// The version of this program.
pub const VERSION: &'static str = "0.1.0";

/// Whether the command of a session runs.
#[derive(Clone, Copy, Debug, PartialEq, Eq, Structural)]
pub enum SessionState {
    /// The command runs.
    Running,
    /// The command has ended.
    Exited,
    /// The daemon that ran the command is gone.
    Stopped,
}

/// The word for a state.
pub open spec fn state_word(state: SessionState) -> Seq<char> {
    match state {
        SessionState::Running => "running"@,
        SessionState::Exited => "exited"@,
        SessionState::Stopped => "stopped"@,
    }
}

impl SessionState {
    /// The word for the state.
    pub fn word(&self) -> (word: &'static str)
        ensures
            word@ == state_word(*self),
    {
        match self {
            SessionState::Running => "running",
            SessionState::Exited => "exited",
            SessionState::Stopped => "stopped",
        }
    }
}

/// What is kept of a session, in memory and on disk.
#[derive(Debug)]
pub struct SessionRecord {
    pub name: String,
    pub cwd: String,
    pub command: Vec<String>,
    pub state: SessionState,
    pub pid: Option<i32>,
    pub created_at: String,
    pub last_attached_at: Option<String>,
    pub exit_code: Option<i32>,
}

/// The contents of a session record.
#[verifier::ext_equal]
pub struct RecordView {
    pub name: Seq<char>,
    pub cwd: Seq<char>,
    pub command: Seq<Seq<char>>,
    pub state: SessionState,
    pub pid: Option<i32>,
    pub created_at: Seq<char>,
    pub last_attached_at: Option<Seq<char>>,
    pub exit_code: Option<i32>,
}

/// The text of a string that may be missing.
pub open spec fn optional_text(value: Option<String>) -> Option<Seq<char>> {
    match value {
        Some(value) => Some(value@),
        None => None,
    }
}

/// The texts of a list of strings that may be missing.
pub open spec fn optional_texts(value: Option<Vec<String>>) -> Option<Seq<Seq<char>>> {
    match value {
        Some(value) => Some(text::texts(value@)),
        None => None,
    }
}

impl View for SessionRecord {
    type V = RecordView;

    open spec fn view(&self) -> RecordView {
        RecordView {
            name: self.name@,
            cwd: self.cwd@,
            command: text::texts(self.command@),
            state: self.state,
            pid: self.pid,
            created_at: self.created_at@,
            last_attached_at: optional_text(self.last_attached_at),
            exit_code: self.exit_code,
        }
    }
}

impl Clone for SessionRecord {
    fn clone(&self) -> (copy: Self)
        ensures
            copy@ == self@,
    {
        SessionRecord {
            name: self.name.clone(),
            cwd: self.cwd.clone(),
            command: text::copy_texts(&self.command),
            state: self.state,
            pid: self.pid,
            created_at: self.created_at.clone(),
            last_attached_at: match &self.last_attached_at {
                Some(at) => Some(at.clone()),
                None => None,
            },
            exit_code: self.exit_code,
        }
    }
}

/// What a client asks of the daemon.
#[derive(Debug)]
pub enum Request {
    Attach {
        name: String,
        cwd: String,
        command: Option<Vec<String>>,
        restart: bool,
        rows: u16,
        cols: u16,
    },
    Kill { name: String },
    List,
    Remove { name: String },
    DaemonInfo,
}

/// What the daemon answers.
#[derive(Debug)]
pub enum Response {
    AttachReady { message: String },
    Error { message: String },
    HistoryReady { state: SessionState, exit_code: Option<i32>, command: Vec<String> },
    NeedsRestart {
        name: String,
        state: SessionState,
        exit_code: Option<i32>,
        command: Vec<String>,
    },
    Success { message: String },
    Sessions { sessions: Vec<SessionRecord> },
    DaemonInfo { version: String },
}

/// The contents of a request.
#[verifier::ext_equal]
pub enum RequestView {
    Attach {
        name: Seq<char>,
        cwd: Seq<char>,
        command: Option<Seq<Seq<char>>>,
        restart: bool,
        rows: u16,
        cols: u16,
    },
    Kill { name: Seq<char> },
    List,
    Remove { name: Seq<char> },
    DaemonInfo,
}

impl View for Request {
    type V = RequestView;

    open spec fn view(&self) -> RequestView {
        match *self {
            Request::Attach { name, cwd, command, restart, rows, cols } => RequestView::Attach {
                name: name@,
                cwd: cwd@,
                command: optional_texts(command),
                restart,
                rows,
                cols,
            },
            Request::Kill { name } => RequestView::Kill { name: name@ },
            Request::List => RequestView::List,
            Request::Remove { name } => RequestView::Remove { name: name@ },
            Request::DaemonInfo => RequestView::DaemonInfo,
        }
    }
}

/// The contents of an answer.
#[verifier::ext_equal]
pub enum ResponseView {
    AttachReady { message: Seq<char> },
    Error { message: Seq<char> },
    HistoryReady { state: SessionState, exit_code: Option<i32>, command: Seq<Seq<char>> },
    NeedsRestart {
        name: Seq<char>,
        state: SessionState,
        exit_code: Option<i32>,
        command: Seq<Seq<char>>,
    },
    Success { message: Seq<char> },
    Sessions { sessions: Seq<RecordView> },
    DaemonInfo { version: Seq<char> },
}

/// The contents of a list of records.
pub open spec fn record_views(records: Seq<SessionRecord>) -> Seq<RecordView> {
    Seq::new(records.len(), |i: int| records[i]@)
}

impl View for Response {
    type V = ResponseView;

    open spec fn view(&self) -> ResponseView {
        match *self {
            Response::AttachReady { message } => ResponseView::AttachReady { message: message@ },
            Response::Error { message } => ResponseView::Error { message: message@ },
            Response::HistoryReady { state, exit_code, command } => ResponseView::HistoryReady {
                state,
                exit_code,
                command: text::texts(command@),
            },
            Response::NeedsRestart { name, state, exit_code, command } => ResponseView::NeedsRestart {
                name: name@,
                state,
                exit_code,
                command: text::texts(command@),
            },
            Response::Success { message } => ResponseView::Success { message: message@ },
            Response::Sessions { sessions } => ResponseView::Sessions {
                sessions: record_views(sessions@),
            },
            Response::DaemonInfo { version } => ResponseView::DaemonInfo { version: version@ },
        }
    }
}

/// The words for the states.
pub proof fn law_states_in_words()
    ensures
        state_word(SessionState::Running) == "running"@,
        state_word(SessionState::Exited) == "exited"@,
        state_word(SessionState::Stopped) == "stopped"@,
{
}

} // verus!
