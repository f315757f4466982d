//! What the daemon does with each request.
use crate::command;
use crate::command::{display_command, shell_command};
use crate::error::{StayError, StayResult};
use crate::protocol;
use crate::protocol::{
    RecordView, Request, Response, ResponseView, SessionRecord, SessionState, VERSION,
};
use crate::record;
use crate::sessions;
use crate::sessions::{ManagedSession, SessionView, Sessions};
use crate::text;
use crate::text::{copy_texts, copy_texts_from, same_texts, DIM, RESET};
use vstd::prelude::*;
use vstd::string::*;

verus! {

/// How long a command may take to end after it was asked to, in milliseconds.
pub const KILL_GRACE_MS: u64 = 2000;

/// The pause between two looks at whether it has ended, in milliseconds.
pub const KILL_PAUSE_MS: u64 = 100;

/// What a client asks for that attaches to a session.
pub struct AttachRequest {
    pub name: String,
    pub cwd: String,
    pub command: Option<Vec<String>>,
    pub restart: bool,
    pub rows: u16,
    pub cols: u16,
}

/// The contents of a request to attach.
#[verifier::ext_equal]
pub struct AttachView {
    pub name: Seq<char>,
    pub cwd: Seq<char>,
    pub command: Option<Seq<Seq<char>>>,
    pub restart: bool,
    pub rows: u16,
    pub cols: u16,
}

impl View for AttachRequest {
    type V = AttachView;

    open spec fn view(&self) -> AttachView {
        AttachView {
            name: self.name@,
            cwd: self.cwd@,
            command: protocol::optional_texts(self.command),
            restart: self.restart,
            rows: self.rows,
            cols: self.cols,
        }
    }
}

/// What follows from a request to attach.
pub enum AttachPlan {
    /// The answer is all there is.
    Reply(Response),
    /// The answer, then the saved output of the session, is all there is.
    ReplyWithHistory(Response),
    /// The session runs: keep its record, greet with the message, attach.
    Resume { message: String, record: SessionRecord },
    /// The command is to be started in the directory first.
    Start { cwd: String, command: Vec<String> },
}

/// The contents of an attach plan.
#[verifier::ext_equal]
pub enum PlanView {
    Reply(ResponseView),
    ReplyWithHistory(ResponseView),
    Resume { message: Seq<char>, record: RecordView },
    Start { cwd: Seq<char>, command: Seq<Seq<char>> },
}

impl View for AttachPlan {
    type V = PlanView;

    open spec fn view(&self) -> PlanView {
        match *self {
            AttachPlan::Reply(response) => PlanView::Reply(response@),
            AttachPlan::ReplyWithHistory(response) => PlanView::ReplyWithHistory(response@),
            AttachPlan::Resume { message, record } => PlanView::Resume {
                message: message@,
                record: record@,
            },
            AttachPlan::Start { cwd, command } => PlanView::Start {
                cwd: cwd@,
                command: text::texts(command@),
            },
        }
    }
}

/// What a client is greeted with when it comes into a session.
pub open spec fn arrival(name: Seq<char>) -> Seq<char> {
    DIM@ + "arrived in "@ + name + RESET@ + "\n\n"@
}

/// What a client is told whose command was not used.
pub open spec fn command_ignored() -> Seq<char> {
    DIM@ + "existing session kept; command ignored"@ + RESET@ + "\n"@
}

/// There is no such session.
pub open spec fn not_found(name: Seq<char>) -> Seq<char> {
    "Session not found: "@ + name
}

/// The session has no terminal.
pub open spec fn no_terminal(name: Seq<char>) -> Seq<char> {
    "Session "@ + name + " is stopped."@
}

/// Somebody else is in the session.
pub open spec fn already_attached(name: Seq<char>) -> Seq<char> {
    "Session "@ + name + " is already attached."@
}

/// The session was killed.
pub open spec fn killed(name: Seq<char>) -> Seq<char> {
    "Killed "@ + name + "."@
}

/// The session was removed.
pub open spec fn removed(name: Seq<char>) -> Seq<char> {
    "Removed "@ + name + "."@
}

/// The session runs and cannot be removed.
pub open spec fn still_running(name: Seq<char>) -> Seq<char> {
    name + " is still running.\nRun `stay kill "@ + name + "` first."@
}

/// The command could not be started.
pub open spec fn start_failed(command: Seq<Seq<char>>, reason: Seq<char>) -> Seq<char> {
    "Failed to start command:\n\n"@ + command::shown(command) + "\n\nReason:\n"@ + reason
}

/// Two texts with a name between them.
fn around(before: &str, name: &str, after: &str) -> (whole: String)
    ensures
        whole@ == before@ + name@ + after@,
{
    let mut whole = String::new();
    whole.append(before);
    whole.append(name);
    whole.append(after);
    assert(whole@ =~= before@ + name@ + after@);
    whole
}

/// What a client is greeted with when it comes into a session that runs.
pub fn space_message(name: &str) -> (message: String)
    ensures
        message@ == arrival(name@),
{
    let mut message = String::new();
    message.append(DIM);
    message.append("arrived in ");
    message.append(name);
    message.append(RESET);
    message.append("\n\n");
    assert(message@ =~= arrival(name@));
    message
}

/// What a client is greeted with when it comes into a session that was just
/// started.
pub fn new_session_message(name: &str) -> (message: String)
    ensures
        message@ == arrival(name@),
{
    space_message(name)
}

/// The answer to a command that either worked or did not.
pub fn command_response(result: StayResult<String>) -> (response: Response)
    ensures
        response@ == (match result {
            Ok(message) => ResponseView::Success { message: message@ },
            Err(error) => ResponseView::Error { message: error@ },
        }),
{
    match result {
        Ok(message) => Response::Success { message },
        Err(error) => Response::Error { message: error.into_message() },
    }
}

/// The command that a request asks for, or else `fallback`.
pub open spec fn command_or(
    command: Option<Seq<Seq<char>>>,
    fallback: Seq<Seq<char>>,
) -> Seq<Seq<char>> {
    match command {
        Some(command) => command,
        None => fallback,
    }
}

/// The message to a client that comes into a session whose command is `running`.
pub open spec fn resume_message(
    name: Seq<char>,
    asked: Option<Seq<Seq<char>>>,
    running: Seq<Seq<char>>,
) -> Seq<char> {
    match asked {
        Some(asked) => if asked == running {
            arrival(name)
        } else {
            arrival(name) + command_ignored()
        },
        None => arrival(name),
    }
}

/// What follows from a request to attach: for a name without a session, its
/// command is started. A session that runs is entered, unless somebody is in it.
/// One that does not run is shown as it ended; it is started again, where it was,
/// once the client has said so.
pub open spec fn attach_plan<M, I>(
    found: Option<SessionView<M, I>>,
    ask: AttachView,
    has_history: bool,
    shell: Option<Seq<char>>,
    alive: bool,
    stamp: Seq<char>,
) -> PlanView {
    match found {
        None => PlanView::Start {
            cwd: ask.cwd,
            command: command_or(ask.command, command::default_command(shell)),
        },
        Some(session) => {
            let record = record::refreshed(session.record, alive);
            if record.state == SessionState::Running {
                if session.attached {
                    PlanView::Reply(ResponseView::Error { message: already_attached(ask.name) })
                } else {
                    PlanView::Resume {
                        message: resume_message(ask.name, ask.command, record.command),
                        record: RecordView { last_attached_at: Some(stamp), ..record },
                    }
                }
            } else if ask.restart {
                PlanView::Start {
                    cwd: record.cwd,
                    command: command_or(ask.command, record.command),
                }
            } else if has_history {
                PlanView::ReplyWithHistory(
                    ResponseView::HistoryReady {
                        state: record.state,
                        exit_code: record.exit_code,
                        command: record.command,
                    },
                )
            } else {
                PlanView::Reply(
                    ResponseView::NeedsRestart {
                        name: ask.name,
                        state: record.state,
                        exit_code: record.exit_code,
                        command: record.command,
                    },
                )
            }
        },
    }
}

/// The session `name` in a table, if it is there.
pub open spec fn find_in<M, I>(
    table: Map<Seq<char>, SessionView<M, I>>,
    name: Seq<char>,
) -> Option<SessionView<M, I>> {
    if table.dom().contains(name) {
        Some(table[name])
    } else {
        None
    }
}

/// The table after a request to attach: the session is brought up to date, and
/// where it is entered, that is noted.
pub open spec fn attach_table<M, I>(
    table: Map<Seq<char>, SessionView<M, I>>,
    name: Seq<char>,
    alive: bool,
    stamp: Seq<char>,
) -> Map<Seq<char>, SessionView<M, I>> {
    if !table.dom().contains(name) {
        table
    } else {
        let settled = sessions::refreshed_at(table, name, alive);
        if settled[name].record.state == SessionState::Running && !settled[name].attached {
            sessions::stamped_at(settled, name, stamp)
        } else {
            settled
        }
    }
}

/// The session `name` runs, with a process that the system never says is gone.
pub open spec fn must_be_alive<M, I>(
    table: Map<Seq<char>, SessionView<M, I>>,
    name: Seq<char>,
) -> bool {
    &&& table.dom().contains(name)
    &&& table[name].record.state == SessionState::Running
    &&& table[name].record.pid is Some
    &&& !record::answered(table[name].record.pid->0, false)
}

/// The session `name` does not run, or has no process, or one that the system never
/// says is alive.
pub open spec fn cannot_be_alive<M, I>(
    table: Map<Seq<char>, SessionView<M, I>>,
    name: Seq<char>,
) -> bool {
    &&& table.dom().contains(name)
    &&& table[name].record.state != SessionState::Running || table[name].record.pid is None
        || !record::answered(table[name].record.pid->0, true)
}

/// The command that a request asks for, or else a copy of `fallback`.
fn pick_command(command: &Option<Vec<String>>, fallback: &Vec<String>) -> (picked: Vec<String>)
    ensures
        text::texts(picked@) == command_or(
            protocol::optional_texts(*command),
            text::texts(fallback@),
        ),
{
    match command {
        Some(command) => copy_texts(command),
        None => copy_texts(fallback),
    }
}

/// The message to a client that comes into a session whose command is `running`.
fn resume_text(name: &str, asked: &Option<Vec<String>>, running: &Vec<String>) -> (message: String)
    ensures
        message@ == resume_message(
            name@,
            protocol::optional_texts(*asked),
            text::texts(running@),
        ),
{
    let mut message = space_message(name);
    if let Some(asked) = asked {
        if !same_texts(asked, running) {
            message.append(DIM);
            message.append("existing session kept; command ignored");
            message.append(RESET);
            message.append("\n");
            assert(message@ =~= arrival(name@) + command_ignored());
        }
    }
    message
}

/// Takes in a request to attach, given whether the process of the session is
/// alive and what the time is.
pub fn attach_with<M, I>(
    table: &mut Sessions<M, I>,
    ask: &AttachRequest,
    has_history: bool,
    shell: Option<String>,
    alive: bool,
    stamp: String,
) -> (plan: AttachPlan)
    requires
        old(table).inv(),
    ensures
        final(table).inv(),
        sessions::have_terminals(old(table)@) ==> sessions::have_terminals(final(table)@),
        final(table)@ == attach_table(old(table)@, ask.name@, alive, stamp@),
        plan@ == attach_plan(
            find_in(old(table)@, ask.name@),
            ask@,
            has_history,
            protocol::optional_text(shell),
            alive,
            stamp@,
        ),
        !old(table)@.dom().contains(ask.name@) ==> final(table)@ == old(table)@ && plan@ == (
        PlanView::Start {
            cwd: ask.cwd@,
            command: match ask.command {
                Some(command) => text::texts(command@),
                None => match shell {
                    Some(shell) => seq![shell@],
                    None => seq!["/bin/sh"@],
                },
            },
        }),
{
    let name = ask.name.as_str();
    table.settle(name, alive);
    let mut entered = false;
    let plan = match table.get(name) {
        None => {
            let fallback = shell_command(shell);
            AttachPlan::Start {
                cwd: ask.cwd.clone(),
                command: pick_command(&ask.command, &fallback),
            }
        },
        Some(session) => {
            let record = &session.record;
            if record.state == SessionState::Running {
                if session.attached {
                    AttachPlan::Reply(
                        Response::Error {
                            message: around("Session ", name, " is already attached."),
                        },
                    )
                } else {
                    entered = true;
                    let mut record = record.clone();
                    let message = resume_text(name, &ask.command, &record.command);
                    record.last_attached_at = Some(stamp.clone());
                    AttachPlan::Resume { message, record }
                }
            } else if ask.restart {
                AttachPlan::Start {
                    cwd: record.cwd.clone(),
                    command: pick_command(&ask.command, &record.command),
                }
            } else if has_history {
                AttachPlan::ReplyWithHistory(
                    Response::HistoryReady {
                        state: record.state,
                        exit_code: record.exit_code,
                        command: copy_texts(&record.command),
                    },
                )
            } else {
                AttachPlan::Reply(
                    Response::NeedsRestart {
                        name: ask.name.clone(),
                        state: record.state,
                        exit_code: record.exit_code,
                        command: copy_texts(&record.command),
                    },
                )
            }
        },
    };
    if entered {
        table.stamp(name, stamp);
    }
    plan
}

/// Takes in a request to attach: asks whether the process of the session is
/// alive, and what the time is.
pub fn handle_attach<M, I>(
    table: &mut Sessions<M, I>,
    ask: &AttachRequest,
    has_history: bool,
    shell: Option<String>,
) -> (plan: AttachPlan)
    requires
        old(table).inv(),
    ensures
        final(table).inv(),
        sessions::have_terminals(old(table)@) ==> sessions::have_terminals(final(table)@),
        exists|alive: bool, stamp: Seq<char>|
            {
                &&& record::is_timestamp(stamp)
                &&& record::told_by_clock(stamp)
                &&& old(table)@.dom().contains(ask.name@) ==> record::said_of(
                    old(table)@[ask.name@].record,
                    alive,
                )
                &&& final(table)@ == attach_table(old(table)@, ask.name@, alive, stamp)
                &&& plan@ == #[trigger] attach_plan(
                    find_in(old(table)@, ask.name@),
                    ask@,
                    has_history,
                    protocol::optional_text(shell),
                    alive,
                    stamp,
                )
            },
        !old(table)@.dom().contains(ask.name@) ==> final(table)@ == old(table)@ && plan@ == (
        PlanView::Start {
            cwd: ask.cwd@,
            command: match ask.command {
                Some(command) => text::texts(command@),
                None => match shell {
                    Some(shell) => seq![shell@],
                    None => seq!["/bin/sh"@],
                },
            },
        }),
        must_be_alive(old(table)@, ask.name@) ==> {
            &&& old(table)@[ask.name@].attached ==> final(table)@ == old(table)@ && plan@
                == PlanView::Reply(
                ResponseView::Error {
                    message: "Session "@ + ask.name@ + " is already attached."@,
                },
            )
            &&& !old(table)@[ask.name@].attached ==> plan@ is Resume
        },
        cannot_be_alive(old(table)@, ask.name@) ==> plan@ !is Resume && (plan@ is Start
            <==> ask.restart),
{
    let alive = match table.get(ask.name.as_str()) {
        Some(session) => record::probe(&session.record),
        None => false,
    };
    let stamp = record::ask_clock();
    attach_with(table, ask, has_history, shell, alive, stamp)
}

/// How a command is started: its program and arguments, and the size of the
/// terminal.
pub struct Launch {
    pub program: String,
    pub args: Vec<String>,
    pub rows: u16,
    pub cols: u16,
}

/// How a command is started in a terminal of the given size; a terminal has at
/// least one row and one column.
pub fn launch(command: &Vec<String>, rows: u16, cols: u16) -> (launch: Launch)
    requires
        command@.len() > 0,
    ensures
        launch.program@ == command@[0]@,
        launch.args@ == command@.skip(1),
        launch.rows == (if rows == 0 {
            1
        } else {
            rows
        }),
        launch.cols == (if cols == 0 {
            1
        } else {
            cols
        }),
{
    Launch {
        program: command[0].clone(),
        args: copy_texts_from(command, 1),
        rows: if rows == 0 {
            1
        } else {
            rows
        },
        cols: if cols == 0 {
            1
        } else {
            cols
        },
    }
}

/// The error of a command that could not be started.
pub fn start_failure(command: &Vec<String>, reason: &str) -> (error: StayError)
    ensures
        error@ == start_failed(text::texts(command@), reason@),
{
    let mut message = String::new();
    message.append("Failed to start command:\n\n");
    message.append(display_command(command.as_slice()).as_str());
    message.append("\n\nReason:\n");
    message.append(reason);
    assert(message@ =~= start_failed(text::texts(command@), reason@));
    StayError::new(message)
}

/// Puts a session whose command was started into the table, in place of the one
/// that had its name, and gives the greeting.
pub fn finish_start<M, I>(
    table: &mut Sessions<M, I>,
    record: SessionRecord,
    master: M,
    io: I,
) -> (message: String)
    requires
        old(table).inv(),
    ensures
        final(table).inv(),
        sessions::have_terminals(old(table)@) ==> sessions::have_terminals(final(table)@),
        final(table)@ == old(table)@.insert(
            record.name@,
            (SessionView { record: record@, master: Some(master), io, attached: false }),
        ),
        message@ == arrival(record.name@),
{
    let message = new_session_message(record.name.as_str());
    table.insert(ManagedSession { record, master: Some(master), io, attached: false });
    message
}

/// The terminal and the output of the session that a client comes into.
pub fn attach_target<'a, M, I>(table: &'a Sessions<M, I>, name: &str) -> (target: StayResult<
    (&'a M, &'a I),
>)
    requires
        table.inv(),
    ensures
        match target {
            Ok((master, io)) => {
                &&& table@.dom().contains(name@)
                &&& table@[name@].master == Some(*master)
                &&& table@[name@].io == *io
            },
            Err(error) => if table@.dom().contains(name@) {
                table@[name@].master is None && error@ == no_terminal(name@)
            } else {
                error@ == not_found(name@)
            },
        },
{
    match table.get(name) {
        Some(session) => match &session.master {
            Some(master) => Ok((master, &session.io)),
            None => Err(StayError::new(around("Session ", name, " is stopped."))),
        },
        None => Err(session_not_found(name)),
    }
}

/// The error for a name without a session.
fn session_not_found(name: &str) -> (error: StayError)
    ensures
        error@ == not_found(name@),
{
    let message = around("Session not found: ", name, "");
    proof {
        reveal_strlit("");
    }
    assert(message@ =~= not_found(name@));
    StayError::new(message)
}

/// The process that a request to kill is about, given whether it is alive;
/// `None` where nothing runs.
pub fn kill_target_with<M, I>(table: &mut Sessions<M, I>, name: &str, alive: bool) -> (target:
    StayResult<Option<i32>>)
    requires
        old(table).inv(),
    ensures
        final(table).inv(),
        sessions::have_terminals(old(table)@) ==> sessions::have_terminals(final(table)@),
        match target {
            Ok(pid) => {
                &&& old(table)@.dom().contains(name@)
                &&& final(table)@ == sessions::refreshed_at(old(table)@, name@, alive)
                &&& pid == record::refreshed(old(table)@[name@].record, alive).pid
            },
            Err(error) => {
                &&& !old(table)@.dom().contains(name@)
                &&& final(table)@ == old(table)@
                &&& error@ == not_found(name@)
            },
        },
{
    table.settle(name, alive);
    match table.get(name) {
        Some(session) => Ok(session.record.pid),
        None => Err(session_not_found(name)),
    }
}

/// The process that a request to kill is about; asks whether it is alive.
pub fn kill_target<M, I>(table: &mut Sessions<M, I>, name: &str) -> (target: StayResult<
    Option<i32>,
>)
    requires
        old(table).inv(),
    ensures
        final(table).inv(),
        sessions::have_terminals(old(table)@) ==> sessions::have_terminals(final(table)@),
        match target {
            Ok(pid) => {
                &&& old(table)@.dom().contains(name@)
                &&& exists|alive: bool|
                    {
                        &&& record::said_of(old(table)@[name@].record, alive)
                        &&& final(table)@ == #[trigger] sessions::refreshed_at(
                            old(table)@,
                            name@,
                            alive,
                        )
                        &&& pid == record::refreshed(old(table)@[name@].record, alive).pid
                    }
            },
            Err(error) => {
                &&& !old(table)@.dom().contains(name@)
                &&& final(table)@ == old(table)@
                &&& error@ == not_found(name@)
            },
        },
        target is Ok <==> old(table)@.dom().contains(name@),
        must_be_alive(old(table)@, name@) ==> final(table)@ == old(table)@ && target is Ok
            && target->Ok_0 == old(table)@[name@].record.pid && target->Ok_0 is Some,
        cannot_be_alive(old(table)@, name@) && old(table)@[name@].record.state
            == SessionState::Running ==> target is Ok && target->Ok_0 is None,
        target is Ok && target->Ok_0 is None && old(table)@[name@].record.state
            == SessionState::Running && old(table)@[name@].record.pid is Some ==> record::answered(
            old(table)@[name@].record.pid->0,
            false,
        ),
        target is Ok && target->Ok_0 is Some ==> target->Ok_0 == old(table)@[name@].record.pid,
{
    let alive = match table.get(name) {
        Some(session) => record::probe(&session.record),
        None => false,
    };
    proof {
        if old(table)@.dom().contains(name@) && old(table)@[name@].record.pid is Some
            && old(table)@[name@].record.state == SessionState::Running {
            sessions::law_answer_decides_in_the_table(
                old(table)@,
                name@,
                old(table)@[name@].record.pid->0,
            );
        }
    }
    kill_target_with(table, name, alive)
}

/// What is done next about a process that was asked to end.
#[derive(Clone, Copy, Debug, PartialEq, Eq, Structural)]
pub enum KillStep {
    /// Pause, then look again.
    Wait,
    /// End it by force.
    Force,
    /// It is gone.
    Finish,
}

/// What is done next about a process that was asked to end `elapsed_ms` ago: as
/// long as it has time left and is found alive, it is waited for. When its time
/// is up, or it seemed gone, a second look decides.
pub open spec fn kill_step_for(elapsed_ms: u64, alive: bool, alive_at_last: bool) -> KillStep {
    if elapsed_ms < KILL_GRACE_MS && alive {
        KillStep::Wait
    } else if alive_at_last {
        KillStep::Force
    } else {
        KillStep::Finish
    }
}

/// What is done next about a process, given the two looks at it.
pub fn kill_step_with(elapsed_ms: u64, alive: bool, alive_at_last: bool) -> (step: KillStep)
    ensures
        step == kill_step_for(elapsed_ms, alive, alive_at_last),
{
    if elapsed_ms < KILL_GRACE_MS && alive {
        KillStep::Wait
    } else if alive_at_last {
        KillStep::Force
    } else {
        KillStep::Finish
    }
}

/// What is done next about the process `pid`, which was asked to end `elapsed_ms`
/// ago; looks whether it is alive.
pub fn kill_step(pid: i32, elapsed_ms: u64) -> (step: KillStep)
    ensures
        exists|alive: bool, alive_at_last: bool|
            step == #[trigger] kill_step_for(elapsed_ms, alive, alive_at_last),
        elapsed_ms >= KILL_GRACE_MS ==> step != KillStep::Wait,
        step == KillStep::Wait ==> elapsed_ms < 2000 && record::answered(pid, true),
        step == KillStep::Force ==> record::answered(pid, true),
        step == KillStep::Finish ==> record::answered(pid, false),
        step == KillStep::Force && elapsed_ms < 2000 ==> record::answered(pid, false),
        elapsed_ms < 2000 && !record::answered(pid, false) ==> step == KillStep::Wait,
        elapsed_ms >= 2000 && !record::answered(pid, false) ==> step == KillStep::Force,
        !record::answered(pid, true) ==> step == KillStep::Finish,
{
    let alive = elapsed_ms < KILL_GRACE_MS && record::ask_system(pid);
    if alive {
        return kill_step_with(elapsed_ms, alive, true);
    }
    kill_step_with(elapsed_ms, alive, record::ask_system(pid))
}

/// What is said of a session that was killed.
pub fn killed_message(name: &str) -> (message: String)
    ensures
        message@ == killed(name@),
{
    around("Killed ", name, ".")
}

/// Takes in a request to remove a session, given whether its process is alive. A
/// session that runs stays.
pub fn remove_with<M, I>(table: &mut Sessions<M, I>, name: &str, alive: bool) -> (result:
    StayResult<String>)
    requires
        old(table).inv(),
    ensures
        final(table).inv(),
        sessions::have_terminals(old(table)@) ==> sessions::have_terminals(final(table)@),
        removes(old(table)@, name@, alive, final(table)@, text_of(result)),
{
    table.settle(name, alive);
    match table.get(name) {
        None => {
            return Err(session_not_found(name));
        },
        Some(session) => {
            if session.record.state == SessionState::Running {
                let mut message = name.to_owned();
                message.append(" is still running.\nRun `stay kill ");
                message.append(name);
                message.append("` first.");
                assert(message@ =~= still_running(name@));
                return Err(StayError::new(message));
            }
        },
    }
    table.remove(name);
    assert(table@ =~= old(table)@.remove(name@));
    Ok(around("Removed ", name, "."))
}

/// The message in a result, good or bad.
pub open spec fn text_of(result: StayResult<String>) -> Result<Seq<char>, Seq<char>> {
    match result {
        Ok(message) => Ok(message@),
        Err(error) => Err(error@),
    }
}

/// What a request to remove the session `name` does to the table, and its answer.
pub open spec fn removes<M, I>(
    before: Map<Seq<char>, SessionView<M, I>>,
    name: Seq<char>,
    alive: bool,
    after: Map<Seq<char>, SessionView<M, I>>,
    answer: Result<Seq<char>, Seq<char>>,
) -> bool {
    if !before.dom().contains(name) {
        after == before && answer == Err::<Seq<char>, Seq<char>>(not_found(name))
    } else if record::refreshed(before[name].record, alive).state == SessionState::Running {
        &&& after == sessions::refreshed_at(before, name, alive)
        &&& answer == Err::<Seq<char>, Seq<char>>(still_running(name))
    } else {
        after == before.remove(name) && answer == Ok::<Seq<char>, Seq<char>>(removed(name))
    }
}

/// Takes in a request to remove a session; asks whether its process is alive.
pub fn remove_session<M, I>(table: &mut Sessions<M, I>, name: &str) -> (result: StayResult<String>)
    requires
        old(table).inv(),
    ensures
        final(table).inv(),
        sessions::have_terminals(old(table)@) ==> sessions::have_terminals(final(table)@),
        exists|alive: bool|
            {
                &&& old(table)@.dom().contains(name@) ==> record::said_of(
                    old(table)@[name@].record,
                    alive,
                )
                &&& #[trigger] removes(old(table)@, name@, alive, final(table)@, text_of(result))
            },
        must_be_alive(old(table)@, name@) ==> final(table)@ == old(table)@ && result is Err
            && result->Err_0@ == name@ + " is still running.\nRun `stay kill "@ + name@
            + "` first."@,
        cannot_be_alive(old(table)@, name@) ==> final(table)@ == old(table)@.remove(name@)
            && result is Ok && result->Ok_0@ == "Removed "@ + name@ + "."@,
        !old(table)@.dom().contains(name@) ==> final(table)@ == old(table)@ && result is Err
            && result->Err_0@ == "Session not found: "@ + name@,
        result is Ok && old(table)@[name@].record.state == SessionState::Running
            && old(table)@[name@].record.pid is Some ==> record::answered(
            old(table)@[name@].record.pid->0,
            false,
        ),
{
    let alive = match table.get(name) {
        Some(session) => record::probe(&session.record),
        None => false,
    };
    proof {
        if old(table)@.dom().contains(name@) && old(table)@[name@].record.pid is Some
            && old(table)@[name@].record.state == SessionState::Running {
            sessions::law_answer_decides_in_the_table(
                old(table)@,
                name@,
                old(table)@[name@].record.pid->0,
            );
        }
    }
    remove_with(table, name, alive)
}

/// Puts a session that an earlier daemon left on disk into the table. Gives the
/// record where it has to be written back, because it no longer runs.
pub fn load_session<M, I>(table: &mut Sessions<M, I>, record: SessionRecord, io: I) -> (changed:
    Option<SessionRecord>)
    requires
        old(table).inv(),
    ensures
        final(table).inv(),
        sessions::have_terminals(old(table)@) ==> sessions::have_terminals(final(table)@),
        final(table)@ == old(table)@.insert(
            record.name@,
            (SessionView {
                record: record::taken_over(record@),
                master: None,
                io,
                attached: false,
            }),
        ),
        match changed {
            Some(changed) => record.state == SessionState::Running && changed@
                == record::taken_over(record@),
            None => record.state != SessionState::Running,
        },
{
    let mut record = record;
    let changed = if record::take_over(&mut record) {
        Some(record.clone())
    } else {
        None
    };
    table.insert(ManagedSession { record, master: None, io, attached: false });
    changed
}

/// What a request leads to.
pub enum Routed {
    /// A client wants into a session.
    Attach(AttachRequest),
    /// A session is to be killed.
    Kill { name: String },
    /// A session is to be removed.
    Remove { name: String },
    /// There is an answer already.
    Reply(Response),
}

/// Takes in a request; one that only asks is answered right away.
pub fn route_request<M, I>(table: &mut Sessions<M, I>, request: Request) -> (routed: Routed)
    requires
        old(table).inv(),
    ensures
        final(table).inv(),
        sessions::have_terminals(old(table)@) ==> sessions::have_terminals(final(table)@),
        request !is List ==> final(table)@ == old(table)@,
        match request {
            Request::Attach { name, cwd, command, restart, rows, cols } => routed matches
                Routed::Attach(ask) && ask == (AttachRequest {
                name,
                cwd,
                command,
                restart,
                rows,
                cols,
            }),
            Request::Kill { name } => routed == (Routed::Kill { name }),
            Request::Remove { name } => routed == (Routed::Remove { name }),
            Request::DaemonInfo => routed matches Routed::Reply(response) && response@ == (
            ResponseView::DaemonInfo { version: VERSION@ }),
            Request::List => {
                &&& sessions::some_refresh(old(table)@, final(table)@)
                &&& final(table)@.dom() == old(table)@.dom()
                &&& forall|name: Seq<char>| #[trigger]
                    old(table)@.dom().contains(name) ==> record::brought_up_to_date(
                        old(table)@[name].record,
                        final(table)@[name].record,
                    )
                &&& routed matches Routed::Reply(response)
                &&& response@ matches ResponseView::Sessions { sessions }
                &&& sessions::is_listing(final(table)@, sessions)
            },
        },
{
    match request {
        Request::Attach { name, cwd, command, restart, rows, cols } => {
            Routed::Attach(AttachRequest { name, cwd, command, restart, rows, cols })
        },
        Request::Kill { name } => Routed::Kill { name },
        Request::Remove { name } => Routed::Remove { name },
        Request::DaemonInfo => Routed::Reply(
            Response::DaemonInfo { version: VERSION.to_owned() },
        ),
        Request::List => {
            table.refresh_all();
            Routed::Reply(Response::Sessions { sessions: table.sorted_records() })
        },
    }
}

/// No session in the table runs.
pub open spec fn nothing_runs<M, I>(table: Map<Seq<char>, SessionView<M, I>>) -> bool {
    forall|name: Seq<char>| #[trigger]
        table.dom().contains(name) ==> table[name].record.state != SessionState::Running
}

/// A daemon that starts with an empty table and loads what is stored runs nothing,
/// whatever the records say.
pub proof fn law_loaded_sessions_do_not_run<M, I>(
    table: Map<Seq<char>, SessionView<M, I>>,
    record: RecordView,
    io: I,
)
    requires
        nothing_runs(table),
    ensures
        nothing_runs(Map::<Seq<char>, SessionView<M, I>>::empty()),
        nothing_runs(
            table.insert(
                record.name,
                SessionView {
                    record: record::taken_over(record),
                    master: None,
                    io,
                    attached: false,
                },
            ),
        ),
{
}

/// A name without a session gets one, in the directory of the client: with the command
/// that the client gave, or else with the shell of the user, or else with `/bin/sh`.
pub proof fn law_new_session_is_started<M, I>(
    table: Map<Seq<char>, SessionView<M, I>>,
    ask: AttachView,
    has_history: bool,
    shell: Option<Seq<char>>,
    alive: bool,
    stamp: Seq<char>,
)
    requires
        !table.dom().contains(ask.name),
    ensures
        ({
            let plan = attach_plan(
                find_in(table, ask.name),
                ask,
                has_history,
                shell,
                alive,
                stamp,
            );
            &&& ask.command is Some ==> plan == (PlanView::Start {
                cwd: ask.cwd,
                command: ask.command->0,
            })
            &&& ask.command is None && shell is Some ==> plan == (PlanView::Start {
                cwd: ask.cwd,
                command: seq![shell->0],
            })
            &&& ask.command is None && shell is None ==> plan == (PlanView::Start {
                cwd: ask.cwd,
                command: seq!["/bin/sh"@],
            })
        }),
        attach_table(table, ask.name, alive, stamp) == table,
{
}

/// A session whose process is alive is entered by whoever comes first, as it is, and
/// the time of that is noted; its command is not replaced, and a client that asked
/// for another one is told so. A second client is turned away, and nothing changes.
pub proof fn law_live_session_is_entered<M, I>(
    table: Map<Seq<char>, SessionView<M, I>>,
    ask: AttachView,
    has_history: bool,
    shell: Option<Seq<char>>,
    pid: i32,
    stamp: Seq<char>,
)
    requires
        table.dom().contains(ask.name),
        table[ask.name].record.state == SessionState::Running,
        table[ask.name].record.pid == Some(pid),
    ensures
        ({
            let session = table[ask.name];
            let entered = RecordView { last_attached_at: Some(stamp), ..session.record };
            let plan = attach_plan(
                find_in(table, ask.name),
                ask,
                has_history,
                shell,
                true,
                stamp,
            );
            let after = attach_table(table, ask.name, true, stamp);
            let hello = "\x1b[2m"@ + "arrived in "@ + ask.name + "\x1b[0m"@ + "\n\n"@;
            let kept = "\x1b[2m"@ + "existing session kept; command ignored"@ + "\x1b[0m"@ + "\n"@;
            &&& session.attached ==> after == table && plan == PlanView::Reply(
                ResponseView::Error {
                    message: "Session "@ + ask.name + " is already attached."@,
                },
            )
            &&& !session.attached ==> after == table.insert(
                ask.name,
                SessionView { record: entered, ..session },
            )
            &&& !session.attached && (ask.command is None || ask.command->0
                == session.record.command) ==> plan == (PlanView::Resume {
                message: hello,
                record: entered,
            })
            &&& !session.attached && ask.command is Some && ask.command->0
                != session.record.command ==> plan == (PlanView::Resume {
                message: hello + kept,
                record: entered,
            })
        }),
{
    sessions::law_answer_decides_in_the_table(table, ask.name, pid);
    assert(table[ask.name].record =~= record::refreshed(table[ask.name].record, true));
}

/// A session that has ended is never entered. Without a restart the client is told how
/// it ended, with what was saved of its output if there is any; with one it starts
/// where it was, with the command of the client, or else with its own.
pub proof fn law_ended_session_is_offered<M, I>(
    table: Map<Seq<char>, SessionView<M, I>>,
    ask: AttachView,
    has_history: bool,
    shell: Option<Seq<char>>,
    alive: bool,
    stamp: Seq<char>,
)
    requires
        table.dom().contains(ask.name),
        table[ask.name].record.state != SessionState::Running || table[ask.name].record.pid is None
            || !alive,
    ensures
        ({
            let record = table[ask.name].record;
            let state = if record.state != SessionState::Running {
                record.state
            } else if record.pid is Some {
                SessionState::Exited
            } else {
                SessionState::Stopped
            };
            let plan = attach_plan(
                find_in(table, ask.name),
                ask,
                has_history,
                shell,
                alive,
                stamp,
            );
            let after = attach_table(table, ask.name, alive, stamp);
            &&& after.dom() =~= table.dom()
            &&& after[ask.name].record.state == state
            &&& record::same_session(record, after[ask.name].record)
            &&& !ask.restart && has_history ==> plan == PlanView::ReplyWithHistory(
                ResponseView::HistoryReady {
                    state,
                    exit_code: record.exit_code,
                    command: record.command,
                },
            )
            &&& !ask.restart && !has_history ==> plan == PlanView::Reply(
                ResponseView::NeedsRestart {
                    name: ask.name,
                    state,
                    exit_code: record.exit_code,
                    command: record.command,
                },
            )
            &&& ask.restart && ask.command is Some ==> plan == (PlanView::Start {
                cwd: record.cwd,
                command: ask.command->0,
            })
            &&& ask.restart && ask.command is None ==> plan == (PlanView::Start {
                cwd: record.cwd,
                command: record.command,
            })
        }),
{
}

/// The answers of the daemon, in words: each of them names the session it is about.
pub proof fn law_answers_in_words(name: Seq<char>)
    ensures
        arrival(name) == "\x1b[2m"@ + "arrived in "@ + name + "\x1b[0m"@ + "\n\n"@,
        not_found(name) == "Session not found: "@ + name,
        no_terminal(name) == "Session "@ + name + " is stopped."@,
        already_attached(name) == "Session "@ + name + " is already attached."@,
        killed(name) == "Killed "@ + name + "."@,
        removed(name) == "Removed "@ + name + "."@,
        still_running(name) == name + " is still running.\nRun `stay kill "@ + name
            + "` first."@,
{
}

/// The complaint about a command that could not be started shows the command, so that
/// a shell can read it back, and ends with the reason.
pub proof fn law_start_failure_shows_the_command(command: Seq<Seq<char>>, reason: Seq<char>)
    ensures
        start_failed(command, reason) == "Failed to start command:\n\n"@ + command::shown(command)
            + "\n\nReason:\n"@ + reason,
{
}

/// A process that was asked to end is waited for as long as it is alive, two seconds
/// at most, with a look at it every tenth of a second; then it is ended by force if
/// it is still there.
pub proof fn law_kill_waits_then_forces(elapsed_ms: u64, alive_at_last: bool)
    ensures
        elapsed_ms < 2000 ==> kill_step_for(elapsed_ms, true, alive_at_last) == KillStep::Wait,
        elapsed_ms >= 2000 ==> kill_step_for(elapsed_ms, true, true) == KillStep::Force,
        elapsed_ms >= 2000 ==> kill_step_for(elapsed_ms, true, false) == KillStep::Finish,
        kill_step_for(elapsed_ms, false, true) == KillStep::Force,
        kill_step_for(elapsed_ms, false, false) == KillStep::Finish,
        KILL_PAUSE_MS == 100,
{
}

/// The process of a session that runs is the one to kill if it is alive, and nothing
/// changes; if it is gone there is none to kill, and the session has exited.
pub proof fn law_live_process_is_killed<M, I>(
    table: Map<Seq<char>, SessionView<M, I>>,
    name: Seq<char>,
    pid: i32,
)
    requires
        table.dom().contains(name),
        table[name].record.state == SessionState::Running,
        table[name].record.pid == Some(pid),
    ensures
        record::said_of(table[name].record, true) <==> record::answered(pid, true),
        record::said_of(table[name].record, false) <==> record::answered(pid, false),
        record::refreshed(table[name].record, true).pid == Some(pid),
        sessions::refreshed_at(table, name, true) == table,
        record::refreshed(table[name].record, false).pid is None,
        sessions::refreshed_at(table, name, false)[name].record.state == SessionState::Exited,
{
    sessions::law_answer_decides_in_the_table(table, name, pid);
}

/// A session is removed if and only if it is there and does not run: one that has
/// ended, one without a process, and one whose process is gone. Its answer says which
/// it was, and no other session is touched.
pub proof fn law_removal<M, I>(
    table: Map<Seq<char>, SessionView<M, I>>,
    name: Seq<char>,
    alive: bool,
    after: Map<Seq<char>, SessionView<M, I>>,
    answer: Result<Seq<char>, Seq<char>>,
)
    requires
        removes(table, name, alive, after, answer),
    ensures
        !table.dom().contains(name) ==> after == table && answer == Err::<Seq<char>, Seq<char>>(
            "Session not found: "@ + name,
        ),
        table.dom().contains(name) && table[name].record.state == SessionState::Running
            && table[name].record.pid is Some && alive ==> after == table && answer == Err::<
            Seq<char>,
            Seq<char>,
        >(name + " is still running.\nRun `stay kill "@ + name + "` first."@),
        table.dom().contains(name) && (table[name].record.state != SessionState::Running
            || table[name].record.pid is None || !alive) ==> after == table.remove(name) && answer
            == Ok::<Seq<char>, Seq<char>>("Removed "@ + name + "."@),
{
    if table.dom().contains(name) && table[name].record.state == SessionState::Running
        && table[name].record.pid is Some {
        sessions::law_answer_decides_in_the_table(table, name, table[name].record.pid->0);
    }
}

/// A session that runs is never replaced: whoever comes gets into it or is told
/// that somebody is in it, and its command and directory stay what they were.
pub proof fn law_running_session_is_kept<M, I>(
    table: Map<Seq<char>, SessionView<M, I>>,
    ask: AttachView,
    has_history: bool,
    shell: Option<Seq<char>>,
    stamp: Seq<char>,
)
    requires
        table.dom().contains(ask.name),
        record::refreshed(table[ask.name].record, true).state == SessionState::Running,
    ensures
        ({
            let plan = attach_plan(
                find_in(table, ask.name),
                ask,
                has_history,
                shell,
                true,
                stamp,
            );
            &&& plan is Resume <==> !table[ask.name].attached
            &&& plan == PlanView::Reply(
                ResponseView::Error { message: already_attached(ask.name) },
            ) <==> table[ask.name].attached
        }),
        record::same_session(
            table[ask.name].record,
            attach_table(table, ask.name, true, stamp)[ask.name].record,
        ),
        attach_table(table, ask.name, true, stamp)[ask.name].master == table[ask.name].master,
        attach_table(table, ask.name, true, stamp)[ask.name].io == table[ask.name].io,
{
}

/// In a table in which every session that runs has a terminal, a session that is
/// entered has one: where the plan is to resume, coming into the session does not
/// fail.
pub proof fn law_resumed_session_has_a_terminal<M, I>(
    table: Map<Seq<char>, SessionView<M, I>>,
    ask: AttachView,
    has_history: bool,
    shell: Option<Seq<char>>,
    alive: bool,
    stamp: Seq<char>,
)
    requires
        sessions::have_terminals(table),
        attach_plan(find_in(table, ask.name), ask, has_history, shell, alive, stamp) is Resume,
    ensures
        attach_table(table, ask.name, alive, stamp).dom().contains(ask.name),
        attach_table(table, ask.name, alive, stamp)[ask.name].master is Some,
{
}

/// A session whose command has ended is shown with its saved output first, and is
/// started again only when the client asks for that; then it starts where it was,
/// with its last command if no other is given.
pub proof fn law_ended_session_waits_to_be_restarted<M, I>(
    table: Map<Seq<char>, SessionView<M, I>>,
    ask: AttachView,
    has_history: bool,
    shell: Option<Seq<char>>,
    alive: bool,
    stamp: Seq<char>,
)
    requires
        table.dom().contains(ask.name),
        record::refreshed(table[ask.name].record, alive).state != SessionState::Running,
    ensures
        ({
            let record = record::refreshed(table[ask.name].record, alive);
            let plan = attach_plan(
                find_in(table, ask.name),
                ask,
                has_history,
                shell,
                alive,
                stamp,
            );
            &&& !ask.restart && has_history ==> plan == PlanView::ReplyWithHistory(
                ResponseView::HistoryReady {
                    state: record.state,
                    exit_code: record.exit_code,
                    command: record.command,
                },
            )
            &&& !ask.restart && !has_history ==> plan == PlanView::Reply(
                ResponseView::NeedsRestart {
                    name: ask.name,
                    state: record.state,
                    exit_code: record.exit_code,
                    command: record.command,
                },
            )
            &&& ask.restart ==> plan == (PlanView::Start {
                cwd: record.cwd,
                command: command_or(ask.command, record.command),
            })
        }),
{
}

/// Once a client has left, the next one is not turned away for its sake.
pub proof fn law_left_session_can_be_entered<M, I>(
    table: Map<Seq<char>, SessionView<M, I>>,
    ask: AttachView,
    has_history: bool,
    shell: Option<Seq<char>>,
    alive: bool,
    stamp: Seq<char>,
)
    requires
        table.dom().contains(ask.name),
    ensures
        ({
            let left = table.insert(
                ask.name,
                SessionView { attached: false, ..table[ask.name] },
            );
            attach_plan(find_in(left, ask.name), ask, has_history, shell, alive, stamp)
                != PlanView::Reply(ResponseView::Error { message: already_attached(ask.name) })
        }),
{
}

/// Whatever is asked about one session, the others stay as they are.
pub proof fn law_other_sessions_are_untouched<M, I>(
    table: Map<Seq<char>, SessionView<M, I>>,
    name: Seq<char>,
    other: Seq<char>,
    alive: bool,
    stamp: Seq<char>,
    after: Map<Seq<char>, SessionView<M, I>>,
    answer: Result<Seq<char>, Seq<char>>,
)
    requires
        other != name,
        removes(table, name, alive, after, answer),
    ensures
        find_in(attach_table(table, name, alive, stamp), other) == find_in(table, other),
        find_in(sessions::refreshed_at(table, name, alive), other) == find_in(table, other),
        find_in(sessions::retired_at(table, name), other) == find_in(table, other),
        find_in(after, other) == find_in(table, other),
{
}

/// A session that was killed can be removed, whatever is found alive under its
/// old process number; then its name is free.
pub proof fn law_killed_session_can_be_removed<M, I>(
    table: Map<Seq<char>, SessionView<M, I>>,
    name: Seq<char>,
    alive: bool,
    after: Map<Seq<char>, SessionView<M, I>>,
    answer: Result<Seq<char>, Seq<char>>,
)
    requires
        table.dom().contains(name),
        removes(sessions::retired_at(table, name), name, alive, after, answer),
    ensures
        answer == Ok::<Seq<char>, Seq<char>>(removed(name)),
        !after.dom().contains(name),
{
}

/// A session that runs is not removed: it stays in the table, with its terminal
/// and its output, and the answer says how to end it.
pub proof fn law_running_session_is_not_removed<M, I>(
    table: Map<Seq<char>, SessionView<M, I>>,
    name: Seq<char>,
    after: Map<Seq<char>, SessionView<M, I>>,
    answer: Result<Seq<char>, Seq<char>>,
)
    requires
        table.dom().contains(name),
        table[name].record.state == SessionState::Running,
        table[name].record.pid is Some,
        removes(table, name, true, after, answer),
    ensures
        answer == Err::<Seq<char>, Seq<char>>(still_running(name)),
        after =~= table,
{
    assert(after[name] =~= table[name]);
}

/// Waiting for a process to end comes to an end: once its time is up it is either
/// gone or ended by force, and it is never ended by force while it is not there.
pub proof fn law_kill_comes_to_an_end(elapsed_ms: u64, alive: bool, alive_at_last: bool)
    ensures
        elapsed_ms >= KILL_GRACE_MS ==> kill_step_for(elapsed_ms, alive, alive_at_last)
            != KillStep::Wait,
        kill_step_for(elapsed_ms, alive, alive_at_last) == KillStep::Force ==> alive_at_last,
{
}

} // verus!
