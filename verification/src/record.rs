//! The life of a session record: started, looked after, exited, stopped.
use crate::protocol::{RecordView, SessionRecord, SessionState};
use crate::text;
use vstd::prelude::*;
use vstd::string::*;

verus! {

/// The two characters at `at` are digits.
pub open spec fn two_digits(s: Seq<char>, at: int) -> bool {
    '0' <= s[at] <= '9' && '0' <= s[at + 1] <= '9'
}

/// `s` is a time in the form of RFC 3339, to the second: a year of four
/// characters or more, `-MM-DDTHH:MM:SS`, and a zone, `Z` or `+HH:MM` or `-HH:MM`.
pub open spec fn is_timestamp(s: Seq<char>) -> bool {
    let zone = s.len() - (if s.last() == 'Z' {
        1int
    } else {
        6int
    });
    let year = zone - 15;
    &&& year >= 4
    &&& s[year] == '-' && two_digits(s, year + 1)
    &&& s[year + 3] == '-' && two_digits(s, year + 4)
    &&& s[year + 6] == 'T' && two_digits(s, year + 7)
    &&& s[year + 9] == ':' && two_digits(s, year + 10)
    &&& s[year + 12] == ':' && two_digits(s, year + 13)
    &&& s.last() == 'Z' || ((s[zone] == '+' || s[zone] == '-') && two_digits(s, zone + 1) && s[zone
        + 3] == ':' && two_digits(s, zone + 4))
}

/// The current local time as text: `to_rfc3339_opts`, with seconds and with `Z`
/// for UTC, of chrono's `Local::now`.
///
/// Claimed is only the form of the text. Which time it names depends on the
/// clock and the time zone of the machine.
#[verifier::external_body]
pub(crate) fn now() -> (stamp: String)
    ensures
        is_timestamp(stamp@),
{
    chrono::Local::now().to_rfc3339_opts(chrono::SecondsFormat::Secs, true)
}

/// Whether a signal could be sent to the process: whether nix's `kill` succeeds
/// with no signal.
///
/// Nothing is claimed of the answer: it depends on which processes there are,
/// and on which of them this one may signal.
#[verifier::external_body]
pub(crate) fn process_alive(pid: i32) -> bool {
    nix::sys::signal::kill(nix::unistd::Pid::from_raw(pid), None).is_ok()
}

/// `alive` is what the system said when it was asked whether the process is alive: an
/// answer that a call of `process_alive` for this process gave. Two calls may be
/// answered differently.
pub closed spec fn answered(pid: i32, alive: bool) -> bool {
    call_ensures(process_alive, (pid,), alive)
}

/// `stamp` is what the clock said: the text that a call of `now` gave.
pub closed spec fn told_by_clock(stamp: Seq<char>) -> bool {
    exists|told: String| #[trigger] call_ensures(now, (), told) && told@ == stamp
}

/// The answers about a process come from the system, and from nowhere else.
pub(crate) proof fn law_answers_come_from_the_system(pid: i32, alive: bool)
    ensures
        answered(pid, alive) <==> call_ensures(process_alive, (pid,), alive),
{
}

/// The times come from the clock, and have the form of a time.
pub(crate) proof fn law_times_come_from_the_clock(stamp: Seq<char>)
    requires
        told_by_clock(stamp),
    ensures
        exists|told: String| #[trigger] call_ensures(now, (), told) && told@ == stamp,
        is_timestamp(stamp),
{
}

/// Asks the system whether a process is alive.
pub(crate) fn ask_system(pid: i32) -> (alive: bool)
    ensures
        answered(pid, alive),
{
    process_alive(pid)
}

/// Asks the clock for the time.
pub(crate) fn ask_clock() -> (stamp: String)
    ensures
        is_timestamp(stamp@),
        told_by_clock(stamp@),
{
    now()
}

/// `after` is `before` brought up to date by asking the system. A record that does not
/// run is as it was. One that runs without a process has stopped. One that runs with
/// a process is as it was if that process was said to be alive, and has exited, with
/// no process, if it was said to be gone.
pub open spec fn brought_up_to_date(before: RecordView, after: RecordView) -> bool {
    &&& before.state != SessionState::Running ==> after == before
    &&& before.state == SessionState::Running && before.pid is None ==> after == RecordView {
        state: SessionState::Stopped,
        ..before
    }
    &&& before.state == SessionState::Running && before.pid is Some ==> {
        ||| answered(before.pid->0, true) && after == before
        ||| answered(before.pid->0, false) && after == RecordView {
            state: SessionState::Exited,
            pid: None,
            ..before
        }
    }
}

/// `alive` is what the system said of the process of a record that runs; a record
/// without such a process is asked nothing about.
pub open spec fn said_of(record: RecordView, alive: bool) -> bool {
    match record.pid {
        Some(pid) if record.state == SessionState::Running => answered(pid, alive),
        _ => !alive,
    }
}

/// A record brought up to date, given whether its process is alive: one that
/// runs without a process has stopped, one whose process is gone has exited.
pub open spec fn refreshed(record: RecordView, alive: bool) -> RecordView {
    if record.state == SessionState::Running {
        match record.pid {
            Some(_) => if alive {
                record
            } else {
                RecordView { state: SessionState::Exited, pid: None, ..record }
            },
            None => RecordView { state: SessionState::Stopped, ..record },
        }
    } else {
        record
    }
}

/// Brings a record up to date, given whether its process is alive.
pub fn settle_record_state(record: &mut SessionRecord, alive: bool)
    ensures
        final(record)@ == refreshed(old(record)@, alive),
{
    if record.state == SessionState::Running {
        match record.pid {
            Some(_) => {
                if !alive {
                    record.state = SessionState::Exited;
                    record.pid = None;
                }
            },
            None => {
                record.state = SessionState::Stopped;
            },
        }
    }
}

/// The process that decides whether a record is up to date: that of a record that
/// runs, if it has one. No other record depends on a process.
pub open spec fn process_of(record: RecordView) -> Option<i32> {
    if record.state == SessionState::Running {
        record.pid
    } else {
        None
    }
}

/// The process that decides whether a record is up to date.
pub fn process_to_ask(record: &SessionRecord) -> (pid: Option<i32>)
    ensures
        pid == process_of(record@),
{
    if record.state == SessionState::Running {
        record.pid
    } else {
        None
    }
}

/// Whether the process that decides about a record is alive: what the system says of
/// `process_of` the record, and `false` where there is none. What the system says
/// depends on the machine.
pub(crate) fn probe(record: &SessionRecord) -> (alive: bool)
    ensures
        process_of(record@) is None ==> !alive,
        record.state == SessionState::Running && record.pid is Some ==> answered(
            record.pid->0,
            alive,
        ),
        said_of(record@, alive),
{
    match process_to_ask(record) {
        Some(pid) => ask_system(pid),
        None => false,
    }
}

/// Brings a record up to date by asking whether its process is alive.
pub fn refresh_record_state(record: &mut SessionRecord)
    ensures
        final(record)@ == refreshed(old(record)@, true) || final(record)@ == refreshed(
            old(record)@,
            false,
        ),
        brought_up_to_date(old(record)@, final(record)@),
{
    let alive = probe(record);
    settle_record_state(record, alive);
}

/// The record of a session whose command was just started.
pub open spec fn started(
    name: Seq<char>,
    cwd: Seq<char>,
    command: Seq<Seq<char>>,
    pid: i32,
    created_at: Seq<char>,
    attached_at: Seq<char>,
) -> RecordView {
    RecordView {
        name,
        cwd,
        command,
        state: SessionState::Running,
        pid: Some(pid),
        created_at,
        last_attached_at: Some(attached_at),
        exit_code: None,
    }
}

/// The record of a session whose command was started at the given times.
pub fn record_started_at(
    name: &str,
    cwd: &str,
    command: &Vec<String>,
    pid: i32,
    created_at: String,
    attached_at: String,
) -> (record: SessionRecord)
    ensures
        record@ == started(
            name@,
            cwd@,
            text::texts(command@),
            pid,
            created_at@,
            attached_at@,
        ),
{
    SessionRecord {
        name: name.to_owned(),
        cwd: cwd.to_owned(),
        command: text::copy_texts(command),
        state: SessionState::Running,
        pid: Some(pid),
        created_at,
        last_attached_at: Some(attached_at),
        exit_code: None,
    }
}

/// The record of a session whose command is started now.
pub fn record_started(name: &str, cwd: &str, command: &Vec<String>, pid: i32) -> (record:
    SessionRecord)
    ensures
        exists|created_at: Seq<char>, attached_at: Seq<char>|
            {
                &&& is_timestamp(created_at)
                &&& is_timestamp(attached_at)
                &&& told_by_clock(created_at)
                &&& told_by_clock(attached_at)
                &&& record@ == #[trigger] started(
                    name@,
                    cwd@,
                    text::texts(command@),
                    pid,
                    created_at,
                    attached_at,
                )
            },
{
    let created_at = ask_clock();
    let attached_at = ask_clock();
    record_started_at(name, cwd, command, pid, created_at, attached_at)
}

/// A record whose command has ended.
pub open spec fn exited(record: RecordView, exit_code: Option<i32>) -> RecordView {
    RecordView { state: SessionState::Exited, pid: None, exit_code, ..record }
}

/// Marks a record as exited.
pub fn mark_exited(record: &mut SessionRecord, exit_code: Option<i32>)
    ensures
        final(record)@ == exited(old(record)@, exit_code),
{
    record.state = SessionState::Exited;
    record.pid = None;
    record.exit_code = exit_code;
}

/// A record as a new daemon takes it over: whatever ran no longer belongs to it.
pub open spec fn taken_over(record: RecordView) -> RecordView {
    if record.state == SessionState::Running {
        RecordView { state: SessionState::Stopped, pid: None, ..record }
    } else {
        record
    }
}

/// Takes over a record that an earlier daemon left on disk; `true` where that
/// changes it and it has to be written back.
pub fn take_over(record: &mut SessionRecord) -> (changed: bool)
    ensures
        final(record)@ == taken_over(old(record)@),
        changed == (old(record)@.state == SessionState::Running),
{
    if record.state == SessionState::Running {
        record.state = SessionState::Stopped;
        record.pid = None;
        true
    } else {
        false
    }
}

/// By the answer of the system: a record whose process is alive is as it was, one
/// whose process is gone has exited and has none, and keeps all else.
pub proof fn law_answer_decides(record: RecordView, pid: i32)
    requires
        record.state == SessionState::Running,
        record.pid == Some(pid),
    ensures
        refreshed(record, true) == record,
        refreshed(record, false) == (RecordView {
            state: SessionState::Exited,
            pid: None,
            ..record
        }),
{
}

/// Without a process to ask about, no answer matters: a record that does not run is
/// as it was, and one that runs without a process has stopped.
pub proof fn law_no_process_no_answer(record: RecordView, alive: bool)
    ensures
        record.state != SessionState::Running ==> refreshed(record, alive) == record,
        record.state == SessionState::Running && record.pid is None ==> refreshed(record, alive)
            == (RecordView { state: SessionState::Stopped, ..record }),
{
}

/// What the system said of the process of a record settles how the record is brought
/// up to date; a record whose process it never said to be gone stays as it was, and
/// one whose process it never said to be alive does not run any more.
pub proof fn law_refresh_follows_the_system(record: RecordView, after: RecordView, alive: bool)
    ensures
        said_of(record, alive) ==> brought_up_to_date(record, refreshed(record, alive)),
        record.state == SessionState::Running && record.pid is Some && said_of(record, alive)
            ==> answered(record.pid->0, alive),
        brought_up_to_date(record, after) && record.state == SessionState::Running
            && record.pid is Some && !answered(record.pid->0, false) ==> after == record,
        brought_up_to_date(record, after) && record.state == SessionState::Running
            && record.pid is Some && !answered(record.pid->0, true) ==> after.state
            == SessionState::Exited && after.pid is None,
        brought_up_to_date(record, after) && record.state != SessionState::Running ==> after
            == record,
{
}

/// What is asked about is the process of a record that runs.
pub proof fn law_running_process_is_asked_about(record: RecordView)
    ensures
        record.state == SessionState::Running ==> process_of(record) == record.pid,
        record.state != SessionState::Running ==> process_of(record) is None,
{
}

/// A session that was just started runs, in its directory, with its command and its
/// process, and has no exit code.
pub proof fn law_started_session_runs(
    name: Seq<char>,
    cwd: Seq<char>,
    command: Seq<Seq<char>>,
    pid: i32,
    created_at: Seq<char>,
    attached_at: Seq<char>,
)
    ensures
        ({
            let record = started(name, cwd, command, pid, created_at, attached_at);
            &&& record.name == name
            &&& record.cwd == cwd
            &&& record.command == command
            &&& record.state == SessionState::Running
            &&& record.pid == Some(pid)
            &&& record.created_at == created_at
            &&& record.last_attached_at == Some(attached_at)
            &&& record.exit_code is None
        }),
{
}

/// A command that has ended leaves its exit code, and no process.
pub proof fn law_ended_command_leaves_its_code(record: RecordView, exit_code: Option<i32>)
    ensures
        exited(record, exit_code).state == SessionState::Exited,
        exited(record, exit_code).pid is None,
        exited(record, exit_code).exit_code == exit_code,
        exited(record, exit_code).last_attached_at == record.last_attached_at,
{
}

/// A new daemon takes a record that ran for one that has stopped, without a process,
/// and every other record as it is.
pub proof fn law_taken_over_record(record: RecordView)
    ensures
        record.state == SessionState::Running ==> taken_over(record) == (RecordView {
            state: SessionState::Stopped,
            pid: None,
            ..record
        }),
        record.state != SessionState::Running ==> taken_over(record) == record,
{
}

/// Bringing a record up to date twice, whatever is found alive the second time,
/// changes no more once it does not run.
pub proof fn law_refresh_settles(record: RecordView, alive: bool, later: bool)
    ensures
        refreshed(record, alive).state != SessionState::Running ==> refreshed(
            refreshed(record, alive),
            later,
        ) == refreshed(record, alive),
        refreshed(record, alive).state == SessionState::Running ==> record.pid is Some && alive
            && refreshed(record, alive) == record,
{
}

/// Whether a process is alive matters only to a record that depends on one.
pub proof fn law_only_its_process_decides(record: RecordView)
    ensures
        process_of(record) is None <==> refreshed(record, true) == refreshed(record, false),
{
}

/// No record runs once a new daemon has taken it over, and taking it over again
/// changes nothing.
pub proof fn law_take_over_leaves_nothing_running(record: RecordView)
    ensures
        taken_over(record).state != SessionState::Running,
        taken_over(taken_over(record)) == taken_over(record),
{
}

/// Whatever happens to a record, it stays the record of the same session: its
/// name, directory, command and creation time are kept.
pub proof fn law_record_keeps_identity(record: RecordView, alive: bool, exit_code: Option<i32>)
    ensures
        same_session(record, refreshed(record, alive)),
        same_session(record, exited(record, exit_code)),
        same_session(record, taken_over(record)),
{
}

/// Two records are of the same session.
pub open spec fn same_session(a: RecordView, b: RecordView) -> bool {
    &&& a.name == b.name
    &&& a.cwd == b.cwd
    &&& a.command == b.command
    &&& a.created_at == b.created_at
}

} // verus!
