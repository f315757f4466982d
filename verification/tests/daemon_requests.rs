use stay::daemon::{
    attach_target, attach_with, command_response, finish_start, handle_attach, kill_step,
    kill_step_with, kill_target, kill_target_with, killed_message, launch, load_session,
    new_session_message, remove_session, remove_with, route_request, space_message, start_failure,
    AttachPlan, AttachRequest, KillStep, Routed, KILL_GRACE_MS,
};
use stay::error::StayError;
use stay::protocol::{Request, Response, SessionRecord, SessionState, VERSION};
use stay::record::{
    mark_exited, process_to_ask, record_started, record_started_at, refresh_record_state,
    settle_record_state, take_over,
};
use stay::sessions::{ManagedSession, Sessions};

const NOBODY: i32 = i32::MAX;
const STAMP: &str = "2026-05-01T10:00:00Z";

fn words(list: &[&str]) -> Vec<String> {
    list.iter().map(|word| word.to_string()).collect()
}

fn me() -> i32 {
    nix::unistd::getpid().as_raw()
}

fn started(name: &str, pid: i32) -> SessionRecord {
    record_started_at(
        name,
        "/srv",
        &words(&["sleep", "9"]),
        pid,
        "2026-01-01T00:00:00Z".to_string(),
        "2026-01-01T00:00:00Z".to_string(),
    )
}

fn table(names: &[&str]) -> Sessions<u8, u16> {
    let mut sessions = Sessions::new();
    for name in names {
        finish_start(&mut sessions, started(name, me()), 1, 2);
    }
    sessions
}

fn ask(name: &str, command: Option<Vec<String>>, restart: bool) -> AttachRequest {
    AttachRequest {
        name: name.to_string(),
        cwd: "/home/u".to_string(),
        command,
        restart,
        rows: 24,
        cols: 80,
    }
}

fn text_of(plan: AttachPlan) -> String {
    match plan {
        AttachPlan::Reply(response) => format!("reply {:?}", response),
        AttachPlan::ReplyWithHistory(response) => format!("history {:?}", response),
        AttachPlan::Resume { message, record } => {
            format!("resume {:?} {:?}", message, record.last_attached_at)
        }
        AttachPlan::Start { cwd, command } => format!("start {} {:?}", cwd, command),
    }
}

#[test]
fn new_name_starts_the_command_or_the_shell() {
    let mut sessions = table(&[]);
    let plan = handle_attach(&mut sessions, &ask("api", None, false), false, None);
    assert_eq!(text_of(plan), "start /home/u [\"/bin/sh\"]");
    let plan = handle_attach(
        &mut sessions,
        &ask("api", Some(words(&["top", "-b"])), false),
        false,
        Some("/bin/zsh".to_string()),
    );
    assert_eq!(text_of(plan), "start /home/u [\"top\", \"-b\"]");
    assert!(sessions.get("api").is_none());
}

#[test]
fn running_session_is_resumed() {
    let mut sessions = table(&["api"]);
    let plan = attach_with(
        &mut sessions,
        &ask("api", None, false),
        true,
        None,
        true,
        STAMP.to_string(),
    );
    assert_eq!(
        text_of(plan),
        "resume \"\\u{1b}[2marrived in api\\u{1b}[0m\\n\\n\" Some(\"2026-05-01T10:00:00Z\")"
    );
    let session = sessions.get("api").unwrap();
    assert_eq!(session.record.last_attached_at, Some(STAMP.to_string()));
    assert_eq!(session.record.state, SessionState::Running);
}

#[test]
fn command_for_a_running_session_is_ignored_with_a_note() {
    let mut sessions = table(&["api"]);
    let plan = attach_with(
        &mut sessions,
        &ask("api", Some(words(&["other"])), true),
        true,
        None,
        true,
        STAMP.to_string(),
    );
    match plan {
        AttachPlan::Resume { message, record } => {
            assert_eq!(
                message,
                "\x1b[2marrived in api\x1b[0m\n\n\x1b[2mexisting session kept; command ignored\x1b[0m\n"
            );
            assert_eq!(record.command, words(&["sleep", "9"]));
        }
        _ => panic!("not resumed"),
    }
    let plan = attach_with(
        &mut sessions,
        &ask("api", Some(words(&["sleep", "9"])), false),
        true,
        None,
        true,
        STAMP.to_string(),
    );
    match plan {
        AttachPlan::Resume { message, .. } => assert_eq!(message, space_message("api")),
        _ => panic!("not resumed"),
    }
}

#[test]
fn liveness_is_asked_of_the_system() {
    let mut sessions = table(&["api"]);
    match handle_attach(&mut sessions, &ask("api", None, false), false, None) {
        AttachPlan::Resume { record, .. } => {
            let stamp = record.last_attached_at.unwrap();
            assert_ne!(stamp, "2026-01-01T00:00:00Z");
            assert!(stamp.len() >= 20);
            assert_eq!(&stamp[10..11], "T");
        }
        other => panic!("{}", text_of(other)),
    }
    finish_start(&mut sessions, started("gone", NOBODY), 1, 2);
    match handle_attach(&mut sessions, &ask("gone", None, false), false, None) {
        AttachPlan::Reply(Response::NeedsRestart { name, state, .. }) => {
            assert_eq!(name, "gone");
            assert_eq!(state, SessionState::Exited);
        }
        other => panic!("{}", text_of(other)),
    }
}

#[test]
fn second_client_is_turned_away_until_the_first_leaves() {
    let mut sessions = table(&["api"]);
    sessions.set_attached("api", true);
    let plan = handle_attach(&mut sessions, &ask("api", None, false), true, None);
    assert_eq!(
        text_of(plan),
        "reply Error { message: \"Session api is already attached.\" }"
    );
    sessions.set_attached("api", false);
    let plan = handle_attach(&mut sessions, &ask("api", None, false), true, None);
    assert!(matches!(plan, AttachPlan::Resume { .. }));
}

#[test]
fn running_session_without_a_terminal_is_still_running() {
    let mut sessions: Sessions<u8, u16> = Sessions::new();
    for (name, attached) in [("api", true), ("web", false)] {
        let mut record = started(name, me());
        record.last_attached_at = None;
        sessions.insert(ManagedSession {
            record,
            master: None,
            io: 0,
            attached,
        });
    }
    let plan = handle_attach(
        &mut sessions,
        &ask("api", Some(words(&["vim"])), true),
        false,
        None,
    );
    assert_eq!(
        text_of(plan),
        "reply Error { message: \"Session api is already attached.\" }"
    );
    let session = sessions.get("api").unwrap();
    assert_eq!(session.record.last_attached_at, None);
    assert_eq!(session.record.command, words(&["sleep", "9"]));
    assert!(session.attached);

    match remove_session(&mut sessions, "web") {
        Err(error) => assert_eq!(
            error.message(),
            "web is still running.\nRun `stay kill web` first."
        ),
        Ok(_) => panic!("removed"),
    }
    assert_eq!(
        sessions.get("web").unwrap().record.state,
        SessionState::Running
    );
}

#[test]
fn ended_session_is_shown_before_it_is_restarted() {
    let mut sessions = table(&["api"]);
    let first = attach_with(
        &mut sessions,
        &ask("api", None, false),
        true,
        None,
        false,
        STAMP.to_string(),
    );
    assert_eq!(
        text_of(first),
        "history HistoryReady { state: Exited, exit_code: None, command: [\"sleep\", \"9\"] }"
    );
    let without = attach_with(
        &mut sessions,
        &ask("api", None, false),
        false,
        None,
        false,
        STAMP.to_string(),
    );
    assert_eq!(
        text_of(without),
        "reply NeedsRestart { name: \"api\", state: Exited, exit_code: None, command: [\"sleep\", \"9\"] }"
    );
    let again = handle_attach(&mut sessions, &ask("api", None, true), true, None);
    assert_eq!(text_of(again), "start /srv [\"sleep\", \"9\"]");
    let other = handle_attach(
        &mut sessions,
        &ask("api", Some(words(&["date"])), true),
        true,
        None,
    );
    assert_eq!(text_of(other), "start /srv [\"date\"]");
}

#[test]
fn restarted_session_takes_the_place_of_the_old_one() {
    let mut sessions = table(&["api", "web"]);
    sessions.retire("api");
    assert!(attach_target(&sessions, "api").is_err());
    let message = finish_start(&mut sessions, started("api", me()), 5, 6);
    assert_eq!(message, new_session_message("api"));
    match attach_target(&sessions, "api") {
        Ok((master, io)) => assert_eq!((*master, *io), (5, 6)),
        Err(error) => panic!("{}", error.message()),
    }
    assert!(sessions.get("web").is_some());
}

#[test]
fn attach_target_errors() {
    let mut sessions = table(&["api"]);
    match attach_target(&sessions, "nope") {
        Err(error) => assert_eq!(error.message(), "Session not found: nope"),
        Ok(_) => panic!("found"),
    }
    sessions.retire("api");
    match attach_target(&sessions, "api") {
        Err(error) => assert_eq!(error.message(), "Session api is stopped."),
        Ok(_) => panic!("found"),
    }
}

#[test]
fn kill_names_the_process_and_ends_the_session() {
    let mut sessions = table(&["api"]);
    assert_eq!(kill_target(&mut sessions, "api").unwrap(), Some(me()));
    sessions.set_attached("api", true);
    let record = sessions.retire("api").unwrap();
    assert_eq!(record.state, SessionState::Exited);
    assert_eq!(record.pid, None);
    assert!(!sessions.get("api").unwrap().attached);
    assert!(sessions.get("api").unwrap().master.is_none());
    assert_eq!(kill_target(&mut sessions, "api").unwrap(), None);
    assert_eq!(killed_message("api"), "Killed api.");
    assert!(sessions.retire("nope").is_none());
    match kill_target(&mut sessions, "nope") {
        Err(error) => assert_eq!(error.message(), "Session not found: nope"),
        Ok(_) => panic!("found"),
    }
}

#[test]
fn kill_of_a_dead_process_has_nothing_to_do() {
    let mut sessions = table(&["api"]);
    assert_eq!(
        kill_target_with(&mut sessions, "api", false).unwrap(),
        None
    );
    assert_eq!(
        sessions.get("api").unwrap().record.state,
        SessionState::Exited
    );
}

#[test]
fn kill_waits_then_forces() {
    assert_eq!(kill_step_with(0, true, true), KillStep::Wait);
    assert_eq!(kill_step_with(1999, true, false), KillStep::Wait);
    assert_eq!(kill_step_with(2000, true, true), KillStep::Force);
    assert_eq!(kill_step_with(2000, true, false), KillStep::Finish);
    assert_eq!(kill_step_with(100, false, false), KillStep::Finish);
    assert_eq!(kill_step_with(100, false, true), KillStep::Force);
    assert_eq!(kill_step(me(), 0), KillStep::Wait);
    assert_eq!(kill_step(me(), KILL_GRACE_MS), KillStep::Force);
    assert_eq!(kill_step(NOBODY, 0), KillStep::Finish);
}

#[test]
fn running_session_is_not_removed() {
    let mut sessions = table(&["api"]);
    match remove_session(&mut sessions, "api") {
        Err(error) => assert_eq!(
            error.message(),
            "api is still running.\nRun `stay kill api` first."
        ),
        Ok(_) => panic!("removed"),
    }
    assert!(sessions.get("api").is_some());
}

#[test]
fn killed_session_is_removed() {
    let mut sessions = table(&["api", "web"]);
    sessions.retire("api");
    assert_eq!(
        remove_session(&mut sessions, "api").unwrap(),
        "Removed api."
    );
    assert!(sessions.get("api").is_none());
    assert!(sessions.get("web").is_some());
    match remove_with(&mut sessions, "api", true) {
        Err(error) => assert_eq!(error.message(), "Session not found: api"),
        Ok(_) => panic!("removed"),
    }
    assert_eq!(
        remove_with(&mut sessions, "web", false).unwrap(),
        "Removed web."
    );
}

#[test]
fn list_is_sorted_and_up_to_date() {
    let mut sessions = table(&["web", "api"]);
    finish_start(&mut sessions, started("b", NOBODY), 1, 2);
    finish_start(&mut sessions, started("Z", me()), 1, 2);
    finish_start(&mut sessions, started("ap", me()), 1, 2);
    match route_request(&mut sessions, Request::List) {
        Routed::Reply(Response::Sessions { sessions: list }) => {
            let names: Vec<&str> = list.iter().map(|record| record.name.as_str()).collect();
            assert_eq!(names, vec!["Z", "ap", "api", "b", "web"]);
            assert_eq!(list[3].state, SessionState::Exited);
            assert_eq!(list[3].pid, None);
            assert_eq!(list[4].state, SessionState::Running);
        }
        _ => panic!("no list"),
    }
    assert_eq!(
        sessions.get("b").unwrap().record.state,
        SessionState::Exited
    );
}

#[test]
fn requests_are_routed() {
    let mut sessions = table(&[]);
    match route_request(&mut sessions, Request::DaemonInfo) {
        Routed::Reply(Response::DaemonInfo { version }) => assert_eq!(version, VERSION),
        _ => panic!("no version"),
    }
    match route_request(
        &mut sessions,
        Request::Kill {
            name: "a".to_string(),
        },
    ) {
        Routed::Kill { name } => assert_eq!(name, "a"),
        _ => panic!("no kill"),
    }
    match route_request(
        &mut sessions,
        Request::Remove {
            name: "a".to_string(),
        },
    ) {
        Routed::Remove { name } => assert_eq!(name, "a"),
        _ => panic!("no remove"),
    }
    match route_request(
        &mut sessions,
        Request::Attach {
            name: "a".to_string(),
            cwd: "/".to_string(),
            command: None,
            restart: true,
            rows: 3,
            cols: 4,
        },
    ) {
        Routed::Attach(ask) => {
            assert_eq!(ask.name, "a");
            assert_eq!(ask.cwd, "/");
            assert_eq!(ask.command, None);
            assert!(ask.restart);
            assert_eq!((ask.rows, ask.cols), (3, 4));
        }
        _ => panic!("no attach"),
    }
}

#[test]
fn results_become_answers() {
    match command_response(Ok("Killed a.".to_string())) {
        Response::Success { message } => assert_eq!(message, "Killed a."),
        other => panic!("{:?}", other),
    }
    match command_response(Err(StayError::new("no"))) {
        Response::Error { message } => assert_eq!(message, "no"),
        other => panic!("{:?}", other),
    }
}

#[test]
fn loaded_sessions_do_not_run() {
    let mut sessions: Sessions<u8, u16> = Sessions::new();
    let changed = load_session(&mut sessions, started("api", me()), 9).unwrap();
    assert_eq!(changed.state, SessionState::Stopped);
    assert_eq!(changed.pid, None);
    let session = sessions.get("api").unwrap();
    assert_eq!(session.record.state, SessionState::Stopped);
    assert!(session.master.is_none());
    assert_eq!(session.io, 9);
    let mut ended = started("old", me());
    mark_exited(&mut ended, Some(3));
    assert!(load_session(&mut sessions, ended, 8).is_none());
    let session = sessions.get("old").unwrap();
    assert_eq!(session.record.state, SessionState::Exited);
    assert_eq!(session.record.exit_code, Some(3));
}

#[test]
fn later_record_of_the_same_name_wins() {
    let mut sessions: Sessions<u8, u16> = Sessions::new();
    sessions.insert(ManagedSession {
        record: started("api", 1),
        master: Some(1),
        io: 1,
        attached: true,
    });
    sessions.insert(ManagedSession {
        record: started("api", 2),
        master: Some(2),
        io: 2,
        attached: false,
    });
    assert_eq!(sessions.get("api").unwrap().record.pid, Some(2));
    assert_eq!(sessions.sorted_records().len(), 1);
    sessions.remove("api");
    assert!(sessions.get("api").is_none());
}

#[test]
fn terminal_has_at_least_one_cell() {
    let plan = launch(&words(&["sh", "-c", "x"]), 0, 7);
    assert_eq!(plan.program, "sh");
    assert_eq!(plan.args, words(&["-c", "x"]));
    assert_eq!((plan.rows, plan.cols), (1, 7));
    let plan = launch(&words(&["sh"]), 5, 0);
    assert!(plan.args.is_empty());
    assert_eq!((plan.rows, plan.cols), (5, 1));
}

#[test]
fn failed_start_shows_the_command() {
    assert_eq!(
        start_failure(&words(&["no such", "x"]), "not there").message(),
        "Failed to start command:\n\n'no such' x\n\nReason:\nnot there"
    );
}

#[test]
fn records_follow_their_process() {
    let mut record = started("api", me());
    refresh_record_state(&mut record);
    assert_eq!(record.state, SessionState::Running);
    assert_eq!(record.pid, Some(me()));

    let mut record = started("api", NOBODY);
    refresh_record_state(&mut record);
    assert_eq!(record.state, SessionState::Exited);
    assert_eq!(record.pid, None);

    let mut record = started("api", me());
    record.pid = None;
    refresh_record_state(&mut record);
    assert_eq!(record.state, SessionState::Stopped);

    let mut record = started("api", me());
    settle_record_state(&mut record, false);
    assert_eq!(record.state, SessionState::Exited);
    settle_record_state(&mut record, true);
    assert_eq!(record.state, SessionState::Exited);
    assert!(!take_over(&mut record));
}

#[test]
fn only_a_running_record_has_a_process_to_ask() {
    let mut record = started("api", 42);
    assert_eq!(process_to_ask(&record), Some(42));
    record.pid = None;
    assert_eq!(process_to_ask(&record), None);
    record.pid = Some(42);
    record.state = SessionState::Exited;
    assert_eq!(process_to_ask(&record), None);
}

#[test]
fn started_record_has_times() {
    let record = record_started("api", "/srv", &words(&["sleep", "9"]), 42);
    assert_eq!(record.name, "api");
    assert_eq!(record.cwd, "/srv");
    assert_eq!(record.command, words(&["sleep", "9"]));
    assert_eq!(record.state, SessionState::Running);
    assert_eq!(record.pid, Some(42));
    assert_eq!(record.exit_code, None);
    for stamp in [record.created_at, record.last_attached_at.unwrap()] {
        let bytes = stamp.as_bytes();
        assert!(stamp.len() == 20 && stamp.ends_with('Z') || stamp.len() == 25);
        assert_eq!((bytes[4], bytes[7]), (b'-', b'-'));
        assert_eq!((bytes[10], bytes[13], bytes[16]), (b'T', b':', b':'));
    }
}

#[test]
fn states_have_words() {
    assert_eq!(SessionState::Running.word(), "running");
    assert_eq!(SessionState::Exited.word(), "exited");
    assert_eq!(SessionState::Stopped.word(), "stopped");
}
