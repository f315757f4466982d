use stay::browse::{plain_text, Browser};
use stay::client::{
    attach_request, attach_step, client_step, command_outcome, list_outcome, restart_notice,
    restart_request, returned_message, session_listing, AttachStep, ClientEvent, ClientState,
};
use stay::protocol::{Request, Response, SessionRecord, SessionState};
use stay::record::record_started_at;
use stay::startup::{
    socket_failure, start_step, start_timeout, StartEvent, StartState, START_PAUSE_MS,
};
use stay::wire::Readiness;

fn words(list: &[&str]) -> Vec<String> {
    list.iter().map(|word| word.to_string()).collect()
}

fn record(name: &str, state: SessionState) -> SessionRecord {
    let mut record = record_started_at(
        name,
        "/",
        &words(&["echo", "a b"]),
        1,
        String::new(),
        String::new(),
    );
    record.state = state;
    record
}

const IDLE: Readiness = Readiness {
    readable: false,
    hangup: false,
    error: false,
};
const READY: Readiness = Readiness {
    readable: true,
    hangup: false,
    error: false,
};
const GONE: Readiness = Readiness {
    readable: true,
    hangup: true,
    error: false,
};

#[test]
fn output_is_read_before_input() {
    let next = client_step(
        ClientState::Polling,
        ClientEvent::Ready {
            stdin: READY,
            stream: READY,
        },
    );
    assert_eq!(next.state, ClientState::ReadingOutput { stdin: READY });
    let next = client_step(next.state, ClientEvent::Output(b"hello"));
    assert_eq!((next.show, next.send), (5, 0));
    assert_eq!(next.state, ClientState::ReadingInput);
}

#[test]
fn nothing_ready_polls_again() {
    let next = client_step(
        ClientState::Polling,
        ClientEvent::Ready {
            stdin: IDLE,
            stream: IDLE,
        },
    );
    assert_eq!(next.state, ClientState::Polling);
    let next = client_step(
        ClientState::ReadingOutput { stdin: IDLE },
        ClientEvent::Output(b"x"),
    );
    assert_eq!(next.state, ClientState::Polling);
}

#[test]
fn either_side_gone_ends_the_client() {
    let left = ClientState::Left { detached: false };
    for (stdin, stream) in [(IDLE, GONE), (GONE, IDLE)] {
        let next = client_step(ClientState::Polling, ClientEvent::Ready { stdin, stream });
        assert_eq!(next.state, left);
    }
    let error = Readiness {
        readable: false,
        hangup: false,
        error: true,
    };
    let next = client_step(
        ClientState::ReadingOutput { stdin: error },
        ClientEvent::Output(b"last words"),
    );
    assert_eq!((next.state, next.show), (left, 10));
    let next = client_step(
        ClientState::ReadingOutput { stdin: READY },
        ClientEvent::Output(b""),
    );
    assert_eq!(next.state, left);
    let next = client_step(ClientState::ReadingInput, ClientEvent::Input(b""));
    assert_eq!((next.state, next.send), (left, 0));
}

#[test]
fn input_is_sent_up_to_the_key() {
    let mut sent = Vec::new();
    let mut state = ClientState::ReadingInput;
    for typed in [&b"ls -l\n"[..], &b"exit\x01never\x01"[..]] {
        let next = client_step(state, ClientEvent::Input(typed));
        sent.extend_from_slice(&typed[..next.send]);
        state = match next.state {
            ClientState::Polling => ClientState::ReadingInput,
            other => other,
        };
    }
    assert_eq!(sent, b"ls -l\nexit");
    assert_eq!(state, ClientState::Left { detached: true });
    let next = client_step(ClientState::ReadingInput, ClientEvent::Input(b"\x01"));
    assert_eq!(next.send, 0);
}

#[test]
fn leaving_is_reported() {
    assert_eq!(
        returned_message("api"),
        "Returned from api.\nReattach with: stay api\n"
    );
}

#[test]
fn restart_notice_tells_how_the_session_ended() {
    let command = words(&["run", "it all"]);
    assert_eq!(
        restart_notice("api", SessionState::Exited, Some(-3), &command),
        "Session api has exited with code -3.\n\nLast command:\nrun 'it all'\n\nPress Enter to run again, or Ctrl+C to cancel.\n"
    );
    assert_eq!(
        restart_notice("api", SessionState::Exited, None, &Vec::new()),
        "Session api has exited.\n\nPress Enter to run again, or Ctrl+C to cancel.\n"
    );
    assert_eq!(
        restart_notice("api", SessionState::Stopped, Some(1), &Vec::new()),
        "Session api is stopped.\n\nPress Enter to run again, or Ctrl+C to cancel.\n"
    );
    assert_eq!(
        restart_notice("api", SessionState::Running, None, &Vec::new()),
        "\nPress Enter to run again, or Ctrl+C to cancel.\n"
    );
    assert!(
        restart_notice("api", SessionState::Exited, Some(i32::MIN), &Vec::new())
            .contains("code -2147483648.")
    );
}

#[test]
fn answers_to_attach_are_followed() {
    let ready = Response::AttachReady {
        message: "hi".to_string(),
    };
    match attach_step("api", ready, "") {
        AttachStep::Enter { message } => assert_eq!(message, "hi"),
        other => panic!("{:?}", other),
    }
    let history = Response::HistoryReady {
        state: SessionState::Exited,
        exit_code: Some(0),
        command: words(&["x"]),
    };
    match attach_step("api", history, "") {
        AttachStep::Browse { notice, command } => {
            assert!(notice.starts_with("Session api has exited with code 0.\n"));
            assert_eq!(command, words(&["x"]));
        }
        other => panic!("{:?}", other),
    }
    let restart = Response::NeedsRestart {
        name: "ignored".to_string(),
        state: SessionState::Stopped,
        exit_code: None,
        command: words(&["x"]),
    };
    match attach_step("api", restart, "") {
        AttachStep::Confirm { notice, command } => {
            assert!(notice.starts_with("Session api is stopped.\n"));
            assert_eq!(command, words(&["x"]));
        }
        other => panic!("{:?}", other),
    }
    let error = Response::Error {
        message: "no".to_string(),
    };
    match attach_step("api", error, "") {
        AttachStep::Fail(error) => assert_eq!(error.message(), "no"),
        other => panic!("{:?}", other),
    }
    let odd = Response::Success {
        message: "?".to_string(),
    };
    match attach_step("api", odd, "Ok { message: \"?\" }") {
        AttachStep::Fail(error) => assert_eq!(
            error.message(),
            "Unexpected response: Ok { message: \"?\" }"
        ),
        other => panic!("{:?}", other),
    }
}

#[test]
fn session_is_restarted_only_by_the_second_request() {
    match attach_request("api", "/w".to_string(), None, 24, 80) {
        Request::Attach {
            name,
            cwd,
            command,
            restart,
            rows,
            cols,
        } => {
            assert_eq!((name.as_str(), cwd.as_str()), ("api", "/w"));
            assert_eq!(command, None);
            assert!(!restart);
            assert_eq!((rows, cols), (24, 80));
        }
        other => panic!("{:?}", other),
    }
    match restart_request("api", "/w".to_string(), words(&["top"]), 24, 80) {
        Request::Attach {
            name,
            cwd,
            command,
            restart,
            rows,
            cols,
        } => {
            assert_eq!((name.as_str(), cwd.as_str()), ("api", "/w"));
            assert_eq!(command, Some(words(&["top"])));
            assert!(restart);
            assert_eq!((rows, cols), (24, 80));
        }
        other => panic!("{:?}", other),
    }
}

#[test]
fn answers_to_commands_are_printed() {
    let done = Response::Success {
        message: "Killed api.".to_string(),
    };
    assert_eq!(command_outcome(done, "").unwrap(), "Killed api.\n");
    let error = Response::Error {
        message: "no".to_string(),
    };
    assert_eq!(command_outcome(error, "").unwrap_err().message(), "no");
    let odd = Response::DaemonInfo {
        version: "1".to_string(),
    };
    assert_eq!(
        command_outcome(odd, "odd").unwrap_err().message(),
        "Unexpected response: odd"
    );
}

#[test]
fn sessions_are_listed_in_columns() {
    let records = vec![
        record("api", SessionState::Running),
        record("a-name-that-is-long", SessionState::Stopped),
    ];
    let listing = "NAME            STATE     COMMAND\napi             running   echo 'a b'\na-name-that-is-longstopped   echo 'a b'\n";
    assert_eq!(session_listing(&records), listing);
    assert_eq!(
        list_outcome(Response::Sessions { sessions: records }, "").unwrap(),
        listing
    );
    assert_eq!(
        session_listing(&Vec::new()),
        "NAME            STATE     COMMAND\n"
    );
    let error = Response::Error {
        message: "no".to_string(),
    };
    assert_eq!(list_outcome(error, "").unwrap_err().message(), "no");
    let odd = Response::Success {
        message: String::new(),
    };
    assert_eq!(
        list_outcome(odd, "odd").unwrap_err().message(),
        "Unexpected response: odd"
    );
}

#[test]
fn control_sequences_are_not_text() {
    assert_eq!(
        plain_text(b"\x1b[31mred\x1b[0m\r\n\x1b]0;title\x07\ttab\x1b]8;;x\x1b\\end\x08\x7f"),
        b"red\n\ttabend"
    );
    assert_eq!(plain_text("caf\u{e9}".as_bytes()), "caf\u{e9}".as_bytes());
    assert_eq!(plain_text(b"\x1bMa\x1b[1\x1b[2mb"), b"ab");
}

#[test]
fn history_is_paged_by_lines() {
    let mut browser = Browser::new(b"1\n2\n3\n4\n5", 2);
    assert_eq!(browser.page(), b"4\r\n5");
    assert!(browser.on_input(b"\x1b[A"));
    assert_eq!(browser.page(), b"3\r\n4");
    assert!(browser.on_input(b"\x1bOA\x1bOA\x1bOA\x1bOA"));
    assert_eq!(browser.page(), b"1\r\n2");
    assert!(browser.on_input(b"ignored\x1b[C\x1b"));
    assert!(browser.on_input(b"[B"));
    assert_eq!(browser.page(), b"2\r\n3");
    assert!(browser.on_input(b"\x1b[B\x1b[B\x1b[B\x1b[B"));
    assert_eq!(browser.page(), b"4\r\n5");
    assert!(!browser.on_input(b"x\x01y"));
    assert!(!browser.on_input(b""));
}

#[test]
fn short_history_is_shown_whole() {
    let mut browser = Browser::new(b"only", 0);
    assert_eq!(browser.page(), b"only");
    assert!(browser.on_input(b"\x1b[A"));
    assert_eq!(browser.page(), b"only");
    assert_eq!(Browser::new(b"", 5).page(), b"");
    assert_eq!(Browser::new(b"a\nb\n", 5).page(), b"a\r\nb\r\n");
}

#[test]
fn daemon_is_launched_once_and_waited_for() {
    let next = start_step(StartState::Probing, StartEvent::Reached(true));
    assert_eq!((next.state, next.launch), (StartState::Ready, false));
    let next = start_step(StartState::Probing, StartEvent::Reached(false));
    assert_eq!((next.state, next.launch), (StartState::Waiting, true));
    let next = start_step(StartState::Waiting, StartEvent::Clock(2999));
    assert_eq!(next.state, StartState::Connecting);
    let next = start_step(StartState::Connecting, StartEvent::Reached(false));
    assert_eq!((next.state, next.launch), (StartState::Waiting, false));
    assert_eq!((next.pause_ms, START_PAUSE_MS), (50, 50));
    let next = start_step(StartState::Connecting, StartEvent::Reached(true));
    assert_eq!(next.state, StartState::Ready);
    let next = start_step(StartState::Waiting, StartEvent::Clock(3000));
    assert_eq!(next.state, StartState::Failed);
    assert_eq!(start_timeout().message(), "Failed to start stay daemon.");
}

#[test]
fn socket_that_cannot_be_made_is_reported() {
    assert_eq!(
        socket_failure("/x/daemon.sock").message(),
        "Failed to create socket:\n\n/x/daemon.sock\n\nPlease check directory permissions."
    );
}
