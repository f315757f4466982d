//! What a client does with what comes from the daemon and from the keyboard.
use crate::command;
use crate::command::display_command;
use crate::error::{StayError, StayResult};
use crate::protocol;
use crate::protocol::{
    RecordView, Request, RequestView, Response, ResponseView, SessionRecord, SessionState,
};
use crate::text;
use crate::text::{push_padded, push_signed};
use crate::wire;
use crate::wire::Readiness;
use vstd::prelude::*;
use vstd::string::*;

verus! {

/// The key that leaves a session: Ctrl+A.
pub const DETACH_KEY: u8 = 1;

/// What a client that is in a session waits for.
#[derive(Clone, Copy, Debug, PartialEq, Eq, Structural)]
pub enum ClientState {
    /// Output or input, whichever comes.
    Polling,
    /// The output that is there; then the input, as it was found.
    ReadingOutput { stdin: Readiness },
    /// The input that is there.
    ReadingInput,
    /// Nothing: the client has left, by the key or because one side is gone.
    Left { detached: bool },
}

/// What happens to a client that is in a session.
pub enum ClientEvent<'a> {
    /// Poll found something.
    Ready { stdin: Readiness, stream: Readiness },
    /// Output was read from the session.
    Output(&'a [u8]),
    /// Input was read from the keyboard.
    Input(&'a [u8]),
}

/// What a client does next: prints the first `show` bytes of the output it read,
/// sends the first `send` bytes of the input it read, and goes on in `state`.
#[derive(Clone, Copy, Debug, PartialEq, Eq, Structural)]
pub struct ClientMove {
    pub state: ClientState,
    pub show: usize,
    pub send: usize,
}

/// An event is one that the state waits for.
pub open spec fn awaits(state: ClientState, event: ClientEvent) -> bool {
    match state {
        ClientState::Polling => event is Ready,
        ClientState::ReadingOutput { .. } => event is Output,
        ClientState::ReadingInput => event is Input,
        ClientState::Left { .. } => false,
    }
}

/// The least index from `from` on at which the key to leave was typed.
pub open spec fn detach_at(input: Seq<u8>, from: int) -> Option<int>
    decreases input.len() - from,
{
    if from < 0 || from >= input.len() {
        None
    } else if input[from] == DETACH_KEY {
        Some(from)
    } else {
        detach_at(input, from + 1)
    }
}

/// Where a client goes on once the output is dealt with.
pub open spec fn state_for_input(stdin: Readiness) -> ClientState {
    if wire::is_closed(stdin) {
        ClientState::Left { detached: false }
    } else if stdin.readable {
        ClientState::ReadingInput
    } else {
        ClientState::Polling
    }
}

/// What a client does next. Output is printed as it comes. Input is sent as it
/// comes, up to the key to leave. Either side being gone ends it.
pub open spec fn client_move(state: ClientState, event: ClientEvent) -> ClientMove {
    match event {
        ClientEvent::Ready { stdin, stream } => ClientMove {
            state: if wire::is_closed(stream) {
                ClientState::Left { detached: false }
            } else if stream.readable {
                ClientState::ReadingOutput { stdin }
            } else {
                state_for_input(stdin)
            },
            show: 0,
            send: 0,
        },
        ClientEvent::Output(bytes) => ClientMove {
            state: match state {
                ClientState::ReadingOutput { stdin } if bytes@.len() > 0 => state_for_input(stdin),
                _ => ClientState::Left { detached: false },
            },
            show: bytes@.len() as usize,
            send: 0,
        },
        ClientEvent::Input(bytes) => input_move(bytes@),
    }
}

/// What a client does with what was typed.
pub open spec fn input_move(input: Seq<u8>) -> ClientMove {
    if input.len() == 0 {
        ClientMove { state: ClientState::Left { detached: false }, show: 0, send: 0 }
    } else {
        match detach_at(input, 0) {
            Some(at) => ClientMove {
                state: ClientState::Left { detached: true },
                show: 0,
                send: at as usize,
            },
            None => ClientMove { state: ClientState::Polling, show: 0, send: input.len() as usize },
        }
    }
}

/// Once the output is dealt with, the keyboard is read if there is something to read,
/// a keyboard that is gone ends the client, and otherwise it waits.
pub open spec fn goes_to_input(stdin: Readiness, state: ClientState) -> bool {
    &&& stdin.hangup || stdin.error ==> state == (ClientState::Left { detached: false })
    &&& !stdin.hangup && !stdin.error && stdin.readable ==> state == ClientState::ReadingInput
    &&& !stdin.hangup && !stdin.error && !stdin.readable ==> state == ClientState::Polling
}

/// Where the key to leave was typed.
fn find_detach(input: &[u8]) -> (found: Option<usize>)
    ensures
        match found {
            Some(at) => detach_at(input@, 0) == Some(at as int) && at < input@.len(),
            None => detach_at(input@, 0) is None,
        },
{
    let mut i: usize = 0;
    while i < input.len()
        invariant
            i <= input@.len(),
            detach_at(input@, i as int) == detach_at(input@, 0),
        decreases input@.len() - i,
    {
        if input[i] == DETACH_KEY {
            return Some(i);
        }
        i = i + 1;
    }
    None
}

/// Where a client goes on once the output is dealt with.
fn go_on(stdin: Readiness) -> (state: ClientState)
    ensures
        state == state_for_input(stdin),
{
    if stdin.closed() {
        ClientState::Left { detached: false }
    } else if stdin.readable {
        ClientState::ReadingInput
    } else {
        ClientState::Polling
    }
}

/// What a client that is in a session does next, where all of the input is what keys
/// sent.
pub fn client_step(state: ClientState, event: ClientEvent) -> (next: ClientMove)
    requires
        awaits(state, event),
    ensures
        next == client_move(state, event),
        event matches ClientEvent::Output(bytes) ==> next.show == bytes@.len(),
        event matches ClientEvent::Input(bytes) ==> next.send == before_detach(bytes@).len(),
        event matches ClientEvent::Ready { stdin, stream } ==> {
            &&& next.show == 0 && next.send == 0
            &&& stream.hangup || stream.error ==> next.state == (ClientState::Left {
                detached: false,
            })
            &&& !stream.hangup && !stream.error && stream.readable ==> next.state == (
            ClientState::ReadingOutput { stdin })
            &&& !stream.hangup && !stream.error && !stream.readable ==> goes_to_input(
                stdin,
                next.state,
            )
        },
        event matches ClientEvent::Output(bytes) ==> {
            &&& next.send == 0
            &&& bytes@.len() == 0 ==> next.state == (ClientState::Left { detached: false })
            &&& bytes@.len() > 0 ==> (state matches ClientState::ReadingOutput { stdin }
                && goes_to_input(stdin, next.state))
        },
        event matches ClientEvent::Input(bytes) ==> {
            &&& next.show == 0
            &&& bytes@.len() == 0 ==> next.send == 0 && next.state == (ClientState::Left {
                detached: false,
            })
            &&& bytes@.len() > 0 && !bytes@.contains(1u8) ==> next.send == bytes@.len()
                && next.state == ClientState::Polling
            &&& bytes@.contains(1u8) ==> next.state == (ClientState::Left { detached: true })
                && next.send < bytes@.len() && bytes@[next.send as int] == 1u8 && !bytes@.take(
                next.send as int,
            ).contains(1u8)
        },
{
    match event {
        ClientEvent::Ready { stdin, stream } => {
            let state = if stream.closed() {
                ClientState::Left { detached: false }
            } else if stream.readable {
                ClientState::ReadingOutput { stdin }
            } else {
                go_on(stdin)
            };
            ClientMove { state, show: 0, send: 0 }
        },
        ClientEvent::Output(bytes) => {
            let next = match state {
                ClientState::ReadingOutput { stdin } => if bytes.len() > 0 {
                    go_on(stdin)
                } else {
                    ClientState::Left { detached: false }
                },
                _ => ClientState::Left { detached: false },
            };
            ClientMove { state: next, show: bytes.len(), send: 0 }
        },
        ClientEvent::Input(bytes) => {
            proof {
                lemma_detach_at(bytes@, 0);
                lemma_detach_key(bytes@);
            }
            if bytes.len() == 0 {
                return ClientMove {
                    state: ClientState::Left { detached: false },
                    show: 0,
                    send: 0,
                };
            }
            match find_detach(bytes) {
                Some(at) => ClientMove {
                    state: ClientState::Left { detached: true },
                    show: 0,
                    send: at,
                },
                None => ClientMove { state: ClientState::Polling, show: 0, send: bytes.len() },
            }
        },
    }
}

/// What is printed when the client has left by the key.
pub open spec fn returned_text(name: Seq<char>) -> Seq<char> {
    "Returned from "@ + name + ".\nReattach with: stay "@ + name + "\n"@
}

/// What is printed when the client has left by the key.
pub fn returned_message(name: &str) -> (message: String)
    ensures
        message@ == returned_text(name@),
{
    let mut message = String::new();
    message.append("Returned from ");
    message.append(name);
    message.append(".\nReattach with: stay ");
    message.append(name);
    message.append("\n");
    assert(message@ =~= returned_text(name@));
    message
}

/// How a session came to its end, in words.
pub open spec fn ending_text(
    name: Seq<char>,
    state: SessionState,
    exit_code: Option<i32>,
) -> Seq<char> {
    match state {
        SessionState::Stopped => "Session "@ + name + " is stopped.\n"@,
        SessionState::Exited => match exit_code {
            Some(code) => "Session "@ + name + " has exited with code "@ + text::signed_decimal(
                code as int,
            ) + ".\n"@,
            None => "Session "@ + name + " has exited.\n"@,
        },
        SessionState::Running => seq![],
    }
}

/// The last command of a session, in words.
pub open spec fn last_command_text(command: Seq<Seq<char>>) -> Seq<char> {
    if command.len() == 0 {
        seq![]
    } else {
        "Last command:\n"@ + command::shown(command) + "\n\n"@
    }
}

/// What is printed before a session is started again.
pub open spec fn restart_text(
    name: Seq<char>,
    state: SessionState,
    exit_code: Option<i32>,
    command: Seq<Seq<char>>,
) -> Seq<char> {
    ending_text(name, state, exit_code) + "\n"@ + last_command_text(command)
        + "Press Enter to run again, or Ctrl+C to cancel.\n"@
}

/// What is printed before a session is started again.
pub fn restart_notice(
    name: &str,
    state: SessionState,
    exit_code: Option<i32>,
    command: &Vec<String>,
) -> (notice: String)
    ensures
        notice@ == restart_text(name@, state, exit_code, text::texts(command@)),
{
    let mut notice = String::new();
    match state {
        SessionState::Stopped => {
            notice.append("Session ");
            notice.append(name);
            notice.append(" is stopped.\n");
        },
        SessionState::Exited => {
            notice.append("Session ");
            notice.append(name);
            match exit_code {
                Some(code) => {
                    notice.append(" has exited with code ");
                    push_signed(&mut notice, code);
                    notice.append(".\n");
                },
                None => {
                    notice.append(" has exited.\n");
                },
            }
        },
        SessionState::Running => {},
    }
    assert(notice@ =~= ending_text(name@, state, exit_code));
    notice.append("\n");
    if command.len() > 0 {
        let ghost before = notice@;
        notice.append("Last command:\n");
        notice.append(display_command(command.as_slice()).as_str());
        notice.append("\n\n");
        assert(notice@ =~= before + last_command_text(text::texts(command@)));
    } else {
        assert(notice@ =~= notice@ + last_command_text(text::texts(command@)));
    }
    notice.append("Press Enter to run again, or Ctrl+C to cancel.\n");
    notice
}

/// The first request to come into a session: it starts one where there is none, but
/// does not start one again that has ended.
pub fn attach_request(
    name: &str,
    cwd: String,
    command: Option<Vec<String>>,
    rows: u16,
    cols: u16,
) -> (request: Request)
    ensures
        request@ == (RequestView::Attach {
            name: name@,
            cwd: cwd@,
            command: protocol::optional_texts(command),
            restart: false,
            rows,
            cols,
        }),
{
    Request::Attach { name: name.to_owned(), cwd, command, restart: false, rows, cols }
}

/// The request to start a session again with its last command, once the user has
/// confirmed that.
pub fn restart_request(
    name: &str,
    cwd: String,
    command: Vec<String>,
    rows: u16,
    cols: u16,
) -> (request: Request)
    ensures
        request@ == (RequestView::Attach {
            name: name@,
            cwd: cwd@,
            command: Some(text::texts(command@)),
            restart: true,
            rows,
            cols,
        }),
{
    Request::Attach {
        name: name.to_owned(),
        cwd,
        command: Some(command),
        restart: true,
        rows,
        cols,
    }
}

/// What a client does with the answer to its request to attach.
#[derive(Debug)]
pub enum AttachStep {
    /// Go into the session.
    Enter { message: String },
    /// Show the saved output that follows, print the notice, and, when that is
    /// confirmed, attach again with the command and a restart.
    Browse { notice: String, command: Vec<String> },
    /// Print the notice and, when that is confirmed, attach again with the command
    /// and a restart.
    Confirm { notice: String, command: Vec<String> },
    /// Fail.
    Fail(StayError),
}

/// The contents of what a client does with the answer to its request.
#[verifier::ext_equal]
pub enum AttachStepView {
    Enter { message: Seq<char> },
    Browse { notice: Seq<char>, command: Seq<Seq<char>> },
    Confirm { notice: Seq<char>, command: Seq<Seq<char>> },
    Fail(Seq<char>),
}

impl View for AttachStep {
    type V = AttachStepView;

    open spec fn view(&self) -> AttachStepView {
        match *self {
            AttachStep::Enter { message } => AttachStepView::Enter { message: message@ },
            AttachStep::Browse { notice, command } => AttachStepView::Browse {
                notice: notice@,
                command: text::texts(command@),
            },
            AttachStep::Confirm { notice, command } => AttachStepView::Confirm {
                notice: notice@,
                command: text::texts(command@),
            },
            AttachStep::Fail(error) => AttachStepView::Fail(error@),
        }
    }
}

/// The complaint about an answer that does not belong to the request.
pub open spec fn unexpected_text(shown: Seq<char>) -> Seq<char> {
    "Unexpected response: "@ + shown
}

/// What a client does with the answer to its request to attach; `shown` is the
/// answer in a form for the user to see.
pub open spec fn attach_step_for(
    name: Seq<char>,
    response: ResponseView,
    shown: Seq<char>,
) -> AttachStepView {
    match response {
        ResponseView::AttachReady { message } => AttachStepView::Enter { message },
        ResponseView::HistoryReady { state, exit_code, command } => AttachStepView::Browse {
            notice: restart_text(name, state, exit_code, command),
            command,
        },
        ResponseView::NeedsRestart { state, exit_code, command, .. } => AttachStepView::Confirm {
            notice: restart_text(name, state, exit_code, command),
            command,
        },
        ResponseView::Error { message } => AttachStepView::Fail(message),
        _ => AttachStepView::Fail(unexpected_text(shown)),
    }
}

/// The error for an answer that does not belong to the request.
fn unexpected(shown: &str) -> (error: StayError)
    ensures
        error@ == unexpected_text(shown@),
{
    let mut message = String::new();
    message.append("Unexpected response: ");
    message.append(shown);
    assert(message@ =~= unexpected_text(shown@));
    StayError::new(message)
}

/// What a client does with the answer to its request to attach; `shown` is the
/// answer in a form for the user to see.
pub fn attach_step(name: &str, response: Response, shown: &str) -> (step: AttachStep)
    ensures
        step@ == attach_step_for(name@, response@, shown@),
{
    match response {
        Response::AttachReady { message } => AttachStep::Enter { message },
        Response::HistoryReady { state, exit_code, command } => {
            let notice = restart_notice(name, state, exit_code, &command);
            AttachStep::Browse { notice, command }
        },
        Response::NeedsRestart { name: _, state, exit_code, command } => {
            let notice = restart_notice(name, state, exit_code, &command);
            AttachStep::Confirm { notice, command }
        },
        Response::Error { message } => AttachStep::Fail(StayError::new(message)),
        _ => AttachStep::Fail(unexpected(shown)),
    }
}

/// What is printed of the answer to a request to kill or to remove.
pub fn command_outcome(response: Response, shown: &str) -> (outcome: StayResult<String>)
    ensures
        match outcome {
            Ok(printed) => response@ matches ResponseView::Success { message } && printed@
                == message + "\n"@,
            Err(error) => match response@ {
                ResponseView::Success { .. } => false,
                ResponseView::Error { message } => error@ == message,
                _ => error@ == unexpected_text(shown@),
            },
        },
{
    match response {
        Response::Success { message } => {
            let mut printed = message;
            printed.append("\n");
            Ok(printed)
        },
        Response::Error { message } => Err(StayError::new(message)),
        _ => Err(unexpected(shown)),
    }
}

/// One line of the list of sessions.
pub open spec fn listing_line(record: RecordView) -> Seq<char> {
    text::padded(record.name, 16) + text::padded(protocol::state_word(record.state), 10)
        + command::shown(record.command) + "\n"@
}

/// The list of sessions, with a heading.
pub open spec fn listing_text(records: Seq<RecordView>) -> Seq<char>
    decreases records.len(),
{
    if records.len() == 0 {
        text::padded("NAME"@, 16) + text::padded("STATE"@, 10) + "COMMAND\n"@
    } else {
        listing_text(records.drop_last()) + listing_line(records.last())
    }
}

/// The list of sessions, with a heading.
pub fn session_listing(records: &Vec<SessionRecord>) -> (listing: String)
    ensures
        listing@ == listing_text(protocol::record_views(records@)),
{
    let ghost views = protocol::record_views(records@);
    let mut listing = String::new();
    push_padded(&mut listing, "NAME", 16);
    push_padded(&mut listing, "STATE", 10);
    listing.append("COMMAND\n");
    assert(views.take(0) =~= seq![]);
    assert(listing@ =~= listing_text(views.take(0)));
    let mut i: usize = 0;
    while i < records.len()
        invariant
            i <= records@.len(),
            views == protocol::record_views(records@),
            listing@ == listing_text(views.take(i as int)),
        decreases records@.len() - i,
    {
        let ghost before = listing@;
        let ghost next = views.take(i + 1);
        let record = &records[i];
        push_padded(&mut listing, record.name.as_str(), 16);
        push_padded(&mut listing, record.state.word(), 10);
        listing.append(display_command(record.command.as_slice()).as_str());
        listing.append("\n");
        assert(next.drop_last() =~= views.take(i as int));
        assert(listing@ =~= before + listing_line(views[i as int]));
        i = i + 1;
    }
    assert(views.take(i as int) =~= views);
    listing
}

/// What is printed of the answer to a request for the list of sessions.
pub fn list_outcome(response: Response, shown: &str) -> (outcome: StayResult<String>)
    ensures
        match outcome {
            Ok(printed) => response@ matches ResponseView::Sessions { sessions } && printed@
                == listing_text(sessions),
            Err(error) => match response@ {
                ResponseView::Sessions { .. } => false,
                ResponseView::Error { message } => error@ == message,
                _ => error@ == unexpected_text(shown@),
            },
        },
{
    match response {
        Response::Sessions { sessions } => Ok(session_listing(&sessions)),
        Response::Error { message } => Err(StayError::new(message)),
        _ => Err(unexpected(shown)),
    }
}

/// Where the key to leave was typed first, it was typed, and not before.
proof fn lemma_detach_at(input: Seq<u8>, from: int)
    requires
        0 <= from,
    ensures
        match detach_at(input, from) {
            Some(at) => from <= at < input.len() && input[at] == DETACH_KEY && (forall|i: int|
                from <= i < at ==> input[i] != DETACH_KEY),
            None => forall|i: int| from <= i < input.len() ==> input[i] != DETACH_KEY,
        },
    decreases input.len() - from,
{
    if from < input.len() && input[from] != DETACH_KEY {
        lemma_detach_at(input, from + 1);
    }
}

/// The key to leave is Ctrl+A: the first byte with the value one.
pub proof fn lemma_detach_key(input: Seq<u8>)
    ensures
        detach_at(input, 0) is Some <==> input.contains(1u8),
        detach_at(input, 0) matches Some(at) ==> !input.take(at).contains(1u8),
{
    lemma_detach_at(input, 0);
    match detach_at(input, 0) {
        Some(at) => {
            assert(input[at] == 1u8);
            assert forall|i: int| 0 <= i < at implies input.take(at)[i] != 1u8 by {
                assert(input.take(at)[i] == input[i]);
            }
        },
        None => {},
    }
}

/// What is typed before the key to leave, or all of it where the key was not typed.
pub open spec fn before_detach(input: Seq<u8>) -> Seq<u8> {
    match detach_at(input, 0) {
        Some(at) => input.take(at),
        None => input,
    }
}

/// Everything typed in a series of reads.
pub open spec fn all_typed(inputs: Seq<Seq<u8>>) -> Seq<u8>
    decreases inputs.len(),
{
    if inputs.len() == 0 {
        seq![]
    } else {
        inputs[0] + all_typed(inputs.drop_first())
    }
}

/// Everything that is sent of a series of reads, until the client has left.
pub open spec fn all_sent(inputs: Seq<Seq<u8>>) -> Seq<u8>
    decreases inputs.len(),
{
    if inputs.len() == 0 {
        seq![]
    } else {
        let next = input_move(inputs[0]);
        let sent = inputs[0].take(next.send as int);
        if next.state is Left {
            sent
        } else {
            sent + all_sent(inputs.drop_first())
        }
    }
}

/// What is typed before the key to leave is a start of what is typed.
pub proof fn lemma_before_detach_is_start(input: Seq<u8>)
    ensures
        before_detach(input).len() <= input.len(),
        before_detach(input) == input.take(before_detach(input).len() as int),
{
    lemma_detach_at(input, 0);
    assert(input.take(input.len() as int) =~= input);
}

/// A text is typed before the key where it is typed in front of a text that is.
pub proof fn lemma_before_detach_concat(a: Seq<u8>, b: Seq<u8>)
    ensures
        before_detach(a + b) == (if detach_at(a, 0) is Some {
            before_detach(a)
        } else {
            a + before_detach(b)
        }),
{
    let whole = a + b;
    lemma_detach_at(whole, 0);
    lemma_detach_at(a, 0);
    lemma_detach_at(b, 0);
    match detach_at(a, 0) {
        Some(at) => {
            assert(whole[at] == DETACH_KEY);
            let first = detach_at(whole, 0)->0;
            if first < at {
                assert(whole[first] == a[first]);
            }
            if at < first {
                assert(whole[at] != DETACH_KEY);
            }
            assert(whole.take(at) =~= a.take(at));
        },
        None => {
            match detach_at(b, 0) {
                Some(at) => {
                    assert(whole[a.len() + at] == DETACH_KEY);
                    let first = detach_at(whole, 0)->0;
                    if first < a.len() {
                        assert(whole[first] == a[first]);
                    } else if first < a.len() + at {
                        assert(whole[first] == b[first - a.len()]);
                    }
                    assert(first == a.len() + at);
                    assert(whole.take(first) =~= a + b.take(at));
                },
                None => {
                    if detach_at(whole, 0) is Some {
                        let first = detach_at(whole, 0)->0;
                        if first < a.len() {
                            assert(whole[first] == a[first]);
                        } else {
                            assert(whole[first] == b[first - a.len()]);
                        }
                    }
                },
            }
        },
    }
}

/// Whatever is typed reaches the session byte for byte and in order, up to the key
/// to leave; neither the key nor anything behind it does. (A read without bytes is
/// the end of the input.)
pub proof fn law_input_is_sent_up_to_the_key(inputs: Seq<Seq<u8>>)
    requires
        forall|i: int| 0 <= i < inputs.len() ==> 0 < (#[trigger] inputs[i]).len() <= usize::MAX,
    ensures
        all_sent(inputs) == before_detach(all_typed(inputs)),
        !all_sent(inputs).contains(DETACH_KEY),
    decreases inputs.len(),
{
    if inputs.len() > 0 {
        let first = inputs[0];
        let rest = inputs.drop_first();
        assert forall|i: int| 0 <= i < rest.len() implies 0 < (#[trigger] rest[i]).len()
            <= usize::MAX by {
            assert(rest[i] == inputs[i + 1]);
        }
        assert(0 < inputs[0].len() <= usize::MAX);
        law_input_is_sent_up_to_the_key(rest);
        lemma_before_detach_concat(first, all_typed(rest));
        lemma_detach_at(first, 0);
        assert(first.take(first.len() as int) =~= first);
    }
    lemma_detach_at(all_typed(inputs), 0);
}

/// What is typed is not left lying: when neither side is gone and the keyboard has
/// something, the client reads it before it looks again which side has something;
/// right away where the session has printed nothing, and otherwise as soon as that was
/// printed.
pub proof fn law_ready_keyboard_is_read(stdin: Readiness, stream: Readiness, output: &[u8])
    requires
        stdin.readable,
        !stdin.hangup,
        !stdin.error,
        !stream.hangup,
        !stream.error,
        output@.len() > 0,
    ensures
        ({
            let first = client_move(ClientState::Polling, ClientEvent::Ready { stdin, stream });
            &&& !stream.readable ==> first.state == ClientState::ReadingInput
            &&& stream.readable ==> first.state == (ClientState::ReadingOutput { stdin })
            &&& stream.readable ==> client_move(first.state, ClientEvent::Output(output)).state
                == ClientState::ReadingInput
        }),
{
}

/// What the session prints is not left lying: when it has something and is not gone,
/// the client reads it, whatever the keyboard has.
pub proof fn law_ready_output_is_read(stdin: Readiness, stream: Readiness)
    requires
        stream.readable,
        !stream.hangup,
        !stream.error,
    ensures
        client_move(ClientState::Polling, ClientEvent::Ready { stdin, stream }).state == (
        ClientState::ReadingOutput { stdin }),
{
}

/// A client whose session or keyboard is gone has left, and not by the key; with both
/// there and nothing to read, it waits.
pub proof fn law_gone_side_ends_the_client(stdin: Readiness, stream: Readiness, output: &[u8])
    ensures
        ({
            let next = client_move(ClientState::Polling, ClientEvent::Ready { stdin, stream });
            let after = client_move(
                ClientState::ReadingOutput { stdin },
                ClientEvent::Output(output),
            );
            &&& stream.hangup || stream.error ==> next.state == (ClientState::Left {
                detached: false,
            })
            &&& !stream.readable && (stdin.hangup || stdin.error) ==> next.state == (
            ClientState::Left { detached: false })
            &&& stdin.hangup || stdin.error || output@.len() == 0 ==> after.state == (
            ClientState::Left { detached: false })
            &&& !stream.hangup && !stream.error && !stream.readable && !stdin.hangup
                && !stdin.error && !stdin.readable ==> next.state == ClientState::Polling
            &&& !stdin.hangup && !stdin.error && !stdin.readable && output@.len() > 0
                ==> after.state == ClientState::Polling
        }),
{
}

/// Ctrl+A leaves the session, and nothing else that is typed does: what was typed
/// before it is sent, neither the key nor anything behind it is. The end of the input
/// leaves it too, but not by the key.
pub proof fn law_only_the_key_leaves(input: Seq<u8>)
    requires
        input.len() <= usize::MAX,
    ensures
        ({
            let next = input_move(input);
            &&& next.state == (ClientState::Left { detached: true }) <==> input.contains(1u8)
            &&& input.len() > 0 && !input.contains(1u8) ==> next.state == ClientState::Polling
                && next.send == input.len()
            &&& input.len() == 0 ==> next.state == (ClientState::Left { detached: false })
                && next.send == 0
            &&& input.contains(1u8) ==> next.send < input.len() && input[next.send as int] == 1u8
                && !input.take(next.send as int).contains(1u8)
        }),
{
    lemma_detach_at(input, 0);
    lemma_detach_key(input);
}

/// The list of sessions starts with a heading, and has one line for each record, in
/// the order of the records and whatever their state: the name, the word for the state
/// and the command.
pub proof fn law_list_has_a_line_for_each_record(records: Seq<RecordView>, record: RecordView)
    ensures
        listing_text(Seq::empty()) == "NAME            STATE     COMMAND\n"@,
        listing_text(records.push(record)) == listing_text(records) + text::padded(
            record.name,
            16,
        ) + text::padded(
            match record.state {
                SessionState::Running => "running"@,
                SessionState::Exited => "exited"@,
                SessionState::Stopped => "stopped"@,
            },
            10,
        ) + command::shown(record.command) + "\n"@,
{
    reveal_strlit("NAME            STATE     COMMAND\n");
    reveal_strlit("NAME");
    reveal_strlit("STATE");
    reveal_strlit("COMMAND\n");
    assert(listing_text(Seq::empty()) =~= "NAME            STATE     COMMAND\n"@);
    assert(records.push(record).drop_last() =~= records);
    assert(listing_text(records.push(record)) =~= listing_text(records) + text::padded(
        record.name,
        16,
    ) + text::padded(protocol::state_word(record.state), 10) + command::shown(record.command)
        + "\n"@);
}

/// The list of more sessions starts with the list of fewer: no line is ever changed by
/// what comes behind it.
pub proof fn law_list_grows_line_by_line(first: Seq<RecordView>, more: Seq<RecordView>)
    ensures
        listing_text(first).is_prefix_of(listing_text(first + more)),
        listing_text(first + more).len() >= listing_text(first).len() + 27 * more.len(),
    decreases more.len(),
{
    if more.len() == 0 {
        assert(first + more =~= first);
        assert(listing_text(first) =~= listing_text(first).take(listing_text(first).len() as int));
    } else {
        let before = more.drop_last();
        let record = more.last();
        law_list_grows_line_by_line(first, before);
        assert(first + more =~= (first + before).push(record));
        law_list_has_a_line_for_each_record(first + before, record);
        reveal_strlit("\n");
        assert(listing_text(first) =~= listing_text(first + more).take(
            listing_text(first).len() as int,
        ));
    }
}

/// A client goes into a session that it was let into, shows what was saved of one that
/// has ended, asks before it starts one again, and fails with what the daemon said, or
/// with the answer itself where it makes no sense.
pub proof fn law_answers_to_attach_are_followed(
    name: Seq<char>,
    response: ResponseView,
    shown: Seq<char>,
)
    ensures
        match response {
            ResponseView::AttachReady { message } => attach_step_for(name, response, shown) == (
            AttachStepView::Enter { message }),
            ResponseView::HistoryReady { state, exit_code, command } => attach_step_for(
                name,
                response,
                shown,
            ) == (AttachStepView::Browse {
                notice: restart_text(name, state, exit_code, command),
                command,
            }),
            ResponseView::NeedsRestart { name: _, state, exit_code, command } => attach_step_for(
                name,
                response,
                shown,
            ) == (AttachStepView::Confirm {
                notice: restart_text(name, state, exit_code, command),
                command,
            }),
            ResponseView::Error { message } => attach_step_for(name, response, shown)
                == AttachStepView::Fail(message),
            _ => attach_step_for(name, response, shown) == AttachStepView::Fail(
                "Unexpected response: "@ + shown,
            ),
        },
{
}

/// Before a session is started again the user is told how it ended, with its exit code
/// if it has one, and which command would run.
pub proof fn law_notice_tells_how_it_ended(
    name: Seq<char>,
    exit_code: Option<i32>,
    command: Seq<Seq<char>>,
)
    ensures
        ({
            let what = if command.len() == 0 {
                Seq::empty()
            } else {
                "Last command:\n"@ + command::shown(command) + "\n\n"@
            };
            let ask = "Press Enter to run again, or Ctrl+C to cancel.\n"@;
            let stopped = "Session "@ + name + " is stopped.\n"@;
            &&& restart_text(name, SessionState::Stopped, exit_code, command) == stopped + "\n"@
                + what + ask
            &&& exit_code is None ==> restart_text(
                name,
                SessionState::Exited,
                exit_code,
                command,
            ) == "Session "@ + name + " has exited.\n"@ + "\n"@ + what + ask
            &&& exit_code is Some ==> restart_text(
                name,
                SessionState::Exited,
                exit_code,
                command,
            ) == "Session "@ + name + " has exited with code "@ + text::signed_decimal(
                exit_code->0 as int,
            ) + ".\n"@ + "\n"@ + what + ask
        }),
{
}

/// Whoever leaves by the key is told how to come back.
pub proof fn law_leaving_tells_how_to_come_back(name: Seq<char>)
    ensures
        returned_text(name) == "Returned from "@ + name + ".\nReattach with: stay "@ + name + "\n"@,
{
}

/// A client leaves by the key only when it was typed, and whatever it reads of the
/// output it prints in full.
pub proof fn law_output_is_shown_in_full(state: ClientState, event: ClientEvent)
    requires
        awaits(state, event),
        event matches ClientEvent::Output(bytes) ==> bytes@.len() <= usize::MAX,
    ensures
        event matches ClientEvent::Output(bytes) ==> client_move(state, event).show
            == bytes@.len(),
        client_move(state, event).state == (ClientState::Left { detached: true }) ==> (
        event matches ClientEvent::Input(bytes) && exists|i: int|
            0 <= i < bytes@.len() && bytes@[i] == DETACH_KEY),
{
    if let ClientEvent::Input(bytes) = event {
        lemma_detach_at(bytes@, 0);
    }
}

} // verus!
