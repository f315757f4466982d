//! The view of a session that runs: its output as it comes, and on the wheel or a
//! drag of the mouse a look back through what it printed.
use crate::browse;
use crate::browse::{BrowseView, Browser, LEFT, WHEEL_UP};
use crate::client;
use crate::client::{client_step, ClientEvent, ClientState};
use crate::clipboard;
use crate::clipboard::copy_text;
use crate::input;
use crate::input::{split_input, typed_keys, Report, Token};
use crate::screen::CLEAR_SCREEN;
use crate::session_io;
use crate::session_io::SessionIo;
use vstd::prelude::*;
use vstd::string::*;

verus! {

/// Cuts long lines off at the edge.
pub const WRAP_OFF: &'static str = "\x1b[?7l";

/// Lets long lines go on below.
pub const WRAP_ON: &'static str = "\x1b[?7h";

/// The view of a session that runs.
pub struct LiveView {
    output: SessionIo<()>,
    rows: u16,
    held: Vec<u8>,
    browser: Option<Browser>,
}

/// The contents of the view of a session: what was printed, the rows of the screen,
/// the report of the mouse that the input has not finished, and the look back, if
/// there is one.
#[verifier::ext_equal]
pub struct LiveContents {
    pub printed: Seq<u8>,
    pub rows: u16,
    pub held: Seq<u8>,
    pub browsing: Option<BrowseView>,
}

/// What comes of an event: bytes for the screen, bytes for the session, and the
/// state to go on in.
pub struct LiveMove {
    pub state: ClientState,
    pub screen: Vec<u8>,
    pub send: Vec<u8>,
}

/// A look, if there is one.
spec fn look(browser: Option<Browser>) -> Option<BrowseView> {
    match browser {
        Some(browser) => Some(browser@),
        None => None,
    }
}

impl View for LiveView {
    type V = LiveContents;

    closed spec fn view(&self) -> LiveContents {
        LiveContents {
            printed: self.output.buffer@,
            rows: self.rows,
            held: self.held@,
            browsing: look(self.browser),
        }
    }
}

/// A look back is a look at something.
pub open spec fn is_valid(view: LiveContents) -> bool {
    view.browsing matches Some(look) ==> browse::in_range(look)
}

/// A report that begins a look back: the wheel turns back, or the left button is
/// pressed.
pub open spec fn opens(report: Report) -> bool {
    report.button == WHEEL_UP || (report.button == LEFT && report.pressed)
}

/// The look that a report meets: the one that there is, or one that it begins, at
/// the end of what was printed.
pub open spec fn look_for(view: LiveContents, report: Report) -> Option<BrowseView> {
    match view.browsing {
        Some(look) => Some(look),
        None => if opens(report) {
            Some(browse::fresh(view.printed, view.rows))
        } else {
            None
        },
    }
}

/// The view after a piece of the input. A report of the mouse moves the look back, or
/// marks text in it; a look that is back at the end, with nothing marked, is over.
/// A key ends it.
pub open spec fn after_piece(view: LiveContents, piece: Token) -> LiveContents {
    LiveContents {
        browsing: match piece {
            Token::Key(_) => None,
            Token::Mouse(report) => match look_for(view, report) {
                Some(look) => {
                    let after = browse::after_report(look, report);
                    if browse::is_at_rest(after) {
                        None
                    } else {
                        Some(after)
                    }
                },
                None => None,
            },
        },
        ..view
    }
}

/// The view after some pieces of the input.
pub open spec fn after_pieces(view: LiveContents, pieces: Seq<Token>) -> LiveContents
    decreases pieces.len(),
{
    if pieces.len() == 0 {
        view
    } else {
        after_piece(after_pieces(view, pieces.drop_last()), pieces.last())
    }
}

/// There was a look back, before some pieces of the input or after one of them.
pub open spec fn looked_back(view: LiveContents, pieces: Seq<Token>) -> bool
    decreases pieces.len(),
{
    after_pieces(view, pieces).browsing is Some || (pieces.len() > 0 && looked_back(
        view,
        pieces.drop_last(),
    ))
}

/// The pieces that some input finishes.
pub open spec fn pieces_of(view: LiveContents, input: Seq<u8>) -> Seq<Token> {
    input::tokens(view.held + input, 0)
}

/// The view after some input.
pub open spec fn after_input(view: LiveContents, input: Seq<u8>) -> LiveContents {
    let after = after_pieces(view, pieces_of(view, input));
    LiveContents {
        held: input::kept_back(view.held + input, 0),
        browsing: match after.browsing {
            Some(look) => Some(BrowseView { chosen: false, ..look }),
            None => None,
        },
        ..after
    }
}

/// The view after some output.
pub open spec fn after_output(view: LiveContents, output: Seq<u8>) -> LiveContents {
    LiveContents { printed: session_io::recorded(view.printed, output), ..view }
}

/// A look back, as it is put on the screen.
pub open spec fn picture(look: BrowseView) -> Seq<u8> {
    WRAP_OFF.spec_bytes() + CLEAR_SCREEN.spec_bytes() + browse::joined_lines(
        browse::shown(look),
        seq![13u8, 10u8],
    ) + WRAP_ON.spec_bytes()
}

/// What is put on the screen after some input: the look back, and what was chosen in
/// it for the clipboard; or, where a look back is over, what was printed.
pub open spec fn screen_after(view: LiveContents, input: Seq<u8>) -> Seq<u8> {
    let pieces = pieces_of(view, input);
    match after_pieces(view, pieces).browsing {
        Some(look) => if look.chosen {
            clipboard::copy_command(browse::marked_text(look)) + picture(look)
        } else {
            picture(look)
        },
        None => if looked_back(view, pieces) {
            CLEAR_SCREEN.spec_bytes() + view.printed
        } else {
            seq![]
        },
    }
}

/// Where a client goes on after some input. Reports of the mouse alone keep it where
/// it is.
pub open spec fn state_after(view: LiveContents, input: Seq<u8>) -> ClientState {
    let keys = input::keys_of(pieces_of(view, input));
    if input.len() == 0 {
        ClientState::Left { detached: false }
    } else if keys.len() == 0 {
        ClientState::Polling
    } else {
        client::input_move(keys).state
    }
}

/// A look back, as it is put on the screen.
pub fn draw(browser: &Browser) -> (screen: Vec<u8>)
    requires
        browse::in_range(browser@),
    ensures
        screen@ == picture(browser@),
{
    let mut screen: Vec<u8> = Vec::new();
    screen.extend_from_slice(WRAP_OFF.as_bytes());
    screen.extend_from_slice(CLEAR_SCREEN.as_bytes());
    screen.extend_from_slice(browser.page().as_slice());
    screen.extend_from_slice(WRAP_ON.as_bytes());
    assert(screen@ =~= picture(browser@));
    screen
}

impl LiveView {
    /// The view of a session that has printed nothing yet, on a screen with the
    /// given number of rows.
    pub fn new(rows: u16) -> (view: Self)
        ensures
            view@ == (LiveContents { printed: seq![], rows, held: seq![], browsing: None }),
            is_valid(view@),
    {
        LiveView { output: SessionIo::new(), rows, held: Vec::new(), browser: None }
    }

    /// Takes in a piece of the input.
    fn take_piece(&mut self, piece: Token)
        requires
            is_valid(old(self)@),
        ensures
            final(self)@ == after_piece(old(self)@, piece),
            is_valid(final(self)@),
    {
        let before = self.browser.take();
        if let Token::Mouse(report) = piece {
            let look = match before {
                Some(browser) => Some(browser),
                None => if report.button == WHEEL_UP || (report.button == LEFT && report.pressed) {
                    Some(Browser::new(self.output.buffer.as_slice(), self.rows))
                } else {
                    None
                },
            };
            if let Some(mut browser) = look {
                browser.take_report(report);
                if !browser.at_rest() {
                    self.browser = Some(browser);
                }
            }
        }
    }

    /// Takes in what came from the keyboard and the mouse; gives back what goes on
    /// the screen, and the bytes that keys sent.
    fn take_input(&mut self, input: &[u8]) -> (taken: (Vec<u8>, Vec<u8>))
        requires
            is_valid(old(self)@),
        ensures
            final(self)@ == after_input(old(self)@, input@),
            is_valid(final(self)@),
            taken.0@ == screen_after(old(self)@, input@),
            taken.1@ == input::keys_of(pieces_of(old(self)@, input@)),
    {
        let mut all: Vec<u8> = Vec::new();
        all.extend_from_slice(self.held.as_slice());
        all.extend_from_slice(input);
        assert(all@ =~= old(self)@.held + input@);
        let (pieces, kept) = split_input(all.as_slice());
        let mut looked = self.browser.is_some();
        let mut i: usize = 0;
        assert(pieces@.take(0) =~= seq![]);
        while i < pieces.len()
            invariant
                i <= pieces@.len(),
                is_valid(self@),
                self@ == after_pieces(old(self)@, pieces@.take(i as int)),
                looked == looked_back(old(self)@, pieces@.take(i as int)),
                self@.printed == old(self)@.printed,
            decreases pieces@.len() - i,
        {
            assert(pieces@.take(i + 1).drop_last() =~= pieces@.take(i as int));
            self.take_piece(pieces[i]);
            if self.browser.is_some() {
                looked = true;
            }
            i = i + 1;
        }
        assert(pieces@.take(i as int) =~= pieces@);
        self.held = kept;
        let mut screen: Vec<u8> = Vec::new();
        match self.browser.take() {
            Some(mut browser) => {
                let picture = draw(&browser);
                if let Some(text) = browser.take_chosen() {
                    screen.extend_from_slice(copy_text(text.as_slice()).as_slice());
                }
                screen.extend_from_slice(picture.as_slice());
                self.browser = Some(browser);
            },
            None => {
                if looked {
                    screen.extend_from_slice(CLEAR_SCREEN.as_bytes());
                    screen.extend_from_slice(self.output.buffer.as_slice());
                }
            },
        }
        assert(screen@ =~= screen_after(old(self)@, input@));
        (screen, typed_keys(&pieces))
    }

    /// What a client that is in a session does next. Output is kept, and printed as
    /// it comes unless there is a look back. What keys send goes to the session, up
    /// to the key to leave. Reports of the mouse do not: they move the look back.
    pub fn step(&mut self, state: ClientState, event: ClientEvent) -> (next: LiveMove)
        requires
            client::awaits(state, event),
            is_valid(old(self)@),
        ensures
            is_valid(final(self)@),
            match event {
                ClientEvent::Ready { .. } => {
                    &&& final(self)@ == old(self)@
                    &&& next.state == client::client_move(state, event).state
                    &&& next.screen@.len() == 0
                    &&& next.send@.len() == 0
                },
                ClientEvent::Output(bytes) => {
                    &&& final(self)@ == after_output(old(self)@, bytes@)
                    &&& next.state == client::client_move(state, event).state
                    &&& next.screen@ == (if old(self)@.browsing is Some {
                        seq![]
                    } else {
                        bytes@
                    })
                    &&& next.send@.len() == 0
                },
                ClientEvent::Input(bytes) => if bytes@.len() == 0 {
                    &&& final(self)@ == old(self)@
                    &&& next.state == (ClientState::Left { detached: false })
                    &&& next.screen@.len() == 0
                    &&& next.send@.len() == 0
                } else {
                    &&& final(self)@ == after_input(old(self)@, bytes@)
                    &&& next.state == state_after(old(self)@, bytes@)
                    &&& next.screen@ == screen_after(old(self)@, bytes@)
                    &&& next.send@ == client::before_detach(
                        input::keys_of(pieces_of(old(self)@, bytes@)),
                    )
                },
            },
            event matches ClientEvent::Ready { stdin, stream } ==> {
                &&& stream.hangup || stream.error ==> next.state == (ClientState::Left {
                    detached: false,
                })
                &&& !stream.hangup && !stream.error && stream.readable ==> next.state == (
                ClientState::ReadingOutput { stdin })
                &&& !stream.hangup && !stream.error && !stream.readable
                    ==> client::goes_to_input(stdin, next.state)
            },
            event matches ClientEvent::Output(bytes) ==> {
                &&& bytes@.len() == 0 ==> next.state == (ClientState::Left { detached: false })
                &&& bytes@.len() > 0 ==> (state matches ClientState::ReadingOutput { stdin }
                    && client::goes_to_input(stdin, next.state))
            },
            event matches ClientEvent::Input(bytes) ==> bytes@.len() > 0 ==> ({
                let keys = input::keys_of(pieces_of(old(self)@, bytes@));
                &&& !keys.contains(1u8) ==> next.state == ClientState::Polling && next.send@
                    == keys
                &&& keys.contains(1u8) ==> next.state == (ClientState::Left { detached: true })
                    && next.send@.is_prefix_of(keys) && next.send@.len() < keys.len()
                    && keys[next.send@.len() as int] == 1u8 && !next.send@.contains(1u8)
            }),
    {
        match event {
            ClientEvent::Ready { .. } => {
                let next = client_step(state, event);
                LiveMove { state: next.state, screen: Vec::new(), send: Vec::new() }
            },
            ClientEvent::Output(bytes) => {
                let next = client_step(state, event);
                self.output.record(bytes);
                let mut screen: Vec<u8> = Vec::new();
                if self.browser.is_none() {
                    screen.extend_from_slice(bytes);
                }
                assert(screen@ =~= (if old(self)@.browsing is Some {
                    seq![]
                } else {
                    bytes@
                }));
                LiveMove { state: next.state, screen, send: Vec::new() }
            },
            ClientEvent::Input(bytes) => {
                if bytes.len() == 0 {
                    let next = client_step(state, event);
                    return LiveMove { state: next.state, screen: Vec::new(), send: Vec::new() };
                }
                let (screen, keys) = self.take_input(bytes);
                let next = client_step(
                    ClientState::ReadingInput,
                    ClientEvent::Input(keys.as_slice()),
                );
                let mut send: Vec<u8> = Vec::new();
                proof {
                    client::lemma_before_detach_is_start(keys@);
                }
                send.extend_from_slice(&keys.as_slice()[0..next.send]);
                assert(send@ =~= client::before_detach(keys@));
                assert(send@ =~= keys@.take(next.send as int));
                let state = if keys.len() == 0 {
                    ClientState::Polling
                } else {
                    next.state
                };
                LiveMove { state, screen, send }
            },
        }
    }
}

/// Where all that comes is reports of the mouse, nothing is sent, and the client stays
/// where it is.
pub proof fn law_mouse_sends_nothing(view: LiveContents, input: Seq<u8>)
    requires
        input.len() > 0,
        forall|i: int|
            0 <= i < pieces_of(view, input).len() ==> #[trigger] pieces_of(view, input)[i] is Mouse,
    ensures
        client::before_detach(input::keys_of(pieces_of(view, input))) == Seq::<u8>::empty(),
        state_after(view, input) == ClientState::Polling,
{
    input::law_reports_are_not_keys(pieces_of(view, input));
    client::lemma_before_detach_is_start(Seq::<u8>::empty());
}

/// On a turn of the wheel nothing is sent, and the look back through what was printed
/// moves by a line: back by one, from the end of the output where there was no look
/// yet, or on by one, up to the end, where it is over.
pub proof fn law_wheel_moves_by_a_line(view: LiveContents, report: Report)
    requires
        is_valid(view),
        view.held.len() == 0,
        report.col <= 99999,
        report.row <= 99999,
        report.button == browse::WHEEL_UP || report.button == browse::WHEEL_DOWN,
    ensures
        ({
            let input = input::report_bytes(report);
            &&& client::before_detach(input::keys_of(pieces_of(view, input)))
                == Seq::<u8>::empty()
            &&& state_after(view, input) == ClientState::Polling
            &&& after_input(view, input).printed == view.printed
        }),
        ({
            let look = match view.browsing {
                Some(look) => look,
                None => browse::fresh(view.printed, view.rows),
            };
            let moved = if report.button == browse::WHEEL_UP {
                browse::moved_up(look)
            } else {
                browse::moved_down(look)
            };
            after_input(view, input::report_bytes(report)).browsing == (if browse::is_at_rest(moved) {
                None
            } else {
                Some(BrowseView { chosen: false, ..moved })
            })
        }),
{
    let input = input::report_bytes(report);
    input::law_report_reads_back(report);
    assert(view.held + input =~= input);
    let pieces = pieces_of(view, input);
    law_mouse_sends_nothing(view, input);
    assert(pieces.drop_last() =~= seq![]);
    reveal_with_fuel(after_pieces, 2);
    assert(after_pieces(view, pieces) == after_piece(view, pieces.last()));
}

/// Whatever is printed while there is a look back is printed when it is over: what
/// is then put on the screen is everything that is kept of the output.
pub proof fn law_key_shows_the_output(view: LiveContents, output: Seq<u8>, byte: u8)
    requires
        view.browsing is Some,
        view.held.len() == 0,
        byte != 0x1b,
    ensures
        after_input(after_output(view, output), seq![byte]).browsing is None,
        screen_after(after_output(view, output), seq![byte]) == CLEAR_SCREEN.spec_bytes()
            + session_io::recorded(view.printed, output),
{
    let after = after_output(view, output);
    let input = seq![byte];
    assert(after.held + input =~= input);
    assert(input::no_report(input, 0));
    input::lemma_tokens_are_keys(input, 0);
    let pieces = pieces_of(after, input);
    assert(pieces =~= seq![Token::Key(byte)]);
    assert(pieces.drop_last() =~= seq![]);
    assert(looked_back(after, pieces.drop_last()));
}

/// Without a report of the mouse and without a look back, the view changes nothing:
/// what is typed is sent as it is, up to the key to leave, and the screen is left
/// alone.
pub proof fn law_keys_pass_as_they_are(view: LiveContents, input: Seq<u8>)
    requires
        view.browsing is None,
        view.held.len() == 0,
        input.len() > 0,
        forall|i: int| 0 <= i < input.len() ==> #[trigger] input::no_report(input, i),
    ensures
        input::keys_of(pieces_of(view, input)) == input,
        state_after(view, input) == client::input_move(input).state,
        screen_after(view, input) == Seq::<u8>::empty(),
        after_input(view, input) == view,
{
    assert(view.held + input =~= input);
    input::law_input_without_mouse_is_untouched(input);
    input::lemma_tokens_are_keys(input, 0);
    let pieces = pieces_of(view, input);
    assert forall|i: int| 0 <= i < pieces.len() implies #[trigger] pieces[i] is Key by {}
    lemma_keys_leave_the_view(view, pieces);
    assert(view.held =~= seq![]);
}

/// Keys do not begin a look back.
proof fn lemma_keys_leave_the_view(view: LiveContents, pieces: Seq<Token>)
    requires
        view.browsing is None,
        forall|i: int| 0 <= i < pieces.len() ==> #[trigger] pieces[i] is Key,
    ensures
        after_pieces(view, pieces) == view,
        !looked_back(view, pieces),
    decreases pieces.len(),
{
    if pieces.len() > 0 {
        let before = pieces.drop_last();
        assert forall|i: int| 0 <= i < before.len() implies #[trigger] before[i] is Key by {
            assert(pieces[i] is Key);
        }
        lemma_keys_leave_the_view(view, before);
        assert(pieces[pieces.len() - 1] is Key);
    }
}

/// What keys send in a series of inputs, the first of which goes on with a report that
/// was kept back.
pub open spec fn all_keys(held: Seq<u8>, inputs: Seq<Seq<u8>>) -> Seq<u8>
    decreases inputs.len(),
{
    if inputs.len() == 0 {
        seq![]
    } else {
        input::keys_of(input::tokens(held + inputs[0], 0)) + all_keys(
            input::kept_back(held + inputs[0], 0),
            inputs.drop_first(),
        )
    }
}

/// What is sent of a series of inputs: of each of them what `LiveView::step` sends, up
/// to the one at which the client leaves.
pub open spec fn all_sent(view: LiveContents, inputs: Seq<Seq<u8>>) -> Seq<u8>
    decreases inputs.len(),
{
    if inputs.len() == 0 {
        seq![]
    } else {
        let sent = client::before_detach(input::keys_of(pieces_of(view, inputs[0])));
        if state_after(view, inputs[0]) is Left {
            sent
        } else {
            sent + all_sent(after_input(view, inputs[0]), inputs.drop_first())
        }
    }
}

/// What keys send reaches the session byte for byte and in order, up to the key to
/// leave, whatever the mouse does between.
pub proof fn law_keys_reach_the_session(view: LiveContents, inputs: Seq<Seq<u8>>)
    requires
        forall|i: int| 0 <= i < inputs.len() ==> (#[trigger] inputs[i]).len() > 0,
    ensures
        all_sent(view, inputs) == client::before_detach(all_keys(view.held, inputs)),
    decreases inputs.len(),
{
    if inputs.len() == 0 {
        client::lemma_before_detach_is_start(Seq::<u8>::empty());
    } else {
        let first = inputs[0];
        let rest = inputs.drop_first();
        let keys = input::keys_of(pieces_of(view, first));
        let after = after_input(view, first);
        assert forall|i: int| 0 <= i < rest.len() implies (#[trigger] rest[i]).len() > 0 by {
            assert(rest[i] == inputs[i + 1]);
        }
        assert(inputs[0].len() > 0);
        law_keys_reach_the_session(after, rest);
        client::lemma_before_detach_concat(keys, all_keys(after.held, rest));
        client::lemma_before_detach_is_start(keys);
    }
}

/// Ctrl+A, among whatever else keys sent, leaves the session; nothing else that keys
/// send leaves it, and nothing that the mouse does.
pub proof fn law_only_the_key_leaves_the_view(view: LiveContents, input: Seq<u8>)
    requires
        input.len() > 0,
    ensures
        state_after(view, input) == (ClientState::Left { detached: true }) <==> input::keys_of(
            pieces_of(view, input),
        ).contains(1u8),
        state_after(view, input) == ClientState::Polling <==> !input::keys_of(
            pieces_of(view, input),
        ).contains(1u8),
{
    let keys = input::keys_of(pieces_of(view, input));
    client::lemma_detach_key(keys);
}

/// Every line that a session printed, and that is still kept, can be brought onto the
/// screen with the wheel while the session runs.
pub proof fn law_wheel_reaches_what_was_printed(view: LiveContents, report: Report, line: int)
    requires
        view.browsing is None,
        report.button == browse::WHEEL_UP,
        0 <= line < browse::fresh(view.printed, view.rows).lines.len(),
    ensures
        exists|n: nat|
            browse::visible(
                #[trigger] shown_after(view, browse::repeated(report, n)),
            ).contains(browse::fresh(view.printed, view.rows).lines[line]),
{
    let look = browse::fresh(view.printed, view.rows);
    browse::lemma_lines(browse::text_of(view.printed));
    browse::law_wheel_reaches_every_line(look, report, line);
    let n = choose|n: nat| #[trigger]
        browse::visible(browse::after_pieces(look, browse::repeated(report, n))).contains(
            look.lines[line],
        );
    lemma_wheel_looks_back(view, report, n);
    assert(browse::visible(shown_after(view, browse::repeated(report, n))).contains(
        look.lines[line],
    ));
}

/// The look after some pieces of the input; the end of the output where there is
/// none.
pub open spec fn shown_after(view: LiveContents, pieces: Seq<Token>) -> BrowseView {
    match after_pieces(view, pieces).browsing {
        Some(look) => look,
        None => browse::fresh(view.printed, view.rows),
    }
}

/// Turns of the wheel move the look back as they move any look at the output.
proof fn lemma_wheel_looks_back(view: LiveContents, report: Report, n: nat)
    requires
        view.browsing is None,
        report.button == browse::WHEEL_UP,
    ensures
        shown_after(view, browse::repeated(report, n)) == browse::after_pieces(
            browse::fresh(view.printed, view.rows),
            browse::repeated(report, n),
        ),
        after_pieces(view, browse::repeated(report, n)).printed == view.printed,
        after_pieces(view, browse::repeated(report, n)).rows == view.rows,
        browse::after_pieces(
            browse::fresh(view.printed, view.rows),
            browse::repeated(report, n),
        ) == (BrowseView {
            back: browse::after_pieces(
                browse::fresh(view.printed, view.rows),
                browse::repeated(report, n),
            ).back,
            ..browse::fresh(view.printed, view.rows)
        }),
    decreases n,
{
    if n > 0 {
        let before = (n - 1) as nat;
        lemma_wheel_looks_back(view, report, before);
        assert(browse::repeated(report, n).drop_last() =~= browse::repeated(report, before));
    }
}

/// When the button is released, the marked text goes to the clipboard, once, and stays
/// marked on the screen; nothing is sent.
pub proof fn law_release_copies_the_text(view: LiveContents, report: Report)
    requires
        view.held.len() == 0,
        view.browsing is Some,
        view.browsing->0.mark is Some,
        view.browsing->0.mark->0.from != view.browsing->0.mark->0.to,
        report.button == 0,
        !report.pressed,
        report.col <= 99999,
        report.row <= 99999,
    ensures
        ({
            let input = input::report_bytes(report);
            let look = BrowseView { chosen: true, ..view.browsing->0 };
            &&& screen_after(view, input) == clipboard::copy_command(browse::marked_text(look))
                + picture(look)
            &&& after_input(view, input).browsing == Some(
                BrowseView { chosen: false, ..view.browsing->0 },
            )
            &&& input::keys_of(pieces_of(view, input)) == Seq::<u8>::empty()
        }),
{
    let input = input::report_bytes(report);
    input::law_report_reads_back(report);
    assert(view.held + input =~= input);
    let pieces = pieces_of(view, input);
    assert(pieces == seq![Token::Mouse(report)]);
    assert(pieces.drop_last() =~= seq![]);
    reveal_with_fuel(after_pieces, 2);
    assert(after_pieces(view, pieces) == after_piece(view, pieces.last()));
    input::law_reports_are_not_keys(pieces);
}

/// A look back is drawn on an empty screen, with long lines cut off.
pub proof fn law_look_is_drawn_on_an_empty_screen(look: BrowseView)
    ensures
        picture(look) == "\x1b[?7l".spec_bytes() + "\x1b[2J\x1b[H".spec_bytes()
            + browse::joined_lines(browse::shown(look), seq![13u8, 10u8])
            + "\x1b[?7h".spec_bytes(),
{
}

/// What the session prints is kept, and printed as it comes where there is no look back;
/// where there is one, that is not disturbed.
pub proof fn law_output_is_kept(view: LiveContents, output: Seq<u8>)
    ensures
        after_output(view, output).printed == session_io::recorded(view.printed, output),
        after_output(view, output).browsing == view.browsing,
        after_output(view, output).held == view.held,
        after_output(view, output).rows == view.rows,
{
}

} // verus!
