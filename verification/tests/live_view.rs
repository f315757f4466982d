use stay::browse::{plain_text, Browser};
use stay::client::{ClientEvent, ClientState};
use stay::clipboard::{copy_text, to_base64};
use stay::input::{split_input, typed_keys, Report, Token};
use stay::live::{draw, LiveMove, LiveView};
use stay::wire::{LineReader, Readiness};

const WHEEL_UP: &[u8] = b"\x1b[<64;3;2M";
const WHEEL_DOWN: &[u8] = b"\x1b[<65;3;2M";

const READY: Readiness = Readiness {
    readable: true,
    hangup: false,
    error: false,
};

fn printed(view: &mut LiveView, bytes: &[u8]) -> LiveMove {
    let next = view.step(
        ClientState::ReadingOutput { stdin: READY },
        ClientEvent::Output(bytes),
    );
    assert_eq!(next.state, ClientState::ReadingInput);
    assert!(next.send.is_empty());
    next
}

fn typed(view: &mut LiveView, bytes: &[u8]) -> LiveMove {
    view.step(ClientState::ReadingInput, ClientEvent::Input(bytes))
}

fn picture(page: &str) -> Vec<u8> {
    format!("\x1b[?7l\x1b[2J\x1b[H{page}\x1b[?7h").into_bytes()
}

#[test]
fn designations_and_strings_are_not_text() {
    assert_eq!(plain_text(b"\x1b(Ba\x1b)0b\x1b%Gc"), b"abc");
    assert_eq!(plain_text(b"\x1b\x1b[1mx"), b"x");
    assert_eq!(plain_text(b"\x1bP1$r0m\x07more\x1b\\y"), b"y");
    assert_eq!(plain_text(b"\x1b_app\x1b\\\x1b^pm\x1b\\\x1bXsos\x1b\\z"), b"z");
    assert_eq!(plain_text(b"\x1b(\x1b[1mu\x1b[3\x18v\x1b]0;t\x1aw"), b"uvw");
    assert_eq!(plain_text(b"\x1b([x"), b"x");
}

#[test]
fn reports_are_told_from_keys() {
    let (pieces, kept) = split_input(b"a\x1b[<64;10;200Mb\x1b[<0;1;2m\x1b[A");
    assert_eq!(
        pieces,
        vec![
            Token::Key(b'a'),
            Token::Mouse(Report {
                button: 64,
                col: 10,
                row: 200,
                pressed: true
            }),
            Token::Key(b'b'),
            Token::Mouse(Report {
                button: 0,
                col: 1,
                row: 2,
                pressed: false
            }),
            Token::Key(0x1b),
            Token::Key(b'['),
            Token::Key(b'A'),
        ]
    );
    assert!(kept.is_empty());
    assert_eq!(typed_keys(&pieces), b"ab\x1b[A");
}

#[test]
fn unfinished_report_is_kept() {
    let (pieces, kept) = split_input(b"x\x1b[<64;1");
    assert_eq!(pieces, vec![Token::Key(b'x')]);
    assert_eq!(kept, b"\x1b[<64;1");
    for input in [
        &b"\x1b"[..],
        &b"\x1b["[..],
        &b"\x1b[<64;1;"[..8],
        &b"\x1b[<6x"[..],
        &b"\x1b[<;;M"[..],
        &b"\x1b[<123456;1;1M"[..],
    ] {
        let (pieces, kept) = split_input(input);
        let mut all = typed_keys(&pieces);
        all.extend_from_slice(&kept);
        assert_eq!(all, input);
    }
    assert!(split_input(b"\x1b").1.is_empty());
    assert!(split_input(b"\x1b[<6x").1.is_empty());
}

#[test]
fn wheel_moves_the_look_back_and_sends_nothing() {
    let mut view = LiveView::new(2);
    assert_eq!(printed(&mut view, b"1\r\n2\r\n").screen, b"1\r\n2\r\n");
    printed(&mut view, b"3\r\n4");
    let next = typed(&mut view, WHEEL_UP);
    assert_eq!(next.state, ClientState::Polling);
    assert!(next.send.is_empty());
    assert_eq!(next.screen, picture("2\r\n3"));
    let next = typed(&mut view, &[WHEEL_UP, WHEEL_UP].concat());
    assert_eq!(next.screen, picture("1\r\n2"));
    assert!(next.send.is_empty());
    assert!(printed(&mut view, b"\r\n5").screen.is_empty());
    let next = typed(&mut view, WHEEL_DOWN);
    assert_eq!(next.screen, picture("2\r\n3"));
    let next = typed(&mut view, WHEEL_DOWN);
    assert_eq!(next.screen, b"\x1b[2J\x1b[H1\r\n2\r\n3\r\n4\r\n5");
    assert!(next.send.is_empty());
    assert_eq!(printed(&mut view, b"6").screen, b"6");
    assert!(typed(&mut view, WHEEL_DOWN).screen.is_empty());
}

#[test]
fn key_ends_the_look_back_and_is_sent() {
    let mut view = LiveView::new(1);
    printed(&mut view, b"1\n2\n3");
    typed(&mut view, WHEEL_UP);
    let next = typed(&mut view, b"ls\r");
    assert_eq!(next.state, ClientState::Polling);
    assert_eq!(next.send, b"ls\r");
    assert_eq!(next.screen, b"\x1b[2J\x1b[H1\n2\n3");
    let next = typed(&mut view, b"pwd\r");
    assert_eq!(next.send, b"pwd\r");
    assert!(next.screen.is_empty());
}

#[test]
fn view_leaves_by_the_key_and_at_the_end() {
    let mut view = LiveView::new(1);
    let next = typed(&mut view, b"ab\x01c");
    assert_eq!(next.state, ClientState::Left { detached: true });
    assert_eq!(next.send, b"ab");
    let next = typed(&mut view, b"");
    assert_eq!(next.state, ClientState::Left { detached: false });
    let next = view.step(
        ClientState::Polling,
        ClientEvent::Ready {
            stdin: READY,
            stream: READY,
        },
    );
    assert_eq!(next.state, ClientState::ReadingOutput { stdin: READY });
    assert!(next.screen.is_empty() && next.send.is_empty());
}

#[test]
fn report_in_two_reads_is_one_report() {
    let mut view = LiveView::new(1);
    printed(&mut view, b"1\n2");
    let next = typed(&mut view, b"\x1b[<64;1");
    assert_eq!(next.state, ClientState::Polling);
    assert!(next.send.is_empty() && next.screen.is_empty());
    let next = typed(&mut view, b";1Mx");
    assert_eq!(next.send, b"x");
    assert_eq!(next.screen, b"\x1b[2J\x1b[H1\n2");
}

#[test]
fn short_output_is_not_left() {
    let mut view = LiveView::new(5);
    printed(&mut view, b"1\n2");
    let next = typed(&mut view, WHEEL_UP);
    assert!(next.screen.is_empty() && next.send.is_empty());
}

#[test]
fn dragging_marks_and_copies_text() {
    let mut view = LiveView::new(3);
    printed(&mut view, b"first line\nsecond line\nthird line");
    let next = typed(&mut view, b"\x1b[<0;7;1M");
    assert_eq!(
        next.screen,
        picture("first \x1b[7ml\x1b[27mine\r\nsecond line\r\nthird line")
    );
    let next = typed(&mut view, b"\x1b[<32;6;2M");
    assert_eq!(
        next.screen,
        picture("first \x1b[7mline\x1b[27m\r\n\x1b[7msecond\x1b[27m line\r\nthird line")
    );
    let next = typed(&mut view, b"\x1b[<0;6;2m");
    let mut expected = b"\x1b]52;c;bGluZQpzZWNvbmQ=\x07".to_vec();
    expected.extend_from_slice(&picture(
        "first \x1b[7mline\x1b[27m\r\n\x1b[7msecond\x1b[27m line\r\nthird line",
    ));
    assert_eq!(next.screen, expected);
    assert!(next.send.is_empty());
    assert_eq!(
        typed(&mut view, b"q").screen,
        b"\x1b[2J\x1b[Hfirst line\nsecond line\nthird line"
    );
}

#[test]
fn click_marks_nothing() {
    let mut view = LiveView::new(2);
    printed(&mut view, b"one\ntwo");
    typed(&mut view, b"\x1b[<0;1;1M");
    let next = typed(&mut view, b"\x1b[<0;1;1m");
    assert_eq!(next.screen, b"\x1b[2J\x1b[Hone\ntwo");
    assert!(typed(&mut view, b"\x1b[<2;1;1M").screen.is_empty());
    assert!(typed(&mut view, b"\x1b[<0;1;1m").screen.is_empty());
}

#[test]
fn dragging_at_an_edge_goes_on_through_the_output() {
    let mut browser = Browser::new(b"1\n2\n3\n4\n5", 2);
    assert!(browser.on_input(b"\x1b[<0;1;2M\x1b[<32;1;1M\x1b[<32;1;1M\x1b[<32;1;1M"));
    assert_eq!(
        browser.page(),
        b"\x1b[7m1\x1b[27m\r\n\x1b[7m2\x1b[27m"
    );
    assert_eq!(browser.selection(), b"1\n2\n3\n4\n5");
    assert!(browser.take_chosen().is_none());
    assert!(browser.on_input(b"\x1b[<32;1;2M\x1b[<0;1;2m"));
    assert_eq!(browser.page(), b"2\r\n\x1b[7m3\x1b[27m");
    assert_eq!(browser.take_chosen(), Some(b"3\n4\n5".to_vec()));
    assert!(browser.take_chosen().is_none());
    assert_eq!(draw(&browser), picture("2\r\n\x1b[7m3\x1b[27m"));
}

#[test]
fn marking_counts_characters() {
    let mut browser = Browser::new("\u{e9}t\u{e9}s\nx".as_bytes(), 2);
    assert!(browser.on_input(b"\x1b[<0;2;1M\x1b[<32;3;1M"));
    assert_eq!(browser.selection(), "t\u{e9}".as_bytes());
    assert!(browser.on_input(b"\x1b[<32;99;1M"));
    assert_eq!(browser.selection(), "t\u{e9}s".as_bytes());
    assert!(browser.on_input(b"\x1b[<0;50;2M\x1b[<32;60;2M"));
    assert_eq!(browser.selection(), b"");
    assert!(browser.on_input(b"\x1b[<0;0;0M\x1b[<32;1;9M"));
    assert_eq!(browser.selection(), "\u{e9}t\u{e9}s\nx".as_bytes());
}

#[test]
fn wheel_pages_saved_output() {
    let mut browser = Browser::new(b"1\n2\n3", 1);
    assert!(browser.on_input(WHEEL_UP));
    assert_eq!(browser.page(), b"2");
    assert!(browser.on_input(b"\x1b[<64;1;1"));
    assert_eq!(browser.page(), b"2");
    assert!(browser.on_input(b"M"));
    assert_eq!(browser.page(), b"1");
    assert!(browser.on_input(WHEEL_DOWN));
    assert_eq!(browser.page(), b"2");
}

#[test]
fn text_is_copied_in_base_64() {
    assert_eq!(to_base64(b""), b"");
    assert_eq!(to_base64(b"f"), b"Zg==");
    assert_eq!(to_base64(b"fo"), b"Zm8=");
    assert_eq!(to_base64(b"foo"), b"Zm9v");
    assert_eq!(to_base64(b"foobar"), b"Zm9vYmFy");
    assert_eq!(to_base64(&[0xfb, 0xef, 0xff]), b"++//");
    assert_eq!(copy_text(b"fo"), b"\x1b]52;c;Zm8=\x07");
}

#[test]
fn reader_takes_a_stream_up_to_the_line_end() {
    let mut reader = LineReader::new();
    assert!(reader.take_all(b"{\"a\""));
    assert!(reader.take_all(b""));
    assert!(!reader.take_all(b":1}\nrest"));
    assert_eq!(reader.finish().ok().unwrap(), "{\"a\":1}\n");
}
