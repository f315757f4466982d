use stay::paths::{
    _paths_are_private, history_path, is_record_file, join_path, paths_for, session_path, Paths,
};
use stay::screen::{
    draw_pixel_frame, enter_world, frame_box, leave_world, terminal_size, transition_frames,
    transition_label, LAST_FRAME,
};
use stay::wire::{frame, pump_read, pump_ready, unwritten, LineReader, PumpStep, Readiness};

fn home_paths() -> Paths {
    match paths_for(Some(b"/home/u".to_vec()), None) {
        Ok(paths) => paths,
        Err(error) => panic!("{}", error.message()),
    }
}

#[test]
fn state_lies_below_home() {
    let paths = home_paths();
    assert_eq!(paths.state_dir, b"/home/u/.local/state/stay");
    assert_eq!(paths.sessions_dir, b"/home/u/.local/state/stay/sessions");
    assert_eq!(paths.history_dir, b"/home/u/.local/state/stay/history");
    assert_eq!(paths.sockets_dir, b"/home/u/.local/state/stay/sockets");
    assert_eq!(
        paths.daemon_socket,
        b"/home/u/.local/state/stay/sockets/daemon.sock"
    );
    assert!(_paths_are_private(&paths));
}

#[test]
fn state_home_is_preferred() {
    let paths = match paths_for(Some(b"/home/u".to_vec()), Some(b"state/".to_vec())) {
        Ok(paths) => paths,
        Err(error) => panic!("{}", error.message()),
    };
    assert_eq!(paths.state_dir, b"state/stay");
    assert!(!_paths_are_private(&paths));
}

#[test]
fn home_has_to_be_set() {
    for state_home in [None, Some(b"/state".to_vec())] {
        match paths_for(None, state_home) {
            Err(error) => assert_eq!(error.message(), "HOME is not set."),
            Ok(_) => panic!("no complaint"),
        }
    }
}

#[test]
fn paths_are_joined() {
    assert_eq!(join_path(b"/a", b"b"), b"/a/b");
    assert_eq!(join_path(b"/a/", b"b"), b"/a/b");
    assert_eq!(join_path(b"", b"b"), b"b");
    assert_eq!(join_path(b"/a", b"/b"), b"/b");
    assert_eq!(join_path(b"/a", b""), b"/a/");
}

#[test]
fn session_files_are_named_after_the_session() {
    let paths = home_paths();
    assert_eq!(
        session_path(&paths, "api"),
        b"/home/u/.local/state/stay/sessions/api.json"
    );
    assert_eq!(
        history_path(&paths, "api"),
        b"/home/u/.local/state/stay/history/api.log"
    );
    assert_ne!(session_path(&paths, "a"), session_path(&paths, "b"));
}

#[test]
fn record_files_end_in_json() {
    assert!(is_record_file(b"api.json"));
    assert!(is_record_file(b"..json"));
    assert!(!is_record_file(b".json"));
    assert!(!is_record_file(b"json"));
    assert!(!is_record_file(b"api.json~"));
    assert!(!is_record_file(b"api_json"));
}

#[test]
fn message_is_read_back_and_the_rest_stays() {
    let mut stream = frame(b"{\"type\":\"list\"}".to_vec());
    stream.extend_from_slice(b"behind it");
    let mut reader = LineReader::new();
    let mut taken = 0;
    while reader.take(Some(stream[taken])) {
        taken += 1;
    }
    assert_eq!(&stream[taken + 1..], b"behind it");
    match reader.finish() {
        Ok(line) => assert_eq!(line, "{\"type\":\"list\"}\n"),
        Err(error) => panic!("{}", error.message()),
    }
}

#[test]
fn line_may_end_with_the_stream() {
    let mut reader = LineReader::new();
    assert!(reader.take(Some(b'a')));
    assert!(!reader.take(None));
    match reader.finish() {
        Ok(line) => assert_eq!(line, "a"),
        Err(error) => panic!("{}", error.message()),
    }
}

#[test]
fn line_has_to_be_text() {
    let mut reader = LineReader::new();
    reader.take(Some(b'a'));
    reader.take(Some(0xff));
    reader.take(Some(b'\n'));
    match reader.finish() {
        Err(error) => assert_eq!(
            error.message(),
            "invalid utf-8 sequence of 1 bytes from index 1"
        ),
        Ok(line) => panic!("{}", line),
    }
}

#[test]
fn short_writes_go_on_where_they_stopped() {
    let bytes = b"abcdef";
    let rest = match unwritten(bytes, 2) {
        Ok(rest) => rest,
        Err(error) => panic!("{}", error.message()),
    };
    assert_eq!(rest, b"cdef");
    match unwritten(rest, 4) {
        Ok(rest) => assert!(rest.is_empty()),
        Err(error) => panic!("{}", error.message()),
    }
    match unwritten(bytes, 0) {
        Err(error) => assert_eq!(error.message(), "write returned 0 bytes"),
        Ok(_) => panic!("no complaint"),
    }
}

#[test]
fn attached_client_is_pumped_until_it_is_gone() {
    let ready = |readable, hangup, error| Readiness {
        readable,
        hangup,
        error,
    };
    assert_eq!(pump_ready(ready(true, false, false)), PumpStep::Read);
    assert_eq!(pump_ready(ready(false, false, false)), PumpStep::Poll);
    assert_eq!(pump_ready(ready(true, true, false)), PumpStep::Stop);
    assert_eq!(pump_ready(ready(true, false, true)), PumpStep::Stop);
    assert_eq!(pump_read(0), PumpStep::Stop);
    assert_eq!(pump_read(3), PumpStep::Forward);
}

#[test]
fn frame_grows_in_the_middle() {
    let first = frame_box(24, 80, "inside: api", 0, LAST_FRAME);
    assert_eq!((first.width, first.height), (1, 1));
    assert_eq!((first.row, first.col), (11, 39));
    let half = frame_box(24, 80, "inside: api", 4, LAST_FRAME);
    assert_eq!((half.width, half.height), (36, 6));
    let last = frame_box(24, 80, "inside: api", 8, LAST_FRAME);
    assert_eq!((last.width, last.height), (72, 11));
    assert_eq!((last.row, last.col), (6, 4));
    assert_eq!((last.label_row, last.label_col), (4, 34));
    let tiny = frame_box(1, 1, "inside: api", 8, LAST_FRAME);
    assert_eq!((tiny.width, tiny.height, tiny.row, tiny.col), (1, 1, 1, 1));
    let wide = frame_box(24, 200, &"x".repeat(100), 8, LAST_FRAME);
    assert_eq!(wide.width, 100);
    let at_once = frame_box(24, 80, "", 1, 0);
    assert_eq!(at_once.width, 72);
}

#[test]
fn every_frame_can_be_drawn_on_any_screen() {
    for (rows, cols) in [(0, 0), (1, 1), (24, 80), (u16::MAX, u16::MAX)] {
        for frame in transition_frames(true) {
            let label = "x".repeat(70_000);
            let b = frame_box(rows, cols, &label, frame, LAST_FRAME);
            assert!(b.width >= 1 && b.width <= u16::MAX as usize);
            assert!(b.height >= 1 && b.height <= 11);
        }
    }
}

#[test]
fn frame_is_drawn() {
    assert_eq!(
        draw_pixel_frame("out", 8, 8, 9, 8),
        "\x1b[?25l\x1b[2J\x1b[H\x1b[1;2H\x1b[2mout\x1b[0m\x1b[3;2H\x1b[36m\x1b[1m####\x1b[0m\x1b[4;2H\x1b[36m\x1b[1m#  #\x1b[0m\x1b[5;2H\x1b[36m\x1b[1m####\x1b[0m"
    );
    assert_eq!(
        draw_pixel_frame("", 0, 8, 24, 80),
        "\x1b[?25l\x1b[2J\x1b[H\x1b[9;40H\x1b[2m\x1b[0m\x1b[11;39H\x1b[36m\x1b[1m#\x1b[0m"
    );
}

#[test]
fn way_out_is_the_way_in_backwards() {
    let mut frames = transition_frames(true);
    assert_eq!(frames, vec![0, 1, 2, 3, 4, 5, 6, 7, 8]);
    frames.reverse();
    assert_eq!(frames, transition_frames(false));
    assert_eq!(transition_label("api", true), "inside: api");
    assert_eq!(transition_label("api", false), "outside");
}

#[test]
fn session_is_announced() {
    assert_eq!(
        enter_world("api", "hello\n"),
        "\x1b[2J\x1b[H\x1b[2mstay:api  |  inside  |  Ctrl+A to return\x1b[0m\nhello\n"
    );
    assert_eq!(
        enter_world("api", ""),
        "\x1b[2J\x1b[H\x1b[2mstay:api  |  inside  |  Ctrl+A to return\x1b[0m\n\n"
    );
    assert_eq!(leave_world(), "\x1b[?1049l\x1b[?25h");
}

#[test]
fn terminal_size_has_a_default() {
    assert_eq!(terminal_size(Some((40, 120))), (40, 120));
    assert_eq!(terminal_size(Some((0, 120))), (24, 80));
    assert_eq!(terminal_size(Some((40, 0))), (24, 80));
    assert_eq!(terminal_size(None), (24, 80));
}
