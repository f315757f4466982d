use stay::session_io::{
    last_clear_scrollback, HistoryWrite, PtyRead, PtyStep, SessionIo, SCROLLBACK_LIMIT,
};

fn silent() -> SessionIo<u32> {
    SessionIo::new()
}

#[test]
fn record_accumulates_output_for_replay() {
    let mut io = silent();
    io.record(b"log line 1\n");
    io.record(b"log line 2\n");
    assert_eq!(io.buffer, b"log line 1\nlog line 2\n");
}

#[test]
fn record_drops_history_before_clear_scrollback() {
    let mut io = silent();
    io.record(b"old output\n");
    io.record(b"\x1b[3Jfresh output\n");
    assert_eq!(io.buffer, b"\x1b[3Jfresh output\n");
}

#[test]
fn record_keeps_last_clear_within_a_chunk() {
    let mut io = silent();
    io.record(b"a\x1b[3Jb\x1b[3Jc");
    assert_eq!(io.buffer, b"\x1b[3Jc");
}

#[test]
fn record_trims_to_limit_on_a_line_boundary() {
    let mut io = silent();
    let mut blob = Vec::new();
    while blob.len() <= SCROLLBACK_LIMIT {
        blob.extend_from_slice(b"a line of text\n");
    }
    io.record(&blob);
    assert!(io.buffer.len() <= SCROLLBACK_LIMIT);
    // Trimming keeps the most recent output and cuts on a line boundary,
    // so the buffer still begins and ends with a whole line.
    assert!(io.buffer.starts_with(b"a line of text\n"));
    assert!(io.buffer.ends_with(b"a line of text\n"));
}

#[test]
fn last_clear_scrollback_finds_sequences() {
    assert_eq!(last_clear_scrollback(b"no sequence here"), None);
    assert_eq!(last_clear_scrollback(b"\x1b[3J"), Some(0));
    assert_eq!(last_clear_scrollback(b"ab\x1b[3Jcd"), Some(2));
    assert_eq!(last_clear_scrollback(b"\x1b[3Jx\x1b[3J"), Some(5));
}

#[test]
fn last_clear_scrollback_needs_the_whole_sequence() {
    assert_eq!(last_clear_scrollback(b""), None);
    assert_eq!(last_clear_scrollback(b"\x1b[3"), None);
    assert_eq!(last_clear_scrollback(b"\x1b[2J"), None);
    assert_eq!(last_clear_scrollback(b"\x1b\x1b[3J"), Some(1));
}

#[test]
fn split_clear_sequence_is_kept_as_output() {
    let mut io = silent();
    io.record(b"old\x1b[");
    io.record(b"3Jnew");
    assert_eq!(io.buffer, b"old\x1b[3Jnew");
}

#[test]
fn output_without_lines_is_cut_at_the_limit() {
    let mut io = silent();
    io.record(&vec![b'x'; SCROLLBACK_LIMIT + 3]);
    assert_eq!(io.buffer.len(), SCROLLBACK_LIMIT);
}

#[test]
fn output_that_fits_exactly_is_not_cut() {
    let mut io = silent();
    let mut blob = vec![b'x'; SCROLLBACK_LIMIT - 1];
    blob.push(b'\n');
    io.record(&blob);
    assert_eq!(io.buffer.len(), SCROLLBACK_LIMIT);
    io.record(b"y");
    assert_eq!(io.buffer, b"y");
}

#[test]
fn attached_client_misses_nothing() {
    let mut io = silent();
    io.record(b"one ");
    io.record(b"two ");
    let mut seen = io.buffer.clone();
    io.subscribe(7);
    io.on_saved(true);
    for chunk in [&b"three "[..], &b"four"[..]] {
        assert_eq!(
            io.on_pty_read(PtyRead::Bytes(chunk)),
            PtyStep::Forward(HistoryWrite::Append)
        );
        io.on_saved(true);
        assert_eq!(io.subscriber, Some(7));
        seen.extend_from_slice(chunk);
    }
    assert_eq!(seen, b"one two three four");
    assert_eq!(io.buffer, seen);
}

#[test]
fn reader_stops_at_the_end_and_retries_interruptions() {
    let mut io = silent();
    io.record(b"kept");
    assert_eq!(io.on_pty_read(PtyRead::Interrupted), PtyStep::Retry);
    assert_eq!(io.on_pty_read(PtyRead::Bytes(b"")), PtyStep::Close);
    assert_eq!(io.on_pty_read(PtyRead::Failed), PtyStep::Close);
    assert_eq!(io.buffer, b"kept");
}

#[test]
fn subscriber_that_cannot_be_reached_is_dropped() {
    let mut io = silent();
    io.subscribe(1);
    io.on_forwarded(true);
    assert_eq!(io.subscriber, Some(1));
    io.on_forwarded(false);
    assert_eq!(io.subscriber, None);
    io.subscribe(2);
    assert_eq!(io.unsubscribe(), Some(2));
    assert_eq!(io.unsubscribe(), None);
}

#[test]
fn history_file_follows_the_buffer() {
    let mut io = silent();
    let mut file: Vec<u8> = Vec::new();
    let long = vec![b'l'; SCROLLBACK_LIMIT - 10];
    for chunk in [
        &b"start\n"[..],
        &b"\x1b[3Jcleared\n"[..],
        &long[..],
        &b"more\nand more\n"[..],
    ] {
        match io.on_pty_read(PtyRead::Bytes(chunk)) {
            PtyStep::Forward(HistoryWrite::Append) => file.extend_from_slice(chunk),
            PtyStep::Forward(HistoryWrite::Rewrite) => file = io.buffer.clone(),
            other => panic!("{:?}", other),
        }
        io.on_saved(true);
        assert_eq!(file, io.buffer);
    }
    let restored: SessionIo<u32> = SessionIo::restored(file);
    assert_eq!(restored.buffer, io.buffer);
    assert_eq!(restored.subscriber, None);
}

#[test]
fn history_file_is_written_anew_after_a_failure() {
    let mut io = silent();
    assert!(!io.saved);
    assert_eq!(
        io.on_pty_read(PtyRead::Bytes(b"one ")),
        PtyStep::Forward(HistoryWrite::Rewrite)
    );
    io.on_saved(true);
    assert_eq!(
        io.on_pty_read(PtyRead::Bytes(b"two ")),
        PtyStep::Forward(HistoryWrite::Append)
    );
    io.on_saved(false);
    assert_eq!(
        io.on_pty_read(PtyRead::Bytes(b"three")),
        PtyStep::Forward(HistoryWrite::Rewrite)
    );
    assert_eq!(io.buffer, b"one two three");
    let restored: SessionIo<u32> = SessionIo::restored(io.buffer.clone());
    assert!(restored.saved);
}
