//! The output of one session: what is kept of it for replay, and who is
//! watching it live.
use vstd::prelude::*;

verus! {

/// Maximum bytes of per-session output kept for replay on re-attach.
pub const SCROLLBACK_LIMIT: usize = 2 * 1024 * 1024;

/// Live output plumbing for one session.
///
/// The output of the terminal goes into `buffer` even while no client is
/// attached, so nothing produced in the background is lost. On attach the whole
/// buffer is replayed, then `subscriber` receives live output. `saved` says that the
/// history file is known to hold what the buffer holds.
pub struct SessionIo<S> {
    pub buffer: Vec<u8>,
    pub subscriber: Option<S>,
    pub saved: bool,
}

/// How the history file follows a change of the replay buffer.
#[derive(Clone, Copy, Debug, PartialEq, Eq, Structural)]
pub enum HistoryWrite {
    /// The chunk goes behind what the file holds.
    Append,
    /// The file is written anew from the buffer.
    Rewrite,
}

/// What came of reading from the terminal of a session.
pub enum PtyRead<'a> {
    Bytes(&'a [u8]),
    Interrupted,
    Failed,
}

/// What the reader of a session's terminal does next.
#[derive(Clone, Copy, Debug, PartialEq, Eq, Structural)]
pub enum PtyStep {
    /// Bring the history file up to date, hand the chunk to the subscriber, read on.
    Forward(HistoryWrite),
    /// Read again.
    Retry,
    /// Let go of the subscriber and stop.
    Close,
}

/// The control sequence by which a program clears the scrollback: `ESC [ 3 J`.
pub open spec fn clear_sequence() -> Seq<u8> {
    seq![0x1bu8, 0x5bu8, 0x33u8, 0x4au8]
}

/// A clear sequence starts at index `i` of `chunk`.
pub open spec fn clears_at(chunk: Seq<u8>, i: int) -> bool {
    &&& 0 <= i
    &&& i + 4 <= chunk.len()
    &&& chunk.subrange(i, i + 4) == clear_sequence()
}

/// The greatest index below `end` at which a clear sequence starts.
pub open spec fn last_clear(chunk: Seq<u8>, end: int) -> Option<int>
    decreases end,
{
    if end <= 0 {
        None
    } else if clears_at(chunk, end - 1) {
        Some(end - 1)
    } else {
        last_clear(chunk, end - 1)
    }
}

/// `chunk` holds a clear sequence.
pub open spec fn clears(chunk: Seq<u8>) -> bool {
    exists|i: int| clears_at(chunk, i)
}

/// The least index from `from` on at which a line ends.
pub open spec fn first_newline(bytes: Seq<u8>, from: int) -> Option<int>
    decreases bytes.len() - from,
{
    if from < 0 || from >= bytes.len() {
        None
    } else if bytes[from] == 10 {
        Some(from)
    } else {
        first_newline(bytes, from + 1)
    }
}

/// The output kept so far with a chunk behind it; a clear sequence in the chunk
/// drops everything before the last one.
pub open spec fn appended(buffer: Seq<u8>, chunk: Seq<u8>) -> Seq<u8> {
    match last_clear(chunk, chunk.len() as int) {
        Some(at) => chunk.skip(at),
        None => buffer + chunk,
    }
}

/// `bytes` cut down to the replay limit: what is over it goes, together with the
/// rest of the line in which the limit falls, if that line ends at all.
pub open spec fn trimmed(bytes: Seq<u8>) -> Seq<u8> {
    if bytes.len() <= SCROLLBACK_LIMIT {
        bytes
    } else {
        let overflow = bytes.len() - SCROLLBACK_LIMIT;
        match first_newline(bytes, overflow) {
            Some(at) => bytes.skip(at + 1),
            None => bytes.skip(overflow),
        }
    }
}

/// The replay buffer after one more chunk of output.
pub open spec fn recorded(buffer: Seq<u8>, chunk: Seq<u8>) -> Seq<u8> {
    trimmed(appended(buffer, chunk))
}

/// The replay buffer after a series of chunks, starting from `buffer`.
pub open spec fn replay_after(buffer: Seq<u8>, chunks: Seq<Seq<u8>>) -> Seq<u8>
    decreases chunks.len(),
{
    if chunks.len() == 0 {
        buffer
    } else {
        recorded(replay_after(buffer, chunks.drop_last()), chunks.last())
    }
}

/// Everything that a series of chunks holds.
pub open spec fn all_output(chunks: Seq<Seq<u8>>) -> Seq<u8>
    decreases chunks.len(),
{
    if chunks.len() == 0 {
        seq![]
    } else {
        all_output(chunks.drop_last()) + chunks.last()
    }
}

/// What a history file holds after a write that follows `chunk`.
pub open spec fn written(file: Seq<u8>, chunk: Seq<u8>, buffer: Seq<u8>, write: HistoryWrite) -> Seq<u8> {
    match write {
        HistoryWrite::Append => file + chunk,
        HistoryWrite::Rewrite => buffer,
    }
}

/// The write by which the history file follows `chunk`: a file that is not known to
/// hold the buffer is written anew.
pub open spec fn history_write(saved: bool, buffer: Seq<u8>, chunk: Seq<u8>) -> HistoryWrite {
    if saved && last_clear(chunk, chunk.len() as int) is None && buffer.len() + chunk.len()
        <= SCROLLBACK_LIMIT {
        HistoryWrite::Append
    } else {
        HistoryWrite::Rewrite
    }
}

/// Index of the ESC starting the last `ESC [ 3 J` sequence in `chunk`, if any.
pub fn last_clear_scrollback(chunk: &[u8]) -> (found: Option<usize>)
    ensures
        match found {
            Some(at) => {
                &&& clears_at(chunk@, at as int)
                &&& forall|i: int| at < i ==> !clears_at(chunk@, i)
            },
            None => !clears(chunk@),
        },
        match found {
            Some(at) => last_clear(chunk@, chunk@.len() as int) == Some(at as int),
            None => last_clear(chunk@, chunk@.len() as int) is None,
        },
{
    let mut end: usize = chunk.len();
    while end > 0
        invariant
            end <= chunk@.len(),
            last_clear(chunk@, end as int) == last_clear(chunk@, chunk@.len() as int),
            forall|i: int| end <= i ==> !clears_at(chunk@, i),
        decreases end,
    {
        let at: usize = end - 1;
        if chunk.len() - at >= 4 && chunk[at] == 0x1b && chunk[at + 1] == 0x5b && chunk[at + 2]
            == 0x33 && chunk[at + 3] == 0x4a {
            assert(chunk@.subrange(at as int, at + 4) =~= clear_sequence());
            return Some(at);
        }
        proof {
            if clears_at(chunk@, at as int) {
                let here = chunk@.subrange(at as int, at + 4);
                assert(here[0] == chunk@[at as int] && here[1] == chunk@[at + 1] && here[2]
                    == chunk@[at + 2] && here[3] == chunk@[at + 3]);
            }
        }
        end = at;
    }
    None
}

/// The least index from `from` on at which a line of `bytes` ends.
fn find_newline(bytes: &Vec<u8>, from: usize) -> (found: Option<usize>)
    ensures
        match found {
            Some(at) => first_newline(bytes@, from as int) == Some(at as int) && at < bytes@.len(),
            None => first_newline(bytes@, from as int) is None,
        },
{
    let mut i: usize = from;
    while i < bytes.len()
        invariant
            first_newline(bytes@, i as int) == first_newline(bytes@, from as int),
        decreases bytes@.len() - i,
    {
        if bytes[i] == 10 {
            return Some(i);
        }
        i = i + 1;
    }
    None
}

impl<S> SessionIo<S> {
    /// Nothing printed yet, nobody watching, and nothing known of the history file.
    pub fn new() -> (io: Self)
        ensures
            io.buffer@ == Seq::<u8>::empty(),
            io.subscriber is None,
            !io.saved,
    {
        SessionIo { buffer: Vec::new(), subscriber: None, saved: false }
    }

    /// The output that an earlier run left in the history file, nobody watching.
    pub fn restored(history: Vec<u8>) -> (io: Self)
        ensures
            io.buffer@ == history@,
            io.subscriber is None,
            io.saved,
    {
        SessionIo { buffer: history, subscriber: None, saved: true }
    }

    /// Append a chunk of PTY output to the replay buffer.
    ///
    /// An explicit "clear scrollback" (ESC [ 3 J), which `clear` emits on
    /// terminals that support it, drops the earlier history so a cleared screen
    /// stays cleared on the next attach. The buffer is otherwise capped to the
    /// most recent `SCROLLBACK_LIMIT` bytes, trimmed at a line boundary.
    pub fn record(&mut self, chunk: &[u8])
        ensures
            final(self).buffer@ == recorded(old(self).buffer@, chunk@),
            final(self).subscriber == old(self).subscriber,
            !final(self).saved,
    {
        self.saved = false;
        match last_clear_scrollback(chunk) {
            Some(at) => {
                self.buffer.clear();
                self.buffer.extend_from_slice(&chunk[at..chunk.len()]);
                assert(self.buffer@ =~= chunk@.skip(at as int));
            },
            None => {
                self.buffer.extend_from_slice(chunk);
                assert(self.buffer@ =~= old(self).buffer@ + chunk@);
            },
        }
        if self.buffer.len() > SCROLLBACK_LIMIT {
            let overflow: usize = self.buffer.len() - SCROLLBACK_LIMIT;
            let cut: usize = match find_newline(&self.buffer, overflow) {
                Some(at) => at + 1,
                None => overflow,
            };
            let kept: Vec<u8> = self.buffer.split_off(cut);
            self.buffer = kept;
            assert(self.buffer@ =~= recorded(old(self).buffer@, chunk@));
        }
    }

    /// Takes in what a read from the terminal gave, and says what follows.
    ///
    /// Output is recorded whether or not anybody is watching. The end of the
    /// output (an empty read, or a failure) closes the session's output; an
    /// interrupted read is made again.
    pub fn on_pty_read(&mut self, read: PtyRead) -> (step: PtyStep)
        ensures
            final(self).subscriber == old(self).subscriber,
            match read {
                PtyRead::Bytes(chunk) if chunk@.len() > 0 => {
                    &&& step == PtyStep::Forward(
                        history_write(old(self).saved, old(self).buffer@, chunk@),
                    )
                    &&& final(self).buffer@ == recorded(old(self).buffer@, chunk@)
                    &&& !final(self).saved
                },
                PtyRead::Interrupted => {
                    &&& step == PtyStep::Retry
                    &&& final(self).buffer@ == old(self).buffer@
                    &&& final(self).saved == old(self).saved
                },
                _ => {
                    &&& step == PtyStep::Close
                    &&& final(self).buffer@ == old(self).buffer@
                    &&& final(self).saved == old(self).saved
                },
            },
    {
        match read {
            PtyRead::Bytes(chunk) => {
                if chunk.len() == 0 {
                    return PtyStep::Close;
                }
                let saved = self.saved;
                let fits = self.buffer.len() <= SCROLLBACK_LIMIT && chunk.len() <= SCROLLBACK_LIMIT
                    - self.buffer.len();
                let cleared = last_clear_scrollback(chunk).is_some();
                self.record(chunk);
                if saved && fits && !cleared {
                    PtyStep::Forward(HistoryWrite::Append)
                } else {
                    PtyStep::Forward(HistoryWrite::Rewrite)
                }
            },
            PtyRead::Interrupted => PtyStep::Retry,
            PtyRead::Failed => PtyStep::Close,
        }
    }

    /// Takes in whether the history file was brought up to date. After a write that
    /// failed nothing is known of the file, and the next write makes it anew.
    pub fn on_saved(&mut self, done: bool)
        ensures
            final(self).buffer@ == old(self).buffer@,
            final(self).subscriber == old(self).subscriber,
            final(self).saved == done,
    {
        self.saved = done;
    }

    /// A client starts to watch; whoever watched before no longer does.
    pub fn subscribe(&mut self, subscriber: S)
        ensures
            final(self).buffer@ == old(self).buffer@,
            final(self).subscriber == Some(subscriber),
            final(self).saved == old(self).saved,
    {
        self.subscriber = Some(subscriber);
    }

    /// Takes in whether a chunk reached the subscriber: one that cannot be
    /// reached is dropped.
    pub fn on_forwarded(&mut self, delivered: bool)
        ensures
            final(self).buffer@ == old(self).buffer@,
            final(self).subscriber == (if delivered {
                old(self).subscriber
            } else {
                None
            }),
            final(self).saved == old(self).saved,
    {
        if !delivered {
            self.subscriber = None;
        }
    }

    /// Nobody watches any longer; gives back who did.
    pub fn unsubscribe(&mut self) -> (left: Option<S>)
        ensures
            final(self).buffer@ == old(self).buffer@,
            final(self).subscriber is None,
            final(self).saved == old(self).saved,
            left == old(self).subscriber,
    {
        self.subscriber.take()
    }
}

/// Where the last clear sequence below `end` starts, it does start, and none
/// starts between it and `end`.
proof fn lemma_last_clear(chunk: Seq<u8>, end: int)
    ensures
        match last_clear(chunk, end) {
            Some(at) => at < end && clears_at(chunk, at) && (forall|i: int|
                at < i < end ==> !clears_at(chunk, i)),
            None => forall|i: int| i < end ==> !clears_at(chunk, i),
        },
    decreases end,
{
    if end > 0 && !clears_at(chunk, end - 1) {
        lemma_last_clear(chunk, end - 1);
    }
}

/// Where a line ends first from `from` on, it does end, and none ends before.
proof fn lemma_first_newline(bytes: Seq<u8>, from: int)
    requires
        0 <= from,
    ensures
        match first_newline(bytes, from) {
            Some(at) => from <= at < bytes.len() && bytes[at] == 10 && (forall|i: int|
                from <= i < at ==> bytes[i] != 10),
            None => forall|i: int| from <= i < bytes.len() ==> bytes[i] != 10,
        },
    decreases bytes.len() - from,
{
    if from < bytes.len() && bytes[from] != 10 {
        lemma_first_newline(bytes, from + 1);
    }
}

/// The replay buffer never holds more than the limit, whatever was kept before
/// and whatever comes.
pub proof fn law_replay_stays_within_limit(buffer: Seq<u8>, chunk: Seq<u8>)
    ensures
        recorded(buffer, chunk).len() <= SCROLLBACK_LIMIT,
{
    let bytes = appended(buffer, chunk);
    if bytes.len() > SCROLLBACK_LIMIT {
        lemma_first_newline(bytes, bytes.len() - SCROLLBACK_LIMIT);
    }
}

/// What is kept is the most recent output: an end of what was kept before
/// followed by the chunk.
pub proof fn law_replay_is_most_recent(buffer: Seq<u8>, chunk: Seq<u8>)
    ensures
        exists|from: int|
            0 <= from <= (buffer + chunk).len() && recorded(buffer, chunk) == #[trigger] (buffer
                + chunk).skip(from),
{
    let bytes = appended(buffer, chunk);
    lemma_last_clear(chunk, chunk.len() as int);
    let dropped: int = match last_clear(chunk, chunk.len() as int) {
        Some(at) => buffer.len() + at,
        None => 0,
    };
    assert(bytes =~= (buffer + chunk).skip(dropped));
    let cut: int = if bytes.len() <= SCROLLBACK_LIMIT {
        0
    } else {
        lemma_first_newline(bytes, bytes.len() - SCROLLBACK_LIMIT);
        match first_newline(bytes, bytes.len() - SCROLLBACK_LIMIT) {
            Some(at) => at + 1,
            None => bytes.len() - SCROLLBACK_LIMIT,
        }
    };
    assert(recorded(buffer, chunk) =~= (buffer + chunk).skip(dropped + cut));
}

/// When output is over the limit, it is cut behind the end of a line: the first
/// one that ends within the most recent `SCROLLBACK_LIMIT` bytes. Only where no
/// line ends there is it cut at the limit itself.
pub proof fn law_trim_cuts_at_a_line(bytes: Seq<u8>)
    requires
        bytes.len() > SCROLLBACK_LIMIT,
    ensures
        ({
            let limit = bytes.len() - SCROLLBACK_LIMIT;
            ||| exists|end: int| #![trigger bytes[end]]
                {
                    &&& limit <= end < bytes.len()
                    &&& bytes[end] == 10
                    &&& forall|i: int| limit <= i < end ==> bytes[i] != 10
                    &&& trimmed(bytes) == bytes.skip(end + 1)
                }
            ||| {
                &&& forall|i: int| limit <= i < bytes.len() ==> bytes[i] != 10
                &&& trimmed(bytes) == bytes.skip(limit)
            }
        }),
{
    lemma_first_newline(bytes, bytes.len() - SCROLLBACK_LIMIT);
}

/// After a chunk that clears the scrollback, nothing of the earlier history is
/// left: the buffer is the same whatever it was before, and, where it fits, it
/// is the chunk from its last clear sequence on.
pub proof fn law_clear_drops_history(before: Seq<u8>, other: Seq<u8>, chunk: Seq<u8>)
    requires
        clears(chunk),
    ensures
        recorded(before, chunk) == recorded(other, chunk),
        exists|at: int|
            {
                &&& clears_at(chunk, at)
                &&& forall|i: int| at < i ==> !clears_at(chunk, i)
                &&& recorded(before, chunk) == trimmed(#[trigger] chunk.skip(at))
            },
{
    lemma_last_clear(chunk, chunk.len() as int);
    let at = last_clear(chunk, chunk.len() as int)->0;
    assert(recorded(before, chunk) == trimmed(chunk.skip(at)));
}

/// Chunk by chunk, the output of two series is the output of the first followed
/// by that of the second.
proof fn lemma_all_output_concat(first: Seq<Seq<u8>>, second: Seq<Seq<u8>>)
    ensures
        all_output(first + second) == all_output(first) + all_output(second),
    decreases second.len(),
{
    if second.len() == 0 {
        assert(first + second =~= first);
        assert(all_output(first) + all_output(second) =~= all_output(first));
    } else {
        assert((first + second).drop_last() =~= first + second.drop_last());
        lemma_all_output_concat(first, second.drop_last());
        assert(all_output(first + second) =~= all_output(first) + all_output(second));
    }
}

/// A session whose output clears nothing and stays within the limit is replayed
/// in full, byte for byte and in order, however the output was cut into chunks.
pub proof fn law_replay_is_complete(buffer: Seq<u8>, chunks: Seq<Seq<u8>>)
    requires
        forall|i: int| 0 <= i < chunks.len() ==> !clears(#[trigger] chunks[i]),
        buffer.len() + all_output(chunks).len() <= SCROLLBACK_LIMIT,
    ensures
        replay_after(buffer, chunks) == buffer + all_output(chunks),
    decreases chunks.len(),
{
    if chunks.len() == 0 {
        assert(buffer + all_output(chunks) =~= buffer);
    } else {
        let before = chunks.drop_last();
        assert forall|i: int| 0 <= i < before.len() implies !clears(#[trigger] before[i]) by {
            assert(before[i] == chunks[i]);
        }
        law_replay_is_complete(buffer, before);
        let last = chunks.last();
        assert(!clears(chunks[chunks.len() - 1]));
        lemma_last_clear(last, last.len() as int);
        assert(appended(replay_after(buffer, before), last) =~= buffer + all_output(chunks));
    }
}

/// What is kept of a session that prints one more chunk: all of it, behind what was
/// kept before, where that is not over two megabytes; behind the last clear sequence
/// of the chunk nothing that came before it. Only what is over the limit is cut.
pub proof fn law_chunk_is_kept(buffer: Seq<u8>, chunk: Seq<u8>)
    ensures
        !clears(chunk) && buffer.len() + chunk.len() <= 2097152 ==> recorded(buffer, chunk)
            == buffer + chunk,
        !clears(chunk) ==> recorded(buffer, chunk) == trimmed(buffer + chunk),
        forall|at: int| #[trigger]
            clears_at(chunk, at) && (forall|i: int| at < i ==> !clears_at(chunk, i)) ==> recorded(
                buffer,
                chunk,
            ) == trimmed(chunk.skip(at)),
        forall|bytes: Seq<u8>|
            bytes.len() <= 2097152 ==> #[trigger] trimmed(bytes) == bytes,
        SCROLLBACK_LIMIT == 2097152,
{
    lemma_last_clear(chunk, chunk.len() as int);
}

/// A program clears the scrollback by sending `ESC [ 3 J`.
pub proof fn law_clear_sequence(before: Seq<u8>, after: Seq<u8>)
    ensures
        clears(before + seq![0x1bu8, 0x5bu8, 0x33u8, 0x4au8] + after),
        forall|chunk: Seq<u8>| #[trigger]
            clears(chunk) ==> exists|i: int|
                0 <= i && i + 4 <= chunk.len() && (#[trigger] chunk[i]) == 0x1b && chunk[i + 1]
                    == 0x5b && chunk[i + 2] == 0x33 && chunk[i + 3] == 0x4a,
{
    let at = before.len() as int;
    let chunk = before + seq![0x1bu8, 0x5bu8, 0x33u8, 0x4au8] + after;
    assert(chunk.subrange(at, at + 4) =~= clear_sequence());
    assert(clears_at(chunk, at));
    assert forall|chunk: Seq<u8>| #[trigger] clears(chunk) implies exists|i: int|
        0 <= i && i + 4 <= chunk.len() && (#[trigger] chunk[i]) == 0x1b && chunk[i + 1] == 0x5b
            && chunk[i + 2] == 0x33 && chunk[i + 3] == 0x4a by {
        let i = choose|i: int| clears_at(chunk, i);
        let here = chunk.subrange(i, i + 4);
        assert(here[0] == chunk[i] && here[1] == chunk[i + 1] && here[2] == chunk[i + 2]
            && here[3] == chunk[i + 3]);
    }
}

/// A client that attaches between two stretches of output misses nothing: the
/// replay it gets, followed by the live chunks, is the whole output, as long as
/// the output before it clears nothing and stays within the limit.
pub proof fn law_attach_misses_nothing(earlier: Seq<Seq<u8>>, live: Seq<Seq<u8>>)
    requires
        forall|i: int| 0 <= i < earlier.len() ==> !clears(#[trigger] earlier[i]),
        all_output(earlier).len() <= SCROLLBACK_LIMIT,
    ensures
        replay_after(seq![], earlier) + all_output(live) == all_output(earlier + live),
{
    law_replay_is_complete(seq![], earlier);
    assert(seq![] + all_output(earlier) =~= all_output(earlier));
    lemma_all_output_concat(earlier, live);
}

/// Whatever a session prints, and however it is cut into chunks, what is replayed
/// is an end of the whole output: nothing is missing between its first byte and
/// the last that was printed.
pub proof fn law_replay_is_the_latest_output(chunks: Seq<Seq<u8>>)
    ensures
        exists|from: int|
            0 <= from <= all_output(chunks).len() && replay_after(seq![], chunks)
                == #[trigger] all_output(chunks).skip(from),
    decreases chunks.len(),
{
    if chunks.len() == 0 {
        assert(replay_after(seq![], chunks) =~= all_output(chunks).skip(0));
    } else {
        let before = chunks.drop_last();
        let chunk = chunks.last();
        law_replay_is_the_latest_output(before);
        let buffer = replay_after(seq![], before);
        let first = choose|from: int|
            0 <= from <= all_output(before).len() && buffer == #[trigger] all_output(before).skip(
                from,
            );
        law_replay_is_most_recent(buffer, chunk);
        let second = choose|from: int|
            0 <= from <= (buffer + chunk).len() && recorded(buffer, chunk) == #[trigger] (buffer
                + chunk).skip(from);
        assert(replay_after(seq![], chunks) =~= all_output(chunks).skip(first + second));
    }
}

/// Whatever was printed before a client attaches, the replay it gets and the live
/// output behind it are one piece of the whole output, up to its end.
pub proof fn law_live_output_follows_the_replay(earlier: Seq<Seq<u8>>, live: Seq<Seq<u8>>)
    ensures
        exists|from: int|
            0 <= from <= all_output(earlier + live).len() && replay_after(seq![], earlier)
                + all_output(live) == #[trigger] all_output(earlier + live).skip(from),
{
    law_replay_is_the_latest_output(earlier);
    lemma_all_output_concat(earlier, live);
    let from = choose|from: int|
        0 <= from <= all_output(earlier).len() && replay_after(seq![], earlier)
            == #[trigger] all_output(earlier).skip(from);
    assert(replay_after(seq![], earlier) + all_output(live) =~= all_output(earlier + live).skip(
        from,
    ));
}

/// A chunk of output and the write of the history file that follows it: whether it
/// was done, and what it left in the file where it was not.
pub struct SaveStep {
    pub chunk: Seq<u8>,
    pub done: bool,
    pub left: Seq<u8>,
}

/// The chunks of a series of writes.
pub open spec fn chunks_of(steps: Seq<SaveStep>) -> Seq<Seq<u8>> {
    Seq::new(steps.len(), |i: int| steps[i].chunk)
}

/// The history file is known to hold the buffer after a series of writes: the last
/// of them was done.
pub open spec fn saved_after(saved: bool, steps: Seq<SaveStep>) -> bool {
    if steps.len() == 0 {
        saved
    } else {
        steps.last().done
    }
}

/// What a history file that held `file` holds after the writes that follow a series of
/// chunks, the first of a session.
pub open spec fn file_after(file: Seq<u8>, saved: bool, steps: Seq<SaveStep>) -> Seq<u8>
    decreases steps.len(),
{
    if steps.len() == 0 {
        file
    } else if steps.last().done {
        let before = steps.drop_last();
        let buffer = replay_after(seq![], chunks_of(before));
        written(
            file_after(file, saved, before),
            steps.last().chunk,
            recorded(buffer, steps.last().chunk),
            history_write(saved_after(saved, before), buffer, steps.last().chunk),
        )
    } else {
        steps.last().left
    }
}

/// Whatever a session prints, and whichever writes fail, its history file holds what
/// would be replayed whenever the last write was done: a daemon that reads the file
/// back replays the same.
pub proof fn law_history_file_is_the_replay(file: Seq<u8>, saved: bool, steps: Seq<SaveStep>)
    requires
        saved ==> file.len() == 0,
    ensures
        saved_after(saved, steps) ==> file_after(file, saved, steps) == replay_after(
            seq![],
            chunks_of(steps),
        ),
    decreases steps.len(),
{
    if steps.len() > 0 {
        law_history_file_is_the_replay(file, saved, steps.drop_last());
        assert(chunks_of(steps).drop_last() =~= chunks_of(steps.drop_last()));
    } else if saved {
        assert(file =~= replay_after(seq![], chunks_of(steps)));
    }
}

/// However much a session prints, no more than the limit is ever kept of it.
pub proof fn law_replay_never_exceeds_limit(chunks: Seq<Seq<u8>>)
    ensures
        replay_after(seq![], chunks).len() <= SCROLLBACK_LIMIT,
{
    if chunks.len() > 0 {
        law_replay_stays_within_limit(replay_after(seq![], chunks.drop_last()), chunks.last());
    }
}

} // verus!
