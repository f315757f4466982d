//! Moving bytes between a client and the daemon: one line per message before a
//! session is entered, whatever is typed and printed after that.
use crate::error::{StayError, StayResult};
use vstd::prelude::*;
use vstd::string::*;
use vstd::utf8::*;

verus! {

/// What the standard library says of bytes that are not UTF-8.
pub uninterp spec fn utf8_complaint(bytes: Seq<u8>) -> Seq<char>;

/// `String::from_utf8` of the standard library: the text whose encoding the bytes
/// are, where they are the encoding of a text. Where they are not, the error is
/// given as the text that it displays; what that text is depends on the bytes
/// alone, and is left to its name.
#[verifier::external_body]
fn utf8_text(bytes: Vec<u8>) -> (result: Result<String, String>)
    ensures
        match result {
            Ok(text) => valid_utf8(bytes@) && encode_utf8(text@) == bytes@,
            Err(complaint) => !valid_utf8(bytes@) && complaint@ == utf8_complaint(bytes@),
        },
{
    match String::from_utf8(bytes) {
        Ok(text) => Ok(text),
        Err(error) => Err(error.to_string()),
    }
}

/// A message as it is sent: its bytes and the end of a line.
pub open spec fn framed(message: Seq<u8>) -> Seq<u8> {
    message.push(10)
}

/// What a reader holds that held `taken` and is then fed a stream, byte by byte,
/// until the line is over: everything up to the end of the first line, or to the
/// end of the stream.
pub open spec fn line_taken(taken: Seq<u8>, stream: Seq<u8>) -> Seq<u8>
    decreases stream.len(),
{
    if stream.len() == 0 {
        taken
    } else if stream[0] == 10 {
        taken.push(10)
    } else {
        line_taken(taken.push(stream[0]), stream.drop_first())
    }
}

/// A message as it is sent.
pub fn frame(message: Vec<u8>) -> (bytes: Vec<u8>)
    ensures
        bytes@ == framed(message@),
{
    let mut bytes = message;
    bytes.push(10);
    bytes
}

/// A line that is read byte by byte, so that nothing behind it is taken from the
/// stream.
pub struct LineReader {
    bytes: Vec<u8>,
}

impl View for LineReader {
    type V = Seq<u8>;

    closed spec fn view(&self) -> Seq<u8> {
        self.bytes@
    }
}

impl LineReader {
    /// Nothing read yet.
    pub fn new() -> (reader: Self)
        ensures
            reader@ == Seq::<u8>::empty(),
    {
        LineReader { bytes: Vec::new() }
    }

    /// Takes in the next byte of the stream, or its end; `true` as long as the
    /// line goes on.
    pub fn take(&mut self, byte: Option<u8>) -> (more: bool)
        ensures
            match byte {
                Some(byte) => final(self)@ == old(self)@.push(byte) && more == (byte != 10),
                None => final(self)@ == old(self)@ && !more,
            },
    {
        match byte {
            Some(byte) => {
                self.bytes.push(byte);
                byte != 10
            },
            None => false,
        }
    }

    /// Takes in what is there of the stream, up to the end of the line; `true` as long
    /// as the line goes on.
    pub fn take_all(&mut self, stream: &[u8]) -> (more: bool)
        ensures
            final(self)@ == line_taken(old(self)@, stream@),
            more == !stream@.contains(10),
    {
        let mut i: usize = 0;
        assert(stream@.skip(0) =~= stream@);
        while i < stream.len()
            invariant
                i <= stream@.len(),
                line_taken(self@, stream@.skip(i as int)) == line_taken(old(self)@, stream@),
                forall|k: int| 0 <= k < i ==> stream@[k] != 10,
            decreases stream@.len() - i,
        {
            let ghost rest = stream@.skip(i as int);
            assert(rest[0] == stream@[i as int]);
            assert(rest.drop_first() =~= stream@.skip(i + 1));
            if !self.take(Some(stream[i])) {
                assert(stream@.contains(10));
                return false;
            }
            i = i + 1;
        }
        true
    }

    /// The line as text.
    pub fn finish(self) -> (line: StayResult<String>)
        ensures
            match line {
                Ok(line) => valid_utf8(self@) && encode_utf8(line@) == self@,
                Err(error) => !valid_utf8(self@) && error@ == utf8_complaint(self@),
            },
    {
        match utf8_text(self.bytes) {
            Ok(line) => Ok(line),
            Err(complaint) => Err(StayError::new(complaint)),
        }
    }
}

/// What is left to write after part of it was written. To have written nothing at
/// all is an error. Writes that go on with what is left put out the same bytes as one
/// series of writes.
pub fn unwritten<'a>(bytes: &'a [u8], written: usize) -> (rest: StayResult<&'a [u8]>)
    requires
        written <= bytes@.len(),
    ensures
        match rest {
            Ok(rest) => {
                &&& written > 0
                &&& rest@ == bytes@.skip(written as int)
                &&& forall|counts: Seq<nat>|
                    put_out(bytes@, #[trigger] (seq![written as nat] + counts)) == bytes@.take(
                        written as int,
                    ) + put_out(rest@, counts)
            },
            Err(error) => written == 0 && error@ == "write returned 0 bytes"@,
        },
{
    if written == 0 {
        return Err(StayError::new("write returned 0 bytes"));
    }
    let rest = &bytes[written..bytes.len()];
    assert(rest@ =~= bytes@.skip(written as int));
    assert forall|counts: Seq<nat>|
        put_out(bytes@, #[trigger] (seq![written as nat] + counts)) == bytes@.take(written as int)
            + put_out(rest@, counts) by {
        assert((seq![written as nat] + counts).drop_first() =~= counts);
    }
    Ok(rest)
}

/// What poll found out about one end of a connection.
#[derive(Clone, Copy, Debug, PartialEq, Eq, Structural)]
pub struct Readiness {
    pub readable: bool,
    pub hangup: bool,
    pub error: bool,
}

/// The other end is gone.
pub open spec fn is_closed(ready: Readiness) -> bool {
    ready.hangup || ready.error
}

impl Readiness {
    /// Whether the other end is gone.
    pub fn closed(&self) -> (closed: bool)
        ensures
            closed == is_closed(*self),
    {
        self.hangup || self.error
    }
}

/// What the daemon does next for an attached client.
#[derive(Clone, Copy, Debug, PartialEq, Eq, Structural)]
pub enum PumpStep {
    /// The client is gone.
    Stop,
    /// Read what the client typed.
    Read,
    /// Hand what was read to the terminal, then wait.
    Forward,
    /// Wait for the client.
    Poll,
}

/// What the daemon does when an attached client shows up on poll.
pub fn pump_ready(ready: Readiness) -> (step: PumpStep)
    ensures
        step == (if is_closed(ready) {
            PumpStep::Stop
        } else if ready.readable {
            PumpStep::Read
        } else {
            PumpStep::Poll
        }),
{
    if ready.closed() {
        PumpStep::Stop
    } else if ready.readable {
        PumpStep::Read
    } else {
        PumpStep::Poll
    }
}

/// What the daemon does with `len` bytes from an attached client.
pub fn pump_read(len: usize) -> (step: PumpStep)
    ensures
        step == (if len == 0 {
            PumpStep::Stop
        } else {
            PumpStep::Forward
        }),
{
    if len == 0 {
        PumpStep::Stop
    } else {
        PumpStep::Forward
    }
}

/// What is taken from a stream starts with what was taken before.
proof fn lemma_line_taken(taken: Seq<u8>, message: Seq<u8>, rest: Seq<u8>)
    requires
        forall|i: int| 0 <= i < message.len() ==> message[i] != 10,
    ensures
        line_taken(taken, framed(message) + rest) == taken + framed(message),
    decreases message.len(),
{
    let stream = framed(message) + rest;
    if message.len() == 0 {
        assert(stream[0] == 10);
        assert(taken.push(10) =~= taken + framed(message));
    } else {
        assert(stream[0] == message[0]);
        assert(stream.drop_first() =~= framed(message.drop_first()) + rest);
        lemma_line_taken(taken.push(message[0]), message.drop_first(), rest);
        assert(taken.push(message[0]) + framed(message.drop_first()) =~= taken + framed(message));
    }
}

/// A message that holds no line end is read back as it was sent, and nothing of
/// what follows it in the stream is taken.
pub proof fn law_message_reads_back(message: Seq<u8>, rest: Seq<u8>)
    requires
        forall|i: int| 0 <= i < message.len() ==> message[i] != 10,
    ensures
        line_taken(seq![], framed(message) + rest) == framed(message),
{
    lemma_line_taken(seq![], message, rest);
    assert(seq![] + framed(message) =~= framed(message));
}

/// The bytes that a series of writes puts out, each of them a part of what the
/// one before left.
pub open spec fn put_out(bytes: Seq<u8>, counts: Seq<nat>) -> Seq<u8>
    decreases counts.len(),
{
    if counts.len() == 0 {
        seq![]
    } else {
        bytes.take(counts[0] as int) + put_out(bytes.skip(counts[0] as int), counts.drop_first())
    }
}

/// How many bytes a series of writes puts out.
pub open spec fn count_out(counts: Seq<nat>) -> nat
    decreases counts.len(),
{
    if counts.len() == 0 {
        0
    } else {
        counts[0] + count_out(counts.drop_first())
    }
}

/// However the writes divide them, the bytes go out in order, each once.
pub proof fn law_writes_keep_the_bytes(bytes: Seq<u8>, counts: Seq<nat>)
    requires
        count_out(counts) <= bytes.len(),
    ensures
        put_out(bytes, counts) == bytes.take(count_out(counts) as int),
    decreases counts.len(),
{
    if counts.len() == 0 {
        assert(bytes.take(0) =~= seq![]);
    } else {
        let rest = bytes.skip(counts[0] as int);
        law_writes_keep_the_bytes(rest, counts.drop_first());
        assert(put_out(bytes, counts) =~= bytes.take(count_out(counts) as int));
    }
}

/// A message is sent as it is, with one line end behind it.
pub proof fn law_message_ends_a_line(message: Seq<u8>)
    ensures
        framed(message).len() == message.len() + 1,
        framed(message).last() == 10,
        framed(message).drop_last() == message,
{
    assert(framed(message).drop_last() =~= message);
}

/// Everything that comes before the end of a stream without a line end is taken, and
/// behind what was taken before.
pub proof fn law_unended_line_is_taken_whole(taken: Seq<u8>, stream: Seq<u8>)
    requires
        !stream.contains(10),
    ensures
        line_taken(taken, stream) == taken + stream,
    decreases stream.len(),
{
    if stream.len() == 0 {
        assert(taken + stream =~= taken);
    } else {
        assert(stream[0] != 10);
        let rest = stream.drop_first();
        assert forall|i: int| 0 <= i < rest.len() implies rest[i] != 10 by {
            assert(rest[i] == stream[i + 1]);
        }
        law_unended_line_is_taken_whole(taken.push(stream[0]), rest);
        assert(taken.push(stream[0]) + rest =~= taken + stream);
    }
}

/// A side is gone if it hung up or failed, whatever is left to read.
pub proof fn law_gone_means_hangup_or_error(ready: Readiness)
    ensures
        is_closed(ready) <==> ready.hangup || ready.error,
{
}

} // verus!
