//! Reading lines from the port: buffering, and what a read attempt gives.

use crate::text::owned;
use vstd::prelude::*;

verus! {

/// Speed of the serial port.
pub const BAUDRATE: u32 = 115_200;

/// How long one read attempt waits for a line, in milliseconds.
pub const READ_TIMEOUT_MS: u64 = 500;

/// The end of a line.
pub const NEWLINE: u8 = 0x0a;

/// One read attempt.
#[derive(Debug, PartialEq, Eq)]
pub enum ReadOutcome {
    /// A full line, still with its line end.
    Line(Vec<u8>),
    /// No line in time: the healthcheck runs.
    Timeout,
    /// The port is gone.
    Error(String),
}

/// What a [`ReadOutcome`] holds.
pub enum OutcomeView {
    Line(Seq<u8>),
    Timeout,
    Error(Seq<char>),
}

impl View for ReadOutcome {
    type V = OutcomeView;

    open spec fn view(&self) -> OutcomeView {
        match self {
            ReadOutcome::Line(bytes) => OutcomeView::Line(bytes@),
            ReadOutcome::Timeout => OutcomeView::Timeout,
            ReadOutcome::Error(error) => OutcomeView::Error(error@),
        }
    }
}

/// The view of an optional outcome.
pub open spec fn opt_outcome(v: Option<ReadOutcome>) -> Option<OutcomeView> {
    match v {
        Some(o) => Some(o@),
        None => None,
    }
}

/// What one read of the port gave.
#[derive(Debug, PartialEq, Eq)]
pub enum PortRead {
    /// These bytes; none at the end of the stream.
    Bytes(Vec<u8>),
    /// Nothing before the deadline.
    Elapsed,
    /// An error with this text.
    Failed(String),
}

/// The index of the first newline from `from` on; the length where there is
/// none.
pub open spec fn newline_from(bytes: Seq<u8>, from: int) -> int
    decreases bytes.len() - from,
{
    if from >= bytes.len() {
        bytes.len() as int
    } else if bytes[from] == NEWLINE {
        from
    } else {
        newline_from(bytes, from + 1)
    }
}

/// The first line, with its newline, where there is a full one.
pub open spec fn first_line(bytes: Seq<u8>) -> Option<Seq<u8>> {
    let i = newline_from(bytes, 0);
    if i < bytes.len() {
        Some(bytes.take(i + 1))
    } else {
        None
    }
}

/// What follows the first line.
pub open spec fn after_line(bytes: Seq<u8>) -> Seq<u8> {
    let i = newline_from(bytes, 0);
    if i < bytes.len() {
        bytes.skip(i + 1)
    } else {
        bytes
    }
}

/// Where the first newline stands.
pub proof fn lemma_newline(bytes: Seq<u8>, from: int)
    requires
        0 <= from <= bytes.len(),
    ensures
        from <= newline_from(bytes, from) <= bytes.len(),
        newline_from(bytes, from) < bytes.len() ==> bytes[newline_from(bytes, from)] == NEWLINE,
        forall|j: int| from <= j < newline_from(bytes, from) ==> #[trigger] bytes[j] != NEWLINE,
    decreases bytes.len() - from,
{
    if from < bytes.len() && bytes[from] != NEWLINE {
        lemma_newline(bytes, from + 1);
    }
}

/// A newline at `at` and none before it is the one that is found.
proof fn lemma_newline_is(bytes: Seq<u8>, from: int, at: int)
    requires
        0 <= from <= at < bytes.len(),
        bytes[at] == NEWLINE,
        forall|j: int| from <= j < at ==> #[trigger] bytes[j] != NEWLINE,
    ensures
        newline_from(bytes, from) == at,
    decreases at - from,
{
    if from < at {
        assert(bytes[from] != NEWLINE);
        lemma_newline_is(bytes, from + 1, at);
    }
}

/// Bytes of the port that have not been handed out as lines.
#[derive(Debug)]
pub struct LineBuffer {
    buffer: Vec<u8>,
}

impl View for LineBuffer {
    type V = Seq<u8>;

    closed spec fn view(&self) -> Seq<u8> {
        self.buffer@
    }
}

impl LineBuffer {
    /// An empty buffer.
    pub fn new() -> (r: Self)
        ensures
            r@ == Seq::<u8>::empty(),
    {
        LineBuffer { buffer: Vec::new() }
    }

    /// Takes the first full line out of the buffer.
    pub fn take_buffered_line(&mut self) -> (r: Option<Vec<u8>>)
        ensures
            (match r {
                Some(line) => Some(line@),
                None => None,
            }) == first_line(old(self)@),
            final(self)@ == after_line(old(self)@),
    {
        let ghost all = self.buffer@;
        let mut i: usize = 0;
        while i < self.buffer.len() && self.buffer[i] != NEWLINE
            invariant
                self.buffer@ == all,
                i <= all.len(),
                newline_from(all, 0) == newline_from(all, i as int),
            decreases all.len() - i,
        {
            i = i + 1;
        }
        if i < self.buffer.len() {
            let rest = self.buffer.split_off(i + 1);
            let line = self.buffer.clone();
            assert(line@ =~= all.take(i + 1));
            self.buffer = rest;
            assert(self.buffer@ =~= all.skip(i + 1));
            Some(line)
        } else {
            None
        }
    }

    /// What one read of the port makes of the attempt: its outcome, or nothing
    /// where it goes on.
    pub fn on_read(&mut self, read: PortRead) -> (r: Option<ReadOutcome>)
        ensures
            final(self)@ == read_rest(old(self)@, read),
            opt_outcome(r) == read_outcome(old(self)@, read),
    {
        match read {
            PortRead::Elapsed => Some(ReadOutcome::Timeout),
            PortRead::Failed(error) => Some(ReadOutcome::Error(error)),
            PortRead::Bytes(bytes) => {
                if bytes.len() == 0 {
                    return Some(ReadOutcome::Error(owned("serial port EOF")));
                }
                self.buffer.extend_from_slice(bytes.as_slice());
                assert(self.buffer@ =~= old(self).buffer@ + bytes@);
                match self.take_buffered_line() {
                    Some(line) => Some(ReadOutcome::Line(line)),
                    None => None,
                }
            },
        }
    }
}

/// The outcome of the attempt after one read.
pub open spec fn read_outcome(buffered: Seq<u8>, read: PortRead) -> Option<OutcomeView> {
    match read {
        PortRead::Elapsed => Some(OutcomeView::Timeout),
        PortRead::Failed(error) => Some(OutcomeView::Error(error@)),
        PortRead::Bytes(bytes) => if bytes@.len() == 0 {
            Some(OutcomeView::Error("serial port EOF"@))
        } else {
            match first_line(buffered + bytes@) {
                Some(line) => Some(OutcomeView::Line(line)),
                None => None,
            }
        },
    }
}

/// What stays in the buffer after one read.
pub open spec fn read_rest(buffered: Seq<u8>, read: PortRead) -> Seq<u8> {
    match read {
        PortRead::Bytes(bytes) => if bytes@.len() == 0 {
            buffered
        } else {
            after_line(buffered + bytes@)
        },
        _ => buffered,
    }
}

/// The full lines of bytes, in order.
pub open spec fn lines_in(bytes: Seq<u8>) -> Seq<Seq<u8>>
    decreases bytes.len(),
{
    proof {
        lemma_newline(bytes, 0);
    }
    match first_line(bytes) {
        Some(line) => seq![line] + lines_in(after_line(bytes)),
        None => Seq::<Seq<u8>>::empty(),
    }
}

/// What follows the last full line.
pub open spec fn rest_in(bytes: Seq<u8>) -> Seq<u8>
    decreases bytes.len(),
{
    proof {
        lemma_newline(bytes, 0);
    }
    match first_line(bytes) {
        Some(_) => rest_in(after_line(bytes)),
        None => bytes,
    }
}

/// Byte strings one after another.
pub open spec fn concatenated(parts: Seq<Seq<u8>>) -> Seq<u8>
    decreases parts.len(),
{
    if parts.len() == 0 {
        Seq::<u8>::empty()
    } else {
        parts[0] + concatenated(parts.skip(1))
    }
}

/// Taking a line loses nothing: the line and what stays make up what was
/// there. The line ends with its only newline.
pub proof fn law_taking_a_line_loses_nothing(bytes: Seq<u8>)
    ensures
        first_line(bytes) is None ==> after_line(bytes) == bytes && !bytes.contains(NEWLINE),
        first_line(bytes) matches Some(line) ==> {
            &&& line + after_line(bytes) == bytes
            &&& line.last() == NEWLINE
            &&& forall|i: int| 0 <= i < line.len() - 1 ==> #[trigger] line[i] != NEWLINE
        },
{
    lemma_newline(bytes, 0);
    if let Some(line) = first_line(bytes) {
        assert(line + after_line(bytes) =~= bytes);
    }
}

/// The lines and the rest make up the bytes.
pub proof fn law_lines_make_up_the_bytes(bytes: Seq<u8>)
    ensures
        concatenated(lines_in(bytes)) + rest_in(bytes) == bytes,
    decreases bytes.len(),
{
    law_taking_a_line_loses_nothing(bytes);
    let lines = lines_in(bytes);
    match first_line(bytes) {
        Some(line) => {
            let rest = after_line(bytes);
            lemma_newline(bytes, 0);
            law_lines_make_up_the_bytes(rest);
            assert(lines.skip(1) =~= lines_in(rest));
            assert(lines[0] == line);
            assert(concatenated(lines) + rest_in(bytes) =~= line + (concatenated(lines_in(rest))
                + rest_in(rest)));
        },
        None => {
            assert(concatenated(lines) + rest_in(bytes) =~= bytes);
        },
    }
}

/// How the port cuts its bytes into reads does not matter: the lines of the
/// first part and then those of what stays with the second part are the lines
/// of the whole, and the same stays in the end.
pub proof fn law_reads_may_cut_anywhere(a: Seq<u8>, b: Seq<u8>)
    ensures
        lines_in(a + b) == lines_in(a) + lines_in(rest_in(a) + b),
        rest_in(a + b) == rest_in(rest_in(a) + b),
    decreases a.len(),
{
    law_taking_a_line_loses_nothing(a);
    match first_line(a) {
        Some(line) => {
            let at = newline_from(a, 0);
            let rest = after_line(a);
            lemma_newline(a, 0);
            assert forall|j: int| 0 <= j < at implies #[trigger] (a + b)[j] != NEWLINE by {
                assert((a + b)[j] == a[j]);
            }
            assert((a + b)[at] == a[at]);
            lemma_newline_is(a + b, 0, at);
            assert((a + b).take(at + 1) =~= line);
            assert((a + b).skip(at + 1) =~= rest + b);
            law_reads_may_cut_anywhere(rest, b);
            assert(lines_in(a + b) =~= seq![line] + lines_in(rest + b));
            assert(lines_in(a) =~= seq![line] + lines_in(rest));
            assert(lines_in(a + b) =~= lines_in(a) + lines_in(rest_in(a) + b));
        },
        None => {
            assert(lines_in(a) + lines_in(rest_in(a) + b) =~= lines_in(a + b));
        },
    }
}

}
