//! The framer of a connection: it collects the bytes that arrive, cuts them
//! into lines and hands out the message of each line; and it turns a message
//! to send into the bytes of its line.
//!
//! It holds no connection. Whoever owns one hands the bytes it reads to
//! `receive`, tells the end of the stream with `close`, and writes and
//! flushes what `send` returns.

use vstd::prelude::*;
use vstd::slice::slice_to_vec;
use vstd::utf8::*;
use crate::charset::{CR, LF};
use crate::grammar;
use crate::message::{views, Message, MessageView};
use crate::parser::{arguments_decode, ParseError};

verus! {

/// Why no message was handed out.
#[derive(Debug, Clone, PartialEq, Eq)]
pub enum ReadError {
    /// No complete line has arrived yet.
    WouldBlock,
    /// The stream has ended and holds no complete line any more.
    Closed,
    /// A line arrived that does not follow the grammar. The line is gone
    /// from the stream, and the lines behind it can still be read.
    InvalidData(ParseError),
}

/// The mathematical value of a `ReadError`.
pub enum ReadErrorView {
    WouldBlock,
    Closed,
    InvalidData(Seq<u8>),
}

impl View for ReadError {
    type V = ReadErrorView;

    open spec fn view(&self) -> ReadErrorView {
        match self {
            ReadError::WouldBlock => ReadErrorView::WouldBlock,
            ReadError::Closed => ReadErrorView::Closed,
            ReadError::InvalidData(error) => ReadErrorView::InvalidData(error@),
        }
    }
}

/// The receiving and the sending side of one IRC connection.
#[derive(Debug, Clone, PartialEq, Eq)]
pub struct IrcStream {
    buffer: Vec<u8>,
    closed: bool,
}

/// The mathematical value of an `IrcStream`: the bytes that have arrived
/// and were not yet handed out, in the order of their arrival, and whether
/// the stream has ended.
pub struct StreamView {
    pub pending: Seq<u8>,
    pub closed: bool,
}

/// The number of bytes of `s` in front of its first LF; the length of `s`
/// where it holds none.
pub open spec fn line_break(s: Seq<u8>) -> nat
    decreases s.len(),
{
    if s.len() > 0 && s[0] != LF {
        1 + line_break(s.drop_first())
    } else {
        0
    }
}

/// `line_break` is within the input, no byte in front of it is LF, and the
/// byte at it, if there is one, is LF.
pub proof fn lemma_line_break_bounds(s: Seq<u8>)
    ensures
        line_break(s) <= s.len(),
        forall|i: int| 0 <= i < line_break(s) ==> #[trigger] s[i] != LF,
        line_break(s) < s.len() ==> s[line_break(s) as int] == LF,
    decreases s.len(),
{
    if s.len() > 0 && s[0] != LF {
        let t = s.drop_first();
        lemma_line_break_bounds(t);
        assert forall|i: int| 0 <= i < line_break(s) implies #[trigger] s[i] != LF by {
            if i > 0 {
                assert(s[i] == t[i - 1]);
            }
        }
        if line_break(s) < s.len() {
            assert(s[line_break(s) as int] == t[line_break(t) as int]);
        }
    }
}

/// `line_break` is the only index of which `lemma_line_break_bounds`
/// holds.
pub proof fn lemma_line_break_is(s: Seq<u8>, n: int)
    requires
        0 <= n <= s.len(),
        forall|i: int| 0 <= i < n ==> #[trigger] s[i] != LF,
        n < s.len() ==> s[n] == LF,
    ensures
        line_break(s) == n,
    decreases s.len(),
{
    if n > 0 {
        let t = s.drop_first();
        assert(s[0] != LF);
        assert forall|i: int| 0 <= i < n - 1 implies #[trigger] t[i] != LF by {
            assert(t[i] == s[i + 1]);
        }
        if n - 1 < t.len() {
            assert(t[n - 1] == s[n]);
        }
        lemma_line_break_is(t, n - 1);
    }
}

/// The line that a message makes on the wire: the encoding of its text, and
/// CR LF.
pub open spec fn wire_line(message: MessageView) -> Seq<u8> {
    encode_utf8(message.wire_text()) + seq![CR, LF]
}

impl StreamView {
    /// Whether a complete line is pending.
    pub open spec fn has_line(self) -> bool {
        line_break(self.pending) < self.pending.len()
    }

    /// The first pending line, its LF included.
    pub open spec fn first_line(self) -> Seq<u8> {
        self.pending.take(line_break(self.pending) as int + 1)
    }

    /// The stream without its first pending line.
    pub open spec fn behind_first_line(self) -> StreamView {
        StreamView {
            pending: self.pending.skip(line_break(self.pending) as int + 1),
            closed: self.closed,
        }
    }

    /// The stream after bytes have arrived.
    pub open spec fn receive(self, bytes: Seq<u8>) -> StreamView {
        StreamView { pending: self.pending + bytes, closed: self.closed }
    }

    /// What is handed out next, and the stream behind it. Where a line is
    /// pending, it leaves the stream and is parsed; where none is, the
    /// stream stays as it is, and is either closed or has to wait.
    pub open spec fn next(self) -> (StreamView, Result<MessageView, ReadErrorView>) {
        if self.has_line() {
            match grammar::message(self.first_line()) {
                Some((found, _)) => (self.behind_first_line(), Ok(found)),
                None => (
                    self.behind_first_line(),
                    Err(ReadErrorView::InvalidData(self.first_line())),
                ),
            }
        } else if self.closed {
            (self, Err(ReadErrorView::Closed))
        } else {
            (self, Err(ReadErrorView::WouldBlock))
        }
    }

    /// The messages that are handed out up to the first failure, and the
    /// stream behind them. The failure itself is not kept: where it is an
    /// invalid line, that line has left the stream.
    pub open spec fn drain(self) -> (Seq<MessageView>, StreamView)
        decreases self.pending.len(),
        via Self::drain_decreases
    {
        match self.next() {
            (behind, Ok(found)) => {
                let (others, end) = behind.drain();
                (seq![found] + others, end)
            },
            (behind, Err(_)) => (Seq::empty(), behind),
        }
    }

    #[via_fn]
    proof fn drain_decreases(self) {
        lemma_line_break_bounds(self.pending);
    }

    /// What is handed out of all the pending lines, one after the other,
    /// and the stream behind them, which holds no line.
    pub open spec fn deliveries(self) -> (Seq<Result<MessageView, ReadErrorView>>, StreamView)
        decreases self.pending.len(),
        via Self::deliveries_decreases
    {
        if self.has_line() {
            let (others, end) = self.next().0.deliveries();
            (seq![self.next().1] + others, end)
        } else {
            (Seq::empty(), self)
        }
    }

    #[via_fn]
    proof fn deliveries_decreases(self) {
        lemma_line_break_bounds(self.pending);
    }
}

/// A line that parses holds nothing behind its message.
pub proof fn lemma_line_is_read_whole(stream: StreamView)
    requires
        stream.has_line(),
    ensures
        grammar::message(stream.first_line()) matches Some((_, rest)) ==> rest.len() == 0,
{
    let line = stream.first_line();
    lemma_line_break_bounds(stream.pending);
    grammar::lemma_message_rest(line);
    if let Some((_, rest)) = grammar::message(line) {
        let at = line.len() - rest.len() - 1;
        assert(line[at] == stream.pending[at]);
    }
}

/// Bytes that arrive in two pieces are pending as if they had arrived in
/// one.
pub proof fn lemma_receive_in_pieces(stream: StreamView, first: Seq<u8>, second: Seq<u8>)
    ensures
        stream.receive(first).receive(second) == stream.receive(first + second),
{
    assert(stream.pending + first + second =~= stream.pending + (first + second));
}

/// What is handed out of a pending line does not depend on what arrives
/// behind the line, and what arrives stays behind what was pending.
pub proof fn lemma_later_bytes_change_no_line(stream: StreamView, more: Seq<u8>)
    requires
        stream.has_line(),
    ensures
        stream.receive(more).has_line(),
        stream.receive(more).first_line() == stream.first_line(),
        stream.receive(more).next().1 == stream.next().1,
        stream.receive(more).next().0 == stream.next().0.receive(more),
{
    let n = line_break(stream.pending) as int;
    let all = stream.pending + more;
    lemma_line_break_bounds(stream.pending);
    assert forall|i: int| 0 <= i < n implies #[trigger] all[i] != LF by {
        assert(all[i] == stream.pending[i]);
    }
    assert(all[n] == stream.pending[n]);
    lemma_line_break_is(all, n);
    assert(all.take(n + 1) =~= stream.pending.take(n + 1));
    assert(all.skip(n + 1) =~= stream.pending.skip(n + 1) + more);
}

/// The lines are handed out in the order of their arrival, however the
/// bytes were cut on their way: reading all the lines, taking in more bytes
/// and reading all the lines again hands out what reading them does once
/// all the bytes are in.
pub proof fn lemma_deliveries_in_pieces(stream: StreamView, more: Seq<u8>)
    ensures
        stream.receive(more).deliveries() == (
            stream.deliveries().0 + stream.deliveries().1.receive(more).deliveries().0,
            stream.deliveries().1.receive(more).deliveries().1,
        ),
    decreases stream.pending.len(),
{
    let later = stream.deliveries().1.receive(more).deliveries();
    if stream.has_line() {
        lemma_line_break_bounds(stream.pending);
        lemma_later_bytes_change_no_line(stream, more);
        let behind = stream.next().0;
        lemma_deliveries_in_pieces(behind, more);
        assert(seq![stream.next().1] + (behind.deliveries().0 + later.0) =~= stream.deliveries().0
            + later.0);
    } else {
        assert(Seq::<Result<MessageView, ReadErrorView>>::empty() + later.0 =~= later.0);
    }
}

/// Without a pending line nothing is handed out and nothing is lost.
pub proof fn lemma_no_line_no_loss(stream: StreamView)
    requires
        !stream.has_line(),
    ensures
        stream.next().0 == stream,
        stream.next().1 is Err,
        stream.drain() == (Seq::<MessageView>::empty(), stream),
{
}

impl View for IrcStream {
    type V = StreamView;

    closed spec fn view(&self) -> StreamView {
        StreamView { pending: self.buffer@, closed: self.closed }
    }
}

impl IrcStream {
    /// A stream on which nothing has arrived yet.
    pub fn new() -> (r: Self)
        ensures
            r@ == (StreamView { pending: Seq::empty(), closed: false }),
    {
        IrcStream { buffer: Vec::new(), closed: false }
    }

    /// Takes in bytes that were read from the connection. They are put
    /// behind those that are pending.
    pub fn receive(&mut self, bytes: &[u8])
        ensures
            final(self)@ == old(self)@.receive(bytes@),
    {
        let mut i: usize = 0;
        while i < bytes.len()
            invariant
                i <= bytes@.len(),
                self.closed == old(self).closed,
                self.buffer@ == old(self).buffer@ + bytes@.take(i as int),
            decreases bytes@.len() - i,
        {
            self.buffer.push(bytes[i]);
            i = i + 1;
            assert(self.buffer@ =~= old(self).buffer@ + bytes@.take(i as int));
        }
        assert(bytes@.take(i as int) =~= bytes@);
    }

    /// Notes that the connection has ended: no more bytes will arrive.
    pub fn close(&mut self)
        ensures
            final(self)@ == (StreamView { pending: old(self)@.pending, closed: true }),
    {
        self.closed = true;
    }

    /// The bytes to write, and then to flush, in order to send `message`:
    /// its text and the line terminator.
    pub fn send(&self, message: &Message) -> (line: Vec<u8>)
        ensures
            line@ == wire_line(message@),
    {
        let text = message.to_string();
        let mut line = slice_to_vec(text.as_str().as_bytes());
        line.push(CR);
        line.push(LF);
        assert(line@ =~= wire_line(message@));
        line
    }

    /// Read the next message from this stream: the message of the first
    /// pending line. The line leaves the stream, also where it does not
    /// parse; the bytes behind it stay for the next call.
    pub fn next_message(&mut self) -> (r: Result<Message, ReadError>)
        ensures
            final(self)@ == old(self)@.next().0,
            match r {
                Ok(found) => old(self)@.next().1 == Ok::<MessageView, ReadErrorView>(found@)
                    && found@.is_well_formed() && arguments_decode(
                    old(self)@.first_line(),
                    found@.arguments,
                ),
                Err(error) => old(self)@.next().1 == Err::<MessageView, ReadErrorView>(error@),
            },
    {
        let mut n: usize = 0;
        while n < self.buffer.len() && self.buffer[n] != LF
            invariant
                n <= self.buffer@.len(),
                forall|i: int| 0 <= i < n ==> #[trigger] self.buffer@[i] != LF,
                *self == *old(self),
            decreases self.buffer@.len() - n,
        {
            n = n + 1;
        }
        proof {
            lemma_line_break_is(self.buffer@, n as int);
        }
        if n == self.buffer.len() {
            return if self.closed {
                Err(ReadError::Closed)
            } else {
                Err(ReadError::WouldBlock)
            };
        }
        let behind = self.buffer.split_off(n + 1);
        let outcome = match Message::parse(self.buffer.as_slice()) {
            Ok((found, _)) => Ok(found),
            Err(error) => Err(ReadError::InvalidData(error)),
        };
        self.buffer = behind;
        outcome
    }

    /// Reads messages until one cannot be handed out, and returns those
    /// that were read. Why it stopped is not told.
    pub fn messages(&mut self) -> (r: Vec<Message>)
        ensures
            views(r@) == old(self)@.drain().0,
            final(self)@ == old(self)@.drain().1,
    {
        let mut found: Vec<Message> = Vec::new();
        loop
            invariant_except_break
                old(self)@.drain() == (
                    views(found@) + self@.drain().0,
                    self@.drain().1,
                ),
            ensures
                views(found@) == old(self)@.drain().0,
                self@ == old(self)@.drain().1,
            decreases self@.pending.len(),
        {
            let ghost before = found@;
            let ghost stream = self@;
            proof {
                lemma_line_break_bounds(self@.pending);
            }
            match self.next_message() {
                Ok(message) => {
                    found.push(message);
                    assert(views(found@) =~= views(before)
                        + seq![message@]);
                    assert(views(before) + (seq![message@] + self@.drain().0)
                        =~= views(found@) + self@.drain().0);
                },
                Err(_) => {
                    assert(views(found@) + Seq::<MessageView>::empty()
                        =~= views(found@));
                    break ;
                },
            }
        }
        found
    }
}

} // verus!
