//! The frame codec: whole messages over a stream of bytes.
//!
//! On the wire each message is followed by one delimiter byte, a line feed. A
//! message holds no delimiter itself. The codec does no input or output: the
//! caller hands it the bytes that arrived and puts on the wire the bytes it
//! gives back, so that a socket and a channel in memory share one framing.

use super::json::{append, LINE_FEED};
use std::marker::PhantomData;
use vstd::prelude::*;

verus! {

/// The byte that ends a frame.
pub const DELIMITER: u8 = LINE_FEED;

/// Whether `bytes` hold no delimiter, as the bytes of a message must.
pub open spec fn delimiter_free(bytes: Seq<u8>) -> bool {
    forall|i: int| 0 <= i < bytes.len() ==> bytes[i] != DELIMITER
}

/// The frame of `message`: the message, then the delimiter.
pub open spec fn framed(message: Seq<u8>) -> Seq<u8> {
    message.push(DELIMITER)
}

/// Whether the first frame in `bytes` ends at position `end`: the first
/// delimiter stands there.
pub open spec fn first_frame_ends_at(bytes: Seq<u8>, end: int) -> bool {
    &&& 0 <= end < bytes.len()
    &&& bytes[end] == DELIMITER
    &&& delimiter_free(bytes.take(end))
}

/// The frames of `messages` one after the other, as a stream carries them.
pub open spec fn wire(messages: Seq<Seq<u8>>) -> Seq<u8>
    decreases messages.len(),
{
    if messages.len() == 0 {
        Seq::empty()
    } else {
        framed(messages[0]) + wire(messages.drop_first())
    }
}

/// Where the first frame in `bytes` ends, if `bytes` hold a delimiter.
pub open spec fn first_frame_end(bytes: Seq<u8>) -> int {
    choose|end: int| first_frame_ends_at(bytes, end)
}

/// The first frame in `bytes`, without its delimiter.
pub open spec fn first_frame(bytes: Seq<u8>) -> Seq<u8> {
    bytes.take(first_frame_end(bytes))
}

/// What follows the first frame in `bytes` and its delimiter.
pub open spec fn behind_first_frame(bytes: Seq<u8>) -> Seq<u8> {
    bytes.skip(first_frame_end(bytes) + 1)
}

/// The whole frames at the start of `bytes`, without their delimiters. What
/// follows a frame is always shorter than what held it; the test for it is
/// here for the recursion's sake.
pub open spec fn whole_frames(bytes: Seq<u8>) -> Seq<Seq<u8>>
    decreases bytes.len(),
{
    if !delimiter_free(bytes) && behind_first_frame(bytes).len() < bytes.len() {
        seq![first_frame(bytes)] + whole_frames(behind_first_frame(bytes))
    } else {
        Seq::empty()
    }
}

/// What is left of `bytes` behind its whole frames: the start of a frame
/// whose delimiter has not arrived.
pub open spec fn remainder(bytes: Seq<u8>) -> Seq<u8>
    decreases bytes.len(),
{
    if !delimiter_free(bytes) && behind_first_frame(bytes).len() < bytes.len() {
        remainder(behind_first_frame(bytes))
    } else {
        bytes
    }
}

/// Whether `message` is what the conversion of type `I` makes of the bytes
/// `raw`.
pub open spec fn made_from<I: From<Vec<u8>>>(raw: Seq<u8>, message: I) -> bool {
    exists|bytes: Vec<u8>| (#[trigger] bytes@) == raw && call_ensures(I::from, (bytes,), message)
}

/// Whether `raw` are bytes that the conversion of type `O` makes of
/// `message`.
pub open spec fn made_into<O: Into<Vec<u8>>>(message: O, raw: Seq<u8>) -> bool {
    exists|bytes: Vec<u8>| (#[trigger] bytes@) == raw && call_ensures(O::into, (message,), bytes)
}

/// Frames `message` for the wire.
pub fn frame(message: &[u8]) -> (bytes: Vec<u8>)
    ensures
        bytes@ == framed(message@),
{
    let mut bytes: Vec<u8> = Vec::new();
    append(&mut bytes, message);
    bytes.push(DELIMITER);
    bytes
}

/// The position of the first delimiter in `bytes`.
pub fn find_delimiter(bytes: &[u8]) -> (end: Option<usize>)
    ensures
        match end {
            Some(end) => first_frame_ends_at(bytes@, end as int) && end == first_frame_end(bytes@),
            None => delimiter_free(bytes@),
        },
{
    let mut i: usize = 0;
    while i < bytes.len()
        invariant
            i <= bytes.len(),
            forall|j: int| 0 <= j < i ==> bytes@[j] != DELIMITER,
        decreases bytes.len() - i,
    {
        if bytes[i] == DELIMITER {
            proof {
                assert(first_frame_ends_at(bytes@, i as int));
                lemma_first_frame_is_unique(bytes@, i as int, first_frame_end(bytes@));
            }
            return Some(i);
        }
        i += 1;
    }
    None
}

/// The contents of a list of messages.
pub open spec fn message_views(messages: Seq<Vec<u8>>) -> Seq<Seq<u8>> {
    Seq::new(messages.len(), |i: int| messages[i]@)
}

/// The reading half of the codec: the bytes that arrived and belong to no
/// frame handed out yet.
pub struct FrameReader {
    pending: Vec<u8>,
}

impl FrameReader {
    /// The bytes that arrived and were not handed out.
    pub closed spec fn pending(&self) -> Seq<u8> {
        self.pending@
    }

    /// A reader that has received nothing.
    pub fn new() -> (reader: FrameReader)
        ensures
            reader.pending() == Seq::<u8>::empty(),
    {
        FrameReader { pending: Vec::new() }
    }

    /// Takes in bytes that arrived from the stream.
    pub fn receive(&mut self, chunk: &[u8])
        ensures
            final(self).pending() == old(self).pending() + chunk@,
    {
        append(&mut self.pending, chunk);
    }

    /// Hands out the next whole frame, without its delimiter.
    ///
    /// Returns `None`, and changes nothing, exactly when no delimiter has
    /// arrived: the caller then waits for more bytes, or for the end of the
    /// stream.
    pub fn next_frame(&mut self) -> (message: Option<Vec<u8>>)
        ensures
            message is None <==> delimiter_free(old(self).pending()),
            match message {
                Some(message) => {
                    &&& message@ == first_frame(old(self).pending())
                    &&& final(self).pending() == behind_first_frame(old(self).pending())
                },
                None => final(self).pending() == old(self).pending(),
            },
    {
        match find_delimiter(self.pending.as_slice()) {
            Some(end) => {
                let mut message = self.pending.split_off(end);
                std::mem::swap(&mut self.pending, &mut message);
                self.pending.remove(0);
                assert(self.pending@ =~= old(self).pending@.skip(end + 1));
                assert(message@ =~= old(self).pending@.take(end as int));
                assert(old(self).pending@[end as int] == DELIMITER);
                Some(message)
            },
            None => None,
        }
    }

    /// Hands out every whole frame that has arrived, in order, and keeps the
    /// start of the frame whose delimiter has not.
    pub fn next_frames(&mut self) -> (messages: Vec<Vec<u8>>)
        ensures
            message_views(messages@) == whole_frames(old(self).pending()),
            final(self).pending() == remainder(old(self).pending()),
    {
        let mut messages: Vec<Vec<u8>> = Vec::new();
        loop
            invariant
                whole_frames(old(self).pending()) == message_views(messages@) + whole_frames(
                    self.pending(),
                ),
                remainder(old(self).pending()) == remainder(self.pending()),
            ensures
                message_views(messages@) == whole_frames(old(self).pending()),
                self.pending() == remainder(old(self).pending()),
            decreases self.pending().len(),
        {
            let ghost before = self.pending();
            let ghost read = message_views(messages@);
            match self.next_frame() {
                Some(message) => {
                    proof {
                        lemma_first_frame_exists(before);
                    }
                    messages.push(message);
                    assert(message_views(messages@) =~= read + seq![first_frame(before)]);
                    assert(read + (seq![first_frame(before)] + whole_frames(self.pending()))
                        =~= (read + seq![first_frame(before)]) + whole_frames(self.pending()));
                },
                None => {
                    assert(read + whole_frames(before) =~= read);
                    break ;
                },
            }
        }
        messages
    }

    /// Hands out what the stream held when it ended: the next whole frame if
    /// there is one, else the bytes that arrived behind the last delimiter.
    ///
    /// Returns `None` exactly when nothing is pending: the stream is closed
    /// and has no more to give.
    pub fn finish(&mut self) -> (message: Option<Vec<u8>>)
        ensures
            message is None <==> old(self).pending().len() == 0,
            match message {
                Some(message) => if delimiter_free(old(self).pending()) {
                    &&& message@ == old(self).pending()
                    &&& final(self).pending() == Seq::<u8>::empty()
                } else {
                    &&& message@ == first_frame(old(self).pending())
                    &&& final(self).pending() == behind_first_frame(old(self).pending())
                },
                None => final(self).pending() == old(self).pending(),
            },
    {
        match self.next_frame() {
            Some(message) => Some(message),
            None => if self.pending.len() == 0 {
                None
            } else {
                let mut message: Vec<u8> = Vec::new();
                std::mem::swap(&mut self.pending, &mut message);
                Some(message)
            },
        }
    }
}

/// Applies a conversion, and keeps what the conversion promises of its result.
fn convert<A, B, F: FnOnce(A) -> B>(conversion: F, value: A) -> (converted: B)
    requires
        call_requires(conversion, (value,)),
    ensures
        call_ensures(conversion, (value,), converted),
{
    conversion(value)
}

/// A duplex channel of whole, typed messages: inbound ones of type `I`, which
/// are made from the bytes of a frame, and outbound ones of type `O`, which
/// are turned into the bytes of a frame.
pub struct Connection<I, O> {
    reader: FrameReader,
    input_frame: PhantomData<I>,
    output_frame: PhantomData<O>,
}

impl<I: From<Vec<u8>>, O: Into<Vec<u8>>> Connection<I, O> {
    /// The bytes that arrived and belong to no message read yet.
    pub closed spec fn pending(&self) -> Seq<u8> {
        self.reader.pending()
    }

    /// A connection over a stream on which nothing has arrived.
    pub fn new() -> (connection: Self)
        ensures
            connection.pending() == Seq::<u8>::empty(),
    {
        Connection {
            reader: FrameReader::new(),
            input_frame: PhantomData,
            output_frame: PhantomData,
        }
    }

    /// Turns `message` into the bytes to put on the wire: what the message
    /// converts to, then the delimiter. The caller writes them in one piece
    /// and flushes.
    pub fn write(&self, message: O) -> (bytes: Vec<u8>)
        ensures
            bytes@.len() > 0,
            bytes@.last() == DELIMITER,
            made_into(message, bytes@.drop_last()),
    {
        let raw: Vec<u8> = convert(O::into, message);
        let bytes = frame(raw.as_slice());
        assert(bytes@.drop_last() =~= raw@);
        bytes
    }

    /// Takes in bytes that arrived from the stream.
    pub fn receive(&mut self, chunk: &[u8])
        ensures
            final(self).pending() == old(self).pending() + chunk@,
    {
        self.reader.receive(chunk);
    }

    /// Reads the next message: the conversion of the next whole frame.
    ///
    /// Returns `None`, and changes nothing, exactly when no delimiter has
    /// arrived. Bytes that do not hold a message of type `I` are the business
    /// of the conversion: the connection goes on.
    pub fn read(&mut self) -> (message: Option<I>)
        ensures
            message is None <==> delimiter_free(old(self).pending()),
            match message {
                Some(message) => {
                    &&& made_from(first_frame(old(self).pending()), message)
                    &&& final(self).pending() == behind_first_frame(old(self).pending())
                },
                None => final(self).pending() == old(self).pending(),
            },
    {
        match self.reader.next_frame() {
            Some(raw) => {
                let ghost frame = raw;
                let message = convert(I::from, raw);
                assert(frame@ == first_frame(old(self).pending()) && call_ensures(
                    I::from,
                    (frame,),
                    message,
                ));
                Some(message)
            },
            None => None,
        }
    }

    /// Reads the last message of a stream that has ended: the conversion of
    /// the next whole frame if there is one, else of the bytes that arrived
    /// behind the last delimiter.
    ///
    /// Returns `None` exactly when nothing is pending: the stream is closed,
    /// and the caller reports that as its transport's error.
    pub fn read_at_end(&mut self) -> (message: Option<I>)
        ensures
            message is None <==> old(self).pending().len() == 0,
            match message {
                Some(message) => if delimiter_free(old(self).pending()) {
                    &&& made_from(old(self).pending(), message)
                    &&& final(self).pending() == Seq::<u8>::empty()
                } else {
                    &&& made_from(first_frame(old(self).pending()), message)
                    &&& final(self).pending() == behind_first_frame(old(self).pending())
                },
                None => final(self).pending() == old(self).pending(),
            },
    {
        match self.reader.finish() {
            Some(raw) => {
                let ghost frame = raw;
                let message = convert(I::from, raw);
                assert(call_ensures(I::from, (frame,), message));
                Some(message)
            },
            None => None,
        }
    }
}

/// The first frame of a stream ends at one place only.
pub proof fn lemma_first_frame_is_unique(bytes: Seq<u8>, a: int, b: int)
    requires
        first_frame_ends_at(bytes, a),
        first_frame_ends_at(bytes, b),
    ensures
        a == b,
{
    if a < b {
        assert(bytes.take(b)[a] == bytes[a]);
    } else if b < a {
        assert(bytes.take(a)[b] == bytes[b]);
    }
}

/// Bytes that hold a delimiter hold a first frame: one of the delimiters is
/// the first.
pub proof fn lemma_first_frame_exists(bytes: Seq<u8>)
    requires
        !delimiter_free(bytes),
    ensures
        first_frame_ends_at(bytes, first_frame_end(bytes)),
        behind_first_frame(bytes).len() < bytes.len(),
    decreases bytes.len(),
{
    let i = choose|i: int| 0 <= i < bytes.len() && bytes[i] == DELIMITER;
    if delimiter_free(bytes.take(i)) {
        assert(first_frame_ends_at(bytes, i));
    } else {
        let head = bytes.take(i);
        lemma_first_frame_exists(head);
        let end = first_frame_end(head);
        assert(head[end] == bytes[end]);
        assert(head.take(end) =~= bytes.take(end));
        assert(first_frame_ends_at(bytes, end));
    }
}

/// A frame reads back as its message: whatever follows it on the wire, the
/// first frame of a framed message that holds no delimiter is that message,
/// and what follows is left untouched.
pub proof fn lemma_frame_reads_back(message: Seq<u8>, rest: Seq<u8>)
    requires
        delimiter_free(message),
    ensures
        !delimiter_free(framed(message) + rest),
        first_frame(framed(message) + rest) == message,
        behind_first_frame(framed(message) + rest) == rest,
{
    let bytes = framed(message) + rest;
    let end = message.len() as int;
    assert(bytes[end] == DELIMITER);
    assert(bytes.take(end) =~= message);
    assert(bytes.skip(end + 1) =~= rest);
    assert(first_frame_ends_at(bytes, end));
    lemma_first_frame_is_unique(bytes, end, first_frame_end(bytes));
}

/// Frames written one after the other arrive intact and in order: a stream
/// made of the frames of messages that hold no delimiter, followed by the
/// start of a further frame, splits into exactly those messages and that
/// start.
pub proof fn lemma_wire_reads_back(messages: Seq<Seq<u8>>, tail: Seq<u8>)
    requires
        forall|i: int| 0 <= i < messages.len() ==> delimiter_free(#[trigger] messages[i]),
        delimiter_free(tail),
    ensures
        whole_frames(wire(messages) + tail) == messages,
        remainder(wire(messages) + tail) == tail,
    decreases messages.len(),
{
    let bytes = wire(messages) + tail;
    if messages.len() == 0 {
        assert(bytes =~= tail);
        assert(whole_frames(bytes) =~= messages);
    } else {
        let first = messages[0];
        let rest = wire(messages.drop_first()) + tail;
        assert(bytes =~= framed(first) + rest);
        lemma_frame_reads_back(first, rest);
        assert forall|i: int| 0 <= i < messages.drop_first().len() implies delimiter_free(
            #[trigger] messages.drop_first()[i],
        ) by {
            assert(messages.drop_first()[i] == messages[i + 1]);
        }
        lemma_wire_reads_back(messages.drop_first(), tail);
        assert(whole_frames(bytes) =~= seq![first] + messages.drop_first());
        assert(seq![first] + messages.drop_first() =~= messages);
    }
}

/// Writes that take turns arrive whole, in whatever order they took turns:
/// if the frames of the messages `written`, none of which holds a delimiter,
/// went on the wire one after the other in the order `arrived`, then the
/// stream splits into exactly the messages as they arrived, each of them whole
/// and none lost, doubled or mixed with another.
pub proof fn lemma_serialized_writes_arrive_whole(written: Seq<Seq<u8>>, arrived: Seq<Seq<u8>>)
    requires
        forall|i: int| 0 <= i < written.len() ==> delimiter_free(#[trigger] written[i]),
        arrived.to_multiset() == written.to_multiset(),
    ensures
        whole_frames(wire(arrived)) == arrived,
        whole_frames(wire(arrived)).to_multiset() == written.to_multiset(),
        remainder(wire(arrived)) == Seq::<u8>::empty(),
{
    written.to_multiset_ensures();
    arrived.to_multiset_ensures();
    assert forall|i: int| 0 <= i < arrived.len() implies delimiter_free(#[trigger] arrived[i]) by {
        assert(arrived.contains(arrived[i]));
        assert(arrived.to_multiset().count(arrived[i]) > 0);
        assert(written.to_multiset().count(arrived[i]) > 0);
        assert(written.contains(arrived[i]));
        let k = choose|k: int| 0 <= k < written.len() && written[k] == arrived[i];
        assert(delimiter_free(written[k]));
    }
    lemma_wire_reads_back(arrived, Seq::empty());
    assert(wire(arrived) + Seq::<u8>::empty() =~= wire(arrived));
}

} // verus!
