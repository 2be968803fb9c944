//! Reading length-prefixed frames off a byte stream.
//!
//! A frame is a header of four bytes, the length of the payload big-endian,
//! and then the payload. The reader here is the part that decides: it is
//! told what the stream gave and says what to do next. Reading the stream
//! itself is left to the caller.

use crate::contribution::LevelUpdate;
use crate::wire::{be32, from_be32, parse_update, DeserializeError};
use vstd::prelude::*;

verus! {

/// The capacity a reader's buffer starts with.
pub const INITIAL_CAPACITY: usize = 1024;

/// The header of a frame.
#[derive(Clone, Copy, Debug, PartialEq, Eq, Structural)]
pub struct Header {
    /// The length of the payload in bytes.
    pub size: u32,
}

impl Header {
    /// The length of a header on the wire.
    pub const SIZE: usize = 4;

    /// The header of a payload of `size` bytes.
    pub fn new(size: u32) -> (r: Self)
        ensures
            r.size == size,
    {
        Header { size }
    }

    /// The four bytes of the header.
    pub fn serialize_to_vec(&self) -> (r: Vec<u8>)
        ensures
            r@ == be32(self.size),
    {
        let mut out: Vec<u8> = Vec::new();
        out.push((self.size / 16777216) as u8);
        out.push(((self.size / 65536) % 256) as u8);
        out.push(((self.size / 256) % 256) as u8);
        out.push((self.size % 256) as u8);
        assert(out@ =~= be32(self.size));
        out
    }

    /// The header that the first four of `bytes` hold; an error if there
    /// are fewer.
    pub fn deserialize_from_vec(bytes: &[u8]) -> (r: Result<Header, DeserializeError>)
        ensures
            bytes@.len() < 4 ==> r == Err::<Header, DeserializeError>(
                DeserializeError::UnexpectedEnd,
            ),
            bytes@.len() >= 4 ==> r == Ok::<Header, DeserializeError>(
                Header { size: from_be32(bytes@) },
            ),
    {
        if bytes.len() < 4 {
            return Err(DeserializeError::UnexpectedEnd);
        }
        let size = (bytes[0] as u32) * 16777216 + (bytes[1] as u32) * 65536 + (bytes[2] as u32)
            * 256 + bytes[3] as u32;
        Ok(Header { size })
    }
}

/// A header written and read back is the same header.
pub proof fn law_header_round_trip(size: u32)
    ensures
        be32(size).len() == 4,
        from_be32(be32(size)) == size,
{
}

/// The bytes of the frame that carries `payload`.
pub open spec fn frame_bytes(payload: Seq<u8>) -> Seq<u8> {
    be32(payload.len() as u32) + payload
}

/// The frame that carries `payload`: its header, then the payload. `None`
/// if the payload is longer than a header can say.
pub fn frame(payload: &[u8]) -> (r: Option<Vec<u8>>)
    ensures
        r is Some <==> payload@.len() <= u32::MAX,
        r matches Some(bytes) ==> bytes@ == frame_bytes(payload@),
{
    if payload.len() > u32::MAX as usize {
        return None;
    }
    let mut out = Header::new(payload.len() as u32).serialize_to_vec();
    let ghost head = out@;
    let mut i: usize = 0;
    while i < payload.len()
        invariant
            i <= payload.len(),
            out@ == head + payload@.subrange(0, i as int),
        decreases payload.len() - i,
    {
        out.push(payload[i]);
        assert(out@ =~= head + payload@.subrange(0, i + 1));
        i = i + 1;
    }
    assert(payload@.subrange(0, payload@.len() as int) =~= payload@);
    Some(out)
}

/// Where a reader stands: before a header, or within the payload that the
/// header announced.
#[derive(Clone, Copy, Debug, PartialEq, Eq, Structural)]
pub enum ReaderState {
    Head,
    Data { header: Header },
}

/// What the byte stream gave when it was asked for more.
#[derive(Debug)]
pub enum Input<'a> {
    /// These bytes, in order, next in the stream.
    Bytes(&'a [u8]),
    /// The stream has ended.
    End,
    /// Reading failed.
    Failed,
    /// Nothing yet.
    NotReady,
}

/// What `Input` stands for.
pub enum InputView {
    Bytes(Seq<u8>),
    End,
    Failed,
    NotReady,
}

impl<'a> View for Input<'a> {
    type V = InputView;

    open spec fn view(&self) -> InputView {
        match *self {
            Input::Bytes(b) => InputView::Bytes(b@),
            Input::End => InputView::End,
            Input::Failed => InputView::Failed,
            Input::NotReady => InputView::NotReady,
        }
    }
}

/// What a reader says after it was told what the stream gave.
#[derive(Debug)]
pub enum Step {
    /// Nothing to deliver: read on, or wait for the stream.
    Wait,
    /// A header is read: ask again at once.
    Again,
    /// The payload of a whole frame.
    Message(Vec<u8>),
    /// The stream ended between frames.
    Finished,
    /// The stream cannot be read on.
    Error(DeserializeError),
}

/// What a `Step` stands for.
pub enum StepView {
    Wait,
    Again,
    Message(Seq<u8>),
    Finished,
    Error(DeserializeError),
}

impl View for Step {
    type V = StepView;

    open spec fn view(&self) -> StepView {
        match *self {
            Step::Wait => StepView::Wait,
            Step::Again => StepView::Again,
            Step::Message(m) => StepView::Message(m@),
            Step::Finished => StepView::Finished,
            Step::Error(e) => StepView::Error(e),
        }
    }
}

/// A reader as a value: where it stands, and what it has buffered.
pub struct ReaderView {
    pub state: ReaderState,
    pub buffer: Seq<u8>,
}

/// What follows from one input: the reader after it, how many bytes of the
/// input were taken, and what the reader says.
pub struct Outcome {
    pub reader: ReaderView,
    pub consumed: nat,
    pub step: StepView,
}

impl ReaderView {
    /// The reader before the first frame.
    pub open spec fn start() -> ReaderView {
        ReaderView { state: ReaderState::Head, buffer: Seq::empty() }
    }

    /// How many bytes the reader has to hold before it can go on: those of
    /// a header, or those of the payload announced.
    pub open spec fn wanted(self) -> nat {
        match self.state {
            ReaderState::Head => 4,
            ReaderState::Data { header } => header.size as nat,
        }
    }

    /// The reader never holds more than it wants.
    pub open spec fn wf(self) -> bool {
        self.buffer.len() <= self.wanted()
    }

    /// How many bytes are still missing.
    pub open spec fn missing(self) -> nat {
        if self.buffer.len() <= self.wanted() {
            (self.wanted() - self.buffer.len()) as nat
        } else {
            0
        }
    }

    /// The reader once the bytes it wanted are all there: after a header it
    /// stands in the payload, and asks to be asked again; after a payload it
    /// hands the payload out and stands before the next header. Its buffer
    /// is empty either way.
    pub open spec fn complete(self, consumed: nat) -> Outcome {
        match self.state {
            ReaderState::Head => Outcome {
                reader: ReaderView {
                    state: ReaderState::Data { header: Header { size: from_be32(self.buffer) } },
                    buffer: Seq::empty(),
                },
                consumed,
                step: StepView::Again,
            },
            ReaderState::Data { header } => Outcome {
                reader: ReaderView::start(),
                consumed,
                step: StepView::Message(self.buffer),
            },
        }
    }

    /// What follows from `input`.
    ///
    /// Bytes are taken as far as they are wanted. Once all that is wanted is
    /// there, the reader goes on as `complete` says. The end of the stream
    /// between frames finishes the reading; within a frame it is an error,
    /// and so is a failed read. The reader is left as it was in each of
    /// these, and where nothing came.
    pub open spec fn advance(self, input: InputView) -> Outcome {
        let taken = match input {
            InputView::Bytes(b) => if b.len() <= self.missing() {
                b
            } else {
                b.take(self.missing() as int)
            },
            _ => Seq::empty(),
        };
        let filled = ReaderView { state: self.state, buffer: self.buffer + taken };
        if filled.buffer.len() >= self.wanted() {
            filled.complete(taken.len())
        } else {
            match input {
                InputView::Bytes(_) => Outcome {
                    reader: filled,
                    consumed: taken.len(),
                    step: StepView::Wait,
                },
                InputView::NotReady => Outcome { reader: self, consumed: 0, step: StepView::Wait },
                InputView::End => Outcome {
                    reader: self,
                    consumed: 0,
                    step: if self.state == ReaderState::Head && self.buffer.len() == 0 {
                        StepView::Finished
                    } else {
                        StepView::Error(DeserializeError::UnexpectedEnd)
                    },
                },
                InputView::Failed => Outcome {
                    reader: self,
                    consumed: 0,
                    step: StepView::Error(DeserializeError::UnexpectedEnd),
                },
            }
        }
    }
}

/// The growable byte buffer of `bytes`, opaque to the verifier.
#[verifier::external_type_specification]
#[verifier::external_body]
pub struct ExBytesMut(bytes::BytesMut);

/// The bytes that a buffer holds, first to last.
pub uninterp spec fn buffered(buffer: bytes::BytesMut) -> Seq<u8>;

/// An empty buffer with room for `capacity` bytes, by
/// `BytesMut::with_capacity`.
#[verifier::external_body]
fn buffer_with_capacity(capacity: usize) -> (r: bytes::BytesMut)
    ensures
        buffered(r) == Seq::<u8>::empty(),
{
    bytes::BytesMut::with_capacity(capacity)
}

/// The number of bytes in the buffer, by `BytesMut::len`.
#[verifier::external_body]
fn buffer_len(buffer: &bytes::BytesMut) -> (r: usize)
    ensures
        r == buffered(*buffer).len(),
{
    buffer.len()
}

/// Appends `bytes` to the buffer, by `BytesMut::extend_from_slice`, which
/// refuses a length beyond what a machine word counts.
#[verifier::external_body]
fn buffer_extend(buffer: &mut bytes::BytesMut, bytes: &[u8])
    requires
        buffered(*old(buffer)).len() + bytes@.len() <= usize::MAX,
    ensures
        buffered(*final(buffer)) == buffered(*old(buffer)) + bytes@,
{
    buffer.extend_from_slice(bytes)
}

/// Empties the buffer, by `BytesMut::clear`.
#[verifier::external_body]
fn buffer_clear(buffer: &mut bytes::BytesMut)
    ensures
        buffered(*final(buffer)) == Seq::<u8>::empty(),
{
    buffer.clear()
}

/// A copy of the bytes in the buffer, through the buffer's `Deref` to a
/// slice.
#[verifier::external_body]
fn buffer_to_vec(buffer: &bytes::BytesMut) -> (r: Vec<u8>)
    ensures
        r@ == buffered(*buffer),
{
    buffer.to_vec()
}

/// Reads frames: collects the bytes of a header, then those of the payload
/// it announces, and hands the payload out.
pub struct MessageReader {
    state: ReaderState,
    buffer: bytes::BytesMut,
}

impl View for MessageReader {
    type V = ReaderView;

    closed spec fn view(&self) -> ReaderView {
        ReaderView { state: self.state, buffer: buffered(self.buffer) }
    }
}

impl MessageReader {
    /// A reader before the first frame.
    pub fn new() -> (r: Self)
        ensures
            r@ == ReaderView::start(),
            r@.wf(),
    {
        MessageReader { state: ReaderState::Head, buffer: buffer_with_capacity(INITIAL_CAPACITY) }
    }

    /// The reader for another kind of message on the same stream: it keeps
    /// what is buffered and stands before a header.
    pub fn into_other(self) -> (r: Self)
        ensures
            r@ == (ReaderView { state: ReaderState::Head, buffer: self@.buffer }),
            self@.state == ReaderState::Head && self@.wf() ==> r@.wf(),
    {
        MessageReader { state: ReaderState::Head, buffer: self.buffer }
    }

    /// Where the reader stands.
    pub fn state(&self) -> (r: ReaderState)
        ensures
            r == self@.state,
    {
        self.state
    }

    /// How many bytes the reader has to hold before it can go on.
    pub fn wanted(&self) -> (r: usize)
        ensures
            r == self@.wanted(),
    {
        match self.state {
            ReaderState::Head => Header::SIZE,
            ReaderState::Data { header } => header.size as usize,
        }
    }

    /// How many bytes are still missing.
    pub fn missing(&self) -> (r: usize)
        ensures
            r == self@.missing(),
    {
        let wanted = self.wanted();
        let held = buffer_len(&self.buffer);
        if held <= wanted {
            wanted - held
        } else {
            0
        }
    }

    /// Takes what the stream gave and says what to do next, and how many
    /// of the bytes given were taken.
    pub fn advance(&mut self, input: Input) -> (r: (usize, Step))
        ensures
            final(self)@ == old(self)@.advance(input@).reader,
            r.0 == old(self)@.advance(input@).consumed,
            r.1@ == old(self)@.advance(input@).step,
            old(self)@.wf() ==> final(self)@.wf(),
    {
        let wanted = self.wanted();
        let held = buffer_len(&self.buffer);
        let missing = self.missing();
        let mut consumed: usize = 0;
        match input {
            Input::Bytes(b) => {
                if b.len() <= missing {
                    buffer_extend(&mut self.buffer, b);
                    consumed = b.len();
                } else {
                    let part = vstd::slice::slice_subrange(b, 0, missing);
                    buffer_extend(&mut self.buffer, part);
                    consumed = missing;
                }
            },
            _ => {
                assert(buffered(self.buffer) + Seq::<u8>::empty() =~= buffered(self.buffer));
            },
        }
        if held >= wanted || consumed >= wanted - held {
            let payload = buffer_to_vec(&self.buffer);
            buffer_clear(&mut self.buffer);
            match self.state {
                ReaderState::Head => {
                    // Any four bytes make a header, and no fewer are here.
                    let header = match Header::deserialize_from_vec(payload.as_slice()) {
                        Ok(header) => header,
                        Err(e) => {
                            return (consumed, Step::Error(e));
                        },
                    };
                    self.state = ReaderState::Data { header };
                    (consumed, Step::Again)
                },
                ReaderState::Data { header } => {
                    self.state = ReaderState::Head;
                    (consumed, Step::Message(payload))
                },
            }
        } else {
            match input {
                Input::Bytes(_) => (consumed, Step::Wait),
                Input::NotReady => (0, Step::Wait),
                Input::End => {
                    let clean = match self.state {
                        ReaderState::Head => held == 0,
                        ReaderState::Data { header } => false,
                    };
                    if clean {
                        (0, Step::Finished)
                    } else {
                        (0, Step::Error(DeserializeError::unexpected_end()))
                    }
                },
                Input::Failed => (0, Step::Error(DeserializeError::unexpected_end())),
            }
        }
    }
}

/// What reading a level update off the stream comes to.
#[derive(Debug)]
pub enum UpdateStep {
    /// Nothing to deliver: read on, or wait for the stream.
    Wait,
    /// A header is read: ask again at once.
    Again,
    /// A level update.
    Update(LevelUpdate),
    /// The stream ended between frames.
    Finished,
    /// The frame does not hold a level update, or the stream cannot be
    /// read on.
    Error(DeserializeError),
}

/// The level update in the payload that a reader handed out.
///
/// A payload that does not decode is an error. The reader stands before
/// the next header by then, so reading goes on with the next frame.
pub fn decode_step(step: Step) -> (r: UpdateStep)
    ensures
        match step@ {
            StepView::Wait => r is Wait,
            StepView::Again => r is Again,
            StepView::Finished => r is Finished,
            StepView::Error(e) => r == UpdateStep::Error(e),
            StepView::Message(payload) => match parse_update(payload) {
                Ok(u) => r matches UpdateStep::Update(m) && m.wire() == u,
                Err(e) => r == UpdateStep::Error(e),
            },
        },
{
    match step {
        Step::Wait => UpdateStep::Wait,
        Step::Again => UpdateStep::Again,
        Step::Finished => UpdateStep::Finished,
        Step::Error(e) => UpdateStep::Error(e),
        Step::Message(payload) => match LevelUpdate::deserialize_from_vec(payload.as_slice()) {
            Ok(update) => UpdateStep::Update(update),
            Err(e) => UpdateStep::Error(e),
        },
    }
}

/// A frame fed to a reader that stands before a header comes out as its
/// payload: the header first, which makes the reader ask again, then the
/// payload; and the reader stands before the next header, with nothing
/// buffered.
pub proof fn law_frame_read_back(payload: Seq<u8>)
    requires
        payload.len() <= u32::MAX,
    ensures
        ({
            let bytes = frame_bytes(payload);
            let first = ReaderView::start().advance(InputView::Bytes(bytes));
            let second = first.reader.advance(InputView::Bytes(bytes.skip(first.consumed as int)));
            &&& first.step == StepView::Again
            &&& first.consumed == 4
            &&& second.step == StepView::Message(payload)
            &&& second.consumed == payload.len()
            &&& second.reader == ReaderView::start()
        }),
{
    let bytes = frame_bytes(payload);
    let size = payload.len() as u32;
    law_header_round_trip(size);
    let first = ReaderView::start().advance(InputView::Bytes(bytes));
    assert(ReaderView::start().missing() == 4);
    assert(Seq::<u8>::empty() + bytes.take(4) =~= be32(size));
    assert(bytes.take(4) =~= be32(size));
    assert(first.reader.state == ReaderState::Data { header: Header { size } });
    assert(bytes.skip(4) =~= payload);
    assert(Seq::<u8>::empty() + payload =~= payload);
}

/// Bytes that come in two parts come to what the same bytes in one part come
/// to: where the first part does not fill the reader, it makes the reader
/// wait, and the second part leaves the reader, and has it say, what both
/// parts together would have; and as many bytes are taken in all.
pub proof fn law_parts_add_up(reader: ReaderView, a: Seq<u8>, b: Seq<u8>)
    requires
        reader.wf(),
        reader.buffer.len() + a.len() < reader.wanted(),
    ensures
        ({
            let first = reader.advance(InputView::Bytes(a));
            let second = first.reader.advance(InputView::Bytes(b));
            let whole = reader.advance(InputView::Bytes(a + b));
            &&& first.step == StepView::Wait
            &&& first.consumed == a.len()
            &&& second.reader == whole.reader
            &&& second.step == whole.step
            &&& first.consumed + second.consumed == whole.consumed
        }),
{
    let first = reader.advance(InputView::Bytes(a));
    let missing = reader.missing();
    let rest = (missing - a.len()) as nat;
    assert(first.reader.buffer =~= reader.buffer + a);
    assert(first.reader.missing() == rest);
    if b.len() <= rest {
        assert(reader.buffer + a + b =~= reader.buffer + (a + b));
    } else {
        assert((a + b).take(missing as int) =~= a + b.take(rest as int));
        assert(reader.buffer + a + b.take(rest as int) =~= reader.buffer + (a + b.take(
            rest as int,
        )));
    }
}

/// The bytes of the frames that carry `payloads`, one after another.
pub open spec fn frames_bytes(payloads: Seq<Seq<u8>>) -> Seq<u8>
    decreases payloads.len(),
{
    if payloads.len() == 0 {
        Seq::empty()
    } else {
        frame_bytes(payloads[0]) + frames_bytes(payloads.skip(1))
    }
}

/// What a reader has handed out and where it stands after it was given
/// `bytes`, asked again as long as it asks to be, and given what was left
/// of the bytes each time.
pub struct Reading {
    pub messages: Seq<Seq<u8>>,
    pub reader: ReaderView,
}

/// How far a reader is from waiting: by the bytes it can still be given,
/// and within a payload by one more step.
pub open spec fn reading_rank(reader: ReaderView) -> nat {
    match reader.state {
        ReaderState::Head => 0,
        ReaderState::Data { header } => 1,
    }
}

/// The reading of `bytes` by `reader`, which holds less than it wants
/// unless it stands before a payload of no bytes.
pub open spec fn read_on(reader: ReaderView, bytes: Seq<u8>) -> Reading
    decreases bytes.len(), reading_rank(reader),
{
    let out = reader.advance(InputView::Bytes(bytes));
    let rest = bytes.skip(out.consumed as int);
    match out.step {
        StepView::Again => if rest.len() < bytes.len() {
            read_on(out.reader, rest)
        } else {
            Reading { messages: Seq::empty(), reader: out.reader }
        },
        StepView::Message(m) => if rest.len() < bytes.len() || reading_rank(out.reader)
            < reading_rank(reader) {
            let more = read_on(out.reader, rest);
            Reading { messages: seq![m] + more.messages, reader: more.reader }
        } else {
            Reading { messages: seq![m], reader: out.reader }
        },
        _ => Reading { messages: Seq::empty(), reader: out.reader },
    }
}

/// A reader that stands before a header and is given a frame and more
/// hands out the payload of the frame and reads on with the rest.
proof fn lemma_read_frame(payload: Seq<u8>, rest: Seq<u8>)
    requires
        payload.len() <= u32::MAX,
    ensures
        read_on(ReaderView::start(), frame_bytes(payload) + rest).messages == seq![payload]
            + read_on(ReaderView::start(), rest).messages,
        read_on(ReaderView::start(), frame_bytes(payload) + rest).reader == read_on(
            ReaderView::start(),
            rest,
        ).reader,
{
    let bytes = frame_bytes(payload) + rest;
    let size = payload.len() as u32;
    law_header_round_trip(size);
    let first = ReaderView::start().advance(InputView::Bytes(bytes));
    assert(ReaderView::start().missing() == 4);
    assert(bytes.take(4) =~= be32(size));
    assert(Seq::<u8>::empty() + bytes.take(4) =~= be32(size));
    assert(first.step == StepView::Again);
    assert(first.consumed == 4);
    let in_data = first.reader;
    assert(in_data == ReaderView {
        state: ReaderState::Data { header: Header { size } },
        buffer: Seq::empty(),
    });
    let after_header = bytes.skip(4);
    assert(after_header =~= payload + rest);
    let second = in_data.advance(InputView::Bytes(after_header));
    assert(in_data.missing() == payload.len());
    if after_header.len() <= payload.len() {
        assert(rest.len() == 0);
        assert(after_header =~= payload);
        assert(Seq::<u8>::empty() + after_header =~= payload);
    } else {
        assert(after_header.take(payload.len() as int) =~= payload);
        assert(Seq::<u8>::empty() + after_header.take(payload.len() as int) =~= payload);
    }
    assert(second.step == StepView::Message(payload));
    assert(second.consumed == payload.len());
    assert(second.reader == ReaderView::start());
    assert(after_header.skip(payload.len() as int) =~= rest);
    assert(reading_rank(second.reader) < reading_rank(in_data));
    assert(bytes.skip(first.consumed as int) == after_header);
    assert(after_header.len() < bytes.len());
    assert(read_on(ReaderView::start(), bytes) == read_on(in_data, after_header));
    assert(after_header.skip(second.consumed as int) == rest);
    let more = read_on(ReaderView::start(), rest);
    assert(read_on(in_data, after_header) == Reading {
        messages: seq![payload] + more.messages,
        reader: more.reader,
    });
}

/// Frames written one after another are read back as their payloads, in
/// order, and leave the reader before the next header with nothing
/// buffered.
pub proof fn law_frames_read_back(payloads: Seq<Seq<u8>>)
    requires
        forall|i: int| 0 <= i < payloads.len() ==> (#[trigger] payloads[i]).len() <= u32::MAX,
    ensures
        read_on(ReaderView::start(), frames_bytes(payloads)).messages == payloads,
        read_on(ReaderView::start(), frames_bytes(payloads)).reader == ReaderView::start(),
    decreases payloads.len(),
{
    if payloads.len() == 0 {
        let out = ReaderView::start().advance(InputView::Bytes(Seq::<u8>::empty()));
        assert(Seq::<u8>::empty() + Seq::<u8>::empty() =~= Seq::<u8>::empty());
        assert(out.step == StepView::Wait);
        assert(out.reader == ReaderView::start());
        assert(read_on(ReaderView::start(), frames_bytes(payloads)).messages =~= payloads);
    } else {
        let tail = payloads.skip(1);
        assert forall|i: int| 0 <= i < tail.len() implies (#[trigger] tail[i]).len() <= u32::MAX by {
            assert(tail[i] == payloads[i + 1]);
        }
        law_frames_read_back(tail);
        lemma_read_frame(payloads[0], frames_bytes(tail));
        assert(seq![payloads[0]] + tail =~= payloads);
    }
}

/// Where the stream ends, the reading ends: in order between two frames,
/// and with an error within one. The reader is left as it was.
pub proof fn law_end_of_stream(reader: ReaderView)
    requires
        reader.missing() > 0,
    ensures
        reader.advance(InputView::End).reader == reader,
        reader.advance(InputView::End).consumed == 0,
        reader.advance(InputView::End).step == (if reader == ReaderView::start() {
            StepView::Finished
        } else {
            StepView::Error(DeserializeError::UnexpectedEnd)
        }),
{
    assert(reader.buffer + Seq::<u8>::empty() =~= reader.buffer);
    if reader.state == ReaderState::Head && reader.buffer.len() == 0 {
        assert(reader.buffer =~= Seq::<u8>::empty());
    }
}

} // verus!
