//! The master's side of a line: what it transmits, what it makes of what it
//! hears, and when it has what it asked for. Putting bytes on a line and
//! waiting for them is its carrier's; every exchange here is a value that says
//! what to transmit and is told what was heard, or that nothing was.

use crate::address;
use crate::address::{Address, Reading};
use crate::bytes;
use crate::bytes::push_all;
use crate::device;
use crate::device::{Identity, answered, read_answer, read_request, write_requests, MAX_CHUNK};
use crate::error::HartError;
use crate::frame;
use crate::frame::{Frame, FrameView, Kind, MAX_DATA};
use crate::stream;
use crate::text;
use crate::text::write_digits;
use vstd::prelude::*;
use vstd::slice::slice_to_vec;
use vstd::string::*;

verus! {

/// The command that writes one chunk, as a wired frame carries it.
pub const WRITE_COMMAND: u8 = 130;

/// The command that reads one chunk, as a wired frame carries it.
pub const READ_COMMAND: u8 = 131;

/// The command that identifies a device, as a wired frame carries it.
pub const IDENTIFY_COMMAND: u8 = 0;

/// How long a master waits for an answer if not told otherwise, in
/// nanoseconds: one second.
pub const ONE_SECOND: u128 = 1_000_000_000;

/// A Stream that arrived, and where it came from.
#[derive(Debug, PartialEq, Eq)]
pub struct Arrived {
    pub origin_uri: String,
    pub bytes: Vec<u8>,
}

/// What arrived, and from where.
#[verifier::ext_equal]
pub struct ArrivedView {
    pub origin_uri: Seq<char>,
    pub bytes: Seq<u8>,
}

impl View for Arrived {
    type V = ArrivedView;

    open spec fn view(&self) -> ArrivedView {
        ArrivedView { origin_uri: self.origin_uri@, bytes: self.bytes@ }
    }
}

/// Where an exchange goes once something was heard: it listens on, it
/// transmits what it asks next, or it is done.
#[derive(Debug, PartialEq, Eq)]
pub enum Step<M, T> {
    Listen(M),
    Transmit(M),
    Done(T),
}

/// What hearing something means to a master that asked a command.
pub enum Hearing {
    /// It is the answer, and this is its data.
    Answer(Seq<u8>),
    /// It was not an answer at all: listen on.
    Other,
    /// There will be no answer.
    Refused(HartError),
}

/// What was heard, if anything was.
pub open spec fn said(heard: Option<&[u8]>) -> Option<Seq<u8>> {
    match heard {
        Some(bytes) => Some(bytes@),
        None => None,
    }
}

/// What hearing `heard` means to a master that asked `command`. Silence, what
/// is not a frame, an answer to another command and a refusal end the
/// exchange; a burst or another master's request does not.
pub open spec fn hearing(command: u8, heard: Option<Seq<u8>>) -> Hearing {
    match heard {
        None => Hearing::Refused(HartError::NoAnswer),
        Some(bytes) => match frame::decodes(bytes) {
            Err(error) => Hearing::Refused(error),
            Ok(answer) => if answer.kind != Kind::Ack {
                Hearing::Other
            } else if answer.command != command {
                Hearing::Refused(HartError::AnswerToSomethingElse)
            } else {
                match device::status_read(answer.data) {
                    Ok(data) => Hearing::Answer(data),
                    Err(error) => Hearing::Refused(error),
                }
            },
        },
    }
}

/// The frame that asks the device at `address` `command` with `data`.
pub open spec fn asking(address: Address, command: u8, data: Seq<u8>) -> FrameView {
    FrameView { kind: Kind::Stx, address, command, data }
}

/// The data of the answer to `command`, `None` where what was heard was no
/// answer at all.
fn hear_answer(command: u8, heard: Option<&[u8]>) -> (answer: Result<Option<Vec<u8>>, HartError>)
    ensures
        match answer {
            Ok(Some(data)) => hearing(command, said(heard)) == Hearing::Answer(data@),
            Ok(None) => hearing(command, said(heard)) == Hearing::Other,
            Err(error) => hearing(command, said(heard)) == Hearing::Refused(error),
        },
{
    let bytes: &[u8] = match heard {
        None => {
            return Err(HartError::NoAnswer);
        },
        Some(bytes) => bytes,
    };
    let answer: Frame = match Frame::decode(bytes) {
        Err(error) => {
            return Err(error);
        },
        Ok(answer) => answer,
    };
    if answer.kind != Kind::Ack {
        return Ok(None);
    }
    if answer.command != command {
        return Err(HartError::AnswerToSomethingElse);
    }
    match answered(answer.data.as_slice()) {
        Ok(data) => Ok(Some(slice_to_vec(data))),
        Err(error) => Err(error),
    }
}

/// One question and its answer.
#[derive(Debug)]
pub struct Exchange {
    command: u8,
    frame: Vec<u8>,
}

/// What is asked, and the bytes that ask it.
#[verifier::ext_equal]
pub struct ExchangeView {
    pub command: u8,
    pub frame: Seq<u8>,
}

impl View for Exchange {
    type V = ExchangeView;

    closed spec fn view(&self) -> ExchangeView {
        ExchangeView { command: self.command, frame: self.frame@ }
    }
}

impl Exchange {
    /// What to put on the line.
    pub fn transmit(&self) -> (bytes: Vec<u8>)
        ensures
            bytes@ == self@.frame,
    {
        slice_to_vec(self.frame.as_slice())
    }

    /// Where the exchange goes now that `heard` was heard, or nothing was in
    /// time: done with the answer past its status bytes, or listening on.
    ///
    /// # Errors
    /// No answer in time, something that is not a frame, an answer to
    /// something else, or a response code that is not OK.
    pub fn hear(self, heard: Option<&[u8]>) -> (step: Result<Step<Exchange, Vec<u8>>, HartError>)
        ensures
            match step {
                Ok(Step::Done(data)) => hearing(self@.command, said(heard)) == Hearing::Answer(
                    data@,
                ),
                Ok(Step::Listen(next)) => hearing(self@.command, said(heard)) == Hearing::Other
                    && next@ == self@,
                Ok(Step::Transmit(_)) => false,
                Err(error) => hearing(self@.command, said(heard)) == Hearing::Refused(error),
            },
    {
        match hear_answer(self.command, heard) {
            Ok(Some(data)) => Ok(Step::Done(data)),
            Ok(None) => Ok(Step::Listen(self)),
            Err(error) => Err(error),
        }
    }

    /// Where an exchange that asks who the device is goes now.
    ///
    /// # Errors
    /// As [`Self::hear`], or an answer that is not one to command 0.
    pub fn hear_identity(self, heard: Option<&[u8]>) -> (step: Result<
        Step<Exchange, Identity>,
        HartError,
    >)
        ensures
            match hearing(self@.command, said(heard)) {
                Hearing::Answer(data) => match device::identity_in(data) {
                    Some(identity) => step == Ok::<Step<Exchange, Identity>, HartError>(
                        Step::Done(identity),
                    ),
                    None => step == Err::<Step<Exchange, Identity>, HartError>(
                        HartError::NotAnIdentity,
                    ),
                },
                Hearing::Other => step matches Ok(Step::Listen(next)) && next@ == self@,
                Hearing::Refused(error) => step == Err::<Step<Exchange, Identity>, HartError>(
                    error,
                ),
            },
    {
        match hear_answer(self.command, heard) {
            Ok(Some(data)) => match Identity::from_identify(data.as_slice()) {
                Ok(identity) => Ok(Step::Done(identity)),
                Err(error) => Err(error),
            },
            Ok(None) => Ok(Step::Listen(self)),
            Err(error) => Err(error),
        }
    }
}

/// A Stream on its way to a device, a request at a time.
#[derive(Debug)]
pub struct WriteStream {
    address: Address,
    requests: Vec<Vec<u8>>,
    next: usize,
}

/// The requests that write a Stream, and which is next.
#[verifier::ext_equal]
pub struct WriteView {
    pub address: Address,
    pub requests: Seq<Seq<u8>>,
    pub next: nat,
}

impl View for WriteStream {
    type V = WriteView;

    closed spec fn view(&self) -> WriteView {
        WriteView {
            address: self.address,
            requests: Seq::new(self.requests@.len(), |i: int| self.requests@[i]@),
            next: self.next as nat,
        }
    }
}

impl WriteView {
    /// There is a next request, and every request fits a frame.
    pub open spec fn wf(self) -> bool {
        &&& self.next < self.requests.len()
        &&& forall|i: int|
            0 <= i < self.requests.len() ==> #[trigger] self.requests[i].len() <= MAX_DATA
    }

    /// What is transmitted next.
    pub open spec fn transmitting(self) -> Seq<u8> {
        asking(self.address, WRITE_COMMAND, self.requests[self.next as int]).encoding()
    }

    /// Where hearing `heard` leads: past an answer to the next request, or
    /// done where there is none.
    pub open spec fn step(self, heard: Option<Seq<u8>>) -> Result<Step<WriteView, ()>, HartError> {
        match hearing(WRITE_COMMAND, heard) {
            Hearing::Answer(_) => if self.next + 1 == self.requests.len() {
                Ok(Step::Done(()))
            } else {
                Ok(Step::Transmit(WriteView { next: self.next + 1, ..self }))
            },
            Hearing::Other => Ok(Step::Listen(self)),
            Hearing::Refused(error) => Err(error),
        }
    }
}

/// The writing of `bytes` to the device at `address`, from its start.
pub open spec fn writing(address: Address, bytes: Seq<u8>) -> WriteView {
    WriteView {
        address,
        requests: Seq::new(
            stream::piece_count(bytes.len(), MAX_CHUNK as nat),
            |i: int| stream::chunk_of(bytes, MAX_CHUNK as nat, i as nat),
        ),
        next: 0,
    }
}

impl WriteStream {
    /// What to put on the line now.
    pub fn transmit(&self) -> (bytes: Vec<u8>)
        requires
            self@.wf(),
        ensures
            bytes@ == self@.transmitting(),
    {
        assert(self@.requests[self.next as int] == self.requests@[self.next as int]@);
        let request: Frame = Frame {
            kind: Kind::Stx,
            address: self.address.clone(),
            command: WRITE_COMMAND,
            data: slice_to_vec(self.requests[self.next].as_slice()),
        };
        request.encode()
    }

    /// Where the writing goes now that `heard` was heard, or nothing was in
    /// time.
    ///
    /// # Errors
    /// As [`Exchange::hear`].
    pub fn hear(self, heard: Option<&[u8]>) -> (step: Result<Step<WriteStream, ()>, HartError>)
        requires
            self@.wf(),
        ensures
            match step {
                Ok(Step::Done(done)) => self@.step(said(heard)) == Ok::<
                    Step<WriteView, ()>,
                    HartError,
                >(Step::Done(done)),
                Ok(Step::Listen(next)) => self@.step(said(heard)) == Ok::<
                    Step<WriteView, ()>,
                    HartError,
                >(Step::Listen(next@)) && next@.wf(),
                Ok(Step::Transmit(next)) => self@.step(said(heard)) == Ok::<
                    Step<WriteView, ()>,
                    HartError,
                >(Step::Transmit(next@)) && next@.wf(),
                Err(error) => self@.step(said(heard)) == Err::<Step<WriteView, ()>, HartError>(
                    error,
                ),
            },
    {
        match hear_answer(WRITE_COMMAND, heard) {
            Ok(Some(_)) => {
                assert(self@.requests.len() == self.requests.len());
                if self.next + 1 == self.requests.len() {
                    Ok(Step::Done(()))
                } else {
                    let next: usize = self.next + 1;
                    let further: WriteStream = WriteStream { next, ..self };
                    assert(further@ =~= WriteView { next: self@.next + 1, ..self@ });
                    Ok(Step::Transmit(further))
                }
            },
            Ok(None) => Ok(Step::Listen(self)),
            Err(error) => Err(error),
        }
    }
}

/// A Stream on its way from a device, a chunk at a time.
#[derive(Debug)]
pub struct ReadStream {
    line: String,
    address: Address,
    index: u32,
    bytes: Vec<u8>,
}

/// What has come of a Stream, and which chunk is next.
#[verifier::ext_equal]
pub struct ReadView {
    pub line: Seq<char>,
    pub address: Address,
    pub index: u32,
    pub bytes: Seq<u8>,
}

impl View for ReadStream {
    type V = ReadView;

    closed spec fn view(&self) -> ReadView {
        ReadView {
            line: self.line@,
            address: self.address,
            index: self.index,
            bytes: self.bytes@,
        }
    }
}

impl ReadView {
    /// The next chunk is one that a master still asks for.
    pub open spec fn wf(self) -> bool {
        self.index < u32::MAX
    }

    /// What is transmitted next.
    pub open spec fn transmitting(self) -> Seq<u8> {
        asking(self.address, READ_COMMAND, bytes::be_bytes(self.index)).encoding()
    }

    /// Where hearing `heard` leads: past a chunk to the next, or done where it
    /// says it is the last.
    pub open spec fn step(self, heard: Option<Seq<u8>>) -> Result<
        Step<ReadView, ArrivedView>,
        HartError,
    > {
        match hearing(READ_COMMAND, heard) {
            Hearing::Answer(data) => match device::chunk_in(data) {
                Err(error) => Err(error),
                Ok((last, chunk)) => if last {
                    Ok(
                        Step::Done(
                            ArrivedView {
                                origin_uri: origin_of(self.line, self.address) + "?command=131"@,
                                bytes: self.bytes + chunk,
                            },
                        ),
                    )
                } else if self.index + 1 == u32::MAX {
                    Err(HartError::EndlessStream)
                } else {
                    Ok(
                        Step::Transmit(
                            ReadView {
                                index: (self.index + 1) as u32,
                                bytes: self.bytes + chunk,
                                ..self
                            },
                        ),
                    )
                },
            },
            Hearing::Other => Ok(Step::Listen(self)),
            Hearing::Refused(error) => Err(error),
        }
    }
}

impl ReadStream {
    /// What to put on the line now.
    pub fn transmit(&self) -> (bytes: Vec<u8>)
        ensures
            bytes@ == self@.transmitting(),
    {
        let request: Frame = Frame {
            kind: Kind::Stx,
            address: self.address.clone(),
            command: READ_COMMAND,
            data: read_request(self.index),
        };
        request.encode()
    }

    /// Where the reading goes now that `heard` was heard, or nothing was in
    /// time.
    ///
    /// # Errors
    /// As [`Exchange::hear`], a chunk without its flags, or a device that never
    /// says "last".
    pub fn hear(self, heard: Option<&[u8]>) -> (step: Result<
        Step<ReadStream, Arrived>,
        HartError,
    >)
        requires
            self@.wf(),
        ensures
            match step {
                Ok(Step::Done(arrived)) => self@.step(said(heard)) == Ok::<
                    Step<ReadView, ArrivedView>,
                    HartError,
                >(Step::Done(arrived@)),
                Ok(Step::Listen(next)) => self@.step(said(heard)) == Ok::<
                    Step<ReadView, ArrivedView>,
                    HartError,
                >(Step::Listen(next@)) && next@.wf(),
                Ok(Step::Transmit(next)) => self@.step(said(heard)) == Ok::<
                    Step<ReadView, ArrivedView>,
                    HartError,
                >(Step::Transmit(next@)) && next@.wf(),
                Err(error) => self@.step(said(heard)) == Err::<
                    Step<ReadView, ArrivedView>,
                    HartError,
                >(error),
            },
    {
        match hear_answer(READ_COMMAND, heard) {
            Ok(Some(data)) => match read_answer(data.as_slice()) {
                Err(error) => Err(error),
                Ok((last, chunk)) => {
                    let ReadStream { line, address, index, bytes } = self;
                    let mut gathered: Vec<u8> = bytes;
                    push_all(&mut gathered, chunk);
                    if last {
                        let mut origin_uri: String = write_origin(line.as_str(), &address);
                        origin_uri.append("?command=131");
                        return Ok(Step::Done(Arrived { origin_uri, bytes: gathered }));
                    }
                    if index + 1 == u32::MAX {
                        return Err(HartError::EndlessStream);
                    }
                    let further: ReadStream = ReadStream {
                        line,
                        address,
                        index: index + 1,
                        bytes: gathered,
                    };
                    Ok(Step::Transmit(further))
                },
            },
            Ok(None) => Ok(Step::Listen(self)),
            Err(error) => Err(error),
        }
    }
}

/// `hart://<line>/<address>`.
pub open spec fn origin_of(line: Seq<char>, address: Address) -> Seq<char> {
    "hart://"@ + line + "/"@ + address.shown()
}

/// Writes `hart://<line>/<address>`.
fn write_origin(line: &str, address: &Address) -> (origin: String)
    ensures
        origin@ == origin_of(line@, *address),
{
    let mut out: String = "hart://".to_owned();
    out.append(line);
    out.append("/");
    out.append(address.to_string().as_str());
    out
}

/// What a frame that nobody asked for is as a Stream: its data past the
/// status bytes, from an origin that carries what the frame knew.
pub open spec fn overheard(line: Seq<char>, bytes: Seq<u8>) -> Result<ArrivedView, HartError> {
    match frame::decodes(bytes) {
        Err(error) => Err(error),
        Ok(heard) => match device::status_read(heard.data) {
            Err(error) => Err(error),
            Ok(data) => Ok(
                ArrivedView {
                    origin_uri: origin_of(line, heard.address) + "?command="@ + text::digits_of(
                        heard.command as nat,
                        10,
                        1,
                    ) + "&burst="@ + if heard.kind == Kind::Back {
                        "true"@
                    } else {
                        "false"@
                    },
                    bytes: data,
                },
            ),
        },
    }
}

/// The address that a send goes to: the one its target names, or the
/// master's own where it names none.
pub open spec fn target_of(own: Address, named: Option<&str>) -> Reading {
    match named {
        Some(name) => if name@.len() == 0 {
            Reading::Names(own)
        } else {
            address::reading(name@)
        },
        None => Reading::Names(own),
    }
}

/// The master's side of a line: what the line is called, the device it talks
/// to and how long it waits for it.
#[derive(Debug)]
pub struct HartTransport {
    line: String,
    address: Address,
    timeout: u128,
}

/// A master on a line.
#[verifier::ext_equal]
pub struct MasterView {
    /// What the line is called.
    pub line: Seq<char>,
    /// The device the master talks to.
    pub address: Address,
    /// How many nanoseconds it waits for an answer.
    pub timeout: u128,
}

impl View for HartTransport {
    type V = MasterView;

    closed spec fn view(&self) -> MasterView {
        MasterView { line: self.line@, address: self.address, timeout: self.timeout }
    }
}

impl Clone for HartTransport {
    fn clone(&self) -> (copy: Self)
        ensures
            copy@ == self@,
    {
        HartTransport {
            line: self.line.clone(),
            address: self.address.clone(),
            timeout: self.timeout,
        }
    }
}

impl HartTransport {
    /// A master on the line called `line`, talking to the device at `address`.
    #[must_use]
    pub fn new(line: &str, address: Address) -> (master: HartTransport)
        ensures
            master@ == (MasterView { line: line@, address, timeout: ONE_SECOND }),
    {
        HartTransport { line: line.to_owned(), address, timeout: ONE_SECOND }
    }

    /// Give up on a device that does not answer within `timeout` nanoseconds.
    #[must_use]
    pub fn timing_out_after(self, timeout: u128) -> (master: HartTransport)
        ensures
            master@ == (MasterView { timeout, ..self@ }),
    {
        let mut master: HartTransport = self;
        master.timeout = timeout;
        master
    }

    /// How many nanoseconds the master waits for an answer.
    #[must_use]
    pub fn timeout(&self) -> (timeout: u128)
        ensures
            timeout == self@.timeout,
    {
        self.timeout
    }

    /// The device the master talks to.
    #[must_use]
    pub fn address(&self) -> (address: &Address)
        ensures
            *address == self@.address,
    {
        &self.address
    }

    /// `hart://<line>/<address>`.
    #[must_use]
    pub fn origin(&self, address: &Address) -> (origin: String)
        ensures
            origin@ == origin_of(self@.line, *address),
    {
        write_origin(self.line.as_str(), address)
    }

    /// Ask the device at `address` `command` with `data`; the exchange ends
    /// with its answer past the status bytes.
    ///
    /// # Errors
    /// More data than one frame carries.
    pub fn request(&self, address: &Address, command: u8, data: &[u8]) -> (exchange: Result<
        Exchange,
        HartError,
    >)
        ensures
            match exchange {
                Ok(begun) => data@.len() <= MAX_DATA && begun@ == (ExchangeView {
                    command,
                    frame: asking(*address, command, data@).encoding(),
                }),
                Err(error) => data@.len() > MAX_DATA && error == HartError::TooMuchData,
            },
    {
        match Frame::new(Kind::Stx, address.clone(), command, data) {
            Ok(request) => Ok(Exchange { command, frame: request.encode() }),
            Err(error) => Err(error),
        }
    }

    /// Command 0: ask the master's device who it is. The exchange is heard out
    /// with [`Exchange::hear_identity`].
    #[must_use]
    pub fn identify(&self) -> (exchange: Exchange)
        ensures
            exchange@ == (ExchangeView {
                command: IDENTIFY_COMMAND,
                frame: asking(self@.address, IDENTIFY_COMMAND, Seq::empty()).encoding(),
            }),
    {
        let request: Frame = Frame {
            kind: Kind::Stx,
            address: self.address.clone(),
            command: IDENTIFY_COMMAND,
            data: Vec::new(),
        };
        Exchange { command: IDENTIFY_COMMAND, frame: request.encode() }
    }

    /// Write `bytes` to the device at `address`, a chunk per request.
    #[must_use]
    pub fn write_stream(&self, address: &Address, bytes: &[u8]) -> (begun: WriteStream)
        ensures
            begun@ == writing(*address, bytes@),
            begun@.wf(),
    {
        let requests: Vec<Vec<u8>> = write_requests(bytes, MAX_CHUNK);
        let begun: WriteStream = WriteStream { address: address.clone(), requests, next: 0 };
        proof {
            assert(begun@ =~= writing(*address, bytes@));
            assert forall|i: int|
                0 <= i < begun@.requests.len() implies #[trigger] begun@.requests[i].len()
                <= MAX_DATA by {
                stream::pieces_cover(bytes@.len(), MAX_CHUNK as nat, i as nat);
            }
        }
        begun
    }

    /// Read the Stream the master's device holds, a chunk per request.
    #[must_use]
    pub fn read_stream(&self) -> (begun: ReadStream)
        ensures
            begun@ == (ReadView {
                line: self@.line,
                address: self@.address,
                index: 0,
                bytes: Seq::empty(),
            }),
            begun@.wf(),
    {
        ReadStream {
            line: self.line.clone(),
            address: self.address.clone(),
            index: 0,
            bytes: Vec::new(),
        }
    }

    /// The next frame on the line as a Stream (a burst, or an answer
    /// nobody was waiting for) or `None` when the line is quiet.
    ///
    /// # Errors
    /// Where the line carried something that is not a frame, or a frame whose
    /// data is a refusal.
    pub fn receive_one(&self, heard: Option<&[u8]>) -> (arrived: Result<
        Option<Arrived>,
        HartError,
    >)
        ensures
            match arrived {
                Ok(None) => heard is None,
                Ok(Some(arrived)) => heard is Some && overheard(self@.line, said(heard)->0) == Ok::<
                    ArrivedView,
                    HartError,
                >(arrived@),
                Err(error) => heard is Some && overheard(self@.line, said(heard)->0) == Err::<
                    ArrivedView,
                    HartError,
                >(error),
            },
    {
        let bytes: &[u8] = match heard {
            None => {
                return Ok(None);
            },
            Some(bytes) => bytes,
        };
        let frame: Frame = match Frame::decode(bytes) {
            Err(error) => {
                return Err(error);
            },
            Ok(frame) => frame,
        };
        let mut origin_uri: String = self.origin(&frame.address);
        origin_uri.append("?command=");
        write_digits(&mut origin_uri, frame.command as u64, 10, 1);
        origin_uri.append("&burst=");
        if frame.kind == Kind::Back {
            origin_uri.append("true");
        } else {
            origin_uri.append("false");
        }
        match answered(frame.data.as_slice()) {
            Err(error) => Err(error),
            Ok(data) => Ok(Some(Arrived { origin_uri, bytes: slice_to_vec(data) })),
        }
    }

    /// What the line carried as Streams. Nothing on the line is not an error:
    /// an empty vector.
    ///
    /// # Errors
    /// As [`Self::receive_one`].
    pub fn receive(&self, heard: Option<&[u8]>) -> (arrived: Result<Vec<Arrived>, HartError>)
        ensures
            match arrived {
                Ok(all) => match said(heard) {
                    None => all@.len() == 0,
                    Some(bytes) => all@.len() == 1 && overheard(self@.line, bytes) == Ok::<
                        ArrivedView,
                        HartError,
                    >(all@[0]@),
                },
                Err(error) => heard is Some && overheard(self@.line, said(heard)->0) == Err::<
                    ArrivedView,
                    HartError,
                >(error),
            },
    {
        match self.receive_one(heard) {
            Err(error) => Err(error),
            Ok(None) => Ok(Vec::new()),
            Ok(Some(arrived)) => {
                let mut all: Vec<Arrived> = Vec::new();
                all.push(arrived);
                Ok(all)
            },
        }
    }

    /// Write `bytes` to the address that a target names past its line, such as
    /// the `7` of `hart://line/7`, or to the master's own where it names none.
    ///
    /// # Errors
    /// A name that is no address.
    pub fn send(&self, named: Option<&str>, bytes: &[u8]) -> (begun: Result<
        WriteStream,
        HartError,
    >)
        ensures
            match begun {
                Ok(writes) => {
                    &&& target_of(self@.address, named) is Names
                    &&& writes@ == writing(target_of(self@.address, named)->Names_0, bytes@)
                    &&& writes@.wf()
                },
                Err(HartError::PollingOver63) => target_of(self@.address, named) is Over63,
                Err(HartError::NotAnAddress(given)) => target_of(self@.address, named) is Nothing
                    && given@ == named->0@,
                Err(_) => false,
            },
    {
        match named {
            Some(name) => {
                if name.is_empty() {
                    return Ok(self.write_stream(&self.address, bytes));
                }
                match Address::parse(name) {
                    Ok(address) => Ok(self.write_stream(&address, bytes)),
                    Err(error) => Err(error),
                }
            },
            None => Ok(self.write_stream(&self.address, bytes)),
        }
    }

    /// The scheme that the transport's origins and targets carry.
    #[must_use]
    pub fn name(&self) -> (name: &'static str)
        ensures
            name@ == "hart"@,
    {
        "hart"
    }
}

} // verus!
