//! One field device's worth of HART: the commands it answers, and the
//! two status bytes every answer opens with. Command numbers are sixteen
//! bits because `WirelessHART` carries them so; the wired frame carries the
//! low byte.
//!
//! Command 0 identifies the device, command 1 reads its primary variable,
//! and two device-specific commands carry a Stream: 130 writes it a chunk
//! at a time, 131 reads it back the same way. That is how a HART device
//! takes something larger than a frame (configuration, a totaliser log)
//! and it is what a Location sends.

use crate::address::{Address, ADDRESS_BITS};
use crate::bytes;
use crate::bytes::{from_be, from_low, push_all, push_low, to_be};
use crate::error::HartError;
use crate::stream;
use crate::stream::{count_pieces, push_chunk};
pub use crate::stream::{FIRST, LAST};
use vstd::prelude::*;
use vstd::slice::{slice_subrange, slice_to_vec};

verus! {

/// Read unique identifier.
pub const IDENTIFY: u16 = 0;

/// Read primary variable.
pub const READ_PRIMARY_VARIABLE: u16 = 1;

/// Write one chunk of a Stream: a flags byte, then the bytes.
pub const WRITE_STREAM: u16 = 130;

/// Read one chunk of a Stream: a chunk index, answered with a flags byte
/// and the bytes.
pub const READ_STREAM: u16 = 131;

/// The most a chunk holds on the wire: the frame's data less a flags byte
/// and, on the way back, the two status bytes.
pub const MAX_CHUNK: usize = 252;

/// The response code of a device that did what it was asked.
pub const OK: u8 = 0;

/// The response code to a chunk index past the Stream's last chunk.
pub const INVALID_SELECTION: u8 = 2;

/// The response code to data too short for its command.
pub const TOO_FEW_BYTES: u8 = 5;

/// The response code to a command the device does not know.
pub const NOT_IMPLEMENTED: u8 = 64;

/// The byte that a command 0 answer in its expanded form opens with.
pub const EXPANDED: u8 = 254;

/// 20.0 as the bits of a single-precision float.
pub const TWENTY: u32 = 0x41a0_0000;

/// What command 0 says.
#[derive(Debug, PartialEq, Eq, Structural)]
pub struct Identity {
    pub manufacturer: u8,
    pub device_type: u8,
    pub device_id: u32,
}

impl Clone for Identity {
    fn clone(&self) -> (copy: Self)
        ensures
            copy == *self,
    {
        Identity {
            manufacturer: self.manufacturer,
            device_type: self.device_type,
            device_id: self.device_id,
        }
    }
}

/// The identity that a command 0 answer names; `None` where it is shorter than
/// twelve bytes or does not open with 254.
pub open spec fn identity_in(data: Seq<u8>) -> Option<Identity> {
    if data.len() < 12 || data[0] != EXPANDED {
        None
    } else {
        Some(
            Identity {
                manufacturer: data[1],
                device_type: data[2],
                device_id: bytes::low_value(data.subrange(9, 12)),
            },
        )
    }
}

impl Identity {
    /// The long-frame address this identity answers to.
    pub open spec fn unique(self) -> Address {
        Address::Long {
            manufacturer: self.manufacturer,
            device_type: self.device_type,
            device_id: self.device_id,
        }
    }

    /// The twelve bytes command 0 answers with.
    pub open spec fn identification(self) -> Seq<u8> {
        seq![EXPANDED, self.manufacturer, self.device_type, 5, 5, 1, 1, 1, 0] + bytes::low_bytes(
            self.device_id,
        )
    }

    /// The long-frame address this identity answers to.
    #[must_use]
    pub fn address(&self) -> (address: Address)
        ensures
            address == self.unique(),
    {
        Address::Long {
            manufacturer: self.manufacturer,
            device_type: self.device_type,
            device_id: self.device_id,
        }
    }

    /// The twelve bytes command 0 answers with: the 254 that says
    /// "expanded", the manufacturer, the device type, five preambles, the
    /// revisions, the flags and the device identifier.
    #[must_use]
    pub fn identify(&self) -> (out: Vec<u8>)
        ensures
            out@ == self.identification(),
            out@.len() == 12,
    {
        let mut out: Vec<u8> = vec![
            EXPANDED,
            self.manufacturer,
            self.device_type,
            5,
            5,
            1,
            1,
            1,
            0,
        ];
        push_low(&mut out, self.device_id);
        assert(out@ =~= self.identification());
        out
    }

    /// The identity a command 0 answer names.
    ///
    /// # Errors
    /// An answer shorter than twelve bytes or not opening with 254.
    pub fn from_identify(data: &[u8]) -> (identity: Result<Identity, HartError>)
        ensures
            identity == (match identity_in(data@) {
                Some(named) => Ok(named),
                None => Err(HartError::NotAnIdentity),
            }),
    {
        if data.len() < 12 || data[0] != EXPANDED {
            return Err(HartError::NotAnIdentity);
        }
        Ok(
            Identity {
                manufacturer: data[1],
                device_type: data[2],
                device_id: from_low(data, 9),
            },
        )
    }
}

/// A field device: an identity, a polling address, a primary variable and
/// the Stream it holds.
pub struct Device {
    identity: Identity,
    polling: u8,
    units: u8,
    primary_variable: u32,
    chunk: usize,
    held: Vec<u8>,
    arriving: Vec<u8>,
}

/// What a device is and holds.
#[verifier::ext_equal]
pub struct DeviceView {
    /// Who it is.
    pub identity: Identity,
    /// Its polling address.
    pub polling: u8,
    /// The units code of its primary variable.
    pub units: u8,
    /// Its primary variable, as the bits of a single-precision float.
    pub primary_variable: u32,
    /// The most bytes of its Stream it answers with at a time.
    pub chunk: nat,
    /// The Stream it holds, as the last complete write left it.
    pub held: Seq<u8>,
    /// What has come so far of a Stream still being written.
    pub arriving: Seq<u8>,
}

impl View for Device {
    type V = DeviceView;

    closed spec fn view(&self) -> DeviceView {
        DeviceView {
            identity: self.identity,
            polling: self.polling,
            units: self.units,
            primary_variable: self.primary_variable,
            chunk: self.chunk as nat,
            held: self.held@,
            arriving: self.arriving@,
        }
    }
}

impl DeviceView {
    /// The polling address is one that a frame carries.
    pub open spec fn wf(self) -> bool {
        self.polling < 64
    }

    /// Whether a frame at `address` is for this device.
    pub open spec fn hears(self, address: Address) -> bool {
        match address {
            Address::Short(polling) => polling == self.polling,
            Address::Long { .. } => address == self.identity.unique(),
        }
    }

    /// Command 1's answer past the status bytes.
    pub open spec fn variable(self) -> Seq<u8> {
        seq![self.units] + bytes::be_bytes(self.primary_variable)
    }

    /// Whether there is an answer to this command: there is one to all, but a
    /// device that reads its Stream in chunks of no bytes has none to a chunk
    /// index.
    pub open spec fn answerable(self, command: u16, data: Seq<u8>) -> bool {
        command == READ_STREAM && data.len() == 4 ==> self.chunk > 0
    }

    /// The response code and body that a chunk index is answered with.
    pub open spec fn chunk_read(self, data: Seq<u8>) -> (u8, Seq<u8>) {
        if data.len() != 4 {
            (TOO_FEW_BYTES, Seq::empty())
        } else if bytes::be_value(data) >= stream::piece_count(self.held.len(), self.chunk) {
            (INVALID_SELECTION, Seq::empty())
        } else {
            (OK, stream::chunk_of(self.held, self.chunk, bytes::be_value(data) as nat))
        }
    }

    /// What the device is once a chunk has come: the first starts over, the
    /// last makes what has come the Stream held, and one without flags only
    /// adds to what has come.
    pub open spec fn chunk_written(self, data: Seq<u8>) -> DeviceView {
        if data.len() == 0 {
            self
        } else {
            let flags = data[0];
            let so_far = if flags & FIRST != 0 {
                data.skip(1)
            } else {
                self.arriving + data.skip(1)
            };
            if flags & LAST != 0 {
                DeviceView { held: so_far, arriving: Seq::empty(), ..self }
            } else {
                DeviceView { arriving: so_far, ..self }
            }
        }
    }

    /// The response code and the body of the answer to a command.
    pub open spec fn response(self, command: u16, data: Seq<u8>) -> (u8, Seq<u8>) {
        if command == IDENTIFY {
            (OK, self.identity.identification())
        } else if command == READ_PRIMARY_VARIABLE {
            (OK, self.variable())
        } else if command == WRITE_STREAM {
            (if data.len() == 0 {
                TOO_FEW_BYTES
            } else {
                OK
            }, Seq::empty())
        } else if command == READ_STREAM {
            self.chunk_read(data)
        } else {
            (NOT_IMPLEMENTED, Seq::empty())
        }
    }

    /// The answer to a command: two status bytes, then the body.
    pub open spec fn answering(self, command: u16, data: Seq<u8>) -> Seq<u8> {
        seq![self.response(command, data).0, 0u8] + self.response(command, data).1
    }

    /// What the device is after a command.
    pub open spec fn after(self, command: u16, data: Seq<u8>) -> DeviceView {
        if command == WRITE_STREAM {
            self.chunk_written(data)
        } else {
            self
        }
    }
}

impl Device {
    /// A device at polling address 0, reading 20.0 in units code 6 (psi),
    /// answering reads in chunks of [`MAX_CHUNK`].
    #[must_use]
    pub fn new(identity: Identity) -> (device: Device)
        ensures
            device@ == (DeviceView {
                identity,
                polling: 0,
                units: 6,
                primary_variable: TWENTY,
                chunk: MAX_CHUNK as nat,
                held: Seq::empty(),
                arriving: Seq::empty(),
            }),
            device@.wf(),
    {
        Device {
            identity,
            polling: 0,
            units: 6,
            primary_variable: TWENTY,
            chunk: MAX_CHUNK,
            held: Vec::new(),
            arriving: Vec::new(),
        }
    }

    /// The device at polling address `polling`, of which six bits count.
    #[must_use]
    pub fn at_polling_address(self, polling: u8) -> (device: Device)
        ensures
            device@ == (DeviceView { polling: polling % 64, ..self@ }),
            device@.wf(),
    {
        assert(polling & 0x3fu8 == polling % 64) by (bit_vector);
        let mut device: Device = self;
        device.polling = polling & ADDRESS_BITS;
        device
    }

    /// The device measuring the single-precision float whose bits are `value`
    /// in units code `units`.
    #[must_use]
    pub fn measuring(self, units: u8, value: u32) -> (device: Device)
        ensures
            device@ == (DeviceView { units, primary_variable: value, ..self@ }),
    {
        let mut device: Device = self;
        device.units = units;
        device.primary_variable = value;
        device
    }

    /// Answer command 131 with chunks of at most `chunk` bytes: the wire's
    /// frame allows [`MAX_CHUNK`], a radio's payload less.
    #[must_use]
    pub fn chunking(self, chunk: usize) -> (device: Device)
        ensures
            device@ == (DeviceView { chunk: chunk as nat, ..self@ }),
    {
        let mut device: Device = self;
        device.chunk = chunk;
        device
    }

    /// Who the device is.
    #[must_use]
    pub fn identity(&self) -> (identity: &Identity)
        ensures
            *identity == self@.identity,
    {
        &self.identity
    }

    /// Whether a frame at `address` is for this device.
    #[must_use]
    pub fn answers_to(&self, address: &Address) -> (answers: bool)
        ensures
            answers == self@.hears(*address),
    {
        match address {
            Address::Short(polling) => *polling == self.polling,
            Address::Long { .. } => *address == self.identity.address(),
        }
    }

    /// The Stream the device holds, as the last complete write left it.
    #[must_use]
    pub fn held(&self) -> (held: Vec<u8>)
        ensures
            held@ == self@.held,
    {
        slice_to_vec(self.held.as_slice())
    }

    /// Command 1's answer: the units code and the value as a float.
    #[must_use]
    pub fn primary_variable(&self) -> (out: Vec<u8>)
        ensures
            out@ == self@.variable(),
    {
        let mut out: Vec<u8> = vec![self.units];
        let mut value: Vec<u8> = to_be(self.primary_variable);
        out.append(&mut value);
        assert(out@ =~= self@.variable());
        out
    }

    /// Whether the device has an answer to `command` with `data`, which only
    /// one that reads its Stream in chunks of no bytes lacks.
    #[must_use]
    pub fn can_answer(&self, command: u16, data: &[u8]) -> (can: bool)
        ensures
            can == self@.answerable(command, data@),
    {
        command != READ_STREAM || data.len() != 4 || self.chunk > 0
    }

    /// The answer to `command` with `data`: two status bytes, then the
    /// command's data where the code is [`OK`].
    pub fn answer(&mut self, command: u16, data: &[u8]) -> (out: Vec<u8>)
        requires
            old(self)@.answerable(command, data@),
        ensures
            out@ == old(self)@.answering(command, data@),
            final(self)@ == old(self)@.after(command, data@),
            old(self)@.wf() ==> final(self)@.wf(),
    {
        let (code, body): (u8, Vec<u8>) = match command {
            IDENTIFY => (OK, self.identity.identify()),
            READ_PRIMARY_VARIABLE => (OK, self.primary_variable()),
            WRITE_STREAM => (self.write(data), Vec::new()),
            READ_STREAM => self.read(data),
            _ => (NOT_IMPLEMENTED, Vec::new()),
        };
        opened(code, body)
    }

    /// Takes one chunk of a Stream and says how that went.
    fn write(&mut self, data: &[u8]) -> (code: u8)
        ensures
            code == (if data@.len() == 0 {
                TOO_FEW_BYTES
            } else {
                OK
            }),
            final(self)@ == old(self)@.chunk_written(data@),
    {
        if data.len() == 0 {
            return TOO_FEW_BYTES;
        }
        let flags: u8 = data[0];
        let chunk: &[u8] = slice_subrange(data, 1, data.len());
        assert(chunk@ =~= data@.skip(1));
        if flags & FIRST != 0 {
            self.arriving.clear();
        }
        push_all(&mut self.arriving, chunk);
        assert(flags & FIRST != 0 ==> self.arriving@ =~= data@.skip(1));
        if flags & LAST != 0 {
            self.held.clear();
            self.held.append(&mut self.arriving);
            assert(flags & FIRST != 0 ==> self.held@ =~= data@.skip(1));
            assert(flags & FIRST == 0 ==> self.held@ =~= old(self)@.arriving + data@.skip(1));
        }
        assert(self@ =~= old(self)@.chunk_written(data@));
        OK
    }

    /// The response code and the body that a chunk index is answered with.
    fn read(&self, data: &[u8]) -> (response: (u8, Vec<u8>))
        requires
            self@.answerable(READ_STREAM, data@),
        ensures
            (response.0, response.1@) == self@.chunk_read(data@),
    {
        if data.len() != 4 {
            return (TOO_FEW_BYTES, Vec::new());
        }
        let index: usize = from_be(data) as usize;
        let chunks: usize = count_pieces(self.held.len(), self.chunk);
        if index >= chunks {
            return (INVALID_SELECTION, Vec::new());
        }
        let mut out: Vec<u8> = Vec::new();
        push_chunk(&mut out, self.held.as_slice(), self.chunk, index);
        assert(out@ =~= stream::chunk_of(self@.held, self@.chunk, index as nat));
        (OK, out)
    }
}

/// Two status bytes, of which the first is `code`, then `body`.
pub(crate) fn opened(code: u8, body: Vec<u8>) -> (out: Vec<u8>)
    ensures
        out@ == seq![code, 0u8] + body@,
{
    let mut rest: Vec<u8> = body;
    let mut out: Vec<u8> = vec![code, 0];
    out.append(&mut rest);
    assert(out@ =~= seq![code, 0u8] + body@);
    out
}

/// The data past an answer's two status bytes, or why there is none.
pub open spec fn status_read(response: Seq<u8>) -> Result<Seq<u8>, HartError> {
    if response.len() == 0 {
        Err(HartError::NoStatus)
    } else if response[0] == OK && response.len() >= 2 {
        Ok(response.skip(2))
    } else {
        Err(HartError::ResponseCode(response[0]))
    }
}

/// The data past an answer's two status bytes.
///
/// # Errors
/// An answer without its status bytes, or a response code that is not
/// [`OK`]: a device that refused is not a device to ask again.
pub fn answered(response: &[u8]) -> (data: Result<&[u8], HartError>)
    ensures
        match data {
            Ok(past) => status_read(response@) == Ok::<Seq<u8>, HartError>(past@),
            Err(error) => status_read(response@) == Err::<Seq<u8>, HartError>(error),
        },
{
    if response.len() == 0 {
        return Err(HartError::NoStatus);
    }
    if response[0] == OK && response.len() >= 2 {
        let past: &[u8] = slice_subrange(response, 2, response.len());
        assert(past@ =~= response@.skip(2));
        return Ok(past);
    }
    Err(HartError::ResponseCode(response[0]))
}

/// How many bytes a write's chunks hold where `chunk` are asked for: at least
/// one, and no more than a frame takes.
pub open spec fn write_size(chunk: nat) -> nat {
    if chunk < 1 {
        1
    } else if chunk > MAX_CHUNK {
        MAX_CHUNK as nat
    } else {
        chunk
    }
}

/// `bytes` as the command 130 requests that write it, `chunk` bytes at a
/// time, each a flags byte then the bytes. An empty Stream is one request.
#[must_use]
pub fn write_requests(bytes: &[u8], chunk: usize) -> (requests: Vec<Vec<u8>>)
    ensures
        requests@.len() == stream::piece_count(bytes@.len(), write_size(chunk as nat)),
        forall|i: int|
            0 <= i < requests@.len() ==> #[trigger] requests@[i]@ == stream::chunk_of(
                bytes@,
                write_size(chunk as nat),
                i as nat,
            ),
{
    let size: usize = if chunk < 1 {
        1
    } else if chunk > MAX_CHUNK {
        MAX_CHUNK
    } else {
        chunk
    };
    let count: usize = count_pieces(bytes.len(), size);
    let mut requests: Vec<Vec<u8>> = Vec::new();
    let mut index: usize = 0;
    while index < count
        invariant
            index <= count,
            size > 0,
            count == stream::piece_count(bytes@.len(), size as nat),
            requests@.len() == index,
            forall|i: int|
                0 <= i < index ==> #[trigger] requests@[i]@ == stream::chunk_of(
                    bytes@,
                    size as nat,
                    i as nat,
                ),
        decreases count - index,
    {
        let mut out: Vec<u8> = Vec::new();
        push_chunk(&mut out, bytes, size, index);
        assert(out@ =~= stream::chunk_of(bytes@, size as nat, index as nat));
        requests.push(out);
        index = index + 1;
    }
    requests
}

/// The command 131 request for chunk `index`.
#[must_use]
pub fn read_request(index: u32) -> (request: Vec<u8>)
    ensures
        request@ == bytes::be_bytes(index),
{
    to_be(index)
}

/// A chunk with its flags: whether it is the last, and its bytes.
pub open spec fn chunk_in(data: Seq<u8>) -> Result<(bool, Seq<u8>), HartError> {
    if data.len() == 0 {
        Err(HartError::NoFlags)
    } else {
        Ok((data[0] & LAST != 0, data.skip(1)))
    }
}

/// A command 131 answer's data: whether it was the last chunk, and the bytes.
///
/// # Errors
/// An answer without its flags byte.
pub fn read_answer(data: &[u8]) -> (chunk: Result<(bool, &[u8]), HartError>)
    ensures
        match chunk {
            Ok((last, past)) => chunk_in(data@) == Ok::<(bool, Seq<u8>), HartError>((last, past@)),
            Err(error) => chunk_in(data@) == Err::<(bool, Seq<u8>), HartError>(error),
        },
{
    if data.len() == 0 {
        return Err(HartError::NoFlags);
    }
    let past: &[u8] = slice_subrange(data, 1, data.len());
    assert(past@ =~= data@.skip(1));
    Ok((data[0] & LAST != 0, past))
}

} // verus!
