//! The HART frame as it travels the line: a run of preambles, a delimiter
//! that says who sent it and how it is addressed, a short or long address,
//! a command, a byte count, the data and an XOR checksum over everything
//! after the preambles.

pub use crate::address::Address;
use crate::bytes;
use crate::bytes::push_all;
use crate::error::HartError;
use vstd::prelude::*;
use vstd::slice::{slice_subrange, slice_to_vec};

verus! {

/// The byte a frame opens with: at least two of them, five by default.
pub const PREAMBLE: u8 = 0xff;

/// How many preambles a frame is sent with.
pub const PREAMBLES: usize = 5;

/// The fewest preambles a frame is read with.
pub const MIN_PREAMBLES: usize = 2;

/// The most preambles a frame is measured with: past these no frame is coming.
pub const MAX_PREAMBLES: usize = 20;

/// The most data one frame carries: the byte count is one byte.
pub const MAX_DATA: usize = 255;

/// The long-frame bit in the delimiter.
pub const LONG_FRAME: u8 = 0x80;

/// The bits of the delimiter that say what kind of frame it is.
pub const KIND_BITS: u8 = 0x07;

/// Who sent the frame, and whether anyone asked for it.
#[derive(Clone, Copy, Debug, PartialEq, Eq, Structural)]
pub enum Kind {
    /// A master's request: start of text.
    Stx,
    /// A field device's answer to one.
    Ack,
    /// A field device in burst mode, answering nobody.
    Back,
}

impl Kind {
    /// The kind's bits in a delimiter.
    pub open spec fn code(self) -> u8 {
        match self {
            Kind::Stx => 0x02,
            Kind::Ack => 0x06,
            Kind::Back => 0x01,
        }
    }

    /// The kind that a delimiter names, if it names one.
    pub open spec fn named_by(delimiter: u8) -> Option<Kind> {
        let code = delimiter & KIND_BITS;
        if code == Kind::Stx.code() {
            Some(Kind::Stx)
        } else if code == Kind::Ack.code() {
            Some(Kind::Ack)
        } else if code == Kind::Back.code() {
            Some(Kind::Back)
        } else {
            None
        }
    }

    /// The kind's bits in a delimiter.
    pub(crate) fn bits(self) -> (bits: u8)
        ensures
            bits == self.code(),
    {
        match self {
            Kind::Stx => 0x02,
            Kind::Ack => 0x06,
            Kind::Back => 0x01,
        }
    }

    /// The kind that a delimiter names.
    ///
    /// # Errors
    /// A delimiter HART does not use.
    pub(crate) fn from_bits(bits: u8) -> (kind: Result<Kind, HartError>)
        ensures
            kind == (match Kind::named_by(bits) {
                Some(named) => Ok(named),
                None => Err(HartError::UnknownDelimiter(bits & KIND_BITS)),
            }),
    {
        let code: u8 = bits & KIND_BITS;
        match code {
            0x02 => Ok(Kind::Stx),
            0x06 => Ok(Kind::Ack),
            0x01 => Ok(Kind::Back),
            other => Err(HartError::UnknownDelimiter(other)),
        }
    }
}

/// One frame.
#[derive(Debug, PartialEq, Eq)]
pub struct Frame {
    pub kind: Kind,
    pub address: Address,
    pub command: u8,
    pub data: Vec<u8>,
}

/// What a frame says.
#[verifier::ext_equal]
pub struct FrameView {
    pub kind: Kind,
    pub address: Address,
    pub command: u8,
    pub data: Seq<u8>,
}

impl View for Frame {
    type V = FrameView;

    open spec fn view(&self) -> FrameView {
        FrameView {
            kind: self.kind,
            address: self.address,
            command: self.command,
            data: self.data@,
        }
    }
}

impl Clone for Frame {
    fn clone(&self) -> (copy: Self)
        ensures
            copy@ == self@,
    {
        Frame {
            kind: self.kind,
            address: self.address.clone(),
            command: self.command,
            data: slice_to_vec(self.data.as_slice()),
        }
    }
}

impl FrameView {
    /// The byte after the preambles.
    pub open spec fn delimiter(self) -> u8 {
        if self.address is Long {
            self.kind.code() | LONG_FRAME
        } else {
            self.kind.code()
        }
    }

    /// The byte count, which says no more than it can.
    pub open spec fn count(self) -> u8 {
        if self.data.len() <= MAX_DATA {
            self.data.len() as u8
        } else {
            0xff
        }
    }

    /// What the checksum covers: from the delimiter to the last data byte.
    pub open spec fn body(self) -> Seq<u8> {
        seq![self.delimiter()] + self.address.wire(self.kind) + seq![self.command, self.count()]
            + self.data
    }

    /// The frame as the line carries it.
    pub open spec fn encoding(self) -> Seq<u8> {
        Seq::new(PREAMBLES as nat, |i: int| PREAMBLE) + self.body() + seq![
            bytes::xor_of(self.body()),
        ]
    }

    /// What the line carries of the frame.
    pub open spec fn carried(self) -> FrameView {
        FrameView { address: self.address.carried(), ..self }
    }

    /// Whether the line carries the frame whole: an address that fits, and no
    /// more data than the byte count can say.
    pub open spec fn fits(self) -> bool {
        self.address.fits() && self.data.len() <= MAX_DATA
    }
}

/// How many preambles `bytes` opens with.
pub open spec fn preambles(bytes: Seq<u8>) -> nat
    decreases bytes.len(),
{
    if bytes.len() > 0 && bytes[0] == PREAMBLE {
        1 + preambles(bytes.skip(1))
    } else {
        0
    }
}

/// The frame that `body`, which starts at a delimiter, opens with, and how
/// many bytes it took.
pub open spec fn body_read(body: Seq<u8>) -> Result<(FrameView, nat), HartError> {
    if body.len() == 0 {
        Err(HartError::CutBeforeChecksum)
    } else {
        match Kind::named_by(body[0]) {
            None => Err(HartError::UnknownDelimiter(body[0] & KIND_BITS)),
            Some(kind) => {
                let long = body[0] & LONG_FRAME != 0;
                let at: int = 1 + Address::width(long) as int;
                if body.len() < at {
                    Err(HartError::CutInsideAddress)
                } else if body.len() < at + 2 {
                    Err(HartError::CutBeforeChecksum)
                } else {
                    let end = at + 2 + body[at + 1];
                    if body.len() <= end {
                        Err(HartError::CutBeforeChecksum)
                    } else if bytes::xor_of(body.take(end)) != body[end] {
                        Err(HartError::BadChecksum)
                    } else {
                        Ok(
                            (
                                FrameView {
                                    kind,
                                    address: Address::from_wire(body.skip(1), long),
                                    command: body[at],
                                    data: body.subrange(at + 2, end),
                                },
                                (end + 1) as nat,
                            ),
                        )
                    }
                }
            },
        }
    }
}

/// The frame that `bytes` opens with, and how many bytes it took.
pub open spec fn reads(bytes: Seq<u8>) -> Result<(FrameView, nat), HartError> {
    let opening = preambles(bytes);
    if opening < MIN_PREAMBLES {
        Err(HartError::FewPreambles)
    } else {
        match body_read(bytes.skip(opening as int)) {
            Ok((frame, taken)) => Ok((frame, opening + taken)),
            Err(error) => Err(error),
        }
    }
}

/// The one frame that `bytes` is.
pub open spec fn decodes(bytes: Seq<u8>) -> Result<FrameView, HartError> {
    match reads(bytes) {
        Ok((frame, taken)) => if taken == bytes.len() {
            Ok(frame)
        } else {
            Err(HartError::TrailingBytes)
        },
        Err(error) => Err(error),
    }
}

/// How many bytes the frame that `bytes` opens with takes in all; `None` while
/// too few of them are there to tell.
pub open spec fn measures(bytes: Seq<u8>) -> Result<Option<nat>, HartError> {
    let opening = preambles(bytes);
    if opening > MAX_PREAMBLES {
        Err(HartError::EndlessPreambles)
    } else if opening == bytes.len() {
        Ok(None)
    } else if opening < MIN_PREAMBLES {
        Err(HartError::FewPreambles)
    } else {
        let body = bytes.skip(opening as int);
        let at: int = 1 + Address::width(body[0] & LONG_FRAME != 0) as int;
        if body.len() < at + 2 {
            Ok(None)
        } else {
            Ok(Some((opening + at + 2 + body[at + 1] + 1) as nat))
        }
    }
}

impl Frame {
    /// A frame, refusing more data than the byte count can say.
    ///
    /// # Errors
    /// Data over [`MAX_DATA`].
    pub fn new(kind: Kind, address: Address, command: u8, data: &[u8]) -> (frame: Result<
        Frame,
        HartError,
    >)
        ensures
            match frame {
                Ok(made) => data@.len() <= MAX_DATA && made@ == (FrameView {
                    kind,
                    address,
                    command,
                    data: data@,
                }),
                Err(error) => data@.len() > MAX_DATA && error == HartError::TooMuchData,
            },
    {
        if data.len() > MAX_DATA {
            return Err(HartError::TooMuchData);
        }
        Ok(Frame { kind, address, command, data: slice_to_vec(data) })
    }

    /// The frame as the line carries it, preambles first.
    #[must_use]
    pub fn encode(&self) -> (out: Vec<u8>)
        ensures
            out@ == self@.encoding(),
    {
        let mut out: Vec<u8> = vec![PREAMBLE; PREAMBLES];
        let ghost opening = Seq::new(PREAMBLES as nat, |i: int| PREAMBLE);
        assert(out@ =~= opening);
        let long: u8 = if self.address.is_long() {
            LONG_FRAME
        } else {
            0
        };
        let bits: u8 = self.kind.bits();
        assert(bits | 0 == bits) by (bit_vector);
        out.push(bits | long);
        self.address.encode(self.kind, &mut out);
        out.push(self.command);
        out.push(
            if self.data.len() <= MAX_DATA {
                self.data.len() as u8
            } else {
                u8::MAX
            },
        );
        push_all(&mut out, self.data.as_slice());
        assert(out@ =~= opening + self@.body());
        let covered: &[u8] = slice_subrange(out.as_slice(), PREAMBLES, out.len());
        assert(covered@ =~= self@.body());
        let check: u8 = checksum(covered);
        out.push(check);
        assert(out@ =~= self@.encoding());
        out
    }

    /// How many preambles `bytes` opens with.
    fn count_preambles(bytes: &[u8]) -> (count: usize)
        ensures
            count == preambles(bytes@),
            count <= bytes@.len(),
    {
        let mut count: usize = 0;
        assert(bytes@.skip(0) =~= bytes@);
        while count < bytes.len() && bytes[count] == PREAMBLE
            invariant
                count <= bytes@.len(),
                preambles(bytes@) == count + preambles(bytes@.skip(count as int)),
            decreases bytes@.len() - count,
        {
            assert(bytes@.skip(count as int).skip(1) =~= bytes@.skip(count + 1));
            count = count + 1;
        }
        count
    }

    /// The frame at the start of `bytes`, and how many bytes it took.
    ///
    /// # Errors
    /// Fewer than two preambles, a delimiter HART does not use, a frame cut
    /// off before its checksum, or a checksum that does not check.
    pub fn read(bytes: &[u8]) -> (read: Result<(Frame, usize), HartError>)
        ensures
            match read {
                Ok((frame, taken)) => reads(bytes@) == Ok::<(FrameView, nat), HartError>(
                    (frame@, taken as nat),
                ),
                Err(error) => reads(bytes@) == Err::<(FrameView, nat), HartError>(error),
            },
    {
        let opening: usize = Frame::count_preambles(bytes);
        if opening < MIN_PREAMBLES {
            return Err(HartError::FewPreambles);
        }
        let body: &[u8] = slice_subrange(bytes, opening, bytes.len());
        assert(body@ =~= bytes@.skip(opening as int));
        if body.len() == 0 {
            return Err(HartError::CutBeforeChecksum);
        }
        let delimiter: u8 = body[0];
        let kind: Kind = match Kind::from_bits(delimiter) {
            Ok(kind) => kind,
            Err(error) => {
                return Err(error);
            },
        };
        let long: bool = delimiter & LONG_FRAME != 0;
        let rest: &[u8] = slice_subrange(body, 1, body.len());
        assert(rest@ =~= body@.skip(1));
        match Address::decode(rest, long) {
            Err(error) => Err(error),
            Ok((address, taken)) => {
                let at: usize = 1 + taken;
                if body.len() - at < 2 {
                    return Err(HartError::CutBeforeChecksum);
                }
                let command: u8 = body[at];
                let count: usize = body[at + 1] as usize;
                if body.len() - at - 2 <= count {
                    return Err(HartError::CutBeforeChecksum);
                }
                let end: usize = at + 2 + count;
                let covered: &[u8] = slice_subrange(body, 0, end);
                assert(covered@ =~= body@.take(end as int));
                if checksum(covered) != body[end] {
                    return Err(HartError::BadChecksum);
                }
                let data: &[u8] = slice_subrange(body, at + 2, end);
                let frame: Frame = Frame { kind, address, command, data: slice_to_vec(data) };
                Ok((frame, opening + end + 1))
            },
        }
    }

    /// Exactly one frame, nothing after it.
    ///
    /// # Errors
    /// As [`Self::read`], or bytes after the checksum.
    pub fn decode(bytes: &[u8]) -> (read: Result<Frame, HartError>)
        ensures
            match read {
                Ok(frame) => decodes(bytes@) == Ok::<FrameView, HartError>(frame@),
                Err(error) => decodes(bytes@) == Err::<FrameView, HartError>(error),
            },
    {
        match Frame::read(bytes) {
            Err(error) => Err(error),
            Ok((frame, taken)) => {
                if taken != bytes.len() {
                    return Err(HartError::TrailingBytes);
                }
                Ok(frame)
            },
        }
    }

    /// How long the frame that `bytes` opens with is in all, once enough of it
    /// is there to tell; `None` before that. This is how a reader that takes
    /// bytes as they come knows when it has a whole frame.
    ///
    /// # Errors
    /// Fewer than two preambles, or no end of them.
    pub fn measure(bytes: &[u8]) -> (length: Result<Option<usize>, HartError>)
        ensures
            match length {
                Ok(Some(whole)) => measures(bytes@) == Ok::<Option<nat>, HartError>(
                    Some(whole as nat),
                ),
                Ok(None) => measures(bytes@) == Ok::<Option<nat>, HartError>(None),
                Err(error) => measures(bytes@) == Err::<Option<nat>, HartError>(error),
            },
    {
        let opening: usize = Frame::count_preambles(bytes);
        if opening > MAX_PREAMBLES {
            return Err(HartError::EndlessPreambles);
        }
        if opening == bytes.len() {
            return Ok(None);
        }
        if opening < MIN_PREAMBLES {
            return Err(HartError::FewPreambles);
        }
        let width: usize = if bytes[opening] & LONG_FRAME != 0 {
            5
        } else {
            1
        };
        let at: usize = opening + 1 + width;
        if bytes.len() - opening < width + 3 {
            return Ok(None);
        }
        Ok(Some(at + 2 + bytes[at + 1] as usize + 1))
    }
}

/// The XOR of every byte from the delimiter to the last data byte.
#[must_use]
pub fn checksum(bytes: &[u8]) -> (check: u8)
    ensures
        check == bytes::xor_of(bytes@),
{
    let mut check: u8 = 0;
    let mut at: usize = 0;
    assert(bytes@.take(0) =~= Seq::empty());
    while at < bytes.len()
        invariant
            at <= bytes@.len(),
            check == bytes::xor_of(bytes@.take(at as int)),
        decreases bytes@.len() - at,
    {
        assert(bytes@.take(at + 1).drop_last() =~= bytes@.take(at as int));
        check = check ^ bytes[at];
        at = at + 1;
    }
    assert(bytes@.take(at as int) =~= bytes@);
    check
}

} // verus!
