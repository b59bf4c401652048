//! Frames byte by byte: which bytes read as which frame, which are refused and
//! as what, which bytes a frame is sent as, and how long a frame is known to be.
//! Here a frame is spelled out in the bytes of the line, whoever sent it.

use crate::address::Address;
use crate::bytes;
use crate::error::HartError;
use crate::frame;
use crate::frame::{FrameView, Kind};
use crate::frame_laws;
use vstd::prelude::*;

verus! {

/// Masks and remainders are the same thing on a byte.
proof fn lemma_bits(byte: u8)
    ensures
        byte & 0x07 == byte % 8,
        byte & 0x3f == byte % 64,
        (byte & 0x80 != 0) == (byte >= 0x80),
        0x80u8 | (byte & 0x3f) == 0x80 + byte % 64,
        (0x80u8 | 0x40u8) | (byte & 0x3f) == 0xc0 + byte % 64,
{
    assert(byte & 0x07 == byte % 8) by (bit_vector);
    assert(byte & 0x3f == byte % 64) by (bit_vector);
    assert((byte & 0x80 != 0) == (byte >= 0x80)) by (bit_vector);
    assert(0x80u8 | (byte & 0x3f) == 0x80 + byte % 64) by (bit_vector);
    assert((0x80u8 | 0x40u8) | (byte & 0x3f) == 0xc0 + byte % 64) by (bit_vector);
}

/// Bytes that open with a run of preambles read as what follows it.
proof fn lemma_opened(opening: nat, body: Seq<u8>)
    requires
        body.len() == 0 || body[0] != 0xff,
    ensures
        frame::preambles(Seq::new(opening, |i: int| 0xffu8) + body) == opening,
        (Seq::new(opening, |i: int| 0xffu8) + body).skip(opening as int) == body,
        (Seq::new(opening, |i: int| 0xffu8) + body).len() == opening + body.len(),
{
    let whole = Seq::new(opening, |i: int| 0xffu8) + body;
    assert(body.len() > 0 ==> whole[opening as int] == body[0]);
    frame_laws::lemma_run_in(whole, opening);
    assert(whole.skip(opening as int) =~= body);
}

/// Two preambles or more, a delimiter without the long-frame bit, one address
/// byte, a command, a count, as many bytes of data and the XOR of all that read
/// as that frame, whatever follows. Of the delimiter the low three bits say the
/// kind, 2 a request, 6 an answer and 1 a burst; of the address byte the low
/// six bits are the polling address; no other bit of either counts.
pub proof fn short_frame_is_read(
    opening: nat,
    delimiter: u8,
    kind: Kind,
    first: u8,
    command: u8,
    data: Seq<u8>,
    rest: Seq<u8>,
)
    requires
        opening >= 2,
        delimiter < 0x80,
        delimiter % 8 == (match kind {
            Kind::Stx => 2u8,
            Kind::Ack => 6u8,
            Kind::Back => 1u8,
        }),
        data.len() <= 255,
    ensures
        ({
            let body = seq![delimiter, first, command, data.len() as u8] + data;
            frame::reads(
                Seq::new(opening, |i: int| 0xffu8) + (body + seq![bytes::xor_of(body)] + rest),
            ) == Ok::<(FrameView, nat), HartError>(
                (
                    FrameView { kind, address: Address::Short(first % 64), command, data },
                    opening + 5 + data.len(),
                ),
            )
        }),
{
    let body = seq![delimiter, first, command, data.len() as u8] + data;
    let whole = body + seq![bytes::xor_of(body)] + rest;
    lemma_bits(delimiter);
    lemma_bits(first);
    lemma_opened(opening, whole);
    assert(whole[0] == delimiter && whole[1] == first && whole[2] == command && whole[3]
        == data.len());
    assert(whole.skip(1)[0] == first);
    assert(whole.take((4 + data.len()) as int) =~= body);
    assert(whole[4 + data.len() as int] == bytes::xor_of(body));
    assert(whole.subrange(4, (4 + data.len()) as int) =~= data);
}

/// Two preambles or more, a delimiter with the long-frame bit, five address
/// bytes, a command, a count, as many bytes of data and the XOR of all that
/// read as that frame, whatever follows. Of the first address byte the low six
/// bits are the manufacturer; the second is the device type, and the last three
/// the device identifier, most significant first.
pub proof fn long_frame_is_read(
    opening: nat,
    delimiter: u8,
    kind: Kind,
    address: Seq<u8>,
    command: u8,
    data: Seq<u8>,
    rest: Seq<u8>,
)
    requires
        opening >= 2,
        delimiter >= 0x80,
        delimiter % 8 == (match kind {
            Kind::Stx => 2u8,
            Kind::Ack => 6u8,
            Kind::Back => 1u8,
        }),
        address.len() == 5,
        data.len() <= 255,
    ensures
        ({
            let body = seq![delimiter] + address + seq![command, data.len() as u8] + data;
            frame::reads(
                Seq::new(opening, |i: int| 0xffu8) + (body + seq![bytes::xor_of(body)] + rest),
            ) == Ok::<(FrameView, nat), HartError>(
                (
                    FrameView {
                        kind,
                        address: Address::Long {
                            manufacturer: address[0] % 64,
                            device_type: address[1],
                            device_id: (address[2] * 0x1_0000 + address[3] * 0x100
                                + address[4]) as u32,
                        },
                        command,
                        data,
                    },
                    opening + 9 + data.len(),
                ),
            )
        }),
{
    let body = seq![delimiter] + address + seq![command, data.len() as u8] + data;
    let whole = body + seq![bytes::xor_of(body)] + rest;
    lemma_bits(delimiter);
    lemma_bits(address[0]);
    lemma_opened(opening, whole);
    assert(whole[0] == delimiter && whole[6] == command && whole[7] == data.len());
    assert(whole.skip(1).take(5) =~= address);
    assert(whole.skip(1)[0] == address[0] && whole.skip(1)[1] == address[1]);
    let id = whole.skip(1).subrange(2, 5);
    assert(id[0] == address[2] && id[1] == address[3] && id[2] == address[4]);
    assert(whole.take((8 + data.len()) as int) =~= body);
    assert(whole[8 + data.len() as int] == bytes::xor_of(body));
    assert(whole.subrange(8, (8 + data.len()) as int) =~= data);
}

/// Whatever reads as a frame is made of the parts of one: a run of two
/// preambles or more, whose length is what this gives back; a delimiter that
/// says the frame's kind; an address of the width it says; the command, the
/// count and the data; and a check byte that brings the XOR of all after the
/// preambles to zero. The bytes taken end there.
pub proof fn read_frame_has_its_parts(bytes: Seq<u8>) -> (opening: nat)
    requires
        frame::reads(bytes) is Ok,
    ensures
        2 <= opening < bytes.len(),
        forall|i: int| 0 <= i < opening ==> #[trigger] bytes[i] == 0xff,
        bytes[opening as int] != 0xff,
        ({
            let said = frame::reads(bytes)->Ok_0.0;
            let taken = frame::reads(bytes)->Ok_0.1;
            let delimiter = bytes[opening as int];
            let start = opening as int;
            let at = start + if delimiter >= 0x80 {
                6int
            } else {
                2int
            };
            &&& delimiter % 8 == (match said.kind {
                Kind::Stx => 2u8,
                Kind::Ack => 6u8,
                Kind::Back => 1u8,
            })
            &&& taken == at + 3 + said.data.len()
            &&& taken <= bytes.len()
            &&& said.address == (if delimiter >= 0x80 {
                Address::Long {
                    manufacturer: bytes[start + 1] % 64,
                    device_type: bytes[start + 2],
                    device_id: (bytes[start + 3] * 0x1_0000 + bytes[start + 4] * 0x100
                        + bytes[start + 5]) as u32,
                }
            } else {
                Address::Short(bytes[start + 1] % 64)
            })
            &&& said.command == bytes[at]
            &&& said.data.len() == bytes[at + 1]
            &&& said.data == bytes.subrange(at + 2, taken - 1)
            &&& bytes::xor_of(bytes.subrange(opening as int, taken as int)) == 0
        }),
{
    let opening = frame::preambles(bytes);
    frame_laws::preambles_counted(bytes);
    frame_laws::read_frame_is_sent_on(bytes);
    let body = bytes.skip(opening as int);
    let delimiter = bytes[opening as int];
    assert(body[0] == delimiter);
    lemma_bits(delimiter);
    lemma_bits(body[1]);
    let said = frame::reads(bytes)->Ok_0.0;
    let taken = frame::reads(bytes)->Ok_0.1;
    let at = 1 + if delimiter >= 0x80 {
        5int
    } else {
        1int
    };
    let end = at + 2 + body[at + 1];
    assert(body.skip(1)[0] == body[1]);
    if delimiter >= 0x80 {
        let id = body.skip(1).subrange(2, 5);
        assert(id[0] == body[3] && id[1] == body[4] && id[2] == body[5]);
    }
    assert(body.subrange(at + 2, end) =~= bytes.subrange(opening + at + 2, taken - 1));
    let covered = bytes.subrange(opening as int, taken as int);
    assert(covered.drop_last() =~= body.take(end));
    let check = covered.last();
    assert(check ^ check == 0) by (bit_vector);
    opening
}

/// Bytes are refused for want of preambles exactly where the first two are not
/// both there.
pub proof fn refused_for_want_of_preambles(bytes: Seq<u8>)
    ensures
        frame::reads(bytes) == Err::<(FrameView, nat), HartError>(HartError::FewPreambles) <==> !(
        bytes.len() >= 2 && bytes[0] == 0xff && bytes[1] == 0xff),
{
    frame_laws::preambles_counted(bytes);
    let opening = frame::preambles(bytes);
    if opening == 0 && bytes.len() > 0 {
        assert(bytes[0] != 0xff);
    }
    if opening == 1 && bytes.len() > 1 {
        assert(bytes[1] != 0xff);
    }
    if opening >= 2 {
        assert(bytes[0] == 0xff && bytes[1] == 0xff);
    }
}

/// Preambles and nothing after them are a frame cut off.
pub proof fn preambles_alone_are_cut_off(opening: nat)
    requires
        opening >= 2,
    ensures
        frame::reads(Seq::new(opening, |i: int| 0xffu8)) == Err::<(FrameView, nat), HartError>(
            HartError::CutBeforeChecksum,
        ),
{
    lemma_opened(opening, Seq::empty());
    assert(Seq::new(opening, |i: int| 0xffu8) + Seq::<u8>::empty() =~= Seq::new(
        opening,
        |i: int| 0xffu8,
    ));
}

/// A delimiter whose low three bits are neither 1, 2 nor 6 is refused with
/// those bits, whatever follows.
pub proof fn unused_delimiter_is_refused(opening: nat, delimiter: u8, rest: Seq<u8>)
    requires
        opening >= 2,
        delimiter != 0xff,
        delimiter % 8 != 1,
        delimiter % 8 != 2,
        delimiter % 8 != 6,
    ensures
        frame::reads(Seq::new(opening, |i: int| 0xffu8) + (seq![delimiter] + rest)) == Err::<
            (FrameView, nat),
            HartError,
        >(HartError::UnknownDelimiter(delimiter % 8)),
{
    lemma_bits(delimiter);
    lemma_opened(opening, seq![delimiter] + rest);
}

/// After a delimiter HART uses, what follows is refused in one of three ways
/// where it is too short or its check byte is not the XOR: as cut off inside
/// the address, which takes one byte or, with the long-frame bit, five; as cut
/// off before the checksum, where the command, the count, the data it says and
/// the check byte are not all there; and for its checksum. Otherwise it reads.
pub proof fn what_follows_a_delimiter_is_refused(opening: nat, delimiter: u8, rest: Seq<u8>)
    requires
        opening >= 2,
        delimiter % 8 == 1 || delimiter % 8 == 2 || delimiter % 8 == 6,
    ensures
        ({
            let width = if delimiter >= 0x80 {
                5int
            } else {
                1int
            };
            let read = frame::reads(
                Seq::new(opening, |i: int| 0xffu8) + (seq![delimiter] + rest),
            );
            if rest.len() < width {
                read == Err::<(FrameView, nat), HartError>(HartError::CutInsideAddress)
            } else if rest.len() < width + 2 || rest.len() < width + 3 + rest[width + 1] {
                read == Err::<(FrameView, nat), HartError>(HartError::CutBeforeChecksum)
            } else if bytes::xor_of(seq![delimiter] + rest.take(width + 2 + rest[width + 1]))
                != rest[width + 2 + rest[width + 1]] {
                read == Err::<(FrameView, nat), HartError>(HartError::BadChecksum)
            } else {
                read is Ok
            }
        }),
{
    lemma_bits(delimiter);
    let body = seq![delimiter] + rest;
    lemma_opened(opening, body);
    let width = if delimiter >= 0x80 {
        5int
    } else {
        1int
    };
    assert(body[0] == delimiter);
    if rest.len() >= width + 2 {
        assert(body[width + 2] == rest[width + 1]);
        let end = width + 3 + rest[width + 1];
        if rest.len() >= end {
            assert(body[end] == rest[end - 1]);
            assert(body.take(end) =~= seq![delimiter] + rest.take(end - 1));
        }
    }
}

/// Decoding is reading to the last byte: it gives a frame exactly where
/// reading gives that frame and takes all the bytes, refuses what is left over
/// where it does not, and refuses as reading does what does not read.
pub proof fn decoding_is_reading_to_the_end(bytes: Seq<u8>)
    ensures
        match frame::reads(bytes) {
            Ok((said, taken)) => if taken == bytes.len() {
                frame::decodes(bytes) == Ok::<FrameView, HartError>(said)
            } else {
                frame::decodes(bytes) == Err::<FrameView, HartError>(HartError::TrailingBytes)
            },
            Err(error) => frame::decodes(bytes) == Err::<FrameView, HartError>(error),
        },
{
}

/// A frame to or from a polling address is sent as five preambles, the kind's
/// byte, the address with the master's bit and, in a burst, the burst bit, the
/// command, the count, the data, and the XOR of all after the preambles.
pub proof fn short_frame_is_sent(kind: Kind, polling: u8, command: u8, data: Seq<u8>)
    ensures
        ({
            let body = seq![
                match kind {
                    Kind::Stx => 0x02u8,
                    Kind::Ack => 0x06u8,
                    Kind::Back => 0x01u8,
                },
                (if kind == Kind::Back {
                    0xc0int
                } else {
                    0x80int
                } + polling % 64) as u8,
                command,
                if data.len() <= 255 {
                    data.len() as u8
                } else {
                    255u8
                },
            ] + data;
            (FrameView { kind, address: Address::Short(polling), command, data }).encoding()
                == seq![0xffu8, 0xff, 0xff, 0xff, 0xff] + body + seq![bytes::xor_of(body)]
        }),
{
    lemma_bits(polling);
    let said = FrameView { kind, address: Address::Short(polling), command, data };
    let body = seq![
        match kind {
            Kind::Stx => 0x02u8,
            Kind::Ack => 0x06u8,
            Kind::Back => 0x01u8,
        },
        (if kind == Kind::Back {
            0xc0int
        } else {
            0x80int
        } + polling % 64) as u8,
        command,
        if data.len() <= 255 {
            data.len() as u8
        } else {
            255u8
        },
    ] + data;
    assert(said.body() =~= body);
    assert(said.encoding() =~= seq![0xffu8, 0xff, 0xff, 0xff, 0xff] + body + seq![
        bytes::xor_of(body),
    ]);
}

/// A frame to or from a unique address is sent as five preambles, the kind's
/// byte with the long-frame bit, the manufacturer with the master's bit and, in
/// a burst, the burst bit, the device type, three bytes of the device
/// identifier, the command, the count, the data, and the XOR of all after the
/// preambles.
pub proof fn long_frame_is_sent(
    kind: Kind,
    manufacturer: u8,
    device_type: u8,
    device_id: u32,
    command: u8,
    data: Seq<u8>,
)
    ensures
        ({
            let body = seq![
                match kind {
                    Kind::Stx => 0x82u8,
                    Kind::Ack => 0x86u8,
                    Kind::Back => 0x81u8,
                },
                (if kind == Kind::Back {
                    0xc0int
                } else {
                    0x80int
                } + manufacturer % 64) as u8,
                device_type,
                (device_id / 0x1_0000 % 0x100) as u8,
                (device_id / 0x100 % 0x100) as u8,
                (device_id % 0x100) as u8,
                command,
                if data.len() <= 255 {
                    data.len() as u8
                } else {
                    255u8
                },
            ] + data;
            (FrameView {
                kind,
                address: Address::Long { manufacturer, device_type, device_id },
                command,
                data,
            }).encoding() == seq![0xffu8, 0xff, 0xff, 0xff, 0xff] + body + seq![
                bytes::xor_of(body),
            ]
        }),
{
    lemma_bits(manufacturer);
    assert(0x02u8 | 0x80u8 == 0x82u8 && 0x06u8 | 0x80u8 == 0x86u8 && 0x01u8 | 0x80u8 == 0x81u8)
        by (bit_vector);
    let said = FrameView {
        kind,
        address: Address::Long { manufacturer, device_type, device_id },
        command,
        data,
    };
    let body = seq![
        match kind {
            Kind::Stx => 0x82u8,
            Kind::Ack => 0x86u8,
            Kind::Back => 0x81u8,
        },
        (if kind == Kind::Back {
            0xc0int
        } else {
            0x80int
        } + manufacturer % 64) as u8,
        device_type,
        (device_id / 0x1_0000 % 0x100) as u8,
        (device_id / 0x100 % 0x100) as u8,
        (device_id % 0x100) as u8,
        command,
        if data.len() <= 255 {
            data.len() as u8
        } else {
            255u8
        },
    ] + data;
    assert(said.body() =~= body);
    assert(said.encoding() =~= seq![0xffu8, 0xff, 0xff, 0xff, 0xff] + body + seq![
        bytes::xor_of(body),
    ]);
}

/// Preambles alone tell no length; more than twenty of them are refused,
/// whatever follows.
pub proof fn preambles_tell_no_length(opening: nat, rest: Seq<u8>)
    ensures
        opening <= 20 ==> frame::measures(Seq::new(opening, |i: int| 0xffu8)) == Ok::<
            Option<nat>,
            HartError,
        >(None),
        opening > 20 ==> frame::measures(Seq::new(opening, |i: int| 0xffu8) + rest) == Err::<
            Option<nat>,
            HartError,
        >(HartError::EndlessPreambles),
{
    let run = Seq::new(opening, |i: int| 0xffu8);
    frame_laws::lemma_run_in(run, opening);
    let whole = run + rest;
    frame_laws::preambles_counted(whole);
    if frame::preambles(whole) < opening {
        assert(whole[frame::preambles(whole) as int] == run[frame::preambles(whole) as int]);
    }
}

/// Fewer than two preambles before any other byte are refused, whatever
/// follows; after two to twenty, the length is told as soon as the count is
/// there, past the delimiter, one address byte or five, and the command: it is
/// all of those, the data that the count says, and a check byte.
pub proof fn count_tells_the_length(opening: nat, delimiter: u8, rest: Seq<u8>)
    requires
        opening <= 20,
        delimiter != 0xff,
    ensures
        ({
            let width = if delimiter >= 0x80 {
                5int
            } else {
                1int
            };
            frame::measures(Seq::new(opening, |i: int| 0xffu8) + (seq![delimiter] + rest)) == (
            if opening < 2 {
                Err::<Option<nat>, HartError>(HartError::FewPreambles)
            } else if rest.len() < width + 2 {
                Ok::<Option<nat>, HartError>(None)
            } else {
                Ok::<Option<nat>, HartError>(
                    Some((opening + 4 + width + rest[width + 1]) as nat),
                )
            })
        }),
{
    lemma_bits(delimiter);
    let body = seq![delimiter] + rest;
    lemma_opened(opening, body);
    assert(body[0] == delimiter);
    let width = if delimiter >= 0x80 {
        5int
    } else {
        1int
    };
    if rest.len() >= width + 2 {
        assert(body[width + 2] == rest[width + 1]);
    }
}

} // verus!
