//! What holds of a field device whatever it is asked: who it says it is, what
//! a refusal leaves alone, and that a Stream written to it is the Stream read
//! back from it.

use crate::address::Address;
use crate::bytes;
use crate::device;
use crate::device::{
    DeviceView, Identity, IDENTIFY, INVALID_SELECTION, MAX_CHUNK, OK, READ_STREAM, WRITE_STREAM,
};
use crate::error::HartError;
use crate::frame::MAX_DATA;
use crate::stream;
use crate::stream::{FIRST, LAST};
use vstd::prelude::*;

verus! {

/// A command 0 answer names the identity it was made from, of whose device
/// identifier it says three bytes.
pub proof fn identity_reads_back(identity: Identity)
    ensures
        device::identity_in(identity.identification()) == Some(
            (Identity { device_id: identity.device_id % 0x100_0000, ..identity }),
        ),
        identity.device_id < 0x100_0000 ==> device::identity_in(identity.identification()) == Some(
            identity,
        ),
{
    bytes::low_reads_back(identity.device_id);
    assert(identity.identification().subrange(9, 12) =~= bytes::low_bytes(identity.device_id));
}

/// A device asked who it is, with whatever data, names itself, saying three
/// bytes of its device identifier, and is left as it was; it hears the address it names, and the polling address it is at.
pub proof fn device_names_itself(device: DeviceView, data: Seq<u8>)
    ensures
        device::status_read(device.answering(IDENTIFY, data)) == Ok::<Seq<u8>, HartError>(
            device.identity.identification(),
        ),
        device::identity_in(device.identity.identification()) == Some(
            (Identity { device_id: device.identity.device_id % 0x100_0000, ..device.identity }),
        ),
        device.identity.device_id < 0x100_0000 ==> device::identity_in(
            device.identity.identification(),
        ) == Some(device.identity),
        device.after(IDENTIFY, data) == device,
        device.hears(device.identity.unique()),
        device.hears(Address::Short(device.polling)),
        device.wf() ==> Address::Short(device.polling).fits(),
{
    identity_reads_back(device.identity);
    assert(device.answering(IDENTIFY, data).skip(2) =~= device.identity.identification());
}

/// Every answer opens with two status bytes, and reads past them as the body
/// where the code is OK and as that code where it is not.
pub proof fn answer_opens_with_its_status(device: DeviceView, command: u16, data: Seq<u8>)
    ensures
        device.answering(command, data).len() >= 2,
        device::status_read(device.answering(command, data)) == (if device.response(
            command,
            data,
        ).0 == OK {
            Ok::<Seq<u8>, HartError>(device.response(command, data).1)
        } else {
            Err::<Seq<u8>, HartError>(HartError::ResponseCode(device.response(command, data).0))
        }),
{
    assert(device.answering(command, data).skip(2) =~= device.response(command, data).1);
}

/// A request that is refused leaves the device as it was, and its answer is
/// the two status bytes and nothing else.
pub proof fn refusal_changes_nothing(device: DeviceView, command: u16, data: Seq<u8>)
    requires
        device.response(command, data).0 != OK,
    ensures
        device.after(command, data) == device,
        device.answering(command, data) == seq![device.response(command, data).0, 0u8],
{
    assert(device.answering(command, data) =~= seq![device.response(command, data).0, 0u8]);
}

/// Nothing but a write changes a device, and a write changes nothing but the
/// Stream held and what has come of the next.
pub proof fn only_a_write_changes_a_device(device: DeviceView, command: u16, data: Seq<u8>)
    ensures
        command != WRITE_STREAM ==> device.after(command, data) == device,
        device.after(command, data) == (DeviceView {
            held: device.after(command, data).held,
            arriving: device.after(command, data).arriving,
            ..device
        }),
{
}

/// A chunk that is not the last leaves the Stream held as the last complete
/// write left it.
pub proof fn unfinished_write_leaves_the_stream(device: DeviceView, data: Seq<u8>)
    requires
        data.len() > 0 ==> data[0] & LAST == 0,
    ensures
        device.after(WRITE_STREAM, data).held == device.held,
{
}

/// A first chunk forgets what came before: what the device is after it does
/// not depend on what had come of a Stream before it.
pub proof fn first_chunk_starts_over(device: DeviceView, before: Seq<u8>, data: Seq<u8>)
    requires
        data.len() > 0,
        data[0] & FIRST != 0,
    ensures
        (DeviceView { arriving: before, ..device }).after(WRITE_STREAM, data).held == (if data[0]
            & LAST != 0 {
            data.skip(1)
        } else {
            device.held
        }),
        (DeviceView { arriving: before, ..device }).after(WRITE_STREAM, data) == device.after(
            WRITE_STREAM,
            data,
        ),
{
}

/// What a device is after `count` of the requests that write `stream` in
/// pieces of `size`.
pub open spec fn written(device: DeviceView, stream: Seq<u8>, size: nat, count: nat) -> DeviceView
    decreases count,
{
    if count == 0 {
        device
    } else {
        written(device, stream, size, (count - 1) as nat).after(
            WRITE_STREAM,
            stream::chunk_of(stream, size, (count - 1) as nat),
        )
    }
}

/// The flags of a piece say whether it is the first and whether it is the
/// last.
pub proof fn flags_say_first_and_last(index: nat, count: nat)
    ensures
        (stream::piece_flags(index, count) & FIRST != 0) == (index == 0),
        (stream::piece_flags(index, count) & LAST != 0) == (index + 1 == count),
{
    assert(0u8 & 0x40u8 == 0 && 0u8 & 0x80u8 == 0) by (bit_vector);
    assert(0x40u8 & 0x40u8 != 0 && 0x40u8 & 0x80u8 == 0) by (bit_vector);
    assert(0x80u8 & 0x40u8 == 0 && 0x80u8 & 0x80u8 != 0) by (bit_vector);
    assert((0x40u8 | 0x80u8) & 0x40u8 != 0 && (0x40u8 | 0x80u8) & 0x80u8 != 0) by (bit_vector);
}

/// While a Stream is being written the device gathers its pieces and still
/// holds what it held.
pub proof fn stream_is_gathered(device: DeviceView, stream: Seq<u8>, size: nat, count: nat)
    requires
        size > 0,
        0 < count < stream::piece_count(stream.len(), size),
    ensures
        written(device, stream, size, count) == (DeviceView {
            arriving: stream::joined(stream, size, count),
            ..device
        }),
    decreases count,
{
    let before = (count - 1) as nat;
    let chunk = stream::chunk_of(stream, size, before);
    flags_say_first_and_last(before, stream::piece_count(stream.len(), size));
    assert(chunk.skip(1) =~= stream::piece(stream, size, before));
    reveal_with_fuel(stream::joined, 2);
    reveal_with_fuel(written, 2);
    if before > 0 {
        stream_is_gathered(device, stream, size, before);
    }
    assert(written(device, stream, size, count) =~= DeviceView {
        arriving: stream::joined(stream, size, count),
        ..device
    });
}

/// A Stream written in pieces of any size, to any device, whatever had come
/// before, is the Stream the device holds; nothing else of it has changed, and
/// nothing is left half written.
pub proof fn stream_is_held(device: DeviceView, stream: Seq<u8>, size: nat)
    requires
        size > 0,
    ensures
        written(device, stream, size, stream::piece_count(stream.len(), size)) == (DeviceView {
            held: stream,
            arriving: Seq::empty(),
            ..device
        }),
{
    let count = stream::piece_count(stream.len(), size);
    let before = (count - 1) as nat;
    let chunk = stream::chunk_of(stream, size, before);
    flags_say_first_and_last(before, count);
    assert(chunk.skip(1) =~= stream::piece(stream, size, before));
    stream::pieces_are_the_stream(stream, size);
    reveal_with_fuel(stream::joined, 2);
    reveal_with_fuel(written, 2);
    if before > 0 {
        stream_is_gathered(device, stream, size, before);
    }
    assert(written(device, stream, size, count) =~= DeviceView {
        held: stream,
        arriving: Seq::empty(),
        ..device
    });
}

/// Every request that writes a piece is answered with OK and nothing else.
pub proof fn every_piece_is_taken(device: DeviceView, stream: Seq<u8>, size: nat, index: nat)
    ensures
        device.answering(WRITE_STREAM, stream::chunk_of(stream, size, index)) == seq![OK, 0u8],
{
    assert(device.answering(WRITE_STREAM, stream::chunk_of(stream, size, index)) =~= seq![OK, 0u8]);
}

/// A device asked for a chunk of its Stream by index answers with that piece,
/// saying whether it is the last, and is left as it was.
pub proof fn piece_is_read(device: DeviceView, index: u32)
    requires
        device.chunk > 0,
        index < stream::piece_count(device.held.len(), device.chunk),
    ensures
        device::status_read(device.answering(READ_STREAM, bytes::be_bytes(index))) == Ok::<
            Seq<u8>,
            HartError,
        >(stream::chunk_of(device.held, device.chunk, index as nat)),
        device::chunk_in(stream::chunk_of(device.held, device.chunk, index as nat)) == Ok::<
            (bool, Seq<u8>),
            HartError,
        >(
            (
                index + 1 == stream::piece_count(device.held.len(), device.chunk),
                stream::piece(device.held, device.chunk, index as nat),
            ),
        ),
        device.after(READ_STREAM, bytes::be_bytes(index)) == device,
{
    let chunk = stream::chunk_of(device.held, device.chunk, index as nat);
    bytes::be_reads_back(index);
    answer_opens_with_its_status(device, READ_STREAM, bytes::be_bytes(index));
    flags_say_first_and_last(index as nat, stream::piece_count(device.held.len(), device.chunk));
    assert(chunk.skip(1) =~= stream::piece(device.held, device.chunk, index as nat));
}

/// A device asked for a chunk past its Stream's last says so.
pub proof fn piece_past_the_last_is_refused(device: DeviceView, index: u32)
    requires
        index >= stream::piece_count(device.held.len(), device.chunk),
    ensures
        device.answering(READ_STREAM, bytes::be_bytes(index)) == seq![INVALID_SELECTION, 0u8],
{
    bytes::be_reads_back(index);
    assert(device.answering(READ_STREAM, bytes::be_bytes(index)) =~= seq![INVALID_SELECTION, 0u8]);
}

/// Every answer of a device whose chunks, or whose whole Stream, hold no more
/// than a frame takes fits a frame, status bytes and all.
pub proof fn every_answer_fits_a_frame(device: DeviceView, command: u16, data: Seq<u8>)
    requires
        device.answerable(command, data),
        device.chunk <= MAX_CHUNK || device.held.len() <= MAX_CHUNK,
    ensures
        device.answering(command, data).len() <= MAX_DATA,
{
    bytes::low_reads_back(device.identity.device_id);
    bytes::be_reads_back(device.primary_variable);
    if device.chunk > 0 {
        stream::pieces_cover(device.held.len(), device.chunk, bytes::be_value(data) as nat);
    }
}

/// Every request that writes a piece of no more bytes than a chunk holds fits
/// a frame.
pub proof fn every_piece_fits_a_frame(stream: Seq<u8>, size: nat, index: nat)
    requires
        0 < size <= MAX_CHUNK,
    ensures
        stream::chunk_of(stream, size, index).len() <= MAX_DATA,
{
    stream::pieces_cover(stream.len(), size, index);
}

/// What the first `count` chunks of a device's Stream, read one by one by
/// index, hold when put together.
pub open spec fn read_back(device: DeviceView, count: nat) -> Seq<u8>
    decreases count,
{
    if count == 0 {
        Seq::empty()
    } else {
        let answer = device.answering(READ_STREAM, bytes::be_bytes((count - 1) as u32));
        read_back(device, (count - 1) as nat) + device::chunk_in(
            device::status_read(answer)->Ok_0,
        )->Ok_0.1
    }
}

/// A device's Stream read chunk by chunk up to `count` is that many of its
/// pieces.
pub proof fn pieces_are_read(device: DeviceView, count: nat)
    requires
        device.chunk > 0,
        count <= stream::piece_count(device.held.len(), device.chunk),
        count <= 0x1_0000_0000,
    ensures
        read_back(device, count) == stream::joined(device.held, device.chunk, count),
    decreases count,
{
    if count > 0 {
        let before = (count - 1) as nat;
        pieces_are_read(device, before);
        piece_is_read(device, before as u32);
    }
}

/// A Stream written in pieces of any size and read back in chunks of the
/// device's own comes back whole, where its chunks can be asked for by index.
pub proof fn stream_comes_back_whole(device: DeviceView, stream: Seq<u8>, size: nat)
    requires
        size > 0,
        device.chunk > 0,
        stream::piece_count(stream.len(), device.chunk) <= 0x1_0000_0000,
    ensures
        read_back(
            written(device, stream, size, stream::piece_count(stream.len(), size)),
            stream::piece_count(stream.len(), device.chunk),
        ) == stream,
{
    stream_is_held(device, stream, size);
    let holding = written(device, stream, size, stream::piece_count(stream.len(), size));
    pieces_are_read(holding, stream::piece_count(stream.len(), device.chunk));
    stream::pieces_are_the_stream(stream, device.chunk);
}

} // verus!
