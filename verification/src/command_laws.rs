//! What each command is answered with and does, in the bytes of its data and
//! its answer, and what those bytes mean to whoever asked.

use crate::address::Address;
use crate::bytes;
use crate::device;
use crate::device::{DeviceView, Identity};
use crate::error::HartError;
use crate::stream;
use vstd::prelude::*;

verus! {

/// A flags byte says first by its second-highest bit and last by its highest,
/// and nothing by the others.
proof fn lemma_flags(flags: u8)
    ensures
        (flags & 0x40 != 0) == (flags / 0x40 % 2 == 1),
        (flags & 0x80 != 0) == (flags >= 0x80),
        0x40u8 | 0x80u8 == 0xc0u8,
{
    assert((flags & 0x40 != 0) == (flags / 0x40 % 2 == 1)) by (bit_vector);
    assert((flags & 0x80 != 0) == (flags >= 0x80)) by (bit_vector);
    assert(0x40u8 | 0x80u8 == 0xc0u8) by (bit_vector);
}

/// Command 0, whatever its data, is answered with two zero bytes, 254, the
/// manufacturer, the device type, five preambles, the revisions, the flags and
/// three bytes of the device identifier, most significant first.
pub proof fn command_0_says_who_the_device_is(device: DeviceView, data: Seq<u8>)
    ensures
        device.answering(0, data) == seq![
            0u8,
            0,
            254,
            device.identity.manufacturer,
            device.identity.device_type,
            5,
            5,
            1,
            1,
            1,
            0,
            (device.identity.device_id / 0x1_0000 % 0x100) as u8,
            (device.identity.device_id / 0x100 % 0x100) as u8,
            (device.identity.device_id % 0x100) as u8,
        ],
        device.after(0, data) == device,
{
    assert(device.answering(0, data) =~= seq![
        0u8,
        0,
        254,
        device.identity.manufacturer,
        device.identity.device_type,
        5,
        5,
        1,
        1,
        1,
        0,
        (device.identity.device_id / 0x1_0000 % 0x100) as u8,
        (device.identity.device_id / 0x100 % 0x100) as u8,
        (device.identity.device_id % 0x100) as u8,
    ]);
}

/// Any answer that opens with 254, a manufacturer and a device type, and holds
/// a device identifier after six bytes more, names who those say, whatever the
/// six bytes are and whatever follows.
pub proof fn identity_is_read_from_its_bytes(
    manufacturer: u8,
    device_type: u8,
    between: Seq<u8>,
    high: u8,
    middle: u8,
    low: u8,
    rest: Seq<u8>,
)
    requires
        between.len() == 6,
    ensures
        device::identity_in(
            seq![254u8, manufacturer, device_type] + between + seq![high, middle, low] + rest,
        ) == Some(
            Identity {
                manufacturer,
                device_type,
                device_id: (high * 0x1_0000 + middle * 0x100 + low) as u32,
            },
        ),
{
    let data = seq![254u8, manufacturer, device_type] + between + seq![high, middle, low] + rest;
    let id = data.subrange(9, 12);
    assert(id[0] == high && id[1] == middle && id[2] == low);
}

/// An answer names nobody exactly where it is shorter than twelve bytes or
/// does not open with 254.
pub proof fn anything_else_names_nobody(data: Seq<u8>)
    ensures
        device::identity_in(data) is None <==> data.len() < 12 || data[0] != 254,
{
}

/// Command 1, whatever its data, is answered with two zero bytes, the units
/// code and four bytes that, most significant first, are the bits of the
/// primary variable, every one of them.
pub proof fn command_1_says_the_primary_variable(device: DeviceView, data: Seq<u8>)
    ensures
        ({
            let answer = device.answering(1, data);
            &&& answer.len() == 7
            &&& answer[0] == 0
            &&& answer[1] == 0
            &&& answer[2] == device.units
            &&& answer[3] * 0x100_0000 + answer[4] * 0x1_0000 + answer[5] * 0x100 + answer[6]
                == device.primary_variable
            &&& answer.skip(2) == device.variable()
        }),
        device.variable().len() == 5,
        device.variable()[0] == device.units,
        device.variable()[1] * 0x100_0000 + device.variable()[2] * 0x1_0000 + device.variable()[3]
            * 0x100 + device.variable()[4] == device.primary_variable,
        device.after(1, data) == device,
{
    bytes::bytes_weigh_their_number(device.primary_variable, 0, 0, 0, 0);
    assert(device.answering(1, data).skip(2) =~= device.variable());
}

/// Two devices whose primary variables differ in any bit, or whose units do,
/// answer command 1 differently.
pub proof fn primary_variable_is_told_apart(first: DeviceView, second: DeviceView, data: Seq<u8>)
    requires
        first.units != second.units || first.primary_variable != second.primary_variable,
    ensures
        first.answering(1, data) != second.answering(1, data),
{
    command_1_says_the_primary_variable(first, data);
    command_1_says_the_primary_variable(second, data);
}

/// Any command but 0, 1, 130 and 131 is answered with response code 64 and no
/// body, and does nothing.
pub proof fn other_commands_are_not_implemented(device: DeviceView, command: u16, data: Seq<u8>)
    requires
        command != 0,
        command != 1,
        command != 130,
        command != 131,
    ensures
        device.answering(command, data) == seq![64u8, 0],
        device.after(command, data) == device,
{
    assert(device.answering(command, data) =~= seq![64u8, 0]);
}

/// Command 130 with a flags byte is answered with two zero bytes. The chunk is
/// put after what has come so far, or starts it over where the flags say first;
/// where they say last, what has come is then the Stream the device holds, and
/// nothing has come of the next. Nothing else of the device changes, and the
/// other six bits of the flags say nothing.
pub proof fn command_130_takes_a_chunk(device: DeviceView, flags: u8, chunk: Seq<u8>)
    ensures
        device.answering(130, seq![flags] + chunk) == seq![0u8, 0],
        device.after(130, seq![flags] + chunk) == (if flags < 0x40 {
            DeviceView { arriving: device.arriving + chunk, ..device }
        } else if flags < 0x80 {
            DeviceView { arriving: chunk, ..device }
        } else if flags < 0xc0 {
            DeviceView { held: device.arriving + chunk, arriving: Seq::empty(), ..device }
        } else {
            DeviceView { held: chunk, arriving: Seq::empty(), ..device }
        }),
{
    lemma_flags(flags);
    let data = seq![flags] + chunk;
    assert(data.skip(1) =~= chunk);
    assert(data[0] == flags);
    assert(device.answering(130, data) =~= seq![0u8, 0]);
}

/// Command 130 without a flags byte is refused with response code 5, and does
/// nothing.
pub proof fn command_130_wants_flags(device: DeviceView)
    ensures
        device.answering(130, Seq::empty()) == seq![5u8, 0],
        device.after(130, Seq::empty()) == device,
{
    assert(device.answering(130, Seq::empty()) =~= seq![5u8, 0]);
}

/// A chunk index is four bytes, most significant first; command 131 with any
/// other number of bytes is refused with response code 5.
pub proof fn command_131_wants_an_index(device: DeviceView, data: Seq<u8>)
    requires
        data.len() != 4,
    ensures
        device.answering(131, data) == seq![5u8, 0],
        device.after(131, data) == device,
{
    assert(device.answering(131, data) =~= seq![5u8, 0]);
}

/// Command 131 with a chunk index is answered with two zero bytes, a flags byte
/// and the bytes of the Stream from that many chunks in, as many as a chunk
/// holds or as are left. The flags say first of index 0 and last of the chunk
/// that the Stream ends in. An index that starts past the Stream's end, or at
/// it but for index 0, is refused with response code 2. The device is left as
/// it was.
pub proof fn command_131_gives_a_chunk(device: DeviceView, a: u8, b: u8, c: u8, d: u8)
    requires
        device.chunk > 0,
    ensures
        ({
            let index = a * 0x100_0000 + b * 0x1_0000 + c * 0x100 + d;
            let start = index * device.chunk;
            let end = if start + device.chunk < device.held.len() {
                start + device.chunk
            } else {
                device.held.len() as int
            };
            let last = start + device.chunk >= device.held.len();
            device.answering(131, seq![a, b, c, d]) == (if index > 0 && start
                >= device.held.len() {
                seq![2u8, 0]
            } else {
                seq![
                    0u8,
                    0,
                    if index == 0 && last {
                        0xc0u8
                    } else if index == 0 {
                        0x40u8
                    } else if last {
                        0x80u8
                    } else {
                        0u8
                    },
                ] + device.held.subrange(start, end)
            })
        }),
        device.after(131, seq![a, b, c, d]) == device,
{
    let data = seq![a, b, c, d];
    bytes::bytes_weigh_their_number(0, a, b, c, d);
    let index = bytes::be_value(data) as nat;
    stream_is_cut_at_its_size(device.held, device.chunk, index);
    let start = (index * device.chunk) as int;
    if index > 0 && start >= device.held.len() {
        assert(device.answering(131, data) =~= seq![2u8, 0]);
    } else {
        let chunk = stream::chunk_of(device.held, device.chunk, index);
        assert(device.response(131, data) == (0u8, chunk));
        let end = if start + device.chunk < device.held.len() {
            start + device.chunk
        } else {
            device.held.len() as int
        };
        assert(device.answering(131, data) =~= seq![0u8, 0, chunk[0]] + device.held.subrange(
            start,
            end,
        ));
    }
}

/// A Stream cut into chunks of a size has chunk 0, and each later one that
/// starts before the Stream's end. A chunk is a flags byte and the bytes from
/// where it starts, as many as the size or as are left; the flags say first of
/// chunk 0 and last of the one that the Stream ends in.
pub proof fn stream_is_cut_at_its_size(bytes: Seq<u8>, size: nat, index: nat)
    requires
        size > 0,
    ensures
        index < stream::piece_count(bytes.len(), size) <==> index == 0 || index * size
            < bytes.len(),
        index == 0 || index * size < bytes.len() ==> ({
            let start = (index * size) as int;
            let last = start + size >= bytes.len();
            stream::chunk_of(bytes, size, index) == seq![
                if index == 0 && last {
                    0xc0u8
                } else if index == 0 {
                    0x40u8
                } else if last {
                    0x80u8
                } else {
                    0u8
                },
            ] + bytes.subrange(
                start,
                if last {
                    bytes.len() as int
                } else {
                    start + size
                },
            )
        }),
{
    lemma_flags(0);
    stream::pieces_cover(bytes.len(), size, index);
    stream::pieces_cover(bytes.len(), size, index + 1);
    assert((index + 1) * size == index * size + size) by (nonlinear_arith);
    assert(0 * size == 0) by (nonlinear_arith);
    assert(1 * size == size) by (nonlinear_arith);
    let count = stream::piece_count(bytes.len(), size);
    if index == 0 || index * size < bytes.len() {
        assert(stream::piece_start(bytes.len(), size, index) == index * size);
        assert((index + 1 == count) == (index * size + size >= bytes.len()));
    }
}

/// The chunks of a write hold what was asked for, but never none nor more than
/// 252 bytes: with flags and two status bytes, that is all that a byte counts.
pub proof fn write_chunks_hold_what_was_asked_for(chunk: nat)
    ensures
        1 <= device::write_size(chunk) <= 252,
        1 <= chunk <= 252 ==> device::write_size(chunk) == chunk,
        chunk == 0 ==> device::write_size(chunk) == 1,
        chunk > 252 ==> device::write_size(chunk) == 252,
        device::MAX_CHUNK + 3 == u8::MAX,
{
}

/// A device has an answer to everything, but one whose chunks hold no bytes has
/// none to command 131 with a chunk index.
pub proof fn everything_is_answerable_but_an_empty_chunk(
    device: DeviceView,
    command: u16,
    data: Seq<u8>,
)
    ensures
        device.answerable(command, data) <==> !(command == 131 && data.len() == 4 && device.chunk
            == 0),
{
}

/// A device hears its polling address and its unique one, every part of it,
/// and no other.
pub proof fn device_hears_its_two_addresses(
    device: DeviceView,
    polling: u8,
    manufacturer: u8,
    device_type: u8,
    device_id: u32,
)
    ensures
        device.hears(Address::Short(polling)) <==> polling == device.polling,
        device.hears(Address::Long { manufacturer, device_type, device_id }) <==> manufacturer
            == device.identity.manufacturer && device_type == device.identity.device_type
            && device_id == device.identity.device_id,
        device.identity.unique() == (Address::Long {
            manufacturer: device.identity.manufacturer,
            device_type: device.identity.device_type,
            device_id: device.identity.device_id,
        }),
{
}

/// An answer whose first status byte is zero and is followed by a second,
/// whatever that is, reads as what is past both; one whose first status byte is
/// anything else reads as a refusal with that code, whatever follows.
pub proof fn first_status_byte_decides(code: u8, second: u8, past: Seq<u8>)
    ensures
        device::status_read(seq![0u8, second] + past) == Ok::<Seq<u8>, HartError>(past),
        code != 0 ==> device::status_read(seq![code, second] + past) == Err::<Seq<u8>, HartError>(
            HartError::ResponseCode(code),
        ),
        device::status_read(seq![code]) == Err::<Seq<u8>, HartError>(
            HartError::ResponseCode(code),
        ),
        device::status_read(Seq::empty()) == Err::<Seq<u8>, HartError>(HartError::NoStatus),
{
    assert((seq![0u8, second] + past).skip(2) =~= past);
}

/// The data of a command 131 answer is a flags byte, which says whether the
/// chunk is the last by its highest bit alone, and the chunk; without the flags
/// it is refused.
pub proof fn flags_come_before_the_chunk(flags: u8, chunk: Seq<u8>)
    ensures
        device::chunk_in(seq![flags] + chunk) == Ok::<(bool, Seq<u8>), HartError>(
            (flags >= 0x80, chunk),
        ),
        device::chunk_in(Seq::empty()) == Err::<(bool, Seq<u8>), HartError>(HartError::NoFlags),
{
    lemma_flags(flags);
    assert((seq![flags] + chunk).skip(1) =~= chunk);
}

/// Any Stream written in any chunks, the first flagged first and the last
/// flagged last, is what the device then holds, one chunk after the other; and
/// where the last has not come, it still holds what it held.
pub proof fn chunks_are_held_in_order(device: DeviceView, flags: u8, chunks: Seq<Seq<u8>>)
    requires
        flags < 0x40,
        chunks.len() > 0,
    ensures
        ({
            let open = chunks_taken(device, flags, chunks);
            let whole = open.after(130, seq![(flags + 0x80) as u8]);
            &&& open.arriving == chunks.flatten()
            &&& open.held == device.held
            &&& whole.held == chunks.flatten()
            &&& whole.arriving == Seq::<u8>::empty()
            &&& whole.identity == device.identity
            &&& whole.polling == device.polling
            &&& whole.units == device.units
            &&& whole.primary_variable == device.primary_variable
            &&& whole.chunk == device.chunk
        }),
{
    lemma_chunks_taken(device, flags, chunks);
    let open = chunks_taken(device, flags, chunks);
    let last = (flags + 0x80) as u8;
    command_130_takes_a_chunk(open, last, Seq::empty());
    assert(seq![last] + Seq::<u8>::empty() =~= seq![last]);
    assert(open.arriving + Seq::<u8>::empty() =~= open.arriving);
}

/// A device once it has taken these chunks, the first flagged first and none
/// flagged last.
pub open spec fn chunks_taken(device: DeviceView, flags: u8, chunks: Seq<Seq<u8>>) -> DeviceView
    decreases chunks.len(),
{
    if chunks.len() == 0 {
        device
    } else if chunks.len() == 1 {
        device.after(130, seq![(flags + 0x40) as u8] + chunks[0])
    } else {
        chunks_taken(device, flags, chunks.drop_last()).after(130, seq![flags] + chunks.last())
    }
}

/// What chunks come to.
proof fn lemma_chunks_taken(device: DeviceView, flags: u8, chunks: Seq<Seq<u8>>)
    requires
        flags < 0x40,
        chunks.len() > 0,
    ensures
        chunks_taken(device, flags, chunks) == (DeviceView {
            arriving: chunks.flatten(),
            ..device
        }),
    decreases chunks.len(),
{
    chunks.lemma_flatten_and_flatten_alt_are_equivalent();
    if chunks.len() == 1 {
        command_130_takes_a_chunk(device, (flags + 0x40) as u8, chunks[0]);
        chunks.lemma_flatten_one_element();
    } else {
        let fewer = chunks.drop_last();
        lemma_chunks_taken(device, flags, fewer);
        fewer.lemma_flatten_and_flatten_alt_are_equivalent();
        command_130_takes_a_chunk(
            chunks_taken(device, flags, fewer),
            flags,
            chunks.last(),
        );
        assert(chunks.flatten_alt() == fewer.flatten_alt() + chunks.last());
    }
}

} // verus!
