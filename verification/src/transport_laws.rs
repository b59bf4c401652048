//! What holds of a master and the devices on its line: that the device asked
//! is the one that answers, and that what is written to a device comes back
//! from it whole.

use crate::address::Address;
use crate::bytes;
use crate::device;
use crate::device::{DeviceView, Identity, MAX_CHUNK, OK, READ_PRIMARY_VARIABLE};
use crate::device_laws;
use crate::error::HartError;
use crate::frame;
use crate::frame::{FrameView, Kind, MAX_DATA};
use crate::frame_laws;
use crate::stream;
use crate::text;
use crate::transport;
use crate::transport::{
    ArrivedView, Hearing, ReadView, Step, WriteView, IDENTIFY_COMMAND, READ_COMMAND, WRITE_COMMAND,
};
use vstd::prelude::*;

verus! {

/// A device asked anything, by whatever bytes read as a request to it, does
/// what it says and answers from the address it was asked at; and the answer
/// is, to the master that asked, the data of what the device answered, or the
/// code it refused with.
pub proof fn asked_device_answers(device: DeviceView, bytes: Seq<u8>)
    requires
        device.is_asked(bytes),
        device.answer_to(frame::decodes(bytes)->Ok_0).data.len() <= MAX_DATA,
    ensures
        ({
            let request = frame::decodes(bytes)->Ok_0;
            let answer = device.answer_to(request);
            let response = device.response(request.command as u16, request.data);
            &&& device.reply(bytes) == Ok::<Option<Seq<u8>>, HartError>(Some(answer.encoding()))
            &&& device.having_heard(bytes) == device.after(request.command as u16, request.data)
            &&& frame::decodes(answer.encoding()) == Ok::<FrameView, HartError>(answer)
            &&& transport::hearing(request.command, Some(answer.encoding())) == (if response.0
                == OK {
                Hearing::Answer(response.1)
            } else {
                Hearing::Refused(HartError::ResponseCode(response.0))
            })
        }),
{
    let request = frame::decodes(bytes)->Ok_0;
    frame_laws::read_frame_is_sent_on(bytes);
    frame_laws::frame_decodes_back(device.answer_to(request));
    device_laws::answer_opens_with_its_status(device, request.command as u16, request.data);
}

/// A device that hears a frame that is no request, or is one to another, is
/// silent and left as it was; so is one that hears what is no frame, but for
/// saying what is wrong with it.
pub proof fn device_not_asked_is_left_alone(device: DeviceView, bytes: Seq<u8>)
    requires
        !device.is_asked(bytes),
    ensures
        device.having_heard(bytes) == device,
        device.reply(bytes) == (match frame::decodes(bytes) {
            Ok(_) => Ok::<Option<Seq<u8>>, HartError>(None),
            Err(error) => Err::<Option<Seq<u8>>, HartError>(error),
        }),
{
}

/// A request put on the line is heard by the device that the line carries it
/// to, at what a frame holds of the address, which is all of one that fits; it
/// does what it says and answers; and the answer is, to the master that asked,
/// the data of what the device answered, or the code it refused with.
pub proof fn request_is_answered(device: DeviceView, address: Address, command: u8, data: Seq<u8>)
    requires
        device.hears(address.carried()),
        data.len() <= MAX_DATA,
        device.answering(command as u16, data).len() <= MAX_DATA,
    ensures
        ({
            let request = transport::asking(address, command, data);
            let answer = device.answer_to(request.carried());
            &&& device.reply(request.encoding()) == Ok::<Option<Seq<u8>>, HartError>(
                Some(answer.encoding()),
            )
            &&& device.having_heard(request.encoding()) == device.after(command as u16, data)
            &&& transport::hearing(command, Some(answer.encoding())) == (if device.response(
                command as u16,
                data,
            ).0 == OK {
                Hearing::Answer(device.response(command as u16, data).1)
            } else {
                Hearing::Refused(
                    HartError::ResponseCode(device.response(command as u16, data).0),
                )
            })
        }),
{
    let request = transport::asking(address, command, data);
    frame_laws::frame_decodes_back(request);
    asked_device_answers(device, request.encoding());
}

/// A request that the line carries to another device is met with silence and changes
/// nothing; and silence ends the exchange with the one error that is worth
/// asking again after.
pub proof fn request_to_another_is_met_with_silence(
    device: DeviceView,
    address: Address,
    command: u8,
    data: Seq<u8>,
)
    requires
        !device.hears(address.carried()),
        data.len() <= MAX_DATA,
    ensures
        ({
            let request = transport::asking(address, command, data).encoding();
            &&& device.reply(request) == Ok::<Option<Seq<u8>>, HartError>(None)
            &&& device.having_heard(request) == device
        }),
        transport::hearing(command, None) == Hearing::Refused(HartError::NoAnswer),
{
    frame_laws::frame_decodes_back(transport::asking(address, command, data));
}

/// Two devices hear one request only where it is to a polling address that
/// both are at, or where they are who it is to both.
pub proof fn one_device_hears(first: DeviceView, second: DeviceView, address: Address)
    requires
        first.hears(address),
        second.hears(address),
    ensures
        match address {
            Address::Short(_) => first.polling == second.polling,
            Address::Long { .. } => first.identity == second.identity,
        },
{
}

/// A frame that is no answer, such as a burst or another master's request,
/// does not disturb an exchange; an answer to another command ends it, and so
/// does what is no frame.
pub proof fn what_is_no_answer_is_passed_over(command: u8, bytes: Seq<u8>)
    ensures
        match frame::decodes(bytes) {
            Ok(other) => {
                &&& other.kind != Kind::Ack ==> transport::hearing(command, Some(bytes))
                    == Hearing::Other
                &&& other.kind == Kind::Ack && other.command != command ==> transport::hearing(
                    command,
                    Some(bytes),
                ) == Hearing::Refused(HartError::AnswerToSomethingElse)
            },
            Err(error) => transport::hearing(command, Some(bytes)) == Hearing::Refused(error),
        },
{
}

/// A device asked who it is, at whatever address it hears, tells the master,
/// saying three bytes of its device identifier.
pub proof fn master_learns_who_the_device_is(device: DeviceView, address: Address)
    requires
        device.hears(address.carried()),
    ensures
        ({
            let request = transport::asking(address, IDENTIFY_COMMAND, Seq::empty());
            &&& device.reply(request.encoding()) matches Ok(Some(answer))
            &&& transport::hearing(IDENTIFY_COMMAND, Some(answer)) == Hearing::Answer(
                device.identity.identification(),
            )
            &&& device::identity_in(device.identity.identification()) == Some(
                (Identity {
                    device_id: device.identity.device_id % 0x100_0000,
                    ..device.identity
                }),
            )
            &&& device.identity.device_id < 0x100_0000 ==> device::identity_in(
                device.identity.identification(),
            ) == Some(device.identity)
            &&& device.having_heard(request.encoding()) == device
        }),
{
    bytes::low_reads_back(device.identity.device_id);
    device_laws::identity_reads_back(device.identity);
    request_is_answered(device, address, IDENTIFY_COMMAND, Seq::empty());
}

/// A burst arrives, from any device, as its primary variable, from an origin
/// that names what the frame carried of its unique address, command 1 and the
/// burst.
pub proof fn burst_arrives(device: DeviceView, line: Seq<char>)
    ensures
        transport::overheard(line, device.bursting().encoding()) == Ok::<ArrivedView, HartError>(
            ArrivedView {
                origin_uri: transport::origin_of(line, device.identity.unique().carried())
                    + "?command="@ + seq!['1'] + "&burst="@ + "true"@,
                bytes: device.variable(),
            },
        ),
{
    let spoken = device.bursting();
    bytes::be_reads_back(device.primary_variable);
    frame_laws::frame_decodes_back(spoken);
    device_laws::answer_opens_with_its_status(device, READ_PRIMARY_VARIABLE, Seq::empty());
    assert(text::digits_of(1, 10, 1) == seq!['1']);
}

/// What a device is after a master has written a Stream to it over a line that
/// carries every frame; `None` where the writing ends any other way.
pub open spec fn written_over(device: DeviceView, writes: WriteView) -> Option<DeviceView>
    decreases writes.requests.len() - writes.next,
{
    if writes.next >= writes.requests.len() {
        None
    } else {
        let request = writes.transmitting();
        let after = device.having_heard(request);
        match device.reply(request) {
            Ok(Some(answer)) => match writes.step(Some(answer)) {
                Ok(Step::Done(_)) => Some(after),
                Ok(Step::Transmit(next)) => written_over(after, next),
                _ => None,
            },
            _ => None,
        }
    }
}

/// What a master has once it has read a device's Stream over a line that
/// carries every frame, or why it has none; `None` where the device falls
/// silent or what it says is no answer.
pub open spec fn read_over(device: DeviceView, reads: ReadView) -> Option<
    Result<ArrivedView, HartError>,
>
    decreases u32::MAX - reads.index,
{
    if reads.index == u32::MAX {
        None
    } else {
        let request = reads.transmitting();
        match device.reply(request) {
            Ok(Some(answer)) => match reads.step(Some(answer)) {
                Ok(Step::Done(arrived)) => Some(Ok(arrived)),
                Ok(Step::Transmit(next)) => read_over(device.having_heard(request), next),
                Ok(Step::Listen(_)) => None,
                Err(error) => Some(Err(error)),
            },
            _ => None,
        }
    }
}

/// Writing changes neither who a device is nor where it is polled.
proof fn lemma_written_stays(device: DeviceView, bytes: Seq<u8>, size: nat, count: nat)
    ensures
        ({
            let after = device_laws::written(device, bytes, size, count);
            &&& after.identity == device.identity
            &&& after.polling == device.polling
            &&& after.chunk == device.chunk
        }),
    decreases count,
{
    if count > 0 {
        lemma_written_stays(device, bytes, size, (count - 1) as nat);
    }
}

/// From request `next` on, the writing ends with the device having taken them
/// all.
proof fn lemma_written_over(device: DeviceView, address: Address, bytes: Seq<u8>, next: nat)
    requires
        device.hears(address.carried()),
        next < stream::piece_count(bytes.len(), MAX_CHUNK as nat),
    ensures
        written_over(
            device_laws::written(device, bytes, MAX_CHUNK as nat, next),
            (WriteView { next, ..transport::writing(address, bytes) }),
        ) == Some(
            device_laws::written(
                device,
                bytes,
                MAX_CHUNK as nat,
                stream::piece_count(bytes.len(), MAX_CHUNK as nat),
            ),
        ),
    decreases stream::piece_count(bytes.len(), MAX_CHUNK as nat) - next,
{
    let size = MAX_CHUNK as nat;
    let count = stream::piece_count(bytes.len(), size);
    let so_far = device_laws::written(device, bytes, size, next);
    let chunk = stream::chunk_of(bytes, size, next);
    let writes = WriteView { next, ..transport::writing(address, bytes) };
    lemma_written_stays(device, bytes, size, next);
    stream::pieces_cover(bytes.len(), size, next);
    device_laws::every_piece_is_taken(so_far, bytes, size, next);
    request_is_answered(so_far, address, WRITE_COMMAND, chunk);
    assert(writes.requests[next as int] == chunk);
    assert(so_far.having_heard(writes.transmitting()) == device_laws::written(
        device,
        bytes,
        size,
        next + 1,
    ));
    if next + 1 < count {
        lemma_written_over(device, address, bytes, next + 1);
        assert((WriteView { next: next + 1, ..writes }) == (WriteView {
            next: next + 1,
            ..transport::writing(address, bytes)
        }));
    }
}

/// A Stream a master writes, whatever it holds and whatever the device held
/// before, is the Stream the device then holds, with nothing left half
/// written and nothing else changed.
pub proof fn stream_goes_out(device: DeviceView, address: Address, bytes: Seq<u8>)
    requires
        device.hears(address.carried()),
    ensures
        written_over(device, transport::writing(address, bytes)) == Some(
            (DeviceView { held: bytes, arriving: Seq::empty(), ..device }),
        ),
{
    stream::pieces_cover(bytes.len(), MAX_CHUNK as nat, 0);
    lemma_written_over(device, address, bytes, 0);
    device_laws::stream_is_held(device, bytes, MAX_CHUNK as nat);
}

/// How the reading of `stream`, held in chunks of `size`, ends: with the whole
/// of it, or, where there are more chunks than a master asks for, as one that
/// never ends.
pub open spec fn reading_ends(
    line: Seq<char>,
    address: Address,
    stream: Seq<u8>,
    size: nat,
) -> Result<ArrivedView, HartError> {
    if stream::piece_count(stream.len(), size) <= u32::MAX {
        Ok(
            ArrivedView {
                origin_uri: transport::origin_of(line, address) + "?command=131"@,
                bytes: stream,
            },
        )
    } else {
        Err(HartError::EndlessStream)
    }
}

/// From chunk `index` on, the reading ends as the whole of it does.
proof fn lemma_read_over(device: DeviceView, line: Seq<char>, address: Address, index: u32)
    requires
        device.hears(address.carried()),
        device.chunk > 0,
        device.chunk <= MAX_CHUNK || device.held.len() <= MAX_CHUNK,
        index < stream::piece_count(device.held.len(), device.chunk),
        index < u32::MAX,
    ensures
        read_over(
            device,
            (ReadView {
                line,
                address,
                index,
                bytes: stream::joined(device.held, device.chunk, index as nat),
            }),
        ) == Some(reading_ends(line, address, device.held, device.chunk)),
    decreases u32::MAX - index,
{
    let count = stream::piece_count(device.held.len(), device.chunk);
    let piece = stream::piece(device.held, device.chunk, index as nat);
    let gathered = stream::joined(device.held, device.chunk, index as nat);
    let reads = ReadView { line, address, index, bytes: gathered };
    let request = bytes::be_bytes(index);
    bytes::be_reads_back(index);
    stream::pieces_cover(device.held.len(), device.chunk, index as nat);
    device_laws::piece_is_read(device, index);
    device_laws::every_answer_fits_a_frame(device, READ_COMMAND as u16, request);
    request_is_answered(device, address, READ_COMMAND, request);
    assert(stream::joined(device.held, device.chunk, (index + 1) as nat) == gathered + piece);
    if index + 1 == count {
        stream::pieces_are_the_stream(device.held, device.chunk);
    } else if index + 1 < u32::MAX {
        lemma_read_over(device, line, address, (index + 1) as u32);
    }
}

/// A Stream that a device holds is read by a master whole, from an origin that
/// names the device and command 131, where the device's answers fit a frame;
/// one of more chunks than a master asks for is refused as one that never ends.
pub proof fn stream_comes_in(device: DeviceView, line: Seq<char>, address: Address)
    requires
        device.hears(address.carried()),
        device.chunk > 0,
        device.chunk <= MAX_CHUNK || device.held.len() <= MAX_CHUNK,
    ensures
        read_over(device, (ReadView { line, address, index: 0, bytes: Seq::empty() })) == Some(
            reading_ends(line, address, device.held, device.chunk),
        ),
{
    stream::pieces_cover(device.held.len(), device.chunk, 0);
    lemma_read_over(device, line, address, 0);
}

/// A Stream goes out to a device at one address that the line carries to it
/// and comes back from it, at the same or another, whole.
pub proof fn stream_goes_out_and_comes_back_whole(
    device: DeviceView,
    line: Seq<char>,
    out: Address,
    back: Address,
    bytes: Seq<u8>,
)
    requires
        device.hears(out.carried()),
        device.hears(back.carried()),
        device.chunk > 0,
        device.chunk <= MAX_CHUNK || bytes.len() <= MAX_CHUNK,
        stream::piece_count(bytes.len(), device.chunk) <= u32::MAX,
    ensures
        ({
            &&& written_over(device, transport::writing(out, bytes)) matches Some(holding)
            &&& read_over(
                holding,
                (ReadView { line, address: back, index: 0, bytes: Seq::empty() }),
            ) == Some(
                Ok::<ArrivedView, HartError>(
                    ArrivedView {
                        origin_uri: transport::origin_of(line, back) + "?command=131"@,
                        bytes,
                    },
                ),
            )
        }),
{
    stream_goes_out(device, out, bytes);
    let holding = DeviceView { held: bytes, arriving: Seq::empty(), ..device };
    stream_comes_in(holding, line, back);
}

} // verus!
