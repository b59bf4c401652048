//! What a master transmits and what it makes of each thing it hears, at every
//! point of an exchange; and what a device on the bus makes of it.

use crate::address;
use crate::address::{Address, Reading};
use crate::bytes;
use crate::command_laws;
use crate::device;
use crate::device::DeviceView;
use crate::error::HartError;
use crate::frame;
use crate::frame::{FrameView, Kind};
use crate::frame_laws;
use crate::stream;
use crate::text;
use crate::transport;
use crate::transport::{ArrivedView, Hearing, ReadView, Step, WriteView};
use crate::transport_laws;
use vstd::prelude::*;

verus! {

/// What was heard is all of it, and nothing where nothing was.
pub proof fn all_that_was_heard_counts(heard: &[u8])
    ensures
        transport::said(Some(heard)) == Some(heard@),
        transport::said(None) is None,
{
}

/// A frame carries any data up to the most, and none past it, whole: the most
/// is what the count byte can say.
pub proof fn most_data_is_what_a_byte_counts(said: FrameView)
    ensures
        frame::MAX_DATA == u8::MAX,
        said.data.len() <= frame::MAX_DATA <==> (frame::decodes(said.encoding()) matches Ok(read)
            && read.data == said.data),
{
    if said.data.len() <= frame::MAX_DATA {
        frame_laws::frame_decodes_back(said);
    } else if frame::decodes(said.encoding()) is Ok {
        frame_laws::read_frame_is_sent_on(said.encoding());
    }
}

/// To a master that asked a command, an answer to it whose first status byte
/// is zero and is followed by a second is the data past both, from whatever
/// address; any other first status byte is a refusal with that code; and
/// without both status bytes there is no answer.
pub proof fn answer_is_heard(
    heard: Seq<u8>,
    address: Address,
    command: u8,
    code: u8,
    second: u8,
    past: Seq<u8>,
)
    ensures
        frame::decodes(heard) == Ok::<FrameView, HartError>(
            FrameView { kind: Kind::Ack, address, command, data: seq![code, second] + past },
        ) ==> transport::hearing(command, Some(heard)) == (if code == 0 {
            Hearing::Answer(past)
        } else {
            Hearing::Refused(HartError::ResponseCode(code))
        }),
        frame::decodes(heard) == Ok::<FrameView, HartError>(
            FrameView { kind: Kind::Ack, address, command, data: seq![code] },
        ) ==> transport::hearing(command, Some(heard)) == Hearing::Refused(
            HartError::ResponseCode(code),
        ),
        frame::decodes(heard) == Ok::<FrameView, HartError>(
            FrameView { kind: Kind::Ack, address, command, data: Seq::empty() },
        ) ==> transport::hearing(command, Some(heard)) == Hearing::Refused(HartError::NoStatus),
{
    command_laws::first_status_byte_decides(code, second, past);
}

/// To a master that asked a command, silence, what is no frame and an answer to
/// another command end the exchange, each with its error; a request or a burst,
/// of whatever command and whatever data, is not an answer at all.
pub proof fn what_is_no_answer_is_told_apart(command: u8, heard: Seq<u8>)
    ensures
        transport::hearing(command, None) == Hearing::Refused(HartError::NoAnswer),
        frame::decodes(heard) matches Err(error) ==> transport::hearing(command, Some(heard))
            == Hearing::Refused(error),
        frame::decodes(heard) matches Ok(said) ==> {
            &&& said.kind == Kind::Stx ==> transport::hearing(command, Some(heard)) is Other
            &&& said.kind == Kind::Back ==> transport::hearing(command, Some(heard)) is Other
            &&& said.kind == Kind::Ack && said.command != command ==> transport::hearing(
                command,
                Some(heard),
            ) == Hearing::Refused(HartError::AnswerToSomethingElse)
        },
{
}

/// A reading or a writing that hears a frame that is no answer, a burst or
/// another master's request, listens on as it was, however far it has come.
pub proof fn exchange_listens_past_what_is_no_answer(
    reads: ReadView,
    writes: WriteView,
    heard: Seq<u8>,
)
    requires
        frame::decodes(heard) is Ok,
        frame::decodes(heard)->Ok_0.kind != Kind::Ack,
    ensures
        reads.step(Some(heard)) == Ok::<Step<ReadView, ArrivedView>, HartError>(
            Step::Listen(reads),
        ),
        writes.step(Some(heard)) == Ok::<Step<WriteView, ()>, HartError>(Step::Listen(writes)),
{
}

/// The same of every such frame as it is sent, of whatever kind but an answer.
pub proof fn exchange_listens_past_a_sent_frame(reads: ReadView, writes: WriteView, said: FrameView)
    requires
        said.kind != Kind::Ack,
        said.data.len() <= 255,
    ensures
        reads.step(Some(said.encoding())) == Ok::<Step<ReadView, ArrivedView>, HartError>(
            Step::Listen(reads),
        ),
        writes.step(Some(said.encoding())) == Ok::<Step<WriteView, ()>, HartError>(
            Step::Listen(writes),
        ),
{
    frame_laws::frame_decodes_back(said);
}

/// A reading that hears an answer to command 131, two status bytes of which
/// the first is zero, a flags byte and a chunk, puts the chunk after what has
/// come. Flags with the highest bit end it, with all that has come; any others
/// have it ask for the next chunk, but for the last index that there is.
pub proof fn reading_takes_a_chunk(
    reads: ReadView,
    heard: Seq<u8>,
    address: Address,
    second: u8,
    flags: u8,
    chunk: Seq<u8>,
)
    requires
        frame::decodes(heard) == Ok::<FrameView, HartError>(
            FrameView {
                kind: Kind::Ack,
                address,
                command: 131,
                data: seq![0u8, second, flags] + chunk,
            },
        ),
    ensures
        reads.step(Some(heard)) == (if flags >= 0x80 {
            Ok::<Step<ReadView, ArrivedView>, HartError>(
                Step::Done(
                    ArrivedView {
                        origin_uri: "hart://"@ + reads.line + "/"@ + reads.address.shown()
                            + "?command=131"@,
                        bytes: reads.bytes + chunk,
                    },
                ),
            )
        } else if reads.index == 0xffff_fffe {
            Err(HartError::EndlessStream)
        } else {
            Ok(
                Step::Transmit(
                    ReadView {
                        line: reads.line,
                        address: reads.address,
                        index: (reads.index + 1) as u32,
                        bytes: reads.bytes + chunk,
                    },
                ),
            )
        }),
{
    let past = seq![flags] + chunk;
    assert(seq![0u8, second] + past =~= seq![0u8, second, flags] + chunk);
    answer_is_heard(heard, address, 131, 0, second, past);
    command_laws::flags_come_before_the_chunk(flags, chunk);
}

/// A reading that hears anything else ends with an error, but for what is no
/// answer: with that of silence, of what is no frame, of an answer to another
/// command, of the code that a device refused with, of status bytes missing or
/// of flags missing.
pub proof fn reading_goes_wrong(
    reads: ReadView,
    heard: Seq<u8>,
    address: Address,
    command: u8,
    code: u8,
    second: u8,
    past: Seq<u8>,
)
    ensures
        reads.step(None) == Err::<Step<ReadView, ArrivedView>, HartError>(HartError::NoAnswer),
        frame::decodes(heard) matches Err(error) ==> reads.step(Some(heard)) == Err::<
            Step<ReadView, ArrivedView>,
            HartError,
        >(error),
        command != 131 && frame::decodes(heard) == Ok::<FrameView, HartError>(
            FrameView { kind: Kind::Ack, address, command, data: past },
        ) ==> reads.step(Some(heard)) == Err::<Step<ReadView, ArrivedView>, HartError>(
            HartError::AnswerToSomethingElse,
        ),
        code != 0 && frame::decodes(heard) == Ok::<FrameView, HartError>(
            FrameView { kind: Kind::Ack, address, command: 131, data: seq![code, second] + past },
        ) ==> reads.step(Some(heard)) == Err::<Step<ReadView, ArrivedView>, HartError>(
            HartError::ResponseCode(code),
        ),
        frame::decodes(heard) == Ok::<FrameView, HartError>(
            FrameView { kind: Kind::Ack, address, command: 131, data: seq![code] },
        ) ==> reads.step(Some(heard)) == Err::<Step<ReadView, ArrivedView>, HartError>(
            HartError::ResponseCode(code),
        ),
        frame::decodes(heard) == Ok::<FrameView, HartError>(
            FrameView { kind: Kind::Ack, address, command: 131, data: Seq::empty() },
        ) ==> reads.step(Some(heard)) == Err::<Step<ReadView, ArrivedView>, HartError>(
            HartError::NoStatus,
        ),
        frame::decodes(heard) == Ok::<FrameView, HartError>(
            FrameView { kind: Kind::Ack, address, command: 131, data: seq![0u8, second] },
        ) ==> reads.step(Some(heard)) == Err::<Step<ReadView, ArrivedView>, HartError>(
            HartError::NoFlags,
        ),
{
    answer_is_heard(heard, address, 131, code, second, past);
    answer_is_heard(heard, address, 131, 0, second, Seq::empty());
    assert(seq![0u8, second] + Seq::<u8>::empty() =~= seq![0u8, second]);
    command_laws::flags_come_before_the_chunk(0, Seq::empty());
}

/// A reading is done only on an answer to command 131 that is no refusal and
/// whose flags say last, and then has that chunk after all that had come; it
/// asks for the next only on one whose flags do not; and it listens on only
/// where what it heard was no answer, as it was.
pub proof fn reading_ends_only_with_its_last_chunk(reads: ReadView, heard: Option<Seq<u8>>)
    ensures
        match reads.step(heard) {
            Ok(Step::Done(arrived)) => {
                &&& heard is Some
                &&& frame::decodes(heard->0) matches Ok(said)
                &&& said.kind == Kind::Ack
                &&& said.command == 131
                &&& said.data.len() >= 3
                &&& said.data[0] == 0
                &&& said.data[2] >= 0x80
                &&& arrived.bytes == reads.bytes + said.data.skip(3)
            },
            Ok(Step::Transmit(next)) => {
                &&& heard is Some
                &&& frame::decodes(heard->0) matches Ok(said)
                &&& said.kind == Kind::Ack
                &&& said.command == 131
                &&& said.data.len() >= 3
                &&& said.data[0] == 0
                &&& said.data[2] < 0x80
                &&& next.bytes == reads.bytes + said.data.skip(3)
                &&& reads.index < u32::MAX ==> next.index == reads.index + 1
                &&& next.address == reads.address
                &&& next.line == reads.line
            },
            Ok(Step::Listen(next)) => {
                &&& next == reads
                &&& heard is Some
                &&& frame::decodes(heard->0) matches Ok(said)
                &&& said.kind != Kind::Ack
            },
            Err(_) => true,
        },
{
    if heard is Some && frame::decodes(heard->0) is Ok {
        let said = frame::decodes(heard->0)->Ok_0;
        if said.data.len() >= 3 {
            let flags = said.data[2];
            assert(said.data.skip(2) =~= seq![flags] + said.data.skip(3));
            command_laws::flags_come_before_the_chunk(flags, said.data.skip(3));
        } else if said.data.len() == 2 {
            assert(said.data.skip(2) =~= Seq::empty());
        }
    }
}

/// A writing that hears an answer to command 130 that is no refusal is done
/// where it had transmitted its last request, and transmits the next where it
/// had not.
pub proof fn writing_goes_on(
    writes: WriteView,
    heard: Seq<u8>,
    address: Address,
    second: u8,
    past: Seq<u8>,
)
    requires
        frame::decodes(heard) == Ok::<FrameView, HartError>(
            FrameView {
                kind: Kind::Ack,
                address,
                command: 130,
                data: seq![0u8, second] + past,
            },
        ),
    ensures
        writes.step(Some(heard)) == (if writes.next + 1 == writes.requests.len() {
            Ok::<Step<WriteView, ()>, HartError>(Step::Done(()))
        } else {
            Ok(
                Step::Transmit(
                    WriteView {
                        address: writes.address,
                        requests: writes.requests,
                        next: writes.next + 1,
                    },
                ),
            )
        }),
{
    answer_is_heard(heard, address, 130, 0, second, past);
}

/// A writing that hears anything else ends with an error, but for what is no
/// answer: with that of silence, of what is no frame, of an answer to another
/// command, of the code that a device refused with or of status bytes missing.
pub proof fn writing_goes_wrong(
    writes: WriteView,
    heard: Seq<u8>,
    address: Address,
    command: u8,
    code: u8,
    second: u8,
    past: Seq<u8>,
)
    ensures
        writes.step(None) == Err::<Step<WriteView, ()>, HartError>(HartError::NoAnswer),
        frame::decodes(heard) matches Err(error) ==> writes.step(Some(heard)) == Err::<
            Step<WriteView, ()>,
            HartError,
        >(error),
        command != 130 && frame::decodes(heard) == Ok::<FrameView, HartError>(
            FrameView { kind: Kind::Ack, address, command, data: past },
        ) ==> writes.step(Some(heard)) == Err::<Step<WriteView, ()>, HartError>(
            HartError::AnswerToSomethingElse,
        ),
        code != 0 && frame::decodes(heard) == Ok::<FrameView, HartError>(
            FrameView { kind: Kind::Ack, address, command: 130, data: seq![code, second] + past },
        ) ==> writes.step(Some(heard)) == Err::<Step<WriteView, ()>, HartError>(
            HartError::ResponseCode(code),
        ),
        frame::decodes(heard) == Ok::<FrameView, HartError>(
            FrameView { kind: Kind::Ack, address, command: 130, data: seq![code] },
        ) ==> writes.step(Some(heard)) == Err::<Step<WriteView, ()>, HartError>(
            HartError::ResponseCode(code),
        ),
        frame::decodes(heard) == Ok::<FrameView, HartError>(
            FrameView { kind: Kind::Ack, address, command: 130, data: Seq::empty() },
        ) ==> writes.step(Some(heard)) == Err::<Step<WriteView, ()>, HartError>(
            HartError::NoStatus,
        ),
{
    answer_is_heard(heard, address, 130, code, second, past);
}

/// What a master asks is a request, to the address, of the command and with the
/// data that it was given: a writing's is command 130 with the request it has
/// come to, and a reading's command 131 with the index it has come to, most
/// significant byte first.
pub proof fn master_asks_what_it_was_given(
    address: Address,
    command: u8,
    data: Seq<u8>,
    writes: WriteView,
    reads: ReadView,
)
    ensures
        transport::asking(address, command, data) == (FrameView {
            kind: Kind::Stx,
            address,
            command,
            data,
        }),
        writes.transmitting() == (FrameView {
            kind: Kind::Stx,
            address: writes.address,
            command: 130,
            data: writes.requests[writes.next as int],
        }).encoding(),
        reads.transmitting() == (FrameView {
            kind: Kind::Stx,
            address: reads.address,
            command: 131,
            data: seq![
                (reads.index / 0x100_0000) as u8,
                (reads.index / 0x1_0000 % 0x100) as u8,
                (reads.index / 0x100 % 0x100) as u8,
                (reads.index % 0x100) as u8,
            ],
        }).encoding(),
{
    bytes::bytes_weigh_their_number(reads.index, 0, 0, 0, 0);
    let index = bytes::be_bytes(reads.index);
    assert(index =~= seq![
        (reads.index / 0x100_0000) as u8,
        (reads.index / 0x1_0000 % 0x100) as u8,
        (reads.index / 0x100 % 0x100) as u8,
        (reads.index % 0x100) as u8,
    ]);
}

/// The writing of a Stream starts at its first request and goes to the address
/// it was given. There is a request for the Stream's start, and one for each 252
/// bytes further that start before its end; each is a flags byte, first of the
/// first and last of the last, and the 252 bytes from there, or what is left.
pub proof fn stream_is_written_in_requests(address: Address, bytes: Seq<u8>, index: nat)
    ensures
        transport::writing(address, bytes).address == address,
        transport::writing(address, bytes).next == 0,
        index < transport::writing(address, bytes).requests.len() <==> index == 0 || index * 252
            < bytes.len(),
        index == 0 || index * 252 < bytes.len() ==> ({
            let start = (index * 252) as int;
            let last = start + 252 >= bytes.len();
            transport::writing(address, bytes).requests[index as int] == seq![
                if index == 0 && last {
                    0xc0u8
                } else if index == 0 {
                    0x40u8
                } else if last {
                    0x80u8
                } else {
                    0u8
                },
            ] + bytes.subrange(
                start,
                if last {
                    bytes.len() as int
                } else {
                    start + 252
                },
            )
        }),
{
    command_laws::stream_is_cut_at_its_size(bytes, 252, index);
}

/// A send whose target is an address's text, any address that text can name,
/// goes to that address and no other, whatever the master's own; so what it
/// transmits first is a request of command 130 to that address.
pub proof fn send_goes_to_the_address_it_names(
    own: Address,
    address: Address,
    name: &str,
    bytes: Seq<u8>,
)
    requires
        name@ == address.shown(),
        address matches Address::Short(polling) ==> polling < 64,
    ensures
        transport::target_of(own, Some(name)) == Reading::Names(address),
        ({
            let target = transport::target_of(own, Some(name))->Names_0;
            let transmitted = transport::writing(target, bytes).transmitting();
            &&& frame::decodes(transmitted) matches Ok(request)
            &&& request.kind == Kind::Stx
            &&& request.command == 130
            &&& request.address == address.carried()
            &&& address.fits() ==> request.address == address
        }),
{
    address::shown_reads_back(address);
    match address {
        Address::Short(_) => {
            text::digits_read_back(address->Short_0 as nat, 10, 1);
        },
        Address::Long { .. } => {},
    }
    assert(name@.len() > 0);
    let writes = transport::writing(address, bytes);
    stream_is_written_in_requests(address, bytes, 0);
    let first = FrameView {
        kind: Kind::Stx,
        address,
        command: 130,
        data: writes.requests[0],
    };
    frame_laws::frame_decodes_back(first);
    address::wire_reads_back(address, Kind::Stx, Seq::empty());
}

/// A target that names something is read for what it names alone, whatever the
/// master's own address; one that names nothing goes to the master's own,
/// whatever that is.
pub proof fn target_is_read_alone(own: Address, other: Address, name: &str)
    ensures
        name@.len() > 0 ==> {
            &&& transport::target_of(own, Some(name)) == transport::target_of(other, Some(name))
            &&& transport::target_of(own, Some(name)) == address::reading(name@)
        },
        name@.len() == 0 ==> transport::target_of(own, Some(name)) == Reading::Names(own),
        transport::target_of(own, None) == Reading::Names(own),
{
}

/// A frame that nobody asked for arrives as its data past two status bytes of
/// which the first is zero, whatever its kind, from an origin that names the
/// line, the frame's address, its command in decimal and whether it is a burst.
/// One whose first status byte is anything else is refused with that code, and
/// one without its status bytes, or what is no frame, with what is wrong.
pub proof fn frame_arrives_as_its_data(
    line: Seq<char>,
    heard: Seq<u8>,
    kind: Kind,
    address: Address,
    command: u8,
    code: u8,
    second: u8,
    past: Seq<u8>,
)
    ensures
        frame::decodes(heard) matches Err(error) ==> transport::overheard(line, heard) == Err::<
            ArrivedView,
            HartError,
        >(error),
        frame::decodes(heard) == Ok::<FrameView, HartError>(
            FrameView { kind, address, command, data: seq![0u8, second] + past },
        ) ==> transport::overheard(line, heard) == Ok::<ArrivedView, HartError>(
            ArrivedView {
                origin_uri: "hart://"@ + line + "/"@ + address.shown() + "?command="@
                    + Address::Short(command).shown() + "&burst="@ + (match kind {
                    Kind::Back => "true"@,
                    Kind::Stx => "false"@,
                    Kind::Ack => "false"@,
                }),
                bytes: past,
            },
        ),
        code != 0 && frame::decodes(heard) == Ok::<FrameView, HartError>(
            FrameView { kind, address, command, data: seq![code, second] + past },
        ) ==> transport::overheard(line, heard) == Err::<ArrivedView, HartError>(
            HartError::ResponseCode(code),
        ),
        frame::decodes(heard) == Ok::<FrameView, HartError>(
            FrameView { kind, address, command, data: seq![code] },
        ) ==> transport::overheard(line, heard) == Err::<ArrivedView, HartError>(
            HartError::ResponseCode(code),
        ),
        frame::decodes(heard) == Ok::<FrameView, HartError>(
            FrameView { kind, address, command, data: Seq::empty() },
        ) ==> transport::overheard(line, heard) == Err::<ArrivedView, HartError>(
            HartError::NoStatus,
        ),
        transport::origin_of(line, address) == "hart://"@ + line + "/"@ + address.shown(),
{
    command_laws::first_status_byte_decides(code, second, past);
    command_laws::first_status_byte_decides(0, second, past);
}

/// A device in burst mode says command 1 from its unique address, with two zero
/// bytes, the units code and the bits of its primary variable, most significant
/// byte first; and that is what arrives at whoever hears it.
pub proof fn burst_says_the_primary_variable(device: DeviceView, line: Seq<char>)
    ensures
        device.bursting().kind == Kind::Back,
        device.bursting().command == 1,
        device.bursting().address == (Address::Long {
            manufacturer: device.identity.manufacturer,
            device_type: device.identity.device_type,
            device_id: device.identity.device_id,
        }),
        ({
            let data = device.bursting().data;
            &&& data.len() == 7
            &&& data[0] == 0
            &&& data[1] == 0
            &&& data[2] == device.units
            &&& data[3] * 0x100_0000 + data[4] * 0x1_0000 + data[5] * 0x100 + data[6]
                == device.primary_variable
        }),
        ({
            &&& transport::overheard(line, device.bursting().encoding()) matches Ok(arrived)
            &&& arrived.bytes.len() == 5
            &&& arrived.bytes[0] == device.units
            &&& arrived.bytes[1] * 0x100_0000 + arrived.bytes[2] * 0x1_0000 + arrived.bytes[3]
                * 0x100 + arrived.bytes[4] == device.primary_variable
        }),
{
    command_laws::command_1_says_the_primary_variable(device, Seq::empty());
    transport_laws::burst_arrives(device, line);
}

/// A device on the bus answers a request, to its polling address or its unique
/// one, with an answer from that address to that command, and does what the
/// command does; an answer of more data than a frame carries is refused. Any
/// other frame it passes over in silence, and what is no frame it refuses; both
/// leave it as it was.
pub proof fn device_answers_requests_to_it(device: DeviceView, heard: Seq<u8>)
    ensures
        match frame::decodes(heard) {
            Err(error) => {
                &&& device.reply(heard) == Err::<Option<Seq<u8>>, HartError>(error)
                &&& device.having_heard(heard) == device
                &&& device.can_hear(heard)
            },
            Ok(said) => {
                let to_it = match said.address {
                    Address::Short(polling) => polling == device.polling,
                    Address::Long { manufacturer, device_type, device_id } => {
                        &&& manufacturer == device.identity.manufacturer
                        &&& device_type == device.identity.device_type
                        &&& device_id == device.identity.device_id
                    },
                };
                let answer = device.answering(said.command as u16, said.data);
                if said.kind == Kind::Stx && to_it {
                    &&& device.having_heard(heard) == device.after(said.command as u16, said.data)
                    &&& device.reply(heard) == (if answer.len() <= 255 {
                        Ok::<Option<Seq<u8>>, HartError>(
                            Some(
                                (FrameView {
                                    kind: Kind::Ack,
                                    address: said.address,
                                    command: said.command,
                                    data: answer,
                                }).encoding(),
                            ),
                        )
                    } else {
                        Err(HartError::TooMuchData)
                    })
                    &&& device.can_hear(heard) <==> !(said.command == 131 && said.data.len() == 4
                        && device.chunk == 0)
                } else {
                    &&& device.having_heard(heard) == device
                    &&& device.reply(heard) == Ok::<Option<Seq<u8>>, HartError>(None)
                    &&& device.can_hear(heard)
                }
            },
        },
{
}

/// Frames that are no answers: bursts, and other masters' requests.
pub open spec fn no_answers(traffic: Seq<Seq<u8>>) -> bool {
    forall|i: int|
        0 <= i < traffic.len() ==> {
            &&& frame::decodes(#[trigger] traffic[i]) is Ok
            &&& frame::decodes(traffic[i])->Ok_0.kind != Kind::Ack
        }
}

/// Where a reading goes on hearing these, one after the other, up to the first
/// that has it do anything but listen on.
pub open spec fn read_amid(reads: ReadView, traffic: Seq<Seq<u8>>) -> Result<
    Step<ReadView, ArrivedView>,
    HartError,
>
    decreases traffic.len(),
{
    if traffic.len() == 0 {
        Ok(Step::Listen(reads))
    } else {
        match reads.step(Some(traffic[0])) {
            Ok(Step::Listen(next)) => read_amid(next, traffic.skip(1)),
            other => other,
        }
    }
}

/// Where a writing goes on hearing these, one after the other, up to the first
/// that has it do anything but listen on.
pub open spec fn write_amid(writes: WriteView, traffic: Seq<Seq<u8>>) -> Result<
    Step<WriteView, ()>,
    HartError,
>
    decreases traffic.len(),
{
    if traffic.len() == 0 {
        Ok(Step::Listen(writes))
    } else {
        match writes.step(Some(traffic[0])) {
            Ok(Step::Listen(next)) => write_amid(next, traffic.skip(1)),
            other => other,
        }
    }
}

/// Whatever else is on the line between a request and what answers it, so long
/// as it is no answer, a reading and a writing go where they would have gone
/// without it.
pub proof fn traffic_changes_nothing(
    reads: ReadView,
    writes: WriteView,
    traffic: Seq<Seq<u8>>,
    answer: Seq<u8>,
)
    requires
        no_answers(traffic),
    ensures
        read_amid(reads, traffic.push(answer)) == reads.step(Some(answer)),
        write_amid(writes, traffic.push(answer)) == writes.step(Some(answer)),
        read_amid(reads, traffic) == Ok::<Step<ReadView, ArrivedView>, HartError>(
            Step::Listen(reads),
        ),
        write_amid(writes, traffic) == Ok::<Step<WriteView, ()>, HartError>(Step::Listen(writes)),
    decreases traffic.len(),
{
    reveal_with_fuel(read_amid, 2);
    reveal_with_fuel(write_amid, 2);
    let whole = traffic.push(answer);
    if traffic.len() == 0 {
        assert(whole[0] == answer);
        assert(whole.skip(1) =~= Seq::empty());
        reading_ends_only_with_its_last_chunk(reads, Some(answer));
    } else {
        assert(whole[0] == traffic[0]);
        assert(whole.skip(1) =~= traffic.skip(1).push(answer));
        assert(no_answers(traffic.skip(1))) by {
            assert forall|i: int| 0 <= i < traffic.skip(1).len() implies {
                &&& frame::decodes(#[trigger] traffic.skip(1)[i]) is Ok
                &&& frame::decodes(traffic.skip(1)[i])->Ok_0.kind != Kind::Ack
            } by {
                assert(traffic.skip(1)[i] == traffic[i + 1]);
            }
        }
        exchange_listens_past_what_is_no_answer(reads, writes, traffic[0]);
        traffic_changes_nothing(reads, writes, traffic.skip(1), answer);
    }
}

/// What a master has once it has read a device's Stream over a line that
/// carries every frame, and before each answer whatever `traffic` says.
pub open spec fn read_over_traffic(
    device: DeviceView,
    reads: ReadView,
    traffic: spec_fn(u32) -> Seq<Seq<u8>>,
) -> Option<Result<ArrivedView, HartError>>
    decreases u32::MAX - reads.index,
{
    if reads.index == u32::MAX {
        None
    } else {
        let request = reads.transmitting();
        match device.reply(request) {
            Ok(Some(answer)) => match read_amid(reads, traffic(reads.index).push(answer)) {
                Ok(Step::Done(arrived)) => Some(Ok(arrived)),
                Ok(Step::Transmit(next)) => if next.index > reads.index {
                    read_over_traffic(device.having_heard(request), next, traffic)
                } else {
                    None
                },
                Ok(Step::Listen(_)) => None,
                Err(error) => Some(Err(error)),
            },
            _ => None,
        }
    }
}

/// Traffic that is no answer changes nothing of what a reading comes to.
proof fn lemma_read_over_traffic(
    device: DeviceView,
    reads: ReadView,
    traffic: spec_fn(u32) -> Seq<Seq<u8>>,
)
    requires
        forall|index: u32| no_answers(#[trigger] traffic(index)),
    ensures
        read_over_traffic(device, reads, traffic) == transport_laws::read_over(device, reads),
    decreases u32::MAX - reads.index,
{
    if reads.index != u32::MAX {
        let request = reads.transmitting();
        match device.reply(request) {
            Ok(Some(answer)) => {
                let writes = transport::writing(reads.address, Seq::empty());
                traffic_changes_nothing(reads, writes, traffic(reads.index), answer);
                reading_ends_only_with_its_last_chunk(reads, Some(answer));
                match reads.step(Some(answer)) {
                    Ok(Step::Transmit(next)) => {
                        lemma_read_over_traffic(device.having_heard(request), next, traffic);
                    },
                    _ => {},
                }
            },
            _ => {},
        }
    }
}

/// What a device is after a master has written a Stream to it over a line that
/// carries every frame, and before each answer whatever `traffic` says; `None`
/// where the writing ends any other way.
pub open spec fn written_over_traffic(
    device: DeviceView,
    writes: WriteView,
    traffic: spec_fn(nat) -> Seq<Seq<u8>>,
) -> Option<DeviceView>
    decreases writes.requests.len() - writes.next,
{
    if writes.next >= writes.requests.len() {
        None
    } else {
        let request = writes.transmitting();
        let after = device.having_heard(request);
        match device.reply(request) {
            Ok(Some(answer)) => match write_amid(writes, traffic(writes.next).push(answer)) {
                Ok(Step::Done(_)) => Some(after),
                Ok(Step::Transmit(next)) => if next.next == writes.next + 1 && next.requests
                    == writes.requests {
                    written_over_traffic(after, next, traffic)
                } else {
                    None
                },
                _ => None,
            },
            _ => None,
        }
    }
}

/// Traffic that is no answer changes nothing of what a writing comes to.
proof fn lemma_written_over_traffic(
    device: DeviceView,
    writes: WriteView,
    traffic: spec_fn(nat) -> Seq<Seq<u8>>,
)
    requires
        forall|next: nat| no_answers(#[trigger] traffic(next)),
    ensures
        written_over_traffic(device, writes, traffic) == transport_laws::written_over(
            device,
            writes,
        ),
    decreases writes.requests.len() - writes.next,
{
    if writes.next < writes.requests.len() {
        let request = writes.transmitting();
        match device.reply(request) {
            Ok(Some(answer)) => {
                let reads = ReadView {
                    line: Seq::empty(),
                    address: writes.address,
                    index: 0,
                    bytes: Seq::empty(),
                };
                traffic_changes_nothing(reads, writes, traffic(writes.next), answer);
                match writes.step(Some(answer)) {
                    Ok(Step::Transmit(next)) => {
                        lemma_written_over_traffic(device.having_heard(request), next, traffic);
                    },
                    _ => {},
                }
            },
            _ => {},
        }
    }
}

/// A Stream that a master writes to a device goes out whole, and one that it
/// reads from a device comes in whole, whatever frames that are no answers come
/// before each answer.
pub proof fn streams_pass_amid_traffic(
    device: DeviceView,
    line: Seq<char>,
    address: Address,
    bytes: Seq<u8>,
    before_reads: spec_fn(u32) -> Seq<Seq<u8>>,
    before_writes: spec_fn(nat) -> Seq<Seq<u8>>,
)
    requires
        device.hears(address.carried()),
        0 < device.chunk <= 252,
        device.held.len() <= 0xffff_ffff * device.chunk,
        forall|index: u32| no_answers(#[trigger] before_reads(index)),
        forall|next: nat| no_answers(#[trigger] before_writes(next)),
    ensures
        read_over_traffic(
            device,
            (ReadView { line, address, index: 0, bytes: Seq::empty() }),
            before_reads,
        ) == Some(
            Ok::<ArrivedView, HartError>(
                ArrivedView {
                    origin_uri: "hart://"@ + line + "/"@ + address.shown() + "?command=131"@,
                    bytes: device.held,
                },
            ),
        ),
        written_over_traffic(device, transport::writing(address, bytes), before_writes) == Some(
            (DeviceView { held: bytes, arriving: Seq::empty(), ..device }),
        ),
{
    let reads = ReadView { line, address, index: 0, bytes: Seq::empty() };
    let writes = transport::writing(address, bytes);
    stream::pieces_cover(device.held.len(), device.chunk, 0xffff_ffff);
    lemma_read_over_traffic(device, reads, before_reads);
    transport_laws::stream_comes_in(device, line, address);
    lemma_written_over_traffic(device, writes, before_writes);
    transport_laws::stream_goes_out(device, address, bytes);
}

} // verus!
