//! What holds of frames whatever they carry: what is written is what is read,
//! and what is not a whole frame is refused.

use crate::address;
use crate::address::Address;
use crate::bytes;
use crate::error::HartError;
use crate::frame;
use crate::frame::{
    FrameView, Kind, KIND_BITS, LONG_FRAME, MAX_DATA, MAX_PREAMBLES, MIN_PREAMBLES, PREAMBLE,
    PREAMBLES,
};
use vstd::prelude::*;

verus! {

/// A run of preambles and nothing like one after it counts for its length.
proof fn lemma_run(count: nat, rest: Seq<u8>)
    requires
        rest.len() == 0 || rest[0] != PREAMBLE,
    ensures
        frame::preambles(Seq::new(count, |i: int| PREAMBLE) + rest) == count,
    decreases count,
{
    let run = Seq::new(count, |i: int| PREAMBLE) + rest;
    if count == 0 {
        assert(run =~= rest);
    } else {
        let shorter = (count - 1) as nat;
        lemma_run(shorter, rest);
        assert(run.skip(1) =~= Seq::new(shorter, |i: int| PREAMBLE) + rest);
    }
}

/// There are as many preambles as the count says, and the byte after them, if
/// there is one, is none.
pub proof fn preambles_counted(bytes: Seq<u8>)
    ensures
        frame::preambles(bytes) <= bytes.len(),
        forall|i: int| 0 <= i < frame::preambles(bytes) ==> #[trigger] bytes[i] == PREAMBLE,
        frame::preambles(bytes) < bytes.len() ==> bytes[frame::preambles(bytes) as int] != PREAMBLE,
    decreases bytes.len(),
{
    if bytes.len() > 0 && bytes[0] == PREAMBLE {
        let rest = bytes.skip(1);
        preambles_counted(rest);
        assert forall|i: int| 0 <= i < frame::preambles(bytes) implies #[trigger] bytes[i]
            == PREAMBLE by {
            if i > 0 {
                assert(bytes[i] == rest[i - 1]);
            }
        }
    }
}

/// A run of preambles is one whatever follows the byte that ends it.
pub proof fn lemma_run_in(bytes: Seq<u8>, count: nat)
    requires
        count <= bytes.len(),
        forall|i: int| 0 <= i < count ==> #[trigger] bytes[i] == PREAMBLE,
        count < bytes.len() ==> bytes[count as int] != PREAMBLE,
    ensures
        frame::preambles(bytes) == count,
{
    lemma_run(count, bytes.skip(count as int));
    assert(bytes =~= Seq::new(count, |i: int| PREAMBLE) + bytes.skip(count as int));
}

/// A delimiter names the kind it was made from and the width of the address,
/// and is no preamble.
proof fn lemma_delimiter(said: FrameView)
    ensures
        Kind::named_by(said.delimiter()) == Some(said.kind),
        (said.delimiter() & LONG_FRAME != 0) == (said.address is Long),
        said.delimiter() != PREAMBLE,
{
    assert(0x02u8 & 0x07u8 == 0x02u8 && 0x06u8 & 0x07u8 == 0x06u8 && 0x01u8 & 0x07u8 == 0x01u8)
        by (bit_vector);
    assert((0x02u8 | 0x80u8) & 0x07u8 == 0x02u8 && (0x06u8 | 0x80u8) & 0x07u8 == 0x06u8 && (0x01u8
        | 0x80u8) & 0x07u8 == 0x01u8) by (bit_vector);
    assert(0x02u8 & 0x80u8 == 0 && 0x06u8 & 0x80u8 == 0 && 0x01u8 & 0x80u8 == 0) by (bit_vector);
    assert((0x02u8 | 0x80u8) & 0x80u8 != 0 && (0x06u8 | 0x80u8) & 0x80u8 != 0 && (0x01u8 | 0x80u8)
        & 0x80u8 != 0) by (bit_vector);
    assert(0x02u8 | 0x80u8 != 0xff && 0x06u8 | 0x80u8 != 0xff && 0x01u8 | 0x80u8 != 0xff)
        by (bit_vector);
}

/// Where the parts of a frame stand in its body.
proof fn lemma_body(said: FrameView)
    ensures
        said.address.wire(said.kind).len() == Address::width(said.address is Long),
        said.body().len() == 3 + Address::width(said.address is Long) + said.data.len(),
        said.body()[0] == said.delimiter(),
        said.body()[1 + Address::width(said.address is Long) as int] == said.command,
        said.body()[2 + Address::width(said.address is Long) as int] == said.count(),
        said.body().skip(3 + Address::width(said.address is Long) as int) == said.data,
        said.body().skip(1).take(Address::width(said.address is Long) as int)
            == said.address.wire(said.kind),
{
    address::wire_reads_back(said.address, said.kind, Seq::empty());
    assert(said.body().skip(3 + Address::width(said.address is Long) as int) =~= said.data);
    assert(said.body().skip(1).take(Address::width(said.address is Long) as int)
        =~= said.address.wire(said.kind));
}

/// A body and its check byte, whatever follows them, read as what the line
/// carries of the frame.
proof fn lemma_body_reads(said: FrameView, rest: Seq<u8>)
    requires
        said.data.len() <= MAX_DATA,
    ensures
        frame::body_read(said.body() + seq![bytes::xor_of(said.body())] + rest) == Ok::<
            (FrameView, nat),
            HartError,
        >((said.carried(), said.body().len() + 1)),
{
    lemma_delimiter(said);
    lemma_body(said);
    let long = said.address is Long;
    let body = said.body();
    let whole = body + seq![bytes::xor_of(body)] + rest;
    let at = 1 + Address::width(long) as int;
    let end = at + 2 + said.data.len();
    assert(whole.take(end) =~= body);
    assert(whole[end] == bytes::xor_of(body));
    let wire = said.address.wire(said.kind);
    assert(whole.skip(1) =~= wire + whole.skip(at));
    address::wire_reads_back(said.address, said.kind, whole.skip(at));
    assert(whole.subrange(at + 2, end) =~= body.skip(at + 2));
    assert(whole[at] == said.command);
}

/// The parts of an encoding.
proof fn lemma_encoding(said: FrameView)
    ensures
        said.encoding().len() == PREAMBLES + said.body().len() + 1,
        frame::preambles(said.encoding()) == PREAMBLES,
        forall|rest: Seq<u8>|
            #![trigger said.encoding() + rest]
            frame::preambles(said.encoding() + rest) == PREAMBLES && (said.encoding() + rest).skip(
                PREAMBLES as int,
            ) == said.body() + seq![bytes::xor_of(said.body())] + rest,
{
    lemma_delimiter(said);
    lemma_body(said);
    assert(said.encoding()[PREAMBLES as int] == said.delimiter());
    lemma_run_in(said.encoding(), PREAMBLES as nat);
    assert forall|rest: Seq<u8>|
        #![trigger said.encoding() + rest]
        frame::preambles(said.encoding() + rest) == PREAMBLES && (said.encoding() + rest).skip(
            PREAMBLES as int,
        ) == said.body() + seq![bytes::xor_of(said.body())] + rest by {
        let whole = said.encoding() + rest;
        assert(whole[PREAMBLES as int] == said.delimiter());
        lemma_run_in(whole, PREAMBLES as nat);
        assert(whole.skip(PREAMBLES as int) =~= said.body() + seq![bytes::xor_of(said.body())]
            + rest);
    }
}

/// A frame that was sent is read back, whatever follows it on the line, and
/// takes the bytes it was sent as: whole where it fits, and otherwise with
/// what the line carries of its address.
pub proof fn frame_reads_back(said: FrameView, rest: Seq<u8>)
    requires
        said.data.len() <= MAX_DATA,
    ensures
        frame::reads(said.encoding() + rest) == Ok::<(FrameView, nat), HartError>(
            (said.carried(), said.encoding().len()),
        ),
        said.fits() ==> said.carried() == said,
{
    lemma_encoding(said);
    lemma_body_reads(said, rest);
    address::wire_reads_back(said.address, said.kind, rest);
    let whole = said.encoding() + rest;
    assert(frame::preambles(whole) == PREAMBLES);
}

/// A frame that was sent and nothing after it decodes to itself, or, where its
/// address does not fit, to what the line carries of it.
pub proof fn frame_decodes_back(said: FrameView)
    requires
        said.data.len() <= MAX_DATA,
    ensures
        frame::decodes(said.encoding()) == Ok::<FrameView, HartError>(said.carried()),
        said.fits() ==> frame::decodes(said.encoding()) == Ok::<FrameView, HartError>(said),
{
    frame_reads_back(said, Seq::empty());
    assert(said.encoding() + Seq::<u8>::empty() =~= said.encoding());
}

/// What is read is a frame that fits the line, out of bytes that were there,
/// so it can be sent on and is then read as the same.
pub proof fn read_frame_is_sent_on(bytes: Seq<u8>)
    requires
        frame::reads(bytes) is Ok,
    ensures
        frame::reads(bytes)->Ok_0.0.fits(),
        frame::reads(bytes)->Ok_0.1 <= bytes.len(),
        frame::decodes(frame::reads(bytes)->Ok_0.0.encoding()) == Ok::<FrameView, HartError>(
            frame::reads(bytes)->Ok_0.0,
        ),
{
    preambles_counted(bytes);
    let opening = frame::preambles(bytes);
    let body = bytes.skip(opening as int);
    let said = frame::reads(bytes)->Ok_0.0;
    let long = body[0] & LONG_FRAME != 0;
    address::read_address_fits(body.skip(1), long);
    frame_decodes_back(said);
}

/// What a frame reads as depends on its own bytes alone: cut off right after
/// it, or with other bytes after it, it reads the same.
pub proof fn reading_stops_at_the_checksum(bytes: Seq<u8>, rest: Seq<u8>)
    requires
        frame::reads(bytes) is Ok,
    ensures
        frame::reads(bytes.take(frame::reads(bytes)->Ok_0.1 as int) + rest) == frame::reads(bytes),
{
    read_frame_is_sent_on(bytes);
    preambles_counted(bytes);
    let opening = frame::preambles(bytes);
    let taken = frame::reads(bytes)->Ok_0.1;
    let other = bytes.take(taken as int) + rest;
    assert(other[opening as int] == bytes[opening as int]);
    lemma_run_in(other, opening);
    let body = bytes.skip(opening as int);
    let body2 = other.skip(opening as int);
    let long = body[0] & LONG_FRAME != 0;
    let at = 1 + Address::width(long) as int;
    let end = at + 2 + body[at + 1];
    assert(body2.take(end + 1) =~= body.take(end + 1));
    assert(body2[0] == body.take(end + 1)[0]);
    assert(body2[at] == body.take(end + 1)[at]);
    assert(body2[at + 1] == body.take(end + 1)[at + 1]);
    assert(body2[end] == body.take(end + 1)[end]);
    assert(body2.take(end) =~= body.take(end));
    assert(body2.subrange(at + 2, end) =~= body.subrange(at + 2, end));
    assert(body2[1] == body.take(end + 1)[1]);
    assert(body2[2] == body.take(end + 1)[2]);
    if long {
        assert(body2.skip(1).subrange(2, 5) =~= body.skip(1).subrange(2, 5));
    }
}

/// Two frames one after the other on the line are read one after the other.
pub proof fn frames_read_in_turn(first: Seq<u8>, second: Seq<u8>)
    requires
        frame::decodes(first) is Ok,
        frame::decodes(second) is Ok,
    ensures
        frame::reads(first + second) == Ok::<(FrameView, nat), HartError>(
            (frame::decodes(first)->Ok_0, first.len()),
        ),
        frame::decodes((first + second).skip(first.len() as int)) == frame::decodes(second),
{
    reading_stops_at_the_checksum(first, second);
    assert(first.take(first.len() as int) =~= first);
    assert((first + second).skip(first.len() as int) =~= second);
}

/// Bytes after a frame's checksum are refused.
pub proof fn trailing_bytes_are_refused(bytes: Seq<u8>, rest: Seq<u8>)
    requires
        frame::decodes(bytes) is Ok,
        rest.len() > 0,
    ensures
        frame::decodes(bytes + rest) == Err::<FrameView, HartError>(HartError::TrailingBytes),
{
    reading_stops_at_the_checksum(bytes, rest);
    assert(bytes.take(bytes.len() as int) =~= bytes);
}

/// Where the byte count of a frame stands: past its preambles, its delimiter,
/// its address and its command.
pub open spec fn count_at(bytes: Seq<u8>) -> int {
    let opening = frame::preambles(bytes) as int;
    opening + 2 + Address::width(bytes[opening] & LONG_FRAME != 0)
}

/// A frame that reads ends as far past its byte count as that says.
proof fn lemma_frame_ends(bytes: Seq<u8>)
    requires
        frame::reads(bytes) is Ok,
    ensures
        MIN_PREAMBLES <= frame::preambles(bytes) < count_at(bytes) < bytes.len(),
        frame::reads(bytes)->Ok_0.1 == count_at(bytes) + bytes[count_at(bytes)] + 2,
        frame::reads(bytes)->Ok_0.1 <= bytes.len(),
        bytes[frame::preambles(bytes) as int] != PREAMBLE,
{
    preambles_counted(bytes);
    read_frame_is_sent_on(bytes);
}

/// A frame cut off anywhere before the end of its checksum is refused.
pub proof fn cut_frame_is_refused(bytes: Seq<u8>, upto: int)
    requires
        frame::reads(bytes) is Ok,
        0 <= upto < frame::reads(bytes)->Ok_0.1,
    ensures
        frame::reads(bytes.take(upto)) is Err,
        frame::decodes(bytes.take(upto)) is Err,
{
    lemma_frame_ends(bytes);
    preambles_counted(bytes);
    let opening = frame::preambles(bytes);
    let cut = bytes.take(upto);
    if upto <= opening {
        lemma_run_in(cut, upto as nat);
    } else {
        lemma_run_in(cut, opening);
        let body = cut.skip(opening as int);
        assert(body[0] == bytes[opening as int]);
        if upto > count_at(bytes) {
            assert(body[count_at(bytes) - opening] == bytes[count_at(bytes)]);
        }
    }
}

/// One byte of a frame changed on the line, be it of the address, the
/// command, the data or the check byte, and the checksum does not check.
pub proof fn changed_byte_is_refused(bytes: Seq<u8>, at: int, byte: u8)
    requires
        frame::reads(bytes) is Ok,
        frame::preambles(bytes) < at < frame::reads(bytes)->Ok_0.1,
        at != count_at(bytes),
        bytes[at] != byte,
    ensures
        frame::reads(bytes.update(at, byte)) == Err::<(FrameView, nat), HartError>(
            HartError::BadChecksum,
        ),
{
    lemma_frame_ends(bytes);
    preambles_counted(bytes);
    let opening = frame::preambles(bytes);
    let changed = bytes.update(at, byte);
    lemma_run_in(changed, opening);
    let body = bytes.skip(opening as int);
    let changed_body = changed.skip(opening as int);
    let end = frame::reads(bytes)->Ok_0.1 - opening - 1;
    assert(changed_body =~= body.update(at - opening, byte));
    assert(changed_body[0] == body[0]);
    assert(changed_body[count_at(bytes) - opening] == body[count_at(bytes) - opening]);
    if at - opening == end {
        assert(changed_body.take(end) =~= body.take(end));
    } else {
        assert(changed_body.take(end) =~= body.take(end).update(at - opening, byte));
        bytes::xor_tells_one_byte(body.take(end), at - opening, byte);
    }
}

/// The delimiter of a frame changed on the line, but for the bit that says how
/// wide the address is and for looking like one more preamble, and the frame
/// is refused: the delimiter is one HART does not use, or the checksum does
/// not check.
pub proof fn changed_delimiter_is_refused(bytes: Seq<u8>, byte: u8)
    requires
        frame::reads(bytes) is Ok,
        byte != bytes[frame::preambles(bytes) as int],
        byte != PREAMBLE,
        byte & LONG_FRAME == bytes[frame::preambles(bytes) as int] & LONG_FRAME,
    ensures
        frame::reads(bytes.update(frame::preambles(bytes) as int, byte)) == Err::<
            (FrameView, nat),
            HartError,
        >(
            if Kind::named_by(byte) is None {
                HartError::UnknownDelimiter(byte & KIND_BITS)
            } else {
                HartError::BadChecksum
            },
        ),
{
    lemma_frame_ends(bytes);
    preambles_counted(bytes);
    let opening = frame::preambles(bytes);
    let changed = bytes.update(opening as int, byte);
    lemma_run_in(changed, opening);
    let body = bytes.skip(opening as int);
    let changed_body = changed.skip(opening as int);
    let end = frame::reads(bytes)->Ok_0.1 - opening - 1;
    assert(changed_body =~= body.update(0, byte));
    assert(changed_body[count_at(bytes) - opening] == body[count_at(bytes) - opening]);
    assert(changed_body.take(end) =~= body.take(end).update(0, byte));
    bytes::xor_tells_one_byte(body.take(end), 0, byte);
}

/// Every start of a frame is measured right: not at all until its byte count
/// is there, and from then on as the bytes the frame takes. A frame that opens
/// with more preambles than any is measured with is refused once they are
/// there.
pub proof fn start_of_a_frame_is_measured(bytes: Seq<u8>, upto: int)
    requires
        frame::reads(bytes) is Ok,
        0 <= upto <= bytes.len(),
    ensures
        frame::measures(bytes.take(upto)) == (if frame::preambles(bytes) > MAX_PREAMBLES && upto
            > MAX_PREAMBLES {
            Err::<Option<nat>, HartError>(HartError::EndlessPreambles)
        } else if upto <= count_at(bytes) {
            Ok::<Option<nat>, HartError>(None)
        } else {
            Ok::<Option<nat>, HartError>(Some(frame::reads(bytes)->Ok_0.1))
        }),
{
    lemma_frame_ends(bytes);
    preambles_counted(bytes);
    let opening = frame::preambles(bytes);
    let cut = bytes.take(upto);
    if upto <= opening {
        lemma_run_in(cut, upto as nat);
    } else {
        lemma_run_in(cut, opening);
        let body = cut.skip(opening as int);
        assert(body[0] == bytes[opening as int]);
        if upto > count_at(bytes) {
            assert(body[count_at(bytes) - opening] == bytes[count_at(bytes)]);
        }
    }
}

/// A frame that was sent is measured as the bytes it was sent as, from its
/// byte count on and not before.
pub proof fn sent_frame_is_measured(said: FrameView, upto: int)
    requires
        said.data.len() <= MAX_DATA,
        0 <= upto <= said.encoding().len(),
    ensures
        frame::measures(said.encoding().take(upto)) == Ok::<Option<nat>, HartError>(
            if upto < PREAMBLES + 3 + Address::width(said.address is Long) {
                None
            } else {
                Some(said.encoding().len())
            },
        ),
{
    lemma_encoding(said);
    lemma_delimiter(said);
    frame_reads_back(said, Seq::empty());
    assert(said.encoding() + Seq::<u8>::empty() =~= said.encoding());
    assert(said.encoding()[PREAMBLES as int] == said.delimiter());
    start_of_a_frame_is_measured(said.encoding(), upto);
}

/// A frame that is read is measured as the bytes it takes, or refused where it
/// opens with more preambles than any frame is measured with.
pub proof fn read_frame_is_measured(bytes: Seq<u8>)
    requires
        frame::reads(bytes) is Ok,
    ensures
        frame::measures(bytes) == (if frame::preambles(bytes) > MAX_PREAMBLES {
            Err::<Option<nat>, HartError>(HartError::EndlessPreambles)
        } else {
            Ok::<Option<nat>, HartError>(Some(frame::reads(bytes)->Ok_0.1))
        }),
{
    preambles_counted(bytes);
}

/// Once a length is known, or a start refused, more bytes do not change it.
pub proof fn measure_holds(bytes: Seq<u8>, rest: Seq<u8>)
    requires
        frame::measures(bytes) != Ok::<Option<nat>, HartError>(None),
    ensures
        frame::measures(bytes + rest) == frame::measures(bytes),
{
    preambles_counted(bytes);
    preambles_counted(bytes + rest);
    let opening = frame::preambles(bytes);
    let more = bytes + rest;
    if opening > MAX_PREAMBLES {
        if frame::preambles(more) < opening {
            assert(more[frame::preambles(more) as int] == bytes[frame::preambles(more) as int]);
        }
    } else {
        assert(more[opening as int] == bytes[opening as int]);
        lemma_run_in(more, opening);
        let body = bytes.skip(opening as int);
        let body2 = more.skip(opening as int);
        assert(body2 =~= body + rest);
    }
}

} // verus!
