//! A Stream in chunks: how it is cut up to fit frames, the flags each chunk
//! travels with, and that the chunks put together are the Stream again.

use crate::bytes::push_all;
use vstd::prelude::*;
use vstd::slice::slice_subrange;

verus! {

/// The chunk is the Stream's first.
pub const FIRST: u8 = 0x40;

/// The chunk is the Stream's last.
pub const LAST: u8 = 0x80;

/// How many pieces of at most `size` bytes a Stream of `length` bytes is cut
/// into. An empty Stream is one piece.
pub open spec fn piece_count(length: nat, size: nat) -> nat {
    if length == 0 {
        1
    } else {
        ((length - 1) as nat / size + 1) as nat
    }
}

/// Where piece `index` starts.
pub open spec fn piece_start(length: nat, size: nat, index: nat) -> nat {
    if index * size < length {
        index * size
    } else {
        length
    }
}

/// Piece `index` of the Stream: `size` bytes, or what is left of them.
pub open spec fn piece(stream: Seq<u8>, size: nat, index: nat) -> Seq<u8> {
    stream.subrange(
        piece_start(stream.len(), size, index) as int,
        piece_start(stream.len(), size, index + 1) as int,
    )
}

/// The flags that piece `index` out of `count` travels with.
pub open spec fn piece_flags(index: nat, count: nat) -> u8 {
    if index == 0 {
        if index + 1 == count {
            FIRST | LAST
        } else {
            FIRST
        }
    } else if index + 1 == count {
        LAST
    } else {
        0
    }
}

/// Piece `index` as it travels: its flags, then its bytes.
pub open spec fn chunk_of(stream: Seq<u8>, size: nat, index: nat) -> Seq<u8> {
    seq![piece_flags(index, piece_count(stream.len(), size))] + piece(stream, size, index)
}

/// All the pieces up to `count`, put together.
pub open spec fn joined(stream: Seq<u8>, size: nat, count: nat) -> Seq<u8>
    decreases count,
{
    if count == 0 {
        Seq::empty()
    } else {
        joined(stream, size, (count - 1) as nat) + piece(stream, size, (count - 1) as nat)
    }
}

/// Every piece but the first starts inside the Stream, and the last one ends
/// where the Stream does.
pub proof fn pieces_cover(length: nat, size: nat, index: nat)
    requires
        size > 0,
    ensures
        index < piece_count(length, size) ==> index * size <= length,
        0 < index < piece_count(length, size) ==> index * size < length,
        index + 1 < piece_count(length, size) ==> (index + 1) * size < length,
        index >= piece_count(length, size) ==> index * size >= length,
        piece_start(length, size, index) <= piece_start(length, size, index + 1) <= length,
        piece_start(length, size, index + 1) - piece_start(length, size, index) <= size,
        piece_start(length, size, piece_count(length, size)) == length,
{
    let count = piece_count(length, size);
    assert((index + 1) * size == index * size + size) by (nonlinear_arith);
    assert(0 * size == 0) by (nonlinear_arith);
    assert(1 * size == size) by (nonlinear_arith);
    if length > 0 {
        let last = (length - 1) as nat;
        let q = last / size;
        assert(q * size <= last < q * size + size) by (nonlinear_arith)
            requires
                q == last / size,
                size > 0,
        ;
        assert((q + 1) * size == q * size + size) by (nonlinear_arith);
        if index <= q {
            assert(index * size <= q * size) by (nonlinear_arith)
                requires
                    index <= q,
            ;
        } else {
            assert(index * size >= (q + 1) * size) by (nonlinear_arith)
                requires
                    index >= q + 1,
            ;
        }
        if index + 1 <= q {
            assert((index + 1) * size <= q * size) by (nonlinear_arith)
                requires
                    index + 1 <= q,
            ;
        }
    } else {
        assert(index * size >= 0) by (nonlinear_arith);
    }
}

/// The pieces up to `count`, put together, are the Stream up to where the next
/// one starts.
pub proof fn pieces_join(stream: Seq<u8>, size: nat, count: nat)
    requires
        size > 0,
    ensures
        joined(stream, size, count) == stream.take(
            piece_start(stream.len(), size, count) as int,
        ),
    decreases count,
{
    assert(0 * size == 0) by (nonlinear_arith);
    if count == 0 {
        assert(joined(stream, size, count) =~= stream.take(0));
    } else {
        let before = (count - 1) as nat;
        pieces_join(stream, size, before);
        pieces_cover(stream.len(), size, before);
        assert(joined(stream, size, count) =~= stream.take(
            piece_start(stream.len(), size, count) as int,
        ));
    }
}

/// All the pieces of a Stream, put together, are the Stream.
pub proof fn pieces_are_the_stream(stream: Seq<u8>, size: nat)
    requires
        size > 0,
    ensures
        joined(stream, size, piece_count(stream.len(), size)) == stream,
{
    pieces_join(stream, size, piece_count(stream.len(), size));
    pieces_cover(stream.len(), size, 0);
    assert(stream.take(stream.len() as int) =~= stream);
}

/// How many pieces of at most `size` bytes a Stream of `length` bytes is.
pub(crate) fn count_pieces(length: usize, size: usize) -> (count: usize)
    requires
        size > 0,
    ensures
        count == piece_count(length as nat, size as nat),
        count <= length || count == 1,
{
    if length == 0 {
        1
    } else {
        proof {
            let last = (length - 1) as nat;
            assert(last / size as nat <= last) by (nonlinear_arith)
                requires
                    size > 0,
            ;
        }
        (length - 1) / size + 1
    }
}

/// Puts piece `index` of `stream`, as it travels, at the end of `out`.
pub(crate) fn push_chunk(out: &mut Vec<u8>, stream: &[u8], size: usize, index: usize)
    requires
        size > 0,
        index < piece_count(stream@.len(), size as nat),
    ensures
        final(out)@ == old(out)@ + chunk_of(stream@, size as nat, index as nat),
{
    proof {
        pieces_cover(stream@.len(), size as nat, index as nat);
        assert((index + 1) * size == index * size + size) by (nonlinear_arith);
    }
    let count: usize = count_pieces(stream.len(), size);
    let first: u8 = if index == 0 {
        FIRST
    } else {
        0
    };
    let last: u8 = if index + 1 == count {
        LAST
    } else {
        0
    };
    assert(0u8 | 0x80u8 == 0x80u8 && 0x40u8 | 0u8 == 0x40u8 && 0u8 | 0u8 == 0u8) by (bit_vector);
    out.push(first | last);
    let start: usize = index * size;
    let end: usize = if stream.len() - start <= size {
        stream.len()
    } else {
        start + size
    };
    push_all(out, slice_subrange(stream, start, end));
    assert(out@ =~= old(out)@ + chunk_of(stream@, size as nat, index as nat));
}

} // verus!
