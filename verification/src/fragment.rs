//! Cutting one fragment out of an attribute value.

use vstd::prelude::*;

verus! {

/// Number of bytes of a value of `len` bytes that a read at `offset` returns
/// when at most `chunk` bytes travel per response.
pub open spec fn fragment_len(len: nat, offset: nat, chunk: nat) -> nat {
    if offset >= len {
        0
    } else if len - offset < chunk {
        (len - offset) as nat
    } else {
        chunk
    }
}

/// The bytes of `value` that a read at `offset` returns: those from `offset`
/// up to `offset + chunk`, or up to the end of the value where that comes
/// first. Nothing at all once `offset` has reached the end.
pub open spec fn fragment_of(value: Seq<u8>, offset: nat, chunk: nat) -> Seq<u8> {
    if offset >= value.len() {
        Seq::empty()
    } else {
        value.subrange(offset as int, (offset + fragment_len(value.len(), offset, chunk)) as int)
    }
}

/// A full fragment followed by everything after it is everything from the
/// fragment's offset on.
pub proof fn lemma_fragment_then_rest(value: Seq<u8>, offset: nat, chunk: nat)
    requires
        offset + chunk <= value.len(),
    ensures
        fragment_of(value, offset, chunk) + value.skip((offset + chunk) as int) == value.skip(
            offset as int,
        ),
{
    assert(fragment_of(value, offset, chunk) + value.skip((offset + chunk) as int) =~= value.skip(
        offset as int,
    ));
}

/// Copies out the fragment of `value` that a read at `offset` returns.
pub fn fragment(value: &Vec<u8>, offset: u16, chunk_size: u16) -> (piece: Vec<u8>)
    ensures
        piece@ == fragment_of(value@, offset as nat, chunk_size as nat),
{
    let len: usize = value.len();
    let start: usize = offset as usize;
    let mut piece: Vec<u8> = Vec::new();
    if start >= len {
        return piece;
    }
    let room: usize = len - start;
    let count: usize = if room < chunk_size as usize {
        room
    } else {
        chunk_size as usize
    };
    let mut i: usize = 0;
    while i < count
        invariant
            i <= count,
            start + count <= len,
            len == value.len(),
            piece@ == value@.subrange(start as int, start + i),
        decreases count - i,
    {
        piece.push(value[start + i]);
        i += 1;
        assert(piece@ =~= value@.subrange(start as int, start + i));
    }
    piece
}

} // verus!
