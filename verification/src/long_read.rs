//! A long read as a client runs it: one request after another for the same
//! handle, each at the offset where the last response ended, until a
//! response carries fewer bytes than a chunk. What such a read gathers, how
//! often the value provider is asked in its course, and what the cache holds
//! at its end.

use crate::engine::{
    cache_after, characteristic_read, delivered, fits_frame, is_continuation, response_to,
    source_of, ReadSource,
};
use crate::fragment::lemma_fragment_then_rest;
use crate::request::{ReadRequest, ResponseView, RESPONSE_LENGTH};
use vstd::prelude::*;

verus! {

/// The course of a long read.
pub struct LongRead {
    /// The bytes of all responses, in order.
    pub bytes: Seq<u8>,
    /// How many of the requests had the value provider asked.
    pub invocations: nat,
    /// The cache after the last response.
    pub cache: Map<u16, Seq<u8>>,
}

/// The value that answers a read of `handle` at `offset` when the provider
/// would return `value`: the cached one for a continuation, else `value`.
pub open spec fn served(cache: Map<u16, Seq<u8>>, handle: u16, offset: u16, value: Seq<u8>) -> Seq<
    u8,
> {
    if is_continuation(cache, handle, offset) {
        cache[handle]
    } else {
        value
    }
}

/// The course of the read of `handle` that starts at `offset` with `cache`
/// and goes on in steps of `chunk` bytes until a response carries fewer,
/// given that the provider returns `value` whenever it is asked.
pub open spec fn long_read(
    cache: Map<u16, Seq<u8>>,
    handle: u16,
    offset: u16,
    value: Seq<u8>,
    chunk: u16,
) -> LongRead
    decreases RESPONSE_LENGTH - offset,
{
    let source = source_of(cache, handle, offset);
    let answered = served(cache, handle, offset, value);
    let piece = delivered(answered, offset, chunk);
    let next = cache_after(cache, handle, offset, source, answered, chunk);
    let asked: nat = if source == ReadSource::Provider {
        1
    } else {
        0
    };
    if chunk == 0 || piece.len() < chunk {
        LongRead { bytes: piece, invocations: asked, cache: next }
    } else {
        let rest = long_read(next, handle, (offset + chunk) as u16, value, chunk);
        LongRead {
            bytes: piece + rest.bytes,
            invocations: asked + rest.invocations,
            cache: rest.cache,
        }
    }
}

/// Each request of a long read is one read of the characteristic: where
/// the provider can return nothing but `value`, the response carries the
/// bytes that `long_read` gathers for the request, and the cache is left as
/// `long_read` takes it on.
pub proof fn lemma_read_is_a_step<P: Fn(ReadRequest) -> Vec<u8>>(
    provider: &P,
    before: Map<u16, Seq<u8>>,
    request: ReadRequest,
    chunk: u16,
    response: ResponseView,
    after: Map<u16, Seq<u8>>,
    value: Seq<u8>,
)
    requires
        characteristic_read(provider, before, request, chunk, response, after),
        forall|returned: Vec<u8>| #[trigger]
            provider.ensures((request,), returned) ==> returned@ == value,
    ensures
        response == response_to(
            request,
            served(before, request.handle, request.offset, value),
            chunk,
        ),
        response.value == delivered(
            served(before, request.handle, request.offset, value),
            request.offset,
            chunk,
        ),
        after == cache_after(
            before,
            request.handle,
            request.offset,
            source_of(before, request.handle, request.offset),
            served(before, request.handle, request.offset, value),
            chunk,
        ),
{
}

/// A read that continues at `offset` with the value in the cache gathers
/// the rest of that value.
proof fn lemma_continued_read(
    cache: Map<u16, Seq<u8>>,
    handle: u16,
    offset: u16,
    value: Seq<u8>,
    chunk: u16,
)
    requires
        chunk > 0,
        fits_frame(value),
        0 < offset <= value.len(),
        cache.contains_key(handle),
        cache[handle] == value,
    ensures
        long_read(cache, handle, offset, value, chunk).bytes == value.skip(offset as int),
    decreases value.len() - offset,
{
    let piece = delivered(value, offset, chunk);
    if piece.len() < chunk {
        assert(piece =~= value.skip(offset as int));
    } else {
        let next = (offset + chunk) as u16;
        lemma_continued_read(cache, handle, next, value, chunk);
        lemma_fragment_then_rest(value, offset as nat, chunk as nat);
    }
}

/// A read that continues at `offset` with whatever the cache holds for the
/// handle never has the provider asked.
proof fn lemma_continuation_asks_nothing(
    cache: Map<u16, Seq<u8>>,
    handle: u16,
    offset: u16,
    value: Seq<u8>,
    chunk: u16,
)
    requires
        cache.contains_key(handle),
        offset > 0,
    ensures
        long_read(cache, handle, offset, value, chunk).invocations == 0,
    decreases RESPONSE_LENGTH - offset,
{
    let piece = delivered(cache[handle], offset, chunk);
    if chunk > 0 && piece.len() >= chunk {
        lemma_continuation_asks_nothing(cache, handle, (offset + chunk) as u16, value, chunk);
    }
}

/// Round trip: the fragments of a long read, put together in order, are the
/// value the provider returned. This holds of every value that fits a
/// frame, for every chunk size above zero, with one exception: where the
/// value is exactly one chunk long it is not cached, so an older entry for
/// the handle must not reach past the first chunk, or its bytes would
/// follow.
pub proof fn lemma_long_read_round_trip(
    cache: Map<u16, Seq<u8>>,
    handle: u16,
    value: Seq<u8>,
    chunk: u16,
)
    requires
        chunk > 0,
        fits_frame(value),
        value.len() == chunk && cache.contains_key(handle) ==> delivered(
            cache[handle],
            chunk,
            chunk,
        ).len() == 0,
    ensures
        long_read(cache, handle, 0, value, chunk).bytes == value,
{
    let piece = delivered(value, 0, chunk);
    if value.len() < chunk {
        assert(piece =~= value);
    } else if value.len() == chunk {
        assert(piece =~= value);
        let again = long_read(cache, handle, chunk, value, chunk);
        assert(again.bytes =~= Seq::<u8>::empty());
        assert(piece + again.bytes =~= value);
    } else {
        let next = cache_after(cache, handle, 0, ReadSource::Provider, value, chunk);
        lemma_continued_read(next, handle, chunk, value, chunk);
        lemma_fragment_then_rest(value, 0, chunk as nat);
        assert(value.skip(0) =~= value);
    }
}

/// Single invocation: in the course of a long read the provider is asked
/// exactly once, for every chunk size above zero, with one exception: a
/// value that is exactly one chunk long and fits a frame is not cached, so
/// the request after its only fragment is a continuation only where the
/// cache held an entry for the handle before.
pub proof fn lemma_long_read_asks_once(
    cache: Map<u16, Seq<u8>>,
    handle: u16,
    value: Seq<u8>,
    chunk: u16,
)
    requires
        chunk > 0,
        value.len() == chunk && fits_frame(value) ==> cache.contains_key(handle),
    ensures
        long_read(cache, handle, 0, value, chunk).invocations == 1,
{
    if fits_frame(value) && value.len() >= chunk {
        let next = cache_after(cache, handle, 0, ReadSource::Provider, value, chunk);
        lemma_continuation_asks_nothing(next, handle, chunk, value, chunk);
    }
}

/// The exception to the single invocation: with nothing in the cache for
/// the handle, a value that is exactly one chunk long has the provider
/// asked a second time, by the request that follows its only fragment.
pub proof fn lemma_exact_chunk_asks_twice(
    cache: Map<u16, Seq<u8>>,
    handle: u16,
    value: Seq<u8>,
    chunk: u16,
)
    requires
        chunk > 0,
        fits_frame(value),
        value.len() == chunk,
        !cache.contains_key(handle),
    ensures
        long_read(cache, handle, 0, value, chunk).invocations == 2,
{
    let again = long_read(cache, handle, chunk, value, chunk);
    assert(again.invocations == 1);
}

/// Eviction: when a long read has come to its end, the cache holds nothing
/// for the handle, whatever it held before and wherever the read started,
/// so that a later read of the handle has the provider asked, at whatever
/// offset it starts. This holds for every chunk size above zero.
pub proof fn lemma_long_read_evicts(
    cache: Map<u16, Seq<u8>>,
    handle: u16,
    offset: u16,
    value: Seq<u8>,
    chunk: u16,
)
    requires
        chunk > 0,
    ensures
        !long_read(cache, handle, offset, value, chunk).cache.contains_key(handle),
        forall|later: u16| #[trigger]
            source_of(long_read(cache, handle, offset, value, chunk).cache, handle, later)
                == ReadSource::Provider,
    decreases RESPONSE_LENGTH - offset,
{
    let source = source_of(cache, handle, offset);
    let answered = served(cache, handle, offset, value);
    let piece = delivered(answered, offset, chunk);
    let next = cache_after(cache, handle, offset, source, answered, chunk);
    if piece.len() >= chunk {
        lemma_long_read_evicts(next, handle, (offset + chunk) as u16, value, chunk);
    }
}

/// A read of a handle for which the cache holds nothing has the provider
/// asked at every offset, and so has every read at offset zero.
pub proof fn lemma_provider_asked_without_entry(cache: Map<u16, Seq<u8>>, handle: u16, offset: u16)
    requires
        !cache.contains_key(handle) || offset == 0,
    ensures
        source_of(cache, handle, offset) == ReadSource::Provider,
{
}

/// Short value: a value of at most one chunk that fits a frame is returned
/// whole by a single read at offset zero, and that read adds nothing to the
/// cache. It drops what was kept for the handle where the value is shorter
/// than a chunk.
pub proof fn lemma_short_value_single_read(
    cache: Map<u16, Seq<u8>>,
    handle: u16,
    value: Seq<u8>,
    chunk: u16,
)
    requires
        value.len() <= chunk,
        fits_frame(value),
    ensures
        source_of(cache, handle, 0) == ReadSource::Provider,
        delivered(value, 0, chunk) == value,
        cache_after(cache, handle, 0, ReadSource::Provider, value, chunk) == if value.len()
            < chunk {
            cache.remove(handle)
        } else {
            cache
        },
        cache_after(cache, handle, 0, ReadSource::Provider, value, chunk).submap_of(cache),
{
    assert(delivered(value, 0, chunk) =~= value);
}

/// Boundary: a read at or past the end of the value returns no bytes and,
/// for every chunk size above zero, leaves nothing in the cache for the
/// handle.
pub proof fn lemma_read_at_end(
    cache: Map<u16, Seq<u8>>,
    handle: u16,
    offset: u16,
    source: ReadSource,
    value: Seq<u8>,
    chunk: u16,
)
    requires
        offset >= value.len(),
    ensures
        delivered(value, offset, chunk) == Seq::<u8>::empty(),
        chunk > 0 ==> !cache_after(cache, handle, offset, source, value, chunk).contains_key(
            handle,
        ),
{
}

} // verus!
