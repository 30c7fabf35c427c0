//! The fragmentation engine: which value answers a read, which bytes of it
//! are returned, and what the fragment cache keeps afterwards.

use crate::cache::FragmentCache;
use crate::fragment::{fragment, fragment_len, fragment_of};
use crate::request::{ReadRequest, Response, ResponseStatus, ResponseView, RESPONSE_LENGTH};
use vstd::prelude::*;

verus! {

/// Where the value that answers a read comes from.
#[derive(Clone, Copy, Debug, PartialEq, Eq, Structural)]
pub enum ReadSource {
    /// The read continues one that is under way: the value kept in the cache
    /// answers it.
    Cache,
    /// The read starts afresh: the attribute's value provider is asked.
    Provider,
}

/// A read continues an earlier one when a value is kept for its handle and
/// it does not start at the front of the value.
pub open spec fn is_continuation(cache: Map<u16, Seq<u8>>, handle: u16, offset: u16) -> bool {
    cache.contains_key(handle) && offset > 0
}

/// Where the value that answers a read of `handle` at `offset` comes from.
pub open spec fn source_of(cache: Map<u16, Seq<u8>>, handle: u16, offset: u16) -> ReadSource {
    if is_continuation(cache, handle, offset) {
        ReadSource::Cache
    } else {
        ReadSource::Provider
    }
}

/// Whether a value is short enough for a response frame.
pub open spec fn fits_frame(value: Seq<u8>) -> bool {
    value.len() <= RESPONSE_LENGTH
}

/// The bytes returned for a read at `offset` of an attribute whose value is
/// `value`: the fragment at that offset, or nothing where the value is
/// longer than a frame can carry.
pub open spec fn delivered(value: Seq<u8>, offset: u16, chunk: u16) -> Seq<u8> {
    if fits_frame(value) {
        fragment_of(value, offset as nat, chunk as nat)
    } else {
        Seq::empty()
    }
}

/// The response to `request` for an attribute whose value is `value`.
pub open spec fn response_to(request: ReadRequest, value: Seq<u8>, chunk: u16) -> ResponseView {
    ResponseView {
        handle: request.handle,
        value: delivered(value, request.offset, chunk),
        offset: request.offset,
        len: if fits_frame(value) {
            fragment_len(value.len(), request.offset as nat, chunk as nat) as u16
        } else {
            0u16
        },
        status: if fits_frame(value) {
            ResponseStatus::Success
        } else {
            ResponseStatus::InvalidAttributeLength
        },
        conn_id: request.conn_id,
        trans_id: request.trans_id,
    }
}

/// The cache after a read of `handle` at `offset` was answered with `value`,
/// taken from `source`. A value fresh from the provider is kept when it
/// fits a frame and is longer than a chunk. Whatever is then kept for the
/// handle is dropped when fewer bytes than a chunk were returned.
pub open spec fn cache_after(
    cache: Map<u16, Seq<u8>>,
    handle: u16,
    offset: u16,
    source: ReadSource,
    value: Seq<u8>,
    chunk: u16,
) -> Map<u16, Seq<u8>> {
    let kept = if source == ReadSource::Provider && fits_frame(value) && value.len() > chunk {
        cache.insert(handle, value)
    } else {
        cache
    };
    if delivered(value, offset, chunk).len() < chunk {
        kept.remove(handle)
    } else {
        kept
    }
}

/// Tells whether `request` is answered from the cache or by asking the
/// attribute's value provider.
pub fn read_source(cache: &FragmentCache, request: &ReadRequest) -> (source: ReadSource)
    ensures
        source == source_of(cache@, request.handle, request.offset),
{
    if request.offset > 0 && cache.contains(request.handle) {
        ReadSource::Cache
    } else {
        ReadSource::Provider
    }
}

/// Answers `request` with `value`, which came from `source`, and brings the
/// cache up to date: the bytes at the requested offset are returned, a fresh
/// value that needs more than one response is kept, and the entry for the
/// handle is dropped once a response carries fewer bytes than a chunk. A
/// value too long for a frame is refused: the response carries no bytes and
/// says so in its status.
pub fn answer(
    cache: &mut FragmentCache,
    request: ReadRequest,
    source: ReadSource,
    value: Vec<u8>,
    chunk_size: u16,
) -> (response: Response)
    ensures
        response@ == response_to(request, value@, chunk_size),
        final(cache)@ == cache_after(
            old(cache)@,
            request.handle,
            request.offset,
            source,
            value@,
            chunk_size,
        ),
        response@.wf(),
        response.value@.len() <= chunk_size,
        response.value@.len() < chunk_size ==> !final(cache)@.contains_key(request.handle),
        request.offset >= value@.len() ==> response.value@.len() == 0,
        request.offset >= value@.len() && chunk_size > 0 ==> !final(cache)@.contains_key(
            request.handle,
        ),
{
    let fits: bool = value.len() <= RESPONSE_LENGTH;
    let piece: Vec<u8> = if fits {
        fragment(&value, request.offset, chunk_size)
    } else {
        Vec::new()
    };
    let len: usize = piece.len();
    let keep: bool = fits && value.len() > chunk_size as usize && match source {
        ReadSource::Provider => true,
        ReadSource::Cache => false,
    };
    if len < chunk_size as usize {
        cache.remove(request.handle);
        assert(cache@ =~= cache_after(
            old(cache)@,
            request.handle,
            request.offset,
            source,
            value@,
            chunk_size,
        ));
    } else if keep {
        cache.insert(request.handle, value);
    }
    Response {
        handle: request.handle,
        value: piece,
        offset: request.offset,
        len: len as u16,
        status: if fits {
            ResponseStatus::Success
        } else {
            ResponseStatus::InvalidAttributeLength
        },
        conn_id: request.conn_id,
        trans_id: request.trans_id,
    }
}

/// What a read of a characteristic may come to: `response` and the cache
/// `after` it, for a cache that held `before` and a characteristic whose
/// value `provider` produces. A continuation is settled by the cache alone;
/// a fresh read by whatever value the provider returned for the request.
pub open spec fn characteristic_read<P: Fn(ReadRequest) -> Vec<u8>>(
    provider: &P,
    before: Map<u16, Seq<u8>>,
    request: ReadRequest,
    chunk: u16,
    response: ResponseView,
    after: Map<u16, Seq<u8>>,
) -> bool {
    if is_continuation(before, request.handle, request.offset) {
        &&& response == response_to(request, before[request.handle], chunk)
        &&& after == cache_after(
            before,
            request.handle,
            request.offset,
            ReadSource::Cache,
            before[request.handle],
            chunk,
        )
    } else {
        exists|value: Vec<u8>|
            {
                &&& #[trigger] provider.ensures((request,), value)
                &&& response == response_to(request, value@, chunk)
                &&& after == cache_after(
                    before,
                    request.handle,
                    request.offset,
                    ReadSource::Provider,
                    value@,
                    chunk,
                )
            }
    }
}

/// Answers a read of a characteristic whose value `provider` produces. The
/// provider is asked only where the read is no continuation, and then once.
pub fn read_characteristic<P: Fn(ReadRequest) -> Vec<u8>>(
    cache: &mut FragmentCache,
    provider: &P,
    request: ReadRequest,
    chunk_size: u16,
) -> (response: Response)
    requires
        provider.requires((request,)),
    ensures
        characteristic_read(
            provider,
            old(cache)@,
            request,
            chunk_size,
            response@,
            final(cache)@,
        ),
        response@.wf(),
        response.value@.len() <= chunk_size,
        response.value@.len() < chunk_size ==> !final(cache)@.contains_key(request.handle),
{
    let kept: Option<&Vec<u8>> = match read_source(cache, &request) {
        ReadSource::Cache => cache.get(request.handle),
        ReadSource::Provider => None,
    };
    match kept {
        Some(bytes) => {
            let value: Vec<u8> = bytes.clone();
            assert(value@ =~= bytes@);
            answer(cache, request, ReadSource::Cache, value, chunk_size)
        },
        None => {
            let value: Vec<u8> = provider(request);
            answer(cache, request, ReadSource::Provider, value, chunk_size)
        },
    }
}

/// The response to a read of a descriptor whose value is `value`: all of it
/// at offset zero, or nothing where it is longer than a frame can carry.
pub open spec fn descriptor_response_to(request: ReadRequest, value: Seq<u8>) -> ResponseView {
    ResponseView {
        handle: request.handle,
        value: if fits_frame(value) {
            value
        } else {
            Seq::empty()
        },
        offset: 0,
        len: if fits_frame(value) {
            value.len() as u16
        } else {
            0u16
        },
        status: if fits_frame(value) {
            ResponseStatus::Success
        } else {
            ResponseStatus::InvalidAttributeLength
        },
        conn_id: request.conn_id,
        trans_id: request.trans_id,
    }
}

/// Answers a read of a descriptor with `value`, whole. A value too long for
/// a frame is refused: the response carries no bytes and says so in its
/// status.
pub fn answer_descriptor(request: ReadRequest, value: Vec<u8>) -> (response: Response)
    ensures
        response@ == descriptor_response_to(request, value@),
        response@.wf(),
{
    let len: usize = value.len();
    if len <= RESPONSE_LENGTH {
        Response {
            handle: request.handle,
            value,
            offset: 0,
            len: len as u16,
            status: ResponseStatus::Success,
            conn_id: request.conn_id,
            trans_id: request.trans_id,
        }
    } else {
        Response {
            handle: request.handle,
            value: Vec::new(),
            offset: 0,
            len: 0,
            status: ResponseStatus::InvalidAttributeLength,
            conn_id: request.conn_id,
            trans_id: request.trans_id,
        }
    }
}

/// Answers a read of a descriptor whose value `provider` produces: the
/// provider is asked once, whatever the offset, and nothing is cached.
pub fn read_descriptor<P: Fn(ReadRequest) -> Vec<u8>>(
    provider: &P,
    request: ReadRequest,
) -> (response: Response)
    requires
        provider.requires((request,)),
    ensures
        exists|value: Vec<u8>|
            #[trigger] provider.ensures((request,), value) && response@ == descriptor_response_to(
                request,
                value@,
            ),
        response@.wf(),
{
    let value = provider(request);
    answer_descriptor(request, value)
}

} // verus!
