//! The values that cross the boundary of the read path: what arrives with a
//! read event and what is handed to the transport in answer to it.

use vstd::prelude::*;

verus! {

/// Most bytes of an attribute value that one response frame can carry.
pub const RESPONSE_LENGTH: usize = 600;

/// Most bytes of a characteristic value returned per read when no other
/// chunk size is agreed.
pub const MAX_CHUNK_SIZE: u16 = 22;

/// One read event as the transport reports it.
#[derive(Clone, Copy, Debug, PartialEq, Eq, Structural)]
pub struct ReadRequest {
    /// Handle of the attribute being read.
    pub handle: u16,
    /// Byte offset into the attribute value at which the read starts.
    pub offset: u16,
    /// Connection the request arrived on; passed through to the response.
    pub conn_id: u16,
    /// Transaction the request belongs to; passed through to the response.
    pub trans_id: u32,
}

/// Outcome reported to the client with a response.
#[derive(Clone, Copy, Debug, PartialEq, Eq, Structural)]
pub enum ResponseStatus {
    /// The response carries the requested bytes.
    Success,
    /// The attribute value is longer than a response frame can carry; the
    /// response carries no bytes.
    InvalidAttributeLength,
}

/// What the transport is asked to send in answer to one read event.
#[derive(Clone, Debug, PartialEq, Eq)]
pub struct Response {
    pub handle: u16,
    /// The bytes returned to the client.
    pub value: Vec<u8>,
    /// The offset the client asked for.
    pub offset: u16,
    /// Number of bytes in `value`.
    pub len: u16,
    pub status: ResponseStatus,
    pub conn_id: u16,
    pub trans_id: u32,
}

/// A `Response` with its bytes as a sequence.
pub struct ResponseView {
    pub handle: u16,
    pub value: Seq<u8>,
    pub offset: u16,
    pub len: u16,
    pub status: ResponseStatus,
    pub conn_id: u16,
    pub trans_id: u32,
}

impl View for Response {
    type V = ResponseView;

    open spec fn view(&self) -> ResponseView {
        ResponseView {
            handle: self.handle,
            value: self.value@,
            offset: self.offset,
            len: self.len,
            status: self.status,
            conn_id: self.conn_id,
            trans_id: self.trans_id,
        }
    }
}

impl ResponseView {
    /// The length field counts the bytes carried, and they fit a frame.
    pub open spec fn wf(self) -> bool {
        &&& self.len == self.value.len()
        &&& self.value.len() <= RESPONSE_LENGTH
    }

    /// The frame that carries this response: the bytes at the front, zeros
    /// behind them.
    pub open spec fn frame(self) -> Seq<u8> {
        Seq::new(
            RESPONSE_LENGTH as nat,
            |i: int|
                if i < self.value.len() {
                    self.value[i]
                } else {
                    0u8
                },
        )
    }
}

impl Response {
    /// Lays the bytes out in a frame of fixed size, padded with zeros.
    /// There is no frame for more bytes than one can carry.
    pub fn frame(&self) -> (frame: Option<[u8; RESPONSE_LENGTH]>)
        ensures
            match frame {
                Some(bytes) => self.value@.len() <= RESPONSE_LENGTH && bytes@ == self@.frame(),
                None => self.value@.len() > RESPONSE_LENGTH,
            },
    {
        let n: usize = self.value.len();
        if n > RESPONSE_LENGTH {
            return None;
        }
        let mut bytes: [u8; RESPONSE_LENGTH] = [0u8; RESPONSE_LENGTH];
        let mut i: usize = 0;
        while i < n
            invariant
                i <= n,
                n == self.value.len(),
                n <= RESPONSE_LENGTH,
                bytes@.len() == RESPONSE_LENGTH,
                forall|k: int| 0 <= k < i ==> bytes@[k] == self.value@[k],
                forall|k: int| i <= k < RESPONSE_LENGTH ==> bytes@[k] == 0u8,
            decreases n - i,
        {
            bytes[i] = self.value[i];
            i += 1;
        }
        assert(bytes@ =~= self@.frame());
        Some(bytes)
    }
}

} // verus!
