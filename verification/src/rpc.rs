//! Typed remote calls: a request encoded as a packet, the reply decoded as
//! one. The transport that carries them lives outside the library.

use vstd::prelude::*;

use crate::codec::{decode_value, encode_value, spec_decode_packet, spec_encode_packet};
use crate::value::WireCodec;
use crate::wire::WireError;

verus! {

/// Why a remote call failed: the request could not be encoded, the
/// transport failed, or the reply could not be decoded.
#[derive(Debug)]
pub enum RpcError<E> {
    Encode(WireError),
    Transport(E),
    Decode(WireError),
}

/// A client that makes typed calls over a transport.
pub struct RpcClient<T> {
    transport: T,
}

impl<T> RpcClient<T> {
    /// The transport the client was made with.
    pub closed spec fn spec_transport(&self) -> T {
        self.transport
    }

    pub fn new(transport: T) -> (r: Self)
        ensures
            r.spec_transport() == transport,
    {
        RpcClient { transport }
    }

    pub fn transport(&self) -> (r: &T)
        ensures
            *r == self.spec_transport(),
    {
        &self.transport
    }

    /// The packet a call sends for `request`.
    pub fn encode_request<Request: WireCodec, E>(&self, request: &Request) -> (r: Result<
        Vec<u8>,
        RpcError<E>,
    >)
        ensures
            match spec_encode_packet(*request) {
                Ok(bytes) => r matches Ok(v) && v@ == bytes,
                Err(e) => r matches Err(RpcError::Encode(e2)) && e2 == e,
            },
    {
        match encode_value(request) {
            Ok(bytes) => Ok(bytes),
            Err(e) => Err(RpcError::Encode(e)),
        }
    }

    /// The reply a call returns for the packet `response`.
    pub fn decode_response<Response: WireCodec, E>(&self, response: &[u8]) -> (r: Result<
        Response,
        RpcError<E>,
    >)
        ensures
            match spec_decode_packet::<Response>(response@) {
                Ok(v) => r matches Ok(x) && x.deep_view() == v,
                Err(e) => r matches Err(RpcError::Decode(e2)) && e2 == e,
            },
    {
        match decode_value(response) {
            Ok(value) => Ok(value),
            Err(e) => Err(RpcError::Decode(e)),
        }
    }
}

} // verus!
