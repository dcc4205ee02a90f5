//! Turns a chunk from a client socket into a request payload.
use vstd::prelude::*;
use crate::cryptde::CryptDE;
use crate::messages::{ClientRequestPayload, InboundClientData};
use crate::sniffer::{
    classify, host_of, host_tag_at, host_text, lemma_http_without_host_line, line_start, protocol_of,
    text_of, ProxyProtocol, TLS_HANDSHAKE,
};

verus! {

/// The port assumed for a protocol when the listener reported none.
pub open spec fn default_port(p: ProxyProtocol) -> u16 {
    match p {
        ProxyProtocol::HTTP => 80,
        ProxyProtocol::TLS => 443,
    }
}

/// The port of the target: the listener's port, else the protocol's own.
pub open spec fn target_port_of(origin_port: Option<u16>, p: ProxyProtocol) -> u16 {
    match origin_port {
        Some(port) => port,
        None => default_port(p),
    }
}

/// `p` is the request payload for `msg`, sent by the holder of `key`.
pub open spec fn request_for(p: ClientRequestPayload, msg: InboundClientData, key: Seq<u8>) -> bool {
    &&& p.stream_key == msg.stream_key
    &&& p.last_data == msg.last_data
    &&& p.data@ == msg.data@
    &&& p.protocol == protocol_of(msg.data@)
    &&& text_of(p.target_hostname) == host_text(host_of(msg.data@))
    &&& p.target_port == target_port_of(msg.origin_port, protocol_of(msg.data@))
    &&& p.originator_public_key@ == key
}

/// Builds request payloads from client data.
#[derive(Debug)]
pub struct ClientRequestPayloadFactory {}

impl ClientRequestPayloadFactory {
    pub fn new() -> (r: ClientRequestPayloadFactory) {
        ClientRequestPayloadFactory {  }
    }

    /// The payload for `msg`; `None` exactly when it holds no bytes.
    pub fn make<C: CryptDE>(&self, msg: InboundClientData, cryptde: &C) -> (r: Option<
        ClientRequestPayload,
    >)
        ensures
            r is Some <==> msg.data@.len() > 0,
            r matches Some(p) ==> request_for(p, msg, cryptde.spec_public_key()),
    {
        if msg.data.len() == 0 {
            return None;
        }
        let (protocol, target_hostname) = classify(&msg.data);
        let target_port = match msg.origin_port {
            Some(port) => port,
            None => match protocol {
                ProxyProtocol::HTTP => 80,
                ProxyProtocol::TLS => 443,
            },
        };
        Some(
            ClientRequestPayload {
                stream_key: msg.stream_key,
                last_data: msg.last_data,
                data: msg.data,
                target_hostname,
                target_port,
                protocol,
                originator_public_key: cryptde.public_key(),
            },
        )
    }
}

/// Client data that does not start as a TLS handshake and has no line that
/// begins with `Host:` still gives a payload: HTTP, with no host.
pub proof fn lemma_payload_without_host_line(
    msg: InboundClientData,
    key: Seq<u8>,
    p: ClientRequestPayload,
)
    requires
        msg.data@.len() > 0,
        msg.data@[0] != TLS_HANDSHAKE,
        forall|i: int| line_start(msg.data@, i) ==> !host_tag_at(msg.data@, i),
        request_for(p, msg, key),
    ensures
        p.protocol == ProxyProtocol::HTTP,
        p.target_hostname is None,
{
    lemma_http_without_host_line(msg.data@);
}

} // verus!
