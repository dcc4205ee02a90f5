//! The messages that pass between the gateway, the socket multiplexer and
//! the multi-hop transport.
use vstd::prelude::*;
use crate::route::Route;
use crate::sniffer::ProxyProtocol;

verus! {

/// The identity of one client connection: the socket address of its peer,
/// as the octets of the IP address (4 or 16) and the port.
#[derive(Clone, Debug, PartialEq, Eq)]
pub struct StreamKey {
    pub ip: Vec<u8>,
    pub port: u16,
}

/// A chunk of bytes that arrived from a client socket.
#[derive(Debug, PartialEq)]
pub struct InboundClientData {
    pub stream_key: StreamKey,
    /// The port of the local listener that accepted the connection.
    pub origin_port: Option<u16>,
    pub last_data: bool,
    pub data: Vec<u8>,
}

/// A request on its way to the remote request handler.
#[derive(Debug, PartialEq)]
pub struct ClientRequestPayload {
    pub stream_key: StreamKey,
    pub last_data: bool,
    pub data: Vec<u8>,
    pub target_hostname: Option<String>,
    pub target_port: u16,
    pub protocol: ProxyProtocol,
    pub originator_public_key: Vec<u8>,
}

/// A response on its way back to the client's socket.
#[derive(Debug, PartialEq)]
pub struct ClientResponsePayload {
    pub stream_key: StreamKey,
    pub last_response: bool,
    pub data: Vec<u8>,
}

/// The payload of a package, tagged with its kind.
#[derive(Debug, PartialEq)]
pub enum CorePayload {
    Request(ClientRequestPayload),
    Response(ClientResponsePayload),
}

/// A package ready for the transport, addressed to its first hop.
#[derive(Debug, PartialEq)]
pub struct IncipientCoresPackage {
    pub route: Route,
    pub payload: CorePayload,
    pub payload_destination_key: Vec<u8>,
}

/// A package that the transport delivered here, already unwrapped.
#[derive(Debug, PartialEq)]
pub struct ExpiredCoresPackage {
    pub remaining_route: Route,
    pub payload: CorePayload,
}

/// Where the socket multiplexer sends bytes.
#[derive(Debug, PartialEq)]
pub enum Endpoint {
    Socket(StreamKey),
}

/// An instruction to the socket multiplexer to write bytes to a client.
#[derive(Debug, PartialEq)]
pub struct TransmitDataMsg {
    pub endpoint: Endpoint,
    pub last_data: bool,
    pub data: Vec<u8>,
}

} // verus!
