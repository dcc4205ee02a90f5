//! The gateway: binds to the socket multiplexer and the transport, turns
//! client data into packages for the transport, and responses from the
//! transport into writes to the client's socket.
//!
//! It holds no per-request state. Each handler returns what is to be sent,
//! and the caller sends it through the bound handle.
use vstd::prelude::*;
use crate::cryptde::{CryptDE, CryptdeError};
use crate::factory::{request_for, ClientRequestPayloadFactory};
use crate::messages::{
    ClientResponsePayload, CorePayload, Endpoint, ExpiredCoresPackage, InboundClientData,
    IncipientCoresPackage, TransmitDataMsg,
};
use crate::route::{encrypt_hops, keys_view, plain_hops, segments_view, Component, Route, RouteSegment};
use crate::bytes::copy_range;

verus! {

/// Why a message could not be handled. Each one means the gateway cannot do
/// its work, and its caller stops.
#[derive(Clone, Copy, Debug, PartialEq, Eq, Structural)]
pub enum GatewayError {
    HopperUnbound,
    DispatcherUnbound,
    RouteFailed(CryptdeError),
}

impl GatewayError {
    /// The message to stop with.
    pub fn message(&self) -> String {
        match self {
            GatewayError::HopperUnbound => "Hopper unbound in ProxyServer".to_owned(),
            GatewayError::DispatcherUnbound => "Dispatcher unbound in ProxyServer".to_owned(),
            GatewayError::RouteFailed(_) => "Couldn't create route".to_owned(),
        }
    }
}

/// The route every request takes for now, as segments over views: from this
/// node to the request handler, and back to this gateway.
pub open spec fn loopback_segments(key: Seq<u8>) -> Seq<(Seq<Seq<u8>>, Component)> {
    seq![(seq![key, key], Component::ProxyClient), (seq![key, key], Component::ProxyServer)]
}

/// The gateway, with a handle `D` to the socket multiplexer and `H` to the
/// transport once bound.
pub struct ProxyServer<C: CryptDE, D, H> {
    dispatcher: Option<D>,
    hopper: Option<H>,
    client_request_payload_factory: ClientRequestPayloadFactory,
    cryptde: C,
}

impl<C: CryptDE, D, H> ProxyServer<C, D, H> {
    pub closed spec fn spec_dispatcher(&self) -> Option<D> {
        self.dispatcher
    }

    pub closed spec fn spec_hopper(&self) -> Option<H> {
        self.hopper
    }

    pub closed spec fn spec_cryptde(&self) -> C {
        self.cryptde
    }

    /// This gateway after binding to `dispatcher` and `hopper`.
    pub closed spec fn bound_with(self, dispatcher: D, hopper: H) -> Self {
        ProxyServer { dispatcher: Some(dispatcher), hopper: Some(hopper), ..self }
    }

    /// The route that a request takes, as encrypted hop headers.
    pub open spec fn spec_route(&self) -> Result<Seq<Seq<u8>>, CryptdeError> {
        encrypt_hops(
            &self.spec_cryptde(),
            plain_hops(loopback_segments(self.spec_cryptde().spec_public_key())),
        )
    }

    /// `r` is what handling `msg` gives: an error while the transport is
    /// unbound, nothing for an empty chunk, an error when the route cannot be
    /// built, and else a package for the transport that holds the request.
    pub open spec fn sends(&self, msg: InboundClientData, r: Result<
        Option<IncipientCoresPackage>,
        GatewayError,
    >) -> bool {
        let key = self.spec_cryptde().spec_public_key();
        if self.spec_hopper() is None {
            r == Err::<Option<IncipientCoresPackage>, GatewayError>(GatewayError::HopperUnbound)
        } else if msg.data@.len() == 0 {
            r == Ok::<Option<IncipientCoresPackage>, GatewayError>(None)
        } else {
            match self.spec_route() {
                Err(e) => r == Err::<Option<IncipientCoresPackage>, GatewayError>(
                    GatewayError::RouteFailed(e),
                ),
                Ok(hops) => match r {
                    Ok(Some(pkg)) => {
                        &&& pkg.route.view_hops() == hops
                        &&& pkg.payload_destination_key@ == key
                        &&& pkg.payload matches CorePayload::Request(p) && request_for(p, msg, key)
                    },
                    _ => false,
                },
            }
        }
    }

    /// `r` is what handling `pkg` gives: nothing for a payload that is not a
    /// response, an error while the socket multiplexer is unbound, and else
    /// the response's bytes for its stream.
    pub open spec fn transmits(&self, pkg: ExpiredCoresPackage, r: Result<
        Option<TransmitDataMsg>,
        GatewayError,
    >) -> bool {
        match pkg.payload {
            CorePayload::Request(_) => r == Ok::<Option<TransmitDataMsg>, GatewayError>(None),
            CorePayload::Response(p) => if self.spec_dispatcher() is None {
                r == Err::<Option<TransmitDataMsg>, GatewayError>(GatewayError::DispatcherUnbound)
            } else {
                match r {
                    Ok(Some(t)) => {
                        &&& t.endpoint == Endpoint::Socket(p.stream_key)
                        &&& t.last_data == p.last_response
                        &&& t.data@ == p.data@
                    },
                    _ => false,
                }
            },
        }
    }

    /// An unbound gateway.
    pub fn new(cryptde: C) -> (r: Self)
        ensures
            r.spec_dispatcher() is None,
            r.spec_hopper() is None,
            r.spec_cryptde() == cryptde,
    {
        ProxyServer {
            dispatcher: None,
            hopper: None,
            client_request_payload_factory: ClientRequestPayloadFactory::new(),
            cryptde,
        }
    }

    /// Binds the gateway to its collaborators. Binding again replaces the
    /// handles, so binding twice to the same handles changes nothing.
    pub fn bind(&mut self, dispatcher: D, hopper: H)
        ensures
            *final(self) == old(self).bound_with(dispatcher, hopper),
            final(self).spec_dispatcher() == Some(dispatcher),
            final(self).spec_hopper() == Some(hopper),
            final(self).spec_cryptde() == old(self).spec_cryptde(),
    {
        self.dispatcher = Some(dispatcher);
        self.hopper = Some(hopper);
    }

    /// The handle to the socket multiplexer, once bound.
    pub fn dispatcher(&self) -> (r: Option<&D>)
        ensures
            r is Some <==> self.spec_dispatcher() is Some,
            r matches Some(d) ==> self.spec_dispatcher() == Some(*d),
    {
        self.dispatcher.as_ref()
    }

    /// The handle to the transport, once bound.
    pub fn hopper(&self) -> (r: Option<&H>)
        ensures
            r is Some <==> self.spec_hopper() is Some,
            r matches Some(h) ==> self.spec_hopper() == Some(*h),
    {
        self.hopper.as_ref()
    }

    /// The segments of the route that requests take: a stand-in that loops
    /// through this node until the network's topology is known here.
    fn route_segments(&self) -> (r: Vec<RouteSegment>)
        ensures
            segments_view(r@) == loopback_segments(self.cryptde.spec_public_key()),
    {
        let key = self.cryptde.public_key();
        let out = vec![
            RouteSegment {
                keys: vec![copy_range(&key, 0, key.len()), copy_range(&key, 0, key.len())],
                recipient: Component::ProxyClient,
            },
            RouteSegment {
                keys: vec![copy_range(&key, 0, key.len()), copy_range(&key, 0, key.len())],
                recipient: Component::ProxyServer,
            },
        ];
        assert(key@.subrange(0, key@.len() as int) =~= key@);
        assert(keys_view(out@[0].keys@) =~= seq![key@, key@]);
        assert(keys_view(out@[1].keys@) =~= seq![key@, key@]);
        assert(segments_view(out@) =~= loopback_segments(key@));
        out
    }

    /// Handles a chunk from a client socket: the package to hand to the
    /// transport, if any.
    pub fn handle_inbound_client_data(&self, msg: InboundClientData) -> (r: Result<
        Option<IncipientCoresPackage>,
        GatewayError,
    >)
        ensures
            self.sends(msg, r),
    {
        if self.hopper.is_none() {
            return Err(GatewayError::HopperUnbound);
        }
        let payload = match self.client_request_payload_factory.make(msg, &self.cryptde) {
            None => {
                return Ok(None);
            },
            Some(payload) => payload,
        };
        let segments = self.route_segments();
        let route = match Route::new(&segments, &self.cryptde) {
            Err(e) => {
                return Err(GatewayError::RouteFailed(e));
            },
            Ok(route) => route,
        };
        Ok(
            Some(
                IncipientCoresPackage {
                    route,
                    payload: CorePayload::Request(payload),
                    payload_destination_key: self.cryptde.public_key(),
                },
            ),
        )
    }

    /// Handles a package from the transport: the write to the client's
    /// socket, if the package holds a response.
    pub fn handle_expired_package(&self, pkg: ExpiredCoresPackage) -> (r: Result<
        Option<TransmitDataMsg>,
        GatewayError,
    >)
        ensures
            self.transmits(pkg, r),
    {
        match pkg.payload {
            CorePayload::Request(_) => Ok(None),
            CorePayload::Response(payload) => {
                if self.dispatcher.is_none() {
                    return Err(GatewayError::DispatcherUnbound);
                }
                Ok(
                    Some(
                        TransmitDataMsg {
                            endpoint: Endpoint::Socket(payload.stream_key),
                            last_data: payload.last_response,
                            data: payload.data,
                        },
                    ),
                )
            },
        }
    }
}

/// A response to a request travels back to the stream that sent it: when a
/// bound gateway turned client data into a request package, and a response
/// carrying that request's stream key comes back, the gateway writes the
/// response's bytes to that same stream, final exactly when the response is.
pub proof fn lemma_round_trip<C: CryptDE, D, H>(
    server: ProxyServer<C, D, H>,
    msg: InboundClientData,
    sent: Result<Option<IncipientCoresPackage>, GatewayError>,
    response: ClientResponsePayload,
    remaining_route: Route,
    back: Result<Option<TransmitDataMsg>, GatewayError>,
)
    requires
        server.spec_dispatcher() is Some,
        server.sends(msg, sent),
        sent matches Ok(Some(pkg)) && (pkg.payload matches CorePayload::Request(p)
            && response.stream_key == p.stream_key),
        server.transmits(
            (ExpiredCoresPackage { remaining_route, payload: CorePayload::Response(response) }),
            back,
        ),
    ensures
        back matches Ok(Some(t)) && t.endpoint == Endpoint::Socket(msg.stream_key) && t.data@
            == response.data@ && t.last_data == response.last_response,
{
}

/// Binding twice to the same handles leaves the gateway as one bind does, so
/// every message is then handled alike.
pub proof fn lemma_bind_idempotent<C: CryptDE, D, H>(
    server: ProxyServer<C, D, H>,
    dispatcher: D,
    hopper: H,
)
    ensures
        server.bound_with(dispatcher, hopper).bound_with(dispatcher, hopper) == server.bound_with(
            dispatcher,
            hopper,
        ),
{
}

} // verus!
