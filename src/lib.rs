//! Protocol sniffing, request construction, route building and
//! request/response correlation for the gateway of a relay network.

mod bytes;
pub mod sniffer;
pub mod cryptde;
pub mod route;
pub mod messages;
pub mod factory;
pub mod proxy_server;
