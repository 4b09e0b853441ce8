//! A listener that serves SOCKS5 and HTTP proxy clients on one port.
use crate::net::Net;
use vstd::prelude::*;

verus! {

/// The protocols a mixed listener tells apart.
#[derive(Clone, Copy, Debug, PartialEq, Eq)]
pub enum Protocol {
    Socks5,
    Http,
}

/// The version byte that opens every SOCKS5 greeting.
pub const SOCKS5_VERSION: u8 = 5;

/// The protocol of a connection, told by its first byte, which is peeked
/// and left in the stream.
pub fn protocol_of(first: u8) -> (r: Protocol)
    ensures
        r == (if first == SOCKS5_VERSION {
            Protocol::Socks5
        } else {
            Protocol::Http
        }),
{
    if first == SOCKS5_VERSION {
        Protocol::Socks5
    } else {
        Protocol::Http
    }
}

/// The two protocol servers behind a mixed listener.
pub struct HttpSocks5Server {
    /// The net that HTTP proxy requests go out through.
    pub http_net: Net,
    /// The net that SOCKS5 UDP associations listen on.
    pub socks5_listen_net: Net,
    /// The net that SOCKS5 requests go out through.
    pub socks5_net: Net,
}

impl HttpSocks5Server {
    pub fn new(listen_net: Net, net: Net) -> (r: Self)
        ensures
            r.http_net == net,
            r.socks5_listen_net == listen_net,
            r.socks5_net == net,
    {
        HttpSocks5Server { http_net: net.clone(), socks5_listen_net: listen_net, socks5_net: net }
    }

    /// Which server handles a connection whose first byte is `first`.
    pub fn protocol_for(&self, first: u8) -> (r: Protocol)
        ensures
            r == (if first == SOCKS5_VERSION {
                Protocol::Socks5
            } else {
                Protocol::Http
            }),
    {
        protocol_of(first)
    }
}

/// The configuration of a mixed listener: the address it binds.
pub struct ServerConfig {
    pub bind: String,
}

/// A mixed SOCKS5 and HTTP listener.
pub struct HttpSocks5 {
    pub listen_net: Net,
    pub bind: String,
    pub server: HttpSocks5Server,
}

impl HttpSocks5 {
    /// The name this server kind is registered under.
    pub fn kind_name() -> (r: &'static str)
        ensures
            r@ == "http+socks5"@,
    {
        "http+socks5"
    }

    pub fn new(listen_net: Net, net: Net, bind: String) -> (r: Self)
        ensures
            r.listen_net == listen_net,
            r.bind == bind,
            r.server.http_net == net,
            r.server.socks5_listen_net == listen_net,
            r.server.socks5_net == net,
    {
        HttpSocks5 { server: HttpSocks5Server::new(listen_net.clone(), net), listen_net, bind }
    }

    /// A listener built from its configuration.
    pub fn from_config(listen_net: Net, net: Net, config: ServerConfig) -> (r: Self)
        ensures
            r.listen_net == listen_net,
            r.bind == config.bind,
            r.server.http_net == net,
            r.server.socks5_net == net,
    {
        HttpSocks5::new(listen_net, net, config.bind)
    }
}

} // verus!
