//! Where an IKEv2 **initiator** (client) sends its messages, and what it takes for
//! an answer.
//!
//! RFC 7296 §2.23 NAT-T: a client that has both the well-known port-500 socket and a
//! port-4500 one switches to the latter -- wrapping every message with the non-ESP
//! marker ([`wrap_ike_4500`]) -- the moment `IKE_SA_INIT`'s
//! `NAT_DETECTION_*` notifies say NAT was detected on the path. Without
//! this, a NAT'd peer floats to UDP 4500 for everything after `IKE_SA_INIT`
//! while this client's own socket never moves -- so its `IKE_AUTH` request
//! (and later the ESP-in-UDP data plane) lands nowhere and is silently
//! dropped by the OS. See [`crate::ikev2::exchange::NatStatus`]'s own doc
//! for the detection details; this module only owns the transport-switching
//! side of it.

use vstd::prelude::*;

use crate::addr::Endpoint;
use crate::bytes;
use crate::error::{Failure, IkeError};
use crate::ikev2::natt;
use crate::ikev2::natt::{unwrap_ike_4500, wrap_ike_4500};

verus! {

/// The port NAT traversal floats to (RFC 7296 §2.23).
pub const NATT_PORT: u16 = 4500;

/// The socket a message goes through.
#[derive(Debug, Clone, Copy, PartialEq, Eq, Structural)]
pub enum Socket {
    /// The well-known one.
    Ike,
    /// The one NAT traversal floats to.
    Natt,
}

/// A datagram on its way.
#[derive(Debug, Clone, PartialEq, Eq)]
pub struct Outgoing {
    pub socket: Socket,
    pub to: Endpoint,
    pub datagram: Vec<u8>,
}

/// The transport side of an initiator: whether it was given a port-4500 socket. One
/// that was not simply can't float; it errors out rather than silently staying on
/// port 500 if `IKE_SA_INIT` ever decides floating is needed without one.
pub struct Client {
    pub natt: bool,
}

/// A choice of socket with its error taken by its view.
pub open spec fn viewed_socket(result: Result<Socket, IkeError>) -> Result<Socket, Failure> {
    match result {
        Ok(socket) => Ok(socket),
        Err(error) => Err(error@),
    }
}

impl Client {
    /// The socket of an exchange.
    pub open spec fn routed(self, floated: bool) -> Result<Socket, Failure> {
        if !floated {
            Ok(Socket::Ike)
        } else if self.natt {
            Ok(Socket::Natt)
        } else {
            Err(
                Failure::Crypto(
                    "NAT-T floating required but this Client has no port-4500 socket (use Client::from_sockets)"@,
                ),
            )
        }
    }

    /// The socket of an exchange that floated, or did not. Errors if it floated but
    /// this `Client` was never given a port-4500 socket.
    pub fn route(&self, floated: bool) -> (socket: Result<Socket, IkeError>)
        ensures
            viewed_socket(socket) == self.routed(floated),
    {
        if !floated {
            Ok(Socket::Ike)
        } else if self.natt {
            Ok(Socket::Natt)
        } else {
            Err(
                IkeError::Crypto(
                    "NAT-T floating required but this Client has no port-4500 socket (use Client::from_sockets)",
                ),
            )
        }
    }

    /// The datagram that sends `message` to `server`, floated (wrapped with the
    /// non-ESP marker, to `server`'s IP on UDP 4500 instead of its own port) whenever
    /// `floated` is `true`.
    pub fn send_step(&self, message: &[u8], server: Endpoint, floated: bool) -> (out: Result<Outgoing, IkeError>)
        ensures
            match self.routed(floated) {
                Err(failure) => out matches Err(error) && error@ == failure,
                Ok(socket) => {
                    &&& out matches Ok(outgoing)
                    &&& outgoing.socket == socket
                    &&& outgoing.to.ip == server.ip
                    &&& outgoing.to.port == if floated {
                        NATT_PORT
                    } else {
                        server.port
                    }
                    &&& outgoing.datagram@ == if floated {
                        bytes::zeros(4) + message@
                    } else {
                        message@
                    }
                },
            },
    {
        let socket = match self.route(floated) {
            Ok(socket) => socket,
            Err(error) => {
                return Err(error);
            },
        };
        if floated {
            Ok(
                Outgoing {
                    socket,
                    to: Endpoint { ip: server.ip, port: NATT_PORT },
                    datagram: wrap_ike_4500(message),
                },
            )
        } else {
            Ok(Outgoing { socket, to: server, datagram: bytes::copy(message) })
        }
    }

    /// The message in a datagram that came in: behind the non-ESP marker when
    /// floated, where a datagram without it is none.
    pub fn recv_step(&self, datagram: &[u8], floated: bool) -> (message: Option<Vec<u8>>)
        ensures
            match message {
                Some(message) => if floated {
                    natt::unwrapped(datagram@) == Some(message@)
                } else {
                    message@ == datagram@
                },
                None => floated && natt::unwrapped(datagram@) is None,
            },
    {
        if !floated {
            return Some(bytes::copy(datagram));
        }
        match unwrap_ike_4500(datagram) {
            Some(message) => Some(bytes::copy(message)),
            None => None,
        }
    }
}

} // verus!
