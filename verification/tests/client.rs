//! Where the IKEv2 initiator's datagrams go.

use ryke::addr::{Endpoint, IpAddress};
use ryke::error::IkeError;
use ryke::ikev2::client::{Client, Socket, NATT_PORT};

fn server() -> Endpoint {
    Endpoint { ip: IpAddress::V4([127, 0, 0, 1]), port: 1 }
}

/// A client with no port-4500 socket must refuse floating outright, rather
/// than silently send over the unfloated transport.
#[test]
fn enable_natt_encap_errors_without_a_natt_socket() {
    let client = Client { natt: false };
    assert_eq!(client.route(false), Ok(Socket::Ike), "not floated -- nothing to enable");
    assert!(matches!(client.route(true), Err(IkeError::Crypto(_))), "floated with no port-4500 socket must error");
    assert!(matches!(client.send_step(b"message", server(), true), Err(IkeError::Crypto(_))));
}

/// Floated, a message goes to port 4500 behind the non-ESP marker, and a
/// datagram without the marker is no message.
#[test]
fn a_floated_message_goes_to_port_4500_behind_the_marker() {
    let client = Client { natt: true };
    let out = client.send_step(b"message", server(), true).unwrap();
    assert_eq!((out.socket, out.to.port), (Socket::Natt, NATT_PORT));
    assert_eq!(out.to.ip, server().ip);
    assert_eq!(out.datagram, b"\0\0\0\0message".to_vec());
    assert_eq!(client.recv_step(&out.datagram, true), Some(b"message".to_vec()));
    assert_eq!(client.recv_step(b"\0\0\x01\0message", true), None);
    assert_eq!(client.recv_step(b"\0\0", true), None);

    let out = client.send_step(b"message", server(), false).unwrap();
    assert_eq!((out.socket, out.to.port, out.datagram), (Socket::Ike, 1, b"message".to_vec()));
    assert_eq!(client.recv_step(b"message", false), Some(b"message".to_vec()));
}
