//! The core of an audio relay.
//!
//! Senders deliver audio frames over TCP. The frames are cut out of the byte
//! stream ([`framing`]), encoded as FLAC ([`codec`]), packed into an MPEG
//! transport stream ([`mux`]) and sent to a relay on the network. The packets
//! that the relay sends back are decoded and routed ([`playout`]), by the id in
//! their headers ([`header`]), to the ring buffers ([`ring`]) of the channels
//! ([`allocator`]), from which listeners are served.
//!
//! [`session`] decides what becomes of a plain connection and [`ingest`] what
//! becomes of an encrypted one; [`announce`] reads the announcements of peers
//! and [`env`] the settings. Sockets, timers and tasks are left to the program
//! around this library.
use vstd::prelude::*;

pub mod allocator;
pub mod announce;
pub mod buffers;
pub mod codec;
pub mod env;
pub mod framing;
pub mod header;
pub mod ingest;
pub mod mux;
pub mod playout;
pub mod ring;
pub mod server;
pub mod session;

verus! {

/// A server that takes frames over encrypted connections.
pub struct Server {
    /// The certificate of the server.
    pub cert_pem: String,
    /// The private key of the certificate.
    pub privkey_pem: String,
}

impl Server {
    /// A server that has not been started.
    pub fn new(cert_pem: String, privkey_pem: String) -> (server: Self)
        ensures
            server.cert_pem == cert_pem,
            server.privkey_pem == privkey_pem,
    {
        Server { cert_pem, privkey_pem }
    }
}

} // verus!
