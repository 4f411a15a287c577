//! The audio server.
use vstd::prelude::*;

verus! {

/// The number of channels of a server.
pub const NUM_CHANNELS: usize = 16;

/// A server that senders and listeners connect to without encryption.
pub struct Server {}

impl Server {
    /// A server that has not been started.
    pub fn new() -> (server: Self)
        ensures
            server == (Server {  }),
    {
        Server {  }
    }
}

} // verus!
