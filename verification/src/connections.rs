//! Transport connections as the core sees them: a send queue of
//! serialized frames and a liveness flag.  The writer that owns the real
//! endpoint drains the queue outside the core and clears `live` when the
//! endpoint is gone.

use vstd::prelude::*;

verus! {

/// A stream-oriented transport endpoint (a network socket, typically).
pub struct TcpConnection {
    pub data_queue: Vec<Vec<u8>>,
    pub live: bool,
}

impl TcpConnection {
    /// A fresh, live connection with nothing queued.
    pub fn new() -> (c: Self)
        ensures
            c.data_queue@.len() == 0,
            c.live,
    {
        TcpConnection { data_queue: Vec::new(), live: true }
    }

    /// Queues one serialized frame for the writer, non-blocking.
    /// Refused exactly when the transport endpoint is gone — a failed
    /// send signals the permanent loss of this connection.
    pub fn send(&mut self, data: Vec<u8>) -> (r: Result<(), ()>)
        ensures
            r is Ok <==> old(self).live,
            old(self).live ==> final(self).data_queue@ == old(self).data_queue@.push(data)
                && final(self).live,
            !old(self).live ==> final(self).data_queue@ == old(self).data_queue@
                && !final(self).live,
    {
        if self.live {
            self.data_queue.push(data);
            Ok(())
        } else {
            Err(())
        }
    }
}

/// A bulk-serial endpoint: configurable, but with no implemented send
/// path — dispatching to it is a fatal configuration error rather than a
/// silent drop (a deliberate choice, surfaced as an error the caller
/// must treat as fatal instead of a runtime abort inside the core).
pub struct UsbConnection {}

/// The transport variants a strip can bind.
pub enum Connection {
    Tcp(TcpConnection),
    Usb(UsbConnection),
}

} // verus!
