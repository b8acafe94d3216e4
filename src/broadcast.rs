use vstd::prelude::*;

verus! {

#[verifier::external_type_specification]
#[verifier::external_body]
pub struct ExWsSender(ws::Sender);

#[verifier::external_type_specification]
#[verifier::external_body]
pub struct ExWsError(ws::Error);

/// Why a live frame could not be broadcast.
#[derive(Debug)]
pub enum BroadcastError {
    SocketNotAvail,
    WebSocketError(ws::Error),
}

/// The live-broadcast handle: the sender of the WebSocket server, once the
/// server is up.
pub struct Broadcaster {
    sender: Option<ws::Sender>,
}

/// Relies on ws's `Sender::send`: queues `frame` as a binary message for
/// the connections the sender reaches, or reports why it could not.
#[verifier::external_body]
fn ws_send(sender: &ws::Sender, frame: Vec<u8>) -> Result<(), ws::Error> {
    sender.send(frame)
}

impl Broadcaster {
    /// Whether a sender is installed.
    pub closed spec fn ready(&self) -> bool {
        self.sender is Some
    }

    /// A handle with no sender yet.
    pub fn new() -> (r: Broadcaster)
        ensures
            !r.ready(),
    {
        Broadcaster { sender: None }
    }

    /// Installs the sender of a (re)started WebSocket server.
    pub fn update(&mut self, new_sender: ws::Sender)
        ensures
            final(self).ready(),
    {
        self.sender = Some(new_sender);
    }

    /// Whether a sender is installed.
    pub fn is_ready(&self) -> (r: bool)
        ensures
            r == self.ready(),
    {
        self.sender.is_some()
    }

    /// Broadcasts `frame`; without a sender this is `SocketNotAvail`.
    pub fn send(&self, frame: Vec<u8>) -> (r: Result<(), BroadcastError>)
        ensures
            !self.ready() ==> r matches Err(BroadcastError::SocketNotAvail),
            self.ready() ==> !(r matches Err(BroadcastError::SocketNotAvail)),
    {
        match &self.sender {
            Some(s) => match ws_send(s, frame) {
                Ok(()) => Ok(()),
                Err(e) => Err(BroadcastError::WebSocketError(e)),
            },
            None => Err(BroadcastError::SocketNotAvail),
        }
    }
}

} // verus!
