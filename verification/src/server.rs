use vstd::prelude::*;

verus! {

/// What travels to a connection's writer path over its outbound channel:
/// a pre-encoded packet to write, or the order to shut the connection down.
#[derive(Debug)]
pub enum Event {
    Message(Vec<u8>),
    Disconnect,
}

/// What a connection asks of the broker without awaiting an answer.
#[derive(Debug)]
pub enum Request {
    Publish(String, Vec<u8>),
    DisconnectClient(String),
    Exit,
}

} // verus!
