use vstd::prelude::*;

verus! {

/// Why talking to a peer failed.
#[derive(Debug)]
pub enum PeerError {
    Io(String),
    Timeout,
    SendError(String),
    ReceiveError(String),
    Killed(String),
    MessageDecode(String),
    MessageEncode(String),
    Disconnected,
    Unknown(String),
    /// The peer answered a request with the wrong kind of message.
    IncorrectResponse,
    /// The blockchain refused something; carries the blockchain's message.
    Blockchain(String),
    SyncError(String),
}

} // verus!
