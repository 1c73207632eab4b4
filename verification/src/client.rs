//! What a non-blocking receive from the server gives.
use crate::protocol::ServerMessage;
use vstd::prelude::*;

verus! {

/// A message, nothing yet, or the end of the connection.
#[derive(Debug, Clone, PartialEq, Eq)]
pub enum TryRecvStatus {
    Message(ServerMessage),
    Empty,
    Closed,
}

} // verus!
