use vstd::prelude::*;
use crate::messages::client::ClientMessage;

pub mod connection;
pub mod network;

verus! {

/// A message to handle, with the connection it came from.
#[derive(Debug)]
pub struct WorkOrder {
    pub connection_id: u128,
    pub message: ClientMessage,
}

} // verus!
