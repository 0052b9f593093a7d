use vstd::prelude::*;
use crate::messages::client::ClientMessage;
use crate::server::WorkOrder;

verus! {

/// The server's network side: what it does with what a client's socket delivers.
pub struct Network;

/// What to do with a message read from a client's socket.
pub enum SocketAction {
    /// The client closed the socket: stop reading from it.
    Stop,
    /// Queue this order for the order runners.
    Enqueue(WorkOrder),
}

/// The identifier that every order read from a socket carries.
pub open spec fn socket_order_id() -> Seq<char> {
    seq!['T', 'E', 'S', 'T']
}

impl Network {
    /// Decides what to do with a message read from the socket of connection
    /// `connection_id`: a close message stops the reading; any other message is
    /// queued as an order with identifier "TEST" and an empty payload.
    pub fn on_socket_message(connection_id: u128, is_close: bool) -> (r: SocketAction)
        ensures
            is_close ==> r is Stop,
            !is_close ==> (r matches SocketAction::Enqueue(order) && order.connection_id == connection_id
                && order.message.id@ == socket_order_id() && order.message.payload@ == Seq::<u8>::empty()),
    {
        if is_close {
            return SocketAction::Stop;
        }
        let id = "TEST".to_owned();
        proof {
            reveal_strlit("TEST");
        }
        SocketAction::Enqueue(WorkOrder { connection_id, message: ClientMessage { id, payload: vec![] } })
    }
}

} // verus!
