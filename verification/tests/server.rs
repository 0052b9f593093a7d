use world_server::messages::client::{ClientMessage, ClientMessageHandler, ClientMessageManager};
use world_server::server::connection::{Connection, ConnectionMap};
use world_server::server::network::{Network, SocketAction};

struct Named(&'static str);

impl ClientMessageHandler for Named {
    fn get_id(&self) -> String {
        self.0.to_string()
    }
}

fn sink() -> world_server::server::connection::Tx {
    let (tx, _rx) = tokio::sync::mpsc::unbounded_channel();
    tx
}

#[test]
fn connection_ids_are_version_4() {
    let a = Connection::new("127.0.0.1:1".to_string(), sink());
    let b = Connection::new("127.0.0.1:2".to_string(), sink());
    assert_eq!((a.id >> 76) & 0xf, 4);
    assert_eq!((a.id >> 62) & 0x3, 2);
    assert_ne!(a.id, b.id);
    assert_eq!(a.addr, "127.0.0.1:1");
}

#[test]
fn added_connection_is_found_again() {
    let mut map = ConnectionMap::new();
    let c = Connection::new("10.0.0.1:9".to_string(), sink());
    let id = c.id;
    assert!(map.get_connection(&id).is_none());
    map.add_connection(c);
    let found = map.get_connection(&id).unwrap();
    assert_eq!(found.id, id);
    assert_eq!(found.addr, "10.0.0.1:9");
    let other = Connection::new("10.0.0.2:9".to_string(), sink());
    assert!(map.get_connection(&other.id).is_none());
}

#[test]
fn registered_handler_is_found_by_its_id() {
    let mut manager: ClientMessageManager<Named> = ClientMessageManager::new();
    assert!(manager.handler_for(&"move".to_string()).is_none());
    manager.register_handler(Named("move")).unwrap();
    manager.register_handler(Named("chat")).unwrap();
    assert_eq!(manager.handler_for(&"move".to_string()).unwrap().0, "move");
    assert_eq!(manager.handler_for(&"chat".to_string()).unwrap().0, "chat");
    assert!(manager.handler_for(&"TEST".to_string()).is_none());
}

#[test]
fn second_handler_with_same_id_is_refused() {
    let mut manager: ClientMessageManager<Named> = ClientMessageManager::new();
    assert!(manager.register_handler(Named("move")).is_some());
    assert!(manager.register_handler(Named("move")).is_none());
    assert_eq!(manager.handler_for(&"move".to_string()).unwrap().0, "move");
}

#[test]
fn register_as_files_under_given_id() {
    let mut manager: ClientMessageManager<Named> = ClientMessageManager::new();
    manager.register_as("alias".to_string(), Named("real"));
    assert_eq!(manager.handler_for(&"alias".to_string()).unwrap().0, "real");
    assert!(manager.handler_for(&"real".to_string()).is_none());
}

#[test]
fn close_message_stops_reading() {
    assert!(matches!(Network::on_socket_message(7, true), SocketAction::Stop));
}

#[test]
fn other_message_becomes_a_test_order() {
    match Network::on_socket_message(7, false) {
        SocketAction::Enqueue(order) => {
            assert_eq!(order.connection_id, 7);
            assert_eq!(order.message.id, "TEST");
            assert!(order.message.payload.is_empty());
        }
        SocketAction::Stop => panic!("expected an order"),
    }
}

#[test]
fn client_message_clones() {
    let m = ClientMessage { id: "x".to_string(), payload: vec![1, 2] };
    let n = m.clone();
    assert_eq!(n.id, "x");
    assert_eq!(n.payload, vec![1, 2]);
}
