use privchat_gateway::config::ServerConfig;
use privchat_gateway::config::TcpConfig;
use privchat_gateway::handlers::handle_connect;
use privchat_gateway::handlers::handle_disconnect;
use privchat_gateway::handlers::handle_message;
use privchat_gateway::handlers::DispatchAction;
use privchat_gateway::handlers::DropReason;
use privchat_gateway::handlers::Packet;
use privchat_gateway::manager::Session;
use privchat_gateway::server::ChatServer;

fn listening_server() -> ChatServer {
    let config = ServerConfig {
        quic: None,
        tcp: Some(TcpConfig { address: String::from("127.0.0.1"), port: 9000 }),
        websocket: None,
    };
    let mut s = ChatServer::new(config).unwrap();
    s.start().unwrap();
    s
}

#[test]
fn deregister_before_notify_drops_second_message() {
    let mut s = listening_server();
    let a1 = handle_connect(&mut s, Session { id: 1 });
    assert!(matches!(a1, DispatchAction::RunConnectHandler { session_id: 1 }));
    let a2 = handle_message(&s, 1, Packet { message_id: 100, payload: vec![1, 2, 3] });
    match a2 {
        DispatchAction::RunMessageHandler { session, packet } => {
            assert_eq!(session.id, 1);
            assert_eq!(packet.message_id, 100);
            assert_eq!(packet.payload, vec![1, 2, 3]);
        },
        _ => panic!("first message must reach the handler"),
    }
    let a3 = handle_disconnect(&mut s, 1);
    assert!(matches!(a3, DispatchAction::RunDisconnectHandler { session_id: 1 }));
    let a4 = handle_message(&s, 1, Packet { message_id: 101, payload: vec![4] });
    assert!(matches!(
        a4,
        DispatchAction::Dropped { reason: DropReason::StaleSessionReference }
    ));
}

#[test]
fn connect_registers_session() {
    let mut s = listening_server();
    handle_connect(&mut s, Session { id: 7 });
    assert_eq!(s.connection_manager().get_connection(7), Some(Session { id: 7 }));
}

#[test]
fn connect_dropped_before_start() {
    let config = ServerConfig {
        quic: None,
        tcp: Some(TcpConfig { address: String::from("127.0.0.1"), port: 9000 }),
        websocket: None,
    };
    let mut s = ChatServer::new(config).unwrap();
    let a = handle_connect(&mut s, Session { id: 1 });
    assert!(matches!(a, DispatchAction::Dropped { reason: DropReason::NotAccepting }));
    assert_eq!(s.connection_manager().get_connection(1), None);
}

#[test]
fn connect_dropped_while_shutting_down() {
    let mut s = listening_server();
    s.begin_shutdown();
    let a = handle_connect(&mut s, Session { id: 1 });
    assert!(matches!(a, DispatchAction::Dropped { reason: DropReason::NotAccepting }));
    assert_eq!(s.connection_manager().get_connection(1), None);
}

#[test]
fn message_for_unknown_session_dropped() {
    let s = listening_server();
    let a = handle_message(&s, 42, Packet { message_id: 1, payload: vec![] });
    assert!(matches!(
        a,
        DispatchAction::Dropped { reason: DropReason::StaleSessionReference }
    ));
}

#[test]
fn disconnect_for_unknown_session_dropped() {
    let mut s = listening_server();
    let a = handle_disconnect(&mut s, 42);
    assert!(matches!(
        a,
        DispatchAction::Dropped { reason: DropReason::StaleSessionReference }
    ));
}

#[test]
fn disconnect_clears_promotion() {
    let mut s = listening_server();
    handle_connect(&mut s, Session { id: 1 });
    s.connection_manager.verify_connection(String::from("alice"), 1);
    handle_disconnect(&mut s, 1);
    assert!(s.connection_manager().get_by_user(&String::from("alice")).is_empty());
}
