use privchat_gateway::config::transport_plan;
use privchat_gateway::config::QuicConfig;
use privchat_gateway::config::ServerConfig;
use privchat_gateway::config::TcpConfig;
use privchat_gateway::config::TransportSpec;
use privchat_gateway::config::WebSocketConfig;
use privchat_gateway::gate_server::GateServer;
use privchat_gateway::server::ChatServer;
use privchat_gateway::server::GatewayError;
use privchat_gateway::server::GatewayState;
use privchat_gateway::server::CHAT_SERVICE_KEY;

fn full_config() -> ServerConfig {
    ServerConfig {
        quic: Some(QuicConfig {
            address: String::from("0.0.0.0"),
            port: 9002,
            cert_path: String::from("certs/server.crt"),
            key_path: String::from("certs/server.key"),
        }),
        tcp: Some(TcpConfig { address: String::from("0.0.0.0"), port: 9000 }),
        websocket: Some(WebSocketConfig {
            address: String::from("0.0.0.0"),
            port: 9001,
            path: String::from("/ws"),
        }),
    }
}

#[test]
fn no_transport_fails_fast() {
    let r = ChatServer::new(ServerConfig::default());
    assert!(matches!(r, Err(GatewayError::NoTransportConfigured)));
    let r2 = GateServer::new(ServerConfig::default());
    assert!(matches!(r2, Err(GatewayError::NoTransportConfigured)));
}

#[test]
fn start_twice_is_already_started() {
    let mut s = ChatServer::new(full_config()).unwrap();
    assert_eq!(s.state, GatewayState::Configured);
    assert!(s.start().is_ok());
    assert_eq!(s.state, GatewayState::Listening);
    assert_eq!(s.start(), Err(GatewayError::AlreadyStarted));
    assert_eq!(s.state, GatewayState::Listening);
}

#[test]
fn gate_server_start_twice_is_already_started() {
    let mut s = GateServer::new(full_config()).unwrap();
    assert!(s.start().is_ok());
    assert_eq!(s.start(), Err(GatewayError::AlreadyStarted));
}

#[test]
fn lifecycle_runs_to_stopped() {
    let mut s = ChatServer::new(full_config()).unwrap();
    s.start().unwrap();
    s.begin_shutdown();
    assert_eq!(s.state, GatewayState::ShuttingDown);
    s.stop();
    assert_eq!(s.state, GatewayState::Stopped);
}

#[test]
fn shutdown_before_start_changes_nothing() {
    let mut s = ChatServer::new(full_config()).unwrap();
    s.begin_shutdown();
    assert_eq!(s.state, GatewayState::Configured);
    s.stop();
    assert_eq!(s.state, GatewayState::Configured);
}

#[test]
fn transport_plan_lists_all_in_order() {
    let plan = transport_plan(&full_config());
    assert_eq!(plan.len(), 3);
    match &plan[0] {
        TransportSpec::Tcp { address, port } => {
            assert_eq!(address, "0.0.0.0");
            assert_eq!(*port, 9000);
        },
        _ => panic!("tcp comes first"),
    }
    match &plan[1] {
        TransportSpec::WebSocket { address, port, path } => {
            assert_eq!(address, "0.0.0.0");
            assert_eq!(*port, 9001);
            assert_eq!(path, "/ws");
        },
        _ => panic!("websocket comes second"),
    }
    match &plan[2] {
        TransportSpec::Quic { address, port, cert_path, key_path } => {
            assert_eq!(address, "0.0.0.0");
            assert_eq!(*port, 9002);
            assert_eq!(cert_path, "certs/server.crt");
            assert_eq!(key_path, "certs/server.key");
        },
        _ => panic!("quic comes last"),
    }
}

#[test]
fn transport_plan_single_transport() {
    let config = ServerConfig {
        quic: None,
        tcp: None,
        websocket: Some(WebSocketConfig {
            address: String::from("::1"),
            port: 8080,
            path: String::from("/chat"),
        }),
    };
    let plan = transport_plan(&config);
    assert_eq!(plan.len(), 1);
    assert!(matches!(&plan[0], TransportSpec::WebSocket { .. }));
}

#[test]
fn gateway_container_resolves_chat_service() {
    let s = ChatServer::new(full_config()).unwrap();
    assert!(s.container().resolve(CHAT_SERVICE_KEY).is_ok());
    assert!(s.container().resolve(CHAT_SERVICE_KEY + 1).is_err());
}
