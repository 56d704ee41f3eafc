use privchat_gateway::config::load_config;
use privchat_gateway::config::ConfigError;
use privchat_gateway::config::FieldId;
use privchat_gateway::config::SectionId;

#[test]
fn parses_full_config() {
    let text = "; gateway configuration\n[tcp]\naddress = 0.0.0.0\nport = 9000\n\n[websocket]\naddress = 0.0.0.0\nport = 9001\npath = /ws\n\n[quic]\naddress = 127.0.0.1\nport = 9002\ncert_path = certs/server.crt\nkey_path = certs/server.key\n";
    let c = load_config(text).unwrap();
    let tcp = c.tcp.unwrap();
    assert_eq!(tcp.address, "0.0.0.0");
    assert_eq!(tcp.port, 9000);
    let ws = c.websocket.unwrap();
    assert_eq!(ws.address, "0.0.0.0");
    assert_eq!(ws.port, 9001);
    assert_eq!(ws.path, "/ws");
    let quic = c.quic.unwrap();
    assert_eq!(quic.address, "127.0.0.1");
    assert_eq!(quic.port, 9002);
    assert_eq!(quic.cert_path, "certs/server.crt");
    assert_eq!(quic.key_path, "certs/server.key");
}

#[test]
fn empty_input_gives_empty_config() {
    let c = load_config("").unwrap();
    assert!(c.tcp.is_none());
    assert!(c.websocket.is_none());
    assert!(c.quic.is_none());
}

#[test]
fn missing_port_is_reported() {
    let r = load_config("[tcp]\naddress = 0.0.0.0\n");
    assert!(matches!(
        r,
        Err(ConfigError::MissingField { section: SectionId::Tcp, field: FieldId::Port })
    ));
}

#[test]
fn missing_address_is_reported() {
    let r = load_config("[tcp]\nport = 9000\n");
    assert!(matches!(
        r,
        Err(ConfigError::MissingField { section: SectionId::Tcp, field: FieldId::Address })
    ));
}

#[test]
fn missing_websocket_path_is_reported() {
    let r = load_config("[websocket]\naddress = h\nport = 80\n");
    assert!(matches!(
        r,
        Err(ConfigError::MissingField { section: SectionId::WebSocket, field: FieldId::Path })
    ));
}

#[test]
fn missing_quic_key_paths_are_reported() {
    let r = load_config("[quic]\naddress = h\nport = 80\n");
    assert!(matches!(
        r,
        Err(ConfigError::MissingField { section: SectionId::Quic, field: FieldId::CertPath })
    ));
    let r2 = load_config("[quic]\naddress = h\nport = 80\ncert_path = c\n");
    assert!(matches!(
        r2,
        Err(ConfigError::MissingField { section: SectionId::Quic, field: FieldId::KeyPath })
    ));
}

#[test]
fn port_above_range_is_invalid() {
    let r = load_config("[tcp]\naddress = h\nport = 65536\n");
    assert!(matches!(r, Err(ConfigError::InvalidPort { section: SectionId::Tcp })));
}

#[test]
fn port_with_letters_is_invalid() {
    let r = load_config("[tcp]\naddress = h\nport = 90a0\n");
    assert!(matches!(r, Err(ConfigError::InvalidPort { section: SectionId::Tcp })));
}

#[test]
fn port_too_long_is_invalid() {
    let r = load_config("[tcp]\naddress = h\nport = 000080\n");
    assert!(matches!(r, Err(ConfigError::InvalidPort { section: SectionId::Tcp })));
}

#[test]
fn port_boundary_is_accepted() {
    let c = load_config("[tcp]\naddress = h\nport = 65535\n").unwrap();
    assert_eq!(c.tcp.unwrap().port, 65535);
}

#[test]
fn last_value_wins() {
    let c = load_config("[tcp]\naddress = first\nport = 1\naddress = second\n").unwrap();
    let tcp = c.tcp.unwrap();
    assert_eq!(tcp.address, "second");
    assert_eq!(tcp.port, 1);
}

#[test]
fn unknown_sections_and_keys_are_ignored() {
    let text = "[metrics]\naddress = 1.2.3.4\n[tcp]\naddress = h\nport = 5\ncolor = blue\n";
    let c = load_config(text).unwrap();
    let tcp = c.tcp.unwrap();
    assert_eq!(tcp.address, "h");
    assert_eq!(tcp.port, 5);
    assert!(c.websocket.is_none());
    assert!(c.quic.is_none());
}

#[test]
fn pairs_before_any_section_are_ignored() {
    let c = load_config("address = stray\n[tcp]\naddress = h\nport = 5\n").unwrap();
    assert_eq!(c.tcp.unwrap().address, "h");
}

#[test]
fn comments_and_whitespace_are_tolerated() {
    let text = "  [tcp]  \r\n  address =  10.0.0.1  \r\n# comment\n; another\n\tport=80\r\n";
    let c = load_config(text).unwrap();
    let tcp = c.tcp.unwrap();
    assert_eq!(tcp.address, "10.0.0.1");
    assert_eq!(tcp.port, 80);
}

#[test]
fn value_may_contain_equals_sign() {
    let c = load_config("[tcp]\naddress = a=b\nport = 5\n").unwrap();
    assert_eq!(c.tcp.unwrap().address, "a=b");
}

#[test]
fn lines_without_equals_are_ignored() {
    let c = load_config("[tcp]\nnoise\naddress = h\nport = 5\n").unwrap();
    assert_eq!(c.tcp.unwrap().address, "h");
}

#[test]
fn input_without_trailing_newline_parses() {
    let c = load_config("[tcp]\naddress = h\nport = 7").unwrap();
    let tcp = c.tcp.unwrap();
    assert_eq!(tcp.address, "h");
    assert_eq!(tcp.port, 7);
}

#[test]
fn section_without_keys_reports_first_missing_field() {
    let r = load_config("[websocket]");
    assert!(matches!(
        r,
        Err(ConfigError::MissingField { section: SectionId::WebSocket, field: FieldId::Address })
    ));
}
