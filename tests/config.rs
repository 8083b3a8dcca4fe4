use pbft::codec::{encode_peer_frame, CodecError};
use pbft::config::{Config, ConfigError, Port};
use pbft::message::{ClientRequest, Message, Prepare};
use pbft::node_type::{determine_node_type, NodeType};
use pbft::protocol_config::{Name, PbftProtocolConfig};

fn args(list: &[&str]) -> Vec<String> {
    list.iter().map(|s| s.to_string()).collect()
}

#[test]
fn node_type_from_arguments() {
    assert_eq!(determine_node_type(&args(&["pbft"])), Ok(NodeType::Backup));
    assert_eq!(determine_node_type(&args(&["pbft", "primary"])), Ok(NodeType::Primary));
    assert_eq!(determine_node_type(&args(&["pbft", "backup"])), Err(()));
    assert_eq!(determine_node_type(&args(&["pbft", "primary", "x"])), Err(()));
    assert_eq!(determine_node_type(&args(&[])), Err(()));
}

#[test]
fn node_type_labels() {
    assert_eq!(NodeType::Primary.label(), "Primary");
    assert_eq!(NodeType::Backup.label(), "Backup");
}

#[test]
fn config_needs_its_primary_among_the_nodes() {
    let nodes = vec![Port::new(8000), Port::new(8001), Port::new(8002)];
    assert_eq!(Config::new(nodes.clone(), Port::new(9000)).err(), Some(ConfigError::MissingPrimary));
    let c = Config::new(nodes, Port::new(8001)).unwrap();
    assert_eq!(c.primary().value(), 8001);
    assert_eq!(c.replica_ids(), vec![8000, 8001, 8002]);
    assert_eq!(c.replica_order(), vec![8001, 8000, 8002]);
    assert_eq!(c.all_nodes_without_me(Port::new(8001)), vec![Port::new(8000), Port::new(8002)]);
}

#[test]
fn protocol_name_and_frames() {
    let config = PbftProtocolConfig;
    assert_eq!(config.protocol_info(), Name);
    assert_eq!(Name.protocol_name(), "/ackintosh/pbft/1.0.0");
    let m = Message::Prepare(Prepare { view: 0, sequence_number: 1, digest: "d".to_string() });
    let frame = config.message_to_frame(&m).unwrap();
    assert_eq!(frame, encode_peer_frame(&m));
    assert!(matches!(config.frame_to_message(&frame), Ok(Message::Prepare(_))));
    assert_eq!(config.frame_to_message(&frame[1..]).unwrap_err(), CodecError::MalformedFrame);
    let c = Message::ClientRequest(ClientRequest::new("x".to_string(), 1, None));
    assert_eq!(config.message_to_frame(&c).unwrap_err(), CodecError::UnexpectedVariant);
}

#[test]
fn port_parses_decimal() {
    assert_eq!(Port::parse("8000"), Some(Port::new(8000)));
    assert_eq!(Port::parse("+42"), Some(Port::new(42)));
    assert_eq!(Port::parse("18446744073709551615"), Some(Port::new(u64::MAX)));
    assert_eq!(Port::parse("18446744073709551616"), None);
    assert_eq!(Port::parse(""), None);
    assert_eq!(Port::parse("+"), None);
    assert_eq!(Port::parse("80a"), None);
    assert_eq!(Port::parse("-1"), None);
}
