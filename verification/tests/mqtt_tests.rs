use comsrv_protocols::mqtt::{
    default_client_id, default_qos, parse_broker, qos_level, wants_tls, QosLevel, MqttError, MqttParamsConfig,
    MqttSubscription,
};

#[test]
fn test_mqtt_params_default() {
    let params = MqttParamsConfig::default();
    assert_eq!(params.broker, "tcp://localhost:1883");
    assert!(params.username.is_none());
    assert!(params.subscriptions.is_empty());
}

#[test]
fn test_parse_broker_url() {
    let mut params = MqttParamsConfig::default();
    params.broker = "tcp://192.168.1.50:1883".to_string();
    let config = params.to_config();
    let (host, port) = config.parse_broker().unwrap();
    assert_eq!(host, "192.168.1.50");
    assert_eq!(port, 1883);
}

#[test]
fn broker_forms() {
    assert_eq!(parse_broker("ssl://broker.example.com:8883"), Ok(("broker.example.com".to_string(), 8883)));
    assert_eq!(parse_broker("mqtts://b:1"), Ok(("b".to_string(), 1)));
    assert_eq!(parse_broker("mqtt://host"), Ok(("host".to_string(), 1883)));
    assert_eq!(parse_broker("host:1884:extra"), Ok(("host".to_string(), 1884)));
    assert_eq!(parse_broker("host:99999"), Err(MqttError::InvalidPort));
    assert_eq!(parse_broker("host:"), Err(MqttError::InvalidPort));
    assert!(wants_tls("ssl://x"));
    assert!(!wants_tls("tcp://x"));
}

#[test]
fn defaults_and_config() {
    assert_eq!(default_qos(), 1);
    let id = default_client_id();
    assert_eq!(id.len(), 39);
    assert!(id.starts_with("comsrv_"));
    assert!(id[7..].chars().all(|c| c.is_ascii_hexdigit() && !c.is_ascii_uppercase()));
    assert_ne!(default_client_id(), id);
    let mut p = MqttParamsConfig::default();
    p.subscriptions.push(MqttSubscription { topic: "device/+/telemetry".to_string(), qos: 1 });
    let c = p.to_config();
    assert_eq!(c.subscriptions.len(), 1);
    assert_eq!(c.subscriptions[0].topic, "device/+/telemetry");
    assert_eq!(c.keep_alive, std::time::Duration::from_secs(30));
    assert_eq!(c.connect_timeout, std::time::Duration::from_millis(5000));
}

#[test]
fn qos_levels() {
    assert_eq!(qos_level(0), QosLevel::AtMostOnce);
    assert_eq!(qos_level(1), QosLevel::AtLeastOnce);
    assert_eq!(qos_level(2), QosLevel::ExactlyOnce);
    assert_eq!(qos_level(7), QosLevel::ExactlyOnce);
}
