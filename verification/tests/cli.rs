use ncro::cli::{
    inherits_socket, normalize_listen, notify_address, parse_listen_fds, Action, Args, ArgsError,
    NotifyAddress,
};
use ncro::mesh::{KeySource, Node};
use ncro::metrics::{catalog, MetricKind};
use ncro::warn_buffer::{BufferLayer, LogLevel};

#[test]
fn listen_fds_absent() {
    assert!(parse_listen_fds(None).is_none());
}

#[test]
fn listen_fds_zero() {
    assert!(parse_listen_fds(Some("0")).is_none());
}

#[test]
fn listen_fds_one() {
    assert_eq!(parse_listen_fds(Some("1")), Some(1));
}

#[test]
fn listen_fds_invalid() {
    assert!(parse_listen_fds(Some("not-a-number")).is_none());
    assert!(parse_listen_fds(Some("")).is_none());
}

fn args(config: Option<&str>, key: Option<&str>) -> Args {
    Args { config: config.map(str::to_string), generate_mesh_key: key.map(str::to_string) }
}

#[test]
fn a_mesh_key_is_made_by_itself() {
    assert!(matches!(args(None, None).action(), Ok(Action::Serve { config: None })));
    match args(None, Some("node.key")).action() {
        Ok(Action::GenerateMeshKey { path }) => assert_eq!(path, "node.key"),
        _ => panic!("a key is to be made"),
    }
    let err = args(None, Some("")).action().err().unwrap();
    assert_eq!(err, ArgsError::EmptyKeyPath);
    assert_eq!(err.message(), "--generate-mesh-key needs a path");
    let err = args(Some("unused.toml"), Some("node.key")).action().err().unwrap();
    assert_eq!(err, ArgsError::ConfigWithKey);
    assert_eq!(err.message(), "--generate-mesh-key cannot be used with --config");
}

#[test]
fn generate_mesh_key_persists_identity_and_validates_arguments() {
    let path = match args(None, Some("node.key")).action() {
        Ok(Action::GenerateMeshKey { path }) => path,
        _ => panic!("a key is to be made"),
    };
    assert_eq!(path, "node.key");
    let first = Node::new(KeySource::Missing).ok().unwrap();
    let file = first.key_bytes().to_vec();
    let second = Node::new(KeySource::Contents(file.clone())).ok().unwrap();
    assert_eq!(first.public_key_hex(), second.public_key_hex());
    assert_eq!(first.public_key_hex().len(), 64);
    assert_eq!(file.len(), 32);

    assert!(args(None, Some("")).action().is_err());
    assert!(args(Some("unused.toml"), Some("node.key")).action().is_err());
}

#[test]
fn sockets_are_inherited_by_the_right_process() {
    assert!(inherits_socket(Some("1"), Some("42"), 42));
    assert!(!inherits_socket(Some("1"), Some("41"), 42));
    assert!(!inherits_socket(Some("0"), Some("42"), 42));
    assert!(!inherits_socket(Some("1"), None, 42));
    assert_eq!(parse_listen_fds(Some("+2")), Some(2));
    assert_eq!(parse_listen_fds(Some("4294967296")), None);
}

#[test]
fn listen_addresses_are_normalized() {
    assert_eq!(normalize_listen(":8080"), "0.0.0.0:8080");
    assert_eq!(normalize_listen("0.0.0.0:8080"), "0.0.0.0:8080");
    assert_eq!(normalize_listen(""), "");
}

#[test]
fn abstract_sockets_are_named_with_a_zero_byte() {
    match notify_address("@name") {
        NotifyAddress::Abstract(bytes) => assert_eq!(bytes, b"\0name"),
        NotifyAddress::Path(_) => panic!("no path"),
    }
    match notify_address("/run/notify") {
        NotifyAddress::Path(path) => assert_eq!(path, "/run/notify"),
        NotifyAddress::Abstract(_) => panic!("a path"),
    }
}

#[test]
fn warnings_are_said_once() {
    let mut layer = BufferLayer::default();
    layer.on_event(LogLevel::Warn, "first".to_string());
    layer.on_event(LogLevel::Info, "not kept".to_string());
    layer.on_event(LogLevel::Error, "not kept".to_string());
    layer.on_event(LogLevel::Warn, "second".to_string());
    assert_eq!(layer.replay(), vec!["first".to_string(), "second".to_string()]);
    assert!(layer.replay().is_empty());
}

#[test]
fn metrics_can_be_registered_together() {
    let registry = prometheus::Registry::new();
    for metric in catalog() {
        let opts = prometheus::Opts::new(metric.name, metric.help);
        let collector: Box<dyn prometheus::core::Collector> = match metric.kind {
            MetricKind::Counter => {
                Box::new(prometheus::IntCounterVec::new(opts, &metric.labels).unwrap())
            }
            MetricKind::Gauge => {
                Box::new(prometheus::IntGaugeVec::new(opts, &metric.labels).unwrap())
            }
            MetricKind::Histogram => Box::new(
                prometheus::HistogramVec::new(
                    prometheus::HistogramOpts::new(metric.name, metric.help),
                    &metric.labels,
                )
                .unwrap(),
            ),
        };
        registry.register(collector).unwrap();
    }
    assert_eq!(catalog().len(), 15);
}
