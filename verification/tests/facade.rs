use std::time::Duration;

use rlmesh::env::wire::{WireEnvError, WireErrorCode};
use rlmesh::error::join_results;
use rlmesh::model::wire::{ModelErrorCode, WireModelError};
use rlmesh::spaces::{EnvContract, SpaceKind, SpaceSpec, DType};
use rlmesh::transport::{error_from_transport, TransportError, TransportFailure};
use rlmesh::{BindAddress, ConnectAddress, EnvironmentError, Error, ErrorCode};
use rlmesh::address::{stale_socket_step, unlink_failure, SocketProbe, StaleSocketStep};

fn box_space(shape: Vec<u64>) -> SpaceSpec {
    SpaceSpec {
        kind: SpaceKind::Box { low: (-1.0f64).to_bits(), high: 1.0f64.to_bits(), shape, dtype: DType::Float32 },
    }
}

fn discrete_space(n: u64) -> SpaceSpec {
    SpaceSpec { kind: SpaceKind::Discrete { n, start: 0 } }
}

#[test]
fn reexports_space_types() {
    let spec = EnvContract {
        id: "test-env".to_string(),
        observation_space: Some(box_space(vec![4])),
        action_space: Some(discrete_space(2)),
        num_envs: 1,
        ..Default::default()
    };

    assert!(spec.observation_space.is_some());
    assert!(spec.action_space.is_some());
}

#[test]
fn parses_facade_addresses() {
    assert_eq!(
        ConnectAddress::parse("localhost:50051").unwrap(),
        ConnectAddress::Tcp("tcp://localhost:50051".to_string())
    );
    assert_eq!(
        ConnectAddress::parse("unix:///tmp/rlmesh.sock").unwrap(),
        ConnectAddress::Unix("/tmp/rlmesh.sock".into())
    );
    assert_eq!(
        BindAddress::parse("7000").unwrap(),
        BindAddress::Tcp { host: "127.0.0.1".to_string(), port: 7000 }
    );
}

#[test]
fn addresses_round_trip_through_their_text() {
    let connect = ConnectAddress::parse("tcp://example.org:443").unwrap();
    assert_eq!(connect.as_str(), "tcp://example.org:443");
    assert_eq!(ConnectAddress::parse(&connect.as_str()).unwrap(), connect);
    let bind = BindAddress::parse("0.0.0.0:0").unwrap();
    assert_eq!(bind.display_address(), "tcp://0.0.0.0:0");
    assert_eq!(BindAddress::parse(&bind.display_address()).unwrap(), bind);
    let unix = BindAddress::parse("unix:///run/x.sock").unwrap();
    assert_eq!(unix.display_address(), "unix:///run/x.sock");
}

#[test]
fn malformed_addresses_are_refused() {
    let error = ConnectAddress::parse("no-port").unwrap_err();
    assert_eq!(
        error.to_text(),
        "invalid address: expected host:port, tcp://host:port or unix:///path, got no-port"
    );
    assert!(BindAddress::parse("host:70000").is_err(), "ports stop at 65535");
    assert!(ConnectAddress::parse(":80").is_err(), "a host is required");
}

#[test]
fn model_error_constructors_set_recoverability() {
    assert!(!Error::model("nope".to_string()).is_recoverable());
    assert!(Error::model_recoverable("retry".to_string()).is_recoverable());
}

#[test]
fn error_texts_and_recoverability() {
    assert!(Error::Connection("x".to_string()).is_recoverable());
    assert!(Error::Timeout(Duration::from_millis(5)).is_recoverable());
    assert!(!Error::Internal("x".to_string()).is_recoverable());
    assert_eq!(Error::Timeout(Duration::from_millis(5)).to_text(), "timeout after 5ms");
    let env = Error::Environment(EnvironmentError {
        code: ErrorCode::InvalidAction,
        message: "bad action".to_string(),
        is_recoverable: true,
    });
    assert_eq!(env.to_text(), "environment error: [INVALID_ACTION] bad action");
    assert!(env.is_recoverable());
}

#[test]
fn join_results_folds_both_failures() {
    let joined: Result<u8, Error> =
        join_results(Err(Error::Internal("a".to_string())), Err(Error::Server("b".to_string())), "close");
    assert_eq!(
        joined.unwrap_err(),
        Error::Internal("close: internal error: a; close hook failed: server error: b".to_string())
    );
    assert_eq!(join_results(Ok(3u8), Ok(()), "ctx").unwrap(), 3);
    assert_eq!(
        join_results(Ok(3u8), Err(Error::Server("b".to_string())), "ctx").unwrap_err(),
        Error::Server("b".to_string())
    );
}

#[test]
fn grpc_model_error_maps_to_model_variant_preserving_recoverability() {
    let grpc = TransportError::Model(WireModelError {
        code: ModelErrorCode::Internal,
        message: "handler declined".to_string(),
        is_recoverable: true,
        debug_info: String::new(),
    });
    match error_from_transport(grpc) {
        Error::Model(model) => {
            assert_eq!(model.message, "handler declined");
            assert!(model.is_recoverable);
        }
        other => panic!("expected Error::Model, got {other:?}"),
    }
}

#[test]
fn facade_error_mapping_hides_core_error_types() {
    let err = error_from_transport(TransportError::Environment(WireEnvError::new(
        WireErrorCode::InvalidAction,
        "bad action".to_string(),
    )));
    assert_eq!(
        err,
        Error::Environment(EnvironmentError {
            code: ErrorCode::InvalidAction,
            message: "bad action".to_string(),
            is_recoverable: true,
        })
    );
}

#[test]
fn transport_failures_map_to_connection_errors() {
    assert_eq!(
        error_from_transport(TransportError::Transport(TransportFailure::MessageTooLarge { size: 10, max: 4 })),
        Error::Connection("message too large: 10 > 4".to_string())
    );
    assert_eq!(
        error_from_transport(TransportError::Transport(TransportFailure::ConnectionClosed)),
        Error::Connection("connection closed".to_string())
    );
    assert_eq!(
        error_from_transport(TransportError::Transport(TransportFailure::InvalidAddress("x".to_string()))),
        Error::Address("x".to_string())
    );
    assert_eq!(
        error_from_transport(TransportError::Cancelled("booting".to_string())),
        Error::Connection("booting".to_string())
    );
    assert_eq!(
        error_from_transport(TransportError::Protocol("bad frame".to_string())),
        Error::Internal("bad frame".to_string())
    );
}

#[test]
fn stale_sockets_are_unlinked_and_live_ones_kept() {
    let path = "/tmp/rlmesh.sock";
    assert_eq!(stale_socket_step(path, SocketProbe::Refused), Ok(StaleSocketStep::Unlink));
    assert_eq!(stale_socket_step(path, SocketProbe::NotASocket), Ok(StaleSocketStep::Keep));
    assert_eq!(stale_socket_step(path, SocketProbe::Vanished), Ok(StaleSocketStep::Keep));
    assert_eq!(
        stale_socket_step(path, SocketProbe::Live),
        Err(Error::Server("address already in use: a server is already listening on /tmp/rlmesh.sock".to_string()))
    );
    assert_eq!(
        stale_socket_step(path, SocketProbe::Unverifiable("permission denied".to_string())),
        Err(Error::Server("cannot verify whether socket /tmp/rlmesh.sock is stale: permission denied".to_string()))
    );
    assert_eq!(
        unlink_failure(path, "busy"),
        Error::Server("failed to remove stale socket /tmp/rlmesh.sock: busy".to_string())
    );
}
