use std::time::Duration;

use rlmesh::lifecycle;
use rlmesh::model::worker::ServeModelOptions;
use rlmesh::{BindAddress, ServeOptions};

const EDITION: &str = "2025.1";

#[test]
fn serve_options_serve_options_default_disables_remote_shutdown() {
    assert_eq!(
        ServeOptions::default(),
        ServeOptions {
            allow_remote_shutdown: false,
            idle_timeout: None,
            drain_timeout: None,
            close_timeout: None,
            token: None,
            predict_concurrency: None,
            workflow_edition: None,
        }
    );
}

#[test]
fn serve_options_facade_serve_options_convert_to_transport_options() {
    let options = ServeOptions {
        allow_remote_shutdown: true,
        idle_timeout: Some(Duration::from_secs(1)),
        drain_timeout: Some(Duration::from_secs(2)),
        close_timeout: Some(Duration::from_secs(3)),
        token: Some("s3cret".to_string()),
        predict_concurrency: Some(8),
        workflow_edition: Some(EDITION.to_string()),
    };
    let grpc_options = options.clone().into_transport();
    assert_eq!(grpc_options.allow_remote_shutdown, options.allow_remote_shutdown);
    assert_eq!(grpc_options.idle_timeout, options.idle_timeout);
    assert_eq!(grpc_options.drain_timeout, options.drain_timeout);
    assert_eq!(grpc_options.close_timeout, options.close_timeout);
    assert_eq!(grpc_options.token.as_deref(), Some("s3cret"));
    assert_eq!(grpc_options.predict_concurrency, options.predict_concurrency);
    assert_eq!(grpc_options.workflow_edition.as_deref(), Some(EDITION));
}

#[test]
fn blank_workflow_edition_declares_nothing_after_conversion() {
    let options = ServeOptions { workflow_edition: Some("   ".to_string()), ..ServeOptions::default() };
    let grpc_options = options.into_transport();
    assert_eq!(grpc_options.workflow_edition, None);
}

#[test]
fn padded_workflow_edition_is_trimmed_after_conversion() {
    let options = ServeOptions { workflow_edition: Some(format!("  {}  ", EDITION)), ..ServeOptions::default() };
    let grpc_options = options.into_transport();
    assert_eq!(grpc_options.workflow_edition.as_deref(), Some(EDITION));
}

#[test]
fn empty_token_disables_env_auth_after_conversion() {
    let options = ServeOptions { token: Some(String::new()), ..ServeOptions::default() };
    let grpc_options = options.into_transport();
    assert_eq!(grpc_options.token, None);
}

#[test]
fn lifecycle_serve_options_default_disables_remote_shutdown() {
    assert_eq!(
        lifecycle::ServeOptions::default(),
        lifecycle::ServeOptions {
            allow_remote_shutdown: false,
            idle_timeout: None,
            drain_timeout: None,
            close_timeout: None,
        }
    );
}

#[test]
fn lifecycle_facade_serve_options_convert_to_transport_options() {
    let options = lifecycle::ServeOptions {
        allow_remote_shutdown: true,
        idle_timeout: Some(Duration::from_secs(1)),
        drain_timeout: Some(Duration::from_secs(2)),
        close_timeout: Some(Duration::from_secs(3)),
    };
    let grpc_options = options.to_serve_options().into_transport();
    assert_eq!(grpc_options.allow_remote_shutdown, options.allow_remote_shutdown);
    assert_eq!(grpc_options.idle_timeout, options.idle_timeout);
    assert_eq!(grpc_options.drain_timeout, options.drain_timeout);
    assert_eq!(grpc_options.close_timeout, options.close_timeout);
}

#[test]
fn serve_model_options_builders() {
    let options = ServeModelOptions::parse("9000").unwrap().token("t".to_string());
    assert_eq!(options.address, BindAddress::Tcp { host: "127.0.0.1".to_string(), port: 9000 });
    assert_eq!(options.token, "t");
    assert_eq!(options.serve, ServeOptions::default());
    let custom = ServeOptions { allow_remote_shutdown: true, ..ServeOptions::default() };
    let options = ServeModelOptions::new(BindAddress::Unix { path: "/tmp/m.sock".to_string() })
        .serve_options(custom.clone());
    assert_eq!(options.serve, custom);
    assert!(ServeModelOptions::parse("nonsense:port").is_err());
}
