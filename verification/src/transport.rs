//! The failures the transport layer reports, and the public error each maps
//! to.

use std::time::Duration;

use vstd::prelude::*;

use crate::env::wire::{environment_error_from, spec_map_env_error_code, WireEnvError, WireErrorCode};
use crate::error::{EnvironmentError, Error, ErrorCode, ModelError};
use crate::model::wire::WireModelError;
use crate::text::{decimal, number_text};

verus! {

/// A failure of the connection itself.
#[derive(Debug, Clone, PartialEq, Eq)]
pub enum TransportFailure {
    /// An address could not be parsed.
    InvalidAddress(String),
    /// A listener could not be bound.
    BindFailed(String),
    /// A connection could not be established.
    ConnectFailed(String),
    /// The connection closed.
    ConnectionClosed,
    /// An I/O failure, as its text.
    Io(String),
    /// A message exceeded the size limit.
    MessageTooLarge {
        /// The message's size.
        size: u64,
        /// The limit.
        max: u64,
    },
    /// The peer is unavailable.
    Unavailable(String),
    /// The peer answered with a non-OK status: the status code's name and the
    /// status message.
    Status {
        /// The status code's name.
        code: String,
        /// The status message.
        message: String,
    },
}

/// A failure the transport layer reports.
#[derive(Debug, Clone, PartialEq, Eq)]
pub enum TransportError {
    /// The connection failed.
    Transport(TransportFailure),
    /// The peer broke the protocol, as its text.
    Protocol(String),
    /// The environment reported a failure.
    Environment(WireEnvError),
    /// The model reported a failure.
    Model(WireModelError),
    /// An operation exceeded its deadline.
    Timeout(Duration),
    /// A connect or handshake was cancelled.
    Cancelled(String),
    /// The client failed, as its text.
    Client(String),
}

/// The message of an oversized message.
pub open spec fn too_large_text(size: u64, max: u64) -> Seq<char> {
    "message too large: "@ + decimal(size as nat) + " > "@ + decimal(max as nat)
}

/// Whether `public` is the public error of transport failure `error`:
/// address and bind failures keep their kind, every other connection failure
/// (including a cancelled connect and a client failure) is a recoverable
/// connection error, a protocol failure is internal, and env and model
/// failures keep their code, message and recoverability.
pub open spec fn maps_to(error: TransportError, public: Error) -> bool {
    match error {
        TransportError::Transport(failure) => match failure {
            TransportFailure::InvalidAddress(message) => public == Error::Address(message),
            TransportFailure::BindFailed(message) => public == Error::Server(message),
            TransportFailure::ConnectFailed(message) => public == Error::Connection(message),
            TransportFailure::ConnectionClosed => public matches Error::Connection(m) && m@ == "connection closed"@,
            TransportFailure::Io(message) => public == Error::Connection(message),
            TransportFailure::MessageTooLarge { size, max } => public matches Error::Connection(m) && m@
                == too_large_text(size, max),
            TransportFailure::Unavailable(message) => public == Error::Connection(message),
            TransportFailure::Status { code, message } => public matches Error::Connection(m) && m@ == code@
                + ": "@ + message@,
        },
        TransportError::Protocol(message) => public == Error::Internal(message),
        TransportError::Environment(env) => public matches Error::Environment(e) && e.code
            == spec_map_env_error_code(env.code) && e.message == env.message && e.is_recoverable
            == env.is_recoverable,
        TransportError::Model(model) => public == Error::Model(
            ModelError { message: model.message, is_recoverable: model.is_recoverable },
        ),
        TransportError::Timeout(duration) => public == Error::Timeout(duration),
        TransportError::Cancelled(message) => public == Error::Connection(message),
        TransportError::Client(message) => public == Error::Connection(message),
    }
}

/// The public error of a transport failure (see [`maps_to`]).
pub fn error_from_transport(error: TransportError) -> (public: Error)
    ensures
        maps_to(error, public),
{
    match error {
        TransportError::Transport(failure) => match failure {
            TransportFailure::InvalidAddress(message) => Error::Address(message),
            TransportFailure::BindFailed(message) => Error::Server(message),
            TransportFailure::ConnectFailed(message) => Error::Connection(message),
            TransportFailure::ConnectionClosed => {
                let message = String::from_str("connection closed");
                proof {
                    reveal_strlit("connection closed");
                }
                Error::Connection(message)
            },
            TransportFailure::Io(message) => Error::Connection(message),
            TransportFailure::MessageTooLarge { size, max } => {
                let mut message = String::from_str("message too large: ");
                message.append(number_text(size).as_str());
                message.append(" > ");
                message.append(number_text(max).as_str());
                Error::Connection(message)
            },
            TransportFailure::Unavailable(message) => Error::Connection(message),
            TransportFailure::Status { code, message } => {
                let mut text = code;
                text.append(": ");
                text.append(message.as_str());
                Error::Connection(text)
            },
        },
        TransportError::Protocol(message) => Error::Internal(message),
        TransportError::Environment(env) => Error::Environment(environment_error_from(env)),
        TransportError::Model(model) => Error::Model(
            ModelError { message: model.message, is_recoverable: model.is_recoverable },
        ),
        TransportError::Timeout(duration) => Error::Timeout(duration),
        TransportError::Cancelled(message) => Error::Connection(message),
        TransportError::Client(message) => Error::Connection(message),
    }
}

/// Every transport failure other than a bad address or a failed bind is one a
/// caller may retry, and an env or model failure keeps the peer's verdict.
pub proof fn lemma_transport_recoverability(error: TransportError, public: Error)
    requires
        maps_to(error, public),
    ensures
        error matches TransportError::Transport(failure) ==> (spec_is_recoverable_connection(failure) <==> crate::error::spec_is_recoverable(public)),
        error matches TransportError::Environment(env) ==> crate::error::spec_is_recoverable(public) == env.is_recoverable,
        error matches TransportError::Model(model) ==> crate::error::spec_is_recoverable(public) == model.is_recoverable,
        error is Cancelled ==> crate::error::spec_is_recoverable(public),
        error is Protocol ==> !crate::error::spec_is_recoverable(public),
{
}

/// A transport failure keeps its kind on the public side: a failed bind is a
/// server-side failure and a bad address an address error, each carrying the
/// failure's own message, and no other failure is reported as either; an env
/// failure reported with a wire code keeps that code's name (a wire `Timeout`
/// is a public `Timeout`, a wire `Busy` a public `Busy`, and so on), with the
/// env's message and recoverability.
pub proof fn transport_failures_keep_their_kind(error: TransportError, public: Error)
    requires
        maps_to(error, public),
    ensures
        error matches TransportError::Transport(TransportFailure::BindFailed(message)) ==> public
            == Error::Server(message),
        error matches TransportError::Transport(TransportFailure::InvalidAddress(message)) ==> public
            == Error::Address(message),
        public is Server ==> error matches TransportError::Transport(TransportFailure::BindFailed(_)),
        public is Address ==> error matches TransportError::Transport(TransportFailure::InvalidAddress(_)),
        error matches TransportError::Environment(env) ==> (public matches Error::Environment(e) && e.message
            == env.message && e.is_recoverable == env.is_recoverable),
        error matches TransportError::Environment(env) ==> {
            let code = public->Environment_0.code;
            &&& (code == ErrorCode::Timeout) <==> (env.code == WireErrorCode::Timeout)
            &&& (code == ErrorCode::Busy) <==> (env.code == WireErrorCode::Busy)
            &&& (code == ErrorCode::NotReady) <==> (env.code == WireErrorCode::NotReady)
            &&& (code == ErrorCode::InvalidAction) <==> (env.code == WireErrorCode::InvalidAction)
            &&& (code == ErrorCode::Crashed) <==> (env.code == WireErrorCode::Crashed)
            &&& (code == ErrorCode::Cancelled) <==> (env.code == WireErrorCode::Cancelled)
            &&& (code == ErrorCode::Closed) <==> (env.code == WireErrorCode::Closed)
            &&& (code == ErrorCode::Unspecified) <==> (env.code == WireErrorCode::Unspecified)
            &&& (code == ErrorCode::Internal) <==> (env.code == WireErrorCode::Internal || env.code
                == WireErrorCode::Unsupported)
        },
{
    if let TransportError::Environment(env) = error {
        crate::env::wire::wire_codes_keep_their_public_name(env.code);
    }
}

/// Whether a connection failure maps to a recoverable public error.
pub open spec fn spec_is_recoverable_connection(failure: TransportFailure) -> bool {
    !(failure is InvalidAddress || failure is BindFailed)
}

} // verus!
