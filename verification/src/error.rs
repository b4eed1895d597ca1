//! The error taxonomy of the SDK.
//!
//! [`Error`] separates transport and setup faults (`Address`, `Connection`,
//! `Server`, `Internal`) from the two domain failures: `Environment` (the env
//! reported a failure, carrying an [`ErrorCode`]) and `Model` (a model handler
//! declined a request). [`Error::is_recoverable`] says whether a caller may
//! retry.

use std::time::Duration;

use vstd::prelude::*;


verus! {

/// Classifies an [`EnvironmentError`] reported by an environment.
#[derive(Debug, Clone, Copy, PartialEq, Eq)]
#[non_exhaustive]
pub enum ErrorCode {
    /// No specific code was provided.
    Unspecified,
    /// The operation exceeded its deadline.
    Timeout,
    /// The submitted action was invalid for the action space.
    InvalidAction,
    /// The environment is not ready to serve the request yet.
    NotReady,
    /// The environment is busy with another request.
    Busy,
    /// An internal environment error.
    Internal,
    /// The environment process crashed.
    Crashed,
    /// The operation was cancelled.
    Cancelled,
    /// The environment (or session) is closed.
    Closed,
}

/// A failure reported by the environment when serving a request.
#[derive(Debug, Clone, PartialEq, Eq)]
pub struct EnvironmentError {
    /// Machine-readable classification of the failure.
    pub code: ErrorCode,
    /// Human-readable description.
    pub message: String,
    /// Whether the operation may be retried.
    pub is_recoverable: bool,
}

/// A failure originating from a user-implemented model handler: the model
/// declined a request (e.g. an invalid observation).
#[derive(Debug, Clone, PartialEq, Eq)]
pub struct ModelError {
    /// Human-readable description of why the handler declined.
    pub message: String,
    /// Whether the caller may retry the request.
    pub is_recoverable: bool,
}

/// The error type for every fallible operation of the SDK.
#[derive(Debug, Clone, PartialEq, Eq)]
#[non_exhaustive]
pub enum Error {
    /// An address or bind target could not be parsed.
    Address(String),
    /// A transport-level connection failure (treated as recoverable).
    Connection(String),
    /// An operation exceeded its deadline (treated as recoverable).
    Timeout(Duration),
    /// The environment reported a failure.
    Environment(EnvironmentError),
    /// A failure raised by a user-implemented model handler.
    Model(ModelError),
    /// A server-side failure (e.g. bind failed, close hook failed).
    Server(String),
    /// An internal/protocol error that should not normally occur.
    Internal(String),
}

/// The label an [`ErrorCode`] renders as.
pub open spec fn code_label(code: ErrorCode) -> Seq<char> {
    match code {
        ErrorCode::Unspecified => "UNSPECIFIED"@,
        ErrorCode::Timeout => "TIMEOUT"@,
        ErrorCode::InvalidAction => "INVALID_ACTION"@,
        ErrorCode::NotReady => "NOT_READY"@,
        ErrorCode::Busy => "BUSY"@,
        ErrorCode::Internal => "INTERNAL"@,
        ErrorCode::Crashed => "CRASHED"@,
        ErrorCode::Cancelled => "CANCELLED"@,
        ErrorCode::Closed => "CLOSED"@,
    }
}

/// The rendering of an [`EnvironmentError`]: `[CODE] message`.
pub open spec fn environment_text(error: EnvironmentError) -> Seq<char> {
    "["@ + code_label(error.code) + "] "@ + error.message@
}

/// The debug rendering of a [`Duration`] (`Debug::fmt`), e.g. `1.5s`.
pub uninterp spec fn duration_debug_text(duration: Duration) -> Seq<char>;

/// The rendering of an [`Error`].
pub open spec fn error_text(error: Error) -> Seq<char> {
    match error {
        Error::Address(message) => "invalid address: "@ + message@,
        Error::Connection(message) => "connection error: "@ + message@,
        Error::Timeout(duration) => "timeout after "@ + duration_debug_text(duration),
        Error::Environment(env) => "environment error: "@ + environment_text(env),
        Error::Model(model) => "model error: "@ + model.message@,
        Error::Server(message) => "server error: "@ + message@,
        Error::Internal(message) => "internal error: "@ + message@,
    }
}

/// Whether an error may be retried: timeouts and connection failures always,
/// environment and model failures by their own flag, everything else never.
pub open spec fn spec_is_recoverable(error: Error) -> bool {
    match error {
        Error::Timeout(_) => true,
        Error::Environment(env) => env.is_recoverable,
        Error::Model(model) => model.is_recoverable,
        Error::Connection(_) => true,
        _ => false,
    }
}

/// `Duration` is `Copy`: its `Clone::clone` returns an identical value.
pub assume_specification[ <Duration as Clone>::clone ](duration: &Duration) -> (copy: Duration)
    ensures
        copy == *duration,
;

/// Renders a [`Duration`] with its `Debug` format.
#[verifier::external_body]
fn duration_debug(duration: &Duration) -> (text: String)
    ensures
        text@ == duration_debug_text(*duration),
{
    format!("{:?}", duration)
}

impl ErrorCode {
    /// The label this code renders as (`INVALID_ACTION`, ...).
    pub fn label(&self) -> (label: String)
        ensures
            label@ == code_label(*self),
    {
        let text = match self {
            ErrorCode::Unspecified => "UNSPECIFIED",
            ErrorCode::Timeout => "TIMEOUT",
            ErrorCode::InvalidAction => "INVALID_ACTION",
            ErrorCode::NotReady => "NOT_READY",
            ErrorCode::Busy => "BUSY",
            ErrorCode::Internal => "INTERNAL",
            ErrorCode::Crashed => "CRASHED",
            ErrorCode::Cancelled => "CANCELLED",
            ErrorCode::Closed => "CLOSED",
        };
        String::from_str(text)
    }
}

impl EnvironmentError {
    /// The message this error renders as: `[CODE] message`.
    pub fn to_text(&self) -> (text: String)
        ensures
            text@ == environment_text(*self),
    {
        let mut text = String::from_str("[");
        let label = self.code.label();
        text.append(label.as_str());
        text.append("] ");
        text.append(self.message.as_str());
        text
    }
}

impl Error {
    /// A non-recoverable model-handler error: the model declined the request.
    pub fn model(message: String) -> (error: Self)
        ensures
            error == Error::Model(ModelError { message, is_recoverable: false }),
            !spec_is_recoverable(error),
    {
        Error::Model(ModelError { message, is_recoverable: false })
    }

    /// A recoverable model-handler error (the caller may retry).
    pub fn model_recoverable(message: String) -> (error: Self)
        ensures
            error == Error::Model(ModelError { message, is_recoverable: true }),
            spec_is_recoverable(error),
    {
        Error::Model(ModelError { message, is_recoverable: true })
    }

    /// An identical copy of this error, variant, message and recoverability
    /// included.
    pub fn duplicate(&self) -> (copy: Self)
        ensures
            copy == *self,
    {
        match self {
            Error::Address(message) => Error::Address(message.clone()),
            Error::Connection(message) => Error::Connection(message.clone()),
            Error::Timeout(duration) => Error::Timeout(duration.clone()),
            Error::Environment(env) => Error::Environment(
                EnvironmentError {
                    code: env.code,
                    message: env.message.clone(),
                    is_recoverable: env.is_recoverable,
                },
            ),
            Error::Model(model) => Error::Model(
                ModelError { message: model.message.clone(), is_recoverable: model.is_recoverable },
            ),
            Error::Server(message) => Error::Server(message.clone()),
            Error::Internal(message) => Error::Internal(message.clone()),
        }
    }

    /// Whether this error is recoverable (the operation may be retried).
    pub fn is_recoverable(&self) -> (recoverable: bool)
        ensures
            recoverable == spec_is_recoverable(*self),
    {
        match self {
            Error::Timeout(_) => true,
            Error::Environment(error) => error.is_recoverable,
            Error::Model(error) => error.is_recoverable,
            Error::Connection(_) => true,
            _ => false,
        }
    }

    /// The message this error renders as (`invalid address: ...`,
    /// `model error: ...`, ...).
    pub fn to_text(&self) -> (text: String)
        ensures
            text@ == error_text(*self),
    {
        match self {
            Error::Address(message) => String::from_str("invalid address: ").concat(message.as_str()),
            Error::Connection(message) => String::from_str("connection error: ").concat(
                message.as_str(),
            ),
            Error::Timeout(duration) => {
                let rendered = duration_debug(duration);
                String::from_str("timeout after ").concat(rendered.as_str())
            },
            Error::Environment(env) => {
                let rendered = env.to_text();
                String::from_str("environment error: ").concat(rendered.as_str())
            },
            Error::Model(model) => String::from_str("model error: ").concat(model.message.as_str()),
            Error::Server(message) => String::from_str("server error: ").concat(message.as_str()),
            Error::Internal(message) => String::from_str("internal error: ").concat(
                message.as_str(),
            ),
        }
    }
}

/// The message of the error a failed operation and a failed close hook fold
/// into: `<ctx>: <primary>; close hook failed: <close>`.
pub open spec fn joined_failure_text(ctx: Seq<char>, primary: Error, close: Error) -> Seq<char> {
    ctx + ": "@ + error_text(primary) + "; close hook failed: "@ + error_text(close)
}

/// Combine an operation's result with its close hook's result: the value when
/// both succeed, the one failure when one fails, and when both fail one
/// [`Error::Internal`] naming both, prefixed with `ctx`.
pub fn join_results<T>(primary: Result<T, Error>, close: Result<(), Error>, ctx: &str) -> (joined:
    Result<T, Error>)
    ensures
        primary is Ok && close is Ok ==> joined == primary,
        primary is Err && close is Ok ==> joined == primary,
        primary is Ok && close is Err ==> joined == Err::<T, Error>(close->Err_0),
        primary is Err && close is Err ==> (joined matches Err(Error::Internal(message))
            && message@ == joined_failure_text(ctx@, primary->Err_0, close->Err_0)),
{
    match (primary, close) {
        (Ok(value), Ok(())) => Ok(value),
        (Err(error), Ok(())) => Err(error),
        (Ok(_), Err(error)) => Err(error),
        (Err(primary_error), Err(close_error)) => {
            let mut message = String::from_str(ctx);
            message.append(": ");
            let primary_text = primary_error.to_text();
            message.append(primary_text.as_str());
            message.append("; close hook failed: ");
            let close_text = close_error.to_text();
            message.append(close_text.as_str());
            Err(Error::Internal(message))
        },
    }
}

} // verus!
