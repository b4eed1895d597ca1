//! The lifecycle subset of the serve options: shutdown policy and timeouts,
//! without authentication.

use std::time::Duration;

use vstd::prelude::*;

verus! {

/// Transport lifecycle policy (shutdown and timeouts) of a server.
#[derive(Debug, Clone, Copy, PartialEq, Eq)]
pub struct ServeOptions {
    /// Honor a client `shutdown` RPC.
    pub allow_remote_shutdown: bool,
    /// Shut the server down after this much inactivity.
    pub idle_timeout: Option<Duration>,
    /// Maximum time to drain in-flight requests during shutdown.
    pub drain_timeout: Option<Duration>,
    /// Maximum time the close hook may take on shutdown.
    pub close_timeout: Option<Duration>,
}

impl ServeOptions {
    /// The full serve options these lifecycle options stand for: the same
    /// policy with no token, the default concurrency cap and no declared
    /// edition.
    pub fn to_serve_options(self) -> (options: crate::serve_options::ServeOptions)
        ensures
            options.allow_remote_shutdown == self.allow_remote_shutdown,
            options.idle_timeout == self.idle_timeout,
            options.drain_timeout == self.drain_timeout,
            options.close_timeout == self.close_timeout,
            options.token is None,
            options.predict_concurrency is None,
            options.workflow_edition is None,
    {
        crate::serve_options::ServeOptions {
            allow_remote_shutdown: self.allow_remote_shutdown,
            idle_timeout: self.idle_timeout,
            drain_timeout: self.drain_timeout,
            close_timeout: self.close_timeout,
            token: None,
            predict_concurrency: None,
            workflow_edition: None,
        }
    }
}

impl Default for ServeOptions {
    fn default() -> (options: Self)
        ensures
            !options.allow_remote_shutdown,
            options.idle_timeout is None,
            options.drain_timeout is None,
            options.close_timeout is None,
    {
        ServeOptions {
            allow_remote_shutdown: false,
            idle_timeout: None,
            drain_timeout: None,
            close_timeout: None,
        }
    }
}

} // verus!
