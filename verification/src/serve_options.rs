//! Transport serve options shared by the env and model servers.

use std::time::Duration;

use vstd::prelude::*;

use crate::text::{lemma_trimmed_idempotent, trim, trimmed};

verus! {

/// Transport lifecycle policy for a server (shutdown, timeouts, auth).
///
/// Defaults are conservative: remote shutdown is disabled, every timeout is
/// unset (no idle shutdown, no drain/close bound), and no token is required.
#[derive(Debug, Clone, PartialEq, Eq)]
pub struct ServeOptions {
    /// Honor a client `shutdown` RPC.
    pub allow_remote_shutdown: bool,
    /// Shut the server down after this much inactivity. `None` never times out.
    pub idle_timeout: Option<Duration>,
    /// Maximum time to drain in-flight requests during shutdown.
    pub drain_timeout: Option<Duration>,
    /// Maximum time the close hook may take on shutdown.
    pub close_timeout: Option<Duration>,
    /// Bearer token required on every request. `None` or an empty string
    /// disables authentication.
    pub token: Option<String>,
    /// Maximum number of model requests processed concurrently per connection;
    /// `None` applies the default cap.
    pub predict_concurrency: Option<usize>,
    /// The workflow edition this served peer declares. `None` declares
    /// nothing; a value is trimmed, and a blank one declares nothing.
    pub workflow_edition: Option<String>,
}

/// The options a transport server applies: [`ServeOptions`] with the token and
/// the declared edition normalized.
#[derive(Debug, Clone, PartialEq, Eq)]
pub struct TransportServeOptions {
    /// Honor a client `shutdown` RPC.
    pub allow_remote_shutdown: bool,
    /// Idle shutdown timeout.
    pub idle_timeout: Option<Duration>,
    /// Drain bound at shutdown.
    pub drain_timeout: Option<Duration>,
    /// Close-hook bound at shutdown.
    pub close_timeout: Option<Duration>,
    /// The required bearer token; never empty.
    pub token: Option<String>,
    /// Per-connection request concurrency cap.
    pub predict_concurrency: Option<usize>,
    /// The declared edition, trimmed; never blank.
    pub workflow_edition: Option<String>,
}

/// The token a transport enforces: a non-empty one, else none.
pub open spec fn normalized_token(token: Option<String>) -> Option<Seq<char>> {
    match token {
        Some(t) => if t@.len() > 0 {
            Some(t@)
        } else {
            None
        },
        None => None,
    }
}

/// The edition a transport declares: the trimmed value when it is not blank.
pub open spec fn normalized_edition(edition: Option<String>) -> Option<Seq<char>> {
    match edition {
        Some(e) => if trimmed(e@).len() > 0 {
            Some(trimmed(e@))
        } else {
            None
        },
        None => None,
    }
}

/// The view of an optional string.
pub open spec fn option_text(value: Option<String>) -> Option<Seq<char>> {
    match value {
        Some(s) => Some(s@),
        None => None,
    }
}

impl ServeOptions {
    /// The default options: no remote shutdown, no timeouts, no token, the
    /// default concurrency cap, no declared edition.
    pub fn new() -> (options: Self)
        ensures
            !options.allow_remote_shutdown,
            options.idle_timeout is None,
            options.drain_timeout is None,
            options.close_timeout is None,
            options.token is None,
            options.predict_concurrency is None,
            options.workflow_edition is None,
    {
        ServeOptions {
            allow_remote_shutdown: false,
            idle_timeout: None,
            drain_timeout: None,
            close_timeout: None,
            token: None,
            predict_concurrency: None,
            workflow_edition: None,
        }
    }

    /// The options a transport server applies: every field carried over, an
    /// empty token dropped (authentication off), and the declared edition
    /// trimmed, a blank one dropped.
    pub fn into_transport(self) -> (transport: TransportServeOptions)
        ensures
            transport.allow_remote_shutdown == self.allow_remote_shutdown,
            transport.idle_timeout == self.idle_timeout,
            transport.drain_timeout == self.drain_timeout,
            transport.close_timeout == self.close_timeout,
            transport.predict_concurrency == self.predict_concurrency,
            option_text(transport.token) == normalized_token(self.token),
            option_text(transport.workflow_edition) == normalized_edition(self.workflow_edition),
    {
        let token = match self.token {
            Some(token) => if token.unicode_len() > 0 {
                Some(token)
            } else {
                None
            },
            None => None,
        };
        let workflow_edition = match self.workflow_edition {
            Some(edition) => {
                let trimmed_edition = trim(edition.as_str());
                if trimmed_edition.unicode_len() > 0 {
                    Some(trimmed_edition)
                } else {
                    None
                }
            },
            None => None,
        };
        TransportServeOptions {
            allow_remote_shutdown: self.allow_remote_shutdown,
            idle_timeout: self.idle_timeout,
            drain_timeout: self.drain_timeout,
            close_timeout: self.close_timeout,
            token,
            predict_concurrency: self.predict_concurrency,
            workflow_edition,
        }
    }
}

impl Default for ServeOptions {
    fn default() -> (options: Self)
        ensures
            !options.allow_remote_shutdown,
            options.idle_timeout is None,
            options.drain_timeout is None,
            options.close_timeout is None,
            options.token is None,
            options.predict_concurrency is None,
            options.workflow_edition is None,
    {
        ServeOptions::new()
    }
}

/// Normalizing a declared edition twice is normalizing it once: an edition
/// the user-facing surfaces already trimmed passes the transport conversion
/// unchanged, and a blank one is dropped either way.
pub proof fn edition_normalization_is_idempotent(edition: String, normalized: String)
    requires
        normalized_edition(Some(edition)) == Some(normalized@),
    ensures
        normalized_edition(Some(normalized)) == Some(normalized@),
{
    lemma_trimmed_idempotent(edition@);
}

} // verus!
