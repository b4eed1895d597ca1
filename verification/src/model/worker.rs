//! The model worker and its serving options.

use vstd::prelude::*;

use crate::address::{spec_parse_bind, spec_parse_connect, BindAddress, BindTarget, ConnectAddress, ConnectTarget};
use crate::error::Error;
use crate::serve_options::ServeOptions;

verus! {

/// Drives or serves a model handler.
pub struct ModelWorker<H> {
    handler: H,
}

impl<H> ModelWorker<H> {
    /// The handler this worker drives or serves.
    pub closed spec fn handler(&self) -> H {
        self.handler
    }

    /// Wrap a model handler to be driven or served.
    pub fn new(handler: H) -> (worker: Self)
        ensures
            worker.handler() == handler,
    {
        ModelWorker { handler }
    }

    /// Consume the worker and return its handler.
    pub fn into_handler(self) -> (handler: H)
        ensures
            handler == self.handler(),
    {
        self.handler
    }
}

/// Options for serving a model handler as an endpoint.
#[derive(Debug, Clone, PartialEq, Eq)]
pub struct ServeModelOptions {
    /// Address to bind the model server to.
    pub address: BindAddress,
    /// Bearer token required on requests; empty disables auth.
    pub token: String,
    /// Transport serve options (idle/drain/close timeouts, remote shutdown).
    pub serve: ServeOptions,
}

/// Whether `options` are the default serve options.
pub open spec fn is_default_serve(options: ServeOptions) -> bool {
    &&& !options.allow_remote_shutdown
    &&& options.idle_timeout is None
    &&& options.drain_timeout is None
    &&& options.close_timeout is None
    &&& options.token is None
    &&& options.predict_concurrency is None
    &&& options.workflow_edition is None
}

impl ServeModelOptions {
    /// Serve on `address` with no token and default serve options.
    pub fn new(address: BindAddress) -> (options: Self)
        ensures
            options.address == address,
            options.token@.len() == 0,
            is_default_serve(options.serve),
    {
        ServeModelOptions { address, token: String::new(), serve: ServeOptions::new() }
    }

    /// Parse a string bind address (e.g. `"tcp://0.0.0.0:50061"`); an
    /// unrecognized address is an [`Error::Address`].
    pub fn parse(address: &str) -> (options: Result<Self, Error>)
        ensures
            match options {
                Ok(options) => spec_parse_bind(address@) == Some(options.address@)
                    && options.token@.len() == 0 && is_default_serve(options.serve),
                Err(error) => spec_parse_bind(address@) is None && error is Address,
            },
    {
        let parsed = BindAddress::parse(address)?;
        Ok(ServeModelOptions::new(parsed))
    }

    /// Require `token` on the `authorization` header (empty disables auth).
    pub fn token(self, token: String) -> (options: Self)
        ensures
            options.token == token,
            options.address == self.address,
            options.serve == self.serve,
    {
        ServeModelOptions { token, ..self }
    }

    /// Set the transport serve options.
    pub fn serve_options(self, serve: ServeOptions) -> (options: Self)
        ensures
            options.serve == serve,
            options.address == self.address,
            options.token == self.token,
    {
        ServeModelOptions { serve, ..self }
    }
}

/// Options for driving a model handler against an environment in-process.
/// The wall-clock episode cap is carried as its `f64` bit pattern.
#[derive(Debug, Clone, PartialEq)]
pub struct RunLocalOptions {
    /// Address of the environment server to connect to.
    pub env_address: ConnectAddress,
    /// Stop after this many episodes; `None` runs until the env ends.
    pub max_episodes: Option<u64>,
    /// Base seed for deterministic env reset seeding; `None` leaves seeding
    /// to the env.
    pub base_seed: Option<i64>,
    /// Explicit per-episode reset seeds, consumed in episode-start order.
    pub episode_seeds: Vec<i64>,
    /// Truncate any episode after this many steps.
    pub max_episode_steps: Option<i64>,
    /// Truncate any episode after this many seconds (an `f64` bit pattern).
    pub max_episode_seconds: Option<u64>,
    /// Ask the env to close when the run ends.
    pub close_env: bool,
    /// How many actions of each predicted chunk run before re-planning
    /// (1 = no chunking).
    pub execution_horizon: u32,
}

/// Whether `options` run against `address` with every other knob at its
/// default: no episode bound, no seeding, no caps, the env left open, no
/// chunking.
pub open spec fn is_default_run(options: RunLocalOptions, address: ConnectTarget) -> bool {
    &&& options.env_address@ == address
    &&& options.max_episodes is None
    &&& options.base_seed is None
    &&& options.episode_seeds@.len() == 0
    &&& options.max_episode_steps is None
    &&& options.max_episode_seconds is None
    &&& !options.close_env
    &&& options.execution_horizon == 1
}

impl RunLocalOptions {
    /// Run against `env_address` until the environment ends.
    pub fn new(env_address: ConnectAddress) -> (options: Self)
        ensures
            is_default_run(options, env_address@),
    {
        RunLocalOptions {
            env_address,
            max_episodes: None,
            base_seed: None,
            episode_seeds: Vec::new(),
            max_episode_steps: None,
            max_episode_seconds: None,
            close_env: false,
            execution_horizon: 1,
        }
    }

    /// Parse a string env address (e.g. `"tcp://host:50051"`); an
    /// unrecognized address is an [`Error::Address`].
    pub fn parse(env_address: &str) -> (options: Result<Self, Error>)
        ensures
            match options {
                Ok(options) => spec_parse_connect(env_address@) matches Some(target) && is_default_run(options, target),
                Err(error) => spec_parse_connect(env_address@) is None && error is Address,
            },
    {
        let parsed = ConnectAddress::parse(env_address)?;
        Ok(RunLocalOptions::new(parsed))
    }

    /// Stop after `max_episodes` episodes.
    pub fn for_episodes(self, max_episodes: u64) -> (options: Self)
        ensures
            options == (RunLocalOptions { max_episodes: Some(max_episodes), ..self }),
    {
        RunLocalOptions { max_episodes: Some(max_episodes), ..self }
    }

    /// Set the base seed used for deterministic env reset seeding.
    pub fn base_seed(self, base_seed: i64) -> (options: Self)
        ensures
            options == (RunLocalOptions { base_seed: Some(base_seed), ..self }),
    {
        RunLocalOptions { base_seed: Some(base_seed), ..self }
    }

    /// Execute `execution_horizon` actions of each predicted chunk before
    /// re-planning; a horizon of 0 is taken as 1 (no chunking).
    pub fn execution_horizon(self, execution_horizon: u32) -> (options: Self)
        ensures
            options == (RunLocalOptions {
                execution_horizon: if execution_horizon < 1 {
                    1
                } else {
                    execution_horizon
                },
                ..self
            }),
    {
        let horizon = if execution_horizon < 1 {
            1
        } else {
            execution_horizon
        };
        RunLocalOptions { execution_horizon: horizon, ..self }
    }

    /// Reset each episode with the next seed from `episode_seeds`, in
    /// episode-start order.
    pub fn episode_seeds(self, episode_seeds: Vec<i64>) -> (options: Self)
        ensures
            options == (RunLocalOptions { episode_seeds, ..self }),
    {
        RunLocalOptions { episode_seeds, ..self }
    }

    /// Truncate any episode after `max_episode_steps` steps.
    pub fn max_episode_steps(self, max_episode_steps: i64) -> (options: Self)
        ensures
            options == (RunLocalOptions { max_episode_steps: Some(max_episode_steps), ..self }),
    {
        RunLocalOptions { max_episode_steps: Some(max_episode_steps), ..self }
    }

    /// Truncate any episode after the wall-clock duration whose `f64` bit
    /// pattern is `max_episode_seconds`.
    pub fn max_episode_seconds(self, max_episode_seconds: u64) -> (options: Self)
        ensures
            options == (RunLocalOptions { max_episode_seconds: Some(max_episode_seconds), ..self }),
    {
        RunLocalOptions { max_episode_seconds: Some(max_episode_seconds), ..self }
    }

    /// Ask the env to close when the run ends.
    pub fn close_env(self, close_env: bool) -> (options: Self)
        ensures
            options == (RunLocalOptions { close_env, ..self }),
    {
        RunLocalOptions { close_env, ..self }
    }
}

} // verus!
