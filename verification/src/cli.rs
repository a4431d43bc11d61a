//! Command-line arguments as plain values, and the choices they offer.

use vstd::prelude::*;

verus! {

/// How workers exercise the target.
#[derive(Debug, Clone, Copy, PartialEq, Eq, Structural)]
pub enum TestMode {
    /// Send a frame, await the response, and record the round-trip time.
    Echo,
    /// Send frames continuously without awaiting responses.
    Stream,
    /// Connect and record the messages the server pushes.
    Listen,
}

/// Formats a report can be rendered in.
#[derive(Debug, Clone, Copy, PartialEq, Eq, Structural)]
pub enum OutputFormat {
    /// Human-readable terminal tables.
    Text,
    /// Schema-versioned JSON.
    Json,
    /// GitHub Flavored Markdown.
    Markdown,
}

/// The arguments of one invocation, before validation. Durations and
/// thresholds are kept as the text they were given in.
#[derive(Debug, Clone)]
pub struct Cli {
    pub url: Option<String>,
    pub url_flag: Option<String>,
    pub connections: usize,
    pub ramp_rate: u64,
    pub duration: String,
    pub requests: Option<u64>,
    pub rate: u64,
    pub payload: Option<String>,
    pub payload_file: Option<String>,
    pub binary: bool,
    pub headers: Vec<String>,
    pub subprotocol: Option<String>,
    pub mode: TestMode,
    pub connect_timeout: String,
    pub message_timeout: String,
    pub ping_interval: String,
    pub max_p50: Option<String>,
    pub max_p95: Option<String>,
    pub max_p99: Option<String>,
    pub max_p999: Option<String>,
    pub max_error_rate: Option<String>,
    pub min_throughput: Option<String>,
    pub format: OutputFormat,
    pub output_file: Option<String>,
    pub tui: bool,
    pub no_progress: bool,
}

/// The target URL of an invocation: the positional one, else the `--url` one.
pub open spec fn resolved_url(cli: Cli) -> Option<Seq<char>> {
    match cli.url {
        Some(u) => Some(u@),
        None => match cli.url_flag {
            Some(u) => Some(u@),
            None => None,
        },
    }
}

impl Cli {
    /// Resolves the target URL from the positional or the named argument.
    pub fn resolve_url(&self) -> (r: Option<&str>)
        ensures
            match resolved_url(*self) {
                Some(u) => r matches Some(s) && s@ == u,
                None => r is None,
            },
    {
        match &self.url {
            Some(u) => Some(u.as_str()),
            None => match &self.url_flag {
                Some(u) => Some(u.as_str()),
                None => None,
            },
        }
    }
}

} // verus!
