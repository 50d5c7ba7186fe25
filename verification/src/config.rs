//! Configuration of the MCP server and of a project build.
use vstd::prelude::*;
use vstd::string::*;

verus! {

/// How the MCP server talks to its client.
#[derive(Debug, Clone, Copy, PartialEq, Eq, Structural)]
pub enum Transport {
    /// JSON-RPC over standard input and output.
    Stdio,
    /// HTTP, one request per message.
    Sse,
}

/// Settings of an MCP server run.
#[derive(Debug, Clone)]
pub struct McpConfig {
    pub wasm_path: String,
    pub transport: Transport,
    pub port: u16,
    pub host: String,
    pub bridge_command: String,
    /// Suppress progress messages on standard error.
    pub quiet: bool,
}

impl McpConfig {
    /// A stdio server for the module at `wasm_path`, with the defaults: port
    /// 8080, host 127.0.0.1, bridge command `br`, not quiet.
    pub fn stdio(wasm_path: String) -> (c: Self)
        ensures
            c.wasm_path@ == wasm_path@,
            c.transport == Transport::Stdio,
            c.port == 8080,
            c.host@ == "127.0.0.1"@,
            c.bridge_command@ == "br"@,
            !c.quiet,
    {
        McpConfig {
            wasm_path,
            transport: Transport::Stdio,
            port: 8080,
            host: String::from_str("127.0.0.1"),
            bridge_command: String::from_str("br"),
            quiet: false,
        }
    }

    /// The same settings served over HTTP at `host`:`port`.
    pub fn sse(self, host: String, port: u16) -> (c: Self)
        ensures
            c.transport == Transport::Sse,
            c.host@ == host@,
            c.port == port,
            c.wasm_path@ == self.wasm_path@,
            c.bridge_command@ == self.bridge_command@,
            c.quiet == self.quiet,
    {
        McpConfig { transport: Transport::Sse, host, port, ..self }
    }
}

/// Settings of a project build.
#[derive(Debug, Clone)]
pub struct BuildConfig {
    /// Also produce a standalone executable.
    pub standalone: bool,
    /// Target triple to cross-compile the standalone executable for.
    pub target: Option<String>,
    /// Optimised build.
    pub release: bool,
}

impl Default for BuildConfig {
    /// Not standalone, no target, release.
    fn default() -> (c: Self)
        ensures
            !c.standalone,
            c.target is None,
            c.release,
    {
        BuildConfig { standalone: false, target: None, release: true }
    }
}

/// Builds a `BuildConfig` step by step.
pub struct Builder {
    config: BuildConfig,
}

impl Builder {
    /// The configuration built so far.
    pub closed spec fn config(&self) -> BuildConfig {
        self.config
    }

    /// Starts from the default configuration.
    pub fn new() -> (b: Self)
        ensures
            !b.config().standalone,
            b.config().target is None,
            b.config().release,
    {
        Builder { config: BuildConfig::default() }
    }

    /// Sets whether a standalone executable is produced.
    pub fn standalone(self, standalone: bool) -> (b: Self)
        ensures
            b.config().standalone == standalone,
            b.config().target == self.config().target,
            b.config().release == self.config().release,
    {
        let mut b = self;
        b.config.standalone = standalone;
        b
    }

    /// Sets the target triple.
    pub fn target(self, target: String) -> (b: Self)
        ensures
            b.config().target == Some(target),
            b.config().standalone == self.config().standalone,
            b.config().release == self.config().release,
    {
        let mut b = self;
        b.config.target = Some(target);
        b
    }

    /// Sets release or debug mode.
    pub fn release(self, release: bool) -> (b: Self)
        ensures
            b.config().release == release,
            b.config().standalone == self.config().standalone,
            b.config().target == self.config().target,
    {
        let mut b = self;
        b.config.release = release;
        b
    }

    /// The configuration.
    pub fn build_config(self) -> (c: BuildConfig)
        ensures
            c == self.config(),
    {
        self.config
    }
}

impl Default for Builder {
    /// Same as `Builder::new`.
    fn default() -> (b: Self)
        ensures
            !b.config().standalone,
            b.config().target is None,
            b.config().release,
    {
        Builder::new()
    }
}

} // verus!
