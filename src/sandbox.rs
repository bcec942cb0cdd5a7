//! Limits for sandboxed tool execution. Running the process is left to the
//! caller; this holds the configuration and the result record.
use vstd::prelude::*;

verus! {

/// Sandbox configuration for tool execution.
#[derive(Debug, Clone)]
pub struct SandboxConfig {
    /// Working directory for sandboxed processes.
    pub workdir: String,
    /// Maximum execution time, in seconds.
    pub timeout_secs: u64,
    /// Maximum output size in bytes.
    pub max_output_bytes: usize,
    /// Environment variables passed through.
    pub env_passthrough: Vec<String>,
    /// Whether to isolate the filesystem.
    pub isolate_fs: bool,
}

impl SandboxConfig {
    /// The default limits: the current directory, 30 s, 1 MiB of output,
    /// `PATH`, `HOME` and `USER` passed through, no filesystem isolation.
    pub fn standard() -> (r: SandboxConfig)
        ensures
            r.workdir@ == "."@,
            r.timeout_secs == 30,
            r.max_output_bytes == 1024 * 1024,
            r.env_passthrough@.len() == 3,
            r.env_passthrough@[0]@ == "PATH"@,
            r.env_passthrough@[1]@ == "HOME"@,
            r.env_passthrough@[2]@ == "USER"@,
            !r.isolate_fs,
    {
        SandboxConfig {
            workdir: ".".to_owned(),
            timeout_secs: 30,
            max_output_bytes: 1024 * 1024,
            env_passthrough: vec!["PATH".to_owned(), "HOME".to_owned(), "USER".to_owned()],
            isolate_fs: false,
        }
    }
}

/// Sandbox for executing tools with resource limits.
#[derive(Debug, Clone)]
pub struct Sandbox {
    pub config: SandboxConfig,
}

impl Sandbox {
    /// A sandbox with the default limits.
    pub fn new() -> (r: Sandbox)
        ensures
            r.config.workdir@ == "."@,
            r.config.timeout_secs == 30,
            r.config.max_output_bytes == 1024 * 1024,
            r.config.env_passthrough@.len() == 3,
            !r.config.isolate_fs,
    {
        Sandbox { config: SandboxConfig::standard() }
    }

    /// A sandbox with the given limits.
    pub fn with_config(config: SandboxConfig) -> (r: Sandbox)
        ensures
            r.config == config,
    {
        Sandbox { config }
    }
}

/// Result of a sandboxed execution.
#[derive(Debug, Clone)]
pub struct SandboxResult {
    pub stdout: String,
    pub stderr: String,
    pub exit_code: i32,
    pub success: bool,
}

} // verus!
