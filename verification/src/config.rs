//! Runtime configuration: explicit command-line values first, then
//! environment values — primary keys before deprecated ones, blank values
//! ignored — then the built-in defaults.
//!
//! The environment itself is read by the application layer, which hands the
//! raw readings in as an [`EnvSnapshot`].

use vstd::prelude::*;

use vstd::string::StringExecFns;

use crate::strutil::chars_of;
use crate::strutil::parse_u64_spec;
use crate::strutil::string_from_chars;
use crate::strutil::trim_chars;
use crate::strutil::trim_spec;

verus! {

/// The resolved runtime configuration.
pub struct RuntimeConfig {
    pub host: String,
    pub port: u16,
    pub timeout_ms: u64,
}

/// The values given on the command line, each optional.
pub struct CliOverrides {
    pub host: Option<String>,
    pub port: Option<u16>,
    pub timeout_ms: Option<u64>,
}

/// The raw environment readings the configuration draws on.
pub struct EnvSnapshot {
    /// `UNITY_CLI_HOST`.
    pub cli_host: Option<String>,
    /// `UNITY_MCP_MCP_HOST`, deprecated in favor of `UNITY_CLI_HOST`.
    pub mcp_mcp_host: Option<String>,
    /// `UNITY_MCP_UNITY_HOST`, deprecated in favor of `UNITY_CLI_HOST`.
    pub mcp_unity_host: Option<String>,
    /// `UNITY_CLI_PORT`.
    pub cli_port: Option<String>,
    /// `UNITY_MCP_PORT`, deprecated in favor of `UNITY_CLI_PORT`.
    pub mcp_port: Option<String>,
    /// `UNITY_CLI_TIMEOUT_MS`.
    pub cli_timeout_ms: Option<String>,
    /// `UNITY_MCP_COMMAND_TIMEOUT`, deprecated in favor of
    /// `UNITY_CLI_TIMEOUT_MS`.
    pub mcp_command_timeout: Option<String>,
    /// `UNITY_MCP_CONNECT_TIMEOUT`, deprecated in favor of
    /// `UNITY_CLI_TIMEOUT_MS`.
    pub mcp_connect_timeout: Option<String>,
}

/// A value picked from the environment: the trimmed text, and which
/// deprecated key supplied it, if any, so the caller can warn.
pub struct EnvReading {
    pub value: String,
    pub deprecated_index: Option<usize>,
}

/// The first reading, from position `i` on, whose trimmed value is
/// non-empty: its position and trimmed value.
pub open spec fn first_env_value(vals: Seq<Option<String>>, i: nat) -> Option<(nat, Seq<char>)>
    decreases vals.len() - i,
{
    if i >= vals.len() {
        Option::None
    } else {
        match vals[i as int] {
            Option::Some(s) => if trim_spec(s@).len() > 0 {
                Option::Some((i, trim_spec(s@)))
            } else {
                first_env_value(vals, i + 1)
            },
            Option::None => first_env_value(vals, i + 1),
        }
    }
}

/// What reading the environment with deprecation yields: the first primary
/// key with a non-blank value; else the first deprecated key with one,
/// remembered by position so it can be warned about; else nothing.
pub open spec fn read_env_spec(
    primary: Seq<Option<String>>,
    deprecated: Seq<Option<String>>,
) -> Option<(Seq<char>, Option<nat>)> {
    match first_env_value(primary, 0) {
        Option::Some((_, v)) => Option::Some((v, Option::None)),
        Option::None => match first_env_value(deprecated, 0) {
            Option::Some((i, v)) => Option::Some((v, Option::Some(i))),
            Option::None => Option::None,
        },
    }
}

/// The first non-blank reading of a list, trimmed, with its position.
fn scan_env_values(vals: &Vec<Option<String>>) -> (r: Option<(usize, String)>)
    ensures
        match r {
            Option::Some((i, v)) => first_env_value(vals@, 0) == Option::Some((i as nat, v@)),
            Option::None => first_env_value(vals@, 0) is None,
        },
{
    let mut i: usize = 0;
    loop
        invariant
            i <= vals@.len(),
            first_env_value(vals@, 0) == first_env_value(vals@, i as nat),
        decreases vals@.len() - i,
    {
        if i >= vals.len() {
            return Option::None;
        }
        match &vals[i] {
            Option::Some(s) => {
                let sc = chars_of(s.as_str());
                let trimmed = trim_chars(&sc);
                if trimmed.len() > 0 {
                    return Option::Some((i, string_from_chars(&trimmed)));
                }
            },
            Option::None => {},
        }
        i = i + 1;
    }
}

/// Read an environment value: primary keys first, then deprecated keys, with
/// blank values ignored and every value trimmed. A reading from a deprecated
/// key carries that key's position, so the caller can warn about it.
pub fn read_env_with_deprecation(
    primary: &Vec<Option<String>>,
    deprecated: &Vec<Option<String>>,
) -> (r: Option<EnvReading>)
    ensures
        match r {
            Option::Some(reading) => read_env_spec(primary@, deprecated@) == Option::Some(
                (
                    reading.value@,
                    match reading.deprecated_index {
                        Option::Some(i) => Option::Some(i as nat),
                        Option::None => Option::<nat>::None,
                    },
                ),
            ),
            Option::None => read_env_spec(primary@, deprecated@) is None,
        },
{
    match scan_env_values(primary) {
        Option::Some((_, v)) => Option::Some(
            EnvReading { value: v, deprecated_index: Option::None },
        ),
        Option::None => match scan_env_values(deprecated) {
            Option::Some((i, v)) => Option::Some(
                EnvReading { value: v, deprecated_index: Option::Some(i) },
            ),
            Option::None => Option::None,
        },
    }
}

/// What reading a positive port number yields: the selected value read as a
/// decimal number, kept only when it fits a `u16` and is not zero.
pub open spec fn read_env_u16_spec(
    primary: Seq<Option<String>>,
    deprecated: Seq<Option<String>>,
) -> Option<u16> {
    match read_env_spec(primary, deprecated) {
        Option::Some((v, _)) => match parse_u64_spec(v) {
            Option::Some(n) => if 0 < n <= u16::MAX {
                Option::Some(n as u16)
            } else {
                Option::None
            },
            Option::None => Option::None,
        },
        Option::None => Option::None,
    }
}

/// Read a positive `u16` from the environment, primary keys first.
pub fn read_env_u16_with_deprecation(
    primary: &Vec<Option<String>>,
    deprecated: &Vec<Option<String>>,
) -> (r: Option<u16>)
    ensures
        r == read_env_u16_spec(primary@, deprecated@),
{
    match read_env_with_deprecation(primary, deprecated) {
        Option::Some(reading) => {
            let vc = chars_of(reading.value.as_str());
            match crate::strutil::parse_u64_chars(&vc) {
                Option::Some(n) => {
                    if 0 < n && n <= 65535 {
                        Option::Some(n as u16)
                    } else {
                        Option::None
                    }
                },
                Option::None => Option::None,
            }
        },
        Option::None => Option::None,
    }
}

/// What reading a positive timeout yields: the selected value read as a
/// decimal number, kept only when it is not zero.
pub open spec fn read_env_u64_spec(
    primary: Seq<Option<String>>,
    deprecated: Seq<Option<String>>,
) -> Option<u64> {
    match read_env_spec(primary, deprecated) {
        Option::Some((v, _)) => match parse_u64_spec(v) {
            Option::Some(n) => if n > 0 {
                Option::Some(n)
            } else {
                Option::None
            },
            Option::None => Option::None,
        },
        Option::None => Option::None,
    }
}

/// Read a positive `u64` from the environment, primary keys first.
pub fn read_env_u64_with_deprecation(
    primary: &Vec<Option<String>>,
    deprecated: &Vec<Option<String>>,
) -> (r: Option<u64>)
    ensures
        r == read_env_u64_spec(primary@, deprecated@),
{
    match read_env_with_deprecation(primary, deprecated) {
        Option::Some(reading) => {
            let vc = chars_of(reading.value.as_str());
            match crate::strutil::parse_u64_chars(&vc) {
                Option::Some(n) => {
                    if n > 0 {
                        Option::Some(n)
                    } else {
                        Option::None
                    }
                },
                Option::None => Option::None,
            }
        },
        Option::None => Option::None,
    }
}

/// The host keys of the snapshot, primary then deprecated.
fn host_keys(env: &EnvSnapshot) -> (r: (Vec<Option<String>>, Vec<Option<String>>))
    ensures
        r.0@ =~= seq![env.cli_host],
        r.1@ =~= seq![env.mcp_mcp_host, env.mcp_unity_host],
{
    let mut primary: Vec<Option<String>> = Vec::new();
    primary.push(clone_opt(&env.cli_host));
    let mut deprecated: Vec<Option<String>> = Vec::new();
    deprecated.push(clone_opt(&env.mcp_mcp_host));
    deprecated.push(clone_opt(&env.mcp_unity_host));
    (primary, deprecated)
}

/// A copy of an optional string.
fn clone_opt(v: &Option<String>) -> (r: Option<String>)
    ensures
        r == *v,
{
    match v {
        Option::Some(s) => Option::Some(s.clone()),
        Option::None => Option::None,
    }
}

/// The configured host: the environment reading, else `localhost`.
pub open spec fn default_host_spec(env: EnvSnapshot) -> Seq<char> {
    match read_env_spec(seq![env.cli_host], seq![env.mcp_mcp_host, env.mcp_unity_host]) {
        Option::Some((v, _)) => v,
        Option::None => "localhost"@,
    }
}

/// The host to use when the command line names none.
pub fn default_host(env: &EnvSnapshot) -> (r: String)
    ensures
        r@ == default_host_spec(*env),
{
    let (primary, deprecated) = host_keys(env);
    match read_env_with_deprecation(&primary, &deprecated) {
        Option::Some(reading) => reading.value,
        Option::None => String::from_str("localhost"),
    }
}

/// The configured port: the environment reading, else 6400.
pub open spec fn default_port_spec(env: EnvSnapshot) -> u16 {
    match read_env_u16_spec(seq![env.cli_port], seq![env.mcp_port]) {
        Option::Some(p) => p,
        Option::None => 6400u16,
    }
}

/// The port to use when the command line names none.
pub fn default_port(env: &EnvSnapshot) -> (r: u16)
    ensures
        r == default_port_spec(*env),
{
    let mut primary: Vec<Option<String>> = Vec::new();
    primary.push(clone_opt(&env.cli_port));
    let mut deprecated: Vec<Option<String>> = Vec::new();
    deprecated.push(clone_opt(&env.mcp_port));
    proof {
        assert(primary@ =~= seq![env.cli_port]);
        assert(deprecated@ =~= seq![env.mcp_port]);
    }
    match read_env_u16_with_deprecation(&primary, &deprecated) {
        Option::Some(p) => p,
        Option::None => 6400,
    }
}

/// The configured timeout: the environment reading, else 30000 ms.
pub open spec fn default_timeout_ms_spec(env: EnvSnapshot) -> u64 {
    match read_env_u64_spec(
        seq![env.cli_timeout_ms],
        seq![env.mcp_command_timeout, env.mcp_connect_timeout],
    ) {
        Option::Some(t) => t,
        Option::None => 30000u64,
    }
}

/// The request timeout to use when the command line names none.
pub fn default_timeout_ms(env: &EnvSnapshot) -> (r: u64)
    ensures
        r == default_timeout_ms_spec(*env),
{
    let mut primary: Vec<Option<String>> = Vec::new();
    primary.push(clone_opt(&env.cli_timeout_ms));
    let mut deprecated: Vec<Option<String>> = Vec::new();
    deprecated.push(clone_opt(&env.mcp_command_timeout));
    deprecated.push(clone_opt(&env.mcp_connect_timeout));
    proof {
        assert(primary@ =~= seq![env.cli_timeout_ms]);
        assert(deprecated@ =~= seq![env.mcp_command_timeout, env.mcp_connect_timeout]);
    }
    match read_env_u64_with_deprecation(&primary, &deprecated) {
        Option::Some(t) => t,
        Option::None => 30000,
    }
}

impl RuntimeConfig {
    /// Resolve the configuration: each command-line value wins; anything it
    /// leaves open falls back to the environment, then to the defaults.
    pub fn from_cli(cli: &CliOverrides, env: &EnvSnapshot) -> (r: RuntimeConfig)
        ensures
            r.host@ == match cli.host {
                Option::Some(h) => h@,
                Option::None => default_host_spec(*env),
            },
            r.port == match cli.port {
                Option::Some(p) => p,
                Option::None => default_port_spec(*env),
            },
            r.timeout_ms == match cli.timeout_ms {
                Option::Some(t) => t,
                Option::None => default_timeout_ms_spec(*env),
            },
    {
        let host = match &cli.host {
            Option::Some(h) => h.clone(),
            Option::None => default_host(env),
        };
        let port = match cli.port {
            Option::Some(p) => p,
            Option::None => default_port(env),
        };
        let timeout_ms = match cli.timeout_ms {
            Option::Some(t) => t,
            Option::None => default_timeout_ms(env),
        };
        RuntimeConfig { host, port, timeout_ms }
    }
}

} // verus!
