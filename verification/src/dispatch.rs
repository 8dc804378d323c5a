//! The dispatcher: the operating mode, which tool names it covers, the
//! transport-error classification (with the spawn-and-retry-once rule), and
//! how a call's outcome is presented per mode.

use vstd::prelude::*;

use crate::session::ToolOutcome;
use crate::strutil::chars_eq;
use crate::strutil::chars_of;
use crate::strutil::contains_seq;
use crate::strutil::contains_sub;
use crate::strutil::lower_chars;
use crate::strutil::lower_seq;

verus! {

/// The operating mode: whether tool calls may use the daemon-backed path.
#[derive(Debug, PartialEq, Eq, Structural)]
pub enum LspMode {
    /// Never use this path; every call is not handled.
    Off,
    /// Try this path; fall back quietly when it fails.
    Auto,
    /// Use this path; its failures are hard errors.
    Required,
}

/// The mode a configuration string selects: `required` and `auto`, compared
/// without regard to ASCII case, name their modes, anything else is off.
pub open spec fn mode_of(raw: Seq<char>) -> LspMode {
    if lower_seq(raw) == "required"@ {
        LspMode::Required
    } else if lower_seq(raw) == "auto"@ {
        LspMode::Auto
    } else {
        LspMode::Off
    }
}

/// Read the operating mode from the configured value; absent means off.
pub fn lsp_mode(raw: &Option<String>) -> (m: LspMode)
    ensures
        m == match raw {
            Option::Some(s) => mode_of(s@),
            Option::None => LspMode::Off,
        },
{
    match raw {
        Option::Some(s) => {
            let sc = chars_of(s.as_str());
            let low = lower_chars(&sc);
            if chars_eq(&low, &chars_of("required")) {
                LspMode::Required
            } else if chars_eq(&low, &chars_of("auto")) {
                LspMode::Auto
            } else {
                LspMode::Off
            }
        },
        Option::None => LspMode::Off,
    }
}

/// The tool names this path covers.
pub open spec fn is_lsp_tool_spec(name: Seq<char>) -> bool {
    ||| name == "get_symbols"@
    ||| name == "find_symbol"@
    ||| name == "find_refs"@
    ||| name == "build_index"@
}

/// Is this one of the four tools this path covers?
pub fn is_lsp_tool(name: &str) -> (r: bool)
    ensures
        r == is_lsp_tool_spec(name@),
{
    let n = chars_of(name);
    chars_eq(&n, &chars_of("get_symbols")) || chars_eq(&n, &chars_of("find_symbol")) || chars_eq(
        &n,
        &chars_of("find_refs"),
    ) || chars_eq(&n, &chars_of("build_index"))
}

/// An error text that marks a daemon transport failure rather than a tool
/// failure; only these trigger the spawn-and-retry-once rule.
pub open spec fn daemon_transport_error(text: Seq<char>) -> bool {
    let low = lower_seq(text);
    ||| contains_seq(low, "failed to connect"@)
    ||| contains_seq(low, "connection refused"@)
    ||| contains_seq(low, "no such file or directory"@)
    ||| contains_seq(low, "returned empty response"@)
    ||| contains_seq(low, "broken pipe"@)
    ||| contains_seq(low, "timed out"@)
}

/// Does this error text, compared without regard to ASCII case, hold one of
/// the known transport-failure phrases?
pub fn is_daemon_transport_error(text: &str) -> (r: bool)
    ensures
        r == daemon_transport_error(text@),
{
    let t = chars_of(text);
    let low = lower_chars(&t);
    let n1 = chars_of("failed to connect");
    let n2 = chars_of("connection refused");
    let n3 = chars_of("no such file or directory");
    let n4 = chars_of("returned empty response");
    let n5 = chars_of("broken pipe");
    let n6 = chars_of("timed out");
    contains_sub(&low, &n1) || contains_sub(&low, &n2) || contains_sub(&low, &n3) || contains_sub(
        &low,
        &n4,
    ) || contains_sub(&low, &n5) || contains_sub(&low, &n6)
}

/// Does a first daemon failure warrant spawning the daemon and retrying once?
pub fn should_respawn_daemon(first: &ToolOutcome) -> (r: bool)
    ensures
        r == match first {
            ToolOutcome::Failure(m) => daemon_transport_error(m@),
            ToolOutcome::Success(_) => false,
        },
{
    match first {
        ToolOutcome::Failure(m) => is_daemon_transport_error(m.as_str()),
        ToolOutcome::Success(_) => false,
    }
}

/// Combine the first daemon attempt with what followed: a transport failure
/// is superseded by the spawn's error or the retry's outcome; anything else
/// stands as it is. There is never more than the one retry.
pub fn daemon_result(first: ToolOutcome, followup: Option<ToolOutcome>) -> (r: ToolOutcome)
    requires
        (followup is Some) == match first {
            ToolOutcome::Failure(m) => daemon_transport_error(m@),
            ToolOutcome::Success(_) => false,
        },
    ensures
        match followup {
            Option::Some(f) => r == f,
            Option::None => r == first,
        },
{
    match followup {
        Option::Some(f) => f,
        Option::None => first,
    }
}

/// What the tool-call entry point tells its caller.
pub enum DispatchOutcome {
    /// This path did not handle the call; the caller must use another
    /// backend or fail on its own.
    NotHandled,
    /// The call was handled; here is its result.
    Handled(serde_json::Value),
    /// The call was handled and failed hard.
    Failed(String),
}

/// Present a tool call's outcome according to the operating mode. With the
/// mode off, or for a foreign tool name, the call is never handled — no
/// daemon outcome may even exist. A success is handled either way; a failure
/// is a hard error under `required` and quietly not handled under `auto`.
pub fn maybe_execute(mode: LspMode, tool_name: &str, daemon_outcome: Option<ToolOutcome>) -> (r:
    DispatchOutcome)
    requires
        (daemon_outcome is Some) == (is_lsp_tool_spec(tool_name@) && mode != LspMode::Off),
    ensures
        !is_lsp_tool_spec(tool_name@) || mode == LspMode::Off ==> r is NotHandled,
        match daemon_outcome {
            Option::Some(out) => match out {
                ToolOutcome::Success(v) => r == DispatchOutcome::Handled(v),
                ToolOutcome::Failure(m) => if mode == LspMode::Required {
                    r == DispatchOutcome::Failed(m)
                } else {
                    r is NotHandled
                },
            },
            Option::None => r is NotHandled,
        },
{
    match daemon_outcome {
        Option::Some(out) => match out {
            ToolOutcome::Success(v) => DispatchOutcome::Handled(v),
            ToolOutcome::Failure(m) => {
                if mode == LspMode::Required {
                    DispatchOutcome::Failed(m)
                } else {
                    DispatchOutcome::NotHandled
                }
            },
        },
        Option::None => DispatchOutcome::NotHandled,
    }
}

} // verus!
