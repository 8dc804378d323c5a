//! The daemon's control protocol and serve-loop policy: the request and
//! response shapes, how each request is answered, how the client side reads
//! the answers, when the serve loop ends, and where the daemon's state files
//! live.
//!
//! The listener, the sockets and the state files themselves are the
//! application layer's; it performs what the decisions here call for.

use vstd::prelude::*;

use vstd::string::StringExecFns;

use crate::tools::join_path;

verus! {

/// The serve loop ends on its own after this many seconds without a
/// connection.
pub const DAEMON_IDLE_TIMEOUT_SECS: u64 = 600;

/// One wire request to the daemon; exactly one variant per message.
pub enum DaemonRequest {
    /// Run a tool against a project.
    Tool { tool_name: String, params: serde_json::Value, project_root: String },
    /// Report the daemon's identity and versions.
    Status,
    /// Answer that the daemon is alive.
    Ping,
    /// Answer, then end the serve loop.
    Stop,
}

/// What a `Status` request reports.
pub struct StatusInfo {
    pub pid: u64,
    pub rid: String,
    pub binary_path: Option<String>,
    pub version: Option<String>,
}

/// The payload of a successful reply.
pub enum ReplyBody {
    /// The answer to `Ping`.
    Pong,
    /// The answer to `Status`.
    Status(StatusInfo),
    /// The answer to `Stop`.
    Stopping,
    /// The answer to `Tool`: the tool's raw result.
    ToolResult(serde_json::Value),
}

/// One wire response: failure always carries an error text; success may
/// carry a payload.
pub struct DaemonResponse {
    pub ok: bool,
    pub result: Option<ReplyBody>,
    pub error: Option<String>,
}

/// A response is well-formed when failure carries an error text and success
/// carries none.
pub open spec fn wf_response(r: DaemonResponse) -> bool {
    &&& !r.ok ==> r.error is Some
    &&& r.ok ==> r.error is None
}

/// Whether the connection's serving goes on after a reply.
pub enum ConnectionAction {
    /// Accept further connections.
    Continue,
    /// End the serve loop.
    Stop,
}

/// Answer one request: `Ping`, `Status` and `Stop` are answered directly,
/// and only `Stop` ends the loop; a `Tool` request is answered with the
/// handed-in outcome of running the tool.
pub fn handle_request(
    req: DaemonRequest,
    status: StatusInfo,
    tool_result: Option<Result<serde_json::Value, String>>,
) -> (r: (DaemonResponse, ConnectionAction))
    requires
        (tool_result is Some) == (req is Tool),
    ensures
        wf_response(r.0),
        req is Ping ==> r.0.ok && (r.0.result matches Option::Some(ReplyBody::Pong)) && r.1
            is Continue,
        req is Status ==> r.0.ok && (r.0.result matches Option::Some(ReplyBody::Status(s)) && s
            == status) && r.1 is Continue,
        req is Stop ==> r.0.ok && (r.0.result matches Option::Some(ReplyBody::Stopping)) && r.1
            is Stop,
        req is Tool ==> r.1 is Continue && match tool_result {
            Option::Some(tr) => match tr {
                Result::Ok(v) => r.0.ok && r.0.result == Option::Some(ReplyBody::ToolResult(v))
                    && r.0.error is None,
                Result::Err(m) => !r.0.ok && r.0.result is None && r.0.error
                    == Option::Some::<String>(m),
            },
            Option::None => false,
        },
{
    match req {
        DaemonRequest::Ping => (
            DaemonResponse {
                ok: true,
                result: Option::Some(ReplyBody::Pong),
                error: Option::None,
            },
            ConnectionAction::Continue,
        ),
        DaemonRequest::Status => (
            DaemonResponse {
                ok: true,
                result: Option::Some(ReplyBody::Status(status)),
                error: Option::None,
            },
            ConnectionAction::Continue,
        ),
        DaemonRequest::Stop => (
            DaemonResponse {
                ok: true,
                result: Option::Some(ReplyBody::Stopping),
                error: Option::None,
            },
            ConnectionAction::Stop,
        ),
        DaemonRequest::Tool { tool_name: _, params: _, project_root: _ } => {
            match tool_result {
                Option::Some(tr) => match tr {
                    Result::Ok(v) => (
                        DaemonResponse {
                            ok: true,
                            result: Option::Some(ReplyBody::ToolResult(v)),
                            error: Option::None,
                        },
                        ConnectionAction::Continue,
                    ),
                    Result::Err(m) => (
                        DaemonResponse { ok: false, result: Option::None, error: Option::Some(m) },
                        ConnectionAction::Continue,
                    ),
                },
                Option::None => (
                    DaemonResponse {
                        ok: true,
                        result: Option::Some(ReplyBody::Pong),
                        error: Option::None,
                    },
                    ConnectionAction::Continue,
                ),
            }
        },
    }
}

/// Build the wire request that runs a tool against a project.
pub fn call_tool(tool_name: &str, params: serde_json::Value, project_root: &str) -> (r:
    DaemonRequest)
    ensures
        r matches DaemonRequest::Tool { tool_name: t, params: p, project_root: root } && t@
            == tool_name@ && p == params && root@ == project_root@,
{
    DaemonRequest::Tool {
        tool_name: String::from_str(tool_name),
        params,
        project_root: String::from_str(project_root),
    }
}

/// The error text of a failed response, or `unknown error`.
fn error_text_of(error: Option<String>) -> (r: String)
    ensures
        r@ == match error {
            Option::Some(e) => e@,
            Option::None => "unknown error"@,
        },
{
    match error {
        Option::Some(e) => e,
        Option::None => String::from_str("unknown error"),
    }
}

/// Read a tool reply: success yields the carried result, if any; failure
/// yields `lspd request failed: <error>`.
pub fn call_tool_response(response: DaemonResponse) -> (r: Result<Option<serde_json::Value>, String>)
    ensures
        response.ok ==> (r matches Result::Ok(v) && v == match response.result {
            Option::Some(ReplyBody::ToolResult(val)) => Option::Some(val),
            _ => Option::<serde_json::Value>::None,
        }),
        !response.ok ==> (r matches Result::Err(m) && m@ == "lspd request failed: "@ + match response.error {
            Option::Some(e) => e@,
            Option::None => "unknown error"@,
        }),
{
    if response.ok {
        match response.result {
            Option::Some(ReplyBody::ToolResult(val)) => Result::Ok(Option::Some(val)),
            _ => Result::Ok(Option::None),
        }
    } else {
        let text = error_text_of(response.error);
        Result::Err(String::from_str("lspd request failed: ").concat(text.as_str()))
    }
}

/// Read a ping reply: success exactly when the daemon answered `ok`; failure
/// yields `lspd ping failed: <error>`.
pub fn ping(response: DaemonResponse) -> (r: Result<(), String>)
    ensures
        r is Ok <==> response.ok,
        !response.ok ==> (r matches Result::Err(m) && m@ == "lspd ping failed: "@ + match response.error {
            Option::Some(e) => e@,
            Option::None => "unknown error"@,
        }),
{
    if response.ok {
        Result::Ok(())
    } else {
        let text = error_text_of(response.error);
        Result::Err(String::from_str("lspd ping failed: ").concat(text.as_str()))
    }
}

/// What a stop request came to.
pub struct StopReport {
    /// The call itself went through.
    pub success: bool,
    /// A running daemon acknowledged and is stopping.
    pub stopped: bool,
    /// Set to false when no daemon was reachable to begin with.
    pub running: Option<bool>,
}

/// Read a stop reply. No reachable daemon degrades to "already not running"
/// rather than an error; a daemon that answered but refused is an error
/// `lspd stop failed: <error>`.
pub fn stop_outcome(response: Option<DaemonResponse>) -> (r: Result<StopReport, String>)
    ensures
        match response {
            Option::Some(resp) => if resp.ok {
                r matches Result::Ok(rep) && rep.success && rep.stopped && rep.running is None
            } else {
                r matches Result::Err(m) && m@ == "lspd stop failed: "@ + match resp.error {
                    Option::Some(e) => e@,
                    Option::None => "unknown error"@,
                }
            },
            Option::None => r matches Result::Ok(rep) && rep.success && !rep.stopped && rep.running
                == Option::Some(false),
        },
{
    match response {
        Option::Some(resp) => {
            if resp.ok {
                Result::Ok(StopReport { success: true, stopped: true, running: Option::None })
            } else {
                let text = error_text_of(resp.error);
                Result::Err(String::from_str("lspd stop failed: ").concat(text.as_str()))
            }
        },
        Option::None => Result::Ok(
            StopReport { success: true, stopped: false, running: Option::Some(false) },
        ),
    }
}

/// What a status request came to.
pub enum StatusReport {
    /// The daemon answered; its payload, when it sent one.
    Running(Option<ReplyBody>),
    /// The daemon is not running, with the refusal's error text when it
    /// answered at all.
    NotRunning(Option<String>),
}

/// Read a status reply. No reachable daemon degrades to "not running" rather
/// than an error.
pub fn status_outcome(response: Option<DaemonResponse>) -> (r: StatusReport)
    ensures
        match response {
            Option::Some(resp) => if resp.ok {
                r == StatusReport::Running(resp.result)
            } else {
                r == StatusReport::NotRunning(resp.error)
            },
            Option::None => r == StatusReport::NotRunning(Option::<String>::None),
        },
{
    match response {
        Option::Some(resp) => {
            if resp.ok {
                StatusReport::Running(resp.result)
            } else {
                StatusReport::NotRunning(resp.error)
            }
        },
        Option::None => StatusReport::NotRunning(Option::None),
    }
}

/// Is the daemon already running, going by a status report?
pub fn already_running(status: &StatusReport) -> (r: bool)
    ensures
        r == (status is Running),
{
    match status {
        StatusReport::Running(_) => true,
        StatusReport::NotRunning(_) => false,
    }
}

/// What the serve loop sees on one iteration.
pub enum AcceptEvent {
    /// A connection was served; the action its request decided.
    Connection(ConnectionAction),
    /// No connection is ready.
    WouldBlock,
    /// The listener failed; the error's text.
    Fatal(String),
}

/// What the serve loop does next.
pub enum ServeDecision {
    /// Keep accepting; a connection was just served, so the idle clock
    /// restarts.
    Continue,
    /// Nothing to do; sleep briefly, then look again.
    Sleep,
    /// A `Stop` request was served: clean up the state files and end.
    ExitStop,
    /// Nothing arrived for the whole idle window: clean up and end.
    ExitIdle,
    /// The listener failed: clean up and end with this error.
    ExitError(String),
}

/// Decide one serve-loop step: a served `Stop` ends the loop; with no
/// connection, the loop ends on its own once the idle window has passed,
/// else it sleeps; a listener failure ends the loop with
/// `lspd accept failed: <error>`.
pub fn serve_step(event: AcceptEvent, idle_elapsed_ms: u64, idle_timeout_ms: u64) -> (r:
    ServeDecision)
    ensures
        match event {
            AcceptEvent::Connection(a) => if a is Stop {
                r is ExitStop
            } else {
                r is Continue
            },
            AcceptEvent::WouldBlock => if idle_elapsed_ms >= idle_timeout_ms {
                r is ExitIdle
            } else {
                r is Sleep
            },
            AcceptEvent::Fatal(m) => r matches ServeDecision::ExitError(t) && t@
                == "lspd accept failed: "@ + m@,
        },
{
    match event {
        AcceptEvent::Connection(a) => match a {
            ConnectionAction::Stop => ServeDecision::ExitStop,
            ConnectionAction::Continue => ServeDecision::Continue,
        },
        AcceptEvent::WouldBlock => {
            if idle_elapsed_ms >= idle_timeout_ms {
                ServeDecision::ExitIdle
            } else {
                ServeDecision::Sleep
            }
        },
        AcceptEvent::Fatal(m) => ServeDecision::ExitError(
            String::from_str("lspd accept failed: ").concat(m.as_str()),
        ),
    }
}

/// The daemon's pid file, under the install directory.
pub fn pid_file_path(install_dir: &str) -> (r: String)
    ensures
        r@ == install_dir@ + seq!['/'] + "lspd.pid"@,
{
    join_path(install_dir, "lspd.pid")
}

/// The daemon's socket file, under the install directory.
pub fn socket_path(install_dir: &str) -> (r: String)
    ensures
        r@ == install_dir@ + seq!['/'] + "lspd.sock"@,
{
    join_path(install_dir, "lspd.sock")
}

/// The loopback port the daemon binds where local sockets are unavailable.
pub fn daemon_port() -> (r: u16)
    ensures
        r == 6421,
{
    6421
}

} // verus!
