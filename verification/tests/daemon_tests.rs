use unity_cli::daemon::already_running;
use unity_cli::daemon::call_tool;
use unity_cli::daemon::call_tool_response;
use unity_cli::daemon::daemon_port;
use unity_cli::daemon::handle_request;
use unity_cli::daemon::pid_file_path;
use unity_cli::daemon::ping;
use unity_cli::daemon::serve_step;
use unity_cli::daemon::socket_path;
use unity_cli::daemon::status_outcome;
use unity_cli::daemon::stop_outcome;
use unity_cli::daemon::AcceptEvent;
use unity_cli::daemon::ConnectionAction;
use unity_cli::daemon::DaemonRequest;
use unity_cli::daemon::DaemonResponse;
use unity_cli::daemon::ReplyBody;
use unity_cli::daemon::ServeDecision;
use unity_cli::daemon::StatusInfo;
use unity_cli::daemon::StatusReport;
use unity_cli::daemon::DAEMON_IDLE_TIMEOUT_SECS;

fn status_info() -> StatusInfo {
    StatusInfo {
        pid: 4242,
        rid: String::from("linux-x64"),
        binary_path: Some(String::from("/tools/csharp-lsp/linux-x64/server")),
        version: Some(String::from("1.2.3")),
    }
}

#[test]
fn ping_round_trip_returns_success() {
    let (response, action) = handle_request(DaemonRequest::Ping, status_info(), None);
    assert!(response.ok);
    assert!(matches!(response.result, Some(ReplyBody::Pong)));
    assert!(matches!(action, ConnectionAction::Continue));
    assert!(ping(response).is_ok());
}

#[test]
fn ping_failure_carries_the_error_text() {
    let refused = DaemonResponse {
        ok: false,
        result: None,
        error: Some(String::from("busy")),
    };
    assert_eq!(ping(refused).unwrap_err(), "lspd ping failed: busy");
    let bare = DaemonResponse { ok: false, result: None, error: None };
    assert_eq!(ping(bare).unwrap_err(), "lspd ping failed: unknown error");
}

#[test]
fn stop_round_trip_ends_the_serve_loop() {
    let (response, action) = handle_request(DaemonRequest::Stop, status_info(), None);
    assert!(response.ok);
    assert!(matches!(response.result, Some(ReplyBody::Stopping)));
    assert!(matches!(action, ConnectionAction::Stop));
    let decision = serve_step(AcceptEvent::Connection(action), 0, DAEMON_IDLE_TIMEOUT_SECS * 1000);
    assert!(matches!(decision, ServeDecision::ExitStop));
}

#[test]
fn the_idle_window_ends_the_serve_loop_without_a_stop() {
    let timeout = DAEMON_IDLE_TIMEOUT_SECS * 1000;
    assert!(matches!(serve_step(AcceptEvent::WouldBlock, timeout - 1, timeout), ServeDecision::Sleep));
    assert!(matches!(serve_step(AcceptEvent::WouldBlock, timeout, timeout), ServeDecision::ExitIdle));
    assert!(matches!(
        serve_step(AcceptEvent::Connection(ConnectionAction::Continue), timeout, timeout),
        ServeDecision::Continue
    ));
    match serve_step(AcceptEvent::Fatal(String::from("address in use")), 0, timeout) {
        ServeDecision::ExitError(m) => assert_eq!(m, "lspd accept failed: address in use"),
        _ => panic!("expected the listener error"),
    }
}

#[test]
fn status_requests_report_the_daemon_identity() {
    let (response, action) = handle_request(DaemonRequest::Status, status_info(), None);
    assert!(response.ok);
    assert!(matches!(action, ConnectionAction::Continue));
    match response.result {
        Some(ReplyBody::Status(info)) => {
            assert_eq!(info.pid, 4242);
            assert_eq!(info.rid, "linux-x64");
            assert_eq!(info.version.as_deref(), Some("1.2.3"));
        }
        _ => panic!("expected a status payload"),
    }
}

#[test]
fn tool_requests_carry_their_outcome() {
    let request = call_tool("find_refs", serde_json::Value::Null, "/proj");
    match &request {
        DaemonRequest::Tool { tool_name, project_root, .. } => {
            assert_eq!(tool_name, "find_refs");
            assert_eq!(project_root, "/proj");
        }
        _ => panic!("expected a tool request"),
    }

    let (ok_response, _) = handle_request(request, status_info(), Some(Ok(serde_json::Value::Bool(true))));
    assert!(ok_response.ok);
    match call_tool_response(ok_response) {
        Ok(Some(serde_json::Value::Bool(true))) => {}
        _ => panic!("expected the carried result"),
    }

    let request = call_tool("find_refs", serde_json::Value::Null, "/proj");
    let (err_response, action) =
        handle_request(request, status_info(), Some(Err(String::from("no such symbol"))));
    assert!(!err_response.ok);
    assert!(matches!(action, ConnectionAction::Continue));
    assert_eq!(err_response.error.as_deref(), Some("no such symbol"));
    assert_eq!(
        call_tool_response(err_response).unwrap_err(),
        "lspd request failed: no such symbol"
    );
}

#[test]
fn stop_degrades_when_no_daemon_answers() {
    let report = match stop_outcome(None) {
        Ok(r) => r,
        Err(_) => panic!("expected a degraded success"),
    };
    assert!(report.success);
    assert!(!report.stopped);
    assert_eq!(report.running, Some(false));

    let ok = DaemonResponse { ok: true, result: Some(ReplyBody::Stopping), error: None };
    let report = match stop_outcome(Some(ok)) {
        Ok(r) => r,
        Err(_) => panic!("expected an acknowledged stop"),
    };
    assert!(report.success);
    assert!(report.stopped);

    let refused = DaemonResponse { ok: false, result: None, error: Some(String::from("locked")) };
    match stop_outcome(Some(refused)) {
        Err(m) => assert_eq!(m, "lspd stop failed: locked"),
        Ok(_) => panic!("expected an error"),
    }
}

#[test]
fn status_degrades_when_no_daemon_answers() {
    let report = status_outcome(None);
    assert!(matches!(report, StatusReport::NotRunning(None)));
    assert!(!already_running(&report));

    let ok = DaemonResponse { ok: true, result: None, error: None };
    let report = status_outcome(Some(ok));
    assert!(already_running(&report));
}

#[test]
fn state_files_live_under_the_install_directory() {
    assert_eq!(pid_file_path("/tools/csharp-lsp/linux-x64"), "/tools/csharp-lsp/linux-x64/lspd.pid");
    assert_eq!(socket_path("/tools/csharp-lsp/linux-x64"), "/tools/csharp-lsp/linux-x64/lspd.sock");
    assert_eq!(daemon_port(), 6421);
}
