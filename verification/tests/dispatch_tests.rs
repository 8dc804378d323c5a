use unity_cli::dispatch::daemon_result;
use unity_cli::dispatch::is_daemon_transport_error;
use unity_cli::dispatch::is_lsp_tool;
use unity_cli::dispatch::lsp_mode;
use unity_cli::dispatch::maybe_execute;
use unity_cli::dispatch::should_respawn_daemon;
use unity_cli::dispatch::DispatchOutcome;
use unity_cli::dispatch::LspMode;
use unity_cli::session::ToolOutcome;

#[test]
fn the_mode_defaults_to_off() {
    assert_eq!(lsp_mode(&None), LspMode::Off);
    assert_eq!(lsp_mode(&Some(String::from("off"))), LspMode::Off);
    assert_eq!(lsp_mode(&Some(String::from("nonsense"))), LspMode::Off);
    assert_eq!(lsp_mode(&Some(String::from("auto"))), LspMode::Auto);
    assert_eq!(lsp_mode(&Some(String::from("AUTO"))), LspMode::Auto);
    assert_eq!(lsp_mode(&Some(String::from("Required"))), LspMode::Required);
}

#[test]
fn only_the_four_tools_are_covered() {
    assert!(is_lsp_tool("get_symbols"));
    assert!(is_lsp_tool("find_symbol"));
    assert!(is_lsp_tool("find_refs"));
    assert!(is_lsp_tool("build_index"));
    assert!(!is_lsp_tool("run_tests"));
}

#[test]
fn transport_errors_are_recognized_case_insensitively() {
    assert!(is_daemon_transport_error("Failed to connect to lspd socket"));
    assert!(is_daemon_transport_error("Connection refused"));
    assert!(is_daemon_transport_error("No such file or directory"));
    assert!(is_daemon_transport_error("lspd returned empty response"));
    assert!(is_daemon_transport_error("BROKEN PIPE"));
    assert!(is_daemon_transport_error("read timed out"));
    assert!(!is_daemon_transport_error("find_refs requires `name`"));
}

#[test]
fn a_transport_failure_spawns_the_daemon_and_retries_once() {
    let first = ToolOutcome::Failure(String::from("Connection refused"));
    assert!(should_respawn_daemon(&first));
    let retried = daemon_result(first, Some(ToolOutcome::Success(serde_json::Value::Null)));
    assert!(matches!(retried, ToolOutcome::Success(serde_json::Value::Null)));

    let tool_error = ToolOutcome::Failure(String::from("Unsupported LSP tool: frobnicate"));
    assert!(!should_respawn_daemon(&tool_error));
    match daemon_result(tool_error, None) {
        ToolOutcome::Failure(m) => assert_eq!(m, "Unsupported LSP tool: frobnicate"),
        _ => panic!("expected the first failure to stand"),
    }
}

#[test]
fn mode_off_never_handles_a_call() {
    let r = maybe_execute(LspMode::Off, "find_refs", None);
    assert!(matches!(r, DispatchOutcome::NotHandled));
    let r = maybe_execute(LspMode::Off, "get_symbols", None);
    assert!(matches!(r, DispatchOutcome::NotHandled));
}

#[test]
fn foreign_tools_are_never_handled() {
    let r = maybe_execute(LspMode::Required, "run_tests", None);
    assert!(matches!(r, DispatchOutcome::NotHandled));
}

#[test]
fn required_mode_turns_failures_into_errors() {
    let outcome = Some(ToolOutcome::Failure(String::from("Connection refused")));
    match maybe_execute(LspMode::Required, "find_refs", outcome) {
        DispatchOutcome::Failed(m) => assert_eq!(m, "Connection refused"),
        _ => panic!("expected a hard error"),
    }
}

#[test]
fn auto_mode_degrades_failures_to_not_handled() {
    let outcome = Some(ToolOutcome::Failure(String::from("Connection refused")));
    let r = maybe_execute(LspMode::Auto, "find_refs", outcome);
    assert!(matches!(r, DispatchOutcome::NotHandled));
}

#[test]
fn successes_are_handled_in_both_active_modes() {
    let outcome = Some(ToolOutcome::Success(serde_json::Value::Bool(true)));
    match maybe_execute(LspMode::Auto, "find_refs", outcome) {
        DispatchOutcome::Handled(serde_json::Value::Bool(true)) => {}
        _ => panic!("expected the result"),
    }
    let outcome = Some(ToolOutcome::Success(serde_json::Value::Bool(false)));
    match maybe_execute(LspMode::Required, "build_index", outcome) {
        DispatchOutcome::Handled(serde_json::Value::Bool(false)) => {}
        _ => panic!("expected the result"),
    }
}
