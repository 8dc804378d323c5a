use unity_cli::session::classify_response;
use unity_cli::session::direct_result;
use unity_cli::session::id_matches;
use unity_cli::session::is_retryable_session_error;
use unity_cli::session::remaining_ms;
use unity_cli::session::should_retry_session;
use unity_cli::session::timeout_error;
use unity_cli::session::IdValue;
use unity_cli::session::IncomingDisposition;
use unity_cli::session::LspErrorInfo;
use unity_cli::session::RequestIdCounter;
use unity_cli::session::SessionCache;
use unity_cli::session::ToolOutcome;

#[test]
fn retryable_session_error_detects_transport_failures() {
    let error = "Failed to write LSP payload: Broken pipe";
    assert!(is_retryable_session_error(error));
}

#[test]
fn retryable_session_error_ignores_argument_errors() {
    let error = "find_symbol requires `name`";
    assert!(!is_retryable_session_error(error));
}

#[test]
fn retryable_session_error_is_case_insensitive() {
    assert!(is_retryable_session_error("LSP REQUEST TIMED OUT"));
    assert!(is_retryable_session_error("error: Connection Reset by peer"));
    assert!(!is_retryable_session_error("some other failure"));
}

#[test]
fn timeout_error_text_is_retryable() {
    assert!(is_retryable_session_error(timeout_error().as_str()));
}

#[test]
fn id_matches_accepts_the_three_encodings() {
    assert!(id_matches(&IdValue::Unsigned(7), 7));
    assert!(id_matches(&IdValue::Signed(7), 7));
    assert!(id_matches(&IdValue::Text(String::from("7")), 7));
    assert!(id_matches(&IdValue::Text(String::from("+7")), 7));
    assert!(!id_matches(&IdValue::Text(String::from("++7")), 7));
    assert!(!id_matches(&IdValue::Text(String::from("+")), 7));
    assert!(!id_matches(&IdValue::Unsigned(8), 7));
    assert!(!id_matches(&IdValue::Signed(-7), 7));
    assert!(!id_matches(&IdValue::Text(String::from("seven")), 7));
    assert!(!id_matches(&IdValue::Missing, 7));
}

#[test]
fn request_ids_count_up_and_never_repeat() {
    let mut counter = RequestIdCounter::new();
    let a = counter.next_request_id();
    let b = counter.next_request_id();
    let c = counter.next_request_id();
    assert_eq!((a, b, c), (1, 2, 3));
}

#[test]
fn mismatched_ids_are_discarded_and_errors_are_rendered() {
    let r = classify_response(&IdValue::Unsigned(3), 4, &None);
    assert!(matches!(r, IncomingDisposition::Discard));

    let r = classify_response(&IdValue::Unsigned(4), 4, &None);
    assert!(matches!(r, IncomingDisposition::Deliver));

    let error = Some(LspErrorInfo { code: -32601, message: String::from("method not found") });
    let r = classify_response(&IdValue::Text(String::from("4")), 4, &error);
    match r {
        IncomingDisposition::Fail(m) => {
            assert_eq!(m, "LSP error (-32601): method not found");
        }
        _ => panic!("expected a failure"),
    }
}

#[test]
fn remaining_time_runs_out_at_the_deadline() {
    assert_eq!(remaining_ms(10, 60), Some(50));
    assert_eq!(remaining_ms(60, 60), None);
    assert_eq!(remaining_ms(61, 60), None);
}

#[test]
fn cache_is_recreated_on_root_change_or_dead_process() {
    let mut cache: SessionCache<u32> = SessionCache::new();
    assert!(cache.needs_restart("/proj", true));

    cache.install(String::from("/proj"), 11);
    assert!(!cache.needs_restart("/proj", true));
    assert!(cache.needs_restart("/other", true));
    assert!(cache.needs_restart("/proj", false));

    cache.reset_cached_session();
    assert!(cache.needs_restart("/proj", true));
}

#[test]
fn cache_take_empties_the_slot() {
    let mut cache: SessionCache<u32> = SessionCache::new();
    cache.install(String::from("/proj"), 11);
    let taken = cache.take().expect("a session was cached");
    assert_eq!(taken.project_root, "/proj");
    assert_eq!(taken.session, 11);
    assert!(cache.needs_restart("/proj", true));
    cache.put(taken);
    assert!(!cache.needs_restart("/proj", true));
}

#[test]
fn first_failure_is_retried_once_and_superseded() {
    let first = ToolOutcome::Failure(String::from("LSP request timed out"));
    assert!(should_retry_session(&first));
    let second = ToolOutcome::Success(serde_json::Value::Null);
    let combined = direct_result(first, Some(second));
    assert!(matches!(combined, ToolOutcome::Success(serde_json::Value::Null)));

    let hard = ToolOutcome::Failure(String::from("find_refs requires `name`"));
    assert!(!should_retry_session(&hard));
    let kept = direct_result(hard, None);
    match kept {
        ToolOutcome::Failure(m) => assert_eq!(m, "find_refs requires `name`"),
        _ => panic!("expected the first failure to stand"),
    }
}
