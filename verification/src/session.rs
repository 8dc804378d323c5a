//! LSP session logic: classification of retryable session errors, request-id
//! allocation and correlation, the response-waiting decisions, the
//! one-session cache policy, and the retry-once rule.
//!
//! The session's child process, pipes and reader task live in the application
//! layer; it feeds the decisions here with plain values.

use vstd::prelude::*;

use vstd::string::StringExecFns;

use crate::strutil::chars_of;
use crate::strutil::contains_seq;
use crate::strutil::contains_sub;
use crate::strutil::dec_rep_i64;
use crate::strutil::lower_chars;
use crate::strutil::lower_seq;
use crate::strutil::parse_u64_chars;
use crate::strutil::parse_u64_spec;
use crate::strutil::push_dec_i64;
use crate::strutil::string_from_chars;

verus! {

/// How long a request may wait for its response, in milliseconds.
pub const DEFAULT_TIMEOUT_MS: u64 = 60000;

/// The default request timeout, in milliseconds.
pub fn lsp_timeout() -> (r: u64)
    ensures
        r == DEFAULT_TIMEOUT_MS,
{
    DEFAULT_TIMEOUT_MS
}

/// An error that warrants one retry with a fresh session: the session's
/// process or pipes failed mid-call, rather than the arguments being wrong.
pub open spec fn retryable_session_error(text: Seq<char>) -> bool {
    let low = lower_seq(text);
    ||| contains_seq(low, "lsp process ended before response"@)
    ||| contains_seq(low, "lsp request timed out"@)
    ||| contains_seq(low, "failed to write lsp"@)
    ||| contains_seq(low, "failed to read lsp"@)
    ||| contains_seq(low, "broken pipe"@)
    ||| contains_seq(low, "connection reset"@)
}

/// Does this error text, compared without regard to ASCII case, hold one of
/// the known session-failure phrases?
pub fn is_retryable_session_error(text: &str) -> (r: bool)
    ensures
        r == retryable_session_error(text@),
{
    let t = chars_of(text);
    let low = lower_chars(&t);
    let n1 = chars_of("lsp process ended before response");
    let n2 = chars_of("lsp request timed out");
    let n3 = chars_of("failed to write lsp");
    let n4 = chars_of("failed to read lsp");
    let n5 = chars_of("broken pipe");
    let n6 = chars_of("connection reset");
    contains_sub(&low, &n1) || contains_sub(&low, &n2) || contains_sub(&low, &n3) || contains_sub(
        &low,
        &n4,
    ) || contains_sub(&low, &n5) || contains_sub(&low, &n6)
}

/// A message id as it arrives on the wire: an unsigned number, a signed
/// number, a string, or absent.
pub enum IdValue {
    Unsigned(u64),
    Signed(i64),
    Text(String),
    Missing,
}

/// An arriving id matches the awaited one when it is that number, as an
/// unsigned integer, a non-negative signed integer, or a decimal string (an
/// optional plus sign, then digits).
pub open spec fn id_matches_spec(id: IdValue, awaited: u64) -> bool {
    match id {
        IdValue::Unsigned(u) => u == awaited,
        IdValue::Signed(s) => s >= 0 && s == awaited,
        IdValue::Text(t) => parse_u64_spec(t@) == Option::Some(awaited),
        IdValue::Missing => false,
    }
}

/// Does an arriving message's id match the awaited request id?
pub fn id_matches(id: &IdValue, awaited: u64) -> (r: bool)
    ensures
        r == id_matches_spec(*id, awaited),
{
    match id {
        IdValue::Unsigned(u) => *u == awaited,
        IdValue::Signed(s) => *s >= 0 && *s as u64 == awaited,
        IdValue::Text(t) => {
            let tc = chars_of(t.as_str());
            match parse_u64_chars(&tc) {
                Option::Some(v) => v == awaited,
                Option::None => false,
            }
        },
        IdValue::Missing => false,
    }
}

/// The session's request-id counter; ids count up from one and are never
/// reused while the session lives.
pub struct RequestIdCounter {
    pub next_id: u64,
}

impl RequestIdCounter {
    /// A fresh counter, starting at one.
    pub fn new() -> (r: RequestIdCounter)
        ensures
            r.next_id == 1,
    {
        RequestIdCounter { next_id: 1 }
    }

    /// Allocate the next request id: the ids a session hands out strictly
    /// increase, so no id is ever reused.
    pub fn next_request_id(&mut self) -> (id: u64)
        requires
            old(self).next_id < u64::MAX,
        ensures
            id == old(self).next_id,
            final(self).next_id == old(self).next_id + 1,
    {
        let id = self.next_id;
        self.next_id = self.next_id + 1;
        id
    }
}

/// An LSP-level error carried in a response.
pub struct LspErrorInfo {
    pub code: i64,
    pub message: String,
}

/// What to do with an arriving message while awaiting a response.
pub enum IncomingDisposition {
    /// The id does not match the awaited request: drop the message.
    Discard,
    /// The response is an LSP-level error: fail with its message.
    Fail(String),
    /// The response answers the awaited request: deliver its result.
    Deliver,
}

/// The text of an LSP-level error response.
pub open spec fn lsp_error_text(code: int, message: Seq<char>) -> Seq<char> {
    "LSP error ("@ + dec_rep_i64(code) + "): "@ + message
}

/// Decide what to do with an arriving message: messages with a non-matching
/// id are silently discarded; a matching response carrying an error fails
/// with `LSP error (<code>): <message>`; a matching response without one is
/// the awaited result.
pub fn classify_response(id: &IdValue, awaited: u64, error: &Option<LspErrorInfo>) -> (r:
    IncomingDisposition)
    ensures
        !id_matches_spec(*id, awaited) ==> r is Discard,
        id_matches_spec(*id, awaited) ==> match error {
            Option::Some(e) => r matches IncomingDisposition::Fail(m) && m@ == lsp_error_text(
                e.code as int,
                e.message@,
            ),
            Option::None => r is Deliver,
        },
{
    if !id_matches(id, awaited) {
        return IncomingDisposition::Discard;
    }
    match error {
        Option::Some(e) => {
            let mut text = chars_of("LSP error (");
            push_dec_i64(e.code, &mut text);
            let mid = chars_of("): ");
            crate::strutil::extend_chars(&mut text, &mid);
            let msg = chars_of(e.message.as_str());
            crate::strutil::extend_chars(&mut text, &msg);
            proof {
                assert(text@ =~= lsp_error_text(e.code as int, e.message@));
            }
            IncomingDisposition::Fail(string_from_chars(&text))
        },
        Option::None => IncomingDisposition::Deliver,
    }
}

/// How long remains until the deadline; nothing once it has passed.
pub open spec fn remaining_ms_spec(now: u64, deadline: u64) -> Option<u64> {
    if now >= deadline {
        Option::None
    } else {
        Option::Some((deadline - now) as u64)
    }
}

/// Time left before the deadline; nothing means the request timed out.
pub fn remaining_ms(now_ms: u64, deadline_ms: u64) -> (r: Option<u64>)
    ensures
        r == remaining_ms_spec(now_ms, deadline_ms),
{
    if now_ms >= deadline_ms {
        Option::None
    } else {
        Option::Some(deadline_ms - now_ms)
    }
}

/// The error text of a timed-out request.
pub fn timeout_error() -> (s: String)
    ensures
        s@ == "LSP request timed out"@,
{
    String::from_str("LSP request timed out")
}

/// One cached session, keyed by its canonical project root.
pub struct CachedSession<S> {
    pub project_root: String,
    pub session: S,
}

/// The one-slot session cache: at most one session lives at a time.
pub struct SessionCache<S> {
    pub slot: Option<CachedSession<S>>,
}

impl<S> SessionCache<S> {
    /// An empty cache.
    pub fn new() -> (r: SessionCache<S>)
        ensures
            r.slot is None,
    {
        SessionCache { slot: Option::None }
    }

    /// Drop whatever session is cached.
    pub fn reset_cached_session(&mut self)
        ensures
            final(self).slot is None,
    {
        self.slot = Option::None;
    }

    /// Must the cached session be discarded and recreated for this call?
    /// Yes exactly when nothing is cached, the cached canonical root differs
    /// from the call's, or the cached session's process is no longer running.
    pub fn needs_restart(&self, canonical_root: &str, running: bool) -> (r: bool)
        ensures
            r == match self.slot {
                Option::Some(c) => c.project_root@ != canonical_root@ || !running,
                Option::None => true,
            },
    {
        match &self.slot {
            Option::Some(c) => {
                let cached = chars_of(c.project_root.as_str());
                let wanted = chars_of(canonical_root);
                !crate::strutil::chars_eq(&cached, &wanted) || !running
            },
            Option::None => true,
        }
    }

    /// Cache a fresh session under its canonical root, replacing any old one.
    pub fn install(&mut self, project_root: String, session: S)
        ensures
            final(self).slot matches Option::Some(c) && c.project_root@ == project_root@
                && c.session == session,
    {
        self.slot = Option::Some(CachedSession { project_root, session });
    }

    /// Take the cached session out, leaving the cache empty.
    pub fn take(&mut self) -> (r: Option<CachedSession<S>>)
        ensures
            final(self).slot is None,
            r == old(self).slot,
    {
        self.slot.take()
    }

    /// Put a session back into the cache.
    pub fn put(&mut self, entry: CachedSession<S>)
        ensures
            final(self).slot matches Option::Some(c) && c == entry,
    {
        self.slot = Option::Some(entry);
    }
}

/// What one tool attempt came to: a result value or an error text.
pub enum ToolOutcome {
    Success(serde_json::Value),
    Failure(String),
}

/// Does a first failure warrant clearing the cache and retrying once?
pub fn should_retry_session(first: &ToolOutcome) -> (r: bool)
    ensures
        r == match first {
            ToolOutcome::Failure(m) => retryable_session_error(m@),
            ToolOutcome::Success(_) => false,
        },
{
    match first {
        ToolOutcome::Failure(m) => is_retryable_session_error(m.as_str()),
        ToolOutcome::Success(_) => false,
    }
}

/// Combine the first attempt with the single retry: a retryable first
/// failure is superseded by the retry's outcome, good or bad; anything else
/// stands as it is.
pub fn direct_result(first: ToolOutcome, second: Option<ToolOutcome>) -> (r: ToolOutcome)
    requires
        (second is Some) == match first {
            ToolOutcome::Failure(m) => retryable_session_error(m@),
            ToolOutcome::Success(_) => false,
        },
    ensures
        match second {
            Option::Some(s) => r == s,
            Option::None => r == first,
        },
{
    match second {
        Option::Some(s) => s,
        Option::None => first,
    }
}

} // verus!
