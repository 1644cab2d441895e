//! Error classification and translation.
//!
//! Every upstream failure is first adapted (outside this library) into the
//! neutral [`RawFailure`] shape; [`classify`] then maps it into the small,
//! stable taxonomy of [`ClassifiedError`], and [`err_response`] renders the
//! exact wire error body.  Internal failure detail is never placed in the
//! wire body: unclassified causes collapse to `InternalFailure`.

use vstd::prelude::*;

verus! {

/// A raw upstream failure, reduced to the neutral shape the classifier
/// operates on.  Adapters at the process boundary construct these from
/// whatever error the transport or service client actually produced.
#[derive(Debug)]
pub enum RawFailure {
    /// Malformed input to the fetch path (for example an unparseable
    /// URL-like argument); `message` is the parse failure's description.
    Input { message: String },
    /// An explicit timeout signal from the transport.
    Timeout,
    /// The request could not be dispatched; the flags say whether the
    /// underlying cause was a timeout or a low-level I/O fault.
    Dispatch { timeout: bool, io: bool },
    /// A response was received but could not be parsed.
    Response,
    /// The remote service executed the call and returned a named exception:
    /// the HTTP status of that response, and the service-declared error code
    /// and message, where present.
    Service { status: u16, code: Option<String>, message: Option<String> },
    /// The local layer could not encode a result.
    Serialization,
    /// Anything else.
    Other,
}

/// A classified failure: whether it is presumed possibly self-correcting
/// on retry, the HTTP status to report, and the wire error code and message
/// the body is built from.
pub struct ClassifiedError {
    pub transient: bool,
    pub http_status: u16,
    pub wire_code: String,
    pub wire_message: String,
}

/// The wire-facing error: an HTTP status code and a response body.
#[derive(Debug)]
pub struct HttpError(pub u16, pub String);

// ------------------------------------------------------------------
// Substring containment, used to derive a status code from a service
// error code ("Internal" and "NotFound" are status-significant).
// ------------------------------------------------------------------

/// `p` occurs contiguously somewhere in `s`.
pub open spec fn contains_sub(s: Seq<char>, p: Seq<char>) -> bool {
    exists|i: int| 0 <= i && i + p.len() <= s.len() && #[trigger] s.subrange(i, i + p.len() as int)
        == p
}

/// Whether `pat` matches `s` exactly at character position `i`.
fn match_at(s: &str, pat: &str, i: usize) -> (r: bool)
    requires
        i + pat@.len() <= s@.len(),
        s@.len() <= usize::MAX,
    ensures
        r == (s@.subrange(i as int, i + pat@.len() as int) == pat@),
{
    let m: usize = pat.unicode_len();
    let mut j: usize = 0;
    while j < m
        invariant
            m == pat@.len(),
            i + m <= s@.len(),
            s@.len() <= usize::MAX,
            j <= m,
            forall|t: int| 0 <= t < j ==> s@[i + t] == pat@[t],
        decreases m - j,
    {
        if s.get_char(i + j) != pat.get_char(j) {
            proof {
                assert(s@.subrange(i as int, i + pat@.len() as int)[j as int] == s@[i + j]);
            }
            return false;
        }
        j += 1;
    }
    proof {
        assert(s@.subrange(i as int, i + pat@.len() as int) =~= pat@);
    }
    true
}

/// Character-for-character string equality, reflected into the views.
pub fn str_eq(a: &str, b: &str) -> (r: bool)
    ensures
        r == (a@ == b@),
{
    let n: usize = a.unicode_len();
    let m: usize = b.unicode_len();
    if n != m {
        return false;
    }
    let r = match_at(a, b, 0);
    proof {
        assert(a@.subrange(0, 0 + b@.len() as int) =~= a@);
    }
    r
}

/// Whether `pat` occurs contiguously in `s`.
pub fn str_contains(s: &str, pat: &str) -> (r: bool)
    ensures
        r == contains_sub(s@, pat@),
{
    let n: usize = s.unicode_len();
    let m: usize = pat.unicode_len();
    if m > n {
        return false;
    }
    if m == 0 {
        proof {
            assert(s@.subrange(0, 0 + pat@.len() as int) =~= pat@);
        }
        return true;
    }
    let mut i: usize = 0;
    while i <= n - m
        invariant
            n == s@.len(),
            m == pat@.len(),
            1 <= m <= n,
            i <= n - m + 1,
            forall|k: int| 0 <= k < i ==> #[trigger] s@.subrange(k, k + pat@.len() as int) != pat@,
        decreases n - m + 1 - i,
    {
        if match_at(s, pat, i) {
            return true;
        }
        i += 1;
    }
    proof {
        assert forall|k: int| 0 <= k && k + pat@.len() <= s@.len() implies #[trigger] s@.subrange(
            k,
            k + pat@.len() as int,
        ) != pat@ by {
            assert(k < i);
        }
    }
    false
}

// ------------------------------------------------------------------
// The wire error body ("Coral JSON 1.1" shape).
// ------------------------------------------------------------------

/// The exact wire error body: when the code is `InternalFailure` or the
/// message is empty, the body carries the code alone and no message field;
/// otherwise both surface verbatim.
pub open spec fn wire_body(code: Seq<char>, msg: Seq<char>) -> Seq<char> {
    if code == "InternalFailure"@ || msg.len() == 0 {
        "{\"__type\":\""@ + code + "\"}"@
    } else {
        "{\"__type\":\""@ + code + "\", \"message\":\""@ + msg + "\"}"@
    }
}

/// Format an error response body from a wire code and message.
pub fn err_response(err_code: &str, msg: &str) -> (r: String)
    ensures
        r@ == wire_body(err_code@, msg@),
{
    let mut r = String::from_str("{\"__type\":\"");
    r.append(err_code);
    if msg.is_empty() || str_eq(err_code, "InternalFailure") {
        r.append("\"}");
        proof {
            assert(r@ =~= wire_body(err_code@, msg@));
        }
        r
    } else {
        r.append("\", \"message\":\"");
        r.append(msg);
        r.append("\"}");
        proof {
            assert(r@ =~= wire_body(err_code@, msg@));
        }
        r
    }
}

/// The wire error for an internal failure: status 500, cause suppressed.
pub fn int_err() -> (r: HttpError)
    ensures
        r.0 == 500,
        r.1@ == wire_body("InternalFailure"@, Seq::<char>::empty()),
{
    let body = err_response("InternalFailure", "");
    proof {
        reveal_strlit("");
        assert(""@ =~= Seq::<char>::empty());
    }
    HttpError(500, body)
}

// ------------------------------------------------------------------
// The classification table.
// ------------------------------------------------------------------

/// The service-declared error code, or `InternalError` when the service
/// named none.
pub open spec fn service_code_of(code: Option<String>) -> Seq<char> {
    match code {
        Some(c) => c@,
        None => "InternalError"@,
    }
}

/// The status derived from a service error code: codes naming an internal
/// condition report 500, not-found conditions 404, everything else 400.
pub open spec fn service_status_of(code: Seq<char>) -> int {
    if contains_sub(code, "Internal"@) {
        500
    } else if contains_sub(code, "NotFound"@) {
        404
    } else {
        400
    }
}

/// The transient failures: timeouts, dispatch faults flagged as timeout or
/// I/O, unparseable responses, and service errors whose response was 5xx.
/// Everything else is permanent.
pub open spec fn spec_transient(f: RawFailure) -> bool {
    match f {
        RawFailure::Timeout => true,
        RawFailure::Response => true,
        RawFailure::Dispatch { timeout, io } => timeout || io,
        RawFailure::Service { status, .. } => 500 <= status < 600,
        _ => false,
    }
}

/// The HTTP status reported for each failure.
pub open spec fn spec_status(f: RawFailure) -> int {
    match f {
        RawFailure::Input { .. } => 400,
        RawFailure::Timeout => 504,
        RawFailure::Dispatch { timeout, io } => if timeout {
            504
        } else if io {
            502
        } else {
            500
        },
        RawFailure::Response => 502,
        RawFailure::Service { code, .. } => service_status_of(service_code_of(code)),
        RawFailure::Serialization => 500,
        RawFailure::Other => 500,
    }
}

/// The wire code reported for each failure.
pub open spec fn spec_code(f: RawFailure) -> Seq<char> {
    match f {
        RawFailure::Input { message } => message@,
        RawFailure::Timeout => "TimeoutError"@,
        RawFailure::Dispatch { timeout, io } => if timeout {
            "TimeoutError"@
        } else if io {
            "ConnectionError"@
        } else {
            "InternalFailure"@
        },
        RawFailure::Response => "ConnectionError"@,
        RawFailure::Service { code, .. } => service_code_of(code),
        RawFailure::Serialization => "InternalFailure"@,
        RawFailure::Other => "InternalFailure"@,
    }
}

/// The wire message reported for each failure.  Internal and unclassified
/// failures carry none: their cause never reaches the wire.
pub open spec fn spec_message(f: RawFailure) -> Seq<char> {
    match f {
        RawFailure::Timeout => "Timeout"@,
        RawFailure::Dispatch { timeout, io } => if timeout {
            "Timeout"@
        } else if io {
            "Read Error"@
        } else {
            Seq::<char>::empty()
        },
        RawFailure::Response => "Response Error"@,
        RawFailure::Service { message, .. } => match message {
            Some(m) => m@,
            None => Seq::<char>::empty(),
        },
        _ => Seq::<char>::empty(),
    }
}

/// Whether a raw failure is transient: presumed possibly self-correcting on
/// retry.  Drives the cache's stale-serve policy and any external retry.
pub fn is_transient_error(f: &RawFailure) -> (r: bool)
    ensures
        r == spec_transient(*f),
{
    match f {
        RawFailure::Timeout => true,
        RawFailure::Response => true,
        RawFailure::Dispatch { timeout, io } => *timeout || *io,
        RawFailure::Service { status, .. } => 500 <= *status && *status < 600,
        _ => false,
    }
}

/// Classify a raw upstream failure: deterministic and side-effect-free.
pub fn classify(f: &RawFailure) -> (r: ClassifiedError)
    ensures
        r.transient == spec_transient(*f),
        r.http_status as int == spec_status(*f),
        r.wire_code@ == spec_code(*f),
        r.wire_message@ == spec_message(*f),
{
    match f {
        RawFailure::Input { message } => ClassifiedError {
            transient: false,
            http_status: 400,
            wire_code: message.clone(),
            wire_message: String::new(),
        },
        RawFailure::Timeout => ClassifiedError {
            transient: true,
            http_status: 504,
            wire_code: String::from_str("TimeoutError"),
            wire_message: String::from_str("Timeout"),
        },
        RawFailure::Dispatch { timeout, io } => {
            if *timeout {
                ClassifiedError {
                    transient: true,
                    http_status: 504,
                    wire_code: String::from_str("TimeoutError"),
                    wire_message: String::from_str("Timeout"),
                }
            } else if *io {
                ClassifiedError {
                    transient: true,
                    http_status: 502,
                    wire_code: String::from_str("ConnectionError"),
                    wire_message: String::from_str("Read Error"),
                }
            } else {
                ClassifiedError {
                    transient: false,
                    http_status: 500,
                    wire_code: String::from_str("InternalFailure"),
                    wire_message: String::new(),
                }
            }
        },
        RawFailure::Response => ClassifiedError {
            transient: true,
            http_status: 502,
            wire_code: String::from_str("ConnectionError"),
            wire_message: String::from_str("Response Error"),
        },
        RawFailure::Service { status, code, message } => {
            let c: String = match code {
                Some(x) => x.clone(),
                None => String::from_str("InternalError"),
            };
            let http: u16 = if str_contains(c.as_str(), "Internal") {
                500
            } else if str_contains(c.as_str(), "NotFound") {
                404
            } else {
                400
            };
            let m: String = match message {
                Some(x) => x.clone(),
                None => String::new(),
            };
            ClassifiedError {
                transient: 500 <= *status && *status < 600,
                http_status: http,
                wire_code: c,
                wire_message: m,
            }
        },
        RawFailure::Serialization => ClassifiedError {
            transient: false,
            http_status: 500,
            wire_code: String::from_str("InternalFailure"),
            wire_message: String::new(),
        },
        RawFailure::Other => ClassifiedError {
            transient: false,
            http_status: 500,
            wire_code: String::from_str("InternalFailure"),
            wire_message: String::new(),
        },
    }
}

impl ClassifiedError {
    /// The exact wire body for this error.
    pub fn body(&self) -> (r: String)
        ensures
            r@ == wire_body(self.wire_code@, self.wire_message@),
    {
        err_response(self.wire_code.as_str(), self.wire_message.as_str())
    }

    /// The wire-facing form: status code plus rendered body.
    pub fn to_http(&self) -> (r: HttpError)
        ensures
            r.0 == self.http_status,
            r.1@ == wire_body(self.wire_code@, self.wire_message@),
    {
        let body = self.body();
        HttpError(self.http_status, body)
    }
}

impl HttpError {
    /// The HTTP status code of this error.
    pub fn status(&self) -> (r: u16)
        ensures
            r == self.0,
    {
        self.0
    }
}

} // verus!
