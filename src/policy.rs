use vstd::prelude::*;

verus! {

/// The first retry waits this long, in milliseconds.
pub const BACKOFF_BASE_MS: u64 = 500;

/// No retry waits longer than this, in milliseconds.
pub const BACKOFF_CAP_MS: u64 = 30000;

/// A request is tried at most this many times.
pub const MAX_ATTEMPTS: u32 = 6;

/// How a request to the server failed.
#[derive(Clone, Copy, Debug, PartialEq, Eq, Structural)]
pub enum RequestFailure {
    /// The connection could not be made.
    Connect,
    /// The connection was reset.
    Reset,
    /// The server answered with this HTTP status.
    Status(u16),
    /// The answer did not authenticate or did not match its hash.
    Integrity,
}

/// The kinds of error the client tells apart.
#[derive(Clone, Copy, Debug, PartialEq, Eq, Structural)]
pub enum ErrorKind {
    UserInput,
    RuleFilter,
    Io,
    Network,
    Protocol,
    Integrity,
    Concurrency,
}

/// What to do after a request was rejected because another client changed
/// the path first.
#[derive(Clone, Copy, Debug, PartialEq, Eq, Structural)]
pub enum ConcurrencyAction {
    /// Refresh the view of the archive and send the request again.
    RefreshAndRetry,
    /// Give up on the path.
    Fail,
}

/// Connection failures and 5xx answers are worth another try; refusals
/// (400, 401, 403 and the rest) and integrity failures are not.
pub open spec fn retryable(f: RequestFailure) -> bool {
    match f {
        RequestFailure::Connect | RequestFailure::Reset => true,
        RequestFailure::Status(s) => 500 <= s && s <= 599,
        RequestFailure::Integrity => false,
    }
}

/// The wait before retry number `n + 1`: 500 ms doubled `n` times, at most
/// 30 s.
pub open spec fn backoff_ms(n: nat) -> nat
    decreases n,
{
    if n == 0 {
        BACKOFF_BASE_MS as nat
    } else if 2 * backoff_ms((n - 1) as nat) >= BACKOFF_CAP_MS {
        BACKOFF_CAP_MS as nat
    } else {
        2 * backoff_ms((n - 1) as nat)
    }
}

/// Whether a failed request is worth another try.
pub fn is_retryable(f: RequestFailure) -> (r: bool)
    ensures
        r == retryable(f),
{
    match f {
        RequestFailure::Connect | RequestFailure::Reset => true,
        RequestFailure::Status(s) => 500 <= s && s <= 599,
        RequestFailure::Integrity => false,
    }
}

/// The wait before retry number `n + 1`, in milliseconds.
pub fn backoff_delay_ms(n: u32) -> (r: u64)
    ensures
        r == backoff_ms(n as nat),
        r <= BACKOFF_CAP_MS,
{
    let mut d: u64 = BACKOFF_BASE_MS;
    let mut i: u32 = 0;
    while i < n
        invariant
            i <= n,
            d == backoff_ms(i as nat),
            d <= BACKOFF_CAP_MS,
        decreases n - i,
    {
        if 2 * d >= BACKOFF_CAP_MS {
            d = BACKOFF_CAP_MS;
        } else {
            d = 2 * d;
        }
        i = i + 1;
    }
    d
}

/// After `attempts` tries of a request, the last of which failed with `f`:
/// the wait before the next try, or `None` to give up.
pub fn next_retry(attempts: u32, f: RequestFailure) -> (r: Option<u64>)
    requires
        attempts >= 1,
    ensures
        retryable(f) && attempts < MAX_ATTEMPTS ==> r == Some(backoff_ms((attempts - 1) as nat) as u64),
        !(retryable(f) && attempts < MAX_ATTEMPTS) ==> r is None,
{
    if !is_retryable(f) || attempts >= MAX_ATTEMPTS {
        return None;
    }
    Some(backoff_delay_ms(attempts - 1))
}

/// A concurrent change is answered by one refresh and retry, no more.
pub fn on_concurrent_change(already_retried: bool) -> (r: ConcurrencyAction)
    ensures
        already_retried ==> r == ConcurrencyAction::Fail,
        !already_retried ==> r == ConcurrencyAction::RefreshAndRetry,
{
    if already_retried {
        ConcurrencyAction::Fail
    } else {
        ConcurrencyAction::RefreshAndRetry
    }
}

/// The kind of error a failed request is reported as.
pub fn failure_kind(f: RequestFailure) -> (r: ErrorKind)
    ensures
        r == match f {
            RequestFailure::Connect | RequestFailure::Reset => ErrorKind::Network,
            RequestFailure::Status(s) => if 500 <= s && s <= 599 {
                ErrorKind::Network
            } else {
                ErrorKind::Protocol
            },
            RequestFailure::Integrity => ErrorKind::Integrity,
        },
{
    match f {
        RequestFailure::Connect | RequestFailure::Reset => ErrorKind::Network,
        RequestFailure::Status(s) => if 500 <= s && s <= 599 {
            ErrorKind::Network
        } else {
            ErrorKind::Protocol
        },
        RequestFailure::Integrity => ErrorKind::Integrity,
    }
}

/// The process exit code for a command that failed with an error of kind
/// `k`: 1 for the user's and local errors, 2 for remote ones, 3 for
/// integrity failures.
pub fn exit_code(k: ErrorKind) -> (r: i32)
    ensures
        r == match k {
            ErrorKind::UserInput | ErrorKind::RuleFilter | ErrorKind::Io => 1i32,
            ErrorKind::Network | ErrorKind::Protocol | ErrorKind::Concurrency => 2i32,
            ErrorKind::Integrity => 3i32,
        },
{
    match k {
        ErrorKind::UserInput | ErrorKind::RuleFilter | ErrorKind::Io => 1,
        ErrorKind::Network | ErrorKind::Protocol | ErrorKind::Concurrency => 2,
        ErrorKind::Integrity => 3,
    }
}

} // verus!
