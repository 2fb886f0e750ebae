//! What the filter answers: let a request continue, or reject it.

use vstd::prelude::*;

use crate::text::{decimal, decimal_digits};

verus! {

/// Rate limit response header carrying the configured token ceiling.
pub const HEADER_RATELIMIT_LIMIT_TOKENS: &'static str = "X-RateLimit-Limit-Tokens";

/// Rate limit response header: tokens remaining (always `0`; the header is only
/// emitted on 429).
pub const HEADER_RATELIMIT_REMAINING_TOKENS: &'static str = "X-RateLimit-Remaining-Tokens";

/// Rate limit response header: seconds until the key's window resets.
pub const HEADER_RATELIMIT_RESET: &'static str = "X-RateLimit-Reset-Tokens";

/// A response that ends the request.
#[derive(Debug)]
pub struct Rejection {
    /// HTTP status code.
    pub status: u16,
    /// Response headers, in order.
    pub headers: Vec<(String, String)>,
    /// Response body.
    pub body: Option<Vec<u8>>,
}

/// A rejection with its headers and body taken as text and bytes.
#[verifier::ext_equal]
pub struct RejectionView {
    pub status: u16,
    pub headers: Seq<(Seq<char>, Seq<char>)>,
    pub body: Option<Seq<u8>>,
}

impl View for Rejection {
    type V = RejectionView;

    open spec fn view(&self) -> RejectionView {
        RejectionView {
            status: self.status,
            headers: Seq::new(
                self.headers@.len(),
                |i: int| (self.headers@[i].0@, self.headers@[i].1@),
            ),
            body: match self.body {
                Some(bytes) => Some(bytes@),
                None => None,
            },
        }
    }
}

impl RejectionView {
    /// A rejection that is only a status code.
    pub open spec fn bare(status: u16) -> RejectionView {
        RejectionView { status, headers: Seq::empty(), body: None }
    }

    /// This rejection with one more header at the end.
    pub open spec fn plus_header(self, name: Seq<char>, value: Seq<char>) -> RejectionView {
        RejectionView { headers: self.headers.push((name, value)), ..self }
    }
}

impl Rejection {
    /// Creates a rejection with the given status code.
    pub fn status(code: u16) -> (rejection: Self)
        ensures
            rejection@ == RejectionView::bare(code),
    {
        let rejection = Rejection { status: code, headers: Vec::new(), body: None };
        assert(rejection@ =~= RejectionView::bare(code));
        rejection
    }

    /// Adds a header.
    pub fn with_header(self, name: &str, value: String) -> (rejection: Self)
        ensures
            rejection@ == self@.plus_header(name@, value@),
    {
        let mut rejection = self;
        rejection.headers.push((name.to_owned(), value));
        assert(rejection@ =~= self@.plus_header(name@, value@));
        rejection
    }
}

/// What becomes of a request.
#[derive(Debug)]
pub enum FilterAction {
    /// Continue to the next filter in the pipeline.
    Continue,
    /// Stop processing and respond with the given rejection.
    Reject(Rejection),
}

/// An action with its rejection taken as a view.
pub enum FilterActionView {
    Continue,
    Reject(RejectionView),
}

impl View for FilterAction {
    type V = FilterActionView;

    open spec fn view(&self) -> FilterActionView {
        match *self {
            FilterAction::Continue => FilterActionView::Continue,
            FilterAction::Reject(rejection) => FilterActionView::Reject(rejection@),
        }
    }
}

/// The seconds to wait that are announced for a wait of `retry_after_ms`:
/// rounded up, and never below one.
pub open spec fn retry_seconds(retry_after_ms: u64) -> int {
    let seconds = (retry_after_ms + 999) / 1000;
    if seconds >= 1 {
        seconds
    } else {
        1
    }
}

/// The rejection for an exhausted ceiling.
pub open spec fn exceeded_rejection(ceiling: u64, retry_after_ms: u64) -> RejectionView {
    let wait = decimal_digits(retry_seconds(retry_after_ms) as nat);
    RejectionView::bare(429).plus_header("Retry-After"@, wait).plus_header(
        HEADER_RATELIMIT_LIMIT_TOKENS@,
        decimal_digits(ceiling as nat),
    ).plus_header(HEADER_RATELIMIT_REMAINING_TOKENS@, "0"@).plus_header(
        HEADER_RATELIMIT_RESET@,
        wait,
    )
}

/// Builds the 429 rejection for an exhausted ceiling, carrying the
/// token-denominated rate limit headers.
pub fn ceiling_exceeded(ceiling: u64, retry_after_ms: u64) -> (action: FilterAction)
    ensures
        action@ == FilterActionView::Reject(exceeded_rejection(ceiling, retry_after_ms)),
{
    let complete: u64 = retry_after_ms / 1000;
    let seconds: u64 = if retry_after_ms % 1000 != 0 || complete == 0 {
        complete + 1
    } else {
        complete
    };
    FilterAction::Reject(
        Rejection::status(429).with_header("Retry-After", decimal(seconds)).with_header(
            HEADER_RATELIMIT_LIMIT_TOKENS,
            decimal(ceiling),
        ).with_header(HEADER_RATELIMIT_REMAINING_TOKENS, "0".to_owned()).with_header(
            HEADER_RATELIMIT_RESET,
            decimal(seconds),
        ),
    )
}

/// Builds the 403 rejection for a keyless request under `missing_key: reject`.
pub fn missing_key_rejection() -> (action: FilterAction)
    ensures
        action@ == FilterActionView::Reject(RejectionView::bare(403)),
{
    FilterAction::Reject(Rejection::status(403))
}

/// The announced wait is the wait in seconds, rounded up; a zero wait is
/// announced as one second. It always fits a `u64`.
pub proof fn law_retry_after_rounds_up(retry_after_ms: u64)
    ensures
        retry_seconds(retry_after_ms) <= u64::MAX,
        retry_seconds(retry_after_ms) >= 1,
        retry_seconds(retry_after_ms) * 1000 >= retry_after_ms,
        retry_after_ms > 0 ==> (retry_seconds(retry_after_ms) - 1) * 1000 < retry_after_ms,
        retry_after_ms == 0 ==> retry_seconds(retry_after_ms) == 1,
{
}

} // verus!
