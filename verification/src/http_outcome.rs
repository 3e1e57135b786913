//! What comes of an HTTP request to another device.

use vstd::prelude::*;

verus! {

/// What came of an HTTP request.
#[derive(Debug)]
pub enum HttpOutcome {
    /// An answer with this status code.
    Answered(u16),
    /// No answer, for this reason.
    Failed(String),
}

/// A number is a status code.
pub open spec fn is_status(code: u16) -> bool {
    100 <= code <= 999
}

/// A status code reports success.
pub open spec fn is_success(code: u16) -> bool {
    200 <= code <= 299
}

impl HttpOutcome {
    /// The answer, if there is one, has a status code.
    pub open spec fn well_formed(self) -> bool {
        self matches HttpOutcome::Answered(code) ==> is_status(code)
    }

    /// There is an answer, and it reports success.
    pub open spec fn succeeded(self) -> bool {
        self matches HttpOutcome::Answered(code) && is_success(code)
    }
}

/// Tells whether a status code reports success.
pub fn code_succeeds(code: u16) -> (r: bool)
    ensures
        r == is_success(code),
{
    200 <= code && code <= 299
}

/// The codes from 200 to 299 report success, and no others.
pub proof fn codes_in_the_two_hundreds_succeed(code: u16, r: bool)
    requires
        call_ensures(code_succeeds, (code,), r),
    ensures
        r <==> code / 100 == 2,
        r <==> HttpOutcome::Answered(code).succeeded(),
{
}

} // verus!
