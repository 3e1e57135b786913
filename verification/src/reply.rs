//! Answers to requests: a status code and what the body holds.

use vstd::prelude::*;

use crate::auth::LoginResponse;

verus! {

/// Body of the answer to a refused start or stop request.
#[derive(Debug)]
pub struct ErrorResponse {
    pub status: String,
    pub target: String,
    pub message: String,
}

/// Body of the answer to a start that succeeded.
#[derive(Debug)]
pub struct SuccessResponse {
    pub status: String,
    pub target: String,
    pub starter_type: String,
    pub message: String,
}

/// Body of the answer to a start that failed.
#[derive(Debug)]
pub struct DetailedErrorResponse {
    pub status: String,
    pub target: String,
    pub starter_type: String,
    pub error: String,
    pub message: String,
}

/// What the body of an answer holds.
#[derive(Debug)]
pub enum Body {
    /// Nothing.
    Empty,
    /// Text marked as `text/plain`.
    Plain(String),
    /// Text without an explicit content type.
    Text(String),
    /// The cause of an error, marked as `text/plain; charset=utf-8`.
    Cause(String),
    /// A page marked as `text/html; charset=utf-8`.
    Html(String),
    /// JSON.
    Login(LoginResponse),
    Error(ErrorResponse),
    Success(SuccessResponse),
    Failure(DetailedErrorResponse),
}

/// An answer.
#[derive(Debug)]
pub struct Reply {
    pub status: u16,
    /// Value of the `WWW-Authenticate` header, where there is one.
    pub challenge: Option<String>,
    pub body: Body,
}

impl Reply {
    /// The answer has this status and an empty body.
    pub open spec fn is_empty(self, status: u16) -> bool {
        self.status == status && self.challenge is None && self.body is Empty
    }

    /// The answer has this status and this body marked as plain text.
    pub open spec fn is_plain(self, status: u16, text: Seq<char>) -> bool {
        &&& self.status == status
        &&& self.challenge is None
        &&& self.body matches Body::Plain(t) && t@ == text
    }

    /// The answer has this status and this text as its body.
    pub open spec fn is_text(self, status: u16, text: Seq<char>) -> bool {
        &&& self.status == status
        &&& self.challenge is None
        &&& self.body matches Body::Text(t) && t@ == text
    }

    /// The answer has this status and this cause of an error as its body.
    pub open spec fn is_cause(self, status: u16, text: Seq<char>) -> bool {
        &&& self.status == status
        &&& self.challenge is None
        &&& self.body matches Body::Cause(t) && t@ == text
    }

    /// The answer has this status and reports an error for a target.
    pub open spec fn is_error(self, status: u16, target: Seq<char>, message: Seq<char>) -> bool {
        &&& self.status == status
        &&& self.challenge is None
        &&& self.body matches Body::Error(e)
        &&& e.status@ == "error"@
        &&& e.target@ == target
        &&& e.message@ == message
    }

    /// The answer has this status and reports that a target was started.
    pub open spec fn is_success(
        self,
        status: u16,
        target: Seq<char>,
        starter_type: Seq<char>,
        message: Seq<char>,
    ) -> bool {
        &&& self.status == status
        &&& self.challenge is None
        &&& self.body matches Body::Success(s)
        &&& s.status@ == "success"@
        &&& s.target@ == target
        &&& s.starter_type@ == starter_type
        &&& s.message@ == message
    }

    /// The answer has this status and reports that a target was not started.
    pub open spec fn is_failure(
        self,
        status: u16,
        target: Seq<char>,
        starter_type: Seq<char>,
        error: Seq<char>,
        message: Seq<char>,
    ) -> bool {
        &&& self.status == status
        &&& self.challenge is None
        &&& self.body matches Body::Failure(f)
        &&& f.status@ == "error"@
        &&& f.target@ == target
        &&& f.starter_type@ == starter_type
        &&& f.error@ == error
        &&& f.message@ == message
    }

    /// An answer without a body.
    pub fn empty(status: u16) -> (r: Reply)
        ensures
            r.is_empty(status),
    {
        Reply { status, challenge: None, body: Body::Empty }
    }

    /// An answer with a body marked as plain text.
    pub fn plain(status: u16, text: &str) -> (r: Reply)
        ensures
            r.is_plain(status, text@),
    {
        Reply { status, challenge: None, body: Body::Plain(text.to_owned()) }
    }

    /// An answer with text as its body.
    pub fn text(status: u16, text: String) -> (r: Reply)
        ensures
            r.is_text(status, text@),
    {
        Reply { status, challenge: None, body: Body::Text(text) }
    }

    /// An answer with the cause of an error as its body.
    pub fn cause(status: u16, text: String) -> (r: Reply)
        ensures
            r.is_cause(status, text@),
    {
        Reply { status, challenge: None, body: Body::Cause(text) }
    }

    /// An answer that reports an error for a target.
    pub fn error(status: u16, target: &str, message: String) -> (r: Reply)
        ensures
            r.is_error(status, target@, message@),
    {
        Reply {
            status,
            challenge: None,
            body: Body::Error(
                ErrorResponse {
                    status: "error".to_owned(),
                    target: target.to_owned(),
                    message,
                },
            ),
        }
    }

    /// An answer that reports that a target was started.
    pub fn success(status: u16, target: &str, starter_type: &str, message: String) -> (r: Reply)
        ensures
            r.is_success(status, target@, starter_type@, message@),
    {
        Reply {
            status,
            challenge: None,
            body: Body::Success(
                SuccessResponse {
                    status: "success".to_owned(),
                    target: target.to_owned(),
                    starter_type: starter_type.to_owned(),
                    message,
                },
            ),
        }
    }

    /// An answer that reports that a target was not started.
    pub fn failure(
        status: u16,
        target: &str,
        starter_type: &str,
        error: &str,
        message: String,
    ) -> (r: Reply)
        ensures
            r.is_failure(status, target@, starter_type@, error@, message@),
    {
        Reply {
            status,
            challenge: None,
            body: Body::Failure(
                DetailedErrorResponse {
                    status: "error".to_owned(),
                    target: target.to_owned(),
                    starter_type: starter_type.to_owned(),
                    error: error.to_owned(),
                    message,
                },
            ),
        }
    }
}

} // verus!
