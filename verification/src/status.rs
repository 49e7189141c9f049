//! How a control-plane call that fails is answered.

use crate::text;
use vstd::prelude::*;
use vstd::string::*;

verus! {

/// The gRPC status codes that the services answer with.
#[derive(Debug, Clone, Copy, PartialEq, Eq, Structural)]
pub enum StatusCode {
    InvalidArgument,
    NotFound,
    DeadlineExceeded,
    Internal,
}

/// Why a call fails: a code and words.
#[derive(Debug)]
pub struct Status {
    pub code: StatusCode,
    pub message: String,
}

#[verifier::ext_equal]
pub struct StatusView {
    pub code: StatusCode,
    pub message: Seq<char>,
}

impl View for Status {
    type V = StatusView;

    open spec fn view(&self) -> StatusView {
        StatusView { code: self.code, message: self.message@ }
    }
}

impl Status {
    /// The status with the given code and words.
    pub fn new(code: StatusCode, message: &str) -> (status: Status)
        ensures
            status@ == (StatusView { code, message: message@ }),
    {
        Status { code, message: message.to_owned() }
    }

    /// The status with the given code, and words that end in a reason.
    pub fn because(code: StatusCode, what: &str, reason: &str) -> (status: Status)
        ensures
            status@ == (StatusView { code, message: what@ + reason@ }),
    {
        Status { code, message: text::join_texts(what, reason) }
    }
}

/// What a status consists of is its code and its words.
pub proof fn law_status_fields(status: Status)
    ensures
        status@.code == status.code,
        status@.message == status.message@,
{
}

/// A status has the code and the words that it is made with, a reason after what failed.
pub proof fn law_statuses(
    code: StatusCode,
    what: &str,
    reason: &str,
    plain: Status,
    reasoned: Status,
)
    requires
        call_ensures(Status::new, (code, what), plain),
        call_ensures(Status::because, (code, what, reason), reasoned),
    ensures
        plain.code == code,
        plain.message@ == what@,
        reasoned.code == code,
        reasoned.message@ == what@ + reason@,
{
}

} // verus!
