//! HTTP status codes.
use vstd::prelude::*;

use crate::text::decimal;

verus! {

/// The status code of an HTTP response.
#[derive(Debug, Clone, Copy, PartialEq, Eq)]
pub struct HttpStatus {
    code: u16,
}

/// How `http::StatusCode` prints a status code: the number and the reason phrase.
pub uninterp spec fn status_line(code: u16) -> Seq<char>;

/// The text of a status code, by `http::StatusCode`'s `Display`: the number, a space and the
/// canonical reason phrase. The phrases are a table of that crate and go by the name
/// `status_line`.
#[verifier::external_body]
fn status_text(code: u16) -> (res: String)
    requires
        100 <= code <= 999,
    ensures
        res@ == status_line(code),
        (decimal(code as nat) + seq![' ']).is_prefix_of(res@),
{
    http::StatusCode::from_u16(code).unwrap().to_string()
}

/// Whether a number is that of a status: it has three digits.
pub open spec fn is_status(code: u16) -> bool {
    100 <= code <= 999
}

/// Whether a status says that the request was answered as asked.
pub open spec fn is_success_code(code: u16) -> bool {
    200 <= code <= 299
}

impl HttpStatus {
    #[verifier::type_invariant]
    spec fn in_range(self) -> bool {
        100 <= self.code <= 999
    }

    /// The number of the status.
    pub closed spec fn spec_code(self) -> u16 {
        self.code
    }

    /// The status with the number `code`, where that has three digits.
    pub fn new(code: u16) -> (res: Option<HttpStatus>)
        ensures
            match res {
                Some(status) => is_status(code) && status.spec_code() == code,
                None => !is_status(code),
            },
    {
        if 100 <= code && code <= 999 {
            Some(HttpStatus { code })
        } else {
            None
        }
    }

    /// The number of the status.
    pub fn code(&self) -> (res: u16)
        ensures
            res == self.spec_code(),
            100 <= res <= 999,
    {
        proof {
            use_type_invariant(self);
        }
        self.code
    }

    /// Whether the request was answered as asked.
    pub fn is_success(&self) -> (res: bool)
        ensures
            res == is_success_code(self.spec_code()),
    {
        200 <= self.code && self.code <= 299
    }

    /// The number and the reason phrase.
    pub fn text(&self) -> (res: String)
        ensures
            res@ == status_line(self.spec_code()),
            (decimal(self.spec_code() as nat) + seq![' ']).is_prefix_of(res@),
    {
        proof {
            use_type_invariant(self);
        }
        status_text(self.code)
    }
}

} // verus!
