//! The response status: a numeric code and its default reason line.

use vstd::prelude::*;
use crate::text::{push_digits, spec_digits};

verus! {

/// The reason phrase that goes with a code; codes the engine never produces
/// get an empty phrase.
pub open spec fn spec_reason(code: u16) -> Seq<char> {
    if code == 200 {
        "OK"@
    } else if code == 404 {
        "Not Found"@
    } else if code == 405 {
        "Method Not Allowed"@
    } else {
        Seq::empty()
    }
}

/// The response's first line: version, code and reason.
pub open spec fn spec_status_line(code: u16) -> Seq<char> {
    "HTTP/1.1 "@ + spec_digits(code as nat) + " "@ + spec_reason(code)
}

pub struct Status {
    pub status_code: u16,
}

impl Status {
    /// A fresh status: 200.
    pub fn new() -> (r: Self)
        ensures
            r.status_code == 200,
    {
        Status { status_code: 200 }
    }

    /// The wire form of the status line, without its terminator.
    pub fn to_string(&self) -> (r: String)
        ensures
            r@ == spec_status_line(self.status_code),
    {
        let mut out = String::from_str("HTTP/1.1 ");
        push_digits(self.status_code as u64, &mut out);
        out.append(" ");
        if self.status_code == 200 {
            out.append("OK");
        } else if self.status_code == 404 {
            out.append("Not Found");
        } else if self.status_code == 405 {
            out.append("Method Not Allowed");
        }
        proof {
            assert(out@ =~= spec_status_line(self.status_code));
        }
        out
    }
}

} // verus!
