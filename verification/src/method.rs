//! The closed set of supported request verbs.

use vstd::prelude::*;
use crate::text::str_eq;

verus! {

/// A recognized HTTP verb. An unrecognized wire token parses to no method at
/// all, which the orchestrator later answers with a 405 status.
#[derive(Clone, Copy, Debug, PartialEq, Eq, Structural)]
pub enum Method {
    Get,
    Post,
    Put,
    Delete,
    Patch,
}

/// What a wire token names: exactly the five upper-case verbs are recognized.
pub open spec fn spec_method_from(s: Seq<char>) -> Option<Method> {
    if s == "GET"@ {
        Some(Method::Get)
    } else if s == "POST"@ {
        Some(Method::Post)
    } else if s == "PUT"@ {
        Some(Method::Put)
    } else if s == "DELETE"@ {
        Some(Method::Delete)
    } else if s == "PATCH"@ {
        Some(Method::Patch)
    } else {
        None
    }
}

impl Method {
    /// Parse a wire token; `None` signals the 405 path, never an error.
    pub fn from(method_str: &str) -> (r: Option<Self>)
        ensures
            r == spec_method_from(method_str@),
    {
        if str_eq(method_str, "GET") {
            Some(Method::Get)
        } else if str_eq(method_str, "POST") {
            Some(Method::Post)
        } else if str_eq(method_str, "PUT") {
            Some(Method::Put)
        } else if str_eq(method_str, "DELETE") {
            Some(Method::Delete)
        } else if str_eq(method_str, "PATCH") {
            Some(Method::Patch)
        } else {
            None
        }
    }
}

} // verus!
