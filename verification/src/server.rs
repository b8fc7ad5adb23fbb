//! The orchestrator's synchronous answers. A request whose method token was
//! not recognized is answered 405 on the accepting thread, before the router
//! lock is taken and before any middleware runs; a request no route and no
//! fallback claims gets the built-in 404 body. The accept loop itself — the
//! sockets, the lock, the pool — belongs to the application.

use vstd::prelude::*;

verus! {

/// The body of the built-in 404 answer: the requested path, echoed.
pub fn not_found_body(path: &str) -> (r: String)
    ensures
        r@ == "Page "@ + path@ + " Not Found!"@,
{
    let mut out = String::from_str("Page ");
    out.append(path);
    out.append(" Not Found!");
    out
}

/// The body of the 405 answer to a request that parsed to no method.
pub fn method_not_allowed_body() -> (r: String)
    ensures
        r@ == "Method None Not Allowed!"@,
{
    String::from_str("Method None Not Allowed!")
}

} // verus!
