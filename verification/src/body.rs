//! The request payload: the raw text plus two lazily decoded views, each
//! populated at most once by the body-decoding middleware.

use vstd::prelude::*;

verus! {

/// Declares serde_json's document type so that a decoded JSON payload can be
/// carried in a field; the value itself stays opaque to the proofs.
#[verifier::external_type_specification]
#[verifier::external_body]
pub struct ExValue(serde_json::Value);

pub struct Body {
    pub json: Option<serde_json::Value>,
    pub url_encoded: Option<Vec<(String, String)>>,
    pub raw: Option<String>,
}

impl Body {
    pub fn new(raw: String) -> (r: Self)
        ensures
            r.json is None,
            r.url_encoded is None,
            r.raw == Some(raw),
    {
        Body { json: None, url_encoded: None, raw: Some(raw) }
    }
}

} // verus!
