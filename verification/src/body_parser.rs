//! The body-decoding middleware: when the Content-Type matches its
//! configuration, it decodes the raw body text into the corresponding view,
//! at most once — an already-populated view is never touched.

use vstd::prelude::*;
use crate::body::Body;
use crate::request::Request;
use crate::text::str_eq;

verus! {

/// The one failure a body decode surfaces: a body announced as JSON that does
/// not decode. A failed form decode is swallowed instead.
#[derive(Clone, Copy, Debug, PartialEq, Eq, Structural)]
pub enum DecodeError {
    InvalidJson,
}

/// Whether serde_json accepts `s` as a JSON document; a function of the text
/// alone.
pub uninterp spec fn json_accepts(s: Seq<char>) -> bool;

/// Relies on serde_json::from_str::<Value>: whether the text decodes, and to
/// what document, depends on the text alone.
#[verifier::external_body]
fn json_from_str(s: &str) -> (r: Option<serde_json::Value>)
    ensures
        r is Some <==> json_accepts(s@),
{
    match serde_json::from_str::<serde_json::Value>(s) {
        Ok(v) => Some(v),
        Err(_) => None,
    }
}

/// The character-sequence view of decoded form fields.
pub open spec fn pairs_view(v: Seq<(String, String)>) -> Seq<(Seq<char>, Seq<char>)> {
    v.map_values(|p: (String, String)| (p.0@, p.1@))
}

/// What serde_urlencoded decodes `s` to when it accepts it; a function of the
/// text alone.
pub uninterp spec fn form_decoded(s: Seq<char>) -> Option<Seq<(Seq<char>, Seq<char>)>>;

/// Relies on serde_urlencoded::from_str::<Vec<(String, String)>>: whether the
/// text decodes, and to which pairs, depends on the text alone.
#[verifier::external_body]
fn form_from_str(s: &str) -> (r: Option<Vec<(String, String)>>)
    ensures
        match r {
            Some(v) => form_decoded(s@) == Some(pairs_view(v@)),
            None => form_decoded(s@) is None,
        },
{
    match serde_urlencoded::from_str::<Vec<(String, String)>>(s) {
        Ok(v) => Some(v),
        Err(_) => None,
    }
}

/// The request carries this exact Content-Type.
pub open spec fn content_type_is(req: Request, v: Seq<char>) -> bool {
    req.headers@.contains_key("Content-Type"@) && req.headers@["Content-Type"@] == v
}

/// The JSON step has work to do: matching Content-Type, a body whose decoded
/// view is still empty, and raw text to decode.
pub open spec fn json_active(req: Request) -> bool {
    &&& content_type_is(req, "application/json"@)
    &&& req.body matches Some(b) && b.json is None && b.raw is Some
}

/// What one run of the JSON step does.
pub open spec fn json_step_ok(pre: Request, post: Request, r: Result<(), DecodeError>) -> bool {
    if json_active(pre) {
        let raw = pre.body->Some_0.raw->Some_0;
        if json_accepts(raw@) {
            &&& r is Ok
            &&& (post.body matches Some(b2) && b2.json is Some && b2.raw == pre.body->Some_0.raw
                && b2.url_encoded == pre.body->Some_0.url_encoded)
        } else {
            r == Err::<(), DecodeError>(DecodeError::InvalidJson) && post == pre
        }
    } else {
        r is Ok && post == pre
    }
}

/// The form step has work to do.
pub open spec fn form_active(req: Request) -> bool {
    &&& content_type_is(req, "application/x-www-form-urlencoded"@)
    &&& req.body matches Some(b) && b.url_encoded is None && b.raw is Some
}

/// What one run of the form step does; a decode failure is swallowed.
pub open spec fn form_step_ok(pre: Request, post: Request, r: Result<(), DecodeError>) -> bool {
    &&& r is Ok
    &&& if form_active(pre) {
        let raw = pre.body->Some_0.raw->Some_0;
        match form_decoded(raw@) {
            Some(pairs) => post.body matches Some(b2) && (b2.url_encoded matches Some(v)
                && pairs_view(v@) == pairs) && b2.raw == pre.body->Some_0.raw && b2.json
                == pre.body->Some_0.json,
            None => post == pre,
        }
    } else {
        post == pre
    }
}

enum DataTypes {
    Json,
    UrlEncoded,
}

/// The middleware, configured for one of the two encodings.
pub struct BodyParser {
    data_type: DataTypes,
}

impl BodyParser {
    /// Configured for structured JSON bodies.
    pub closed spec fn is_json(&self) -> bool {
        self.data_type is Json
    }

    pub fn json() -> (r: Self)
        ensures
            r.is_json(),
    {
        BodyParser { data_type: DataTypes::Json }
    }

    pub fn url_encoded() -> (r: Self)
        ensures
            !r.is_json(),
    {
        BodyParser { data_type: DataTypes::UrlEncoded }
    }

    /// Run the configured decode step on the request. A view that is already
    /// populated is never altered: running the step twice changes nothing.
    pub fn handle(&self, req: &mut Request) -> (r: Result<(), DecodeError>)
        requires
            old(req).wf(),
        ensures
            final(req).wf(),
            final(req).method == old(req).method,
            final(req).path == old(req).path,
            final(req).version == old(req).version,
            final(req).headers == old(req).headers,
            self.is_json() ==> json_step_ok(*old(req), *final(req), r),
            !self.is_json() ==> form_step_ok(*old(req), *final(req), r),
            self.is_json() && (old(req).body matches Some(b) && b.json is Some) ==> (*final(req)
                == *old(req) && r is Ok),
            !self.is_json() && (old(req).body matches Some(b) && b.url_encoded is Some) ==> (
            *final(req) == *old(req) && r is Ok),
    {
        match self.data_type {
            DataTypes::Json => Self::decode_json(req),
            DataTypes::UrlEncoded => Self::decode_form(req),
        }
    }

    fn decode_json(req: &mut Request) -> (r: Result<(), DecodeError>)
        requires
            old(req).wf(),
        ensures
            final(req).wf(),
            final(req).method == old(req).method,
            final(req).path == old(req).path,
            final(req).version == old(req).version,
            final(req).headers == old(req).headers,
            json_step_ok(*old(req), *final(req), r),
    {
        let ct_ok: bool = match req.headers.get("Content-Type") {
            Some(v) => str_eq(v.as_str(), "application/json"),
            None => false,
        };
        if !ct_ok {
            return Ok(());
        }
        let can: bool = match &req.body {
            Some(b) => b.json.is_none() && b.raw.is_some(),
            None => false,
        };
        if !can {
            return Ok(());
        }
        let decoded: Option<serde_json::Value> = match &req.body {
            Some(b) => match &b.raw {
                Some(raw) => json_from_str(raw.as_str()),
                None => None,
            },
            None => None,
        };
        match decoded {
            None => Err(DecodeError::InvalidJson),
            Some(v) => {
                let taken = req.body.take();
                match taken {
                    Some(b) => {
                        req.body = Some(
                            Body { json: Some(v), url_encoded: b.url_encoded, raw: b.raw },
                        );
                        Ok(())
                    },
                    None => {
                        proof {
                            assert(false);
                        }
                        Ok(())
                    },
                }
            },
        }
    }

    fn decode_form(req: &mut Request) -> (r: Result<(), DecodeError>)
        requires
            old(req).wf(),
        ensures
            final(req).wf(),
            final(req).method == old(req).method,
            final(req).path == old(req).path,
            final(req).version == old(req).version,
            final(req).headers == old(req).headers,
            form_step_ok(*old(req), *final(req), r),
    {
        let ct_ok: bool = match req.headers.get("Content-Type") {
            Some(v) => str_eq(v.as_str(), "application/x-www-form-urlencoded"),
            None => false,
        };
        if !ct_ok {
            return Ok(());
        }
        let can: bool = match &req.body {
            Some(b) => b.url_encoded.is_none() && b.raw.is_some(),
            None => false,
        };
        if !can {
            return Ok(());
        }
        let decoded: Option<Vec<(String, String)>> = match &req.body {
            Some(b) => match &b.raw {
                Some(raw) => form_from_str(raw.as_str()),
                None => None,
            },
            None => None,
        };
        match decoded {
            None => Ok(()),
            Some(v) => {
                let taken = req.body.take();
                match taken {
                    Some(b) => {
                        req.body = Some(Body { json: b.json, url_encoded: Some(v), raw: b.raw });
                        Ok(())
                    },
                    None => {
                        proof {
                            assert(false);
                        }
                        Ok(())
                    },
                }
            },
        }
    }
}

} // verus!
