//! One parsed request: method, path, version, headers and optional body,
//! produced from a single buffer of text.

use vstd::prelude::*;
use crate::body::Body;
use crate::header::{Header, has_sep, spec_headers, find_sep, lemma_first_sep};
use crate::method::{Method, spec_method_from};
use crate::text::{is_blank, is_blank_line, join_lines, join_nl, spec_lines, split_lines,
    split_tokens, ws_tokens};

verus! {

/// Why a buffer fails to parse as a request. An unrecognized method token is
/// not among these: it parses to no method, the signal for a 405 answer.
#[derive(Clone, Copy, Debug, PartialEq, Eq, Structural)]
pub enum ParseError {
    /// The buffer holds no line at all.
    MissingRequestLine,
    /// The request line holds no token.
    MissingMethod,
    /// The request line holds only a method token.
    MissingPath,
    /// The request line holds only method and path tokens.
    MissingVersion,
    /// A header line lacks the `": "` separator.
    MalformedHeader,
}

pub struct Request {
    pub method: Option<Method>,
    pub path: Option<String>,
    pub version: Option<String>,
    pub headers: Header,
    pub body: Option<Body>,
}

/// Index of the first blank line, or the length when none is blank.
pub open spec fn first_blank(ls: Seq<Seq<char>>) -> int
    decreases ls.len(),
{
    if ls.len() == 0 {
        0
    } else if is_blank(ls[0]) {
        0
    } else {
        1 + first_blank(ls.skip(1))
    }
}

pub proof fn lemma_first_blank(ls: Seq<Seq<char>>)
    ensures
        0 <= first_blank(ls) <= ls.len(),
        first_blank(ls) < ls.len() ==> is_blank(ls[first_blank(ls)]),
        forall|j: int| 0 <= j < first_blank(ls) ==> !is_blank(ls[j]),
    decreases ls.len(),
{
    if ls.len() == 0 {
    } else if is_blank(ls[0]) {
    } else {
        lemma_first_blank(ls.skip(1));
        assert forall|j: int| 0 <= j < first_blank(ls) implies !is_blank(ls[j]) by {
            if j >= 1 {
                assert(ls.skip(1)[j - 1] == ls[j]);
            }
        }
        if first_blank(ls) < ls.len() {
            assert(ls.skip(1)[first_blank(ls.skip(1))] == ls[first_blank(ls)]);
        }
    }
}

/// The header block of the lines after the request line: up to the first
/// blank line, or all of them when none is blank.
pub open spec fn spec_header_lines(ls: Seq<Seq<char>>) -> Seq<Seq<char>> {
    ls.take(first_blank(ls))
}

/// The body block: everything after the first blank line.
pub open spec fn spec_body_lines(ls: Seq<Seq<char>>) -> Seq<Seq<char>> {
    if first_blank(ls) < ls.len() {
        ls.skip(first_blank(ls) + 1)
    } else {
        Seq::empty()
    }
}

/// Every header line carries the `": "` separator.
pub open spec fn headers_ok(hls: Seq<Seq<char>>) -> bool {
    forall|i: int| 0 <= i < hls.len() ==> has_sep(#[trigger] hls[i])
}

impl Request {
    /// The headers' key uniqueness, which every parsed request has.
    pub open spec fn wf(&self) -> bool {
        self.headers.wf()
    }

    pub fn new() -> (r: Self)
        ensures
            r.method is None,
            r.path is None,
            r.version is None,
            r.headers@ == Map::<Seq<char>, Seq<char>>::empty(),
            r.wf(),
            r.body is None,
    {
        Request {
            method: None,
            path: None,
            version: None,
            headers: Header::new(),
            body: None,
        }
    }

    /// Parse one buffer: request line into method/path/version tokens, header
    /// lines up to the first blank line, the rest rejoined as the raw body.
    pub fn parse(request_str: &str) -> (r: Result<Request, ParseError>)
        ensures
            ({
                let ls = spec_lines(request_str@);
                &&& ls.len() == 0 ==> r == Err::<Request, ParseError>(
                    ParseError::MissingRequestLine,
                )
                &&& ls.len() > 0 ==> {
                    let toks = ws_tokens(ls[0]);
                    let rest = ls.skip(1);
                    let hls = spec_header_lines(rest);
                    &&& toks.len() == 0 ==> r == Err::<Request, ParseError>(
                        ParseError::MissingMethod,
                    )
                    &&& toks.len() == 1 ==> r == Err::<Request, ParseError>(ParseError::MissingPath)
                    &&& toks.len() == 2 ==> r == Err::<Request, ParseError>(
                        ParseError::MissingVersion,
                    )
                    &&& toks.len() >= 3 && !headers_ok(hls) ==> r == Err::<Request, ParseError>(
                        ParseError::MalformedHeader,
                    )
                    &&& toks.len() >= 3 && headers_ok(hls) ==> r is Ok && {
                        let req = r->Ok_0;
                        let data = join_nl(spec_body_lines(rest));
                        &&& req.method == spec_method_from(toks[0])
                        &&& (req.path matches Some(p) && p@ == toks[1])
                        &&& (req.version matches Some(v) && v@ == toks[2])
                        &&& req.wf()
                        &&& req.headers@ == spec_headers(hls)
                        &&& data.len() == 0 ==> req.body is None
                        &&& data.len() > 0 ==> (req.body matches Some(b) && (b.raw matches Some(
                            raw,
                        ) && raw@ == data) && b.json is None && b.url_encoded is None)
                    }
                }
            }),
    {
        let ghost ls = spec_lines(request_str@);
        let ghost rest = ls.skip(1);
        let lines = split_lines(request_str);
        let n = lines.len();
        if n == 0 {
            return Err(ParseError::MissingRequestLine);
        }
        proof {
            assert(lines@.map_values(|l: String| l@)[0] == ls[0]);
        }
        let toks = split_tokens(lines[0].as_str());
        if toks.len() == 0 {
            return Err(ParseError::MissingMethod);
        }
        if toks.len() == 1 {
            return Err(ParseError::MissingPath);
        }
        if toks.len() == 2 {
            return Err(ParseError::MissingVersion);
        }
        proof {
            assert(toks@.map_values(|t: String| t@)[0] == ws_tokens(ls[0])[0]);
            assert(toks@.map_values(|t: String| t@)[1] == ws_tokens(ls[0])[1]);
            assert(toks@.map_values(|t: String| t@)[2] == ws_tokens(ls[0])[2]);
        }
        let method = Method::from(toks[0].as_str());
        let path = toks[1].clone();
        let version = toks[2].clone();

        // Find the first blank line after the request line.
        let ghost views = lines@.map_values(|l: String| l@);
        let mut end: usize = 1;
        while end < n && !is_blank_line(lines[end].as_str())
            invariant
                1 <= end <= n,
                n == lines@.len(),
                views == lines@.map_values(|l: String| l@),
                forall|j: int| 1 <= j < end ==> !is_blank(#[trigger] views[j]),
            decreases n - end,
        {
            end = end + 1;
        }
        proof {
            lemma_first_blank(rest);
            assert(rest.len() == n - 1);
            assert forall|j: int| 0 <= j < end - 1 implies !is_blank(#[trigger] rest[j]) by {
                assert(rest[j] == views[j + 1]);
            }
            if (end as int) < n {
                assert(is_blank(views[end as int]));
                assert(rest[end - 1] == views[end as int]);
                if first_blank(rest) < end - 1 {
                    assert(!is_blank(rest[first_blank(rest)]));
                    assert(is_blank(rest[first_blank(rest)]));
                    assert(false);
                }
                if first_blank(rest) > end - 1 {
                    assert(!is_blank(rest[end - 1]));
                    assert(false);
                }
                assert(first_blank(rest) == end - 1);
            } else {
                if first_blank(rest) < rest.len() {
                    assert(!is_blank(rest[first_blank(rest)]));
                    assert(false);
                }
                assert(first_blank(rest) == rest.len());
            }
        }
        let ghost hls = spec_header_lines(rest);

        // Collect and check the header lines.
        let mut hdr: Vec<String> = Vec::new();
        let mut j: usize = 1;
        while j < end
            invariant
                1 <= j <= end <= n,
                n == lines@.len(),
                views == lines@.map_values(|l: String| l@),
                ls == spec_lines(request_str@),
                ls.len() > 0,
                ws_tokens(ls[0]).len() >= 3,
                hls == spec_header_lines(rest),
                rest == ls.skip(1),
                views == ls,
                first_blank(rest) == end - 1,
                hls =~= views.subrange(1, end as int),
                hdr@.map_values(|l: String| l@) =~= views.subrange(1, j as int),
                forall|k: int| 0 <= k < j - 1 ==> has_sep(#[trigger] hls[k]),
            decreases end - j,
        {
            let line_len = lines[j].as_str().unicode_len();
            let sep = find_sep(lines[j].as_str());
            proof {
                lemma_first_sep(views[j as int]);
            }
            if line_len < 2 || sep > line_len - 2 {
                proof {
                    assert(!has_sep(views[j as int]));
                    assert(hls[j - 1] == views[j as int]);
                    assert(!headers_ok(hls));
                }
                return Err(ParseError::MalformedHeader);
            }
            let ghost prev_hdr = hdr@;
            hdr.push(lines[j].clone());
            proof {
                assert(has_sep(views[j as int]));
                assert(hls[j - 1] == views[j as int]);
                assert(hdr@ =~= prev_hdr.push(lines@[j as int]));
                assert(hdr@.map_values(|l: String| l@) =~= prev_hdr.map_values(|l: String| l@)
                    .push(views[j as int]));
                assert(hdr@.map_values(|l: String| l@) =~= views.subrange(1, j + 1));
            }
            j = j + 1;
        }
        proof {
            assert(hdr@.map_values(|l: String| l@) =~= hls);
            assert(headers_ok(hls));
            assert forall|i: int| 0 <= i < hdr@.len() implies has_sep(#[trigger] hdr@[i]@) by {
                assert(hdr@.map_values(|l: String| l@)[i] == hdr@[i]@);
                assert(hls[i] == hdr@[i]@);
            }
        }
        let headers = Header::from(hdr);

        // The body: the remaining lines rejoined, absent when empty.
        let data: String = if end < n {
            join_lines(&lines, end + 1)
        } else {
            String::new()
        };
        proof {
            if (end as int) < n {
                assert(views.skip(end + 1) =~= rest.skip(first_blank(rest) + 1));
            } else {
                assert(spec_body_lines(rest) =~= Seq::<Seq<char>>::empty());
            }
            assert(data@ == join_nl(spec_body_lines(rest)));
        }
        let body: Option<Body> = if data.unicode_len() == 0 {
            None
        } else {
            Some(Body::new(data))
        };

        Ok(Request { method, path: Some(path), version: Some(version), headers, body })
    }
}

} // verus!
