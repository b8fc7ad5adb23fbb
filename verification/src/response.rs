//! The response writer: headers and status, serialized to the three-part wire
//! form `<status line>\r\n<headers>\r\n<body>`. The application owns the
//! socket and writes what these functions render.

use vstd::prelude::*;
use vstd::string::StringSliceAdditionalSpecFns;
use crate::header::{render_entries, Header};
use crate::status::{spec_status_line, Status};
use crate::text::{first_ix, find_char, spec_digits, str_eq, u64_to_string};

verus! {

/// The byte length of a string slice, which Content-Length reports.
pub open spec fn byte_len(s: &str) -> nat {
    (s.spec_bytes().len() as usize) as nat
}

/// The full wire form of a response.
pub open spec fn spec_response_text(
    code: u16,
    entries: Seq<(Seq<char>, Seq<char>)>,
    body: Seq<char>,
) -> Seq<char> {
    spec_status_line(code) + "\r\n"@ + render_entries(entries) + "\r\n"@ + body
}

/// The characters after the last `'.'`; the whole string when it has none.
pub open spec fn ext_of(s: Seq<char>) -> Seq<char>
    decreases s.len(),
{
    let i = first_ix(s, '.');
    if 0 <= i && i < s.len() {
        ext_of(s.skip(i + 1))
    } else {
        s
    }
}

/// The fixed extension→MIME lookup.
pub open spec fn spec_mime(ext: Seq<char>) -> Seq<char> {
    if ext == "html"@ {
        "text/html"@
    } else if ext == "css"@ {
        "text/css"@
    } else if ext == "js"@ {
        "application/javascript"@
    } else if ext == "json"@ {
        "application/json"@
    } else if ext == "png"@ {
        "image/png"@
    } else if ext == "jpg"@ || ext == "jpeg"@ {
        "image/jpeg"@
    } else if ext == "gif"@ {
        "image/gif"@
    } else {
        "application/octet-stream"@
    }
}

/// The extension of a path: what follows its last `'.'`.
pub fn extension(path: &str) -> (r: &str)
    ensures
        r@ == ext_of(path@),
    decreases path@.len(),
{
    let len = path.unicode_len();
    let i = find_char(path, '.');
    if i == len {
        path
    } else {
        let rest = path.substring_char(i + 1, len);
        proof {
            assert(rest@ =~= path@.skip(i + 1));
        }
        extension(rest)
    }
}

/// The MIME type a file is served with, from its extension alone.
pub fn mime_type(path: &str) -> (r: &str)
    ensures
        r@ == spec_mime(ext_of(path@)),
{
    let ext = extension(path);
    if str_eq(ext, "html") {
        "text/html"
    } else if str_eq(ext, "css") {
        "text/css"
    } else if str_eq(ext, "js") {
        "application/javascript"
    } else if str_eq(ext, "json") {
        "application/json"
    } else if str_eq(ext, "png") {
        "image/png"
    } else if str_eq(ext, "jpg") || str_eq(ext, "jpeg") {
        "image/jpeg"
    } else if str_eq(ext, "gif") {
        "image/gif"
    } else {
        "application/octet-stream"
    }
}

/// Status and headers of one response; defaults to 200 and plain text.
pub struct Response {
    pub headers: Header,
    pub status: Status,
}

impl Response {
    pub fn new() -> (r: Self)
        ensures
            r.status.status_code == 200,
            r.headers.wf(),
            r.headers@ == Map::<Seq<char>, Seq<char>>::empty().insert(
                "Content-Type"@,
                "text/plain"@,
            ),
    {
        let mut headers = Header::new();
        headers.set("Content-Type", "text/plain");
        Response { headers, status: Status::new() }
    }

    /// Serialize a text response: Content-Length is set to the body's byte
    /// length and the three-part wire form comes back, ready to write.
    pub fn send(&mut self, msg: &str) -> (r: String)
        requires
            old(self).headers.wf(),
        ensures
            final(self).headers.wf(),
            final(self).headers@ == old(self).headers@.insert(
                "Content-Length"@,
                spec_digits(byte_len(msg)),
            ),
            final(self).status == old(self).status,
            r@ == spec_response_text(
                final(self).status.status_code,
                final(self).headers.entries(),
                msg@,
            ),
    {
        let len_str = u64_to_string(msg.len() as u64);
        self.headers.set("Content-Length", len_str.as_str());
        let mut out = self.status.to_string();
        out.append("\r\n");
        let headers_str = self.headers.to_string();
        out.append(headers_str.as_str());
        out.append("\r\n");
        out.append(msg);
        proof {
            assert(out@ =~= spec_response_text(
                self.status.status_code,
                self.headers.entries(),
                msg@,
            ));
        }
        out
    }

    /// Serialize a file response: Content-Type from the file's extension,
    /// Content-Length from the content the application read.
    pub fn send_file(&mut self, path: &str, content: &str) -> (r: String)
        requires
            old(self).headers.wf(),
        ensures
            final(self).headers.wf(),
            final(self).headers@ == old(self).headers@.insert(
                "Content-Type"@,
                spec_mime(ext_of(path@)),
            ).insert("Content-Length"@, spec_digits(byte_len(content))),
            final(self).status == old(self).status,
            r@ == spec_response_text(
                final(self).status.status_code,
                final(self).headers.entries(),
                content@,
            ),
    {
        let mime = mime_type(path);
        self.headers.set("Content-Type", mime);
        let len_str = u64_to_string(content.len() as u64);
        self.headers.set("Content-Length", len_str.as_str());
        let mut out = self.status.to_string();
        out.append("\r\n");
        let headers_str = self.headers.to_string();
        out.append(headers_str.as_str());
        out.append("\r\n");
        out.append(content);
        proof {
            assert(out@ =~= spec_response_text(
                self.status.status_code,
                self.headers.entries(),
                content@,
            ));
        }
        out
    }
}

} // verus!
