//! Response assembly: the status, header and body builders the handler and
//! the plugins shape replies with.

use vstd::prelude::*;

use crate::plugins::{
    header_get_model, headers_put, headers_wf, lower_seq, string_to_bytes, utf8_bytes_of,
};

verus! {

/// One reply under assembly: a status, a header map binding each name once,
/// and a body.
#[derive(Debug)]
pub struct Response {
    pub status: u16,
    pub headers: Vec<(String, String)>,
    pub body: Vec<u8>,
}

impl Default for Response {
    /// An empty 200 reply.
    fn default() -> (r: Response)
        ensures
            r.status == 200,
            r.headers@ == Seq::<(String, String)>::empty(),
            r.body@ == Seq::<u8>::empty(),
    {
        let r = Response { status: 200, headers: Vec::new(), body: Vec::new() };
        proof {
            assert(r.headers@ =~= Seq::<(String, String)>::empty());
            assert(r.body@ =~= Seq::<u8>::empty());
        }
        r
    }
}

impl Response {
    /// The response is well formed when its header map binds each name once.
    pub open spec fn wf(self) -> bool {
        headers_wf(self.headers@)
    }

    /// An empty 200 reply.
    pub fn new() -> (r: Response)
        ensures
            r.wf(),
            r.status == 200,
            r.headers@ == Seq::<(String, String)>::empty(),
            r.body@ == Seq::<u8>::empty(),
    {
        Response::default()
    }

    /// Set the status.
    pub fn status(self, status: u16) -> (r: Response)
        ensures
            r == (Response { status, ..self }),
    {
        Response { status, ..self }
    }

    /// Bind one header; every other name keeps its value.
    pub fn header(self, key: &str, value: String) -> (r: Response)
        requires
            self.wf(),
        ensures
            r.wf(),
            r.status == self.status,
            r.body == self.body,
            header_get_model(r.headers@, key@) == Some(value@),
            forall|k2: Seq<char>|
                lower_seq(k2) != lower_seq(key@) ==> header_get_model(r.headers@, k2)
                    == header_get_model(self.headers@, k2),
    {
        let mut out = self;
        headers_put(&mut out.headers, key, value);
        out
    }

    /// Set the body bytes.
    pub fn body(self, body: Vec<u8>) -> (r: Response)
        ensures
            r == (Response { body: r.body, ..self }),
            r.body == body,
    {
        Response { body, ..self }
    }

    /// Set a plain-text body with its content type.
    pub fn text(self, text: &str) -> (r: Response)
        requires
            self.wf(),
        ensures
            r.wf(),
            r.status == self.status,
            r.body@ == utf8_bytes_of(text@),
            header_get_model(r.headers@, "Content-Type"@) == Some("text/plain; charset=utf-8"@),
    {
        let with_header = self.header("Content-Type", String::from_str("text/plain; charset=utf-8"));
        with_header.body(string_to_bytes(text))
    }

    /// Set an HTML body with its content type.
    pub fn html(self, html: &str) -> (r: Response)
        requires
            self.wf(),
        ensures
            r.wf(),
            r.status == self.status,
            r.body@ == utf8_bytes_of(html@),
            header_get_model(r.headers@, "Content-Type"@) == Some("text/html; charset=utf-8"@),
    {
        let with_header = self.header("Content-Type", String::from_str("text/html; charset=utf-8"));
        with_header.body(string_to_bytes(html))
    }

    /// Whether the body is empty.
    pub fn is_empty(&self) -> (r: bool)
        ensures
            r == (self.body@.len() == 0),
    {
        self.body.len() == 0
    }

    /// A reply from a status and raw bytes.
    pub fn from_bytes(status: u16, body: Vec<u8>) -> (r: Response)
        ensures
            r.wf(),
            r.status == status,
            r.body == body,
            r.headers@ == Seq::<(String, String)>::empty(),
    {
        let r = Response { status, headers: Vec::new(), body };
        proof {
            assert(r.headers@ =~= Seq::<(String, String)>::empty());
        }
        r
    }

    /// A plain-text reply.
    pub fn from_text(status: u16, text: &str) -> (r: Response)
        ensures
            r.wf(),
            r.status == status,
            r.body@ == utf8_bytes_of(text@),
            header_get_model(r.headers@, "Content-Type"@) == Some("text/plain; charset=utf-8"@),
    {
        Response::new().status(status).text(text)
    }

    /// A 200 plain-text reply.
    pub fn ok_text(text: &str) -> (r: Response)
        ensures
            r.wf(),
            r.status == 200,
            r.body@ == utf8_bytes_of(text@),
    {
        Response::from_text(200, text)
    }

    /// A 404 plain-text reply.
    pub fn not_found(msg: &str) -> (r: Response)
        ensures
            r.wf(),
            r.status == 404,
            r.body@ == utf8_bytes_of(msg@),
    {
        Response::from_text(404, msg)
    }

    /// A 400 plain-text reply.
    pub fn bad_request(msg: &str) -> (r: Response)
        ensures
            r.wf(),
            r.status == 400,
            r.body@ == utf8_bytes_of(msg@),
    {
        Response::from_text(400, msg)
    }

    /// A 500 plain-text reply.
    pub fn internal_error(msg: &str) -> (r: Response)
        ensures
            r.wf(),
            r.status == 500,
            r.body@ == utf8_bytes_of(msg@),
    {
        Response::from_text(500, msg)
    }
}

} // verus!
