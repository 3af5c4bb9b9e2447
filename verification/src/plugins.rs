//! The per-request context shared by the request handler and the plugins,
//! the built-in plugin catalog, and ordered chain execution with pre-phase
//! short-circuit.

use std::sync::Arc;
use vstd::prelude::*;

use crate::models::AppliedPlugin;
use crate::value::{clone_string, obj_get, KvValue};

verus! {

/// The ASCII-lowercase form of a character.
pub open spec fn lower_char(c: char) -> char {
    if 'A' <= c && c <= 'Z' {
        (((c as u8) + 32) as char)
    } else {
        c
    }
}

/// The ASCII-lowercase form of a character sequence: header names compare
/// case-insensitively.
pub open spec fn lower_seq(s: Seq<char>) -> Seq<char> {
    s.map_values(|c: char| lower_char(c))
}

/// The ASCII-lowercase form of one character.
pub fn lower_char_exec(c: char) -> (r: char)
    ensures
        r == lower_char(c),
{
    if 'A' <= c && c <= 'Z' {
        (((c as u8) + 32) as char)
    } else {
        c
    }
}

/// Whether two names hold the same characters up to ASCII case.
pub fn eq_ignore_case(a: &str, b: &str) -> (r: bool)
    ensures
        r == (lower_seq(a@) == lower_seq(b@)),
{
    let alen = a.unicode_len();
    let blen = b.unicode_len();
    if alen != blen {
        proof {
            assert(lower_seq(a@).len() != lower_seq(b@).len());
        }
        return false;
    }
    let mut i: usize = 0;
    while i < alen
        invariant
            alen == a@.len() && blen == b@.len() && alen == blen,
            0 <= i <= alen,
            forall|j: int| 0 <= j < i ==> lower_char(a@[j]) == lower_char(b@[j]),
        decreases alen - i,
    {
        if lower_char_exec(a.get_char(i)) != lower_char_exec(b.get_char(i)) {
            proof {
                assert(lower_seq(a@)[i as int] != lower_seq(b@)[i as int]);
            }
            return false;
        }
        i = i + 1;
    }
    proof {
        assert(lower_seq(a@) =~= lower_seq(b@));
    }
    true
}

/// The header entry binds the (case-insensitive) name `k`.
pub open spec fn header_matches(e: (String, String), k: Seq<char>) -> bool {
    lower_seq(e.0@) == lower_seq(k)
}

/// Some entry binds `k`.
pub open spec fn headers_contain(h: Seq<(String, String)>, k: Seq<char>) -> bool {
    exists|i: int| 0 <= i < h.len() && header_matches(#[trigger] h[i], k)
}

/// The index of the entry binding `k`, when one exists.
pub open spec fn header_idx(h: Seq<(String, String)>, k: Seq<char>) -> int {
    choose|i: int| 0 <= i < h.len() && header_matches(#[trigger] h[i], k)
}

/// At most one entry per case-insensitive name.
pub open spec fn headers_wf(h: Seq<(String, String)>) -> bool {
    forall|i: int, j: int|
        0 <= i < j < h.len() ==> lower_seq((#[trigger] h[i]).0@) != lower_seq((#[trigger] h[j]).0@)
}

/// The value bound to the (case-insensitive) name `k`.
pub open spec fn header_get_model(h: Seq<(String, String)>, k: Seq<char>) -> Option<Seq<char>> {
    if headers_contain(h, k) {
        Some(h[header_idx(h, k)].1@)
    } else {
        None
    }
}

proof fn lemma_header_unique(h: Seq<(String, String)>, k: Seq<char>, i: int)
    requires
        headers_wf(h),
        0 <= i < h.len(),
        header_matches(h[i], k),
    ensures
        header_get_model(h, k) == Some(h[i].1@),
        header_idx(h, k) == i,
{
    assert(headers_contain(h, k));
    let j = header_idx(h, k);
    if i < j {
        assert(lower_seq(h[i].0@) != lower_seq(h[j].0@));
    } else if j < i {
        assert(lower_seq(h[j].0@) != lower_seq(h[i].0@));
    }
}

proof fn lemma_header_update(h: Seq<(String, String)>, new_h: Seq<(String, String)>, i: int, k: Seq<char>)
    requires
        headers_wf(h),
        0 <= i < h.len(),
        new_h == h.update(i, new_h[i]),
        new_h.len() == h.len(),
        header_matches(h[i], k),
        header_matches(new_h[i], k),
    ensures
        headers_wf(new_h),
        header_get_model(new_h, k) == Some(new_h[i].1@),
        forall|k2: Seq<char>|
            lower_seq(k2) != lower_seq(k) ==> header_get_model(new_h, k2) == header_get_model(
                h,
                k2,
            ),
{
    assert forall|p: int, q: int| 0 <= p < q < new_h.len() implies lower_seq(
        (#[trigger] new_h[p]).0@,
    ) != lower_seq((#[trigger] new_h[q]).0@) by {
        assert(lower_seq(new_h[p].0@) == lower_seq(h[p].0@));
        assert(lower_seq(new_h[q].0@) == lower_seq(h[q].0@));
    }
    lemma_header_unique(new_h, k, i);
    assert forall|k2: Seq<char>| lower_seq(k2) != lower_seq(k) implies header_get_model(new_h, k2)
        == header_get_model(h, k2) by {
        if headers_contain(h, k2) {
            let j = header_idx(h, k2);
            assert(header_matches(h[j], k2));
            if j == i {
                assert(lower_seq(k2) == lower_seq(h[i].0@));
                assert(lower_seq(k) == lower_seq(h[i].0@));
            }
            assert(header_matches(new_h[j], k2));
            lemma_header_unique(h, k2, j);
            lemma_header_unique(new_h, k2, j);
        } else {
            if headers_contain(new_h, k2) {
                let j = header_idx(new_h, k2);
                if j == i {
                    assert(lower_seq(k2) == lower_seq(k));
                }
                assert(header_matches(h[j], k2));
            }
        }
    }
}

proof fn lemma_header_push(h: Seq<(String, String)>, new_h: Seq<(String, String)>, k: Seq<char>)
    requires
        headers_wf(h),
        !headers_contain(h, k),
        new_h.len() == h.len() + 1,
        new_h == h.push(new_h.last()),
        header_matches(new_h.last(), k),
    ensures
        headers_wf(new_h),
        header_get_model(new_h, k) == Some(new_h.last().1@),
        forall|k2: Seq<char>|
            lower_seq(k2) != lower_seq(k) ==> header_get_model(new_h, k2) == header_get_model(
                h,
                k2,
            ),
{
    let n = h.len() as int;
    assert forall|p: int, q: int| 0 <= p < q < new_h.len() implies lower_seq(
        (#[trigger] new_h[p]).0@,
    ) != lower_seq((#[trigger] new_h[q]).0@) by {
        if q == n {
            if lower_seq(new_h[p].0@) == lower_seq(new_h[q].0@) {
                assert(header_matches(h[p], k));
            }
        }
    }
    lemma_header_unique(new_h, k, n);
    assert forall|k2: Seq<char>| lower_seq(k2) != lower_seq(k) implies header_get_model(new_h, k2)
        == header_get_model(h, k2) by {
        if headers_contain(h, k2) {
            let j = header_idx(h, k2);
            assert(header_matches(new_h[j], k2));
            lemma_header_unique(h, k2, j);
            lemma_header_unique(new_h, k2, j);
        } else {
            if headers_contain(new_h, k2) {
                let j = header_idx(new_h, k2);
                if j < n {
                    assert(header_matches(h[j], k2));
                } else {
                    assert(lower_seq(k2) == lower_seq(k));
                }
            }
        }
    }
}

/// Lookups are case-insensitive: keys that read the same up to ASCII case
/// see the same value.
pub proof fn lemma_header_model_case(h: Seq<(String, String)>, k1: Seq<char>, k2: Seq<char>)
    requires
        headers_wf(h),
        lower_seq(k1) == lower_seq(k2),
    ensures
        header_get_model(h, k1) == header_get_model(h, k2),
{
    if headers_contain(h, k1) {
        let i = header_idx(h, k1);
        assert(header_matches(h[i], k1));
        assert(header_matches(h[i], k2));
        lemma_header_unique(h, k1, i);
        lemma_header_unique(h, k2, i);
    } else {
        if headers_contain(h, k2) {
            let i = header_idx(h, k2);
            assert(header_matches(h[i], k1));
        }
    }
}

/// The value bound to the name `k`, looked up case-insensitively.
pub fn headers_get(h: &Vec<(String, String)>, k: &str) -> (r: Option<String>)
    requires
        headers_wf(h@),
    ensures
        match r {
            Some(v) => header_get_model(h@, k@) == Some(v@),
            None => header_get_model(h@, k@) is None,
        },
{
    let mut i: usize = 0;
    while i < h.len()
        invariant
            headers_wf(h@),
            0 <= i <= h@.len(),
            forall|j: int| 0 <= j < i ==> !header_matches(#[trigger] h@[j], k@),
        decreases h@.len() - i,
    {
        if eq_ignore_case(h[i].0.as_str(), k) {
            proof {
                lemma_header_unique(h@, k@, i as int);
            }
            return Some(clone_string(&h[i].1));
        }
        i = i + 1;
    }
    None
}

/// Bind `k` to `v`: the existing entry's value is replaced, or a new entry
/// is appended; every other name keeps its value.
pub fn headers_put(h: &mut Vec<(String, String)>, k: &str, v: String)
    requires
        headers_wf(old(h)@),
    ensures
        headers_wf(final(h)@),
        header_get_model(final(h)@, k@) == Some(v@),
        forall|k2: Seq<char>|
            lower_seq(k2) != lower_seq(k@) ==> header_get_model(final(h)@, k2) == header_get_model(
                old(h)@,
                k2,
            ),
{
    let ghost gv = v@;
    let mut i: usize = 0;
    while i < h.len()
        invariant
            h@ == old(h)@,
            headers_wf(h@),
            v@ == gv,
            0 <= i <= h@.len(),
            forall|j: int| 0 <= j < i ==> !header_matches(#[trigger] h@[j], k@),
        decreases h@.len() - i,
    {
        if eq_ignore_case(h[i].0.as_str(), k) {
            let ghost old_h = h@;
            let stored = clone_string(&h[i].0);
            h[i] = (stored, v);
            proof {
                assert(h@ == old_h.update(i as int, h@[i as int]));
                lemma_header_update(old_h, h@, i as int, k@);
            }
            return ;
        }
        i = i + 1;
    }
    let ghost old_h = h@;
    h.push((k.to_owned(), v));
    proof {
        assert(h@ =~= old_h.push(h@.last()));
        lemma_header_push(old_h, h@, k@);
    }
}

/// Remove the entry bound to `k`, if any; every other name keeps its value.
pub fn headers_remove(h: &mut Vec<(String, String)>, k: &str)
    requires
        headers_wf(old(h)@),
    ensures
        headers_wf(final(h)@),
        header_get_model(final(h)@, k@) is None,
        forall|k2: Seq<char>|
            lower_seq(k2) != lower_seq(k@) ==> header_get_model(final(h)@, k2) == header_get_model(
                old(h)@,
                k2,
            ),
{
    let mut i: usize = 0;
    while i < h.len()
        invariant
            h@ == old(h)@,
            headers_wf(h@),
            0 <= i <= h@.len(),
            forall|j: int| 0 <= j < i ==> !header_matches(#[trigger] h@[j], k@),
        decreases h@.len() - i,
    {
        if eq_ignore_case(h[i].0.as_str(), k) {
            let ghost old_h = h@;
            let _ = h.remove(i);
            proof {
                lemma_header_remove(old_h, i as int, k@);
            }
            return ;
        }
        i = i + 1;
    }
}

proof fn lemma_header_remove(h: Seq<(String, String)>, i: int, k: Seq<char>)
    requires
        headers_wf(h),
        0 <= i < h.len(),
        header_matches(h[i], k),
    ensures
        headers_wf(h.remove(i)),
        header_get_model(h.remove(i), k) is None,
        forall|k2: Seq<char>|
            lower_seq(k2) != lower_seq(k) ==> header_get_model(h.remove(i), k2)
                == header_get_model(h, k2),
{
    let new_h = h.remove(i);
    assert forall|p: int, q: int| 0 <= p < q < new_h.len() implies lower_seq(
        (#[trigger] new_h[p]).0@,
    ) != lower_seq((#[trigger] new_h[q]).0@) by {
        let p0 = if p < i {
            p
        } else {
            p + 1
        };
        let q0 = if q < i {
            q
        } else {
            q + 1
        };
        assert(new_h[p] == h[p0]);
        assert(new_h[q] == h[q0]);
    }
    if headers_contain(new_h, k) {
        let j = header_idx(new_h, k);
        let j0 = if j < i {
            j
        } else {
            j + 1
        };
        assert(new_h[j] == h[j0]);
        assert(header_matches(h[j0], k));
        if j0 < i {
            assert(lower_seq(h[j0].0@) != lower_seq(h[i].0@));
        } else {
            assert(lower_seq(h[i].0@) != lower_seq(h[j0].0@));
        }
    }
    assert forall|k2: Seq<char>| lower_seq(k2) != lower_seq(k) implies header_get_model(new_h, k2)
        == header_get_model(h, k2) by {
        if headers_contain(h, k2) {
            let j0 = header_idx(h, k2);
            if j0 == i {
                assert(lower_seq(k2) == lower_seq(k));
            }
            let j = if j0 < i {
                j0
            } else {
                j0 - 1
            };
            assert(new_h[j] == h[j0]);
            assert(header_matches(new_h[j], k2));
            lemma_header_unique(h, k2, j0);
            lemma_header_unique(new_h, k2, j);
        } else {
            if headers_contain(new_h, k2) {
                let j = header_idx(new_h, k2);
                let j0 = if j < i {
                    j
                } else {
                    j + 1
                };
                assert(new_h[j] == h[j0]);
                assert(header_matches(h[j0], k2));
            }
        }
    }
}


/// The point in the request lifecycle at which a plugin runs.
#[derive(Debug, Clone, Copy, PartialEq, Eq, Structural)]
pub enum Phase {
    Pre,
    Post,
    Intermediate,
}

/// What `uuid::Uuid::new_v4` hyphenated text looks like: a fresh random
/// identifier, 36 characters long.
#[verifier::external_body]
pub(crate) fn fresh_request_id() -> (r: String)
    ensures
        r@.len() == 36,
{
    uuid::Uuid::new_v4().to_string()
}

/// What `base64::engine::general_purpose::STANDARD.decode` returns: a
/// function of the input text alone.
pub uninterp spec fn b64std_decode_of(s: Seq<char>) -> Option<Seq<u8>>;

/// Relies on `base64` standard-alphabet decoding: the result depends on the
/// text alone, and invalid text is rejected.
#[verifier::external_body]
pub(crate) fn b64std_decode(s: &str) -> (r: Option<Vec<u8>>)
    ensures
        match r {
            Some(b) => b64std_decode_of(s@) == Some(b@),
            None => (b64std_decode_of(s@) is None),
        },
{
    match base64::Engine::decode(&base64::engine::general_purpose::STANDARD, s) {
        Ok(b) => Some(b),
        Err(_) => None,
    }
}

/// What `base64::engine::general_purpose::STANDARD.encode` returns: a
/// function of the input bytes alone; empty input encodes to empty text.
pub uninterp spec fn b64std_encode_of(b: Seq<u8>) -> Seq<char>;

/// Relies on `base64` standard-alphabet encoding: the result depends on the
/// bytes alone.
#[verifier::external_body]
pub(crate) fn b64std_encode(b: &[u8]) -> (r: String)
    ensures
        r@ == b64std_encode_of(b@),
        b@.len() == 0 ==> r@.len() == 0,
{
    base64::Engine::encode(&base64::engine::general_purpose::STANDARD, b)
}

/// The UTF-8 bytes of a character sequence.
pub uninterp spec fn utf8_bytes_of(s: Seq<char>) -> Seq<u8>;

/// Relies on `str::as_bytes`: the UTF-8 encoding of the characters, empty
/// for the empty string.
#[verifier::external_body]
pub(crate) fn string_to_bytes(s: &str) -> (r: Vec<u8>)
    ensures
        r@ == utf8_bytes_of(s@),
        s@.len() == 0 ==> r@.len() == 0,
{
    s.as_bytes().to_vec()
}

/// The characters a byte sequence reads as under lossy UTF-8 decoding:
/// every invalid sequence becomes replacement characters.
pub uninterp spec fn utf8_lossy_of(b: Seq<u8>) -> Seq<char>;

/// Relies on `String::from_utf8_lossy`: the characters depend on the bytes
/// alone, and valid UTF-8 decodes to exactly its characters.
#[verifier::external_body]
pub(crate) fn bytes_to_string_lossy(b: &[u8]) -> (r: String)
    ensures
        r@ == utf8_lossy_of(b@),
        (utf8_chars_of(b@) matches Some(s) ==> r@ == s),
{
    String::from_utf8_lossy(b).into_owned()
}

/// The characters a UTF-8 byte sequence decodes to, when it is valid UTF-8.
pub uninterp spec fn utf8_chars_of(b: Seq<u8>) -> Option<Seq<char>>;

/// Relies on `String::from_utf8`: decoding succeeds exactly on valid UTF-8,
/// and the characters depend on the bytes alone.
#[verifier::external_body]
pub(crate) fn bytes_to_string(b: Vec<u8>) -> (r: Option<String>)
    ensures
        match r {
            Some(s) => utf8_chars_of(b@) == Some(s@),
            None => (utf8_chars_of(b@) is None),
        },
{
    match String::from_utf8(b) {
        Ok(s) => Some(s),
        Err(_) => None,
    }
}

/// The per-request context: the parsed request, the mutable response state,
/// and the inter-plugin variables bag.
#[derive(Debug)]
pub struct RequestContext {
    pub id: String,
    pub method: String,
    pub uri: String,
    pub path: String,
    pub query: Option<String>,
    pub headers: Vec<(String, String)>,
    pub body: Vec<u8>,
    pub status: Option<u16>,
    pub vars: Vec<(String, KvValue)>,
}

impl RequestContext {
    /// The context is well formed when its header map binds each name once.
    pub open spec fn wf(self) -> bool {
        headers_wf(self.headers@)
    }

    /// A fresh context for one request, with a fresh request id, no response
    /// status, and an empty variables bag.
    pub fn new(
        method: String,
        uri: String,
        path: String,
        query: Option<String>,
        headers: Vec<(String, String)>,
        body: Vec<u8>,
    ) -> (r: RequestContext)
        requires
            headers_wf(headers@),
        ensures
            r.wf(),
            r.id@.len() == 36,
            r.method == method,
            r.uri == uri,
            r.path == path,
            r.query == query,
            r.headers == headers,
            r.body == body,
            r.status is None,
            r.vars@ == Seq::<(String, KvValue)>::empty(),
    {
        let r = RequestContext {
            id: fresh_request_id(),
            method,
            uri,
            path,
            query,
            headers,
            body,
            status: None,
            vars: Vec::new(),
        };
        proof {
            assert(r.vars@ =~= Seq::<(String, KvValue)>::empty());
        }
        r
    }

    /// The request id.
    pub fn get_id(&self) -> (r: &String)
        ensures
            *r == self.id,
    {
        &self.id
    }

    /// The value of a request header, looked up case-insensitively.
    pub fn header_get(&self, k: &str) -> (r: Option<String>)
        requires
            self.wf(),
        ensures
            match r {
                Some(v) => header_get_model(self.headers@, k@) == Some(v@),
                None => (header_get_model(self.headers@, k@) is None),
            },
    {
        headers_get(&self.headers, k)
    }

    /// Bind a header name to a value; every other header keeps its value,
    /// and nothing else changes.
    pub fn header_put(&mut self, k: &str, v: String)
        requires
            old(self).wf(),
        ensures
            final(self).wf(),
            header_get_model(final(self).headers@, k@) == Some(v@),
            forall|k2: Seq<char>|
                lower_seq(k2) != lower_seq(k@) ==> header_get_model(final(self).headers@, k2)
                    == header_get_model(old(self).headers@, k2),
            *final(self) == (RequestContext { headers: final(self).headers, ..*old(self) }),
    {
        headers_put(&mut self.headers, k, v);
    }

    /// Remove a header; every other header keeps its value, and nothing else
    /// changes.
    pub fn header_remove(&mut self, k: &str)
        requires
            old(self).wf(),
        ensures
            final(self).wf(),
            (header_get_model(final(self).headers@, k@) is None),
            forall|k2: Seq<char>|
                lower_seq(k2) != lower_seq(k@) ==> header_get_model(final(self).headers@, k2)
                    == header_get_model(old(self).headers@, k2),
            *final(self) == (RequestContext { headers: final(self).headers, ..*old(self) }),
    {
        headers_remove(&mut self.headers, k);
    }

    /// Replace the whole header map, as the upstream response headers do.
    pub fn set_headers(&mut self, headers: Vec<(String, String)>)
        requires
            headers_wf(headers@),
        ensures
            final(self).wf(),
            final(self).headers == headers,
            *final(self) == (RequestContext { headers: final(self).headers, ..*old(self) }),
    {
        self.headers = headers;
    }

    /// Set the response status; once set, the pre-phase chain short-circuits.
    pub fn set_status(&mut self, code: u16)
        ensures
            *final(self) == (RequestContext { status: Some(code), ..*old(self) }),
    {
        self.status = Some(code);
    }

    /// Replace the body.
    pub fn set_body(&mut self, b: Vec<u8>)
        ensures
            *final(self) == (RequestContext { body: final(self).body, ..*old(self) }),
            final(self).body == b,
    {
        self.body = b;
    }

    /// Set an inter-plugin variable.
    pub fn var_put(&mut self, key: String, value: KvValue)
        ensures
            forall|x: Seq<char>|
                obj_get(final(self).vars@, x) == if x == key@ {
                    Some(value)
                } else {
                    obj_get(old(self).vars@, x)
                },
            *final(self) == (RequestContext { vars: final(self).vars, ..*old(self) }),
    {
        crate::kv::obj_set(&mut self.vars, key, value);
    }

    /// Read an inter-plugin variable.
    pub fn var_get(&self, key: &str) -> (r: Option<&KvValue>)
        ensures
            match r {
                Some(v) => obj_get(self.vars@, key@) == Some(*v),
                None => (obj_get(self.vars@, key@) is None),
            },
    {
        crate::value::obj_find(&self.vars, key)
    }
}

/// The string a configuration object binds to `key`, or `default`.
pub open spec fn cfg_str(cfg: Option<KvValue>, key: Seq<char>, default: Seq<char>) -> Seq<char> {
    match cfg {
        Some(KvValue::Obj(fields)) => match obj_get(fields@, key) {
            Some(KvValue::Str(s)) => s@,
            _ => default,
        },
        _ => default,
    }
}

/// The boolean a configuration object binds to `key`, or `default`.
pub open spec fn cfg_bool(cfg: Option<KvValue>, key: Seq<char>, default: bool) -> bool {
    match cfg {
        Some(KvValue::Obj(fields)) => match obj_get(fields@, key) {
            Some(KvValue::Bool(b)) => b,
            _ => default,
        },
        _ => default,
    }
}

/// The status code a termination configuration carries: its non-negative
/// `status` number truncated to 16 bits, else 403.
pub open spec fn cfg_status(cfg: Option<KvValue>) -> u16 {
    match cfg {
        Some(KvValue::Obj(fields)) => match obj_get(fields@, "status"@) {
            Some(KvValue::Int(n)) => if n >= 0 {
                (n as u16)
            } else {
                403
            },
            _ => 403,
        },
        _ => 403,
    }
}

/// The string bound to `key` in the configuration, or `default`.
pub fn cfg_get_str(cfg: &Option<KvValue>, key: &str, default: &str) -> (r: String)
    ensures
        r@ == cfg_str(*cfg, key@, default@),
{
    match cfg {
        Some(KvValue::Obj(fields)) => match crate::value::obj_find(fields, key) {
            Some(KvValue::Str(s)) => clone_string(s),
            _ => default.to_owned(),
        },
        _ => default.to_owned(),
    }
}

/// The boolean bound to `key` in the configuration, or `default`.
pub fn cfg_get_bool(cfg: &Option<KvValue>, key: &str, default: bool) -> (r: bool)
    ensures
        r == cfg_bool(*cfg, key@, default),
{
    match cfg {
        Some(KvValue::Obj(fields)) => match crate::value::obj_find(fields, key) {
            Some(KvValue::Bool(b)) => *b,
            _ => default,
        },
        _ => default,
    }
}

fn cfg_get_status(cfg: &Option<KvValue>) -> (r: u16)
    ensures
        r == cfg_status(*cfg),
{
    match cfg {
        Some(KvValue::Obj(fields)) => match crate::value::obj_find(fields, "status") {
            Some(KvValue::Int(n)) => if *n >= 0 {
                #[verifier::truncate] (*n as u16)
            } else {
                403
            },
            _ => 403,
        },
        _ => 403,
    }
}


/// A plugin's `apply` failed; the chain logs and continues.
#[derive(Debug, Clone, Copy, PartialEq, Eq, Structural)]
pub struct PluginError;

/// The index of the first colon, or the length when there is none.
pub open spec fn first_colon(s: Seq<char>) -> int
    decreases s.len(),
{
    if s.len() == 0 {
        0
    } else if s[0] == ':' {
        0
    } else {
        1 + first_colon(s.drop_first())
    }
}

proof fn lemma_first_colon_bounds(s: Seq<char>)
    ensures
        0 <= first_colon(s) <= s.len(),
        first_colon(s) < s.len() ==> s[first_colon(s)] == ':',
        forall|j: int| 0 <= j < first_colon(s) ==> s[j] != ':',
    decreases s.len(),
{
    if s.len() > 0 && s[0] != ':' {
        lemma_first_colon_bounds(s.drop_first());
        assert forall|j: int| 0 <= j < first_colon(s) implies s[j] != ':' by {
            if j > 0 {
                assert(s.drop_first()[j - 1] != ':');
                assert(s.drop_first()[j - 1] == s[j]);
            }
        }
    }
}

/// The user part of a `user:pass` credential: everything before the first
/// colon, the whole text when there is none.
pub open spec fn auth_user(s: Seq<char>) -> Seq<char> {
    s.take(first_colon(s))
}

/// The password part of a `user:pass` credential: everything after the first
/// colon, empty when there is none.
pub open spec fn auth_pass(s: Seq<char>) -> Seq<char> {
    if first_colon(s) < s.len() {
        s.skip(first_colon(s) + 1)
    } else {
        Seq::empty()
    }
}

fn find_colon(s: &str) -> (r: usize)
    ensures
        r == first_colon(s@),
{
    let ghost whole = s@;
    let len = s.unicode_len();
    proof {
        assert(whole.skip(0) =~= whole);
    }
    let mut i: usize = 0;
    while i < len
        invariant
            whole == s@,
            len == s@.len(),
            0 <= i <= len,
            first_colon(whole) == i + first_colon(whole.skip(i as int)),
            forall|j: int| 0 <= j < i ==> whole[j] != ':',
        decreases len - i,
    {
        let ghost rest = whole.skip(i as int);
        proof {
            assert(rest[0] == whole[i as int]);
            assert(rest.drop_first() =~= whole.skip(i + 1));
        }
        if s.get_char(i) == ':' {
            return i;
        }
        i = i + 1;
    }
    proof {
        assert(whole.skip(len as int) =~= Seq::<char>::empty());
    }
    len
}

/// Whether the `Authorization` header carries `Basic` credentials matching
/// the expected user and password.
pub open spec fn basic_auth_passes(
    h: Seq<(String, String)>,
    user: Seq<char>,
    pass: Seq<char>,
) -> bool {
    match header_get_model(h, "authorization"@) {
        Some(a) => crate::patterns::is_prefix("Basic "@, a) && (match b64std_decode_of(
            a.skip(6),
        ) {
            Some(bytes) => match utf8_chars_of(bytes) {
                Some(cred) => auth_user(cred) == user && auth_pass(cred) == pass,
                None => false,
            },
            None => false,
        }),
        None => false,
    }
}

/// Whether the context's `Authorization` header carries matching `Basic`
/// credentials.
pub fn check_basic_auth(
    headers: &Vec<(String, String)>,
    expected_user: &str,
    expected_pass: &str,
) -> (r: bool)
    requires
        headers_wf(headers@),
    ensures
        r == basic_auth_passes(headers@, expected_user@, expected_pass@),
{
    proof {
        reveal_strlit("Basic ");
    }
    let auth = match headers_get(headers, "authorization") {
        Some(a) => a,
        None => {
            return false;
        },
    };
    if !crate::patterns::starts_with_str(auth.as_str(), "Basic ") {
        return false;
    }
    let alen = auth.as_str().unicode_len();
    let b64part = auth.as_str().substring_char(6, alen);
    proof {
        assert(b64part@ =~= auth@.skip(6));
    }
    let bytes = match b64std_decode(b64part) {
        Some(b) => b,
        None => {
            return false;
        },
    };
    let cred = match bytes_to_string(bytes) {
        Some(c) => c,
        None => {
            return false;
        },
    };
    let clen = cred.as_str().unicode_len();
    let fc = find_colon(cred.as_str());
    proof {
        lemma_first_colon_bounds(cred@);
    }
    let u = cred.as_str().substring_char(0, fc);
    proof {
        assert(u@ =~= auth_user(cred@));
    }
    if !crate::kv::str_eq(u, expected_user) {
        return false;
    }
    if fc < clen {
        let p = cred.as_str().substring_char(fc + 1, clen);
        proof {
            assert(p@ =~= auth_pass(cred@));
        }
        crate::kv::str_eq(p, expected_pass)
    } else {
        proof {
            assert(auth_pass(cred@) =~= Seq::<char>::empty());
        }
        let r = expected_pass.unicode_len() == 0;
        proof {
            if expected_pass@.len() == 0 {
                assert(expected_pass@ =~= Seq::<char>::empty());
            }
        }
        r
    }
}

/// Sets `access-control-allow-origin` from the configuration, `*` by
/// default.
#[derive(Debug)]
pub struct Cors;

/// Sets the configured status and body and thereby short-circuits the
/// pre-phase chain.
#[derive(Debug)]
pub struct RequestTermination;

/// Reports the request to a configured endpoint; the network send itself
/// happens outside the verified core.
#[derive(Debug)]
pub struct HttpLog;

/// Compares the `Authorization: Basic` header against the configured
/// credentials and answers 401 on failure.
#[derive(Debug)]
pub struct BasicAuth;

/// Inserts the standard security response headers.
#[derive(Debug)]
pub struct SecurityHeadersPlugin;


/// The effect of one `cors` application: the allow-origin header bound to
/// the configured origin, everything else untouched.
pub open spec fn cors_rel(cfg: Option<KvValue>, a: RequestContext, b: RequestContext) -> bool {
    &&& b.wf()
    &&& header_get_model(b.headers@, "access-control-allow-origin"@) == Some(
        cfg_str(cfg, "allow_origin"@, "*"@),
    )
    &&& forall|k2: Seq<char>|
        lower_seq(k2) != lower_seq("access-control-allow-origin"@) ==> header_get_model(
            b.headers@,
            k2,
        ) == header_get_model(a.headers@, k2)
    &&& b == (RequestContext { headers: b.headers, ..a })
}

/// The effect of one `request_termination` application: when enabled, the
/// configured status and body; otherwise nothing.
pub open spec fn termination_rel(cfg: Option<KvValue>, a: RequestContext, b: RequestContext) -> bool {
    &&& b.wf()
    &&& (!cfg_bool(cfg, "enabled"@, false) ==> b == a)
    &&& (cfg_bool(cfg, "enabled"@, false) ==> {
        &&& b.status == Some(cfg_status(cfg))
        &&& b.body@ == utf8_bytes_of(cfg_str(cfg, "body"@, "Request terminated"@))
        &&& b == (RequestContext { status: Some(cfg_status(cfg)), body: b.body, ..a })
    })
}

/// The effect of one `http_log` application on the context: none — the
/// report itself is fired outside the verified core against the endpoint
/// the configuration names.
pub open spec fn log_rel(cfg: Option<KvValue>, a: RequestContext, b: RequestContext) -> bool {
    &&& b.wf()
    &&& b == a
}

/// The effect of one `basic_auth` application: untouched without a
/// configured user or with matching credentials, else 401 with the
/// configured message.
pub open spec fn auth_rel(cfg: Option<KvValue>, a: RequestContext, b: RequestContext) -> bool {
    &&& b.wf()
    &&& (cfg_str(cfg, "user"@, Seq::empty()).len() == 0 ==> b == a)
    &&& ((cfg_str(cfg, "user"@, Seq::empty()).len() > 0 && basic_auth_passes(
        a.headers@,
        cfg_str(cfg, "user"@, Seq::empty()),
        cfg_str(cfg, "pass"@, Seq::empty()),
    )) ==> b == a)
    &&& ((cfg_str(cfg, "user"@, Seq::empty()).len() > 0 && !basic_auth_passes(
        a.headers@,
        cfg_str(cfg, "user"@, Seq::empty()),
        cfg_str(cfg, "pass"@, Seq::empty()),
    )) ==> {
        &&& b.status == Some(401u16)
        &&& b.body@ == utf8_bytes_of(cfg_str(cfg, "message"@, "Unauthorized request: Failed"@))
        &&& b == (RequestContext { status: Some(401u16), body: b.body, ..a })
    })
}

/// The effect of one `security_headers` application: the three standard
/// security headers bound, everything else untouched.
pub open spec fn security_rel(cfg: Option<KvValue>, a: RequestContext, b: RequestContext) -> bool {
    &&& b.wf()
    &&& header_get_model(b.headers@, "x-content-type-options"@) == Some("nosniff"@)
    &&& header_get_model(b.headers@, "x-frame-options"@) == Some("DENY"@)
    &&& header_get_model(b.headers@, "strict-transport-security"@) == Some(
        "max-age=63072000; includeSubDomains; preload"@,
    )
    &&& forall|k2: Seq<char>|
        lower_seq(k2) != lower_seq("x-content-type-options"@) && lower_seq(k2) != lower_seq(
            "x-frame-options"@,
        ) && lower_seq(k2) != lower_seq("strict-transport-security"@) ==> header_get_model(
            b.headers@,
            k2,
        ) == header_get_model(a.headers@, k2)
    &&& b == (RequestContext { headers: b.headers, ..a })
}

impl Cors {
    /// The stable plugin name.
    pub fn name(&self) -> (r: String)
        ensures
            r@ == "cors"@,
    {
        String::from_str("cors")
    }

    /// The default phase.
    pub fn phase(&self) -> (r: Phase)
        ensures
            r == Phase::Pre,
    {
        Phase::Pre
    }

    /// Bind `access-control-allow-origin` to the configured origin.
    pub fn apply(&self, ctx: &mut RequestContext, cfg: &Option<KvValue>) -> (r: Result<
        (),
        PluginError,
    >)
        requires
            old(ctx).wf(),
        ensures
            final(ctx).wf(),
            r == Ok::<(), PluginError>(()),
            header_get_model(final(ctx).headers@, "access-control-allow-origin"@) == Some(
                cfg_str(*cfg, "allow_origin"@, "*"@),
            ),
            forall|k2: Seq<char>|
                lower_seq(k2) != lower_seq("access-control-allow-origin"@) ==> header_get_model(
                    final(ctx).headers@,
                    k2,
                ) == header_get_model(old(ctx).headers@, k2),
            *final(ctx) == (RequestContext { headers: final(ctx).headers, ..*old(ctx) }),
            cors_rel(*cfg, *old(ctx), *final(ctx)),
    {
        let origin = cfg_get_str(cfg, "allow_origin", "*");
        ctx.header_put("access-control-allow-origin", origin);
        Ok(())
    }
}

impl RequestTermination {
    /// The stable plugin name.
    pub fn name(&self) -> (r: String)
        ensures
            r@ == "request_termination"@,
    {
        String::from_str("request_termination")
    }

    /// The default phase.
    pub fn phase(&self) -> (r: Phase)
        ensures
            r == Phase::Pre,
    {
        Phase::Pre
    }

    /// When enabled, set the configured status and body; the pre-phase chain
    /// then short-circuits and the upstream is never contacted.
    pub fn apply(&self, ctx: &mut RequestContext, cfg: &Option<KvValue>) -> (r: Result<
        (),
        PluginError,
    >)
        requires
            old(ctx).wf(),
        ensures
            final(ctx).wf(),
            r == Ok::<(), PluginError>(()),
            !cfg_bool(*cfg, "enabled"@, false) ==> *final(ctx) == *old(ctx),
            cfg_bool(*cfg, "enabled"@, false) ==> {
                &&& final(ctx).status == Some(cfg_status(*cfg))
                &&& final(ctx).body@ == utf8_bytes_of(
                    cfg_str(*cfg, "body"@, "Request terminated"@),
                )
                &&& *final(ctx) == (RequestContext {
                    status: Some(cfg_status(*cfg)),
                    body: final(ctx).body,
                    ..*old(ctx)
                })
            },
            termination_rel(*cfg, *old(ctx), *final(ctx)),
    {
        if cfg_get_bool(cfg, "enabled", false) {
            let st = cfg_get_status(cfg);
            ctx.set_status(st);
            let body = cfg_get_str(cfg, "body", "Request terminated");
            ctx.set_body(string_to_bytes(body.as_str()));
        }
        Ok(())
    }
}

impl HttpLog {
    /// The stable plugin name.
    pub fn name(&self) -> (r: String)
        ensures
            r@ == "http_log"@,
    {
        String::from_str("http_log")
    }

    /// The default phase.
    pub fn phase(&self) -> (r: Phase)
        ensures
            r == Phase::Post,
    {
        Phase::Post
    }

    /// The context is left untouched; the asynchronous report is fired
    /// outside the verified core, against the endpoint this configuration
    /// names.
    pub fn apply(&self, ctx: &mut RequestContext, cfg: &Option<KvValue>) -> (r: Result<
        (),
        PluginError,
    >)
        requires
            old(ctx).wf(),
        ensures
            final(ctx).wf(),
            r == Ok::<(), PluginError>(()),
            *final(ctx) == *old(ctx),
            log_rel(*cfg, *old(ctx), *final(ctx)),
    {
        let _ = cfg;
        Ok(())
    }
}

/// The endpoint an `http_log` configuration names, if any.
pub fn http_log_endpoint(cfg: &Option<KvValue>) -> (r: Option<String>)
    ensures
        match r {
            Some(e) => (match *cfg {
                Some(KvValue::Obj(fields)) => obj_get(fields@, "endpoint"@) matches Some(
                    KvValue::Str(s),
                ) && s@ == e@,
                _ => false,
            }),
            None => (match *cfg {
                Some(KvValue::Obj(fields)) => !(obj_get(fields@, "endpoint"@) matches Some(
                    KvValue::Str(_),
                )),
                _ => true,
            }),
        },
{
    match cfg {
        Some(KvValue::Obj(fields)) => match crate::value::obj_find(fields, "endpoint") {
            Some(KvValue::Str(s)) => Some(clone_string(s)),
            _ => None,
        },
        _ => None,
    }
}

impl BasicAuth {
    /// The stable plugin name.
    pub fn name(&self) -> (r: String)
        ensures
            r@ == "basic_auth"@,
    {
        String::from_str("basic_auth")
    }

    /// The default phase.
    pub fn phase(&self) -> (r: Phase)
        ensures
            r == Phase::Pre,
    {
        Phase::Pre
    }

    /// With no configured user the request passes untouched; otherwise the
    /// `Authorization: Basic` header must match the configured credentials,
    /// and on failure the response becomes 401 with the configured message.
    pub fn apply(&self, ctx: &mut RequestContext, cfg: &Option<KvValue>) -> (r: Result<
        (),
        PluginError,
    >)
        requires
            old(ctx).wf(),
        ensures
            final(ctx).wf(),
            r == Ok::<(), PluginError>(()),
            cfg_str(*cfg, "user"@, Seq::empty()).len() == 0 ==> *final(ctx) == *old(ctx),
            (cfg_str(*cfg, "user"@, Seq::empty()).len() > 0 && basic_auth_passes(
                old(ctx).headers@,
                cfg_str(*cfg, "user"@, Seq::empty()),
                cfg_str(*cfg, "pass"@, Seq::empty()),
            )) ==> *final(ctx) == *old(ctx),
            (cfg_str(*cfg, "user"@, Seq::empty()).len() > 0 && !basic_auth_passes(
                old(ctx).headers@,
                cfg_str(*cfg, "user"@, Seq::empty()),
                cfg_str(*cfg, "pass"@, Seq::empty()),
            )) ==> {
                &&& final(ctx).status == Some(401u16)
                &&& final(ctx).body@ == utf8_bytes_of(
                    cfg_str(*cfg, "message"@, "Unauthorized request: Failed"@),
                )
                &&& *final(ctx) == (RequestContext {
                    status: Some(401u16),
                    body: final(ctx).body,
                    ..*old(ctx)
                })
            },
            auth_rel(*cfg, *old(ctx), *final(ctx)),
    {
        let expected_user = cfg_get_str(cfg, "user", "");
        let expected_pass = cfg_get_str(cfg, "pass", "");
        proof {
            reveal_strlit("");
            assert(""@ =~= Seq::<char>::empty());
        }
        if expected_user.as_str().unicode_len() == 0 {
            return Ok(());
        }
        if check_basic_auth(&ctx.headers, expected_user.as_str(), expected_pass.as_str()) {
            return Ok(());
        }
        ctx.set_status(401);
        let msg = cfg_get_str(cfg, "message", "Unauthorized request: Failed");
        ctx.set_body(string_to_bytes(msg.as_str()));
        Ok(())
    }
}

impl SecurityHeadersPlugin {
    /// The stable plugin name.
    pub fn name(&self) -> (r: String)
        ensures
            r@ == "security_headers"@,
    {
        String::from_str("security_headers")
    }

    /// The default phase.
    pub fn phase(&self) -> (r: Phase)
        ensures
            r == Phase::Post,
    {
        Phase::Post
    }

    /// Insert the three standard security headers; every other header keeps
    /// its value.
    pub fn apply(&self, ctx: &mut RequestContext, cfg: &Option<KvValue>) -> (r: Result<
        (),
        PluginError,
    >)
        requires
            old(ctx).wf(),
        ensures
            final(ctx).wf(),
            r == Ok::<(), PluginError>(()),
            header_get_model(final(ctx).headers@, "x-content-type-options"@) == Some("nosniff"@),
            header_get_model(final(ctx).headers@, "x-frame-options"@) == Some("DENY"@),
            header_get_model(final(ctx).headers@, "strict-transport-security"@) == Some(
                "max-age=63072000; includeSubDomains; preload"@,
            ),
            forall|k2: Seq<char>|
                lower_seq(k2) != lower_seq("x-content-type-options"@) && lower_seq(k2) != lower_seq(
                    "x-frame-options"@,
                ) && lower_seq(k2) != lower_seq("strict-transport-security"@)
                    ==> header_get_model(final(ctx).headers@, k2) == header_get_model(
                    old(ctx).headers@,
                    k2,
                ),
            *final(ctx) == (RequestContext { headers: final(ctx).headers, ..*old(ctx) }),
            security_rel(*cfg, *old(ctx), *final(ctx)),
    {
        let _ = cfg;
        proof {
            reveal_strlit("x-content-type-options");
            reveal_strlit("x-frame-options");
            reveal_strlit("strict-transport-security");
        }
        ctx.header_put("x-content-type-options", String::from_str("nosniff"));
        ctx.header_put("x-frame-options", String::from_str("DENY"));
        ctx.header_put(
            "strict-transport-security",
            String::from_str("max-age=63072000; includeSubDomains; preload"),
        );
        proof {
            assert(lower_seq("x-content-type-options"@).len() == 22);
            assert(lower_seq("x-frame-options"@).len() == 15);
            assert(lower_seq("strict-transport-security"@).len() == 25);
        }
        Ok(())
    }
}

/// One of the built-in plugin implementations.
#[derive(Debug)]
pub enum PluginImpl {
    Cors(Cors),
    Termination(RequestTermination),
    Log(HttpLog),
    Auth(BasicAuth),
    Security(SecurityHeadersPlugin),
}

/// The stable name of a built-in.
pub open spec fn plugin_spec_name(p: PluginImpl) -> Seq<char> {
    match p {
        PluginImpl::Cors(_) => "cors"@,
        PluginImpl::Termination(_) => "request_termination"@,
        PluginImpl::Log(_) => "http_log"@,
        PluginImpl::Auth(_) => "basic_auth"@,
        PluginImpl::Security(_) => "security_headers"@,
    }
}

/// The default phase of a built-in.
pub open spec fn plugin_spec_phase(p: PluginImpl) -> Phase {
    match p {
        PluginImpl::Cors(_) => Phase::Pre,
        PluginImpl::Termination(_) => Phase::Pre,
        PluginImpl::Log(_) => Phase::Post,
        PluginImpl::Auth(_) => Phase::Pre,
        PluginImpl::Security(_) => Phase::Post,
    }
}

impl PluginImpl {
    /// The stable name.
    pub fn name(&self) -> (r: String)
        ensures
            r@ == plugin_spec_name(*self),
    {
        match self {
            PluginImpl::Cors(p) => p.name(),
            PluginImpl::Termination(p) => p.name(),
            PluginImpl::Log(p) => p.name(),
            PluginImpl::Auth(p) => p.name(),
            PluginImpl::Security(p) => p.name(),
        }
    }

    /// The default phase.
    pub fn phase(&self) -> (r: Phase)
        ensures
            r == plugin_spec_phase(*self),
    {
        match self {
            PluginImpl::Cors(p) => p.phase(),
            PluginImpl::Termination(p) => p.phase(),
            PluginImpl::Log(p) => p.phase(),
            PluginImpl::Auth(p) => p.phase(),
            PluginImpl::Security(p) => p.phase(),
        }
    }
}

/// The built-in plugin catalog, in its fixed order.
pub fn builtin() -> (r: Vec<PluginImpl>)
    ensures
        r@.len() == 5,
        r@[0] is Cors,
        r@[1] is Termination,
        r@[2] is Log,
        r@[3] is Auth,
        r@[4] is Security,
{
    let mut v: Vec<PluginImpl> = Vec::new();
    v.push(PluginImpl::Cors(Cors));
    v.push(PluginImpl::Termination(RequestTermination));
    v.push(PluginImpl::Log(HttpLog));
    v.push(PluginImpl::Auth(BasicAuth));
    v.push(PluginImpl::Security(SecurityHeadersPlugin));
    v
}

/// Which built-in answers to a plugin name in a phase: the first registry
/// entry bearing both.
pub open spec fn registry_find(reg: Seq<PluginImpl>, name: Seq<char>, phase: Phase) -> Option<
    PluginImpl,
>
    decreases reg.len(),
{
    if reg.len() == 0 {
        None
    } else if plugin_spec_name(reg[0]) == name && plugin_spec_phase(reg[0]) == phase {
        Some(reg[0])
    } else {
        registry_find(reg.drop_first(), name, phase)
    }
}

/// The effect of one built-in application, by variant.
pub open spec fn plugin_rel(
    p: PluginImpl,
    cfg: Option<KvValue>,
    a: RequestContext,
    b: RequestContext,
) -> bool {
    match p {
        PluginImpl::Cors(_) => cors_rel(cfg, a, b),
        PluginImpl::Termination(_) => termination_rel(cfg, a, b),
        PluginImpl::Log(_) => log_rel(cfg, a, b),
        PluginImpl::Auth(_) => auth_rel(cfg, a, b),
        PluginImpl::Security(_) => security_rel(cfg, a, b),
    }
}

/// What one phase of the chain does: the entries are taken in order; an
/// entry whose name a registered implementation of this phase bears is
/// applied with its configuration, with that plugin's specified effect; any
/// other entry is skipped; and after a pre-phase application that leaves a
/// status set, the rest of the chain does not run.
pub open spec fn chain_rel(
    reg: Seq<PluginImpl>,
    phase: Phase,
    list: Seq<Arc<AppliedPlugin>>,
    a: RequestContext,
    b: RequestContext,
) -> bool
    decreases list.len(),
{
    if list.len() == 0 {
        b == a
    } else {
        match registry_find(reg, (*list[0]).name@, phase) {
            None => chain_rel(reg, phase, list.drop_first(), a, b),
            Some(p) => exists|mid: RequestContext|
                {
                    &&& #[trigger] plugin_rel(p, (*list[0]).config, a, mid)
                    &&& if phase == Phase::Pre && mid.status is Some {
                        b == mid
                    } else {
                        chain_rel(reg, phase, list.drop_first(), mid, b)
                    }
                },
        }
    }
}

fn find_plugin<'a>(registry: &'a Vec<PluginImpl>, name: &str, phase: Phase) -> (r: Option<
    &'a PluginImpl,
>)
    ensures
        match r {
            Some(p) => registry_find(registry@, name@, phase) == Some(*p) && plugin_spec_name(*p)
                == name@ && plugin_spec_phase(*p) == phase,
            None => (registry_find(registry@, name@, phase) is None),
        },
{
    let ghost whole = registry@;
    proof {
        assert(whole.subrange(0, whole.len() as int) =~= whole);
    }
    let mut i: usize = 0;
    while i < registry.len()
        invariant
            whole == registry@,
            0 <= i <= whole.len(),
            registry_find(whole, name@, phase) == registry_find(
                whole.subrange(i as int, whole.len() as int),
                name@,
                phase,
            ),
        decreases whole.len() - i,
    {
        let ghost rest = whole.subrange(i as int, whole.len() as int);
        proof {
            assert(rest[0] == whole[i as int]);
            assert(rest.drop_first() =~= whole.subrange(i + 1, whole.len() as int));
        }
        let p = &registry[i];
        let pname = p.name();
        if crate::kv::str_eq(pname.as_str(), name) && p.phase() == phase {
            return Some(p);
        }
        i = i + 1;
    }
    proof {
        assert(whole.subrange(whole.len() as int, whole.len() as int) =~= Seq::<
            PluginImpl,
        >::empty());
    }
    None
}

/// Apply one built-in to the context, with that plugin's specified effect.
pub fn apply_plugin(p: &PluginImpl, ctx: &mut RequestContext, cfg: &Option<KvValue>) -> (r: Result<
    (),
    PluginError,
>)
    requires
        old(ctx).wf(),
    ensures
        final(ctx).wf(),
        r == Ok::<(), PluginError>(()),
        plugin_rel(*p, *cfg, *old(ctx), *final(ctx)),
{
    match p {
        PluginImpl::Cors(b) => b.apply(ctx, cfg),
        PluginImpl::Termination(b) => b.apply(ctx, cfg),
        PluginImpl::Log(b) => b.apply(ctx, cfg),
        PluginImpl::Auth(b) => b.apply(ctx, cfg),
        PluginImpl::Security(b) => b.apply(ctx, cfg),
    }
}

/// Execute one phase of the chain over the applied-plugin list, in order:
/// exactly as `chain_rel` states, each entry whose name a registered
/// implementation of this phase bears is applied with that plugin's
/// specified effect, every other entry is skipped, and after a pre-phase
/// application that leaves a status set, the rest of the chain is skipped.
/// The request identity (id, method, uri, path, query) is never touched; a
/// status once set stays set; the post phase never changes the status.
pub fn run_plugins(
    registry: &Vec<PluginImpl>,
    phase: Phase,
    ctx: &mut RequestContext,
    list: &Vec<Arc<AppliedPlugin>>,
)
    requires
        old(ctx).wf(),
    ensures
        final(ctx).wf(),
        chain_rel(registry@, phase, list@, *old(ctx), *final(ctx)),
        final(ctx).id == old(ctx).id,
        final(ctx).method == old(ctx).method,
        final(ctx).uri == old(ctx).uri,
        final(ctx).path == old(ctx).path,
        final(ctx).query == old(ctx).query,
        (old(ctx).status is Some) ==> (final(ctx).status is Some),
        phase == Phase::Post ==> final(ctx).status == old(ctx).status,
{
    proof {
        assert(list@.skip(0) =~= list@);
    }
    let mut ai: usize = 0;
    while ai < list.len()
        invariant
            ctx.wf(),
            ctx.id == old(ctx).id,
            ctx.method == old(ctx).method,
            ctx.uri == old(ctx).uri,
            ctx.path == old(ctx).path,
            ctx.query == old(ctx).query,
            (old(ctx).status is Some) ==> (ctx.status is Some),
            phase == Phase::Post ==> ctx.status == old(ctx).status,
            0 <= ai <= list@.len(),
            forall|c2: RequestContext|
                #![trigger chain_rel(registry@, phase, list@.skip(ai as int), *ctx, c2)]
                chain_rel(registry@, phase, list@.skip(ai as int), *ctx, c2) ==> chain_rel(
                    registry@,
                    phase,
                    list@,
                    *old(ctx),
                    c2,
                ),
        decreases list@.len() - ai,
    {
        let ghost pre = *ctx;
        let ghost rem = list@.skip(ai as int);
        proof {
            assert(rem[0] == list@[ai as int]);
            assert(rem.drop_first() =~= list@.skip(ai + 1));
        }
        let ap = &list[ai];
        match find_plugin(registry, ap.name.as_str(), phase) {
            None => {
                proof {
                    assert forall|c2: RequestContext|
                        #![trigger chain_rel(registry@, phase, list@.skip(ai + 1), *ctx, c2)]
                        chain_rel(registry@, phase, list@.skip(ai + 1), *ctx, c2) implies chain_rel(
                        registry@,
                        phase,
                        list@,
                        *old(ctx),
                        c2,
                    ) by {
                        assert(chain_rel(registry@, phase, rem, pre, c2));
                    }
                }
            },
            Some(p) => {
                let _ = apply_plugin(p, ctx, &ap.config);
                let ghost mid = *ctx;
                let stop = match (phase, &ctx.status) {
                    (Phase::Pre, Some(_)) => true,
                    _ => false,
                };
                if stop {
                    proof {
                        assert(plugin_rel(*p, (*list@[ai as int]).config, pre, mid));
                        assert(chain_rel(registry@, phase, rem, pre, mid));
                    }
                    return ;
                }
                proof {
                    assert(plugin_rel(*p, (*list@[ai as int]).config, pre, mid));
                    assert forall|c2: RequestContext|
                        #![trigger chain_rel(registry@, phase, list@.skip(ai + 1), *ctx, c2)]
                        chain_rel(registry@, phase, list@.skip(ai + 1), *ctx, c2) implies chain_rel(
                        registry@,
                        phase,
                        list@,
                        *old(ctx),
                        c2,
                    ) by {
                        assert(chain_rel(registry@, phase, rem, pre, c2));
                    }
                }
            },
        }
        ai = ai + 1;
    }
    proof {
        assert(list@.skip(list@.len() as int) =~= Seq::<Arc<AppliedPlugin>>::empty());
        assert(chain_rel(registry@, phase, list@.skip(list@.len() as int), *ctx, *ctx));
    }
}

} // verus!
