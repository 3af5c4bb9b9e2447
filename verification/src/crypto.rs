//! The gateway's data-scrambling helpers: a machine-bound key derivation
//! over SHA-256, URL-safe unpadded base64 coding, an HMAC-derived salt, and
//! the salted encode/decode pair applied to credential maps.

use vstd::prelude::*;

use crate::plugins::{string_to_bytes, utf8_bytes_of, utf8_chars_of};
use crate::value::clone_string;

verus! {

/// The SHA-256 digest of a byte sequence: a function of the bytes alone,
/// 32 bytes long.
pub uninterp spec fn sha256_of(b: Seq<u8>) -> Seq<u8>;

/// Relies on `sha2::Sha256`: the digest depends on the bytes alone and is
/// 32 bytes long.
#[verifier::external_body]
fn sha256(b: &[u8]) -> (r: Vec<u8>)
    ensures
        r@ == sha256_of(b@),
        r@.len() == 32,
{
    <sha2::Sha256 as sha2::Digest>::digest(b).to_vec()
}

/// The HMAC-SHA-256 tag over a key and a message: a function of both alone,
/// 32 bytes long.
pub uninterp spec fn hmac_sha256_of(key: Seq<u8>, msg: Seq<u8>) -> Seq<u8>;

/// Relies on `hmac::Hmac` over SHA-256: the tag depends on the key and the
/// message alone; a key of any length is accepted.
#[verifier::external_body]
fn hmac_sha256(key: &[u8], msg: &[u8]) -> (r: Vec<u8>)
    ensures
        r@ == hmac_sha256_of(key@, msg@),
        r@.len() == 32,
{
    match <hmac::Hmac<sha2::Sha256> as hmac::KeyInit>::new_from_slice(key) {
        Ok(mut mac) => {
            hmac::Mac::update(&mut mac, msg);
            hmac::Mac::finalize(mac).into_bytes().to_vec()
        },
        Err(_) => Vec::new(),
    }
}

/// The URL-safe unpadded base64 text of a byte sequence: a function of the
/// bytes alone, empty exactly for empty input.
pub uninterp spec fn b64url_of(b: Seq<u8>) -> Seq<char>;

/// Relies on `base64` URL-safe unpadded encoding: the text depends on the
/// bytes alone, four characters for every three bytes, rounded up without
/// padding.
#[verifier::external_body]
fn b64url_encode_raw(b: &[u8]) -> (r: String)
    ensures
        r@ == b64url_of(b@),
        r@.len() == (4 * b@.len() + 2) / 3,
{
    base64::Engine::encode(&base64::engine::general_purpose::URL_SAFE_NO_PAD, b)
}

/// What URL-safe unpadded base64 decoding returns: a function of the text
/// alone, rejecting invalid text.
pub uninterp spec fn b64url_decode_of(s: Seq<char>) -> Option<Seq<u8>>;

/// Relies on `base64` URL-safe unpadded decoding: the result depends on the
/// text alone.
#[verifier::external_body]
fn b64url_decode_raw(s: &str) -> (r: Option<Vec<u8>>)
    ensures
        match r {
            Some(b) => b64url_decode_of(s@) == Some(b@),
            None => (b64url_decode_of(s@) is None),
        },
{
    match base64::Engine::decode(&base64::engine::general_purpose::URL_SAFE_NO_PAD, s) {
        Ok(b) => Some(b),
        Err(_) => None,
    }
}

/// Whether a character survives `remove_special_characters`: letters,
/// digits, and spaces.
pub open spec fn is_plain_char(c: char) -> bool {
    ('a' <= c && c <= 'z') || ('A' <= c && c <= 'Z') || ('0' <= c && c <= '9') || c == ' '
}

/// The predicate selecting plain characters.
pub open spec fn plain_pred() -> spec_fn(char) -> bool {
    |c: char| is_plain_char(c)
}

fn is_plain(c: char) -> (r: bool)
    ensures
        r == is_plain_char(c),
{
    ('a' <= c && c <= 'z') || ('A' <= c && c <= 'Z') || ('0' <= c && c <= '9') || c == ' '
}

/// Remove every character that is not a letter, a digit or a space.
pub fn remove_special_characters(text: &str) -> (r: String)
    ensures
        r@ == text@.filter(plain_pred()),
{
    broadcast use Seq::<_>::lemma_filter_push;

    let len = text.unicode_len();
    let mut out = String::new();
    let mut i: usize = 0;
    proof {
        assert(text@.subrange(0, 0) =~= Seq::<char>::empty());
        assert(Seq::<char>::empty().filter(plain_pred()) =~= Seq::<char>::empty());
    }
    while i < len
        invariant
            len == text@.len(),
            0 <= i <= len,
            out@ == text@.subrange(0, i as int).filter(plain_pred()),
        decreases len - i,
    {
        let ghost prefix = text@.subrange(0, i as int);
        proof {
            assert(text@.subrange(0, i + 1) =~= prefix.push(text@[i as int]));
            prefix.lemma_filter_push(text@[i as int], plain_pred());
        }
        let piece = text.substring_char(i, i + 1);
        proof {
            assert(piece@ =~= seq![text@[i as int]]);
        }
        if is_plain(text.get_char(i)) {
            out.append(piece);
            proof {
                assert(out@ =~= prefix.filter(plain_pred()).push(text@[i as int]));
            }
        }
        i = i + 1;
    }
    proof {
        assert(text@.subrange(0, len as int) =~= text@);
    }
    out
}

/// The characters of `s` that are not `a`, `b` or `c`.
pub open spec fn drop_chars_pred(a: char, b: char, c: char) -> spec_fn(char) -> bool {
    |x: char| x != a && x != b && x != c
}

fn drop_chars(s: &str, a: char, b: char, c: char) -> (r: String)
    ensures
        r@ == s@.filter(drop_chars_pred(a, b, c)),
{
    broadcast use Seq::<_>::lemma_filter_push;

    let len = s.unicode_len();
    let mut out = String::new();
    let mut i: usize = 0;
    proof {
        assert(s@.subrange(0, 0) =~= Seq::<char>::empty());
        assert(Seq::<char>::empty().filter(drop_chars_pred(a, b, c)) =~= Seq::<char>::empty());
    }
    while i < len
        invariant
            len == s@.len(),
            0 <= i <= len,
            out@ == s@.subrange(0, i as int).filter(drop_chars_pred(a, b, c)),
        decreases len - i,
    {
        let ghost prefix = s@.subrange(0, i as int);
        proof {
            assert(s@.subrange(0, i + 1) =~= prefix.push(s@[i as int]));
            prefix.lemma_filter_push(s@[i as int], drop_chars_pred(a, b, c));
        }
        let piece = s.substring_char(i, i + 1);
        proof {
            assert(piece@ =~= seq![s@[i as int]]);
        }
        let ch = s.get_char(i);
        if ch != a && ch != b && ch != c {
            out.append(piece);
            proof {
                assert(out@ =~= prefix.filter(drop_chars_pred(a, b, c)).push(s@[i as int]));
            }
        }
        i = i + 1;
    }
    proof {
        assert(s@.subrange(0, len as int) =~= s@);
    }
    out
}

/// `s` with every non-overlapping occurrence of the non-empty pattern
/// removed, scanning left to right; an empty pattern removes nothing.
pub open spec fn remove_all(s: Seq<char>, pat: Seq<char>) -> Seq<char>
    decreases s.len(),
{
    if pat.len() == 0 {
        s
    } else if s.len() < pat.len() {
        s
    } else if crate::patterns::is_prefix(pat, s) {
        remove_all(s.skip(pat.len() as int), pat)
    } else {
        seq![s[0]] + remove_all(s.drop_first(), pat)
    }
}

/// Remove every occurrence of `pat` from `s`, left to right.
pub fn remove_all_occurrences(s: &str, pat: &str) -> (r: String)
    ensures
        r@ == remove_all(s@, pat@),
{
    let ghost whole = s@;
    let len = s.unicode_len();
    let plen = pat.unicode_len();
    if plen == 0 {
        return s.to_owned();
    }
    let mut out = String::new();
    let mut i: usize = 0;
    proof {
        assert(whole.skip(0) =~= whole);
        assert(out@ + remove_all(whole.skip(0), pat@) =~= remove_all(whole, pat@));
    }
    while i < len
        invariant
            whole == s@,
            len == s@.len(),
            plen == pat@.len(),
            plen > 0,
            0 <= i <= len,
            remove_all(whole, pat@) == out@ + remove_all(whole.skip(i as int), pat@),
        decreases len - i,
    {
        let ghost rest = whole.skip(i as int);
        let suffix = s.substring_char(i, len);
        proof {
            assert(suffix@ =~= rest);
        }
        if len - i >= plen && crate::patterns::starts_with_str(suffix, pat) {
            proof {
                assert(remove_all(rest, pat@) == remove_all(rest.skip(plen as int), pat@));
                assert(rest.skip(plen as int) =~= whole.skip(i + plen));
            }
            i = i + plen;
        } else {
            let piece = s.substring_char(i, i + 1);
            proof {
                assert(piece@ =~= seq![whole[i as int]]);
                if rest.len() < pat@.len() {
                } else {
                    assert(rest[0] == whole[i as int]);
                    assert(rest.drop_first() =~= whole.skip(i + 1));
                    assert(remove_all(rest, pat@) == seq![rest[0]] + remove_all(
                        whole.skip(i + 1),
                        pat@,
                    ));
                }
                assert(rest.len() < pat@.len() ==> i + 1 > len - plen);
            }
            if len - i < plen {
                out.append(suffix);
                proof {
                    assert(remove_all(rest, pat@) == rest);
                    assert(out@ =~= remove_all(whole, pat@));
                    assert(whole.skip(len as int) =~= Seq::<char>::empty());
                    assert(remove_all(whole.skip(len as int), pat@) =~= Seq::<char>::empty());
                    assert(out@ + remove_all(whole.skip(len as int), pat@) =~= remove_all(
                        whole,
                        pat@,
                    ));
                }
                i = len;
            } else {
                out.append(piece);
                proof {
                    assert(out@ + remove_all(whole.skip(i + 1), pat@) =~= remove_all(
                        whole,
                        pat@,
                    ));
                }
                i = i + 1;
            }
        }
    }
    proof {
        assert(whole.skip(len as int) =~= Seq::<char>::empty());
        assert(remove_all(whole.skip(len as int), pat@) =~= Seq::<char>::empty());
        assert(out@ =~= remove_all(whole, pat@));
    }
    out
}

/// URL-safe unpadded base64 of a string's bytes.
pub fn b64_encode_nopad(data: &str) -> (r: String)
    ensures
        r@ == b64url_of(utf8_bytes_of(data@)),
{
    let bytes = string_to_bytes(data);
    b64url_encode_raw(bytes.as_slice())
}

/// URL-safe unpadded base64 decoding; invalid text decodes to nothing.
pub fn b64_decode_nopad(data: &str) -> (r: Vec<u8>)
    ensures
        match b64url_decode_of(data@) {
            Some(b) => r@ == b,
            None => r@ == Seq::<u8>::empty(),
        },
{
    match b64url_decode_raw(data) {
        Some(b) => b,
        None => {
            let r: Vec<u8> = Vec::new();
            proof {
                assert(r@ =~= Seq::<u8>::empty());
            }
            r
        },
    }
}

/// The salt a key derives: the HMAC of the key's bytes over its decoded
/// form, base64-encoded and stripped of special characters.
pub open spec fn salt_of(key: Seq<char>) -> Seq<char> {
    let decoded = match b64url_decode_of(key) {
        Some(b) => b,
        None => Seq::<u8>::empty(),
    };
    b64url_of(hmac_sha256_of(utf8_bytes_of(key), decoded)).filter(plain_pred())
}

/// Derive the salt of a key.
pub fn key_to_salt(key: &str) -> (r: String)
    ensures
        r@ == salt_of(key@),
{
    let key_bytes = string_to_bytes(key);
    let decoded = b64_decode_nopad(key);
    let tag = hmac_sha256(key_bytes.as_slice(), decoded.as_slice());
    let encoded = b64url_encode_raw(tag.as_slice());
    remove_special_characters(encoded.as_str())
}

/// The decoded form of a datum under a token: the base64 payload — empty on
/// invalid text — read as UTF-8, with every occurrence of the token's salt
/// removed.
pub open spec fn decoded_data(data: Seq<char>, token: Seq<char>) -> Seq<char> {
    let salt = salt_of(token);
    let bytes = match b64url_decode_of(data) {
        Some(b) => b,
        None => Seq::<u8>::empty(),
    };
    let chars = match utf8_chars_of(bytes) {
        Some(s) => s,
        None => Seq::<char>::empty(),
    };
    remove_all(chars, salt)
}

/// The encoded form of a datum under a key: the salted payload,
/// base64-encoded, wrapped in the salt again.
pub open spec fn encoded_data(data: Seq<char>, key: Seq<char>) -> Seq<char> {
    let salt = salt_of(key);
    salt + b64url_of(utf8_bytes_of(salt + data + salt)) + salt
}

/// The machine-bound key derivation and the salted data coding.
pub struct BullGCrypto {
    pub key: String,
    pub version: String,
}

impl BullGCrypto {
    /// A derivation context over a key and a version.
    pub fn new(key: &str, version: &str) -> (r: BullGCrypto)
        ensures
            r.key@ == key@,
            r.version@ == version@,
    {
        BullGCrypto { key: key.to_owned(), version: version.to_owned() }
    }

    /// The quad a context hashes: machine id, container id, the key without
    /// dashes, spaces and underscores, and the version without spaces and
    /// dots.
    pub open spec fn quad_of(
        self,
        machine_id: Option<&str>,
        container_id: Option<&str>,
    ) -> Seq<char> {
        let m = match machine_id {
            Some(s) => s@,
            None => Seq::<char>::empty(),
        };
        let c = match container_id {
            Some(s) => s@,
            None => Seq::<char>::empty(),
        };
        let k = if self.key@.len() > 0 {
            self.key@.filter(drop_chars_pred('-', ' ', '_'))
        } else {
            Seq::<char>::empty()
        };
        let v = if self.version@.len() > 0 {
            self.version@.filter(drop_chars_pred(' ', '.', '.'))
        } else {
            Seq::<char>::empty()
        };
        m + c + k + v
    }

    /// The machine-bound encryption key: the base64 text of the SHA-256
    /// digest of the quad, always 43 characters.
    pub fn map_encryption_key(&self, machine_id: Option<&str>, container_id: Option<&str>) -> (r:
        String)
        ensures
            r@ == b64url_of(sha256_of(utf8_bytes_of(self.quad_of(machine_id, container_id)))),
            r@.len() == 43,
    {
        let mut quad = String::new();
        proof {
            assert(quad@ =~= Seq::<char>::empty());
        }
        match machine_id {
            Some(mid) => quad.append(mid),
            None => {
            },
        }
        match container_id {
            Some(cid) => quad.append(cid),
            None => {
            },
        }
        if self.key.as_str().unicode_len() > 0 {
            let cleaned = drop_chars(self.key.as_str(), '-', ' ', '_');
            quad.append(cleaned.as_str());
        }
        if self.version.as_str().unicode_len() > 0 {
            let cleaned = drop_chars(self.version.as_str(), ' ', '.', '.');
            quad.append(cleaned.as_str());
        }
        proof {
            assert(quad@ =~= self.quad_of(machine_id, container_id));
        }
        let bytes = string_to_bytes(quad.as_str());
        let digest = sha256(bytes.as_slice());
        b64url_encode_raw(digest.as_slice())
    }

    /// Encode a datum: wrap it in the key's salt, base64 the result, and
    /// wrap it in the salt again.
    pub fn encode_data(data: &str, key: &str) -> (r: String)
        ensures
            r@ == encoded_data(data@, key@),
    {
        let salt = key_to_salt(key);
        let mut enc = clone_string(&salt);
        enc.append(data);
        enc.append(salt.as_str());
        let bytes = string_to_bytes(enc.as_str());
        let b64 = b64url_encode_raw(bytes.as_slice());
        let mut r = clone_string(&salt);
        r.append(b64.as_str());
        r.append(salt.as_str());
        r
    }

    /// Decode a datum: base64-decode it — an empty payload on invalid text —
    /// read it as UTF-8, and strip every occurrence of the token's salt.
    pub fn decode_data(data: &str, token: &str) -> (r: String)
        ensures
            r@ == decoded_data(data@, token@),
    {
        let salt = key_to_salt(token);
        let bytes = b64_decode_nopad(data);
        let ghost decoded_bytes = bytes@;
        let decoded = match crate::plugins::bytes_to_string(bytes) {
            Some(s) => s,
            None => String::new(),
        };
        proof {
            if utf8_chars_of(decoded_bytes) is None {
                assert(decoded@ =~= Seq::<char>::empty());
            }
        }
        remove_all_occurrences(decoded.as_str(), salt.as_str())
    }

    /// Encode every value of a credential map under the key; the keys stay.
    pub fn encrypt_data(map: Vec<(String, String)>, key: &str) -> (r: Vec<(String, String)>)
        ensures
            r@.len() == map@.len(),
            forall|i: int|
                0 <= i < map@.len() ==> (#[trigger] r@[i]).0 == map@[i].0 && r@[i].1@
                    == encoded_data(map@[i].1@, key@),
    {
        let mut out: Vec<(String, String)> = Vec::new();
        let mut rest = map;
        let ghost orig = rest@;
        while rest.len() > 0
            invariant
                orig.len() == out@.len() + rest@.len(),
                rest@ =~= orig.subrange(orig.len() - rest@.len(), orig.len() as int),
                forall|j: int|
                    0 <= j < out@.len() ==> (#[trigger] out@[j]).0 == orig[j].0 && out@[j].1@
                        == encoded_data(orig[j].1@, key@),
            decreases rest@.len(),
        {
            let ghost done = orig.len() - rest@.len();
            let (k, v) = rest.remove(0);
            proof {
                assert(rest@ =~= orig.subrange(done + 1, orig.len() as int));
                assert((k, v) == orig[done]);
            }
            let enc = BullGCrypto::encode_data(v.as_str(), key);
            out.push((k, enc));
        }
        proof {
            assert(out@.len() == orig.len());
        }
        out
    }

    /// Decode every value of a credential map under the key; the keys stay.
    pub fn decrypt_data(map: Vec<(String, String)>, key: &str) -> (r: Vec<(String, String)>)
        ensures
            r@.len() == map@.len(),
            forall|i: int|
                0 <= i < map@.len() ==> (#[trigger] r@[i]).0 == map@[i].0 && r@[i].1@
                    == decoded_data(map@[i].1@, key@),
    {
        let mut out: Vec<(String, String)> = Vec::new();
        let mut rest = map;
        let ghost orig = rest@;
        while rest.len() > 0
            invariant
                orig.len() == out@.len() + rest@.len(),
                rest@ =~= orig.subrange(orig.len() - rest@.len(), orig.len() as int),
                forall|j: int|
                    0 <= j < out@.len() ==> (#[trigger] out@[j]).0 == orig[j].0 && out@[j].1@
                        == decoded_data(orig[j].1@, key@),
            decreases rest@.len(),
        {
            let ghost done = orig.len() - rest@.len();
            let (k, v) = rest.remove(0);
            proof {
                assert(rest@ =~= orig.subrange(done + 1, orig.len() as int));
                assert((k, v) == orig[done]);
            }
            let dec = BullGCrypto::decode_data(v.as_str(), key);
            out.push((k, dec));
        }
        out
    }
}

} // verus!
