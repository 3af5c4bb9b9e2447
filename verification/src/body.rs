//! Request-body interpretation: the content-type dispatch and the
//! form-urlencoded grammar, parsed over the raw body bytes.  JSON bodies
//! and multipart forms are handed to outside parsers beyond the verified
//! core; the dispatch decision itself is taken here.

use vstd::prelude::*;

use crate::patterns::has_substring;
use crate::plugins::utf8_lossy_of;

verus! {

/// How a request body is to be read, per its `Content-Type`.
#[derive(Debug, Clone, Copy, PartialEq, Eq, Structural)]
pub enum BodyFormat {
    Json,
    Form,
    Multipart,
    Opaque,
}

/// The format a content-type names: JSON, an urlencoded form, a multipart
/// form, or something this pipeline leaves untouched.
pub open spec fn format_of(content_type: Seq<char>) -> BodyFormat {
    if has_substring(content_type, "application/json"@) {
        BodyFormat::Json
    } else if has_substring(content_type, "application/x-www-form-urlencoded"@) {
        BodyFormat::Form
    } else if has_substring(content_type, "multipart/form-data"@) {
        BodyFormat::Multipart
    } else {
        BodyFormat::Opaque
    }
}

/// Classify a content-type header value.
pub fn classify_body(content_type: &str) -> (r: BodyFormat)
    ensures
        r == format_of(content_type@),
{
    if crate::patterns::contains_sub(content_type, "application/json") {
        BodyFormat::Json
    } else if crate::patterns::contains_sub(content_type, "application/x-www-form-urlencoded") {
        BodyFormat::Form
    } else if crate::patterns::contains_sub(content_type, "multipart/form-data") {
        BodyFormat::Multipart
    } else {
        BodyFormat::Opaque
    }
}

/// The value of a hexadecimal digit byte, if it is one.
pub open spec fn hex_val(b: u8) -> Option<u8> {
    if 48 <= b && b <= 57 {
        Some((b - 48) as u8)
    } else if 97 <= b && b <= 102 {
        Some((b - 87) as u8)
    } else if 65 <= b && b <= 70 {
        Some((b - 55) as u8)
    } else {
        None
    }
}

fn hex_val_exec(b: u8) -> (r: Option<u8>)
    ensures
        r == hex_val(b),
{
    if 48 <= b && b <= 57 {
        Some(b - 48)
    } else if 97 <= b && b <= 102 {
        Some(b - 87)
    } else if 65 <= b && b <= 70 {
        Some(b - 55)
    } else {
        None
    }
}

/// Percent-decoding of a form component: `+` reads as a space, `%` followed
/// by two hexadecimal digits as the byte they spell, and every other byte
/// as itself.
pub open spec fn percent_decode(b: Seq<u8>) -> Seq<u8>
    decreases b.len(),
{
    if b.len() == 0 {
        Seq::empty()
    } else if b[0] == 43 {
        seq![32u8] + percent_decode(b.drop_first())
    } else if b[0] == 37 && b.len() >= 3 && hex_val(b[1]) is Some && hex_val(b[2]) is Some {
        seq![((hex_val(b[1]).unwrap() * 16 + hex_val(b[2]).unwrap()) as u8)] + percent_decode(
            b.skip(3),
        )
    } else {
        seq![b[0]] + percent_decode(b.drop_first())
    }
}

/// Percent-decode one form component.
pub fn percent_decode_bytes(b: &[u8]) -> (r: Vec<u8>)
    ensures
        r@ == percent_decode(b@),
{
    let ghost whole = b@;
    let len = b.len();
    let mut out: Vec<u8> = Vec::new();
    let mut i: usize = 0;
    proof {
        assert(whole.skip(0) =~= whole);
    }
    while i < len
        invariant
            whole == b@,
            len == b@.len(),
            0 <= i <= len,
            percent_decode(whole) == out@ + percent_decode(whole.skip(i as int)),
        decreases len - i,
    {
        let ghost rest = whole.skip(i as int);
        proof {
            assert(rest[0] == whole[i as int]);
            assert(rest.drop_first() =~= whole.skip(i + 1));
        }
        let c = b[i];
        if c == 43 {
            out.push(32);
            proof {
                assert(out@ + percent_decode(whole.skip(i + 1)) =~= percent_decode(whole));
            }
            i = i + 1;
        } else if c == 37 && len - i >= 3 {
            let h1 = hex_val_exec(b[i + 1]);
            let h2 = hex_val_exec(b[i + 2]);
            proof {
                assert(rest[1] == whole[i + 1] && rest[2] == whole[i + 2]);
            }
            match (h1, h2) {
                (Some(x), Some(y)) => {
                    out.push(x * 16 + y);
                    proof {
                        assert(rest.skip(3) =~= whole.skip(i + 3));
                        assert(out@ + percent_decode(whole.skip(i + 3)) =~= percent_decode(whole));
                    }
                    i = i + 3;
                },
                _ => {
                    out.push(c);
                    proof {
                        assert(out@ + percent_decode(whole.skip(i + 1)) =~= percent_decode(whole));
                    }
                    i = i + 1;
                },
            }
        } else {
            out.push(c);
            proof {
                if c == 37 {
                    assert(rest.len() < 3);
                }
                assert(out@ + percent_decode(whole.skip(i + 1)) =~= percent_decode(whole));
            }
            i = i + 1;
        }
    }
    proof {
        assert(whole.skip(len as int) =~= Seq::<u8>::empty());
        assert(percent_decode(whole.skip(len as int)) =~= Seq::<u8>::empty());
        assert(out@ =~= percent_decode(whole));
    }
    out
}

/// The index of the first occurrence of `sep`, or the length.
pub open spec fn first_byte(b: Seq<u8>, sep: u8) -> int
    decreases b.len(),
{
    if b.len() == 0 {
        0
    } else if b[0] == sep {
        0
    } else {
        1 + first_byte(b.drop_first(), sep)
    }
}

proof fn lemma_first_byte_bounds(b: Seq<u8>, sep: u8)
    ensures
        0 <= first_byte(b, sep) <= b.len(),
    decreases b.len(),
{
    if b.len() > 0 && b[0] != sep {
        lemma_first_byte_bounds(b.drop_first(), sep);
    }
}

/// The `key=value` reading of one form segment: the bytes before the first
/// `=`, percent-decoded, and the bytes after it — the whole segment and an
/// empty value when there is no `=`.
pub open spec fn segment_pair(seg: Seq<u8>) -> (Seq<u8>, Seq<u8>) {
    let e = first_byte(seg, 61);
    if e < seg.len() {
        (percent_decode(seg.take(e)), percent_decode(seg.skip(e + 1)))
    } else {
        (percent_decode(seg), Seq::empty())
    }
}

/// The non-empty `&`-separated segments of a form body, in order.
pub open spec fn form_segments(b: Seq<u8>) -> Seq<Seq<u8>>
    decreases b.len(),
    via form_segments_dec
{
    let a = first_byte(b, 38);
    if b.len() == 0 {
        Seq::empty()
    } else if a >= b.len() {
        seq![b]
    } else if a == 0 {
        form_segments(b.skip(1))
    } else {
        seq![b.take(a)] + form_segments(b.skip(a + 1))
    }
}

#[via_fn]
proof fn form_segments_dec(b: Seq<u8>) {
    lemma_first_byte_bounds(b, 38);
}

fn find_byte(b: &[u8], start: usize, sep: u8) -> (r: usize)
    requires
        start <= b@.len(),
    ensures
        start + first_byte(b@.skip(start as int), sep) == r,
        r <= b@.len(),
{
    let ghost whole = b@;
    let len = b.len();
    let mut i: usize = start;
    while i < len
        invariant
            whole == b@,
            len == b@.len(),
            start <= i <= len,
            first_byte(whole.skip(start as int), sep) == (i - start) + first_byte(
                whole.skip(i as int),
                sep,
            ),
        decreases len - i,
    {
        let ghost rest = whole.skip(i as int);
        proof {
            assert(rest[0] == whole[i as int]);
            assert(rest.drop_first() =~= whole.skip(i + 1));
        }
        if b[i] == sep {
            return i;
        }
        i = i + 1;
    }
    proof {
        assert(whole.skip(len as int) =~= Seq::<u8>::empty());
    }
    len
}

/// The decoded `(key, value)` pairs a form body carries, in order, read
/// with lossy UTF-8 decoding.
pub open spec fn form_model(b: Seq<u8>) -> Seq<(Seq<char>, Seq<char>)> {
    segments_model(form_segments(b))
}

/// The decoded pairs of a segment list.
pub open spec fn segments_model(segs: Seq<Seq<u8>>) -> Seq<(Seq<char>, Seq<char>)>
    decreases segs.len(),
{
    if segs.len() == 0 {
        Seq::empty()
    } else {
        let (kb, vb) = segment_pair(segs[0]);
        seq![(utf8_lossy_of(kb), utf8_lossy_of(vb))] + segments_model(segs.drop_first())
    }
}

/// Parse an urlencoded form body into its decoded `(key, value)` pairs,
/// reading each side with lossy UTF-8 decoding.
pub fn parse_form(b: &[u8]) -> (r: Vec<(String, String)>)
    ensures
        r@.len() == form_model(b@).len(),
        forall|i: int|
            0 <= i < r@.len() ==> ((#[trigger] r@[i]).0@, r@[i].1@) == form_model(b@)[i],
{
    let ghost whole = b@;
    let len = b.len();
    let mut out: Vec<(String, String)> = Vec::new();
    let mut i: usize = 0;
    proof {
        assert(whole.skip(0) =~= whole);
    }
    while i < len
        invariant
            whole == b@,
            len == b@.len(),
            0 <= i <= len,
            segments_model(form_segments(whole.skip(i as int))).len() + out@.len() == form_model(
                whole,
            ).len(),
            forall|j: int|
                0 <= j < out@.len() ==> ((#[trigger] out@[j]).0@, out@[j].1@) == form_model(
                    whole,
                )[j],
            out@.len() + segments_model(form_segments(whole.skip(i as int))).len() == form_model(
                whole,
            ).len() && forall|j: int|
                0 <= j < segments_model(form_segments(whole.skip(i as int))).len()
                    ==> #[trigger] segments_model(form_segments(whole.skip(i as int)))[j]
                    == form_model(whole)[out@.len() + j],
        decreases len - i,
    {
        let ghost rest = whole.skip(i as int);
        let a = find_byte(b, i, 38);
        proof {
            lemma_first_byte_bounds(rest, 38);
        }
        if a == i {
            proof {
                lemma_first_byte_bounds(rest.drop_first(), 38);
                assert(rest[0] == 38);
                assert(rest.skip(1) =~= whole.skip(i + 1));
                assert(form_segments(rest) == form_segments(whole.skip(i + 1)));
            }
            i = i + 1;
        } else {
            let ghost seg = rest.take(a - i);
            proof {
                if a == len {
                    assert(first_byte(rest, 38) == rest.len());
                    assert(rest.take(a - i) =~= rest);
                    assert(form_segments(rest) == seq![seg]);
                } else {
                    assert(rest.skip((a - i) + 1) =~= whole.skip(a + 1));
                    assert(form_segments(rest) == seq![seg] + form_segments(whole.skip(a + 1)));
                }
                assert(seq![seg].drop_first() =~= Seq::<Seq<u8>>::empty());
            }
            let e = find_byte(b, i, 61);
            let ghost fe = first_byte(seg, 61);
            proof {
                lemma_first_byte_bounds(rest, 61);
                lemma_first_byte_prefix(rest, 61, a - i);
            }
            let (kb, vb) = if e < a {
                let k = percent_decode_bytes(slice_range(b, i, e));
                let v = percent_decode_bytes(slice_range(b, e + 1, a));
                proof {
                    assert(whole.subrange(i as int, e as int) =~= seg.take(fe));
                    assert(whole.subrange(e + 1, a as int) =~= seg.skip(fe + 1));
                }
                (k, v)
            } else {
                let k = percent_decode_bytes(slice_range(b, i, a));
                let v: Vec<u8> = Vec::new();
                proof {
                    assert(whole.subrange(i as int, a as int) =~= seg);
                    assert(v@ =~= Seq::<u8>::empty());
                    if first_byte(seg, 61) < seg.len() {
                        assert(seg[first_byte(seg, 61)] == 61);
                        assert(whole[i + first_byte(seg, 61)] == 61);
                    }
                }
                (k, v)
            };
            proof {
                assert((kb@, vb@) == segment_pair(seg));
            }
            let k = crate::plugins::bytes_to_string_lossy(kb.as_slice());
            let v = crate::plugins::bytes_to_string_lossy(vb.as_slice());
            let ghost next: int = if a == len {
                len as int
            } else {
                a + 1
            };
            let ghost tail = form_segments(whole.skip(next));
            let ghost prev_out = out@;
            proof {
                if a == len {
                    assert(whole.skip(len as int) =~= Seq::<u8>::empty());
                    assert(tail =~= Seq::<Seq<u8>>::empty());
                    assert(form_segments(rest) =~= seq![seg] + tail);
                } else {
                    assert(form_segments(rest) =~= seq![seg] + tail);
                }
                assert((seq![seg] + tail)[0] == seg);
                assert((seq![seg] + tail).drop_first() =~= tail);
            }
            out.push((k, v));
            proof {
                assert(segments_model(form_segments(rest)) =~= seq![(k@, v@)]
                    + segments_model(tail));
                assert(segments_model(form_segments(rest))[0] == (k@, v@));
                assert((k@, v@) == form_model(whole)[prev_out.len() as int]);
                assert forall|j: int|
                    0 <= j < segments_model(tail).len() implies #[trigger] segments_model(
                    tail,
                )[j] == form_model(whole)[out@.len() + j] by {
                    assert(segments_model(form_segments(rest))[j + 1] == segments_model(
                        tail,
                    )[j]);
                }
            }
            if a == len {
                i = len;
            } else {
                i = a + 1;
            }
        }
    }
    proof {
        assert(whole.skip(len as int) =~= Seq::<u8>::empty());
        assert(form_segments(whole.skip(len as int)) =~= Seq::<Seq<u8>>::empty());
    }
    out
}

proof fn lemma_first_byte_prefix(b: Seq<u8>, sep: u8, cut: int)
    requires
        0 <= cut <= b.len(),
    ensures
        first_byte(b, sep) < cut ==> first_byte(b.take(cut), sep) == first_byte(b, sep),
        first_byte(b, sep) >= cut ==> first_byte(b.take(cut), sep) == cut,
    decreases b.len(),
{
    lemma_first_byte_bounds(b, sep);
    if b.len() == 0 || cut == 0 {
        assert(b.take(cut) =~= Seq::<u8>::empty());
    } else if b[0] == sep {
        assert(b.take(cut)[0] == sep);
    } else {
        lemma_first_byte_prefix(b.drop_first(), sep, cut - 1);
        assert(b.take(cut)[0] == b[0]);
        assert(b.take(cut).drop_first() =~= b.drop_first().take(cut - 1));
    }
}

/// A sub-slice of a byte slice.
pub fn slice_range<'a>(b: &'a [u8], from: usize, to: usize) -> (r: &'a [u8])
    requires
        from <= to <= b@.len(),
    ensures
        r@ == b@.subrange(from as int, to as int),
{
    vstd::slice::slice_subrange(b, from, to)
}

} // verus!
