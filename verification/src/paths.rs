//! Context-path normalization.
//!
//! A service's context path is normalized before it is used as a routing key:
//! every trailing slash is stripped and a leading slash is inserted when one
//! is missing.  Request paths match a normalized prefix when they continue
//! past it with a slash; the remainder is the service-relative route path.

use vstd::prelude::*;

verus! {

/// The sequence with every trailing `'/'` removed.
pub open spec fn strip_trailing_slashes(s: Seq<char>) -> Seq<char>
    decreases s.len(),
{
    if s.len() > 0 && s.last() == '/' {
        strip_trailing_slashes(s.drop_last())
    } else {
        s
    }
}

/// The sequence with a `'/'` prepended unless it already starts with one.
pub open spec fn with_leading_slash(s: Seq<char>) -> Seq<char> {
    if s.len() > 0 && s[0] == '/' {
        s
    } else {
        seq!['/'] + s
    }
}

/// The normalized form of a context path: no trailing slashes, one leading slash.
pub open spec fn normalized(s: Seq<char>) -> Seq<char> {
    with_leading_slash(strip_trailing_slashes(s))
}

/// A request path `path` falls under the normalized prefix `prefix` when it
/// continues past the prefix with a slash.  The remainder (including that
/// slash) is the service-relative route path.
pub open spec fn prefix_matches(prefix: Seq<char>, path: Seq<char>) -> bool {
    &&& path.len() > prefix.len()
    &&& path.subrange(0, prefix.len() as int) == prefix
    &&& path[prefix.len() as int] == '/'
}

/// The service-relative remainder of a matching path: everything after the
/// prefix, starting at the slash.
pub open spec fn match_remainder(prefix: Seq<char>, path: Seq<char>) -> Seq<char> {
    path.subrange(prefix.len() as int, path.len() as int)
}

proof fn lemma_strip_to_index(s: Seq<char>, i: int)
    requires
        0 <= i <= s.len(),
        forall|j: int| i <= j < s.len() ==> s[j] == '/',
        i == 0 || s[i - 1] != '/',
    ensures
        strip_trailing_slashes(s) == s.subrange(0, i),
    decreases s.len(),
{
    if s.len() > i {
        assert(s.last() == '/');
        lemma_strip_to_index(s.drop_last(), i);
        assert(s.drop_last().subrange(0, i) =~= s.subrange(0, i));
    } else {
        assert(s.subrange(0, i) =~= s);
        if s.len() > 0 {
            assert(s.last() == s[i - 1]);
        }
    }
}

/// Normalize a context path: strip all trailing slashes, then ensure a
/// leading slash.
pub fn normalize_context_path(s: &str) -> (r: String)
    ensures
        r@ == normalized(s@),
{
    let len = s.unicode_len();
    let mut end = len;
    while end > 0 && s.get_char(end - 1) == '/'
        invariant
            0 <= end <= len,
            len == s@.len(),
            forall|j: int| end <= j < s@.len() ==> s@[j] == '/',
        decreases end,
    {
        end = end - 1;
    }
    proof {
        lemma_strip_to_index(s@, end as int);
    }
    let trimmed = s.substring_char(0, end);
    if end > 0 && trimmed.get_char(0) == '/' {
        trimmed.to_owned()
    } else {
        let r = String::from_str("/").concat(trimmed);
        proof {
            reveal_strlit("/");
            assert(r@ =~= with_leading_slash(trimmed@));
        }
        r
    }
}

/// The path with every trailing slash removed.
pub fn strip_trailing(s: &str) -> (r: String)
    ensures
        r@ == strip_trailing_slashes(s@),
{
    let len = s.unicode_len();
    let mut end = len;
    while end > 0 && s.get_char(end - 1) == '/'
        invariant
            0 <= end <= len,
            len == s@.len(),
            forall|j: int| end <= j < s@.len() ==> s@[j] == '/',
        decreases end,
    {
        end = end - 1;
    }
    proof {
        lemma_strip_to_index(s@, end as int);
    }
    s.substring_char(0, end).to_owned()
}

/// Two context paths that differ only in trailing slashes normalize to the
/// same routing key.
pub proof fn lemma_trailing_slash_same_key(s: Seq<char>)
    ensures
        normalized(s.push('/')) == normalized(s),
{
    assert(s.push('/').drop_last() =~= s);
}

} // verus!
