//! Key-pattern matching for store lookups.  A pattern is tried as a glob
//! (when it holds `*`), as an explicit regular expression (prefix `regex:`),
//! and otherwise as a substring in either direction, with exact equality as
//! the last resort.

use vstd::prelude::*;

verus! {

/// Glob matching: `*` matches any character run, every other character
/// matches itself, and the whole pattern must cover the whole candidate.
pub open spec fn glob_matches(p: Seq<char>, c: Seq<char>) -> bool
    decreases p.len(), c.len(),
{
    if p.len() == 0 {
        c.len() == 0
    } else if p[0] == '*' {
        glob_matches(p.drop_first(), c) || (c.len() > 0 && glob_matches(p, c.drop_first()))
    } else {
        c.len() > 0 && p[0] == c[0] && glob_matches(p.drop_first(), c.drop_first())
    }
}

/// `needle` occurs contiguously inside `hay`.
pub open spec fn has_substring(hay: Seq<char>, needle: Seq<char>) -> bool {
    exists|i: int|
        0 <= i <= hay.len() - needle.len() && #[trigger] hay.subrange(i, i + needle.len())
            == needle
}

/// `p` is a prefix of `s`.
pub open spec fn is_prefix(p: Seq<char>, s: Seq<char>) -> bool {
    p.len() <= s.len() && s.subrange(0, p.len() as int) == p
}

/// What `regex::Regex::new(pattern)` followed by `is_match(text)` computes:
/// `None` when the pattern does not compile, otherwise whether the expression
/// matches somewhere in the text.
pub uninterp spec fn regex_result(pattern: Seq<char>, text: Seq<char>) -> Option<bool>;

/// Relies on `regex::Regex::new` and `regex::Regex::is_match`: whether the
/// pattern compiles, and whether it matches, depend on the pattern and the
/// text alone.
#[verifier::external_body]
fn regex_match(pattern: &str, text: &str) -> (r: Option<bool>)
    ensures
        r == regex_result(pattern@, text@),
{
    match regex::Regex::new(pattern) {
        Ok(re) => Some(re.is_match(text)),
        Err(_) => None,
    }
}

fn glob_step(p: &str, pi: usize, c: &str, ci: usize) -> (r: bool)
    requires
        pi <= p@.len(),
        ci <= c@.len(),
    ensures
        r == glob_matches(
            p@.subrange(pi as int, p@.len() as int),
            c@.subrange(ci as int, c@.len() as int),
        ),
    decreases p@.len() - pi, c@.len() - ci,
{
    let plen = p.unicode_len();
    let clen = c.unicode_len();
    let ghost ps = p@.subrange(pi as int, p@.len() as int);
    let ghost cs = c@.subrange(ci as int, c@.len() as int);
    if pi == plen {
        ci == clen
    } else if p.get_char(pi) == '*' {
        proof {
            assert(ps[0] == '*');
            assert(ps.drop_first() =~= p@.subrange(pi + 1, p@.len() as int));
        }
        if glob_step(p, pi + 1, c, ci) {
            true
        } else if ci < clen {
            proof {
                assert(cs.drop_first() =~= c@.subrange(ci + 1, c@.len() as int));
            }
            glob_step(p, pi, c, ci + 1)
        } else {
            false
        }
    } else if ci < clen && p.get_char(pi) == c.get_char(ci) {
        proof {
            assert(ps[0] == p@[pi as int] && cs[0] == c@[ci as int]);
            assert(ps.drop_first() =~= p@.subrange(pi + 1, p@.len() as int));
            assert(cs.drop_first() =~= c@.subrange(ci + 1, c@.len() as int));
        }
        glob_step(p, pi + 1, c, ci + 1)
    } else {
        proof {
            assert(ps[0] == p@[pi as int]);
            if ci < clen {
                assert(cs[0] == c@[ci as int]);
            }
        }
        false
    }
}

/// Whether the glob pattern `p` matches the whole candidate `c`.
pub fn glob_match(p: &str, c: &str) -> (r: bool)
    ensures
        r == glob_matches(p@, c@),
{
    let r = glob_step(p, 0, c, 0);
    proof {
        assert(p@.subrange(0, p@.len() as int) =~= p@);
        assert(c@.subrange(0, c@.len() as int) =~= c@);
    }
    r
}

/// Whether `hay` holds `needle` as a contiguous substring.
pub fn contains_sub(hay: &str, needle: &str) -> (r: bool)
    ensures
        r == has_substring(hay@, needle@),
{
    let hlen = hay.unicode_len();
    let nlen = needle.unicode_len();
    if nlen > hlen {
        return false;
    }
    let mut i: usize = 0;
    while i <= hlen - nlen
        invariant
            nlen <= hlen,
            hlen == hay@.len(),
            nlen == needle@.len(),
            0 <= i <= hlen - nlen + 1,
            forall|x: int|
                0 <= x < i ==> #[trigger] hay@.subrange(x, x + needle@.len()) != needle@,
        decreases hlen + 1 - nlen - i,
    {
        let mut j: usize = 0;
        let mut all_eq = true;
        while j < nlen
            invariant
                nlen <= hlen,
                hlen == hay@.len(),
                nlen == needle@.len(),
                0 <= i <= hlen - nlen,
                0 <= j <= nlen,
                all_eq == (forall|y: int| 0 <= y < j ==> hay@[i + y] == needle@[y]),
            decreases nlen - j,
        {
            if hay.get_char(i + j) != needle.get_char(j) {
                all_eq = false;
                proof {
                    assert(!(forall|y: int| 0 <= y < j + 1 ==> hay@[i + y] == needle@[y]));
                }
                j = nlen;
            } else {
                proof {
                    if all_eq {
                        assert(forall|y: int| 0 <= y < j + 1 ==> hay@[i + y] == needle@[y]);
                    } else {
                        let w = choose|y: int| 0 <= y < j && hay@[i + y] != needle@[y];
                        assert(0 <= w < j + 1 && hay@[i + w] != needle@[w]);
                    }
                }
                j = j + 1;
            }
        }
        if all_eq {
            proof {
                assert(hay@.subrange(i as int, i + needle@.len()) =~= needle@);
            }
            return true;
        }
        proof {
            let w = choose|y: int| 0 <= y < nlen && hay@[i + y] != needle@[y];
            assert(hay@.subrange(i as int, i + needle@.len())[w] == hay@[i + w]);
            assert(hay@.subrange(i as int, i + needle@.len()) != needle@);
        }
        i = i + 1;
    }
    false
}

/// Whether `prefix` starts `s`.
pub fn starts_with_str(s: &str, prefix: &str) -> (r: bool)
    ensures
        r == is_prefix(prefix@, s@),
{
    let slen = s.unicode_len();
    let plen = prefix.unicode_len();
    if plen > slen {
        return false;
    }
    let mut j: usize = 0;
    while j < plen
        invariant
            plen <= slen,
            slen == s@.len(),
            plen == prefix@.len(),
            0 <= j <= plen,
            forall|y: int| 0 <= y < j ==> s@[y] == prefix@[y],
        decreases plen - j,
    {
        if s.get_char(j) != prefix.get_char(j) {
            proof {
                assert(s@.subrange(0, prefix@.len() as int)[j as int] != prefix@[j as int]);
            }
            return false;
        }
        j = j + 1;
    }
    proof {
        assert(s@.subrange(0, prefix@.len() as int) =~= prefix@);
    }
    true
}

/// Whether the character `ch` occurs in `s`.
pub fn contains_char(s: &str, ch: char) -> (r: bool)
    ensures
        r == (exists|i: int| 0 <= i < s@.len() && s@[i] == ch),
{
    let len = s.unicode_len();
    let mut i: usize = 0;
    while i < len
        invariant
            len == s@.len(),
            0 <= i <= len,
            forall|j: int| 0 <= j < i ==> s@[j] != ch,
        decreases len - i,
    {
        if s.get_char(i) == ch {
            return true;
        }
        i = i + 1;
    }
    false
}

/// How a store pattern matches a candidate key: glob when the pattern holds
/// `*`; an explicit regular expression behind the `regex:` prefix, a pattern
/// that does not compile matching nothing; otherwise substring containment in
/// either direction, with exact equality as the final fallback.
pub open spec fn spec_match_key(p: Seq<char>, c: Seq<char>) -> bool {
    if exists|i: int| 0 <= i < p.len() && p[i] == '*' {
        glob_matches(p, c)
    } else if is_prefix("regex:"@, p) {
        regex_result(p.subrange(6, p.len() as int), c) == Some(true)
    } else if has_substring(p, c) || has_substring(c, p) {
        true
    } else {
        c == p
    }
}

/// Whether the pattern `pattern` matches the candidate key `candidate`.
pub fn match_key(pattern: &str, candidate: &str) -> (r: bool)
    ensures
        r == spec_match_key(pattern@, candidate@),
{
    if contains_char(pattern, '*') {
        glob_match(pattern, candidate)
    } else if starts_with_str(pattern, "regex:") {
        proof {
            reveal_strlit("regex:");
        }
        let plen = pattern.unicode_len();
        let expr = pattern.substring_char(6, plen);
        match regex_match(expr, candidate) {
            Some(b) => b,
            None => false,
        }
    } else {
        proof {
            reveal_strlit("regex:");
        }
        if contains_sub(pattern, candidate) || contains_sub(candidate, pattern) {
            true
        } else {
            crate::kv::str_eq(candidate, pattern)
        }
    }
}

} // verus!
