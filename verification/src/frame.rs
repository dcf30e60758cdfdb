//! Unwrapping of JavaScript-literal payloads.
//!
//! The upstream endpoints answer with a JavaScript variable assignment, e.g.
//! `var apidata={...};`. The frame extractor finds the first occurrence of a
//! known prefix, drops everything up to and including it, and drops the one
//! trailing statement terminator, yielding the embedded literal.

use vstd::prelude::*;
use crate::errors::Error;
use crate::strutil::{from_chars, to_chars};

verus! {

/// The pattern `p` occurs in `s` at position `i`.
pub open spec fn match_at(s: Seq<char>, p: Seq<char>, i: int) -> bool {
    0 <= i && i + p.len() <= s.len() && s.subrange(i, i + p.len()) == p
}

/// The first position at or after `k` where `p` occurs in `s`, if any.
pub open spec fn first_match_idx(s: Seq<char>, p: Seq<char>, k: nat) -> Option<int>
    decreases s.len() + 1 - k,
{
    if k + p.len() > s.len() {
        None
    } else if s.subrange(k as int, (k + p.len()) as int) == p {
        Some(k as int)
    } else {
        first_match_idx(s, p, k + 1)
    }
}

pub proof fn lemma_first_match_idx(s: Seq<char>, p: Seq<char>, k: nat)
    ensures
        match first_match_idx(s, p, k) {
            Some(i) => k <= i && match_at(s, p, i) && forall|j: int|
                k <= j < i ==> !match_at(s, p, j),
            None => forall|j: int| k <= j ==> !match_at(s, p, j),
        },
    decreases s.len() + 1 - k,
{
    if k + p.len() > s.len() {
    } else if s.subrange(k as int, (k + p.len()) as int) == p {
    } else {
        lemma_first_match_idx(s, p, k + 1);
    }
}

/// The embedded literal: everything after the first occurrence of the
/// prefix, with the final character dropped. `None` when the prefix is
/// absent or nothing but the terminator follows it.
pub open spec fn frame_of(s: Seq<char>, p: Seq<char>) -> Option<Seq<char>> {
    match first_match_idx(s, p, 0) {
        None => None,
        Some(i) => {
            let start = i + p.len();
            if start < s.len() {
                Some(s.subrange(start as int, s.len() - 1))
            } else {
                None
            }
        },
    }
}

/// The prefix occurs somewhere in `s`.
pub open spec fn has_prefix(s: Seq<char>, p: Seq<char>) -> bool {
    first_match_idx(s, p, 0) is Some
}

/// Tests whether `p` occurs in `chars` at position `i`.
pub fn chars_match_at(chars: &[char], p: &[char], i: usize) -> (r: bool)
    requires
        i + p@.len() <= chars@.len(),
    ensures
        r == match_at(chars@, p@, i as int),
{
    let n = chars.len();
    let mut j: usize = 0;
    while j < p.len()
        invariant
            0 <= j <= p@.len(),
            n == chars@.len(),
            i + p@.len() <= chars@.len(),
            forall|t: int| 0 <= t < j ==> chars@[i + t] == p@[t],
        decreases p@.len() - j,
    {
        if chars[i + j] != p[j] {
            proof {
                assert(chars@.subrange(i as int, i + p@.len())[j as int] == chars@[i + j]);
            }
            return false;
        }
        j = j + 1;
    }
    proof {
        assert(chars@.subrange(i as int, i + p@.len()) =~= p@);
    }
    true
}

/// Copies the characters of `v` in `[a, b)`.
pub fn chars_range(v: &[char], a: usize, b: usize) -> (r: Vec<char>)
    requires
        a <= b <= v@.len(),
    ensures
        r@ == v@.subrange(a as int, b as int),
{
    let mut r: Vec<char> = Vec::new();
    let mut i: usize = a;
    while i < b
        invariant
            a <= i <= b <= v@.len(),
            r@ == v@.subrange(a as int, i as int),
        decreases b - i,
    {
        r.push(v[i]);
        i = i + 1;
        proof {
            assert(r@ =~= v@.subrange(a as int, i as int));
        }
    }
    r
}

/// Finds the known prefix in the raw response and returns the embedded
/// literal after it, without the one trailing terminator character.
///
/// An input without the prefix fails with `PrefixMismatch` naming that
/// prefix; an input where nothing follows the prefix but the terminator
/// fails with `MalformedPayload`.
pub fn extract_frame(raw: &str, prefix: &str, context: &str) -> (r: Result<String, Error>)
    ensures
        match r {
            Ok(body) => frame_of(raw@, prefix@) == Some(body@),
            Err(e) => {
                &&& frame_of(raw@, prefix@) is None
                &&& match e {
                    Error::PrefixMismatch { expected_prefix, context: c } => !has_prefix(
                        raw@,
                        prefix@,
                    ) && expected_prefix@ == prefix@ && c@ == context@,
                    Error::MalformedPayload { context: c } => has_prefix(raw@, prefix@)
                        && c@ == context@,
                    _ => false,
                }
            },
        },
{
    let chars = to_chars(raw);
    let p = to_chars(prefix);
    let n = chars.len();
    let plen = p.len();
    proof {
        lemma_first_match_idx(chars@, p@, 0);
    }
    if plen > n {
        proof {
            assert(first_match_idx(chars@, p@, 0) is None);
        }
        return Err(
            Error::PrefixMismatch {
                expected_prefix: prefix.to_owned(),
                context: context.to_owned(),
            },
        );
    }
    let mut found: Option<usize> = None;
    let mut i: usize = 0;
    while i <= n - plen && found.is_none()
        invariant
            i <= n,
            n == chars@.len(),
            plen == p@.len(),
            plen <= n,
            match found {
                Some(f) => f == i && match_at(chars@, p@, f as int) && forall|j: int|
                    0 <= j < f ==> !match_at(chars@, p@, j),
                None => forall|j: int| 0 <= j < i ==> !match_at(chars@, p@, j),
            },
        decreases n - i + (if found.is_none() {
            1int
        } else {
            0int
        }),
    {
        if chars_match_at(chars.as_slice(), p.as_slice(), i) {
            found = Some(i);
        } else {
            proof {
                if plen == 0 {
                    assert(chars@.subrange(i as int, i as int) =~= p@);
                    assert(match_at(chars@, p@, i as int));
                }
            }
            i = i + 1;
        }
    }
    match found {
        None => {
            proof {
                assert(forall|j: int| 0 <= j ==> !match_at(chars@, p@, j));
                if first_match_idx(chars@, p@, 0) is Some {
                    assert(false);
                }
            }
            Err(
                Error::PrefixMismatch {
                    expected_prefix: prefix.to_owned(),
                    context: context.to_owned(),
                },
            )
        },
        Some(f) => {
            proof {
                let fi = first_match_idx(chars@, p@, 0);
                if fi is None {
                    assert(false);
                } else {
                    let i0 = fi.unwrap();
                    if i0 < f {
                        assert(match_at(chars@, p@, i0));
                        assert(false);
                    }
                    if i0 > f {
                        assert(!match_at(chars@, p@, f as int));
                        assert(false);
                    }
                }
                assert(fi == Some(f as int));
            }
            let start = f + plen;
            if start < n {
                let body = chars_range(chars.as_slice(), start, n - 1);
                Ok(from_chars(&body))
            } else {
                Err(Error::MalformedPayload { context: context.to_owned() })
            }
        },
    }
}

} // verus!
