//! Repair of JavaScript object literals into strict JSON.
//!
//! The upstream payload writes object keys unquoted (`records:2102`). For a
//! fixed, caller-supplied list of bare key names, every textual occurrence of
//! `key:` is rewritten to `"key":` in one left-to-right pass; all other text
//! is copied verbatim. This is a pure text substitution, not a grammar-aware
//! rewrite, and for key names free of `"` and `:` it is idempotent
//! ([`lemma_normalized_idempotent`]).

use vstd::prelude::*;
use crate::strutil::{from_chars, to_chars};

verus! {

/// `key:` stands at the head of `s`.
pub open spec fn key_match(s: Seq<char>, k: Seq<char>) -> bool {
    &&& k.len() + 1 <= s.len()
    &&& s.subrange(0, k.len() as int) == k
    &&& s[k.len() as int] == ':'
}

/// The first key in the list whose `key:` stands at the head of `s`.
pub open spec fn head_key(keys: Seq<Seq<char>>, s: Seq<char>) -> Option<Seq<char>>
    decreases keys.len(),
{
    if keys.len() == 0 {
        None
    } else if key_match(s, keys[0]) {
        Some(keys[0])
    } else {
        head_key(keys.skip(1), s)
    }
}

pub proof fn lemma_head_key(keys: Seq<Seq<char>>, s: Seq<char>)
    ensures
        match head_key(keys, s) {
            Some(k) => exists|j: int|
                {
                    &&& 0 <= j < keys.len()
                    &&& keys[j] == k
                    &&& key_match(s, k)
                    &&& forall|t: int| 0 <= t < j ==> !key_match(s, #[trigger] keys[t])
                },
            None => forall|j: int| 0 <= j < keys.len() ==> !key_match(s, #[trigger] keys[j]),
        },
    decreases keys.len(),
{
    if keys.len() > 0 && !key_match(s, keys[0]) {
        lemma_head_key(keys.skip(1), s);
        match head_key(keys.skip(1), s) {
            Some(k) => {
                let j0 = choose|j: int|
                    {
                        &&& 0 <= j < keys.skip(1).len()
                        &&& keys.skip(1)[j] == k
                        &&& key_match(s, k)
                        &&& forall|t: int|
                            0 <= t < j ==> !key_match(s, #[trigger] keys.skip(1)[t])
                    };
                assert forall|t: int| 0 <= t < j0 + 1 implies !key_match(
                    s,
                    #[trigger] keys[t],
                ) by {
                    if t >= 1 {
                        assert(keys[t] == keys.skip(1)[t - 1]);
                    }
                }
                assert(keys[j0 + 1] == k);
            },
            None => {
                assert forall|j: int| 0 <= j < keys.len() implies !key_match(
                    s,
                    #[trigger] keys[j],
                ) by {
                    if j >= 1 {
                        assert(keys[j] == keys.skip(1)[j - 1]);
                    }
                }
            },
        }
    }
}

/// The quoted JSON form of a bare key: `"key":`.
pub open spec fn quoted_key(k: Seq<char>) -> Seq<char> {
    seq!['"'] + k + seq!['"', ':']
}

/// The normalized text: scanning left to right, each `key:` at the scan
/// position (first key of the list wins) becomes `"key":`, everything else
/// is copied.
pub open spec fn normalized(keys: Seq<Seq<char>>, s: Seq<char>) -> Seq<char>
    decreases s.len(),
{
    if s.len() == 0 {
        s
    } else {
        let hk = head_key(keys, s);
        if hk is Some && key_match(s, hk.unwrap()) {
            quoted_key(hk.unwrap()) + normalized(keys, s.skip(hk.unwrap().len() + 1 as int))
        } else {
            seq![s[0]] + normalized(keys, s.skip(1))
        }
    }
}

/// Rewrites, for each key of `keys`, every occurrence of `key:` into
/// `"key":`, scanning once from left to right.
pub fn transfer_js_to_json(js: String, keys: Vec<&str>) -> (r: String)
    ensures
        r@ == normalized(keys.deep_view(), js@),
{
    let ghost kseq = keys.deep_view();
    let chars = to_chars(js.as_str());
    let n = chars.len();
    let mut out: Vec<char> = Vec::new();
    let mut i: usize = 0;
    proof {
        assert(chars@.skip(0) =~= chars@);
    }
    while i < n
        invariant
            i <= n,
            n == chars@.len(),
            kseq == keys.deep_view(),
            kseq.len() == keys@.len(),
            forall|j: int| 0 <= j < kseq.len() ==> kseq[j] == keys@[j]@,
            normalized(kseq, chars@) == out@ + normalized(kseq, chars@.skip(i as int)),
        decreases n - i,
    {
        let ghost rest = chars@.skip(i as int);
        let hit = find_head_key(chars.as_slice(), i, &keys);
        proof {
            lemma_head_key(kseq, rest);
        }
        match hit {
            Some(j) => {
                let key_chars = to_chars(keys[j]);
                let klen = key_chars.len();
                proof {
                    let hk = head_key(kseq, rest);
                    if hk is None {
                        assert(key_match(rest, kseq[j as int]));
                        assert(false);
                    }
                    let k0 = hk.unwrap();
                    let j0 = choose|t: int|
                        {
                            &&& 0 <= t < kseq.len()
                            &&& kseq[t] == k0
                            &&& key_match(rest, k0)
                            &&& forall|u: int| 0 <= u < t ==> !key_match(rest, #[trigger] kseq[u])
                        };
                    if j0 < j {
                        assert(key_match(rest, kseq[j0]));
                        assert(false);
                    }
                    if j0 > j {
                        assert(!key_match(rest, kseq[j as int]));
                        assert(false);
                    }
                    assert(k0 == kseq[j as int]);
                    assert(rest.skip(klen + 1) =~= chars@.skip(i + klen + 1));
                }
                let ghost out0 = out@;
                let ghost k0 = kseq[j as int];
                out.push('"');
                let mut t: usize = 0;
                while t < klen
                    invariant
                        t <= klen,
                        klen == key_chars@.len(),
                        out@ == out0 + seq!['"'] + key_chars@.take(t as int),
                    decreases klen - t,
                {
                    out.push(key_chars[t]);
                    t = t + 1;
                    proof {
                        assert(out@ =~= out0 + seq!['"'] + key_chars@.take(t as int));
                    }
                }
                out.push('"');
                out.push(':');
                i = i + klen + 1;
                proof {
                    assert(key_chars@.take(klen as int) =~= key_chars@);
                    assert(key_chars@ == k0);
                    assert(out@ =~= out0 + quoted_key(k0));
                    assert(normalized(kseq, rest) == quoted_key(k0) + normalized(
                        kseq,
                        rest.skip(k0.len() + 1 as int),
                    ));
                    assert(out0 + quoted_key(k0) + normalized(kseq, chars@.skip(i as int)) =~= out0
                        + (quoted_key(k0) + normalized(kseq, chars@.skip(i as int))));
                }
            },
            None => {
                proof {
                    let hk = head_key(kseq, rest);
                    if hk is Some {
                        lemma_head_key(kseq, rest);
                        assert(false);
                    }
                    assert(rest.skip(1) =~= chars@.skip(i + 1));
                    assert(normalized(kseq, rest) == seq![rest[0]] + normalized(
                        kseq,
                        rest.skip(1),
                    ));
                    assert(rest[0] == chars@[i as int]);
                }
                out.push(chars[i]);
                i = i + 1;
            },
        }
    }
    proof {
        assert(chars@.skip(n as int) =~= Seq::<char>::empty());
        assert(normalized(kseq, chars@.skip(n as int)) =~= Seq::<char>::empty());
        assert(normalized(kseq, chars@) =~= out@);
    }
    from_chars(&out)
}

/// A key name fit for the rewriting: nonempty and free of the two characters
/// the rewriting inserts, `"` and `:`.
pub open spec fn key_wf(k: Seq<char>) -> bool {
    &&& k.len() > 0
    &&& forall|i: int| 0 <= i < k.len() ==> k[i] != ':' && #[trigger] k[i] != '"'
}

pub open spec fn keys_wf(keys: Seq<Seq<char>>) -> bool {
    forall|j: int| 0 <= j < keys.len() ==> key_wf(#[trigger] keys[j])
}

/// No `key:` pattern begins anywhere inside an emitted `"key":` block,
/// whatever text follows the block.
proof fn lemma_no_key_match_in_quoted(k: Seq<char>, kp: Seq<char>, t: Seq<char>, d: int)
    requires
        key_wf(k),
        key_wf(kp),
        0 <= d < quoted_key(k).len(),
    ensures
        !key_match(quoted_key(k).skip(d) + t, kp),
{
    let q = quoted_key(k);
    let s = q.skip(d) + t;
    assert(q[0] == '"');
    assert(forall|a: int| 1 <= a <= k.len() ==> q[a] == k[a - 1]);
    assert(q[k.len() as int + 1] == '"');
    assert(q[k.len() as int + 2] == ':');
    if key_match(s, kp) {
        assert(forall|x: int| 0 <= x < kp.len() ==> kp[x] == s.subrange(0, kp.len() as int)[x]);
        assert(forall|x: int| 0 <= x < kp.len() ==> kp[x] == s[x]);
        assert(forall|x: int| 0 <= x < q.len() - d ==> s[x] == q[d + x]);
        if d == 0 {
            assert(kp[0] == '"');
        } else if d == k.len() + 1 {
            assert(kp[0] == '"');
        } else if d == k.len() + 2 {
            assert(kp[0] == ':');
        } else {
            // 1 <= d <= k.len(): the closing quote sits at offset qpos
            let qpos = k.len() + 1 - d;
            assert(1 <= qpos);
            assert(s[qpos as int] == q[k.len() as int + 1]);
            if kp.len() > qpos {
                assert(kp[qpos as int] == '"');
            } else if kp.len() == qpos {
                assert(s[kp.len() as int] == ':');
                assert(s[qpos as int] == '"');
            } else {
                assert(s[kp.len() as int] == ':');
                assert(s[kp.len() as int] == q[d + kp.len()]);
                assert(q[d + kp.len()] == k[d + kp.len() - 1]);
            }
        }
    }
}

/// No key of a well-formed list matches anywhere inside an emitted quoted
/// block.
proof fn lemma_head_key_none_in_quoted(keys: Seq<Seq<char>>, k: Seq<char>, t: Seq<char>, d: int)
    requires
        keys_wf(keys),
        key_wf(k),
        0 <= d < quoted_key(k).len(),
    ensures
        head_key(keys, quoted_key(k).skip(d) + t) is None,
{
    let s = quoted_key(k).skip(d) + t;
    assert forall|j: int| 0 <= j < keys.len() implies !key_match(s, #[trigger] keys[j]) by {
        lemma_no_key_match_in_quoted(k, keys[j], t, d);
    }
    lemma_head_key(keys, s);
    if head_key(keys, s) is Some {
        assert(false);
    }
}

/// Normalization copies an emitted quoted block verbatim and continues with
/// the text after it.
proof fn lemma_normalized_through_quoted(keys: Seq<Seq<char>>, k: Seq<char>, t: Seq<char>, d: int)
    requires
        keys_wf(keys),
        key_wf(k),
        0 <= d <= quoted_key(k).len(),
    ensures
        normalized(keys, quoted_key(k).skip(d) + t) == quoted_key(k).skip(d) + normalized(keys, t),
    decreases quoted_key(k).len() - d,
{
    let q = quoted_key(k);
    if d == q.len() {
        assert(q.skip(d) + t =~= t);
        assert(q.skip(d) + normalized(keys, t) =~= normalized(keys, t));
    } else {
        let s = q.skip(d) + t;
        lemma_head_key_none_in_quoted(keys, k, t, d);
        assert(s.len() > 0);
        assert(normalized(keys, s) == seq![s[0]] + normalized(keys, s.skip(1)));
        assert(s.skip(1) =~= q.skip(d + 1) + t);
        lemma_normalized_through_quoted(keys, k, t, d + 1);
        assert(seq![s[0]] + (q.skip(d + 1) + normalized(keys, t)) =~= q.skip(d) + normalized(
            keys,
            t,
        ));
    }
}

/// One witness position of the shape lemma: the normalized text agrees with
/// the input up to `j` and carries an inserted quote there.
pub open spec fn normalized_diverges_at(keys: Seq<Seq<char>>, u: Seq<char>, j: int) -> bool {
    &&& 0 <= j <= u.len()
    &&& j < normalized(keys, u).len()
    &&& normalized(keys, u).take(j) == u.take(j)
    &&& normalized(keys, u)[j] == '"'
}

/// Normalization either leaves the text unchanged, or agrees with it up to
/// some position where it inserts a quote.
proof fn lemma_normalized_shape(keys: Seq<Seq<char>>, u: Seq<char>)
    requires
        keys_wf(keys),
    ensures
        normalized(keys, u) == u || exists|j: int| normalized_diverges_at(keys, u, j),
    decreases u.len(),
{
    if u.len() == 0 {
    } else {
        let hk = head_key(keys, u);
        lemma_head_key(keys, u);
        if hk is Some && key_match(u, hk.unwrap()) {
            assert(normalized(keys, u)[0] == '"');
            assert(normalized(keys, u).take(0) =~= u.take(0));
            assert(normalized_diverges_at(keys, u, 0));
        } else {
            let v = u.skip(1);
            lemma_normalized_shape(keys, v);
            let nv = normalized(keys, v);
            assert(normalized(keys, u) == seq![u[0]] + nv);
            if nv == v {
                assert(normalized(keys, u) =~= u);
            } else {
                let j0 = choose|j: int| normalized_diverges_at(keys, v, j);
                assert((seq![u[0]] + nv).take(j0 + 1) =~= u.take(j0 + 1)) by {
                    assert(nv.take(j0) == v.take(j0));
                    assert(forall|x: int| 0 <= x < j0 ==> nv[x] == v.take(j0)[x]);
                    assert(forall|x: int| 0 <= x < j0 ==> v[x] == u[x + 1]);
                }
                assert((seq![u[0]] + nv)[j0 + 1] == '"');
                assert(normalized_diverges_at(keys, u, j0 + 1));
            }
        }
    }
}

/// The rewriting is idempotent: normalizing already-normalized text changes
/// nothing. This holds for every list of key names that are nonempty and
/// free of `"` and `:`, as the four fixed keys of the payload are.
pub proof fn lemma_normalized_idempotent(keys: Seq<Seq<char>>, s: Seq<char>)
    requires
        keys_wf(keys),
    ensures
        normalized(keys, normalized(keys, s)) == normalized(keys, s),
    decreases s.len(),
{
    if s.len() == 0 {
    } else {
        let hk = head_key(keys, s);
        lemma_head_key(keys, s);
        if hk is Some && key_match(s, hk.unwrap()) {
            let k = hk.unwrap();
            let j = choose|j: int|
                {
                    &&& 0 <= j < keys.len()
                    &&& keys[j] == k
                    &&& key_match(s, k)
                    &&& forall|t: int| 0 <= t < j ==> !key_match(s, #[trigger] keys[t])
                };
            assert(key_wf(k));
            let u = s.skip(k.len() + 1 as int);
            lemma_normalized_idempotent(keys, u);
            let nu = normalized(keys, u);
            assert(normalized(keys, s) == quoted_key(k) + nu);
            lemma_normalized_through_quoted(keys, k, nu, 0);
            assert(quoted_key(k).skip(0) =~= quoted_key(k));
            assert(normalized(keys, quoted_key(k) + nu) == quoted_key(k) + normalized(keys, nu));
        } else {
            let u = s.skip(1);
            lemma_normalized_idempotent(keys, u);
            let t = normalized(keys, u);
            let s2 = seq![s[0]] + t;
            assert(normalized(keys, s) == s2);
            lemma_head_key(keys, s2);
            if head_key(keys, s2) is Some {
                let kp = head_key(keys, s2).unwrap();
                let jp = choose|j: int|
                    {
                        &&& 0 <= j < keys.len()
                        &&& keys[j] == kp
                        &&& key_match(s2, kp)
                        &&& forall|t2: int| 0 <= t2 < j ==> !key_match(s2, #[trigger] keys[t2])
                    };
                assert(key_wf(kp));
                assert(forall|x: int|
                    0 <= x < kp.len() ==> kp[x] == s2.subrange(0, kp.len() as int)[x]);
                assert(forall|x: int| 0 <= x < kp.len() ==> kp[x] == s2[x]);
                lemma_normalized_shape(keys, u);
                if t == u {
                    assert(s2 =~= s);
                    assert(key_match(s, kp));
                } else {
                    let j0 = choose|j: int| normalized_diverges_at(keys, u, j);
                    assert(forall|x: int| 0 <= x < j0 ==> t[x] == u.take(j0)[x]);
                    if kp.len() <= j0 {
                        // the whole pattern lies in text the pass copied
                        // verbatim, so it already matched the input
                        assert(forall|x: int| 1 <= x <= j0 ==> s2[x] == u[x - 1]);
                        assert(forall|x: int| 1 <= x <= j0 ==> s2[x] == s[x]);
                        assert(s.subrange(0, kp.len() as int) =~= kp);
                        assert(s2[kp.len() as int] == ':');
                        assert(s[kp.len() as int] == ':');
                        assert(key_match(s, kp));
                    } else {
                        // the pattern would cover the inserted quote
                        assert(s2[j0 + 1] == t[j0]);
                        assert(t[j0] == '"');
                        if j0 + 1 < kp.len() {
                            assert(kp[j0 + 1] == '"');
                        } else {
                            assert(j0 + 1 == kp.len());
                            assert(s2[kp.len() as int] == ':');
                        }
                    }
                }
                assert(false);
            }
            assert(normalized(keys, s2) == seq![s2[0]] + normalized(keys, s2.skip(1)));
            assert(s2.skip(1) =~= t);
            assert(seq![s2[0]] + t =~= s2);
        }
    }
}

/// The index of the first key of `keys` whose `key:` stands at position `i`
/// of `chars`.
fn find_head_key(chars: &[char], i: usize, keys: &Vec<&str>) -> (r: Option<usize>)
    requires
        i <= chars@.len(),
    ensures
        match r {
            Some(j) => {
                &&& 0 <= j < keys@.len()
                &&& key_match(chars@.skip(i as int), keys@[j as int]@)
                &&& forall|t: int|
                    0 <= t < j ==> !key_match(chars@.skip(i as int), #[trigger] keys@[t]@)
            },
            None => forall|t: int|
                0 <= t < keys@.len() ==> !key_match(chars@.skip(i as int), #[trigger] keys@[t]@),
        },
{
    let ghost rest = chars@.skip(i as int);
    let n = chars.len();
    let mut j: usize = 0;
    while j < keys.len()
        invariant
            j <= keys@.len(),
            i <= n,
            n == chars@.len(),
            rest == chars@.skip(i as int),
            forall|t: int| 0 <= t < j ==> !key_match(rest, #[trigger] keys@[t]@),
        decreases keys@.len() - j,
    {
        let key_chars = to_chars(keys[j]);
        let klen = key_chars.len();
        if i < n && klen <= n - i - 1 {
            let m = crate::frame::chars_match_at(chars, key_chars.as_slice(), i);
            if m && chars[i + klen] == ':' {
                proof {
                    assert(rest.subrange(0, klen as int) =~= chars@.subrange(
                        i as int,
                        i + klen,
                    ));
                    assert(rest[klen as int] == chars@[i + klen]);
                    assert(key_match(rest, keys@[j as int]@));
                }
                return Some(j);
            }
            proof {
                if key_match(rest, keys@[j as int]@) {
                    assert(rest.subrange(0, klen as int) =~= chars@.subrange(i as int, i + klen));
                    assert(rest[klen as int] == chars@[i + klen]);
                    assert(false);
                }
            }
        } else {
            proof {
                if key_match(rest, keys@[j as int]@) {
                    assert(klen + 1 <= rest.len());
                    assert(false);
                }
            }
        }
        j = j + 1;
    }
    None
}

} // verus!
