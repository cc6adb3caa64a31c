//! The broker's topic routing, modelled: a binding pattern and a routing
//! key split into words at the dots; `*` matches exactly one word, `#`
//! matches any run of words, and any other pattern word matches only
//! itself. A topic consumer receives a publish exactly when the exchanges
//! agree and the pattern matches the routing key.

use crate::consumer::{Consumer, ConsumerType};
use vstd::prelude::*;

verus! {

/// The dot separating words.
pub const DOT: u8 = 0x2e;

/// Index of the first dot in `s`, or `s.len()` if there is none.
pub open spec fn first_dot(s: Seq<u8>) -> int
    decreases s.len(),
{
    if s.len() == 0 {
        0
    } else if s[0] == DOT {
        0
    } else {
        1 + first_dot(s.skip(1))
    }
}

/// `first_dot` points at a dot within bounds, or just past the end when
/// there is no dot, and nothing before it is a dot.
pub proof fn lemma_first_dot(s: Seq<u8>)
    ensures
        0 <= first_dot(s) <= s.len(),
        first_dot(s) < s.len() ==> s[first_dot(s)] == DOT,
        forall|j: int| 0 <= j < first_dot(s) ==> s[j] != DOT,
    decreases s.len(),
{
    if s.len() > 0 && s[0] != DOT {
        lemma_first_dot(s.skip(1));
        let f = first_dot(s);
        assert forall|j: int| 0 <= j < f implies s[j] != DOT by {
            if j > 0 {
                assert(s.skip(1)[j - 1] != DOT);
            }
        }
        if f < s.len() {
            assert(s[f] == s.skip(1)[f - 1]);
        }
    }
}

/// The words of `s`, split at the dots; empty words are kept.
pub open spec fn split_words(s: Seq<u8>) -> Seq<Seq<u8>>
    decreases s.len(),
{
    let i = first_dot(s);
    if 0 <= i < s.len() {
        seq![s.subrange(0, i)] + split_words(s.skip(i + 1))
    } else {
        seq![s]
    }
}

/// The single-byte word `*`.
pub open spec fn star_word() -> Seq<u8> {
    seq![0x2au8]
}

/// The single-byte word `#`.
pub open spec fn hash_word() -> Seq<u8> {
    seq![0x23u8]
}

/// Whether pattern words `p` match key words `k`: `#` absorbs any run of
/// words, `*` exactly one, and any other word only its own spelling.
pub open spec fn words_match(p: Seq<Seq<u8>>, k: Seq<Seq<u8>>) -> bool
    decreases p.len() + k.len(),
{
    if p.len() == 0 {
        k.len() == 0
    } else if p[0] == hash_word() {
        ||| words_match(p.skip(1), k)
        ||| (k.len() > 0 && words_match(p, k.skip(1)))
    } else if k.len() == 0 {
        false
    } else {
        (p[0] == star_word() || p[0] == k[0]) && words_match(p.skip(1), k.skip(1))
    }
}

/// Whether routing key `key` matches binding pattern `pattern`.
pub open spec fn topic_matches(pattern: Seq<u8>, key: Seq<u8>) -> bool {
    words_match(split_words(pattern), split_words(key))
}

/// Copies `s[from..to]` into a fresh vector.
fn copy_range(s: &Vec<u8>, from: usize, to: usize) -> (r: Vec<u8>)
    requires
        from <= to <= s@.len(),
    ensures
        r@ == s@.subrange(from as int, to as int),
{
    let mut out: Vec<u8> = Vec::new();
    let mut i: usize = from;
    while i < to
        invariant
            from <= i <= to <= s@.len(),
            out@ == s@.subrange(from as int, i as int),
        decreases to - i,
    {
        out.push(s[i]);
        proof {
            assert(out@ =~= s@.subrange(from as int, i + 1));
        }
        i = i + 1;
    }
    out
}

/// Splits `s` into its words, starting at `from`.
fn split_from(s: &Vec<u8>, from: usize) -> (r: Vec<Vec<u8>>)
    requires
        from <= s@.len(),
    ensures
        r@.map_values(|w: Vec<u8>| w@) == split_words(s@.skip(from as int)),
    decreases s@.len() - from,
{
    let ghost su = s@.skip(from as int);
    let mut i: usize = from;
    while i < s.len() && s[i] != DOT
        invariant
            from <= i <= s@.len(),
            su == s@.skip(from as int),
            forall|j: int| from <= j < i ==> s@[j] != DOT,
            i < s@.len() ==> s@[i as int] == s@[i as int],
        decreases s@.len() - i,
    {
        i = i + 1;
    }
    proof {
        lemma_first_dot(su);
        // The scan found the first dot (or the end): the two agree.
        assert forall|j: int| 0 <= j < i - from implies su[j] != DOT by {
            assert(su[j] == s@[from + j]);
        }
        if i < s@.len() {
            assert(su[i - from] == s@[i as int]);
            assert(su[i - from] == DOT);
            if first_dot(su) < i - from {
                assert(su[first_dot(su)] == DOT);
            }
            if first_dot(su) > i - from {
                assert(su[i - from] != DOT);
            }
            assert(first_dot(su) == i - from);
        } else {
            if first_dot(su) < su.len() {
                assert(su[first_dot(su)] == DOT);
            }
            assert(first_dot(su) == su.len());
        }
    }
    let word = copy_range(s, from, i);
    proof {
        assert(word@ =~= su.subrange(0, i - from));
    }
    if i == s.len() {
        let mut r: Vec<Vec<u8>> = Vec::new();
        r.push(word);
        proof {
            assert(word@ =~= su);
            assert(r@.map_values(|w: Vec<u8>| w@) =~= seq![su]);
        }
        r
    } else {
        let rest = split_from(s, i + 1);
        let mut r: Vec<Vec<u8>> = Vec::new();
        r.push(word);
        let mut rest = rest;
        r.append(&mut rest);
        proof {
            assert(s@.skip(i + 1) =~= su.skip(i - from + 1));
            assert(r@.map_values(|w: Vec<u8>| w@) =~= seq![su.subrange(0, i - from)]
                + split_words(su.skip(i - from + 1)));
        }
        r
    }
}

/// Whether two byte vectors hold the same bytes.
fn bytes_eq(a: &Vec<u8>, b: &Vec<u8>) -> (r: bool)
    ensures
        r == (a@ == b@),
{
    if a.len() != b.len() {
        return false;
    }
    let mut i: usize = 0;
    while i < a.len()
        invariant
            a@.len() == b@.len(),
            i <= a@.len(),
            forall|j: int| 0 <= j < i ==> a@[j] == b@[j],
        decreases a@.len() - i,
    {
        if a[i] != b[i] {
            return false;
        }
        i = i + 1;
    }
    proof {
        assert(a@ =~= b@);
    }
    true
}

/// Whether `w` is the one-byte word `b`.
fn is_single(w: &Vec<u8>, b: u8) -> (r: bool)
    ensures
        r == (w@ == seq![b]),
{
    if w.len() == 1 && w[0] == b {
        proof {
            assert(w@ =~= seq![b]);
        }
        true
    } else {
        proof {
            if w@.len() == 1 {
                assert(w@[0] != b);
            }
        }
        false
    }
}

/// Whether pattern words from `pi` on match key words from `ki` on.
fn words_match_from(p: &Vec<Vec<u8>>, k: &Vec<Vec<u8>>, pi: usize, ki: usize) -> (r: bool)
    requires
        pi <= p@.len(),
        ki <= k@.len(),
    ensures
        r == words_match(
            p@.map_values(|w: Vec<u8>| w@).skip(pi as int),
            k@.map_values(|w: Vec<u8>| w@).skip(ki as int),
        ),
    decreases p@.len() - pi + k@.len() - ki,
{
    let ghost pm = p@.map_values(|w: Vec<u8>| w@).skip(pi as int);
    let ghost km = k@.map_values(|w: Vec<u8>| w@).skip(ki as int);
    if pi == p.len() {
        proof {
            if ki < k@.len() {
                assert(km.len() > 0);
            }
        }
        return ki == k.len();
    }
    proof {
        assert(pm[0] == p@.map_values(|w: Vec<u8>| w@)[pi as int]);
        assert(pm.skip(1) =~= p@.map_values(|w: Vec<u8>| w@).skip(pi + 1));
        if ki < k@.len() {
            assert(km[0] == k@.map_values(|w: Vec<u8>| w@)[ki as int]);
            assert(km.skip(1) =~= k@.map_values(|w: Vec<u8>| w@).skip(ki + 1));
        }
    }
    if is_single(&p[pi], 0x23) {
        if words_match_from(p, k, pi + 1, ki) {
            return true;
        }
        if ki < k.len() && words_match_from(p, k, pi, ki + 1) {
            return true;
        }
        return false;
    }
    if ki == k.len() {
        return false;
    }
    let head_ok = is_single(&p[pi], 0x2a) || bytes_eq(&p[pi], &k[ki]);
    head_ok && words_match_from(p, k, pi + 1, ki + 1)
}

/// Whether routing key `key` matches binding pattern `pattern`,
/// executable.
pub fn topic_route_matches(pattern: &Vec<u8>, key: &Vec<u8>) -> (r: bool)
    ensures
        r == topic_matches(pattern@, key@),
{
    let pw = split_from(pattern, 0);
    let kw = split_from(key, 0);
    proof {
        assert(pattern@.skip(0) =~= pattern@);
        assert(key@.skip(0) =~= key@);
        assert(pw@.map_values(|w: Vec<u8>| w@).skip(0) =~= pw@.map_values(|w: Vec<u8>| w@));
        assert(kw@.map_values(|w: Vec<u8>| w@).skip(0) =~= kw@.map_values(|w: Vec<u8>| w@));
    }
    words_match_from(&pw, &kw, 0, 0)
}

/// Whether a publish on `exchange` under `routing_key` is delivered to
/// topic consumer `c`: the exchanges must agree and the routing key must
/// match the consumer's binding pattern.
pub fn topic_delivered(c: &Consumer, exchange: &Vec<u8>, routing_key: &Vec<u8>) -> (r: bool)
    ensures
        r == (c.kind == ConsumerType::Topic && c.exchange@ == exchange@ && topic_matches(
            c.topic_pattern@,
            routing_key@,
        )),
{
    matches!(c.kind, ConsumerType::Topic) && bytes_eq(&c.exchange, exchange)
        && topic_route_matches(&c.topic_pattern, routing_key)
}

} // verus!
