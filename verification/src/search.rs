//! Byte-level substring search and replacement.
//!
//! The proxy rewrites workspace paths inside raw JSON bodies, so the whole
//! rewriting story rests on these functions: leftmost substring search,
//! replacement of every occurrence, and the laws that the rewrite relies on
//! (replacement with an absent needle is the identity; a replacement can be
//! undone by the reverse replacement).

use vstd::prelude::*;

verus! {

/// True when `n` occurs in `h` starting at position `i`.
pub open spec fn match_at(h: Seq<u8>, n: Seq<u8>, i: int) -> bool {
    0 <= i && i + n.len() <= h.len() && h.subrange(i, i + n.len() as int) == n
}

/// True when `n` occurs somewhere in `h`.
pub open spec fn contains_seq(h: Seq<u8>, n: Seq<u8>) -> bool {
    exists|i: int| match_at(h, n, i)
}

/// Position of the leftmost occurrence of `n` in `h` at or after `from`.
pub open spec fn first_match_from(h: Seq<u8>, n: Seq<u8>, from: int) -> Option<int>
    decreases h.len() - from + 1,
{
    if from < 0 || from + n.len() > h.len() {
        None
    } else if match_at(h, n, from) {
        Some(from)
    } else {
        first_match_from(h, n, from + 1)
    }
}

/// Position of the leftmost occurrence of `n` in `h`.
pub open spec fn first_match(h: Seq<u8>, n: Seq<u8>) -> Option<int> {
    first_match_from(h, n, 0)
}

/// The leftmost match is a match, nothing before it matches, and a `None`
/// answer means nothing at or after `from` matches.
pub proof fn lemma_first_match_from_props(h: Seq<u8>, n: Seq<u8>, from: int)
    requires
        0 <= from,
    ensures
        match first_match_from(h, n, from) {
            Some(i) => from <= i && match_at(h, n, i) && forall|j: int|
                from <= j < i ==> !match_at(h, n, j),
            None => forall|j: int| from <= j ==> !match_at(h, n, j),
        },
    decreases h.len() - from + 1,
{
    if from + n.len() > h.len() {
        assert forall|j: int| from <= j implies !match_at(h, n, j) by {}
    } else if match_at(h, n, from) {
    } else {
        lemma_first_match_from_props(h, n, from + 1);
    }
}

/// A `None` first match means the needle does not occur at all.
pub proof fn lemma_no_first_match_not_contains(h: Seq<u8>, n: Seq<u8>)
    requires
        first_match(h, n) is None,
    ensures
        !contains_seq(h, n),
{
    lemma_first_match_from_props(h, n, 0);
}

/// An occurrence of `n` at `j >= k` in `h` is an occurrence at `j - k` in
/// `h.skip(k)`, and the leftmost matches correspond.
pub proof fn lemma_first_match_skip(h: Seq<u8>, n: Seq<u8>, k: int)
    requires
        0 <= k <= h.len(),
    ensures
        first_match_from(h, n, k) == match first_match(h.skip(k), n) {
            None => None::<int>,
            Some(i) => Some(i + k),
        },
    decreases h.len() - k,
{
    assert forall|j: int| 0 <= j implies match_at(h, n, j + k) == match_at(h.skip(k), n, j) by {
        if 0 <= j && j + n.len() <= h.skip(k).len() {
            assert(h.skip(k).subrange(j, j + n.len() as int) =~= h.subrange(
                j + k,
                j + k + n.len() as int,
            ));
        }
    }
    lemma_first_match_skip_offset(h, n, k, 0);
}

/// As [`lemma_first_match_skip`], but for a search that starts at offset
/// `d` inside the skipped sequence.
pub proof fn lemma_first_match_skip_offset(h: Seq<u8>, n: Seq<u8>, k: int, d: int)
    requires
        0 <= k <= h.len(),
        0 <= d,
    ensures
        first_match_from(h, n, k + d) == match first_match_from(h.skip(k), n, d) {
            None => None::<int>,
            Some(i) => Some(i + k),
        },
    decreases h.len() - k - d + 1,
{
    let hs = h.skip(k);
    if d + n.len() > hs.len() {
    } else {
        if match_at(hs, n, d) {
            assert(h.subrange(k + d, k + d + n.len() as int) =~= hs.subrange(
                d,
                d + n.len() as int,
            ));
        } else {
            if match_at(h, n, k + d) {
                assert(hs.subrange(d, d + n.len() as int) =~= h.subrange(
                    k + d,
                    k + d + n.len() as int,
                ));
            }
            lemma_first_match_skip_offset(h, n, k, d + 1);
        }
    }
}

/// Leftmost occurrence of `n` in `h` at or after `from`, as executable code.
pub fn find_from(h: &[u8], n: &[u8], from: usize) -> (r: Option<usize>)
    ensures
        match r {
            Some(i) => first_match_from(h@, n@, from as int) == Some(i as int),
            None => first_match_from(h@, n@, from as int) is None,
        },
{
    let hl = h.len();
    let nl = n.len();
    if from > hl {
        return None;
    }
    if nl == 0 {
        proof {
            assert(h@.subrange(from as int, from as int) =~= n@);
        }
        return Some(from);
    }
    if nl > hl - from {
        return None;
    }
    let mut i: usize = from;
    while i <= hl - nl
        invariant
            from <= i <= hl,
            1 <= nl <= hl,
            hl == h@.len(),
            nl == n@.len(),
            first_match_from(h@, n@, from as int) == first_match_from(h@, n@, i as int),
        decreases hl - i,
    {
        let mut k: usize = 0;
        let mut eq = true;
        while k < nl
            invariant
                0 <= k <= nl,
                i + nl <= hl,
                hl == h@.len(),
                nl == n@.len(),
                eq ==> h@.subrange(i as int, i + k) =~= n@.subrange(0, k as int),
                !eq ==> !match_at(h@, n@, i as int),
            decreases nl - k,
        {
            if h[i + k] != n[k] {
                proof {
                    if match_at(h@, n@, i as int) {
                        assert(h@.subrange(i as int, i + nl)[k as int] == n@[k as int]);
                    }
                }
                eq = false;
                k = nl;
            } else {
                proof {
                    if eq {
                        assert(h@.subrange(i as int, i + k + 1) =~= n@.subrange(0, k + 1));
                    }
                }
                k = k + 1;
            }
        }
        if eq {
            proof {
                assert(h@.subrange(i as int, i + nl) =~= n@.subrange(0, nl as int));
                assert(n@.subrange(0, nl as int) =~= n@);
            }
            return Some(i);
        }
        proof {
            assert(first_match_from(h@, n@, i as int) == first_match_from(h@, n@, i + 1));
        }
        i = i + 1;
    }
    None
}

/// Leftmost occurrence of `n` in `h`.
pub fn find_sub(h: &[u8], n: &[u8]) -> (r: Option<usize>)
    ensures
        match r {
            Some(i) => first_match(h@, n@) == Some(i as int),
            None => first_match(h@, n@) is None,
        },
{
    find_from(h, n, 0)
}

/// Whether `n` occurs in `h`.
pub fn contains_sub(h: &[u8], n: &[u8]) -> (r: bool)
    ensures
        r == contains_seq(h@, n@),
{
    proof {
        lemma_first_match_from_props(h@, n@, 0);
    }
    find_from(h, n, 0).is_some()
}

/// `h` with every occurrence of `from` replaced by `to`, scanning left to
/// right and never rescanning replaced text.
pub open spec fn replace_seq(h: Seq<u8>, from: Seq<u8>, to: Seq<u8>) -> Seq<u8>
    decreases h.len(),
    via replace_seq_decreases
{
    if from.len() == 0 {
        h
    } else {
        match first_match(h, from) {
            None => h,
            Some(i) => h.subrange(0, i) + to + replace_seq(
                h.skip(i + from.len() as int),
                from,
                to,
            ),
        }
    }
}

#[via_fn]
proof fn replace_seq_decreases(h: Seq<u8>, from: Seq<u8>, to: Seq<u8>) {
    if from.len() > 0 {
        lemma_first_match_from_props(h, from, 0);
    }
}

/// Replacing an absent needle changes nothing.
pub proof fn lemma_replace_absent(h: Seq<u8>, from: Seq<u8>, to: Seq<u8>)
    requires
        !contains_seq(h, from),
    ensures
        replace_seq(h, from, to) == h,
{
    if from.len() > 0 {
        lemma_first_match_from_props(h, from, 0);
    }
}

/// Replace every occurrence of `from` by `to`, as executable code.
pub fn replace_all(h: &[u8], from: &[u8], to: &[u8]) -> (r: Vec<u8>)
    requires
        from@.len() > 0,
    ensures
        r@ == replace_seq(h@, from@, to@),
{
    let mut out: Vec<u8> = Vec::new();
    let mut k: usize = 0;
    proof {
        assert(h@.skip(0) =~= h@);
        assert(out@ + replace_seq(h@, from@, to@) =~= replace_seq(h@, from@, to@));
    }
    loop
        invariant
            k <= h@.len(),
            from@.len() > 0,
            h@.len() == h.len(),
            replace_seq(h@, from@, to@) == out@ + replace_seq(h@.skip(k as int), from@, to@),
        decreases h@.len() - k,
    {
        proof {
            lemma_first_match_skip(h@, from@, k as int);
        }
        match find_from(h, from, k) {
            None => {
                let ghost out0 = out@;
                let mut j: usize = k;
                while j < h.len()
                    invariant
                        k <= j <= h@.len(),
                        h@.len() == h.len(),
                        out@ == out0 + h@.subrange(k as int, j as int),
                    decreases h@.len() - j,
                {
                    out.push(h[j]);
                    proof {
                        assert(out@ =~= out0 + h@.subrange(k as int, j + 1));
                    }
                    j = j + 1;
                }
                proof {
                    assert(first_match(h@.skip(k as int), from@) is None);
                    assert(h@.subrange(k as int, h@.len() as int) =~= h@.skip(k as int));
                    assert(out@ =~= out0 + replace_seq(h@.skip(k as int), from@, to@));
                }
                return out;
            },
            Some(i) => {
                proof {
                    lemma_first_match_from_props(h@, from@, k as int);
                }
                let ghost out0 = out@;
                let mut j: usize = k;
                while j < i
                    invariant
                        k <= j <= i,
                        i <= h@.len(),
                        h@.len() == h.len(),
                        out@ == out0 + h@.subrange(k as int, j as int),
                    decreases i - j,
                {
                    out.push(h[j]);
                    proof {
                        assert(out@ =~= out0 + h@.subrange(k as int, j + 1));
                    }
                    j = j + 1;
                }
                let ghost out1 = out@;
                let mut t: usize = 0;
                while t < to.len()
                    invariant
                        t <= to@.len(),
                        to@.len() == to.len(),
                        out@ == out1 + to@.subrange(0, t as int),
                    decreases to@.len() - t,
                {
                    out.push(to[t]);
                    proof {
                        assert(out@ =~= out1 + to@.subrange(0, t + 1));
                    }
                    t = t + 1;
                }
                proof {
                    let hk = h@.skip(k as int);
                    assert(first_match(hk, from@) == Some(i - k));
                    assert(replace_seq(hk, from@, to@) == hk.subrange(0, i - k) + to@
                        + replace_seq(hk.skip(i - k + from@.len() as int), from@, to@));
                    assert(hk.subrange(0, i - k) =~= h@.subrange(k as int, i as int));
                    assert(hk.skip(i - k + from@.len() as int) =~= h@.skip(
                        i + from@.len() as int,
                    ));
                    assert(to@.subrange(0, to@.len() as int) =~= to@);
                    assert(out@ =~= out0 + h@.subrange(k as int, i as int) + to@);
                }
                k = i + from.len();
            },
        }
    }
}

/// A replacement of `a` by `b` in `s` can be undone by the reverse
/// replacement exactly when the reverse scan finds the inserted copies of
/// `b` and nothing else: at each rewriting step, the leftmost occurrence of
/// `b` in the rewritten text is the copy that the step inserted.
pub open spec fn invertible(s: Seq<u8>, a: Seq<u8>, b: Seq<u8>) -> bool
    decreases s.len(),
    via invertible_decreases
{
    if a.len() == 0 {
        false
    } else {
        match first_match(s, a) {
            None => first_match(s, b) is None,
            Some(i) => first_match(replace_seq(s, a, b), b) == Some(i) && invertible(
                s.skip(i + a.len() as int),
                a,
                b,
            ),
        }
    }
}

#[via_fn]
proof fn invertible_decreases(s: Seq<u8>, a: Seq<u8>, b: Seq<u8>) {
    if a.len() > 0 {
        lemma_first_match_from_props(s, a, 0);
    }
}

/// Path inversion: applying the client-to-server replacement and then the
/// server-to-client replacement returns the original bytes, whenever the
/// rewrite is invertible in the sense of [`invertible`].
pub proof fn lemma_replace_inversion(s: Seq<u8>, a: Seq<u8>, b: Seq<u8>)
    requires
        a.len() > 0,
        b.len() > 0,
        invertible(s, a, b),
    ensures
        replace_seq(replace_seq(s, a, b), b, a) == s,
    decreases s.len(),
{
    lemma_first_match_from_props(s, a, 0);
    match first_match(s, a) {
        None => {
            lemma_replace_absent(s, a, b);
            lemma_no_first_match_not_contains(s, b);
            lemma_replace_absent(s, b, a);
        },
        Some(i) => {
            let tail = s.skip(i + a.len() as int);
            let rep_tail = replace_seq(tail, a, b);
            let rep = replace_seq(s, a, b);
            assert(rep == s.subrange(0, i) + b + rep_tail);
            assert(first_match(rep, b) == Some(i));
            lemma_first_match_from_props(rep, b, 0);
            assert(replace_seq(rep, b, a) == rep.subrange(0, i) + a + replace_seq(
                rep.skip(i + b.len() as int),
                b,
                a,
            ));
            assert(rep.subrange(0, i) =~= s.subrange(0, i));
            assert(rep.skip(i + b.len() as int) =~= rep_tail);
            lemma_replace_inversion(tail, a, b);
            assert(s.subrange(i, i + a.len() as int) == a);
            assert(s.subrange(0, i) + a + tail =~= s);
        },
    }
}

/// `b` cannot overlap itself: no proper prefix of `b` is also a suffix of
/// `b`.
pub open spec fn no_self_overlap(b: Seq<u8>) -> bool {
    forall|k: int| 0 < k < b.len() ==> b.skip(k) != #[trigger] b.take(b.len() - k)
}

/// A sufficient condition for [`invertible`], checkable without running the
/// replacement: the rewrite of `a` by `b` in `s` can be undone whenever `b`
/// does not occur in `s` and cannot overlap itself — then no copy of `b`
/// can arise other than the inserted ones.
pub proof fn lemma_no_overlap_invertible(s: Seq<u8>, a: Seq<u8>, b: Seq<u8>)
    requires
        a.len() > 0,
        b.len() > 0,
        !contains_seq(s, b),
        no_self_overlap(b),
    ensures
        invertible(s, a, b),
    decreases s.len(),
{
    lemma_first_match_from_props(s, a, 0);
    match first_match(s, a) {
        None => {
            lemma_first_match_from_props(s, b, 0);
            match first_match(s, b) {
                None => {},
                Some(j) => {
                    assert(contains_seq(s, b));
                },
            }
        },
        Some(i) => {
            let tail = s.skip(i + a.len() as int);
            let rep = replace_seq(s, a, b);
            let rep_tail = replace_seq(tail, a, b);
            assert(rep == s.subrange(0, i) + b + rep_tail);

            // the inserted copy is an occurrence
            assert(match_at(rep, b, i)) by {
                assert(rep.subrange(i, i + b.len() as int) =~= b);
            }

            // and nothing before it is one
            assert forall|p: int| 0 <= p < i implies !match_at(rep, b, p) by {
                if match_at(rep, b, p) {
                    if p + b.len() <= i {
                        assert(match_at(s, b, p)) by {
                            assert(s.subrange(p, p + b.len() as int) =~= rep.subrange(
                                p,
                                p + b.len() as int,
                            ));
                        }
                        assert(contains_seq(s, b));
                    } else {
                        // the occurrence runs into the inserted copy, so a
                        // proper prefix of b would equal a suffix of b
                        let k = i - p;
                        assert(0 < k < b.len());
                        assert forall|u: int| 0 <= u < b.len() - k implies b.skip(k)[u] == b.take(
                            b.len() - k,
                        )[u] by {
                            assert(rep.subrange(p, p + b.len() as int)[k + u] == b[k + u]);
                            assert(rep[p + k + u] == b[k + u]);
                            assert(rep[i + u] == b[u]);
                        }
                        assert(b.skip(k) =~= b.take(b.len() - k));
                        assert(false);
                    }
                }
            }
            assert(first_match(rep, b) == Some(i)) by {
                lemma_first_match_from_props(rep, b, 0);
                match first_match(rep, b) {
                    None => {
                        assert(false);
                    },
                    Some(q) => {
                        if q < i {
                            assert(false);
                        }
                        if q > i {
                            assert(false);
                        }
                    },
                }
            }

            // the rest of the body has no copy of b either
            assert(!contains_seq(tail, b)) by {
                if contains_seq(tail, b) {
                    let p = choose|p: int| match_at(tail, b, p);
                    assert(match_at(s, b, p + i + a.len())) by {
                        assert(s.subrange(
                            p + i + a.len(),
                            p + i + a.len() + b.len(),
                        ) =~= tail.subrange(p, p + b.len() as int));
                    }
                    assert(contains_seq(s, b));
                }
            }
            lemma_no_overlap_invertible(tail, a, b);
        },
    }
}

} // verus!
