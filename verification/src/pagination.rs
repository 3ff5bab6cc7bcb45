//! The shared pagination cursor: a bounded, filtered scan over an ordered
//! record sequence, and the laws that make successive pages chain without
//! gaps or repeats.

use vstd::prelude::*;

verus! {

/// The page a cursor scan returns: walk `s` from index `i`, keep the
/// elements satisfying `p`, and stop once `limit` of them are collected.
pub open spec fn page_from<A>(s: Seq<A>, i: int, limit: int, p: spec_fn(A) -> bool) -> Seq<A>
    decreases s.len() - i,
{
    if i >= s.len() || limit <= 0 {
        Seq::empty()
    } else if p(s[i]) {
        seq![s[i]] + page_from(s, i + 1, limit - 1, p)
    } else {
        page_from(s, i + 1, limit, p)
    }
}

/// The index at which the scan producing `page_from(s, i, limit, p)` stops:
/// just past the last element taken when the limit was exhausted, or the end
/// of the sequence otherwise.
pub open spec fn page_end<A>(s: Seq<A>, i: int, limit: int, p: spec_fn(A) -> bool) -> int
    decreases s.len() - i,
{
    if i >= s.len() || limit <= 0 {
        i
    } else if p(s[i]) {
        page_end(s, i + 1, limit - 1, p)
    } else {
        page_end(s, i + 1, limit, p)
    }
}

/// Every element of `s` from index `i` on that satisfies `p`, in order:
/// the complete result an unbounded scan would return.
pub open spec fn filtered_from<A>(s: Seq<A>, i: int, p: spec_fn(A) -> bool) -> Seq<A>
    decreases s.len() - i,
{
    if i >= s.len() {
        Seq::empty()
    } else if p(s[i]) {
        seq![s[i]] + filtered_from(s, i + 1, p)
    } else {
        filtered_from(s, i + 1, p)
    }
}

/// The scan position a full-range cursor resumes at: just after the
/// `start_after` identifier, or the first record without one. Record `id`
/// lives at position `id - 1`, so the exclusive-start identifier is itself
/// the first position scanned.
pub open spec fn start_index(start_after: Option<u64>) -> int {
    match start_after {
        None => 0,
        Some(s) => s as int,
    }
}

/// The page size actually applied: the requested limit, or 10 if none was
/// given.
pub open spec fn effective_limit(limit: Option<u32>) -> int {
    match limit {
        None => 10,
        Some(l) => l as int,
    }
}

/// A clamped contiguous slice: up to `l` elements of `s` starting at
/// position `i`. A start past the end yields an empty slice.
pub open spec fn window<A>(s: Seq<A>, i: int, l: int) -> Seq<A> {
    let n = s.len() as int;
    let lo = if i < 0 {
        0
    } else if i <= n {
        i
    } else {
        n
    };
    let hi = if l < 0 {
        lo
    } else if lo + l <= n {
        lo + l
    } else {
        n
    };
    s.subrange(lo, hi)
}

/// A page never holds more than `limit` elements.
pub proof fn lemma_page_len<A>(s: Seq<A>, i: int, limit: int, p: spec_fn(A) -> bool)
    requires
        0 <= limit,
    ensures
        page_from(s, i, limit, p).len() <= limit,
    decreases s.len() - i,
{
    if i >= s.len() || limit <= 0 {
    } else if p(s[i]) {
        lemma_page_len(s, i + 1, limit - 1, p);
    } else {
        lemma_page_len(s, i + 1, limit, p);
    }
}

/// Splitting a scan of `l1 + l2` elements at the point where the first `l1`
/// were collected loses nothing and repeats nothing: the page of `l1 + l2`
/// is exactly the page of `l1` followed by the page of `l2` resumed at the
/// first scan's stopping point.
pub proof fn lemma_page_concat<A>(s: Seq<A>, i: int, l1: int, l2: int, p: spec_fn(A) -> bool)
    requires
        0 <= l1,
        0 <= l2,
    ensures
        page_from(s, i, l1 + l2, p) == page_from(s, i, l1, p) + page_from(
            s,
            page_end(s, i, l1, p),
            l2,
            p,
        ),
    decreases s.len() - i,
{
    if i >= s.len() {
        assert(page_end(s, i, l1, p) == i);
        assert(page_from(s, i, l1 + l2, p) =~= page_from(s, i, l1, p) + page_from(s, i, l2, p));
    } else if l1 == 0 {
        assert(page_end(s, i, l1, p) == i);
        assert(page_from(s, i, l1 + l2, p) =~= page_from(s, i, l1, p) + page_from(s, i, l2, p));
    } else if p(s[i]) {
        lemma_page_concat(s, i + 1, l1 - 1, l2, p);
        if l1 + l2 > 0 {
            assert(page_from(s, i, l1 + l2, p) =~= page_from(s, i, l1, p) + page_from(
                s,
                page_end(s, i, l1, p),
                l2,
                p,
            ));
        }
    } else {
        lemma_page_concat(s, i + 1, l1, l2, p);
    }
}

/// A full page ends just past its last element, which the scan took.
pub proof fn lemma_page_last<A>(s: Seq<A>, i: int, limit: int, p: spec_fn(A) -> bool)
    requires
        0 <= i <= s.len(),
        0 < limit,
        page_from(s, i, limit, p).len() == limit,
    ensures
        i < page_end(s, i, limit, p) <= s.len(),
        page_from(s, i, limit, p).last() == s[page_end(s, i, limit, p) - 1],
        p(s[page_end(s, i, limit, p) - 1]),
    decreases s.len() - i,
{
    lemma_page_len(s, i, limit, p);
    if i >= s.len() {
        assert(page_from(s, i, limit, p).len() == 0);
    } else if p(s[i]) {
        if limit == 1 {
            assert(page_from(s, i + 1, 0, p) =~= Seq::<A>::empty());
            assert(page_end(s, i, limit, p) == page_end(s, i + 1, 0, p));
            assert(page_end(s, i + 1, 0, p) == i + 1);
            assert(page_from(s, i, limit, p) =~= seq![s[i]]);
        } else {
            lemma_page_last(s, i + 1, limit - 1, p);
            let rest = page_from(s, i + 1, limit - 1, p);
            assert(rest.len() == limit - 1 > 0);
            assert(page_from(s, i, limit, p).last() == rest.last());
        }
    } else {
        lemma_page_last(s, i + 1, limit, p);
    }
}

/// A page shorter than its limit is the last page: it already holds every
/// remaining matching element, and the scan ran to the end of the sequence.
pub proof fn lemma_page_exhausted<A>(s: Seq<A>, i: int, limit: int, p: spec_fn(A) -> bool)
    requires
        0 <= i <= s.len(),
        page_from(s, i, limit, p).len() < limit,
    ensures
        page_from(s, i, limit, p) == filtered_from(s, i, p),
        page_end(s, i, limit, p) == s.len(),
    decreases s.len() - i,
{
    if i >= s.len() {
        assert(filtered_from(s, i, p) =~= Seq::<A>::empty());
    } else if p(s[i]) {
        lemma_page_exhausted(s, i + 1, limit - 1, p);
    } else {
        lemma_page_exhausted(s, i + 1, limit, p);
        assert(page_from(s, i, limit, p) == filtered_from(s, i, p));
    }
}

/// Bounding a scan does not change what it returns, beyond cutting it off:
/// a scan with a larger limit extends the shorter one.
pub proof fn lemma_page_prefix<A>(s: Seq<A>, i: int, l1: int, l2: int, p: spec_fn(A) -> bool)
    requires
        0 <= i,
        0 <= l1 <= l2,
    ensures
        page_from(s, i, l1, p).len() <= page_from(s, i, l2, p).len(),
        page_from(s, i, l1, p) == page_from(s, i, l2, p).take(
            page_from(s, i, l1, p).len() as int,
        ),
    decreases s.len() - i,
{
    lemma_page_len(s, i, l1, p);
    if i >= s.len() || l1 <= 0 {
        assert(page_from(s, i, l1, p) =~= page_from(s, i, l2, p).take(0));
    } else if p(s[i]) {
        lemma_page_prefix(s, i + 1, l1 - 1, l2 - 1, p);
        let a = page_from(s, i, l1, p);
        let b = page_from(s, i, l2, p);
        let ra = page_from(s, i + 1, l1 - 1, p);
        let rb = page_from(s, i + 1, l2 - 1, p);
        assert(a == seq![s[i]] + ra);
        assert(b == seq![s[i]] + rb);
        assert(ra == rb.take(ra.len() as int));
        assert forall|k: int| 0 <= k < a.len() implies a[k] == b[k] by {
            if k > 0 {
                assert(a[k] == ra[k - 1]);
                assert(ra[k - 1] == rb.take(ra.len() as int)[k - 1]);
                assert(rb.take(ra.len() as int)[k - 1] == rb[k - 1]);
            }
        }
        assert(a =~= b.take(a.len() as int));
    } else {
        lemma_page_prefix(s, i + 1, l1, l2, p);
    }
}

/// Everything a page returns satisfies the filter and comes from the
/// scanned part of the sequence.
pub proof fn lemma_page_elements<A>(s: Seq<A>, i: int, limit: int, p: spec_fn(A) -> bool)
    requires
        0 <= i,
    ensures
        forall|k: int|
            0 <= k < page_from(s, i, limit, p).len() ==> #[trigger] p(page_from(s, i, limit, p)[k]),
        forall|k: int|
            0 <= k < page_from(s, i, limit, p).len() ==> exists|j: int|
                i <= j < s.len() && s[j] == #[trigger] page_from(s, i, limit, p)[k],
    decreases s.len() - i,
{
    if i >= s.len() || limit <= 0 {
    } else if p(s[i]) {
        lemma_page_elements(s, i + 1, limit - 1, p);
        let pg = page_from(s, i, limit, p);
        let rest = page_from(s, i + 1, limit - 1, p);
        assert forall|k: int| 0 <= k < pg.len() implies #[trigger] p(pg[k]) && exists|j: int|
            i <= j < s.len() && s[j] == pg[k] by {
            if k == 0 {
                assert(s[i] == pg[0]);
            } else {
                assert(pg[k] == rest[k - 1]);
                let j = choose|j: int| i + 1 <= j < s.len() && s[j] == rest[k - 1];
                assert(i <= j < s.len() && s[j] == pg[k]);
            }
        }
    } else {
        lemma_page_elements(s, i + 1, limit, p);
        let pg = page_from(s, i, limit, p);
        assert(pg == page_from(s, i + 1, limit, p));
        assert forall|k: int| 0 <= k < pg.len() implies #[trigger] p(pg[k]) && exists|j: int|
            i <= j < s.len() && s[j] == pg[k] by {
            assert(pg[k] == page_from(s, i + 1, limit, p)[k]);
            assert(p(page_from(s, i + 1, limit, p)[k]));
            let j = choose|j: int|
                i + 1 <= j < s.len() && s[j] == page_from(s, i + 1, limit, p)[k];
            assert(i <= j < s.len() && s[j] == pg[k]);
        }
    }
}

} // verus!
