//! Stable insertion order and first-match search, stated once for any element type.
use vstd::prelude::*;

verus! {

/// Where `x` goes among `s`: before the first element that `x` comes before.
pub open spec fn insert_pos<A>(s: Seq<A>, x: A, before: spec_fn(A, A) -> bool) -> int
    decreases s.len(),
{
    if s.len() == 0 {
        0
    } else if before(x, s[0]) {
        0
    } else {
        1 + insert_pos(s.drop_first(), x, before)
    }
}

/// `s` with `x` inserted at its place; elements that tie keep their order.
pub open spec fn insert_sorted<A>(s: Seq<A>, x: A, before: spec_fn(A, A) -> bool) -> Seq<A> {
    s.insert(insert_pos(s, x, before), x)
}

/// A stable sort of `s` by `before`: each element in turn is inserted at its place.
pub open spec fn sort_by<A>(s: Seq<A>, before: spec_fn(A, A) -> bool) -> Seq<A>
    decreases s.len(),
{
    if s.len() == 0 {
        s
    } else {
        insert_sorted(sort_by(s.drop_last(), before), s.last(), before)
    }
}

/// The insertion position is the first index whose element `x` comes before.
pub proof fn lemma_insert_pos<A>(s: Seq<A>, x: A, before: spec_fn(A, A) -> bool, k: int)
    requires
        0 <= k <= s.len(),
        forall|j: int| 0 <= j < k ==> !before(x, #[trigger] s[j]),
        k == s.len() || before(x, s[k]),
    ensures
        insert_pos(s, x, before) == k,
    decreases s.len(),
{
    if s.len() > 0 && k > 0 {
        assert(!before(x, s[0]));
        assert forall|j: int| 0 <= j < k - 1 implies !before(x, #[trigger] s.drop_first()[j]) by {
            assert(s.drop_first()[j] == s[j + 1]);
        }
        lemma_insert_pos(s.drop_first(), x, before, k - 1);
    }
}

pub proof fn lemma_insert_pos_bounds<A>(s: Seq<A>, x: A, before: spec_fn(A, A) -> bool)
    ensures
        0 <= insert_pos(s, x, before) <= s.len(),
    decreases s.len(),
{
    if s.len() > 0 {
        lemma_insert_pos_bounds(s.drop_first(), x, before);
    }
}

pub proof fn lemma_sort_len<A>(s: Seq<A>, before: spec_fn(A, A) -> bool)
    ensures
        sort_by(s, before).len() == s.len(),
    decreases s.len(),
{
    if s.len() > 0 {
        lemma_sort_len(s.drop_last(), before);
        lemma_insert_pos_bounds(sort_by(s.drop_last(), before), s.last(), before);
    }
}

/// Index of the first element satisfying `p`, or -1.
pub open spec fn first_index<A>(s: Seq<A>, p: spec_fn(A) -> bool) -> int
    decreases s.len(),
{
    if s.len() == 0 {
        -1
    } else if p(s[0]) {
        0
    } else {
        let r = first_index(s.drop_first(), p);
        if r < 0 {
            -1
        } else {
            r + 1
        }
    }
}

/// The first element satisfying `p`.
pub open spec fn first_where<A>(s: Seq<A>, p: spec_fn(A) -> bool) -> Option<A> {
    let i = first_index(s, p);
    if i < 0 {
        None
    } else {
        Some(s[i])
    }
}

pub proof fn lemma_first_index_found<A>(s: Seq<A>, p: spec_fn(A) -> bool, k: int)
    requires
        0 <= k < s.len(),
        p(s[k]),
        forall|j: int| 0 <= j < k ==> !p(#[trigger] s[j]),
    ensures
        first_index(s, p) == k,
    decreases s.len(),
{
    if k > 0 {
        assert(!p(s[0]));
        assert forall|j: int| 0 <= j < k - 1 implies !p(#[trigger] s.drop_first()[j]) by {
            assert(s.drop_first()[j] == s[j + 1]);
        }
        lemma_first_index_found(s.drop_first(), p, k - 1);
    }
}

pub proof fn lemma_first_index_none<A>(s: Seq<A>, p: spec_fn(A) -> bool)
    requires
        forall|j: int| 0 <= j < s.len() ==> !p(#[trigger] s[j]),
    ensures
        first_index(s, p) == -1,
    decreases s.len(),
{
    if s.len() > 0 {
        assert(!p(s[0]));
        assert forall|j: int| 0 <= j < s.len() - 1 implies !p(#[trigger] s.drop_first()[j]) by {
            assert(s.drop_first()[j] == s[j + 1]);
        }
        lemma_first_index_none(s.drop_first(), p);
    }
}

pub proof fn lemma_first_index_props<A>(s: Seq<A>, p: spec_fn(A) -> bool)
    ensures
        -1 <= first_index(s, p) < s.len(),
        first_index(s, p) >= 0 ==> p(s[first_index(s, p)]),
        first_index(s, p) >= 0 ==> forall|j: int| 0 <= j < first_index(s, p) ==> !p(#[trigger] s[j]),
        first_index(s, p) < 0 ==> forall|j: int| 0 <= j < s.len() ==> !p(#[trigger] s[j]),
    decreases s.len(),
{
    if s.len() > 0 {
        lemma_first_index_props(s.drop_first(), p);
        if !p(s[0]) {
            let r = first_index(s.drop_first(), p);
            assert forall|j: int| 0 <= j < s.len() && (r < 0 || j < r + 1) implies !p(#[trigger] s[j]) by {
                if j > 0 {
                    assert(s[j] == s.drop_first()[j - 1]);
                }
            }
        }
    }
}


/// The elements of `s` satisfying `p`, in order.
pub open spec fn keep_where<A>(s: Seq<A>, p: spec_fn(A) -> bool) -> Seq<A>
    decreases s.len(),
{
    if s.len() == 0 {
        s
    } else {
        let r = keep_where(s.drop_last(), p);
        if p(s.last()) {
            r.push(s.last())
        } else {
            r
        }
    }
}

/// Keeping elements keeps exactly those satisfying `p`, in their order, so any
/// relation that holds between earlier and later elements still holds.
pub proof fn lemma_keep_where<A>(s: Seq<A>, p: spec_fn(A) -> bool, rel: spec_fn(A, A) -> bool)
    requires
        forall|a: int, b: int| 0 <= a < b < s.len() ==> rel(s[a], s[b]),
    ensures
        keep_where(s, p).len() <= s.len(),
        forall|i: int, j: int|
            0 <= i < j < keep_where(s, p).len() ==> rel(keep_where(s, p)[i], keep_where(s, p)[j]),
        forall|i: int|
            0 <= i < keep_where(s, p).len() ==> p(#[trigger] keep_where(s, p)[i]) && exists|a: int|
                0 <= a < s.len() && s[a] == keep_where(s, p)[i],
        forall|a: int|
            0 <= a < s.len() && p(#[trigger] s[a]) ==> exists|i: int|
                0 <= i < keep_where(s, p).len() && keep_where(s, p)[i] == s[a],
    decreases s.len(),
{
    if s.len() > 0 {
        let t = s.drop_last();
        lemma_keep_where(t, p, rel);
        let r = keep_where(t, p);
        let k = keep_where(s, p);
        assert forall|i: int| 0 <= i < r.len() implies exists|a: int| 0 <= a < s.len() - 1 && s[a] == #[trigger] r[i] by {
            let a = choose|a: int| 0 <= a < t.len() && t[a] == r[i];
            assert(s[a] == r[i]);
        }
        if p(s.last()) {
            assert forall|i: int, j: int| 0 <= i < j < k.len() implies rel(k[i], k[j]) by {
                if j == k.len() - 1 {
                    let a = choose|a: int| 0 <= a < s.len() - 1 && s[a] == r[i];
                    assert(rel(s[a], s[s.len() - 1]));
                } else {
                    assert(k[i] == r[i] && k[j] == r[j]);
                }
            }
            assert forall|i: int| 0 <= i < k.len() implies p(#[trigger] k[i]) && exists|a: int|
                0 <= a < s.len() && s[a] == k[i] by {
                if i == k.len() - 1 {
                    assert(s[s.len() - 1] == k[i]);
                } else {
                    assert(k[i] == r[i]);
                    let a = choose|a: int| 0 <= a < s.len() - 1 && s[a] == r[i];
                    assert(s[a] == k[i]);
                }
            }
            assert forall|a: int| 0 <= a < s.len() && p(#[trigger] s[a]) implies exists|i: int|
                0 <= i < k.len() && k[i] == s[a] by {
                if a == s.len() - 1 {
                    assert(k[k.len() - 1] == s[a]);
                } else {
                    assert(t[a] == s[a]);
                    let i = choose|i: int| 0 <= i < r.len() && r[i] == t[a];
                    assert(k[i] == s[a]);
                }
            }
        } else {
            assert forall|a: int| 0 <= a < s.len() && p(#[trigger] s[a]) implies exists|i: int|
                0 <= i < k.len() && k[i] == s[a] by {
                assert(t[a] == s[a]);
            }
        }
    }
}


/// Elements before the insertion position do not follow `x`; the one at it does.
pub proof fn lemma_insert_pos_props<A>(s: Seq<A>, x: A, before: spec_fn(A, A) -> bool)
    ensures
        0 <= insert_pos(s, x, before) <= s.len(),
        forall|j: int| 0 <= j < insert_pos(s, x, before) ==> !before(x, #[trigger] s[j]),
        insert_pos(s, x, before) < s.len() ==> before(x, s[insert_pos(s, x, before)]),
    decreases s.len(),
{
    if s.len() > 0 && !before(x, s[0]) {
        lemma_insert_pos_props(s.drop_first(), x, before);
        assert forall|j: int| 0 <= j < insert_pos(s, x, before) implies !before(x, #[trigger] s[j]) by {
            if j > 0 {
                assert(s[j] == s.drop_first()[j - 1]);
            }
        }
    }
}


/// No later element of `s` comes before an earlier one.
pub open spec fn sorted_by<A>(s: Seq<A>, before: spec_fn(A, A) -> bool) -> bool {
    forall|i: int, j: int| 0 <= i < j < s.len() ==> !before(#[trigger] s[j], #[trigger] s[i])
}

/// `before` is a strict order: irreflexive and transitive.
pub open spec fn strict_order<A>(before: spec_fn(A, A) -> bool) -> bool {
    &&& forall|a: A| !#[trigger] before(a, a)
    &&& forall|a: A, b: A, c: A| #[trigger] before(a, b) && #[trigger] before(b, c) ==> before(a, c)
}

/// Sorting keeps exactly the elements it was given.
pub proof fn lemma_sort_by_contains<A>(s: Seq<A>, before: spec_fn(A, A) -> bool)
    ensures
        forall|x: A| #[trigger] sort_by(s, before).contains(x) <==> s.contains(x),
    decreases s.len(),
{
    if s.len() > 0 {
        let t = s.drop_last();
        lemma_sort_by_contains(t, before);
        let r = sort_by(t, before);
        let k = insert_pos(r, s.last(), before);
        lemma_insert_pos_bounds(r, s.last(), before);
        let r2 = r.insert(k, s.last());
        assert forall|x: A| r2.contains(x) <==> s.contains(x) by {
            if r2.contains(x) {
                let i = choose|i: int| 0 <= i < r2.len() && r2[i] == x;
                if i == k {
                    assert(s[s.len() - 1] == x);
                } else if i < k {
                    assert(r[i] == x);
                    assert(r.contains(x));
                    let m = choose|m: int| 0 <= m < t.len() && t[m] == x;
                    assert(s[m] == x);
                } else {
                    assert(r[i - 1] == x);
                    assert(r.contains(x));
                    let m = choose|m: int| 0 <= m < t.len() && t[m] == x;
                    assert(s[m] == x);
                }
            }
            if s.contains(x) {
                let m = choose|m: int| 0 <= m < s.len() && s[m] == x;
                if m == s.len() - 1 {
                    assert(r2[k] == x);
                } else {
                    assert(t[m] == x);
                    assert(t.contains(x));
                    assert(r.contains(x));
                    let i = choose|i: int| 0 <= i < r.len() && r[i] == x;
                    if i < k {
                        assert(r2[i] == x);
                    } else {
                        assert(r2[i + 1] == x);
                    }
                }
            }
        }
    }
}

/// Sorting by a strict order yields a sorted sequence.
pub proof fn lemma_sort_by_sorted<A>(s: Seq<A>, before: spec_fn(A, A) -> bool)
    requires
        strict_order(before),
    ensures
        sorted_by(sort_by(s, before), before),
    decreases s.len(),
{
    if s.len() > 0 {
        let t = s.drop_last();
        lemma_sort_by_sorted(t, before);
        let r = sort_by(t, before);
        let x = s.last();
        let k = insert_pos(r, x, before);
        lemma_insert_pos_props(r, x, before);
        let r2 = r.insert(k, x);
        assert forall|i: int, j: int| 0 <= i < j < r2.len() implies !before(#[trigger] r2[j], #[trigger] r2[i]) by {
            if j < k {
                assert(r2[i] == r[i] && r2[j] == r[j]);
            } else if j == k {
                assert(r2[i] == r[i]);
            } else if i == k {
                assert(r2[j] == r[j - 1]);
                if before(r[j - 1], x) {
                    assert(before(x, r[k]));
                    assert(before(r[j - 1], r[k]));
                    if j - 1 == k {
                        assert(!before(r[k], r[k]));
                    }
                }
            } else if i < k {
                assert(r2[i] == r[i] && r2[j] == r[j - 1]);
            } else {
                assert(r2[i] == r[i - 1] && r2[j] == r[j - 1]);
            }
        }
    }
}

} // verus!
