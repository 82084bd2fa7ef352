//! A stable sort for values that carry a rank.

use vstd::prelude::*;

verus! {

/// Values ordered by a rank. Several values may share a rank; the relation
/// is total and transitive.
pub trait Ranked: Sized {
    /// `self` ranks at least as high as `other`: it may stand before it.
    spec fn may_precede(&self, other: &Self) -> bool;

    /// Decides `may_precede`.
    fn ranks_before_or_with(&self, other: &Self) -> (before: bool)
        ensures
            before == self.may_precede(other),
    ;

    /// Of two values, one may precede the other.
    proof fn rank_is_total(a: &Self, b: &Self)
        ensures
            a.may_precede(b) || b.may_precede(a),
    ;

    /// What may precede a value may precede all that the value may precede.
    proof fn rank_is_transitive(a: &Self, b: &Self, c: &Self)
        requires
            a.may_precede(b),
            b.may_precede(c),
        ensures
            a.may_precede(c),
    ;
}

/// Every value may precede all that follow it.
pub open spec fn is_sorted<T: Ranked>(s: Seq<T>) -> bool {
    forall|i: int, j: int|
        #![trigger s[i].may_precede(&s[j])]
        0 <= i < j < s.len() ==> s[i].may_precede(&s[j])
}

/// `from` and `to` are permutations of `0..n`, each the inverse of the other.
pub open spec fn are_inverse(from: Seq<int>, to: Seq<int>) -> bool {
    &&& from.len() == to.len()
    &&& forall|i: int|
        0 <= i < from.len() ==> 0 <= #[trigger] from[i] < from.len() && to[from[i]] == i
    &&& forall|j: int| 0 <= j < to.len() ==> 0 <= #[trigger] to[j] < to.len() && from[to[j]] == j
}

/// `after` holds the values of `before`, the value at `i` taken from position
/// `from[i]`.
pub open spec fn is_rearranged<T>(after: Seq<T>, before: Seq<T>, from: Seq<int>) -> bool {
    &&& after.len() == before.len()
    &&& from.len() == before.len()
    &&& forall|i: int|
        0 <= i < after.len() ==> 0 <= #[trigger] from[i] < before.len() && after[i] == before[from[i]]
}

/// Values of one rank stand in `after` in the order in which they stood
/// before.
pub open spec fn keeps_ties<T: Ranked>(after: Seq<T>, from: Seq<int>) -> bool {
    forall|i: int, j: int|
        #![trigger after[j].may_precede(&after[i])]
        0 <= i < j < after.len() && after[j].may_precede(&after[i]) ==> from[i] < from[j]
}

/// `after` is `before` sorted by rank, values of one rank left in their
/// order. `from` says where each value came from and `to` where each went.
pub open spec fn is_stable_sort<T: Ranked>(
    after: Seq<T>,
    before: Seq<T>,
    from: Seq<int>,
    to: Seq<int>,
) -> bool {
    &&& is_rearranged(after, before, from)
    &&& are_inverse(from, to)
    &&& is_sorted(after)
    &&& keeps_ties(after, from)
}

/// Each value of `s` comes strictly before all that follow it, by `before`.
pub open spec fn is_strictly_rising<A>(s: Seq<A>, before: spec_fn(A, A) -> bool) -> bool {
    forall|i: int, j: int| 0 <= i < j < s.len() ==> #[trigger] before(s[i], s[j])
}

/// Every value of `s` is a value of `t`.
pub open spec fn occurs_in<A>(s: Seq<A>, t: Seq<A>) -> bool {
    forall|i: int| 0 <= i < s.len() ==> t.contains(#[trigger] s[i])
}

/// Two sequences that rise strictly by one relation and hold the same values
/// agree on their first `k` places. The relation never holds both ways.
proof fn lemma_rising_agree_upto<A>(r: Seq<A>, s: Seq<A>, before: spec_fn(A, A) -> bool, k: int)
    requires
        forall|x: A, y: A| #[trigger] before(x, y) ==> !before(y, x),
        is_strictly_rising(r, before),
        is_strictly_rising(s, before),
        occurs_in(r, s),
        occurs_in(s, r),
        0 <= k <= r.len(),
        k <= s.len(),
    ensures
        forall|j: int| 0 <= j < k ==> r[j] == s[j],
    decreases k,
{
    if k > 0 {
        lemma_rising_agree_upto(r, s, before, k - 1);
        let x = r[k - 1];
        let y = s[k - 1];
        assert(s.contains(x));
        assert(r.contains(y));
        let l = choose|l: int| 0 <= l < s.len() && s[l] == x;
        let m = choose|m: int| 0 <= m < r.len() && r[m] == y;
        if l < k - 1 {
            assert(before(r[l], r[k - 1]));
        } else if l > k - 1 {
            assert(before(s[k - 1], s[l]));
            if m < k - 1 {
                assert(before(s[m], s[k - 1]));
            } else if m > k - 1 {
                assert(before(r[k - 1], r[m]));
            }
        }
    }
}

/// Two sequences that rise strictly by one relation and hold the same values
/// are one sequence. The relation never holds both ways.
pub proof fn lemma_rising_agree<A>(r: Seq<A>, s: Seq<A>, before: spec_fn(A, A) -> bool)
    requires
        forall|x: A, y: A| #[trigger] before(x, y) ==> !before(y, x),
        is_strictly_rising(r, before),
        is_strictly_rising(s, before),
        occurs_in(r, s),
        occurs_in(s, r),
    ensures
        r == s,
{
    let k = if r.len() <= s.len() { r.len() as int } else { s.len() as int };
    lemma_rising_agree_upto(r, s, before, k);
    if r.len() < s.len() {
        let x = s[k];
        assert(r.contains(x));
        let m = choose|m: int| 0 <= m < r.len() && r[m] == x;
        assert(before(s[m], s[k]));
    } else if s.len() < r.len() {
        let x = r[k];
        assert(s.contains(x));
        let l = choose|l: int| 0 <= l < s.len() && s[l] == x;
        assert(before(r[l], r[k]));
    }
    assert(r =~= s);
}

/// `s` with the value at `i` moved down to position `p`, and the values
/// between moved up by one.
pub open spec fn moved<A>(s: Seq<A>, i: int, p: int) -> Seq<A> {
    s.remove(i).insert(p, s[i])
}

/// Where each value stands once the value at `i` has moved down to `p`.
spec fn moved_to(to: Seq<int>, i: int, p: int) -> Seq<int> {
    Seq::new(
        to.len(),
        |j: int|
            if j == i {
                p
            } else if p <= to[j] < i {
                to[j] + 1
            } else {
                to[j]
            },
    )
}

proof fn lemma_moved<A>(s: Seq<A>, i: int, p: int)
    requires
        0 <= p <= i < s.len(),
    ensures
        moved(s, i, p).len() == s.len(),
        forall|k: int|
            0 <= k < s.len() ==> #[trigger] moved(s, i, p)[k] == if k < p {
                s[k]
            } else if k == p {
                s[i]
            } else if k <= i {
                s[k - 1]
            } else {
                s[k]
            },
{
}

/// The values at `a` and `b` stand in order, and if they share a rank, so
/// did they before.
spec fn in_order<T: Ranked>(s: Seq<T>, from: Seq<int>, a: int, b: int) -> bool {
    &&& s[a].may_precede(&s[b])
    &&& s[b].may_precede(&s[a]) ==> from[a] < from[b]
}

/// The first `i` values of `s` are the first `i` values of `before`, sorted
/// stably; the others have not moved.
spec fn sorted_prefix<T: Ranked>(
    s: Seq<T>,
    before: Seq<T>,
    from: Seq<int>,
    to: Seq<int>,
    i: int,
) -> bool {
    &&& 0 <= i <= s.len()
    &&& is_rearranged(s, before, from)
    &&& are_inverse(from, to)
    &&& forall|k: int| 0 <= k < i ==> #[trigger] from[k] < i
    &&& forall|k: int| i <= k < s.len() ==> #[trigger] from[k] == k
    &&& forall|a: int, b: int| 0 <= a < b < i ==> #[trigger] in_order(s, from, a, b)
}

proof fn lemma_insert_step<T: Ranked>(
    s: Seq<T>,
    before: Seq<T>,
    from: Seq<int>,
    to: Seq<int>,
    i: int,
    p: int,
)
    requires
        sorted_prefix(s, before, from, to, i),
        0 <= p <= i < s.len(),
        p > 0 ==> s[p - 1].may_precede(&s[i]),
        forall|k: int| p <= k < i ==> !(#[trigger] s[k]).may_precede(&s[i]),
    ensures
        sorted_prefix(moved(s, i, p), before, moved(from, i, p), moved_to(to, i, p), i + 1),
{
    let s2 = moved(s, i, p);
    let from2 = moved(from, i, p);
    let to2 = moved_to(to, i, p);
    lemma_moved(s, i, p);
    lemma_moved(from, i, p);
    assert(from[i] == i);
    assert forall|k: int| 0 <= k < s2.len() implies 0 <= #[trigger] from2[k] < before.len()
        && s2[k] == before[from2[k]] by {
        if k < p {
            assert(from2[k] == from[k]);
        } else if k == p {
            assert(from2[k] == from[i]);
        } else if k <= i {
            assert(from2[k] == from[k - 1]);
        } else {
            assert(from2[k] == from[k]);
        }
    }
    assert forall|k: int| 0 <= k < from2.len() implies 0 <= #[trigger] from2[k] < from2.len()
        && to2[from2[k]] == k by {
        if k < p {
            assert(from2[k] == from[k]);
            assert(to[from[k]] == k);
        } else if k == p {
            assert(from2[k] == from[i]);
        } else if k <= i {
            assert(from2[k] == from[k - 1]);
            assert(to[from[k - 1]] == k - 1);
        } else {
            assert(from2[k] == from[k]);
            assert(to[from[k]] == k);
        }
    }
    assert forall|j: int| 0 <= j < to2.len() implies 0 <= #[trigger] to2[j] < to2.len()
        && from2[to2[j]] == j by {
        assert(from[to[j]] == j);
        if j == i {
        } else if p <= to[j] < i {
            assert(from2[to[j] + 1] == from[to[j]]);
        } else {
            if to[j] == i {
                assert(from[i] == i);
            }
            assert(from2[to[j]] == from[to[j]]);
        }
    }
    assert forall|k: int| 0 <= k < i + 1 implies #[trigger] from2[k] < i + 1 by {
        if k < p {
            assert(from2[k] == from[k]);
        } else if k == p {
        } else {
            assert(from2[k] == from[k - 1]);
        }
    }
    assert forall|k: int| i + 1 <= k < s2.len() implies #[trigger] from2[k] == k by {
        assert(from2[k] == from[k]);
    }
    assert forall|a: int, b: int| 0 <= a < b < i + 1 implies #[trigger] in_order(
        s2,
        from2,
        a,
        b,
    ) by {
        if b == p {
            // A value of the sorted prefix before the moved one: through
            // the value just below the gap.
            assert(s2[a] == s[a] && s2[b] == s[i]);
            assert(from2[a] == from[a] && from2[b] == i);
            if a < p - 1 {
                assert(in_order(s, from, a, p - 1));
                T::rank_is_transitive(&s[a], &s[p - 1], &s[i]);
            }
        } else if a == p {
            // The moved value before one that it was found to outrank.
            assert(s2[a] == s[i] && s2[b] == s[b - 1]);
            T::rank_is_total(&s[b - 1], &s[i]);
        } else {
            let a0 = if a < p { a } else { a - 1 };
            let b0 = if b < p { b } else { b - 1 };
            assert(s2[a] == s[a0] && s2[b] == s[b0]);
            assert(from2[a] == from[a0] && from2[b] == from[b0]);
            assert(in_order(s, from, a0, b0));
        }
    }
}

/// The place for the value at `i` among the sorted values before it: behind
/// every value that may precede it, and before the others.
fn insertion_point<T: Ranked>(v: &Vec<T>, i: usize) -> (p: usize)
    requires
        i < v@.len(),
        forall|a: int, b: int|
            #![trigger v@[a].may_precede(&v@[b])]
            0 <= a < b < i ==> v@[a].may_precede(&v@[b]),
    ensures
        p <= i,
        forall|k: int| 0 <= k < p ==> (#[trigger] v@[k]).may_precede(&v@[i as int]),
        forall|k: int| p <= k < i ==> !(#[trigger] v@[k]).may_precede(&v@[i as int]),
{
    if i == 0 || v[i - 1].ranks_before_or_with(&v[i]) {
        // Already in place: the common case when little has changed.
        assert forall|k: int| 0 <= k < i implies (#[trigger] v@[k]).may_precede(&v@[i as int]) by {
            if k < i - 1 {
                assert(v@[k].may_precede(&v@[i - 1]));
                T::rank_is_transitive(&v@[k], &v@[i - 1], &v@[i as int]);
            }
        }
        return i;
    }
    let mut low: usize = 0;
    let mut high: usize = i - 1;
    while low < high
        invariant
            low <= high < i < v@.len(),
            forall|a: int, b: int|
                #![trigger v@[a].may_precede(&v@[b])]
                0 <= a < b < i ==> v@[a].may_precede(&v@[b]),
            forall|k: int| 0 <= k < low ==> (#[trigger] v@[k]).may_precede(&v@[i as int]),
            forall|k: int| high <= k < i ==> !(#[trigger] v@[k]).may_precede(&v@[i as int]),
        decreases high - low,
    {
        let mid = low + (high - low) / 2;
        if v[mid].ranks_before_or_with(&v[i]) {
            assert forall|k: int| 0 <= k < mid + 1 implies (#[trigger] v@[k]).may_precede(
                &v@[i as int],
            ) by {
                if k < mid {
                    assert(v@[k].may_precede(&v@[mid as int]));
                    T::rank_is_transitive(&v@[k], &v@[mid as int], &v@[i as int]);
                }
            }
            low = mid + 1;
        } else {
            assert forall|k: int| mid <= k < i implies !(#[trigger] v@[k]).may_precede(
                &v@[i as int],
            ) by {
                if mid < k && v@[k].may_precede(&v@[i as int]) {
                    assert(v@[mid as int].may_precede(&v@[k]));
                    T::rank_is_transitive(&v@[mid as int], &v@[k], &v@[i as int]);
                }
            }
            high = mid;
        }
    }
    low
}

/// Sorts `v` by rank, values of one rank left in their order. Returns where
/// each value came from and where each went.
///
/// Each value in turn is put in its place among those before it. The place is
/// found by halving, so the ranks of few values are compared; a value that is
/// in place already costs one comparison.
pub fn stable_sort<T: Ranked>(v: &mut Vec<T>) -> (maps: Ghost<(Seq<int>, Seq<int>)>)
    ensures
        is_stable_sort(final(v)@, old(v)@, maps@.0, maps@.1),
{
    let n = v.len();
    let ghost before = v@;
    let ghost mut from: Seq<int> = Seq::new(n as nat, |i: int| i);
    let ghost mut to: Seq<int> = Seq::new(n as nat, |i: int| i);
    let mut i: usize = 0;
    while i < n
        invariant
            n == v@.len(),
            sorted_prefix(v@, before, from, to, i as int),
        decreases n - i,
    {
        proof {
            assert forall|a: int, b: int|
                #![trigger v@[a].may_precede(&v@[b])]
                0 <= a < b < i implies v@[a].may_precede(&v@[b]) by {
                assert(in_order(v@, from, a, b));
            }
        }
        let p = insertion_point(v, i);
        proof {
            lemma_insert_step(v@, before, from, to, i as int, p as int);
            lemma_moved(v@, i as int, p as int);
            if p == i {
                assert(moved(v@, i as int, p as int) =~= v@);
            }
            from = moved(from, i as int, p as int);
            to = moved_to(to, i as int, p as int);
        }
        if p < i {
            let x = v.remove(i);
            v.insert(p, x);
        }
        i += 1;
    }
    proof {
        assert forall|a: int, b: int|
            #![trigger v@[a].may_precede(&v@[b])]
            0 <= a < b < v@.len() implies v@[a].may_precede(&v@[b]) by {
            assert(in_order(v@, from, a, b));
        }
        assert forall|a: int, b: int|
            #![trigger v@[b].may_precede(&v@[a])]
            0 <= a < b < v@.len() && v@[b].may_precede(&v@[a]) implies from[a] < from[b] by {
            assert(in_order(v@, from, a, b));
        }
    }
    Ghost((from, to))
}

} // verus!
