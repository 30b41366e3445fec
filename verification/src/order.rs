use vstd::prelude::*;

verus! {

broadcast use vstd::seq_lib::group_to_multiset_ensures;

/// Inserts `x` into `sorted` after every element that `x` does not come
/// before; equal elements therefore keep their order of arrival.
pub open spec fn insert_stable<A>(sorted: Seq<A>, x: A, before: spec_fn(A, A) -> bool) -> Seq<A>
    decreases sorted.len(),
{
    if sorted.len() == 0 {
        seq![x]
    } else if before(x, sorted.last()) {
        insert_stable(sorted.drop_last(), x, before).push(sorted.last())
    } else {
        sorted.push(x)
    }
}

/// The stable sort of `s` by the strict ordering `before` (insertion sort).
pub open spec fn stable_sorted<A>(s: Seq<A>, before: spec_fn(A, A) -> bool) -> Seq<A>
    decreases s.len(),
{
    if s.len() == 0 {
        seq![]
    } else {
        insert_stable(stable_sorted(s.drop_last(), before), s.last(), before)
    }
}

/// `before` is asymmetric and its complement is transitive.
pub open spec fn strict_weak_order<A>(before: spec_fn(A, A) -> bool) -> bool {
    &&& forall|a: A, b: A| #[trigger] before(a, b) ==> !before(b, a)
    &&& forall|a: A, b: A, c: A|
        #![trigger before(a, b), before(b, c)]
        #![trigger before(a, b), before(a, c)]
        #![trigger before(b, c), before(a, c)]
        !before(a, b) && !before(b, c) ==> !before(a, c)
}

/// No element of `s` comes before an element to its left.
pub open spec fn sorted_by<A>(s: Seq<A>, before: spec_fn(A, A) -> bool) -> bool {
    forall|i: int, j: int| 0 <= i < j < s.len() ==> !before(#[trigger] s[j], #[trigger] s[i])
}

/// Inserting at position `p` is the stable insertion when `x` comes before
/// every element from `p` on and not before the element just left of `p`.
pub proof fn lemma_insert_stable_at<A>(sorted: Seq<A>, x: A, before: spec_fn(A, A) -> bool, p: int)
    requires
        0 <= p <= sorted.len(),
        forall|k: int| p <= k < sorted.len() ==> before(x, #[trigger] sorted[k]),
        p > 0 ==> !before(x, sorted[p - 1]),
    ensures
        insert_stable(sorted, x, before) == sorted.take(p).push(x) + sorted.skip(p),
    decreases sorted.len(),
{
    if sorted.len() == 0 {
        assert(sorted.take(p).push(x) + sorted.skip(p) =~= seq![x]);
    } else if p == sorted.len() {
        assert(!before(x, sorted.last()));
        assert(sorted.take(p).push(x) + sorted.skip(p) =~= sorted.push(x));
    } else {
        assert(before(x, sorted[sorted.len() - 1]));
        let rest = sorted.drop_last();
        assert forall|k: int| p <= k < rest.len() implies before(x, #[trigger] rest[k]) by {
            assert(rest[k] == sorted[k]);
        }
        lemma_insert_stable_at(rest, x, before, p);
        assert(rest.take(p).push(x) + rest.skip(p) + seq![sorted.last()] =~= sorted.take(p).push(x)
            + sorted.skip(p));
    }
}

/// Stable insertion adds exactly `x` and keeps a sorted sequence sorted.
pub proof fn lemma_insert_stable_sorted<A>(sorted: Seq<A>, x: A, before: spec_fn(A, A) -> bool)
    requires
        strict_weak_order(before),
        sorted_by(sorted, before),
    ensures
        insert_stable(sorted, x, before).to_multiset() == sorted.to_multiset().insert(x),
        sorted_by(insert_stable(sorted, x, before), before),
    decreases sorted.len(),
{
    if sorted.len() == 0 {
        assert(seq![x] =~= Seq::<A>::empty().push(x));
    } else {
        let last = sorted.last();
        let rest = sorted.drop_last();
        assert(rest.push(last) =~= sorted);
        if before(x, last) {
            assert(sorted_by(rest, before)) by {
                assert forall|i: int, j: int| 0 <= i < j < rest.len() implies !before(
                    #[trigger] rest[j],
                    #[trigger] rest[i],
                ) by {
                    assert(rest[i] == sorted[i] && rest[j] == sorted[j]);
                }
            }
            lemma_insert_stable_sorted(rest, x, before);
            let ins = insert_stable(rest, x, before);
            let res = ins.push(last);
            assert forall|i: int, j: int| 0 <= i < j < res.len() implies !before(
                #[trigger] res[j],
                #[trigger] res[i],
            ) by {
                if j == res.len() - 1 {
                    let e = res[i];
                    assert(ins.contains(e)) by {
                        assert(ins[i] == e);
                    }
                    assert(ins.to_multiset().count(e) > 0);
                    if e != x {
                        assert(rest.to_multiset().count(e) > 0);
                        assert(rest.contains(e));
                        let k = choose|k: int| 0 <= k < rest.len() && rest[k] == e;
                        assert(sorted[k] == e);
                        assert(!before(sorted[sorted.len() - 1], sorted[k]));
                    }
                } else {
                    assert(res[i] == ins[i] && res[j] == ins[j]);
                }
            }
        } else {
            assert forall|i: int, j: int| 0 <= i < j < sorted.push(x).len() implies !before(
                #[trigger] sorted.push(x)[j],
                #[trigger] sorted.push(x)[i],
            ) by {
                if j == sorted.len() {
                    if i < sorted.len() - 1 {
                        assert(!before(sorted[sorted.len() - 1], sorted[i]));
                        assert(!before(x, sorted[sorted.len() - 1]));
                    }
                } else {
                    assert(sorted.push(x)[i] == sorted[i] && sorted.push(x)[j] == sorted[j]);
                }
            }
        }
    }
}

/// A stable sort by a strict weak order is a sorted rearrangement of its input.
pub proof fn lemma_stable_sorted<A>(s: Seq<A>, before: spec_fn(A, A) -> bool)
    requires
        strict_weak_order(before),
    ensures
        stable_sorted(s, before).to_multiset() == s.to_multiset(),
        sorted_by(stable_sorted(s, before), before),
        stable_sorted(s, before).len() == s.len(),
    decreases s.len(),
{
    if s.len() == 0 {
        assert(s =~= Seq::<A>::empty());
    } else {
        lemma_stable_sorted(s.drop_last(), before);
        lemma_insert_stable_sorted(stable_sorted(s.drop_last(), before), s.last(), before);
        assert(s.drop_last().push(s.last()) =~= s);
        assert(stable_sorted(s, before).to_multiset().len() == stable_sorted(s, before).len());
    }
}

/// Values with a strict ordering that a stable sort can follow.
pub trait StableOrder: Sized {
    /// Whether `a` must come before `b`.
    spec fn comes_before(a: Self, b: Self) -> bool;

    /// Computes [`StableOrder::comes_before`].
    fn goes_before(&self, other: &Self) -> (r: bool)
        ensures
            r == Self::comes_before(*self, *other),
    ;
}

/// The ordering of a [`StableOrder`] type as a spec closure.
pub open spec fn order_of<T: StableOrder>() -> spec_fn(T, T) -> bool {
    |a: T, b: T| T::comes_before(a, b)
}

/// Sorts `items` stably: equal elements keep their order (insertion sort).
pub fn stable_sort<T: StableOrder>(items: Vec<T>) -> (sorted: Vec<T>)
    ensures
        sorted@ == stable_sorted(items@, order_of::<T>()),
{
    let ghost input = items@;
    let mut sorted: Vec<T> = Vec::new();
    let mut rest = items;
    let mut done: usize = 0;
    let n = rest.len();
    // Reverse the items once so that popping hands them out front to back.
    let mut reversed: Vec<T> = Vec::new();
    while rest.len() > 0
        invariant
            rest@ + reversed@.reverse() == input,
        decreases rest.len(),
    {
        let x = rest.pop().unwrap();
        let ghost r0 = reversed@;
        reversed.push(x);
        assert(reversed@.reverse() =~= seq![x] + r0.reverse());
    }
    assert(reversed@.reverse() =~= input);
    while reversed.len() > 0
        invariant
            done + reversed.len() == n,
            n == input.len(),
            input.take(done as int) + reversed@.reverse() == input,
            sorted@ == stable_sorted(input.take(done as int), order_of::<T>()),
        decreases reversed.len(),
    {
        let ghost r0 = reversed@;
        let x = reversed.pop().unwrap();
        assert(r0.reverse() =~= seq![x] + reversed@.reverse());
        assert(input[done as int] == x) by {
            assert((input.take(done as int) + r0.reverse())[done as int] == x);
        }
        let mut p: usize = sorted.len();
        while p > 0 && x.goes_before(&sorted[p - 1])
            invariant
                0 <= p <= sorted.len(),
                forall|k: int| p <= k < sorted.len() ==> T::comes_before(x, #[trigger] sorted@[k]),
            decreases p,
        {
            p -= 1;
        }
        proof {
            lemma_insert_stable_at(sorted@, x, order_of::<T>(), p as int);
            assert(input.take(done as int + 1).drop_last() =~= input.take(done as int));
            assert(input.take(done as int + 1).last() == x);
        }
        sorted.insert(p, x);
        assert(sorted@ =~= stable_sorted(input.take(done as int + 1), order_of::<T>())) by {
            assert(sorted@ =~= (stable_sorted(input.take(done as int), order_of::<T>())).take(p as int).push(x)
                + (stable_sorted(input.take(done as int), order_of::<T>())).skip(p as int));
        }
        done += 1;
        assert(input.take(done as int) + reversed@.reverse() =~= input);
    }
    assert(input.take(done as int) =~= input);
    sorted
}

/// The elements of `s` that `keep` holds of, in order.
pub open spec fn kept_by<A>(s: Seq<A>, keep: spec_fn(A) -> bool) -> Seq<A>
    decreases s.len(),
{
    if s.len() == 0 {
        seq![]
    } else {
        let earlier = kept_by(s.drop_last(), keep);
        if keep(s.last()) {
            earlier.push(s.last())
        } else {
            earlier
        }
    }
}

proof fn lemma_kept_by_from<A>(s: Seq<A>, keep: spec_fn(A) -> bool)
    ensures
        forall|i: int| 0 <= i < kept_by(s, keep).len() ==> s.contains(#[trigger] kept_by(s, keep)[i]),
    decreases s.len(),
{
    if s.len() > 0 {
        lemma_kept_by_from(s.drop_last(), keep);
        let k = kept_by(s, keep);
        assert forall|i: int| 0 <= i < k.len() implies s.contains(#[trigger] k[i]) by {
            if i < kept_by(s.drop_last(), keep).len() {
                let e = kept_by(s.drop_last(), keep)[i];
                assert(s.drop_last().contains(e));
                let j = choose|j: int| 0 <= j < s.drop_last().len() && s.drop_last()[j] == e;
                assert(s[j] == e);
            } else {
                assert(s[s.len() - 1] == k[i]);
            }
        }
    }
}

proof fn lemma_insert_stable_dropped<A>(t: Seq<A>, y: A, before: spec_fn(A, A) -> bool, keep: spec_fn(A) -> bool)
    requires
        !keep(y),
    ensures
        kept_by(insert_stable(t, y, before), keep) == kept_by(t, keep),
    decreases t.len(),
{
    if t.len() == 0 {
        assert(seq![y].drop_last() =~= Seq::<A>::empty());
        assert(kept_by(Seq::<A>::empty(), keep) =~= Seq::<A>::empty());
        assert(kept_by(seq![y], keep) =~= Seq::<A>::empty());
        assert(kept_by(t, keep) =~= Seq::<A>::empty());
    } else if before(y, t.last()) {
        lemma_insert_stable_dropped(t.drop_last(), y, before, keep);
        let ins = insert_stable(t.drop_last(), y, before);
        assert(ins.push(t.last()).drop_last() =~= ins);
    } else {
        assert(t.push(y).drop_last() =~= t);
    }
}

proof fn lemma_insert_stable_kept<A>(t: Seq<A>, y: A, before: spec_fn(A, A) -> bool, keep: spec_fn(A) -> bool)
    requires
        keep(y),
        strict_weak_order(before),
        sorted_by(t, before),
    ensures
        kept_by(insert_stable(t, y, before), keep) == insert_stable(kept_by(t, keep), y, before),
    decreases t.len(),
{
    if t.len() == 0 {
        assert(seq![y].drop_last() =~= Seq::<A>::empty());
        assert(kept_by(Seq::<A>::empty(), keep) =~= Seq::<A>::empty());
        assert(kept_by(seq![y], keep) =~= seq![y]);
        assert(kept_by(t, keep) =~= Seq::<A>::empty());
    } else {
        let last = t.last();
        let rest = t.drop_last();
        if before(y, last) {
            assert(sorted_by(rest, before)) by {
                assert forall|i: int, j: int| 0 <= i < j < rest.len() implies !before(
                    #[trigger] rest[j],
                    #[trigger] rest[i],
                ) by {
                    assert(rest[i] == t[i] && rest[j] == t[j]);
                }
            }
            lemma_insert_stable_kept(rest, y, before, keep);
            let ins = insert_stable(rest, y, before);
            assert(ins.push(last).drop_last() =~= ins);
            assert(insert_stable(t, y, before) == ins.push(last));
            if keep(last) {
                let k = kept_by(t, keep);
                assert(k == kept_by(rest, keep).push(last));
                assert(k.drop_last() =~= kept_by(rest, keep));
                assert(kept_by(ins.push(last), keep) == kept_by(ins, keep).push(last));
            } else {
                assert(kept_by(t, keep) == kept_by(rest, keep));
                assert(kept_by(ins.push(last), keep) == kept_by(ins, keep));
            }
        } else {
            assert(t.push(y).drop_last() =~= t);
            let k = kept_by(t, keep);
            if k.len() > 0 {
                lemma_kept_by_from(t, keep);
                let e = k[k.len() - 1];
                assert(t.contains(e));
                let i = choose|i: int| 0 <= i < t.len() && t[i] == e;
                if i < t.len() - 1 {
                    assert(!before(t[t.len() - 1], t[i]));
                    assert(!before(y, t[t.len() - 1]));
                    assert(!before(y, t[i]));
                }
                assert(!before(y, k.last()));
            } else {
                assert(k.push(y) =~= seq![y]);
            }
        }
    }
}

/// Sorting stably, then keeping the elements that `keep` holds of, gives the
/// same as keeping them first and then sorting.
pub proof fn lemma_sort_then_keep<A>(s: Seq<A>, before: spec_fn(A, A) -> bool, keep: spec_fn(A) -> bool)
    requires
        strict_weak_order(before),
    ensures
        stable_sorted(kept_by(s, keep), before) == kept_by(stable_sorted(s, before), keep),
    decreases s.len(),
{
    if s.len() > 0 {
        let y = s.last();
        lemma_sort_then_keep(s.drop_last(), before, keep);
        lemma_stable_sorted(s.drop_last(), before);
        let sorted = stable_sorted(s.drop_last(), before);
        if keep(y) {
            let k = kept_by(s, keep);
            assert(k.drop_last() =~= kept_by(s.drop_last(), keep));
            lemma_insert_stable_kept(sorted, y, before, keep);
        } else {
            lemma_insert_stable_dropped(sorted, y, before, keep);
        }
    }
}

} // verus!
