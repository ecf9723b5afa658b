//! Stable sorting of vectors.

use vstd::prelude::*;

verus! {

/// `x` placed into `s`: behind all elements that it does not come before.
pub open spec fn placed<T>(s: Seq<T>, x: T, before: spec_fn(T, T) -> bool) -> Seq<T>
    decreases s.len(),
{
    if s.len() == 0 || !before(x, s.last()) {
        s.push(x)
    } else {
        placed(s.drop_last(), x, before).push(s.last())
    }
}

/// `s` in order; elements of which neither comes before the other stay as they were.
pub open spec fn sorted<T>(s: Seq<T>, before: spec_fn(T, T) -> bool) -> Seq<T>
    decreases s.len(),
{
    if s.len() == 0 {
        s
    } else {
        placed(sorted(s.drop_last(), before), s.last(), before)
    }
}

/// Placing adds exactly the new element.
pub proof fn placed_adds<T>(s: Seq<T>, x: T, before: spec_fn(T, T) -> bool)
    ensures
        placed(s, x, before).len() == s.len() + 1,
        placed(s, x, before).to_multiset() == s.to_multiset().insert(x),
    decreases s.len(),
{
    broadcast use vstd::seq_lib::group_to_multiset_ensures;

    if s.len() > 0 && before(x, s.last()) {
        placed_adds(s.drop_last(), x, before);
        assert(s =~= s.drop_last().push(s.last()));
        assert(placed(s, x, before).to_multiset() =~= s.to_multiset().insert(x));
    }
}

/// Sorting keeps every element, as often as it occurs.
pub proof fn sorted_keeps_elements<T>(s: Seq<T>, before: spec_fn(T, T) -> bool)
    ensures
        sorted(s, before).len() == s.len(),
        sorted(s, before).to_multiset() == s.to_multiset(),
    decreases s.len(),
{
    broadcast use vstd::seq_lib::group_to_multiset_ensures;

    if s.len() > 0 {
        sorted_keeps_elements(s.drop_last(), before);
        placed_adds(sorted(s.drop_last(), before), s.last(), before);
        assert(s =~= s.drop_last().push(s.last()));
    }
}

/// An element is in a sorted sequence exactly if it was in the sequence.
pub proof fn sorted_contains<T>(s: Seq<T>, before: spec_fn(T, T) -> bool, x: T)
    ensures
        sorted(s, before).contains(x) == s.contains(x),
{
    broadcast use vstd::seq_lib::group_to_multiset_ensures;

    sorted_keeps_elements(s, before);
    assert(s.contains(x) <==> s.to_multiset().count(x) > 0);
    assert(sorted(s, before).contains(x) <==> sorted(s, before).to_multiset().count(x) > 0);
}

/// Sorts a vector.
pub(crate) fn stable_sort<T, F: Fn(&T, &T) -> bool>(
    v: &mut Vec<T>,
    is_before: F,
    Ghost(before): Ghost<spec_fn(T, T) -> bool>,
)
    requires
        forall|a: &T, b: &T| call_requires(is_before, (a, b)),
        forall|a: &T, b: &T, r: bool| call_ensures(is_before, (a, b), r) ==> r == before(*a, *b),
    ensures
        final(v)@ == sorted(old(v)@, before),
{
    let ghost all = v@;
    let mut i: usize = 0;
    assert(v@ =~= sorted(all.take(0), before) + all.skip(0));
    proof {
        sorted_keeps_elements(all.take(0), before);
    }
    while i < v.len()
        invariant
            i <= v.len() == all.len(),
            v@ == sorted(all.take(i as int), before) + all.skip(i as int),
            sorted(all.take(i as int), before).len() == i,
            forall|a: &T, b: &T| call_requires(is_before, (a, b)),
            forall|a: &T, b: &T, r: bool|
                call_ensures(is_before, (a, b), r) ==> r == before(*a, *b),
        decreases v.len() - i,
    {
        let ghost done = sorted(all.take(i as int), before);
        let ghost x = all[i as int];
        let mut j: usize = i;
        proof {
            assert(v@[i as int] == x);
            assert(done.take(i as int) =~= done);
            assert(placed(done.take(i as int), x, before) + done.skip(i as int) =~= placed(
                done,
                x,
                before,
            ));
        }
        while j > 0 && is_before(&v[i], &v[j - 1])
            invariant
                j <= i < v.len() == all.len(),
                v@ == done + all.skip(i as int),
                done.len() == i,
                x == all[i as int],
                v@[i as int] == x,
                placed(done, x, before) == placed(done.take(j as int), x, before) + done.skip(
                    j as int,
                ),
                forall|a: &T, b: &T| call_requires(is_before, (a, b)),
                forall|a: &T, b: &T, r: bool|
                    call_ensures(is_before, (a, b), r) ==> r == before(*a, *b),
            ensures
                j <= i < v.len() == all.len(),
                v@ == done + all.skip(i as int),
                done.len() == i,
                v@[i as int] == x,
                placed(done, x, before) == placed(done.take(j as int), x, before) + done.skip(
                    j as int,
                ),
                j == 0 || !before(x, done[j - 1]),
            decreases j,
        {
            proof {
                assert(v@[j - 1] == done[j - 1]);
                assert(done.take(j as int).last() == done[j - 1]);
                assert(done.take(j as int).drop_last() =~= done.take(j - 1));
                assert(done.skip(j - 1) =~= seq![done[j - 1]] + done.skip(j as int));
                assert(placed(done.take(j as int), x, before) + done.skip(j as int) =~= placed(
                    done.take(j - 1),
                    x,
                    before,
                ) + done.skip(j - 1));
            }
            j = j - 1;
        }
        let element = v.remove(i);
        v.insert(j, element);
        proof {
            if j > 0 {
                assert(done.take(j as int).last() == done[j - 1]);
            }
            assert(placed(done.take(j as int), x, before) == done.take(j as int).push(x));
            assert(all.take(i + 1).drop_last() =~= all.take(i as int));
            assert(all.take(i + 1).last() == x);
            assert(sorted(all.take(i + 1), before) == placed(done, x, before));
            placed_adds(done, x, before);
            assert(v@ =~= placed(done, x, before) + all.skip(i + 1));
        }
        i = i + 1;
    }
    proof {
        assert(all.take(i as int) =~= all);
        assert(v@ =~= sorted(all, before));
    }
}

proof fn placed_map<T, U>(
    s: Seq<T>,
    x: T,
    f: spec_fn(T) -> U,
    before: spec_fn(T, T) -> bool,
    before_image: spec_fn(U, U) -> bool,
)
    requires
        forall|a: T, b: T| #[trigger] before(a, b) == before_image(f(a), f(b)),
    ensures
        placed(s, x, before).map_values(f) == placed(s.map_values(f), f(x), before_image),
    decreases s.len(),
{
    let image = s.map_values(f);
    if s.len() == 0 {
        assert(s.push(x).map_values(f) =~= image.push(f(x)));
    } else {
        assert(image.last() == f(s.last()));
        assert(before(x, s.last()) == before_image(f(x), f(s.last())));
        if before(x, s.last()) {
            placed_map(s.drop_last(), x, f, before, before_image);
            assert(image.drop_last() =~= s.drop_last().map_values(f));
            assert(placed(s, x, before).map_values(f) =~= placed(s.drop_last(), x, before).map_values(
                f,
            ).push(f(s.last())));
        } else {
            assert(s.push(x).map_values(f) =~= image.push(f(x)));
        }
    }
}

/// Sorting by a key of the elements sorts the keys.
pub proof fn sorted_map<T, U>(
    s: Seq<T>,
    f: spec_fn(T) -> U,
    before: spec_fn(T, T) -> bool,
    before_image: spec_fn(U, U) -> bool,
)
    requires
        forall|a: T, b: T| #[trigger] before(a, b) == before_image(f(a), f(b)),
    ensures
        sorted(s, before).map_values(f) == sorted(s.map_values(f), before_image),
    decreases s.len(),
{
    let image = s.map_values(f);
    if s.len() == 0 {
        assert(sorted(s, before).map_values(f) =~= sorted(image, before_image));
    } else {
        sorted_map(s.drop_last(), f, before, before_image);
        assert(image.drop_last() =~= s.drop_last().map_values(f));
        assert(image.last() == f(s.last()));
        placed_map(sorted(s.drop_last(), before), s.last(), f, before, before_image);
    }
}

/// No element comes before one that stands in front of it.
pub open spec fn is_in_order<T>(s: Seq<T>, before: spec_fn(T, T) -> bool) -> bool {
    forall|i: int, j: int| 0 <= i < j < s.len() ==> !before(#[trigger] s[j], #[trigger] s[i])
}

/// What does not come before another, and that other not before a third, does
/// not come before the third; and of two elements only one comes first.
pub open spec fn is_ordering<T>(before: spec_fn(T, T) -> bool) -> bool {
    &&& forall|a: T, b: T, c: T|
        !#[trigger] before(a, b) && !#[trigger] before(b, c) ==> !before(a, c)
    &&& forall|a: T, b: T| #[trigger] before(a, b) ==> !before(b, a)
}

proof fn placed_stays_in_order<T>(s: Seq<T>, x: T, before: spec_fn(T, T) -> bool)
    requires
        is_ordering(before),
        is_in_order(s, before),
    ensures
        is_in_order(placed(s, x, before), before),
    decreases s.len(),
{
    let p = placed(s, x, before);
    placed_adds(s, x, before);
    if s.len() == 0 || !before(x, s.last()) {
        assert forall|i: int, j: int| 0 <= i < j < p.len() implies !before(
            #[trigger] p[j],
            #[trigger] p[i],
        ) by {
            if j == s.len() {
                if i < s.len() - 1 {
                    assert(!before(s[s.len() - 1], s[i]));
                    assert(!before(x, s.last()));
                }
            } else {
                assert(!before(s[j], s[i]));
            }
        }
    } else {
        let front = s.drop_last();
        assert(is_in_order(front, before)) by {
            assert forall|i: int, j: int| 0 <= i < j < front.len() implies !before(
                #[trigger] front[j],
                #[trigger] front[i],
            ) by {
                assert(!before(s[j], s[i]));
            }
        }
        placed_stays_in_order(front, x, before);
        placed_adds(front, x, before);
        let q = placed(front, x, before);
        assert forall|i: int, j: int| 0 <= i < j < p.len() implies !before(
            #[trigger] p[j],
            #[trigger] p[i],
        ) by {
            if j == q.len() {
                broadcast use vstd::seq_lib::group_to_multiset_ensures;

                assert(q.contains(q[i]));
                assert(q.to_multiset().count(q[i]) > 0);
                if q[i] != x {
                    assert(front.to_multiset().count(q[i]) > 0);
                    assert(front.contains(q[i]));
                    let k = front.index_of(q[i]);
                    assert(!before(s[s.len() - 1], s[k]));
                }
            } else {
                assert(!before(q[j], q[i]));
            }
        }
    }
}

/// A sorted sequence is in order.
pub proof fn sorted_is_in_order<T>(s: Seq<T>, before: spec_fn(T, T) -> bool)
    requires
        is_ordering(before),
    ensures
        is_in_order(sorted(s, before), before),
    decreases s.len(),
{
    if s.len() > 0 {
        sorted_is_in_order(s.drop_last(), before);
        placed_stays_in_order(sorted(s.drop_last(), before), s.last(), before);
    }
}

proof fn in_order_is_unique<T>(s: Seq<T>, t: Seq<T>, before: spec_fn(T, T) -> bool)
    requires
        s.to_multiset() == t.to_multiset(),
        is_in_order(s, before),
        is_in_order(t, before),
        forall|x: T, y: T|
            s.contains(x) && s.contains(y) && x != y ==> #[trigger] before(x, y) || before(y, x),
    ensures
        s == t,
    decreases s.len(),
{
    broadcast use vstd::seq_lib::group_to_multiset_ensures;

    s.to_multiset_ensures();
    t.to_multiset_ensures();
    assert(s.len() == t.len());
    if s.len() == 0 {
        assert(s =~= t);
    } else {
        let n = s.len() - 1;
        let x = s[n];
        let y = t[n];
        assert(s.contains(x) && t.contains(y));
        assert(t.to_multiset().count(y) > 0);
        assert(s.contains(y));
        assert(s.to_multiset().count(x) > 0);
        assert(t.contains(x));
        if x != y {
            let i = s.index_of(y);
            let j = t.index_of(x);
            assert(!before(s[n], s[i]));
            assert(!before(t[n], t[j]));
            assert(before(x, y) || before(y, x));
        }
        let a = s.drop_last();
        let b = t.drop_last();
        assert(s =~= a.push(x));
        assert(t =~= b.push(x));
        assert(s.to_multiset() == a.to_multiset().insert(x));
        assert(t.to_multiset() == b.to_multiset().insert(x));
        assert(a.to_multiset() =~= s.to_multiset().remove(x));
        assert(b.to_multiset() =~= t.to_multiset().remove(x));
        assert(is_in_order(a, before)) by {
            assert forall|i: int, j: int| 0 <= i < j < a.len() implies !before(
                #[trigger] a[j],
                #[trigger] a[i],
            ) by {
                assert(!before(s[j], s[i]));
            }
        }
        assert(is_in_order(b, before)) by {
            assert forall|i: int, j: int| 0 <= i < j < b.len() implies !before(
                #[trigger] b[j],
                #[trigger] b[i],
            ) by {
                assert(!before(t[j], t[i]));
            }
        }
        assert forall|p: T, q: T|
            a.contains(p) && a.contains(q) && p != q implies #[trigger] before(p, q) || before(
            q,
            p,
        ) by {
            assert(s[a.index_of(p)] == p);
            assert(s[a.index_of(q)] == q);
            assert(s.contains(p) && s.contains(q));
        }
        in_order_is_unique(a, b, before);
    }
}

/// Sorting leaves no trace of the order before, where of two different elements
/// one always comes first.
pub proof fn sorted_ignores_order<T>(a: Seq<T>, b: Seq<T>, before: spec_fn(T, T) -> bool)
    requires
        a.to_multiset() == b.to_multiset(),
        is_ordering(before),
        forall|x: T, y: T|
            a.contains(x) && a.contains(y) && x != y ==> #[trigger] before(x, y) || before(y, x),
    ensures
        sorted(a, before) == sorted(b, before),
{
    sorted_keeps_elements(a, before);
    sorted_keeps_elements(b, before);
    sorted_is_in_order(a, before);
    sorted_is_in_order(b, before);
    assert forall|x: T, y: T|
        sorted(a, before).contains(x) && sorted(a, before).contains(y) && x
            != y implies #[trigger] before(x, y) || before(y, x) by {
        sorted_contains(a, before, x);
        sorted_contains(a, before, y);
    }
    in_order_is_unique(sorted(a, before), sorted(b, before), before);
}

} // verus!
