//! Stable sorting: what the order of a sorted list is, and the sort itself.

use vstd::prelude::*;

verus! {

/// `s`, in order under `lt`, with `x` put in behind everything that does not
/// come after it.
pub open spec fn placed<T>(s: Seq<T>, x: T, lt: spec_fn(T, T) -> bool) -> Seq<T>
    decreases s.len(),
{
    if s.len() > 0 && lt(x, s.last()) {
        placed(s.drop_last(), x, lt).push(s.last())
    } else {
        s.push(x)
    }
}

/// The items of `s` in order under `lt`; items of which neither comes before
/// the other stay in the order in which `s` has them.
pub open spec fn ordered<T>(s: Seq<T>, lt: spec_fn(T, T) -> bool) -> Seq<T>
    decreases s.len(),
{
    if s.len() == 0 {
        s
    } else {
        placed(ordered(s.drop_last(), lt), s.last(), lt)
    }
}

/// Whether "does not come after" carries over from neighbour to neighbour, and
/// of two items at most one comes before the other.
pub open spec fn is_order<T>(lt: spec_fn(T, T) -> bool) -> bool {
    &&& forall|a: T, b: T| #[trigger] lt(a, b) ==> !lt(b, a)
    &&& forall|a: T, b: T, c: T|
        #![trigger lt(b, a), lt(c, b)]
        !lt(b, a) && !lt(c, b) ==> !lt(c, a)
}

proof fn lemma_placed_multiset<T>(s: Seq<T>, x: T, lt: spec_fn(T, T) -> bool)
    ensures
        placed(s, x, lt).to_multiset() == s.to_multiset().insert(x),
        placed(s, x, lt).len() == s.len() + 1,
    decreases s.len(),
{
    broadcast use vstd::seq_lib::group_to_multiset_ensures;

    if s.len() > 0 && lt(x, s.last()) {
        let t = s.drop_last();
        lemma_placed_multiset(t, x, lt);
        assert(s =~= t.push(s.last()));
        assert(placed(s, x, lt).to_multiset() =~= s.to_multiset().insert(x));
    }
}

/// Sorting neither adds nor loses an item.
pub proof fn ordered_keeps_items<T>(s: Seq<T>, lt: spec_fn(T, T) -> bool)
    ensures
        ordered(s, lt).to_multiset() == s.to_multiset(),
        ordered(s, lt).len() == s.len(),
    decreases s.len(),
{
    broadcast use vstd::seq_lib::group_to_multiset_ensures;

    if s.len() > 0 {
        let t = s.drop_last();
        ordered_keeps_items(t, lt);
        lemma_placed_multiset(ordered(t, lt), s.last(), lt);
        assert(s =~= t.push(s.last()));
        assert(ordered(s, lt).to_multiset() =~= s.to_multiset());
    }
}

/// What holds of every item of a list holds of every item of the sorted list,
/// and the other way round.
pub proof fn ordered_has_the_same_items<T>(s: Seq<T>, lt: spec_fn(T, T) -> bool)
    ensures
        forall|x: T| #[trigger] ordered(s, lt).contains(x) <==> s.contains(x),
{
    broadcast use vstd::seq_lib::group_to_multiset_ensures;

    ordered_keeps_items(s, lt);
    assert forall|x: T| #[trigger] ordered(s, lt).contains(x) <==> s.contains(x) by {
        assert(ordered(s, lt).to_multiset().count(x) == s.to_multiset().count(x));
        assert(ordered(s, lt).contains(x) <==> ordered(s, lt).to_multiset().count(x) > 0);
        assert(s.contains(x) <==> s.to_multiset().count(x) > 0);
    }
}

proof fn lemma_placed_ordered<T>(s: Seq<T>, x: T, lt: spec_fn(T, T) -> bool)
    requires
        is_order(lt),
        forall|i: int, j: int| 0 <= i < j < s.len() ==> !lt(#[trigger] s[j], #[trigger] s[i]),
    ensures
        ({
            let r = placed(s, x, lt);
            &&& forall|i: int, j: int|
                0 <= i < j < r.len() ==> !lt(#[trigger] r[j], #[trigger] r[i])
            &&& forall|i: int| 0 <= i < r.len() ==> (#[trigger] r[i]) == x || s.contains(r[i])
        }),
    decreases s.len(),
{
    let r = placed(s, x, lt);
    if s.len() > 0 && lt(x, s.last()) {
        let t = s.drop_last();
        lemma_placed_ordered(t, x, lt);
        let p = placed(t, x, lt);
        let y = s.last();
        assert forall|i: int, j: int| 0 <= i < j < r.len() implies !lt(
            #[trigger] r[j],
            #[trigger] r[i],
        ) by {
            assert(r[i] == p[i]);
            if j == r.len() - 1 {
                if p[i] != x {
                    let k = choose|k: int| 0 <= k < t.len() && t[k] == p[i];
                    assert(!lt(s[s.len() - 1], s[k]));
                }
            } else {
                assert(r[j] == p[j]);
            }
        }
        assert forall|i: int| 0 <= i < r.len() implies (#[trigger] r[i]) == x || s.contains(
            r[i],
        ) by {
            if i < r.len() - 1 {
                assert(r[i] == p[i]);
                if p[i] != x {
                    let k = choose|k: int| 0 <= k < t.len() && t[k] == p[i];
                    assert(s[k] == r[i]);
                }
            } else {
                assert(s[s.len() - 1] == r[i]);
            }
        }
    } else {
        assert forall|i: int, j: int| 0 <= i < j < r.len() implies !lt(
            #[trigger] r[j],
            #[trigger] r[i],
        ) by {
            if j == r.len() - 1 {
                if i < s.len() - 1 {
                    assert(!lt(s[s.len() - 1], s[i]));
                    assert(!lt(x, s[s.len() - 1]));
                }
            }
        }
        assert forall|i: int| 0 <= i < r.len() implies (#[trigger] r[i]) == x || s.contains(
            r[i],
        ) by {
            if i < s.len() {
                assert(s[i] == r[i]);
            }
        }
    }
}

/// No item of a sorted list comes before one in front of it.
pub proof fn ordered_is_in_order<T>(s: Seq<T>, lt: spec_fn(T, T) -> bool)
    requires
        is_order(lt),
    ensures
        forall|i: int, j: int|
            0 <= i < j < s.len() ==> !lt(
                #[trigger] ordered(s, lt)[j],
                #[trigger] ordered(s, lt)[i],
            ),
        ordered(s, lt).len() == s.len(),
    decreases s.len(),
{
    ordered_keeps_items(s, lt);
    if s.len() > 0 {
        let t = s.drop_last();
        ordered_is_in_order(t, lt);
        ordered_keeps_items(t, lt);
        lemma_placed_ordered(ordered(t, lt), s.last(), lt);
    }
}

proof fn lemma_filter_push<T>(s: Seq<T>, x: T, p: spec_fn(T) -> bool)
    ensures
        s.push(x).filter(p) == (if p(x) {
            s.filter(p).push(x)
        } else {
            s.filter(p)
        }),
{
    assert(s.push(x).drop_last() =~= s);
    reveal(Seq::filter);
}

proof fn lemma_placed_filter<T>(
    s: Seq<T>,
    x: T,
    lt: spec_fn(T, T) -> bool,
    p: spec_fn(T) -> bool,
)
    requires
        forall|a: T, b: T| p(a) && p(b) ==> !#[trigger] lt(a, b),
    ensures
        placed(s, x, lt).filter(p) == s.push(x).filter(p),
    decreases s.len(),
{
    if s.len() > 0 && lt(x, s.last()) {
        let t = s.drop_last();
        lemma_placed_filter(t, x, lt, p);
        lemma_filter_push(placed(t, x, lt), s.last(), p);
        lemma_filter_push(t, x, p);
        lemma_filter_push(s, x, p);
        lemma_filter_push(t, s.last(), p);
        assert(s =~= t.push(s.last()));
    }
}

/// Sorting is stable: among items of which none comes before another, the
/// sorted list has the order of the list.
pub proof fn ordered_is_stable<T>(s: Seq<T>, lt: spec_fn(T, T) -> bool, p: spec_fn(T) -> bool)
    requires
        forall|a: T, b: T| p(a) && p(b) ==> !#[trigger] lt(a, b),
    ensures
        ordered(s, lt).filter(p) == s.filter(p),
    decreases s.len(),
{
    if s.len() > 0 {
        let t = s.drop_last();
        ordered_is_stable(t, lt, p);
        lemma_placed_filter(ordered(t, lt), s.last(), lt, p);
        lemma_filter_push(ordered(t, lt), s.last(), p);
        lemma_filter_push(t, s.last(), p);
        assert(s =~= t.push(s.last()));
    }
}

proof fn lemma_placed_at<T>(s: Seq<T>, x: T, lt: spec_fn(T, T) -> bool, j: int)
    requires
        0 <= j <= s.len(),
        forall|k: int| j <= k < s.len() ==> lt(x, #[trigger] s[k]),
        j > 0 ==> !lt(x, s[j - 1]),
    ensures
        placed(s, x, lt) == s.insert(j, x),
    decreases s.len(),
{
    if j == s.len() {
        assert(s.insert(j, x) =~= s.push(x));
    } else {
        let t = s.drop_last();
        lemma_placed_at(t, x, lt, j);
        assert(t.insert(j, x).push(s.last()) =~= s.insert(j, x));
    }
}

/// The items of `v` in the order that `before` decides, stably.
pub(crate) fn sort_by<T, F: Fn(&T, &T) -> bool>(
    v: Vec<T>,
    before: F,
    Ghost(lt): Ghost<spec_fn(T, T) -> bool>,
) -> (r: Vec<T>)
    requires
        forall|a: &T, b: &T| call_requires(before, (a, b)),
        forall|a: &T, b: &T, c: bool| call_ensures(before, (a, b), c) ==> c == lt(*a, *b),
    ensures
        r@ == ordered(v@, lt),
{
    let ghost all = v@;
    let mut v = v;
    let mut waiting: Vec<T> = Vec::new();
    while v.len() > 0
        invariant
            v@ + waiting@.reverse() == all,
        decreases v@.len(),
    {
        let ghost front = v@;
        let ghost back = waiting@;
        match v.pop() {
            Some(x) => {
                waiting.push(x);
                assert(v@ + waiting@.reverse() =~= front + back.reverse());
            },
            None => {},
        }
    }
    assert(waiting@.reverse() =~= all);
    let mut out: Vec<T> = Vec::new();
    assert(out@ + waiting@.reverse() =~= all);
    assert(all.take(0) =~= Seq::<T>::empty());
    while waiting.len() > 0
        invariant
            waiting@.len() <= all.len(),
            all.skip(all.len() - waiting@.len()) == waiting@.reverse(),
            out@ == ordered(all.take(all.len() - waiting@.len()), lt),
            forall|a: &T, b: &T| call_requires(before, (a, b)),
            forall|a: &T, b: &T, c: bool| call_ensures(before, (a, b), c) ==> c == lt(*a, *b),
        decreases waiting@.len(),
    {
        let ghost n = all.len() - waiting@.len();
        let ghost rest = waiting@;
        match waiting.pop() {
            Some(x) => {
                assert(rest.reverse()[0] == x);
                assert(all[n] == x) by {
                    assert(all.skip(n)[0] == all[n]);
                }
                assert(all.skip(n + 1) =~= waiting@.reverse()) by {
                    assert(all.skip(n + 1) =~= all.skip(n).drop_first());
                    assert(waiting@.reverse() =~= rest.reverse().drop_first());
                }
                let mut j: usize = out.len();
                while j > 0 && before(&x, &out[j - 1])
                    invariant
                        0 <= j <= out@.len(),
                        forall|k: int| j <= k < out@.len() ==> lt(x, #[trigger] out@[k]),
                        forall|a: &T, b: &T| call_requires(before, (a, b)),
                        forall|a: &T, b: &T, c: bool|
                            call_ensures(before, (a, b), c) ==> c == lt(*a, *b),
                    ensures
                        0 <= j <= out@.len(),
                        forall|k: int| j <= k < out@.len() ==> lt(x, #[trigger] out@[k]),
                        j > 0 ==> !lt(x, out@[j - 1]),
                    decreases j,
                {
                    j = j - 1;
                }
                proof {
                    lemma_placed_at(out@, x, lt, j as int);
                    assert(all.take(n + 1).drop_last() =~= all.take(n));
                    assert(all.take(n + 1).last() == x);
                }
                out.insert(j, x);
            },
            None => {},
        }
    }
    assert(all.take(all.len() as int) =~= all);
    out
}

} // verus!
