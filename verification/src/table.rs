//! Tables with a key: at most one row for each key, the newest.

use vstd::prelude::*;

verus! {

/// Whether `same` groups rows by a key.
pub open spec fn is_key<T>(same: spec_fn(T, T) -> bool) -> bool {
    &&& forall|a: T| #[trigger] same(a, a)
    &&& forall|a: T, b: T| #[trigger] same(a, b) ==> same(b, a)
    &&& forall|a: T, b: T, c: T| #[trigger] same(a, b) && #[trigger] same(b, c) ==> same(a, c)
}

/// Whether no two rows have the same key.
pub open spec fn keyed<T>(rows: Seq<T>, same: spec_fn(T, T) -> bool) -> bool {
    forall|i: int, j: int|
        0 <= i < rows.len() && 0 <= j < rows.len() && i != j ==> !same(
            #[trigger] rows[i],
            #[trigger] rows[j],
        )
}

/// The rows after `row` is written: it takes the place of the row with its key,
/// if there is one.
pub open spec fn written<T>(rows: Seq<T>, row: T, same: spec_fn(T, T) -> bool) -> Seq<T> {
    rows.filter(|r: T| !same(r, row)).push(row)
}

/// The rows after those of `news` are written, one after the other.
pub open spec fn all_written<T>(rows: Seq<T>, news: Seq<T>, same: spec_fn(T, T) -> bool) -> Seq<T>
    decreases news.len(),
{
    if news.len() == 0 {
        rows
    } else {
        written(all_written(rows, news.drop_last(), same), news.last(), same)
    }
}

/// Whether some row of `rows` has the key of `probe`.
pub open spec fn has_key<T>(rows: Seq<T>, probe: T, same: spec_fn(T, T) -> bool) -> bool {
    exists|i: int| 0 <= i < rows.len() && same(#[trigger] rows[i], probe)
}

pub proof fn lemma_filter_items<T>(s: Seq<T>, p: spec_fn(T) -> bool)
    ensures
        forall|i: int|
            0 <= i < s.filter(p).len() ==> p(#[trigger] s.filter(p)[i]) && s.contains(
                s.filter(p)[i],
            ),
        forall|x: T| s.contains(x) && p(x) ==> #[trigger] s.filter(p).contains(x),
        s.filter(p).len() <= s.len(),
    decreases s.len(),
{
    reveal(Seq::filter);
    if s.len() > 0 {
        let t = s.drop_last();
        lemma_filter_items(t, p);
        let f = s.filter(p);
        let g = t.filter(p);
        assert forall|i: int| 0 <= i < f.len() implies p(#[trigger] f[i]) && s.contains(f[i]) by {
            if i < g.len() {
                assert(f[i] == g[i]);
                assert(t.contains(g[i]));
                let k = choose|k: int| 0 <= k < t.len() && t[k] == g[i];
                assert(s[k] == f[i]);
            } else {
                assert(f[i] == s.last());
                assert(s[s.len() - 1] == f[i]);
            }
        }
        assert forall|x: T| s.contains(x) && p(x) implies #[trigger] f.contains(x) by {
            let k = choose|k: int| 0 <= k < s.len() && s[k] == x;
            if k < t.len() {
                assert(t[k] == x);
                assert(t.contains(x));
                assert(g.contains(x));
                let j = choose|j: int| 0 <= j < g.len() && g[j] == x;
                assert(f[j] == x);
            } else {
                assert(f[f.len() - 1] == x);
            }
        }
    }
}

pub proof fn lemma_filter_concat<T>(a: Seq<T>, b: Seq<T>, p: spec_fn(T) -> bool)
    ensures
        (a + b).filter(p) == a.filter(p) + b.filter(p),
    decreases b.len(),
{
    reveal(Seq::filter);
    if b.len() == 0 {
        assert(a + b =~= a);
        assert(a.filter(p) + b.filter(p) =~= a.filter(p));
    } else {
        lemma_filter_concat(a, b.drop_last(), p);
        assert((a + b).drop_last() =~= a + b.drop_last());
        assert((a + b).last() == b.last());
        assert((a + b).filter(p) =~= a.filter(p) + b.filter(p));
    }
}

pub proof fn lemma_filter_all<T>(s: Seq<T>, p: spec_fn(T) -> bool)
    ensures
        (forall|i: int| 0 <= i < s.len() ==> p(#[trigger] s[i])) ==> s.filter(p) == s,
        (forall|i: int| 0 <= i < s.len() ==> !p(#[trigger] s[i])) ==> s.filter(p) == Seq::<
            T,
        >::empty(),
    decreases s.len(),
{
    reveal(Seq::filter);
    if s.len() > 0 {
        let t = s.drop_last();
        lemma_filter_all(t, p);
        assert(s =~= t.push(s.last()));
        assert(s[s.len() - 1] == s.last());
        if forall|i: int| 0 <= i < s.len() ==> p(#[trigger] s[i]) {
            assert forall|i: int| 0 <= i < t.len() implies p(#[trigger] t[i]) by {
                assert(s[i] == t[i]);
            }
        }
        if forall|i: int| 0 <= i < s.len() ==> !p(#[trigger] s[i]) {
            assert forall|i: int| 0 <= i < t.len() implies !p(#[trigger] t[i]) by {
                assert(s[i] == t[i]);
            }
        }
    }
}

pub proof fn lemma_filter_twice<T>(s: Seq<T>, p: spec_fn(T) -> bool, q: spec_fn(T) -> bool)
    ensures
        s.filter(p).filter(q) == s.filter(|x: T| p(x) && q(x)),
    decreases s.len(),
{
    reveal(Seq::filter);
    if s.len() > 0 {
        let t = s.drop_last();
        lemma_filter_twice(t, p, q);
        if p(s.last()) {
            assert(s.filter(p).drop_last() =~= t.filter(p));
        }
    }
}

pub proof fn lemma_filter_same<T>(s: Seq<T>, p: spec_fn(T) -> bool, q: spec_fn(T) -> bool)
    requires
        forall|i: int| 0 <= i < s.len() ==> p(#[trigger] s[i]) == q(s[i]),
    ensures
        s.filter(p) == s.filter(q),
    decreases s.len(),
{
    reveal(Seq::filter);
    if s.len() > 0 {
        let t = s.drop_last();
        assert forall|i: int| 0 <= i < t.len() implies p(#[trigger] t[i]) == q(t[i]) by {
            assert(t[i] == s[i]);
        }
        lemma_filter_same(t, p, q);
        assert(p(s[s.len() - 1]) == q(s[s.len() - 1]));
    }
}

/// Writing keeps a table keyed.
pub proof fn written_is_keyed<T>(rows: Seq<T>, row: T, same: spec_fn(T, T) -> bool)
    requires
        is_key(same),
        keyed(rows, same),
    ensures
        keyed(written(rows, row, same), same),
{
    let p = |r: T| !same(r, row);
    lemma_filter_items(rows, p);
    lemma_filter_keyed(rows, p, same);
    let f = rows.filter(p);
    let w = written(rows, row, same);
    assert forall|i: int, j: int|
        0 <= i < w.len() && 0 <= j < w.len() && i != j implies !same(
        #[trigger] w[i],
        #[trigger] w[j],
    ) by {
        if i < f.len() && j < f.len() {
            assert(w[i] == f[i] && w[j] == f[j]);
        } else if i < f.len() {
            assert(w[i] == f[i] && w[j] == row);
            assert(p(f[i]));
        } else {
            assert(w[j] == f[j] && w[i] == row);
            assert(p(f[j]));
        }
    }
}

pub proof fn lemma_first_of_filter<T>(s: Seq<T>, p: spec_fn(T) -> bool, i: int)
    requires
        0 <= i < s.len(),
        p(s[i]),
        forall|j: int| 0 <= j < i ==> !p(#[trigger] s[j]),
    ensures
        s.filter(p).len() > 0,
        s.filter(p)[0] == s[i],
    decreases s.len(),
{
    reveal(Seq::filter);
    let t = s.drop_last();
    if i < t.len() {
        assert forall|j: int| 0 <= j < i implies !p(#[trigger] t[j]) by {
            assert(t[j] == s[j]);
        }
        lemma_first_of_filter(t, p, i);
    } else {
        lemma_filter_items(t, p);
        if t.filter(p).len() > 0 {
            let x = t.filter(p)[0];
            assert(p(x) && t.contains(x));
            let j = choose|j: int| 0 <= j < t.len() && t[j] == x;
            assert(s[j] == x);
        }
    }
}

pub proof fn lemma_filter_keyed<T>(s: Seq<T>, p: spec_fn(T) -> bool, same: spec_fn(T, T) -> bool)
    requires
        is_key(same),
        keyed(s, same),
    ensures
        keyed(s.filter(p), same),
    decreases s.len(),
{
    reveal(Seq::filter);
    if s.len() > 0 {
        let t = s.drop_last();
        assert(keyed(t, same)) by {
            assert forall|i: int, j: int|
                0 <= i < t.len() && 0 <= j < t.len() && i != j implies !same(
                #[trigger] t[i],
                #[trigger] t[j],
            ) by {
                assert(t[i] == s[i] && t[j] == s[j]);
            }
        }
        lemma_filter_keyed(t, p, same);
        if p(s.last()) {
            let g = t.filter(p);
            let f = s.filter(p);
            lemma_filter_items(t, p);
            assert forall|i: int, j: int|
                0 <= i < f.len() && 0 <= j < f.len() && i != j implies !same(
                #[trigger] f[i],
                #[trigger] f[j],
            ) by {
                assert forall|k: int| 0 <= k < g.len() implies !same(#[trigger] g[k], s.last())
                    && !same(s.last(), g[k]) by {
                    assert(t.contains(g[k]));
                    let m = choose|m: int| 0 <= m < t.len() && t[m] == g[k];
                    assert(s[m] == g[k]);
                    assert(s[s.len() - 1] == s.last());
                }
                if i < g.len() && j < g.len() {
                    assert(f[i] == g[i] && f[j] == g[j]);
                } else if i < g.len() {
                    assert(f[i] == g[i]);
                } else {
                    assert(f[j] == g[j]);
                }
            }
        }
    }
}

/// Writing any number of rows keeps a table keyed.
pub proof fn all_written_is_keyed<T>(rows: Seq<T>, news: Seq<T>, same: spec_fn(T, T) -> bool)
    requires
        is_key(same),
        keyed(rows, same),
    ensures
        keyed(all_written(rows, news, same), same),
    decreases news.len(),
{
    if news.len() > 0 {
        all_written_is_keyed(rows, news.drop_last(), same);
        written_is_keyed(all_written(rows, news.drop_last(), same), news.last(), same);
    }
}

/// The rows that were there stay, but for those whose key is written; behind
/// them come the rows that the same writing leaves in an empty table.
pub proof fn all_written_splits<T>(rows: Seq<T>, news: Seq<T>, same: spec_fn(T, T) -> bool)
    requires
        is_key(same),
    ensures
        all_written(rows, news, same) == rows.filter(|r: T| !has_key(news, r, same)) + all_written(
            Seq::<T>::empty(),
            news,
            same,
        ),
        forall|i: int|
            0 <= i < all_written(Seq::<T>::empty(), news, same).len() ==> news.contains(
                #[trigger] all_written(Seq::<T>::empty(), news, same)[i],
            ),
    decreases news.len(),
{
    let none = Seq::<T>::empty();
    let keep = |r: T| !has_key(news, r, same);
    if news.len() == 0 {
        lemma_filter_all(rows, keep);
        assert(rows.filter(keep) + none =~= rows);
    } else {
        let prev = news.drop_last();
        let row = news.last();
        let keep_prev = |r: T| !has_key(prev, r, same);
        let p = |r: T| !same(r, row);
        all_written_splits(rows, prev, same);
        let a = all_written(none, prev, same);
        lemma_filter_concat(rows.filter(keep_prev), a, p);
        lemma_filter_twice(rows, keep_prev, p);
        let both = |r: T| keep_prev(r) && p(r);
        assert forall|i: int| 0 <= i < rows.len() implies both(#[trigger] rows[i]) == keep(
            rows[i],
        ) by {
            let r = rows[i];
            if has_key(news, r, same) {
                let k = choose|k: int| 0 <= k < news.len() && same(#[trigger] news[k], r);
                if k < prev.len() {
                    assert(same(prev[k], r));
                }
            }
            if has_key(prev, r, same) {
                let k = choose|k: int| 0 <= k < prev.len() && same(#[trigger] prev[k], r);
                assert(same(news[k], r));
            }
            if same(r, row) {
                assert(same(news[news.len() - 1], r));
            }
        }
        lemma_filter_same(rows, both, keep);
        assert(all_written(rows, news, same) =~= rows.filter(keep) + a.filter(p).push(row));
        let w = all_written(none, news, same);
        lemma_filter_items(a, p);
        assert forall|i: int| 0 <= i < w.len() implies news.contains(#[trigger] w[i]) by {
            if i < w.len() - 1 {
                assert(w[i] == a.filter(p)[i]);
                assert(a.contains(a.filter(p)[i]));
                let k = choose|k: int| 0 <= k < a.len() && a[k] == w[i];
                assert(prev.contains(a[k]));
                let m = choose|m: int| 0 <= m < prev.len() && prev[m] == a[k];
                assert(news[m] == w[i]);
            } else {
                assert(news[news.len() - 1] == w[i]);
            }
        }
    }
}

/// Writing is idempotent: writing the same rows again changes nothing.
pub proof fn writing_again_changes_nothing<T>(rows: Seq<T>, news: Seq<T>, same: spec_fn(T, T) -> bool)
    requires
        is_key(same),
    ensures
        all_written(all_written(rows, news, same), news, same) == all_written(rows, news, same),
{
    let none = Seq::<T>::empty();
    let keep = |r: T| !has_key(news, r, same);
    all_written_splits(rows, news, same);
    all_written_splits(all_written(rows, news, same), news, same);
    let a = rows.filter(keep);
    let b = all_written(none, news, same);
    lemma_filter_concat(a, b, keep);
    lemma_filter_items(rows, keep);
    lemma_filter_all(a, keep);
    assert forall|i: int| 0 <= i < b.len() implies !keep(#[trigger] b[i]) by {
        assert(news.contains(b[i]));
        let k = choose|k: int| 0 <= k < news.len() && news[k] == b[i];
        assert(same(news[k], b[i]));
    }
    lemma_filter_all(b, keep);
    assert(a + none =~= a);
}

/// A read gives back what was written: the last row written under a key is the
/// one that the table holds under that key.
pub proof fn the_last_row_written_stays<T>(
    rows: Seq<T>,
    news: Seq<T>,
    same: spec_fn(T, T) -> bool,
    k: int,
)
    requires
        is_key(same),
        0 <= k < news.len(),
        forall|j: int| k < j < news.len() ==> !same(#[trigger] news[j], news[k]),
    ensures
        all_written(rows, news, same).contains(news[k]),
    decreases news.len(),
{
    let w = all_written(rows, news, same);
    if k == news.len() - 1 {
        assert(w[w.len() - 1] == news[k]);
    } else {
        let prev = news.drop_last();
        let row = news.last();
        assert(prev[k] == news[k]);
        assert forall|j: int| k < j < prev.len() implies !same(#[trigger] prev[j], prev[k]) by {
            assert(prev[j] == news[j]);
        }
        the_last_row_written_stays(rows, prev, same, k);
        let p = |r: T| !same(r, row);
        let a = all_written(rows, prev, same);
        lemma_filter_items(a, p);
        assert(!same(news[news.len() - 1], news[k]));
        assert(p(news[k]));
        assert(a.filter(p).contains(news[k]));
        let i = choose|i: int| 0 <= i < a.filter(p).len() && a.filter(p)[i] == news[k];
        assert(w[i] == news[k]);
    }
}

/// Under a key that is not written the table holds what it held.
pub proof fn other_rows_stay<T>(rows: Seq<T>, news: Seq<T>, same: spec_fn(T, T) -> bool, row: T)
    requires
        is_key(same),
        !has_key(news, row, same),
    ensures
        all_written(rows, news, same).contains(row) <==> rows.contains(row),
{
    let keep = |r: T| !has_key(news, r, same);
    all_written_splits(rows, news, same);
    lemma_filter_items(rows, keep);
    let a = rows.filter(keep);
    let b = all_written(Seq::<T>::empty(), news, same);
    let w = all_written(rows, news, same);
    if rows.contains(row) {
        assert(a.contains(row));
        let i = choose|i: int| 0 <= i < a.len() && a[i] == row;
        assert(w[i] == row);
    }
    if w.contains(row) {
        let i = choose|i: int| 0 <= i < w.len() && w[i] == row;
        if i < a.len() {
            assert(a[i] == row);
            assert(rows.contains(a[i]));
        } else {
            assert(b[i - a.len()] == row);
            assert(news.contains(row));
            let k = choose|k: int| 0 <= k < news.len() && news[k] == row;
            assert(same(news[k], row));
        }
    }
}

/// Writes `row` in the place of the row with its key.
pub(crate) fn write_row<T, F: Fn(&T, &T) -> bool>(
    rows: &mut Vec<T>,
    row: T,
    is_same: F,
    Ghost(same): Ghost<spec_fn(T, T) -> bool>,
)
    requires
        forall|a: &T, b: &T| call_requires(is_same, (a, b)),
        forall|a: &T, b: &T, c: bool| call_ensures(is_same, (a, b), c) ==> c == same(*a, *b),
    ensures
        final(rows)@ == written(old(rows)@, row, same),
{
    let ghost all = rows@;
    let ghost p = |r: T| !same(r, row);
    let mut i: usize = 0;
    let ghost mut seen: int = 0;
    assert(all.take(0) =~= Seq::<T>::empty());
    assert(all.take(0).filter(p) =~= Seq::<T>::empty()) by {
        reveal(Seq::filter);
    }
    assert(rows@ =~= all.take(0).filter(p) + all.skip(0));
    while i < rows.len()
        invariant
            0 <= seen <= all.len(),
            p == (|r: T| !same(r, row)),
            i == all.take(seen).filter(p).len(),
            rows@ == all.take(seen).filter(p) + all.skip(seen),
            forall|a: &T, b: &T| call_requires(is_same, (a, b)),
            forall|a: &T, b: &T, c: bool| call_ensures(is_same, (a, b), c) ==> c == same(*a, *b),
        decreases all.len() - seen,
    {
        let ghost done = all.take(seen).filter(p);
        assert(rows@[i as int] == all.skip(seen)[0]);
        assert(all.skip(seen)[0] == all[seen]);
        proof {
            assert(all.take(seen + 1).drop_last() =~= all.take(seen));
            assert(all.take(seen + 1).last() == all[seen]);
            reveal(Seq::filter);
        }
        if is_same(&rows[i], &row) {
            rows.remove(i);
            assert(rows@ =~= done + all.skip(seen + 1));
        } else {
            i = i + 1;
            assert(rows@ =~= done.push(all[seen]) + all.skip(seen + 1));
        }
        proof {
            seen = seen + 1;
        }
    }
    assert(seen == all.len()) by {
        assert(all.skip(seen).len() == 0);
    }
    assert(all.take(seen) =~= all);
    assert(rows@ =~= all.filter(p));
    rows.push(row);
}

/// Whether two lists have as many rows, each like its counterpart.
pub open spec fn pairwise<T>(a: Seq<T>, b: Seq<T>, alike: spec_fn(T, T) -> bool) -> bool {
    &&& a.len() == b.len()
    &&& forall|i: int| 0 <= i < a.len() ==> alike(#[trigger] a[i], b[i])
}

pub proof fn lemma_filter_pairwise<T>(
    a: Seq<T>,
    b: Seq<T>,
    alike: spec_fn(T, T) -> bool,
    p: spec_fn(T) -> bool,
    q: spec_fn(T) -> bool,
)
    requires
        pairwise(a, b, alike),
        forall|i: int| 0 <= i < a.len() ==> p(#[trigger] a[i]) == q(b[i]),
    ensures
        pairwise(a.filter(p), b.filter(q), alike),
    decreases a.len(),
{
    reveal(Seq::filter);
    if a.len() > 0 {
        let c = a.drop_last();
        let d = b.drop_last();
        assert forall|i: int| 0 <= i < c.len() implies alike(#[trigger] c[i], d[i]) && p(c[i])
            == q(d[i]) by {
            assert(c[i] == a[i] && d[i] == b[i]);
        }
        lemma_filter_pairwise(c, d, alike, p, q);
        assert(alike(a[a.len() - 1], b[b.len() - 1]));
        assert(p(a[a.len() - 1]) == q(b[b.len() - 1]));
    }
}

/// Writing rows that are alike, in tables whose rows are alike, leaves tables
/// whose rows are alike.
pub proof fn like_rows_make_like_tables<T>(
    rows: Seq<T>,
    others: Seq<T>,
    a: Seq<T>,
    b: Seq<T>,
    same: spec_fn(T, T) -> bool,
    alike: spec_fn(T, T) -> bool,
)
    requires
        pairwise(rows, others, alike),
        pairwise(a, b, alike),
        forall|w: T, x: T, y: T, z: T| #[trigger]
            alike(w, x) && #[trigger] alike(y, z) ==> same(w, y) == same(x, z),
    ensures
        pairwise(all_written(rows, a, same), all_written(others, b, same), alike),
    decreases a.len(),
{
    if a.len() > 0 {
        let c = a.drop_last();
        let d = b.drop_last();
        assert forall|i: int| 0 <= i < c.len() implies alike(#[trigger] c[i], d[i]) by {
            assert(c[i] == a[i] && d[i] == b[i]);
        }
        like_rows_make_like_tables(rows, others, c, d, same, alike);
        let f = all_written(rows, c, same);
        let g = all_written(others, d, same);
        let x = a.last();
        let y = b.last();
        assert(alike(a[a.len() - 1], b[b.len() - 1]));
        let p = |r: T| !same(r, x);
        let q = |r: T| !same(r, y);
        assert forall|i: int| 0 <= i < f.len() implies p(#[trigger] f[i]) == q(g[i]) by {
            assert(alike(f[i], g[i]) && alike(x, y));
        }
        lemma_filter_pairwise(f, g, alike, p, q);
        let w = written(f, x, same);
        let v = written(g, y, same);
        assert forall|i: int| 0 <= i < w.len() implies alike(#[trigger] w[i], v[i]) by {
            if i < f.filter(p).len() {
                assert(alike(f.filter(p)[i], g.filter(q)[i]));
            }
        }
    }
}

/// Rows may be written slice by slice.
pub proof fn slices_write_the_table<T>(
    rows: Seq<T>,
    news: Seq<T>,
    more: Seq<T>,
    same: spec_fn(T, T) -> bool,
)
    ensures
        all_written(rows, news + more, same) == all_written(
            all_written(rows, news, same),
            more,
            same,
        ),
    decreases more.len(),
{
    if more.len() == 0 {
        assert(news + more =~= news);
    } else {
        slices_write_the_table(rows, news, more.drop_last(), same);
        assert((news + more).drop_last() =~= news + more.drop_last());
        assert((news + more).last() == more.last());
    }
}

/// A table that was empty holds rows that were written, and no others.
pub proof fn only_written_rows_are_there<T>(news: Seq<T>, same: spec_fn(T, T) -> bool, i: int)
    requires
        0 <= i < all_written(Seq::<T>::empty(), news, same).len(),
    ensures
        news.contains(all_written(Seq::<T>::empty(), news, same)[i]),
    decreases news.len(),
{
    if news.len() > 0 {
        let t = news.drop_last();
        let before = all_written(Seq::<T>::empty(), t, same);
        let p = |r: T| !same(r, news.last());
        let kept = before.filter(p);
        lemma_filter_items(before, p);
        if i < kept.len() {
            assert(before.contains(kept[i]));
            let j = choose|j: int| 0 <= j < before.len() && before[j] == kept[i];
            only_written_rows_are_there(t, same, j);
            let k = choose|k: int| 0 <= k < t.len() && t[k] == before[j];
            assert(news[k] == kept[i]);
        } else {
            assert(news[news.len() - 1] == news.last());
        }
    }
}

} // verus!
