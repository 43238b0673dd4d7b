//! Facts about sequences.

use vstd::prelude::*;

verus! {

/// One more item, filtered.
pub proof fn lemma_filter_take<A>(s: Seq<A>, keep: spec_fn(A) -> bool, i: int)
    requires
        0 <= i < s.len(),
    ensures
        s.take(i + 1).filter(keep) == if keep(s[i]) {
            s.take(i).filter(keep).push(s[i])
        } else {
            s.take(i).filter(keep)
        },
{
    reveal(Seq::filter);
    assert(s.take(i + 1).drop_last() =~= s.take(i));
}

/// What a filter keeps was there.
pub proof fn lemma_filter_is_part<A>(s: Seq<A>, keep: spec_fn(A) -> bool, i: int)
    requires
        0 <= i < s.filter(keep).len(),
    ensures
        s.contains(s.filter(keep)[i]),
    decreases s.len(),
{
    reveal(Seq::filter);
    if s.len() > 0 {
        let kept = s.drop_last().filter(keep);
        if i < kept.len() {
            lemma_filter_is_part(s.drop_last(), keep, i);
            let j = choose|j: int| 0 <= j < s.drop_last().len() && s.drop_last()[j] == kept[i];
            assert(s[j] == kept[i]);
        } else {
            assert(s[s.len() - 1] == s.filter(keep)[i]);
        }
    }
}

/// A filter that keeps every item changes nothing.
pub proof fn lemma_filter_keeps_all<A>(s: Seq<A>, keep: spec_fn(A) -> bool)
    requires
        forall|i: int| 0 <= i < s.len() ==> keep(#[trigger] s[i]),
    ensures
        s.filter(keep) == s,
    decreases s.len(),
{
    reveal(Seq::filter);
    if s.len() > 0 {
        lemma_filter_keeps_all(s.drop_last(), keep);
        assert(s.drop_last().push(s.last()) =~= s);
    }
}

/// Two sequences of the same items in the same strict order are the same.
pub proof fn lemma_ordered_once<A>(a: Seq<A>, b: Seq<A>, before: spec_fn(A, A) -> bool)
    requires
        forall|x: A, y: A| #[trigger] before(x, y) ==> !before(y, x),
        forall|i: int, j: int|
            0 <= i < j < a.len() ==> before(#[trigger] a[i], #[trigger] a[j]),
        forall|i: int, j: int|
            0 <= i < j < b.len() ==> before(#[trigger] b[i], #[trigger] b[j]),
        forall|x: A| #[trigger] a.contains(x) <==> b.contains(x),
    ensures
        a == b,
    decreases a.len(),
{
    if a.len() == 0 {
        if b.len() > 0 {
            assert(b.contains(b[0]));
            assert(a.contains(b[0]));
        }
        assert(a =~= b);
    } else {
        assert(a.contains(a[0]));
        let j = choose|j: int| 0 <= j < b.len() && b[j] == a[0];
        assert(b.contains(b[0]));
        assert(a.contains(b[0]));
        let i = choose|i: int| 0 <= i < a.len() && a[i] == b[0];
        if i > 0 && j > 0 {
            assert(before(a[0], a[i]));
            assert(before(b[0], b[j]));
        }
        assert(a[0] == b[0]);
        let x = a.drop_first();
        let y = b.drop_first();
        assert forall|v: A| #[trigger] x.contains(v) <==> y.contains(v) by {
            if x.contains(v) {
                let k = choose|k: int| 0 <= k < x.len() && x[k] == v;
                assert(a[k + 1] == v);
                assert(before(a[0], a[k + 1]));
                assert(a.contains(v));
                let m = choose|m: int| 0 <= m < b.len() && b[m] == v;
                assert(m > 0);
                assert(y[m - 1] == v);
            }
            if y.contains(v) {
                let k = choose|k: int| 0 <= k < y.len() && y[k] == v;
                assert(b[k + 1] == v);
                assert(before(b[0], b[k + 1]));
                assert(b.contains(v));
                assert(a.contains(v));
                let m = choose|m: int| 0 <= m < a.len() && a[m] == v;
                assert(m > 0);
                assert(x[m - 1] == v);
            }
        }
        lemma_ordered_once(x, y, before);
        assert(a =~= seq![a[0]] + x);
        assert(b =~= seq![b[0]] + y);
    }
}

/// A filter keeps exactly the items that it is meant to keep.
pub proof fn lemma_filter_holds<A>(s: Seq<A>, keep: spec_fn(A) -> bool, item: A)
    ensures
        s.filter(keep).contains(item) <==> s.contains(item) && keep(item),
{
    let kept = s.filter(keep);
    if kept.contains(item) {
        let i = choose|i: int| 0 <= i < kept.len() && kept[i] == item;
        s.lemma_filter_pred(keep, i);
        lemma_filter_is_part(s, keep, i);
    }
    if s.contains(item) && keep(item) {
        let i = choose|i: int| 0 <= i < s.len() && s[i] == item;
        s.lemma_filter_contains(keep, i);
    }
}

/// An item that a filter keeps comes behind those kept of the items ahead of it.
pub proof fn lemma_filter_place<A>(s: Seq<A>, keep: spec_fn(A) -> bool, i: int)
    requires
        0 <= i < s.len(),
        keep(s[i]),
    ensures
        s.take(i).filter(keep).len() < s.filter(keep).len(),
        s.filter(keep)[s.take(i).filter(keep).len() as int] == s[i],
    decreases s.len(),
{
    reveal(Seq::filter);
    let rest = s.drop_last();
    if i == s.len() - 1 {
        assert(s.take(i) =~= rest);
    } else {
        lemma_filter_place(rest, keep, i);
        assert(rest.take(i) =~= s.take(i));
    }
}

/// Where an item that a filter keeps came from.
pub proof fn find_filtered<A>(s: Seq<A>, keep: spec_fn(A) -> bool, m: int) -> (i: int)
    requires
        0 <= m < s.filter(keep).len(),
    ensures
        0 <= i < s.len(),
        keep(s[i]),
        s[i] == s.filter(keep)[m],
        s.take(i).filter(keep).len() == m,
    decreases s.len(),
{
    reveal(Seq::filter);
    let rest = s.drop_last();
    if m < rest.filter(keep).len() {
        let i = find_filtered(rest, keep, m);
        assert(rest.take(i) =~= s.take(i));
        i
    } else {
        let i = s.len() - 1;
        assert(s.take(i) =~= rest);
        i
    }
}

/// A filter keeps more of more.
pub proof fn lemma_filter_grows<A>(s: Seq<A>, keep: spec_fn(A) -> bool, i: int, j: int)
    requires
        0 <= i < j <= s.len(),
        keep(s[i]),
    ensures
        s.take(i).filter(keep).len() < s.take(j).filter(keep).len(),
{
    assert(s.take(j)[i] == s[i]);
    assert(s.take(j).take(i) =~= s.take(i));
    lemma_filter_place(s.take(j), keep, i);
}

} // verus!
