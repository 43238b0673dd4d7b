//! Names put in the order of two numbers and then of the names themselves.

use vstd::prelude::*;

use crate::text::{comes_before, text_before, text_before_is_total, text_before_is_transitive};

verus! {

/// A name with the two numbers that it is ordered by.
pub struct Ranked {
    pub major: i128,
    pub minor: i128,
    pub name: String,
}

impl Ranked {
    /// This one comes strictly before `other`: by `major`, then by `minor`, then by name.
    pub open spec fn before(self, other: Ranked) -> bool {
        ||| self.major < other.major
        ||| self.major == other.major && self.minor < other.minor
        ||| self.major == other.major && self.minor == other.minor && text_before(
            self.name@,
            other.name@,
        )
    }

    fn comes_before(&self, other: &Ranked) -> (r: bool)
        ensures
            r == self.before(*other),
    {
        if self.major != other.major {
            self.major < other.major
        } else if self.minor != other.minor {
            self.minor < other.minor
        } else {
            comes_before(self.name.as_str(), other.name.as_str())
        }
    }
}

/// Each one comes before all that follow.
pub open spec fn is_ranked(items: Seq<Ranked>) -> bool {
    forall|i: int, j: int|
        0 <= i < j < items.len() ==> (#[trigger] items[i]).before(#[trigger] items[j])
}

/// No two of them have the same name.
pub open spec fn distinctly_named(items: Seq<Ranked>) -> bool {
    forall|i: int, j: int|
        0 <= i < j < items.len() ==> (#[trigger] items[i]).name@ != (#[trigger] items[j]).name@
}

proof fn lemma_before_is_transitive(a: Ranked, b: Ranked, c: Ranked)
    requires
        a.before(b),
        b.before(c),
    ensures
        a.before(c),
{
    if a.major == b.major && b.major == c.major && a.minor == b.minor && b.minor == c.minor {
        text_before_is_transitive(a.name@, b.name@, c.name@);
    }
}

fn insert_ranked(sorted: &mut Vec<Ranked>, item: Ranked)
    requires
        is_ranked(old(sorted)@),
        forall|i: int|
            0 <= i < old(sorted)@.len() ==> (#[trigger] old(sorted)@[i]).name@ != item.name@,
    ensures
        is_ranked(final(sorted)@),
        exists|at: int|
            0 <= at <= old(sorted)@.len() && final(sorted)@ == #[trigger] old(sorted)@.insert(
                at,
                item,
            ),
{
    let mut at: usize = 0;
    while at < sorted.len() && sorted[at].comes_before(&item)
        invariant
            at <= sorted@.len(),
            sorted@ == old(sorted)@,
            forall|i: int| 0 <= i < at ==> (#[trigger] sorted@[i]).before(item),
        decreases sorted@.len() - at,
    {
        at = at + 1;
    }
    let ghost before = sorted@;
    proof {
        assert forall|i: int| at <= i < before.len() implies item.before(#[trigger] before[i]) by {
            text_before_is_total(before[at as int].name@, item.name@);
            assert(item.before(before[at as int]));
            if i > at {
                lemma_before_is_transitive(item, before[at as int], before[i]);
            }
        }
    }
    sorted.insert(at, item);
    proof {
        let after = sorted@;
        assert forall|i: int, j: int| 0 <= i < j < after.len() implies (#[trigger] after[i]).before(
            #[trigger] after[j],
        ) by {
            if i < at && j > at {
                assert(before[i].before(before[j - 1]));
            } else if j < at {
                assert(before[i].before(before[j]));
            } else if i > at {
                assert(before[i - 1].before(before[j - 1]));
            }
        }
        assert(after == before.insert(at as int, item));
    }
}

/// The same items, put in order.
pub fn sort_ranked(items: Vec<Ranked>) -> (r: Vec<Ranked>)
    requires
        distinctly_named(items@),
    ensures
        is_ranked(r@),
        r@.to_multiset() == items@.to_multiset(),
        forall|x: Ranked| #[trigger] r@.contains(x) <==> items@.contains(x),
{
    let mut rest = items;
    let mut sorted: Vec<Ranked> = Vec::new();
    proof {
        sorted@.to_multiset_ensures();
        assert(rest@.to_multiset().add(sorted@.to_multiset()) =~= items@.to_multiset());
    }
    while rest.len() > 0
        invariant
            is_ranked(sorted@),
            distinctly_named(rest@),
            forall|i: int, j: int|
                0 <= i < rest@.len() && 0 <= j < sorted@.len() ==> (#[trigger] rest@[i]).name@ != (
                #[trigger] sorted@[j]).name@,
            rest@.to_multiset().add(sorted@.to_multiset()) == items@.to_multiset(),
        decreases rest@.len(),
    {
        let ghost rest0 = rest@;
        let ghost sorted0 = sorted@;
        match rest.pop() {
            Some(item) => {
                insert_ranked(&mut sorted, item);
                proof {
                    let at = choose|at: int|
                        0 <= at <= sorted0.len() && sorted@ == #[trigger] sorted0.insert(at, item);
                    assert(rest0 =~= rest@.push(item));
                    rest@.to_multiset_ensures();
                    sorted@.to_multiset_ensures();
                    assert(sorted@[at] == item);
                    assert(sorted@.contains(item));
                    assert(sorted@.remove(at) =~= sorted0);
                    assert(rest0.to_multiset() =~= rest@.to_multiset().insert(item));
                    assert(sorted@.to_multiset() =~= sorted0.to_multiset().insert(item));
                    assert(rest@.to_multiset().add(sorted@.to_multiset())
                        =~= rest0.to_multiset().add(sorted0.to_multiset()));
                    assert forall|i: int, j: int|
                        0 <= i < rest@.len() && 0 <= j < sorted@.len() implies (
                    #[trigger] rest@[i]).name@ != (#[trigger] sorted@[j]).name@ by {
                        assert(rest0[i].name@ != rest0[rest@.len() as int].name@);
                        if j < at {
                            assert(sorted@[j] == sorted0[j]);
                        } else if j > at {
                            assert(sorted@[j] == sorted0[j - 1]);
                        }
                    }
                }
            },
            None => {},
        }
    }
    proof {
        rest@.to_multiset_ensures();
        assert(rest@.to_multiset().add(sorted@.to_multiset()) =~= sorted@.to_multiset());
        sorted@.to_multiset_ensures();
        items@.to_multiset_ensures();
        assert forall|x: Ranked| #[trigger] sorted@.contains(x) <==> items@.contains(x) by {
            assert(sorted@.to_multiset().count(x) == items@.to_multiset().count(x));
        }
    }
    sorted
}

/// The names alone, in the same order.
pub fn names_of(items: &Vec<Ranked>) -> (r: Vec<String>)
    ensures
        r@ == items@.map_values(|x: Ranked| x.name),
{
    let mut r: Vec<String> = Vec::new();
    let mut i: usize = 0;
    while i < items.len()
        invariant
            i <= items@.len(),
            r@ == items@.take(i as int).map_values(|x: Ranked| x.name),
        decreases items@.len() - i,
    {
        r.push(items[i].name.clone());
        i = i + 1;
        assert(items@.take(i as int) =~= items@.take(i - 1).push(items@[i - 1]));
    }
    assert(items@.take(items@.len() as int) =~= items@);
    r
}

} // verus!
