//! Maps and sets keyed by name.
//!
//! A name is held once. The order in which names are held carries no meaning: the views are a
//! `Map` and a `Set` over the names' characters.

use vstd::prelude::*;

use crate::text::same_text;

verus! {

spec fn named_once<V>(entries: Seq<(String, V)>) -> bool {
    forall|i: int, j: int|
        0 <= i < j < entries.len() ==> (#[trigger] entries[i]).0@ != (#[trigger] entries[j]).0@
}

spec fn holds_name<V>(entries: Seq<(String, V)>, name: Seq<char>) -> bool {
    exists|i: int| 0 <= i < entries.len() && (#[trigger] entries[i]).0@ == name
}

spec fn index_of_name<V>(entries: Seq<(String, V)>, name: Seq<char>) -> int {
    choose|i: int| 0 <= i < entries.len() && (#[trigger] entries[i]).0@ == name
}

spec fn entry_map<V>(entries: Seq<(String, V)>) -> Map<Seq<char>, V> {
    Map::new(
        |name: Seq<char>| holds_name(entries, name),
        |name: Seq<char>| entries[index_of_name(entries, name)].1,
    )
}

proof fn lemma_entry_at<V>(entries: Seq<(String, V)>, i: int)
    requires
        named_once(entries),
        0 <= i < entries.len(),
    ensures
        entry_map(entries).contains_key(entries[i].0@),
        entry_map(entries)[entries[i].0@] == entries[i].1,
{
    let name = entries[i].0@;
    assert(holds_name(entries, name));
    let j = index_of_name(entries, name);
    assert(0 <= j < entries.len() && entries[j].0@ == name);
    assert(i == j);
}

proof fn lemma_entry_push<V>(entries: Seq<(String, V)>, name: String, value: V)
    requires
        named_once(entries),
        !holds_name(entries, name@),
    ensures
        named_once(entries.push((name, value))),
        entry_map(entries.push((name, value))) == entry_map(entries).insert(name@, value),
{
    let grown = entries.push((name, value));
    assert forall|k: Seq<char>| holds_name(grown, k) == (holds_name(entries, k) || k == name@) by {
        if holds_name(entries, k) {
            let i = index_of_name(entries, k);
            assert(grown[i].0@ == k);
        }
        if k == name@ {
            assert(grown[entries.len() as int].0@ == k);
        }
        if holds_name(grown, k) && k != name@ {
            let i = index_of_name(grown, k);
            assert(entries[i].0@ == k);
        }
    }
    assert forall|k: Seq<char>| holds_name(grown, k) implies entry_map(grown)[k] == entry_map(
        entries,
    ).insert(name@, value)[k] by {
        let i = index_of_name(grown, k);
        lemma_entry_at(grown, i);
        if k != name@ {
            lemma_entry_at(entries, i);
        }
    }
    assert(entry_map(grown) =~= entry_map(entries).insert(name@, value));
}

proof fn lemma_entry_remove<V>(entries: Seq<(String, V)>, i: int)
    requires
        named_once(entries),
        0 <= i < entries.len(),
    ensures
        named_once(entries.remove(i)),
        !holds_name(entries.remove(i), entries[i].0@),
        entry_map(entries.remove(i)) == entry_map(entries).remove(entries[i].0@),
{
    let name = entries[i].0@;
    let rest = entries.remove(i);
    assert(forall|j: int|
        0 <= j < rest.len() ==> #[trigger] rest[j] == entries[if j < i { j } else { j + 1 }]);
    assert forall|k: Seq<char>| holds_name(rest, k) == (holds_name(entries, k) && k != name) by {
        if holds_name(rest, k) {
            let j = index_of_name(rest, k);
            assert(entries[if j < i { j } else { j + 1 }].0@ == k);
        }
        if holds_name(entries, k) && k != name {
            let j = index_of_name(entries, k);
            assert(rest[if j < i { j } else { j - 1 }].0@ == k);
        }
    }
    assert forall|k: Seq<char>| holds_name(rest, k) implies entry_map(rest)[k] == entry_map(
        entries,
    )[k] by {
        let j = index_of_name(rest, k);
        lemma_entry_at(rest, j);
        lemma_entry_at(entries, if j < i { j } else { j + 1 });
    }
    assert(entry_map(rest) =~= entry_map(entries).remove(name));
}

/// A map holds finitely many names, no more than can be counted.
pub proof fn lemma_names_are_few<V>(map: NameMap<V>)
    ensures
        map@.dom().finite(),
        map@.dom().len() <= usize::MAX,
{
    let entries = map.entries@;
    let names = Seq::new(entries.len(), |i: int| entries[i].0@);
    assert forall|name: Seq<char>| map@.dom().contains(name) implies names.to_set().contains(
        name,
    ) by {
        let i = index_of_name(entries, name);
        assert(names[i] == name);
    }
    vstd::seq_lib::seq_to_set_is_finite(names);
    names.lemma_cardinality_of_set();
    vstd::set_lib::lemma_len_subset(map@.dom(), names.to_set());
    assert(map.entries.len() == entries.len());
}

/// Values by name.
pub struct NameMap<V> {
    entries: Vec<(String, V)>,
}

impl<V> View for NameMap<V> {
    type V = Map<Seq<char>, V>;

    closed spec fn view(&self) -> Map<Seq<char>, V> {
        entry_map(self.entries@)
    }
}

impl<V> NameMap<V> {
    #[verifier::type_invariant]
    spec fn well_formed(self) -> bool {
        named_once(self.entries@)
    }

    /// An empty map.
    pub fn new() -> (r: Self)
        ensures
            r@ == Map::<Seq<char>, V>::empty(),
    {
        let r = NameMap { entries: Vec::new() };
        assert(r@ =~= Map::<Seq<char>, V>::empty());
        r
    }

    fn position(&self, name: &str) -> (r: Option<usize>)
        ensures
            r is Some == self@.contains_key(name@),
            r is Some ==> r->0 < self.entries@.len() && self.entries@[r->0 as int].0@ == name@,
    {
        let mut i: usize = 0;
        while i < self.entries.len()
            invariant
                i <= self.entries@.len(),
                forall|j: int| 0 <= j < i ==> (#[trigger] self.entries@[j]).0@ != name@,
            decreases self.entries@.len() - i,
        {
            if same_text(self.entries[i].0.as_str(), name) {
                assert(holds_name(self.entries@, name@));
                return Some(i);
            }
            i = i + 1;
        }
        None
    }

    /// The value held under `name`.
    pub fn get(&self, name: &str) -> (r: Option<&V>)
        ensures
            r is Some == self@.contains_key(name@),
            r is Some ==> *r->0 == self@[name@],
    {
        proof {
            use_type_invariant(self);
        }
        match self.position(name) {
            Some(i) => {
                proof {
                    lemma_entry_at(self.entries@, i as int);
                }
                Some(&self.entries[i].1)
            },
            None => None,
        }
    }

    /// Whether a value is held under `name`.
    pub fn contains_name(&self, name: &str) -> (r: bool)
        ensures
            r == self@.contains_key(name@),
    {
        self.position(name).is_some()
    }

    /// Takes out the value held under `name`.
    pub fn take(&mut self, name: &str) -> (r: Option<V>)
        ensures
            final(self)@ == old(self)@.remove(name@),
            r is Some == old(self)@.contains_key(name@),
            r is Some ==> r->0 == old(self)@[name@],
    {
        proof {
            use_type_invariant(&*self);
        }
        match self.position(name) {
            Some(i) => {
                let mut entries: Vec<(String, V)> = Vec::new();
                std::mem::swap(&mut entries, &mut self.entries);
                proof {
                    lemma_entry_at(entries@, i as int);
                    lemma_entry_remove(entries@, i as int);
                }
                let (_, value) = entries.remove(i);
                self.entries = entries;
                Some(value)
            },
            None => {
                assert(self@ =~= old(self)@.remove(name@));
                None
            },
        }
    }

    /// Holds `value` under `name`, in place of what was held there.
    pub fn insert(&mut self, name: String, value: V)
        ensures
            final(self)@ == old(self)@.insert(name@, value),
    {
        let _ = self.take(name.as_str());
        proof {
            use_type_invariant(&*self);
            assert(!self@.contains_key(name@));
            lemma_entry_push(self.entries@, name, value);
            assert(old(self)@.remove(name@).insert(name@, value) =~= old(self)@.insert(
                name@,
                value,
            ));
        }
        let mut entries: Vec<(String, V)> = Vec::new();
        std::mem::swap(&mut entries, &mut self.entries);
        entries.push((name, value));
        self.entries = entries;
    }

    /// The names under which a value is held, each once.
    pub fn names(&self) -> (r: Vec<String>)
        ensures
            forall|i: int, j: int|
                0 <= i < j < r@.len() ==> (#[trigger] r@[i])@ != (#[trigger] r@[j])@,
            forall|i: int| 0 <= i < r@.len() ==> self@.contains_key((#[trigger] r@[i])@),
            forall|name: Seq<char>| #[trigger]
                self@.contains_key(name) ==> exists|i: int|
                    0 <= i < r@.len() && (#[trigger] r@[i])@ == name,
    {
        proof {
            use_type_invariant(self);
        }
        let mut r: Vec<String> = Vec::new();
        let mut i: usize = 0;
        while i < self.entries.len()
            invariant
                i <= self.entries@.len(),
                r@.len() == i,
                forall|j: int| 0 <= j < i ==> #[trigger] r@[j] == self.entries@[j].0,
            decreases self.entries@.len() - i,
        {
            r.push(self.entries[i].0.clone());
            i = i + 1;
        }
        proof {
            assert forall|j: int| 0 <= j < r@.len() implies self@.contains_key(
                (#[trigger] r@[j])@,
            ) by {
                lemma_entry_at(self.entries@, j);
            }
            assert forall|name: Seq<char>| #[trigger]
                self@.contains_key(name) implies exists|j: int|
                0 <= j < r@.len() && (#[trigger] r@[j])@ == name by {
                let j = index_of_name(self.entries@, name);
                assert(r@[j]@ == name);
            }
            assert forall|a: int, b: int| 0 <= a < b < r@.len() implies (#[trigger] r@[a])@ != (
            #[trigger] r@[b])@ by {
                assert(self.entries@[a].0@ != self.entries@[b].0@);
            }
        }
        r
    }
}

impl<V: Clone> NameMap<V> {
    /// A map with the same names, each value cloned.
    pub fn duplicate(&self) -> (r: Self)
        ensures
            r@.dom() == self@.dom(),
            forall|name: Seq<char>| #[trigger]
                r@.contains_key(name) ==> cloned(self@[name], r@[name]),
    {
        proof {
            use_type_invariant(self);
        }
        let mut entries: Vec<(String, V)> = Vec::new();
        let mut i: usize = 0;
        while i < self.entries.len()
            invariant
                i <= self.entries@.len(),
                entries@.len() == i,
                forall|j: int| 0 <= j < i ==> (#[trigger] entries@[j]).0 == self.entries@[j].0,
                forall|j: int|
                    0 <= j < i ==> cloned(self.entries@[j].1, (#[trigger] entries@[j]).1),
            decreases self.entries@.len() - i,
        {
            let value = self.entries[i].1.clone();
            entries.push((self.entries[i].0.clone(), value));
            i = i + 1;
        }
        proof {
            assert forall|a: int, b: int| 0 <= a < b < entries@.len() implies (
            #[trigger] entries@[a]).0@ != (#[trigger] entries@[b]).0@ by {
                assert(self.entries@[a].0@ != self.entries@[b].0@);
            }
        }
        let r = NameMap { entries };
        proof {
            assert forall|name: Seq<char>| r@.contains_key(name) == self@.contains_key(name) by {
                if r@.contains_key(name) {
                    lemma_entry_at(self.entries@, index_of_name(r.entries@, name));
                }
                if self@.contains_key(name) {
                    lemma_entry_at(r.entries@, index_of_name(self.entries@, name));
                }
            }
            assert(r@.dom() =~= self@.dom());
            assert forall|name: Seq<char>| #[trigger] r@.contains_key(name) implies cloned(
                self@[name],
                r@[name],
            ) by {
                let j = index_of_name(r.entries@, name);
                lemma_entry_at(r.entries@, j);
                lemma_entry_at(self.entries@, j);
            }
        }
        r
    }
}

/// The count held under `name`; a name without one counts zero.
pub open spec fn tally(counts: Map<Seq<char>, usize>, name: Seq<char>) -> usize {
    if counts.contains_key(name) {
        counts[name]
    } else {
        0
    }
}

/// `counts` with one more under `name`.
pub open spec fn one_more(counts: Map<Seq<char>, usize>, name: Seq<char>) -> Map<
    Seq<char>,
    usize,
> {
    counts.insert(name, (tally(counts, name) + 1) as usize)
}

/// `n` less one, but not below zero.
pub open spec fn less_one(n: usize) -> usize {
    if n == 0 {
        0
    } else {
        (n - 1) as usize
    }
}

/// `counts` with one less under `name`, but not below zero.
pub open spec fn one_less(counts: Map<Seq<char>, usize>, name: Seq<char>) -> Map<
    Seq<char>,
    usize,
> {
    counts.insert(name, less_one(tally(counts, name)))
}

impl NameMap<usize> {
    /// The count held under `name`, zero without one.
    pub fn count(&self, name: &str) -> (r: usize)
        ensures
            r == tally(self@, name@),
    {
        match self.get(name) {
            Some(n) => *n,
            None => 0,
        }
    }

    /// Counts one more under `name`.
    pub fn add_one(&mut self, name: &str)
        requires
            tally(old(self)@, name@) < usize::MAX,
        ensures
            final(self)@ == one_more(old(self)@, name@),
    {
        let n = self.count(name);
        self.insert(name.to_owned(), n + 1);
    }

    /// Counts one less under `name`, but not below zero.
    pub fn take_one(&mut self, name: &str)
        ensures
            final(self)@ == one_less(old(self)@, name@),
    {
        let n = self.count(name);
        self.insert(name.to_owned(), n.saturating_sub(1));
    }
}

spec fn listed_once(names: Seq<String>) -> bool {
    forall|i: int, j: int|
        0 <= i < j < names.len() ==> (#[trigger] names[i])@ != (#[trigger] names[j])@
}

/// A set of names.
pub struct NameSet {
    names: Vec<String>,
}

impl View for NameSet {
    type V = Set<Seq<char>>;

    closed spec fn view(&self) -> Set<Seq<char>> {
        Set::new(
            |name: Seq<char>|
                exists|i: int| 0 <= i < self.names@.len() && (#[trigger] self.names@[i])@ == name,
        )
    }
}

impl NameSet {
    #[verifier::type_invariant]
    spec fn well_formed(self) -> bool {
        listed_once(self.names@)
    }

    /// An empty set.
    pub fn new() -> (r: Self)
        ensures
            r@ == Set::<Seq<char>>::empty(),
    {
        let r = NameSet { names: Vec::new() };
        assert(r@ =~= Set::<Seq<char>>::empty());
        r
    }

    fn position(&self, name: &str) -> (r: Option<usize>)
        ensures
            r is Some == self@.contains(name@),
            r is Some ==> r->0 < self.names@.len() && self.names@[r->0 as int]@ == name@,
    {
        let mut i: usize = 0;
        while i < self.names.len()
            invariant
                i <= self.names@.len(),
                forall|j: int| 0 <= j < i ==> (#[trigger] self.names@[j])@ != name@,
            decreases self.names@.len() - i,
        {
            if same_text(self.names[i].as_str(), name) {
                return Some(i);
            }
            i = i + 1;
        }
        None
    }

    /// Whether `name` is in the set.
    pub fn contains(&self, name: &str) -> (r: bool)
        ensures
            r == self@.contains(name@),
    {
        self.position(name).is_some()
    }

    /// Puts `name` into the set; tells whether it was missing.
    pub fn insert(&mut self, name: String) -> (r: bool)
        ensures
            final(self)@ == old(self)@.insert(name@),
            r == !old(self)@.contains(name@),
    {
        proof {
            use_type_invariant(&*self);
        }
        if self.contains(name.as_str()) {
            assert(self@ =~= old(self)@.insert(name@));
            return false;
        }
        let ghost before = self.names@;
        let mut names: Vec<String> = Vec::new();
        std::mem::swap(&mut names, &mut self.names);
        names.push(name);
        proof {
            assert forall|i: int, j: int| 0 <= i < j < names@.len() implies (#[trigger] names@[i])@
                != (#[trigger] names@[j])@ by {
                if j == before.len() {
                    assert(before[i]@ != name@);
                }
            }
        }
        self.names = names;
        proof {
            assert forall|k: Seq<char>|
                self@.contains(k) == old(self)@.insert(name@).contains(k) by {
                if old(self)@.contains(k) {
                    let i = choose|i: int| 0 <= i < before.len() && (#[trigger] before[i])@ == k;
                    assert(self.names@[i]@ == k);
                }
                if k == name@ {
                    assert(self.names@[before.len() as int]@ == k);
                }
                if self@.contains(k) && k != name@ {
                    let i = choose|i: int|
                        0 <= i < self.names@.len() && (#[trigger] self.names@[i])@ == k;
                    assert(before[i]@ == k);
                }
            }
            assert(self@ =~= old(self)@.insert(name@));
        }
        true
    }

    /// Takes `name` out of the set; tells whether it was there.
    pub fn remove(&mut self, name: &str) -> (r: bool)
        ensures
            final(self)@ == old(self)@.remove(name@),
            r == old(self)@.contains(name@),
    {
        proof {
            use_type_invariant(&*self);
        }
        match self.position(name) {
            Some(at) => {
                let ghost before = self.names@;
                let mut names: Vec<String> = Vec::new();
                std::mem::swap(&mut names, &mut self.names);
                let _ = names.remove(at);
                proof {
                    assert(forall|j: int|
                        0 <= j < names@.len() ==> #[trigger] names@[j] == before[if j < at {
                            j
                        } else {
                            j + 1
                        }]);
                    assert(listed_once(names@));
                }
                self.names = names;
                proof {
                    assert forall|k: Seq<char>|
                        self@.contains(k) == old(self)@.remove(name@).contains(k) by {
                        if old(self)@.contains(k) && k != name@ {
                            let i = choose|i: int|
                                0 <= i < before.len() && (#[trigger] before[i])@ == k;
                            assert(self.names@[if i < at { i } else { i - 1 }]@ == k);
                        }
                        if self@.contains(k) {
                            let i = choose|i: int|
                                0 <= i < self.names@.len() && (#[trigger] self.names@[i])@ == k;
                            assert(before[if i < at { i } else { i + 1 }]@ == k);
                            assert(before[at as int]@ == name@);
                        }
                    }
                    assert(self@ =~= old(self)@.remove(name@));
                }
                true
            },
            None => {
                assert(self@ =~= old(self)@.remove(name@));
                false
            },
        }
    }

    /// A set with the same names.
    pub fn duplicate(&self) -> (r: Self)
        ensures
            r@ == self@,
    {
        let mut r = NameSet::new();
        let mut i: usize = 0;
        while i < self.names.len()
            invariant
                i <= self.names@.len(),
                forall|k: Seq<char>| #[trigger]
                    r@.contains(k) == (exists|j: int|
                        0 <= j < i && (#[trigger] self.names@[j])@ == k),
            decreases self.names@.len() - i,
        {
            let ghost before = r@;
            let _ = r.insert(self.names[i].clone());
            proof {
                assert forall|k: Seq<char>| #[trigger]
                    r@.contains(k) == (exists|j: int|
                        0 <= j < i + 1 && (#[trigger] self.names@[j])@ == k) by {
                    if before.contains(k) {
                        let j = choose|j: int| 0 <= j < i && (#[trigger] self.names@[j])@ == k;
                        assert(0 <= j < i + 1 && self.names@[j]@ == k);
                    }
                    if k == self.names@[i as int]@ {
                        assert(0 <= i < i + 1 && self.names@[i as int]@ == k);
                    }
                }
            }
            i = i + 1;
        }
        assert(r@ =~= self@);
        r
    }

    /// The names in the set, each once.
    pub fn names(&self) -> (r: Vec<String>)
        ensures
            forall|i: int, j: int|
                0 <= i < j < r@.len() ==> (#[trigger] r@[i])@ != (#[trigger] r@[j])@,
            forall|i: int| 0 <= i < r@.len() ==> self@.contains((#[trigger] r@[i])@),
            forall|name: Seq<char>| #[trigger]
                self@.contains(name) ==> exists|i: int|
                    0 <= i < r@.len() && (#[trigger] r@[i])@ == name,
    {
        proof {
            use_type_invariant(self);
        }
        let r = clone_texts(&self.names);
        proof {
            assert forall|name: Seq<char>| #[trigger] self@.contains(name) implies exists|i: int|
                0 <= i < r@.len() && (#[trigger] r@[i])@ == name by {
                let i = choose|i: int|
                    0 <= i < self.names@.len() && (#[trigger] self.names@[i])@ == name;
                assert(r@[i]@ == name);
            }
        }
        r
    }
}

/// A list of the same strings.
pub fn clone_texts(texts: &Vec<String>) -> (r: Vec<String>)
    ensures
        r@ == texts@,
{
    let mut r: Vec<String> = Vec::new();
    let mut i: usize = 0;
    while i < texts.len()
        invariant
            i <= texts@.len(),
            r@ == texts@.take(i as int),
        decreases texts@.len() - i,
    {
        r.push(texts[i].clone());
        i = i + 1;
        assert(texts@.take(i as int) =~= texts@.take(i - 1).push(texts@[i - 1]));
    }
    assert(texts@.take(texts@.len() as int) =~= texts@);
    r
}

/// `name` is among `texts`.
pub open spec fn lists(texts: Seq<String>, name: Seq<char>) -> bool {
    exists|i: int| 0 <= i < texts.len() && (#[trigger] texts[i])@ == name
}

/// Whether `name` is among `texts`.
pub fn list_contains(texts: &Vec<String>, name: &str) -> (r: bool)
    ensures
        r == lists(texts@, name@),
{
    let mut i: usize = 0;
    while i < texts.len()
        invariant
            i <= texts@.len(),
            forall|j: int| 0 <= j < i ==> (#[trigger] texts@[j])@ != name@,
        decreases texts@.len() - i,
    {
        if same_text(texts[i].as_str(), name) {
            return true;
        }
        i = i + 1;
    }
    false
}

/// A name's count is what is held under it, and zero where nothing is. Counting one more or one
/// less changes that name's count alone, by one, and no count goes below zero.
pub proof fn law_counts_move_by_one(
    counts: Map<Seq<char>, usize>,
    name: Seq<char>,
    other: Seq<char>,
)
    ensures
        counts.contains_key(name) ==> tally(counts, name) == counts[name],
        !counts.contains_key(name) ==> tally(counts, name) == 0,
        tally(counts, name) < usize::MAX ==> one_more(counts, name).contains_key(name) && one_more(
            counts,
            name,
        )[name] == tally(counts, name) + 1,
        one_less(counts, name).contains_key(name),
        tally(counts, name) > 0 ==> one_less(counts, name)[name] == tally(counts, name) - 1,
        tally(counts, name) == 0 ==> one_less(counts, name)[name] == 0,
        other != name ==> one_more(counts, name).contains_key(other) == counts.contains_key(other)
            && one_less(counts, name).contains_key(other) == counts.contains_key(other),
        other != name && counts.contains_key(other) ==> one_more(counts, name)[other]
            == counts[other] && one_less(counts, name)[other] == counts[other],
{
}

/// A list holds a name exactly where one of its strings has the name's characters, all of them
/// and no more.
pub proof fn law_a_list_holds_its_strings(list: Seq<String>, name: Seq<char>)
    ensures
        lists(list, name) <==> list.map_values(|s: String| s@).contains(name),
{
    let all = list.map_values(|s: String| s@);
    if all.contains(name) {
        let i = choose|i: int| 0 <= i < all.len() && all[i] == name;
        assert(list[i]@ == name);
    }
    if lists(list, name) {
        let i = choose|i: int| 0 <= i < list.len() && (#[trigger] list[i])@ == name;
        assert(all[i] == name);
    }
}

} // verus!
