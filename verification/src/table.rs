//! Tables of named numbers.

use vstd::prelude::*;

use crate::text::same_text;

verus! {

/// Named numbers, each name once.
pub struct StatTable {
    entries: Vec<(String, u64)>,
}

/// Whether `name` stands at position `i`.
pub open spec fn named_at(entries: Seq<(String, u64)>, name: Seq<char>, i: int) -> bool {
    0 <= i < entries.len() && entries[i].0@ == name
}

/// The map that a list of entries stands for.
pub open spec fn entry_map(entries: Seq<(String, u64)>) -> Map<Seq<char>, u64> {
    Map::new(
        |name: Seq<char>| exists|i: int| named_at(entries, name, i),
        |name: Seq<char>| entries[choose|i: int| named_at(entries, name, i)].1,
    )
}

/// Whether no name stands twice.
pub open spec fn names_distinct(entries: Seq<(String, u64)>) -> bool {
    forall|i: int, j: int|
        0 <= i < entries.len() && 0 <= j < entries.len() && (#[trigger] entries[i]).0@ == (
        #[trigger] entries[j]).0@ ==> i == j
}

impl View for StatTable {
    type V = Map<Seq<char>, u64>;

    closed spec fn view(&self) -> Map<Seq<char>, u64> {
        entry_map(self.entries@)
    }
}

impl StatTable {
    /// The entries in the order their names first came.
    pub closed spec fn listed(&self) -> Seq<(String, u64)> {
        self.entries@
    }

    /// Whether each name stands once.
    pub closed spec fn wf(&self) -> bool {
        names_distinct(self.entries@)
    }

    /// What the entries say of the map.
    pub proof fn lemma_listed(&self)
        requires
            self.wf(),
        ensures
            names_distinct(self.listed()),
            self@ == entry_map(self.listed()),
    {
    }

    /// A table without entries.
    pub fn new() -> (r: StatTable)
        ensures
            r.wf(),
            r@ == Map::<Seq<char>, u64>::empty(),
    {
        let r = StatTable { entries: Vec::new() };
        assert(r@ =~= Map::<Seq<char>, u64>::empty());
        r
    }

    /// The number of entries.
    pub fn len(&self) -> (r: usize)
        ensures
            r == self.listed().len(),
    {
        self.entries.len()
    }

    /// The entry at a position.
    pub fn entry(&self, i: usize) -> (r: (&str, u64))
        requires
            i < self.listed().len(),
        ensures
            r.0@ == self.listed()[i as int].0@,
            r.1 == self.listed()[i as int].1,
    {
        (self.entries[i].0.as_str(), self.entries[i].1)
    }

    fn find(&self, name: &str) -> (r: Option<usize>)
        ensures
            match r {
                Some(i) => named_at(self.listed(), name@, i as int),
                None => forall|i: int| !named_at(self.listed(), name@, i),
            },
    {
        let mut i: usize = 0;
        while i < self.entries.len()
            invariant
                i <= self.entries@.len(),
                forall|k: int| 0 <= k < i ==> !named_at(self.entries@, name@, k),
            decreases self.entries@.len() - i,
        {
            if same_text(self.entries[i].0.as_str(), name) {
                return Some(i);
            }
            i = i + 1;
        }
        None
    }

    /// The number under a name.
    pub fn get(&self, name: &str) -> (r: Option<u64>)
        requires
            self.wf(),
        ensures
            r == if self@.contains_key(name@) {
                Some(self@[name@])
            } else {
                None
            },
    {
        match self.find(name) {
            Some(i) => {
                proof {
                    assert(named_at(self.entries@, name@, i as int));
                    let m = choose|k: int| named_at(self.entries@, name@, k);
                    assert(self.entries@[m].0@ == self.entries@[i as int].0@);
                }
                Some(self.entries[i].1)
            },
            None => {
                assert(self.listed() == self.entries@);
                assert(forall|k: int| !named_at(self.entries@, name@, k));
                None
            },
        }
    }

    /// Puts a number under a name, in place of an earlier one.
    pub fn insert(&mut self, name: String, value: u64)
        requires
            old(self).wf(),
        ensures
            final(self).wf(),
            final(self)@ == old(self)@.insert(name@, value),
    {
        let ghost before = self.entries@;
        match self.find(name.as_str()) {
            Some(i) => {
                self.entries[i].1 = value;
                proof {
                    let after = self.entries@;
                    assert(after.len() == before.len());
                    assert(forall|k: int| #![trigger after[k]]
                        0 <= k < after.len() ==> after[k].0 == before[k].0 && (k != i ==> after[k].1
                            == before[k].1));
                    assert forall|n: Seq<char>, k: int|
                        named_at(after, n, k) == #[trigger] named_at(before, n, k) by {}
                    lemma_same_names(before, after, i as int, name@, value);
                }
            },
            None => {
                let ghost text = name@;
                assert(self.listed() == before);
                assert(forall|k: int| !named_at(before, text, k));
                self.entries.push((name, value));
                proof {
                    assert(self.entries@.drop_last() =~= before);
                    lemma_new_name(before, self.entries@, text, value);
                }
            },
        }
    }
}

proof fn lemma_same_names(
    before: Seq<(String, u64)>,
    after: Seq<(String, u64)>,
    i: int,
    name: Seq<char>,
    value: u64,
)
    requires
        names_distinct(before),
        named_at(before, name, i),
        after.len() == before.len(),
        forall|k: int| #![trigger after[k]]
            0 <= k < after.len() ==> after[k].0 == before[k].0 && (k != i ==> after[k].1
                == before[k].1),
        after[i].1 == value,
    ensures
        names_distinct(after),
        entry_map(after) == entry_map(before).insert(name, value),
{
    let a = entry_map(after);
    let b = entry_map(before).insert(name, value);
    assert forall|n: Seq<char>| a.contains_key(n) == b.contains_key(n) by {
        if a.contains_key(n) {
            let k = choose|k: int| named_at(after, n, k);
            assert(named_at(before, n, k));
        }
        if entry_map(before).contains_key(n) {
            let k = choose|k: int| named_at(before, n, k);
            assert(named_at(after, n, k));
        }
        assert(named_at(after, name, i));
    }
    assert forall|n: Seq<char>| a.contains_key(n) implies a[n] == b[n] by {
        let k = choose|k: int| named_at(after, n, k);
        assert(named_at(before, n, k));
        let m = choose|k: int| named_at(before, n, k);
        assert(before[k].0@ == before[m].0@);
        assert(named_at(after, name, i));
    }
    assert(a =~= b);
}

proof fn lemma_new_name(
    before: Seq<(String, u64)>,
    after: Seq<(String, u64)>,
    name: Seq<char>,
    value: u64,
)
    requires
        names_distinct(before),
        forall|i: int| !named_at(before, name, i),
        after.len() == before.len() + 1,
        after.drop_last() == before,
        after.last().0@ == name,
        after.last().1 == value,
    ensures
        names_distinct(after),
        entry_map(after) == entry_map(before).insert(name, value),
{
    let last = before.len() as int;
    assert(forall|k: int| 0 <= k < last ==> after[k] == #[trigger] before[k]);
    assert(forall|k: int| 0 <= k < last ==> !(#[trigger] named_at(before, name, k)));
    assert forall|i: int, j: int|
        0 <= i < after.len() && 0 <= j < after.len() && (#[trigger] after[i]).0@ == (
        #[trigger] after[j]).0@ implies i == j by {
        if i < last && j < last {
            assert(before[i].0@ == before[j].0@);
        } else if i < last {
            assert(!named_at(before, name, i));
        } else if j < last {
            assert(!named_at(before, name, j));
        }
    }
    let a = entry_map(after);
    let b = entry_map(before).insert(name, value);
    assert forall|n: Seq<char>| a.contains_key(n) == b.contains_key(n) by {
        if a.contains_key(n) {
            let k = choose|k: int| named_at(after, n, k);
            if k < last {
                assert(named_at(before, n, k));
            }
        }
        if entry_map(before).contains_key(n) {
            let k = choose|k: int| named_at(before, n, k);
            assert(named_at(after, n, k));
        }
        assert(named_at(after, name, last));
    }
    assert forall|n: Seq<char>| a.contains_key(n) implies a[n] == b[n] by {
        let k = choose|k: int| named_at(after, n, k);
        assert(named_at(after, name, last));
        if n == name {
            assert(after[k].0@ == after[last].0@);
        } else {
            assert(named_at(before, n, k));
            let m = choose|k: int| named_at(before, n, k);
            assert(before[k].0@ == before[m].0@);
        }
    }
    assert(a =~= b);
}

impl Clone for StatTable {
    fn clone(&self) -> (r: StatTable)
        ensures
            r.listed() == self.listed(),
            r@ == self@,
            r.wf() == self.wf(),
    {
        let mut entries: Vec<(String, u64)> = Vec::new();
        let mut i: usize = 0;
        while i < self.entries.len()
            invariant
                i <= self.entries@.len(),
                entries@ == self.entries@.take(i as int),
            decreases self.entries@.len() - i,
        {
            entries.push((self.entries[i].0.clone(), self.entries[i].1));
            assert(entries@ =~= self.entries@.take(i + 1));
            i = i + 1;
        }
        assert(entries@ =~= self.entries@);
        StatTable { entries }
    }
}

}
