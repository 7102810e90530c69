//! Values by name.

use vstd::prelude::*;
use crate::text::same_text;

verus! {

/// A map from names to values.
#[derive(Debug)]
pub struct NamedMap<V> {
    /// No two entries have the same name.
    entries: Vec<(String, V)>,
}

/// Whether no two entries have the same name.
spec fn distinct<V>(entries: Seq<(String, V)>) -> bool {
    forall|i: int, j: int|
        0 <= i < j < entries.len() ==> (#[trigger] entries[i]).0@ != (#[trigger] entries[j]).0@
}

/// Whether the entry at position `i` has the given name.
spec fn named_at<V>(entries: Seq<(String, V)>, name: Seq<char>, i: int) -> bool {
    0 <= i < entries.len() && entries[i].0@ == name
}

spec fn as_map<V>(entries: Seq<(String, V)>) -> Map<Seq<char>, V> {
    Map::new(
        |name: Seq<char>| exists|i: int| named_at(entries, name, i),
        |name: Seq<char>| entries[choose|i: int| named_at(entries, name, i)].1,
    )
}

proof fn map_entry<V>(entries: Seq<(String, V)>, i: int)
    requires
        distinct(entries),
        0 <= i < entries.len(),
    ensures
        as_map(entries).contains_key(entries[i].0@),
        as_map(entries)[entries[i].0@] == entries[i].1,
{
    assert(named_at(entries, entries[i].0@, i));
    let k = choose|k: int| named_at(entries, entries[i].0@, k);
    if k < i {
        assert(entries[k].0@ != entries[i].0@);
    }
    if i < k {
        assert(entries[i].0@ != entries[k].0@);
    }
}

impl<V> NamedMap<V> {
    pub closed spec fn view(&self) -> Map<Seq<char>, V> {
        as_map(self.entries@)
    }

    #[verifier::type_invariant]
    spec fn well_formed(&self) -> bool {
        distinct(self.entries@)
    }

    /// A map without entries.
    pub fn new() -> (r: NamedMap<V>)
        ensures
            r@ == Map::<Seq<char>, V>::empty(),
    {
        let r: NamedMap<V> = NamedMap { entries: Vec::new() };
        assert(r@ =~= Map::<Seq<char>, V>::empty());
        r
    }

    /// The value with the given name.
    pub fn get(&self, name: &str) -> (r: Option<&V>)
        ensures
            match r {
                Some(v) => self@.contains_key(name@) && self@[name@] == *v,
                None => !self@.contains_key(name@),
            },
    {
        proof {
            use_type_invariant(self);
        }
        match position_in(&self.entries, name) {
            Some(i) => {
                proof {
                    map_entry(self.entries@, i as int);
                }
                Some(&self.entries[i].1)
            },
            None => None,
        }
    }

    /// The number of entries.
    pub fn len(&self) -> (r: usize)
        ensures
            r == 0 <==> self@ == Map::<Seq<char>, V>::empty(),
            r == self.names().len(),
    {
        proof {
            use_type_invariant(self);
            if self.entries@.len() > 0 {
                map_entry(self.entries@, 0);
            } else {
                assert(self@ =~= Map::<Seq<char>, V>::empty());
            }
        }
        self.entries.len()
    }

    /// The names of the entries, in some order, each once.
    pub closed spec fn names(&self) -> Seq<Seq<char>> {
        self.entries@.map_values(|e: (String, V)| e.0@)
    }

    /// The name of the entry at a position.
    pub fn name_at(&self, i: usize) -> (r: &String)
        requires
            i < self.names().len(),
        ensures
            r@ == self.names()[i as int],
            self@.contains_key(r@),
    {
        proof {
            use_type_invariant(self);
            map_entry(self.entries@, i as int);
        }
        &self.entries[i].0
    }

    /// Sets the value with the given name; a value that was there is replaced.
    pub fn insert(&mut self, name: String, value: V)
        ensures
            final(self)@ == old(self)@.insert(name@, value),
    {
        proof {
            use_type_invariant(&*self);
        }
        let ghost before = self.entries@;
        let mut entries: Vec<(String, V)> = Vec::new();
        std::mem::swap(&mut entries, &mut self.entries);
        let at: Option<usize> = position_in(&entries, name.as_str());
        match at {
            Some(i) => {
                entries.set(i, (name, value));
            },
            None => {
                entries.push((name, value));
            },
        }
        proof {
            let after = entries@;
            assert forall|i: int, j: int| 0 <= i < j < after.len() implies (
            #[trigger] after[i]).0@ != (#[trigger] after[j]).0@ by {
                match at {
                    Some(k) => {
                        assert(named_at(before, name@, k as int));
                        assert(before[i].0@ != before[j].0@);
                    },
                    None => {
                        if j < before.len() {
                            assert(before[i].0@ != before[j].0@);
                        } else {
                            assert(!named_at(before, name@, i));
                        }
                    },
                }
            }
            insert_maps(before, after, name@, value, at);
        }
        self.entries = entries;
    }

    /// Takes the value with the given name out.
    pub fn remove(&mut self, name: &str) -> (r: Option<V>)
        ensures
            match r {
                Some(v) => old(self)@.contains_key(name@) && old(self)@[name@] == v && final(self)@
                    == old(self)@.remove(name@),
                None => !old(self)@.contains_key(name@) && final(self)@ == old(self)@,
            },
    {
        proof {
            use_type_invariant(&*self);
        }
        let ghost before = self.entries@;
        match position_in(&self.entries, name) {
            Some(i) => {
                let mut entries: Vec<(String, V)> = Vec::new();
                std::mem::swap(&mut entries, &mut self.entries);
                let entry: (String, V) = entries.remove(i);
                proof {
                    map_entry(before, i as int);
                    let after = entries@;
                    assert forall|k: int, l: int| 0 <= k < l < after.len() implies (
                    #[trigger] after[k]).0@ != (#[trigger] after[l]).0@ by {
                        let x = if k < i { k } else { k + 1 };
                        let y = if l < i { l } else { l + 1 };
                        assert(before[x].0@ != before[y].0@);
                    }
                    remove_maps(before, after, i as int);
                }
                self.entries = entries;
                Some(entry.1)
            },
            None => None,
        }
    }
}

fn position_in<V>(entries: &Vec<(String, V)>, name: &str) -> (r: Option<usize>)
    ensures
        match r {
            Some(i) => named_at(entries@, name@, i as int),
            None => forall|i: int| !named_at(entries@, name@, i),
        },
{
    let mut i: usize = 0;
    while i < entries.len()
        invariant
            i <= entries@.len(),
            forall|k: int| 0 <= k < i ==> !named_at(entries@, name@, k),
        decreases entries@.len() - i,
    {
        if same_text(entries[i].0.as_str(), name) {
            return Some(i);
        }
        i += 1;
    }
    None
}

proof fn insert_maps<V>(
    before: Seq<(String, V)>,
    after: Seq<(String, V)>,
    name: Seq<char>,
    value: V,
    at: Option<usize>,
)
    requires
        distinct(before),
        distinct(after),
        match at {
            Some(i) => named_at(before, name, i as int) && after.len() == before.len()
                && after[i as int].0@ == name && after[i as int].1 == value && forall|k: int|
                0 <= k < before.len() && k != i ==> after[k] == before[k],
            None => (forall|i: int| !named_at(before, name, i)) && after.len() == before.len() + 1
                && after.last().0@ == name && after.last().1 == value && forall|k: int|
                0 <= k < before.len() ==> after[k] == before[k],
        },
    ensures
        as_map(after) == as_map(before).insert(name, value),
{
    let place: int = match at {
        Some(i) => i as int,
        None => before.len() as int,
    };
    map_entry(after, place);
    assert forall|n: Seq<char>| n != name implies #[trigger] as_map(after).dom().contains(n)
        == as_map(before).dom().contains(n) && (as_map(before).dom().contains(n) ==> as_map(
        after,
    )[n] == as_map(before)[n]) by {
        if as_map(before).contains_key(n) {
            let k = choose|k: int| named_at(before, n, k);
            assert(named_at(before, n, k));
            map_entry(before, k);
            map_entry(after, k);
        }
        if as_map(after).contains_key(n) {
            let k = choose|k: int| named_at(after, n, k);
            assert(named_at(after, n, k));
            assert(named_at(before, n, k));
            map_entry(before, k);
        }
    }
    let expected = as_map(before).insert(name, value);
    assert(as_map(after).dom() =~= expected.dom());
    assert(as_map(after) =~= expected);
}

proof fn remove_maps<V>(before: Seq<(String, V)>, after: Seq<(String, V)>, i: int)
    requires
        distinct(before),
        distinct(after),
        0 <= i < before.len(),
        after == before.remove(i),
    ensures
        as_map(after) == as_map(before).remove(before[i].0@),
{
    let name = before[i].0@;
    assert forall|n: Seq<char>| n != name implies #[trigger] as_map(after).dom().contains(n)
        == as_map(before).dom().contains(n) && (as_map(before).dom().contains(n) ==> as_map(
        after,
    )[n] == as_map(before)[n]) by {
        if as_map(before).contains_key(n) {
            let k = choose|k: int| named_at(before, n, k);
            assert(named_at(before, n, k));
            let l = if k < i { k } else { k - 1 };
            assert(named_at(after, n, l));
            map_entry(before, k);
            map_entry(after, l);
        }
        if as_map(after).contains_key(n) {
            let l = choose|l: int| named_at(after, n, l);
            assert(named_at(after, n, l));
            let k = if l < i { l } else { l + 1 };
            assert(named_at(before, n, k));
            map_entry(before, k);
        }
    }
    assert(!as_map(after).contains_key(name)) by {
        if as_map(after).contains_key(name) {
            let l = choose|l: int| named_at(after, name, l);
            assert(named_at(after, name, l));
            let k = if l < i { l } else { l + 1 };
            assert(before[k].0@ == name);
            if k < i {
                assert(before[k].0@ != before[i].0@);
            } else {
                assert(before[i].0@ != before[k].0@);
            }
        }
    }
    let expected = as_map(before).remove(name);
    assert(as_map(after).dom() =~= expected.dom());
    assert(as_map(after) =~= expected);
}

} // verus!
