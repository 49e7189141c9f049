//! A map from names to values: the open channels of a service, the headers of a
//! control message.

use crate::text;
use vstd::prelude::*;
use vstd::string::*;

verus! {

/// Values by name, at most one for each name.
pub struct NameMap<V> {
    entries: Vec<(String, V)>,
}

impl<V> View for NameMap<V> {
    type V = Map<Seq<char>, V>;

    closed spec fn view(&self) -> Map<Seq<char>, V> {
        entries_map(self.entries@)
    }
}

/// The map of a list of entries.
spec fn entries_map<V>(entries: Seq<(String, V)>) -> Map<Seq<char>, V>
    decreases entries.len(),
{
    if entries.len() == 0 {
        Map::empty()
    } else {
        entries_map(entries.drop_last()).insert(entries.last().0@, entries.last().1)
    }
}

/// Whether no name occurs twice.
spec fn distinct<V>(entries: Seq<(String, V)>) -> bool {
    forall|i: int, j: int|
        0 <= i < j < entries.len() ==> (#[trigger] entries[i]).0@ != (#[trigger] entries[j]).0@
}

/// The map of a list of entries holds exactly the entries of the list.
proof fn lemma_entries_map<V>(entries: Seq<(String, V)>)
    requires
        distinct(entries),
    ensures
        forall|i: int|
            0 <= i < entries.len() ==> entries_map(entries).contains_key(
                (#[trigger] entries[i]).0@,
            ) && entries_map(entries)[entries[i].0@] == entries[i].1,
        forall|name: Seq<char>| #[trigger]
            entries_map(entries).contains_key(name) ==> exists|i: int|
                0 <= i < entries.len() && (#[trigger] entries[i]).0@ == name,
    decreases entries.len(),
{
    if entries.len() > 0 {
        let init = entries.drop_last();
        let n = entries.len() - 1;
        assert forall|i: int, j: int| 0 <= i < j < init.len() implies (#[trigger] init[i]).0@ != (
        #[trigger] init[j]).0@ by {
            assert(entries[i].0@ != entries[j].0@);
        }
        lemma_entries_map(init);
        assert forall|i: int| 0 <= i < entries.len() implies entries_map(entries).contains_key(
            (#[trigger] entries[i]).0@,
        ) && entries_map(entries)[entries[i].0@] == entries[i].1 by {
            if i < n {
                assert(init[i] == entries[i]);
                assert(entries[i].0@ != entries[n].0@);
            }
        }
        assert forall|name: Seq<char>| #[trigger]
            entries_map(entries).contains_key(name) implies exists|i: int|
            0 <= i < entries.len() && (#[trigger] entries[i]).0@ == name by {
            if name == entries.last().0@ {
                assert(entries[n].0@ == name);
            } else {
                assert(entries_map(init).contains_key(name));
                let i = choose|i: int| 0 <= i < init.len() && (#[trigger] init[i]).0@ == name;
                assert(entries[i].0@ == name);
            }
        }
    }
}

impl<V> NameMap<V> {
    /// No name occurs twice.
    #[verifier::type_invariant]
    spec fn no_name_twice(self) -> bool {
        distinct(self.entries@)
    }

    /// The empty map.
    pub fn new() -> (map: NameMap<V>)
        ensures
            map@ == Map::<Seq<char>, V>::empty(),
    {
        NameMap { entries: Vec::new() }
    }

    /// Where the entry with the given name is.
    fn find(&self, name: &str) -> (at: Option<usize>)
        ensures
            match at {
                Some(i) => {
                    &&& i < self.entries@.len()
                    &&& self.entries@[i as int].0@ == name@
                    &&& self@.contains_key(name@)
                    &&& self@[name@] == self.entries@[i as int].1
                },
                None => {
                    &&& !self@.contains_key(name@)
                    &&& forall|i: int|
                        0 <= i < self.entries@.len() ==> (#[trigger] self.entries@[i]).0@ != name@
                },
            },
    {
        proof {
            use_type_invariant(self);
        }
        let mut i: usize = 0;
        while i < self.entries.len()
            invariant
                distinct(self.entries@),
                i <= self.entries@.len(),
                forall|k: int| 0 <= k < i ==> (#[trigger] self.entries@[k]).0@ != name@,
            decreases self.entries@.len() - i,
        {
            if text::same_text(self.entries[i].0.as_str(), name) {
                proof {
                    lemma_entries_map(self.entries@);
                }
                return Some(i);
            }
            i += 1;
        }
        proof {
            lemma_entries_map(self.entries@);
        }
        None
    }

    /// Whether there is a value with the given name.
    pub fn contains_key(&self, name: &str) -> (found: bool)
        ensures
            found == self@.contains_key(name@),
    {
        self.find(name).is_some()
    }

    /// The value with the given name.
    pub fn get(&self, name: &str) -> (value: Option<&V>)
        ensures
            value == if self@.contains_key(name@) {
                Some(&self@[name@])
            } else {
                None
            },
    {
        match self.find(name) {
            Some(i) => Some(&self.entries[i].1),
            None => None,
        }
    }

    /// Takes the value with the given name out of the map.
    pub fn remove(&mut self, name: &str) -> (value: Option<V>)
        ensures
            final(self)@ == old(self)@.remove(name@),
            value == if old(self)@.contains_key(name@) {
                Some(old(self)@[name@])
            } else {
                None
            },
    {
        match self.find(name) {
            Some(i) => {
                proof {
                    use_type_invariant(&*self);
                    lemma_swap_remove(self.entries@, i as int);
                }
                let mut entries: Vec<(String, V)> = Vec::new();
                std::mem::swap(&mut entries, &mut self.entries);
                let (_, value) = entries.swap_remove(i);
                self.entries = entries;
                Some(value)
            },
            None => {
                assert(self@.remove(name@) =~= self@);
                None
            },
        }
    }

    /// Puts a value into the map under the given name. Returns the value that it takes the
    /// place of.
    pub fn insert(&mut self, name: String, value: V) -> (earlier: Option<V>)
        ensures
            final(self)@ == old(self)@.insert(name@, value),
            earlier == if old(self)@.contains_key(name@) {
                Some(old(self)@[name@])
            } else {
                None
            },
    {
        let earlier = self.remove(name.as_str());
        let ghost before = self.entries@;
        proof {
            use_type_invariant(&*self);
            lemma_entries_map(before);
            assert forall|i: int| 0 <= i < before.len() implies (#[trigger] before[i]).0@
                != name@ by {
                assert(self@.contains_key(before[i].0@));
            }
        }
        let mut entries: Vec<(String, V)> = Vec::new();
        std::mem::swap(&mut entries, &mut self.entries);
        entries.push((name, value));
        self.entries = entries;
        proof {
            assert(self.entries@.drop_last() =~= before);
            assert(self@ =~= old(self)@.insert(name@, value));
        }
        earlier
    }
}

/// Taking entry `i` out and putting the last one in its place removes the name of entry
/// `i` from the map.
proof fn lemma_swap_remove<V>(entries: Seq<(String, V)>, i: int)
    requires
        distinct(entries),
        0 <= i < entries.len(),
    ensures
        ({
            let after = entries.update(i, entries.last()).drop_last();
            &&& distinct(after)
            &&& entries_map(after) == entries_map(entries).remove(entries[i].0@)
        }),
{
    let n = entries.len() - 1;
    let name = entries[i].0@;
    let after = entries.update(i, entries.last()).drop_last();
    assert forall|a: int, b: int| 0 <= a < b < after.len() implies (#[trigger] after[a]).0@ != (
    #[trigger] after[b]).0@ by {
        let a2 = if a == i { n } else { a };
        let b2 = if b == i { n } else { b };
        assert(after[a] == entries[a2]);
        assert(after[b] == entries[b2]);
        if a2 < b2 {
            assert(entries[a2].0@ != entries[b2].0@);
        } else {
            assert(entries[b2].0@ != entries[a2].0@);
        }
    }
    lemma_entries_map(entries);
    lemma_entries_map(after);
    let m = entries_map(entries);
    let r = entries_map(after);
    assert forall|k: Seq<char>| #[trigger] r.contains_key(k) implies m.remove(name).contains_key(k)
        && r[k] == m[k] by {
        let j = choose|j: int| 0 <= j < after.len() && (#[trigger] after[j]).0@ == k;
        let j2 = if j == i { n } else { j };
        assert(after[j] == entries[j2]);
        if j2 < i {
            assert(entries[j2].0@ != entries[i].0@);
        } else {
            assert(entries[i].0@ != entries[j2].0@);
        }
    }
    assert forall|k: Seq<char>| #[trigger] m.remove(name).contains_key(k) implies r.contains_key(
        k,
    ) by {
        assert(m.contains_key(k));
        let j = choose|j: int| 0 <= j < entries.len() && (#[trigger] entries[j]).0@ == k;
        let j2 = if j == n { i } else { j };
        assert(after[j2] == entries[j]);
    }
    assert(r.dom() =~= m.remove(name).dom());
    assert(r =~= m.remove(name));
}

} // verus!
