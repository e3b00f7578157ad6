//! The variable environment: the bindings of one scope.

use vstd::prelude::*;

verus! {

/// A mapping from names to values of type `V`. A name is bound at most
/// once; binding it again replaces the value.
pub struct Environment<V> {
    entries: Vec<(String, V)>,
}

/// The mapping that a list of entries stands for: of two entries with one
/// name the earlier one counts.
pub open spec fn bindings_of<W>(entries: Seq<(Seq<char>, W)>) -> Map<Seq<char>, W>
    decreases entries.len(),
{
    if entries.len() == 0 {
        Map::empty()
    } else {
        bindings_of(entries.skip(1)).insert(entries[0].0, entries[0].1)
    }
}

/// A name that none of the first `k` entries has is looked up in the rest.
proof fn lemma_lookup_skips<W>(entries: Seq<(Seq<char>, W)>, k: int, name: Seq<char>)
    requires
        0 <= k <= entries.len(),
        forall|j: int| 0 <= j < k ==> (#[trigger] entries[j]).0 != name,
    ensures
        bindings_of(entries).contains_key(name) == bindings_of(entries.skip(k)).contains_key(name),
        bindings_of(entries).contains_key(name) ==> bindings_of(entries)[name] == bindings_of(
            entries.skip(k),
        )[name],
    decreases k,
{
    if k == 0 {
        assert(entries.skip(0) =~= entries);
    } else {
        assert(entries[0].0 != name);
        lemma_lookup_skips(entries.skip(1), k - 1, name);
        assert(entries.skip(1).skip(k - 1) =~= entries.skip(k));
    }
}

/// Replacing the value of the first entry that has the name binds the name
/// anew.
proof fn lemma_replace_binds<W>(entries: Seq<(Seq<char>, W)>, k: int, name: Seq<char>, value: W)
    requires
        0 <= k < entries.len(),
        entries[k].0 == name,
        forall|j: int| 0 <= j < k ==> (#[trigger] entries[j]).0 != name,
    ensures
        bindings_of(entries.update(k, (name, value))) == bindings_of(entries).insert(name, value),
    decreases k,
{
    let updated = entries.update(k, (name, value));
    if k == 0 {
        assert(updated.skip(1) =~= entries.skip(1));
        assert(bindings_of(updated) =~= bindings_of(entries).insert(name, value));
    } else {
        lemma_replace_binds(entries.skip(1), k - 1, name, value);
        assert(updated.skip(1) =~= entries.skip(1).update(k - 1, (name, value)));
        assert(entries[0].0 != name);
        assert(bindings_of(updated) =~= bindings_of(entries).insert(name, value));
    }
}

/// Adding an entry behind entries of other names binds the name.
proof fn lemma_append_binds<W>(entries: Seq<(Seq<char>, W)>, name: Seq<char>, value: W)
    requires
        forall|j: int| 0 <= j < entries.len() ==> (#[trigger] entries[j]).0 != name,
    ensures
        bindings_of(entries.push((name, value))) == bindings_of(entries).insert(name, value),
    decreases entries.len(),
{
    let pushed = entries.push((name, value));
    if entries.len() == 0 {
        assert(pushed.skip(1) =~= entries);
        assert(bindings_of(pushed) == bindings_of(pushed.skip(1)).insert(name, value));
    } else {
        lemma_append_binds(entries.skip(1), name, value);
        assert(pushed.skip(1) =~= entries.skip(1).push((name, value)));
        assert(entries[0].0 != name);
        assert(bindings_of(pushed) =~= bindings_of(entries).insert(name, value));
    }
}

/// Whether one of the entries has the name.
pub open spec fn has_entry<W>(entries: Seq<(Seq<char>, W)>, name: Seq<char>) -> bool {
    exists|j: int| 0 <= j < entries.len() && (#[trigger] entries[j]).0 == name
}

/// A name is bound where an entry has it.
proof fn lemma_bound_names<W>(entries: Seq<(Seq<char>, W)>, name: Seq<char>)
    ensures
        bindings_of(entries).contains_key(name) <==> has_entry(entries, name),
    decreases entries.len(),
{
    if entries.len() > 0 {
        let rest = entries.skip(1);
        lemma_bound_names(rest, name);
        if entries[0].0 == name {
            assert(has_entry(entries, name));
        } else {
            assert(bindings_of(entries).contains_key(name) == bindings_of(rest).contains_key(name));
            if has_entry(rest, name) {
                let j = choose|j: int| 0 <= j < rest.len() && (#[trigger] rest[j]).0 == name;
                assert(entries[j + 1].0 == name);
            }
            if has_entry(entries, name) {
                let j = choose|j: int| 0 <= j < entries.len() && (#[trigger] entries[j]).0 == name;
                assert(rest[j - 1].0 == name);
            }
        }
    }
}

impl<V: DeepView> View for Environment<V> {
    type V = Map<Seq<char>, V::V>;

    /// The bindings.
    closed spec fn view(&self) -> Map<Seq<char>, V::V> {
        bindings_of(self.entries.deep_view())
    }
}

impl<V: DeepView> DeepView for Environment<V> {
    type V = Map<Seq<char>, V::V>;

    open spec fn deep_view(&self) -> Map<Seq<char>, V::V> {
        self@
    }
}

impl<V: DeepView> Environment<V> {
    /// The environment without bindings.
    pub fn new() -> (environment: Self)
        ensures
            environment@ == Map::<Seq<char>, V::V>::empty(),
    {
        let environment = Environment { entries: Vec::new() };
        assert(environment.entries.deep_view() =~= Seq::empty());
        environment
    }

    /// The index of the first entry that has the name, if any.
    fn position(&self, name: &String) -> (found: Option<usize>)
        ensures
            match found {
                Some(k) => k < self.entries.len() && self.entries[k as int].0@ == name@
                    && forall|j: int| 0 <= j < k ==> (#[trigger] self.entries[j]).0@ != name@,
                None => forall|j: int|
                    0 <= j < self.entries.len() ==> (#[trigger] self.entries[j]).0@ != name@,
            },
    {
        let mut i: usize = 0;
        while i < self.entries.len()
            invariant
                i <= self.entries.len(),
                forall|j: int| 0 <= j < i ==> (#[trigger] self.entries[j]).0@ != name@,
            decreases self.entries.len() - i,
        {
            if self.entries[i].0 == *name {
                return Some(i);
            }
            i += 1;
        }
        None
    }

    /// Binds `name` to `value`; an earlier binding of the name is replaced.
    pub fn set(&mut self, name: String, value: V)
        ensures
            final(self)@ == old(self)@.insert(name@, value.deep_view()),
    {
        let ghost before = self.entries.deep_view();
        match self.position(&name) {
            Some(k) => {
                self.entries.set(k, (name, value));
                proof {
                    assert forall|j: int| 0 <= j < k implies (#[trigger] before[j]).0
                        != name@ by {
                        assert(before[j].0 == old(self).entries[j].0@);
                    }
                    lemma_replace_binds(before, k as int, name@, value.deep_view());
                    assert(self.entries.deep_view() =~= before.update(
                        k as int,
                        (name@, value.deep_view()),
                    ));
                }
            },
            None => {
                self.entries.push((name, value));
                proof {
                    assert forall|j: int| 0 <= j < before.len() implies (#[trigger] before[j]).0
                        != name@ by {
                        assert(before[j].0 == old(self).entries[j].0@);
                    }
                    lemma_append_binds(before, name@, value.deep_view());
                    assert(self.entries.deep_view() =~= before.push((name@, value.deep_view())));
                }
            },
        }
    }

    /// The value that `name` is bound to, if it is bound.
    pub fn get(&self, name: &String) -> (value: Option<&V>)
        ensures
            value.deep_view() == if self@.contains_key(name@) {
                Some(self@[name@])
            } else {
                None
            },
    {
        let ghost entries = self.entries.deep_view();
        match self.position(name) {
            Some(k) => {
                proof {
                    assert forall|j: int| 0 <= j < k implies (#[trigger] entries[j]).0
                        != name@ by {
                        assert(entries[j].0 == self.entries[j].0@);
                    }
                    lemma_lookup_skips(entries, k as int, name@);
                    assert(entries.skip(k as int)[0] == entries[k as int]);
                    assert(entries[k as int].0 == self.entries[k as int].0@);
                }
                Some(&self.entries[k].1)
            },
            None => {
                proof {
                    assert forall|j: int| 0 <= j < entries.len() implies (#[trigger] entries[j]).0
                        != name@ by {
                        assert(entries[j].0 == self.entries[j].0@);
                    }
                    lemma_lookup_skips(entries, entries.len() as int, name@);
                    assert(entries.skip(entries.len() as int) =~= Seq::empty());
                }
                None
            },
        }
    }

    /// The bound names, each of them once.
    pub fn names(&self) -> (names: Vec<String>)
        ensures
            forall|name: Seq<char>|
                self@.contains_key(name) <==> exists|k: int|
                    0 <= k < names.len() && (#[trigger] names[k])@ == name,
            forall|j: int, k: int|
                0 <= j < k < names.len() ==> (#[trigger] names[j])@ != (#[trigger] names[k])@,
    {
        let ghost entries = self.entries.deep_view();
        let mut names: Vec<String> = Vec::new();
        let mut i: usize = 0;
        while i < self.entries.len()
            invariant
                i <= self.entries.len(),
                entries == self.entries.deep_view(),
                names.len() <= i,
                forall|k: int|
                    0 <= k < names.len() ==> exists|j: int|
                        0 <= j < i && (#[trigger] entries[j]).0 == (#[trigger] names[k])@,
                forall|j: int|
                    0 <= j < i ==> exists|k: int|
                        0 <= k < names.len() && (#[trigger] names[k])@ == (#[trigger] entries[j]).0,
                forall|j: int, k: int|
                    0 <= j < k < names.len() ==> (#[trigger] names[j])@ != (#[trigger] names[k])@,
            decreases self.entries.len() - i,
        {
            let name = &self.entries[i].0;
            assert(entries[i as int].0 == name@);
            let mut known = false;
            let mut k: usize = 0;
            while k < names.len()
                invariant
                    k <= names.len(),
                    known <==> exists|j: int| 0 <= j < k && (#[trigger] names[j])@ == name@,
                decreases names.len() - k,
            {
                if names[k] == *name {
                    known = true;
                }
                k += 1;
            }
            if !known {
                let ghost before = names@;
                names.push(name.clone());
                assert(forall|j: int| 0 <= j < before.len() ==> names[j] == before[j]);
                assert(names[names.len() - 1]@ == name@);
            }
            i += 1;
        }
        proof {
            assert forall|name: Seq<char>| self@.contains_key(name) <==> exists|k: int|
                0 <= k < names.len() && (#[trigger] names[k])@ == name by {
                lemma_bound_names(entries, name);
                if has_entry(entries, name) {
                    let j = choose|j: int|
                        0 <= j < entries.len() && (#[trigger] entries[j]).0 == name;
                    assert(entries[j].0 == name);
                }
            }
        }
        names
    }
}

} // verus!
