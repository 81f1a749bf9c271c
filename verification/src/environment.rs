//! The variables of one call, held as a list of distinct names with their
//! values.

use crate::ast::{Value, ValueView};
use vstd::prelude::*;

verus! {

/// A flat mapping from variable names to values.
pub struct Environment {
    names: Vec<String>,
    values: Vec<Value>,
}

impl View for Environment {
    type V = Map<Seq<char>, ValueView>;

    closed spec fn view(&self) -> Map<Seq<char>, ValueView> {
        Map::new(
            |name: Seq<char>| self.has(name),
            |name: Seq<char>| self.values[self.slot(name)]@,
        )
    }
}

impl Environment {
    /// Whether some entry holds `name`.
    closed spec fn has(&self, name: Seq<char>) -> bool {
        exists|i: int| 0 <= i < self.names.len() && #[trigger] self.names[i]@ == name
    }

    /// The position of the entry that holds `name`.
    closed spec fn slot(&self, name: Seq<char>) -> int {
        choose|i: int| 0 <= i < self.names.len() && #[trigger] self.names[i]@ == name
    }

    /// Every name has one value, and no name occurs twice.
    pub closed spec fn wf(&self) -> bool {
        &&& self.names.len() == self.values.len()
        &&& forall|i: int, j: int|
            0 <= i < j < self.names.len() ==> #[trigger] self.names[i]@ != #[trigger] self.names[j]@
    }

    /// The entry at `i` is the one that the mapping shows for its name.
    proof fn lemma_entry(&self, i: int)
        requires
            self.wf(),
            0 <= i < self.names.len(),
        ensures
            self@.contains_key(self.names[i]@),
            self@[self.names[i]@] == self.values[i]@,
            self.slot(self.names[i]@) == i,
    {
        let name = self.names[i]@;
        assert(self.has(name));
        let k = self.slot(name);
        if k < i {
            assert(self.names[k]@ != self.names[i]@);
        } else if i < k {
            assert(self.names[i]@ != self.names[k]@);
        }
    }

    /// An environment without variables.
    pub fn new() -> (env: Self)
        ensures
            env.wf(),
            env@ == Map::<Seq<char>, ValueView>::empty(),
    {
        let env = Environment { names: Vec::new(), values: Vec::new() };
        assert(env@ =~= Map::<Seq<char>, ValueView>::empty());
        env
    }

    /// Where `name` is held, if anywhere.
    fn position(&self, name: &String) -> (r: Option<usize>)
        requires
            self.wf(),
        ensures
            match r {
                Some(i) => i < self.names.len() && self.names[i as int]@ == name@,
                None => !self.has(name@),
            },
    {
        let mut i: usize = 0;
        while i < self.names.len()
            invariant
                i <= self.names.len(),
                forall|j: int| 0 <= j < i ==> self.names[j]@ != name@,
            decreases self.names.len() - i,
        {
            if self.names[i] == *name {
                return Some(i);
            }
            i += 1;
        }
        None
    }

    /// Whether `name` is bound.
    pub fn contains(&self, name: &String) -> (r: bool)
        requires
            self.wf(),
        ensures
            r == self@.contains_key(name@),
    {
        match self.position(name) {
            Some(i) => {
                proof {
                    self.lemma_entry(i as int);
                }
                true
            },
            None => false,
        }
    }

    /// The value that `name` is bound to, if it is bound.
    pub fn get(&self, name: &String) -> (r: Option<&Value>)
        requires
            self.wf(),
        ensures
            match r {
                Some(v) => self@.contains_key(name@) && self@[name@] == v@,
                None => !self@.contains_key(name@),
            },
    {
        match self.position(name) {
            Some(i) => {
                proof {
                    self.lemma_entry(i as int);
                }
                Some(&self.values[i])
            },
            None => None,
        }
    }

    /// Binds `name` to `value`, whether or not it was bound before.
    pub fn insert(&mut self, name: String, value: Value)
        requires
            old(self).wf(),
        ensures
            final(self).wf(),
            final(self)@ == old(self)@.insert(name@, value@),
    {
        match self.position(&name) {
            Some(i) => {
                self.values.set(i, value);
                proof {
                    assert(self.names == old(self).names);
                    assert forall|k: Seq<char>| self.has(k) == old(self).has(k) by {
                        if self.has(k) {
                            let j = self.slot(k);
                            assert(old(self).names[j]@ == k);
                        }
                        if old(self).has(k) {
                            let j = old(self).slot(k);
                            assert(self.names[j]@ == k);
                        }
                    }
                    assert forall|k: Seq<char>| self.has(k) implies self@[k] == old(self)@.insert(
                        name@,
                        value@,
                    )[k] by {
                        let j = self.slot(k);
                        self.lemma_entry(j);
                        old(self).lemma_entry(j);
                        self.lemma_entry(i as int);
                    }
                    old(self).lemma_entry(i as int);
                    assert(self@ =~= old(self)@.insert(name@, value@));
                }
            },
            None => {
                let ghost key = name@;
                self.names.push(name);
                self.values.push(value);
                proof {
                    let n = old(self).names.len() as int;
                    assert(self.names[n]@ == key);
                    assert forall|k: Seq<char>| self.has(k) == (old(self).has(k) || k == key) by {
                        if self.has(k) {
                            let j = self.slot(k);
                            if j < n {
                                assert(old(self).names[j]@ == k);
                            }
                        }
                        if old(self).has(k) {
                            let j = old(self).slot(k);
                            assert(self.names[j]@ == k);
                        }
                    }
                    assert forall|i: int, j: int| 0 <= i < j < self.names.len() implies 
                        #[trigger] self.names[i]@ != #[trigger] self.names[j]@ by {
                        if j == n {
                            assert(old(self).names[i]@ == self.names[i]@);
                            if self.names[i]@ == key {
                                assert(old(self).has(key));
                            }
                        } else {
                            assert(old(self).names[i]@ != old(self).names[j]@);
                        }
                    }
                    assert(self.wf());
                    assert forall|k: Seq<char>| self.has(k) implies self@[k] == old(self)@.insert(
                        key,
                        value@,
                    )[k] by {
                        let j = self.slot(k);
                        self.lemma_entry(j);
                        if j < n {
                            old(self).lemma_entry(j);
                        }
                    }
                    assert(self@ =~= old(self)@.insert(key, value@));
                }
            },
        }
    }

    /// Removes the binding of `name`, if there is one.
    pub fn remove(&mut self, name: &String)
        requires
            old(self).wf(),
        ensures
            final(self).wf(),
            final(self)@ == old(self)@.remove(name@),
    {
        match self.position(name) {
            Some(i) => {
                self.names.remove(i);
                self.values.remove(i);
                proof {
                    let n = self.names.len() as int;
                    assert forall|a: int, b: int| 0 <= a < b < n implies #[trigger] self.names[a]@
                        != #[trigger] self.names[b]@ by {
                        let oa = if a < i { a } else { a + 1 };
                        let ob = if b < i { b } else { b + 1 };
                        assert(old(self).names[oa]@ != old(self).names[ob]@);
                    }
                    assert(self.wf());
                    assert forall|k: Seq<char>| self.has(k) == (old(self).has(k) && k != name@) by {
                        if self.has(k) {
                            let j = self.slot(k);
                            let oj = if j < i { j } else { j + 1 };
                            assert(old(self).names[oj]@ == k);
                            if k == name@ {
                                if oj < i {
                                    assert(old(self).names[oj]@ != old(self).names[i as int]@);
                                } else {
                                    assert(old(self).names[i as int]@ != old(self).names[oj]@);
                                }
                            }
                        }
                        if old(self).has(k) && k != name@ {
                            let oj = old(self).slot(k);
                            let j = if oj < i { oj } else { oj - 1 };
                            assert(self.names[j]@ == k);
                        }
                    }
                    assert forall|k: Seq<char>| self.has(k) implies self@[k] == old(self)@[k] by {
                        let j = self.slot(k);
                        let oj = if j < i { j } else { j + 1 };
                        self.lemma_entry(j);
                        old(self).lemma_entry(oj);
                    }
                    assert(self@ =~= old(self)@.remove(name@));
                }
            },
            None => {
                proof {
                    assert(self@ =~= old(self)@.remove(name@));
                }
            },
        }
    }
}

} // verus!
