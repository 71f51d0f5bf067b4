//! The set of member names that an extraction is asked for.

use vstd::prelude::*;

verus! {

/// A set of member names. An extraction takes each name out as it finds the
/// member, so that what is left in the end are the names that the archive
/// did not hold.
#[derive(Debug)]
pub struct Selection {
    /// The names, each once, in the order in which they came.
    names: Vec<String>,
}

impl View for Selection {
    type V = Set<Seq<char>>;

    closed spec fn view(&self) -> Set<Seq<char>> {
        Set::new(|name: Seq<char>| exists|i: int| 0 <= i < self.names.len() && self.names[i]@ == name)
    }
}

impl Selection {
    /// No name stands twice in the list.
    #[verifier::type_invariant]
    spec fn distinct(self) -> bool {
        forall|i: int, j: int|
            0 <= i < j < self.names.len() ==> self.names[i]@ != self.names[j]@
    }

    /// The empty set.
    pub fn new() -> (s: Selection)
        ensures
            s@ == Set::<Seq<char>>::empty(),
    {
        let s = Selection { names: Vec::new() };
        assert(s@ =~= Set::<Seq<char>>::empty());
        s
    }

    /// The place of `name` in the list, if it is there.
    fn position(&self, name: &str) -> (r: Option<usize>)
        ensures
            match r {
                Some(i) => i < self.names.len() && self.names[i as int]@ == name@,
                None => !self@.contains(name@),
            },
    {
        let wanted = name.to_owned();
        let mut i: usize = 0;
        while i < self.names.len()
            invariant
                i <= self.names.len(),
                wanted@ == name@,
                forall|j: int| 0 <= j < i ==> self.names[j]@ != name@,
            decreases self.names.len() - i,
        {
            if self.names[i] == wanted {
                return Some(i);
            }
            i = i + 1;
        }
        None
    }

    /// Whether `name` is in the set.
    pub fn contains(&self, name: &str) -> (r: bool)
        ensures
            r == self@.contains(name@),
    {
        self.position(name).is_some()
    }

    /// Whether the set holds no name.
    pub fn is_empty(&self) -> (r: bool)
        ensures
            r == (self@ == Set::<Seq<char>>::empty()),
    {
        let r = self.names.len() == 0;
        proof {
            if r {
                assert(self@ =~= Set::<Seq<char>>::empty());
            } else {
                assert(self@.contains(self.names[0]@));
            }
        }
        r
    }

    /// Puts `name` into the set, and says whether it was new to it.
    pub fn insert(&mut self, name: String) -> (r: bool)
        ensures
            final(self)@ == old(self)@.insert(name@),
            r == !old(self)@.contains(name@),
    {
        proof {
            use_type_invariant(&*self);
        }
        match self.position(name.as_str()) {
            Some(_) => {
                assert(self@ =~= self@.insert(name@));
                false
            },
            None => {
                let ghost before = self.names@;
                let ghost added = name@;
                // The list is edited outside `self`, so that `self` holds a
                // list without repetitions at every moment.
                let mut names: Vec<String> = Vec::new();
                std::mem::swap(&mut self.names, &mut names);
                names.push(name);
                std::mem::swap(&mut self.names, &mut names);
                proof {
                    assert forall|n: Seq<char>| self@.contains(n) <==> old(self)@.insert(
                        added,
                    ).contains(n) by {
                        if old(self)@.contains(n) {
                            let i = choose|i: int| 0 <= i < before.len() && before[i]@ == n;
                            assert(self.names[i]@ == n);
                        }
                        if n == added {
                            assert(self.names[before.len() as int]@ == n);
                        }
                    }
                    assert(self@ =~= old(self)@.insert(added));
                }
                true
            },
        }
    }

    /// Takes `name` out of the set, and says whether it was in it.
    pub fn remove(&mut self, name: &str) -> (r: bool)
        ensures
            final(self)@ == old(self)@.remove(name@),
            r == old(self)@.contains(name@),
    {
        proof {
            use_type_invariant(&*self);
        }
        match self.position(name) {
            Some(i) => {
                let ghost before = self.names@;
                let mut names: Vec<String> = Vec::new();
                std::mem::swap(&mut self.names, &mut names);
                names.remove(i);
                std::mem::swap(&mut self.names, &mut names);
                proof {
                    assert forall|n: Seq<char>| self@.contains(n) <==> old(self)@.remove(
                        name@,
                    ).contains(n) by {
                        if self@.contains(n) {
                            let j = choose|j: int| 0 <= j < self.names.len() && self.names[j]@ == n;
                            let k = if j < i { j } else { j + 1 };
                            assert(before[k]@ == n);
                        }
                        if old(self)@.contains(n) && n != name@ {
                            let k = choose|k: int| 0 <= k < before.len() && before[k]@ == n;
                            let j = if k < i { k } else { k - 1 };
                            assert(self.names[j]@ == n);
                        }
                    }
                    assert(self@ =~= old(self)@.remove(name@));
                }
                true
            },
            None => {
                assert(self@ =~= self@.remove(name@));
                false
            },
        }
    }

    /// The names in the set, each once, in the order in which they came.
    pub fn names(&self) -> (list: Vec<String>)
        ensures
            forall|n: Seq<char>|
                self@.contains(n) <==> exists|i: int| 0 <= i < list.len() && list[i]@ == n,
            forall|i: int, j: int| 0 <= i < j < list.len() ==> list[i]@ != list[j]@,
    {
        proof {
            use_type_invariant(self);
        }
        let mut list: Vec<String> = Vec::new();
        let mut i: usize = 0;
        while i < self.names.len()
            invariant
                i <= self.names.len(),
                list.len() == i,
                forall|j: int| 0 <= j < i ==> list[j]@ == self.names[j]@,
            decreases self.names.len() - i,
        {
            list.push(self.names[i].clone());
            i = i + 1;
        }
        proof {
            assert forall|n: Seq<char>| self@.contains(n) <==> exists|i: int|
                0 <= i < list.len() && list[i]@ == n by {
                if self@.contains(n) {
                    let k = choose|k: int| 0 <= k < self.names.len() && self.names[k]@ == n;
                    assert(list[k]@ == n);
                }
                if exists|i: int| 0 <= i < list.len() && list[i]@ == n {
                    let k = choose|k: int| 0 <= k < list.len() && list[k]@ == n;
                    assert(self.names[k]@ == n);
                }
            }
        }
        list
    }
}

} // verus!
