//! The set of handle names that are claimed at the moment.
//!
//! One registry is shared by all sessions of a service. A name is in it from
//! the moment a session claims it until that session releases it, and no name
//! is in it twice. The registry itself does no locking: whoever shares it
//! among tasks guards it, and holds the guard for one call at a time.

use vstd::prelude::*;

verus! {

/// Where `name` stands in `names`: its first index, or the length of `names`
/// where it does not occur.
pub open spec fn position_of(names: Seq<Seq<char>>, name: Seq<char>) -> int
    decreases names.len(),
{
    if names.len() == 0 {
        0
    } else if names[0] == name {
        0
    } else {
        1 + position_of(names.drop_first(), name)
    }
}

/// `names` without the first occurrence of `name`.
pub open spec fn without(names: Seq<Seq<char>>, name: Seq<char>) -> Seq<Seq<char>> {
    let at = position_of(names, name);
    if at < names.len() {
        names.remove(at)
    } else {
        names
    }
}

/// `position_of` finds the first occurrence, and the end where there is none.
pub proof fn lemma_position_of(names: Seq<Seq<char>>, name: Seq<char>)
    ensures
        0 <= position_of(names, name) <= names.len(),
        position_of(names, name) < names.len() ==> names[position_of(names, name)] == name,
        forall|i: int| 0 <= i < position_of(names, name) ==> names[i] != name,
        names.contains(name) <==> position_of(names, name) < names.len(),
    decreases names.len(),
{
    if names.len() == 0 {
    } else if names[0] == name {
    } else {
        let rest = names.drop_first();
        lemma_position_of(rest, name);
        let at = position_of(names, name);
        assert forall|i: int| 0 <= i < at implies names[i] != name by {
            if i > 0 {
                assert(rest[i - 1] == names[i]);
            }
        }
        if at < names.len() {
            assert(rest[at - 1] == names[at]);
        }
        if names.contains(name) {
            let i = choose|i: int| 0 <= i < names.len() && names[i] == name;
            assert(rest[i - 1] == name);
        }
    }
}

/// Taking a name out of a list without repeats leaves exactly the other
/// names, still without repeats.
pub proof fn lemma_without(names: Seq<Seq<char>>, name: Seq<char>)
    requires
        names.no_duplicates(),
    ensures
        without(names, name).no_duplicates(),
        without(names, name).to_set() == names.to_set().remove(name),
{
    lemma_position_of(names, name);
    let at = position_of(names, name);
    let left = without(names, name);
    if at < names.len() {
        assert forall|n: Seq<char>| left.to_set().contains(n) <==> names.to_set().remove(
            name,
        ).contains(n) by {
            if left.contains(n) {
                let i = choose|i: int| 0 <= i < left.len() && left[i] == n;
                if i < at {
                    assert(names[i] == n);
                } else {
                    assert(names[i + 1] == n);
                }
            }
            if names.contains(n) && n != name {
                let i = choose|i: int| 0 <= i < names.len() && names[i] == n;
                if i < at {
                    assert(left[i] == n);
                } else {
                    assert(left[i - 1] == n);
                }
            }
        }
    }
    assert(left.to_set() =~= names.to_set().remove(name));
}

/// The handle names in use.
pub struct HandleRegistry {
    names: Vec<String>,
}

impl View for HandleRegistry {
    type V = Set<Seq<char>>;

    /// The claimed names as a set.
    open spec fn view(&self) -> Set<Seq<char>> {
        self.names().to_set()
    }
}

impl HandleRegistry {
    /// The claimed names, in the order in which they were claimed.
    pub closed spec fn names(&self) -> Seq<Seq<char>> {
        self.names.deep_view()
    }

    #[verifier::type_invariant]
    spec fn distinct(&self) -> bool {
        self.names.deep_view().no_duplicates()
    }

    /// A registry with no name in it.
    pub fn new() -> (registry: HandleRegistry)
        ensures
            registry.names() == Seq::<Seq<char>>::empty(),
            registry@ == Set::<Seq<char>>::empty(),
            registry.names().no_duplicates(),
    {
        let registry = HandleRegistry { names: Vec::new() };
        assert(registry.names() =~= Seq::empty());
        assert(registry@ =~= Set::empty());
        registry
    }

    /// The number of claimed names.
    pub fn len(&self) -> (n: usize)
        ensures
            n == self.names().len(),
            n == self@.len(),
            self.names().no_duplicates(),
    {
        proof {
            use_type_invariant(self);
            self.names().unique_seq_to_set();
        }
        self.names.len()
    }

    /// Whether no name is claimed.
    pub fn is_empty(&self) -> (empty: bool)
        ensures
            empty == (self.names().len() == 0),
            empty == (self@ == Set::<Seq<char>>::empty()),
    {
        proof {
            if self.names().len() == 0 {
                assert(self@ =~= Set::empty());
            } else {
                assert(self.names().contains(self.names()[0]));
                assert(self@.contains(self.names()[0]));
            }
        }
        self.names.len() == 0
    }

    fn find(&self, name: &String) -> (at: usize)
        ensures
            at == position_of(self.names(), name@),
            at <= self.names.len(),
            at < self.names.len() <==> self@.contains(name@),
    {
        let ghost all = self.names();
        let mut at: usize = 0;
        proof {
            lemma_position_of(all, name@);
        }
        while at < self.names.len()
            invariant
                all == self.names(),
                at <= self.names.len(),
                forall|i: int| 0 <= i < at ==> all[i] != name@,
            decreases self.names.len() - at,
        {
            assert(all[at as int] == self.names[at as int]@);
            if self.names[at] == *name {
                proof {
                    lemma_position_of(all, name@);
                }
                return at;
            }
            at = at + 1;
        }
        proof {
            lemma_position_of(all, name@);
        }
        at
    }

    /// Whether `name` is claimed.
    pub fn contains(&self, name: &str) -> (claimed: bool)
        ensures
            claimed == self@.contains(name@),
    {
        let name = String::from_str(name);
        self.find(&name) < self.names.len()
    }

    /// Claims `name` if it is free. Returns whether the claim succeeded; a
    /// name that is already claimed stays claimed once.
    pub fn claim(&mut self, name: &str) -> (claimed: bool)
        ensures
            claimed == !old(self)@.contains(name@),
            final(self)@ == old(self)@.insert(name@),
            final(self).names() == if claimed {
                old(self).names().push(name@)
            } else {
                old(self).names()
            },
            final(self).names().no_duplicates(),
    {
        proof {
            use_type_invariant(&*self);
        }
        let name = String::from_str(name);
        if self.find(&name) < self.names.len() {
            assert(self@ =~= old(self)@.insert(name@));
            false
        } else {
            let ghost before = self.names();
            let mut names: Vec<String> = Vec::new();
            core::mem::swap(&mut self.names, &mut names);
            names.push(name);
            proof {
                let after = names.deep_view();
                assert(after =~= before.push(name@));
                assert forall|n: Seq<char>| after.to_set().contains(n) <==> before.to_set().insert(
                    name@,
                ).contains(n) by {
                    if after.contains(n) {
                        let i = choose|i: int| 0 <= i < after.len() && after[i] == n;
                        if i < before.len() {
                            assert(before[i] == n);
                        }
                    }
                    if before.contains(n) {
                        let i = choose|i: int| 0 <= i < before.len() && before[i] == n;
                        assert(after[i] == n);
                    }
                    if n == name@ {
                        assert(after[before.len() as int] == n);
                    }
                }
                assert(after.to_set() =~= before.to_set().insert(name@));
                assert(after.no_duplicates()) by {
                    assert forall|i: int, j: int|
                        0 <= i < after.len() && 0 <= j < after.len() && i != j implies after[i]
                        != after[j] by {
                        if i < before.len() {
                            assert(before.contains(before[i]));
                        }
                        if j < before.len() {
                            assert(before.contains(before[j]));
                        }
                    }
                }
            }
            self.names = names;
            true
        }
    }

    /// Gives `name` up. Releasing a name that is not claimed changes nothing.
    pub fn release(&mut self, name: &str)
        ensures
            final(self)@ == old(self)@.remove(name@),
            final(self).names() == without(old(self).names(), name@),
            final(self).names().no_duplicates(),
    {
        proof {
            use_type_invariant(&*self);
            lemma_without(self.names(), name@);
        }
        let name = String::from_str(name);
        let at = self.find(&name);
        if at < self.names.len() {
            let ghost before = self.names();
            let mut names: Vec<String> = Vec::new();
            core::mem::swap(&mut self.names, &mut names);
            names.remove(at);
            assert(names.deep_view() =~= before.remove(at as int));
            self.names = names;
        }
    }

    /// The claimed names at this moment, in the order in which they were
    /// claimed, each once.
    pub fn snapshot(&self) -> (names: Vec<String>)
        ensures
            names.deep_view() == self.names(),
            names.deep_view().no_duplicates(),
            names.deep_view().to_set() == self@,
    {
        proof {
            use_type_invariant(self);
        }
        let mut names: Vec<String> = Vec::new();
        let mut i: usize = 0;
        while i < self.names.len()
            invariant
                i <= self.names.len(),
                names.deep_view() == self.names().take(i as int),
            decreases self.names.len() - i,
        {
            let name = self.names[i].clone();
            let ghost before = names.deep_view();
            names.push(name);
            assert(names.deep_view() =~= before.push(name@));
            assert(self.names()[i as int] == name@);
            assert(names.deep_view() =~= self.names().take(i + 1));
            i = i + 1;
        }
        assert(self.names().take(self.names.len() as int) == self.names());
        names
    }
}

} // verus!
