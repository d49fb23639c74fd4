use vstd::prelude::*;

verus! {

/// A set of names: the users that the credentials sheet defines, or the names met so far in a scan.
pub struct NameSet {
    names: Vec<String>,
}

impl View for NameSet {
    type V = Set<Seq<char>>;

    closed spec fn view(&self) -> Set<Seq<char>> {
        Set::new(|u: Seq<char>| exists|i: int| 0 <= i < self.names@.len() && self.names@[i]@ == u)
    }
}

impl NameSet {
    /// A set with no user.
    pub fn new() -> (r: NameSet)
        ensures
            r@ == Set::<Seq<char>>::empty(),
    {
        let r = NameSet { names: Vec::new() };
        assert(r@ =~= Set::<Seq<char>>::empty());
        r
    }

    /// Adds `name` to the set.
    pub fn insert(&mut self, name: String)
        ensures
            final(self)@ == old(self)@.insert(name@),
    {
        let ghost before = self@;
        let ghost n = name@;
        self.names.push(name);
        assert forall|u: Seq<char>| #[trigger] self@.contains(u) == before.insert(n).contains(u) by {
            if before.contains(u) {
                let i = choose|i: int| 0 <= i < old(self).names@.len() && old(self).names@[i]@ == u;
                assert(self.names@[i] == old(self).names@[i]);
            }
            if u == n {
                assert(self.names@[self.names@.len() - 1]@ == u);
            }
        }
        assert(self@ =~= before.insert(n));
    }

    /// Whether `name` is in the set.
    pub fn contains(&self, name: &String) -> (r: bool)
        ensures
            r == self@.contains(name@),
    {
        let mut i: usize = 0;
        while i < self.names.len()
            invariant
                i <= self.names@.len(),
                forall|j: int| 0 <= j < i ==> self.names@[j]@ != name@,
            decreases self.names.len() - i,
        {
            if self.names[i] == *name {
                return true;
            }
            i = i + 1;
        }
        false
    }
}

} // verus!
