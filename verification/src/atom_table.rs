//! The table of atoms that exist in the runtime.
use vstd::prelude::*;

verus! {

/// Whether two byte sequences are equal.
pub fn bytes_eq(a: &[u8], b: &[u8]) -> (r: bool)
    ensures
        r == (a@ == b@),
{
    if a.len() != b.len() {
        return false;
    }
    let mut i: usize = 0;
    while i < a.len()
        invariant
            a@.len() == b@.len(),
            0 <= i <= a@.len(),
            forall|j: int| 0 <= j < i ==> a@[j] == b@[j],
        decreases a@.len() - i,
    {
        if a[i] != b[i] {
            return false;
        }
        i = i + 1;
    }
    assert(a@ =~= b@);
    true
}

/// The atoms that exist, by name. Its model is the set of their names.
pub struct AtomTable {
    names: Vec<Vec<u8>>,
}

impl View for AtomTable {
    type V = Set<Seq<u8>>;

    closed spec fn view(&self) -> Set<Seq<u8>> {
        Set::new(|n: Seq<u8>| exists|i: int| 0 <= i < self.names@.len() && #[trigger] self.names@[i]@ == n)
    }
}

impl AtomTable {
    /// A table without atoms.
    pub fn new() -> (t: AtomTable)
        ensures
            t@ == Set::<Seq<u8>>::empty(),
    {
        let t = AtomTable { names: Vec::new() };
        assert(t@ =~= Set::<Seq<u8>>::empty());
        t
    }

    /// Whether an atom named `name` exists.
    pub fn contains(&self, name: &[u8]) -> (b: bool)
        ensures
            b == self@.contains(name@),
    {
        let mut i: usize = 0;
        while i < self.names.len()
            invariant
                0 <= i <= self.names@.len(),
                forall|j: int| 0 <= j < i ==> #[trigger] self.names@[j]@ != name@,
            decreases self.names@.len() - i,
        {
            if bytes_eq(self.names[i].as_slice(), name) {
                assert(self@.contains(name@));
                return true;
            }
            i = i + 1;
        }
        false
    }

    /// Makes an atom named `name` exist.
    pub fn intern(&mut self, name: &[u8])
        ensures
            final(self)@ == old(self)@.insert(name@),
    {
        if !self.contains(name) {
            let ghost before = self.names@;
            let mut v: Vec<u8> = Vec::new();
            v.extend_from_slice(name);
            self.names.push(v);
            proof {
                assert forall|n: Seq<u8>| #[trigger] self@.contains(n) == old(self)@.insert(name@).contains(n) by {
                    if old(self)@.contains(n) {
                        let i = choose|i: int| 0 <= i < before.len() && #[trigger] before[i]@ == n;
                        assert(self.names@[i]@ == n);
                    }
                    if n == name@ {
                        assert(self.names@[before.len() as int]@ == n);
                    }
                }
                assert(self@ =~= old(self)@.insert(name@));
            }
        } else {
            assert(self@ =~= old(self)@.insert(name@));
        }
    }

    /// A table with the same atoms.
    pub fn duplicate(&self) -> (t: AtomTable)
        ensures
            t@ == self@,
    {
        let mut names: Vec<Vec<u8>> = Vec::new();
        let mut i: usize = 0;
        while i < self.names.len()
            invariant
                0 <= i <= self.names@.len(),
                names@.len() == i,
                forall|j: int| 0 <= j < i ==> #[trigger] names@[j]@ == self.names@[j]@,
            decreases self.names@.len() - i,
        {
            names.push(vstd::slice::slice_to_vec(self.names[i].as_slice()));
            i = i + 1;
        }
        let t = AtomTable { names };
        assert forall|n: Seq<u8>| #[trigger] t@.contains(n) == self@.contains(n) by {
            if t@.contains(n) {
                let j = choose|j: int| 0 <= j < t.names@.len() && #[trigger] t.names@[j]@ == n;
                assert(self.names@[j]@ == n);
            }
            if self@.contains(n) {
                let j = choose|j: int| 0 <= j < self.names@.len() && #[trigger] self.names@[j]@ == n;
                assert(t.names@[j]@ == n);
            }
        }
        assert(t@ =~= self@);
        t
    }
}

} // verus!
