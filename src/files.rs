use vstd::prelude::*;

verus! {

/// True when no two entries of `s` share a name.
pub open spec fn names_unique(s: Seq<(Seq<char>, Seq<u8>)>) -> bool {
    forall|i: int, j: int|
        0 <= i < s.len() && 0 <= j < s.len() && i != j ==> (#[trigger] s[i]).0 != (#[trigger] s[j]).0
}

/// True when some entry of `s` is named `name`.
pub open spec fn has_name(s: Seq<(Seq<char>, Seq<u8>)>, name: Seq<char>) -> bool {
    exists|i: int| 0 <= i < s.len() && (#[trigger] s[i]).0 == name
}

/// The output of one fetch-convert run: file names mapped to their contents.
/// Names never repeat.
#[derive(Clone, Debug)]
pub struct Files {
    entries: Vec<(String, Vec<u8>)>,
}

impl View for Files {
    type V = Seq<(Seq<char>, Seq<u8>)>;

    closed spec fn view(&self) -> Seq<(Seq<char>, Seq<u8>)> {
        self.entries@.map_values(|e: (String, Vec<u8>)| (e.0@, e.1@))
    }
}

impl Files {
    /// Well-formedness: names never repeat.
    pub open spec fn wf(&self) -> bool {
        names_unique(self@)
    }

    /// An empty file set.
    pub fn new() -> (r: Files)
        ensures
            r.wf(),
            r@ == Seq::<(Seq<char>, Seq<u8>)>::empty(),
    {
        let r = Files { entries: Vec::new() };
        assert(r@ =~= Seq::<(Seq<char>, Seq<u8>)>::empty());
        r
    }

    /// The number of entries.
    pub fn len(&self) -> (r: usize)
        ensures
            r == self@.len(),
    {
        self.entries.len()
    }

    /// Whether an entry named `name` is present.
    pub fn contains(&self, name: &String) -> (r: bool)
        ensures
            r == has_name(self@, name@),
    {
        let mut i: usize = 0;
        while i < self.entries.len()
            invariant
                i <= self.entries@.len(),
                self@.len() == self.entries@.len(),
                forall|k: int| 0 <= k < i ==> (#[trigger] self@[k]).0 != name@,
            decreases self.entries@.len() - i,
        {
            if self.entries[i].0 == *name {
                assert(self@[i as int].0 == name@);
                return true;
            }
            i = i + 1;
        }
        false
    }

    /// Adds an entry. A name already present is a collision: the set is left
    /// unchanged and `false` comes back.
    pub fn insert(&mut self, name: String, data: Vec<u8>) -> (r: bool)
        requires
            old(self).wf(),
        ensures
            final(self).wf(),
            r == !has_name(old(self)@, name@),
            r ==> final(self)@ == old(self)@.push((name@, data@)),
            !r ==> final(self)@ == old(self)@,
    {
        if self.contains(&name) {
            return false;
        }
        let ghost prev = self@;
        let ghost entry = (name@, data@);
        self.entries.push((name, data));
        assert(self@ =~= prev.push(entry));
        assert(names_unique(self@)) by {
            assert forall|i: int, j: int|
                0 <= i < self@.len() && 0 <= j < self@.len() && i != j implies
                (#[trigger] self@[i]).0 != (#[trigger] self@[j]).0 by {
                if i == prev.len() {
                    assert(prev[j] == self@[j]);
                } else if j == prev.len() {
                    assert(prev[i] == self@[i]);
                } else {
                    assert(prev[i] == self@[i] && prev[j] == self@[j]);
                }
            }
        }
        true
    }

    /// The entries, in the order they were added.
    pub fn entries(&self) -> (r: &Vec<(String, Vec<u8>)>)
        ensures
            r@.map_values(|e: (String, Vec<u8>)| (e.0@, e.1@)) == self@,
    {
        &self.entries
    }
}

} // verus!
