use vstd::prelude::*;

verus! {

/// The resolver's record of which type name owns which tree entry, in order
/// of registration.
pub struct TypeMap {
    pub entries: Vec<(String, usize)>,
}

impl TypeMap {
    pub fn new() -> (m: TypeMap)
        ensures
            m.entries@.len() == 0,
    {
        TypeMap { entries: Vec::new() }
    }

    /// The registered names, in order of registration.
    pub open spec fn keys(&self) -> Seq<Seq<char>> {
        self.entries@.map_values(|e: (String, usize)| e.0@)
    }

    /// No name is registered twice.
    pub open spec fn wf(&self) -> bool {
        forall|i: int, j: int|
            0 <= i < j < self.entries@.len() ==> #[trigger] self.entries@[i].0@
                != #[trigger] self.entries@[j].0@
    }

    pub open spec fn contains(&self, name: Seq<char>) -> bool {
        exists|i: int| 0 <= i < self.entries@.len() && #[trigger] self.entries@[i].0@ == name
    }

    /// Whether a name is registered, as a predicate.
    pub open spec fn known(&self) -> spec_fn(Seq<char>) -> bool {
        |n: Seq<char>| self.contains(n)
    }

    /// The position at which `name` was registered.
    pub open spec fn index_of(&self, name: Seq<char>) -> int {
        choose|i: int| 0 <= i < self.entries@.len() && #[trigger] self.entries@[i].0@ == name
    }

    /// The entry registered for `name`.
    pub open spec fn handle(&self, name: Seq<char>) -> usize {
        self.entries@[self.index_of(name)].1
    }

    pub proof fn lemma_index_of(&self, i: int)
        requires
            self.wf(),
            0 <= i < self.entries@.len(),
        ensures
            self.contains(self.entries@[i].0@),
            self.index_of(self.entries@[i].0@) == i,
            self.handle(self.entries@[i].0@) == self.entries@[i].1,
    {
        let k = self.entries@[i].0@;
        assert(self.contains(k));
        let j = self.index_of(k);
        assert(self.entries@[j].0@ == k);
        if j != i {
            if j < i {
                assert(self.entries@[j].0@ != self.entries@[i].0@);
            } else {
                assert(self.entries@[i].0@ != self.entries@[j].0@);
            }
        }
    }

    /// The entry registered for `name`, if any.
    pub fn get(&self, name: &String) -> (r: Option<usize>)
        requires
            self.wf(),
        ensures
            r == (if self.contains(name@) {
                Some(self.handle(name@))
            } else {
                None::<usize>
            }),
    {
        let mut i: usize = 0;
        while i < self.entries.len()
            invariant
                self.wf(),
                i <= self.entries@.len(),
                forall|j: int| 0 <= j < i ==> self.entries@[j].0@ != name@,
            decreases self.entries@.len() - i,
        {
            if self.entries[i].0 == *name {
                proof {
                    self.lemma_index_of(i as int);
                }
                return Some(self.entries[i].1);
            }
            i = i + 1;
        }
        None
    }
}

} // verus!
