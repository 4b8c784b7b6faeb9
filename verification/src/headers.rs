use vstd::prelude::*;

verus! {

/// An ordered collection of request headers: name/value pairs whose
/// names are unique and whose iteration order is the insertion order,
/// so one call of the encoder always sees the same stable order.
pub struct HeaderMap {
    entries: Vec<(String, String)>,
}

impl View for HeaderMap {
    type V = Seq<(Seq<char>, Seq<char>)>;

    /// The headers as a sequence of (name, value) pairs, in order.
    closed spec fn view(&self) -> Seq<(Seq<char>, Seq<char>)> {
        Seq::new(self.entries@.len(), |i: int| (self.entries@[i].0@, self.entries@[i].1@))
    }
}

impl HeaderMap {
    /// Header names are unique.
    pub open spec fn wf(&self) -> bool {
        forall|i: int, j: int|
            0 <= i < j < self@.len() ==> self@[i].0 != self@[j].0
    }

    /// Some entry carries the name `n`.
    pub open spec fn contains_name(&self, n: Seq<char>) -> bool {
        exists|i: int| 0 <= i < self@.len() && self@[i].0 == n
    }

    /// An empty header set.
    pub fn new() -> (r: HeaderMap)
        ensures
            r@ =~= Seq::<(Seq<char>, Seq<char>)>::empty(),
            r.wf(),
    {
        HeaderMap { entries: Vec::new() }
    }

    pub fn len(&self) -> (r: usize)
        ensures
            r == self@.len(),
    {
        self.entries.len()
    }

    /// The entry at position `i`, in insertion order.
    pub fn entry(&self, i: usize) -> (r: &(String, String))
        requires
            i < self@.len(),
        ensures
            r.0@ == self@[i as int].0,
            r.1@ == self@[i as int].1,
    {
        &self.entries[i]
    }

    /// Appends a header under a name not yet present, keeping names
    /// unique and the existing order untouched.
    pub fn insert(&mut self, name: String, value: String)
        requires
            old(self).wf(),
            !old(self).contains_name(name@),
        ensures
            final(self)@ =~= old(self)@.push((name@, value@)),
            final(self).wf(),
    {
        self.entries.push((name, value));
        proof {
            assert(self@ =~= old(self)@.push((name@, value@)));
            assert forall|i: int, j: int|
                0 <= i < j < self@.len() implies self@[i].0 != self@[j].0 by {
                if j == self@.len() - 1 {
                    assert(old(self)@[i].0 != name@);
                }
            }
        }
    }
}

} // verus!
