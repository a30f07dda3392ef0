//! A list value held in a vector.
use vstd::prelude::*;
use crate::range::{copy_slice, element_at, inclusive_bounds, inclusive_range, resolve_index};

verus! {

/// A list of texts; the engine's list value.
#[derive(Debug)]
pub struct VectorStore {
    values: Vec<String>,
}

impl View for VectorStore {
    type V = Seq<Seq<char>>;

    closed spec fn view(&self) -> Seq<Seq<char>> {
        self.values@.map_values(|s: String| s@)
    }
}

impl VectorStore {
    pub fn new() -> (r: VectorStore)
        ensures
            r@ == Seq::<Seq<char>>::empty(),
    {
        let r = VectorStore { values: Vec::new() };
        assert(r@ =~= Seq::<Seq<char>>::empty());
        r
    }

    /// Puts `value` first; returns the new length.
    pub fn push_left(&mut self, value: &str) -> (r: usize)
        ensures
            final(self)@ == seq![value@] + old(self)@,
            r == final(self)@.len(),
    {
        self.values.insert(0, value.to_owned());
        assert(self@ =~= seq![value@] + old(self)@);
        self.values.len()
    }

    /// Puts `value` last; returns the new length.
    pub fn push_right(&mut self, value: &str) -> (r: usize)
        ensures
            final(self)@ == old(self)@.push(value@),
            r == final(self)@.len(),
    {
        self.values.push(value.to_owned());
        assert(self@ =~= old(self)@.push(value@));
        self.values.len()
    }

    /// Takes the first element out.
    pub fn pop_left(&mut self) -> (r: Option<String>)
        ensures
            old(self)@.len() == 0 ==> r is None && final(self)@ == old(self)@,
            old(self)@.len() > 0 ==> r is Some && r->0@ == old(self)@[0] && final(self)@
                == old(self)@.drop_first(),
    {
        if self.values.len() > 0 {
            let v = self.values.remove(0);
            assert(self@ =~= old(self)@.drop_first());
            Some(v)
        } else {
            None
        }
    }

    /// Takes the last element out.
    pub fn pop_right(&mut self) -> (r: Option<String>)
        ensures
            old(self)@.len() == 0 ==> r is None && final(self)@ == old(self)@,
            old(self)@.len() > 0 ==> r is Some && r->0@ == old(self)@.last() && final(self)@
                == old(self)@.drop_last(),
    {
        let r = self.values.pop();
        if r.is_some() {
            assert(self@ =~= old(self)@.drop_last());
        }
        r
    }

    /// Elements `start` through `stop`, both included; negative positions
    /// count from the end, and both bounds are clamped to the list.
    pub fn get_range(&self, start: isize, stop: isize) -> (r: Vec<String>)
        ensures
            r@.map_values(|s: String| s@) == inclusive_range(self@, start as int, stop as int),
    {
        let (a, b) = inclusive_bounds(self.values.len(), start, stop);
        if a < b {
            copy_slice(&self.values, a, b)
        } else {
            let r: Vec<String> = Vec::new();
            assert(r@.map_values(|s: String| s@) =~= Seq::<Seq<char>>::empty());
            r
        }
    }

    /// The element at `index`; a negative index counts from the end.
    pub fn get_index(&self, index: isize) -> (r: Option<&String>)
        ensures
            match r {
                Some(v) => element_at(self@, index as int) == Some(v@),
                None => element_at(self@, index as int) is None,
            },
    {
        match resolve_index(self.values.len(), index) {
            Some(j) => Some(&self.values[j]),
            None => None,
        }
    }

    pub fn len(&self) -> (r: usize)
        ensures
            r == self@.len(),
    {
        self.values.len()
    }
}

} // verus!
