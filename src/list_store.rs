//! A list held in a double-ended queue.
use vstd::prelude::*;
use std::collections::VecDeque;
use crate::range::{element_at, inclusive_bounds, inclusive_range, resolve_index};

verus! {

/// A list of texts with cheap pushes and pops at both ends.
#[derive(Debug)]
pub struct ListStore {
    data: VecDeque<String>,
}

impl View for ListStore {
    type V = Seq<Seq<char>>;

    closed spec fn view(&self) -> Seq<Seq<char>> {
        self.data@.map_values(|s: String| s@)
    }
}

impl ListStore {
    pub fn new() -> (r: ListStore)
        ensures
            r@ == Seq::<Seq<char>>::empty(),
    {
        let r = ListStore { data: VecDeque::new() };
        assert(r@ =~= Seq::<Seq<char>>::empty());
        r
    }

    pub fn new_with_data(data: VecDeque<String>) -> (r: ListStore)
        ensures
            r@ == data@.map_values(|s: String| s@),
    {
        ListStore { data }
    }

    pub fn push_front(&mut self, value: String)
        ensures
            final(self)@ == seq![value@] + old(self)@,
    {
        self.data.push_front(value);
        assert(self@ =~= seq![value@] + old(self)@);
    }

    pub fn push_back(&mut self, value: String)
        ensures
            final(self)@ == old(self)@.push(value@),
    {
        self.data.push_back(value);
        assert(self@ =~= old(self)@.push(value@));
    }

    pub fn pop_front(&mut self) -> (r: Option<String>)
        ensures
            old(self)@.len() == 0 ==> r is None && final(self)@ == old(self)@,
            old(self)@.len() > 0 ==> r is Some && r->0@ == old(self)@[0] && final(self)@
                == old(self)@.drop_first(),
    {
        let r = self.data.pop_front();
        if r.is_some() {
            assert(self@ =~= old(self)@.drop_first());
        }
        r
    }

    pub fn pop_back(&mut self) -> (r: Option<String>)
        ensures
            old(self)@.len() == 0 ==> r is None && final(self)@ == old(self)@,
            old(self)@.len() > 0 ==> r is Some && r->0@ == old(self)@.last() && final(self)@
                == old(self)@.drop_last(),
    {
        let r = self.data.pop_back();
        if r.is_some() {
            assert(self@ =~= old(self)@.drop_last());
        }
        r
    }

    /// The element at `index`; a negative index counts from the end.
    pub fn get(&self, index: isize) -> (r: Option<&String>)
        ensures
            match r {
                Some(v) => element_at(self@, index as int) == Some(v@),
                None => element_at(self@, index as int) is None,
            },
    {
        match resolve_index(self.data.len(), index) {
            Some(j) => Some(&self.data[j]),
            None => None,
        }
    }

    /// Elements `start` through `stop`, both included; negative positions
    /// count from the end (`-1` is the last), and both bounds are clamped to
    /// the list.
    pub fn range(&self, start: isize, stop: isize) -> (r: Vec<&String>)
        ensures
            r@.map_values(|s: &String| s@) == inclusive_range(self@, start as int, stop as int),
    {
        let (a, b) = inclusive_bounds(self.data.len(), start, stop);
        let mut r: Vec<&String> = Vec::new();
        if a < b {
            let mut i: usize = a;
            while i < b
                invariant
                    a <= i <= b <= self.data@.len(),
                    r@.len() == i - a,
                    forall|j: int| 0 <= j < i - a ==> (#[trigger] r@[j])@ == self.data@[j + a]@,
                decreases b - i,
            {
                r.push(&self.data[i]);
                i = i + 1;
            }
            assert(r@.map_values(|s: &String| s@) =~= inclusive_range(self@, start as int, stop as int));
        } else {
            assert(r@.map_values(|s: &String| s@) =~= inclusive_range(self@, start as int, stop as int));
        }
        r
    }

    pub fn len(&self) -> (r: usize)
        ensures
            r == self@.len(),
    {
        self.data.len()
    }

    pub fn is_empty(&self) -> (r: bool)
        ensures
            r == (self@.len() == 0),
    {
        self.data.len() == 0
    }
}

} // verus!
