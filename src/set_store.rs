//! A set value: distinct texts, in the order they were added.
use vstd::prelude::*;

verus! {

/// Distinct member texts, in the order they were added.
#[derive(Debug)]
pub struct SetStore {
    members: Vec<String>,
}

pub open spec fn distinct(s: Seq<Seq<char>>) -> bool {
    forall|i: int, j: int| 0 <= i < s.len() && 0 <= j < s.len() && i != j ==> #[trigger] s[i] != #[trigger] s[j]
}

pub open spec fn member_index(s: Seq<Seq<char>>, x: Seq<char>) -> int {
    choose|i: int| 0 <= i < s.len() && s[i] == x
}

/// `s` with `x` added at the end unless it is there already.
pub open spec fn with_member(s: Seq<Seq<char>>, x: Seq<char>) -> Seq<Seq<char>> {
    if s.contains(x) {
        s
    } else {
        s.push(x)
    }
}

/// `s` without `x`, the rest in order.
pub open spec fn without_member(s: Seq<Seq<char>>, x: Seq<char>) -> Seq<Seq<char>> {
    if s.contains(x) {
        s.remove(member_index(s, x))
    } else {
        s
    }
}

impl View for SetStore {
    type V = Seq<Seq<char>>;

    closed spec fn view(&self) -> Seq<Seq<char>> {
        self.members@.map_values(|s: String| s@)
    }
}

/// Position of `x` in `v`, by a scan.
pub fn find_text(v: &Vec<String>, x: &str) -> (r: Option<usize>)
    ensures
        match r {
            Some(i) => i < v@.len() && v@[i as int]@ == x@,
            None => forall|i: int| 0 <= i < v@.len() ==> (#[trigger] v@[i])@ != x@,
        },
{
    let mut i: usize = 0;
    while i < v.len()
        invariant
            i <= v@.len(),
            forall|j: int| 0 <= j < i ==> (#[trigger] v@[j])@ != x@,
        decreases v@.len() - i,
    {
        if crate::text::text_eq(v[i].as_str(), x) {
            return Some(i);
        }
        i = i + 1;
    }
    None
}

impl SetStore {
    pub open spec fn wf(&self) -> bool {
        distinct(self@)
    }

    pub fn new() -> (r: SetStore)
        ensures
            r.wf(),
            r@ == Seq::<Seq<char>>::empty(),
    {
        let r = SetStore { members: Vec::new() };
        assert(r@ =~= Seq::<Seq<char>>::empty());
        r
    }

    /// Adds `member`; true when it was not there.
    pub fn add_member(&mut self, member: &str) -> (r: bool)
        requires
            old(self).wf(),
        ensures
            final(self).wf(),
            final(self)@ == with_member(old(self)@, member@),
            r == !old(self)@.contains(member@),
    {
        match find_text(&self.members, member) {
            Some(i) => {
                assert(self@[i as int] == member@);
                false
            },
            None => {
                assert(!self@.contains(member@));
                self.members.push(member.to_owned());
                assert(self@ =~= old(self)@.push(member@));
                true
            },
        }
    }

    /// Removes `member`; true when it was there.
    pub fn remove_member(&mut self, member: &str) -> (r: bool)
        requires
            old(self).wf(),
        ensures
            final(self).wf(),
            final(self)@ == without_member(old(self)@, member@),
            r == old(self)@.contains(member@),
    {
        match find_text(&self.members, member) {
            Some(i) => {
                assert(self@[i as int] == member@);
                assert(member_index(self@, member@) == i);
                self.members.remove(i);
                assert(self@ =~= old(self)@.remove(i as int));
                assert(distinct(self@)) by {
                    let s = old(self)@;
                    let t = self@;
                    assert forall|a: int, b: int|
                        0 <= a < t.len() && 0 <= b < t.len() && a != b implies #[trigger] t[a]
                        != #[trigger] t[b] by {
                        let a2 = if a < i { a } else { a + 1 };
                        let b2 = if b < i { b } else { b + 1 };
                        assert(t[a] == s[a2]);
                        assert(t[b] == s[b2]);
                    }
                }
                true
            },
            None => {
                assert(!self@.contains(member@));
                false
            },
        }
    }

    pub fn is_member(&self, member: &str) -> (r: bool)
        ensures
            r == self@.contains(member@),
    {
        match find_text(&self.members, member) {
            Some(i) => {
                assert(self@[i as int] == member@);
                true
            },
            None => false,
        }
    }

    /// The members, in the order they were added.
    pub fn get_members(&self) -> (r: Vec<String>)
        ensures
            r@.map_values(|s: String| s@) == self@,
    {
        let mut r: Vec<String> = Vec::new();
        let mut i: usize = 0;
        while i < self.members.len()
            invariant
                i <= self.members@.len(),
                r@.len() == i,
                forall|j: int| 0 <= j < i ==> (#[trigger] r@[j])@ == self.members@[j]@,
            decreases self.members@.len() - i,
        {
            r.push(self.members[i].clone());
            i = i + 1;
        }
        assert(r@.map_values(|s: String| s@) =~= self@);
        r
    }

    pub fn len(&self) -> (r: usize)
        ensures
            r == self@.len(),
    {
        self.members.len()
    }
}

} // verus!
