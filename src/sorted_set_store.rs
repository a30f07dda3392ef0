//! A sorted-set value: members with integer scores, kept in ascending
//! (score, member) order.
use vstd::prelude::*;
use crate::assoc::{find_key, has_key, key_index, lemma_key_at, lemma_remove_key, lookup, remove_key, unique_keys};
use crate::range::{inclusive_bounds, inclusive_range};
use crate::text::{lemma_bytes_lt_transitive, text_less, text_lt};

verus! {

/// Order of members: by score, ties by member text.
pub open spec fn entry_lt(a: (Seq<char>, i64), b: (Seq<char>, i64)) -> bool {
    a.1 < b.1 || (a.1 == b.1 && text_lt(a.0, b.0))
}

/// Strictly ascending in (score, member) order.
pub open spec fn ascending(s: Seq<(Seq<char>, i64)>) -> bool {
    forall|i: int, j: int| 0 <= i < j < s.len() ==> entry_lt(#[trigger] s[i], #[trigger] s[j])
}

pub open spec fn members_of(s: Seq<(Seq<char>, i64)>) -> Seq<Seq<char>> {
    s.map_values(|e: (Seq<char>, i64)| e.0)
}

proof fn lemma_entry_lt_transitive(a: (Seq<char>, i64), b: (Seq<char>, i64), c: (Seq<char>, i64))
    requires
        entry_lt(a, b),
        entry_lt(b, c),
    ensures
        entry_lt(a, c),
{
    if a.1 == b.1 && b.1 == c.1 {
        lemma_bytes_lt_transitive(
            vstd::utf8::encode_utf8(a.0),
            vstd::utf8::encode_utf8(b.0),
            vstd::utf8::encode_utf8(c.0),
        );
    }
}

proof fn lemma_entry_lt_total(a: (Seq<char>, i64), b: (Seq<char>, i64))
    requires
        a.0 != b.0,
    ensures
        entry_lt(a, b) || entry_lt(b, a),
{
    crate::text::lemma_text_lt_total(a.0, b.0);
}

proof fn lemma_remove_ascending(s: Seq<(Seq<char>, i64)>, i: int)
    requires
        ascending(s),
        0 <= i < s.len(),
    ensures
        ascending(s.remove(i)),
{
    let t = s.remove(i);
    assert forall|a: int, b: int| 0 <= a < b < t.len() implies entry_lt(#[trigger] t[a], #[trigger] t[b]) by {
        let a2 = if a < i { a } else { a + 1 };
        let b2 = if b < i { b } else { b + 1 };
        assert(t[a] == s[a2]);
        assert(t[b] == s[b2]);
    }
}

/// Inserting `e` after exactly the entries below it keeps the order.
proof fn lemma_insert_ascending(s: Seq<(Seq<char>, i64)>, p: int, e: (Seq<char>, i64))
    requires
        ascending(s),
        !has_key(s, e.0),
        0 <= p <= s.len(),
        forall|j: int| 0 <= j < p ==> entry_lt(#[trigger] s[j], e),
        p < s.len() ==> !entry_lt(s[p], e),
    ensures
        ascending(s.insert(p, e)),
{
    if p < s.len() {
        assert(s[p].0 != e.0);
        lemma_entry_lt_total(s[p], e);
    }
    assert forall|j: int| p <= j < s.len() implies entry_lt(e, #[trigger] s[j]) by {
        if j > p {
            lemma_entry_lt_transitive(e, s[p], s[j]);
        }
    }
    let t = s.insert(p, e);
    assert forall|a: int, b: int| 0 <= a < b < t.len() implies entry_lt(#[trigger] t[a], #[trigger] t[b]) by {
        if b < p {
            assert(t[a] == s[a] && t[b] == s[b]);
        } else if b == p {
            assert(t[a] == s[a]);
        } else if a < p {
            assert(t[a] == s[a] && t[b] == s[b - 1]);
            lemma_entry_lt_transitive(t[a], e, t[b]);
        } else if a == p {
            assert(t[b] == s[b - 1]);
        } else {
            assert(t[a] == s[a - 1]);
            assert(t[b] == s[b - 1]);
        }
    }
}

/// Inserting an entry with a new member keeps members unique, and that
/// member then has the entry's score.
proof fn lemma_insert_unique(s: Seq<(Seq<char>, i64)>, p: int, e: (Seq<char>, i64))
    requires
        unique_keys(s),
        !has_key(s, e.0),
        0 <= p <= s.len(),
    ensures
        unique_keys(s.insert(p, e)),
        lookup(s.insert(p, e), e.0) == Some(e.1),
        forall|k: Seq<char>| k != e.0 ==> lookup(s.insert(p, e), k) == #[trigger] lookup(s, k),
{
    let t = s.insert(p, e);
    assert forall|a: int, b: int|
        0 <= a < t.len() && 0 <= b < t.len() && a != b implies #[trigger] t[a].0 != #[trigger] t[b].0 by {
        if a != p && b != p {
            let a2 = if a < p { a } else { a - 1 };
            let b2 = if b < p { b } else { b - 1 };
            assert(t[a] == s[a2]);
            assert(t[b] == s[b2]);
        } else if a == p {
            let b2 = if b < p { b } else { b - 1 };
            assert(t[b] == s[b2]);
        } else {
            let a2 = if a < p { a } else { a - 1 };
            assert(t[a] == s[a2]);
        }
    }
    lemma_key_at(t, p);
    assert forall|k: Seq<char>| k != e.0 implies lookup(t, k) == #[trigger] lookup(s, k) by {
        if has_key(s, k) {
            let j = key_index(s, k);
            let j2 = if j < p { j } else { j + 1 };
            assert(t[j2] == s[j]);
            lemma_key_at(t, j2);
        }
        if has_key(t, k) {
            let j = key_index(t, k);
            let j2 = if j < p { j } else { j - 1 };
            assert(t[j] == s[j2]);
            lemma_key_at(s, j2);
        }
    }
}

/// Where `e` goes among the entries `r` to keep them ascending.
pub open spec fn insert_pos(r: Seq<(Seq<char>, i64)>, e: (Seq<char>, i64)) -> int {
    choose|p: int| 0 <= p <= r.len() && ascending(r.insert(p, e))
}

/// `s` after `m` gets the score `score`: the member leaves its place and
/// enters at the place the new score gives it.
pub open spec fn zset_put(s: Seq<(Seq<char>, i64)>, m: Seq<char>, score: i64) -> Seq<(Seq<char>, i64)> {
    let r = remove_key(s, m);
    r.insert(insert_pos(r, (m, score)), (m, score))
}

proof fn lemma_entry_lt_irreflexive(a: (Seq<char>, i64))
    ensures
        !entry_lt(a, a),
{
    crate::text::lemma_bytes_lt_irreflexive(vstd::utf8::encode_utf8(a.0));
}

/// An ascending sequence has one place for a new entry.
proof fn lemma_insert_pos_unique(r: Seq<(Seq<char>, i64)>, e: (Seq<char>, i64), p: int, q: int)
    requires
        0 <= p <= r.len(),
        0 <= q <= r.len(),
        ascending(r.insert(p, e)),
        ascending(r.insert(q, e)),
    ensures
        p == q,
{
    if p < q {
        assert(r.insert(p, e)[p + 1] == r[p]);
        assert(entry_lt(r.insert(p, e)[p], r.insert(p, e)[p + 1]));
        assert(r.insert(q, e)[p] == r[p]);
        assert(entry_lt(r.insert(q, e)[p], r.insert(q, e)[q]));
        lemma_entry_lt_transitive(e, r[p], e);
        lemma_entry_lt_irreflexive(e);
    } else if q < p {
        assert(r.insert(q, e)[q + 1] == r[q]);
        assert(entry_lt(r.insert(q, e)[q], r.insert(q, e)[q + 1]));
        assert(r.insert(p, e)[q] == r[q]);
        assert(entry_lt(r.insert(p, e)[q], r.insert(p, e)[p]));
        lemma_entry_lt_transitive(e, r[q], e);
        lemma_entry_lt_irreflexive(e);
    }
}

proof fn lemma_insert_pos_exists(r: Seq<(Seq<char>, i64)>, e: (Seq<char>, i64))
    requires
        ascending(r),
        !has_key(r, e.0),
    ensures
        exists|p: int| 0 <= p <= r.len() && ascending(r.insert(p, e)),
    decreases r.len(),
{
    if r.len() == 0 {
        assert(ascending(r.insert(0, e)));
    } else {
        let x = r.last();
        let n = r.len() - 1;
        assert(r[n] == x);
        if entry_lt(x, e) {
            let t = r.insert(r.len() as int, e);
            assert forall|i: int, j: int| 0 <= i < j < t.len() implies entry_lt(#[trigger] t[i], #[trigger] t[j]) by {
                if j == r.len() {
                    if i < n {
                        assert(entry_lt(r[i], r[n]));
                        lemma_entry_lt_transitive(r[i], x, e);
                    }
                } else {
                    assert(t[i] == r[i] && t[j] == r[j]);
                }
            }
        } else {
            assert(x.0 != e.0);
            lemma_entry_lt_total(x, e);
            let r2 = r.drop_last();
            assert(ascending(r2)) by {
                assert forall|i: int, j: int| 0 <= i < j < r2.len() implies entry_lt(#[trigger] r2[i], #[trigger] r2[j]) by {
                    assert(r2[i] == r[i] && r2[j] == r[j]);
                }
            }
            assert(!has_key(r2, e.0)) by {
                if has_key(r2, e.0) {
                    let j = choose|j: int| 0 <= j < r2.len() && #[trigger] r2[j].0 == e.0;
                    assert(r[j] == r2[j]);
                }
            }
            lemma_insert_pos_exists(r2, e);
            let p = choose|p: int| 0 <= p <= r2.len() && ascending(r2.insert(p, e));
            let u = r2.insert(p, e);
            let t = r.insert(p, e);
            assert(t =~= u.push(x));
            assert forall|i: int, j: int| 0 <= i < j < t.len() implies entry_lt(#[trigger] t[i], #[trigger] t[j]) by {
                if j == t.len() - 1 {
                    assert(t[j] == x);
                    if i == p {
                    } else {
                        let i2 = if i < p { i } else { i - 1 };
                        assert(t[i] == r[i2]);
                        assert(entry_lt(r[i2], r[n]));
                    }
                } else {
                    assert(t[i] == u[i] && t[j] == u[j]);
                }
            }
        }
    }
}

/// What giving `m` the score `score` does to the members.
pub proof fn lemma_zset_put(s: Seq<(Seq<char>, i64)>, m: Seq<char>, score: i64)
    requires
        unique_keys(s),
        ascending(s),
    ensures
        unique_keys(zset_put(s, m, score)),
        ascending(zset_put(s, m, score)),
        lookup(zset_put(s, m, score), m) == Some(score),
        forall|k: Seq<char>| k != m ==> lookup(zset_put(s, m, score), k) == #[trigger] lookup(s, k),
        zset_put(s, m, score).len() == if has_key(s, m) { s.len() } else { s.len() + 1 },
{
    let r = remove_key(s, m);
    let e = (m, score);
    lemma_remove_key(s, m);
    if has_key(s, m) {
        lemma_remove_ascending(s, key_index(s, m));
    }
    assert(!has_key(r, m)) by {
        if has_key(r, m) {
            let j = key_index(r, m);
            lemma_key_at(r, j);
        }
    }
    lemma_insert_pos_exists(r, e);
    let p = insert_pos(r, e);
    lemma_insert_unique(r, p, e);
    assert forall|k: Seq<char>| k != m implies lookup(zset_put(s, m, score), k) == #[trigger] lookup(s, k) by {
        assert(lookup(r, k) == lookup(s, k));
    }
}

/// Members with their scores, strictly ascending by (score, member).
#[derive(Debug)]
pub struct SortedSetStore {
    entries: Vec<(String, i64)>,
}

pub open spec fn entry_view(e: (String, i64)) -> (Seq<char>, i64) {
    (e.0@, e.1)
}

impl View for SortedSetStore {
    type V = Seq<(Seq<char>, i64)>;

    closed spec fn view(&self) -> Seq<(Seq<char>, i64)> {
        self.entries@.map_values(|e: (String, i64)| entry_view(e))
    }
}

impl SortedSetStore {
    pub open spec fn wf(&self) -> bool {
        unique_keys(self@) && ascending(self@)
    }

    pub fn new() -> (r: SortedSetStore)
        ensures
            r.wf(),
            r@ == Seq::<(Seq<char>, i64)>::empty(),
    {
        let r = SortedSetStore { entries: Vec::new() };
        assert(r@ =~= Seq::<(Seq<char>, i64)>::empty());
        r
    }

    /// Gives `member` the score `score`, adding it when it is new; true when
    /// it is new. The member moves to the place its new score gives it.
    pub fn add_member(&mut self, member: &str, score: i64) -> (r: bool)
        requires
            old(self).wf(),
        ensures
            final(self).wf(),
            r == !has_key(old(self)@, member@),
            final(self)@ == zset_put(old(self)@, member@, score),
            lookup(final(self)@, member@) == Some(score),
            forall|k: Seq<char>| k != member@ ==> lookup(final(self)@, k) == #[trigger] lookup(old(self)@, k),
    {
        let was_new = !self.remove_member(member);
        proof {
            lemma_remove_key(old(self)@, member@);
        }
        self.insert_new(member, score);
        proof {
            let r = remove_key(old(self)@, member@);
            let e = (member@, score);
            let p = choose|p: int| 0 <= p <= r.len() && self@ == r.insert(p, e);
            lemma_insert_pos_unique(r, e, p, insert_pos(r, e));

            assert forall|k: Seq<char>| k != member@ implies lookup(self@, k) == #[trigger] lookup(
                old(self)@,
                k,
            ) by {
                assert(lookup(remove_key(old(self)@, member@), k) == lookup(old(self)@, k));
            }
        }
        was_new
    }

    /// Adds a member that is not there, at the place its score gives it.
    fn insert_new(&mut self, member: &str, score: i64)
        requires
            old(self).wf(),
            !has_key(old(self)@, member@),
        ensures
            final(self).wf(),
            exists|p: int| 0 <= p <= old(self)@.len() && final(self)@ == old(self)@.insert(p, (member@, score)),
            lookup(final(self)@, member@) == Some(score),
            forall|k: Seq<char>| k != member@ ==> lookup(final(self)@, k) == #[trigger] lookup(old(self)@, k),
    {
        let ghost s = self@;
        let ghost e = (member@, score);
        let mut p: usize = 0;
        let mut placed = false;
        while !placed && p < self.entries.len()
            invariant
                self@ == s,
                e == (member@, score),
                p <= s.len(),
                forall|j: int| 0 <= j < p ==> entry_lt(#[trigger] s[j], e),
                placed ==> p < s.len() && !entry_lt(s[p as int], e),
            decreases s.len() - p + (if placed { 0int } else { 1int }),
        {
            assert(s[p as int] == entry_view(self.entries@[p as int]));
            let cur = &self.entries[p];
            let name_below = text_less(cur.0.as_str(), member);
            let below = cur.1 < score || (cur.1 == score && name_below);
            if below {
                p = p + 1;
            } else {
                placed = true;
            }
        }
        proof {
            lemma_insert_ascending(s, p as int, e);
            lemma_insert_unique(s, p as int, e);
        }
        self.entries.insert(p, (member.to_owned(), score));
        assert(self@ =~= s.insert(p as int, e));
    }

    /// Removes `member`; true when it was there.
    pub fn remove_member(&mut self, member: &str) -> (r: bool)
        requires
            old(self).wf(),
        ensures
            final(self).wf(),
            final(self)@ == remove_key(old(self)@, member@),
            r == has_key(old(self)@, member@),
    {
        proof {
            lemma_remove_key(old(self)@, member@);
        }
        match find_key(&self.entries, member) {
            Some(i) => {
                proof {
                    lemma_key_at(self@, i as int);
                }
                self.entries.remove(i);
                assert(self@ =~= remove_key(old(self)@, member@));
                proof {
                    lemma_remove_ascending(old(self)@, i as int);
                }
                true
            },
            None => {
                assert(!has_key(self@, member@));
                false
            },
        }
    }

    pub fn get_score(&self, member: &str) -> (r: Option<i64>)
        requires
            self.wf(),
        ensures
            r == lookup(self@, member@),
    {
        match find_key(&self.entries, member) {
            Some(i) => {
                proof {
                    lemma_key_at(self@, i as int);
                }
                Some(self.entries[i].1)
            },
            None => {
                assert(!has_key(self@, member@));
                None
            },
        }
    }

    /// Members at ranks `start` through `stop`, both included, lowest score
    /// first; negative ranks count from the end.
    pub fn get_range(&self, start: isize, stop: isize) -> (r: Vec<String>)
        ensures
            r@.map_values(|s: String| s@) == members_of(inclusive_range(self@, start as int, stop as int)),
    {
        let (a, b) = inclusive_bounds(self.entries.len(), start, stop);
        let mut r: Vec<String> = Vec::new();
        if a < b {
            let mut i: usize = a;
            while i < b
                invariant
                    a <= i <= b <= self.entries@.len(),
                    r@.len() == i - a,
                    forall|j: int| 0 <= j < i - a ==> (#[trigger] r@[j])@ == self.entries@[j + a].0@,
                decreases b - i,
            {
                r.push(self.entries[i].0.clone());
                i = i + 1;
            }
        }
        assert(r@.map_values(|s: String| s@) =~= members_of(inclusive_range(self@, start as int, stop as int)));
        r
    }

    /// Zero-based position of `member` in ascending order.
    pub fn get_rank(&self, member: &str) -> (r: Option<usize>)
        requires
            self.wf(),
        ensures
            match r {
                Some(i) => has_key(self@, member@) && i == key_index(self@, member@),
                None => !has_key(self@, member@),
            },
    {
        match find_key(&self.entries, member) {
            Some(i) => {
                proof {
                    lemma_key_at(self@, i as int);
                }
                Some(i)
            },
            None => {
                assert(!has_key(self@, member@));
                None
            },
        }
    }

    pub fn len(&self) -> (r: usize)
        ensures
            r == self@.len(),
    {
        self.entries.len()
    }
}

} // verus!
