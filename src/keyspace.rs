//! The keyspace: each key holds one typed value and an optional deadline.
//! An entry whose deadline has passed is never visible; it is removed when
//! an access finds it, or by a sweep.
use vstd::prelude::*;
use crate::assoc::{find_key, has_key, key_index, lemma_key_at, lemma_put, lemma_remove_key, lookup, put, remove_key, unique_keys};
use crate::hash_store::HashStore;
use crate::set_store::{distinct, SetStore};
use crate::sorted_set_store::{ascending, SortedSetStore};
use crate::string_store::StringStore;
use crate::vector_store::VectorStore;

verus! {

/// A stored value: exactly one of the five kinds.
#[derive(Debug)]
pub enum Value {
    Str(StringStore),
    Hash(HashStore),
    List(VectorStore),
    Members(SetStore),
    ZSet(SortedSetStore),
}

/// What a value holds.
pub enum ValueView {
    Str(Seq<char>),
    Hash(Seq<(Seq<char>, Seq<char>)>),
    List(Seq<Seq<char>>),
    Members(Seq<Seq<char>>),
    ZSet(Seq<(Seq<char>, i64)>),
}

impl View for Value {
    type V = ValueView;

    open spec fn view(&self) -> ValueView {
        match self {
            Value::Str(s) => ValueView::Str(s@),
            Value::Hash(h) => ValueView::Hash(h@),
            Value::List(l) => ValueView::List(l@),
            Value::Members(s) => ValueView::Members(s@),
            Value::ZSet(z) => ValueView::ZSet(z@),
        }
    }
}

/// The invariant each kind of value keeps.
pub open spec fn value_wf(v: ValueView) -> bool {
    match v {
        ValueView::Hash(h) => unique_keys(h),
        ValueView::Members(s) => distinct(s),
        ValueView::ZSet(z) => unique_keys(z) && ascending(z),
        _ => true,
    }
}

/// An entry: a value and, when it expires, the instant (in milliseconds)
/// from which it no longer exists.
pub type EntryView = (ValueView, Option<u64>);

/// Whether an entry with this deadline exists at instant `now`.
pub open spec fn is_live(deadline: Option<u64>, now: u64) -> bool {
    match deadline {
        None => true,
        Some(t) => now < t,
    }
}

/// The database as key-entry pairs, each key once.
pub type DbView = Seq<(Seq<char>, EntryView)>;

/// The entry under `k` that is visible at `now`.
pub open spec fn visible(db: DbView, k: Seq<char>, now: u64) -> Option<EntryView> {
    match lookup(db, k) {
        Some(e) => if is_live(e.1, now) { Some(e) } else { None },
        None => None,
    }
}

/// `db` after an access to `k` at `now`: an expired entry there is gone.
pub open spec fn purge(db: DbView, k: Seq<char>, now: u64) -> DbView {
    match lookup(db, k) {
        Some(e) => if is_live(e.1, now) { db } else { remove_key(db, k) },
        None => db,
    }
}

/// The entries of `db` that exist at `now`, in order.
pub open spec fn swept(db: DbView, now: u64) -> DbView
    decreases db.len(),
{
    if db.len() == 0 {
        db
    } else {
        let r = swept(db.drop_last(), now);
        if is_live(db.last().1.1, now) { r.push(db.last()) } else { r }
    }
}

pub open spec fn db_wf(db: DbView) -> bool {
    &&& unique_keys(db)
    &&& forall|i: int| 0 <= i < db.len() ==> value_wf(#[trigger] db[i].1.0)
}


/// A value and its deadline.
#[derive(Debug)]
pub struct Entry {
    pub value: Value,
    pub deadline: Option<u64>,
}

pub open spec fn pair_view(p: (String, Entry)) -> (Seq<char>, EntryView) {
    (p.0@, (p.1.value@, p.1.deadline))
}

/// Every key with its entry, each key once, in the order keys were created.
#[derive(Debug)]
pub struct DictStore {
    entries: Vec<(String, Entry)>,
}

impl View for DictStore {
    type V = DbView;

    closed spec fn view(&self) -> DbView {
        self.entries@.map_values(|p: (String, Entry)| pair_view(p))
    }
}

proof fn lemma_purge(db: DbView, k: Seq<char>, now: u64)
    requires
        db_wf(db),
    ensures
        db_wf(purge(db, k, now)),
        lookup(purge(db, k, now), k) == visible(db, k, now),
        forall|k2: Seq<char>| k2 != k ==> lookup(purge(db, k, now), k2) == #[trigger] lookup(db, k2),
{
    lemma_remove_key(db, k);
    lemma_remove_wf(db, k);
}

pub proof fn lemma_remove_wf(db: DbView, k: Seq<char>)
    requires
        db_wf(db),
    ensures
        db_wf(remove_key(db, k)),
{
    lemma_remove_key(db, k);
    if has_key(db, k) {
        let i = key_index(db, k);
        let t = remove_key(db, k);
        assert forall|j: int| 0 <= j < t.len() implies value_wf(#[trigger] t[j].1.0) by {
            let j2 = if j < i { j } else { j + 1 };
            assert(t[j] == db[j2]);
        }
    }
}

proof fn lemma_remove_index_wf(db: DbView, i: int)
    requires
        db_wf(db),
        0 <= i < db.len(),
    ensures
        db_wf(db.remove(i)),
{
    let t = db.remove(i);
    assert forall|j: int| 0 <= j < t.len() implies value_wf(#[trigger] t[j].1.0) by {
        let j2 = if j < i { j } else { j + 1 };
        assert(t[j] == db[j2]);
    }
    assert forall|a: int, b: int| 0 <= a < t.len() && 0 <= b < t.len() && a != b implies #[trigger] t[a].0 != #[trigger] t[b].0 by {
        let a2 = if a < i { a } else { a + 1 };
        let b2 = if b < i { b } else { b + 1 };
        assert(t[a] == db[a2]);
        assert(t[b] == db[b2]);
    }
}

pub proof fn lemma_put_wf(db: DbView, k: Seq<char>, e: EntryView)
    requires
        db_wf(db),
        value_wf(e.0),
    ensures
        db_wf(put(db, k, e)),
{
    lemma_put(db, k, e);
}

impl DictStore {
    pub open spec fn wf(&self) -> bool {
        db_wf(self@)
    }

    pub fn new() -> (r: DictStore)
        ensures
            r.wf(),
            r@ == Seq::<(Seq<char>, EntryView)>::empty(),
    {
        let r = DictStore { entries: Vec::new() };
        assert(r@ =~= Seq::<(Seq<char>, EntryView)>::empty());
        r
    }

    /// Number of entries held, expired or not.
    pub fn len(&self) -> (r: usize)
        ensures
            r == self@.len(),
    {
        self.entries.len()
    }

    /// Creates or replaces the entry of `key`.
    pub fn insert(&mut self, key: String, value: Value, deadline: Option<u64>)
        requires
            old(self).wf(),
            value_wf(value@),
        ensures
            final(self).wf(),
            final(self)@ == put(old(self)@, key@, (value@, deadline)),
    {
        let ghost e = (value@, deadline);
        proof {
            lemma_put_wf(self@, key@, e);
        }
        match find_key(&self.entries, key.as_str()) {
            Some(i) => {
                proof {
                    lemma_key_at(self@, i as int);
                }
                self.entries.set(i, (key, Entry { value, deadline }));
            },
            None => {
                assert(!has_key(self@, key@));
                self.entries.push((key, Entry { value, deadline }));
            },
        }
        assert(self@ =~= put(old(self)@, key@, e));
    }

    /// Removes the entry of `key`; true when there was one.
    pub fn remove(&mut self, key: &str) -> (r: bool)
        requires
            old(self).wf(),
        ensures
            final(self).wf(),
            final(self)@ == remove_key(old(self)@, key@),
            r == has_key(old(self)@, key@),
    {
        proof {
            lemma_remove_wf(self@, key@);
        }
        match find_key(&self.entries, key) {
            Some(i) => {
                proof {
                    lemma_key_at(self@, i as int);
                }
                self.entries.remove(i);
                assert(self@ =~= remove_key(old(self)@, key@));
                true
            },
            None => {
                assert(!has_key(self@, key@));
                false
            },
        }
    }

    /// Removes every entry.
    pub fn clear(&mut self)
        ensures
            final(self).wf(),
            final(self)@ == Seq::<(Seq<char>, EntryView)>::empty(),
    {
        self.entries.clear();
        assert(self@ =~= Seq::<(Seq<char>, EntryView)>::empty());
    }

    /// Removes every entry that has expired by `now`, keeping the order of
    /// the rest.
    pub fn sweep(&mut self, now: u64)
        requires
            old(self).wf(),
        ensures
            final(self).wf(),
            final(self)@ == swept(old(self)@, now),
    {
        let ghost all = self@;
        let ghost mut c: int = 0;
        let mut i: usize = 0;
        assert(all.subrange(0, 0) =~= Seq::<(Seq<char>, EntryView)>::empty());
        assert(self@.subrange(0, 0) =~= Seq::<(Seq<char>, EntryView)>::empty());
        assert(self@.subrange(0, self@.len() as int) =~= all.subrange(0, all.len() as int));
        while i < self.entries.len()
            invariant
                self.wf(),
                all == old(self)@,
                0 <= i <= self@.len(),
                0 <= c <= all.len(),
                self@.len() - i == all.len() - c,
                self@.subrange(0, i as int) == swept(all.subrange(0, c), now),
                self@.subrange(i as int, self@.len() as int) == all.subrange(c, all.len() as int),
            decreases self@.len() - i,
        {
            let ghost cur = self@;
            assert(cur[i as int] == all.subrange(c, all.len() as int)[0]);
            assert(all.subrange(0, c + 1).drop_last() =~= all.subrange(0, c));
            assert(all.subrange(0, c + 1).last() == all[c]);
            let live = match self.entries[i].1.deadline {
                None => true,
                Some(t) => now < t,
            };
            if live {
                assert(self@.subrange(0, i + 1) =~= self@.subrange(0, i as int).push(cur[i as int]));
                assert forall|t: int| 0 <= t < self@.len() - i - 1 implies #[trigger] self@.subrange(i + 1, self@.len() as int)[t] == all.subrange(c + 1, all.len() as int)[t] by {
                    assert(cur.subrange(i as int, cur.len() as int)[t + 1] == all.subrange(c, all.len() as int)[t + 1]);
                }
                assert(self@.subrange(i + 1, self@.len() as int) =~= all.subrange(c + 1, all.len() as int));
                i = i + 1;
            } else {
                self.entries.remove(i);
                assert(self@ =~= cur.remove(i as int));
                proof {
                    lemma_remove_index_wf(cur, i as int);
                }
                assert(self@.subrange(0, i as int) =~= cur.subrange(0, i as int));
                assert forall|t: int| 0 <= t < self@.len() - i implies #[trigger] self@.subrange(i as int, self@.len() as int)[t] == all.subrange(c + 1, all.len() as int)[t] by {
                    assert(cur.subrange(i as int, cur.len() as int)[t + 1] == all.subrange(c, all.len() as int)[t + 1]);
                }
                assert(self@.subrange(i as int, self@.len() as int) =~= all.subrange(c + 1, all.len() as int));
            }
            proof {
                c = c + 1;
            }
        }
        assert(all.subrange(0, c) =~= all);
        assert(self@.subrange(0, i as int) =~= self@);
    }

    /// Looks `key` up at `now`, removing its entry if it has expired; the
    /// position of the live entry, if there is one.
    pub fn find_live(&mut self, key: &str, now: u64) -> (r: Option<usize>)
        requires
            old(self).wf(),
        ensures
            final(self).wf(),
            final(self)@ == purge(old(self)@, key@, now),
            match r {
                Some(i) => i < final(self)@.len() && final(self)@[i as int].0 == key@ && has_key(
                    final(self)@,
                    key@,
                ) && key_index(final(self)@, key@) == i && visible(old(self)@, key@, now) == Some(
                    final(self)@[i as int].1,
                ),
                None => visible(old(self)@, key@, now) is None && !has_key(final(self)@, key@),
            },
    {
        proof {
            lemma_purge(self@, key@, now);
        }
        match find_key(&self.entries, key) {
            Some(i) => {
                proof {
                    lemma_key_at(self@, i as int);
                }
                let live = match self.entries[i].1.deadline {
                    None => true,
                    Some(t) => now < t,
                };
                if live {
                    Some(i)
                } else {
                    self.entries.remove(i);
                    assert(self@ =~= remove_key(old(self)@, key@));
                    None
                }
            },
            None => {
                assert(!has_key(self@, key@));
                None
            },
        }
    }

    /// The value at position `i`.
    pub fn value_at(&self, i: usize) -> (r: &Value)
        requires
            i < self@.len(),
        ensures
            r@ == self@[i as int].1.0,
    {
        &self.entries[i].1.value
    }

    /// The deadline at position `i`.
    pub fn deadline_at(&self, i: usize) -> (r: Option<u64>)
        requires
            i < self@.len(),
        ensures
            r == self@[i as int].1.1,
    {
        self.entries[i].1.deadline
    }

    /// The key at position `i`.
    pub fn key_at(&self, i: usize) -> (r: &String)
        requires
            i < self@.len(),
        ensures
            r@ == self@[i as int].0,
    {
        &self.entries[i].0
    }

    /// Sets the deadline at position `i`.
    pub fn set_deadline_at(&mut self, i: usize, deadline: Option<u64>)
        requires
            old(self).wf(),
            i < old(self)@.len(),
        ensures
            final(self).wf(),
            final(self)@ == old(self)@.update(i as int, (old(self)@[i as int].0, (old(self)@[i as int].1.0, deadline))),
    {
        let e = &mut self.entries[i];
        e.1.deadline = deadline;
        assert(self@ =~= old(self)@.update(i as int, (old(self)@[i as int].0, (old(self)@[i as int].1.0, deadline))));
        assert(self.wf()) by {
            assert forall|j: int| 0 <= j < self@.len() implies value_wf(#[trigger] self@[j].1.0) by {
                assert(self@[j].1.0 == old(self)@[j].1.0);
            }
        }
    }

    /// Puts `v` at position `i`, keeping key and deadline; returns the value
    /// that was there.
    pub fn replace_value(&mut self, i: usize, v: Value) -> (r: Value)
        requires
            old(self).wf(),
            i < old(self)@.len(),
            value_wf(v@),
        ensures
            final(self).wf(),
            r@ == old(self)@[i as int].1.0,
            final(self)@ == old(self)@.update(i as int, (old(self)@[i as int].0, (v@, old(self)@[i as int].1.1))),
    {
        let mut v = v;
        let e = &mut self.entries[i];
        std::mem::swap(&mut e.1.value, &mut v);
        assert(self@ =~= old(self)@.update(i as int, (old(self)@[i as int].0, (final(self)@[i as int].1.0, old(self)@[i as int].1.1))));
        assert(self.wf()) by {
            assert forall|j: int| 0 <= j < self@.len() implies value_wf(#[trigger] self@[j].1.0) by {
                if j != i {
                    assert(self@[j] == old(self)@[j]);
                }
            }
            assert forall|a: int, b: int| 0 <= a < self@.len() && 0 <= b < self@.len() && a != b implies #[trigger] self@[a].0 != #[trigger] self@[b].0 by {
                assert(self@[a].0 == old(self)@[a].0);
                assert(self@[b].0 == old(self)@[b].0);
            }
        }
        v
    }

    /// Takes the entry of `key` out.
    pub fn take(&mut self, key: &str) -> (r: Option<Entry>)
        requires
            old(self).wf(),
        ensures
            final(self).wf(),
            final(self)@ == remove_key(old(self)@, key@),
            match r {
                Some(e) => lookup(old(self)@, key@) == Some((e.value@, e.deadline)) && value_wf(e.value@),
                None => !has_key(old(self)@, key@),
            },
    {
        proof {
            lemma_remove_wf(self@, key@);
        }
        match find_key(&self.entries, key) {
            Some(i) => {
                proof {
                    lemma_key_at(self@, i as int);
                }
                let ghost before = self.entries@;
                let (_, e) = self.entries.remove(i);
                assert(old(self)@[i as int] == pair_view(before[i as int]));
                assert(value_wf(old(self)@[i as int].1.0));
                assert(self@ =~= remove_key(old(self)@, key@));
                Some(e)
            },
            None => {
                assert(!has_key(self@, key@));
                None
            },
        }
    }
}

} // verus!
