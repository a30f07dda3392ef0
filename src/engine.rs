//! The execution engine: one handler per command, each one atomic on the
//! keyspace, and the dispatcher.
use vstd::prelude::*;
use vstd::string::StringExecFns;
use crate::assoc::{has_key, key_index, keys_of, lookup, put, values_of};
use crate::command::{scored_members, text_pairs, texts};
use crate::hash_store::HashStore;
use crate::keyspace::{db_wf, purge, value_wf, DbView, DictStore, Value, ValueView};
use crate::model::{
    after,
    count_existing,
    current,
    del_keys,
    do_append,
    do_expire,
    do_get,
    do_hdel,
    do_hset,
    do_incr_by,
    do_persist,
    do_pop,
    do_push,
    do_rename,
    do_sadd,
    do_set,
    do_srem,
    do_strlen,
    do_ttl,
    do_type,
    do_zadd,
    do_zrem,
    flag,
    flatten,
    get_many,
    hdel_all,
    hset_all,
    int_reply,
    live_count,
    matching_keys,
    ok,
    read_hash,
    read_list,
    read_set,
    read_zset,
    sadd_all,
    set_many,
    somes,
    srem_all,
    wrongtype,
    zadd_all,
    zrank_reply,
    zrem_all,
    zscore_reply,
};
use crate::reply::{opt_view, opt_views, Reply, ReplyView};
use crate::set_store::SetStore;
use crate::string_store::StringStore;
use crate::text::{glob_matches, int_string, parse_i64};
use crate::score::format_score;
use crate::range::{element_at, inclusive_range};
use crate::sorted_set_store::{members_of, SortedSetStore};
use crate::vector_store::VectorStore;

verus! {

/// The state one engine works on: the keyspace.
#[allow(non_camel_case_types)]
#[allow(non_snake_case)]
pub struct context {
    pub DataBase: DictStore,
}

impl View for context {
    type V = DbView;

    open spec fn view(&self) -> DbView {
        self.DataBase@
    }
}

fn ok_reply() -> (r: Reply)
    ensures
        r@ == ok(),
{
    Reply::Status(String::from_str("OK"))
}

fn wrongtype_reply() -> (r: Reply)
    ensures
        r@ == wrongtype(),
{
    Reply::Error(String::from_str("WRONGTYPE Operation against a key holding the wrong kind of value"))
}

fn count_reply(n: usize) -> (r: Reply)
    ensures
        r@ == int_reply(n as int),
{
    Reply::Integer(n as i128)
}

fn empty_array() -> (r: Reply)
    ensures
        r@ == ReplyView::Array(Seq::empty()),
{
    let v: Vec<Option<String>> = Vec::new();
    assert(opt_views(v@) =~= Seq::empty());
    Reply::Array(v)
}

fn placeholder() -> (r: Value)
    ensures
        value_wf(r@),
{
    Value::Str(StringStore::new(String::new()))
}

fn clone_opt(o: Option<&String>) -> (r: Option<String>)
    ensures
        opt_view(r) == match o {
            Some(s) => Some(s@),
            None => None::<Seq<char>>,
        },
{
    match o {
        Some(s) => Some(s.clone()),
        None => None,
    }
}

fn somes_of(v: Vec<String>) -> (r: Vec<Option<String>>)
    ensures
        opt_views(r@) == somes(texts(v@)),
{
    let mut r: Vec<Option<String>> = Vec::new();
    let mut i: usize = 0;
    while i < v.len()
        invariant
            i <= v@.len(),
            r@.len() == i,
            forall|j: int| 0 <= j < i ==> opt_view(#[trigger] r@[j]) == Some(v@[j]@),
        decreases v@.len() - i,
    {
        r.push(Some(v[i].clone()));
        i = i + 1;
    }
    assert(opt_views(r@) =~= somes(texts(v@)));
    r
}

/// `now + secs` seconds in milliseconds, saturating.
fn deadline_after(now: u64, secs: u64) -> (r: u64)
    ensures
        r == after(now, secs),
{
    let t = now as u128 + secs as u128 * 1000;
    if t > u64::MAX as u128 { u64::MAX } else { t as u64 }
}

/// What `find_live` gives, read through the model.
proof fn lemma_found(db: DbView, d: DbView, k: Seq<char>, now: u64, i: int)
    requires
        db_wf(d),
        d == purge(db, k, now),
        0 <= i < d.len(),
        d[i].0 == k,
        has_key(d, k),
        key_index(d, k) == i,
    ensures
        current(db, k, now) == Some(d[i].1),
        value_wf(d[i].1.0),
        forall|e: (ValueView, Option<u64>)| put(d, k, e) == #[trigger] d.update(i, (k, e)),
{
}

fn hset_into(h: &mut HashStore, fields: &Vec<(String, String)>) -> (n: usize)
    requires
        old(h).wf(),
    ensures
        final(h).wf(),
        (final(h)@, n as int) == hset_all(old(h)@, text_pairs(fields@)),
{
    let mut n: usize = 0;
    let mut i: usize = 0;
    while i < fields.len()
        invariant
            h.wf(),
            i <= fields@.len(),
            n <= i,
            (h@, n as int) == hset_all(old(h)@, text_pairs(fields@).subrange(0, i as int)),
        decreases fields@.len() - i,
    {
        assert(text_pairs(fields@).subrange(0, i + 1).drop_last() =~= text_pairs(fields@).subrange(0, i as int));
        if h.set_field(fields[i].0.as_str(), fields[i].1.as_str()) {
            n = n + 1;
        }
        i = i + 1;
    }
    assert(text_pairs(fields@).subrange(0, i as int) =~= text_pairs(fields@));
    n
}

fn hdel_from(h: &mut HashStore, fields: &Vec<String>) -> (n: usize)
    requires
        old(h).wf(),
    ensures
        final(h).wf(),
        (final(h)@, n as int) == hdel_all(old(h)@, texts(fields@)),
{
    let mut n: usize = 0;
    let mut i: usize = 0;
    while i < fields.len()
        invariant
            h.wf(),
            i <= fields@.len(),
            n <= i,
            (h@, n as int) == hdel_all(old(h)@, texts(fields@).subrange(0, i as int)),
        decreases fields@.len() - i,
    {
        assert(texts(fields@).subrange(0, i + 1).drop_last() =~= texts(fields@).subrange(0, i as int));
        if h.delete_field(fields[i].as_str()) {
            n = n + 1;
        }
        i = i + 1;
    }
    assert(texts(fields@).subrange(0, i as int) =~= texts(fields@));
    n
}

/// Pushes `values` as one block: in front when `left`, else at the back;
/// their order is kept either way.
fn push_all(l: &mut VectorStore, values: &Vec<String>, left: bool)
    ensures
        final(l)@ == if left { texts(values@) + old(l)@ } else { old(l)@ + texts(values@) },
{
    if left {
        let mut i: usize = values.len();
        while i > 0
            invariant
                i <= values@.len(),
                l@ == texts(values@).subrange(i as int, values@.len() as int) + old(l)@,
            decreases i,
        {
            i = i - 1;
            l.push_left(values[i].as_str());
            assert(l@ =~= texts(values@).subrange(i as int, values@.len() as int) + old(l)@);
        }
        assert(texts(values@).subrange(0, values@.len() as int) =~= texts(values@));
    } else {
        let mut i: usize = 0;
        while i < values.len()
            invariant
                i <= values@.len(),
                l@ == old(l)@ + texts(values@).subrange(0, i as int),
            decreases values@.len() - i,
        {
            l.push_right(values[i].as_str());
            assert(l@ =~= old(l)@ + texts(values@).subrange(0, i + 1));
            i = i + 1;
        }
        assert(texts(values@).subrange(0, values@.len() as int) =~= texts(values@));
    }
}

fn sadd_into(s: &mut SetStore, members: &Vec<String>) -> (n: usize)
    requires
        old(s).wf(),
    ensures
        final(s).wf(),
        (final(s)@, n as int) == sadd_all(old(s)@, texts(members@)),
{
    let mut n: usize = 0;
    let mut i: usize = 0;
    while i < members.len()
        invariant
            s.wf(),
            i <= members@.len(),
            n <= i,
            (s@, n as int) == sadd_all(old(s)@, texts(members@).subrange(0, i as int)),
        decreases members@.len() - i,
    {
        assert(texts(members@).subrange(0, i + 1).drop_last() =~= texts(members@).subrange(0, i as int));
        if s.add_member(members[i].as_str()) {
            n = n + 1;
        }
        i = i + 1;
    }
    assert(texts(members@).subrange(0, i as int) =~= texts(members@));
    n
}

fn srem_from(s: &mut SetStore, members: &Vec<String>) -> (n: usize)
    requires
        old(s).wf(),
    ensures
        final(s).wf(),
        (final(s)@, n as int) == srem_all(old(s)@, texts(members@)),
{
    let mut n: usize = 0;
    let mut i: usize = 0;
    while i < members.len()
        invariant
            s.wf(),
            i <= members@.len(),
            n <= i,
            (s@, n as int) == srem_all(old(s)@, texts(members@).subrange(0, i as int)),
        decreases members@.len() - i,
    {
        assert(texts(members@).subrange(0, i + 1).drop_last() =~= texts(members@).subrange(0, i as int));
        if s.remove_member(members[i].as_str()) {
            n = n + 1;
        }
        i = i + 1;
    }
    assert(texts(members@).subrange(0, i as int) =~= texts(members@));
    n
}

fn zadd_into(z: &mut SortedSetStore, entries: &Vec<(i64, String)>) -> (n: usize)
    requires
        old(z).wf(),
    ensures
        final(z).wf(),
        (final(z)@, n as int) == zadd_all(old(z)@, scored_members(entries@)),
{
    let mut n: usize = 0;
    let mut i: usize = 0;
    while i < entries.len()
        invariant
            z.wf(),
            i <= entries@.len(),
            n <= i,
            (z@, n as int) == zadd_all(old(z)@, scored_members(entries@).subrange(0, i as int)),
        decreases entries@.len() - i,
    {
        assert(scored_members(entries@).subrange(0, i + 1).drop_last() =~= scored_members(entries@).subrange(0, i as int));
        if z.add_member(entries[i].1.as_str(), entries[i].0) {
            n = n + 1;
        }
        i = i + 1;
    }
    assert(scored_members(entries@).subrange(0, i as int) =~= scored_members(entries@));
    n
}

fn zrem_from(z: &mut SortedSetStore, members: &Vec<String>) -> (n: usize)
    requires
        old(z).wf(),
    ensures
        final(z).wf(),
        (final(z)@, n as int) == zrem_all(old(z)@, texts(members@)),
{
    let mut n: usize = 0;
    let mut i: usize = 0;
    while i < members.len()
        invariant
            z.wf(),
            i <= members@.len(),
            n <= i,
            (z@, n as int) == zrem_all(old(z)@, texts(members@).subrange(0, i as int)),
        decreases members@.len() - i,
    {
        assert(texts(members@).subrange(0, i + 1).drop_last() =~= texts(members@).subrange(0, i as int));
        if z.remove_member(members[i].as_str()) {
            n = n + 1;
        }
        i = i + 1;
    }
    assert(texts(members@).subrange(0, i as int) =~= texts(members@));
    n
}

/// Fields and values of the pairs, alternating.
fn flatten_pairs(pairs: &Vec<(String, String)>) -> (r: Vec<Option<String>>)
    ensures
        opt_views(r@) == flatten(text_pairs(pairs@)),
{
    let mut r: Vec<Option<String>> = Vec::new();
    let mut i: usize = 0;
    while i < pairs.len()
        invariant
            i <= pairs@.len(),
            r@.len() == 2 * i,
            forall|j: int| 0 <= j < 2 * i ==> opt_view(#[trigger] r@[j]) == flatten(text_pairs(pairs@))[j],
        decreases pairs@.len() - i,
    {
        r.push(Some(pairs[i].0.clone()));
        r.push(Some(pairs[i].1.clone()));
        i = i + 1;
    }
    assert(opt_views(r@) =~= flatten(text_pairs(pairs@)));
    r
}

impl context {
    pub open spec fn wf(&self) -> bool {
        self.DataBase.wf()
    }

    pub fn new() -> (r: context)
        ensures
            r.wf(),
            r@ == Seq::<(Seq<char>, (ValueView, Option<u64>))>::empty(),
    {
        context { DataBase: DictStore::new() }
    }

    pub fn get(&mut self, key: &String, now: u64) -> (r: Reply)
        requires
            old(self).wf(),
        ensures
            final(self).wf(),
            (final(self)@, r@) == do_get(old(self)@, key@, now),
    {
        match self.DataBase.find_live(key.as_str(), now) {
            None => Reply::Bulk(None),
            Some(i) => {
                proof {
                    lemma_found(old(self)@, self@, key@, now, i as int);
                }
                match self.DataBase.value_at(i) {
                    Value::Str(s) => Reply::Bulk(Some(s.get_value().clone())),
                    _ => wrongtype_reply(),
                }
            },
        }
    }

    pub fn set(&mut self, key: &String, value: &String, ttl: Option<u64>, now: u64) -> (r: Reply)
        requires
            old(self).wf(),
        ensures
            final(self).wf(),
            (final(self)@, r@) == do_set(old(self)@, key@, value@, ttl, now),
    {
        let deadline = match ttl {
            Some(secs) => Some(deadline_after(now, secs)),
            None => None,
        };
        self.DataBase.insert(key.clone(), Value::Str(StringStore::new(value.clone())), deadline);
        ok_reply()
    }

    pub fn del(&mut self, keys: &Vec<String>, now: u64) -> (r: Reply)
        requires
            old(self).wf(),
        ensures
            final(self).wf(),
            (final(self)@, r@) == ({
                let (d, n) = del_keys(old(self)@, texts(keys@), now);
                (d, int_reply(n))
            }),
    {
        let mut n: usize = 0;
        let mut i: usize = 0;
        while i < keys.len()
            invariant
                self.wf(),
                i <= keys@.len(),
                n <= i,
                (self@, n as int) == del_keys(old(self)@, texts(keys@).subrange(0, i as int), now),
            decreases keys@.len() - i,
        {
            assert(texts(keys@).subrange(0, i + 1).drop_last() =~= texts(keys@).subrange(0, i as int));
            let ghost before = self@;
            let found = self.DataBase.find_live(keys[i].as_str(), now);
            if found.is_some() {
                self.DataBase.remove(keys[i].as_str());
                n = n + 1;
            }
            i = i + 1;
        }
        assert(texts(keys@).subrange(0, i as int) =~= texts(keys@));
        count_reply(n)
    }

    pub fn count_keys(&mut self, keys: &Vec<String>, now: u64) -> (r: Reply)
        requires
            old(self).wf(),
        ensures
            final(self).wf(),
            (final(self)@, r@) == ({
                let (d, n) = count_existing(old(self)@, texts(keys@), now);
                (d, int_reply(n))
            }),
    {
        let mut n: usize = 0;
        let mut i: usize = 0;
        while i < keys.len()
            invariant
                self.wf(),
                i <= keys@.len(),
                n <= i,
                (self@, n as int) == count_existing(old(self)@, texts(keys@).subrange(0, i as int), now),
            decreases keys@.len() - i,
        {
            assert(texts(keys@).subrange(0, i + 1).drop_last() =~= texts(keys@).subrange(0, i as int));
            let found = self.DataBase.find_live(keys[i].as_str(), now);
            if found.is_some() {
                n = n + 1;
            }
            i = i + 1;
        }
        assert(texts(keys@).subrange(0, i as int) =~= texts(keys@));
        count_reply(n)
    }

    pub fn expire(&mut self, key: &String, seconds: u64, now: u64) -> (r: Reply)
        requires
            old(self).wf(),
        ensures
            final(self).wf(),
            (final(self)@, r@) == do_expire(old(self)@, key@, seconds, now),
    {
        match self.DataBase.find_live(key.as_str(), now) {
            None => count_reply(0),
            Some(i) => {
                proof {
                    lemma_found(old(self)@, self@, key@, now, i as int);
                }
                self.DataBase.set_deadline_at(i, Some(deadline_after(now, seconds)));
                count_reply(1)
            },
        }
    }

    /// Adds `delta` to the integer in the string of `key`.
    pub fn incr_by(&mut self, key: &String, delta: i128, now: u64) -> (r: Reply)
        requires
            old(self).wf(),
            -18446744073709551616 <= delta <= 18446744073709551616,
        ensures
            final(self).wf(),
            (final(self)@, r@) == do_incr_by(old(self)@, key@, delta as int, now),
    {
        let (base, deadline): (i64, Option<u64>) = match self.DataBase.find_live(key.as_str(), now) {
            None => (0, None),
            Some(i) => {
                proof {
                    lemma_found(old(self)@, self@, key@, now, i as int);
                }
                match self.DataBase.value_at(i) {
                    Value::Str(s) => match parse_i64(s.get_value().as_str()) {
                        Some(v) => (v, self.DataBase.deadline_at(i)),
                        None => {
                            return Reply::Error(String::from_str("ERR value is not an integer or out of range"));
                        },
                    },
                    _ => {
                        return wrongtype_reply();
                    },
                }
            },
        };
        let n: i128 = base as i128 + delta;
        if n < i64::MIN as i128 || n > i64::MAX as i128 {
            return Reply::Error(String::from_str("ERR value is not an integer or out of range"));
        }
        self.DataBase.insert(key.clone(), Value::Str(StringStore::new(int_string(n))), deadline);
        Reply::Integer(n)
    }

    pub fn append(&mut self, key: &String, value: &String, now: u64) -> (r: Reply)
        requires
            old(self).wf(),
        ensures
            final(self).wf(),
            (final(self)@, r@) == do_append(old(self)@, key@, value@, now),
    {
        let (text, deadline): (String, Option<u64>) = match self.DataBase.find_live(key.as_str(), now) {
            None => (value.clone(), None),
            Some(i) => {
                proof {
                    lemma_found(old(self)@, self@, key@, now, i as int);
                }
                match self.DataBase.value_at(i) {
                    Value::Str(s) => {
                        let mut t = s.get_value().clone();
                        t.append(value.as_str());
                        (t, self.DataBase.deadline_at(i))
                    },
                    _ => {
                        return wrongtype_reply();
                    },
                }
            },
        };
        let n = text.as_str().as_bytes().len();
        self.DataBase.insert(key.clone(), Value::Str(StringStore::new(text)), deadline);
        count_reply(n)
    }

    pub fn strlen(&mut self, key: &String, now: u64) -> (r: Reply)
        requires
            old(self).wf(),
        ensures
            final(self).wf(),
            (final(self)@, r@) == do_strlen(old(self)@, key@, now),
    {
        match self.DataBase.find_live(key.as_str(), now) {
            None => count_reply(0),
            Some(i) => {
                proof {
                    lemma_found(old(self)@, self@, key@, now, i as int);
                }
                match self.DataBase.value_at(i) {
                    Value::Str(s) => count_reply(s.get_value().as_str().as_bytes().len()),
                    _ => wrongtype_reply(),
                }
            },
        }
    }

    pub fn mget(&mut self, keys: &Vec<String>, now: u64) -> (r: Reply)
        requires
            old(self).wf(),
        ensures
            final(self).wf(),
            (final(self)@, r@) == ({
                let (d, items) = get_many(old(self)@, texts(keys@), now);
                (d, ReplyView::Array(items))
            }),
    {
        let mut items: Vec<Option<String>> = Vec::new();
        let mut i: usize = 0;
        while i < keys.len()
            invariant
                self.wf(),
                i <= keys@.len(),
                (self@, opt_views(items@)) == get_many(old(self)@, texts(keys@).subrange(0, i as int), now),
            decreases keys@.len() - i,
        {
            assert(texts(keys@).subrange(0, i + 1).drop_last() =~= texts(keys@).subrange(0, i as int));
            let ghost before = self@;
            let ghost items_before = items@;
            let item = match self.DataBase.find_live(keys[i].as_str(), now) {
                None => None,
                Some(j) => {
                    proof {
                        lemma_found(before, self@, keys@[i as int]@, now, j as int);
                    }
                    match self.DataBase.value_at(j) {
                        Value::Str(s) => Some(s.get_value().clone()),
                        _ => None,
                    }
                },
            };
            items.push(item);
            assert(opt_views(items@) =~= opt_views(items_before).push(opt_view(item)));
            i = i + 1;
        }
        assert(texts(keys@).subrange(0, i as int) =~= texts(keys@));
        Reply::Array(items)
    }

    pub fn mset(&mut self, pairs: &Vec<(String, String)>) -> (r: Reply)
        requires
            old(self).wf(),
        ensures
            final(self).wf(),
            final(self)@ == set_many(old(self)@, text_pairs(pairs@)),
            r@ == ok(),
    {
        let mut i: usize = 0;
        while i < pairs.len()
            invariant
                self.wf(),
                i <= pairs@.len(),
                self@ == set_many(old(self)@, text_pairs(pairs@).subrange(0, i as int)),
            decreases pairs@.len() - i,
        {
            assert(text_pairs(pairs@).subrange(0, i + 1).drop_last() =~= text_pairs(pairs@).subrange(0, i as int));
            self.DataBase.insert(pairs[i].0.clone(), Value::Str(StringStore::new(pairs[i].1.clone())), None);
            i = i + 1;
        }
        assert(text_pairs(pairs@).subrange(0, i as int) =~= text_pairs(pairs@));
        ok_reply()
    }

    /// Live keys matching the glob `pattern`, in keyspace order.
    pub fn keys(&self, pattern: &String, now: u64) -> (r: Reply)
        ensures
            r@ == ReplyView::Array(somes(matching_keys(self@, pattern@, now))),
    {
        let mut out: Vec<String> = Vec::new();
        let mut i: usize = 0;
        while i < self.DataBase.len()
            invariant
                i <= self@.len(),
                texts(out@) == matching_keys(self@.subrange(0, i as int), pattern@, now),
            decreases self@.len() - i,
        {
            assert(self@.subrange(0, i + 1).drop_last() =~= self@.subrange(0, i as int));
            let live = match self.DataBase.deadline_at(i) {
                None => true,
                Some(t) => now < t,
            };
            if live && glob_matches(pattern.as_str(), self.DataBase.key_at(i).as_str()) {
                let ghost before = out@;
                out.push(self.DataBase.key_at(i).clone());
                assert(texts(out@) =~= texts(before).push(self@[i as int].0));
            }
            i = i + 1;
        }
        assert(self@.subrange(0, i as int) =~= self@);
        Reply::Array(somes_of(out))
    }

    /// Number of live keys.
    pub fn dbsize(&self, now: u64) -> (r: Reply)
        ensures
            r@ == int_reply(live_count(self@, now)),
    {
        let mut n: usize = 0;
        let mut i: usize = 0;
        while i < self.DataBase.len()
            invariant
                i <= self@.len(),
                n <= i,
                n as int == live_count(self@.subrange(0, i as int), now),
            decreases self@.len() - i,
        {
            assert(self@.subrange(0, i + 1).drop_last() =~= self@.subrange(0, i as int));
            let live = match self.DataBase.deadline_at(i) {
                None => true,
                Some(t) => now < t,
            };
            if live {
                n = n + 1;
            }
            i = i + 1;
        }
        assert(self@.subrange(0, i as int) =~= self@);
        count_reply(n)
    }

    pub fn key_type(&mut self, key: &String, now: u64) -> (r: Reply)
        requires
            old(self).wf(),
        ensures
            final(self).wf(),
            (final(self)@, r@) == do_type(old(self)@, key@, now),
    {
        match self.DataBase.find_live(key.as_str(), now) {
            None => Reply::Status(String::from_str("none")),
            Some(i) => {
                proof {
                    lemma_found(old(self)@, self@, key@, now, i as int);
                }
                let name = match self.DataBase.value_at(i) {
                    Value::Str(_) => String::from_str("string"),
                    Value::Hash(_) => String::from_str("hash"),
                    Value::List(_) => String::from_str("list"),
                    Value::Members(_) => String::from_str("set"),
                    Value::ZSet(_) => String::from_str("zset"),
                };
                Reply::Status(name)
            },
        }
    }

    pub fn ttl(&mut self, key: &String, now: u64) -> (r: Reply)
        requires
            old(self).wf(),
        ensures
            final(self).wf(),
            (final(self)@, r@) == do_ttl(old(self)@, key@, now),
    {
        match self.DataBase.find_live(key.as_str(), now) {
            None => Reply::Integer(-2),
            Some(i) => {
                proof {
                    lemma_found(old(self)@, self@, key@, now, i as int);
                }
                match self.DataBase.deadline_at(i) {
                    None => Reply::Integer(-1),
                    Some(t) => Reply::Integer(((t - now) as i128 + 999) / 1000),
                }
            },
        }
    }

    pub fn persist(&mut self, key: &String, now: u64) -> (r: Reply)
        requires
            old(self).wf(),
        ensures
            final(self).wf(),
            (final(self)@, r@) == do_persist(old(self)@, key@, now),
    {
        match self.DataBase.find_live(key.as_str(), now) {
            None => count_reply(0),
            Some(i) => {
                proof {
                    lemma_found(old(self)@, self@, key@, now, i as int);
                }
                match self.DataBase.deadline_at(i) {
                    None => count_reply(0),
                    Some(_) => {
                        self.DataBase.set_deadline_at(i, None);
                        count_reply(1)
                    },
                }
            },
        }
    }

    pub fn rename(&mut self, key: &String, newkey: &String, now: u64) -> (r: Reply)
        requires
            old(self).wf(),
        ensures
            final(self).wf(),
            (final(self)@, r@) == do_rename(old(self)@, key@, newkey@, now),
    {
        if self.DataBase.find_live(key.as_str(), now).is_none() {
            return Reply::Error(String::from_str("ERR no such key"));
        }
        match self.DataBase.take(key.as_str()) {
            Some(e) => {
                self.DataBase.insert(newkey.clone(), e.value, e.deadline);
                ok_reply()
            },
            None => Reply::Error(String::from_str("ERR no such key")),
        }
    }

    pub fn hset(&mut self, key: &String, fields: &Vec<(String, String)>, now: u64) -> (r: Reply)
        requires
            old(self).wf(),
        ensures
            final(self).wf(),
            (final(self)@, r@) == do_hset(old(self)@, key@, text_pairs(fields@), now),
    {
        match self.DataBase.find_live(key.as_str(), now) {
            None => {
                let mut h = HashStore::new();
                let n = hset_into(&mut h, fields);
                self.DataBase.insert(key.clone(), Value::Hash(h), None);
                count_reply(n)
            },
            Some(i) => {
                proof {
                    lemma_found(old(self)@, self@, key@, now, i as int);
                }
                let ghost d = self@;
                match self.DataBase.replace_value(i, placeholder()) {
                    Value::Hash(mut h) => {
                        let n = hset_into(&mut h, fields);
                        self.DataBase.replace_value(i, Value::Hash(h));
                        count_reply(n)
                    },
                    other => {
                        self.DataBase.replace_value(i, other);
                        assert(self@ =~= d);
                        wrongtype_reply()
                    },
                }
            },
        }
    }

    pub fn hdel(&mut self, key: &String, fields: &Vec<String>, now: u64) -> (r: Reply)
        requires
            old(self).wf(),
        ensures
            final(self).wf(),
            (final(self)@, r@) == do_hdel(old(self)@, key@, texts(fields@), now),
    {
        match self.DataBase.find_live(key.as_str(), now) {
            None => count_reply(0),
            Some(i) => {
                proof {
                    lemma_found(old(self)@, self@, key@, now, i as int);
                }
                let ghost d = self@;
                match self.DataBase.replace_value(i, placeholder()) {
                    Value::Hash(mut h) => {
                        let n = hdel_from(&mut h, fields);
                        self.DataBase.replace_value(i, Value::Hash(h));
                        count_reply(n)
                    },
                    other => {
                        self.DataBase.replace_value(i, other);
                        assert(self@ =~= d);
                        wrongtype_reply()
                    },
                }
            },
        }
    }

    pub fn push(&mut self, key: &String, values: &Vec<String>, left: bool, now: u64) -> (r: Reply)
        requires
            old(self).wf(),
        ensures
            final(self).wf(),
            (final(self)@, r@) == do_push(old(self)@, key@, texts(values@), left, now),
    {
        match self.DataBase.find_live(key.as_str(), now) {
            None => {
                let mut l = VectorStore::new();
                push_all(&mut l, values, left);
                let n = l.len();
                proof {
                    assert(texts(values@) + Seq::<Seq<char>>::empty() =~= texts(values@));
                    assert(Seq::<Seq<char>>::empty() + texts(values@) =~= texts(values@));
                }
                self.DataBase.insert(key.clone(), Value::List(l), None);
                count_reply(n)
            },
            Some(i) => {
                proof {
                    lemma_found(old(self)@, self@, key@, now, i as int);
                }
                let ghost d = self@;
                match self.DataBase.replace_value(i, placeholder()) {
                    Value::List(mut l) => {
                        push_all(&mut l, values, left);
                        let n = l.len();
                        self.DataBase.replace_value(i, Value::List(l));
                        count_reply(n)
                    },
                    other => {
                        self.DataBase.replace_value(i, other);
                        assert(self@ =~= d);
                        wrongtype_reply()
                    },
                }
            },
        }
    }

    pub fn pop(&mut self, key: &String, left: bool, now: u64) -> (r: Reply)
        requires
            old(self).wf(),
        ensures
            final(self).wf(),
            (final(self)@, r@) == do_pop(old(self)@, key@, left, now),
    {
        match self.DataBase.find_live(key.as_str(), now) {
            None => Reply::Bulk(None),
            Some(i) => {
                proof {
                    lemma_found(old(self)@, self@, key@, now, i as int);
                }
                let ghost d = self@;
                match self.DataBase.replace_value(i, placeholder()) {
                    Value::List(mut l) => {
                        if l.len() == 0 {
                            self.DataBase.replace_value(i, Value::List(l));
                            assert(self@ =~= d);
                            return Reply::Bulk(None);
                        }
                        let item = if left { l.pop_left() } else { l.pop_right() };
                        self.DataBase.replace_value(i, Value::List(l));
                        Reply::Bulk(item)
                    },
                    other => {
                        self.DataBase.replace_value(i, other);
                        assert(self@ =~= d);
                        wrongtype_reply()
                    },
                }
            },
        }
    }

    pub fn sadd(&mut self, key: &String, members: &Vec<String>, now: u64) -> (r: Reply)
        requires
            old(self).wf(),
        ensures
            final(self).wf(),
            (final(self)@, r@) == do_sadd(old(self)@, key@, texts(members@), now),
    {
        match self.DataBase.find_live(key.as_str(), now) {
            None => {
                let mut s = SetStore::new();
                let n = sadd_into(&mut s, members);
                self.DataBase.insert(key.clone(), Value::Members(s), None);
                count_reply(n)
            },
            Some(i) => {
                proof {
                    lemma_found(old(self)@, self@, key@, now, i as int);
                }
                let ghost d = self@;
                match self.DataBase.replace_value(i, placeholder()) {
                    Value::Members(mut s) => {
                        let n = sadd_into(&mut s, members);
                        self.DataBase.replace_value(i, Value::Members(s));
                        count_reply(n)
                    },
                    other => {
                        self.DataBase.replace_value(i, other);
                        assert(self@ =~= d);
                        wrongtype_reply()
                    },
                }
            },
        }
    }

    pub fn srem(&mut self, key: &String, members: &Vec<String>, now: u64) -> (r: Reply)
        requires
            old(self).wf(),
        ensures
            final(self).wf(),
            (final(self)@, r@) == do_srem(old(self)@, key@, texts(members@), now),
    {
        match self.DataBase.find_live(key.as_str(), now) {
            None => count_reply(0),
            Some(i) => {
                proof {
                    lemma_found(old(self)@, self@, key@, now, i as int);
                }
                let ghost d = self@;
                match self.DataBase.replace_value(i, placeholder()) {
                    Value::Members(mut s) => {
                        let n = srem_from(&mut s, members);
                        self.DataBase.replace_value(i, Value::Members(s));
                        count_reply(n)
                    },
                    other => {
                        self.DataBase.replace_value(i, other);
                        assert(self@ =~= d);
                        wrongtype_reply()
                    },
                }
            },
        }
    }

    pub fn zadd(&mut self, key: &String, entries: &Vec<(i64, String)>, now: u64) -> (r: Reply)
        requires
            old(self).wf(),
        ensures
            final(self).wf(),
            (final(self)@, r@) == do_zadd(old(self)@, key@, scored_members(entries@), now),
    {
        match self.DataBase.find_live(key.as_str(), now) {
            None => {
                let mut z = SortedSetStore::new();
                let n = zadd_into(&mut z, entries);
                self.DataBase.insert(key.clone(), Value::ZSet(z), None);
                count_reply(n)
            },
            Some(i) => {
                proof {
                    lemma_found(old(self)@, self@, key@, now, i as int);
                }
                let ghost d = self@;
                match self.DataBase.replace_value(i, placeholder()) {
                    Value::ZSet(mut z) => {
                        let n = zadd_into(&mut z, entries);
                        self.DataBase.replace_value(i, Value::ZSet(z));
                        count_reply(n)
                    },
                    other => {
                        self.DataBase.replace_value(i, other);
                        assert(self@ =~= d);
                        wrongtype_reply()
                    },
                }
            },
        }
    }

    pub fn zrem(&mut self, key: &String, members: &Vec<String>, now: u64) -> (r: Reply)
        requires
            old(self).wf(),
        ensures
            final(self).wf(),
            (final(self)@, r@) == do_zrem(old(self)@, key@, texts(members@), now),
    {
        match self.DataBase.find_live(key.as_str(), now) {
            None => count_reply(0),
            Some(i) => {
                proof {
                    lemma_found(old(self)@, self@, key@, now, i as int);
                }
                let ghost d = self@;
                match self.DataBase.replace_value(i, placeholder()) {
                    Value::ZSet(mut z) => {
                        let n = zrem_from(&mut z, members);
                        self.DataBase.replace_value(i, Value::ZSet(z));
                        count_reply(n)
                    },
                    other => {
                        self.DataBase.replace_value(i, other);
                        assert(self@ =~= d);
                        wrongtype_reply()
                    },
                }
            },
        }
    }

    pub fn hget(&mut self, key: &String, field: &String, now: u64) -> (r: Reply)
        requires
            old(self).wf(),
        ensures
            final(self).wf(),
            (final(self)@, r@) == read_hash(old(self)@, key@, now, ReplyView::Bulk(None), (|h: Seq<(Seq<char>, Seq<char>)>| ReplyView::Bulk(lookup(h, field@)))),
    {
        match self.DataBase.find_live(key.as_str(), now) {
            None => Reply::Bulk(None),
            Some(i) => {
                proof {
                    lemma_found(old(self)@, self@, key@, now, i as int);
                }
                match self.DataBase.value_at(i) {
                    Value::Hash(h) => Reply::Bulk(clone_opt(h.get_field(field.as_str()))),
                    _ => wrongtype_reply(),
                }
            },
        }
    }

    pub fn hgetall(&mut self, key: &String, now: u64) -> (r: Reply)
        requires
            old(self).wf(),
        ensures
            final(self).wf(),
            (final(self)@, r@) == read_hash(old(self)@, key@, now, ReplyView::Array(Seq::empty()), (|h: Seq<(Seq<char>, Seq<char>)>| ReplyView::Array(flatten(h)))),
    {
        match self.DataBase.find_live(key.as_str(), now) {
            None => empty_array(),
            Some(i) => {
                proof {
                    lemma_found(old(self)@, self@, key@, now, i as int);
                }
                match self.DataBase.value_at(i) {
                    Value::Hash(h) => {
                        let all = h.get_all_fields();
                        assert(text_pairs(all@) =~= h@);
                        Reply::Array(flatten_pairs(&all))
                    },
                    _ => wrongtype_reply(),
                }
            },
        }
    }

    pub fn hexists(&mut self, key: &String, field: &String, now: u64) -> (r: Reply)
        requires
            old(self).wf(),
        ensures
            final(self).wf(),
            (final(self)@, r@) == read_hash(old(self)@, key@, now, int_reply(0), (|h: Seq<(Seq<char>, Seq<char>)>| int_reply(flag(has_key(h, field@))))),
    {
        match self.DataBase.find_live(key.as_str(), now) {
            None => count_reply(0),
            Some(i) => {
                proof {
                    lemma_found(old(self)@, self@, key@, now, i as int);
                }
                match self.DataBase.value_at(i) {
                    Value::Hash(h) => count_reply(if h.exists_field(field.as_str()) { 1 } else { 0 }),
                    _ => wrongtype_reply(),
                }
            },
        }
    }

    pub fn hlen(&mut self, key: &String, now: u64) -> (r: Reply)
        requires
            old(self).wf(),
        ensures
            final(self).wf(),
            (final(self)@, r@) == read_hash(old(self)@, key@, now, int_reply(0), (|h: Seq<(Seq<char>, Seq<char>)>| int_reply(h.len() as int))),
    {
        match self.DataBase.find_live(key.as_str(), now) {
            None => count_reply(0),
            Some(i) => {
                proof {
                    lemma_found(old(self)@, self@, key@, now, i as int);
                }
                match self.DataBase.value_at(i) {
                    Value::Hash(h) => count_reply(h.len()),
                    _ => wrongtype_reply(),
                }
            },
        }
    }

    pub fn hkeys(&mut self, key: &String, now: u64) -> (r: Reply)
        requires
            old(self).wf(),
        ensures
            final(self).wf(),
            (final(self)@, r@) == read_hash(old(self)@, key@, now, ReplyView::Array(Seq::empty()), (|h: Seq<(Seq<char>, Seq<char>)>| ReplyView::Array(somes(keys_of(h))))),
    {
        match self.DataBase.find_live(key.as_str(), now) {
            None => empty_array(),
            Some(i) => {
                proof {
                    lemma_found(old(self)@, self@, key@, now, i as int);
                }
                match self.DataBase.value_at(i) {
                    Value::Hash(h) => Reply::Array(somes_of(h.get_keys())),
                    _ => wrongtype_reply(),
                }
            },
        }
    }

    pub fn hvals(&mut self, key: &String, now: u64) -> (r: Reply)
        requires
            old(self).wf(),
        ensures
            final(self).wf(),
            (final(self)@, r@) == read_hash(old(self)@, key@, now, ReplyView::Array(Seq::empty()), (|h: Seq<(Seq<char>, Seq<char>)>| ReplyView::Array(somes(values_of(h))))),
    {
        match self.DataBase.find_live(key.as_str(), now) {
            None => empty_array(),
            Some(i) => {
                proof {
                    lemma_found(old(self)@, self@, key@, now, i as int);
                }
                match self.DataBase.value_at(i) {
                    Value::Hash(h) => Reply::Array(somes_of(h.get_values())),
                    _ => wrongtype_reply(),
                }
            },
        }
    }

    pub fn lrange(&mut self, key: &String, start: isize, stop: isize, now: u64) -> (r: Reply)
        requires
            old(self).wf(),
        ensures
            final(self).wf(),
            (final(self)@, r@) == read_list(old(self)@, key@, now, ReplyView::Array(Seq::empty()), (|l: Seq<Seq<char>>| ReplyView::Array(somes(inclusive_range(l, start as int, stop as int))))),
    {
        match self.DataBase.find_live(key.as_str(), now) {
            None => empty_array(),
            Some(i) => {
                proof {
                    lemma_found(old(self)@, self@, key@, now, i as int);
                }
                match self.DataBase.value_at(i) {
                    Value::List(l) => Reply::Array(somes_of(l.get_range(start, stop))),
                    _ => wrongtype_reply(),
                }
            },
        }
    }

    pub fn llen(&mut self, key: &String, now: u64) -> (r: Reply)
        requires
            old(self).wf(),
        ensures
            final(self).wf(),
            (final(self)@, r@) == read_list(old(self)@, key@, now, int_reply(0), (|l: Seq<Seq<char>>| int_reply(l.len() as int))),
    {
        match self.DataBase.find_live(key.as_str(), now) {
            None => count_reply(0),
            Some(i) => {
                proof {
                    lemma_found(old(self)@, self@, key@, now, i as int);
                }
                match self.DataBase.value_at(i) {
                    Value::List(l) => count_reply(l.len()),
                    _ => wrongtype_reply(),
                }
            },
        }
    }

    pub fn lindex(&mut self, key: &String, index: isize, now: u64) -> (r: Reply)
        requires
            old(self).wf(),
        ensures
            final(self).wf(),
            (final(self)@, r@) == read_list(old(self)@, key@, now, ReplyView::Bulk(None), (|l: Seq<Seq<char>>| ReplyView::Bulk(element_at(l, index as int)))),
    {
        match self.DataBase.find_live(key.as_str(), now) {
            None => Reply::Bulk(None),
            Some(i) => {
                proof {
                    lemma_found(old(self)@, self@, key@, now, i as int);
                }
                match self.DataBase.value_at(i) {
                    Value::List(l) => Reply::Bulk(clone_opt(l.get_index(index))),
                    _ => wrongtype_reply(),
                }
            },
        }
    }

    pub fn smembers(&mut self, key: &String, now: u64) -> (r: Reply)
        requires
            old(self).wf(),
        ensures
            final(self).wf(),
            (final(self)@, r@) == read_set(old(self)@, key@, now, ReplyView::Array(Seq::empty()), (|s: Seq<Seq<char>>| ReplyView::Array(somes(s)))),
    {
        match self.DataBase.find_live(key.as_str(), now) {
            None => empty_array(),
            Some(i) => {
                proof {
                    lemma_found(old(self)@, self@, key@, now, i as int);
                }
                match self.DataBase.value_at(i) {
                    Value::Members(s) => Reply::Array(somes_of(s.get_members())),
                    _ => wrongtype_reply(),
                }
            },
        }
    }

    pub fn sismember(&mut self, key: &String, member: &String, now: u64) -> (r: Reply)
        requires
            old(self).wf(),
        ensures
            final(self).wf(),
            (final(self)@, r@) == read_set(old(self)@, key@, now, int_reply(0), (|s: Seq<Seq<char>>| int_reply(flag(s.contains(member@))))),
    {
        match self.DataBase.find_live(key.as_str(), now) {
            None => count_reply(0),
            Some(i) => {
                proof {
                    lemma_found(old(self)@, self@, key@, now, i as int);
                }
                match self.DataBase.value_at(i) {
                    Value::Members(s) => count_reply(if s.is_member(member.as_str()) { 1 } else { 0 }),
                    _ => wrongtype_reply(),
                }
            },
        }
    }

    pub fn scard(&mut self, key: &String, now: u64) -> (r: Reply)
        requires
            old(self).wf(),
        ensures
            final(self).wf(),
            (final(self)@, r@) == read_set(old(self)@, key@, now, int_reply(0), (|s: Seq<Seq<char>>| int_reply(s.len() as int))),
    {
        match self.DataBase.find_live(key.as_str(), now) {
            None => count_reply(0),
            Some(i) => {
                proof {
                    lemma_found(old(self)@, self@, key@, now, i as int);
                }
                match self.DataBase.value_at(i) {
                    Value::Members(s) => count_reply(s.len()),
                    _ => wrongtype_reply(),
                }
            },
        }
    }

    pub fn zrange(&mut self, key: &String, start: isize, stop: isize, now: u64) -> (r: Reply)
        requires
            old(self).wf(),
        ensures
            final(self).wf(),
            (final(self)@, r@) == read_zset(old(self)@, key@, now, ReplyView::Array(Seq::empty()), (|z: Seq<(Seq<char>, i64)>| ReplyView::Array(somes(members_of(inclusive_range(z, start as int, stop as int)))))),
    {
        match self.DataBase.find_live(key.as_str(), now) {
            None => empty_array(),
            Some(i) => {
                proof {
                    lemma_found(old(self)@, self@, key@, now, i as int);
                }
                match self.DataBase.value_at(i) {
                    Value::ZSet(z) => Reply::Array(somes_of(z.get_range(start, stop))),
                    _ => wrongtype_reply(),
                }
            },
        }
    }

    pub fn zcard(&mut self, key: &String, now: u64) -> (r: Reply)
        requires
            old(self).wf(),
        ensures
            final(self).wf(),
            (final(self)@, r@) == read_zset(old(self)@, key@, now, int_reply(0), (|z: Seq<(Seq<char>, i64)>| int_reply(z.len() as int))),
    {
        match self.DataBase.find_live(key.as_str(), now) {
            None => count_reply(0),
            Some(i) => {
                proof {
                    lemma_found(old(self)@, self@, key@, now, i as int);
                }
                match self.DataBase.value_at(i) {
                    Value::ZSet(z) => count_reply(z.len()),
                    _ => wrongtype_reply(),
                }
            },
        }
    }

    pub fn zrank(&mut self, key: &String, member: &String, now: u64) -> (r: Reply)
        requires
            old(self).wf(),
        ensures
            final(self).wf(),
            (final(self)@, r@) == read_zset(old(self)@, key@, now, ReplyView::Bulk(None), (|z: Seq<(Seq<char>, i64)>| zrank_reply(z, member@))),
    {
        match self.DataBase.find_live(key.as_str(), now) {
            None => Reply::Bulk(None),
            Some(i) => {
                proof {
                    lemma_found(old(self)@, self@, key@, now, i as int);
                }
                match self.DataBase.value_at(i) {
                    Value::ZSet(z) => match z.get_rank(member.as_str()) {
                        Some(k) => count_reply(k),
                        None => Reply::Bulk(None),
                    },
                    _ => wrongtype_reply(),
                }
            },
        }
    }

    pub fn zscore(&mut self, key: &String, member: &String, now: u64) -> (r: Reply)
        requires
            old(self).wf(),
        ensures
            final(self).wf(),
            (final(self)@, r@) == read_zset(old(self)@, key@, now, ReplyView::Bulk(None), (|z: Seq<(Seq<char>, i64)>| zscore_reply(z, member@))),
    {
        match self.DataBase.find_live(key.as_str(), now) {
            None => Reply::Bulk(None),
            Some(i) => {
                proof {
                    lemma_found(old(self)@, self@, key@, now, i as int);
                }
                match self.DataBase.value_at(i) {
                    Value::ZSet(z) => match z.get_score(member.as_str()) {
                        Some(v) => Reply::Bulk(Some(format_score(v))),
                        None => Reply::Bulk(None),
                    },
                    _ => wrongtype_reply(),
                }
            },
        }
    }
}

} // verus!
