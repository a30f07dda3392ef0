//! What each command does: a function from the keyspace before, the
//! command and the instant of the call to the keyspace after and the reply.
//!
//! Every access to a key first drops its entry if it has expired. Deadlines:
//! `SET` without an expiry clause and `MSET` store a value with none; `SET`
//! with `EX` and `EXPIRE` set one; `PERSIST` clears it; every other write
//! keeps the deadline the key had, and a key created by such a write has
//! none.
use vstd::prelude::*;
use vstd::utf8::encode_utf8;
use crate::assoc::{has_key, keys_of, lookup, put, remove_key, values_of};
use crate::command::{scored_members, text_pairs, texts, Command};
use crate::keyspace::{is_live, purge, DbView, EntryView, ValueView};
use crate::range::{element_at, inclusive_range};
use crate::reply::ReplyView;
use crate::score::score_text;
use crate::set_store::{with_member, without_member};
use crate::sorted_set_store::{members_of, zset_put};
use crate::text::{glob, int_text, parsed_i64};

verus! {

pub open spec fn ok() -> ReplyView {
    ReplyView::Status("OK"@)
}

pub open spec fn wrongtype() -> ReplyView {
    ReplyView::Error("WRONGTYPE Operation against a key holding the wrong kind of value"@)
}

pub open spec fn not_integer() -> ReplyView {
    ReplyView::Error("ERR value is not an integer or out of range"@)
}

pub open spec fn no_such_key() -> ReplyView {
    ReplyView::Error("ERR no such key"@)
}

pub open spec fn unknown_command() -> ReplyView {
    ReplyView::Error("ERR unknown command"@)
}

pub open spec fn int_reply(n: int) -> ReplyView {
    ReplyView::Integer(n)
}

pub open spec fn flag(b: bool) -> int {
    if b { 1 } else { 0 }
}

/// Byte length of a text.
pub open spec fn byte_len(s: Seq<char>) -> int {
    encode_utf8(s).len() as int
}

pub open spec fn somes(s: Seq<Seq<char>>) -> Seq<Option<Seq<char>>> {
    s.map_values(|x: Seq<char>| Some(x))
}

/// Milliseconds after `now` by `secs` seconds, saturating.
pub open spec fn after(now: u64, secs: u64) -> u64 {
    if now + secs * 1000 > u64::MAX { u64::MAX } else { (now + secs * 1000) as u64 }
}

/// Seconds left until `deadline`, rounded up.
pub open spec fn seconds_left(deadline: u64, now: u64) -> int {
    (deadline - now + 999) / 1000
}

/// The live entry of `k` at `now` (after the expired one is gone).
pub open spec fn current(db: DbView, k: Seq<char>, now: u64) -> Option<EntryView> {
    lookup(purge(db, k, now), k)
}

// ---- strings and keys ----

pub open spec fn do_get(db: DbView, k: Seq<char>, now: u64) -> (DbView, ReplyView) {
    let d = purge(db, k, now);
    match current(db, k, now) {
        None => (d, ReplyView::Bulk(None)),
        Some((ValueView::Str(s), _)) => (d, ReplyView::Bulk(Some(s))),
        Some(_) => (d, wrongtype()),
    }
}

pub open spec fn do_set(db: DbView, k: Seq<char>, v: Seq<char>, ttl: Option<u64>, now: u64) -> (DbView, ReplyView) {
    let deadline = match ttl {
        Some(secs) => Some(after(now, secs)),
        None => None,
    };
    (put(db, k, (ValueView::Str(v), deadline)), ok())
}

/// Deletes each key in turn; the number that existed.
pub open spec fn del_keys(db: DbView, ks: Seq<Seq<char>>, now: u64) -> (DbView, int)
    decreases ks.len(),
{
    if ks.len() == 0 {
        (db, 0)
    } else {
        let (d, n) = del_keys(db, ks.drop_last(), now);
        let k = ks.last();
        let d1 = purge(d, k, now);
        if has_key(d1, k) { (remove_key(d1, k), n + 1) } else { (d1, n) }
    }
}

/// Counts the keys that exist, each time a key is named.
pub open spec fn count_existing(db: DbView, ks: Seq<Seq<char>>, now: u64) -> (DbView, int)
    decreases ks.len(),
{
    if ks.len() == 0 {
        (db, 0)
    } else {
        let (d, n) = count_existing(db, ks.drop_last(), now);
        let k = ks.last();
        let d1 = purge(d, k, now);
        (d1, n + flag(has_key(d1, k)))
    }
}

pub open spec fn do_expire(db: DbView, k: Seq<char>, secs: u64, now: u64) -> (DbView, ReplyView) {
    let d = purge(db, k, now);
    match current(db, k, now) {
        None => (d, int_reply(0)),
        Some(e) => (put(d, k, (e.0, Some(after(now, secs)))), int_reply(1)),
    }
}

/// Adds `delta` to the integer that the string of `k` holds (0 when absent).
pub open spec fn do_incr_by(db: DbView, k: Seq<char>, delta: int, now: u64) -> (DbView, ReplyView) {
    let d = purge(db, k, now);
    let base: Option<(int, Option<u64>)> = match current(db, k, now) {
        None => Some((0, None)),
        Some((ValueView::Str(s), dl)) => match parsed_i64(s) {
            Some(v) => Some((v as int, dl)),
            None => None,
        },
        Some(_) => None,
    };
    match current(db, k, now) {
        Some((ValueView::Str(_), _)) | None => match base {
            None => (d, not_integer()),
            Some((v, dl)) => {
                let n = v + delta;
                if i64::MIN <= n <= i64::MAX {
                    (put(d, k, (ValueView::Str(int_text(n)), dl)), int_reply(n))
                } else {
                    (d, not_integer())
                }
            },
        },
        Some(_) => (d, wrongtype()),
    }
}

pub open spec fn do_append(db: DbView, k: Seq<char>, v: Seq<char>, now: u64) -> (DbView, ReplyView) {
    let d = purge(db, k, now);
    match current(db, k, now) {
        None => (put(d, k, (ValueView::Str(v), None)), int_reply(byte_len(v))),
        Some((ValueView::Str(s), dl)) => (put(d, k, (ValueView::Str(s + v), dl)), int_reply(byte_len(s + v))),
        Some(_) => (d, wrongtype()),
    }
}

pub open spec fn do_strlen(db: DbView, k: Seq<char>, now: u64) -> (DbView, ReplyView) {
    let d = purge(db, k, now);
    match current(db, k, now) {
        None => (d, int_reply(0)),
        Some((ValueView::Str(s), _)) => (d, int_reply(byte_len(s))),
        Some(_) => (d, wrongtype()),
    }
}

/// The string of each key in turn; none where it is absent or not a string.
pub open spec fn get_many(db: DbView, ks: Seq<Seq<char>>, now: u64) -> (DbView, Seq<Option<Seq<char>>>)
    decreases ks.len(),
{
    if ks.len() == 0 {
        (db, Seq::empty())
    } else {
        let (d, items) = get_many(db, ks.drop_last(), now);
        let k = ks.last();
        let item = match current(d, k, now) {
            Some((ValueView::Str(s), _)) => Some(s),
            _ => None,
        };
        (purge(d, k, now), items.push(item))
    }
}

/// Sets each pair in turn, as plain strings without deadline.
pub open spec fn set_many(db: DbView, ps: Seq<(Seq<char>, Seq<char>)>) -> DbView
    decreases ps.len(),
{
    if ps.len() == 0 {
        db
    } else {
        let d = set_many(db, ps.drop_last());
        put(d, ps.last().0, (ValueView::Str(ps.last().1), None))
    }
}

/// Keys live at `now` that match the pattern, in keyspace order.
pub open spec fn matching_keys(db: DbView, pattern: Seq<char>, now: u64) -> Seq<Seq<char>>
    decreases db.len(),
{
    if db.len() == 0 {
        Seq::empty()
    } else {
        let r = matching_keys(db.drop_last(), pattern, now);
        let e = db.last();
        if is_live(e.1.1, now) && glob(pattern, e.0) { r.push(e.0) } else { r }
    }
}

/// Number of entries live at `now`.
pub open spec fn live_count(db: DbView, now: u64) -> int
    decreases db.len(),
{
    if db.len() == 0 {
        0
    } else {
        live_count(db.drop_last(), now) + flag(is_live(db.last().1.1, now))
    }
}

pub open spec fn kind_name(v: ValueView) -> Seq<char> {
    match v {
        ValueView::Str(_) => "string"@,
        ValueView::Hash(_) => "hash"@,
        ValueView::List(_) => "list"@,
        ValueView::Members(_) => "set"@,
        ValueView::ZSet(_) => "zset"@,
    }
}

pub open spec fn do_type(db: DbView, k: Seq<char>, now: u64) -> (DbView, ReplyView) {
    let d = purge(db, k, now);
    match current(db, k, now) {
        None => (d, ReplyView::Status("none"@)),
        Some(e) => (d, ReplyView::Status(kind_name(e.0))),
    }
}

pub open spec fn do_ttl(db: DbView, k: Seq<char>, now: u64) -> (DbView, ReplyView) {
    let d = purge(db, k, now);
    match current(db, k, now) {
        None => (d, int_reply(-2)),
        Some((_, None)) => (d, int_reply(-1)),
        Some((_, Some(t))) => (d, int_reply(seconds_left(t, now))),
    }
}

pub open spec fn do_persist(db: DbView, k: Seq<char>, now: u64) -> (DbView, ReplyView) {
    let d = purge(db, k, now);
    match current(db, k, now) {
        Some((v, Some(_))) => (put(d, k, (v, None)), int_reply(1)),
        _ => (d, int_reply(0)),
    }
}

pub open spec fn do_rename(db: DbView, k: Seq<char>, nk: Seq<char>, now: u64) -> (DbView, ReplyView) {
    let d = purge(db, k, now);
    match current(db, k, now) {
        None => (d, no_such_key()),
        Some(e) => (put(remove_key(d, k), nk, e), ok()),
    }
}

// ---- hashes ----

/// Sets each field in turn; the number of fields that were new.
pub open spec fn hset_all(h: Seq<(Seq<char>, Seq<char>)>, ps: Seq<(Seq<char>, Seq<char>)>) -> (Seq<(Seq<char>, Seq<char>)>, int)
    decreases ps.len(),
{
    if ps.len() == 0 {
        (h, 0)
    } else {
        let (h1, n) = hset_all(h, ps.drop_last());
        let p = ps.last();
        (put(h1, p.0, p.1), n + flag(!has_key(h1, p.0)))
    }
}

/// Deletes each field in turn; the number that were there.
pub open spec fn hdel_all(h: Seq<(Seq<char>, Seq<char>)>, fs: Seq<Seq<char>>) -> (Seq<(Seq<char>, Seq<char>)>, int)
    decreases fs.len(),
{
    if fs.len() == 0 {
        (h, 0)
    } else {
        let (h1, n) = hdel_all(h, fs.drop_last());
        (remove_key(h1, fs.last()), n + flag(has_key(h1, fs.last())))
    }
}

/// Fields and values, alternating.
pub open spec fn flatten(h: Seq<(Seq<char>, Seq<char>)>) -> Seq<Option<Seq<char>>> {
    Seq::new(2 * h.len(), |i: int| Some(if i % 2 == 0 { h[i / 2].0 } else { h[i / 2].1 }))
}

pub open spec fn do_hset(db: DbView, k: Seq<char>, ps: Seq<(Seq<char>, Seq<char>)>, now: u64) -> (DbView, ReplyView) {
    let d = purge(db, k, now);
    match current(db, k, now) {
        None => {
            let (h, n) = hset_all(Seq::empty(), ps);
            (put(d, k, (ValueView::Hash(h), None)), int_reply(n))
        },
        Some((ValueView::Hash(h0), dl)) => {
            let (h, n) = hset_all(h0, ps);
            (put(d, k, (ValueView::Hash(h), dl)), int_reply(n))
        },
        Some(_) => (d, wrongtype()),
    }
}

pub open spec fn do_hdel(db: DbView, k: Seq<char>, fs: Seq<Seq<char>>, now: u64) -> (DbView, ReplyView) {
    let d = purge(db, k, now);
    match current(db, k, now) {
        None => (d, int_reply(0)),
        Some((ValueView::Hash(h0), dl)) => {
            let (h, n) = hdel_all(h0, fs);
            (put(d, k, (ValueView::Hash(h), dl)), int_reply(n))
        },
        Some(_) => (d, wrongtype()),
    }
}

/// A read of a hash: `absent` when there is none, `r` of it otherwise; the
/// reads of the other kinds follow the same shape.
pub open spec fn read_hash(db: DbView, k: Seq<char>, now: u64, absent: ReplyView, r: spec_fn(Seq<(Seq<char>, Seq<char>)>) -> ReplyView) -> (DbView, ReplyView) {
    let d = purge(db, k, now);
    match current(db, k, now) {
        None => (d, absent),
        Some((ValueView::Hash(h), _)) => (d, r(h)),
        Some(_) => (d, wrongtype()),
    }
}

// ---- lists ----

pub open spec fn do_push(db: DbView, k: Seq<char>, vs: Seq<Seq<char>>, left: bool, now: u64) -> (DbView, ReplyView) {
    let d = purge(db, k, now);
    let joined = |l: Seq<Seq<char>>| if left { vs + l } else { l + vs };
    match current(db, k, now) {
        None => (put(d, k, (ValueView::List(joined(Seq::empty())), None)), int_reply(vs.len() as int)),
        Some((ValueView::List(l), dl)) => (put(d, k, (ValueView::List(joined(l)), dl)), int_reply(joined(l).len() as int)),
        Some(_) => (d, wrongtype()),
    }
}

pub open spec fn do_pop(db: DbView, k: Seq<char>, left: bool, now: u64) -> (DbView, ReplyView) {
    let d = purge(db, k, now);
    match current(db, k, now) {
        None => (d, ReplyView::Bulk(None)),
        Some((ValueView::List(l), dl)) => if l.len() == 0 {
            (d, ReplyView::Bulk(None))
        } else if left {
            (put(d, k, (ValueView::List(l.drop_first()), dl)), ReplyView::Bulk(Some(l[0])))
        } else {
            (put(d, k, (ValueView::List(l.drop_last()), dl)), ReplyView::Bulk(Some(l.last())))
        },
        Some(_) => (d, wrongtype()),
    }
}

pub open spec fn read_list(db: DbView, k: Seq<char>, now: u64, absent: ReplyView, r: spec_fn(Seq<Seq<char>>) -> ReplyView) -> (DbView, ReplyView) {
    let d = purge(db, k, now);
    match current(db, k, now) {
        None => (d, absent),
        Some((ValueView::List(l), _)) => (d, r(l)),
        Some(_) => (d, wrongtype()),
    }
}

// ---- sets ----

pub open spec fn sadd_all(s: Seq<Seq<char>>, ms: Seq<Seq<char>>) -> (Seq<Seq<char>>, int)
    decreases ms.len(),
{
    if ms.len() == 0 {
        (s, 0)
    } else {
        let (s1, n) = sadd_all(s, ms.drop_last());
        (with_member(s1, ms.last()), n + flag(!s1.contains(ms.last())))
    }
}

pub open spec fn srem_all(s: Seq<Seq<char>>, ms: Seq<Seq<char>>) -> (Seq<Seq<char>>, int)
    decreases ms.len(),
{
    if ms.len() == 0 {
        (s, 0)
    } else {
        let (s1, n) = srem_all(s, ms.drop_last());
        (without_member(s1, ms.last()), n + flag(s1.contains(ms.last())))
    }
}

pub open spec fn do_sadd(db: DbView, k: Seq<char>, ms: Seq<Seq<char>>, now: u64) -> (DbView, ReplyView) {
    let d = purge(db, k, now);
    match current(db, k, now) {
        None => {
            let (s, n) = sadd_all(Seq::empty(), ms);
            (put(d, k, (ValueView::Members(s), None)), int_reply(n))
        },
        Some((ValueView::Members(s0), dl)) => {
            let (s, n) = sadd_all(s0, ms);
            (put(d, k, (ValueView::Members(s), dl)), int_reply(n))
        },
        Some(_) => (d, wrongtype()),
    }
}

pub open spec fn do_srem(db: DbView, k: Seq<char>, ms: Seq<Seq<char>>, now: u64) -> (DbView, ReplyView) {
    let d = purge(db, k, now);
    match current(db, k, now) {
        None => (d, int_reply(0)),
        Some((ValueView::Members(s0), dl)) => {
            let (s, n) = srem_all(s0, ms);
            (put(d, k, (ValueView::Members(s), dl)), int_reply(n))
        },
        Some(_) => (d, wrongtype()),
    }
}

pub open spec fn read_set(db: DbView, k: Seq<char>, now: u64, absent: ReplyView, r: spec_fn(Seq<Seq<char>>) -> ReplyView) -> (DbView, ReplyView) {
    let d = purge(db, k, now);
    match current(db, k, now) {
        None => (d, absent),
        Some((ValueView::Members(s), _)) => (d, r(s)),
        Some(_) => (d, wrongtype()),
    }
}

// ---- sorted sets ----

pub open spec fn zadd_all(z: Seq<(Seq<char>, i64)>, es: Seq<(i64, Seq<char>)>) -> (Seq<(Seq<char>, i64)>, int)
    decreases es.len(),
{
    if es.len() == 0 {
        (z, 0)
    } else {
        let (z1, n) = zadd_all(z, es.drop_last());
        let e = es.last();
        (zset_put(z1, e.1, e.0), n + flag(!has_key(z1, e.1)))
    }
}

pub open spec fn zrem_all(z: Seq<(Seq<char>, i64)>, ms: Seq<Seq<char>>) -> (Seq<(Seq<char>, i64)>, int)
    decreases ms.len(),
{
    if ms.len() == 0 {
        (z, 0)
    } else {
        let (z1, n) = zrem_all(z, ms.drop_last());
        (remove_key(z1, ms.last()), n + flag(has_key(z1, ms.last())))
    }
}

pub open spec fn do_zadd(db: DbView, k: Seq<char>, es: Seq<(i64, Seq<char>)>, now: u64) -> (DbView, ReplyView) {
    let d = purge(db, k, now);
    match current(db, k, now) {
        None => {
            let (z, n) = zadd_all(Seq::empty(), es);
            (put(d, k, (ValueView::ZSet(z), None)), int_reply(n))
        },
        Some((ValueView::ZSet(z0), dl)) => {
            let (z, n) = zadd_all(z0, es);
            (put(d, k, (ValueView::ZSet(z), dl)), int_reply(n))
        },
        Some(_) => (d, wrongtype()),
    }
}

pub open spec fn do_zrem(db: DbView, k: Seq<char>, ms: Seq<Seq<char>>, now: u64) -> (DbView, ReplyView) {
    let d = purge(db, k, now);
    match current(db, k, now) {
        None => (d, int_reply(0)),
        Some((ValueView::ZSet(z0), dl)) => {
            let (z, n) = zrem_all(z0, ms);
            (put(d, k, (ValueView::ZSet(z), dl)), int_reply(n))
        },
        Some(_) => (d, wrongtype()),
    }
}

pub open spec fn read_zset(db: DbView, k: Seq<char>, now: u64, absent: ReplyView, r: spec_fn(Seq<(Seq<char>, i64)>) -> ReplyView) -> (DbView, ReplyView) {
    let d = purge(db, k, now);
    match current(db, k, now) {
        None => (d, absent),
        Some((ValueView::ZSet(z), _)) => (d, r(z)),
        Some(_) => (d, wrongtype()),
    }
}

pub open spec fn zscore_reply(z: Seq<(Seq<char>, i64)>, m: Seq<char>) -> ReplyView {
    match lookup(z, m) {
        Some(s) => ReplyView::Bulk(Some(score_text(s))),
        None => ReplyView::Bulk(None),
    }
}

pub open spec fn zrank_reply(z: Seq<(Seq<char>, i64)>, m: Seq<char>) -> ReplyView {
    if has_key(z, m) {
        int_reply(crate::assoc::key_index(z, m))
    } else {
        ReplyView::Bulk(None)
    }
}

/// What `c` does to `db` at `now`, and its reply.
pub open spec fn step(c: Command, db: DbView, now: u64) -> (DbView, ReplyView) {
    match c {
        Command::SET { key, value, ttl } => do_set(db, key@, value@, ttl, now),
        Command::GET { key } => do_get(db, key@, now),
        Command::DEL { keys } => {
            let (d, n) = del_keys(db, texts(keys@), now);
            (d, int_reply(n))
        },
        Command::EXISTS { keys } => {
            let (d, n) = count_existing(db, texts(keys@), now);
            (d, int_reply(n))
        },
        Command::EXPIRE { key, seconds } => do_expire(db, key@, seconds, now),
        Command::INCR { key } => do_incr_by(db, key@, 1, now),
        Command::DECR { key } => do_incr_by(db, key@, -1, now),
        Command::INCRBY { key, increment } => do_incr_by(db, key@, increment as int, now),
        Command::DECRBY { key, decrement } => do_incr_by(db, key@, -(decrement as int), now),
        Command::APPEND { key, value } => do_append(db, key@, value@, now),
        Command::STRLEN { key } => do_strlen(db, key@, now),
        Command::MGET { keys } => {
            let (d, items) = get_many(db, texts(keys@), now);
            (d, ReplyView::Array(items))
        },
        Command::MSET { pairs } => (set_many(db, text_pairs(pairs@)), ok()),
        Command::KEYS { pattern } => (db, ReplyView::Array(somes(matching_keys(db, pattern@, now)))),
        Command::TYPE { key } => do_type(db, key@, now),
        Command::TTL { key } => do_ttl(db, key@, now),
        Command::PERSIST { key } => do_persist(db, key@, now),
        Command::RENAME { key, newkey } => do_rename(db, key@, newkey@, now),
        Command::HSET { key, fields } => do_hset(db, key@, text_pairs(fields@), now),
        Command::HGET { key, field } => read_hash(db, key@, now, ReplyView::Bulk(None), |h| ReplyView::Bulk(lookup(h, field@))),
        Command::HGETALL { key } => read_hash(db, key@, now, ReplyView::Array(Seq::empty()), |h| ReplyView::Array(flatten(h))),
        Command::HDEL { key, fields } => do_hdel(db, key@, texts(fields@), now),
        Command::HEXISTS { key, field } => read_hash(db, key@, now, int_reply(0), |h| int_reply(flag(has_key(h, field@)))),
        Command::HLEN { key } => read_hash(db, key@, now, int_reply(0), |h: Seq<(Seq<char>, Seq<char>)>| int_reply(h.len() as int)),
        Command::HKEYS { key } => read_hash(db, key@, now, ReplyView::Array(Seq::empty()), |h| ReplyView::Array(somes(keys_of(h)))),
        Command::HVALS { key } => read_hash(db, key@, now, ReplyView::Array(Seq::empty()), |h| ReplyView::Array(somes(values_of(h)))),
        Command::LPUSH { key, values } => do_push(db, key@, texts(values@), true, now),
        Command::RPUSH { key, values } => do_push(db, key@, texts(values@), false, now),
        Command::LPOP { key } => do_pop(db, key@, true, now),
        Command::RPOP { key } => do_pop(db, key@, false, now),
        Command::LRANGE { key, start, stop } => read_list(db, key@, now, ReplyView::Array(Seq::empty()), |l| ReplyView::Array(somes(inclusive_range(l, start as int, stop as int)))),
        Command::LLEN { key } => read_list(db, key@, now, int_reply(0), |l: Seq<Seq<char>>| int_reply(l.len() as int)),
        Command::LINDEX { key, index } => read_list(db, key@, now, ReplyView::Bulk(None), |l| ReplyView::Bulk(element_at(l, index as int))),
        Command::SADD { key, members } => do_sadd(db, key@, texts(members@), now),
        Command::SREM { key, members } => do_srem(db, key@, texts(members@), now),
        Command::SMEMBERS { key } => read_set(db, key@, now, ReplyView::Array(Seq::empty()), |s| ReplyView::Array(somes(s))),
        Command::SISMEMBER { key, member } => read_set(db, key@, now, int_reply(0), |s: Seq<Seq<char>>| int_reply(flag(s.contains(member@)))),
        Command::SCARD { key } => read_set(db, key@, now, int_reply(0), |s: Seq<Seq<char>>| int_reply(s.len() as int)),
        Command::ZADD { key, entries } => do_zadd(db, key@, scored_members(entries@), now),
        Command::ZREM { key, members } => do_zrem(db, key@, texts(members@), now),
        Command::ZRANGE { key, start, stop } => read_zset(db, key@, now, ReplyView::Array(Seq::empty()), |z| ReplyView::Array(somes(members_of(inclusive_range(z, start as int, stop as int))))),
        Command::ZCARD { key } => read_zset(db, key@, now, int_reply(0), |z: Seq<(Seq<char>, i64)>| int_reply(z.len() as int)),
        Command::ZRANK { key, member } => read_zset(db, key@, now, ReplyView::Bulk(None), |z| zrank_reply(z, member@)),
        Command::ZSCORE { key, member } => read_zset(db, key@, now, ReplyView::Bulk(None), |z| zscore_reply(z, member@)),
        Command::PING => (db, ReplyView::Status("PONG"@)),
        Command::ECHO { message } => (db, ReplyView::Bulk(Some(message@))),
        Command::FLUSHDB => (Seq::empty(), ok()),
        Command::DBSIZE => (db, int_reply(live_count(db, now))),
        Command::Unknown { .. } => (db, unknown_command()),
    }
}

} // verus!
