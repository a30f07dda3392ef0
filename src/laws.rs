//! Properties that relate several commands, proved over the model that the
//! handlers' contracts are stated in.
use vstd::prelude::*;
use crate::assoc::{has_key, key_index, lemma_key_at, lemma_lookup_push, lemma_put, lemma_put_same, lookup, put, unique_keys};
use crate::command::Command;
use crate::keyspace::{db_wf, is_live, purge, swept, visible, DbView, ValueView};
use crate::model::{after, current, do_expire, do_get, do_sadd, do_set, do_ttl, do_zadd, int_reply, read_set, read_zset, sadd_all, step, wrongtype, zadd_all, zscore_reply};
use crate::range::inclusive_range;
use crate::reply::ReplyView;
use crate::score::score_text;
use crate::set_store::{with_member};
use crate::sorted_set_store::{ascending, lemma_zset_put, zset_put};

verus! {

/// Setting a key and then reading it gives back the text that was set: at
/// any later instant without an expiry clause, and before the deadline with
/// one.
pub proof fn law_set_then_get(db: DbView, k: Seq<char>, v: Seq<char>, ttl: Option<u64>, now: u64, later: u64)
    requires
        db_wf(db),
        ttl matches Some(secs) ==> later < after(now, secs),
    ensures
        do_get(do_set(db, k, v, ttl, now).0, k, later).1 == ReplyView::Bulk(Some(v)),
{
    let dl = match ttl {
        Some(secs) => Some(after(now, secs)),
        None => None,
    };
    lemma_put(db, k, (ValueView::Str(v), dl));
}

/// Adding a member twice: the second add, at the same or a later instant
/// at which the set still exists, reports nothing new and changes nothing,
/// and the set then holds the member once.
pub proof fn law_sadd_idempotent(db: DbView, s: Seq<char>, x: Seq<char>, now: u64, later: u64)
    requires
        db_wf(db),
        visible(do_sadd(db, s, seq![x], now).0, s, later) is Some,
        match current(db, s, now) {
            None => true,
            Some((ValueView::Members(_), _)) => true,
            _ => false,
        },
    ensures
        ({
            let db1 = do_sadd(db, s, seq![x], now).0;
            let (db2, r2) = do_sadd(db1, s, seq![x], later);
            &&& r2 == int_reply(0)
            &&& db2 == db1
            &&& read_set(db2, s, later, int_reply(0), |m: Seq<Seq<char>>| int_reply(m.len() as int))
                == read_set(db1, s, later, int_reply(0), |m: Seq<Seq<char>>| int_reply(m.len() as int))
            &&& current(db, s, now) is None ==> read_set(db2, s, later, int_reply(0), |m: Seq<Seq<char>>| int_reply(m.len() as int)).1 == int_reply(1)
        }),
{
    let d = purge(db, s, now);
    lemma_purge_model(db, s, now);
    let ms = seq![x];
    assert(ms.drop_last() =~= Seq::<Seq<char>>::empty());
    let (s0, dl) = match current(db, s, now) {
        Some((ValueView::Members(m), dl)) => (m, dl),
        _ => (Seq::<Seq<char>>::empty(), None),
    };
    let s1 = with_member(s0, x);
    assert(sadd_all(s0, ms.drop_last()) == (s0, 0int));
    assert(ms.last() == x);
    assert(sadd_all(s0, ms).0 == s1);
    let db1 = put(d, s, (ValueView::Members(s1), dl));
    lemma_put(d, s, (ValueView::Members(s1), dl));
    assert(lookup(db1, s) == Some((ValueView::Members(s1), dl)));
    assert(is_live(dl, later));
    assert(purge(db1, s, later) == db1);
    assert(s1.contains(x)) by {
        if !s0.contains(x) {
            assert(s1[s0.len() as int] == x);
        }
    }
    assert(sadd_all(s1, ms.drop_last()) == (s1, 0int));
    assert(sadd_all(s1, ms).0 == s1);
    lemma_put_same(db1, s, (ValueView::Members(s1), dl));
    if current(db, s, now) is None {
        assert(s1 =~= seq![x]);
    }
}

/// Giving a member a second score: nothing new is reported, the member has
/// the second score, and the number of members is as after the first.
pub proof fn law_zadd_update(db: DbView, z: Seq<char>, m: Seq<char>, a: i64, b: i64, now: u64)
    requires
        db_wf(db),
        match current(db, z, now) {
            None => true,
            Some((ValueView::ZSet(_), _)) => true,
            _ => false,
        },
    ensures
        ({
            let db1 = do_zadd(db, z, seq![(a, m)], now).0;
            let (db2, r2) = do_zadd(db1, z, seq![(b, m)], now);
            let card = |q: Seq<(Seq<char>, i64)>| int_reply(q.len() as int);
            &&& r2 == int_reply(0)
            &&& read_zset(db2, z, now, ReplyView::Bulk(None), |q| zscore_reply(q, m)).1 == ReplyView::Bulk(Some(score_text(b)))
            &&& read_zset(db2, z, now, int_reply(0), card).1 == read_zset(db1, z, now, int_reply(0), card).1
            &&& current(db, z, now) is None ==> read_zset(db2, z, now, int_reply(0), card).1 == int_reply(1)
        }),
{
    let d = purge(db, z, now);
    lemma_purge_model(db, z, now);
    let (z0, dl) = match current(db, z, now) {
        Some((ValueView::ZSet(q), dl)) => (q, dl),
        _ => (Seq::<(Seq<char>, i64)>::empty(), None),
    };
    assert(unique_keys(z0) && ascending(z0));
    let es1 = seq![(a, m)];
    let es2 = seq![(b, m)];
    assert(es1.drop_last() =~= Seq::<(i64, Seq<char>)>::empty());
    assert(es2.drop_last() =~= Seq::<(i64, Seq<char>)>::empty());
    let z1 = zset_put(z0, m, a);
    lemma_zset_put(z0, m, a);
    assert(zadd_all(z0, es1.drop_last()) == (z0, 0int));
    assert(es1.last() == (a, m));
    assert(zadd_all(z0, es1).0 == z1);
    let db1 = put(d, z, (ValueView::ZSet(z1), dl));
    lemma_put(d, z, (ValueView::ZSet(z1), dl));
    assert(purge(db1, z, now) == db1) by {
        if current(db, z, now) is Some {
            assert(is_live(dl, now));
        }
    }
    lemma_key_at_lookup(z1, m);
    let z2 = zset_put(z1, m, b);
    lemma_zset_put(z1, m, b);
    assert(zadd_all(z1, es2.drop_last()) == (z1, 0int));
    assert(es2.last() == (b, m));
    assert(has_key(z1, m));
    assert(zadd_all(z1, es2) == (z2, 0int));
    let db2 = put(db1, z, (ValueView::ZSet(z2), dl));
    lemma_put(db1, z, (ValueView::ZSet(z2), dl));
    assert(purge(db2, z, now) == db2);
    if current(db, z, now) is None {
        assert(!has_key(z0, m));
    }
}

proof fn lemma_key_at_lookup<V>(s: Seq<(Seq<char>, V)>, k: Seq<char>)
    requires
        lookup(s, k) is Some,
    ensures
        has_key(s, k),
{
}

/// The live entry of `k` is what the keyspace holds once an expired one is
/// gone.
proof fn lemma_purge_model(db: DbView, k: Seq<char>, now: u64)
    requires
        db_wf(db),
    ensures
        db_wf(purge(db, k, now)),
        current(db, k, now) == visible(db, k, now),
        match current(db, k, now) {
            Some(e) => is_live(e.1, now) && crate::keyspace::value_wf(e.0),
            None => !has_key(purge(db, k, now), k),
        },
{
    crate::keyspace::lemma_remove_wf(db, k);
    crate::assoc::lemma_remove_key(db, k);
    if has_key(db, k) {
        lemma_key_at(db, key_index(db, k));
    }
    if has_key(purge(db, k, now), k) {
        lemma_key_at(purge(db, k, now), key_index(purge(db, k, now), k));
    }
}

/// On a list of length `L > 0` the range `-1 .. -1` is the last element
/// alone; a start at or past `L` gives nothing.
pub proof fn law_range_bounds(l: Seq<Seq<char>>, start: int, stop: int)
    ensures
        l.len() > 0 ==> inclusive_range(l, -1, -1) == seq![l.last()],
        start >= l.len() ==> inclusive_range(l, start, stop) == Seq::<Seq<char>>::empty(),
{
    if l.len() > 0 {
        assert(inclusive_range(l, -1, -1) =~= seq![l.last()]);
    }
}

/// The kind of value a command works on, with its key: 0 string, 1 hash,
/// 2 list, 3 set, 4 sorted set.
pub open spec fn expected_kind(c: Command) -> Option<(Seq<char>, int)> {
    match c {
        Command::GET { key } => Some((key@, 0)),
        Command::INCR { key } => Some((key@, 0)),
        Command::DECR { key } => Some((key@, 0)),
        Command::INCRBY { key, .. } => Some((key@, 0)),
        Command::DECRBY { key, .. } => Some((key@, 0)),
        Command::APPEND { key, .. } => Some((key@, 0)),
        Command::STRLEN { key } => Some((key@, 0)),
        Command::HSET { key, .. } => Some((key@, 1)),
        Command::HGET { key, .. } => Some((key@, 1)),
        Command::HGETALL { key } => Some((key@, 1)),
        Command::HDEL { key, .. } => Some((key@, 1)),
        Command::HEXISTS { key, .. } => Some((key@, 1)),
        Command::HLEN { key } => Some((key@, 1)),
        Command::HKEYS { key } => Some((key@, 1)),
        Command::HVALS { key } => Some((key@, 1)),
        Command::LPUSH { key, .. } => Some((key@, 2)),
        Command::RPUSH { key, .. } => Some((key@, 2)),
        Command::LPOP { key } => Some((key@, 2)),
        Command::RPOP { key } => Some((key@, 2)),
        Command::LRANGE { key, .. } => Some((key@, 2)),
        Command::LLEN { key } => Some((key@, 2)),
        Command::LINDEX { key, .. } => Some((key@, 2)),
        Command::SADD { key, .. } => Some((key@, 3)),
        Command::SREM { key, .. } => Some((key@, 3)),
        Command::SMEMBERS { key } => Some((key@, 3)),
        Command::SISMEMBER { key, .. } => Some((key@, 3)),
        Command::SCARD { key } => Some((key@, 3)),
        Command::ZADD { key, .. } => Some((key@, 4)),
        Command::ZREM { key, .. } => Some((key@, 4)),
        Command::ZRANGE { key, .. } => Some((key@, 4)),
        Command::ZCARD { key } => Some((key@, 4)),
        Command::ZRANK { key, .. } => Some((key@, 4)),
        Command::ZSCORE { key, .. } => Some((key@, 4)),
        _ => None,
    }
}

pub open spec fn kind_key(c: Command) -> Seq<char> {
    match expected_kind(c) {
        Some(p) => p.0,
        None => Seq::empty(),
    }
}

pub open spec fn kind_code(c: Command) -> int {
    match expected_kind(c) {
        Some(p) => p.1,
        None => -1,
    }
}

pub open spec fn kind_of(v: ValueView) -> int {
    match v {
        ValueView::Str(_) => 0,
        ValueView::Hash(_) => 1,
        ValueView::List(_) => 2,
        ValueView::Members(_) => 3,
        ValueView::ZSet(_) => 4,
    }
}

/// A command for one kind of value, on a key that holds another kind,
/// replies WRONGTYPE and leaves the keyspace as it was.
pub proof fn law_wrong_kind(c: Command, db: DbView, now: u64)
    requires
        db_wf(db),
        expected_kind(c) is Some,
        visible(db, kind_key(c), now) matches Some(e) && kind_of(e.0) != kind_code(c),
    ensures
        step(c, db, now) == (db, wrongtype()),
{
    let k = kind_key(c);
    lemma_purge_model(db, k, now);
    assert(purge(db, k, now) == db);
    let e = visible(db, k, now)->0;
    assert(current(db, k, now) == Some(e));
    match c {
        Command::GET { .. } | Command::STRLEN { .. } | Command::APPEND { .. } => {},
        Command::INCR { .. } | Command::DECR { .. } | Command::INCRBY { .. } | Command::DECRBY { .. } => {},
        Command::HSET { .. } | Command::HDEL { .. } => {},
        Command::HGET { .. } | Command::HGETALL { .. } | Command::HEXISTS { .. } => {},
        Command::HLEN { .. } | Command::HKEYS { .. } | Command::HVALS { .. } => {},
        Command::LPUSH { .. } | Command::RPUSH { .. } | Command::LPOP { .. } | Command::RPOP { .. } => {},
        Command::LRANGE { .. } | Command::LLEN { .. } | Command::LINDEX { .. } => {},
        Command::SADD { .. } | Command::SREM { .. } => {},
        Command::SMEMBERS { .. } | Command::SISMEMBER { .. } | Command::SCARD { .. } => {},
        Command::ZADD { .. } | Command::ZREM { .. } => {},
        Command::ZRANGE { .. } | Command::ZCARD { .. } | Command::ZRANK { .. } | Command::ZSCORE { .. } => {},
        _ => {},
    }
}

/// After `EXPIRE k secs` on a live key, `TTL k` at any instant from then on
/// and before the deadline replies a number of seconds in `1..=secs`.
pub proof fn law_ttl_after_expire(db: DbView, k: Seq<char>, secs: u64, now: u64, later: u64)
    requires
        db_wf(db),
        visible(db, k, now) is Some,
        now <= later < after(now, secs),
    ensures
        do_expire(db, k, secs, now).1 == int_reply(1),
        do_ttl(do_expire(db, k, secs, now).0, k, later).1 matches ReplyView::Integer(n) && 0 < n <= secs,
{
    lemma_purge_model(db, k, now);
    let d = purge(db, k, now);
    let e = current(db, k, now)->0;
    let t = after(now, secs);
    lemma_put(d, k, (e.0, Some(t)));
    let db1 = put(d, k, (e.0, Some(t)));
    assert(lookup(db1, k) == Some((e.0, Some(t))));
    assert(purge(db1, k, later) == db1);
    let x = t - later;
    assert(1 <= x <= 1000 * secs);
    assert(0 < (x + 999) / 1000 <= secs) by (nonlinear_arith)
        requires
            1 <= x <= 1000 * secs,
    ;
}

/// After `EXPIRE k 0`, any later access finds `k` absent, whether or not a
/// sweep has run.
pub proof fn law_expire_now(db: DbView, k: Seq<char>, now: u64, later: u64)
    requires
        db_wf(db),
        now <= later,
    ensures
        ({
            let db1 = do_expire(db, k, 0, now).0;
            &&& current(db1, k, later) is None
            &&& do_get(db1, k, later).1 == ReplyView::Bulk(None)
            &&& do_ttl(db1, k, later).1 == int_reply(-2)
            &&& visible(swept(db1, later), k, later) is None
            &&& lookup(swept(db1, later), k) is None
        }),
{
    lemma_purge_model(db, k, now);
    let d = purge(db, k, now);
    let db1 = do_expire(db, k, 0, now).0;
    if let Some(e) = current(db, k, now) {
        lemma_put(d, k, (e.0, Some(after(now, 0))));
        crate::keyspace::lemma_put_wf(d, k, (e.0, Some(after(now, 0))));
    }
    assert(db_wf(db1));
    lemma_purge_model(db1, k, later);
    law_sweep_hides_nothing(db1, later);
}

/// A sweep at `now` changes what no access at `now` can see: each key keeps
/// its visible entry.
pub proof fn law_sweep_hides_nothing(db: DbView, now: u64)
    requires
        unique_keys(db),
    ensures
        unique_keys(swept(db, now)),
        forall|k: Seq<char>| #[trigger] lookup(swept(db, now), k) == visible(db, k, now),
    decreases db.len(),
{
    if db.len() == 0 {
    } else {
        let d = db.drop_last();
        let x = db.last();
        assert(db =~= d.push(x));
        assert(unique_keys(d)) by {
            assert forall|a: int, b: int| 0 <= a < d.len() && 0 <= b < d.len() && a != b implies #[trigger] d[a].0 != #[trigger] d[b].0 by {
                assert(db[a] == d[a] && db[b] == d[b]);
            }
        }
        law_sweep_hides_nothing(d, now);
        assert(!has_key(d, x.0)) by {
            if has_key(d, x.0) {
                let j = key_index(d, x.0);
                assert(db[j].0 == db[d.len() as int].0);
            }
        }
        assert forall|k: Seq<char>| #[trigger] lookup(db, k) == if x.0 == k { Some(x.1) } else { lookup(d, k) } by {
            lemma_lookup_push(d, x, k);
        }
        let r = swept(d, now);
        if is_live(x.1.1, now) {
            assert(!has_key(r, x.0)) by {
                if has_key(r, x.0) {
                    lemma_key_at(r, key_index(r, x.0));
                }
            }
            assert(unique_keys(r.push(x))) by {
                assert forall|a: int, b: int| 0 <= a < r.len() + 1 && 0 <= b < r.len() + 1 && a != b implies #[trigger] r.push(x)[a].0 != #[trigger] r.push(x)[b].0 by {
                    if a < r.len() && b < r.len() {
                    } else if a < r.len() {
                        assert(r[a].0 != x.0);
                    } else if b < r.len() {
                        assert(r[b].0 != x.0);
                    }
                }
            }
            assert forall|k: Seq<char>| #[trigger] lookup(swept(db, now), k) == visible(db, k, now) by {
                lemma_lookup_push(r, x, k);
            }
        }
    }
}

} // verus!
