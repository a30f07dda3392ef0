//! The entry points: the dispatcher that runs one command on the keyspace,
//! and one executor per command kind.
use vstd::prelude::*;
use vstd::string::StringExecFns;
use crate::command::{parses, texts, Command};
use crate::engine::context;
use crate::model::step;
use crate::reply::{encoded, Reply, ReplyView};

verus! {

/// Relies on `SystemTime::now`: milliseconds since the Unix epoch. Nothing
/// is assumed of the value.
#[verifier::external_body]
fn now_millis() -> u64 {
    match std::time::SystemTime::now().duration_since(std::time::UNIX_EPOCH) {
        Ok(d) => d.as_millis() as u64,
        Err(_) => 0,
    }
}

/// What a command run on a keyspace of the wrong kind of command gives.
pub open spec fn wrong_command() -> ReplyView {
    ReplyView::Error("ERR wrong command"@)
}

/// Runs commands against a keyspace.
#[allow(non_camel_case_types)]
pub struct command_executor {}

impl command_executor {
    /// Runs `command` at instant `now` (milliseconds): exactly one handler,
    /// as one step on the keyspace.
    pub fn execute_at(command: &Command, ctx: &mut context, now: u64) -> (r: Reply)
        requires
            old(ctx).wf(),
        ensures
            final(ctx).wf(),
            (final(ctx)@, r@) == step(*command, old(ctx)@, now),
    {
        match command {
            Command::SET { key, value, ttl } => ctx.set(key, value, *ttl, now),
            Command::GET { key } => ctx.get(key, now),
            Command::DEL { keys } => ctx.del(keys, now),
            Command::EXISTS { keys } => ctx.count_keys(keys, now),
            Command::EXPIRE { key, seconds } => ctx.expire(key, *seconds, now),
            Command::INCR { key } => ctx.incr_by(key, 1, now),
            Command::DECR { key } => ctx.incr_by(key, -1, now),
            Command::INCRBY { key, increment } => ctx.incr_by(key, *increment as i128, now),
            Command::DECRBY { key, decrement } => ctx.incr_by(key, -(*decrement as i128), now),
            Command::APPEND { key, value } => ctx.append(key, value, now),
            Command::STRLEN { key } => ctx.strlen(key, now),
            Command::MGET { keys } => ctx.mget(keys, now),
            Command::MSET { pairs } => ctx.mset(pairs),
            Command::KEYS { pattern } => ctx.keys(pattern, now),
            Command::TYPE { key } => ctx.key_type(key, now),
            Command::TTL { key } => ctx.ttl(key, now),
            Command::PERSIST { key } => ctx.persist(key, now),
            Command::RENAME { key, newkey } => ctx.rename(key, newkey, now),
            Command::HSET { key, fields } => ctx.hset(key, fields, now),
            Command::HGET { key, field } => ctx.hget(key, field, now),
            Command::HGETALL { key } => ctx.hgetall(key, now),
            Command::HDEL { key, fields } => ctx.hdel(key, fields, now),
            Command::HEXISTS { key, field } => ctx.hexists(key, field, now),
            Command::HLEN { key } => ctx.hlen(key, now),
            Command::HKEYS { key } => ctx.hkeys(key, now),
            Command::HVALS { key } => ctx.hvals(key, now),
            Command::LPUSH { key, values } => ctx.push(key, values, true, now),
            Command::RPUSH { key, values } => ctx.push(key, values, false, now),
            Command::LPOP { key } => ctx.pop(key, true, now),
            Command::RPOP { key } => ctx.pop(key, false, now),
            Command::LRANGE { key, start, stop } => ctx.lrange(key, *start, *stop, now),
            Command::LLEN { key } => ctx.llen(key, now),
            Command::LINDEX { key, index } => ctx.lindex(key, *index, now),
            Command::SADD { key, members } => ctx.sadd(key, members, now),
            Command::SREM { key, members } => ctx.srem(key, members, now),
            Command::SMEMBERS { key } => ctx.smembers(key, now),
            Command::SISMEMBER { key, member } => ctx.sismember(key, member, now),
            Command::SCARD { key } => ctx.scard(key, now),
            Command::ZADD { key, entries } => ctx.zadd(key, entries, now),
            Command::ZREM { key, members } => ctx.zrem(key, members, now),
            Command::ZRANGE { key, start, stop } => ctx.zrange(key, *start, *stop, now),
            Command::ZCARD { key } => ctx.zcard(key, now),
            Command::ZRANK { key, member } => ctx.zrank(key, member, now),
            Command::ZSCORE { key, member } => ctx.zscore(key, member, now),
            Command::PING => Reply::Status(String::from_str("PONG")),
            Command::ECHO { message } => Reply::Bulk(Some(message.clone())),
            Command::FLUSHDB => {
                ctx.DataBase.clear();
                Reply::Status(String::from_str("OK"))
            },
            Command::DBSIZE => ctx.dbsize(now),
            Command::Unknown { .. } => Reply::Error(String::from_str("ERR unknown command")),
        }
    }

    /// Runs `command` at the current time and encodes the reply.
    pub fn execute_command(command: &Command, ctx: &mut context) -> (r: Vec<u8>)
        requires
            old(ctx).wf(),
        ensures
            final(ctx).wf(),
            exists|now: u64|
                final(ctx)@ == step(*command, old(ctx)@, now).0 && r@ == encoded(step(*command, old(ctx)@, now).1),
    {
        let now = now_millis();
        let reply = command_executor::execute_at(command, ctx, now);
        let r = reply.encode();
        assert(final(ctx)@ == step(*command, old(ctx)@, now).0 && r@ == encoded(step(*command, old(ctx)@, now).1));
        r
    }

    /// Parses one argument vector, runs it at `now` and encodes the reply.
    pub fn handle_at(args: &[String], ctx: &mut context, now: u64) -> (r: Vec<u8>)
        requires
            old(ctx).wf(),
        ensures
            final(ctx).wf(),
            exists|c: Command|
                parses(texts(args@), c) && final(ctx)@ == step(c, old(ctx)@, now).0 && r@ == encoded(step(c, old(ctx)@, now).1),
    {
        let c = Command::new(args);
        let r = command_executor::execute_at(&c, ctx, now).encode();
        assert(parses(texts(args@), c) && final(ctx)@ == step(c, old(ctx)@, now).0 && r@ == encoded(step(c, old(ctx)@, now).1));
        r
    }

    /// Parses one argument vector, runs it at the current time and encodes
    /// the reply.
    pub fn handle(args: &[String], ctx: &mut context) -> (r: Vec<u8>)
        requires
            old(ctx).wf(),
        ensures
            final(ctx).wf(),
            exists|c: Command, now: u64|
                parses(texts(args@), c) && final(ctx)@ == step(c, old(ctx)@, now).0 && r@ == encoded(step(c, old(ctx)@, now).1),
    {
        let now = now_millis();
        command_executor::handle_at(args, ctx, now)
    }
}

fn wrong_command_reply() -> (r: Reply)
    ensures
        r@ == wrong_command(),
{
    Reply::Error(String::from_str("ERR wrong command"))
}

/// Runs `DBSIZE` commands; any other command is refused.
#[allow(non_camel_case_types)]
pub struct dbsize;

impl dbsize {
    pub fn execute(command: &Command, ctx: &mut context, now: u64) -> (r: Vec<u8>)
        requires
            old(ctx).wf(),
        ensures
            final(ctx).wf(),
            command is DBSIZE ==> final(ctx)@ == step(*command, old(ctx)@, now).0 && r@ == encoded(step(*command, old(ctx)@, now).1),
            !(command is DBSIZE) ==> final(ctx)@ == old(ctx)@ && r@ == encoded(wrong_command()),
    {
        match command {
            Command::DBSIZE => command_executor::execute_at(command, ctx, now).encode(),
            _ => wrong_command_reply().encode(),
        }
    }
}

/// Runs `DECR` commands; any other command is refused.
#[allow(non_camel_case_types)]
pub struct decr;

impl decr {
    pub fn execute(command: &Command, ctx: &mut context, now: u64) -> (r: Vec<u8>)
        requires
            old(ctx).wf(),
        ensures
            final(ctx).wf(),
            command is DECR ==> final(ctx)@ == step(*command, old(ctx)@, now).0 && r@ == encoded(step(*command, old(ctx)@, now).1),
            !(command is DECR) ==> final(ctx)@ == old(ctx)@ && r@ == encoded(wrong_command()),
    {
        match command {
            Command::DECR { .. } => command_executor::execute_at(command, ctx, now).encode(),
            _ => wrong_command_reply().encode(),
        }
    }
}

/// Runs `DEL` commands; any other command is refused.
#[allow(non_camel_case_types)]
pub struct del;

impl del {
    pub fn execute(command: &Command, ctx: &mut context, now: u64) -> (r: Vec<u8>)
        requires
            old(ctx).wf(),
        ensures
            final(ctx).wf(),
            command is DEL ==> final(ctx)@ == step(*command, old(ctx)@, now).0 && r@ == encoded(step(*command, old(ctx)@, now).1),
            !(command is DEL) ==> final(ctx)@ == old(ctx)@ && r@ == encoded(wrong_command()),
    {
        match command {
            Command::DEL { .. } => command_executor::execute_at(command, ctx, now).encode(),
            _ => wrong_command_reply().encode(),
        }
    }
}

/// Runs `ECHO` commands; any other command is refused.
#[allow(non_camel_case_types)]
pub struct echo;

impl echo {
    pub fn execute(command: &Command, ctx: &mut context, now: u64) -> (r: Vec<u8>)
        requires
            old(ctx).wf(),
        ensures
            final(ctx).wf(),
            command is ECHO ==> final(ctx)@ == step(*command, old(ctx)@, now).0 && r@ == encoded(step(*command, old(ctx)@, now).1),
            !(command is ECHO) ==> final(ctx)@ == old(ctx)@ && r@ == encoded(wrong_command()),
    {
        match command {
            Command::ECHO { .. } => command_executor::execute_at(command, ctx, now).encode(),
            _ => wrong_command_reply().encode(),
        }
    }
}

/// Runs `EXPIRE` commands; any other command is refused.
#[allow(non_camel_case_types)]
pub struct expire;

impl expire {
    pub fn execute(command: &Command, ctx: &mut context, now: u64) -> (r: Vec<u8>)
        requires
            old(ctx).wf(),
        ensures
            final(ctx).wf(),
            command is EXPIRE ==> final(ctx)@ == step(*command, old(ctx)@, now).0 && r@ == encoded(step(*command, old(ctx)@, now).1),
            !(command is EXPIRE) ==> final(ctx)@ == old(ctx)@ && r@ == encoded(wrong_command()),
    {
        match command {
            Command::EXPIRE { .. } => command_executor::execute_at(command, ctx, now).encode(),
            _ => wrong_command_reply().encode(),
        }
    }
}

/// Runs `FLUSHDB` commands; any other command is refused.
#[allow(non_camel_case_types)]
pub struct flushdb;

impl flushdb {
    pub fn execute(command: &Command, ctx: &mut context, now: u64) -> (r: Vec<u8>)
        requires
            old(ctx).wf(),
        ensures
            final(ctx).wf(),
            command is FLUSHDB ==> final(ctx)@ == step(*command, old(ctx)@, now).0 && r@ == encoded(step(*command, old(ctx)@, now).1),
            !(command is FLUSHDB) ==> final(ctx)@ == old(ctx)@ && r@ == encoded(wrong_command()),
    {
        match command {
            Command::FLUSHDB => command_executor::execute_at(command, ctx, now).encode(),
            _ => wrong_command_reply().encode(),
        }
    }
}

/// Runs `GET` commands; any other command is refused.
#[allow(non_camel_case_types)]
pub struct get;

impl get {
    pub fn execute(command: &Command, ctx: &mut context, now: u64) -> (r: Vec<u8>)
        requires
            old(ctx).wf(),
        ensures
            final(ctx).wf(),
            command is GET ==> final(ctx)@ == step(*command, old(ctx)@, now).0 && r@ == encoded(step(*command, old(ctx)@, now).1),
            !(command is GET) ==> final(ctx)@ == old(ctx)@ && r@ == encoded(wrong_command()),
    {
        match command {
            Command::GET { .. } => command_executor::execute_at(command, ctx, now).encode(),
            _ => wrong_command_reply().encode(),
        }
    }
}

/// Runs `HDEL` commands; any other command is refused.
#[allow(non_camel_case_types)]
pub struct hdel;

impl hdel {
    pub fn execute(command: &Command, ctx: &mut context, now: u64) -> (r: Vec<u8>)
        requires
            old(ctx).wf(),
        ensures
            final(ctx).wf(),
            command is HDEL ==> final(ctx)@ == step(*command, old(ctx)@, now).0 && r@ == encoded(step(*command, old(ctx)@, now).1),
            !(command is HDEL) ==> final(ctx)@ == old(ctx)@ && r@ == encoded(wrong_command()),
    {
        match command {
            Command::HDEL { .. } => command_executor::execute_at(command, ctx, now).encode(),
            _ => wrong_command_reply().encode(),
        }
    }
}

/// Runs `HEXISTS` commands; any other command is refused.
#[allow(non_camel_case_types)]
pub struct hexists;

impl hexists {
    pub fn execute(command: &Command, ctx: &mut context, now: u64) -> (r: Vec<u8>)
        requires
            old(ctx).wf(),
        ensures
            final(ctx).wf(),
            command is HEXISTS ==> final(ctx)@ == step(*command, old(ctx)@, now).0 && r@ == encoded(step(*command, old(ctx)@, now).1),
            !(command is HEXISTS) ==> final(ctx)@ == old(ctx)@ && r@ == encoded(wrong_command()),
    {
        match command {
            Command::HEXISTS { .. } => command_executor::execute_at(command, ctx, now).encode(),
            _ => wrong_command_reply().encode(),
        }
    }
}

/// Runs `HGET` commands; any other command is refused.
#[allow(non_camel_case_types)]
pub struct hget;

impl hget {
    pub fn execute(command: &Command, ctx: &mut context, now: u64) -> (r: Vec<u8>)
        requires
            old(ctx).wf(),
        ensures
            final(ctx).wf(),
            command is HGET ==> final(ctx)@ == step(*command, old(ctx)@, now).0 && r@ == encoded(step(*command, old(ctx)@, now).1),
            !(command is HGET) ==> final(ctx)@ == old(ctx)@ && r@ == encoded(wrong_command()),
    {
        match command {
            Command::HGET { .. } => command_executor::execute_at(command, ctx, now).encode(),
            _ => wrong_command_reply().encode(),
        }
    }
}

/// Runs `HGETALL` commands; any other command is refused.
#[allow(non_camel_case_types)]
pub struct hgetall;

impl hgetall {
    pub fn execute(command: &Command, ctx: &mut context, now: u64) -> (r: Vec<u8>)
        requires
            old(ctx).wf(),
        ensures
            final(ctx).wf(),
            command is HGETALL ==> final(ctx)@ == step(*command, old(ctx)@, now).0 && r@ == encoded(step(*command, old(ctx)@, now).1),
            !(command is HGETALL) ==> final(ctx)@ == old(ctx)@ && r@ == encoded(wrong_command()),
    {
        match command {
            Command::HGETALL { .. } => command_executor::execute_at(command, ctx, now).encode(),
            _ => wrong_command_reply().encode(),
        }
    }
}

/// Runs `HSET` commands; any other command is refused.
#[allow(non_camel_case_types)]
pub struct hset;

impl hset {
    pub fn execute(command: &Command, ctx: &mut context, now: u64) -> (r: Vec<u8>)
        requires
            old(ctx).wf(),
        ensures
            final(ctx).wf(),
            command is HSET ==> final(ctx)@ == step(*command, old(ctx)@, now).0 && r@ == encoded(step(*command, old(ctx)@, now).1),
            !(command is HSET) ==> final(ctx)@ == old(ctx)@ && r@ == encoded(wrong_command()),
    {
        match command {
            Command::HSET { .. } => command_executor::execute_at(command, ctx, now).encode(),
            _ => wrong_command_reply().encode(),
        }
    }
}

/// Runs `INCR` commands; any other command is refused.
#[allow(non_camel_case_types)]
pub struct incr;

impl incr {
    pub fn execute(command: &Command, ctx: &mut context, now: u64) -> (r: Vec<u8>)
        requires
            old(ctx).wf(),
        ensures
            final(ctx).wf(),
            command is INCR ==> final(ctx)@ == step(*command, old(ctx)@, now).0 && r@ == encoded(step(*command, old(ctx)@, now).1),
            !(command is INCR) ==> final(ctx)@ == old(ctx)@ && r@ == encoded(wrong_command()),
    {
        match command {
            Command::INCR { .. } => command_executor::execute_at(command, ctx, now).encode(),
            _ => wrong_command_reply().encode(),
        }
    }
}

/// Runs `LPOP` commands; any other command is refused.
#[allow(non_camel_case_types)]
pub struct lpop;

impl lpop {
    pub fn execute(command: &Command, ctx: &mut context, now: u64) -> (r: Vec<u8>)
        requires
            old(ctx).wf(),
        ensures
            final(ctx).wf(),
            command is LPOP ==> final(ctx)@ == step(*command, old(ctx)@, now).0 && r@ == encoded(step(*command, old(ctx)@, now).1),
            !(command is LPOP) ==> final(ctx)@ == old(ctx)@ && r@ == encoded(wrong_command()),
    {
        match command {
            Command::LPOP { .. } => command_executor::execute_at(command, ctx, now).encode(),
            _ => wrong_command_reply().encode(),
        }
    }
}

/// Runs `LPUSH` commands; any other command is refused.
#[allow(non_camel_case_types)]
pub struct lpush;

impl lpush {
    pub fn execute(command: &Command, ctx: &mut context, now: u64) -> (r: Vec<u8>)
        requires
            old(ctx).wf(),
        ensures
            final(ctx).wf(),
            command is LPUSH ==> final(ctx)@ == step(*command, old(ctx)@, now).0 && r@ == encoded(step(*command, old(ctx)@, now).1),
            !(command is LPUSH) ==> final(ctx)@ == old(ctx)@ && r@ == encoded(wrong_command()),
    {
        match command {
            Command::LPUSH { .. } => command_executor::execute_at(command, ctx, now).encode(),
            _ => wrong_command_reply().encode(),
        }
    }
}

/// Runs `LRANGE` commands; any other command is refused.
#[allow(non_camel_case_types)]
pub struct lrange;

impl lrange {
    pub fn execute(command: &Command, ctx: &mut context, now: u64) -> (r: Vec<u8>)
        requires
            old(ctx).wf(),
        ensures
            final(ctx).wf(),
            command is LRANGE ==> final(ctx)@ == step(*command, old(ctx)@, now).0 && r@ == encoded(step(*command, old(ctx)@, now).1),
            !(command is LRANGE) ==> final(ctx)@ == old(ctx)@ && r@ == encoded(wrong_command()),
    {
        match command {
            Command::LRANGE { .. } => command_executor::execute_at(command, ctx, now).encode(),
            _ => wrong_command_reply().encode(),
        }
    }
}

/// Runs `PING` commands; any other command is refused.
#[allow(non_camel_case_types)]
pub struct ping;

impl ping {
    pub fn execute(command: &Command, ctx: &mut context, now: u64) -> (r: Vec<u8>)
        requires
            old(ctx).wf(),
        ensures
            final(ctx).wf(),
            command is PING ==> final(ctx)@ == step(*command, old(ctx)@, now).0 && r@ == encoded(step(*command, old(ctx)@, now).1),
            !(command is PING) ==> final(ctx)@ == old(ctx)@ && r@ == encoded(wrong_command()),
    {
        match command {
            Command::PING => command_executor::execute_at(command, ctx, now).encode(),
            _ => wrong_command_reply().encode(),
        }
    }
}

/// Runs `RPUSH` commands; any other command is refused.
#[allow(non_camel_case_types)]
pub struct rpush;

impl rpush {
    pub fn execute(command: &Command, ctx: &mut context, now: u64) -> (r: Vec<u8>)
        requires
            old(ctx).wf(),
        ensures
            final(ctx).wf(),
            command is RPUSH ==> final(ctx)@ == step(*command, old(ctx)@, now).0 && r@ == encoded(step(*command, old(ctx)@, now).1),
            !(command is RPUSH) ==> final(ctx)@ == old(ctx)@ && r@ == encoded(wrong_command()),
    {
        match command {
            Command::RPUSH { .. } => command_executor::execute_at(command, ctx, now).encode(),
            _ => wrong_command_reply().encode(),
        }
    }
}

/// Runs `SADD` commands; any other command is refused.
#[allow(non_camel_case_types)]
pub struct sadd;

impl sadd {
    pub fn execute(command: &Command, ctx: &mut context, now: u64) -> (r: Vec<u8>)
        requires
            old(ctx).wf(),
        ensures
            final(ctx).wf(),
            command is SADD ==> final(ctx)@ == step(*command, old(ctx)@, now).0 && r@ == encoded(step(*command, old(ctx)@, now).1),
            !(command is SADD) ==> final(ctx)@ == old(ctx)@ && r@ == encoded(wrong_command()),
    {
        match command {
            Command::SADD { .. } => command_executor::execute_at(command, ctx, now).encode(),
            _ => wrong_command_reply().encode(),
        }
    }
}

/// Runs `SET` commands; any other command is refused.
#[allow(non_camel_case_types)]
pub struct set;

impl set {
    pub fn execute(command: &Command, ctx: &mut context, now: u64) -> (r: Vec<u8>)
        requires
            old(ctx).wf(),
        ensures
            final(ctx).wf(),
            command is SET ==> final(ctx)@ == step(*command, old(ctx)@, now).0 && r@ == encoded(step(*command, old(ctx)@, now).1),
            !(command is SET) ==> final(ctx)@ == old(ctx)@ && r@ == encoded(wrong_command()),
    {
        match command {
            Command::SET { .. } => command_executor::execute_at(command, ctx, now).encode(),
            _ => wrong_command_reply().encode(),
        }
    }
}

/// Runs `SISMEMBER` commands; any other command is refused.
#[allow(non_camel_case_types)]
pub struct sismember;

impl sismember {
    pub fn execute(command: &Command, ctx: &mut context, now: u64) -> (r: Vec<u8>)
        requires
            old(ctx).wf(),
        ensures
            final(ctx).wf(),
            command is SISMEMBER ==> final(ctx)@ == step(*command, old(ctx)@, now).0 && r@ == encoded(step(*command, old(ctx)@, now).1),
            !(command is SISMEMBER) ==> final(ctx)@ == old(ctx)@ && r@ == encoded(wrong_command()),
    {
        match command {
            Command::SISMEMBER { .. } => command_executor::execute_at(command, ctx, now).encode(),
            _ => wrong_command_reply().encode(),
        }
    }
}

/// Runs `SMEMBERS` commands; any other command is refused.
#[allow(non_camel_case_types)]
pub struct smembers;

impl smembers {
    pub fn execute(command: &Command, ctx: &mut context, now: u64) -> (r: Vec<u8>)
        requires
            old(ctx).wf(),
        ensures
            final(ctx).wf(),
            command is SMEMBERS ==> final(ctx)@ == step(*command, old(ctx)@, now).0 && r@ == encoded(step(*command, old(ctx)@, now).1),
            !(command is SMEMBERS) ==> final(ctx)@ == old(ctx)@ && r@ == encoded(wrong_command()),
    {
        match command {
            Command::SMEMBERS { .. } => command_executor::execute_at(command, ctx, now).encode(),
            _ => wrong_command_reply().encode(),
        }
    }
}

/// Runs `SREM` commands; any other command is refused.
#[allow(non_camel_case_types)]
pub struct srem;

impl srem {
    pub fn execute(command: &Command, ctx: &mut context, now: u64) -> (r: Vec<u8>)
        requires
            old(ctx).wf(),
        ensures
            final(ctx).wf(),
            command is SREM ==> final(ctx)@ == step(*command, old(ctx)@, now).0 && r@ == encoded(step(*command, old(ctx)@, now).1),
            !(command is SREM) ==> final(ctx)@ == old(ctx)@ && r@ == encoded(wrong_command()),
    {
        match command {
            Command::SREM { .. } => command_executor::execute_at(command, ctx, now).encode(),
            _ => wrong_command_reply().encode(),
        }
    }
}

/// Runs `ZADD` commands; any other command is refused.
#[allow(non_camel_case_types)]
pub struct zadd;

impl zadd {
    pub fn execute(command: &Command, ctx: &mut context, now: u64) -> (r: Vec<u8>)
        requires
            old(ctx).wf(),
        ensures
            final(ctx).wf(),
            command is ZADD ==> final(ctx)@ == step(*command, old(ctx)@, now).0 && r@ == encoded(step(*command, old(ctx)@, now).1),
            !(command is ZADD) ==> final(ctx)@ == old(ctx)@ && r@ == encoded(wrong_command()),
    {
        match command {
            Command::ZADD { .. } => command_executor::execute_at(command, ctx, now).encode(),
            _ => wrong_command_reply().encode(),
        }
    }
}

/// Runs `ZRANGE` commands; any other command is refused.
#[allow(non_camel_case_types)]
pub struct zrange;

impl zrange {
    pub fn execute(command: &Command, ctx: &mut context, now: u64) -> (r: Vec<u8>)
        requires
            old(ctx).wf(),
        ensures
            final(ctx).wf(),
            command is ZRANGE ==> final(ctx)@ == step(*command, old(ctx)@, now).0 && r@ == encoded(step(*command, old(ctx)@, now).1),
            !(command is ZRANGE) ==> final(ctx)@ == old(ctx)@ && r@ == encoded(wrong_command()),
    {
        match command {
            Command::ZRANGE { .. } => command_executor::execute_at(command, ctx, now).encode(),
            _ => wrong_command_reply().encode(),
        }
    }
}

/// Runs `ZREM` commands; any other command is refused.
#[allow(non_camel_case_types)]
pub struct zrem;

impl zrem {
    pub fn execute(command: &Command, ctx: &mut context, now: u64) -> (r: Vec<u8>)
        requires
            old(ctx).wf(),
        ensures
            final(ctx).wf(),
            command is ZREM ==> final(ctx)@ == step(*command, old(ctx)@, now).0 && r@ == encoded(step(*command, old(ctx)@, now).1),
            !(command is ZREM) ==> final(ctx)@ == old(ctx)@ && r@ == encoded(wrong_command()),
    {
        match command {
            Command::ZREM { .. } => command_executor::execute_at(command, ctx, now).encode(),
            _ => wrong_command_reply().encode(),
        }
    }
}

} // verus!
