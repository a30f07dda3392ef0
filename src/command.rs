//! The command model: an argument vector parsed into one typed command.
use vstd::prelude::*;
use crate::score::{parse_score, score_value};
use crate::text::{parse_i64, parse_isize, parse_u64, parsed_i64, parsed_isize, parsed_u64, text_eq};

verus! {

/// One command with its arguments checked. Scores are in millionths.
#[derive(Debug)]
#[allow(inconsistent_fields)]
pub enum Command {
    SET { key: String, value: String, ttl: Option<u64> },
    GET { key: String },
    DEL { keys: Vec<String> },
    EXISTS { keys: Vec<String> },
    EXPIRE { key: String, seconds: u64 },
    INCR { key: String },
    DECR { key: String },
    INCRBY { key: String, increment: i64 },
    DECRBY { key: String, decrement: i64 },
    APPEND { key: String, value: String },
    STRLEN { key: String },
    MGET { keys: Vec<String> },
    MSET { pairs: Vec<(String, String)> },
    KEYS { pattern: String },
    TYPE { key: String },
    TTL { key: String },
    PERSIST { key: String },
    RENAME { key: String, newkey: String },
    HSET { key: String, fields: Vec<(String, String)> },
    HGET { key: String, field: String },
    HGETALL { key: String },
    HDEL { key: String, fields: Vec<String> },
    HEXISTS { key: String, field: String },
    HLEN { key: String },
    HKEYS { key: String },
    HVALS { key: String },
    LPUSH { key: String, values: Vec<String> },
    RPUSH { key: String, values: Vec<String> },
    LPOP { key: String },
    RPOP { key: String },
    LRANGE { key: String, start: isize, stop: isize },
    LLEN { key: String },
    LINDEX { key: String, index: isize },
    SADD { key: String, members: Vec<String> },
    SREM { key: String, members: Vec<String> },
    SMEMBERS { key: String },
    SISMEMBER { key: String, member: String },
    SCARD { key: String },
    ZADD { key: String, entries: Vec<(i64, String)> },
    ZREM { key: String, members: Vec<String> },
    ZRANGE { key: String, start: isize, stop: isize },
    ZCARD { key: String },
    ZRANK { key: String, member: String },
    ZSCORE { key: String, member: String },
    PING,
    ECHO { message: String },
    FLUSHDB,
    DBSIZE,
    /// A name that is not known, or arguments that do not fit the name.
    Unknown { raw: Vec<String> },
}

pub uninterp spec fn upper_of(s: Seq<char>) -> Seq<char>;

/// Relies on `str::to_uppercase`: the upper-case form depends on the text alone.
#[verifier::external_body]
fn upper(s: &str) -> (r: String)
    ensures
        r@ == upper_of(s@),
{
    s.to_uppercase()
}

pub open spec fn texts(v: Seq<String>) -> Seq<Seq<char>> {
    v.map_values(|s: String| s@)
}

pub open spec fn text_pairs(v: Seq<(String, String)>) -> Seq<(Seq<char>, Seq<char>)> {
    v.map_values(|p: (String, String)| (p.0@, p.1@))
}

pub open spec fn scored_members(v: Seq<(i64, String)>) -> Seq<(i64, Seq<char>)> {
    v.map_values(|p: (i64, String)| (p.0, p.1@))
}

/// Consecutive tokens taken two by two.
pub open spec fn pairs_of(t: Seq<Seq<char>>) -> Seq<(Seq<char>, Seq<char>)> {
    Seq::new(t.len() / 2, |i: int| (t[2 * i], t[2 * i + 1]))
}

/// Whether every other token, from the first, is a score.
pub open spec fn scores_parse(t: Seq<Seq<char>>) -> bool {
    forall|i: int| 0 <= i < t.len() / 2 ==> score_value(#[trigger] t[2 * i]) is Some
}

/// Score-member pairs from alternating tokens.
pub open spec fn score_pairs(t: Seq<Seq<char>>) -> Seq<(i64, Seq<char>)> {
    Seq::new(t.len() / 2, |i: int| (score_value(t[2 * i])->0, t[2 * i + 1]))
}

pub open spec fn is_unknown(t: Seq<Seq<char>>, c: Command) -> bool {
    c matches Command::Unknown { raw } && texts(raw@) == t
}

pub open spec fn is_string_name(name: Seq<char>) -> bool {
    name == "SET"@
        || name == "GET"@
        || name == "DEL"@
        || name == "EXISTS"@
        || name == "EXPIRE"@
        || name == "INCR"@
        || name == "DECR"@
        || name == "INCRBY"@
        || name == "DECRBY"@
        || name == "APPEND"@
        || name == "STRLEN"@
        || name == "MGET"@
        || name == "MSET"@
        || name == "KEYS"@
        || name == "TYPE"@
        || name == "TTL"@
        || name == "PERSIST"@
        || name == "RENAME"@
}

/// What the tokens `t` parse to when the upper-cased name is `name`.
pub open spec fn parses_string(name: Seq<char>, t: Seq<Seq<char>>, c: Command) -> bool {
    if name == "SET"@ {
        if t.len() == 3 {
            c matches Command::SET { key, value, ttl } && key@ == t[1] && value@ == t[2] && ttl is None
        } else if t.len() == 5 && upper_of(t[3]) == "EX"@ && parsed_u64(t[4]) is Some {
            c matches Command::SET { key, value, ttl } && key@ == t[1] && value@ == t[2] && ttl == parsed_u64(t[4])
        } else {
            is_unknown(t, c)
        }
    } else if name == "GET"@ {
        if t.len() == 2 {
            c matches Command::GET { key } && key@ == t[1]
        } else {
            is_unknown(t, c)
        }
    } else if name == "DEL"@ {
        if t.len() >= 2 {
            c matches Command::DEL { keys } && texts(keys@) == t.subrange(1, t.len() as int)
        } else {
            is_unknown(t, c)
        }
    } else if name == "EXISTS"@ {
        if t.len() >= 2 {
            c matches Command::EXISTS { keys } && texts(keys@) == t.subrange(1, t.len() as int)
        } else {
            is_unknown(t, c)
        }
    } else if name == "EXPIRE"@ {
        if t.len() == 3 && parsed_u64(t[2]) is Some {
            c matches Command::EXPIRE { key, seconds } && key@ == t[1] && Some(seconds) == parsed_u64(t[2])
        } else {
            is_unknown(t, c)
        }
    } else if name == "INCR"@ {
        if t.len() == 2 {
            c matches Command::INCR { key } && key@ == t[1]
        } else {
            is_unknown(t, c)
        }
    } else if name == "DECR"@ {
        if t.len() == 2 {
            c matches Command::DECR { key } && key@ == t[1]
        } else {
            is_unknown(t, c)
        }
    } else if name == "INCRBY"@ {
        if t.len() == 3 && parsed_i64(t[2]) is Some {
            c matches Command::INCRBY { key, increment } && key@ == t[1] && Some(increment) == parsed_i64(t[2])
        } else {
            is_unknown(t, c)
        }
    } else if name == "DECRBY"@ {
        if t.len() == 3 && parsed_i64(t[2]) is Some {
            c matches Command::DECRBY { key, decrement } && key@ == t[1] && Some(decrement) == parsed_i64(t[2])
        } else {
            is_unknown(t, c)
        }
    } else if name == "APPEND"@ {
        if t.len() == 3 {
            c matches Command::APPEND { key, value } && key@ == t[1] && value@ == t[2]
        } else {
            is_unknown(t, c)
        }
    } else if name == "STRLEN"@ {
        if t.len() == 2 {
            c matches Command::STRLEN { key } && key@ == t[1]
        } else {
            is_unknown(t, c)
        }
    } else if name == "MGET"@ {
        if t.len() >= 2 {
            c matches Command::MGET { keys } && texts(keys@) == t.subrange(1, t.len() as int)
        } else {
            is_unknown(t, c)
        }
    } else if name == "MSET"@ {
        if t.len() >= 3 && t.len() % 2 == 1 {
            c matches Command::MSET { pairs } && text_pairs(pairs@) == pairs_of(t.subrange(1, t.len() as int))
        } else {
            is_unknown(t, c)
        }
    } else if name == "KEYS"@ {
        if t.len() == 2 {
            c matches Command::KEYS { pattern } && pattern@ == t[1]
        } else {
            is_unknown(t, c)
        }
    } else if name == "TYPE"@ {
        if t.len() == 2 {
            c matches Command::TYPE { key } && key@ == t[1]
        } else {
            is_unknown(t, c)
        }
    } else if name == "TTL"@ {
        if t.len() == 2 {
            c matches Command::TTL { key } && key@ == t[1]
        } else {
            is_unknown(t, c)
        }
    } else if name == "PERSIST"@ {
        if t.len() == 2 {
            c matches Command::PERSIST { key } && key@ == t[1]
        } else {
            is_unknown(t, c)
        }
    } else if name == "RENAME"@ {
        if t.len() == 3 {
            c matches Command::RENAME { key, newkey } && key@ == t[1] && newkey@ == t[2]
        } else {
            is_unknown(t, c)
        }
    } else {
        is_unknown(t, c)
    }
}

pub open spec fn is_hash_name(name: Seq<char>) -> bool {
    name == "HSET"@
        || name == "HGET"@
        || name == "HGETALL"@
        || name == "HDEL"@
        || name == "HEXISTS"@
        || name == "HLEN"@
        || name == "HKEYS"@
        || name == "HVALS"@
}

/// What the tokens `t` parse to when the upper-cased name is `name`.
pub open spec fn parses_hash(name: Seq<char>, t: Seq<Seq<char>>, c: Command) -> bool {
    if name == "HSET"@ {
        if t.len() >= 4 && t.len() % 2 == 0 {
            c matches Command::HSET { key, fields } && key@ == t[1] && text_pairs(fields@) == pairs_of(t.subrange(2, t.len() as int))
        } else {
            is_unknown(t, c)
        }
    } else if name == "HGET"@ {
        if t.len() == 3 {
            c matches Command::HGET { key, field } && key@ == t[1] && field@ == t[2]
        } else {
            is_unknown(t, c)
        }
    } else if name == "HGETALL"@ {
        if t.len() == 2 {
            c matches Command::HGETALL { key } && key@ == t[1]
        } else {
            is_unknown(t, c)
        }
    } else if name == "HDEL"@ {
        if t.len() >= 3 {
            c matches Command::HDEL { key, fields } && key@ == t[1] && texts(fields@) == t.subrange(2, t.len() as int)
        } else {
            is_unknown(t, c)
        }
    } else if name == "HEXISTS"@ {
        if t.len() == 3 {
            c matches Command::HEXISTS { key, field } && key@ == t[1] && field@ == t[2]
        } else {
            is_unknown(t, c)
        }
    } else if name == "HLEN"@ {
        if t.len() == 2 {
            c matches Command::HLEN { key } && key@ == t[1]
        } else {
            is_unknown(t, c)
        }
    } else if name == "HKEYS"@ {
        if t.len() == 2 {
            c matches Command::HKEYS { key } && key@ == t[1]
        } else {
            is_unknown(t, c)
        }
    } else if name == "HVALS"@ {
        if t.len() == 2 {
            c matches Command::HVALS { key } && key@ == t[1]
        } else {
            is_unknown(t, c)
        }
    } else {
        is_unknown(t, c)
    }
}

pub open spec fn is_list_name(name: Seq<char>) -> bool {
    name == "LPUSH"@
        || name == "RPUSH"@
        || name == "LPOP"@
        || name == "RPOP"@
        || name == "LRANGE"@
        || name == "LLEN"@
        || name == "LINDEX"@
}

/// What the tokens `t` parse to when the upper-cased name is `name`.
pub open spec fn parses_list(name: Seq<char>, t: Seq<Seq<char>>, c: Command) -> bool {
    if name == "LPUSH"@ {
        if t.len() >= 3 {
            c matches Command::LPUSH { key, values } && key@ == t[1] && texts(values@) == t.subrange(2, t.len() as int)
        } else {
            is_unknown(t, c)
        }
    } else if name == "RPUSH"@ {
        if t.len() >= 3 {
            c matches Command::RPUSH { key, values } && key@ == t[1] && texts(values@) == t.subrange(2, t.len() as int)
        } else {
            is_unknown(t, c)
        }
    } else if name == "LPOP"@ {
        if t.len() == 2 {
            c matches Command::LPOP { key } && key@ == t[1]
        } else {
            is_unknown(t, c)
        }
    } else if name == "RPOP"@ {
        if t.len() == 2 {
            c matches Command::RPOP { key } && key@ == t[1]
        } else {
            is_unknown(t, c)
        }
    } else if name == "LRANGE"@ {
        if t.len() == 4 && parsed_isize(t[2]) is Some && parsed_isize(t[3]) is Some {
            c matches Command::LRANGE { key, start, stop } && key@ == t[1] && Some(start) == parsed_isize(t[2]) && Some(stop) == parsed_isize(t[3])
        } else {
            is_unknown(t, c)
        }
    } else if name == "LLEN"@ {
        if t.len() == 2 {
            c matches Command::LLEN { key } && key@ == t[1]
        } else {
            is_unknown(t, c)
        }
    } else if name == "LINDEX"@ {
        if t.len() == 3 && parsed_isize(t[2]) is Some {
            c matches Command::LINDEX { key, index } && key@ == t[1] && Some(index) == parsed_isize(t[2])
        } else {
            is_unknown(t, c)
        }
    } else {
        is_unknown(t, c)
    }
}

pub open spec fn is_set_name(name: Seq<char>) -> bool {
    name == "SADD"@
        || name == "SREM"@
        || name == "SMEMBERS"@
        || name == "SISMEMBER"@
        || name == "SCARD"@
        || name == "ZADD"@
        || name == "ZREM"@
        || name == "ZRANGE"@
        || name == "ZCARD"@
        || name == "ZRANK"@
        || name == "ZSCORE"@
}

/// What the tokens `t` parse to when the upper-cased name is `name`.
pub open spec fn parses_set(name: Seq<char>, t: Seq<Seq<char>>, c: Command) -> bool {
    if name == "SADD"@ {
        if t.len() >= 3 {
            c matches Command::SADD { key, members } && key@ == t[1] && texts(members@) == t.subrange(2, t.len() as int)
        } else {
            is_unknown(t, c)
        }
    } else if name == "SREM"@ {
        if t.len() >= 3 {
            c matches Command::SREM { key, members } && key@ == t[1] && texts(members@) == t.subrange(2, t.len() as int)
        } else {
            is_unknown(t, c)
        }
    } else if name == "SMEMBERS"@ {
        if t.len() == 2 {
            c matches Command::SMEMBERS { key } && key@ == t[1]
        } else {
            is_unknown(t, c)
        }
    } else if name == "SISMEMBER"@ {
        if t.len() == 3 {
            c matches Command::SISMEMBER { key, member } && key@ == t[1] && member@ == t[2]
        } else {
            is_unknown(t, c)
        }
    } else if name == "SCARD"@ {
        if t.len() == 2 {
            c matches Command::SCARD { key } && key@ == t[1]
        } else {
            is_unknown(t, c)
        }
    } else if name == "ZADD"@ {
        if t.len() >= 4 && t.len() % 2 == 0 && scores_parse(t.subrange(2, t.len() as int)) {
            c matches Command::ZADD { key, entries } && key@ == t[1] && scored_members(entries@) == score_pairs(t.subrange(2, t.len() as int))
        } else {
            is_unknown(t, c)
        }
    } else if name == "ZREM"@ {
        if t.len() >= 3 {
            c matches Command::ZREM { key, members } && key@ == t[1] && texts(members@) == t.subrange(2, t.len() as int)
        } else {
            is_unknown(t, c)
        }
    } else if name == "ZRANGE"@ {
        if t.len() == 4 && parsed_isize(t[2]) is Some && parsed_isize(t[3]) is Some {
            c matches Command::ZRANGE { key, start, stop } && key@ == t[1] && Some(start) == parsed_isize(t[2]) && Some(stop) == parsed_isize(t[3])
        } else {
            is_unknown(t, c)
        }
    } else if name == "ZCARD"@ {
        if t.len() == 2 {
            c matches Command::ZCARD { key } && key@ == t[1]
        } else {
            is_unknown(t, c)
        }
    } else if name == "ZRANK"@ {
        if t.len() == 3 {
            c matches Command::ZRANK { key, member } && key@ == t[1] && member@ == t[2]
        } else {
            is_unknown(t, c)
        }
    } else if name == "ZSCORE"@ {
        if t.len() == 3 {
            c matches Command::ZSCORE { key, member } && key@ == t[1] && member@ == t[2]
        } else {
            is_unknown(t, c)
        }
    } else {
        is_unknown(t, c)
    }
}

pub open spec fn is_misc_name(name: Seq<char>) -> bool {
    name == "PING"@
        || name == "ECHO"@
        || name == "FLUSHDB"@
        || name == "DBSIZE"@
}

/// What the tokens `t` parse to when the upper-cased name is `name`.
pub open spec fn parses_misc(name: Seq<char>, t: Seq<Seq<char>>, c: Command) -> bool {
    if name == "PING"@ {
        c is PING
    } else if name == "ECHO"@ {
        if t.len() == 2 {
            c matches Command::ECHO { message } && message@ == t[1]
        } else {
            is_unknown(t, c)
        }
    } else if name == "FLUSHDB"@ {
        if t.len() == 1 {
            c is FLUSHDB
        } else {
            is_unknown(t, c)
        }
    } else if name == "DBSIZE"@ {
        if t.len() == 1 {
            c is DBSIZE
        } else {
            is_unknown(t, c)
        }
    } else {
        is_unknown(t, c)
    }
}

/// What an argument vector parses to, given its upper-cased name.
pub open spec fn parses_named(name: Seq<char>, t: Seq<Seq<char>>, c: Command) -> bool {

    if is_string_name(name) {
        parses_string(name, t, c)

    } else if is_hash_name(name) {
        parses_hash(name, t, c)

    } else if is_list_name(name) {
        parses_list(name, t, c)

    } else if is_set_name(name) {
        parses_set(name, t, c)

    } else if is_misc_name(name) {
        parses_misc(name, t, c)

    } else {
        is_unknown(t, c)
    }
}

/// What an argument vector parses to: the name is matched without regard to case.
pub open spec fn parses(t: Seq<Seq<char>>, c: Command) -> bool {
    if t.len() == 0 {
        is_unknown(t, c)
    } else {
        parses_named(upper_of(t[0]), t, c)
    }
}

fn unknown(command: &[String]) -> (r: Command)
    ensures
        is_unknown(texts(command@), r),
{
    let raw = copy_texts(command, 0);
    assert(texts(command@).subrange(0, command@.len() as int) =~= texts(command@));
    Command::Unknown { raw }
}

/// Copies of `command[from..]`.
fn copy_texts(command: &[String], from: usize) -> (r: Vec<String>)
    requires
        from <= command@.len(),
    ensures
        texts(r@) == texts(command@).subrange(from as int, command@.len() as int),
{
    let mut r: Vec<String> = Vec::new();
    let mut i: usize = from;
    while i < command.len()
        invariant
            from <= i <= command@.len(),
            r@.len() == i - from,
            forall|j: int| 0 <= j < i - from ==> (#[trigger] r@[j])@ == command@[j + from]@,
        decreases command@.len() - i,
    {
        r.push(command[i].clone());
        i = i + 1;
    }
    assert(texts(r@) =~= texts(command@).subrange(from as int, command@.len() as int));
    r
}

/// `command[from..]` taken two by two.
fn copy_pairs(command: &[String], from: usize) -> (r: Vec<(String, String)>)
    requires
        from <= command@.len(),
        (command@.len() - from) % 2 == 0,
    ensures
        text_pairs(r@) == pairs_of(texts(command@).subrange(from as int, command@.len() as int)),
{
    let ghost t = texts(command@).subrange(from as int, command@.len() as int);
    let mut r: Vec<(String, String)> = Vec::new();
    let mut i: usize = from;
    while i < command.len()
        invariant
            from <= i <= command@.len(),
            (i - from) % 2 == 0,
            (command@.len() - from) % 2 == 0,
            t == texts(command@).subrange(from as int, command@.len() as int),
            r@.len() == (i - from) / 2,
            forall|j: int| 0 <= j < r@.len() ==> (#[trigger] r@[j]).0@ == t[2 * j] && r@[j].1@ == t[2 * j + 1],
        decreases command@.len() - i,
    {
        r.push((command[i].clone(), command[i + 1].clone()));
        i = i + 2;
    }
    assert(text_pairs(r@) =~= pairs_of(t));
    r
}

/// `command[from..]` as score-member pairs; `None` when a score does not parse.
fn scored_pairs(command: &[String], from: usize) -> (r: Option<Vec<(i64, String)>>)
    requires
        from <= command@.len(),
        (command@.len() - from) % 2 == 0,
    ensures
        match r {
            Some(v) => scores_parse(texts(command@).subrange(from as int, command@.len() as int))
                && scored_members(v@) == score_pairs(texts(command@).subrange(from as int, command@.len() as int)),
            None => !scores_parse(texts(command@).subrange(from as int, command@.len() as int)),
        },
{
    let ghost t = texts(command@).subrange(from as int, command@.len() as int);
    let mut r: Vec<(i64, String)> = Vec::new();
    let mut i: usize = from;
    while i < command.len()
        invariant
            from <= i <= command@.len(),
            (i - from) % 2 == 0,
            (command@.len() - from) % 2 == 0,
            t == texts(command@).subrange(from as int, command@.len() as int),
            r@.len() == (i - from) / 2,
            forall|j: int| 0 <= j < r@.len() ==> score_value(#[trigger] t[2 * j]) == Some((r@[j]).0) && r@[j].1@ == t[2 * j + 1],
        decreases command@.len() - i,
    {
        match parse_score(command[i].as_str()) {
            Some(s) => {
                r.push((s, command[i + 1].clone()));
            },
            None => {
                assert(t[2 * ((i - from) / 2) as int] == command@[i as int]@);
                return None;
            },
        }
        i = i + 2;
    }
    assert forall|j: int| 0 <= j < t.len() / 2 implies score_value(#[trigger] t[2 * j]) is Some by {
        assert(score_value(t[2 * j]) == Some((r@[j]).0));
    }
    assert(scored_members(r@) =~= score_pairs(t));
    Some(r)
}

fn parse_string(name: &str, command: &[String]) -> (r: Option<Command>)
    requires
        command@.len() > 0,
    ensures
        match r {
            Some(c) => is_string_name(name@) && parses_string(name@, texts(command@), c),
            None => !is_string_name(name@),
        },
{
    if text_eq(name, "SET") {
        Some(if command.len() == 3 {
            Command::SET { key: command[1].clone(), value: command[2].clone(), ttl: None }
        } else if command.len() == 5 && text_eq(upper(command[3].as_str()).as_str(), "EX") {
            match parse_u64(command[4].as_str()) {
                Some(secs) => Command::SET { key: command[1].clone(), value: command[2].clone(), ttl: Some(secs) },
                None => unknown(command),
            }
        } else {
            unknown(command)
        })
    } else if text_eq(name, "GET") {
        Some(if command.len() == 2 { Command::GET { key: command[1].clone() } } else { unknown(command) })
    } else if text_eq(name, "DEL") {
        Some(if command.len() >= 2 { Command::DEL { keys: copy_texts(command, 1) } } else { unknown(command) })
    } else if text_eq(name, "EXISTS") {
        Some(if command.len() >= 2 { Command::EXISTS { keys: copy_texts(command, 1) } } else { unknown(command) })
    } else if text_eq(name, "EXPIRE") {
        Some(if command.len() == 3 {
            match parse_u64(command[2].as_str()) {
                Some(v) => Command::EXPIRE { key: command[1].clone(), seconds: v },
                None => unknown(command),
            }
        } else {
            unknown(command)
        })
    } else if text_eq(name, "INCR") {
        Some(if command.len() == 2 { Command::INCR { key: command[1].clone() } } else { unknown(command) })
    } else if text_eq(name, "DECR") {
        Some(if command.len() == 2 { Command::DECR { key: command[1].clone() } } else { unknown(command) })
    } else if text_eq(name, "INCRBY") {
        Some(if command.len() == 3 {
            match parse_i64(command[2].as_str()) {
                Some(v) => Command::INCRBY { key: command[1].clone(), increment: v },
                None => unknown(command),
            }
        } else {
            unknown(command)
        })
    } else if text_eq(name, "DECRBY") {
        Some(if command.len() == 3 {
            match parse_i64(command[2].as_str()) {
                Some(v) => Command::DECRBY { key: command[1].clone(), decrement: v },
                None => unknown(command),
            }
        } else {
            unknown(command)
        })
    } else if text_eq(name, "APPEND") {
        Some(if command.len() == 3 { Command::APPEND { key: command[1].clone(), value: command[2].clone() } } else { unknown(command) })
    } else if text_eq(name, "STRLEN") {
        Some(if command.len() == 2 { Command::STRLEN { key: command[1].clone() } } else { unknown(command) })
    } else if text_eq(name, "MGET") {
        Some(if command.len() >= 2 { Command::MGET { keys: copy_texts(command, 1) } } else { unknown(command) })
    } else if text_eq(name, "MSET") {
        Some(if command.len() >= 3 && command.len() % 2 == 1 { Command::MSET { pairs: copy_pairs(command, 1) } } else { unknown(command) })
    } else if text_eq(name, "KEYS") {
        Some(if command.len() == 2 { Command::KEYS { pattern: command[1].clone() } } else { unknown(command) })
    } else if text_eq(name, "TYPE") {
        Some(if command.len() == 2 { Command::TYPE { key: command[1].clone() } } else { unknown(command) })
    } else if text_eq(name, "TTL") {
        Some(if command.len() == 2 { Command::TTL { key: command[1].clone() } } else { unknown(command) })
    } else if text_eq(name, "PERSIST") {
        Some(if command.len() == 2 { Command::PERSIST { key: command[1].clone() } } else { unknown(command) })
    } else if text_eq(name, "RENAME") {
        Some(if command.len() == 3 { Command::RENAME { key: command[1].clone(), newkey: command[2].clone() } } else { unknown(command) })
    } else {
        None
    }
}

fn parse_hash(name: &str, command: &[String]) -> (r: Option<Command>)
    requires
        command@.len() > 0,
    ensures
        match r {
            Some(c) => is_hash_name(name@) && parses_hash(name@, texts(command@), c),
            None => !is_hash_name(name@),
        },
{
    if text_eq(name, "HSET") {
        Some(if command.len() >= 4 && command.len() % 2 == 0 { Command::HSET { key: command[1].clone(), fields: copy_pairs(command, 2) } } else { unknown(command) })
    } else if text_eq(name, "HGET") {
        Some(if command.len() == 3 { Command::HGET { key: command[1].clone(), field: command[2].clone() } } else { unknown(command) })
    } else if text_eq(name, "HGETALL") {
        Some(if command.len() == 2 { Command::HGETALL { key: command[1].clone() } } else { unknown(command) })
    } else if text_eq(name, "HDEL") {
        Some(if command.len() >= 3 { Command::HDEL { key: command[1].clone(), fields: copy_texts(command, 2) } } else { unknown(command) })
    } else if text_eq(name, "HEXISTS") {
        Some(if command.len() == 3 { Command::HEXISTS { key: command[1].clone(), field: command[2].clone() } } else { unknown(command) })
    } else if text_eq(name, "HLEN") {
        Some(if command.len() == 2 { Command::HLEN { key: command[1].clone() } } else { unknown(command) })
    } else if text_eq(name, "HKEYS") {
        Some(if command.len() == 2 { Command::HKEYS { key: command[1].clone() } } else { unknown(command) })
    } else if text_eq(name, "HVALS") {
        Some(if command.len() == 2 { Command::HVALS { key: command[1].clone() } } else { unknown(command) })
    } else {
        None
    }
}

fn parse_list(name: &str, command: &[String]) -> (r: Option<Command>)
    requires
        command@.len() > 0,
    ensures
        match r {
            Some(c) => is_list_name(name@) && parses_list(name@, texts(command@), c),
            None => !is_list_name(name@),
        },
{
    if text_eq(name, "LPUSH") {
        Some(if command.len() >= 3 { Command::LPUSH { key: command[1].clone(), values: copy_texts(command, 2) } } else { unknown(command) })
    } else if text_eq(name, "RPUSH") {
        Some(if command.len() >= 3 { Command::RPUSH { key: command[1].clone(), values: copy_texts(command, 2) } } else { unknown(command) })
    } else if text_eq(name, "LPOP") {
        Some(if command.len() == 2 { Command::LPOP { key: command[1].clone() } } else { unknown(command) })
    } else if text_eq(name, "RPOP") {
        Some(if command.len() == 2 { Command::RPOP { key: command[1].clone() } } else { unknown(command) })
    } else if text_eq(name, "LRANGE") {
        Some(if command.len() == 4 {
            match (parse_isize(command[2].as_str()), parse_isize(command[3].as_str())) {
                (Some(start), Some(stop)) => Command::LRANGE { key: command[1].clone(), start, stop },
                _ => unknown(command),
            }
        } else {
            unknown(command)
        })
    } else if text_eq(name, "LLEN") {
        Some(if command.len() == 2 { Command::LLEN { key: command[1].clone() } } else { unknown(command) })
    } else if text_eq(name, "LINDEX") {
        Some(if command.len() == 3 {
            match parse_isize(command[2].as_str()) {
                Some(v) => Command::LINDEX { key: command[1].clone(), index: v },
                None => unknown(command),
            }
        } else {
            unknown(command)
        })
    } else {
        None
    }
}

fn parse_set(name: &str, command: &[String]) -> (r: Option<Command>)
    requires
        command@.len() > 0,
    ensures
        match r {
            Some(c) => is_set_name(name@) && parses_set(name@, texts(command@), c),
            None => !is_set_name(name@),
        },
{
    if text_eq(name, "SADD") {
        Some(if command.len() >= 3 { Command::SADD { key: command[1].clone(), members: copy_texts(command, 2) } } else { unknown(command) })
    } else if text_eq(name, "SREM") {
        Some(if command.len() >= 3 { Command::SREM { key: command[1].clone(), members: copy_texts(command, 2) } } else { unknown(command) })
    } else if text_eq(name, "SMEMBERS") {
        Some(if command.len() == 2 { Command::SMEMBERS { key: command[1].clone() } } else { unknown(command) })
    } else if text_eq(name, "SISMEMBER") {
        Some(if command.len() == 3 { Command::SISMEMBER { key: command[1].clone(), member: command[2].clone() } } else { unknown(command) })
    } else if text_eq(name, "SCARD") {
        Some(if command.len() == 2 { Command::SCARD { key: command[1].clone() } } else { unknown(command) })
    } else if text_eq(name, "ZADD") {
        Some(if command.len() >= 4 && command.len() % 2 == 0 {
            match scored_pairs(command, 2) {
                Some(entries) => Command::ZADD { key: command[1].clone(), entries },
                None => unknown(command),
            }
        } else {
            unknown(command)
        })
    } else if text_eq(name, "ZREM") {
        Some(if command.len() >= 3 { Command::ZREM { key: command[1].clone(), members: copy_texts(command, 2) } } else { unknown(command) })
    } else if text_eq(name, "ZRANGE") {
        Some(if command.len() == 4 {
            match (parse_isize(command[2].as_str()), parse_isize(command[3].as_str())) {
                (Some(start), Some(stop)) => Command::ZRANGE { key: command[1].clone(), start, stop },
                _ => unknown(command),
            }
        } else {
            unknown(command)
        })
    } else if text_eq(name, "ZCARD") {
        Some(if command.len() == 2 { Command::ZCARD { key: command[1].clone() } } else { unknown(command) })
    } else if text_eq(name, "ZRANK") {
        Some(if command.len() == 3 { Command::ZRANK { key: command[1].clone(), member: command[2].clone() } } else { unknown(command) })
    } else if text_eq(name, "ZSCORE") {
        Some(if command.len() == 3 { Command::ZSCORE { key: command[1].clone(), member: command[2].clone() } } else { unknown(command) })
    } else {
        None
    }
}

fn parse_misc(name: &str, command: &[String]) -> (r: Option<Command>)
    requires
        command@.len() > 0,
    ensures
        match r {
            Some(c) => is_misc_name(name@) && parses_misc(name@, texts(command@), c),
            None => !is_misc_name(name@),
        },
{
    if text_eq(name, "PING") {
        Some(Command::PING)
    } else if text_eq(name, "ECHO") {
        Some(if command.len() == 2 { Command::ECHO { message: command[1].clone() } } else { unknown(command) })
    } else if text_eq(name, "FLUSHDB") {
        Some(if command.len() == 1 { Command::FLUSHDB } else { unknown(command) })
    } else if text_eq(name, "DBSIZE") {
        Some(if command.len() == 1 { Command::DBSIZE } else { unknown(command) })
    } else {
        None
    }
}

impl Command {
    /// Parses an argument vector whose name has already been upper-cased.
    pub fn from_name(name: &str, command: &[String]) -> (r: Command)
        requires
            command@.len() > 0,
        ensures
            parses_named(name@, texts(command@), r),
    {

        if let Some(c) = parse_string(name, command) {
            return c;
        }

        if let Some(c) = parse_hash(name, command) {
            return c;
        }

        if let Some(c) = parse_list(name, command) {
            return c;
        }

        if let Some(c) = parse_set(name, command) {
            return c;
        }

        if let Some(c) = parse_misc(name, command) {
            return c;
        }

        unknown(command)
    }

    /// Parses an argument vector: the name (first token, any case) picks the
    /// command, then the arity and the numeric fields are checked. Anything
    /// that does not fit is `Unknown`, carrying the tokens.
    pub fn new(command: &[String]) -> (r: Command)
        ensures
            parses(texts(command@), r),
    {
        if command.len() == 0 {
            return unknown(command);
        }
        let name = upper(command[0].as_str());
        Command::from_name(name.as_str(), command)
    }
}

} // verus!
