use kilodb::codec::{decode, texts_of, Decoded};
use kilodb::command::Command;
use kilodb::engine::context;
use kilodb::executor::command_executor;
use kilodb::reply::Reply;
use kilodb::score::{format_score, parse_score};
use kilodb::text::glob_matches;

fn run(ctx: &mut context, parts: &[&str], now: u64) -> Vec<u8> {
    let v: Vec<String> = parts.iter().map(|s| s.to_string()).collect();
    command_executor::handle_at(&v, ctx, now)
}

fn text(b: Vec<u8>) -> String {
    String::from_utf8(b).unwrap()
}

#[test]
fn scenario_counter() {
    let mut ctx = context::new();
    assert_eq!(run(&mut ctx, &["SET", "a", "1"], 0), b"+OK\r\n");
    assert_eq!(run(&mut ctx, &["INCR", "a"], 0), b":2\r\n");
    assert_eq!(run(&mut ctx, &["INCR", "a"], 0), b":3\r\n");
    assert_eq!(run(&mut ctx, &["GET", "a"], 0), b"$1\r\n3\r\n");
}

#[test]
fn scenario_hash() {
    let mut ctx = context::new();
    assert_eq!(run(&mut ctx, &["HSET", "h", "f1", "x", "f2", "y"], 0), b":2\r\n");
    assert_eq!(run(&mut ctx, &["HGET", "h", "f1"], 0), b"$1\r\nx\r\n");
    assert_eq!(run(&mut ctx, &["HDEL", "h", "f1"], 0), b":1\r\n");
    assert_eq!(run(&mut ctx, &["HGET", "h", "f1"], 0), b"$-1\r\n");
}

#[test]
fn scenario_list() {
    let mut ctx = context::new();
    assert_eq!(run(&mut ctx, &["RPUSH", "l", "a", "b", "c"], 0), b":3\r\n");
    assert_eq!(run(&mut ctx, &["LRANGE", "l", "0", "-1"], 0), b"*3\r\n$1\r\na\r\n$1\r\nb\r\n$1\r\nc\r\n");
    assert_eq!(run(&mut ctx, &["LPOP", "l"], 0), b"$1\r\na\r\n");
    assert_eq!(run(&mut ctx, &["LRANGE", "l", "0", "-1"], 0), b"*2\r\n$1\r\nb\r\n$1\r\nc\r\n");
}

#[test]
fn scenario_set() {
    let mut ctx = context::new();
    assert_eq!(run(&mut ctx, &["SADD", "s", "x", "y"], 0), b":2\r\n");
    assert_eq!(run(&mut ctx, &["SADD", "s", "x", "z"], 0), b":1\r\n");
    let members = text(run(&mut ctx, &["SMEMBERS", "s"], 0));
    assert!(members.starts_with("*3\r\n"));
    for m in ["$1\r\nx\r\n", "$1\r\ny\r\n", "$1\r\nz\r\n"] {
        assert!(members.contains(m));
    }
}

#[test]
fn scenario_expiry_clock() {
    let mut ctx = context::new();
    assert_eq!(run(&mut ctx, &["EXPIRE", "missing", "10"], 1000), b":0\r\n");
    assert_eq!(run(&mut ctx, &["SET", "k", "v"], 1000), b"+OK\r\n");
    assert_eq!(run(&mut ctx, &["TTL", "k"], 1000), b":-1\r\n");
    assert_eq!(run(&mut ctx, &["EXPIRE", "k", "100"], 1000), b":1\r\n");
    assert_eq!(run(&mut ctx, &["TTL", "k"], 1000), b":100\r\n");
    assert_eq!(run(&mut ctx, &["TTL", "k"], 1500), b":100\r\n");
    assert_eq!(run(&mut ctx, &["TTL", "k"], 2000), b":99\r\n");
    assert_eq!(run(&mut ctx, &["PERSIST", "k"], 2000), b":1\r\n");
    assert_eq!(run(&mut ctx, &["TTL", "k"], 2000), b":-1\r\n");
    assert_eq!(run(&mut ctx, &["PERSIST", "k"], 2000), b":0\r\n");
}

#[test]
fn scenario_expiry_with_real_clock() {
    let mut ctx = context::new();
    let t = |ctx: &mut context, parts: &[&str]| {
        let v: Vec<String> = parts.iter().map(|s| s.to_string()).collect();
        command_executor::handle(&v, ctx)
    };
    assert_eq!(t(&mut ctx, &["EXPIRE", "missing", "10"]), b":0\r\n");
    t(&mut ctx, &["SET", "k", "v"]);
    assert_eq!(t(&mut ctx, &["TTL", "k"]), b":-1\r\n");
    t(&mut ctx, &["EXPIRE", "k", "100"]);
    let ttl: i64 = text(t(&mut ctx, &["TTL", "k"])).trim_start_matches(':').trim_end().parse().unwrap();
    assert!(ttl > 0 && ttl <= 100);
    assert_eq!(t(&mut ctx, &["PERSIST", "k"]), b":1\r\n");
    assert_eq!(t(&mut ctx, &["TTL", "k"]), b":-1\r\n");
}

#[test]
fn set_then_get_gives_the_value() {
    let mut ctx = context::new();
    run(&mut ctx, &["SET", "k", "héllo wörld"], 0);
    assert_eq!(text(run(&mut ctx, &["GET", "k"], 5)), "$13\r\nhéllo wörld\r\n");
    run(&mut ctx, &["SET", "k", "v2", "EX", "1"], 0);
    assert_eq!(run(&mut ctx, &["GET", "k"], 999), b"$2\r\nv2\r\n");
    assert_eq!(run(&mut ctx, &["GET", "k"], 1000), b"$-1\r\n");
}

#[test]
fn sadd_twice_adds_once() {
    let mut ctx = context::new();
    assert_eq!(run(&mut ctx, &["SADD", "s", "x"], 0), b":1\r\n");
    assert_eq!(run(&mut ctx, &["SADD", "s", "x"], 0), b":0\r\n");
    assert_eq!(run(&mut ctx, &["SCARD", "s"], 0), b":1\r\n");
}

#[test]
fn zadd_updates_the_score() {
    let mut ctx = context::new();
    assert_eq!(run(&mut ctx, &["ZADD", "z", "1", "m"], 0), b":1\r\n");
    assert_eq!(run(&mut ctx, &["ZADD", "z", "2", "m"], 0), b":0\r\n");
    assert_eq!(run(&mut ctx, &["ZSCORE", "z", "m"], 0), b"$1\r\n2\r\n");
    assert_eq!(run(&mut ctx, &["ZCARD", "z"], 0), b":1\r\n");
}

#[test]
fn range_bounds_on_a_list() {
    let mut ctx = context::new();
    run(&mut ctx, &["RPUSH", "l", "a", "b", "c"], 0);
    assert_eq!(run(&mut ctx, &["LRANGE", "l", "-1", "-1"], 0), b"*1\r\n$1\r\nc\r\n");
    assert_eq!(run(&mut ctx, &["LRANGE", "l", "5", "10"], 0), b"*0\r\n");
    assert_eq!(run(&mut ctx, &["LRANGE", "l", "2", "1"], 0), b"*0\r\n");
    assert_eq!(run(&mut ctx, &["LRANGE", "l", "-100", "100"], 0), b"*3\r\n$1\r\na\r\n$1\r\nb\r\n$1\r\nc\r\n");
    assert_eq!(run(&mut ctx, &["LINDEX", "l", "-1"], 0), b"$1\r\nc\r\n");
    assert_eq!(run(&mut ctx, &["LINDEX", "l", "3"], 0), b"$-1\r\n");
    assert_eq!(run(&mut ctx, &["LLEN", "l"], 0), b":3\r\n");
}

#[test]
fn wrong_kind_is_refused_and_changes_nothing() {
    let wrongtype: &[u8] = b"-WRONGTYPE Operation against a key holding the wrong kind of value\r\n";
    let mut ctx = context::new();
    run(&mut ctx, &["SET", "k", "v"], 0);
    for parts in [
        &["HSET", "k", "f", "v"][..],
        &["LPUSH", "k", "a"][..],
        &["SADD", "k", "a"][..],
        &["ZADD", "k", "1", "a"][..],
        &["HGET", "k", "f"][..],
        &["LRANGE", "k", "0", "-1"][..],
        &["SMEMBERS", "k"][..],
        &["ZRANGE", "k", "0", "-1"][..],
    ] {
        assert_eq!(run(&mut ctx, parts, 0), wrongtype);
    }
    assert_eq!(run(&mut ctx, &["GET", "k"], 0), b"$1\r\nv\r\n");
    run(&mut ctx, &["RPUSH", "l", "a"], 0);
    assert_eq!(run(&mut ctx, &["GET", "l"], 0), wrongtype);
    assert_eq!(run(&mut ctx, &["INCR", "l"], 0), wrongtype);
    assert_eq!(run(&mut ctx, &["APPEND", "l", "x"], 0), wrongtype);
    assert_eq!(run(&mut ctx, &["LRANGE", "l", "0", "-1"], 0), b"*1\r\n$1\r\na\r\n");
}

#[test]
fn expire_zero_hides_the_key_at_once() {
    let mut ctx = context::new();
    run(&mut ctx, &["SET", "k", "v"], 100);
    assert_eq!(run(&mut ctx, &["EXPIRE", "k", "0"], 100), b":1\r\n");
    assert_eq!(run(&mut ctx, &["GET", "k"], 100), b"$-1\r\n");
    assert_eq!(run(&mut ctx, &["TTL", "k"], 100), b":-2\r\n");
    assert_eq!(run(&mut ctx, &["EXISTS", "k"], 100), b":0\r\n");
}

#[test]
fn expired_key_is_not_counted_and_sweep_removes_it() {
    let mut ctx = context::new();
    run(&mut ctx, &["SET", "a", "1"], 0);
    run(&mut ctx, &["SET", "b", "2", "EX", "1"], 0);
    assert_eq!(run(&mut ctx, &["DBSIZE"], 500), b":2\r\n");
    assert_eq!(run(&mut ctx, &["DBSIZE"], 1000), b":1\r\n");
    assert_eq!(ctx.DataBase.len(), 2);
    ctx.DataBase.sweep(1000);
    assert_eq!(ctx.DataBase.len(), 1);
    assert_eq!(run(&mut ctx, &["GET", "a"], 1000), b"$1\r\n1\r\n");
}

#[test]
fn keys_match_globs() {
    let mut ctx = context::new();
    run(&mut ctx, &["MSET", "user:1", "a", "user:2", "b", "other", "c"], 0);
    assert_eq!(run(&mut ctx, &["KEYS", "user:*"], 0), b"*2\r\n$6\r\nuser:1\r\n$6\r\nuser:2\r\n");
    assert_eq!(run(&mut ctx, &["KEYS", "?ther"], 0), b"*1\r\n$5\r\nother\r\n");
    assert_eq!(run(&mut ctx, &["KEYS", "*"], 0), b"*3\r\n$6\r\nuser:1\r\n$6\r\nuser:2\r\n$5\r\nother\r\n");
    assert!(glob_matches("a*c", "abbbc"));
    assert!(!glob_matches("a?c", "abbc"));
}

#[test]
fn strings_mget_append_strlen_rename_type() {
    let mut ctx = context::new();
    run(&mut ctx, &["MSET", "a", "1", "b", "2"], 0);
    run(&mut ctx, &["RPUSH", "l", "x"], 0);
    assert_eq!(run(&mut ctx, &["MGET", "a", "nope", "l", "b"], 0), b"*4\r\n$1\r\n1\r\n$-1\r\n$-1\r\n$1\r\n2\r\n");
    assert_eq!(run(&mut ctx, &["APPEND", "a", "23"], 0), b":3\r\n");
    assert_eq!(run(&mut ctx, &["STRLEN", "a"], 0), b":3\r\n");
    assert_eq!(run(&mut ctx, &["APPEND", "new", "é"], 0), b":2\r\n");
    assert_eq!(run(&mut ctx, &["RENAME", "a", "c"], 0), b"+OK\r\n");
    assert_eq!(run(&mut ctx, &["GET", "c"], 0), b"$3\r\n123\r\n");
    assert_eq!(run(&mut ctx, &["RENAME", "a", "d"], 0), b"-ERR no such key\r\n");
    assert_eq!(run(&mut ctx, &["TYPE", "c"], 0), b"+string\r\n");
    assert_eq!(run(&mut ctx, &["TYPE", "l"], 0), b"+list\r\n");
    assert_eq!(run(&mut ctx, &["TYPE", "zz"], 0), b"+none\r\n");
    assert_eq!(run(&mut ctx, &["DEL", "c", "l", "zz"], 0), b":2\r\n");
    assert_eq!(run(&mut ctx, &["EXISTS", "c", "b", "b"], 0), b":2\r\n");
}

#[test]
fn counters_and_their_errors() {
    let mut ctx = context::new();
    assert_eq!(run(&mut ctx, &["INCRBY", "n", "10"], 0), b":10\r\n");
    assert_eq!(run(&mut ctx, &["DECRBY", "n", "15"], 0), b":-5\r\n");
    assert_eq!(run(&mut ctx, &["DECR", "n"], 0), b":-6\r\n");
    assert_eq!(run(&mut ctx, &["GET", "n"], 0), b"$2\r\n-6\r\n");
    run(&mut ctx, &["SET", "big", "9223372036854775807"], 0);
    assert_eq!(run(&mut ctx, &["INCR", "big"], 0), b"-ERR value is not an integer or out of range\r\n");
    assert_eq!(run(&mut ctx, &["GET", "big"], 0), b"$19\r\n9223372036854775807\r\n");
    run(&mut ctx, &["SET", "small", "-9223372036854775808"], 0);
    assert_eq!(run(&mut ctx, &["DECR", "small"], 0), b"-ERR value is not an integer or out of range\r\n");
    assert_eq!(run(&mut ctx, &["GET", "small"], 0), b"$20\r\n-9223372036854775808\r\n");
    assert_eq!(run(&mut ctx, &["INCRBY", "n", "x"], 0), b"-ERR unknown command\r\n");
}

#[test]
fn hashes_sets_and_sorted_sets() {
    let mut ctx = context::new();
    run(&mut ctx, &["HSET", "h", "a", "1", "b", "2"], 0);
    assert_eq!(run(&mut ctx, &["HGETALL", "h"], 0), b"*4\r\n$1\r\na\r\n$1\r\n1\r\n$1\r\nb\r\n$1\r\n2\r\n");
    assert_eq!(run(&mut ctx, &["HKEYS", "h"], 0), b"*2\r\n$1\r\na\r\n$1\r\nb\r\n");
    assert_eq!(run(&mut ctx, &["HVALS", "h"], 0), b"*2\r\n$1\r\n1\r\n$1\r\n2\r\n");
    assert_eq!(run(&mut ctx, &["HLEN", "h"], 0), b":2\r\n");
    assert_eq!(run(&mut ctx, &["HEXISTS", "h", "a"], 0), b":1\r\n");
    assert_eq!(run(&mut ctx, &["HEXISTS", "h", "z"], 0), b":0\r\n");
    run(&mut ctx, &["SADD", "s", "a", "b"], 0);
    assert_eq!(run(&mut ctx, &["SREM", "s", "a", "q"], 0), b":1\r\n");
    assert_eq!(run(&mut ctx, &["SISMEMBER", "s", "a"], 0), b":0\r\n");
    assert_eq!(run(&mut ctx, &["SISMEMBER", "s", "b"], 0), b":1\r\n");
    run(&mut ctx, &["ZADD", "z", "2", "b", "1", "c", "2", "a", "-0.5", "d"], 0);
    assert_eq!(
        run(&mut ctx, &["ZRANGE", "z", "0", "-1"], 0),
        b"*4\r\n$1\r\nd\r\n$1\r\nc\r\n$1\r\na\r\n$1\r\nb\r\n"
    );
    assert_eq!(run(&mut ctx, &["ZRANK", "z", "a"], 0), b":2\r\n");
    assert_eq!(run(&mut ctx, &["ZRANK", "z", "q"], 0), b"$-1\r\n");
    assert_eq!(run(&mut ctx, &["ZSCORE", "z", "d"], 0), b"$4\r\n-0.5\r\n");
    assert_eq!(run(&mut ctx, &["ZREM", "z", "a", "q"], 0), b":1\r\n");
    assert_eq!(run(&mut ctx, &["ZRANGE", "z", "1", "1"], 0), b"*1\r\n$1\r\nc\r\n");
    assert_eq!(run(&mut ctx, &["RPOP", "nolist"], 0), b"$-1\r\n");
    assert_eq!(run(&mut ctx, &["FLUSHDB", "now"], 0), b"-ERR unknown command\r\n");
    assert_eq!(run(&mut ctx, &["ZCARD", "z"], 0), b":3\r\n");
    assert_eq!(run(&mut ctx, &["FLUSHDB"], 0), b"+OK\r\n");
    assert_eq!(run(&mut ctx, &["DBSIZE"], 0), b":0\r\n");
}

#[test]
fn parsing_checks_names_arity_and_numbers() {
    let p = |parts: &[&str]| {
        let v: Vec<String> = parts.iter().map(|s| s.to_string()).collect();
        Command::new(&v)
    };
    assert!(matches!(p(&["get", "k"]), Command::GET { .. }));
    assert!(matches!(p(&["GeT", "k"]), Command::GET { .. }));
    assert!(matches!(p(&["GET"]), Command::Unknown { .. }));
    assert!(matches!(p(&["GET", "a", "b"]), Command::Unknown { .. }));
    assert!(matches!(p(&["HSET", "h", "f"]), Command::Unknown { .. }));
    assert!(matches!(p(&["HSET", "h", "f", "v", "g"]), Command::Unknown { .. }));
    assert!(matches!(p(&["MSET", "a", "1", "b"]), Command::Unknown { .. }));
    assert!(matches!(p(&["LRANGE", "l", "x", "1"]), Command::Unknown { .. }));
    assert!(matches!(p(&["ZADD", "z", "one", "m"]), Command::Unknown { .. }));
    assert!(matches!(p(&["EXPIRE", "k", "-1"]), Command::Unknown { .. }));
    assert!(matches!(p(&["SET", "k", "v", "ex", "5"]), Command::SET { ttl: Some(5), .. }));
    assert!(matches!(p(&["SET", "k", "v", "PX", "5"]), Command::Unknown { .. }));
    assert!(matches!(p(&[]), Command::Unknown { .. }));
    assert!(matches!(p(&["FLUSHDB"]), Command::FLUSHDB));
    assert!(matches!(p(&["FLUSHDB", "x"]), Command::Unknown { .. }));
    assert!(matches!(p(&["dbsize"]), Command::DBSIZE));
    assert!(matches!(p(&["DBSIZE", "x"]), Command::Unknown { .. }));
    match p(&["ZADD", "z", "1.25", "m"]) {
        Command::ZADD { entries, .. } => assert_eq!(entries, vec![(1_250_000, "m".to_string())]),
        _ => panic!("expected ZADD"),
    }
    match p(&["LRANGE", "l", "-2", "7"]) {
        Command::LRANGE { start, stop, .. } => assert_eq!((start, stop), (-2, 7)),
        _ => panic!("expected LRANGE"),
    }
    match p(&["BOGUS", "x"]) {
        Command::Unknown { raw } => assert_eq!(raw, vec!["BOGUS", "x"]),
        _ => panic!("expected Unknown"),
    }
}

#[test]
fn scores_parse_and_format() {
    assert_eq!(parse_score("1"), Some(1_000_000));
    assert_eq!(parse_score("1.5"), Some(1_500_000));
    assert_eq!(parse_score("-0.25"), Some(-250_000));
    assert_eq!(parse_score("+3.1234567"), Some(3_123_456));
    assert_eq!(parse_score("1."), None);
    assert_eq!(parse_score(".5"), None);
    assert_eq!(parse_score("1e3"), None);
    assert_eq!(parse_score(""), None);
    assert_eq!(parse_score("99999999999999"), None);
    assert_eq!(format_score(2_000_000), "2");
    assert_eq!(format_score(1_500_000), "1.5");
    assert_eq!(format_score(-250_000), "-0.25");
    assert_eq!(format_score(1), "0.000001");
    assert_eq!(format_score(0), "0");
}

#[test]
fn decoding_frames() {
    match decode(b"*2\r\n$3\r\nGET\r\n$1\r\nk\r\nrest") {
        Decoded::Frame(args, used) => {
            assert_eq!(args, vec![b"GET".to_vec(), b"k".to_vec()]);
            assert_eq!(used, 20);
        }
        _ => panic!("expected a frame"),
    }
    match decode(b"*1\r\n$4\r\na\r\nb\r\n") {
        Decoded::Frame(args, _) => assert_eq!(args, vec![b"a\r\nb".to_vec()]),
        _ => panic!("expected a frame"),
    }
    match decode(b"*1\r\n$2\r\n\xff\x00\r\n") {
        Decoded::Frame(args, _) => {
            assert_eq!(args, vec![vec![0xffu8, 0x00]]);
            assert!(texts_of(&args).is_none());
        }
        _ => panic!("expected a frame"),
    }
    match decode(b"*0\r\n") {
        Decoded::Frame(args, used) => {
            assert!(args.is_empty());
            assert_eq!(used, 4);
        }
        _ => panic!("expected a frame"),
    }
    assert!(matches!(decode(b""), Decoded::Incomplete));
    assert!(matches!(decode(b"*2\r\n$3\r\nGE"), Decoded::Incomplete));
    assert!(matches!(decode(b"*2\r\n$3\r\nGET\r\n"), Decoded::Incomplete));
    assert!(matches!(decode(b"*1"), Decoded::Incomplete));
    assert!(matches!(decode(b"+OK\r\n"), Decoded::Invalid));
    assert!(matches!(decode(b"*-1\r\n"), Decoded::Invalid));
    assert!(matches!(decode(b"*1\r\n$x\r\n"), Decoded::Invalid));
    assert!(matches!(decode(b"*1\r\n$1\r\nab\r\n"), Decoded::Invalid));
    assert!(matches!(decode(b"*1\n"), Decoded::Invalid));
    match decode(b"*2\r\n$3\r\nSET\r\n$1\r\nk\r\n") {
        Decoded::Frame(args, _) => {
            let t = texts_of(&args).unwrap();
            assert_eq!(t, vec!["SET", "k"]);
        }
        _ => panic!("expected a frame"),
    }
}

#[test]
fn encoding_replies() {
    assert_eq!(Reply::Status("OK".to_string()).encode(), b"+OK\r\n");
    assert_eq!(Reply::Error("ERR bad".to_string()).encode(), b"-ERR bad\r\n");
    assert_eq!(Reply::Integer(-42).encode(), b":-42\r\n");
    assert_eq!(Reply::Bulk(None).encode(), b"$-1\r\n");
    assert_eq!(Reply::Bulk(Some("é".to_string())).encode(), b"$2\r\n\xc3\xa9\r\n");
    assert_eq!(Reply::Array(vec![]).encode(), b"*0\r\n");
    assert_eq!(Reply::Array(vec![Some("a".to_string()), None]).encode(), b"*2\r\n$1\r\na\r\n$-1\r\n");
}
