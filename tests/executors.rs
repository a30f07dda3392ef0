use kilodb::command::Command;
use kilodb::engine::context;
use kilodb::executor::{hget, hset, incr, lpush, sadd, zadd};
use kilodb::hash_store::HashStore;
use kilodb::keyspace::Value;
use kilodb::score::SCORE_SCALE;
use kilodb::set_store::SetStore;
use kilodb::sorted_set_store::SortedSetStore;
use kilodb::string_store::StringStore;
use kilodb::vector_store::VectorStore;

fn create_test_context() -> context {
    context::new()
}

#[test]
fn test_hget_existing_field() {
    let mut ctx = create_test_context();
    let mut hash = HashStore::new();
    hash.set_field("name", "John");
    hash.set_field("age", "30");
    ctx.DataBase.insert("user:1".to_string(), Value::Hash(hash), None);

    let command = Command::HGET { key: "user:1".to_string(), field: "name".to_string() };
    let result = hget::execute(&command, &mut ctx, 0);
    assert_eq!(result, b"$4\r\nJohn\r\n");
}

#[test]
fn test_hget_nonexistent_field() {
    let mut ctx = create_test_context();
    let mut hash = HashStore::new();
    hash.set_field("name", "John");
    ctx.DataBase.insert("user:1".to_string(), Value::Hash(hash), None);

    let command = Command::HGET { key: "user:1".to_string(), field: "age".to_string() };
    let result = hget::execute(&command, &mut ctx, 0);
    assert_eq!(result, b"$-1\r\n");
}

#[test]
fn test_hget_nonexistent_key() {
    let mut ctx = create_test_context();
    let command = Command::HGET { key: "user:1".to_string(), field: "name".to_string() };
    let result = hget::execute(&command, &mut ctx, 0);
    assert_eq!(result, b"$-1\r\n");
}

#[test]
fn test_hget_empty_value() {
    let mut ctx = create_test_context();
    let mut hash = HashStore::new();
    hash.set_field("empty", "");
    ctx.DataBase.insert("user:1".to_string(), Value::Hash(hash), None);

    let command = Command::HGET { key: "user:1".to_string(), field: "empty".to_string() };
    let result = hget::execute(&command, &mut ctx, 0);
    assert_eq!(result, b"$0\r\n\r\n");
}

#[test]
fn test_hget_unicode_value() {
    let mut ctx = create_test_context();
    let mut hash = HashStore::new();
    hash.set_field("greeting", "Hello 世界");
    ctx.DataBase.insert("user:1".to_string(), Value::Hash(hash), None);

    let command = Command::HGET { key: "user:1".to_string(), field: "greeting".to_string() };
    let result = hget::execute(&command, &mut ctx, 0);
    assert_eq!(result, b"$12\r\nHello \xe4\xb8\x96\xe7\x95\x8c\r\n");
}

#[test]
fn test_hget_wrong_command() {
    let mut ctx = create_test_context();
    let command = Command::GET { key: "test".to_string() };
    let result = hget::execute(&command, &mut ctx, 0);
    assert_eq!(result, b"-ERR wrong command\r\n");
}

#[test]
fn test_hset_new_hash() {
    let mut ctx = create_test_context();
    let command = Command::HSET {
        key: "user:1".to_string(),
        fields: vec![
            ("name".to_string(), "John".to_string()),
            ("age".to_string(), "30".to_string()),
        ],
    };
    let result = hset::execute(&command, &mut ctx, 0);
    assert_eq!(result, b":2\r\n");
}

#[test]
fn test_hset_existing_hash() {
    let mut ctx = create_test_context();
    let mut existing_hash = HashStore::new();
    existing_hash.set_field("name", "John");
    ctx.DataBase.insert("user:1".to_string(), Value::Hash(existing_hash), None);

    let command = Command::HSET {
        key: "user:1".to_string(),
        fields: vec![
            ("name".to_string(), "Jane".to_string()),
            ("age".to_string(), "25".to_string()),
        ],
    };
    let result = hset::execute(&command, &mut ctx, 0);
    assert_eq!(result, b":1\r\n");
}

#[test]
fn test_hset_single_field() {
    let mut ctx = create_test_context();
    let command = Command::HSET {
        key: "user:1".to_string(),
        fields: vec![("name".to_string(), "John".to_string())],
    };
    let result = hset::execute(&command, &mut ctx, 0);
    assert_eq!(result, b":1\r\n");
}

#[test]
fn test_hset_empty_fields() {
    let mut ctx = create_test_context();
    let command = Command::HSET { key: "user:1".to_string(), fields: vec![] };
    let result = hset::execute(&command, &mut ctx, 0);
    assert_eq!(result, b":0\r\n");
}

#[test]
fn test_hset_wrong_command() {
    let mut ctx = create_test_context();
    let command = Command::GET { key: "test".to_string() };
    let result = hset::execute(&command, &mut ctx, 0);
    assert_eq!(result, b"-ERR wrong command\r\n");
}

#[test]
fn test_incr_new_key() {
    let mut ctx = create_test_context();
    let command = Command::INCR { key: "counter".to_string() };
    let result = incr::execute(&command, &mut ctx, 0);
    assert_eq!(result, b":1\r\n");
}

#[test]
fn test_incr_existing_key() {
    let mut ctx = create_test_context();
    ctx.DataBase.insert("counter".to_string(), Value::Str(StringStore::new("5".to_string())), None);
    let command = Command::INCR { key: "counter".to_string() };
    let result = incr::execute(&command, &mut ctx, 0);
    assert_eq!(result, b":6\r\n");
}

#[test]
fn test_incr_negative_value() {
    let mut ctx = create_test_context();
    ctx.DataBase.insert("counter".to_string(), Value::Str(StringStore::new("-1".to_string())), None);
    let command = Command::INCR { key: "counter".to_string() };
    let result = incr::execute(&command, &mut ctx, 0);
    assert_eq!(result, b":0\r\n");
}

#[test]
fn test_incr_invalid_value() {
    let mut ctx = create_test_context();
    ctx.DataBase.insert(
        "counter".to_string(),
        Value::Str(StringStore::new("not_a_number".to_string())),
        None,
    );
    let command = Command::INCR { key: "counter".to_string() };
    let result = incr::execute(&command, &mut ctx, 0);
    assert_eq!(result, b"-ERR value is not an integer or out of range\r\n");
}

#[test]
fn test_incr_wrong_command() {
    let mut ctx = create_test_context();
    let command = Command::GET { key: "test".to_string() };
    let result = incr::execute(&command, &mut ctx, 0);
    assert_eq!(result, b"-ERR wrong command\r\n");
}

#[test]
fn test_lpush_new_list() {
    let mut ctx = create_test_context();
    let command = Command::LPUSH {
        key: "mylist".to_string(),
        values: vec!["item1".to_string(), "item2".to_string(), "item3".to_string()],
    };
    let result = lpush::execute(&command, &mut ctx, 0);
    assert_eq!(result, b":3\r\n");
}

#[test]
fn test_lpush_existing_list() {
    let mut ctx = create_test_context();
    let mut existing_list = VectorStore::new();
    existing_list.push_left("existing");
    ctx.DataBase.insert("mylist".to_string(), Value::List(existing_list), None);

    let command = Command::LPUSH {
        key: "mylist".to_string(),
        values: vec!["item1".to_string(), "item2".to_string()],
    };
    let result = lpush::execute(&command, &mut ctx, 0);
    assert_eq!(result, b":3\r\n");
}

#[test]
fn test_lpush_single_value() {
    let mut ctx = create_test_context();
    let command = Command::LPUSH { key: "mylist".to_string(), values: vec!["single".to_string()] };
    let result = lpush::execute(&command, &mut ctx, 0);
    assert_eq!(result, b":1\r\n");
}

#[test]
fn test_lpush_empty_values() {
    let mut ctx = create_test_context();
    let command = Command::LPUSH { key: "mylist".to_string(), values: vec![] };
    let result = lpush::execute(&command, &mut ctx, 0);
    assert_eq!(result, b":0\r\n");
}

#[test]
fn test_lpush_wrong_command() {
    let mut ctx = create_test_context();
    let command = Command::GET { key: "test".to_string() };
    let result = lpush::execute(&command, &mut ctx, 0);
    assert_eq!(result, b"-ERR wrong command\r\n");
}

#[test]
fn test_sadd_new_set() {
    let mut ctx = create_test_context();
    let command = Command::SADD {
        key: "myset".to_string(),
        members: vec!["member1".to_string(), "member2".to_string(), "member3".to_string()],
    };
    let result = sadd::execute(&command, &mut ctx, 0);
    assert_eq!(result, b":3\r\n");
}

#[test]
fn test_sadd_existing_set() {
    let mut ctx = create_test_context();
    let mut existing_set = SetStore::new();
    existing_set.add_member("existing1");
    existing_set.add_member("existing2");
    ctx.DataBase.insert("myset".to_string(), Value::Members(existing_set), None);

    let command = Command::SADD {
        key: "myset".to_string(),
        members: vec!["existing1".to_string(), "new1".to_string(), "new2".to_string()],
    };
    let result = sadd::execute(&command, &mut ctx, 0);
    assert_eq!(result, b":2\r\n");
}

#[test]
fn test_sadd_duplicate_members() {
    let mut ctx = create_test_context();
    let command = Command::SADD {
        key: "myset".to_string(),
        members: vec!["member1".to_string(), "member1".to_string(), "member2".to_string()],
    };
    let result = sadd::execute(&command, &mut ctx, 0);
    assert_eq!(result, b":2\r\n");
}

#[test]
fn test_sadd_empty_members() {
    let mut ctx = create_test_context();
    let command = Command::SADD { key: "myset".to_string(), members: vec![] };
    let result = sadd::execute(&command, &mut ctx, 0);
    assert_eq!(result, b":0\r\n");
}

#[test]
fn test_sadd_single_member() {
    let mut ctx = create_test_context();
    let command = Command::SADD { key: "myset".to_string(), members: vec!["single".to_string()] };
    let result = sadd::execute(&command, &mut ctx, 0);
    assert_eq!(result, b":1\r\n");
}

#[test]
fn test_sadd_wrong_command() {
    let mut ctx = create_test_context();
    let command = Command::GET { key: "test".to_string() };
    let result = sadd::execute(&command, &mut ctx, 0);
    assert_eq!(result, b"-ERR wrong command\r\n");
}

#[test]
fn test_zadd_new_sorted_set() {
    let mut ctx = create_test_context();
    let command = Command::ZADD {
        key: "myzset".to_string(),
        entries: vec![
            (SCORE_SCALE, "first".to_string()),
            (2 * SCORE_SCALE, "second".to_string()),
            (3 * SCORE_SCALE, "third".to_string()),
        ],
    };
    let result = zadd::execute(&command, &mut ctx, 0);
    assert_eq!(result, b":3\r\n");
}

#[test]
fn test_zadd_existing_sorted_set() {
    let mut ctx = create_test_context();
    let mut existing_zset = SortedSetStore::new();
    existing_zset.add_member("existing", SCORE_SCALE);
    ctx.DataBase.insert("myzset".to_string(), Value::ZSet(existing_zset), None);

    let command = Command::ZADD {
        key: "myzset".to_string(),
        entries: vec![
            (3 * SCORE_SCALE / 2, "existing".to_string()),
            (2 * SCORE_SCALE, "new".to_string()),
        ],
    };
    let result = zadd::execute(&command, &mut ctx, 0);
    assert_eq!(result, b":1\r\n");
}

#[test]
fn test_zadd_duplicate_scores() {
    let mut ctx = create_test_context();
    let command = Command::ZADD {
        key: "myzset".to_string(),
        entries: vec![
            (SCORE_SCALE, "member1".to_string()),
            (SCORE_SCALE, "member2".to_string()),
            (SCORE_SCALE, "member3".to_string()),
        ],
    };
    let result = zadd::execute(&command, &mut ctx, 0);
    assert_eq!(result, b":3\r\n");
}

#[test]
fn test_zadd_negative_scores() {
    let mut ctx = create_test_context();
    let command = Command::ZADD {
        key: "myzset".to_string(),
        entries: vec![
            (-SCORE_SCALE, "negative".to_string()),
            (0, "zero".to_string()),
            (SCORE_SCALE, "positive".to_string()),
        ],
    };
    let result = zadd::execute(&command, &mut ctx, 0);
    assert_eq!(result, b":3\r\n");
}

#[test]
fn test_zadd_empty_entries() {
    let mut ctx = create_test_context();
    let command = Command::ZADD { key: "myzset".to_string(), entries: vec![] };
    let result = zadd::execute(&command, &mut ctx, 0);
    assert_eq!(result, b":0\r\n");
}

#[test]
fn test_zadd_single_entry() {
    let mut ctx = create_test_context();
    let command = Command::ZADD {
        key: "myzset".to_string(),
        entries: vec![(SCORE_SCALE, "single".to_string())],
    };
    let result = zadd::execute(&command, &mut ctx, 0);
    assert_eq!(result, b":1\r\n");
}

#[test]
fn test_zadd_wrong_command() {
    let mut ctx = create_test_context();
    let command = Command::GET { key: "test".to_string() };
    let result = zadd::execute(&command, &mut ctx, 0);
    assert_eq!(result, b"-ERR wrong command\r\n");
}
