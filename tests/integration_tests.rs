use kilodb::command::Command;
use kilodb::engine::context;
use kilodb::executor::command_executor;

fn create_test_context() -> context {
    context::new()
}

fn cmd(parts: &[&str]) -> Command {
    let v: Vec<String> = parts.iter().map(|s| s.to_string()).collect();
    Command::new(&v)
}

#[test]
fn test_string_operations_flow() {
    let mut ctx = create_test_context();

    let set_command = Command::new(&["SET".to_string(), "mykey".to_string(), "hello".to_string()]);
    let result = command_executor::execute_command(&set_command, &mut ctx);
    assert_eq!(result, b"+OK\r\n");

    let get_command = Command::new(&["GET".to_string(), "mykey".to_string()]);
    let result = command_executor::execute_command(&get_command, &mut ctx);
    assert_eq!(result, b"$5\r\nhello\r\n");

    let incr_command = Command::new(&["INCR".to_string(), "counter".to_string()]);
    let result = command_executor::execute_command(&incr_command, &mut ctx);
    assert_eq!(result, b":1\r\n");

    let result = command_executor::execute_command(&incr_command, &mut ctx);
    assert_eq!(result, b":2\r\n");

    let decr_command = Command::new(&["DECR".to_string(), "counter".to_string()]);
    let result = command_executor::execute_command(&decr_command, &mut ctx);
    assert_eq!(result, b":1\r\n");
}

#[test]
fn test_hash_operations_flow() {
    let mut ctx = create_test_context();

    let hset_command = cmd(&["HSET", "user:1", "name", "John", "age", "30"]);
    let result = command_executor::execute_command(&hset_command, &mut ctx);
    assert_eq!(result, b":2\r\n");

    let hget_command = cmd(&["HGET", "user:1", "name"]);
    let result = command_executor::execute_command(&hget_command, &mut ctx);
    assert_eq!(result, b"$4\r\nJohn\r\n");

    let hget_command = cmd(&["HGET", "user:1", "email"]);
    let result = command_executor::execute_command(&hget_command, &mut ctx);
    assert_eq!(result, b"$-1\r\n");
}

#[test]
fn test_list_operations_flow() {
    let mut ctx = create_test_context();

    let lpush_command = cmd(&["LPUSH", "mylist", "item1", "item2", "item3"]);
    let result = command_executor::execute_command(&lpush_command, &mut ctx);
    assert_eq!(result, b":3\r\n");

    let lpush_command = cmd(&["LPUSH", "mylist", "item0"]);
    let result = command_executor::execute_command(&lpush_command, &mut ctx);
    assert_eq!(result, b":4\r\n");
}

#[test]
fn test_set_operations_flow() {
    let mut ctx = create_test_context();

    let sadd_command = cmd(&["SADD", "myset", "member1", "member2", "member3"]);
    let result = command_executor::execute_command(&sadd_command, &mut ctx);
    assert_eq!(result, b":3\r\n");

    let sadd_command = cmd(&["SADD", "myset", "member1", "member4"]);
    let result = command_executor::execute_command(&sadd_command, &mut ctx);
    assert_eq!(result, b":1\r\n");
}

#[test]
fn test_sorted_set_operations_flow() {
    let mut ctx = create_test_context();

    let zadd_command = cmd(&["ZADD", "myzset", "1.0", "first", "2.0", "second", "3.0", "third"]);
    let result = command_executor::execute_command(&zadd_command, &mut ctx);
    assert_eq!(result, b":3\r\n");

    let zadd_command = cmd(&["ZADD", "myzset", "1.5", "first", "4.0", "fourth"]);
    let result = command_executor::execute_command(&zadd_command, &mut ctx);
    assert_eq!(result, b":1\r\n");
}

#[test]
fn test_database_operations_flow() {
    let mut ctx = create_test_context();

    let set_command = cmd(&["SET", "key1", "value1"]);
    command_executor::execute_command(&set_command, &mut ctx);

    let set_command = cmd(&["SET", "key2", "value2"]);
    command_executor::execute_command(&set_command, &mut ctx);

    let dbsize_command = cmd(&["DBSIZE"]);
    let result = command_executor::execute_command(&dbsize_command, &mut ctx);
    assert_eq!(result, b":2\r\n");

    let ping_command = cmd(&["PING"]);
    let result = command_executor::execute_command(&ping_command, &mut ctx);
    assert_eq!(result, b"+PONG\r\n");

    let echo_command = cmd(&["ECHO", "hello world"]);
    let result = command_executor::execute_command(&echo_command, &mut ctx);
    assert_eq!(result, b"$11\r\nhello world\r\n");
}

#[test]
fn test_error_handling() {
    let mut ctx = create_test_context();

    let get_command = cmd(&["GET", "nonexistent"]);
    let result = command_executor::execute_command(&get_command, &mut ctx);
    assert_eq!(result, b"$-1\r\n");

    let set_command = cmd(&["SET", "text", "hello"]);
    command_executor::execute_command(&set_command, &mut ctx);

    let incr_command = cmd(&["INCR", "text"]);
    let result = command_executor::execute_command(&incr_command, &mut ctx);
    assert_eq!(result, b"-ERR value is not an integer or out of range\r\n");

    // An unknown command gets the fixed error reply.
    let unknown_command = cmd(&["UNKNOWN"]);
    let result = command_executor::execute_command(&unknown_command, &mut ctx);
    assert_eq!(result, b"-ERR unknown command\r\n");
}

#[test]
fn test_command_parsing() {
    let set_command = Command::new(&["SET".to_string(), "key".to_string(), "value".to_string()]);
    match set_command {
        Command::SET { key, value, ttl } => {
            assert_eq!(key, "key");
            assert_eq!(value, "value");
            assert_eq!(ttl, None);
        }
        _ => panic!("Expected SET command"),
    }

    let set_command = cmd(&["SET", "key", "value", "EX", "60"]);
    match set_command {
        Command::SET { key, value, ttl } => {
            assert_eq!(key, "key");
            assert_eq!(value, "value");
            assert_eq!(ttl, Some(60));
        }
        _ => panic!("Expected SET command with TTL"),
    }

    let invalid_command = cmd(&["INVALID", "arg"]);
    match invalid_command {
        Command::Unknown { raw: _ } => {}
        _ => panic!("Expected Unknown command"),
    }
}
