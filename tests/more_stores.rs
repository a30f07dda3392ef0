use std::collections::VecDeque;

use kilodb::engine::context;
use kilodb::executor::{del, echo, get, ping};
use kilodb::command::Command;
use kilodb::keyspace::{DictStore, Value};
use kilodb::list_store::ListStore;
use kilodb::sorted_set_store::SortedSetStore;
use kilodb::string_store::StringStore;

#[test]
fn list_store_ends_and_ranges() {
    let mut l = ListStore::new();
    assert!(l.is_empty());
    l.push_back("b".to_string());
    l.push_front("a".to_string());
    l.push_back("c".to_string());
    assert_eq!(l.len(), 3);
    assert_eq!(l.get(0), Some(&"a".to_string()));
    assert_eq!(l.get(-1), Some(&"c".to_string()));
    assert_eq!(l.get(3), None);
    assert_eq!(l.range(0, -1), vec!["a", "b", "c"]);
    assert_eq!(l.range(-1, -1), vec!["c"]);
    assert_eq!(l.range(5, 9), Vec::<&String>::new());
    assert_eq!(l.range(1, 10), vec!["b", "c"]);
    assert_eq!(l.range(2, 1), Vec::<&String>::new());
    assert_eq!(l.pop_front(), Some("a".to_string()));
    assert_eq!(l.pop_back(), Some("c".to_string()));
    assert_eq!(l.pop_back(), Some("b".to_string()));
    assert_eq!(l.pop_back(), None);
    let d: VecDeque<String> = vec!["x".to_string(), "y".to_string()].into();
    let l2 = ListStore::new_with_data(d);
    assert_eq!(l2.len(), 2);
    assert_eq!(l2.get(1), Some(&"y".to_string()));
}

#[test]
fn sorted_set_orders_by_score_then_member() {
    let mut z = SortedSetStore::new();
    assert!(z.add_member("b", 2));
    assert!(z.add_member("a", 2));
    assert!(z.add_member("c", 1));
    assert_eq!(z.get_range(0, -1), vec!["c", "a", "b"]);
    assert!(!z.add_member("c", 3));
    assert_eq!(z.get_range(0, -1), vec!["a", "b", "c"]);
    assert_eq!(z.get_rank("b"), Some(1));
    assert_eq!(z.get_rank("q"), None);
    assert_eq!(z.get_score("c"), Some(3));
    assert_eq!(z.len(), 3);
    assert!(z.remove_member("a"));
    assert!(!z.remove_member("a"));
    assert_eq!(z.get_range(-1, -1), vec!["c"]);
    assert_eq!(z.get_range(5, 9), Vec::<String>::new());
}

#[test]
fn dict_store_insert_remove_take() {
    let mut d = DictStore::new();
    d.insert("k".to_string(), Value::Str(StringStore::new("v".to_string())), Some(10));
    d.insert("k".to_string(), Value::Str(StringStore::new("w".to_string())), None);
    assert_eq!(d.len(), 1);
    assert_eq!(d.find_live("k", 100), Some(0));
    assert!(d.remove("k"));
    assert!(!d.remove("k"));
    d.insert("e".to_string(), Value::Str(StringStore::new("v".to_string())), Some(10));
    assert_eq!(d.find_live("e", 9), Some(0));
    assert_eq!(d.find_live("e", 10), None);
    assert_eq!(d.len(), 0);
    d.insert("t".to_string(), Value::Str(StringStore::new("v".to_string())), None);
    assert!(d.take("t").is_some());
    assert!(d.take("t").is_none());
    d.insert("x".to_string(), Value::Str(StringStore::new("v".to_string())), None);
    d.clear();
    assert_eq!(d.len(), 0);
}

#[test]
fn executors_run_their_own_command_only() {
    let mut ctx = context::new();
    let s = Command::SET { key: "k".to_string(), value: "v".to_string(), ttl: None };
    assert_eq!(kilodb::executor::set::execute(&s, &mut ctx, 0), b"+OK\r\n");
    assert_eq!(get::execute(&s, &mut ctx, 0), b"-ERR wrong command\r\n");
    let g = Command::GET { key: "k".to_string() };
    assert_eq!(get::execute(&g, &mut ctx, 0), b"$1\r\nv\r\n");
    assert_eq!(ping::execute(&Command::PING, &mut ctx, 0), b"+PONG\r\n");
    let e = Command::ECHO { message: "hi".to_string() };
    assert_eq!(echo::execute(&e, &mut ctx, 0), b"$2\r\nhi\r\n");
    let d = Command::DEL { keys: vec!["k".to_string(), "k".to_string()] };
    assert_eq!(del::execute(&d, &mut ctx, 0), b":1\r\n");
    assert_eq!(get::execute(&g, &mut ctx, 0), b"$-1\r\n");
}
