use acp_pipe::acp::RpcId;
use acp_pipe::table::Table;

#[test]
fn keys_keep_the_order_in_which_they_came() {
    let mut t: Table<String, u32> = Table::new();
    assert!(t.is_empty());
    assert_eq!(t.insert("b".to_string(), 1), None);
    assert_eq!(t.insert("a".to_string(), 2), None);
    assert_eq!(t.insert("b".to_string(), 3), Some(1));
    assert_eq!(t.len(), 2);
    assert_eq!((t.key_at(0).as_str(), *t.value_at(0)), ("b", 3));
    assert_eq!((t.key_at(1).as_str(), *t.value_at(1)), ("a", 2));
    *t.get_mut(&"a".to_string()).unwrap() = 9;
    assert_eq!(t.get(&"a".to_string()), Some(&9));
    assert!(t.get_mut(&"c".to_string()).is_none());
    assert_eq!(t.remove(&"b".to_string()), Some(3));
    assert_eq!(t.remove(&"b".to_string()), None);
    assert_eq!(t.key_at(0), "a");
    t.clear();
    assert!(t.is_empty());
}

#[test]
fn numbers_and_strings_are_different_ids() {
    let mut t: Table<RpcId, u32> = Table::new();
    t.insert(RpcId::Num(1), 1);
    t.insert(RpcId::Str("1".to_string()), 2);
    assert_eq!(t.len(), 2);
    assert_eq!(t.get(&RpcId::Num(1)), Some(&1));
    assert_eq!(t.get(&RpcId::Str("1".to_string())), Some(&2));
    assert!(t.get(&RpcId::Num(2)).is_none());
}
