use myco_kv::errors::TransactionError;
use myco_kv::operation::value::Value;
use myco_kv::radixtree::accesstype::AccessType;
use myco_kv::radixtree::radixnode::RadixNode;
use myco_kv::radixtree::recursive_map::RecursiveMap;
use myco_kv::radixtree::RadixTree;

fn json(text: &str) -> serde_json::Value {
    serde_json::from_str::<serde_json::Value>(text).unwrap()
}

#[test]
fn puts_and_gets_single_value() {
    let mut radix = RadixTree::new();
    radix
        .put("key".to_string(), Value::String("value".to_string()))
        .unwrap();

    assert_eq!(radix.get("key").unwrap(), "\"value\"".to_string());
}

#[test]
fn puts_and_gets_nested_single_value() {
    let mut radix = RadixTree::new();
    radix
        .put(
            "key.abc.def".to_string(),
            Value::String("value".to_string()),
        )
        .unwrap();

    assert_eq!(radix.get("key.abc.def").unwrap(), "\"value\"".to_string());
}

#[test]
fn puts_and_gets_multiple_values() {
    let mut radix = RadixTree::new();
    radix
        .put("key.a".to_string(), Value::String("value1".to_string()))
        .unwrap();
    radix
        .put("key.b".to_string(), Value::String("value2".to_string()))
        .unwrap();
    radix
        .put("key.c".to_string(), Value::String("value3".to_string()))
        .unwrap();

    let expected = json(r#"{"a": "value1", "b": "value2", "c": "value3"}"#);

    let actual = radix.get("key.*").unwrap();
    let actual = serde_json::from_str::<serde_json::Value>(&actual).unwrap();

    assert_eq!(actual, expected);
}

#[test]
fn puts_and_gets_nested_subtree() {
    let mut radix = RadixTree::new();
    radix
        .put("key.a".to_string(), Value::String("value1".to_string()))
        .unwrap();
    radix
        .put("key.b".to_string(), Value::String("value2".to_string()))
        .unwrap();
    radix
        .put("key.b.a".to_string(), Value::String("value3".to_string()))
        .unwrap();

    let expected = json(r#"{"a": "value1", "b": {"_": "value2", "a": "value3"}}"#);

    let actual = radix.get("key.*").unwrap();
    let actual = serde_json::from_str::<serde_json::Value>(&actual).unwrap();

    assert_eq!(actual, expected);
}

#[test]
fn puts_and_gets_partial_subtree() {
    let mut radix = RadixTree::new();
    radix
        .put("key.a".to_string(), Value::String("value1".to_string()))
        .unwrap();
    radix
        .put("key.b".to_string(), Value::String("value2".to_string()))
        .unwrap();
    radix
        .put("key.b.a".to_string(), Value::String("value3".to_string()))
        .unwrap();

    let expected = json(r#"{"a": "value1", "b": "value2"}"#);

    let actual = radix.get("key.*1").unwrap();
    let actual = serde_json::from_str::<serde_json::Value>(&actual).unwrap();

    assert_eq!(actual, expected);
}

#[test]
fn deletes_empty_subtrees() {
    let mut radix = RadixTree::new();
    radix
        .put("a.b.c".to_string(), Value::String("value".to_string()))
        .unwrap();
    radix
        .put("a.b.c.d.z".to_string(), Value::String("value".to_string()))
        .unwrap();
    radix
        .put(
            "a.b.c.d.e.f".to_string(),
            Value::String("value".to_string()),
        )
        .unwrap();
    radix.delete("a.b.c.d.e.f".to_string()).unwrap();
    radix.delete("a.b.c".to_string()).unwrap();

    let expected = json(r#"{"b": {"c": {"d": {"z": "value"}}}}"#);

    let actual = radix.get("a.*").unwrap();
    let actual = serde_json::from_str::<serde_json::Value>(&actual).unwrap();

    assert_eq!(actual, expected);
}

#[test]
fn deletes_not_found_key_in_subtree_path() {
    let mut radix = RadixTree::new();
    radix
        .put("a.b.c".to_string(), Value::String("value".to_string()))
        .unwrap();
    radix.delete("a.b.c".to_string()).unwrap();

    assert_eq!(
        radix.delete("a.b".to_string()),
        Err(TransactionError::KeyNotFound("a.b".to_string()))
    );
}

#[test]
fn properly_serializes_to_json() {
    let mut cupboard_contents = RecursiveMap::new();
    cupboard_contents.insert(
        String::from("cups"),
        RecursiveMap::Value(Value::String("3".to_string())),
    );
    cupboard_contents.insert(
        String::from("plates"),
        RecursiveMap::Value(Value::String("4".to_string())),
    );

    let mut refrigerator_contents = RecursiveMap::new();
    refrigerator_contents.insert(
        String::from("milk"),
        RecursiveMap::Value(Value::String("1".to_string())),
    );
    refrigerator_contents.insert(
        String::from("eggs"),
        RecursiveMap::Value(Value::String("12".to_string())),
    );

    let mut kitchen_contents = RecursiveMap::new();
    kitchen_contents.insert(String::from("cupboard"), cupboard_contents);
    kitchen_contents.insert(String::from("refrigerator"), refrigerator_contents);

    let mut house_contents = RecursiveMap::new();
    house_contents.insert(String::from("kitchen"), kitchen_contents);

    let expected = json(
        r#"{"kitchen": {"cupboard": {"cups": "3", "plates": "4"},
            "refrigerator": {"milk": "1", "eggs": "12"}}}"#,
    );

    let actual = house_contents.to_string().unwrap();
    println!("{}", actual);
    let actual = serde_json::from_str::<serde_json::Value>(&actual).unwrap();

    assert_eq!(expected, actual);
}

#[test]
fn object_text_is_exact() {
    let mut object = RecursiveMap::new();
    assert_eq!(object.to_string().unwrap(), "{}");
    object.insert("a".to_string(), RecursiveMap::Value(Value::Integer(1)));
    assert_eq!(object.to_string().unwrap(), "{\"a\":1}");
    object.insert("b \"q\"".to_string(), RecursiveMap::Value(Value::Null));
    assert_eq!(object.to_string().unwrap(), "{\"a\":1,\"b \\\"q\\\"\":null}");
    object.insert("a".to_string(), RecursiveMap::Value(Value::Boolean(true)));
    assert_eq!(object.to_string().unwrap(), "{\"a\":true,\"b \\\"q\\\"\":null}");
}

#[test]
fn insert_leaves_a_scalar_alone() {
    let mut scalar = RecursiveMap::Value(Value::Integer(3));
    scalar.insert("a".to_string(), RecursiveMap::Value(Value::Null));
    assert_eq!(scalar, RecursiveMap::Value(Value::Integer(3)));
}

#[test]
fn access_types() {
    assert_eq!(AccessType::parse("a.b"), AccessType::Direct);
    assert_eq!(AccessType::parse("a.b.*"), AccessType::FullSubtree("a.b".to_string()));
    assert_eq!(AccessType::parse("a.*3"), AccessType::PartialSubtree("a".to_string(), 3));
    assert_eq!(AccessType::parse("a.*0"), AccessType::PartialSubtree("a".to_string(), 0));
    assert_eq!(AccessType::parse("a.*+2"), AccessType::PartialSubtree("a".to_string(), 2));
    assert_eq!(AccessType::parse("*"), AccessType::FullSubtree("".to_string()));
    assert_eq!(AccessType::parse("a.*x"), AccessType::Direct);
    assert_eq!(AccessType::parse("a.*-1"), AccessType::Direct);
    assert_eq!(AccessType::parse("a.*99999999999999999999999"), AccessType::Direct);
    assert_eq!(AccessType::parse("a."), AccessType::Direct);
    assert_eq!(AccessType::parse(""), AccessType::Direct);
    assert_eq!(AccessType::parse("*.b"), AccessType::Direct);
}

#[test]
fn put_refuses_reserved_tokens() {
    let mut radix = RadixTree::new();
    assert_eq!(
        radix.put("a.*b.c".to_string(), Value::Null),
        Err(TransactionError::InvalidKey("a.*b.c".to_string()))
    );
    assert_eq!(
        radix.put("a.*".to_string(), Value::Null),
        Err(TransactionError::InvalidKey("a.*".to_string()))
    );
    // nothing was added on the way to the refused token
    assert_eq!(
        radix.get("a.*"),
        Err(TransactionError::KeyNotFound("a".to_string()))
    );
    assert!(!radix.contains("a.*"));
}

#[test]
fn put_returns_plain_text_and_replaces() {
    let mut radix = RadixTree::new();
    assert_eq!(
        radix.put("k".to_string(), Value::String("v1".to_string())),
        Ok("v1".to_string())
    );
    assert_eq!(radix.put("k".to_string(), Value::Integer(2)), Ok("2".to_string()));
    assert_eq!(radix.get("k"), Ok("2".to_string()));
    assert_eq!(radix.delete("k".to_string()), Ok("2".to_string()));
    assert_eq!(radix.get("k"), Err(TransactionError::KeyNotFound("k".to_string())));
}

#[test]
fn subtree_of_a_missing_prefix_names_the_prefix() {
    let mut radix = RadixTree::new();
    radix.put("a.b".to_string(), Value::Integer(1)).unwrap();
    assert_eq!(
        radix.get("a.x.*"),
        Err(TransactionError::KeyNotFound("a.x".to_string()))
    );
    assert_eq!(
        radix.get("z.*2"),
        Err(TransactionError::KeyNotFound("z".to_string()))
    );
}

#[test]
fn subtree_of_a_leaf_is_its_value() {
    let mut radix = RadixTree::new();
    radix.put("a.b".to_string(), Value::Integer(1)).unwrap();
    assert_eq!(radix.get("a.b.*"), Ok("1".to_string()));
    assert_eq!(radix.get("a.*"), Ok("{\"b\":1}".to_string()));
}

#[test]
fn depth_limit_skips_children_without_a_value() {
    let mut radix = RadixTree::new();
    radix.put("a.x".to_string(), Value::Integer(1)).unwrap();
    radix.put("a.y.z".to_string(), Value::Integer(3)).unwrap();
    assert_eq!(json(&radix.get("a.*1").unwrap()), json(r#"{"x": 1}"#));
    assert_eq!(json(&radix.get("a.*2").unwrap()), json(r#"{"x": 1, "y": {"z": 3}}"#));
    assert_eq!(json(&radix.get("a.*0").unwrap()), json(r#"{"x": 1, "y": {"z": 3}}"#));
}

#[test]
fn members_keep_the_order_of_insertion() {
    let mut radix = RadixTree::new();
    radix.put("a.c".to_string(), Value::Integer(2)).unwrap();
    radix.put("a.b".to_string(), Value::Integer(1)).unwrap();
    radix.put("a".to_string(), Value::Integer(0)).unwrap();
    assert_eq!(radix.get("a.*"), Ok("{\"c\":2,\"b\":1,\"_\":0}".to_string()));
}

#[test]
fn delete_prunes_up_to_the_next_key() {
    let mut radix = RadixTree::new();
    radix.put("a".to_string(), Value::Integer(0)).unwrap();
    radix.put("a.b.c".to_string(), Value::Integer(1)).unwrap();
    radix.delete("a.b.c".to_string()).unwrap();
    assert!(!radix.contains("a.b.*"));
    assert!(radix.contains("a.*"));
    assert_eq!(radix.get("a.*"), Ok("0".to_string()));
    radix.delete("a".to_string()).unwrap();
    assert!(!radix.contains("a.*"));
}

#[test]
fn purge_empties_the_index() {
    let mut radix = RadixTree::new();
    radix.put("a.b".to_string(), Value::Integer(1)).unwrap();
    assert_eq!(radix.purge(), Ok(()));
    assert_eq!(radix.get("a.b"), Err(TransactionError::KeyNotFound("a.b".to_string())));
    assert!(!radix.contains("a.*"));
    assert_eq!(radix.purge(), Ok(()));
}

#[test]
fn value_looks_in_the_flat_map() {
    let mut radix = RadixTree::new();
    radix.put("a.b".to_string(), Value::Integer(1)).unwrap();
    assert_eq!(radix.value("a.b"), Some(&Value::Integer(1)));
    assert_eq!(radix.value("a"), None);
}

#[test]
fn node_find_gives_the_position_of_a_token() {
    let mut node = RadixNode::new("a".to_string());
    assert_eq!(node.find("b"), None);
    node.children.push(("b".to_string(), RadixNode::new("a.b".to_string())));
    node.children.push(("c".to_string(), RadixNode::new("a.c".to_string())));
    assert_eq!(node.find("c"), Some(1));
    assert_eq!(node.key, "a");
}

#[test]
fn serialize_subtree_of_a_hand_made_node() {
    let mut radix = RadixTree::new();
    radix.put("a.b".to_string(), Value::Integer(1)).unwrap();
    let mut node = RadixNode::new("a".to_string());
    node.children.push(("b".to_string(), RadixNode::new("a.b".to_string())));
    node.children.push(("c".to_string(), RadixNode::new("a.c".to_string())));
    let all = radix.serialize_subtree(&node, 0);
    assert_eq!(all.to_string().unwrap(), "{\"b\":1,\"c\":null}");
    let one = radix.serialize_subtree(&node, 1);
    assert_eq!(one.to_string().unwrap(), "{\"b\":1}");
}
