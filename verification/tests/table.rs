use toml_query::text::same_text;
use toml_query::util::name_of_val;
use toml_query::value::{Table, Value};

#[test]
fn new_table_is_empty() {
    let t = Table::new();
    assert!(t.is_empty());
    assert_eq!(t.len(), 0);
    assert!(!t.contains_key("a"));
    assert!(t.get("a").is_none());
}

#[test]
fn insert_stores_and_replaces() {
    let mut t = Table::new();
    assert_eq!(t.insert(String::from("a"), Value::Integer(1)), None);
    assert_eq!(t.insert(String::from("b"), Value::Integer(2)), None);
    assert_eq!(t.len(), 2);
    assert!(!t.is_empty());
    assert_eq!(t.get("a"), Some(&Value::Integer(1)));
    assert_eq!(t.get("b"), Some(&Value::Integer(2)));
    assert_eq!(t.insert(String::from("a"), Value::Boolean(true)), Some(Value::Integer(1)));
    assert_eq!(t.len(), 2);
    assert_eq!(t.get("a"), Some(&Value::Boolean(true)));
    assert_eq!(t.get("b"), Some(&Value::Integer(2)));
    assert!(t.contains_key("a"));
    assert!(!t.contains_key("c"));
}

#[test]
fn get_mut_writes_through() {
    let mut t = Table::new();
    t.insert(String::from("a"), Value::Integer(1));
    t.insert(String::from("b"), Value::Integer(2));
    *t.get_mut("b").unwrap() = Value::String(String::from("x"));
    assert_eq!(t.get("a"), Some(&Value::Integer(1)));
    assert_eq!(t.get("b"), Some(&Value::String(String::from("x"))));
    assert!(t.get_mut("c").is_none());
    assert_eq!(t.len(), 2);
}

#[test]
fn get_or_insert_keeps_what_is_there() {
    let mut t = Table::new();
    t.insert(String::from("a"), Value::Integer(1));
    assert_eq!(t.get_or_insert(String::from("a"), Value::Integer(9)), &mut Value::Integer(1));
    assert_eq!(t.len(), 1);
    assert_eq!(t.get_or_insert(String::from("b"), Value::Integer(9)), &mut Value::Integer(9));
    assert_eq!(t.len(), 2);
    *t.get_or_insert(String::from("c"), Value::Integer(0)) = Value::Integer(3);
    assert_eq!(t.get("c"), Some(&Value::Integer(3)));
    assert_eq!(t.len(), 3);
}

#[test]
fn clone_copies_the_tree() {
    let mut inner = Table::new();
    inner.insert(String::from("x"), Value::Array(vec![Value::Integer(1), Value::Boolean(false)]));
    let mut t = Table::new();
    t.insert(String::from("inner"), Value::Table(inner));
    t.insert(String::from("s"), Value::String(String::from("text")));
    let doc = Value::Table(t);
    let mut copy = doc.clone();
    assert_eq!(copy, doc);
    if let Value::Table(ref mut c) = copy {
        c.insert(String::from("s"), Value::Integer(0));
    }
    assert_ne!(copy, doc);
}

#[test]
fn names_of_the_types() {
    assert_eq!(name_of_val(&Value::String(String::new())), "String");
    assert_eq!(name_of_val(&Value::Integer(0)), "Integer");
    assert_eq!(name_of_val(&Value::Float(0)), "Float");
    assert_eq!(name_of_val(&Value::Boolean(true)), "Boolean");
    assert_eq!(name_of_val(&Value::Datetime(String::from("1979-05-27T07:32:00Z"))), "Datetime");
    assert_eq!(name_of_val(&Value::Array(vec![])), "Array");
    assert_eq!(name_of_val(&Value::Table(Table::new())), "Table");
}

#[test]
fn same_text_compares_characters() {
    assert!(same_text("", ""));
    assert!(same_text("käse", "käse"));
    assert!(!same_text("a", "b"));
    assert!(!same_text("a", "ab"));
    assert!(!same_text("ab", "a"));
}

#[test]
fn tables_are_equal_whatever_the_order_of_insertion() {
    let mut a = Table::new();
    a.insert(String::from("x"), Value::Integer(1));
    a.insert(String::from("y"), Value::Array(vec![Value::Boolean(true)]));
    let mut b = Table::new();
    b.insert(String::from("y"), Value::Array(vec![Value::Boolean(true)]));
    b.insert(String::from("x"), Value::Integer(1));
    assert_eq!(a, b);
    assert_eq!(Value::Table(a.clone()), Value::Table(b.clone()));
    b.insert(String::from("x"), Value::Integer(2));
    assert_ne!(a, b);
    b.insert(String::from("x"), Value::Integer(1));
    b.insert(String::from("z"), Value::Integer(1));
    assert_ne!(a, b);
    assert_ne!(b, a);
}

#[test]
fn values_of_different_types_differ() {
    assert_ne!(Value::Integer(1), Value::Float(f64::to_bits(1.0)));
    assert_ne!(Value::String(String::from("a")), Value::Datetime(String::from("a")));
    assert_ne!(Value::Array(vec![]), Value::Table(Table::new()));
    assert_ne!(Value::Array(vec![Value::Integer(1)]), Value::Array(vec![]));
    assert_ne!(
        Value::Array(vec![Value::Integer(1), Value::Integer(2)]),
        Value::Array(vec![Value::Integer(2), Value::Integer(1)])
    );
    assert_eq!(Value::Boolean(false), Value::Boolean(false));
}

#[test]
fn nth_walks_the_entries_in_order() {
    let mut t = Table::new();
    t.insert(String::from("b"), Value::Integer(2));
    t.insert(String::from("a"), Value::Integer(1));
    t.insert(String::from("b"), Value::Integer(3));
    assert_eq!(t.nth(0), Some((&String::from("b"), &Value::Integer(3))));
    assert_eq!(t.nth(1), Some((&String::from("a"), &Value::Integer(1))));
    assert_eq!(t.nth(2), None);
    assert_eq!(t.len(), 2);
}

#[test]
fn entries_keep_the_order_in_which_they_were_made() {
    let mut t = Table::new();
    t.insert(String::from("z"), Value::Integer(1));
    t.get_or_insert(String::from("m"), Value::Integer(2));
    t.get_or_insert(String::from("z"), Value::Integer(9));
    t.insert(String::from("a"), Value::Integer(3));
    *t.get_mut("m").unwrap() = Value::Integer(4);
    assert_eq!(t.nth(0), Some((&String::from("z"), &Value::Integer(1))));
    assert_eq!(t.nth(1), Some((&String::from("m"), &Value::Integer(4))));
    assert_eq!(t.nth(2), Some((&String::from("a"), &Value::Integer(3))));
    assert_eq!(t.nth(3), None);
    let copy = t.clone();
    assert_eq!(copy.nth(0), Some((&String::from("z"), &Value::Integer(1))));
    assert_eq!(copy.nth(2), Some((&String::from("a"), &Value::Integer(3))));
}
