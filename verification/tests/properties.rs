use toml_query::read::TomlValueReadExt;
use toml_query::resolver::{mut_creating_resolver, mut_resolver, non_mut_resolver};
use toml_query::tokenizer::tokenize;
use toml_query::value::{Table, Value};

fn sample() -> Value {
    let mut physical = Table::new();
    physical.insert(String::from("color"), Value::String(String::from("red")));
    let mut apple = Table::new();
    apple.insert(String::from("name"), Value::String(String::from("apple")));
    apple.insert(String::from("physical"), Value::Table(physical));
    let mut fruit = Table::new();
    fruit.insert(String::from("blah"), Value::Array(vec![Value::Table(apple), Value::Integer(2)]));
    let mut root = Table::new();
    root.insert(String::from("fruit"), Value::Table(fruit));
    root.insert(String::from("count"), Value::Integer(1));
    root.insert(String::from("ratio"), Value::Float(f64::to_bits(0.5)));
    Value::Table(root)
}

const PATHS: [&str; 14] = [
    "",
    "count",
    "ratio",
    "fruit",
    "fruit.blah",
    "fruit.blah.[0]",
    "fruit.blah.[0].name",
    "fruit.blah.[0].physical.color",
    "fruit.blah.[1]",
    "fruit.blah.[2]",
    "fruit.blah.name",
    "fruit.[0]",
    "count.x",
    "nothing.here",
];

#[test]
fn read_and_mutable_resolver_agree() {
    for query in PATHS {
        for strict in [false, true] {
            let tokens = tokenize(query).unwrap();
            let doc = sample();
            let mut other = sample();
            let read = non_mut_resolver::resolve(&doc, &tokens, strict);
            let write = mut_resolver::resolve(&mut other, &tokens, strict);
            match (read, write) {
                (Ok(Some(a)), Ok(Some(b))) => assert_eq!(a, b, "{}", query),
                (Ok(None), Ok(None)) => {}
                (Err(a), Err(b)) => assert_eq!(a, b, "{}", query),
                (a, b) => panic!("{}: {:?} against {:?}", query, a, b),
            }
        }
    }
}

#[test]
fn creating_twice_is_creating_once() {
    for query in PATHS.iter().chain(["a.b.c", "fruit.new.one", "fruit.blah.[0].more"].iter()) {
        let tokens = tokenize(query).unwrap();
        let mut doc = sample();
        let first = mut_creating_resolver::resolve(&mut doc, &tokens).map(|slot| slot.clone());
        let after_first = doc.clone();
        let second = mut_creating_resolver::resolve(&mut doc, &tokens).map(|slot| slot.clone());
        assert_eq!(first, second, "{}", query);
        assert_eq!(doc, after_first, "{}", query);
    }
}

#[test]
fn written_value_is_read_back() {
    for query in ["a.b.c", "count", "fruit.blah.[0].physical.color", "fruit.blah.[1]", ""] {
        let tokens = tokenize(query).unwrap();
        let mut doc = sample();
        *mut_creating_resolver::resolve(&mut doc, &tokens).unwrap() = Value::Integer(77);
        assert_eq!(doc.read(query).unwrap(), Some(&Value::Integer(77)), "{}", query);
    }
}

#[test]
fn round_trip_on_an_empty_document() {
    let mut doc = Value::Table(Table::new());
    let tokens = tokenize("a.b.c").unwrap();
    *mut_creating_resolver::resolve(&mut doc, &tokens).unwrap() = Value::Boolean(true);
    assert_eq!(doc.read("a.b.c").unwrap(), Some(&Value::Boolean(true)));
    assert!(matches!(doc.read("a.b").unwrap(), Some(&Value::Table(_))));
}

#[test]
fn writing_changes_nothing_else() {
    let mut doc = sample();
    let tokens = tokenize("fruit.blah.[0].name").unwrap();
    *mut_resolver::resolve(&mut doc, &tokens, false).unwrap().unwrap() = Value::Integer(0);
    let mut expected = sample();
    if let Value::Table(root) = &mut expected {
        if let Some(Value::Table(fruit)) = root.get_mut("fruit") {
            if let Some(Value::Array(items)) = fruit.get_mut("blah") {
                if let Value::Table(apple) = &mut items[0] {
                    apple.insert(String::from("name"), Value::Integer(0));
                }
            }
        }
    }
    assert_eq!(doc, expected);
}

#[test]
fn resolving_leaves_the_tokens_as_they_were() {
    let tokens = tokenize("fruit.blah.[0].name").unwrap();
    let again = tokenize("fruit.blah.[0].name").unwrap();
    let doc = sample();
    let mut other = sample();
    let _ = non_mut_resolver::resolve(&doc, &tokens, false);
    let _ = mut_resolver::resolve(&mut other, &tokens, false);
    let _ = mut_creating_resolver::resolve(&mut other, &tokens);
    assert_eq!(tokens, again);
    assert_eq!(
        non_mut_resolver::resolve(&doc, &tokens, false).unwrap(),
        Some(&Value::String(String::from("apple")))
    );
}
