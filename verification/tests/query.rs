use toml_query::error::{Error, ErrorKind};
use toml_query::query::{Query, Queryable, ReadQuery};
use toml_query::read::TomlValueReadExt;
use toml_query::value::{Table, Value};

fn convert(value: &toml::Value) -> Value {
    match value {
        toml::Value::String(s) => Value::String(s.clone()),
        toml::Value::Integer(i) => Value::Integer(*i),
        toml::Value::Float(f) => Value::Float(f.to_bits()),
        toml::Value::Boolean(b) => Value::Boolean(*b),
        toml::Value::Datetime(d) => Value::Datetime(d.to_string()),
        toml::Value::Array(items) => Value::Array(items.iter().map(convert).collect()),
        toml::Value::Table(entries) => {
            let mut table = Table::new();
            for (key, item) in entries {
                table.insert(key.clone(), convert(item));
            }
            Value::Table(table)
        }
    }
}

fn toml_from_str(text: &str) -> Result<Value, toml::de::Error> {
    toml::from_str::<toml::Value>(text).map(|value| convert(&value))
}

struct TestQuery;

impl Query for TestQuery {
    type Output = Vec<i64>;

    fn execute(&self, target: &mut Value) -> Result<Self::Output, Error> {
        match *target {
            Value::Integer(i) => Ok(vec![i]),
            _ => panic!("Unexpected target"),
        }
    }

    fn query_path(&self) -> &str {
        "table.a"
    }
}

#[test]
fn test_type_converting_query_1() {
    let mut toml: Value = toml_from_str(r#"
        [table]
        a = 1
        "#).unwrap();

    let query = TestQuery {};

    let val = toml.execute_query(&query);
    assert!(val.is_ok());
    assert_eq!(val.unwrap(), vec![1]);
}

struct PersonQuery;
struct Person {
    pub first_name: String,
    pub last_name: String,
    pub age: i64,
}

impl Query for PersonQuery {
    type Output = Person;

    fn execute(&self, t: &mut Value) -> Result<Self::Output, Error> {
        let first_name = t
            .read("first_name")?
            .ok_or(Error::from_kind(ErrorKind::NotAvailable("first_name".to_owned())))?;
        let last_name = t
            .read("last_name")?
            .ok_or(Error::from_kind(ErrorKind::NotAvailable("last_name".to_owned())))?;
        let age = t
            .read("age")?
            .ok_or(Error::from_kind(ErrorKind::NotAvailable("age".to_owned())))?;

        let first_name = match first_name {
            &Value::String(ref s) => s.clone(),
            _ => panic!("Wrong type"),
        };
        let last_name = match last_name {
            &Value::String(ref s) => s.clone(),
            _ => panic!("Wrong type"),
        };
        let age = match *age {
            Value::Integer(i) => i,
            _ => panic!("Wrong type"),
        };

        Ok(Person {
            first_name: first_name,
            last_name: last_name,
            age: age,
        })
    }

    fn query_path(&self) -> &str {
        "table.a"
    }
}

#[test]
fn test_type_converting_query_2() {
    let mut toml: Value = toml_from_str(r#"
        [table.a]
        first_name = "Max"
        last_name = "Mustermann"
        age = 77
        "#).unwrap();

    let query = PersonQuery {};

    let val = toml.execute_query(&query);

    assert!(val.is_ok());
    let val = val.unwrap();

    assert_eq!(val.first_name, "Max");
    assert_eq!(val.last_name, "Mustermann");
    assert_eq!(val.age, 77);
}

#[test]
fn read_query_copies_the_node_and_leaves_the_document() {
    let mut toml: Value = toml_from_str("[table]\na = 1\n").unwrap();
    let before = toml.clone();
    let query = ReadQuery::new("table");
    let copy = toml.execute_query(&query).unwrap();
    let mut expected = Table::new();
    expected.insert(String::from("a"), Value::Integer(1));
    assert_eq!(copy, Value::Table(expected));
    assert_eq!(toml, before);
}

#[test]
fn query_on_a_missing_path_is_not_available() {
    let mut toml: Value = toml_from_str("[table]\na = 1\n").unwrap();
    let query = ReadQuery::new("table.b");
    let err = toml.execute_query(&query).unwrap_err();
    assert_eq!(err.kind(), &ErrorKind::NotAvailable(String::from("table.b")));
}

#[test]
fn query_on_a_path_that_does_not_fit_fails_with_the_walk() {
    let mut toml: Value = toml_from_str("[table]\na = 1\n").unwrap();
    let query = ReadQuery::new("table.[0]");
    let err = toml.execute_query(&query).unwrap_err();
    assert_eq!(err.kind(), &ErrorKind::NoIndexInTable(0));
}

struct Increment;

impl Query for Increment {
    type Output = Value;

    fn execute(&self, target: &mut Value) -> Result<Self::Output, Error> {
        match target {
            Value::Table(table) => match table.get_mut("b") {
                Some(Value::Integer(i)) => {
                    *i += 1;
                    Ok(Value::Integer(*i))
                }
                _ => panic!("Unexpected entry"),
            },
            _ => panic!("Unexpected target"),
        }
    }

    fn query_path(&self) -> &str {
        "a"
    }
}

struct Failing;

impl Query for Failing {
    type Output = Value;

    fn execute(&self, _target: &mut Value) -> Result<Self::Output, Error> {
        Err(Error::from_kind(ErrorKind::NotAvailable(String::from("nothing"))))
    }

    fn query_path(&self) -> &str {
        "a"
    }
}

#[test]
fn second_query_is_resolved_below_the_node_of_the_first() {
    let mut toml: Value = toml_from_str("[a]\nb = 1\n").unwrap();
    let val = toml.execute_query_then(&ReadQuery::new("a"), &ReadQuery::new("b")).unwrap();
    assert_eq!(val, Value::Integer(1));
    assert_eq!(toml, toml_from_str("[a]\nb = 1\n").unwrap());
}

#[test]
fn second_query_sees_what_the_first_left() {
    let mut toml: Value = toml_from_str("[a]\nb = 1\n").unwrap();
    let val = toml.execute_query_then(&Increment, &ReadQuery::new("b")).unwrap();
    assert_eq!(val, Value::Integer(2));
    assert_eq!(toml, toml_from_str("[a]\nb = 2\n").unwrap());
}

#[test]
fn second_query_with_the_empty_path_gets_the_node_itself() {
    let mut toml: Value = toml_from_str("[a]\nb = 1\n").unwrap();
    let val = toml.execute_query_then(&ReadQuery::new("a"), &ReadQuery::new("")).unwrap();
    assert_eq!(val, toml_from_str("b = 1").unwrap());
}

#[test]
fn second_query_on_a_missing_path_is_not_available() {
    let mut toml: Value = toml_from_str("[a]\nb = 1\n").unwrap();
    let err = toml.execute_query_then(&ReadQuery::new("a"), &ReadQuery::new("c")).unwrap_err();
    assert_eq!(err.kind(), &ErrorKind::NotAvailable(String::from("c")));
    let err = toml.execute_query_then(&ReadQuery::new("a"), &ReadQuery::new("a.b")).unwrap_err();
    assert_eq!(err.kind(), &ErrorKind::NotAvailable(String::from("a.b")));
}

#[test]
fn second_query_on_a_path_that_does_not_fit_fails_with_the_walk() {
    let mut toml: Value = toml_from_str("[a]\nb = 1\n").unwrap();
    let err = toml.execute_query_then(&ReadQuery::new("a"), &ReadQuery::new("b.c")).unwrap_err();
    assert_eq!(err.kind(), &ErrorKind::QueryingValueAsTable(String::from("c")));
    let err = toml.execute_query_then(&ReadQuery::new("a"), &ReadQuery::new("[x]")).unwrap_err();
    assert_eq!(err.kind(), &ErrorKind::ArrayAccessWithoutIndex);
}

#[test]
fn error_of_the_first_query_is_dropped() {
    let mut toml: Value = toml_from_str("[a]\nb = 1\n").unwrap();
    let val = toml.execute_query_then(&Failing, &ReadQuery::new("b")).unwrap();
    assert_eq!(val, Value::Integer(1));
}

#[test]
fn first_query_on_a_missing_path_ends_the_chain() {
    let mut toml: Value = toml_from_str("[a]\nb = 1\n").unwrap();
    let err = toml.execute_query_then(&ReadQuery::new("x"), &ReadQuery::new("b")).unwrap_err();
    assert_eq!(err.kind(), &ErrorKind::NotAvailable(String::from("x")));
    let err = toml.execute_query_then(&ReadQuery::new("a.[0]"), &ReadQuery::new("b")).unwrap_err();
    assert_eq!(err.kind(), &ErrorKind::NoIndexInTable(0));
    assert_eq!(toml, toml_from_str("[a]\nb = 1\n").unwrap());
}
