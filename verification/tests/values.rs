use starship::toml_text::read_value;
use starship::value::{merge_toml, Table, TomlValue};

fn read(document: &str) -> TomlValue {
    read_value(document).unwrap()
}

fn merged(base: &str, overlay: &str) -> TomlValue {
    let mut value = read(base);
    merge_toml(&mut value, read(overlay));
    value
}

#[test]
fn tables_are_merged_key_by_key() {
    let value = merged("a = 1\n[t]\nx = 1\ny = 1", "b = 2\n[t]\ny = 2\nz = 2");
    assert!(value.same_as(&read("a = 1\nb = 2\n[t]\nx = 1\ny = 2\nz = 2")));
    let TomlValue::Table(table) = &value else {
        panic!("not a table");
    };
    assert_eq!((table.key_at(0), table.key_at(1), table.key_at(2)), ("a", "t", "b"));
}

#[test]
fn other_values_are_replaced() {
    assert!(merged("a = [1, 2]", "a = [3]").same_as(&read("a = [3]")));
    assert!(merged("a = 1", "a = { b = 1 }").same_as(&read("a = { b = 1 }")));
    assert!(merged("a = { b = 1 }", "a = 1").same_as(&read("a = 1")));
    let mut value = TomlValue::Integer(1);
    merge_toml(&mut value, read("a = 1"));
    assert!(value.same_as(&read("a = 1")));
}

#[test]
fn an_empty_table_changes_nothing() {
    assert!(merged("a = 1", "").same_as(&read("a = 1")));
    assert!(merged("", "a = 1").same_as(&read("a = 1")));
}

#[test]
fn equal_values_have_equal_types() {
    assert!(!read("a = 1").same_as(&read("a = 1.0")));
    assert!(!read("a = 'x'").same_as(&read("a = 'y'")));
    assert!(!read("a = true").same_as(&read("a = false")));
    assert!(!read("a = [1]").same_as(&read("a = [1, 1]")));
    assert!(!read("a = [1]").same_as(&read("a = [2]")));
    assert!(!read("a = 1").same_as(&read("b = 1")));
    assert!(!read("a = 1979-05-27").same_as(&read("a = 1979-05-28")));
    assert!(read("a = 1.0").same_as(&read("a = 1.00")));
    assert!(!read("a = inf").same_as(&read("a = -inf")));
    assert!(read("a = inf").same_as(&read("a = inf")));
}

#[test]
fn a_key_stands_in_a_table_once() {
    let mut table = Table::new();
    table.insert("a".to_string(), TomlValue::Integer(1));
    table.insert("b".to_string(), TomlValue::Integer(2));
    table.insert("a".to_string(), TomlValue::Integer(3));
    assert_eq!(table.len(), 2);
    assert!(matches!(table.get("a"), Some(TomlValue::Integer(3))));
    assert_eq!(table.key_at(0), "a");
    assert!(table.get("c").is_none());
}
