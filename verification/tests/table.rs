use wager_exchange::table::Table;

fn table_of(rows: &[(&str, u32)]) -> Table<u32> {
    let mut table = Table::new();
    for (key, value) in rows {
        table.push(key.to_string(), *value);
    }
    table
}

fn table_rows(table: &Table<u32>) -> Vec<(String, u32)> {
    table.entries.clone()
}

#[test]
fn a_new_table_is_empty() {
    let table: Table<u32> = Table::new();
    assert_eq!(table.len(), 0);
    assert_eq!(table.position(&"a".to_string()), None);
    assert!(!table.contains_key(&"a".to_string()));
    assert_eq!(table.get(&"a".to_string()), None);
}

#[test]
fn rows_are_kept_in_the_order_in_which_they_were_added() {
    let table = table_of(&[("b", 2), ("a", 1), ("c", 3)]);
    assert_eq!(table.len(), 3);
    assert_eq!(
        table_rows(&table),
        vec![("b".to_string(), 2), ("a".to_string(), 1), ("c".to_string(), 3)]
    );
    assert_eq!(table.position(&"a".to_string()), Some(1));
    assert_eq!(table.get(&"c".to_string()), Some(&3));
    assert!(table.contains_key(&"b".to_string()));
    assert!(!table.contains_key(&"d".to_string()));
    assert!(!table.contains_key(&"".to_string()));
}

#[test]
fn the_first_row_under_a_key_is_found() {
    let table = table_of(&[("a", 1), ("a", 2)]);
    assert_eq!(table.position(&"a".to_string()), Some(0));
    assert_eq!(table.get(&"a".to_string()), Some(&1));
}

#[test]
fn removing_a_row_keeps_the_order_of_the_others() {
    let mut table = table_of(&[("b", 2), ("a", 1), ("c", 3)]);
    assert_eq!(table.remove(&"b".to_string()), Some(2));
    assert_eq!(table_rows(&table), vec![("a".to_string(), 1), ("c".to_string(), 3)]);
    assert_eq!(table.remove(&"b".to_string()), None);
    assert_eq!(table.len(), 2);
    assert_eq!(table.remove(&"c".to_string()), Some(3));
    assert_eq!(table.remove(&"a".to_string()), Some(1));
    assert_eq!(table.len(), 0);
}

#[test]
fn storing_under_a_key_replaces_or_appends() {
    let mut table = table_of(&[("b", 2), ("a", 1)]);
    table.upsert("b".to_string(), 20);
    assert_eq!(table_rows(&table), vec![("b".to_string(), 20), ("a".to_string(), 1)]);
    table.upsert("c".to_string(), 3);
    assert_eq!(
        table_rows(&table),
        vec![("b".to_string(), 20), ("a".to_string(), 1), ("c".to_string(), 3)]
    );
}
