use tsdb::table::KeyedTable;
use tsdb::wal::entries_since;

#[test]
fn entries_since_skips_what_was_read() {
    assert_eq!(entries_since(vec![1, 2, 3, 4], 0), vec![1, 2, 3, 4]);
    assert_eq!(entries_since(vec![1, 2, 3, 4], 1), vec![2, 3, 4]);
    assert_eq!(entries_since(vec![1, 2, 3, 4], 4), Vec::<i32>::new());
    assert_eq!(entries_since(vec![1, 2, 3, 4], 9), Vec::<i32>::new());
}

#[test]
fn keyed_table_insert_get_remove() {
    let mut t: KeyedTable<usize> = KeyedTable::new();
    t.insert("x".to_string(), 1);
    t.insert("y".to_string(), 2);
    t.insert("x".to_string(), 3);
    assert_eq!(t.len(), 2);
    assert_eq!(t.get("x"), Some(&3));
    assert_eq!(t.entry(0).0, "x");
    t.remove("x");
    assert_eq!(t.get("x"), None);
    assert_eq!(t.get("y"), Some(&2));
    t.remove("absent");
    assert_eq!(t.len(), 1);
}
