use item_registry::lookup::{lookup_indices, LookupCursor};
use item_registry::registry::Entry;

fn entry(name: &str, tag: &str) -> Entry {
    Entry { name: name.to_string(), tag: tag.to_string() }
}

fn sample_table() -> Vec<Entry> {
    vec![
        entry("A", "X"),
        entry("B", "Y"),
        entry("C", "X"),
        entry("D", "Y"),
        entry("E", "X"),
    ]
}

#[test]
fn filtering_keeps_only_the_requested_tag_in_order() {
    let table = sample_table();
    let xs = lookup_indices(&table, &"X".to_string());
    assert_eq!(xs, [0, 2, 4]);
    let names: Vec<&str> = xs.iter().map(|&i| table[i].name.as_str()).collect();
    assert_eq!(names, ["A", "C", "E"]);
    let ys = lookup_indices(&table, &"Y".to_string());
    assert_eq!(ys, [1, 3]);
}

#[test]
fn absent_tag_yields_an_immediately_exhausted_sequence() {
    let table = sample_table();
    let zs = lookup_indices(&table, &"Z".to_string());
    assert!(zs.is_empty());
    let mut cur = LookupCursor::new();
    assert_eq!(cur.next(&table, &"Z".to_string()), None);
}

#[test]
fn cursor_yields_lazily_in_table_order() {
    let table = sample_table();
    let tag = "X".to_string();
    let mut cur = LookupCursor::new();
    assert_eq!(cur.next(&table, &tag), Some(0));
    assert_eq!(cur.next(&table, &tag), Some(2));
    assert_eq!(cur.next(&table, &tag), Some(4));
    assert_eq!(cur.next(&table, &tag), None);
    assert_eq!(cur.next(&table, &tag), None);
}

#[test]
fn fresh_cursors_are_independent() {
    let table = sample_table();
    let tag = "X".to_string();
    let mut first = LookupCursor::new();
    assert_eq!(first.next(&table, &tag), Some(0));
    assert_eq!(first.next(&table, &tag), Some(2));
    // a restart produces a fresh, independently positioned scan
    let mut second = LookupCursor::new();
    assert_eq!(second.next(&table, &tag), Some(0));
    assert_eq!(first.next(&table, &tag), Some(4));
    assert_eq!(second.next(&table, &tag), Some(2));
}
