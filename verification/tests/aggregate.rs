use cpe_analyzer::aggregate::group_count;
use cpe_analyzer::reconcile::Triple;

fn triple(part: &str, vendor: &str, product: &str) -> Triple {
    Triple { part: part.to_string(), vendor: vendor.to_string(), product: product.to_string() }
}

#[test]
fn group_by_first_field_counts_and_sorts_descending() {
    let records = vec![triple("A", "x", "1"), triple("A", "y", "2"), triple("B", "x", "3")];
    let rows = group_count(&records, 1);
    assert_eq!(rows.len(), 2);
    assert_eq!(rows[0].key, vec!["A".to_string()]);
    assert_eq!(rows[0].count, 2);
    assert_eq!(rows[1].key, vec!["B".to_string()]);
    assert_eq!(rows[1].count, 1);
}

#[test]
fn group_by_two_fields() {
    let records = vec![
        triple("a", "x", "p1"),
        triple("a", "x", "p2"),
        triple("a", "x", "p3"),
        triple("a", "y", "p1"),
        triple("b", "x", "p1"),
    ];
    let rows = group_count(&records, 2);
    assert_eq!(rows.len(), 3);
    assert_eq!(rows[0].key, vec!["a".to_string(), "x".to_string()]);
    assert_eq!(rows[0].count, 3);
    // the two singleton groups both follow the group of three
    assert_eq!(rows[1].count, 1);
    assert_eq!(rows[2].count, 1);
}

#[test]
fn group_by_three_fields_uses_exact_tuples() {
    let records = vec![
        triple("a", "v", "p"),
        triple("a", "v", "p"),
        triple("a", "v", "q"),
    ];
    let rows = group_count(&records, 3);
    assert_eq!(rows.len(), 2);
    assert_eq!(rows[0].key, vec!["a".to_string(), "v".to_string(), "p".to_string()]);
    assert_eq!(rows[0].count, 2);
    assert_eq!(rows[1].key, vec!["a".to_string(), "v".to_string(), "q".to_string()]);
    assert_eq!(rows[1].count, 1);
}

#[test]
fn empty_population_yields_no_rows() {
    let records: Vec<Triple> = Vec::new();
    assert_eq!(group_count(&records, 1).len(), 0);
}

#[test]
fn equal_counts_are_ordered_deterministically() {
    let records = vec![
        triple("b", "x", "1"),
        triple("a", "x", "1"),
        triple("c", "x", "1"),
    ];
    let first = group_count(&records, 1);
    let second = group_count(&records, 1);
    assert_eq!(first.len(), 3);
    for (f, s) in first.iter().zip(second.iter()) {
        assert_eq!(f.key, s.key);
        assert_eq!(f.count, s.count);
    }
}
