//! End-to-end: a synthetic dictionary stream, loaded, projected,
//! reconciled and aggregated.
use cpe_analyzer::aggregate::group_count;
use cpe_analyzer::dictionary::{load_catalog, DocEvent};
use cpe_analyzer::reconcile::{project_all, rebuild_distinct_views, Triple};

fn item(uri: &str) -> DocEvent {
    DocEvent::Element { name: "cpe23-item".to_string(), attr_values: vec![uri.to_string()] }
}

#[test]
fn dictionary_to_group_count_by_part() {
    let events = vec![
        item("cpe:2.3:a:vendor1:prod1:1:2:3:4:5:6:7:8"),
        item("cpe:2.3:a:vendor1:prod1:9:2:3:4:5:6:7:8"),
        item("cpe:2.3:o:vendor2:prod2:1:2:3:4:5:6:7:8"),
    ];
    let records = load_catalog(&events).unwrap();
    assert_eq!(records.len(), 3);
    let triples = project_all(&records);
    let rows = group_count(&triples, 1);
    assert_eq!(rows.len(), 2);
    assert_eq!(rows[0].key, vec!["a".to_string()]);
    assert_eq!(rows[0].count, 2);
    assert_eq!(rows[1].key, vec!["o".to_string()]);
    assert_eq!(rows[1].count, 1);
}

#[test]
fn dictionary_to_distinct_views() {
    let events = vec![
        item("cpe:2.3:a:vendor1:prod1:1:2:3:4:5:6:7:8"),
        item("cpe:2.3:a:vendor1:prod1:9:2:3:4:5:6:7:8"),
        item("cpe:2.3:o:vendor2:prod2:1:2:3:4:5:6:7:8"),
    ];
    let catalog = load_catalog(&events).unwrap();
    let referenced: Vec<_> = Vec::new();
    let (catalog_view, referenced_view) = rebuild_distinct_views(&catalog, &referenced);
    let expected = vec![
        Triple {
            part: "a".to_string(),
            vendor: "vendor1".to_string(),
            product: "prod1".to_string(),
        },
        Triple {
            part: "o".to_string(),
            vendor: "vendor2".to_string(),
            product: "prod2".to_string(),
        },
    ];
    assert_eq!(catalog_view, expected);
    assert_eq!(referenced_view, Vec::new());
}
