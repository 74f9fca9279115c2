use cpe_analyzer::dictionary::{
    collect_catalog_uris, event_uris, load_catalog, load_dictionary, DocEvent,
};
use cpe_analyzer::error::CpeError;

fn item(values: &[&str]) -> DocEvent {
    DocEvent::Element {
        name: "cpe23-item".to_string(),
        attr_values: values.iter().map(|s| s.to_string()).collect(),
    }
}

#[test]
fn event_uris_takes_catalog_item_attributes() {
    let e = item(&["cpe:2.3:a:v:p:1:2:3:4:5:6:7:8"]);
    assert_eq!(event_uris(&e), Ok(vec!["cpe:2.3:a:v:p:1:2:3:4:5:6:7:8".to_string()]));
}

#[test]
fn event_uris_skips_other_elements() {
    let e = DocEvent::Element {
        name: "cpe-item".to_string(),
        attr_values: vec!["not-taken".to_string()],
    };
    assert_eq!(event_uris(&e), Ok(Vec::new()));
    assert_eq!(event_uris(&DocEvent::Other), Ok(Vec::new()));
}

#[test]
fn event_uris_fails_on_corrupt_stream() {
    assert_eq!(event_uris(&DocEvent::Corrupt), Err(CpeError::SourceUnavailable));
}

#[test]
fn collect_catalog_uris_walks_the_stream_in_order() {
    let events = vec![
        DocEvent::Other,
        item(&["uri:one"]),
        DocEvent::Element { name: "title".to_string(), attr_values: vec!["x".to_string()] },
        item(&["uri:two", "uri:three"]),
    ];
    let uris = collect_catalog_uris(&events).unwrap();
    assert_eq!(uris, vec!["uri:one".to_string(), "uri:two".to_string(), "uri:three".to_string()]);
}

#[test]
fn a_corrupt_event_aborts_the_whole_collection() {
    let events = vec![item(&["uri:one"]), DocEvent::Corrupt, item(&["uri:two"])];
    assert_eq!(collect_catalog_uris(&events), Err(CpeError::SourceUnavailable));
}

#[test]
fn load_dictionary_skips_malformed_entries() {
    let uris = vec![
        "cpe:2.3:a:vendor1:prod1:1:2:3:4:5:6:7:8".to_string(),
        "too:short".to_string(),
        "cpe:2.3:o:vendor2:prod2:1:2:3:4:5:6:7:8".to_string(),
    ];
    let records = load_dictionary(&uris);
    assert_eq!(records.len(), 2);
    assert_eq!(records[0].part, "a");
    assert_eq!(records[0].vendor, "vendor1");
    assert_eq!(records[1].part, "o");
    assert_eq!(records[1].product, "prod2");
}

#[test]
fn load_catalog_parses_every_catalog_entry() {
    let events = vec![
        item(&["cpe:2.3:a:v1:p1:1:2:3:4:5:6:7:8"]),
        DocEvent::Other,
        item(&["bad-entry", "cpe:2.3:h:v2:p2:1:2:3:4:5:6:7:8"]),
    ];
    let records = load_catalog(&events).unwrap();
    assert_eq!(records.len(), 2);
    assert_eq!(records[0].part, "a");
    assert_eq!(records[1].part, "h");
}

#[test]
fn load_catalog_surfaces_a_corrupt_document() {
    let events = vec![item(&["cpe:2.3:a:v:p:1:2:3:4:5:6:7:8"]), DocEvent::Corrupt];
    assert!(matches!(load_catalog(&events), Err(CpeError::SourceUnavailable)));
}
