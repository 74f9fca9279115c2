use cpe_analyzer::config_tree::{collect_identifiers, MatchEntry, MatchNode};
use cpe_analyzer::error::CpeError;

fn entry(s: &str) -> MatchEntry {
    MatchEntry { identifier: Some(s.to_string()) }
}

fn leaf(ids: &[&str]) -> MatchNode {
    MatchNode { children: Vec::new(), match_entries: ids.iter().map(|s| entry(*s)).collect() }
}

#[test]
fn leaf_node_returns_its_entries_in_order() {
    let node = leaf(&["cpe:a", "cpe:b", "cpe:c"]);
    let ids = collect_identifiers(&node).unwrap();
    assert_eq!(ids, vec!["cpe:a".to_string(), "cpe:b".to_string(), "cpe:c".to_string()]);
}

#[test]
fn node_with_children_returns_only_the_children_results() {
    let node = MatchNode {
        children: vec![leaf(&["cpe:x"]), leaf(&["cpe:y", "cpe:z"])],
        match_entries: vec![entry("cpe:ignored")],
    };
    let ids = collect_identifiers(&node).unwrap();
    assert_eq!(ids, vec!["cpe:x".to_string(), "cpe:y".to_string(), "cpe:z".to_string()]);
}

#[test]
fn deeply_nested_children_are_walked_in_order() {
    let inner = MatchNode {
        children: vec![leaf(&["cpe:1"]), leaf(&["cpe:2"])],
        match_entries: Vec::new(),
    };
    let node = MatchNode {
        children: vec![inner, leaf(&["cpe:3"])],
        match_entries: Vec::new(),
    };
    let ids = collect_identifiers(&node).unwrap();
    assert_eq!(ids, vec!["cpe:1".to_string(), "cpe:2".to_string(), "cpe:3".to_string()]);
}

#[test]
fn missing_identifier_at_a_leaf_is_a_hard_error() {
    let node = MatchNode {
        children: Vec::new(),
        match_entries: vec![entry("cpe:ok"), MatchEntry { identifier: None }],
    };
    assert_eq!(collect_identifiers(&node), Err(CpeError::MissingIdentifierField));
}

#[test]
fn missing_identifier_in_a_child_aborts_the_walk() {
    let bad_leaf = MatchNode {
        children: Vec::new(),
        match_entries: vec![MatchEntry { identifier: None }],
    };
    let node = MatchNode { children: vec![leaf(&["cpe:ok"]), bad_leaf], match_entries: Vec::new() };
    assert_eq!(collect_identifiers(&node), Err(CpeError::MissingIdentifierField));
}

#[test]
fn entries_of_a_grouping_node_are_not_checked() {
    // the node has children, so its own (incomplete) entries are ignored
    let node = MatchNode {
        children: vec![leaf(&["cpe:x"])],
        match_entries: vec![MatchEntry { identifier: None }],
    };
    assert_eq!(collect_identifiers(&node), Ok(vec!["cpe:x".to_string()]));
}

#[test]
fn empty_node_yields_no_identifiers() {
    let node = MatchNode { children: Vec::new(), match_entries: Vec::new() };
    assert_eq!(collect_identifiers(&node), Ok(Vec::new()));
}
