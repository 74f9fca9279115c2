use cpe_analyzer::error::CpeError;
use cpe_analyzer::identifier::{join_with_colons, parse, split_segments, to_uri};

const WELL_FORMED: &str = "cpe:2.3:a:microsoft:internet_explorer:8.0.6001:beta:*:*:*:*:*:*";

#[test]
fn parse_extracts_the_eleven_fields() {
    let rec = parse(WELL_FORMED).unwrap();
    assert_eq!(rec.part, "a");
    assert_eq!(rec.vendor, "microsoft");
    assert_eq!(rec.product, "internet_explorer");
    assert_eq!(rec.version, "8.0.6001");
    assert_eq!(rec.update, "beta");
    assert_eq!(rec.edition, "*");
    assert_eq!(rec.language, "*");
    assert_eq!(rec.sw_edition, "*");
    assert_eq!(rec.target_sw, "*");
    assert_eq!(rec.target_hw, "*");
    assert_eq!(rec.other, "*");
}

#[test]
fn parse_then_rejoin_round_trips() {
    let rec = parse(WELL_FORMED).unwrap();
    let rebuilt = to_uri(&rec);
    assert_eq!(rebuilt, WELL_FORMED);
}

#[test]
fn parse_round_trips_another_identifier() {
    let raw = "cpe:2.3:o:linux:linux_kernel:5.10:NA:x:y:z:w:v:u";
    let rec = parse(raw).unwrap();
    assert_eq!(to_uri(&rec), raw);
}

#[test]
fn parse_rejects_short_identifier() {
    assert!(matches!(parse("cpe:2.3:a:vendor"), Err(CpeError::MalformedIdentifier)));
}

#[test]
fn parse_rejects_empty_string() {
    assert!(matches!(parse(""), Err(CpeError::MalformedIdentifier)));
}

#[test]
fn parse_rejects_twelve_segments() {
    // one field short: 12 segments in all
    let raw = "cpe:2.3:a:v:p:1:2:3:4:5:6:7".rsplit_once(':').unwrap().0.to_string();
    assert_eq!(raw.split(':').count(), 11);
    assert!(matches!(parse(&raw), Err(CpeError::MalformedIdentifier)));
    let raw12 = "cpe:2.3:a:v:p:1:2:3:4:5:6:7";
    assert_eq!(raw12.split(':').count(), 12);
    assert!(matches!(parse(raw12), Err(CpeError::MalformedIdentifier)));
}

#[test]
fn parse_ignores_segments_past_the_thirteenth() {
    let raw = "cpe:2.3:h:v:p:1:2:3:4:5:6:7:8:more";
    let rec = parse(raw).unwrap();
    assert_eq!(rec.part, "h");
    assert_eq!(rec.other, "8");
}

#[test]
fn parse_passes_wildcard_and_na_through_verbatim() {
    let raw = "cpe:2.3:*:NA:*:NA:*:NA:*:NA:*:NA:*";
    let rec = parse(raw).unwrap();
    assert_eq!(rec.part, "*");
    assert_eq!(rec.vendor, "NA");
    assert_eq!(rec.other, "*");
}

#[test]
fn parse_keeps_empty_fields() {
    let raw = "cpe:2.3:a::p::::::::";
    let rec = parse(raw).unwrap();
    assert_eq!(rec.vendor, "");
    assert_eq!(rec.product, "p");
    assert_eq!(rec.other, "");
    assert_eq!(to_uri(&rec), raw);
}

#[test]
fn split_segments_splits_on_every_colon() {
    let segs = split_segments("a:b::c");
    assert_eq!(segs, vec!["a".to_string(), "b".to_string(), "".to_string(), "c".to_string()]);
    assert_eq!(split_segments(""), vec!["".to_string()]);
    assert_eq!(split_segments(":"), vec!["".to_string(), "".to_string()]);
}

#[test]
fn join_with_colons_inverts_split() {
    let segs = split_segments("a:b::c");
    assert_eq!(join_with_colons(&segs), "a:b::c");
    let one = vec!["alone".to_string()];
    assert_eq!(join_with_colons(&one), "alone");
}

#[test]
fn error_messages_name_the_failure() {
    assert_eq!(CpeError::MalformedIdentifier.message(), "malformed identifier");
    assert_eq!(CpeError::MissingIdentifierField.message(), "missing identifier field");
    assert_eq!(CpeError::SourceUnavailable.message(), "source unavailable");
    assert_eq!(CpeError::StoreError.message(), "store error");
}
