//! Dictionary loading: scanning a stream of document events for catalog
//! entries, extracting their identifier strings, and parsing each into an
//! `IdentifierRecord`, skipping malformed entries.
use vstd::prelude::*;
use vstd::string::StringExecFns;

use crate::error::CpeError;
use crate::identifier::{
    parse, record_of, split_colon, strs_view, IdentifierRecord, RecordModel,
};

verus! {

/// One event of a streamed structured document, reduced to what the
/// loader reads: an element with its attribute values, anything else, or
/// a stream-level parse error.
pub enum DocEvent {
    Element { name: String, attr_values: Vec<String> },
    Other,
    Corrupt,
}

/// The identifier strings one event contributes: the attribute values of
/// a `cpe23-item` element, nothing otherwise.
pub open spec fn event_uris_spec(e: DocEvent) -> Seq<Seq<char>> {
    match e {
        DocEvent::Element { name, attr_values } => if name@ == "cpe23-item"@ {
            strs_view(attr_values@)
        } else {
            Seq::<Seq<char>>::empty()
        },
        _ => Seq::<Seq<char>>::empty(),
    }
}

/// Whether the event stream reports a stream-level parse error anywhere.
pub open spec fn has_corrupt(events: Seq<DocEvent>) -> bool {
    exists|i: int| 0 <= i < events.len() && events[i] is Corrupt
}

/// The identifier strings contributed by every event of the stream, in
/// stream order.
pub open spec fn catalog_uris(events: Seq<DocEvent>) -> Seq<Seq<char>>
    decreases events.len(),
{
    if events.len() == 0 {
        Seq::<Seq<char>>::empty()
    } else {
        catalog_uris(events.drop_last()) + event_uris_spec(events.last())
    }
}

/// The views of a sequence of records.
pub open spec fn records_view(rs: Seq<IdentifierRecord>) -> Seq<RecordModel> {
    rs.map_values(|r: IdentifierRecord| r@)
}

/// The records of the well-formed identifier strings among `uris`, in
/// order; malformed ones (fewer than 13 segments) are skipped.
pub open spec fn dictionary_records(uris: Seq<Seq<char>>) -> Seq<RecordModel>
    decreases uris.len(),
{
    if uris.len() == 0 {
        Seq::<RecordModel>::empty()
    } else {
        let rest = dictionary_records(uris.drop_last());
        if split_colon(uris.last()).len() >= 13 {
            rest.push(record_of(split_colon(uris.last())))
        } else {
            rest
        }
    }
}

/// The identifier strings one document event contributes: the attribute
/// values of a `cpe23-item` catalog element. A `Corrupt` event is a
/// stream-level parse error and aborts the load with `SourceUnavailable`.
pub fn event_uris(e: &DocEvent) -> (r: Result<Vec<String>, CpeError>)
    ensures
        r is Ok <==> !(e is Corrupt),
        r is Ok ==> strs_view(r->Ok_0@) == event_uris_spec(*e),
        r is Err ==> r->Err_0 == CpeError::SourceUnavailable,
{
    match e {
        DocEvent::Corrupt => Err(CpeError::SourceUnavailable),
        DocEvent::Element { name, attr_values } => {
            let key = String::from_str("cpe23-item");
            if *name == key {
                let vals = attr_values.clone();
                proof {
                    assert(vals@ =~= attr_values@);
                }
                Ok(vals)
            } else {
                let empty: Vec<String> = Vec::new();
                proof {
                    assert(strs_view(empty@) =~= Seq::<Seq<char>>::empty());
                }
                Ok(empty)
            }
        },
        DocEvent::Other => {
            let empty: Vec<String> = Vec::new();
            proof {
                assert(strs_view(empty@) =~= Seq::<Seq<char>>::empty());
            }
            Ok(empty)
        },
    }
}

/// Collects the identifier strings of every catalog entry in the event
/// stream, in stream order. The first `Corrupt` event aborts the whole
/// collection with `SourceUnavailable`: a corrupt document yields no
/// partial result.
pub fn collect_catalog_uris(events: &Vec<DocEvent>) -> (r: Result<Vec<String>, CpeError>)
    ensures
        r is Ok <==> !has_corrupt(events@),
        r is Ok ==> strs_view(r->Ok_0@) == catalog_uris(events@),
        r is Err ==> r->Err_0 == CpeError::SourceUnavailable,
{
    let mut out: Vec<String> = Vec::new();
    proof {
        assert(events@.take(0) =~= Seq::<DocEvent>::empty());
        assert(strs_view(out@) =~= catalog_uris(events@.take(0)));
    }
    for i in 0..events.len()
        invariant
            forall|j: int| 0 <= j < i ==> !((#[trigger] events@[j]) is Corrupt),
            strs_view(out@) == catalog_uris(events@.take(i as int)),
    {
        match event_uris(&events[i]) {
            Ok(mut vals) => {
                let ghost prev_out = out@;
                let ghost vals_seq = vals@;
                out.append(&mut vals);
                proof {
                    assert(events@.take(i + 1 as int).drop_last() =~= events@.take(i as int));
                    assert(events@.take(i + 1 as int).last() == events@[i as int]);
                    assert(strs_view(out@) =~= strs_view(prev_out) + strs_view(vals_seq));
                    assert(strs_view(out@) =~= catalog_uris(events@.take(i + 1 as int)));
                }
            },
            Err(_) => {
                proof {
                    assert(has_corrupt(events@));
                }
                return Err(CpeError::SourceUnavailable);
            },
        }
    }
    proof {
        assert(events@.take(events@.len() as int) =~= events@);
    }
    Ok(out)
}

/// Parses each identifier string of a loaded dictionary into a record, in
/// order. A malformed entry (fewer than 13 segments) is an independent
/// catalog row, so it is skipped rather than aborting the load.
pub fn load_dictionary(uris: &Vec<String>) -> (r: Vec<IdentifierRecord>)
    ensures
        records_view(r@) == dictionary_records(strs_view(uris@)),
{
    let mut out: Vec<IdentifierRecord> = Vec::new();
    proof {
        assert(strs_view(uris@.take(0)) =~= Seq::<Seq<char>>::empty());
        assert(records_view(out@) =~= dictionary_records(strs_view(uris@.take(0))));
    }
    for i in 0..uris.len()
        invariant
            records_view(out@) == dictionary_records(strs_view(uris@.take(i as int))),
    {
        let ghost prev_out = out@;
        match parse(uris[i].as_str()) {
            Ok(rec) => {
                out.push(rec);
            },
            Err(_) => {},
        }
        proof {
            assert(strs_view(uris@.take(i + 1 as int)).drop_last() =~= strs_view(uris@.take(
                i as int,
            )));
            assert(strs_view(uris@.take(i + 1 as int)).last() == uris@[i as int]@);
            assert(records_view(out@) =~= dictionary_records(strs_view(uris@.take(i + 1 as int))));
        }
    }
    proof {
        assert(uris@.take(uris@.len() as int) =~= uris@);
    }
    out
}

/// Loads a whole dictionary stream: collects the catalog entries'
/// identifier strings and parses each, skipping malformed entries. A
/// stream-level parse error aborts the load with `SourceUnavailable` and
/// yields no partial result.
pub fn load_catalog(events: &Vec<DocEvent>) -> (r: Result<Vec<IdentifierRecord>, CpeError>)
    ensures
        r is Ok <==> !has_corrupt(events@),
        r is Ok ==> records_view(r->Ok_0@) == dictionary_records(catalog_uris(events@)),
        r is Err ==> r->Err_0 == CpeError::SourceUnavailable,
{
    match collect_catalog_uris(events) {
        Ok(uris) => Ok(load_dictionary(&uris)),
        Err(e) => Err(e),
    }
}

} // verus!
