//! Reconciliation: projecting identifier populations onto deduplicated
//! (part, vendor, product) views, rebuilt in full on every run.
use vstd::prelude::*;

use crate::dictionary::records_view;
use crate::identifier::{IdentifierRecord, RecordModel};

verus! {

/// Mathematical model of a (part, vendor, product) triple.
#[verifier::ext_equal]
pub struct TripleModel {
    pub part: Seq<char>,
    pub vendor: Seq<char>,
    pub product: Seq<char>,
}

/// A (part, vendor, product) projection of an identifier record, the unit
/// of the deduplicated coverage views.
#[derive(Debug)]
pub struct Triple {
    pub part: String,
    pub vendor: String,
    pub product: String,
}

impl View for Triple {
    type V = TripleModel;

    open spec fn view(&self) -> TripleModel {
        TripleModel { part: self.part@, vendor: self.vendor@, product: self.product@ }
    }
}

impl PartialEq for Triple {
    fn eq(&self, o: &Triple) -> (r: bool) {
        self.part == o.part && self.vendor == o.vendor && self.product == o.product
    }
}

impl vstd::std_specs::cmp::PartialEqSpecImpl for Triple {
    open spec fn obeys_eq_spec() -> bool {
        true
    }

    open spec fn eq_spec(&self, o: &Triple) -> bool {
        self@ == o@
    }
}

/// The (part, vendor, product) projection of a record.
pub open spec fn project(m: RecordModel) -> TripleModel {
    TripleModel { part: m.part, vendor: m.vendor, product: m.product }
}

/// The views of a sequence of triples.
pub open spec fn triples_view(ts: Seq<Triple>) -> Seq<TripleModel> {
    ts.map_values(|t: Triple| t@)
}

/// The projections of a sequence of records, in order, multiplicity kept.
pub open spec fn projected(ms: Seq<RecordModel>) -> Seq<TripleModel> {
    ms.map_values(|m: RecordModel| project(m))
}

/// The deduplication of a sequence: each value kept once, at its first
/// occurrence, in order.
pub open spec fn distinct_seq(s: Seq<TripleModel>) -> Seq<TripleModel>
    decreases s.len(),
{
    if s.len() == 0 {
        Seq::<TripleModel>::empty()
    } else {
        let rest = distinct_seq(s.drop_last());
        if rest.contains(s.last()) {
            rest
        } else {
            rest.push(s.last())
        }
    }
}

/// Projects one record onto its (part, vendor, product) triple.
pub fn project_record(r: &IdentifierRecord) -> (t: Triple)
    ensures
        t@ == project(r@),
{
    Triple { part: r.part.clone(), vendor: r.vendor.clone(), product: r.product.clone() }
}

/// Projects a whole population onto its triples, in order, multiplicity
/// kept (deduplication happens only in the distinct views).
pub fn project_all(records: &Vec<IdentifierRecord>) -> (r: Vec<Triple>)
    ensures
        triples_view(r@) == projected(records_view(records@)),
{
    let mut out: Vec<Triple> = Vec::new();
    proof {
        assert(triples_view(out@) =~= projected(records_view(records@.take(0))));
    }
    for i in 0..records.len()
        invariant
            triples_view(out@) == projected(records_view(records@.take(i as int))),
    {
        let ghost prev_out = out@;
        let tri = project_record(&records[i]);
        out.push(tri);
        proof {
            assert(triples_view(out@) =~= triples_view(prev_out).push(project(
                records@[i as int]@,
            )));
            assert(projected(records_view(records@.take(i + 1 as int))) =~= projected(
                records_view(records@.take(i as int)),
            ).push(project(records@[i as int]@)));
            assert(triples_view(out@) =~= projected(records_view(records@.take(i + 1 as int))));
        }
    }
    proof {
        assert(records@.take(records@.len() as int) =~= records@);
    }
    out
}

/// Deduplicates a triple population by exact tuple equality
/// (case-sensitive, no normalization), keeping first occurrences in order.
pub fn distinct_triples(input: &Vec<Triple>) -> (out: Vec<Triple>)
    ensures
        triples_view(out@) == distinct_seq(triples_view(input@)),
{
    let mut out: Vec<Triple> = Vec::new();
    proof {
        assert(triples_view(input@.take(0)) =~= Seq::<TripleModel>::empty());
        assert(triples_view(out@) =~= distinct_seq(triples_view(input@.take(0))));
    }
    for k in 0..input.len()
        invariant
            triples_view(out@) == distinct_seq(triples_view(input@.take(k as int))),
    {
        let t = &input[k];
        let mut found = false;
        for j in 0..out.len()
            invariant
                found <==> exists|l: int| 0 <= l < j && triples_view(out@)[l] == t@,
        {
            let ghost old_found = found;
            if out[j] == *t {
                found = true;
            }
            proof {
                assert(triples_view(out@)[j as int] == out@[j as int]@);
                if found {
                    if old_found {
                        let l = choose|l: int| 0 <= l < j && triples_view(out@)[l] == t@;
                        assert(0 <= l < j + 1 && triples_view(out@)[l] == t@);
                    } else {
                        assert(triples_view(out@)[j as int] == t@);
                    }
                } else {
                    assert(out@[j as int]@ != t@);
                }
            }
        }
        let ghost prev_out = out@;
        if !found {
            out.push(t.clone_triple());
        }
        proof {
            let ghost s = triples_view(input@.take(k as int));
            assert(triples_view(input@.take(k + 1 as int)).drop_last() =~= s);
            assert(triples_view(input@.take(k + 1 as int)).last() == t@);
            assert(found <==> triples_view(prev_out).contains(t@));
            if !found {
                assert(triples_view(out@) =~= triples_view(prev_out).push(t@));
            }
            assert(triples_view(out@) =~= distinct_seq(triples_view(input@.take(k + 1 as int))));
        }
    }
    proof {
        assert(input@.take(input@.len() as int) =~= input@);
    }
    out
}

impl Triple {
    /// An exact copy of the triple.
    pub fn clone_triple(&self) -> (t: Triple)
        ensures
            t@ == self@,
    {
        Triple {
            part: self.part.clone(),
            vendor: self.vendor.clone(),
            product: self.product.clone(),
        }
    }
}

/// Rebuilds both deduplicated (part, vendor, product) views from scratch:
/// one from the catalog population, one from the referenced population.
/// Both are full replacements, never incremental patches, so the result
/// is a pure function of the inputs.
pub fn rebuild_distinct_views(
    catalog: &Vec<IdentifierRecord>,
    referenced: &Vec<IdentifierRecord>,
) -> (r: (Vec<Triple>, Vec<Triple>))
    ensures
        triples_view(r.0@) == distinct_seq(projected(records_view(catalog@))),
        triples_view(r.1@) == distinct_seq(projected(records_view(referenced@))),
{
    let catalog_triples = project_all(catalog);
    let referenced_triples = project_all(referenced);
    let catalog_view = distinct_triples(&catalog_triples);
    let referenced_view = distinct_triples(&referenced_triples);
    (catalog_view, referenced_view)
}

/// Deduplication keeps exactly the values of the input: a triple is in
/// the distinct view if and only if it is in the input population.
pub proof fn lemma_distinct_contains(s: Seq<TripleModel>, x: TripleModel)
    ensures
        distinct_seq(s).contains(x) <==> s.contains(x),
    decreases s.len(),
{
    if s.len() == 0 {
    } else {
        let pre = s.drop_last();
        lemma_distinct_contains(pre, x);
        let rest = distinct_seq(pre);
        if s.contains(x) {
            let i = choose|i: int| 0 <= i < s.len() && s[i] == x;
            if i < s.len() - 1 {
                assert(pre[i] == x);
                assert(pre.contains(x));
            } else {
                assert(s.last() == x);
            }
            if rest.contains(s.last()) {
                if x == s.last() {
                    assert(rest.contains(x));
                } else {
                    assert(pre.contains(x));
                }
            } else {
                if x == s.last() {
                    assert(distinct_seq(s).last() == x);
                    assert(distinct_seq(s).contains(x));
                } else {
                    assert(rest.contains(x));
                    let j = choose|j: int| 0 <= j < rest.len() && rest[j] == x;
                    assert(distinct_seq(s)[j] == x);
                }
            }
        }
        if distinct_seq(s).contains(x) {
            if rest.contains(s.last()) {
                assert(rest.contains(x));
                assert(pre.contains(x));
                let i = choose|i: int| 0 <= i < pre.len() && pre[i] == x;
                assert(s[i] == x);
            } else {
                let j = choose|j: int| 0 <= j < distinct_seq(s).len() && distinct_seq(s)[j] == x;
                if j < rest.len() {
                    assert(rest.contains(x));
                    assert(pre.contains(x));
                    let i = choose|i: int| 0 <= i < pre.len() && pre[i] == x;
                    assert(s[i] == x);
                } else {
                    assert(x == s.last());
                    assert(s.contains(x));
                }
            }
        }
    }
}

/// Deduplication leaves no duplicates.
pub proof fn lemma_distinct_no_duplicates(s: Seq<TripleModel>)
    ensures
        distinct_seq(s).no_duplicates(),
    decreases s.len(),
{
    if s.len() == 0 {
    } else {
        let pre = s.drop_last();
        lemma_distinct_no_duplicates(pre);
        let rest = distinct_seq(pre);
        if !rest.contains(s.last()) {
            assert forall|i: int, j: int|
                0 <= i < rest.push(s.last()).len() && 0 <= j < rest.push(s.last()).len() && i
                    != j implies rest.push(s.last())[i] != rest.push(s.last())[j] by {
                if i < rest.len() && j < rest.len() {
                } else if i < rest.len() {
                    assert(rest[i] == rest.push(s.last())[i]);
                    assert(!rest.contains(rest.push(s.last())[j]) ==> rest[i] != rest.push(
                        s.last(),
                    )[j]);
                } else {
                    assert(rest[j] == rest.push(s.last())[j]);
                }
            }
        }
    }
}

/// Deduplicating a population that already has no duplicates returns it
/// unchanged.
pub proof fn lemma_distinct_of_no_duplicates(d: Seq<TripleModel>)
    requires
        d.no_duplicates(),
    ensures
        distinct_seq(d) == d,
    decreases d.len(),
{
    if d.len() == 0 {
        assert(distinct_seq(d) =~= d);
    } else {
        let pre = d.drop_last();
        assert(pre.no_duplicates());
        lemma_distinct_of_no_duplicates(pre);
        lemma_distinct_contains(pre, d.last());
        assert(!pre.contains(d.last())) by {
            if pre.contains(d.last()) {
                let i = choose|i: int| 0 <= i < pre.len() && pre[i] == d.last();
                assert(d[i] == d[d.len() - 1]);
            }
        }
        assert(distinct_seq(d) =~= d);
    }
}

/// Rebuilding the distinct views is idempotent: deduplicating a
/// population twice gives the same view as deduplicating it once, and the
/// view holds exactly the values of the input (set-equal populations).
pub proof fn lemma_distinct_idempotent(s: Seq<TripleModel>)
    ensures
        distinct_seq(distinct_seq(s)) == distinct_seq(s),
        distinct_seq(s).to_set() == s.to_set(),
{
    lemma_distinct_no_duplicates(s);
    lemma_distinct_of_no_duplicates(distinct_seq(s));
    assert(distinct_seq(s).to_set() =~= s.to_set()) by {
        assert forall|x: TripleModel| true implies (distinct_seq(s).contains(x) <==> s.contains(
            x,
        )) by {
            lemma_distinct_contains(s, x);
        }
    }
}

} // verus!
