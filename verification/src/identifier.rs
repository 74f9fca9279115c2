//! CPE 2.3 identifier parsing: splitting a colon-delimited identifier
//! string into its 11 component fields, and re-joining a record into the
//! canonical identifier string.
use vstd::prelude::*;
use vstd::string::StrSliceExecFns;
use vstd::string::StringExecFns;

use crate::error::CpeError;

verus! {

/// Mathematical model of one identifier record: the 11 ordered CPE 2.3
/// fields as character sequences.
#[verifier::ext_equal]
pub struct RecordModel {
    pub part: Seq<char>,
    pub vendor: Seq<char>,
    pub product: Seq<char>,
    pub version: Seq<char>,
    pub update: Seq<char>,
    pub edition: Seq<char>,
    pub language: Seq<char>,
    pub sw_edition: Seq<char>,
    pub target_sw: Seq<char>,
    pub target_hw: Seq<char>,
    pub other: Seq<char>,
}

/// One parsed identifier: the 11 ordered CPE 2.3 fields. Immutable once
/// created; values such as the wildcard `*` or `NA` are carried verbatim.
pub struct IdentifierRecord {
    pub part: String,
    pub vendor: String,
    pub product: String,
    pub version: String,
    pub update: String,
    pub edition: String,
    pub language: String,
    pub sw_edition: String,
    pub target_sw: String,
    pub target_hw: String,
    pub other: String,
}

impl View for IdentifierRecord {
    type V = RecordModel;

    open spec fn view(&self) -> RecordModel {
        RecordModel {
            part: self.part@,
            vendor: self.vendor@,
            product: self.product@,
            version: self.version@,
            update: self.update@,
            edition: self.edition@,
            language: self.language@,
            sw_edition: self.sw_edition@,
            target_sw: self.target_sw@,
            target_hw: self.target_hw@,
            other: self.other@,
        }
    }
}

/// The views of a sequence of strings.
pub open spec fn strs_view(v: Seq<String>) -> Seq<Seq<char>> {
    v.map_values(|s: String| s@)
}

/// Splitting a character sequence on `:`. The result always has at least
/// one segment; each `:` ends the current segment and starts a new one.
pub open spec fn split_colon(s: Seq<char>) -> Seq<Seq<char>>
    decreases s.len(),
{
    if s.len() == 0 {
        seq![Seq::<char>::empty()]
    } else {
        let rest = split_colon(s.drop_last());
        if s.last() == ':' {
            rest.push(Seq::<char>::empty())
        } else {
            rest.update(rest.len() - 1, rest.last().push(s.last()))
        }
    }
}

/// Joining segments with `:` between each pair.
pub open spec fn join_colon(segs: Seq<Seq<char>>) -> Seq<char>
    decreases segs.len(),
{
    if segs.len() == 0 {
        Seq::<char>::empty()
    } else if segs.len() == 1 {
        segs[0]
    } else {
        join_colon(segs.drop_last()) + seq![':'] + segs.last()
    }
}

/// The record formed from segments 2 through 12 of a split identifier.
pub open spec fn record_of(segs: Seq<Seq<char>>) -> RecordModel
    recommends
        segs.len() >= 13,
{
    RecordModel {
        part: segs[2],
        vendor: segs[3],
        product: segs[4],
        version: segs[5],
        update: segs[6],
        edition: segs[7],
        language: segs[8],
        sw_edition: segs[9],
        target_sw: segs[10],
        target_hw: segs[11],
        other: segs[12],
    }
}

/// The 11 fields of a record, in their canonical order.
pub open spec fn fields_of(m: RecordModel) -> Seq<Seq<char>> {
    seq![
        m.part,
        m.vendor,
        m.product,
        m.version,
        m.update,
        m.edition,
        m.language,
        m.sw_edition,
        m.target_sw,
        m.target_hw,
        m.other,
    ]
}

/// The canonical identifier string of a record: the fixed `cpe:2.3`
/// prefix followed by the 11 fields, all joined with `:`.
pub open spec fn uri_of(m: RecordModel) -> Seq<char> {
    join_colon(seq!["cpe"@, "2.3"@] + fields_of(m))
}

pub proof fn lemma_split_colon_len(s: Seq<char>)
    ensures
        split_colon(s).len() >= 1,
    decreases s.len(),
{
    if s.len() != 0 {
        lemma_split_colon_len(s.drop_last());
    }
}

proof fn lemma_join_update_last(segs: Seq<Seq<char>>, c: char)
    requires
        segs.len() >= 1,
    ensures
        join_colon(segs.update(segs.len() - 1, segs.last().push(c))) == join_colon(segs).push(c),
{
    let updated = segs.update(segs.len() - 1, segs.last().push(c));
    if segs.len() == 1 {
        assert(updated[0] == segs[0].push(c));
        assert(join_colon(updated) =~= join_colon(segs).push(c));
    } else {
        assert(updated.drop_last() =~= segs.drop_last());
        assert(updated.last() == segs.last().push(c));
        assert(join_colon(updated) =~= join_colon(segs).push(c));
    }
}

proof fn lemma_join_push(segs: Seq<Seq<char>>, x: Seq<char>)
    requires
        segs.len() >= 1,
    ensures
        join_colon(segs.push(x)) == join_colon(segs) + seq![':'] + x,
{
    assert(segs.push(x).drop_last() =~= segs);
    assert(segs.push(x).last() == x);
}

/// Joining the segments that splitting produced reproduces the original
/// string.
pub proof fn lemma_join_split(s: Seq<char>)
    ensures
        join_colon(split_colon(s)) == s,
    decreases s.len(),
{
    if s.len() == 0 {
        assert(join_colon(split_colon(s)) =~= s);
    } else {
        let prefix = s.drop_last();
        let c = s.last();
        lemma_join_split(prefix);
        lemma_split_colon_len(prefix);
        let rest = split_colon(prefix);
        if c == ':' {
            lemma_join_push(rest, Seq::<char>::empty());
            assert(join_colon(split_colon(s)) =~= s);
        } else {
            lemma_join_update_last(rest, c);
            assert(join_colon(split_colon(s)) =~= s);
        }
    }
}

/// Splits an identifier string into its `:`-delimited segments.
pub fn split_segments(raw: &str) -> (segs: Vec<String>)
    ensures
        strs_view(segs@) == split_colon(raw@),
{
    let n = raw.unicode_len();
    let mut segs: Vec<String> = Vec::new();
    let mut start: usize = 0;
    proof {
        assert(raw@.take(0) =~= Seq::<char>::empty());
        assert(split_colon(raw@.take(0)) =~= strs_view(segs@).push(raw@.subrange(0, 0)));
    }
    for i in 0..n
        invariant
            start <= i <= n,
            n == raw@.len(),
            split_colon(raw@.take(i as int)) == strs_view(segs@).push(
                raw@.subrange(start as int, i as int),
            ),
    {
        let ghost prev_segs = segs@;
        let ghost prev_start = start as int;
        let c = raw.get_char(i);
        if c == ':' {
            let piece = raw.substring_char(start, i);
            segs.push(String::from_str(piece));
            start = i + 1;
        }
        proof {
            assert(raw@.take(i + 1 as int).drop_last() =~= raw@.take(i as int));
            if c == ':' {
                assert(strs_view(segs@) =~= strs_view(prev_segs).push(
                    raw@.subrange(prev_start, i as int),
                ));
                assert(raw@.subrange(start as int, i + 1 as int) =~= Seq::<char>::empty());
                assert(split_colon(raw@.take(i + 1 as int)) =~= strs_view(segs@).push(
                    raw@.subrange(start as int, i + 1 as int),
                ));
            } else {
                let whole = strs_view(prev_segs).push(raw@.subrange(prev_start, i as int));
                assert(whole.last() == raw@.subrange(prev_start, i as int));
                assert(raw@.subrange(prev_start, i as int).push(raw@[i as int]) =~= raw@.subrange(
                    prev_start,
                    i + 1 as int,
                ));
                assert(whole.update(whole.len() - 1, raw@.subrange(prev_start, i + 1 as int))
                    =~= strs_view(segs@).push(raw@.subrange(start as int, i + 1 as int)));
                assert(split_colon(raw@.take(i + 1 as int)) =~= strs_view(segs@).push(
                    raw@.subrange(start as int, i + 1 as int),
                ));
            }
        }
    }
    let ghost prev_segs = segs@;
    let piece = raw.substring_char(start, n);
    segs.push(String::from_str(piece));
    proof {
        assert(raw@.take(n as int) =~= raw@);
        assert(strs_view(segs@) =~= strs_view(prev_segs).push(raw@.subrange(start as int, n as int)));
    }
    segs
}

/// Parses a raw identifier string into an `IdentifierRecord`.
///
/// A well-formed CPE 2.3 identifier has the fixed prefix `cpe:2.3`
/// followed by the 11 fields, 13 `:`-delimited segments in all; the fields
/// are segments 2 through 12. A string with fewer than 13 segments is
/// rejected as `MalformedIdentifier`, never truncated or misaligned. No
/// field-level validation is performed beyond presence.
pub fn parse(raw: &str) -> (r: Result<IdentifierRecord, CpeError>)
    ensures
        r is Ok <==> split_colon(raw@).len() >= 13,
        r is Ok ==> r->Ok_0@ == record_of(split_colon(raw@)),
        r is Err ==> r->Err_0 == CpeError::MalformedIdentifier,
{
    let segs = split_segments(raw);
    if segs.len() >= 13 {
        let rec = IdentifierRecord {
            part: segs[2].clone(),
            vendor: segs[3].clone(),
            product: segs[4].clone(),
            version: segs[5].clone(),
            update: segs[6].clone(),
            edition: segs[7].clone(),
            language: segs[8].clone(),
            sw_edition: segs[9].clone(),
            target_sw: segs[10].clone(),
            target_hw: segs[11].clone(),
            other: segs[12].clone(),
        };
        assert(rec@ =~= record_of(split_colon(raw@)));
        Ok(rec)
    } else {
        Err(CpeError::MalformedIdentifier)
    }
}

/// Joins a non-empty segment list with `:` between each pair.
pub fn join_with_colons(segs: &Vec<String>) -> (r: String)
    requires
        segs@.len() >= 1,
    ensures
        r@ == join_colon(strs_view(segs@)),
{
    let mut r = segs[0].clone();
    proof {
        assert(strs_view(segs@.take(1)) =~= seq![segs@[0]@]);
    }
    for i in 1..segs.len()
        invariant
            1 <= i <= segs@.len(),
            r@ == join_colon(strs_view(segs@.take(i as int))),
    {
        r.append(":");
        r.append(segs[i].as_str());
        proof {
            reveal_strlit(":");
            lemma_join_push(strs_view(segs@.take(i as int)), segs@[i as int]@);
            assert(strs_view(segs@.take(i + 1 as int)) =~= strs_view(segs@.take(i as int)).push(
                segs@[i as int]@,
            ));
            assert(":"@ =~= seq![':']);
            assert(r@ =~= join_colon(strs_view(segs@.take(i + 1 as int))));
        }
    }
    proof {
        assert(segs@.take(segs@.len() as int) =~= segs@);
    }
    r
}

/// Renders a record as its canonical identifier string, the `cpe:2.3`
/// prefix followed by the 11 fields, joined with `:`.
pub fn to_uri(rec: &IdentifierRecord) -> (r: String)
    ensures
        r@ == uri_of(rec@),
{
    let mut segs: Vec<String> = Vec::new();
    segs.push(String::from_str("cpe"));
    segs.push(String::from_str("2.3"));
    segs.push(rec.part.clone());
    segs.push(rec.vendor.clone());
    segs.push(rec.product.clone());
    segs.push(rec.version.clone());
    segs.push(rec.update.clone());
    segs.push(rec.edition.clone());
    segs.push(rec.language.clone());
    segs.push(rec.sw_edition.clone());
    segs.push(rec.target_sw.clone());
    segs.push(rec.target_hw.clone());
    segs.push(rec.other.clone());
    let r = join_with_colons(&segs);
    proof {
        assert(strs_view(segs@) =~= seq!["cpe"@, "2.3"@] + fields_of(rec@));
    }
    r
}

/// Round trip: for a well-formed 13-segment identifier string whose first
/// two segments are `cpe` and `2.3`, parsing and re-joining the 11
/// extracted fields behind the `cpe:2.3` prefix reproduces the original
/// string.
pub proof fn lemma_parse_round_trip(s: Seq<char>)
    requires
        split_colon(s).len() == 13,
        split_colon(s)[0] == "cpe"@,
        split_colon(s)[1] == "2.3"@,
    ensures
        uri_of(record_of(split_colon(s))) == s,
{
    let segs = split_colon(s);
    assert(seq!["cpe"@, "2.3"@] + fields_of(record_of(segs)) =~= segs);
    lemma_join_split(s);
}

} // verus!
