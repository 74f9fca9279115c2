//! Aggregation: grouped frequency counts over a triple population,
//! grouped by the first 1, 2 or 3 fields and ordered by count descending.
use vstd::prelude::*;

use crate::identifier::strs_view;
use crate::reconcile::{triples_view, Triple, TripleModel};

verus! {

/// One grouped frequency row: the grouping key (1 to 3 fields, in field
/// order) and how many input triples carry it. Ephemeral, produced only
/// for report export.
pub struct GroupCount {
    pub key: Vec<String>,
    pub count: usize,
}

/// Mathematical model of one grouped frequency row.
#[verifier::ext_equal]
pub struct GroupModel {
    pub key: Seq<Seq<char>>,
    pub count: int,
}

impl View for GroupCount {
    type V = GroupModel;

    open spec fn view(&self) -> GroupModel {
        GroupModel { key: strs_view(self.key@), count: self.count as int }
    }
}

/// The grouping key of a triple: its first `arity` fields, in field order.
pub open spec fn prefix_of(t: TripleModel, arity: int) -> Seq<Seq<char>> {
    seq![t.part, t.vendor, t.product].take(arity)
}

/// How many triples of `ts` have `key` as their grouping key.
pub open spec fn count_key(ts: Seq<TripleModel>, arity: int, key: Seq<Seq<char>>) -> int
    decreases ts.len(),
{
    if ts.len() == 0 {
        0
    } else {
        count_key(ts.drop_last(), arity, key) + if prefix_of(ts.last(), arity) == key {
            1int
        } else {
            0int
        }
    }
}

/// Every triple of the population has its grouping key among the rows.
pub open spec fn keys_cover(gs: Seq<GroupCount>, ts: Seq<TripleModel>, arity: int) -> bool {
    forall|l: int|
        0 <= l < ts.len() ==> exists|i: int|
            0 <= i < gs.len() && (#[trigger] gs[i])@.key == prefix_of(#[trigger] ts[l], arity)
}

/// Every row's key is carried by at least one triple of the population:
/// no key is invented.
pub open spec fn keys_from_population(
    gs: Seq<GroupCount>,
    ts: Seq<TripleModel>,
    arity: int,
) -> bool {
    forall|i: int|
        0 <= i < gs.len() ==> count_key(ts, arity, (#[trigger] gs[i])@.key) > 0
}

/// A complete, exact tally of the population `ts`: one row per distinct
/// grouping key, with the exact count, every key covered, no key invented.
pub open spec fn tally_wf(gs: Seq<GroupCount>, ts: Seq<TripleModel>, arity: int) -> bool {
    &&& forall|i: int| 0 <= i < gs.len() ==> (#[trigger] gs[i])@.key.len() == arity
    &&& forall|i: int, j: int|
        0 <= i < gs.len() && 0 <= j < gs.len() && i != j ==> (#[trigger] gs[i])@.key != (
        #[trigger] gs[j])@.key
    &&& forall|i: int|
        0 <= i < gs.len() ==> (#[trigger] gs[i])@.count == count_key(ts, arity, gs[i]@.key)
    &&& keys_cover(gs, ts, arity)
    &&& keys_from_population(gs, ts, arity)
}

proof fn lemma_count_key_push(ts: Seq<TripleModel>, arity: int, key: Seq<Seq<char>>, x: TripleModel)
    ensures
        count_key(ts.push(x), arity, key) == count_key(ts, arity, key) + if prefix_of(x, arity)
            == key {
            1int
        } else {
            0int
        },
{
    assert(ts.push(x).drop_last() =~= ts);
    assert(ts.push(x).last() == x);
}

/// A key's count never exceeds the population size.
proof fn lemma_count_key_le_len(ts: Seq<TripleModel>, arity: int, key: Seq<Seq<char>>)
    ensures
        0 <= count_key(ts, arity, key) <= ts.len(),
    decreases ts.len(),
{
    if ts.len() > 0 {
        lemma_count_key_le_len(ts.drop_last(), arity, key);
    }
}

/// A key no triple carries counts zero.
proof fn lemma_count_key_zero(ts: Seq<TripleModel>, arity: int, key: Seq<Seq<char>>)
    requires
        forall|l: int| 0 <= l < ts.len() ==> prefix_of(#[trigger] ts[l], arity) != key,
    ensures
        count_key(ts, arity, key) == 0,
    decreases ts.len(),
{
    if ts.len() > 0 {
        assert(forall|l: int| 0 <= l < ts.drop_last().len() ==> ts.drop_last()[l] == ts[l]);
        lemma_count_key_zero(ts.drop_last(), arity, key);
    }
}

/// A key with a positive count is carried by some triple: together with
/// `keys_from_population`, every reported key is the grouping key of at
/// least one triple of the population.
pub proof fn lemma_count_key_pos(ts: Seq<TripleModel>, arity: int, key: Seq<Seq<char>>)
    requires
        count_key(ts, arity, key) > 0,
    ensures
        exists|l: int| 0 <= l < ts.len() && prefix_of(#[trigger] ts[l], arity) == key,
    decreases ts.len(),
{
    if prefix_of(ts.last(), arity) == key {
        assert(0 <= ts.len() - 1 < ts.len() && prefix_of(ts[ts.len() - 1], arity) == key);
    } else {
        lemma_count_key_pos(ts.drop_last(), arity, key);
        let l = choose|l: int|
            0 <= l < ts.drop_last().len() && prefix_of(#[trigger] ts.drop_last()[l], arity) == key;
        assert(0 <= l < ts.len() && prefix_of(ts[l], arity) == key);
    }
}

/// The first `arity` fields of a triple, as owned strings.
fn make_key(t: &Triple, arity: usize) -> (r: Vec<String>)
    requires
        1 <= arity <= 3,
    ensures
        strs_view(r@) == prefix_of(t@, arity as int),
        r@.len() == arity,
{
    let mut key: Vec<String> = Vec::new();
    key.push(t.part.clone());
    if arity >= 2 {
        key.push(t.vendor.clone());
    }
    if arity >= 3 {
        key.push(t.product.clone());
    }
    proof {
        assert(strs_view(key@) =~= prefix_of(t@, arity as int));
    }
    key
}

/// Whether two key vectors hold the same strings in the same order.
fn keys_equal(a: &Vec<String>, b: &Vec<String>) -> (r: bool)
    ensures
        r == (strs_view(a@) == strs_view(b@)),
{
    if a.len() != b.len() {
        proof {
            assert(strs_view(a@).len() != strs_view(b@).len());
        }
        return false;
    }
    for j in 0..a.len()
        invariant
            a@.len() == b@.len(),
            forall|l: int| 0 <= l < j ==> (#[trigger] a@[l])@ == b@[l]@,
    {
        if !(a[j] == b[j]) {
            proof {
                assert(strs_view(a@)[j as int] != strs_view(b@)[j as int]);
            }
            return false;
        }
    }
    proof {
        assert(strs_view(a@) =~= strs_view(b@));
    }
    true
}

/// After one more triple, a tally whose row `idx` (the row carrying that
/// triple's key) gained one is again a complete tally.
proof fn lemma_absorb_existing(
    prev: Seq<GroupCount>,
    now: Seq<GroupCount>,
    ts: Seq<TripleModel>,
    t: TripleModel,
    arity: int,
    idx: int,
)
    requires
        tally_wf(prev, ts, arity),
        0 <= idx < prev.len(),
        prev[idx]@.key == prefix_of(t, arity),
        now.len() == prev.len(),
        forall|i: int| 0 <= i < now.len() && i != idx ==> #[trigger] now[i] == prev[i],
        now[idx]@.key == prev[idx]@.key,
        now[idx]@.count == prev[idx]@.count + 1,
    ensures
        tally_wf(now, ts.push(t), arity),
{
    let ts1 = ts.push(t);
    let kpre = prefix_of(t, arity);
    assert(keys_cover(prev, ts, arity));
    assert(keys_from_population(prev, ts, arity));
    assert(ts1.drop_last() =~= ts);
    assert(ts1.last() == t);
    assert(forall|i: int| 0 <= i < now.len() ==> (#[trigger] now[i])@.key == prev[i]@.key);
    assert forall|i: int| 0 <= i < now.len() implies (#[trigger] now[i])@.count == count_key(
        ts1,
        arity,
        now[i]@.key,
    ) by {
        lemma_count_key_push(ts, arity, now[i]@.key, t);
        if i == idx {
            assert(count_key(ts1, arity, kpre) == count_key(ts, arity, kpre) + 1);
        } else {
            assert(prev[i]@.key != prev[idx]@.key);
            assert(now[i]@ == prev[i]@);
        }
    }
    assert forall|l: int| 0 <= l < ts1.len() implies exists|i: int|
        0 <= i < now.len() && (#[trigger] now[i])@.key == prefix_of(#[trigger] ts1[l], arity) by {
        if l < ts.len() {
            assert(ts1[l] == ts[l]);
            let i = choose|i: int|
                0 <= i < prev.len() && (#[trigger] prev[i])@.key == prefix_of(ts[l], arity);
            assert(0 <= i < now.len() && now[i]@.key == prefix_of(ts1[l], arity));
        } else {
            assert(ts1[l] == t);
            assert(0 <= idx < now.len() && now[idx]@.key == prefix_of(ts1[l], arity));
        }
    }
    assert(keys_cover(now, ts1, arity));
    assert forall|i: int| 0 <= i < now.len() implies count_key(ts1, arity, (
    #[trigger] now[i])@.key) > 0 by {
        lemma_count_key_push(ts, arity, now[i]@.key, t);
        assert(count_key(ts, arity, prev[i]@.key) > 0);
    }
    assert(keys_from_population(now, ts1, arity));
}

/// After one more triple whose key no row carried, a tally extended with
/// a new row of count one is again a complete tally.
proof fn lemma_absorb_new(
    prev: Seq<GroupCount>,
    now: Seq<GroupCount>,
    ts: Seq<TripleModel>,
    t: TripleModel,
    arity: int,
)
    requires
        tally_wf(prev, ts, arity),
        forall|i: int| 0 <= i < prev.len() ==> (#[trigger] prev[i])@.key != prefix_of(t, arity),
        now.len() == prev.len() + 1,
        forall|i: int| 0 <= i < prev.len() ==> #[trigger] now[i] == prev[i],
        now[prev.len() as int]@.key == prefix_of(t, arity),
        now[prev.len() as int]@.key.len() == arity,
        now[prev.len() as int]@.count == 1,
    ensures
        tally_wf(now, ts.push(t), arity),
{
    let ts1 = ts.push(t);
    let kpre = prefix_of(t, arity);
    let newi = prev.len() as int;
    assert(keys_cover(prev, ts, arity));
    assert(keys_from_population(prev, ts, arity));
    assert(ts1.drop_last() =~= ts);
    assert(ts1.last() == t);
    assert forall|l: int| 0 <= l < ts.len() implies prefix_of(#[trigger] ts[l], arity)
        != kpre by {
        let i = choose|i: int|
            0 <= i < prev.len() && (#[trigger] prev[i])@.key == prefix_of(ts[l], arity);
        assert(prev[i]@.key != kpre);
    }
    lemma_count_key_zero(ts, arity, kpre);
    assert forall|i: int| 0 <= i < now.len() implies (#[trigger] now[i])@.count == count_key(
        ts1,
        arity,
        now[i]@.key,
    ) by {
        lemma_count_key_push(ts, arity, now[i]@.key, t);
        if i < newi {
            assert(prev[i]@.key != kpre);
            assert(now[i]@ == prev[i]@);
        } else {
            assert(count_key(ts1, arity, kpre) == 1);
        }
    }
    assert forall|l: int| 0 <= l < ts1.len() implies exists|i: int|
        0 <= i < now.len() && (#[trigger] now[i])@.key == prefix_of(#[trigger] ts1[l], arity) by {
        if l < ts.len() {
            assert(ts1[l] == ts[l]);
            let i = choose|i: int|
                0 <= i < prev.len() && (#[trigger] prev[i])@.key == prefix_of(ts[l], arity);
            assert(0 <= i < now.len() && now[i]@.key == prefix_of(ts1[l], arity));
        } else {
            assert(ts1[l] == t);
            assert(now[newi]@.key == prefix_of(ts1[l], arity));
        }
    }
    assert(keys_cover(now, ts1, arity));
    assert forall|i: int| 0 <= i < now.len() implies count_key(ts1, arity, (
    #[trigger] now[i])@.key) > 0 by {
        lemma_count_key_push(ts, arity, now[i]@.key, t);
        if i < newi {
            assert(count_key(ts, arity, prev[i]@.key) > 0);
        } else {
            assert(count_key(ts1, arity, kpre) == 1);
        }
    }
    assert(keys_from_population(now, ts1, arity));
}

/// Counts one more triple into the tally: the row with its key gains one,
/// or a new row with count one appears at the end.
fn absorb_triple(groups: &mut Vec<GroupCount>, t: &Triple, arity: usize, Ghost(ts): Ghost<
    Seq<TripleModel>,
>)
    requires
        1 <= arity <= 3,
        tally_wf(old(groups)@, ts, arity as int),
        ts.len() < usize::MAX,
    ensures
        tally_wf(final(groups)@, ts.push(t@), arity as int),
{
    let key = make_key(t, arity);
    let mut found = false;
    let mut idx: usize = 0;
    for j in 0..groups.len()
        invariant
            found ==> idx < groups@.len() && (groups@[idx as int])@.key == strs_view(key@),
            !found ==> forall|l: int|
                0 <= l < j ==> (#[trigger] groups@[l])@.key != strs_view(key@),
    {
        if keys_equal(&groups[j].key, &key) {
            found = true;
            idx = j;
        }
    }
    let ghost prev = groups@;
    if found {
        let mut g = groups.remove(idx);
        proof {
            assert(prev[idx as int]@.count == count_key(ts, arity as int, prev[idx as int]@.key));
            lemma_count_key_le_len(ts, arity as int, g@.key);
        }
        g.count = g.count + 1;
        groups.insert(idx, g);
        proof {
            assert(groups@ =~= prev.update(idx as int, groups@[idx as int]));
            assert(forall|i: int|
                0 <= i < groups@.len() && i != idx ==> #[trigger] groups@[i] == prev[i]);
            assert(groups@[idx as int]@.key == prev[idx as int]@.key);
            assert(groups@[idx as int]@.count == prev[idx as int]@.count + 1);
            assert(prev[idx as int]@.key == prefix_of(t@, arity as int));
            lemma_absorb_existing(prev, groups@, ts, t@, arity as int, idx as int);
        }
    } else {
        groups.push(GroupCount { key, count: 1 });
        proof {
            let newi = prev.len() as int;
            assert(groups@ =~= prev.push(groups@[newi]));
            assert(forall|i: int| 0 <= i < prev.len() ==> #[trigger] groups@[i] == prev[i]);
            assert(groups@[newi]@.key == prefix_of(t@, arity as int));
            assert(groups@[newi]@.key.len() == arity);
            assert(groups@[newi]@.count == 1);
            assert(forall|i: int|
                0 <= i < prev.len() ==> (#[trigger] prev[i])@.key != prefix_of(t@, arity as int));
            lemma_absorb_new(prev, groups@, ts, t@, arity as int);
        }
    }
}

/// One row per distinct grouping key of the population, in
/// first-occurrence order, each with the exact number of triples that
/// carry it.
fn tally_groups(records: &Vec<Triple>, arity: usize) -> (groups: Vec<GroupCount>)
    requires
        1 <= arity <= 3,
    ensures
        tally_wf(groups@, triples_view(records@), arity as int),
{
    let mut groups: Vec<GroupCount> = Vec::new();
    proof {
        assert(triples_view(records@.take(0)) =~= Seq::<TripleModel>::empty());
    }
    for k in 0..records.len()
        invariant
            1 <= arity <= 3,
            tally_wf(groups@, triples_view(records@.take(k as int)), arity as int),
    {
        let ghost tk = triples_view(records@.take(k as int));
        absorb_triple(&mut groups, &records[k], arity, Ghost(tk));
        proof {
            assert(triples_view(records@.take(k + 1 as int)) =~= tk.push(records@[k as int]@));
        }
    }
    proof {
        assert(records@.take(records@.len() as int) =~= records@);
    }
    groups
}

/// Moving one row of a complete tally to an earlier position (the step of
/// an insertion sort) leaves a complete tally: none of its facts depend
/// on row order.
proof fn lemma_tally_rearrange(
    before: Seq<GroupCount>,
    after: Seq<GroupCount>,
    ts: Seq<TripleModel>,
    arity: int,
    i: int,
    p: int,
)
    requires
        tally_wf(before, ts, arity),
        0 <= p <= i < before.len(),
        after.len() == before.len(),
        forall|l: int| 0 <= l < p ==> #[trigger] after[l] == before[l],
        after[p] == before[i],
        forall|l: int| p < l <= i ==> #[trigger] after[l] == before[l - 1],
        forall|l: int| i < l < after.len() ==> #[trigger] after[l] == before[l],
    ensures
        tally_wf(after, ts, arity),
{
    // each new position holds the row of one old position, injectively
    let oidx = |l: int|
        if l < p {
            l
        } else if l == p {
            i
        } else if l <= i {
            l - 1
        } else {
            l
        };
    assert forall|l: int| 0 <= l < after.len() implies 0 <= oidx(l) < before.len() && (
    #[trigger] after[l]) == before[oidx(l)] by {}
    assert forall|l: int| 0 <= l < after.len() implies (#[trigger] after[l])@.key.len()
        == arity by {
        assert(after[l] == before[oidx(l)]);
    }
    assert forall|l1: int, l2: int|
        0 <= l1 < after.len() && 0 <= l2 < after.len() && l1 != l2 implies (
    #[trigger] after[l1])@.key != (#[trigger] after[l2])@.key by {
        assert(oidx(l1) != oidx(l2));
        assert(before[oidx(l1)]@.key != before[oidx(l2)]@.key);
    }
    assert forall|l: int| 0 <= l < after.len() implies (#[trigger] after[l])@.count == count_key(
        ts,
        arity,
        after[l]@.key,
    ) by {
        assert(after[l] == before[oidx(l)]);
    }
    assert forall|l: int| 0 <= l < after.len() implies count_key(ts, arity, (
    #[trigger] after[l])@.key) > 0 by {
        assert(after[l] == before[oidx(l)]);
        assert(count_key(ts, arity, before[oidx(l)]@.key) > 0);
    }
    assert(keys_from_population(after, ts, arity));
    // each old position's row is found at a new position
    let nidx = |m: int|
        if m < p {
            m
        } else if m < i {
            m + 1
        } else if m == i {
            p
        } else {
            m
        };
    assert forall|m: int| 0 <= m < before.len() implies 0 <= nidx(m) < after.len() && after[nidx(
        m,
    )] == (#[trigger] before[m]) by {}
    assert forall|k: int| 0 <= k < ts.len() implies exists|i2: int|
        0 <= i2 < after.len() && (#[trigger] after[i2])@.key == prefix_of(
            #[trigger] ts[k],
            arity,
        ) by {
        let m = choose|m: int|
            0 <= m < before.len() && (#[trigger] before[m])@.key == prefix_of(ts[k], arity);
        assert(after[nidx(m)]@.key == prefix_of(ts[k], arity));
    }
    assert(keys_cover(after, ts, arity));
}

/// Sorts rows by count descending with a stable insertion sort: rows with
/// equal counts keep their relative order, so the output is deterministic
/// for a given input. Being a permutation, the sort keeps the tally
/// complete and exact.
fn sort_by_count_desc(rows: Vec<GroupCount>, Ghost(ts): Ghost<Seq<TripleModel>>, Ghost(arity): Ghost<
    int,
>) -> (out: Vec<GroupCount>)
    requires
        tally_wf(rows@, ts, arity),
    ensures
        tally_wf(out@, ts, arity),
        forall|a: int, b: int|
            0 <= a < b < out@.len() ==> (#[trigger] out@[a])@.count >= (#[trigger] out@[b])@.count,
{
    let mut out = rows;
    let n = out.len();
    let mut i: usize = 1;
    while i < n
        invariant
            n == out@.len(),
            1 <= i,
            i <= n || i == 1,
            tally_wf(out@, ts, arity),
            forall|a: int, b: int|
                0 <= a < b < i && b < out@.len() ==> (#[trigger] out@[a])@.count >= (
                #[trigger] out@[b])@.count,
        decreases n - i,
    {
        let cur = out[i].count;
        let mut p: usize = 0;
        while p < i && out[p].count >= cur
            invariant
                p <= i < out@.len(),
                forall|l: int| 0 <= l < p ==> (#[trigger] out@[l])@.count >= cur as int,
            decreases i - p,
        {
            p = p + 1;
        }
        let ghost before = out@;
        let g = out.remove(i);
        out.insert(p, g);
        proof {
            assert(forall|l: int| 0 <= l < p ==> #[trigger] out@[l] == before[l]);
            assert(out@[p as int] == before[i as int]);
            assert(forall|l: int| p < l <= i ==> #[trigger] out@[l] == before[l - 1]);
            assert(forall|l: int| i < l < out@.len() ==> #[trigger] out@[l] == before[l]);
            lemma_tally_rearrange(before, out@, ts, arity, i as int, p as int);
            assert(g@.count == cur as int);
            assert forall|a: int, b: int| 0 <= a < b < i + 1 && b < out@.len() implies (
            #[trigger] out@[a])@.count >= (#[trigger] out@[b])@.count by {
                if a < p && b < p {
                    assert(out@[a] == before[a] && out@[b] == before[b]);
                } else if a < p && b == p {
                    assert(out@[a] == before[a]);
                    assert(out@[a]@.count >= cur as int);
                } else if a < p && b > p {
                    assert(out@[a] == before[a] && out@[b] == before[b - 1]);
                } else if a == p && b > p {
                    assert(out@[b] == before[b - 1]);
                    if p < i {
                        assert(before[p as int]@.count < cur as int);
                    }
                } else {
                    assert(a > p && b > p);
                    assert(out@[a] == before[a - 1] && out@[b] == before[b - 1]);
                }
            }
        }
        i = i + 1;
    }
    out
}

/// The grouped frequency counts of a triple population.
///
/// Groups the population by the first `arity` fields (part; part and
/// vendor; part, vendor and product): one row per distinct key, with the
/// exact number of triples carrying it, every key of the population
/// covered and no other (`tally_wf`), ordered by count descending. The
/// order of rows with equal counts is deterministic for a given input
/// (first-occurrence order is kept by a stable sort) but otherwise
/// unspecified.
pub fn group_count(records: &Vec<Triple>, arity: usize) -> (r: Vec<GroupCount>)
    requires
        1 <= arity <= 3,
    ensures
        tally_wf(r@, triples_view(records@), arity as int),
        forall|i: int, j: int|
            0 <= i < j < r@.len() ==> (#[trigger] r@[i])@.count >= (#[trigger] r@[j])@.count,
{
    let groups = tally_groups(records, arity);
    let ghost ts = triples_view(records@);
    sort_by_count_desc(groups, Ghost(ts), Ghost(arity as int))
}

} // verus!
