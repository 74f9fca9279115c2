//! CVE match-configuration trees: recursive descent over a tree of
//! AND/OR grouping nodes, collecting every identifier string referenced
//! at the leaves.
use vstd::prelude::*;

use crate::error::CpeError;
use crate::identifier::strs_view;

verus! {

/// One match entry at a leaf: the identifier string it references, or
/// nothing when the entry lacks the identifier field (feed schema drift).
pub struct MatchEntry {
    pub identifier: Option<String>,
}

/// One node of a match-configuration tree. A node with children is a pure
/// grouping node; match entries carry identifiers only at the leaves.
pub struct MatchNode {
    pub children: Vec<MatchNode>,
    pub match_entries: Vec<MatchEntry>,
}

/// Whether every match entry this walk would read carries its identifier.
/// Entries at a node with children are never read, so they are not
/// required to be complete.
pub open spec fn node_complete(n: MatchNode) -> bool
    decreases n,
{
    if n.children@.len() > 0 {
        forall|i: int|
            0 <= i < n.children@.len() ==> node_complete(#[trigger] n.children@[i])
    } else {
        forall|i: int|
            0 <= i < n.match_entries@.len() ==> (#[trigger] n.match_entries@[i]).identifier is Some
    }
}

/// The identifier strings of a sequence of match entries, in order.
pub open spec fn entry_identifiers(es: Seq<MatchEntry>) -> Seq<Seq<char>> {
    es.map_values(|e: MatchEntry| e.identifier->0@)
}

/// The identifiers a walk of the tree collects, in walk order: a node
/// with children contributes only the concatenation of its children's
/// results; a childless node contributes its own match entries in order.
pub open spec fn node_identifiers(n: MatchNode) -> Seq<Seq<char>>
    decreases n,
{
    if n.children@.len() > 0 {
        children_identifiers(n.children@)
    } else {
        entry_identifiers(n.match_entries@)
    }
}

/// The concatenation of the identifiers collected from each node of `cs`,
/// in order.
pub open spec fn children_identifiers(cs: Seq<MatchNode>) -> Seq<Seq<char>>
    decreases cs,
{
    if cs.len() == 0 {
        Seq::<Seq<char>>::empty()
    } else {
        children_identifiers(cs.drop_last()) + node_identifiers(cs.last())
    }
}

/// Collects every identifier string referenced by the tree under `node`.
///
/// A node with children is treated as a pure grouping node: only the
/// children's results are returned, in order, and the node's own match
/// entries are ignored. A childless node returns its match entries'
/// identifier strings in input order. A match entry that is read but has
/// no identifier string is a hard error, `MissingIdentifierField`.
pub fn collect_identifiers(node: &MatchNode) -> (r: Result<Vec<String>, CpeError>)
    ensures
        node_complete(*node) ==> (r is Ok && strs_view(r->Ok_0@) == node_identifiers(*node)),
        !node_complete(*node) ==> r == Err::<Vec<String>, CpeError>(
            CpeError::MissingIdentifierField,
        ),
    decreases *node,
{
    let mut out: Vec<String> = Vec::new();
    if node.children.len() > 0 {
        proof {
            assert(node.children@.take(0) =~= Seq::<MatchNode>::empty());
            assert(strs_view(out@) =~= children_identifiers(node.children@.take(0)));
        }
        for i in 0..node.children.len()
            invariant
                node.children@.len() > 0,
                forall|j: int| 0 <= j < i ==> node_complete(#[trigger] node.children@[j]),
                strs_view(out@) == children_identifiers(node.children@.take(i as int)),
        {
            let sub = collect_identifiers(&node.children[i]);
            match sub {
                Ok(mut v) => {
                    let ghost prev_out = out@;
                    let ghost sub_seq = v@;
                    out.append(&mut v);
                    proof {
                        assert(node.children@.take(i + 1 as int).drop_last() =~= node.children@.take(
                            i as int,
                        ));
                        assert(node.children@.take(i + 1 as int).last() == node.children@[i as int]);
                        assert(strs_view(out@) =~= strs_view(prev_out) + strs_view(sub_seq));
                        assert(strs_view(out@) =~= children_identifiers(node.children@.take(
                            i + 1 as int,
                        )));
                    }
                },
                Err(_) => {
                    proof {
                        assert(!node_complete(*node));
                    }
                    return Err(CpeError::MissingIdentifierField);
                },
            }
        }
        proof {
            assert(node.children@.take(node.children@.len() as int) =~= node.children@);
            assert(node_complete(*node));
        }
        Ok(out)
    } else {
        proof {
            assert(node.match_entries@.take(0) =~= Seq::<MatchEntry>::empty());
            assert(strs_view(out@) =~= entry_identifiers(node.match_entries@.take(0)));
        }
        for i in 0..node.match_entries.len()
            invariant
                node.children@.len() == 0,
                forall|j: int|
                    0 <= j < i ==> (#[trigger] node.match_entries@[j]).identifier is Some,
                strs_view(out@) == entry_identifiers(node.match_entries@.take(i as int)),
        {
            match &node.match_entries[i].identifier {
                Some(s) => {
                    let ghost prev_out = out@;
                    out.push(s.clone());
                    proof {
                        let ghost c = out@.last();
                        let ghost e = node.match_entries@[i as int];
                        assert(out@ =~= prev_out.push(c));
                        assert(e.identifier == Some(*s));
                        assert(c@ == e.identifier->0@);
                        assert(node.match_entries@.take(i + 1 as int) =~= node.match_entries@.take(
                            i as int,
                        ).push(e));
                        assert(entry_identifiers(node.match_entries@.take(i as int).push(e))
                            =~= entry_identifiers(node.match_entries@.take(i as int)).push(
                            e.identifier->0@,
                        ));
                        assert(strs_view(prev_out.push(c)) =~= strs_view(prev_out).push(c@));
                        assert(strs_view(out@) =~= entry_identifiers(node.match_entries@.take(
                            i + 1 as int,
                        )));
                    }
                },
                None => {
                    proof {
                        assert(!node_complete(*node));
                    }
                    return Err(CpeError::MissingIdentifierField);
                },
            }
        }
        proof {
            assert(node.match_entries@.take(node.match_entries@.len() as int)
                =~= node.match_entries@);
            assert(node_complete(*node));
        }
        Ok(out)
    }
}

/// A tree with only leaf match entries and no children collects exactly
/// those entries' identifiers, in input order.
pub proof fn lemma_collect_leaf(n: MatchNode)
    requires
        n.children@.len() == 0,
    ensures
        node_identifiers(n) == entry_identifiers(n.match_entries@),
{
}

/// A node with children collects only the concatenation of its children's
/// results: its own match entries play no part, so two nodes with the
/// same children collect the same identifiers, whatever their entries.
pub proof fn lemma_grouping_ignores_entries(a: MatchNode, b: MatchNode)
    requires
        a.children@ == b.children@,
        a.children@.len() > 0,
    ensures
        node_identifiers(a) == node_identifiers(b),
        node_complete(a) == node_complete(b),
{
}

} // verus!
