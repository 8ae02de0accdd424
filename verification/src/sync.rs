//! The graph synchronizer: after a block's vector is recomputed, bring the
//! document-level similarity graph in line with the corpus by the minimal
//! edge mutation.
//!
//! Hits are grouped by owning document into the set `A`; the documents
//! already linked to the source form the set `B`. Edges are created for
//! `A \ B`, removed for `B \ A`, and one batched change notification is
//! produced exactly when something changed.

use vstd::prelude::*;

use crate::counting::distinct_with_counts;
use crate::counting::firsts;
use crate::counting::lemma_firsts_distinct;
use crate::counting::lemma_occurrences_contains;
use crate::counting::lemma_occurrences_firsts;
use crate::counting::occurrences;
use crate::graph::EdgeChangeInfo;
use crate::graph::EdgeRecord;
use crate::graph::EdgeStore;
use crate::graph::GraphEdge;
use crate::graph::lemma_incident_rows_membership;
use crate::graph::matches_pair;
use crate::graph::row_doc_ids;
use crate::graph::spec_incident_rows;
use crate::vector_index::Neighbor;
use crate::vector_index::NeighborView;

verus! {

broadcast use vstd::seq_lib::group_to_multiset_ensures;

/// Hit counts are turned into an edge weight by dividing by this constant
/// and capping at one; in tenths, the weight is the count capped at the
/// constant itself.
pub const WEIGHT_NORMALIZATION: u32 = 10;

/// The weight, in tenths, of an edge backed by `count` similar blocks.
pub open spec fn spec_weight_tenths(count: int) -> int {
    if count > WEIGHT_NORMALIZATION as int {
        WEIGHT_NORMALIZATION as int
    } else {
        count
    }
}

/// One candidate document with the number of nearest-neighbour hits that
/// fell into it.
pub struct DocHitCount {
    pub document_id: String,
    pub count: usize,
}

/// The owning documents of `hits`, the source document left out; repeats
/// are kept, order too.
pub open spec fn hit_docs(hits: Seq<NeighborView>, src: Seq<char>) -> Seq<Seq<char>>
    decreases hits.len(),
{
    if hits.len() == 0 {
        Seq::empty()
    } else {
        let prev = hit_docs(hits.drop_last(), src);
        if hits.last().document_id == src {
            prev
        } else {
            prev.push(hits.last().document_id)
        }
    }
}

/// No hit document equals the source.
proof fn lemma_hit_docs_excludes(hits: Seq<NeighborView>, src: Seq<char>)
    ensures
        forall|k: int| 0 <= k < hit_docs(hits, src).len() ==> #[trigger] hit_docs(hits, src)[k]
            != src,
    decreases hits.len(),
{
    if hits.len() > 0 {
        lemma_hit_docs_excludes(hits.drop_last(), src);
        let out = hit_docs(hits, src);
        let prev = hit_docs(hits.drop_last(), src);
        assert forall|k: int| 0 <= k < out.len() implies #[trigger] out[k] != src by {
            if k < prev.len() {
                assert(out[k] == prev[k]);
            } else {
                assert(out[k] == hits.last().document_id);
            }
        }
    }
}

/// Group `hits` by owning document, excluding the source document: one
/// entry per distinct document in order of first hit, with its hit count.
pub fn count_hits_per_document(hits: &Vec<Neighbor>, source_document_id: &String) -> (r: Vec<
    DocHitCount,
>)
    ensures
        ({
            let docs = hit_docs(hits@.map_values(|nb: Neighbor| nb@), source_document_id@);
            &&& r@.len() == firsts(docs).len()
            &&& forall|j: int|
                0 <= j < r@.len() ==> (#[trigger] r@[j]).document_id@ == firsts(docs)[j]
            &&& forall|j: int|
                0 <= j < r@.len() ==> (#[trigger] r@[j]).count == occurrences(
                    docs,
                    firsts(docs)[j],
                )
            &&& forall|i: int, j: int|
                0 <= i < j < r@.len() ==> (#[trigger] r@[i]).document_id@ != (
                #[trigger] r@[j]).document_id@
            &&& forall|j: int|
                0 <= j < r@.len() ==> (#[trigger] r@[j]).document_id@ != source_document_id@
        }),
{
    let ghost views = hits@.map_values(|nb: Neighbor| nb@);
    let ghost docs = hit_docs(views, source_document_id@);
    let mut ids: Vec<String> = Vec::new();
    let n: usize = hits.len();
    let mut i: usize = 0;
    proof {
        assert(views.take(0) =~= Seq::<NeighborView>::empty());
    }
    while i < n
        invariant
            i <= n,
            n == hits@.len(),
            views == hits@.map_values(|nb: Neighbor| nb@),
            ids@.map_values(|s: String| s@) == hit_docs(
                views.take(i as int),
                source_document_id@,
            ),
        decreases n - i,
    {
        proof {
            assert(views.take(i as int + 1).drop_last() =~= views.take(i as int));
            assert(views.take(i as int + 1).last() == views[i as int]);
            assert(views[i as int] == hits@[i as int]@);
        }
        if !hits[i].document_id.eq(source_document_id) {
            let id = hits[i].document_id.clone();
            proof {
                assert((ids@.push(id)).map_values(|s: String| s@) =~= ids@.map_values(
                    |s: String| s@,
                ).push(id@));
            }
            ids.push(id);
        }
        i = i + 1;
    }
    proof {
        assert(views.take(n as int) =~= views);
    }
    let (uniq, counts) = distinct_with_counts(&ids);
    let mut r: Vec<DocHitCount> = Vec::new();
    let m: usize = uniq.len();
    let mut j: usize = 0;
    while j < m
        invariant
            j <= m,
            m == uniq@.len(),
            counts@.len() == uniq@.len(),
            uniq@.map_values(|s: String| s@) == firsts(docs),
            forall|k: int|
                0 <= k < uniq@.len() ==> counts@[k] == occurrences(docs, uniq@[k]@),
            r@.len() == j,
            forall|k: int| 0 <= k < j ==> (#[trigger] r@[k]).document_id@ == firsts(docs)[k],
            forall|k: int|
                0 <= k < j ==> (#[trigger] r@[k]).count == occurrences(docs, firsts(docs)[k]),
        decreases m - j,
    {
        proof {
            assert(uniq@.map_values(|s: String| s@)[j as int] == uniq@[j as int]@);
        }
        let entry = DocHitCount { document_id: uniq[j].clone(), count: counts[j] };
        r.push(entry);
        j = j + 1;
    }
    proof {
        lemma_firsts_distinct(docs);
        lemma_hit_docs_excludes(views, source_document_id@);
        assert forall|a: int, b: int|
            0 <= a < b < r@.len() implies (#[trigger] r@[a]).document_id@ != (
        #[trigger] r@[b]).document_id@ by {
            assert(r@[a].document_id@ == firsts(docs)[a]);
            assert(r@[b].document_id@ == firsts(docs)[b]);
        }
        assert forall|k: int| 0 <= k < r@.len() implies (#[trigger] r@[k]).document_id@
            != source_document_id@ by {
            assert(r@[k].document_id@ == firsts(docs)[k]);
            lemma_occurrences_firsts(docs, firsts(docs)[k]);
            lemma_occurrences_contains(docs, firsts(docs)[k]);
            assert(firsts(docs).contains(firsts(docs)[k]));
            let p = choose|p: int| 0 <= p < docs.len() && docs[p] == firsts(docs)[k];
            assert(docs[p] != source_document_id@);
        }
    }
    r
}

/// The set that a sequence of identifiers spans.
pub open spec fn set_of_ids(ids: Seq<Seq<char>>) -> Set<Seq<char>> {
    Set::new(|x: Seq<char>| ids.contains(x))
}

/// The document identities of a hit-count list, in order.
pub open spec fn count_ids(cs: Seq<DocHitCount>) -> Seq<Seq<char>> {
    Seq::new(cs.len(), |j: int| cs[j].document_id@)
}

/// The views of a list of owned identifiers, in order.
pub open spec fn str_views(ss: Seq<String>) -> Seq<Seq<char>> {
    Seq::new(ss.len(), |j: int| ss[j]@)
}

/// The identifiers of `ids` that are not in `excluded`, order kept.
pub open spec fn spec_keep_missing(ids: Seq<Seq<char>>, excluded: Set<Seq<char>>) -> Seq<
    Seq<char>,
>
    decreases ids.len(),
{
    if ids.len() == 0 {
        Seq::empty()
    } else {
        let prev = spec_keep_missing(ids.drop_last(), excluded);
        if excluded.contains(ids.last()) {
            prev
        } else {
            prev.push(ids.last())
        }
    }
}

/// An identifier survives [`spec_keep_missing`] exactly when it was present
/// and is not excluded.
pub proof fn lemma_keep_missing_membership(
    ids: Seq<Seq<char>>,
    excluded: Set<Seq<char>>,
    x: Seq<char>,
)
    ensures
        spec_keep_missing(ids, excluded).contains(x) <==> (ids.contains(x)
            && !excluded.contains(x)),
    decreases ids.len(),
{
    if ids.len() > 0 {
        lemma_keep_missing_membership(ids.drop_last(), excluded, x);
        let out = spec_keep_missing(ids, excluded);
        let prev = spec_keep_missing(ids.drop_last(), excluded);
        assert(ids.drop_last().contains(x) ==> ids.contains(x)) by {
            if ids.drop_last().contains(x) {
                let i = choose|i: int| 0 <= i < ids.drop_last().len() && ids.drop_last()[i] == x;
                assert(ids[i] == x);
            }
        }
        if out.contains(x) {
            let i = choose|i: int| 0 <= i < out.len() && out[i] == x;
            if !excluded.contains(ids.last()) && i == prev.len() {
                assert(out[i] == ids.last());
                assert(ids[ids.len() - 1] == x);
                assert(ids.contains(x));
            } else {
                assert(prev[i] == x);
                assert(prev.contains(x));
            }
        }
        if ids.contains(x) && !excluded.contains(x) {
            if ids.last() == x {
                assert(out[out.len() - 1] == x);
                assert(out.contains(x));
            } else {
                let i = choose|i: int| 0 <= i < ids.len() && ids[i] == x;
                assert(ids.drop_last()[i] == x);
                assert(ids.drop_last().contains(x));
                assert(prev.contains(x));
                let k = choose|k: int| 0 <= k < prev.len() && prev[k] == x;
                assert(out[k] == x);
            }
        }
    }
}

/// Whether the reconciliation of `d` leaves the record `e` alone: `e`
/// does not pair `d` with a document that is linked but no longer
/// similar.
pub open spec fn spec_untouched(
    e: EdgeRecord,
    d: Seq<char>,
    linked: Set<Seq<char>>,
    similar: Set<Seq<char>>,
) -> bool {
    forall|t: Seq<char>|
        linked.contains(t) && !similar.contains(t) ==> !(#[trigger] matches_pair(e, d, t))
}

/// Whether no planned removal touches the record `e`: none of the listed
/// removal targets forms a pair with the source document around `e`.
spec fn survives_removals(e: EdgeRecord, d: Seq<char>, removed: Seq<GraphEdge>) -> bool {
    forall|k: int|
        0 <= k < removed.len() ==> !matches_pair(e, d, (#[trigger] removed[k]).target@)
}

/// Filtering keeps distinct identifiers distinct.
proof fn lemma_keep_missing_distinct(ids: Seq<Seq<char>>, excluded: Set<Seq<char>>)
    requires
        forall|a: int, b: int| 0 <= a < b < ids.len() ==> ids[a] != ids[b],
    ensures
        forall|a: int, b: int|
            0 <= a < b < spec_keep_missing(ids, excluded).len() ==> spec_keep_missing(
                ids,
                excluded,
            )[a] != spec_keep_missing(ids, excluded)[b],
    decreases ids.len(),
{
    if ids.len() > 0 {
        assert forall|a: int, b: int|
            0 <= a < b < ids.drop_last().len() implies ids.drop_last()[a] != ids.drop_last()[
            b] by {
            assert(ids.drop_last()[a] == ids[a]);
            assert(ids.drop_last()[b] == ids[b]);
        }
        lemma_keep_missing_distinct(ids.drop_last(), excluded);
        let out = spec_keep_missing(ids, excluded);
        let prev = spec_keep_missing(ids.drop_last(), excluded);
        if !excluded.contains(ids.last()) {
            assert forall|a: int, b: int| 0 <= a < b < out.len() implies out[a] != out[b] by {
                if b == prev.len() {
                    assert(out[a] == prev[a]);
                    assert(out[b] == ids.last());
                    assert(prev.contains(prev[a]));
                    lemma_keep_missing_membership(ids.drop_last(), excluded, prev[a]);
                    let i0 = choose|i0: int|
                        0 <= i0 < ids.drop_last().len() && ids.drop_last()[i0] == prev[a];
                    assert(ids[i0] == prev[a]);
                    assert(ids[i0] != ids[ids.len() - 1]);
                } else {
                    assert(out[a] == prev[a]);
                    assert(out[b] == prev[b]);
                }
            }
        }
    }
}

/// The minimal mutation that reconciles the similar documents `doc_counts`
/// (the set `A`, with hit counts) with the already linked documents
/// `linked_ids` (the set `B`): additions for `A \ B`, removals for
/// `B \ A`. Additions carry the hit-count weight; removals carry none.
pub fn sync_plan(
    document_id: &String,
    doc_counts: &Vec<DocHitCount>,
    linked_ids: &Vec<String>,
) -> (plan: EdgeChangeInfo)
    requires
        forall|i: int, j: int|
            0 <= i < j < doc_counts@.len() ==> (#[trigger] doc_counts@[i]).document_id@ != (
            #[trigger] doc_counts@[j]).document_id@,
    ensures
        ({
            let a_ids = count_ids(doc_counts@);
            let b_ids = str_views(linked_ids@);
            let to_add = spec_keep_missing(a_ids, set_of_ids(b_ids));
            let to_remove = spec_keep_missing(b_ids, set_of_ids(a_ids));
            &&& plan.added_edges@.len() == to_add.len()
            &&& forall|j: int|
                0 <= j < plan.added_edges@.len() ==> (#[trigger] plan.added_edges@[j]).target@
                    == to_add[j]
            &&& forall|j: int|
                0 <= j < plan.added_edges@.len() ==> {
                    let e = #[trigger] plan.added_edges@[j];
                    e.source@ == document_id@ && e.edge_type@ == "document-document"@ && exists|
                        k: int,
                    |
                        0 <= k < doc_counts@.len() && (#[trigger] doc_counts@[k]).document_id@
                            == e.target@ && e@.weight_tenths == Some(
                            spec_weight_tenths(doc_counts@[k].count as int),
                        )
                }
            &&& plan.removed_edges@.len() == to_remove.len()
            &&& forall|j: int|
                0 <= j < plan.removed_edges@.len() ==> (#[trigger] plan.removed_edges@[j]).target@
                    == to_remove[j]
            &&& forall|j: int|
                0 <= j < plan.removed_edges@.len() ==> {
                    let e = #[trigger] plan.removed_edges@[j];
                    e.source@ == document_id@ && e.edge_type@ == "document-document"@
                        && e.weight_tenths.is_none()
                }
        }),
{
    let ghost a_ids = count_ids(doc_counts@);
    let ghost b_ids = str_views(linked_ids@);
    let mut added: Vec<GraphEdge> = Vec::new();
    let n: usize = doc_counts.len();
    let mut i: usize = 0;
    proof {
        assert(a_ids.take(0) =~= Seq::<Seq<char>>::empty());
    }
    while i < n
        invariant
            i <= n,
            n == doc_counts@.len(),
            a_ids == count_ids(doc_counts@),
            b_ids == str_views(linked_ids@),
            added@.len() == spec_keep_missing(a_ids.take(i as int), set_of_ids(b_ids)).len(),
            forall|j: int|
                0 <= j < added@.len() ==> (#[trigger] added@[j]).target@ == spec_keep_missing(
                    a_ids.take(i as int),
                    set_of_ids(b_ids),
                )[j],
            forall|j: int|
                0 <= j < added@.len() ==> {
                    let e = #[trigger] added@[j];
                    e.source@ == document_id@ && e.edge_type@ == "document-document"@ && exists|
                        k: int,
                    |
                        0 <= k < doc_counts@.len() && (#[trigger] doc_counts@[k]).document_id@
                            == e.target@ && e@.weight_tenths == Some(
                            spec_weight_tenths(doc_counts@[k].count as int),
                        )
                },
        decreases n - i,
    {
        proof {
            assert(a_ids.take(i as int + 1).drop_last() =~= a_ids.take(i as int));
            assert(a_ids.take(i as int + 1).last() == a_ids[i as int]);
            assert(a_ids[i as int] == doc_counts@[i as int].document_id@);
        }
        let m: usize = linked_ids.len();
        let mut j: usize = 0;
        let mut found: bool = false;
        while j < m && !found
            invariant
                j <= m,
                m == linked_ids@.len(),
                i < n,
                n == doc_counts@.len(),
                !found ==> forall|k: int|
                    0 <= k < j ==> (#[trigger] linked_ids@[k])@
                        != doc_counts@[i as int].document_id@,
                found ==> j < m && linked_ids@[j as int]@ == doc_counts@[i as int].document_id@,
            decreases m - j + if found {
                0int
            } else {
                1int
            },
        {
            if linked_ids[j].eq(&doc_counts[i].document_id) {
                found = true;
            } else {
                j = j + 1;
            }
        }
        proof {
            if found {
                assert(b_ids[j as int] == linked_ids@[j as int]@);
                assert(b_ids.contains(a_ids[i as int]));
                assert(set_of_ids(b_ids).contains(a_ids[i as int]));
            } else {
                assert(!set_of_ids(b_ids).contains(a_ids[i as int])) by {
                    if b_ids.contains(a_ids[i as int]) {
                        let k = choose|k: int| 0 <= k < b_ids.len() && b_ids[k] == a_ids[i as int];
                        assert(b_ids[k] == linked_ids@[k]@);
                    }
                }
            }
        }
        if !found {
            let count = doc_counts[i].count;
            let w: u32 = if count > 10 {
                10
            } else {
                count as u32
            };
            let edge = GraphEdge {
                source: document_id.clone(),
                target: doc_counts[i].document_id.clone(),
                edge_type: String::from_str("document-document"),
                weight_tenths: Some(w),
            };
            proof {
                assert(edge@.weight_tenths == Some(
                    spec_weight_tenths(doc_counts@[i as int].count as int),
                ));
            }
            added.push(edge);
        }
        i = i + 1;
    }
    proof {
        assert(a_ids.take(n as int) =~= a_ids);
    }
    let mut removed: Vec<GraphEdge> = Vec::new();
    let nb: usize = linked_ids.len();
    let mut i2: usize = 0;
    proof {
        assert(b_ids.take(0) =~= Seq::<Seq<char>>::empty());
    }
    while i2 < nb
        invariant
            i2 <= nb,
            nb == linked_ids@.len(),
            a_ids == count_ids(doc_counts@),
            b_ids == str_views(linked_ids@),
            removed@.len() == spec_keep_missing(b_ids.take(i2 as int), set_of_ids(a_ids)).len(),
            forall|j: int|
                0 <= j < removed@.len() ==> (#[trigger] removed@[j]).target@ == spec_keep_missing(
                    b_ids.take(i2 as int),
                    set_of_ids(a_ids),
                )[j],
            forall|j: int|
                0 <= j < removed@.len() ==> {
                    let e = #[trigger] removed@[j];
                    e.source@ == document_id@ && e.edge_type@ == "document-document"@
                        && e.weight_tenths.is_none()
                },
        decreases nb - i2,
    {
        proof {
            assert(b_ids.take(i2 as int + 1).drop_last() =~= b_ids.take(i2 as int));
            assert(b_ids.take(i2 as int + 1).last() == b_ids[i2 as int]);
            assert(b_ids[i2 as int] == linked_ids@[i2 as int]@);
        }
        let m: usize = doc_counts.len();
        let mut j: usize = 0;
        let mut found: bool = false;
        while j < m && !found
            invariant
                j <= m,
                m == doc_counts@.len(),
                i2 < nb,
                nb == linked_ids@.len(),
                !found ==> forall|k: int|
                    0 <= k < j ==> (#[trigger] doc_counts@[k]).document_id@
                        != linked_ids@[i2 as int]@,
                found ==> j < m && doc_counts@[j as int].document_id@ == linked_ids@[i2 as int]@,
            decreases m - j + if found {
                0int
            } else {
                1int
            },
        {
            if doc_counts[j].document_id.eq(&linked_ids[i2]) {
                found = true;
            } else {
                j = j + 1;
            }
        }
        proof {
            if found {
                assert(a_ids[j as int] == doc_counts@[j as int].document_id@);
                assert(a_ids.contains(b_ids[i2 as int]));
                assert(set_of_ids(a_ids).contains(b_ids[i2 as int]));
            } else {
                assert(!set_of_ids(a_ids).contains(b_ids[i2 as int])) by {
                    if a_ids.contains(b_ids[i2 as int]) {
                        let k = choose|k: int|
                            0 <= k < a_ids.len() && a_ids[k] == b_ids[i2 as int];
                        assert(a_ids[k] == doc_counts@[k].document_id@);
                    }
                }
            }
        }
        if !found {
            let edge = GraphEdge {
                source: document_id.clone(),
                target: linked_ids[i2].clone(),
                edge_type: String::from_str("document-document"),
                weight_tenths: None,
            };
            removed.push(edge);
        }
        i2 = i2 + 1;
    }
    proof {
        assert(b_ids.take(nb as int) =~= b_ids);
    }
    EdgeChangeInfo { added_edges: added, removed_edges: removed }
}

/// When every identifier is excluded, nothing survives.
proof fn lemma_keep_missing_all_excluded(ids: Seq<Seq<char>>, excluded: Set<Seq<char>>)
    requires
        forall|k: int| 0 <= k < ids.len() ==> excluded.contains(#[trigger] ids[k]),
    ensures
        spec_keep_missing(ids, excluded).len() == 0,
    decreases ids.len(),
{
    if ids.len() > 0 {
        assert forall|k: int|
            0 <= k < ids.drop_last().len() implies excluded.contains(
            #[trigger] ids.drop_last()[k],
        ) by {
            assert(ids.drop_last()[k] == ids[k]);
        }
        lemma_keep_missing_all_excluded(ids.drop_last(), excluded);
        assert(excluded.contains(ids[ids.len() - 1]));
    }
}

/// The symmetric-difference law: with additions `A \ B` and removals
/// `B \ A`, restoring the removals to `B` and then adding the additions
/// yields exactly `A`.
pub proof fn lemma_symmetric_difference(a: Set<Seq<char>>, b: Set<Seq<char>>)
    ensures
        b.difference(b.difference(a)).union(a.difference(b)) =~= a,
{
}

/// Idempotence of planning: against identifiers that are all already
/// linked, and links that are all already similar, both halves of the plan
/// are empty.
pub proof fn lemma_replan_empty(ids: Seq<Seq<char>>)
    ensures
        spec_keep_missing(ids, set_of_ids(ids)).len() == 0,
{
    assert forall|k: int| 0 <= k < ids.len() implies set_of_ids(ids).contains(
        #[trigger] ids[k],
    ) by {
        assert(ids.contains(ids[k]));
    }
    lemma_keep_missing_all_excluded(ids, set_of_ids(ids));
}

/// Reconcile the similarity edges of `document_id` with the
/// nearest-neighbour `hits` of its freshly embedded block: create an edge
/// for every newly similar document, remove the edge of every document no
/// longer similar, and report the batched change, or nothing when nothing
/// changed.
///
/// Afterwards the documents linked to `document_id` are exactly the owning
/// documents of the hits; edges between other documents are untouched. In
/// particular a second run with the same hits changes nothing and reports
/// nothing.
#[verifier::rlimit(100)]
pub fn sync_document_edges(edges: &mut EdgeStore, document_id: &String, hits: &Vec<Neighbor>) -> (r:
    Option<EdgeChangeInfo>)
    requires
        old(edges).wf(),
    ensures
        final(edges).wf(),
        ({
            let docs = hit_docs(hits@.map_values(|nb: Neighbor| nb@), document_id@);
            let aset = set_of_ids(docs);
            let bset = old(edges).linked_docs(document_id@);
            &&& forall|x: Seq<char>|
                final(edges).linked_docs(document_id@).contains(x) == aset.contains(x)
            &&& forall|x: Seq<char>, y: Seq<char>|
                x != document_id@ && y != document_id@ ==> final(edges).has_edge(x, y) == old(
                    edges,
                ).has_edge(x, y)
            &&& forall|i: int|
                0 <= i < old(edges).edges@.len() && spec_untouched(
                    #[trigger] old(edges).edges@[i],
                    document_id@,
                    bset,
                    aset,
                ) ==> exists|k: int|
                    0 <= k < final(edges).edges@.len() && final(edges).edges@[k] == old(
                        edges,
                    ).edges@[i]
            &&& (r.is_none() <==> bset =~= aset)
            &&& (r.is_none() ==> *final(edges) == *old(edges))
            &&& match r {
                Some(info) => {
                    &&& info.added_edges@.len() + info.removed_edges@.len() > 0
                    &&& forall|j: int|
                        0 <= j < info.added_edges@.len() ==> {
                            let e = #[trigger] info.added_edges@[j];
                            e.source@ == document_id@ && e.edge_type@ == "document-document"@
                                && aset.contains(e.target@) && !bset.contains(e.target@)
                                && e@.weight_tenths == Some(
                                spec_weight_tenths(occurrences(docs, e.target@)),
                            )
                        }
                    &&& forall|x: Seq<char>|
                        aset.contains(x) && !bset.contains(x) ==> exists|j: int|
                            0 <= j < info.added_edges@.len() && (
                            #[trigger] info.added_edges@[j]).target@ == x
                    &&& forall|j: int|
                        0 <= j < info.removed_edges@.len() ==> {
                            let e = #[trigger] info.removed_edges@[j];
                            e.source@ == document_id@ && e.edge_type@ == "document-document"@
                                && e.weight_tenths.is_none() && bset.contains(e.target@)
                                && !aset.contains(e.target@)
                        }
                    &&& forall|x: Seq<char>|
                        bset.contains(x) && !aset.contains(x) ==> exists|j: int|
                            0 <= j < info.removed_edges@.len() && (
                            #[trigger] info.removed_edges@[j]).target@ == x
                    &&& forall|j: int|
                        0 <= j < info.added_edges@.len() ==> exists|k: int|
                            0 <= k < final(edges).edges@.len() && {
                                let rec = #[trigger] final(edges).edges@[k];
                                &&& rec.source_id@ == document_id@
                                &&& rec.target_id@ == (#[trigger] info.added_edges@[j]).target@
                                &&& rec.relation_type matches Some(rel) && rel@ == "similar"@
                                &&& Some(rec.weight_tenths as int) == info.added_edges@[j]@
                                    .weight_tenths
                            }
                },
                None => true,
            }
        }),
{
    let ghost docs = hit_docs(hits@.map_values(|nb: Neighbor| nb@), document_id@);
    let ghost aset = set_of_ids(docs);
    let ghost bset = old(edges).linked_docs(document_id@);

    let linked_rows = edges.find_related_documents_bidirectional(document_id);
    let ghost row_ids = Seq::new(linked_rows@.len(), |k: int| linked_rows@[k]@.document_id);
    let mut row_strs: Vec<String> = Vec::new();
    let nr: usize = linked_rows.len();
    let mut ir: usize = 0;
    while ir < nr
        invariant
            ir <= nr,
            nr == linked_rows@.len(),
            row_ids == Seq::new(linked_rows@.len(), |k: int| linked_rows@[k]@.document_id),
            row_strs@.map_values(|s: String| s@) == row_ids.take(ir as int),
        decreases nr - ir,
    {
        let id = linked_rows[ir].document_id.clone();
        proof {
            assert((row_strs@.push(id)).map_values(|s: String| s@) =~= row_strs@.map_values(
                |s: String| s@,
            ).push(id@));
            assert(row_ids.take(ir as int + 1) =~= row_ids.take(ir as int).push(
                row_ids[ir as int],
            ));
        }
        row_strs.push(id);
        ir = ir + 1;
    }
    proof {
        assert(row_ids.take(nr as int) =~= row_ids);
    }
    let (linked_ids, link_counts) = distinct_with_counts(&row_strs);
    let ghost b_ids = str_views(linked_ids@);
    proof {
        assert(b_ids =~= linked_ids@.map_values(|s: String| s@));
        assert(b_ids == firsts(row_ids));
        // The returned identifiers span exactly the documents linked to
        // `document_id` in the store.
        assert forall|x: Seq<char>| set_of_ids(b_ids).contains(x) == bset.contains(x) by {
            lemma_occurrences_firsts(row_ids, x);
            lemma_occurrences_contains(row_ids, x);
            let incident = spec_incident_rows(old(edges).edges@, document_id@);
            let linked_docs_seq = firsts(row_doc_ids(incident));
            lemma_incident_rows_membership(old(edges).edges@, document_id@, x);
            lemma_occurrences_firsts(row_doc_ids(incident), x);
            lemma_occurrences_contains(row_doc_ids(incident), x);
            if set_of_ids(b_ids).contains(x) {
                let i = choose|i: int| 0 <= i < row_ids.len() && row_ids[i] == x;
                assert(linked_rows@[i].document_id@ == x);
                assert(linked_docs_seq.contains(x));
                let k = choose|k: int|
                    0 <= k < row_doc_ids(incident).len() && row_doc_ids(incident)[k] == x;
                assert(incident[k].document_id == x);
                assert(bset.contains(x));
            }
            if bset.contains(x) {
                let k = choose|k: int|
                    0 <= k < incident.len() && (#[trigger] incident[k]).document_id == x;
                assert(row_doc_ids(incident)[k] == x);
                assert(row_doc_ids(incident).contains(x));
                assert(linked_docs_seq.contains(x));
                let i = choose|i: int|
                    0 <= i < linked_rows@.len() && (#[trigger] linked_rows@[i]).document_id@
                        == x;
                assert(row_ids[i] == x);
                assert(row_ids.contains(x));
                assert(b_ids.contains(x));
            }
        }
        assert(set_of_ids(b_ids) =~= bset);
    }

    let doc_counts = count_hits_per_document(hits, document_id);
    let ghost a_ids = count_ids(doc_counts@);
    proof {
        assert(a_ids =~= firsts(docs)) by {
            assert forall|j: int| 0 <= j < a_ids.len() implies a_ids[j] == firsts(docs)[j] by {
                assert(doc_counts@[j].document_id@ == firsts(docs)[j]);
            }
        }
        assert forall|x: Seq<char>| set_of_ids(a_ids).contains(x) == aset.contains(x) by {
            lemma_occurrences_firsts(docs, x);
            lemma_occurrences_contains(docs, x);
        }
        assert(set_of_ids(a_ids) =~= aset);
    }

    let plan = sync_plan(document_id, &doc_counts, &linked_ids);
    let ghost to_add = spec_keep_missing(a_ids, set_of_ids(b_ids));
    let ghost to_remove = spec_keep_missing(b_ids, set_of_ids(a_ids));
    proof {
        assert forall|k: int|
            0 <= k < plan.added_edges@.len() implies !bset.contains(
            (#[trigger] plan.added_edges@[k]).target@,
        ) && aset.contains(plan.added_edges@[k].target@) && (
        plan.added_edges@[k]@.weight_tenths is Some) by {
            assert(plan.added_edges@[k].target@ == to_add[k]);
            assert(to_add.contains(to_add[k]));
            lemma_keep_missing_membership(a_ids, set_of_ids(b_ids), to_add[k]);
        }
        assert forall|a: int, b: int|
            0 <= a < b < a_ids.len() implies a_ids[a] != a_ids[b] by {
            assert(a_ids[a] == doc_counts@[a].document_id@);
            assert(a_ids[b] == doc_counts@[b].document_id@);
        }
        lemma_keep_missing_distinct(a_ids, set_of_ids(b_ids));
        assert forall|k1: int, k2: int|
            0 <= k1 < k2 < plan.added_edges@.len() implies (
        #[trigger] plan.added_edges@[k1]).target@ != (
        #[trigger] plan.added_edges@[k2]).target@ by {
            assert(plan.added_edges@[k1].target@ == to_add[k1]);
            assert(plan.added_edges@[k2].target@ == to_add[k2]);
        }
    }

    let na: usize = plan.added_edges.len();
    let mut j: usize = 0;
    while j < na
        invariant
            j <= na,
            na == plan.added_edges@.len(),
            edges.wf(),
            old(edges).wf(),
            bset == old(edges).linked_docs(document_id@),
            forall|k: int|
                0 <= k < plan.added_edges@.len() ==> (#[trigger] plan.added_edges@[k]).target@
                    == to_add[k],
            to_add.len() == plan.added_edges@.len(),
            forall|k: int|
                0 <= k < plan.added_edges@.len() ==> !bset.contains(
                    (#[trigger] plan.added_edges@[k]).target@,
                ) && aset.contains(plan.added_edges@[k].target@) && (
                plan.added_edges@[k]@.weight_tenths is Some),
            forall|k1: int, k2: int|
                0 <= k1 < k2 < plan.added_edges@.len() ==> (
                #[trigger] plan.added_edges@[k1]).target@ != (
                #[trigger] plan.added_edges@[k2]).target@,
            forall|x: Seq<char>, y: Seq<char>|
                #![trigger edges.has_edge(x, y)]
                edges.has_edge(x, y) <==> (old(edges).has_edge(x, y) || (x == document_id@
                    && exists|k: int|
                    0 <= k < j && (#[trigger] plan.added_edges@[k]).target@ == y)),
            edges.edges@.len() == old(edges).edges@.len() + j,
            forall|i: int|
                0 <= i < old(edges).edges@.len() ==> #[trigger] edges.edges@[i] == old(
                    edges,
                ).edges@[i],
            forall|k: int|
                0 <= k < j ==> {
                    let rec = #[trigger] edges.edges@[old(edges).edges@.len() + k];
                    &&& rec.source_id@ == document_id@
                    &&& rec.target_id@ == plan.added_edges@[k].target@
                    &&& rec.relation_type matches Some(rel) && rel@ == "similar"@
                    &&& Some(rec.weight_tenths as int) == plan.added_edges@[k]@.weight_tenths
                },
            j == 0 ==> *edges == *old(edges),
        decreases na - j,
    {
        let count_w: u32 = match plan.added_edges[j].weight_tenths {
            Some(w) => w,
            None => 0,
        };
        let ghost before = *edges;
        proof {
            // The pair is not stored yet, so the upsert appends a record.
            assert(!before.has_edge(document_id@, plan.added_edges@[j as int].target@)) by {
                if old(edges).has_edge(document_id@, plan.added_edges@[j as int].target@) {
                    assert(bset.contains(plan.added_edges@[j as int].target@));
                }
            }
        }
        edges.upsert_edge(
            document_id.clone(),
            plan.added_edges[j].target.clone(),
            Some(String::from_str("similar")),
            count_w,
        );
        proof {
            assert forall|x: Seq<char>, y: Seq<char>|
                #![trigger edges.has_edge(x, y)]
                edges.has_edge(x, y) <==> (old(edges).has_edge(x, y) || (x == document_id@
                    && exists|k: int|
                    0 <= k < j + 1 && (#[trigger] plan.added_edges@[k]).target@ == y)) by {
                if x == document_id@ && y == plan.added_edges@[j as int].target@ {
                    assert(edges.has_edge(x, y));
                } else {
                    assert(edges.has_edge(x, y) == before.has_edge(x, y));
                }
            }
            let rec = edges.edges@[old(edges).edges@.len() + j];
            assert(edges.edges@ == before.edges@.push(rec));
            assert(rec.source_id@ == document_id@);
            assert(rec.target_id@ == plan.added_edges@[j as int].target@);
            assert(rec.relation_type matches Some(rel) && rel@ == "similar"@);
            assert(Some(rec.weight_tenths as int) == plan.added_edges@[j as int]@
                .weight_tenths);
        }
        j = j + 1;
    }
    let ghost mid = *edges;
    proof {
        assert forall|i: int|
            #![trigger mid.edges@[i]]
            0 <= i < mid.edges@.len() && survives_removals(
                mid.edges@[i],
                document_id@,
                plan.removed_edges@,
            ) implies exists|k2: int|
            0 <= k2 < edges.edges@.len() && edges.edges@[k2] == mid.edges@[i] by {
            assert(edges.edges@[i] == mid.edges@[i]);
        }
    }

    let nrm: usize = plan.removed_edges.len();
    let mut k2: usize = 0;
    while k2 < nrm
        invariant
            k2 <= nrm,
            nrm == plan.removed_edges@.len(),
            edges.wf(),
            mid.wf(),
            forall|x: Seq<char>, y: Seq<char>|
                #![trigger edges.has_edge(x, y)]
                edges.has_edge(x, y) <==> (mid.has_edge(x, y) && !(exists|k: int|
                    0 <= k < k2 && {
                        let t = (#[trigger] plan.removed_edges@[k]).target@;
                        (x == document_id@ && y == t) || (x == t && y == document_id@)
                    })),
            forall|i: int|
                #![trigger mid.edges@[i]]
                0 <= i < mid.edges@.len() && survives_removals(
                    mid.edges@[i],
                    document_id@,
                    plan.removed_edges@,
                ) ==> exists|k3: int|
                    0 <= k3 < edges.edges@.len() && edges.edges@[k3] == mid.edges@[i],
            k2 == 0 ==> *edges == mid,
        decreases nrm - k2,
    {
        let ghost before = *edges;
        edges.delete_edge_bidirectional(document_id, &plan.removed_edges[k2].target);
        proof {
            assert forall|x: Seq<char>, y: Seq<char>|
                #![trigger edges.has_edge(x, y)]
                edges.has_edge(x, y) <==> (mid.has_edge(x, y) && !(exists|k: int|
                    0 <= k < k2 + 1 && {
                        let t = (#[trigger] plan.removed_edges@[k]).target@;
                        (x == document_id@ && y == t) || (x == t && y == document_id@)
                    })) by {
                let t = plan.removed_edges@[k2 as int].target@;
                if (x == document_id@ && y == t) || (x == t && y == document_id@) {
                    assert(!edges.has_edge(x, y));
                } else {
                    assert(edges.has_edge(x, y) == before.has_edge(x, y));
                }
            }
            assert forall|i: int|
                #![trigger mid.edges@[i]]
                0 <= i < mid.edges@.len() && survives_removals(
                    mid.edges@[i],
                    document_id@,
                    plan.removed_edges@,
                ) implies exists|k3: int|
                0 <= k3 < edges.edges@.len() && edges.edges@[k3] == mid.edges@[i] by {
                assert(!matches_pair(
                    mid.edges@[i],
                    document_id@,
                    plan.removed_edges@[k2 as int].target@,
                ));
                let kb = choose|kb: int|
                    0 <= kb < before.edges@.len() && before.edges@[kb] == mid.edges@[i];
                assert(!matches_pair(
                    before.edges@[kb],
                    document_id@,
                    plan.removed_edges@[k2 as int].target@,
                ));
            }
        }
        k2 = k2 + 1;
    }

    proof {
        lemma_hit_docs_excludes(hits@.map_values(|nb: Neighbor| nb@), document_id@);
        assert(!aset.contains(document_id@)) by {
            if docs.contains(document_id@) {
                let p = choose|p: int| 0 <= p < docs.len() && docs[p] == document_id@;
            }
        }
        // Every planned removal names a document that is linked but no
        // longer similar.
        assert forall|k: int|
            0 <= k < plan.removed_edges@.len() implies bset.contains(
            (#[trigger] plan.removed_edges@[k]).target@,
        ) && !aset.contains(plan.removed_edges@[k].target@) by {
            assert(plan.removed_edges@[k].target@ == to_remove[k]);
            assert(to_remove.contains(to_remove[k]));
            lemma_keep_missing_membership(b_ids, set_of_ids(a_ids), to_remove[k]);
        }
        // Records the reconciliation leaves alone survive with their
        // content: their stored weights and relations are untouched.
        assert forall|i: int|
            0 <= i < old(edges).edges@.len() && spec_untouched(
                #[trigger] old(edges).edges@[i],
                document_id@,
                bset,
                aset,
            ) implies exists|k: int|
            0 <= k < edges.edges@.len() && edges.edges@[k] == old(edges).edges@[i] by {
            let e = old(edges).edges@[i];
            assert(mid.edges@[i] == e);
            assert(survives_removals(e, document_id@, plan.removed_edges@)) by {
                assert forall|k: int|
                    0 <= k < plan.removed_edges@.len() implies !matches_pair(
                    e,
                    document_id@,
                    (#[trigger] plan.removed_edges@[k]).target@,
                ) by {
                    assert(bset.contains(plan.removed_edges@[k].target@));
                    assert(!aset.contains(plan.removed_edges@[k].target@));
                }
            }
        }
        // Every added edge's stored record carries the similarity relation
        // and its hit-count weight.
        assert forall|j2: int|
            #![trigger plan.added_edges@[j2]]
            0 <= j2 < plan.added_edges@.len() implies exists|k: int|
            0 <= k < edges.edges@.len() && {
                let rec = #[trigger] edges.edges@[k];
                &&& rec.source_id@ == document_id@
                &&& rec.target_id@ == plan.added_edges@[j2].target@
                &&& rec.relation_type matches Some(rel) && rel@ == "similar"@
                &&& Some(rec.weight_tenths as int) == plan.added_edges@[j2]@.weight_tenths
            } by {
            let pos = old(edges).edges@.len() + j2;
            let rec0 = mid.edges@[pos];
            assert(rec0.source_id@ == document_id@);
            assert(rec0.target_id@ == plan.added_edges@[j2].target@);
            assert(aset.contains(rec0.target_id@));
            assert(survives_removals(rec0, document_id@, plan.removed_edges@)) by {
                assert forall|k: int|
                    0 <= k < plan.removed_edges@.len() implies !matches_pair(
                    rec0,
                    document_id@,
                    (#[trigger] plan.removed_edges@[k]).target@,
                ) by {
                    let t = plan.removed_edges@[k].target@;
                    assert(bset.contains(t) && !aset.contains(t));
                    if rec0.target_id@ == t {
                        assert(aset.contains(t));
                    }
                    if rec0.target_id@ == document_id@ {
                        assert(aset.contains(document_id@));
                    }
                }
            }
            assert(0 <= pos < mid.edges@.len());
            let k3 = choose|k3: int|
                0 <= k3 < edges.edges@.len() && edges.edges@[k3] == mid.edges@[pos];
        }
        // Membership of the two halves of the plan.
        assert forall|x: Seq<char>|
            (exists|k: int|
                0 <= k < plan.added_edges@.len() && (#[trigger] plan.added_edges@[k]).target@
                    == x) <==> (aset.contains(x) && !bset.contains(x)) by {
            lemma_keep_missing_membership(a_ids, set_of_ids(b_ids), x);
            if exists|k: int|
                0 <= k < plan.added_edges@.len() && (#[trigger] plan.added_edges@[k]).target@
                    == x {
                let k = choose|k: int|
                    0 <= k < plan.added_edges@.len() && (#[trigger] plan.added_edges@[k]).target@
                        == x;
                assert(to_add[k] == x);
                assert(to_add.contains(x));
            }
            if aset.contains(x) && !bset.contains(x) {
                assert(a_ids.contains(x));
                assert(to_add.contains(x));
                let k = choose|k: int| 0 <= k < to_add.len() && to_add[k] == x;
                assert(plan.added_edges@[k].target@ == x);
            }
        }
        assert forall|x: Seq<char>|
            (exists|k: int|
                0 <= k < plan.removed_edges@.len() && (#[trigger] plan.removed_edges@[k]).target@
                    == x) <==> (bset.contains(x) && !aset.contains(x)) by {
            lemma_keep_missing_membership(b_ids, set_of_ids(a_ids), x);
            if exists|k: int|
                0 <= k < plan.removed_edges@.len() && (#[trigger] plan.removed_edges@[k]).target@
                    == x {
                let k = choose|k: int|
                    0 <= k < plan.removed_edges@.len() && (
                    #[trigger] plan.removed_edges@[k]).target@ == x;
                assert(to_remove[k] == x);
                assert(to_remove.contains(x));
            }
            if bset.contains(x) && !aset.contains(x) {
                assert(b_ids.contains(x));
                assert(to_remove.contains(x));
                let k = choose|k: int| 0 <= k < to_remove.len() && to_remove[k] == x;
                assert(plan.removed_edges@[k].target@ == x);
            }
        }
        // The linked set now equals the hit documents.
        assert forall|x: Seq<char>|
            edges.linked_docs(document_id@).contains(x) == aset.contains(x) by {
            let d = document_id@;
            if aset.contains(x) {
                assert(x != d);
                assert(!(bset.contains(x) && !aset.contains(x)));
                if bset.contains(x) {
                    assert(old(edges).has_edge(d, x) || old(edges).has_edge(x, d));
                    assert(mid.has_edge(d, x) || mid.has_edge(x, d));
                    if mid.has_edge(d, x) {
                        assert(edges.has_edge(d, x));
                    } else {
                        assert(edges.has_edge(x, d));
                    }
                } else {
                    assert(exists|k: int|
                        0 <= k < plan.added_edges@.len() && (
                        #[trigger] plan.added_edges@[k]).target@ == x);
                    assert(mid.has_edge(d, x));
                    assert(edges.has_edge(d, x));
                }
                assert(edges.linked_docs(d).contains(x));
            } else {
                if bset.contains(x) {
                    let kk = choose|k: int|
                        0 <= k < plan.removed_edges@.len() && (
                        #[trigger] plan.removed_edges@[k]).target@ == x;
                    assert(!edges.has_edge(d, x));
                    assert(!edges.has_edge(x, d));
                } else {
                    assert(!old(edges).has_edge(d, x) && !old(edges).has_edge(x, d));
                    assert(!mid.has_edge(d, x)) by {
                        if mid.has_edge(d, x) {
                            assert(exists|k: int|
                                0 <= k < plan.added_edges@.len() && (
                                #[trigger] plan.added_edges@[k]).target@ == x);
                        }
                    }
                    assert(!mid.has_edge(x, d));
                    assert(!edges.has_edge(d, x));
                    assert(!edges.has_edge(x, d));
                }
                assert(!edges.linked_docs(d).contains(x));
            }
        }
        // Edges between other documents are untouched.
        assert forall|x: Seq<char>, y: Seq<char>|
            x != document_id@ && y != document_id@ implies edges.has_edge(x, y) == old(
            edges,
        ).has_edge(x, y) by {
            assert(mid.has_edge(x, y) == old(edges).has_edge(x, y));
        }
    }

    if plan.added_edges.is_empty() && plan.removed_edges.is_empty() {
        proof {
            assert(bset =~= aset) by {
                assert forall|x: Seq<char>| bset.contains(x) == aset.contains(x) by {
                    lemma_keep_missing_membership(a_ids, set_of_ids(b_ids), x);
                    lemma_keep_missing_membership(b_ids, set_of_ids(a_ids), x);
                    if aset.contains(x) && !bset.contains(x) {
                        assert(a_ids.contains(x));
                        assert(to_add.contains(x));
                    }
                    if bset.contains(x) && !aset.contains(x) {
                        assert(b_ids.contains(x));
                        assert(to_remove.contains(x));
                    }
                }
            }
        }
        None
    } else {
        proof {
            if bset =~= aset {
                assert forall|k: int| 0 <= k < a_ids.len() implies set_of_ids(b_ids).contains(
                    #[trigger] a_ids[k],
                ) by {
                    assert(a_ids.contains(a_ids[k]));
                    assert(aset.contains(a_ids[k]));
                }
                lemma_keep_missing_all_excluded(a_ids, set_of_ids(b_ids));
                assert forall|k: int| 0 <= k < b_ids.len() implies set_of_ids(a_ids).contains(
                    #[trigger] b_ids[k],
                ) by {
                    assert(b_ids.contains(b_ids[k]));
                    assert(bset.contains(b_ids[k]));
                }
                lemma_keep_missing_all_excluded(b_ids, set_of_ids(a_ids));
                assert(false);
            }
            assert forall|j2: int|
                0 <= j2 < plan.added_edges@.len() implies {
                let e = #[trigger] plan.added_edges@[j2];
                e.source@ == document_id@ && e.edge_type@ == "document-document"@ && aset.contains(
                    e.target@,
                ) && !bset.contains(e.target@) && e@.weight_tenths == Some(
                    spec_weight_tenths(occurrences(docs, e.target@)),
                )
            } by {
                assert(plan.added_edges@[j2].target@ == to_add[j2]);
                assert(to_add.contains(to_add[j2]));
                lemma_keep_missing_membership(a_ids, set_of_ids(b_ids), to_add[j2]);
                let kk = choose|kk: int|
                    0 <= kk < doc_counts@.len() && (#[trigger] doc_counts@[kk]).document_id@
                        == plan.added_edges@[j2].target@ && plan.added_edges@[j2]@.weight_tenths
                        == Some(spec_weight_tenths(doc_counts@[kk].count as int));
                assert(doc_counts@[kk].count == occurrences(docs, firsts(docs)[kk]));
                assert(firsts(docs)[kk] == doc_counts@[kk].document_id@);
            }
            assert forall|j2: int|
                0 <= j2 < plan.removed_edges@.len() implies {
                let e = #[trigger] plan.removed_edges@[j2];
                e.source@ == document_id@ && e.edge_type@ == "document-document"@
                    && e.weight_tenths.is_none() && bset.contains(e.target@) && !aset.contains(
                    e.target@,
                )
            } by {
                assert(plan.removed_edges@[j2].target@ == to_remove[j2]);
                assert(to_remove.contains(to_remove[j2]));
                lemma_keep_missing_membership(b_ids, set_of_ids(a_ids), to_remove[j2]);
            }
        }
        Some(plan)
    }
}

} // verus!
