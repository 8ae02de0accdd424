//! The similarity-edge store: weighted directed edges between documents,
//! identified by their ordered endpoint pair, with direction-collapsed
//! lookup and removal.
//!
//! Weights are kept in tenths of the 0-to-1 scale, so the stored values are
//! exact rationals rather than approximations.

use vstd::prelude::*;

use crate::counting::firsts;
use crate::counting::lemma_occurrences_contains;
use crate::counting::lemma_occurrences_firsts;

verus! {

broadcast use vstd::seq_lib::group_to_multiset_ensures;

/// A stored edge. The ordered pair `(source_id, target_id)` is its
/// identity.
pub struct EdgeRecord {
    pub source_id: String,
    pub target_id: String,
    pub relation_type: Option<String>,
    pub weight_tenths: u32,
}

/// One neighbouring document of a direction-collapsed lookup, with the
/// weight of the edge that connects it.
pub struct LinkedDoc {
    pub document_id: String,
    pub weight_tenths: u32,
}

/// The mathematical content of a [`LinkedDoc`].
pub struct LinkedDocView {
    pub document_id: Seq<char>,
    pub weight_tenths: int,
}

impl View for LinkedDoc {
    type V = LinkedDocView;

    open spec fn view(&self) -> LinkedDocView {
        LinkedDocView {
            document_id: self.document_id@,
            weight_tenths: self.weight_tenths as int,
        }
    }
}

/// Which records a bulk deletion removes.
pub enum DropRule {
    /// Records connecting the two documents, in either direction.
    Pair(Seq<char>, Seq<char>),
    /// Records whose source is the given identity.
    BySource(Seq<char>),
    /// Records whose target is the given identity.
    ByTarget(Seq<char>),
}

/// Whether `rule` removes `e`.
pub open spec fn rule_matches(rule: DropRule, e: EdgeRecord) -> bool {
    match rule {
        DropRule::Pair(a, b) => (e.source_id@ == a && e.target_id@ == b) || (e.source_id@ == b
            && e.target_id@ == a),
        DropRule::BySource(d) => e.source_id@ == d,
        DropRule::ByTarget(d) => e.target_id@ == d,
    }
}

/// Whether `e` connects `a` and `b`, in either direction.
pub open spec fn matches_pair(e: EdgeRecord, a: Seq<char>, b: Seq<char>) -> bool {
    rule_matches(DropRule::Pair(a, b), e)
}

/// `edges` without the records that `rule` removes, order preserved.
pub open spec fn spec_drop_edges(edges: Seq<EdgeRecord>, rule: DropRule) -> Seq<EdgeRecord>
    decreases edges.len(),
{
    if edges.len() == 0 {
        Seq::empty()
    } else {
        let prev = spec_drop_edges(edges.drop_last(), rule);
        if rule_matches(rule, edges.last()) {
            prev
        } else {
            prev.push(edges.last())
        }
    }
}

/// No record kept by [`spec_drop_edges`] matches the rule.
proof fn lemma_drop_edges_complete(edges: Seq<EdgeRecord>, rule: DropRule)
    ensures
        forall|i: int|
            0 <= i < spec_drop_edges(edges, rule).len() ==> !rule_matches(
                rule,
                #[trigger] spec_drop_edges(edges, rule)[i],
            ),
    decreases edges.len(),
{
    if edges.len() > 0 {
        lemma_drop_edges_complete(edges.drop_last(), rule);
        let out = spec_drop_edges(edges, rule);
        let prev = spec_drop_edges(edges.drop_last(), rule);
        assert forall|i: int| 0 <= i < out.len() implies !rule_matches(
            rule,
            #[trigger] out[i],
        ) by {
            if i < prev.len() {
                assert(out[i] == prev[i]);
            } else {
                assert(out[i] == edges.last());
            }
        }
    }
}

/// Two positions of [`spec_drop_edges`] come from two distinct positions
/// of the original sequence, in the same order.
proof fn lemma_drop_edges_distinct_origin(edges: Seq<EdgeRecord>, rule: DropRule, x: int, y: int)
    requires
        0 <= x < y < spec_drop_edges(edges, rule).len(),
    ensures
        exists|x0: int, y0: int|
            0 <= x0 < y0 < edges.len() && edges[x0] == spec_drop_edges(edges, rule)[x]
                && edges[y0] == spec_drop_edges(edges, rule)[y],
    decreases edges.len(),
{
    let out = spec_drop_edges(edges, rule);
    let prev = spec_drop_edges(edges.drop_last(), rule);
    if !rule_matches(rule, edges.last()) && y == prev.len() {
        lemma_drop_edges_origin(edges.drop_last(), rule, x);
        let x0 = choose|x0: int|
            0 <= x0 < edges.drop_last().len() && edges.drop_last()[x0] == prev[x];
        assert(edges[x0] == out[x]);
        assert(edges[edges.len() - 1] == out[y]);
    } else {
        lemma_drop_edges_distinct_origin(edges.drop_last(), rule, x, y);
        let (x0, y0) = choose|x0: int, y0: int|
            0 <= x0 < y0 < edges.drop_last().len() && edges.drop_last()[x0] == prev[x]
                && edges.drop_last()[y0] == prev[y];
        assert(edges[x0] == out[x]);
        assert(edges[y0] == out[y]);
    }
}

/// Every record kept by [`spec_drop_edges`] comes from the original
/// sequence.
proof fn lemma_drop_edges_origin(edges: Seq<EdgeRecord>, rule: DropRule, i: int)
    requires
        0 <= i < spec_drop_edges(edges, rule).len(),
    ensures
        exists|i0: int| 0 <= i0 < edges.len() && edges[i0] == spec_drop_edges(edges, rule)[i],
    decreases edges.len(),
{
    let out = spec_drop_edges(edges, rule);
    let prev = spec_drop_edges(edges.drop_last(), rule);
    if !rule_matches(rule, edges.last()) && i == prev.len() {
        assert(edges[edges.len() - 1] == out[i]);
    } else {
        lemma_drop_edges_origin(edges.drop_last(), rule, i);
        let i0 = choose|i0: int|
            0 <= i0 < edges.drop_last().len() && edges.drop_last()[i0] == prev[i];
        assert(edges[i0] == out[i]);
    }
}

/// A record that the rule does not match survives the deletion.
proof fn lemma_drop_edges_keeps(edges: Seq<EdgeRecord>, rule: DropRule, i: int)
    requires
        0 <= i < edges.len(),
        !rule_matches(rule, edges[i]),
    ensures
        exists|k: int|
            0 <= k < spec_drop_edges(edges, rule).len() && spec_drop_edges(edges, rule)[k]
                == edges[i],
    decreases edges.len(),
{
    let out = spec_drop_edges(edges, rule);
    let prev = spec_drop_edges(edges.drop_last(), rule);
    if i == edges.len() - 1 {
        assert(out[out.len() - 1] == edges[i]);
    } else {
        assert(edges.drop_last()[i] == edges[i]);
        lemma_drop_edges_keeps(edges.drop_last(), rule, i);
        let k = choose|k: int| 0 <= k < prev.len() && prev[k] == edges[i];
        assert(out[k] == edges[i]);
    }
}

/// The `(target, weight)` rows of edges whose source is `d`.
pub open spec fn spec_outgoing_rows(edges: Seq<EdgeRecord>, d: Seq<char>) -> Seq<LinkedDocView>
    decreases edges.len(),
{
    if edges.len() == 0 {
        Seq::empty()
    } else {
        let prev = spec_outgoing_rows(edges.drop_last(), d);
        let e = edges.last();
        if e.source_id@ == d {
            prev.push(
                LinkedDocView { document_id: e.target_id@, weight_tenths: e.weight_tenths as int },
            )
        } else {
            prev
        }
    }
}

/// The `(source, weight)` rows of edges whose target is `d`.
pub open spec fn spec_incoming_rows(edges: Seq<EdgeRecord>, d: Seq<char>) -> Seq<LinkedDocView>
    decreases edges.len(),
{
    if edges.len() == 0 {
        Seq::empty()
    } else {
        let prev = spec_incoming_rows(edges.drop_last(), d);
        let e = edges.last();
        if e.target_id@ == d {
            prev.push(
                LinkedDocView { document_id: e.source_id@, weight_tenths: e.weight_tenths as int },
            )
        } else {
            prev
        }
    }
}

/// The rows a direction-collapsed lookup of `d` draws from the store:
/// outgoing edges first, then incoming ones.
pub open spec fn spec_incident_rows(edges: Seq<EdgeRecord>, d: Seq<char>) -> Seq<LinkedDocView> {
    spec_outgoing_rows(edges, d) + spec_incoming_rows(edges, d)
}

/// The document identities of the rows, in order.
pub open spec fn row_doc_ids(rows: Seq<LinkedDocView>) -> Seq<Seq<char>> {
    Seq::new(rows.len(), |k: int| rows[k].document_id)
}

/// The heaviest weight among the rows that belong to `doc`; nothing when
/// no row does.
pub open spec fn spec_max_weight(rows: Seq<LinkedDocView>, doc: Seq<char>) -> int
    decreases rows.len(),
{
    if rows.len() == 0 {
        0
    } else {
        let prev = spec_max_weight(rows.drop_last(), doc);
        if rows.last().document_id == doc {
            if rows.last().weight_tenths > prev {
                rows.last().weight_tenths
            } else {
                prev
            }
        } else {
            prev
        }
    }
}

/// A document without a row has no weight.
proof fn lemma_max_weight_absent(rows: Seq<LinkedDocView>, doc: Seq<char>)
    requires
        forall|k: int| 0 <= k < rows.len() ==> (#[trigger] rows[k]).document_id != doc,
    ensures
        spec_max_weight(rows, doc) == 0,
    decreases rows.len(),
{
    if rows.len() > 0 {
        assert forall|k: int|
            0 <= k < rows.drop_last().len() implies (#[trigger] rows.drop_last()[k]).document_id
            != doc by {
            assert(rows.drop_last()[k] == rows[k]);
        }
        lemma_max_weight_absent(rows.drop_last(), doc);
        assert(rows[rows.len() - 1].document_id != doc);
    }
}

/// The edge store.
pub struct EdgeStore {
    pub edges: Vec<EdgeRecord>,
}

impl EdgeStore {
    /// Each ordered endpoint pair occurs at most once.
    pub open spec fn wf(&self) -> bool {
        forall|i: int, j: int|
            0 <= i < j < self.edges@.len() ==> !((#[trigger] self.edges@[i]).source_id@ == (
            #[trigger] self.edges@[j]).source_id@ && self.edges@[i].target_id@
                == self.edges@[j].target_id@)
    }

    /// Whether an edge from `s` to `t` is stored.
    pub open spec fn has_edge(&self, s: Seq<char>, t: Seq<char>) -> bool {
        exists|i: int|
            0 <= i < self.edges@.len() && (#[trigger] self.edges@[i]).source_id@ == s
                && self.edges@[i].target_id@ == t
    }

    /// The documents linked to `d` by an edge in either direction.
    pub open spec fn linked_docs(&self, d: Seq<char>) -> Set<Seq<char>> {
        Set::new(|x: Seq<char>| self.has_edge(d, x) || self.has_edge(x, d))
    }

    /// An empty store.
    pub fn new() -> (r: EdgeStore)
        ensures
            r.wf(),
            r.edges@.len() == 0,
    {
        EdgeStore { edges: Vec::new() }
    }

    /// Number of stored edges.
    pub fn len(&self) -> (n: usize)
        ensures
            n == self.edges@.len(),
    {
        self.edges.len()
    }

    /// Create the edge from `source_id` to `target_id`, or replace its
    /// relation and weight if the ordered pair is already stored. No other
    /// record changes.
    pub fn upsert_edge(
        &mut self,
        source_id: String,
        target_id: String,
        relation_type: Option<String>,
        weight_tenths: u32,
    )
        requires
            old(self).wf(),
        ensures
            final(self).wf(),
            final(self).has_edge(source_id@, target_id@),
            forall|x: Seq<char>, y: Seq<char>|
                !(x == source_id@ && y == target_id@) ==> final(self).has_edge(x, y) == old(
                    self,
                ).has_edge(x, y),
            old(self).has_edge(source_id@, target_id@) ==> exists|i: int|
                0 <= i < old(self).edges@.len() && (#[trigger] old(self).edges@[i]).source_id@
                    == source_id@ && old(self).edges@[i].target_id@ == target_id@ && final(self).edges@ == old(self).edges@.update(
                    i,
                    (EdgeRecord { source_id, target_id, relation_type, weight_tenths }),
                ),
            !old(self).has_edge(source_id@, target_id@) ==> final(self).edges@ == old(
                self,
            ).edges@.push((EdgeRecord { source_id, target_id, relation_type, weight_tenths })),
    {
        let n: usize = self.edges.len();
        let mut i: usize = 0;
        while i < n
            invariant
                i <= n,
                n == self.edges@.len(),
                self == old(self),
                old(self).wf(),
                forall|j: int|
                    0 <= j < i ==> !((#[trigger] self.edges@[j]).source_id@ == source_id@
                        && self.edges@[j].target_id@ == target_id@),
            decreases n - i,
        {
            if self.edges[i].source_id.eq(&source_id) && self.edges[i].target_id.eq(&target_id) {
                let record = EdgeRecord { source_id, target_id, relation_type, weight_tenths };
                self.edges.set(i, record);
                proof {
                    assert(self.edges@[i as int].source_id@ == old(
                        self,
                    ).edges@[i as int].source_id@);
                    assert forall|a: int, b: int|
                        0 <= a < b < self.edges@.len() implies !((#[trigger] self.edges@[a])
                        .source_id@ == (#[trigger] self.edges@[b]).source_id@
                        && self.edges@[a].target_id@ == self.edges@[b].target_id@) by {
                        assert(!(old(self).edges@[a].source_id@ == old(
                            self,
                        ).edges@[b].source_id@ && old(self).edges@[a].target_id@ == old(
                            self,
                        ).edges@[b].target_id@));
                    }
                    assert forall|x: Seq<char>, y: Seq<char>|
                        !(x == old(self).edges@[i as int].source_id@ && y == old(
                            self,
                        ).edges@[i as int].target_id@) implies self.has_edge(x, y) == old(
                        self,
                    ).has_edge(x, y) by {
                        if old(self).has_edge(x, y) {
                            let j = choose|j: int|
                                0 <= j < old(self).edges@.len() && (#[trigger] old(
                                    self,
                                ).edges@[j]).source_id@ == x && old(self).edges@[j].target_id@
                                    == y;
                            assert(j != i);
                            assert(self.edges@[j].source_id@ == x && self.edges@[j].target_id@
                                == y);
                        }
                        if self.has_edge(x, y) {
                            let j = choose|j: int|
                                0 <= j < self.edges@.len() && (#[trigger] self.edges@[j])
                                    .source_id@ == x && self.edges@[j].target_id@ == y;
                            assert(j != i);
                            assert(old(self).edges@[j].source_id@ == x && old(
                                self,
                            ).edges@[j].target_id@ == y);
                        }
                    }
                }
                return ;
            }
            i = i + 1;
        }
        proof {
            if old(self).has_edge(source_id@, target_id@) {
                let j = choose|j: int|
                    0 <= j < old(self).edges@.len() && (#[trigger] old(self).edges@[j]).source_id@
                        == source_id@ && old(self).edges@[j].target_id@ == target_id@;
                assert(false);
            }
        }
        let record = EdgeRecord { source_id, target_id, relation_type, weight_tenths };
        self.edges.push(record);
        proof {
            let m = self.edges@.len() - 1;
            assert(self.edges@[m].source_id@ == source_id@ && self.edges@[m].target_id@
                == target_id@);
            assert forall|x: Seq<char>, y: Seq<char>|
                !(x == source_id@ && y == target_id@) implies self.has_edge(x, y) == old(
                self,
            ).has_edge(x, y) by {
                if old(self).has_edge(x, y) {
                    let j = choose|j: int|
                        0 <= j < old(self).edges@.len() && (#[trigger] old(self).edges@[j])
                            .source_id@ == x && old(self).edges@[j].target_id@ == y;
                    assert(self.edges@[j].source_id@ == x && self.edges@[j].target_id@ == y);
                }
                if self.has_edge(x, y) {
                    let j = choose|j: int|
                        0 <= j < self.edges@.len() && (#[trigger] self.edges@[j]).source_id@ == x
                            && self.edges@[j].target_id@ == y;
                    assert(j != m);
                    assert(old(self).edges@[j].source_id@ == x && old(self).edges@[j].target_id@
                        == y);
                }
            }
        }
    }

    /// Remove every record that `rule` matches, keeping the others in
    /// order.
    fn drop_where(&mut self, Ghost(rule): Ghost<DropRule>, kind: u8, a: &String, b: &String)
        requires
            old(self).wf(),
            kind == 0 ==> rule == DropRule::Pair(a@, b@),
            kind == 1 ==> rule == DropRule::BySource(a@),
            kind == 2 ==> rule == DropRule::ByTarget(a@),
            kind <= 2,
        ensures
            final(self).wf(),
            final(self).edges@ == spec_drop_edges(old(self).edges@, rule),
            forall|i: int|
                0 <= i < final(self).edges@.len() ==> !rule_matches(
                    rule,
                    #[trigger] final(self).edges@[i],
                ),
            forall|x: Seq<char>, y: Seq<char>|
                final(self).has_edge(x, y) <==> exists|i: int|
                    0 <= i < old(self).edges@.len() && (#[trigger] old(self).edges@[i]).source_id@
                        == x && old(self).edges@[i].target_id@ == y && !rule_matches(
                        rule,
                        old(self).edges@[i],
                    ),
            forall|i: int|
                0 <= i < old(self).edges@.len() && !rule_matches(
                    rule,
                    #[trigger] old(self).edges@[i],
                ) ==> exists|k: int|
                    0 <= k < final(self).edges@.len() && final(self).edges@[k] == old(
                        self,
                    ).edges@[i],
    {
        let ghost orig = self.edges@;
        let n: usize = self.edges.len();
        let mut i: usize = 0;
        let mut j: usize = 0;
        proof {
            assert(orig.take(0) =~= Seq::<EdgeRecord>::empty());
            assert(orig.skip(0) =~= orig);
            assert(self.edges@ =~= spec_drop_edges(orig.take(0), rule) + orig.skip(0));
        }
        while j < n
            invariant
                j <= n,
                n == orig.len(),
                old(self).wf(),
                orig == old(self).edges@,
                kind == 0 ==> rule == DropRule::Pair(a@, b@),
                kind == 1 ==> rule == DropRule::BySource(a@),
                kind == 2 ==> rule == DropRule::ByTarget(a@),
                kind <= 2,
                self.edges@ == spec_drop_edges(orig.take(j as int), rule) + orig.skip(j as int),
                i == spec_drop_edges(orig.take(j as int), rule).len(),
                i <= j,
            decreases n - j,
        {
            proof {
                assert(orig.take(j as int + 1).drop_last() =~= orig.take(j as int));
                assert(orig.take(j as int + 1).last() == orig[j as int]);
                assert(self.edges@.len() == i + (orig.len() - j));
                assert(self.edges@[i as int] == orig.skip(j as int)[0]);
                assert(orig.skip(j as int)[0] == orig[j as int]);
            }
            let matched: bool = if kind == 0 {
                (self.edges[i].source_id.eq(a) && self.edges[i].target_id.eq(b)) || (
                self.edges[i].source_id.eq(b) && self.edges[i].target_id.eq(a))
            } else if kind == 1 {
                self.edges[i].source_id.eq(a)
            } else {
                self.edges[i].target_id.eq(a)
            };
            proof {
                assert(matched == rule_matches(rule, orig[j as int]));
            }
            if matched {
                self.edges.remove(i);
                proof {
                    assert(self.edges@ =~= spec_drop_edges(orig.take(j as int + 1), rule)
                        + orig.skip(j as int + 1));
                }
            } else {
                i = i + 1;
                proof {
                    assert(self.edges@ =~= spec_drop_edges(orig.take(j as int + 1), rule)
                        + orig.skip(j as int + 1));
                }
            }
            j = j + 1;
        }
        proof {
            assert(orig.take(n as int) =~= orig);
            assert(orig.skip(n as int) =~= Seq::<EdgeRecord>::empty());
            assert(self.edges@ =~= spec_drop_edges(orig, rule));
            lemma_drop_edges_complete(orig, rule);
            assert forall|x: int, y: int|
                0 <= x < y < self.edges@.len() implies !((#[trigger] self.edges@[x]).source_id@
                == (#[trigger] self.edges@[y]).source_id@ && self.edges@[x].target_id@
                == self.edges@[y].target_id@) by {
                lemma_drop_edges_distinct_origin(orig, rule, x, y);
                let (x0, y0) = choose|x0: int, y0: int|
                    0 <= x0 < y0 < orig.len() && orig[x0] == spec_drop_edges(orig, rule)[x]
                        && orig[y0] == spec_drop_edges(orig, rule)[y];
                assert(!(orig[x0].source_id@ == orig[y0].source_id@ && orig[x0].target_id@
                    == orig[y0].target_id@));
            }
            assert forall|x: Seq<char>, y: Seq<char>|
                self.has_edge(x, y) <==> exists|i0: int|
                    0 <= i0 < orig.len() && (#[trigger] orig[i0]).source_id@ == x
                        && orig[i0].target_id@ == y && !rule_matches(rule, orig[i0]) by {
                if self.has_edge(x, y) {
                    let k = choose|k: int|
                        0 <= k < self.edges@.len() && (#[trigger] self.edges@[k]).source_id@ == x
                            && self.edges@[k].target_id@ == y;
                    lemma_drop_edges_origin(orig, rule, k);
                    let i0 = choose|i0: int|
                        0 <= i0 < orig.len() && orig[i0] == spec_drop_edges(orig, rule)[k];
                    assert(orig[i0].source_id@ == x && orig[i0].target_id@ == y
                        && !rule_matches(rule, orig[i0]));
                }
                if exists|i0: int|
                    0 <= i0 < orig.len() && (#[trigger] orig[i0]).source_id@ == x
                        && orig[i0].target_id@ == y && !rule_matches(rule, orig[i0]) {
                    let i0 = choose|i0: int|
                        0 <= i0 < orig.len() && (#[trigger] orig[i0]).source_id@ == x
                            && orig[i0].target_id@ == y && !rule_matches(rule, orig[i0]);
                    lemma_drop_edges_keeps(orig, rule, i0);
                    let k = choose|k: int|
                        0 <= k < spec_drop_edges(orig, rule).len() && spec_drop_edges(
                            orig,
                            rule,
                        )[k] == orig[i0];
                    assert(self.edges@[k].source_id@ == x && self.edges@[k].target_id@ == y);
                }
            }
            assert forall|i: int|
                0 <= i < orig.len() && !rule_matches(rule, #[trigger] orig[i]) implies exists|
                k: int,
            | 0 <= k < self.edges@.len() && self.edges@[k] == orig[i] by {
                lemma_drop_edges_keeps(orig, rule, i);
            }
        }
    }

    /// Remove the records that connect `a` and `b`, in either direction;
    /// a no-op if none are stored.
    pub fn delete_edge_bidirectional(&mut self, a: &String, b: &String)
        requires
            old(self).wf(),
        ensures
            final(self).wf(),
            final(self).edges@ == spec_drop_edges(old(self).edges@, DropRule::Pair(a@, b@)),
            !final(self).has_edge(a@, b@),
            !final(self).has_edge(b@, a@),
            forall|x: Seq<char>, y: Seq<char>|
                !((x == a@ && y == b@) || (x == b@ && y == a@)) ==> final(self).has_edge(x, y)
                    == old(self).has_edge(x, y),
            forall|i: int|
                0 <= i < old(self).edges@.len() && !matches_pair(
                    #[trigger] old(self).edges@[i],
                    a@,
                    b@,
                ) ==> exists|k: int|
                    0 <= k < final(self).edges@.len() && final(self).edges@[k] == old(
                        self,
                    ).edges@[i],
    {
        self.drop_where(Ghost(DropRule::Pair(a@, b@)), 0, a, b);
        proof {
            assert forall|x: Seq<char>, y: Seq<char>|
                !((x == a@ && y == b@) || (x == b@ && y == a@)) implies self.has_edge(x, y)
                == old(self).has_edge(x, y) by {
                if old(self).has_edge(x, y) {
                    let i = choose|i: int|
                        0 <= i < old(self).edges@.len() && (#[trigger] old(self).edges@[i])
                            .source_id@ == x && old(self).edges@[i].target_id@ == y;
                    assert(!rule_matches(DropRule::Pair(a@, b@), old(self).edges@[i]));
                }
            }
        }
    }

    /// Remove the single record from `a` to `b`, if stored.
    pub fn delete_edge(&mut self, a: &String, b: &String)
        requires
            old(self).wf(),
        ensures
            final(self).wf(),
            !old(self).has_edge(a@, b@) ==> final(self).edges@ == old(self).edges@,
            old(self).has_edge(a@, b@) ==> exists|i: int|
                0 <= i < old(self).edges@.len() && (#[trigger] old(self).edges@[i]).source_id@
                    == a@ && old(self).edges@[i].target_id@ == b@ && final(self).edges@ == old(
                    self,
                ).edges@.remove(i),
            !final(self).has_edge(a@, b@),
            forall|x: Seq<char>, y: Seq<char>|
                !(x == a@ && y == b@) ==> final(self).has_edge(x, y) == old(self).has_edge(x, y),
    {
        let n: usize = self.edges.len();
        let mut i: usize = 0;
        while i < n
            invariant
                i <= n,
                n == self.edges@.len(),
                self == old(self),
                old(self).wf(),
                forall|j: int|
                    0 <= j < i ==> !((#[trigger] self.edges@[j]).source_id@ == a@
                        && self.edges@[j].target_id@ == b@),
            decreases n - i,
        {
            if self.edges[i].source_id.eq(a) && self.edges[i].target_id.eq(b) {
                self.edges.remove(i);
                proof {
                    assert forall|x: int, y: int|
                        0 <= x < y < self.edges@.len() implies !((#[trigger] self.edges@[x])
                        .source_id@ == (#[trigger] self.edges@[y]).source_id@
                        && self.edges@[x].target_id@ == self.edges@[y].target_id@) by {
                        let x0 = if x < i { x } else { x + 1 };
                        let y0 = if y < i { y } else { y + 1 };
                        assert(self.edges@[x] == old(self).edges@[x0]);
                        assert(self.edges@[y] == old(self).edges@[y0]);
                    }
                    assert forall|j: int|
                        0 <= j < self.edges@.len() implies !((#[trigger] self.edges@[j])
                        .source_id@ == a@ && self.edges@[j].target_id@ == b@) by {
                        let j0 = if j < i { j } else { j + 1 };
                        assert(self.edges@[j] == old(self).edges@[j0]);
                        if j0 != i {
                            assert(!(old(self).edges@[j0].source_id@ == old(
                                self,
                            ).edges@[i as int].source_id@ && old(self).edges@[j0].target_id@
                                == old(self).edges@[i as int].target_id@));
                        }
                    }
                    assert forall|x: Seq<char>, y: Seq<char>|
                        !(x == a@ && y == b@) implies self.has_edge(x, y) == old(self).has_edge(
                        x,
                        y,
                    ) by {
                        if old(self).has_edge(x, y) {
                            let j = choose|j: int|
                                0 <= j < old(self).edges@.len() && (#[trigger] old(
                                    self,
                                ).edges@[j]).source_id@ == x && old(self).edges@[j].target_id@
                                    == y;
                            assert(j != i);
                            let jn = if j < i {
                                j
                            } else {
                                j - 1
                            };
                            assert(self.edges@[jn] == old(self).edges@[j]);
                        }
                        if self.has_edge(x, y) {
                            let j = choose|j: int|
                                0 <= j < self.edges@.len() && (#[trigger] self.edges@[j])
                                    .source_id@ == x && self.edges@[j].target_id@ == y;
                            let j0 = if j < i {
                                j
                            } else {
                                j + 1
                            };
                            assert(old(self).edges@[j0] == self.edges@[j]);
                        }
                    }
                }
                return ;
            }
            i = i + 1;
        }
    }

    /// Remove every record whose source is `d`.
    pub fn delete_edges_by_source(&mut self, d: &String)
        requires
            old(self).wf(),
        ensures
            final(self).wf(),
            final(self).edges@ == spec_drop_edges(old(self).edges@, DropRule::BySource(d@)),
            forall|x: Seq<char>| !final(self).has_edge(d@, x),
            forall|x: Seq<char>, y: Seq<char>|
                x != d@ ==> final(self).has_edge(x, y) == old(self).has_edge(x, y),
    {
        let empty = String::new();
        self.drop_where(Ghost(DropRule::BySource(d@)), 1, d, &empty);
        proof {
            assert forall|x: Seq<char>, y: Seq<char>|
                x != d@ implies self.has_edge(x, y) == old(self).has_edge(x, y) by {
                if old(self).has_edge(x, y) {
                    let i = choose|i: int|
                        0 <= i < old(self).edges@.len() && (#[trigger] old(self).edges@[i])
                            .source_id@ == x && old(self).edges@[i].target_id@ == y;
                    assert(!rule_matches(DropRule::BySource(d@), old(self).edges@[i]));
                }
            }
        }
    }

    /// Remove every record whose target is `d`.
    pub fn delete_edges_by_target(&mut self, d: &String)
        requires
            old(self).wf(),
        ensures
            final(self).wf(),
            final(self).edges@ == spec_drop_edges(old(self).edges@, DropRule::ByTarget(d@)),
            forall|x: Seq<char>| !final(self).has_edge(x, d@),
            forall|x: Seq<char>, y: Seq<char>|
                y != d@ ==> final(self).has_edge(x, y) == old(self).has_edge(x, y),
    {
        let empty = String::new();
        self.drop_where(Ghost(DropRule::ByTarget(d@)), 2, d, &empty);
        proof {
            assert forall|x: Seq<char>, y: Seq<char>|
                y != d@ implies self.has_edge(x, y) == old(self).has_edge(x, y) by {
                if old(self).has_edge(x, y) {
                    let i = choose|i: int|
                        0 <= i < old(self).edges@.len() && (#[trigger] old(self).edges@[i])
                            .source_id@ == x && old(self).edges@[i].target_id@ == y;
                    assert(!rule_matches(DropRule::ByTarget(d@), old(self).edges@[i]));
                }
            }
        }
    }

    /// The `(target, weight)` rows of edges going out of `source_id`, in
    /// store order.
    pub fn find_edges_by_source_id(&self, source_id: &String) -> (r: Vec<LinkedDoc>)
        ensures
            r@.map_values(|ld: LinkedDoc| ld@) == spec_outgoing_rows(self.edges@, source_id@),
    {
        let mut rows: Vec<LinkedDoc> = Vec::new();
        let n: usize = self.edges.len();
        let mut i: usize = 0;
        proof {
            assert(self.edges@.take(0) =~= Seq::<EdgeRecord>::empty());
        }
        while i < n
            invariant
                i <= n,
                n == self.edges@.len(),
                rows@.map_values(|ld: LinkedDoc| ld@) == spec_outgoing_rows(
                    self.edges@.take(i as int),
                    source_id@,
                ),
            decreases n - i,
        {
            proof {
                assert(self.edges@.take(i as int + 1).drop_last() =~= self.edges@.take(i as int));
                assert(self.edges@.take(i as int + 1).last() == self.edges@[i as int]);
            }
            if self.edges[i].source_id.eq(source_id) {
                let ld = LinkedDoc {
                    document_id: self.edges[i].target_id.clone(),
                    weight_tenths: self.edges[i].weight_tenths,
                };
                proof {
                    assert((rows@.push(ld)).map_values(|x: LinkedDoc| x@) =~= rows@.map_values(
                        |x: LinkedDoc| x@,
                    ).push(ld@));
                }
                rows.push(ld);
            }
            i = i + 1;
        }
        proof {
            assert(self.edges@.take(n as int) =~= self.edges@);
        }
        rows
    }

    /// The neighbours of `document_id` over edges in both directions: one
    /// row per linked document, carrying the heaviest weight among the
    /// edges that connect the pair, heavier links first.
    pub fn find_related_documents_bidirectional(&self, document_id: &String) -> (r: Vec<
        LinkedDoc,
    >)
        requires
            self.wf(),
        ensures
            ({
                let rows = spec_incident_rows(self.edges@, document_id@);
                let docs = firsts(row_doc_ids(rows));
                &&& r@.len() == docs.len()
                &&& forall|i: int|
                    0 <= i < r@.len() ==> docs.contains((#[trigger] r@[i]).document_id@)
                &&& forall|i: int|
                    0 <= i < r@.len() ==> (#[trigger] r@[i]).weight_tenths as int
                        == spec_max_weight(rows, r@[i].document_id@)
                &&& forall|x: Seq<char>|
                    docs.contains(x) ==> exists|i: int|
                        0 <= i < r@.len() && (#[trigger] r@[i]).document_id@ == x
                &&& forall|i: int, j: int|
                    0 <= i < j < r@.len() ==> (#[trigger] r@[i]).document_id@ != (
                    #[trigger] r@[j]).document_id@
                &&& forall|x: int, y: int|
                    0 <= x < y < r@.len() ==> (#[trigger] r@[x]).weight_tenths >= (
                    #[trigger] r@[y]).weight_tenths
            }),
    {
        let mut rows: Vec<LinkedDoc> = Vec::new();
        let n: usize = self.edges.len();
        let mut i: usize = 0;
        proof {
            assert(self.edges@.take(0) =~= Seq::<EdgeRecord>::empty());
        }
        while i < n
            invariant
                i <= n,
                n == self.edges@.len(),
                rows@.map_values(|ld: LinkedDoc| ld@) == spec_outgoing_rows(
                    self.edges@.take(i as int),
                    document_id@,
                ),
            decreases n - i,
        {
            proof {
                assert(self.edges@.take(i as int + 1).drop_last() =~= self.edges@.take(i as int));
                assert(self.edges@.take(i as int + 1).last() == self.edges@[i as int]);
            }
            if self.edges[i].source_id.eq(document_id) {
                let ld = LinkedDoc {
                    document_id: self.edges[i].target_id.clone(),
                    weight_tenths: self.edges[i].weight_tenths,
                };
                proof {
                    assert((rows@.push(ld)).map_values(|x: LinkedDoc| x@) =~= rows@.map_values(
                        |x: LinkedDoc| x@,
                    ).push(ld@));
                }
                rows.push(ld);
            }
            i = i + 1;
        }
        let ghost outgoing = spec_outgoing_rows(self.edges@, document_id@);
        proof {
            assert(self.edges@.take(n as int) =~= self.edges@);
            assert(self.edges@.take(0) =~= Seq::<EdgeRecord>::empty());
            assert(rows@.map_values(|ld: LinkedDoc| ld@) =~= outgoing + spec_incoming_rows(
                self.edges@.take(0),
                document_id@,
            ));
        }
        let mut i2: usize = 0;
        while i2 < n
            invariant
                i2 <= n,
                n == self.edges@.len(),
                outgoing == spec_outgoing_rows(self.edges@, document_id@),
                rows@.map_values(|ld: LinkedDoc| ld@) == outgoing + spec_incoming_rows(
                    self.edges@.take(i2 as int),
                    document_id@,
                ),
            decreases n - i2,
        {
            proof {
                assert(self.edges@.take(i2 as int + 1).drop_last() =~= self.edges@.take(
                    i2 as int,
                ));
                assert(self.edges@.take(i2 as int + 1).last() == self.edges@[i2 as int]);
            }
            if self.edges[i2].target_id.eq(document_id) {
                let ld = LinkedDoc {
                    document_id: self.edges[i2].source_id.clone(),
                    weight_tenths: self.edges[i2].weight_tenths,
                };
                proof {
                    assert((rows@.push(ld)).map_values(|x: LinkedDoc| x@) =~= rows@.map_values(
                        |x: LinkedDoc| x@,
                    ).push(ld@));
                    assert(outgoing + spec_incoming_rows(
                        self.edges@.take(i2 as int + 1),
                        document_id@,
                    ) =~= (outgoing + spec_incoming_rows(
                        self.edges@.take(i2 as int),
                        document_id@,
                    )).push(ld@));
                }
                rows.push(ld);
            } else {
                proof {
                    assert(outgoing + spec_incoming_rows(
                        self.edges@.take(i2 as int + 1),
                        document_id@,
                    ) =~= outgoing + spec_incoming_rows(
                        self.edges@.take(i2 as int),
                        document_id@,
                    ));
                }
            }
            i2 = i2 + 1;
        }
        proof {
            assert(self.edges@.take(n as int) =~= self.edges@);
            assert(rows@.map_values(|ld: LinkedDoc| ld@) == spec_incident_rows(
                self.edges@,
                document_id@,
            ));
        }
        collapse_linked_docs(&rows)
    }

    /// Drop every stored edge, reporting how many were stored.
    pub fn clear(&mut self) -> (count: u64)
        ensures
            final(self).wf(),
            final(self).edges@.len() == 0,
            count == old(self).edges@.len() as u64,
    {
        let count = self.edges.len() as u64;
        self.edges.clear();
        count
    }
}

/// Collapse rows to one per document, keeping the heaviest weight, and
/// order the result by descending weight.
fn collapse_linked_docs(rows: &Vec<LinkedDoc>) -> (r: Vec<LinkedDoc>)
    ensures
        ({
            let views = rows@.map_values(|ld: LinkedDoc| ld@);
            let docs = firsts(row_doc_ids(views));
            &&& r@.len() == docs.len()
            &&& forall|i: int|
                0 <= i < r@.len() ==> docs.contains((#[trigger] r@[i]).document_id@)
            &&& forall|i: int|
                0 <= i < r@.len() ==> (#[trigger] r@[i]).weight_tenths as int == spec_max_weight(
                    views,
                    r@[i].document_id@,
                )
            &&& forall|x: Seq<char>|
                docs.contains(x) ==> exists|i: int|
                    0 <= i < r@.len() && (#[trigger] r@[i]).document_id@ == x
            &&& forall|i: int, j: int|
                0 <= i < j < r@.len() ==> (#[trigger] r@[i]).document_id@ != (
                #[trigger] r@[j]).document_id@
            &&& forall|x: int, y: int|
                0 <= x < y < r@.len() ==> (#[trigger] r@[x]).weight_tenths >= (
                #[trigger] r@[y]).weight_tenths
        }),
{
    let ghost views = rows@.map_values(|ld: LinkedDoc| ld@);
    let ghost ids = row_doc_ids(views);
    let mut out: Vec<LinkedDoc> = Vec::new();
    let n: usize = rows.len();
    let mut i: usize = 0;
    proof {
        assert(views.take(0) =~= Seq::<LinkedDocView>::empty());
        assert(row_doc_ids(views.take(0)) =~= Seq::<Seq<char>>::empty());
        assert(ids.take(0) =~= row_doc_ids(views.take(0)));
    }
    while i < n
        invariant
            i <= n,
            n == views.len(),
            views == rows@.map_values(|ld: LinkedDoc| ld@),
            ids == row_doc_ids(views),
            out@.map_values(|ld: LinkedDoc| ld.document_id@) == firsts(ids.take(i as int)),
            forall|k: int|
                0 <= k < out@.len() ==> (#[trigger] out@[k]).weight_tenths as int
                    == spec_max_weight(views.take(i as int), out@[k].document_id@),
            forall|a: int, b: int|
                0 <= a < b < out@.len() ==> (#[trigger] out@[a]).document_id@ != (
                #[trigger] out@[b]).document_id@,
        decreases n - i,
    {
        proof {
            assert(ids.take(i as int + 1).drop_last() =~= ids.take(i as int));
            assert(ids.take(i as int + 1).last() == ids[i as int]);
            assert(views.take(i as int + 1).drop_last() =~= views.take(i as int));
            assert(views.take(i as int + 1).last() == views[i as int]);
            assert(views[i as int] == rows@[i as int]@);
            assert(ids[i as int] == views[i as int].document_id);
        }
        let m: usize = out.len();
        let mut j: usize = 0;
        let mut found: bool = false;
        while j < m && !found
            invariant
                j <= m,
                m == out@.len(),
                i < n,
                n == rows@.len(),
                !found ==> forall|k: int|
                    0 <= k < j ==> (#[trigger] out@[k]).document_id@
                        != rows@[i as int].document_id@,
                found ==> j < m && out@[j as int].document_id@ == rows@[i as int].document_id@,
            decreases m - j + if found {
                0int
            } else {
                1int
            },
        {
            if out[j].document_id.eq(&rows[i].document_id) {
                found = true;
            } else {
                j = j + 1;
            }
        }
        let ghost prev_firsts = firsts(ids.take(i as int));
        if found {
            proof {
                assert(out@.map_values(|ld: LinkedDoc| ld.document_id@)[j as int] == out@[
                    j as int].document_id@);
                assert(prev_firsts.contains(ids[i as int]));
                assert(firsts(ids.take(i as int + 1)) == prev_firsts);
            }
            let cur = out[j].weight_tenths;
            let w = rows[i].weight_tenths;
            let nw: u32 = if w > cur {
                w
            } else {
                cur
            };
            let ghost before = out@;
            let stored = out.remove(j);
            let replacement = LinkedDoc { document_id: stored.document_id, weight_tenths: nw };
            out.insert(j, replacement);
            proof {
                assert(out@ =~= before.update(j as int, replacement));
                assert(replacement.document_id@ == before[j as int].document_id@);
                assert(out@.map_values(|ld: LinkedDoc| ld.document_id@) =~= before.map_values(
                    |ld: LinkedDoc| ld.document_id@,
                ));
                assert forall|k: int|
                    0 <= k < out@.len() implies (#[trigger] out@[k]).weight_tenths as int
                    == spec_max_weight(views.take(i as int + 1), out@[k].document_id@) by {
                    if k == j {
                        assert(out@[k].document_id@ == views[i as int].document_id);
                    } else {
                        assert(out@[k] == before[k]);
                        assert(out@[k].document_id@ != out@[j as int].document_id@);
                        assert(out@[k].document_id@ != views[i as int].document_id);
                    }
                }
                assert forall|a: int, b: int|
                    0 <= a < b < out@.len() implies (#[trigger] out@[a]).document_id@ != (
                #[trigger] out@[b]).document_id@ by {
                    assert(out@[a].document_id@ == before[a].document_id@);
                    assert(out@[b].document_id@ == before[b].document_id@);
                }
            }
        } else {
            proof {
                assert(!prev_firsts.contains(ids[i as int])) by {
                    if prev_firsts.contains(ids[i as int]) {
                        let k = choose|k: int|
                            0 <= k < prev_firsts.len() && prev_firsts[k] == ids[i as int];
                        assert(out@.map_values(|ld: LinkedDoc| ld.document_id@)[k] == out@[k]
                            .document_id@);
                    }
                }
                assert(firsts(ids.take(i as int + 1)) == prev_firsts.push(ids[i as int]));
                lemma_occurrences_firsts(ids.take(i as int), ids[i as int]);
                lemma_occurrences_contains(ids.take(i as int), ids[i as int]);
                assert(!ids.take(i as int).contains(ids[i as int]));
                assert forall|k: int|
                    0 <= k < views.take(i as int).len() implies (#[trigger] views.take(
                    i as int,
                )[k]).document_id != ids[i as int] by {
                    assert(ids.take(i as int)[k] == views.take(i as int)[k].document_id);
                    if views.take(i as int)[k].document_id == ids[i as int] {
                        assert(ids.take(i as int).contains(ids[i as int]));
                    }
                }
                lemma_max_weight_absent(views.take(i as int), ids[i as int]);
            }
            let entry = LinkedDoc {
                document_id: rows[i].document_id.clone(),
                weight_tenths: rows[i].weight_tenths,
            };
            proof {
                assert((out@.push(entry)).map_values(|ld: LinkedDoc| ld.document_id@) =~= out@
                    .map_values(|ld: LinkedDoc| ld.document_id@).push(entry.document_id@));
                assert(entry.weight_tenths as int == spec_max_weight(
                    views.take(i as int + 1),
                    entry.document_id@,
                ));
            }
            out.push(entry);
            proof {
                assert forall|k: int|
                    0 <= k < out@.len() implies (#[trigger] out@[k]).weight_tenths as int
                    == spec_max_weight(views.take(i as int + 1), out@[k].document_id@) by {
                    if k < out@.len() - 1 {
                        assert(out@.map_values(|ld: LinkedDoc| ld.document_id@)[k] == out@[k]
                            .document_id@);
                        assert(prev_firsts[k] == out@[k].document_id@);
                        assert(prev_firsts.contains(prev_firsts[k]));
                        lemma_occurrences_firsts(ids.take(i as int), prev_firsts[k]);
                        lemma_occurrences_contains(ids.take(i as int), prev_firsts[k]);
                        assert(out@[k].document_id@ != views[i as int].document_id) by {
                            if prev_firsts[k] == ids[i as int] {
                                assert(prev_firsts.contains(ids[i as int]));
                            }
                        }
                    }
                }
                assert forall|a: int, b: int|
                    0 <= a < b < out@.len() implies (#[trigger] out@[a]).document_id@ != (
                #[trigger] out@[b]).document_id@ by {
                    if b == out@.len() - 1 {
                        assert(out@.map_values(|ld: LinkedDoc| ld.document_id@)[a] == out@[a]
                            .document_id@);
                        assert(prev_firsts[a] == out@[a].document_id@);
                        assert(prev_firsts.contains(prev_firsts[a]));
                        if out@[a].document_id@ == ids[i as int] {
                            assert(prev_firsts.contains(ids[i as int]));
                        }
                    }
                }
            }
        }
        i = i + 1;
    }
    proof {
        assert(ids.take(n as int) =~= ids);
        assert(views.take(n as int) =~= views);
    }
    let ghost collapsed = out@.map_values(|ld: LinkedDoc| ld@);
    proof {
        // Each collapsed row is pinned by its document: equal documents
        // would mean equal rows.
        assert forall|a: int, b: int|
            0 <= a < b < collapsed.len() implies #[trigger] collapsed[a] != #[trigger]
        collapsed[b] by {
            assert(collapsed[a].document_id == out@[a].document_id@);
            assert(collapsed[b].document_id == out@[b].document_id@);
        }
        assert(collapsed.no_duplicates());
        collapsed.lemma_multiset_has_no_duplicates();
    }
    sort_linked_docs(&mut out);
    proof {
        let docs = firsts(ids);
        let sorted = out@.map_values(|ld: LinkedDoc| ld@);
        assert forall|i2: int| 0 <= i2 < out@.len() implies docs.contains(
            (#[trigger] out@[i2]).document_id@,
        ) && out@[i2].weight_tenths as int == spec_max_weight(views, out@[i2].document_id@) by {
            assert(sorted[i2] == out@[i2]@);
            assert(sorted.to_multiset().count(sorted[i2]) > 0);
            assert(collapsed.to_multiset().count(sorted[i2]) > 0);
            assert(collapsed.contains(sorted[i2]));
            let k = choose|k: int| 0 <= k < collapsed.len() && collapsed[k] == sorted[i2];
            assert(collapsed[k].document_id == out@[i2].document_id@);
            assert(docs.contains(docs[k]));
        }
        assert forall|x: Seq<char>| docs.contains(x) implies exists|i2: int|
            0 <= i2 < out@.len() && (#[trigger] out@[i2]).document_id@ == x by {
            let k = choose|k: int| 0 <= k < docs.len() && docs[k] == x;
            assert(collapsed[k].document_id == x);
            assert(collapsed.contains(collapsed[k]));
            assert(collapsed.to_multiset().count(collapsed[k]) > 0);
            assert(sorted.to_multiset().count(collapsed[k]) > 0);
            assert(sorted.contains(collapsed[k]));
            let i2 = choose|i2: int| 0 <= i2 < sorted.len() && sorted[i2] == collapsed[k];
            assert(out@[i2].document_id@ == x);
        }
        assert forall|a: int, b: int|
            0 <= a < b < out@.len() implies (#[trigger] out@[a]).document_id@ != (
        #[trigger] out@[b]).document_id@ by {
            if out@[a].document_id@ == out@[b].document_id@ {
                assert(sorted[a] == out@[a]@);
                assert(sorted[b] == out@[b]@);
                assert(out@[a].weight_tenths as int == spec_max_weight(
                    views,
                    out@[a].document_id@,
                ));
                assert(out@[b].weight_tenths as int == spec_max_weight(
                    views,
                    out@[b].document_id@,
                ));
                assert(sorted[a] == sorted[b]);
                assert(sorted.remove(b).to_multiset() =~= sorted.to_multiset().remove(
                    sorted[b],
                ));
                assert(sorted.remove(b)[a] == sorted[a]);
                assert(sorted.remove(b).contains(sorted[a]));
                assert(sorted.remove(b).to_multiset().count(sorted[a]) > 0);
                assert(sorted.to_multiset().count(sorted[a]) >= 2);
                assert(collapsed.to_multiset().count(sorted[a]) >= 2);
                assert(collapsed.contains(sorted[a]));
            }
        }
    }
    out
}

/// Order linked documents by descending weight; the rows themselves are
/// preserved as a multiset of views.
fn sort_linked_docs(v: &mut Vec<LinkedDoc>)
    ensures
        final(v)@.len() == old(v)@.len(),
        final(v)@.map_values(|ld: LinkedDoc| ld@).to_multiset() == old(v)@.map_values(
            |ld: LinkedDoc| ld@,
        ).to_multiset(),
        forall|x: int, y: int|
            0 <= x < y < final(v)@.len() ==> (#[trigger] final(v)@[x]).weight_tenths >= (
            #[trigger] final(v)@[y]).weight_tenths,
{
    let n: usize = v.len();
    let mut i: usize = 1;
    while i < n
        invariant
            1 <= i,
            i <= n || n <= 1,
            n == v@.len(),
            v@.map_values(|ld: LinkedDoc| ld@).to_multiset() == old(v)@.map_values(
                |ld: LinkedDoc| ld@,
            ).to_multiset(),
            forall|x: int, y: int|
                0 <= x < y < i ==> (#[trigger] v@[x]).weight_tenths >= (
                #[trigger] v@[y]).weight_tenths,
        decreases n - i,
    {
        let ghost before = v@;
        let x = v.remove(i);
        let ghost removed = v@;
        let mut j: usize = 0;
        let mut scanning: bool = true;
        while scanning && j < i
            invariant
                j <= i,
                i < n,
                n == before.len(),
                v@ == removed,
                removed.len() == n - 1,
                forall|a: int| 0 <= a < j ==> (#[trigger] v@[a]).weight_tenths >= x.weight_tenths,
                !scanning ==> j < i && v@[j as int].weight_tenths < x.weight_tenths,
            decreases i - j + if scanning {
                1int
            } else {
                0int
            },
        {
            if v[j].weight_tenths >= x.weight_tenths {
                j = j + 1;
            } else {
                scanning = false;
            }
        }
        v.insert(j, x);
        proof {
            assert(before.map_values(|ld: LinkedDoc| ld@).to_multiset() == removed.map_values(
                |ld: LinkedDoc| ld@,
            ).to_multiset().insert(x@)) by {
                assert(removed.map_values(|ld: LinkedDoc| ld@) =~= before.map_values(
                    |ld: LinkedDoc| ld@,
                ).remove(i as int));
                assert(before.map_values(|ld: LinkedDoc| ld@)[i as int] == x@);
                assert(before.map_values(|ld: LinkedDoc| ld@).to_multiset().count(x@) > 0);
            }
            assert(v@.map_values(|ld: LinkedDoc| ld@).to_multiset() == removed.map_values(
                |ld: LinkedDoc| ld@,
            ).to_multiset().insert(x@)) by {
                assert(v@.map_values(|ld: LinkedDoc| ld@) =~= removed.map_values(
                    |ld: LinkedDoc| ld@,
                ).insert(j as int, x@));
            }
            assert forall|a: int, b: int|
                0 <= a < b < i + 1 implies (#[trigger] v@[a]).weight_tenths >= (
            #[trigger] v@[b]).weight_tenths by {
                if a < j && b < j {
                    assert(v@[a] == removed[a]);
                    assert(v@[b] == removed[b]);
                    assert(removed[a] == before[a]);
                    assert(removed[b] == before[b]);
                } else if a < j && b == j {
                    assert(v@[a] == removed[a]);
                } else if a < j && b > j {
                    assert(v@[a] == removed[a]);
                    assert(v@[b] == removed[b - 1]);
                    assert(removed[a] == before[a]);
                    assert(removed[b - 1] == before[b - 1]);
                    assert(before[a].weight_tenths >= before[b - 1].weight_tenths);
                } else if a == j && b > j {
                    assert(v@[b] == removed[b - 1]);
                    assert(removed[b - 1] == before[b - 1]);
                    if j < i {
                        assert(removed[j as int].weight_tenths < x.weight_tenths);
                        assert(removed[j as int] == before[j as int]);
                        assert(before[j as int].weight_tenths >= before[b - 1].weight_tenths);
                    }
                } else {
                    assert(a > j);
                    assert(v@[a] == removed[a - 1]);
                    assert(v@[b] == removed[b - 1]);
                    assert(removed[a - 1] == before[a - 1]);
                    assert(removed[b - 1] == before[b - 1]);
                    assert(before[a - 1].weight_tenths >= before[b - 1].weight_tenths);
                }
            }
        }
        i = i + 1;
    }
}

/// An edge as reported to observers and to the graph view: a
/// document-to-document similarity link or a document-to-tag link.
pub struct GraphEdge {
    pub source: String,
    pub target: String,
    pub edge_type: String,
    pub weight_tenths: Option<u32>,
}

/// The mathematical content of a [`GraphEdge`].
pub struct GraphEdgeView {
    pub source: Seq<char>,
    pub target: Seq<char>,
    pub edge_type: Seq<char>,
    pub weight_tenths: Option<int>,
}

impl View for GraphEdge {
    type V = GraphEdgeView;

    open spec fn view(&self) -> GraphEdgeView {
        GraphEdgeView {
            source: self.source@,
            target: self.target@,
            edge_type: self.edge_type@,
            weight_tenths: match self.weight_tenths {
                Some(w) => Some(w as int),
                None => None,
            },
        }
    }
}

/// The payload of one batched `graph-edge-changed` notification.
pub struct EdgeChangeInfo {
    pub added_edges: Vec<GraphEdge>,
    pub removed_edges: Vec<GraphEdge>,
}

/// A document appears among the incident rows of `d` exactly when some
/// stored edge connects it with `d`.
pub proof fn lemma_incident_rows_membership(edges: Seq<EdgeRecord>, d: Seq<char>, x: Seq<char>)
    ensures
        (exists|k: int|
            0 <= k < spec_incident_rows(edges, d).len() && (#[trigger] spec_incident_rows(
                edges,
                d,
            )[k]).document_id == x) <==> (exists|i: int|
            0 <= i < edges.len() && (((#[trigger] edges[i]).source_id@ == d && edges[i].target_id@
                == x) || (edges[i].source_id@ == x && edges[i].target_id@ == d))),
    decreases edges.len(),
{
    lemma_outgoing_rows_membership(edges, d, x);
    lemma_incoming_rows_membership(edges, d, x);
    let og = spec_outgoing_rows(edges, d);
    let ic = spec_incoming_rows(edges, d);
    let all = spec_incident_rows(edges, d);
    if exists|k: int| 0 <= k < all.len() && (#[trigger] all[k]).document_id == x {
        let k = choose|k: int| 0 <= k < all.len() && (#[trigger] all[k]).document_id == x;
        if k < og.len() {
            assert(og[k].document_id == x);
        } else {
            assert(ic[k - og.len()].document_id == x);
        }
    }
    if exists|k: int| 0 <= k < og.len() && (#[trigger] og[k]).document_id == x {
        let k = choose|k: int| 0 <= k < og.len() && (#[trigger] og[k]).document_id == x;
        assert(all[k].document_id == x);
    }
    if exists|k: int| 0 <= k < ic.len() && (#[trigger] ic[k]).document_id == x {
        let k = choose|k: int| 0 <= k < ic.len() && (#[trigger] ic[k]).document_id == x;
        assert(all[og.len() + k].document_id == x);
    }
}

/// A document appears among the outgoing rows of `d` exactly when an edge
/// leads from `d` to it.
proof fn lemma_outgoing_rows_membership(edges: Seq<EdgeRecord>, d: Seq<char>, x: Seq<char>)
    ensures
        (exists|k: int|
            0 <= k < spec_outgoing_rows(edges, d).len() && (#[trigger] spec_outgoing_rows(
                edges,
                d,
            )[k]).document_id == x) <==> (exists|i: int|
            0 <= i < edges.len() && (#[trigger] edges[i]).source_id@ == d && edges[i].target_id@
                == x),
    decreases edges.len(),
{
    if edges.len() > 0 {
        lemma_outgoing_rows_membership(edges.drop_last(), d, x);
        let out = spec_outgoing_rows(edges, d);
        let prev = spec_outgoing_rows(edges.drop_last(), d);
        let e = edges.last();
        if exists|k: int| 0 <= k < out.len() && (#[trigger] out[k]).document_id == x {
            let k = choose|k: int| 0 <= k < out.len() && (#[trigger] out[k]).document_id == x;
            if k < prev.len() {
                assert(prev[k].document_id == x);
                let i = choose|i: int|
                    0 <= i < edges.drop_last().len() && (#[trigger] edges.drop_last()[i])
                        .source_id@ == d && edges.drop_last()[i].target_id@ == x;
                assert(edges[i].source_id@ == d && edges[i].target_id@ == x);
            } else {
                assert(e.source_id@ == d && e.target_id@ == x);
                assert(edges[edges.len() - 1].source_id@ == d && edges[edges.len()
                    - 1].target_id@ == x);
            }
        }
        if exists|i: int|
            0 <= i < edges.len() && (#[trigger] edges[i]).source_id@ == d && edges[i].target_id@
                == x {
            let i = choose|i: int|
                0 <= i < edges.len() && (#[trigger] edges[i]).source_id@ == d
                    && edges[i].target_id@ == x;
            if i < edges.len() - 1 {
                assert(edges.drop_last()[i].source_id@ == d && edges.drop_last()[i].target_id@
                    == x);
                let k = choose|k: int|
                    0 <= k < prev.len() && (#[trigger] prev[k]).document_id == x;
                assert(out[k].document_id == x);
            } else {
                assert(out[out.len() - 1].document_id == x);
            }
        }
    }
}

/// A document appears among the incoming rows of `d` exactly when an edge
/// leads from it to `d`.
proof fn lemma_incoming_rows_membership(edges: Seq<EdgeRecord>, d: Seq<char>, x: Seq<char>)
    ensures
        (exists|k: int|
            0 <= k < spec_incoming_rows(edges, d).len() && (#[trigger] spec_incoming_rows(
                edges,
                d,
            )[k]).document_id == x) <==> (exists|i: int|
            0 <= i < edges.len() && (#[trigger] edges[i]).source_id@ == x && edges[i].target_id@
                == d),
    decreases edges.len(),
{
    if edges.len() > 0 {
        lemma_incoming_rows_membership(edges.drop_last(), d, x);
        let out = spec_incoming_rows(edges, d);
        let prev = spec_incoming_rows(edges.drop_last(), d);
        let e = edges.last();
        if exists|k: int| 0 <= k < out.len() && (#[trigger] out[k]).document_id == x {
            let k = choose|k: int| 0 <= k < out.len() && (#[trigger] out[k]).document_id == x;
            if k < prev.len() {
                assert(prev[k].document_id == x);
                let i = choose|i: int|
                    0 <= i < edges.drop_last().len() && (#[trigger] edges.drop_last()[i])
                        .source_id@ == x && edges.drop_last()[i].target_id@ == d;
                assert(edges[i].source_id@ == x && edges[i].target_id@ == d);
            } else {
                assert(edges[edges.len() - 1].source_id@ == x && edges[edges.len()
                    - 1].target_id@ == d);
            }
        }
        if exists|i: int|
            0 <= i < edges.len() && (#[trigger] edges[i]).source_id@ == x && edges[i].target_id@
                == d {
            let i = choose|i: int|
                0 <= i < edges.len() && (#[trigger] edges[i]).source_id@ == x
                    && edges[i].target_id@ == d;
            if i < edges.len() - 1 {
                assert(edges.drop_last()[i].source_id@ == x && edges.drop_last()[i].target_id@
                    == d);
                let k = choose|k: int|
                    0 <= k < prev.len() && (#[trigger] prev[k]).document_id == x;
                assert(out[k].document_id == x);
            } else {
                assert(out[out.len() - 1].document_id == x);
            }
        }
    }
}

} // verus!
