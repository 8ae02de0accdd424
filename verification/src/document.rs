//! The document-facing model: documents with their blocks, search
//! results, change events, storage preparation, merged search, and the
//! presentation graph assembled from documents, tags and similarity edges.

use vstd::prelude::*;

use crate::counting::distinct_with_counts;
use crate::counting::firsts;
use crate::graph::EdgeRecord;
use crate::graph::GraphEdge;
use crate::graph::GraphEdgeView;
use crate::store::Block;
use crate::text::spec_comma_fields;
use crate::text::spec_trim;
use crate::text::comma_fields;
use crate::text::trim_str;

verus! {

/// A document as the interactive application sees it: its record fields
/// plus its ordered blocks. Timestamps travel as the store's rendered
/// strings.
pub struct Document {
    pub id: String,
    pub title: Option<String>,
    pub status: i16,
    pub tags: Option<Vec<String>>,
    pub created_at: Option<String>,
    pub updated_at: Option<String>,
    pub blocks: Vec<Block>,
}

/// One row of a combined search answer. The similarity score travels in
/// thousandths of the 0-to-1 scale.
pub struct SearchResult {
    pub id: String,
    pub title: Option<String>,
    pub tags: Option<Vec<String>>,
    pub status: i16,
    pub match_type: String,
    pub match_snippet: Option<String>,
    pub similarity_score_milli: Option<u32>,
}

/// Announcement that a document was deleted.
pub struct DocumentDeletedEvent {
    pub document_id: String,
}

/// Announcement that a document was saved.
pub struct DocumentUpdatedEvent {
    pub document_id: String,
    pub title: Option<String>,
    pub tags: Option<Vec<String>>,
    pub updated_at: String,
}

/// What can go wrong in the document services.
#[derive(Debug)]
pub enum DocumentError {
    ConfigLoadingError,
    DatabaseConnectionCreationError,
    DatabaseQueryError,
    PathDoesNotExistError(String),
    PathIsNotDirectoryError(String),
    PathCreationError(String),
}

/// Check that the chosen base path can hold storage and compose the
/// storage directory under it, with a forward slash as separator; the two
/// truths come from probing the file system, and the caller creates the
/// directory.
pub fn ensure_storage(path: &str, name: &str, exists: bool, is_dir: bool) -> (r: Result<
    String,
    DocumentError,
>)
    ensures
        r.is_ok() <==> (exists && is_dir),
        r matches Ok(p) ==> p@ == path@ + "/"@ + name@,
        !exists ==> (r matches Err(DocumentError::PathDoesNotExistError(m)) && m@
            == "Path does not exist: "@ + path@),
        exists && !is_dir ==> (r matches Err(DocumentError::PathIsNotDirectoryError(m)) && m@
            == "Path is not a directory: "@ + path@),
{
    if !exists {
        let mut m = String::from_str("Path does not exist: ");
        m.append(path);
        return Err(DocumentError::PathDoesNotExistError(m));
    }
    if !is_dir {
        let mut m = String::from_str("Path is not a directory: ");
        m.append(path);
        return Err(DocumentError::PathIsNotDirectoryError(m));
    }
    let mut p = String::from_str(path);
    p.append("/");
    p.append(name);
    Ok(p)
}

/// The tags stored in a comma-separated column: each field trimmed, empty
/// ones dropped.
pub open spec fn spec_kept_trimmed(fields: Seq<Seq<char>>) -> Seq<Seq<char>>
    decreases fields.len(),
{
    if fields.len() == 0 {
        Seq::empty()
    } else {
        let prev = spec_kept_trimmed(fields.drop_last());
        let t = spec_trim(fields.last());
        if t.len() > 0 {
            prev.push(t)
        } else {
            prev
        }
    }
}

/// See [`spec_kept_trimmed`] applied to the comma fields.
pub open spec fn spec_tag_list(s: Seq<char>) -> Seq<Seq<char>> {
    spec_kept_trimmed(spec_comma_fields(s))
}

/// Parse a comma-separated tag column: split, trim, drop empties.
pub fn parse_tag_list(s: &str) -> (tags: Vec<String>)
    ensures
        tags@.map_values(|t: String| t@) == spec_tag_list(s@),
{
    let fields = comma_fields(s);
    let ghost field_views = spec_comma_fields(s@);
    let mut tags: Vec<String> = Vec::new();
    let n: usize = fields.len();
    let mut i: usize = 0;
    proof {
        assert(field_views.take(0) =~= Seq::<Seq<char>>::empty());
    }
    while i < n
        invariant
            i <= n,
            n == fields@.len(),
            field_views == spec_comma_fields(s@),
            fields@.map_values(|f: String| f@) == field_views,
            tags@.map_values(|t: String| t@) == spec_kept_trimmed(field_views.take(i as int)),
        decreases n - i,
    {
        proof {
            assert(field_views.take(i as int + 1).drop_last() =~= field_views.take(i as int));
            assert(field_views.take(i as int + 1).last() == field_views[i as int]);
            assert(fields@.map_values(|f: String| f@)[i as int] == fields@[i as int]@);
        }
        let trimmed = trim_str(fields[i].as_str());
        if !trimmed.is_empty() {
            let owned = String::from_str(trimmed);
            proof {
                assert((tags@.push(owned)).map_values(|t: String| t@) =~= tags@.map_values(
                    |t: String| t@,
                ).push(owned@));
            }
            tags.push(owned);
        }
        i = i + 1;
    }
    proof {
        assert(field_views.take(n as int) =~= field_views);
    }
    tags
}

/// The identities already present in a result list.
pub open spec fn result_ids(rs: Seq<SearchResult>) -> Set<Seq<char>> {
    Set::new(|x: Seq<char>| exists|j: int| 0 <= j < rs.len() && (#[trigger] rs[j]).id@ == x)
}

/// The rows of `vs` whose identity is not yet seen, earlier kept rows
/// counting as seen for the later ones.
pub open spec fn spec_append_unseen(vs: Seq<SearchResult>, seen: Set<Seq<char>>) -> Seq<
    SearchResult,
>
    decreases vs.len(),
{
    if vs.len() == 0 {
        Seq::empty()
    } else {
        let first = vs.first();
        if seen.contains(first.id@) {
            spec_append_unseen(vs.drop_first(), seen)
        } else {
            seq![first] + spec_append_unseen(vs.drop_first(), seen.insert(first.id@))
        }
    }
}

/// Merge text-search rows with vector-search rows: the text rows come
/// first, then every vector row whose document is not already present.
pub fn merge_search_results(sql: Vec<SearchResult>, vector: Vec<SearchResult>) -> (r: Vec<
    SearchResult,
>)
    ensures
        r@ == sql@ + spec_append_unseen(vector@, result_ids(sql@)),
{
    let ghost vorig = vector@;
    let ghost seen0 = result_ids(sql@);
    let mut r = sql;
    let mut vector = vector;
    let n: usize = vector.len();
    let mut i: usize = 0;
    proof {
        assert(vorig.skip(0) =~= vorig);
    }
    while i < n
        invariant
            i <= n,
            n == vorig.len(),
            vector@ == vorig.skip(i as int),
            r@ + spec_append_unseen(vorig.skip(i as int), result_ids(r@)) == sql@
                + spec_append_unseen(vorig, seen0),
        decreases n - i,
    {
        proof {
            assert(vorig.skip(i as int).first() == vorig[i as int]);
            assert(vorig.skip(i as int).drop_first() =~= vorig.skip(i as int + 1));
            assert(vector@[0] == vorig[i as int]);
        }
        let v = vector.remove(0);
        proof {
            assert(vector@ =~= vorig.skip(i as int + 1));
        }
        let m: usize = r.len();
        let mut j: usize = 0;
        let mut found: bool = false;
        while j < m && !found
            invariant
                j <= m,
                m == r@.len(),
                !found ==> forall|k: int| 0 <= k < j ==> (#[trigger] r@[k]).id@ != v.id@,
                found ==> j < m && r@[j as int].id@ == v.id@,
            decreases m - j + if found {
                0int
            } else {
                1int
            },
        {
            if r[j].id.eq(&v.id) {
                found = true;
            } else {
                j = j + 1;
            }
        }
        proof {
            if found {
                assert(result_ids(r@).contains(v.id@));
            } else {
                assert(!result_ids(r@).contains(v.id@)) by {
                    if result_ids(r@).contains(v.id@) {
                        let k = choose|k: int|
                            0 <= k < r@.len() && (#[trigger] r@[k]).id@ == v.id@;
                    }
                }
            }
        }
        if found {
        } else {
            let ghost rold = r@;
            proof {
                assert(spec_append_unseen(vorig.skip(i as int), result_ids(rold)) =~= seq![v]
                    + spec_append_unseen(
                    vorig.skip(i as int + 1),
                    result_ids(rold).insert(v.id@),
                ));
                assert(result_ids(rold.push(v)) =~= result_ids(rold).insert(v.id@)) by {
                    assert forall|x: Seq<char>|
                        result_ids(rold.push(v)).contains(x) == result_ids(rold).insert(
                            v.id@,
                        ).contains(x) by {
                        if result_ids(rold.push(v)).contains(x) {
                            let k = choose|k: int|
                                0 <= k < rold.push(v).len() && (#[trigger] rold.push(v)[k]).id@
                                    == x;
                            if k < rold.len() {
                                assert(rold[k].id@ == x);
                            }
                        }
                        if result_ids(rold).contains(x) {
                            let k = choose|k: int|
                                0 <= k < rold.len() && (#[trigger] rold[k]).id@ == x;
                            assert(rold.push(v)[k].id@ == x);
                        }
                        if x == v.id@ {
                            assert(rold.push(v)[rold.len() as int].id@ == x);
                        }
                    }
                }
                assert((rold.push(v)) + spec_append_unseen(
                    vorig.skip(i as int + 1),
                    result_ids(rold.push(v)),
                ) =~= rold + spec_append_unseen(vorig.skip(i as int), result_ids(rold)));
            }
            r.push(v);
        }
        i = i + 1;
    }
    proof {
        assert(vorig.skip(n as int) =~= Seq::<SearchResult>::empty());
        assert(r@ + Seq::<SearchResult>::empty() =~= r@);
    }
    r
}

/// A node of the presentation graph.
pub struct GraphNode {
    pub id: String,
    pub label: String,
    pub node_type: String,
}

/// The mathematical content of a [`GraphNode`].
pub struct GraphNodeView {
    pub id: Seq<char>,
    pub label: Seq<char>,
    pub node_type: Seq<char>,
}

impl View for GraphNode {
    type V = GraphNodeView;

    open spec fn view(&self) -> GraphNodeView {
        GraphNodeView { id: self.id@, label: self.label@, node_type: self.node_type@ }
    }
}

/// The presentation graph: document and tag nodes, tag links and
/// similarity links.
pub struct GraphData {
    pub nodes: Vec<GraphNode>,
    pub edges: Vec<GraphEdge>,
}

/// The graph neighbourhood of one document as the editor shows it.
pub struct DocumentGraphInfo {
    pub document_id: String,
    pub document_node: GraphNode,
    pub tag_nodes: Vec<GraphNode>,
    pub tag_edges: Vec<GraphEdge>,
}

/// The label of a document node: its title, or a placeholder.
pub open spec fn spec_doc_label(title: Option<String>) -> Seq<char> {
    match title {
        Some(t) => t@,
        None => "Untitled"@,
    }
}

/// The graph neighbourhood of `document`: its own node, one node per tag,
/// and one document-to-tag link per tag.
pub fn get_document_graph_info(document: &Document) -> (r: DocumentGraphInfo)
    ensures
        r.document_id@ == document.id@,
        r.document_node@.id == document.id@,
        r.document_node@.label == spec_doc_label(document.title),
        r.document_node@.node_type == "document"@,
        ({
            let tags = match document.tags {
                Some(ts) => ts@.map_values(|t: String| t@),
                None => Seq::<Seq<char>>::empty(),
            };
            &&& r.tag_nodes@.len() == tags.len()
            &&& r.tag_edges@.len() == tags.len()
            &&& forall|i: int|
                0 <= i < tags.len() ==> {
                    let nd = (#[trigger] r.tag_nodes@[i])@;
                    nd.id == "tag:"@ + tags[i] && nd.label == tags[i] && nd.node_type == "tag"@
                }
            &&& forall|i: int|
                0 <= i < tags.len() ==> {
                    let e = (#[trigger] r.tag_edges@[i])@;
                    e.source == document.id@ && e.target == "tag:"@ + tags[i] && e.edge_type
                        == "document-tag"@ && e.weight_tenths is None
                }
        }),
{
    let label = match &document.title {
        Some(t) => t.clone(),
        None => String::from_str("Untitled"),
    };
    let document_node = GraphNode {
        id: document.id.clone(),
        label,
        node_type: String::from_str("document"),
    };
    let mut tag_nodes: Vec<GraphNode> = Vec::new();
    let mut tag_edges: Vec<GraphEdge> = Vec::new();
    match &document.tags {
        None => {},
        Some(ts) => {
            let n: usize = ts.len();
            let mut i: usize = 0;
            while i < n
                invariant
                    i <= n,
                    n == ts@.len(),
                    tag_nodes@.len() == i,
                    tag_edges@.len() == i,
                    forall|k: int|
                        0 <= k < i ==> {
                            let nd = (#[trigger] tag_nodes@[k])@;
                            nd.id == "tag:"@ + ts@[k]@ && nd.label == ts@[k]@ && nd.node_type
                                == "tag"@
                        },
                    forall|k: int|
                        0 <= k < i ==> {
                            let e = (#[trigger] tag_edges@[k])@;
                            e.source == document.id@ && e.target == "tag:"@ + ts@[k]@
                                && e.edge_type == "document-tag"@ && e.weight_tenths is None
                        },
                decreases n - i,
            {
                let mut tag_id = String::from_str("tag:");
                tag_id.append(ts[i].as_str());
                let node = GraphNode {
                    id: tag_id.clone(),
                    label: ts[i].clone(),
                    node_type: String::from_str("tag"),
                };
                let edge = GraphEdge {
                    source: document.id.clone(),
                    target: tag_id,
                    edge_type: String::from_str("document-tag"),
                    weight_tenths: None,
                };
                tag_nodes.push(node);
                tag_edges.push(edge);
                i = i + 1;
            }
        },
    }
    DocumentGraphInfo {
        document_id: document.id.clone(),
        document_node,
        tag_nodes,
        tag_edges,
    }
}

/// One row of the document table as the graph assembly reads it: the
/// identity, the title, and the raw comma-separated tag column.
pub struct DocRow {
    pub id: String,
    pub title: Option<String>,
    pub tags: Option<String>,
}

/// The tags of one row: the parsed tag column, or nothing.
pub open spec fn spec_row_tags(row: DocRow) -> Seq<Seq<char>> {
    match row.tags {
        Some(s) => spec_tag_list(s@),
        None => Seq::empty(),
    }
}

/// All tags of all rows, in row order, repeats kept.
pub open spec fn spec_all_tags(rows: Seq<DocRow>) -> Seq<Seq<char>>
    decreases rows.len(),
{
    if rows.len() == 0 {
        Seq::empty()
    } else {
        spec_all_tags(rows.drop_last()) + spec_row_tags(rows.last())
    }
}

/// The document nodes of the graph, one per row.
pub open spec fn spec_doc_nodes(rows: Seq<DocRow>) -> Seq<GraphNodeView> {
    Seq::new(
        rows.len(),
        |i: int|
            GraphNodeView {
                id: rows[i].id@,
                label: spec_doc_label(rows[i].title),
                node_type: "document"@,
            },
    )
}

/// The document-to-tag links of the graph, in row order.
pub open spec fn spec_tag_edges(rows: Seq<DocRow>) -> Seq<GraphEdgeView>
    decreases rows.len(),
{
    if rows.len() == 0 {
        Seq::empty()
    } else {
        spec_tag_edges(rows.drop_last()) + Seq::new(
            spec_row_tags(rows.last()).len(),
            |j: int|
                GraphEdgeView {
                    source: rows.last().id@,
                    target: "tag:"@ + spec_row_tags(rows.last())[j],
                    edge_type: "document-tag"@,
                    weight_tenths: None,
                },
        )
    }
}

/// One tag node per distinct tag, in order of first appearance.
pub open spec fn spec_tag_nodes(rows: Seq<DocRow>) -> Seq<GraphNodeView> {
    Seq::new(
        firsts(spec_all_tags(rows)).len(),
        |i: int|
            GraphNodeView {
                id: "tag:"@ + firsts(spec_all_tags(rows))[i],
                label: firsts(spec_all_tags(rows))[i],
                node_type: "tag"@,
            },
    )
}

/// The similarity links of the graph, one per stored edge.
pub open spec fn spec_similarity_edges(records: Seq<EdgeRecord>) -> Seq<GraphEdgeView> {
    Seq::new(
        records.len(),
        |i: int|
            GraphEdgeView {
                source: records[i].source_id@,
                target: records[i].target_id@,
                edge_type: "document-document"@,
                weight_tenths: Some(records[i].weight_tenths as int),
            },
    )
}

/// Assemble the presentation graph: a node per document, a node per
/// distinct tag, a link from each document to each of its tags, and a
/// weighted link per stored similarity edge.
pub fn build_graph_data(docs: &Vec<DocRow>, records: &Vec<EdgeRecord>) -> (r: GraphData)
    ensures
        r.nodes@.map_values(|n: GraphNode| n@) == spec_doc_nodes(docs@) + spec_tag_nodes(docs@),
        r.edges@.map_values(|e: GraphEdge| e@) == spec_tag_edges(docs@) + spec_similarity_edges(
            records@,
        ),
{
    let mut nodes: Vec<GraphNode> = Vec::new();
    let mut edges: Vec<GraphEdge> = Vec::new();
    let mut flat_tags: Vec<String> = Vec::new();
    let nd: usize = docs.len();
    let mut i: usize = 0;
    proof {
        assert(docs@.take(0) =~= Seq::<DocRow>::empty());
    }
    while i < nd
        invariant
            i <= nd,
            nd == docs@.len(),
            nodes@.map_values(|n: GraphNode| n@) == spec_doc_nodes(docs@).take(i as int),
            edges@.map_values(|e: GraphEdge| e@) == spec_tag_edges(docs@.take(i as int)),
            flat_tags@.map_values(|t: String| t@) == spec_all_tags(docs@.take(i as int)),
        decreases nd - i,
    {
        proof {
            assert(docs@.take(i as int + 1).drop_last() =~= docs@.take(i as int));
            assert(docs@.take(i as int + 1).last() == docs@[i as int]);
        }
        let label = match &docs[i].title {
            Some(t) => t.clone(),
            None => String::from_str("Untitled"),
        };
        let node = GraphNode {
            id: docs[i].id.clone(),
            label,
            node_type: String::from_str("document"),
        };
        proof {
            assert(node@ == spec_doc_nodes(docs@)[i as int]);
            assert((nodes@.push(node)).map_values(|n: GraphNode| n@) =~= nodes@.map_values(
                |n: GraphNode| n@,
            ).push(node@));
            assert(spec_doc_nodes(docs@).take(i as int + 1) =~= spec_doc_nodes(docs@).take(
                i as int,
            ).push(spec_doc_nodes(docs@)[i as int]));
        }
        nodes.push(node);
        let row_tags: Vec<String> = match &docs[i].tags {
            Some(s) => parse_tag_list(s.as_str()),
            None => Vec::new(),
        };
        proof {
            assert(row_tags@.map_values(|t: String| t@) == spec_row_tags(docs@[i as int]));
        }
        let nt: usize = row_tags.len();
        let mut k: usize = 0;
        while k < nt
            invariant
                k <= nt,
                i < nd,
                nd == docs@.len(),
                nt == row_tags@.len(),
                row_tags@.map_values(|t: String| t@) == spec_row_tags(docs@[i as int]),
                edges@.map_values(|e: GraphEdge| e@) == spec_tag_edges(docs@.take(i as int))
                    + Seq::new(
                    k as nat,
                    |j: int|
                        GraphEdgeView {
                            source: docs@[i as int].id@,
                            target: "tag:"@ + spec_row_tags(docs@[i as int])[j],
                            edge_type: "document-tag"@,
                            weight_tenths: None,
                        },
                ),
                flat_tags@.map_values(|t: String| t@) == spec_all_tags(docs@.take(i as int))
                    + spec_row_tags(docs@[i as int]).take(k as int),
            decreases nt - k,
        {
            proof {
                assert(row_tags@.map_values(|t: String| t@)[k as int] == row_tags@[k as int]@);
            }
            let mut tag_id = String::from_str("tag:");
            tag_id.append(row_tags[k].as_str());
            let edge = GraphEdge {
                source: docs[i].id.clone(),
                target: tag_id,
                edge_type: String::from_str("document-tag"),
                weight_tenths: None,
            };
            let tag = row_tags[k].clone();
            proof {
                let rt = spec_row_tags(docs@[i as int]);
                assert((edges@.push(edge)).map_values(|e: GraphEdge| e@) =~= edges@.map_values(
                    |e: GraphEdge| e@,
                ).push(edge@));
                assert(spec_tag_edges(docs@.take(i as int)) + Seq::new(
                    (k + 1) as nat,
                    |j: int|
                        GraphEdgeView {
                            source: docs@[i as int].id@,
                            target: "tag:"@ + rt[j],
                            edge_type: "document-tag"@,
                            weight_tenths: None,
                        },
                ) =~= (spec_tag_edges(docs@.take(i as int)) + Seq::new(
                    k as nat,
                    |j: int|
                        GraphEdgeView {
                            source: docs@[i as int].id@,
                            target: "tag:"@ + rt[j],
                            edge_type: "document-tag"@,
                            weight_tenths: None,
                        },
                )).push(edge@));
                assert((flat_tags@.push(tag)).map_values(|t: String| t@) =~= flat_tags@
                    .map_values(|t: String| t@).push(tag@));
                assert(spec_all_tags(docs@.take(i as int)) + rt.take(k as int + 1) =~= (
                spec_all_tags(docs@.take(i as int)) + rt.take(k as int)).push(rt[k as int]));
            }
            edges.push(edge);
            flat_tags.push(tag);
            k = k + 1;
        }
        proof {
            let rt = spec_row_tags(docs@[i as int]);
            assert(rt.take(nt as int) =~= rt);
            assert(spec_tag_edges(docs@.take(i as int + 1)) =~= spec_tag_edges(docs@.take(
                i as int,
            )) + Seq::new(
                rt.len(),
                |j: int|
                    GraphEdgeView {
                        source: docs@[i as int].id@,
                        target: "tag:"@ + rt[j],
                        edge_type: "document-tag"@,
                        weight_tenths: None,
                    },
            ));
            assert(spec_all_tags(docs@.take(i as int + 1)) =~= spec_all_tags(docs@.take(
                i as int,
            )) + rt);
        }
        i = i + 1;
    }
    proof {
        assert(docs@.take(nd as int) =~= docs@);
        assert(spec_doc_nodes(docs@).take(nd as int) =~= spec_doc_nodes(docs@));
    }
    let (uniq_tags, tag_counts) = distinct_with_counts(&flat_tags);
    let nu: usize = uniq_tags.len();
    let mut u: usize = 0;
    while u < nu
        invariant
            u <= nu,
            nu == uniq_tags@.len(),
            uniq_tags@.map_values(|t: String| t@) == firsts(spec_all_tags(docs@)),
            nodes@.map_values(|n: GraphNode| n@) == spec_doc_nodes(docs@) + spec_tag_nodes(
                docs@,
            ).take(u as int),
        decreases nu - u,
    {
        proof {
            assert(uniq_tags@.map_values(|t: String| t@)[u as int] == uniq_tags@[u as int]@);
        }
        let mut tag_id = String::from_str("tag:");
        tag_id.append(uniq_tags[u].as_str());
        let node = GraphNode {
            id: tag_id,
            label: uniq_tags[u].clone(),
            node_type: String::from_str("tag"),
        };
        proof {
            assert(node@ == spec_tag_nodes(docs@)[u as int]);
            assert((nodes@.push(node)).map_values(|n: GraphNode| n@) =~= nodes@.map_values(
                |n: GraphNode| n@,
            ).push(node@));
            assert((spec_doc_nodes(docs@) + spec_tag_nodes(docs@).take(u as int)).push(
                spec_tag_nodes(docs@)[u as int],
            ) =~= spec_doc_nodes(docs@) + spec_tag_nodes(docs@).take(u as int + 1));
        }
        nodes.push(node);
        u = u + 1;
    }
    proof {
        assert(spec_tag_nodes(docs@).take(nu as int) =~= spec_tag_nodes(docs@));
    }
    let ne: usize = records.len();
    let mut e: usize = 0;
    while e < ne
        invariant
            e <= ne,
            ne == records@.len(),
            edges@.map_values(|x: GraphEdge| x@) == spec_tag_edges(docs@)
                + spec_similarity_edges(records@).take(e as int),
        decreases ne - e,
    {
        let edge = GraphEdge {
            source: records[e].source_id.clone(),
            target: records[e].target_id.clone(),
            edge_type: String::from_str("document-document"),
            weight_tenths: Some(records[e].weight_tenths),
        };
        proof {
            assert(edge@ == spec_similarity_edges(records@)[e as int]);
            assert((edges@.push(edge)).map_values(|x: GraphEdge| x@) =~= edges@.map_values(
                |x: GraphEdge| x@,
            ).push(edge@));
            assert((spec_tag_edges(docs@) + spec_similarity_edges(records@).take(e as int)).push(
                spec_similarity_edges(records@)[e as int],
            ) =~= spec_tag_edges(docs@) + spec_similarity_edges(records@).take(e as int + 1));
        }
        edges.push(edge);
        e = e + 1;
    }
    proof {
        assert(spec_similarity_edges(records@).take(ne as int) =~= spec_similarity_edges(
            records@,
        ));
    }
    GraphData { nodes, edges }
}

} // verus!
