use codex_core::graph::EdgeStore;
use codex_core::sync::DocHitCount;
use codex_core::sync::count_hits_per_document;
use codex_core::sync::sync_document_edges;
use codex_core::sync::sync_plan;
use codex_core::vector_index::Neighbor;

fn hit(block: &str, doc: &str, d: u64) -> Neighbor {
    Neighbor { block_id: block.to_string(), document_id: doc.to_string(), dist_sq: d }
}

#[test]
fn hits_are_grouped_by_document_excluding_the_source() {
    let hits = vec![
        hit("b1", "d1", 0),
        hit("b2", "d2", 10),
        hit("b3", "d2", 20),
        hit("b4", "d3", 30),
        hit("b5", "d2", 40),
    ];
    let counts = count_hits_per_document(&hits, &"d1".to_string());
    assert_eq!(counts.len(), 2);
    assert_eq!(counts[0].document_id.as_str(), "d2");
    assert_eq!(counts[0].count, 3);
    assert_eq!(counts[1].document_id.as_str(), "d3");
    assert_eq!(counts[1].count, 1);
}

#[test]
fn plan_is_the_symmetric_difference_with_capped_weights() {
    let doc_counts = vec![
        DocHitCount { document_id: "a".to_string(), count: 3 },
        DocHitCount { document_id: "b".to_string(), count: 25 },
        DocHitCount { document_id: "c".to_string(), count: 1 },
    ];
    let linked = vec!["b".to_string(), "x".to_string()];
    let plan = sync_plan(&"src".to_string(), &doc_counts, &linked);

    // Additions: A \ B, in hit order, weighted by capped hit count.
    assert_eq!(plan.added_edges.len(), 2);
    assert_eq!(plan.added_edges[0].target.as_str(), "a");
    assert_eq!(plan.added_edges[0].weight_tenths, Some(3));
    assert_eq!(plan.added_edges[1].target.as_str(), "c");
    assert_eq!(plan.added_edges[1].weight_tenths, Some(1));
    for e in &plan.added_edges {
        assert_eq!(e.source.as_str(), "src");
        assert_eq!(e.edge_type.as_str(), "document-document");
    }

    // A count above the normalization constant caps at ten tenths.
    let plan_capped = sync_plan(&"src".to_string(), &doc_counts, &Vec::new());
    assert_eq!(plan_capped.added_edges[1].target.as_str(), "b");
    assert_eq!(plan_capped.added_edges[1].weight_tenths, Some(10));

    // Removals: B \ A, with no weight.
    assert_eq!(plan.removed_edges.len(), 1);
    assert_eq!(plan.removed_edges[0].target.as_str(), "x");
    assert_eq!(plan.removed_edges[0].weight_tenths, None);
}

#[test]
fn sync_applies_additions_and_removals() {
    let mut edges = EdgeStore::new();
    // d1 is currently linked to stale, in the incoming direction.
    edges.upsert_edge("stale".to_string(), "d1".to_string(), None, 10);

    let hits = vec![hit("b1", "d1", 0), hit("b2", "d2", 5), hit("b3", "d2", 6)];
    let change = sync_document_edges(&mut edges, &"d1".to_string(), &hits).unwrap();

    assert_eq!(change.added_edges.len(), 1);
    assert_eq!(change.added_edges[0].target.as_str(), "d2");
    assert_eq!(change.added_edges[0].weight_tenths, Some(2));
    assert_eq!(change.removed_edges.len(), 1);
    assert_eq!(change.removed_edges[0].target.as_str(), "stale");

    let related = edges.find_related_documents_bidirectional(&"d1".to_string());
    assert_eq!(related.len(), 1);
    assert_eq!(related[0].document_id.as_str(), "d2");
    assert_eq!(related[0].weight_tenths, 2);
}

#[test]
fn resync_with_unchanged_hits_reports_nothing() {
    let mut edges = EdgeStore::new();
    let hits = vec![hit("b2", "d2", 5), hit("b3", "d3", 6)];
    let first = sync_document_edges(&mut edges, &"d1".to_string(), &hits);
    assert!(first.is_some());
    let before = edges.len();
    // Second pass over an unchanged corpus: a fixed point.
    let second = sync_document_edges(&mut edges, &"d1".to_string(), &hits);
    assert!(second.is_none());
    assert_eq!(edges.len(), before);
}

#[test]
fn sync_leaves_edges_between_other_documents_alone() {
    let mut edges = EdgeStore::new();
    edges.upsert_edge("x".to_string(), "y".to_string(), None, 7);
    let hits = vec![hit("b2", "d2", 5)];
    sync_document_edges(&mut edges, &"d1".to_string(), &hits);
    let related = edges.find_related_documents_bidirectional(&"x".to_string());
    assert_eq!(related.len(), 1);
    assert_eq!(related[0].document_id.as_str(), "y");
    assert_eq!(related[0].weight_tenths, 7);
}

#[test]
fn empty_hits_strip_all_links_of_the_source() {
    let mut edges = EdgeStore::new();
    edges.upsert_edge("d1".to_string(), "d2".to_string(), None, 3);
    edges.upsert_edge("d3".to_string(), "d1".to_string(), None, 4);
    let change = sync_document_edges(&mut edges, &"d1".to_string(), &Vec::new()).unwrap();
    assert!(change.added_edges.is_empty());
    assert_eq!(change.removed_edges.len(), 2);
    assert!(edges.find_related_documents_bidirectional(&"d1".to_string()).is_empty());
}
