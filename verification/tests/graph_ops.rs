use codex_core::document::DocRow;
use codex_core::document::Document;
use codex_core::document::build_graph_data;
use codex_core::document::get_document_graph_info;
use codex_core::graph::EdgeRecord;
use codex_core::graph::EdgeStore;
use codex_core::sync::sync_document_edges;
use codex_core::vector_index::Neighbor;

#[test]
fn edge_upsert_replaces_weight_and_relation() {
    let mut edges = EdgeStore::new();
    edges.upsert_edge("a".to_string(), "b".to_string(), None, 3);
    edges.upsert_edge("a".to_string(), "b".to_string(), Some("similar".to_string()), 9);
    assert_eq!(edges.len(), 1);
    let rows = edges.find_edges_by_source_id(&"a".to_string());
    assert_eq!(rows.len(), 1);
    assert_eq!(rows[0].document_id.as_str(), "b");
    assert_eq!(rows[0].weight_tenths, 9);
}

#[test]
fn opposite_directions_are_distinct_records() {
    let mut edges = EdgeStore::new();
    edges.upsert_edge("a".to_string(), "b".to_string(), None, 1);
    edges.upsert_edge("b".to_string(), "a".to_string(), None, 2);
    assert_eq!(edges.len(), 2);
}

#[test]
fn related_documents_collapse_direction_and_order_by_weight() {
    let mut edges = EdgeStore::new();
    edges.upsert_edge("d".to_string(), "light".to_string(), None, 2);
    edges.upsert_edge("heavy".to_string(), "d".to_string(), None, 8);
    edges.upsert_edge("x".to_string(), "y".to_string(), None, 9);
    let related = edges.find_related_documents_bidirectional(&"d".to_string());
    assert_eq!(related.len(), 2);
    assert_eq!(related[0].document_id.as_str(), "heavy");
    assert_eq!(related[0].weight_tenths, 8);
    assert_eq!(related[1].document_id.as_str(), "light");
    assert_eq!(related[1].weight_tenths, 2);
}

#[test]
fn bidirectional_delete_removes_both_records() {
    let mut edges = EdgeStore::new();
    edges.upsert_edge("a".to_string(), "b".to_string(), None, 1);
    edges.upsert_edge("b".to_string(), "a".to_string(), None, 2);
    edges.upsert_edge("a".to_string(), "c".to_string(), None, 3);
    edges.delete_edge_bidirectional(&"a".to_string(), &"b".to_string());
    assert_eq!(edges.len(), 1);
    let rows = edges.find_edges_by_source_id(&"a".to_string());
    assert_eq!(rows.len(), 1);
    assert_eq!(rows[0].document_id.as_str(), "c");
}

#[test]
fn directed_delete_leaves_the_reverse_record() {
    let mut edges = EdgeStore::new();
    edges.upsert_edge("a".to_string(), "b".to_string(), None, 1);
    edges.upsert_edge("b".to_string(), "a".to_string(), None, 2);
    edges.delete_edge(&"a".to_string(), &"b".to_string());
    assert_eq!(edges.len(), 1);
    assert!(edges.find_edges_by_source_id(&"a".to_string()).is_empty());
    assert_eq!(edges.find_edges_by_source_id(&"b".to_string()).len(), 1);
}

#[test]
fn deletions_by_endpoint_role() {
    let mut edges = EdgeStore::new();
    edges.upsert_edge("a".to_string(), "b".to_string(), None, 1);
    edges.upsert_edge("a".to_string(), "c".to_string(), None, 2);
    edges.upsert_edge("d".to_string(), "a".to_string(), None, 3);
    edges.delete_edges_by_source(&"a".to_string());
    assert_eq!(edges.len(), 1);
    edges.delete_edges_by_target(&"a".to_string());
    assert_eq!(edges.len(), 0);
}

#[test]
fn document_graph_info_builds_tag_neighbourhood() {
    let doc = Document {
        id: "d1".to_string(),
        title: None,
        status: 0,
        tags: Some(vec!["rust".to_string(), "notes".to_string()]),
        created_at: None,
        updated_at: None,
        blocks: Vec::new(),
    };
    let info = get_document_graph_info(&doc);
    assert_eq!(info.document_id.as_str(), "d1");
    assert_eq!(info.document_node.label.as_str(), "Untitled");
    assert_eq!(info.document_node.node_type.as_str(), "document");
    assert_eq!(info.tag_nodes.len(), 2);
    assert_eq!(info.tag_nodes[0].id.as_str(), "tag:rust");
    assert_eq!(info.tag_nodes[0].label.as_str(), "rust");
    assert_eq!(info.tag_edges.len(), 2);
    assert_eq!(info.tag_edges[1].source.as_str(), "d1");
    assert_eq!(info.tag_edges[1].target.as_str(), "tag:notes");
    assert_eq!(info.tag_edges[1].edge_type.as_str(), "document-tag");
}

#[test]
fn graph_data_collects_nodes_tags_and_similarity_links() {
    let docs = vec![
        DocRow {
            id: "d1".to_string(),
            title: Some("First".to_string()),
            tags: Some("shared, solo".to_string()),
        },
        DocRow { id: "d2".to_string(), title: None, tags: Some("shared".to_string()) },
    ];
    let records = vec![EdgeRecord {
        source_id: "d1".to_string(),
        target_id: "d2".to_string(),
        relation_type: Some("similar".to_string()),
        weight_tenths: 4,
    }];
    let data = build_graph_data(&docs, &records);

    // Two document nodes, then the two distinct tags once each.
    assert_eq!(data.nodes.len(), 4);
    assert_eq!(data.nodes[0].id.as_str(), "d1");
    assert_eq!(data.nodes[0].label.as_str(), "First");
    assert_eq!(data.nodes[1].label.as_str(), "Untitled");
    assert_eq!(data.nodes[2].id.as_str(), "tag:shared");
    assert_eq!(data.nodes[2].node_type.as_str(), "tag");
    assert_eq!(data.nodes[3].id.as_str(), "tag:solo");

    // Three tag links, then the weighted similarity link.
    assert_eq!(data.edges.len(), 4);
    assert_eq!(data.edges[0].source.as_str(), "d1");
    assert_eq!(data.edges[0].target.as_str(), "tag:shared");
    assert_eq!(data.edges[2].source.as_str(), "d2");
    assert_eq!(data.edges[3].edge_type.as_str(), "document-document");
    assert_eq!(data.edges[3].weight_tenths, Some(4));
}

#[test]
fn opposite_directions_collapse_to_one_row_with_the_heavier_weight() {
    let mut edges = EdgeStore::new();
    edges.upsert_edge("a".to_string(), "b".to_string(), None, 3);
    edges.upsert_edge("b".to_string(), "a".to_string(), None, 7);
    let related = edges.find_related_documents_bidirectional(&"a".to_string());
    assert_eq!(related.len(), 1);
    assert_eq!(related[0].document_id.as_str(), "b");
    assert_eq!(related[0].weight_tenths, 7);
}

#[test]
fn synchronizer_stores_relation_and_weight_and_keeps_untouched_links() {
    let mut edges = EdgeStore::new();
    // d1 is already linked to "kept", which stays similar; its weight must
    // survive the pass untouched.
    edges.upsert_edge("d1".to_string(), "kept".to_string(), Some("similar".to_string()), 9);
    let hits = vec![
        Neighbor { block_id: "k1".to_string(), document_id: "kept".to_string(), dist_sq: 1 },
        Neighbor { block_id: "n1".to_string(), document_id: "new".to_string(), dist_sq: 2 },
        Neighbor { block_id: "n2".to_string(), document_id: "new".to_string(), dist_sq: 3 },
    ];
    sync_document_edges(&mut edges, &"d1".to_string(), &hits).unwrap();
    let rows = edges.find_edges_by_source_id(&"d1".to_string());
    assert_eq!(rows.len(), 2);
    assert_eq!(rows[0].document_id.as_str(), "kept");
    assert_eq!(rows[0].weight_tenths, 9);
    assert_eq!(rows[1].document_id.as_str(), "new");
    assert_eq!(rows[1].weight_tenths, 2);
}
