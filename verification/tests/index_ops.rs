use codex_core::EMBEDDING_DIMENSION;
use codex_core::embedding::Embedding;
use codex_core::vector_index::VectorIndex;

fn unit_at(i: usize) -> Embedding {
    let mut coords = vec![0i64; EMBEDDING_DIMENSION];
    coords[i] = 65536;
    Embedding::new(coords).unwrap()
}

#[test]
fn upsert_is_replace_only() {
    let mut index = VectorIndex::new();
    let e1 = unit_at(0);
    let e2 = unit_at(1);
    index.upsert("b1".to_string(), "d1".to_string(), e1.replica());
    assert_eq!(index.len(), 1);
    index.upsert("b1".to_string(), "d1".to_string(), e2.replica());
    assert_eq!(index.len(), 1);

    // A query near the first vector no longer sees the block: only the
    // latest vector counts.
    let close = 1000u64;
    let hits = index.query(&e1, close, 10);
    assert!(hits.is_empty());
    // A query near the second vector does.
    let hits = index.query(&e2, close, 10);
    assert_eq!(hits.len(), 1);
    assert_eq!(hits[0].block_id.as_str(), "b1");
    assert_eq!(hits[0].document_id.as_str(), "d1");
    assert_eq!(hits[0].dist_sq, 0);
}

#[test]
fn query_filters_by_strict_threshold_and_sorts_ascending() {
    let mut index = VectorIndex::new();
    index.upsert("b0".to_string(), "d0".to_string(), unit_at(0));
    index.upsert("b1".to_string(), "d1".to_string(), unit_at(1));
    index.upsert("b2".to_string(), "d2".to_string(), unit_at(2));

    let probe = unit_at(0);
    let orthogonal = 2 * 65536u64 * 65536u64;

    // Strictly-below semantics: a threshold equal to the distance excludes.
    let hits = index.query(&probe, orthogonal, 10);
    assert_eq!(hits.len(), 1);
    assert_eq!(hits[0].block_id.as_str(), "b0");

    let hits = index.query(&probe, orthogonal + 1, 10);
    assert_eq!(hits.len(), 3);
    assert_eq!(hits[0].block_id.as_str(), "b0");
    assert_eq!(hits[0].dist_sq, 0);
    assert!(hits[1].dist_sq <= hits[2].dist_sq);
    assert_eq!(hits[1].dist_sq, orthogonal);
}

#[test]
fn query_honors_the_limit() {
    let mut index = VectorIndex::new();
    for i in 0..6usize {
        index.upsert(format!("b{}", i), format!("d{}", i), unit_at(i));
    }
    let probe = unit_at(0);
    let hits = index.query(&probe, u64::MAX, 2);
    assert_eq!(hits.len(), 2);
    // The closest hit is the probe's own block.
    assert_eq!(hits[0].block_id.as_str(), "b0");
}

#[test]
fn delete_removes_only_the_named_block() {
    let mut index = VectorIndex::new();
    index.upsert("b0".to_string(), "d0".to_string(), unit_at(0));
    index.upsert("b1".to_string(), "d1".to_string(), unit_at(1));
    index.delete(&"b0".to_string());
    assert_eq!(index.len(), 1);
    assert!(index.get(&"b0".to_string()).is_none());
    assert!(index.get(&"b1".to_string()).is_some());
    // Deleting an absent block is a no-op.
    index.delete(&"b0".to_string());
    assert_eq!(index.len(), 1);
}

#[test]
fn clear_reports_the_count() {
    let mut index = VectorIndex::new();
    index.upsert("b0".to_string(), "d0".to_string(), unit_at(0));
    index.upsert("b1".to_string(), "d1".to_string(), unit_at(1));
    assert_eq!(index.clear(), 2);
    assert_eq!(index.len(), 0);
}
