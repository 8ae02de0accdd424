use codex_core::EMBEDDING_DIMENSION;
use codex_core::embedding::BucketWeight;
use codex_core::embedding::Embedding;
use codex_core::embedding::fallback_profile;
use codex_core::embedding::threshold_sq_from_milli;
use codex_core::graph::EdgeStore;
use codex_core::scheduler::ERROR_COOLDOWN_SECS;
use codex_core::scheduler::IDLE_PAUSE_SECS;
use codex_core::scheduler::IndexingScheduler;
use codex_core::scheduler::TickEvent;
use codex_core::scheduler::TickTask;
use codex_core::scheduler::complete_blank_block;
use codex_core::scheduler::complete_indexing;
use codex_core::scheduler::next_tick_task;
use codex_core::scheduler::pause_after;
use codex_core::scheduler::reindex_all;
use codex_core::store::ContentStore;
use codex_core::store::INDEXING_INDEXED;
use codex_core::store::INDEXING_PENDING;
use codex_core::vector_index::VectorIndex;

/// Turn a bucket profile into the unit-norm fallback vector and quantize
/// it to fixed point.
fn embed(text: &str) -> Embedding {
    let profile: Vec<BucketWeight> = fallback_profile(text);
    let mut v = vec![0.0f32; EMBEDDING_DIMENSION];
    for bw in &profile {
        v[bw.bucket] += (1.0f32 + bw.count as f32).ln();
    }
    let mag: f32 = v.iter().map(|x| x * x).sum::<f32>().sqrt();
    if mag > 0.0 {
        for x in v.iter_mut() {
            *x /= mag;
        }
    }
    let coords: Vec<i64> = v.iter().map(|x| (x * 65536.0f32).round() as i64).collect();
    Embedding::new(coords).unwrap()
}

/// A similarity threshold of one half on the cosine-distance scale equals
/// a full unit on the squared-Euclidean scale of unit vectors.
fn threshold() -> u64 {
    threshold_sq_from_milli(1000)
}

struct World {
    store: ContentStore,
    index: VectorIndex,
    edges: EdgeStore,
}

impl World {
    fn new() -> World {
        World { store: ContentStore::new(), index: VectorIndex::new(), edges: EdgeStore::new() }
    }

    fn put(&mut self, block: &str, doc: &str, content: &str, now: u64) {
        self.store.upsert_block(
            block.to_string(),
            doc.to_string(),
            Some(content.to_string()),
            0,
            None,
            INDEXING_PENDING,
            now,
        );
    }

    /// Run ticks until the queue drains, returning the edge changes seen.
    fn drain(&mut self) -> Vec<(Vec<String>, Vec<String>)> {
        let mut events = Vec::new();
        loop {
            match next_tick_task(&self.store) {
                TickTask::Idle => break,
                TickTask::MarkBlank { block_id } => {
                    complete_blank_block(&mut self.store, &block_id);
                },
                TickTask::Embed { block_id, document_id, content } => {
                    let vector = embed(&content);
                    let change = complete_indexing(
                        &mut self.store,
                        &mut self.index,
                        &mut self.edges,
                        &block_id,
                        &document_id,
                        vector,
                        threshold(),
                        100,
                    );
                    if let Some(info) = change {
                        events.push((
                            info.added_edges.iter().map(|e| e.target.clone()).collect(),
                            info.removed_edges.iter().map(|e| e.target.clone()).collect(),
                        ));
                    }
                },
            }
        }
        events
    }
}

#[test]
fn scenario_similar_documents_become_linked() {
    let mut w = World::new();
    w.put("b1", "d1", "cats are great pets", 1);
    w.put("b2", "d2", "cats make great pets too", 2);
    w.drain();

    let related = w.edges.find_related_documents_bidirectional(&"d1".to_string());
    assert_eq!(related.len(), 1);
    assert_eq!(related[0].document_id.as_str(), "d2");
    assert!(related[0].weight_tenths > 0);
    assert_eq!(w.store.find_block_by_id(&"b1".to_string()).unwrap().indexing_status, 1);
    assert_eq!(w.store.find_block_by_id(&"b2".to_string()).unwrap().indexing_status, 1);
}

#[test]
fn scenario_divergent_edit_removes_the_link() {
    let mut w = World::new();
    w.put("b1", "d1", "cats are great pets", 1);
    w.put("b2", "d2", "cats make great pets too", 2);
    w.drain();
    assert_eq!(w.edges.len(), 1);

    // Edit the second block away from the first and reindex.
    w.put("b2", "d2", "quarterly stock market report", 3);
    assert_eq!(
        w.store.find_block_by_id(&"b2".to_string()).unwrap().indexing_status,
        INDEXING_PENDING
    );
    let events = w.drain();

    assert_eq!(events.len(), 1);
    let (added, removed) = &events[0];
    assert!(added.is_empty());
    assert_eq!(removed.len(), 1);
    assert_eq!(removed[0].as_str(), "d1");
    assert!(w.edges.find_related_documents_bidirectional(&"d1".to_string()).is_empty());
}

#[test]
fn scenario_blank_block_is_indexed_without_vector_or_graph_change() {
    let mut w = World::new();
    w.put("b1", "d1", "   ", 1);
    match next_tick_task(&w.store) {
        TickTask::MarkBlank { block_id } => {
            assert_eq!(block_id.as_str(), "b1");
            complete_blank_block(&mut w.store, &block_id);
        },
        _ => panic!("whitespace content must take the blank path"),
    }
    assert_eq!(
        w.store.find_block_by_id(&"b1".to_string()).unwrap().indexing_status,
        INDEXING_INDEXED
    );
    assert_eq!(w.index.len(), 0);
    assert_eq!(w.edges.len(), 0);
    assert!(matches!(next_tick_task(&w.store), TickTask::Idle));
}

#[test]
fn scenario_failing_block_stays_pending_and_is_retried() {
    let mut w = World::new();
    w.put("b1", "d1", "some content", 1);
    // The store keeps failing mid-tick: the task is fetched but never
    // completed. The block must remain pending and be offered again.
    for _ in 0..3 {
        match next_tick_task(&w.store) {
            TickTask::Embed { block_id, .. } => {
                assert_eq!(block_id.as_str(), "b1");
                assert_eq!(pause_after(&TickEvent::Failed), ERROR_COOLDOWN_SECS);
            },
            _ => panic!("the pending block must be offered"),
        }
        assert_eq!(
            w.store.find_block_by_id(&"b1".to_string()).unwrap().indexing_status,
            INDEXING_PENDING
        );
    }
    // Once the store recovers, the block completes.
    w.drain();
    assert_eq!(
        w.store.find_block_by_id(&"b1".to_string()).unwrap().indexing_status,
        INDEXING_INDEXED
    );
}

#[test]
fn scheduler_start_is_idempotent_and_stop_is_observed() {
    let mut s = IndexingScheduler::new();
    assert!(!s.is_running());
    assert!(s.start());
    assert!(s.is_running());
    // A second start does not begin a second loop.
    assert!(!s.start());
    assert!(s.is_running());
    s.stop();
    assert!(!s.is_running());
}

#[test]
fn pauses_follow_the_tick_outcome() {
    assert_eq!(pause_after(&TickEvent::Processed), 0);
    assert_eq!(pause_after(&TickEvent::NoWork), IDLE_PAUSE_SECS);
    assert_eq!(pause_after(&TickEvent::Failed), ERROR_COOLDOWN_SECS);
}

#[test]
fn reindex_clears_everything_and_queues_all_blocks() {
    let mut w = World::new();
    w.put("b1", "d1", "cats are great pets", 1);
    w.put("b2", "d2", "cats make great pets too", 2);
    w.drain();
    assert!(w.index.len() > 0);

    let (vectors, edges, blocks) = reindex_all(&mut w.store, &mut w.index, &mut w.edges);
    assert_eq!(vectors, 2);
    assert_eq!(edges, 1);
    assert_eq!(blocks, 2);
    assert_eq!(w.index.len(), 0);
    assert_eq!(w.edges.len(), 0);
    assert!(matches!(next_tick_task(&w.store), TickTask::Embed { .. }));

    // Draining again rebuilds the same link.
    w.drain();
    assert_eq!(w.edges.len(), 1);
}

#[test]
fn deleting_a_block_removes_its_vector() {
    let mut w = World::new();
    w.put("b1", "d1", "cats are great pets", 1);
    w.drain();
    assert_eq!(w.index.len(), 1);
    codex_core::scheduler::delete_block(&mut w.store, &mut w.index, &"b1".to_string());
    assert_eq!(w.index.len(), 0);
    assert!(w.store.find_block_by_id(&"b1".to_string()).is_none());
}

#[test]
fn deleting_a_document_removes_all_its_blocks() {
    let mut w = World::new();
    w.store.upsert_document("d1".to_string(), None, 0, None, 0);
    w.put("b1", "d1", "cats are great pets", 1);
    w.put("b2", "d1", "dogs are loyal friends", 2);
    w.drain();
    codex_core::scheduler::delete_document(
        &mut w.store,
        &mut w.index,
        &mut w.edges,
        &"d1".to_string(),
    );
    assert!(w.store.find_document_by_id(&"d1".to_string()).is_none());
    assert!(w.store.find_block_by_id(&"b1".to_string()).is_none());
    assert!(w.store.find_block_by_id(&"b2".to_string()).is_none());
}

#[test]
fn deleting_a_document_clears_its_vectors_and_links() {
    let mut w = World::new();
    w.put("b1", "d1", "cats are great pets", 1);
    w.put("b2", "d2", "cats make great pets too", 2);
    w.drain();
    assert_eq!(w.edges.len(), 1);
    codex_core::scheduler::delete_document(
        &mut w.store,
        &mut w.index,
        &mut w.edges,
        &"d2".to_string(),
    );
    assert!(w.index.get(&"b2".to_string()).is_none());
    assert!(w.index.get(&"b1".to_string()).is_some());
    assert_eq!(w.edges.len(), 0);
    assert!(w.edges.find_related_documents_bidirectional(&"d1".to_string()).is_empty());
}
