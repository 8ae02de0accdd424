//! The indexing scheduler: a stopped-or-running state machine whose loop is
//! driven from outside, and the work of one tick.
//!
//! Per tick the oldest pending block is fetched; blank content goes
//! straight to indexed, anything else is embedded, upserted into the vector
//! index, reconciled into the similarity graph, and then marked indexed.
//! Ticks are strictly sequential: the loop that the host runs performs one
//! tick at a time, and starting the scheduler a second time does not begin
//! a second loop.

use vstd::prelude::*;

use crate::embedding::Embedding;
use crate::graph::EdgeChangeInfo;
use crate::graph::EdgeStore;
use crate::store::Block;
use crate::store::ContentStore;
use crate::store::INDEXING_INDEXED;
use crate::store::is_pending;
use crate::sync::hit_docs;
use crate::sync::set_of_ids;
use crate::sync::sync_document_edges;
use crate::text::is_blank;
use crate::text::spec_blank;
use crate::vector_index::NeighborView;
use crate::vector_index::VectorIndex;
use crate::vector_index::is_query_result;

verus! {

/// Seconds to sleep when no pending block was found.
pub const IDLE_PAUSE_SECS: u64 = 5;

/// Seconds to sleep after a failed tick, so a persistently failing
/// dependency is not hammered.
pub const ERROR_COOLDOWN_SECS: u64 = 10;

/// Seconds to sleep while the scheduler has no host context yet.
pub const CONTEXT_WAIT_SECS: u64 = 1;

/// The scheduler's own state: stopped or running.
pub struct IndexingScheduler {
    pub running: bool,
}

impl IndexingScheduler {
    /// A stopped scheduler.
    pub fn new() -> (r: IndexingScheduler)
        ensures
            !r.running,
    {
        IndexingScheduler { running: false }
    }

    /// Request the loop to run. Only the call that flips the state from
    /// stopped to running reports that it began the loop; a second start is
    /// absorbed, so at most one loop ever runs.
    pub fn start(&mut self) -> (began: bool)
        ensures
            final(self).running,
            began == !old(self).running,
    {
        let began = !self.running;
        self.running = true;
        began
    }

    /// Request the loop to stop; it is observed between ticks.
    pub fn stop(&mut self)
        ensures
            !final(self).running,
    {
        self.running = false;
    }

    /// Whether the loop should keep ticking.
    pub fn is_running(&self) -> (r: bool)
        ensures
            r == self.running,
    {
        self.running
    }
}

/// How one tick ended, as the loop sees it.
pub enum TickEvent {
    /// A block was processed; poll again at once.
    Processed,
    /// Nothing was pending; sleep the idle interval.
    NoWork,
    /// A store or query failure aborted the tick; sleep the cool-down.
    Failed,
}

/// Seconds the loop sleeps after a tick: nothing after work, the idle
/// pause when the queue was empty, the longer cool-down after a failure.
pub fn pause_after(event: &TickEvent) -> (secs: u64)
    ensures
        secs == match event {
            TickEvent::Processed => 0u64,
            TickEvent::NoWork => IDLE_PAUSE_SECS,
            TickEvent::Failed => ERROR_COOLDOWN_SECS,
        },
{
    match event {
        TickEvent::Processed => 0,
        TickEvent::NoWork => IDLE_PAUSE_SECS,
        TickEvent::Failed => ERROR_COOLDOWN_SECS,
    }
}

/// What the current tick has to do.
pub enum TickTask {
    /// No pending block: idle until the next poll.
    Idle,
    /// The oldest pending block carries no content: mark it indexed
    /// without storing a vector or touching the graph.
    MarkBlank { block_id: String },
    /// The oldest pending block carries content: embed it and complete the
    /// indexing pass.
    Embed { block_id: String, document_id: String, content: String },
}

/// Whether an optional content view is empty or whitespace-only.
pub open spec fn blank_content(c: Option<Seq<char>>) -> bool {
    match c {
        None => true,
        Some(s) => spec_blank(s),
    }
}

/// Whether the block at position `i` is the one the scheduler takes next:
/// pending, stalest, earliest stored among equally stale ones.
pub open spec fn oldest_pending_at(store: ContentStore, i: int) -> bool {
    &&& 0 <= i < store.blocks@.len()
    &&& is_pending(store.blocks@[i])
    &&& forall|j: int|
        0 <= j < store.blocks@.len() && is_pending(#[trigger] store.blocks@[j])
            ==> store.blocks@[i].updated_at <= store.blocks@[j].updated_at && (
        store.blocks@[j].updated_at == store.blocks@[i].updated_at ==> i <= j)
}

/// Decide the current tick's task from the store: nothing when no block is
/// pending, a blank-skip for the oldest pending block without content, and
/// an embedding pass for one with content.
pub fn next_tick_task(store: &ContentStore) -> (t: TickTask)
    requires
        store.wf(),
    ensures
        (t is Idle) <==> (forall|j: int|
            0 <= j < store.blocks@.len() ==> !is_pending(#[trigger] store.blocks@[j])),
        t matches TickTask::MarkBlank { block_id } ==> exists|i: int|
            #[trigger] oldest_pending_at(*store, i) && store.blocks@[i].id@ == block_id@
                && blank_content(crate::store::content_view(store.blocks@[i].content)),
        t matches TickTask::Embed { block_id, document_id, content } ==> exists|i: int|
            #[trigger] oldest_pending_at(*store, i) && store.blocks@[i].id@ == block_id@
                && store.blocks@[i].document_id@ == document_id@
                && crate::store::content_view(store.blocks@[i].content) == Some(content@)
                && !spec_blank(content@),
{
    let found = store.find_oldest_pending_block();
    match found {
        None => {
            proof {
                assert(forall|j: int|
                    0 <= j < store.blocks@.len() ==> !is_pending(#[trigger] store.blocks@[j]));
            }
            TickTask::Idle
        },
        Some(b) => {
            proof {
                let i = choose|i: int|
                    0 <= i < store.blocks@.len() && *b == store.blocks@[i] && is_pending(
                        store.blocks@[i],
                    ) && (forall|j: int|
                        0 <= j < store.blocks@.len() && is_pending(#[trigger] store.blocks@[j])
                            ==> b.updated_at <= store.blocks@[j].updated_at && (
                        store.blocks@[j].updated_at == b.updated_at ==> i <= j));
                assert(oldest_pending_at(*store, i));
                assert(store.blocks@[i] == *b);
            }
            match &b.content {
                None => TickTask::MarkBlank { block_id: b.id.clone() },
                Some(text) => {
                    if is_blank(text.as_str()) {
                        TickTask::MarkBlank { block_id: b.id.clone() }
                    } else {
                        TickTask::Embed {
                            block_id: b.id.clone(),
                            document_id: b.document_id.clone(),
                            content: text.clone(),
                        }
                    }
                },
            }
        },
    }
}

/// Mark a blank block indexed: the terminal path for content that carries
/// no semantic signal. No vector is stored and the graph is untouched.
pub fn complete_blank_block(store: &mut ContentStore, block_id: &String)
    requires
        old(store).wf(),
    ensures
        final(store).wf(),
        final(store).documents@ == old(store).documents@,
        !old(store).contains_block(block_id@) ==> final(store).blocks@ == old(store).blocks@,
        old(store).contains_block(block_id@) ==> exists|i: int|
            0 <= i < old(store).blocks@.len() && (#[trigger] old(store).blocks@[i]).id@
                == block_id@ && final(store).blocks@ == old(store).blocks@.update(
                i,
                (Block {
                    id: old(store).blocks@[i].id,
                    document_id: old(store).blocks@[i].document_id,
                    content: old(store).blocks@[i].content,
                    order_index: old(store).blocks@[i].order_index,
                    source_document_id: old(store).blocks@[i].source_document_id,
                    indexing_status: INDEXING_INDEXED,
                    created_at: old(store).blocks@[i].created_at,
                    updated_at: old(store).blocks@[i].updated_at,
                }),
            ),
{
    store.update_block_indexing_status(block_id, INDEXING_INDEXED);
}

/// Complete one indexing pass for a block whose embedding has been
/// computed: store the vector (replacing any prior one), query the
/// neighbours of the fresh vector, reconcile the owning document's edges,
/// and mark the block indexed. The batched edge change is handed back for
/// notification exactly when the graph changed.
pub fn complete_indexing(
    store: &mut ContentStore,
    index: &mut VectorIndex,
    edges: &mut EdgeStore,
    block_id: &String,
    document_id: &String,
    embedding: Embedding,
    threshold_sq: u64,
    limit: usize,
) -> (r: Option<EdgeChangeInfo>)
    requires
        old(store).wf(),
        old(index).wf(),
        old(edges).wf(),
        embedding.wf(),
    ensures
        final(store).wf(),
        final(index).wf(),
        final(edges).wf(),
        // The index now holds exactly this vector for the block.
        final(index).contains_block(block_id@),
        old(index).contains_block(block_id@) ==> exists|i: int|
            0 <= i < old(index).entries@.len() && (#[trigger] old(index).entries@[i]).block_id@
                == block_id@ && final(index).entries@ == old(index).entries@.update(
                i,
                final(index).entries@[i],
            ) && final(index).entries@[i].block_id@ == block_id@ && final(index).entries@[i].document_id@ == document_id@ && final(index).entries@[i].embedding.coords@ == embedding.coords@,
        !old(index).contains_block(block_id@) ==> final(index).entries@.len() == old(
            index,
        ).entries@.len() + 1 && final(index).entries@ == old(index).entries@.push(
            final(index).entries@.last(),
        ) && final(index).entries@.last().block_id@ == block_id@ && final(index).entries@.last().document_id@ == document_id@ && final(index).entries@.last().embedding.coords@ == embedding.coords@,
        // The block is marked indexed; nothing else in the store moves.
        final(store).documents@ == old(store).documents@,
        !old(store).contains_block(block_id@) ==> final(store).blocks@ == old(store).blocks@,
        old(store).contains_block(block_id@) ==> exists|i: int|
            0 <= i < old(store).blocks@.len() && (#[trigger] old(store).blocks@[i]).id@
                == block_id@ && final(store).blocks@ == old(store).blocks@.update(
                i,
                (Block {
                    id: old(store).blocks@[i].id,
                    document_id: old(store).blocks@[i].document_id,
                    content: old(store).blocks@[i].content,
                    order_index: old(store).blocks@[i].order_index,
                    source_document_id: old(store).blocks@[i].source_document_id,
                    indexing_status: INDEXING_INDEXED,
                    created_at: old(store).blocks@[i].created_at,
                    updated_at: old(store).blocks@[i].updated_at,
                }),
            ),
        // The graph was reconciled against the neighbours of the fresh
        // vector: afterwards the documents linked to the owner are exactly
        // the owners of an admissible top-k answer, edges between other
        // documents are untouched, and a change is reported exactly when
        // the linked set moved.
        exists|hits: Seq<NeighborView>|
            {
                &&& #[trigger] is_query_result(
                    final(index).entries@,
                    embedding.coords@,
                    threshold_sq as int,
                    limit as int,
                    hits,
                )
                &&& forall|x: Seq<char>|
                    final(edges).linked_docs(document_id@).contains(x) == set_of_ids(
                        hit_docs(hits, document_id@),
                    ).contains(x)
                &&& (r.is_none() <==> old(edges).linked_docs(document_id@) =~= set_of_ids(
                    hit_docs(hits, document_id@),
                ))
            },
        forall|x: Seq<char>, y: Seq<char>|
            x != document_id@ && y != document_id@ ==> final(edges).has_edge(x, y) == old(
                edges,
            ).has_edge(x, y),
        r.is_none() ==> *final(edges) == *old(edges),
{
    let probe = embedding.replica();
    proof {
        assert(probe.wf());
    }
    index.upsert(block_id.clone(), document_id.clone(), embedding);
    let hits = index.query(&probe, threshold_sq, limit);
    let ghost hit_views = hits@.map_values(|nb: crate::vector_index::Neighbor| nb@);
    let change = sync_document_edges(edges, document_id, &hits);
    store.update_block_indexing_status(block_id, INDEXING_INDEXED);
    proof {
        assert(is_query_result(
            final(index).entries@,
            embedding.coords@,
            threshold_sq as int,
            limit as int,
            hit_views,
        ));
    }
    change
}

/// Wipe every stored vector and edge and mark every block pending again,
/// so the scheduler re-indexes the whole corpus. Reports how many vectors,
/// edges and blocks were affected, in that order.
pub fn reindex_all(store: &mut ContentStore, index: &mut VectorIndex, edges: &mut EdgeStore) -> (r:
    (u64, u64, u64))
    requires
        old(store).wf(),
        old(index).wf(),
        old(edges).wf(),
    ensures
        final(store).wf(),
        final(index).wf(),
        final(edges).wf(),
        final(index).entries@.len() == 0,
        final(edges).edges@.len() == 0,
        final(store).documents@ == old(store).documents@,
        final(store).blocks@.len() == old(store).blocks@.len(),
        forall|i: int|
            0 <= i < final(store).blocks@.len() ==> is_pending(
                #[trigger] final(store).blocks@[i],
            ),
        r.0 == old(index).entries@.len() as u64,
        r.1 == old(edges).edges@.len() as u64,
        r.2 == old(store).blocks@.len() as u64,
{
    let vectors = index.clear();
    let edge_count = edges.clear();
    let blocks = store.reset_all_indexing_status();
    (vectors, edge_count, blocks)
}

/// Remove one block everywhere it is this pipeline's to remove: its
/// stored vector and its record. Similarity edges belong to documents and
/// are maintained by the synchronizer alone, so the graph is untouched
/// until the owning document is next re-indexed.
pub fn delete_block(store: &mut ContentStore, index: &mut VectorIndex, block_id: &String)
    requires
        old(store).wf(),
        old(index).wf(),
    ensures
        final(store).wf(),
        final(index).wf(),
        !final(store).contains_block(block_id@),
        !final(index).contains_block(block_id@),
        final(store).documents@ == old(store).documents@,
        forall|x: Seq<char>|
            x != block_id@ ==> final(index).contains_block(x) == old(index).contains_block(x),
        !old(store).contains_block(block_id@) ==> final(store).blocks@ == old(store).blocks@,
        old(store).contains_block(block_id@) ==> exists|i: int|
            0 <= i < old(store).blocks@.len() && (#[trigger] old(store).blocks@[i]).id@
                == block_id@ && final(store).blocks@ == old(store).blocks@.remove(i),
{
    index.delete(block_id);
    store.delete_block(block_id);
}

/// Whether some block of document `d` among `blocks` has identity `x`.
pub open spec fn doc_block_with_id(blocks: Seq<Block>, d: Seq<char>, x: Seq<char>) -> bool {
    exists|i: int|
        0 <= i < blocks.len() && (#[trigger] blocks[i]).document_id@ == d && blocks[i].id@ == x
}

/// Whether `x` occurs among the listed identities.
pub open spec fn listed_id(ids: Seq<String>, x: Seq<char>) -> bool {
    exists|k: int| 0 <= k < ids.len() && (#[trigger] ids[k])@ == x
}

/// Remove a document everywhere: the vector of every one of its blocks,
/// its block records, the document record, and every similarity edge
/// incident to the document, in either direction. Vectors of other
/// documents' blocks and edges between other documents are untouched.
#[verifier::rlimit(60)]
pub fn delete_document(
    store: &mut ContentStore,
    index: &mut VectorIndex,
    edges: &mut EdgeStore,
    document_id: &String,
)
    requires
        old(store).wf(),
        old(index).wf(),
        old(edges).wf(),
    ensures
        final(store).wf(),
        final(index).wf(),
        final(edges).wf(),
        !final(store).contains_document(document_id@),
        final(store).blocks@ == crate::store::spec_drop_doc_blocks(
            old(store).blocks@,
            document_id@,
        ),
        forall|i: int|
            0 <= i < final(store).blocks@.len() ==> (#[trigger] final(store).blocks@[i])
                .document_id@ != document_id@,
        forall|x: Seq<char>|
            final(index).contains_block(x) <==> (old(index).contains_block(x)
                && !doc_block_with_id(old(store).blocks@, document_id@, x)),
        forall|x: Seq<char>| !final(edges).has_edge(document_id@, x),
        forall|x: Seq<char>| !final(edges).has_edge(x, document_id@),
        forall|x: Seq<char>, y: Seq<char>|
            x != document_id@ && y != document_id@ ==> final(edges).has_edge(x, y) == old(
                edges,
            ).has_edge(x, y),
{
    let mut block_ids: Vec<String> = Vec::new();
    let n: usize = store.blocks.len();
    let mut i: usize = 0;
    proof {
        assert(store.blocks@.take(0) =~= Seq::<Block>::empty());
    }
    while i < n
        invariant
            i <= n,
            n == store.blocks@.len(),
            *store == *old(store),
            old(store).wf(),
            forall|k: int|
                0 <= k < block_ids@.len() ==> doc_block_with_id(
                    store.blocks@.take(i as int),
                    document_id@,
                    (#[trigger] block_ids@[k])@,
                ),
            forall|i0: int|
                0 <= i0 < i && (#[trigger] store.blocks@[i0]).document_id@ == document_id@
                    ==> listed_id(block_ids@, store.blocks@[i0].id@),
        decreases n - i,
    {
        let ghost prev_ids = block_ids@;
        if store.blocks[i].document_id.eq(document_id) {
            let id = store.blocks[i].id.clone();
            block_ids.push(id);
        }
        proof {
            assert forall|k: int|
                0 <= k < block_ids@.len() implies doc_block_with_id(
                store.blocks@.take(i as int + 1),
                document_id@,
                (#[trigger] block_ids@[k])@,
            ) by {
                if k < prev_ids.len() {
                    assert(block_ids@[k] == prev_ids[k]);
                    let i0 = choose|i0: int|
                        0 <= i0 < store.blocks@.take(i as int).len() && (
                        #[trigger] store.blocks@.take(i as int)[i0]).document_id@
                            == document_id@ && store.blocks@.take(i as int)[i0].id@
                            == prev_ids[k]@;
                    assert(store.blocks@.take(i as int + 1)[i0] == store.blocks@.take(
                        i as int,
                    )[i0]);
                } else {
                    assert(store.blocks@.take(i as int + 1)[i as int] == store.blocks@[
                        i as int]);
                    assert(block_ids@[k]@ == store.blocks@[i as int].id@);
                }
            }
            assert forall|i0: int|
                0 <= i0 < i + 1 && (#[trigger] store.blocks@[i0]).document_id@ == document_id@
                    implies listed_id(block_ids@, store.blocks@[i0].id@) by {
                if i0 == i {
                    assert(block_ids@[block_ids@.len() - 1]@ == store.blocks@[i0].id@);
                } else {
                    let k = choose|k: int|
                        0 <= k < prev_ids.len() && (#[trigger] prev_ids[k])@
                            == store.blocks@[i0].id@;
                    assert(block_ids@[k]@ == store.blocks@[i0].id@);
                }
            }
        }
        i = i + 1;
    }
    proof {
        assert(store.blocks@.take(n as int) =~= store.blocks@);
    }
    let m: usize = block_ids.len();
    let mut j: usize = 0;
    proof {
        assert(block_ids@.take(0) =~= Seq::<String>::empty());
    }
    while j < m
        invariant
            j <= m,
            m == block_ids@.len(),
            *store == *old(store),
            *edges == *old(edges),
            old(store).wf(),
            index.wf(),
            forall|x: Seq<char>|
                #![trigger index.contains_block(x)]
                index.contains_block(x) <==> (old(index).contains_block(x) && !listed_id(
                    block_ids@.take(j as int),
                    x,
                )),
        decreases m - j,
    {
        let ghost before = *index;
        index.delete(&block_ids[j]);
        proof {
            assert(block_ids@.take(j as int + 1).drop_last() =~= block_ids@.take(j as int));
            assert(block_ids@.take(j as int + 1).last() == block_ids@[j as int]);
            assert forall|x: Seq<char>|
                #![trigger index.contains_block(x)]
                index.contains_block(x) <==> (old(index).contains_block(x) && !listed_id(
                    block_ids@.take(j as int + 1),
                    x,
                )) by {
                assert(listed_id(block_ids@.take(j as int + 1), x) == (listed_id(
                    block_ids@.take(j as int),
                    x,
                ) || x == block_ids@[j as int]@)) by {
                    if listed_id(block_ids@.take(j as int + 1), x) {
                        let k = choose|k: int|
                            0 <= k < block_ids@.take(j as int + 1).len() && (
                            #[trigger] block_ids@.take(j as int + 1)[k])@ == x;
                        if k < j {
                            assert(block_ids@.take(j as int)[k]@ == x);
                        }
                    }
                    if listed_id(block_ids@.take(j as int), x) {
                        let k = choose|k: int|
                            0 <= k < block_ids@.take(j as int).len() && (
                            #[trigger] block_ids@.take(j as int)[k])@ == x;
                        assert(block_ids@.take(j as int + 1)[k]@ == x);
                    }
                    if x == block_ids@[j as int]@ {
                        assert(block_ids@.take(j as int + 1)[j as int]@ == x);
                    }
                }
                if x == block_ids@[j as int]@ {
                    assert(!index.contains_block(x));
                } else {
                    assert(index.contains_block(x) == before.contains_block(x));
                }
            }
        }
        j = j + 1;
    }
    proof {
        assert(block_ids@.take(m as int) =~= block_ids@);
    }
    store.delete_blocks_by_document_id(document_id);
    store.delete_document(document_id);
    edges.delete_edges_by_source(document_id);
    edges.delete_edges_by_target(document_id);
    proof {
        assert forall|x: Seq<char>|
            final(index).contains_block(x) <==> (old(index).contains_block(x)
                && !doc_block_with_id(old(store).blocks@, document_id@, x)) by {
            assert(listed_id(block_ids@, x) == doc_block_with_id(
                old(store).blocks@,
                document_id@,
                x,
            )) by {
                if listed_id(block_ids@, x) {
                    let k = choose|k: int|
                        0 <= k < block_ids@.len() && (#[trigger] block_ids@[k])@ == x;
                }
                if doc_block_with_id(old(store).blocks@, document_id@, x) {
                    let i0 = choose|i0: int|
                        0 <= i0 < old(store).blocks@.len() && (#[trigger] old(
                            store,
                        ).blocks@[i0]).document_id@ == document_id@ && old(
                            store,
                        ).blocks@[i0].id@ == x;
                }
            }
        }
    }
}

} // verus!