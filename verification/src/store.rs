//! An in-memory model of the content store: document and block records,
//! the block upsert rule that queues re-indexing work, and the
//! oldest-pending lookup the scheduler polls.
//!
//! Timestamps are logical clock values supplied by the caller; order keys
//! are unsigned integers that callers derive monotonically from their
//! fractional positions.

use vstd::prelude::*;

verus! {

broadcast use vstd::seq_lib::group_to_multiset_ensures;

/// A block that has never been indexed, or whose content changed since.
pub const INDEXING_PENDING: i16 = 0;

/// A block whose embedding is up to date.
pub const INDEXING_INDEXED: i16 = 1;

/// Reserved for a retry-limiting policy; nothing here sets it.
pub const INDEXING_FAILED: i16 = 2;

/// Documents with this status are hidden from listings and search.
pub const DOCUMENT_STATUS_ARCHIVED: i16 = 99;

/// One content block.
pub struct Block {
    pub id: String,
    pub document_id: String,
    pub content: Option<String>,
    pub order_index: u64,
    pub source_document_id: Option<String>,
    pub indexing_status: i16,
    pub created_at: u64,
    pub updated_at: u64,
}

/// One document record; its blocks live in the block table.
pub struct DocumentRecord {
    pub id: String,
    pub title: Option<String>,
    pub status: i16,
    pub tags: Option<Vec<String>>,
    pub created_at: u64,
    pub updated_at: u64,
}

/// The view of an optional text as an optional character sequence.
pub open spec fn content_view(c: Option<String>) -> Option<Seq<char>> {
    match c {
        Some(s) => Some(s@),
        None => None,
    }
}

/// Whether `b` still needs indexing.
pub open spec fn is_pending(b: Block) -> bool {
    b.indexing_status == INDEXING_PENDING
}

/// The in-memory content store.
pub struct ContentStore {
    pub documents: Vec<DocumentRecord>,
    pub blocks: Vec<Block>,
}

impl ContentStore {
    /// Document and block identities are unique.
    pub open spec fn wf(&self) -> bool {
        &&& forall|i: int, j: int|
            0 <= i < j < self.documents@.len() ==> (#[trigger] self.documents@[i]).id@ != (
            #[trigger] self.documents@[j]).id@
        &&& forall|i: int, j: int|
            0 <= i < j < self.blocks@.len() ==> (#[trigger] self.blocks@[i]).id@ != (
            #[trigger] self.blocks@[j]).id@
    }

    /// Whether a block with identity `id` is stored.
    pub open spec fn contains_block(&self, id: Seq<char>) -> bool {
        exists|i: int| 0 <= i < self.blocks@.len() && (#[trigger] self.blocks@[i]).id@ == id
    }

    /// Whether a document with identity `id` is stored.
    pub open spec fn contains_document(&self, id: Seq<char>) -> bool {
        exists|i: int| 0 <= i < self.documents@.len() && (#[trigger] self.documents@[i]).id@ == id
    }

    /// An empty store.
    pub fn new() -> (r: ContentStore)
        ensures
            r.wf(),
            r.documents@.len() == 0,
            r.blocks@.len() == 0,
    {
        ContentStore { documents: Vec::new(), blocks: Vec::new() }
    }

    /// Insert a document, or update its title, status and tags; an update
    /// bumps the update timestamp and keeps the creation timestamp.
    pub fn upsert_document(
        &mut self,
        id: String,
        title: Option<String>,
        status: i16,
        tags: Option<Vec<String>>,
        now: u64,
    )
        requires
            old(self).wf(),
        ensures
            final(self).wf(),
            final(self).contains_document(id@),
            final(self).blocks@ == old(self).blocks@,
            old(self).contains_document(id@) ==> exists|i: int|
                0 <= i < old(self).documents@.len() && (#[trigger] old(self).documents@[i]).id@
                    == id@ && final(self).documents@ == old(self).documents@.update(
                    i,
                    (DocumentRecord {
                        id,
                        title,
                        status,
                        tags,
                        created_at: old(self).documents@[i].created_at,
                        updated_at: now,
                    }),
                ),
            !old(self).contains_document(id@) ==> final(self).documents@ == old(
                self,
            ).documents@.push(
                (DocumentRecord { id, title, status, tags, created_at: now, updated_at: now }),
            ),
    {
        let n: usize = self.documents.len();
        let mut i: usize = 0;
        while i < n
            invariant
                i <= n,
                n == self.documents@.len(),
                self == old(self),
                old(self).wf(),
                forall|j: int| 0 <= j < i ==> (#[trigger] self.documents@[j]).id@ != id@,
            decreases n - i,
        {
            if self.documents[i].id.eq(&id) {
                let created = self.documents[i].created_at;
                let record = DocumentRecord {
                    id,
                    title,
                    status,
                    tags,
                    created_at: created,
                    updated_at: now,
                };
                self.documents.set(i, record);
                proof {
                    assert(self.documents@[i as int].id@ == id@);
                    assert(self.contains_document(id@));
                    assert forall|a: int, b: int|
                        0 <= a < b < self.documents@.len() implies (
                    #[trigger] self.documents@[a]).id@ != (#[trigger] self.documents@[b]).id@ by {
                        assert(old(self).documents@[a].id@ != old(self).documents@[b].id@);
                    }
                }
                return ;
            }
            i = i + 1;
        }
        proof {
            if old(self).contains_document(id@) {
                let j = choose|j: int|
                    0 <= j < old(self).documents@.len() && (#[trigger] old(self).documents@[j])
                        .id@ == id@;
                assert(false);
            }
        }
        let record = DocumentRecord { id, title, status, tags, created_at: now, updated_at: now };
        self.documents.push(record);
        proof {
            assert(self.documents@.last().id@ == id@);
        }
    }

    /// Insert a block, or update it. When the incoming content differs from
    /// the stored content, the block becomes pending again and its update
    /// timestamp moves to `now`; when it is unchanged, the indexing status
    /// and the update timestamp stay untouched. Order key and provenance
    /// are always updated; the owning document of a stored block never
    /// changes. This is the only path by which new work reaches the
    /// scheduler.
    pub fn upsert_block(
        &mut self,
        id: String,
        document_id: String,
        content: Option<String>,
        order_index: u64,
        source_document_id: Option<String>,
        indexing_status: i16,
        now: u64,
    )
        requires
            old(self).wf(),
        ensures
            final(self).wf(),
            final(self).contains_block(id@),
            final(self).documents@ == old(self).documents@,
            old(self).contains_block(id@) ==> exists|i: int|
                0 <= i < old(self).blocks@.len() && (#[trigger] old(self).blocks@[i]).id@ == id@
                    && final(self).blocks@ == old(self).blocks@.update(
                    i,
                    (Block {
                        id,
                        document_id: old(self).blocks@[i].document_id,
                        content,
                        order_index,
                        source_document_id,
                        indexing_status: if content_view(old(self).blocks@[i].content)
                            == content_view(content) {
                            old(self).blocks@[i].indexing_status
                        } else {
                            INDEXING_PENDING
                        },
                        created_at: old(self).blocks@[i].created_at,
                        updated_at: if content_view(old(self).blocks@[i].content) == content_view(
                            content,
                        ) {
                            old(self).blocks@[i].updated_at
                        } else {
                            now
                        },
                    }),
                ),
            !old(self).contains_block(id@) ==> final(self).blocks@ == old(self).blocks@.push(
                (Block {
                    id,
                    document_id,
                    content,
                    order_index,
                    source_document_id,
                    indexing_status,
                    created_at: now,
                    updated_at: now,
                }),
            ),
    {
        let n: usize = self.blocks.len();
        let mut i: usize = 0;
        while i < n
            invariant
                i <= n,
                n == self.blocks@.len(),
                self == old(self),
                old(self).wf(),
                forall|j: int| 0 <= j < i ==> (#[trigger] self.blocks@[j]).id@ != id@,
            decreases n - i,
        {
            if self.blocks[i].id.eq(&id) {
                let same = match (&self.blocks[i].content, &content) {
                    (Some(a), Some(b)) => a.eq(b),
                    (None, None) => true,
                    _ => false,
                };
                proof {
                    assert(same == (content_view(old(self).blocks@[i as int].content)
                        == content_view(content)));
                }
                let stored = self.blocks.remove(i);
                let record = Block {
                    id,
                    document_id: stored.document_id,
                    content,
                    order_index,
                    source_document_id,
                    indexing_status: if same {
                        stored.indexing_status
                    } else {
                        INDEXING_PENDING
                    },
                    created_at: stored.created_at,
                    updated_at: if same {
                        stored.updated_at
                    } else {
                        now
                    },
                };
                self.blocks.insert(i, record);
                proof {
                    assert(self.blocks@ =~= old(self).blocks@.update(i as int, record));
                    assert(self.blocks@[i as int].id@ == id@);
                    assert(self.contains_block(id@));
                    assert forall|a: int, b: int|
                        0 <= a < b < self.blocks@.len() implies (#[trigger] self.blocks@[a]).id@
                        != (#[trigger] self.blocks@[b]).id@ by {
                        assert(old(self).blocks@[a].id@ != old(self).blocks@[b].id@);
                    }
                }
                return ;
            }
            i = i + 1;
        }
        proof {
            if old(self).contains_block(id@) {
                let j = choose|j: int|
                    0 <= j < old(self).blocks@.len() && (#[trigger] old(self).blocks@[j]).id@
                        == id@;
                assert(false);
            }
        }
        let record = Block {
            id,
            document_id,
            content,
            order_index,
            source_document_id,
            indexing_status,
            created_at: now,
            updated_at: now,
        };
        self.blocks.push(record);
        proof {
            assert(self.blocks@.last().id@ == id@);
        }
    }

    /// The stored block with identity `id`, if any.
    pub fn find_block_by_id(&self, id: &String) -> (r: Option<&Block>)
        requires
            self.wf(),
        ensures
            match r {
                Some(b) => b.id@ == id@ && exists|i: int|
                    0 <= i < self.blocks@.len() && *b == self.blocks@[i],
                None => !self.contains_block(id@),
            },
    {
        let n: usize = self.blocks.len();
        let mut i: usize = 0;
        while i < n
            invariant
                i <= n,
                n == self.blocks@.len(),
                forall|j: int| 0 <= j < i ==> (#[trigger] self.blocks@[j]).id@ != id@,
            decreases n - i,
        {
            if self.blocks[i].id.eq(id) {
                return Some(&self.blocks[i]);
            }
            i = i + 1;
        }
        None
    }

    /// The stored document with identity `id`, if any.
    pub fn find_document_by_id(&self, id: &String) -> (r: Option<&DocumentRecord>)
        requires
            self.wf(),
        ensures
            match r {
                Some(d) => d.id@ == id@ && exists|i: int|
                    0 <= i < self.documents@.len() && *d == self.documents@[i],
                None => !self.contains_document(id@),
            },
    {
        let n: usize = self.documents.len();
        let mut i: usize = 0;
        while i < n
            invariant
                i <= n,
                n == self.documents@.len(),
                forall|j: int| 0 <= j < i ==> (#[trigger] self.documents@[j]).id@ != id@,
            decreases n - i,
        {
            if self.documents[i].id.eq(id) {
                return Some(&self.documents[i]);
            }
            i = i + 1;
        }
        None
    }

    /// The pending block that has waited longest: the smallest update
    /// timestamp wins, the earliest stored record breaks ties. Nothing is
    /// pending exactly when the result is nothing.
    pub fn find_oldest_pending_block(&self) -> (r: Option<&Block>)
        requires
            self.wf(),
        ensures
            match r {
                Some(b) => exists|i: int|
                    0 <= i < self.blocks@.len() && *b == self.blocks@[i] && is_pending(
                        self.blocks@[i],
                    ) && (forall|j: int|
                        0 <= j < self.blocks@.len() && is_pending(#[trigger] self.blocks@[j])
                            ==> b.updated_at <= self.blocks@[j].updated_at && (
                        self.blocks@[j].updated_at == b.updated_at ==> i <= j)),
                None => forall|j: int|
                    0 <= j < self.blocks@.len() ==> !is_pending(#[trigger] self.blocks@[j]),
            },
    {
        let n: usize = self.blocks.len();
        let mut best: usize = n;
        let mut i: usize = 0;
        while i < n
            invariant
                i <= n,
                n == self.blocks@.len(),
                best <= n,
                best == n ==> forall|j: int|
                    0 <= j < i ==> !is_pending(#[trigger] self.blocks@[j]),
                best < n ==> best < i && is_pending(self.blocks@[best as int]) && (forall|j: int|
                    0 <= j < i && is_pending(#[trigger] self.blocks@[j])
                        ==> self.blocks@[best as int].updated_at <= self.blocks@[j].updated_at && (
                    self.blocks@[j].updated_at == self.blocks@[best as int].updated_at
                        ==> best <= j)),
            decreases n - i,
        {
            if self.blocks[i].indexing_status == INDEXING_PENDING {
                if best == n {
                    best = i;
                } else {
                    if self.blocks[i].updated_at < self.blocks[best].updated_at {
                        best = i;
                    }
                }
            }
            i = i + 1;
        }
        if best < n {
            Some(&self.blocks[best])
        } else {
            None
        }
    }

    /// Set the indexing status of block `id`; a no-op if it is not stored.
    pub fn update_block_indexing_status(&mut self, id: &String, status: i16)
        requires
            old(self).wf(),
        ensures
            final(self).wf(),
            final(self).documents@ == old(self).documents@,
            !old(self).contains_block(id@) ==> final(self).blocks@ == old(self).blocks@,
            old(self).contains_block(id@) ==> exists|i: int|
                0 <= i < old(self).blocks@.len() && (#[trigger] old(self).blocks@[i]).id@ == id@
                    && final(self).blocks@ == old(self).blocks@.update(
                    i,
                    (Block {
                        id: old(self).blocks@[i].id,
                        document_id: old(self).blocks@[i].document_id,
                        content: old(self).blocks@[i].content,
                        order_index: old(self).blocks@[i].order_index,
                        source_document_id: old(self).blocks@[i].source_document_id,
                        indexing_status: status,
                        created_at: old(self).blocks@[i].created_at,
                        updated_at: old(self).blocks@[i].updated_at,
                    }),
                ),
    {
        let n: usize = self.blocks.len();
        let mut i: usize = 0;
        while i < n
            invariant
                i <= n,
                n == self.blocks@.len(),
                self == old(self),
                old(self).wf(),
                forall|j: int| 0 <= j < i ==> (#[trigger] self.blocks@[j]).id@ != id@,
            decreases n - i,
        {
            if self.blocks[i].id.eq(id) {
                let stored = self.blocks.remove(i);
                let record = Block {
                    id: stored.id,
                    document_id: stored.document_id,
                    content: stored.content,
                    order_index: stored.order_index,
                    source_document_id: stored.source_document_id,
                    indexing_status: status,
                    created_at: stored.created_at,
                    updated_at: stored.updated_at,
                };
                self.blocks.insert(i, record);
                proof {
                    assert(self.blocks@ =~= old(self).blocks@.update(i as int, record));
                    assert forall|a: int, b2: int|
                        0 <= a < b2 < self.blocks@.len() implies (#[trigger] self.blocks@[a]).id@
                        != (#[trigger] self.blocks@[b2]).id@ by {
                        assert(old(self).blocks@[a].id@ != old(self).blocks@[b2].id@);
                    }
                }
                return ;
            }
            i = i + 1;
        }
    }

    /// Remove the block with identity `id`; a no-op if it is not stored.
    pub fn delete_block(&mut self, id: &String)
        requires
            old(self).wf(),
        ensures
            final(self).wf(),
            final(self).documents@ == old(self).documents@,
            !final(self).contains_block(id@),
            !old(self).contains_block(id@) ==> final(self).blocks@ == old(self).blocks@,
            old(self).contains_block(id@) ==> exists|i: int|
                0 <= i < old(self).blocks@.len() && (#[trigger] old(self).blocks@[i]).id@ == id@
                    && final(self).blocks@ == old(self).blocks@.remove(i),
    {
        let n: usize = self.blocks.len();
        let mut i: usize = 0;
        while i < n
            invariant
                i <= n,
                n == self.blocks@.len(),
                self == old(self),
                old(self).wf(),
                forall|j: int| 0 <= j < i ==> (#[trigger] self.blocks@[j]).id@ != id@,
            decreases n - i,
        {
            if self.blocks[i].id.eq(id) {
                self.blocks.remove(i);
                proof {
                    assert forall|a: int, b: int|
                        0 <= a < b < self.blocks@.len() implies (#[trigger] self.blocks@[a]).id@
                        != (#[trigger] self.blocks@[b]).id@ by {
                        let a0 = if a < i {
                            a
                        } else {
                            a + 1
                        };
                        let b0 = if b < i {
                            b
                        } else {
                            b + 1
                        };
                        assert(self.blocks@[a] == old(self).blocks@[a0]);
                        assert(self.blocks@[b] == old(self).blocks@[b0]);
                    }
                    assert forall|j: int|
                        0 <= j < self.blocks@.len() implies (#[trigger] self.blocks@[j]).id@
                        != id@ by {
                        let j0 = if j < i {
                            j
                        } else {
                            j + 1
                        };
                        assert(self.blocks@[j] == old(self).blocks@[j0]);
                        if j0 != i {
                            assert(old(self).blocks@[j0].id@ != old(
                                self,
                            ).blocks@[i as int].id@);
                        }
                    }
                }
                return ;
            }
            i = i + 1;
        }
    }

    /// Remove every block owned by document `d`, keeping the others in
    /// order.
    pub fn delete_blocks_by_document_id(&mut self, d: &String)
        requires
            old(self).wf(),
        ensures
            final(self).wf(),
            final(self).documents@ == old(self).documents@,
            final(self).blocks@ == spec_drop_doc_blocks(old(self).blocks@, d@),
            forall|i: int|
                0 <= i < final(self).blocks@.len() ==> (#[trigger] final(self).blocks@[i])
                    .document_id@ != d@,
    {
        let ghost orig = self.blocks@;
        let n: usize = self.blocks.len();
        let mut i: usize = 0;
        let mut j: usize = 0;
        proof {
            assert(orig.take(0) =~= Seq::<Block>::empty());
            assert(orig.skip(0) =~= orig);
            assert(self.blocks@ =~= spec_drop_doc_blocks(orig.take(0), d@) + orig.skip(0));
        }
        while j < n
            invariant
                j <= n,
                n == orig.len(),
                old(self).wf(),
                orig == old(self).blocks@,
                self.documents@ == old(self).documents@,
                self.blocks@ == spec_drop_doc_blocks(orig.take(j as int), d@) + orig.skip(
                    j as int,
                ),
                i == spec_drop_doc_blocks(orig.take(j as int), d@).len(),
                i <= j,
            decreases n - j,
        {
            proof {
                assert(orig.take(j as int + 1).drop_last() =~= orig.take(j as int));
                assert(orig.take(j as int + 1).last() == orig[j as int]);
                assert(self.blocks@.len() == i + (orig.len() - j));
                assert(self.blocks@[i as int] == orig.skip(j as int)[0]);
                assert(orig.skip(j as int)[0] == orig[j as int]);
            }
            if self.blocks[i].document_id.eq(d) {
                self.blocks.remove(i);
                proof {
                    assert(self.blocks@ =~= spec_drop_doc_blocks(orig.take(j as int + 1), d@)
                        + orig.skip(j as int + 1));
                }
            } else {
                i = i + 1;
                proof {
                    assert(self.blocks@ =~= spec_drop_doc_blocks(orig.take(j as int + 1), d@)
                        + orig.skip(j as int + 1));
                }
            }
            j = j + 1;
        }
        proof {
            assert(orig.take(n as int) =~= orig);
            assert(orig.skip(n as int) =~= Seq::<Block>::empty());
            assert(self.blocks@ =~= spec_drop_doc_blocks(orig, d@));
            lemma_drop_doc_blocks_complete(orig, d@);
            assert forall|x: int, y: int|
                0 <= x < y < self.blocks@.len() implies (#[trigger] self.blocks@[x]).id@ != (
            #[trigger] self.blocks@[y]).id@ by {
                lemma_drop_doc_blocks_distinct_origin(orig, d@, x, y);
                let (x0, y0) = choose|x0: int, y0: int|
                    0 <= x0 < y0 < orig.len() && orig[x0] == spec_drop_doc_blocks(orig, d@)[x]
                        && orig[y0] == spec_drop_doc_blocks(orig, d@)[y];
                assert(orig[x0].id@ != orig[y0].id@);
            }
        }
    }

    /// Remove the document record with identity `id`; its blocks are
    /// removed separately. A no-op if it is not stored.
    pub fn delete_document(&mut self, id: &String)
        requires
            old(self).wf(),
        ensures
            final(self).wf(),
            final(self).blocks@ == old(self).blocks@,
            !final(self).contains_document(id@),
            !old(self).contains_document(id@) ==> final(self).documents@ == old(self).documents@,
            old(self).contains_document(id@) ==> exists|i: int|
                0 <= i < old(self).documents@.len() && (#[trigger] old(self).documents@[i]).id@
                    == id@ && final(self).documents@ == old(self).documents@.remove(i),
    {
        let n: usize = self.documents.len();
        let mut i: usize = 0;
        while i < n
            invariant
                i <= n,
                n == self.documents@.len(),
                self == old(self),
                old(self).wf(),
                forall|j: int| 0 <= j < i ==> (#[trigger] self.documents@[j]).id@ != id@,
            decreases n - i,
        {
            if self.documents[i].id.eq(id) {
                self.documents.remove(i);
                proof {
                    assert forall|a: int, b: int|
                        0 <= a < b < self.documents@.len() implies (
                    #[trigger] self.documents@[a]).id@ != (#[trigger] self.documents@[b]).id@ by {
                        let a0 = if a < i {
                            a
                        } else {
                            a + 1
                        };
                        let b0 = if b < i {
                            b
                        } else {
                            b + 1
                        };
                        assert(self.documents@[a] == old(self).documents@[a0]);
                        assert(self.documents@[b] == old(self).documents@[b0]);
                    }
                    assert forall|j: int|
                        0 <= j < self.documents@.len() implies (#[trigger] self.documents@[j])
                        .id@ != id@ by {
                        let j0 = if j < i {
                            j
                        } else {
                            j + 1
                        };
                        assert(self.documents@[j] == old(self).documents@[j0]);
                        if j0 != i {
                            assert(old(self).documents@[j0].id@ != old(
                                self,
                            ).documents@[i as int].id@);
                        }
                    }
                }
                return ;
            }
            i = i + 1;
        }
    }


    /// The blocks of document `d`, ordered by their position keys; equal
    /// keys keep store order.
    pub fn find_blocks_by_document_id<'a>(&'a self, d: &String) -> (r: Vec<&'a Block>)
        ensures
            r@.map_values(|b: &Block| *b).to_multiset() == spec_doc_blocks(
                self.blocks@,
                d@,
            ).to_multiset(),
            forall|x: int, y: int|
                0 <= x < y < r@.len() ==> (#[trigger] r@[x]).order_index <= (
                #[trigger] r@[y]).order_index,
    {
        let mut out: Vec<&Block> = Vec::new();
        let n: usize = self.blocks.len();
        let mut i: usize = 0;
        proof {
            assert(self.blocks@.take(0) =~= Seq::<Block>::empty());
        }
        while i < n
            invariant
                i <= n,
                n == self.blocks@.len(),
                out@.map_values(|b: &Block| *b) == spec_doc_blocks(
                    self.blocks@.take(i as int),
                    d@,
                ),
            decreases n - i,
        {
            proof {
                assert(self.blocks@.take(i as int + 1).drop_last() =~= self.blocks@.take(
                    i as int,
                ));
                assert(self.blocks@.take(i as int + 1).last() == self.blocks@[i as int]);
            }
            if self.blocks[i].document_id.eq(d) {
                let b: &Block = &self.blocks[i];
                proof {
                    assert((out@.push(b)).map_values(|x: &Block| *x) =~= out@.map_values(
                        |x: &Block| *x,
                    ).push(*b));
                }
                out.push(b);
            }
            i = i + 1;
        }
        proof {
            assert(self.blocks@.take(n as int) =~= self.blocks@);
        }
        sort_block_refs(&mut out);
        out
    }

    /// The listing of documents: archived ones hidden, fleeting before
    /// permanent, freshest first within a status, and the page given by
    /// `offset` and `limit` cut out of that order.
    pub fn find_documents<'a>(&'a self, limit: usize, offset: usize) -> (r: Vec<
        &'a DocumentRecord,
    >)
        ensures
            exists|arranged: Seq<DocumentRecord>|
                arranged.to_multiset() == spec_active_docs(self.documents@).to_multiset() && (
                forall|x: int, y: int|
                    0 <= x < y < arranged.len() ==> listing_before(
                        #[trigger] arranged[x],
                        #[trigger] arranged[y],
                    )) && r@.map_values(|d: &DocumentRecord| *d) == arranged.subrange(
                    if offset as int <= arranged.len() {
                        offset as int
                    } else {
                        arranged.len() as int
                    },
                    if offset as int + limit as int <= arranged.len() {
                        offset as int + limit as int
                    } else {
                        arranged.len() as int
                    },
                ),
    {
        let mut active: Vec<&DocumentRecord> = Vec::new();
        let n: usize = self.documents.len();
        let mut i: usize = 0;
        proof {
            assert(self.documents@.take(0) =~= Seq::<DocumentRecord>::empty());
        }
        while i < n
            invariant
                i <= n,
                n == self.documents@.len(),
                active@.map_values(|d: &DocumentRecord| *d) == spec_active_docs(
                    self.documents@.take(i as int),
                ),
            decreases n - i,
        {
            proof {
                assert(self.documents@.take(i as int + 1).drop_last() =~= self.documents@.take(
                    i as int,
                ));
                assert(self.documents@.take(i as int + 1).last() == self.documents@[i as int]);
            }
            if self.documents[i].status != DOCUMENT_STATUS_ARCHIVED {
                let d: &DocumentRecord = &self.documents[i];
                proof {
                    assert((active@.push(d)).map_values(|x: &DocumentRecord| *x) =~= active@
                        .map_values(|x: &DocumentRecord| *x).push(*d));
                }
                active.push(d);
            }
            i = i + 1;
        }
        proof {
            assert(self.documents@.take(n as int) =~= self.documents@);
        }
        sort_doc_refs(&mut active);
        let ghost arranged = active@.map_values(|d: &DocumentRecord| *d);
        let total: usize = active.len();
        let start: usize = if offset <= total {
            offset
        } else {
            total
        };
        let end: usize = if limit <= total - start {
            start + limit
        } else {
            total
        };
        let mut page: Vec<&DocumentRecord> = Vec::new();
        let mut k: usize = start;
        while k < end
            invariant
                start <= k <= end,
                end <= total,
                total == active@.len(),
                arranged == active@.map_values(|d: &DocumentRecord| *d),
                page@.map_values(|d: &DocumentRecord| *d) == arranged.subrange(
                    start as int,
                    k as int,
                ),
            decreases end - k,
        {
            let d: &DocumentRecord = active[k];
            proof {
                assert((page@.push(d)).map_values(|x: &DocumentRecord| *x) =~= page@.map_values(
                    |x: &DocumentRecord| *x,
                ).push(*d));
                assert(arranged.subrange(start as int, k as int + 1) =~= arranged.subrange(
                    start as int,
                    k as int,
                ).push(arranged[k as int]));
                assert(arranged[k as int] == *active@[k as int]);
            }
            page.push(d);
            k = k + 1;
        }
        proof {
            assert(arranged.subrange(start as int, end as int) =~= page@.map_values(
                |d: &DocumentRecord| *d,
            ));
        }
        page
    }

    /// Mark every block pending again, reporting how many records were
    /// touched.
    pub fn reset_all_indexing_status(&mut self) -> (count: u64)
        requires
            old(self).wf(),
        ensures
            final(self).wf(),
            final(self).documents@ == old(self).documents@,
            count == old(self).blocks@.len() as u64,
            final(self).blocks@.len() == old(self).blocks@.len(),
            forall|i: int|
                0 <= i < final(self).blocks@.len() ==> {
                    let b = #[trigger] final(self).blocks@[i];
                    let o = old(self).blocks@[i];
                    b.id == o.id && b.document_id == o.document_id && b.content == o.content
                        && b.order_index == o.order_index && b.source_document_id
                        == o.source_document_id && b.indexing_status == INDEXING_PENDING
                        && b.created_at == o.created_at && b.updated_at == o.updated_at
                },
    {
        let n: usize = self.blocks.len();
        let count = n as u64;
        let mut i: usize = 0;
        while i < n
            invariant
                i <= n,
                n == self.blocks@.len(),
                old(self).wf(),
                self.documents@ == old(self).documents@,
                self.blocks@.len() == old(self).blocks@.len(),
                forall|j: int|
                    i <= j < self.blocks@.len() ==> #[trigger] self.blocks@[j] == old(
                        self,
                    ).blocks@[j],
                forall|j: int|
                    0 <= j < i ==> {
                        let b = #[trigger] self.blocks@[j];
                        let o = old(self).blocks@[j];
                        b.id == o.id && b.document_id == o.document_id && b.content == o.content
                            && b.order_index == o.order_index && b.source_document_id
                            == o.source_document_id && b.indexing_status == INDEXING_PENDING
                            && b.created_at == o.created_at && b.updated_at == o.updated_at
                    },
            decreases n - i,
        {
            let ghost before = self.blocks@;
            let stored = self.blocks.remove(i);
            let record = Block {
                id: stored.id,
                document_id: stored.document_id,
                content: stored.content,
                order_index: stored.order_index,
                source_document_id: stored.source_document_id,
                indexing_status: INDEXING_PENDING,
                created_at: stored.created_at,
                updated_at: stored.updated_at,
            };
            self.blocks.insert(i, record);
            proof {
                assert(self.blocks@ =~= before.update(i as int, record));
            }
            i = i + 1;
        }
        proof {
            assert forall|a: int, b: int|
                0 <= a < b < self.blocks@.len() implies (#[trigger] self.blocks@[a]).id@ != (
            #[trigger] self.blocks@[b]).id@ by {
                assert(self.blocks@[a].id == old(self).blocks@[a].id);
                assert(self.blocks@[b].id == old(self).blocks@[b].id);
                assert(old(self).blocks@[a].id@ != old(self).blocks@[b].id@);
            }
        }
        count
    }
}

/// `blocks` without those owned by document `d`, order preserved.
pub open spec fn spec_drop_doc_blocks(blocks: Seq<Block>, d: Seq<char>) -> Seq<Block>
    decreases blocks.len(),
{
    if blocks.len() == 0 {
        Seq::empty()
    } else {
        let prev = spec_drop_doc_blocks(blocks.drop_last(), d);
        if blocks.last().document_id@ == d {
            prev
        } else {
            prev.push(blocks.last())
        }
    }
}

/// No surviving block belongs to the document.
proof fn lemma_drop_doc_blocks_complete(blocks: Seq<Block>, d: Seq<char>)
    ensures
        forall|i: int|
            0 <= i < spec_drop_doc_blocks(blocks, d).len() ==> (#[trigger] spec_drop_doc_blocks(
                blocks,
                d,
            )[i]).document_id@ != d,
    decreases blocks.len(),
{
    if blocks.len() > 0 {
        lemma_drop_doc_blocks_complete(blocks.drop_last(), d);
        let out = spec_drop_doc_blocks(blocks, d);
        let prev = spec_drop_doc_blocks(blocks.drop_last(), d);
        assert forall|i: int| 0 <= i < out.len() implies (#[trigger] out[i]).document_id@
            != d by {
            if i < prev.len() {
                assert(out[i] == prev[i]);
            } else {
                assert(out[i] == blocks.last());
            }
        }
    }
}

/// Two surviving positions come from two distinct original positions, in
/// the same order.
proof fn lemma_drop_doc_blocks_distinct_origin(blocks: Seq<Block>, d: Seq<char>, x: int, y: int)
    requires
        0 <= x < y < spec_drop_doc_blocks(blocks, d).len(),
    ensures
        exists|x0: int, y0: int|
            0 <= x0 < y0 < blocks.len() && blocks[x0] == spec_drop_doc_blocks(blocks, d)[x]
                && blocks[y0] == spec_drop_doc_blocks(blocks, d)[y],
    decreases blocks.len(),
{
    let out = spec_drop_doc_blocks(blocks, d);
    let prev = spec_drop_doc_blocks(blocks.drop_last(), d);
    if blocks.last().document_id@ != d && y == prev.len() {
        lemma_drop_doc_blocks_origin(blocks.drop_last(), d, x);
        let x0 = choose|x0: int|
            0 <= x0 < blocks.drop_last().len() && blocks.drop_last()[x0] == prev[x];
        assert(blocks[x0] == out[x]);
        assert(blocks[blocks.len() - 1] == out[y]);
    } else {
        lemma_drop_doc_blocks_distinct_origin(blocks.drop_last(), d, x, y);
        let (x0, y0) = choose|x0: int, y0: int|
            0 <= x0 < y0 < blocks.drop_last().len() && blocks.drop_last()[x0] == prev[x]
                && blocks.drop_last()[y0] == prev[y];
        assert(blocks[x0] == out[x]);
        assert(blocks[y0] == out[y]);
    }
}

/// Every surviving block comes from the original sequence.
proof fn lemma_drop_doc_blocks_origin(blocks: Seq<Block>, d: Seq<char>, i: int)
    requires
        0 <= i < spec_drop_doc_blocks(blocks, d).len(),
    ensures
        exists|i0: int|
            0 <= i0 < blocks.len() && blocks[i0] == spec_drop_doc_blocks(blocks, d)[i],
    decreases blocks.len(),
{
    let out = spec_drop_doc_blocks(blocks, d);
    let prev = spec_drop_doc_blocks(blocks.drop_last(), d);
    if blocks.last().document_id@ != d && i == prev.len() {
        assert(blocks[blocks.len() - 1] == out[i]);
    } else {
        lemma_drop_doc_blocks_origin(blocks.drop_last(), d, i);
        let i0 = choose|i0: int|
            0 <= i0 < blocks.drop_last().len() && blocks.drop_last()[i0] == prev[i];
        assert(blocks[i0] == out[i]);
    }
}

/// The blocks of document `d`, in store order.
pub open spec fn spec_doc_blocks(blocks: Seq<Block>, d: Seq<char>) -> Seq<Block>
    decreases blocks.len(),
{
    if blocks.len() == 0 {
        Seq::empty()
    } else {
        let prev = spec_doc_blocks(blocks.drop_last(), d);
        if blocks.last().document_id@ == d {
            prev.push(blocks.last())
        } else {
            prev
        }
    }
}

/// The document records that listings show: everything not archived, in
/// store order.
pub open spec fn spec_active_docs(docs: Seq<DocumentRecord>) -> Seq<DocumentRecord>
    decreases docs.len(),
{
    if docs.len() == 0 {
        Seq::empty()
    } else {
        let prev = spec_active_docs(docs.drop_last());
        if docs.last().status != DOCUMENT_STATUS_ARCHIVED {
            prev.push(docs.last())
        } else {
            prev
        }
    }
}

/// The listing order: fleeting before permanent, and freshest first
/// within a status.
pub open spec fn listing_before(a: DocumentRecord, b: DocumentRecord) -> bool {
    a.status < b.status || (a.status == b.status && a.updated_at >= b.updated_at)
}

/// Order block references by ascending position key; the blocks are
/// preserved as a multiset.
fn sort_block_refs(v: &mut Vec<&Block>)
    ensures
        final(v)@.len() == old(v)@.len(),
        final(v)@.map_values(|b: &Block| *b).to_multiset() == old(v)@.map_values(
            |b: &Block| *b,
        ).to_multiset(),
        forall|x: int, y: int|
            0 <= x < y < final(v)@.len() ==> (#[trigger] final(v)@[x]).order_index <= (
            #[trigger] final(v)@[y]).order_index,
{
    let n: usize = v.len();
    let mut i: usize = 1;
    while i < n
        invariant
            1 <= i,
            i <= n || n <= 1,
            n == v@.len(),
            v@.map_values(|b: &Block| *b).to_multiset() == old(v)@.map_values(
                |b: &Block| *b,
            ).to_multiset(),
            forall|x: int, y: int|
                0 <= x < y < i ==> (#[trigger] v@[x]).order_index <= (
                #[trigger] v@[y]).order_index,
        decreases n - i,
    {
        let ghost before = v@;
        let x = v.remove(i);
        let ghost removed = v@;
        let mut j: usize = 0;
        let mut scanning: bool = true;
        while scanning && j < i
            invariant
                j <= i,
                i < n,
                n == before.len(),
                v@ == removed,
                removed.len() == n - 1,
                forall|a: int| 0 <= a < j ==> (#[trigger] v@[a]).order_index <= x.order_index,
                !scanning ==> j < i && v@[j as int].order_index > x.order_index,
            decreases i - j + if scanning {
                1int
            } else {
                0int
            },
        {
            if v[j].order_index <= x.order_index {
                j = j + 1;
            } else {
                scanning = false;
            }
        }
        v.insert(j, x);
        proof {
            assert(before.map_values(|b: &Block| *b).to_multiset() == removed.map_values(
                |b: &Block| *b,
            ).to_multiset().insert(*x)) by {
                assert(removed.map_values(|b: &Block| *b) =~= before.map_values(
                    |b: &Block| *b,
                ).remove(i as int));
                assert(before.map_values(|b: &Block| *b)[i as int] == *x);
                assert(before.map_values(|b: &Block| *b).contains(*x));
                assert(before.map_values(|b: &Block| *b).to_multiset().count(*x) > 0);
            }
            assert(v@.map_values(|b: &Block| *b).to_multiset() == removed.map_values(
                |b: &Block| *b,
            ).to_multiset().insert(*x)) by {
                assert(v@.map_values(|b: &Block| *b) =~= removed.map_values(
                    |b: &Block| *b,
                ).insert(j as int, *x));
            }
            assert forall|a: int, b: int|
                0 <= a < b < i + 1 implies (#[trigger] v@[a]).order_index <= (
            #[trigger] v@[b]).order_index by {
                if a < j && b < j {
                    assert(v@[a] == removed[a]);
                    assert(v@[b] == removed[b]);
                    assert(removed[a] == before[a]);
                    assert(removed[b] == before[b]);
                } else if a < j && b == j {
                    assert(v@[a] == removed[a]);
                } else if a < j && b > j {
                    assert(v@[a] == removed[a]);
                    assert(v@[b] == removed[b - 1]);
                    assert(removed[a] == before[a]);
                    assert(removed[b - 1] == before[b - 1]);
                    assert(before[a].order_index <= before[b - 1].order_index);
                } else if a == j && b > j {
                    assert(v@[b] == removed[b - 1]);
                    assert(removed[b - 1] == before[b - 1]);
                    if j < i {
                        assert(removed[j as int].order_index > x.order_index);
                        assert(removed[j as int] == before[j as int]);
                        assert(before[j as int].order_index <= before[b - 1].order_index);
                    }
                } else {
                    assert(a > j);
                    assert(v@[a] == removed[a - 1]);
                    assert(v@[b] == removed[b - 1]);
                    assert(removed[a - 1] == before[a - 1]);
                    assert(removed[b - 1] == before[b - 1]);
                    assert(before[a - 1].order_index <= before[b - 1].order_index);
                }
            }
        }
        i = i + 1;
    }
}

/// Order document references for the listing; the records are preserved
/// as a multiset.
fn sort_doc_refs(v: &mut Vec<&DocumentRecord>)
    ensures
        final(v)@.len() == old(v)@.len(),
        final(v)@.map_values(|d: &DocumentRecord| *d).to_multiset() == old(v)@.map_values(
            |d: &DocumentRecord| *d,
        ).to_multiset(),
        forall|x: int, y: int|
            0 <= x < y < final(v)@.len() ==> listing_before(
                *(#[trigger] final(v)@[x]),
                *(#[trigger] final(v)@[y]),
            ),
{
    let n: usize = v.len();
    let mut i: usize = 1;
    while i < n
        invariant
            1 <= i,
            i <= n || n <= 1,
            n == v@.len(),
            v@.map_values(|d: &DocumentRecord| *d).to_multiset() == old(v)@.map_values(
                |d: &DocumentRecord| *d,
            ).to_multiset(),
            forall|x: int, y: int|
                0 <= x < y < i ==> listing_before(
                    *(#[trigger] v@[x]),
                    *(#[trigger] v@[y]),
                ),
        decreases n - i,
    {
        let ghost before = v@;
        let x = v.remove(i);
        let ghost removed = v@;
        let mut j: usize = 0;
        let mut scanning: bool = true;
        while scanning && j < i
            invariant
                j <= i,
                i < n,
                n == before.len(),
                v@ == removed,
                removed.len() == n - 1,
                forall|a: int| 0 <= a < j ==> listing_before(*(#[trigger] v@[a]), *x),
                !scanning ==> j < i && !listing_before(*(v@[j as int]), *x),
            decreases i - j + if scanning {
                1int
            } else {
                0int
            },
        {
            let keep_going = v[j].status < x.status || (v[j].status == x.status
                && v[j].updated_at >= x.updated_at);
            if keep_going {
                j = j + 1;
            } else {
                scanning = false;
            }
        }
        v.insert(j, x);
        proof {
            assert(before.map_values(|d: &DocumentRecord| *d).to_multiset() == removed
                .map_values(|d: &DocumentRecord| *d).to_multiset().insert(*x)) by {
                assert(removed.map_values(|d: &DocumentRecord| *d) =~= before.map_values(
                    |d: &DocumentRecord| *d,
                ).remove(i as int));
                assert(before.map_values(|d: &DocumentRecord| *d)[i as int] == *x);
                assert(before.map_values(|d: &DocumentRecord| *d).contains(*x));
                assert(before.map_values(|d: &DocumentRecord| *d).to_multiset().count(*x) > 0);
            }
            assert(v@.map_values(|d: &DocumentRecord| *d).to_multiset() == removed.map_values(
                |d: &DocumentRecord| *d,
            ).to_multiset().insert(*x)) by {
                assert(v@.map_values(|d: &DocumentRecord| *d) =~= removed.map_values(
                    |d: &DocumentRecord| *d,
                ).insert(j as int, *x));
            }
            assert forall|a: int, b: int|
                0 <= a < b < i + 1 implies listing_before(
                *(#[trigger] v@[a]),
                *(#[trigger] v@[b]),
            ) by {
                if a < j && b < j {
                    assert(v@[a] == removed[a]);
                    assert(v@[b] == removed[b]);
                    assert(removed[a] == before[a]);
                    assert(removed[b] == before[b]);
                } else if a < j && b == j {
                    assert(v@[a] == removed[a]);
                } else if a < j && b > j {
                    assert(v@[a] == removed[a]);
                    assert(v@[b] == removed[b - 1]);
                    assert(removed[a] == before[a]);
                    assert(removed[b - 1] == before[b - 1]);
                    assert(listing_before(*before[a], *before[b - 1]));
                } else if a == j && b > j {
                    assert(v@[b] == removed[b - 1]);
                    assert(removed[b - 1] == before[b - 1]);
                    if j < i {
                        assert(!listing_before(*removed[j as int], *x));
                        assert(removed[j as int] == before[j as int]);
                        assert(listing_before(*before[j as int], *before[b - 1]));
                    }
                } else {
                    assert(a > j);
                    assert(v@[a] == removed[a - 1]);
                    assert(v@[b] == removed[b - 1]);
                    assert(removed[a - 1] == before[a - 1]);
                    assert(removed[b - 1] == before[b - 1]);
                    assert(listing_before(*before[a - 1], *before[b - 1]));
                }
            }
        }
        i = i + 1;
    }
}

} // verus!
