//! The vector index: one embedding per block, keyed by block identity, with
//! replace-only upserts and nearest-neighbour queries under a strict
//! distance threshold.

use vstd::prelude::*;

use crate::embedding::Embedding;
use crate::embedding::spec_dist_sq;

verus! {

broadcast use vstd::seq_lib::group_to_multiset_ensures;

/// One stored vector: the owning block, the document that block belongs to,
/// and the embedding itself.
pub struct IndexEntry {
    pub block_id: String,
    pub document_id: String,
    pub embedding: Embedding,
}

/// One query hit, at less than the threshold distance from the probe.
pub struct Neighbor {
    pub block_id: String,
    pub document_id: String,
    pub dist_sq: u64,
}

/// The mathematical content of a [`Neighbor`].
pub struct NeighborView {
    pub block_id: Seq<char>,
    pub document_id: Seq<char>,
    pub dist_sq: int,
}

impl View for Neighbor {
    type V = NeighborView;

    open spec fn view(&self) -> NeighborView {
        NeighborView {
            block_id: self.block_id@,
            document_id: self.document_id@,
            dist_sq: self.dist_sq as int,
        }
    }
}

/// The hits a probe draws from `entries` under `thr`, in entry order: one
/// per stored vector at squared distance strictly below `thr`.
pub open spec fn spec_candidates(entries: Seq<IndexEntry>, probe: Seq<i64>, thr: int) -> Seq<
    NeighborView,
>
    decreases entries.len(),
{
    if entries.len() == 0 {
        Seq::empty()
    } else {
        let prev = spec_candidates(entries.drop_last(), probe, thr);
        let e = entries.last();
        let d = spec_dist_sq(e.embedding.coords@, probe);
        if d < thr {
            prev.push(
                NeighborView { block_id: e.block_id@, document_id: e.document_id@, dist_sq: d },
            )
        } else {
            prev
        }
    }
}

/// Every candidate records the current vector of some stored entry, and its
/// distance is below the threshold.
pub proof fn lemma_candidates_from_entries(entries: Seq<IndexEntry>, probe: Seq<i64>, thr: int)
    ensures
        forall|x: int|
            0 <= x < spec_candidates(entries, probe, thr).len() ==> {
                let c = #[trigger] spec_candidates(entries, probe, thr)[x];
                c.dist_sq < thr && exists|i: int|
                    0 <= i < entries.len() && (#[trigger] entries[i]).block_id@ == c.block_id
                        && entries[i].document_id@ == c.document_id && c.dist_sq == spec_dist_sq(
                        entries[i].embedding.coords@,
                        probe,
                    )
            },
    decreases entries.len(),
{
    if entries.len() > 0 {
        lemma_candidates_from_entries(entries.drop_last(), probe, thr);
        let cs = spec_candidates(entries, probe, thr);
        let prev = spec_candidates(entries.drop_last(), probe, thr);
        assert forall|x: int| 0 <= x < cs.len() implies {
            let c = #[trigger] cs[x];
            c.dist_sq < thr && exists|i: int|
                0 <= i < entries.len() && (#[trigger] entries[i]).block_id@ == c.block_id
                    && entries[i].document_id@ == c.document_id && c.dist_sq == spec_dist_sq(
                    entries[i].embedding.coords@,
                    probe,
                )
        } by {
            if x < prev.len() {
                let c = prev[x];
                let i = choose|i: int|
                    0 <= i < entries.drop_last().len() && (#[trigger] entries.drop_last()[i])
                        .block_id@ == c.block_id && entries.drop_last()[i].document_id@
                        == c.document_id && c.dist_sq == spec_dist_sq(
                        entries.drop_last()[i].embedding.coords@,
                        probe,
                    );
                assert(entries[i] == entries.drop_last()[i]);
            } else {
                assert(entries[entries.len() - 1] == entries.last());
            }
        }
    }
}

/// What the index promises of a query answer `hits` against `entries`:
/// as many of the qualifying hits as the limit `k` admits, sorted by
/// ascending distance, every one below the threshold and drawn from the
/// current entries, forming a prefix of some distance-sorted arrangement of
/// all qualifying hits.
pub open spec fn is_query_result(
    entries: Seq<IndexEntry>,
    probe: Seq<i64>,
    thr: int,
    k: int,
    hits: Seq<NeighborView>,
) -> bool {
    let cands = spec_candidates(entries, probe, thr);
    &&& hits.len() == if k <= cands.len() {
        k
    } else {
        cands.len() as int
    }
    &&& forall|x: int, y: int|
        0 <= x < y < hits.len() ==> (#[trigger] hits[x]).dist_sq <= (#[trigger] hits[y]).dist_sq
    &&& forall|x: int| 0 <= x < hits.len() ==> (#[trigger] hits[x]).dist_sq < thr
    &&& forall|x: int| 0 <= x < hits.len() ==> cands.to_multiset().count(#[trigger] hits[x]) > 0
    &&& exists|full: Seq<NeighborView>|
        full.to_multiset() == cands.to_multiset() && (forall|x: int, y: int|
            0 <= x < y < full.len() ==> (#[trigger] full[x]).dist_sq <= (
            #[trigger] full[y]).dist_sq) && hits == full.take(hits.len() as int)
}

/// The vector index. Holds at most one embedding per block.
pub struct VectorIndex {
    pub entries: Vec<IndexEntry>,
}

impl VectorIndex {
    /// Block identities are unique and every stored embedding is
    /// structurally sound.
    pub open spec fn wf(&self) -> bool {
        &&& forall|i: int, j: int|
            0 <= i < j < self.entries@.len() ==> (#[trigger] self.entries@[i]).block_id@ != (
            #[trigger] self.entries@[j]).block_id@
        &&& forall|i: int|
            0 <= i < self.entries@.len() ==> (#[trigger] self.entries@[i]).embedding.wf()
    }

    /// Whether a vector is stored for block `id`.
    pub open spec fn contains_block(&self, id: Seq<char>) -> bool {
        exists|i: int|
            0 <= i < self.entries@.len() && (#[trigger] self.entries@[i]).block_id@ == id
    }

    /// An empty index.
    pub fn new() -> (r: VectorIndex)
        ensures
            r.wf(),
            r.entries@.len() == 0,
    {
        VectorIndex { entries: Vec::new() }
    }

    /// Number of stored vectors.
    pub fn len(&self) -> (n: usize)
        ensures
            n == self.entries@.len(),
    {
        self.entries.len()
    }

    /// Store `embedding` for `block_id`, replacing any prior vector for the
    /// same block: afterwards the block's single entry holds exactly the new
    /// document and vector, and every other entry is untouched.
    pub fn upsert(&mut self, block_id: String, document_id: String, embedding: Embedding)
        requires
            old(self).wf(),
            embedding.wf(),
        ensures
            final(self).wf(),
            final(self).contains_block(block_id@),
            old(self).contains_block(block_id@) ==> exists|i: int|
                0 <= i < old(self).entries@.len() && (#[trigger] old(self).entries@[i]).block_id@
                    == block_id@ && final(self).entries@ == old(self).entries@.update(
                    i,
                    (IndexEntry { block_id, document_id, embedding }),
                ),
            !old(self).contains_block(block_id@) ==> final(self).entries@ == old(
                self,
            ).entries@.push((IndexEntry { block_id, document_id, embedding })),
    {
        let n: usize = self.entries.len();
        let mut i: usize = 0;
        while i < n
            invariant
                i <= n,
                n == self.entries@.len(),
                self == old(self),
                old(self).wf(),
                embedding.wf(),
                forall|j: int| 0 <= j < i ==> (#[trigger] self.entries@[j]).block_id@ != block_id@,
            decreases n - i,
        {
            if self.entries[i].block_id.eq(&block_id) {
                let entry = IndexEntry { block_id, document_id, embedding };
                self.entries.set(i, entry);
                proof {
                    assert(self.entries@[i as int].block_id@ == block_id@);
                    assert(self.contains_block(block_id@));
                    assert forall|a: int, b: int|
                        0 <= a < b < self.entries@.len() implies (#[trigger] self.entries@[a])
                        .block_id@ != (#[trigger] self.entries@[b]).block_id@ by {
                        if a != i && b != i {
                            assert(old(self).entries@[a].block_id@ != old(
                                self,
                            ).entries@[b].block_id@);
                        } else {
                            assert(old(self).entries@[a].block_id@ != old(
                                self,
                            ).entries@[b].block_id@);
                        }
                    }
                }
                return ;
            }
            i = i + 1;
        }
        proof {
            if old(self).contains_block(block_id@) {
                let j = choose|j: int|
                    0 <= j < old(self).entries@.len() && (#[trigger] old(self).entries@[j])
                        .block_id@ == block_id@;
                assert(false);
            }
        }
        let entry = IndexEntry { block_id, document_id, embedding };
        self.entries.push(entry);
        proof {
            assert(final(self).entries@.last().block_id@ == block_id@);
        }
    }

    /// Remove the vector stored for `block_id`; a no-op if none is stored.
    pub fn delete(&mut self, block_id: &String)
        requires
            old(self).wf(),
        ensures
            final(self).wf(),
            !final(self).contains_block(block_id@),
            !old(self).contains_block(block_id@) ==> final(self).entries@ == old(self).entries@,
            old(self).contains_block(block_id@) ==> exists|i: int|
                0 <= i < old(self).entries@.len() && (#[trigger] old(self).entries@[i]).block_id@
                    == block_id@ && final(self).entries@ == old(self).entries@.remove(i),
            forall|x: Seq<char>|
                x != block_id@ ==> final(self).contains_block(x) == old(self).contains_block(x),
    {
        let n: usize = self.entries.len();
        let mut i: usize = 0;
        while i < n
            invariant
                i <= n,
                n == self.entries@.len(),
                self == old(self),
                old(self).wf(),
                forall|j: int| 0 <= j < i ==> (#[trigger] self.entries@[j]).block_id@ != block_id@,
            decreases n - i,
        {
            if self.entries[i].block_id.eq(block_id) {
                self.entries.remove(i);
                proof {
                    assert forall|a: int, b: int|
                        0 <= a < b < self.entries@.len() implies (#[trigger] self.entries@[a])
                        .block_id@ != (#[trigger] self.entries@[b]).block_id@ by {
                        let a0 = if a < i { a } else { a + 1 };
                        let b0 = if b < i { b } else { b + 1 };
                        assert(self.entries@[a] == old(self).entries@[a0]);
                        assert(self.entries@[b] == old(self).entries@[b0]);
                    }
                    assert forall|j: int|
                        0 <= j < self.entries@.len() implies (#[trigger] self.entries@[j])
                        .block_id@ != block_id@ by {
                        let j0 = if j < i { j } else { j + 1 };
                        assert(self.entries@[j] == old(self).entries@[j0]);
                        if j0 != i {
                            assert(old(self).entries@[j0].block_id@ != old(
                                self,
                            ).entries@[i as int].block_id@);
                        }
                    }
                    assert forall|x: Seq<char>|
                        x != block_id@ implies self.contains_block(x) == old(
                        self,
                    ).contains_block(x) by {
                        if old(self).contains_block(x) {
                            let j0 = choose|j0: int|
                                0 <= j0 < old(self).entries@.len() && (#[trigger] old(
                                    self,
                                ).entries@[j0]).block_id@ == x;
                            assert(j0 != i);
                            let jn = if j0 < i {
                                j0
                            } else {
                                j0 - 1
                            };
                            assert(self.entries@[jn] == old(self).entries@[j0]);
                        }
                        if self.contains_block(x) {
                            let j = choose|j: int|
                                0 <= j < self.entries@.len() && (#[trigger] self.entries@[j])
                                    .block_id@ == x;
                            let j0 = if j < i {
                                j
                            } else {
                                j + 1
                            };
                            assert(old(self).entries@[j0] == self.entries@[j]);
                        }
                    }
                }
                return ;
            }
            i = i + 1;
        }
    }

    /// The entry stored for `block_id`, if any.
    pub fn get(&self, block_id: &String) -> (r: Option<&IndexEntry>)
        requires
            self.wf(),
        ensures
            match r {
                Some(e) => self.contains_block(block_id@) && e.block_id@ == block_id@
                    && exists|i: int|
                    0 <= i < self.entries@.len() && *e == self.entries@[i],
                None => !self.contains_block(block_id@),
            },
    {
        let n: usize = self.entries.len();
        let mut i: usize = 0;
        while i < n
            invariant
                i <= n,
                n == self.entries@.len(),
                forall|j: int| 0 <= j < i ==> (#[trigger] self.entries@[j]).block_id@ != block_id@,
            decreases n - i,
        {
            if self.entries[i].block_id.eq(block_id) {
                return Some(&self.entries[i]);
            }
            i = i + 1;
        }
        None
    }

    /// Drop every stored vector, reporting how many were stored.
    pub fn clear(&mut self) -> (count: u64)
        ensures
            final(self).entries@.len() == 0,
            count == old(self).entries@.len() as u64,
    {
        let count = self.entries.len() as u64;
        self.entries.clear();
        count
    }

    /// All stored vectors at squared distance strictly below `threshold_sq`
    /// from `probe`, closest first, at most `k` of them. When more than `k`
    /// qualify, the returned ones are distance-minimal: the result is a
    /// prefix of some distance-sorted arrangement of all qualifying hits.
    pub fn query(&self, probe: &Embedding, threshold_sq: u64, k: usize) -> (r: Vec<Neighbor>)
        requires
            self.wf(),
            probe.wf(),
        ensures
            ({
                let cands = spec_candidates(self.entries@, probe.coords@, threshold_sq as int);
                &&& r@.len() == if k as int <= cands.len() {
                    k as int
                } else {
                    cands.len() as int
                }
                &&& forall|x: int, y: int|
                    0 <= x < y < r@.len() ==> (#[trigger] r@[x]).dist_sq <= (#[trigger] r@[y]).dist_sq
                &&& forall|x: int| 0 <= x < r@.len() ==> (#[trigger] r@[x]).dist_sq < threshold_sq
                &&& forall|x: int|
                    0 <= x < r@.len() ==> cands.to_multiset().count((#[trigger] r@[x])@) > 0
                &&& exists|full: Seq<NeighborView>|
                    full.to_multiset() == cands.to_multiset() && (forall|x: int, y: int|
                        0 <= x < y < full.len() ==> (#[trigger] full[x]).dist_sq <= (
                        #[trigger] full[y]).dist_sq) && r@.map_values(|nb: Neighbor| nb@)
                        == full.take(r@.len() as int)
                &&& is_query_result(
                    self.entries@,
                    probe.coords@,
                    threshold_sq as int,
                    k as int,
                    r@.map_values(|nb: Neighbor| nb@),
                )
            }),
    {
        let ghost cands = spec_candidates(self.entries@, probe.coords@, threshold_sq as int);
        let mut hits: Vec<Neighbor> = Vec::new();
        let n: usize = self.entries.len();
        let mut i: usize = 0;
        proof {
            assert(self.entries@.take(0) =~= Seq::<IndexEntry>::empty());
        }
        while i < n
            invariant
                i <= n,
                n == self.entries@.len(),
                self.wf(),
                probe.wf(),
                hits@.map_values(|nb: Neighbor| nb@) == spec_candidates(
                    self.entries@.take(i as int),
                    probe.coords@,
                    threshold_sq as int,
                ),
                forall|x: int| 0 <= x < hits@.len() ==> (#[trigger] hits@[x]).dist_sq < threshold_sq,
            decreases n - i,
        {
            proof {
                assert(self.entries@.take(i as int + 1).drop_last() =~= self.entries@.take(
                    i as int,
                ));
                assert(self.entries@.take(i as int + 1).last() == self.entries@[i as int]);
            }
            let d = self.entries[i].embedding.dist_sq(probe);
            if d < threshold_sq {
                let nb = Neighbor {
                    block_id: self.entries[i].block_id.clone(),
                    document_id: self.entries[i].document_id.clone(),
                    dist_sq: d,
                };
                proof {
                    assert((hits@.push(nb)).map_values(|x: Neighbor| x@) =~= hits@.map_values(
                        |x: Neighbor| x@,
                    ).push(nb@));
                }
                hits.push(nb);
            }
            i = i + 1;
        }
        proof {
            assert(self.entries@.take(n as int) =~= self.entries@);
        }
        sort_neighbors(&mut hits);
        let ghost full = hits@.map_values(|nb: Neighbor| nb@);
        let m: usize = hits.len();
        proof {
            assert(full.len() == cands.len());
            assert forall|x: int, y: int| 0 <= x < y < full.len() implies (#[trigger] full[x])
                .dist_sq <= (#[trigger] full[y]).dist_sq by {
                assert(full[x] == hits@[x]@);
                assert(full[y] == hits@[y]@);
            }
        }
        if m > k {
            hits.truncate(k);
            proof {
                assert(hits@.map_values(|nb: Neighbor| nb@) =~= full.take(hits@.len() as int));
            }
        } else {
            proof {
                assert(hits@.map_values(|nb: Neighbor| nb@) =~= full.take(hits@.len() as int));
            }
        }
        proof {
            assert forall|x: int| 0 <= x < hits@.len() implies cands.to_multiset().count(
                (#[trigger] hits@[x])@,
            ) > 0 by {
                assert(hits@.map_values(|nb: Neighbor| nb@)[x] == hits@[x]@);
                assert(full[x] == hits@[x]@);
                assert(full.to_multiset().count(full[x]) > 0);
            }
            let mapped = hits@.map_values(|nb: Neighbor| nb@);
            assert forall|x: int, y: int| 0 <= x < y < mapped.len() implies (
            #[trigger] mapped[x]).dist_sq <= (#[trigger] mapped[y]).dist_sq by {
                assert(mapped[x] == hits@[x]@);
                assert(mapped[y] == hits@[y]@);
            }
            assert forall|x: int| 0 <= x < mapped.len() implies (#[trigger] mapped[x]).dist_sq
                < threshold_sq as int by {
                assert(mapped[x] == hits@[x]@);
            }
            assert forall|x: int| 0 <= x < mapped.len() implies cands.to_multiset().count(
                #[trigger] mapped[x],
            ) > 0 by {
                assert(mapped[x] == hits@[x]@);
            }
        }
        hits
    }
}

/// Order `v` by ascending squared distance; the hits themselves are
/// preserved as a multiset of views.
fn sort_neighbors(v: &mut Vec<Neighbor>)
    ensures
        final(v)@.len() == old(v)@.len(),
        final(v)@.map_values(|nb: Neighbor| nb@).to_multiset() == old(v)@.map_values(
            |nb: Neighbor| nb@,
        ).to_multiset(),
        forall|x: int, y: int|
            0 <= x < y < final(v)@.len() ==> (#[trigger] final(v)@[x]).dist_sq <= (
            #[trigger] final(v)@[y]).dist_sq,
        forall|x: int|
            0 <= x < final(v)@.len() ==> final(v)@.map_values(|nb: Neighbor| nb@)[x] == (
            #[trigger] final(v)@[x])@,
{
    let n: usize = v.len();
    let mut i: usize = 1;
    while i < n
        invariant
            1 <= i,
            i <= n || n <= 1,
            n == v@.len(),
            v@.map_values(|nb: Neighbor| nb@).to_multiset() == old(v)@.map_values(
                |nb: Neighbor| nb@,
            ).to_multiset(),
            forall|x: int, y: int|
                0 <= x < y < i ==> (#[trigger] v@[x]).dist_sq <= (#[trigger] v@[y]).dist_sq,
        decreases n - i,
    {
        let ghost before = v@;
        let x = v.remove(i);
        let ghost removed = v@;
        let mut j: usize = 0;
        let mut scanning: bool = true;
        while scanning && j < i
            invariant
                j <= i,
                i < n,
                n == before.len(),
                v@ == removed,
                removed.len() == n - 1,
                forall|a: int| 0 <= a < j ==> (#[trigger] v@[a]).dist_sq <= x.dist_sq,
                !scanning ==> j < i && v@[j as int].dist_sq > x.dist_sq,
            decreases i - j + if scanning {
                1int
            } else {
                0int
            },
        {
            if v[j].dist_sq <= x.dist_sq {
                j = j + 1;
            } else {
                scanning = false;
            }
        }
        v.insert(j, x);
        proof {
            assert(before.map_values(|nb: Neighbor| nb@).to_multiset() == removed.map_values(
                |nb: Neighbor| nb@,
            ).to_multiset().insert(x@)) by {
                assert(removed.map_values(|nb: Neighbor| nb@) =~= before.map_values(
                    |nb: Neighbor| nb@,
                ).remove(i as int));
                assert(before.map_values(|nb: Neighbor| nb@)[i as int] == x@);
            }
            assert(v@.map_values(|nb: Neighbor| nb@).to_multiset() == removed.map_values(
                |nb: Neighbor| nb@,
            ).to_multiset().insert(x@)) by {
                assert(v@.map_values(|nb: Neighbor| nb@) =~= removed.map_values(
                    |nb: Neighbor| nb@,
                ).insert(j as int, x@));
            }
            assert forall|a: int, b: int|
                0 <= a < b < i + 1 implies (#[trigger] v@[a]).dist_sq <= (#[trigger] v@[b]).dist_sq by {
                if a < j && b < j {
                    assert(v@[a] == removed[a]);
                    assert(v@[b] == removed[b]);
                    assert(removed[a] == before[a]);
                    assert(removed[b] == before[b]);
                } else if a < j && b == j {
                    assert(v@[a] == removed[a]);
                } else if a < j && b > j {
                    assert(v@[a] == removed[a]);
                    assert(v@[b] == removed[b - 1]);
                    assert(removed[a] == before[a]);
                    assert(removed[b - 1] == before[b - 1]);
                    assert(before[a].dist_sq <= before[b - 1].dist_sq);
                } else if a == j && b > j {
                    assert(v@[b] == removed[b - 1]);
                    assert(removed[b - 1] == before[b - 1]);
                    if j < i {
                        assert(removed[j as int].dist_sq > x.dist_sq);
                        assert(removed[j as int] == before[j as int]);
                        assert(before[j as int].dist_sq <= before[b - 1].dist_sq);
                    }
                } else {
                    assert(a > j);
                    assert(v@[a] == removed[a - 1]);
                    assert(v@[b] == removed[b - 1]);
                    assert(removed[a - 1] == before[a - 1]);
                    assert(removed[b - 1] == before[b - 1]);
                    assert(before[a - 1].dist_sq <= before[b - 1].dist_sq);
                }
            }
        }
        i = i + 1;
    }
    proof {
        assert forall|x: int| 0 <= x < v@.len() implies v@.map_values(|nb: Neighbor| nb@)[x] == (
            #[trigger] v@[x])@ by {}
    }
}

} // verus!
