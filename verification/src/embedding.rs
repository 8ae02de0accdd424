//! The fallback embedding strategy and the fixed-point vector type.
//!
//! The fallback strategy is a pure function of the block text: lowercase,
//! split into words, drop one-byte words, count each distinct word, and hash
//! every distinct word to one of [`crate::EMBEDDING_DIMENSION`] buckets. The
//! resulting bucket profile determines the embedding vector; turning a
//! profile into unit-norm coordinates is numeric work that callers perform
//! in the representation of their choice and hand back as fixed-point
//! coordinates (see [`Embedding`]).

use vstd::prelude::*;

use crate::EMBEDDING_DIMENSION;
use crate::counting::firsts;
use crate::counting::lemma_firsts_distinct;
use crate::counting::lemma_occurrences_firsts;
use crate::counting::distinct_with_counts;
use crate::counting::occurrences;
use crate::text::lowercase_of;
use crate::text::spec_words;
use crate::text::split_words;
use crate::text::to_lowercase;

verus! {

/// Fixed-point unit for embedding coordinates: 1.0 is represented as
/// `COORD_SCALE`.
pub const COORD_SCALE: i64 = 65536;

/// Largest admissible magnitude of a fixed-point coordinate; coordinates of
/// unit vectors stay well below this.
pub const COORD_LIMIT: i64 = 262144;

/// The accumulated wrapping sum of the character codes of `t`, reduced
/// modulo two to the thirty-second.
pub open spec fn token_hash(t: Seq<char>) -> int
    decreases t.len(),
{
    if t.len() == 0 {
        0
    } else {
        (token_hash(t.drop_last()) + (t.last() as u32)) % 0x1_0000_0000
    }
}

proof fn lemma_token_hash_range(t: Seq<char>)
    ensures
        0 <= token_hash(t) < 0x1_0000_0000,
    decreases t.len(),
{
    if t.len() > 0 {
        lemma_token_hash_range(t.drop_last());
    }
}

/// The bucket a word contributes to.
pub open spec fn spec_bucket(t: Seq<char>) -> int {
    token_hash(t) % (EMBEDDING_DIMENSION as int)
}

/// Exec computation of [`spec_bucket`].
pub fn token_bucket(w: &String) -> (b: usize)
    ensures
        b == spec_bucket(w@),
        b < EMBEDDING_DIMENSION,
{
    let s: &str = w.as_str();
    let n: usize = s.unicode_len();
    let mut h: u32 = 0;
    let mut i: usize = 0;
    proof {
        assert(w@.take(0) =~= Seq::<char>::empty());
    }
    while i < n
        invariant
            i <= n,
            n == w@.len(),
            s@ == w@,
            h as int == token_hash(w@.take(i as int)),
        decreases n - i,
    {
        let c = s.get_char(i);
        proof {
            assert(w@.take(i as int + 1).drop_last() =~= w@.take(i as int));
            assert(w@.take(i as int + 1).last() == w@[i as int]);
        }
        let c32: u32 = c as u32;
        h = (((h as u64) + (c32 as u64)) % 0x1_0000_0000u64) as u32;
        i = i + 1;
    }
    proof {
        assert(w@.take(n as int) =~= w@);
    }
    (h as usize) % EMBEDDING_DIMENSION
}

/// One distinct word's contribution to the fallback embedding: the bucket it
/// hashes to and how often it occurs.
#[derive(Clone, Copy, Debug, PartialEq, Eq, Structural)]
pub struct BucketWeight {
    pub bucket: usize,
    pub count: usize,
}

/// The bucket profile of the already-lowercased character sequence `s`:
/// one entry per distinct word in order of first occurrence.
pub open spec fn spec_profile_entry(s: Seq<char>, j: int) -> BucketWeight {
    BucketWeight {
        bucket: spec_bucket(firsts(spec_words(s))[j]) as usize,
        count: occurrences(spec_words(s), firsts(spec_words(s))[j]) as usize,
    }
}

/// See [`spec_profile_entry`] for the value of each entry.
pub open spec fn spec_profile(s: Seq<char>) -> Seq<BucketWeight> {
    Seq::new(firsts(spec_words(s)).len(), |j: int| spec_profile_entry(s, j))
}

/// The bucket profile of raw block text: the profile of its lowercase form.
pub open spec fn spec_fallback_profile(s: Seq<char>) -> Seq<BucketWeight> {
    spec_profile(lowercase_of(s))
}

/// Compute the bucket profile of `text`: lowercase it, split it into words,
/// and pair each distinct word's bucket with its frequency.
///
/// The profile is a function of the text alone, so the fallback embedding
/// derived from it is reproducible bit for bit.
pub fn fallback_profile(text: &str) -> (profile: Vec<BucketWeight>)
    ensures
        profile@ == spec_fallback_profile(text@),
{
    let lower = to_lowercase(text);
    let words = split_words(lower.as_str());
    let ghost ws = spec_words(lowercase_of(text@));
    let (uniq, counts) = distinct_with_counts(&words);
    let mut profile: Vec<BucketWeight> = Vec::new();
    let m: usize = uniq.len();
    let mut j: usize = 0;
    while j < m
        invariant
            j <= m,
            m == uniq@.len(),
            ws == spec_words(lowercase_of(text@)),
            counts@.len() == uniq@.len(),
            uniq@.map_values(|w: String| w@) == firsts(ws),
            forall|k: int|
                0 <= k < uniq@.len() ==> counts@[k] == occurrences(ws, uniq@[k]@),
            profile@ == spec_profile(lowercase_of(text@)).take(j as int),
            spec_profile(lowercase_of(text@)).len() == uniq@.len(),
        decreases m - j,
    {
        let bucket = token_bucket(&uniq[j]);
        let entry = BucketWeight { bucket, count: counts[j] };
        proof {
            assert(uniq@.map_values(|w: String| w@)[j as int] == uniq@[j as int]@);
            lemma_token_hash_range(uniq@[j as int]@);
            lemma_occurrences_firsts(ws, uniq@[j as int]@);
            let w = uniq@[j as int]@;
            assert(firsts(ws)[j as int] == w);
            assert(0 <= spec_bucket(w) < EMBEDDING_DIMENSION as int);
            assert(entry.bucket == spec_bucket(w) as usize);
            assert(counts@[j as int] == occurrences(ws, w));
            assert(entry.count == occurrences(ws, w) as usize);
            assert(spec_profile(lowercase_of(text@))[j as int] == spec_profile_entry(
                lowercase_of(text@),
                j as int,
            ));
            assert(spec_profile(lowercase_of(text@))[j as int] == entry);
            assert(profile@.push(entry) =~= spec_profile(lowercase_of(text@)).take(
                j as int + 1,
            ));
        }
        profile.push(entry);
        j = j + 1;
    }
    proof {
        assert(spec_profile(lowercase_of(text@)).take(m as int) =~= spec_profile(
            lowercase_of(text@),
        ));
    }
    profile
}

/// Text with no characters has an empty bucket profile, so the embedding
/// derived from it is the reserved all-zero vector.
pub proof fn lemma_empty_text_empty_profile(s: Seq<char>)
    requires
        lowercase_of(s).len() == 0,
    ensures
        spec_fallback_profile(s) =~= Seq::<BucketWeight>::empty(),
{
    let lower = lowercase_of(s);
    assert(lower =~= Seq::<char>::empty());
    assert(crate::text::split_state(lower).0 =~= Seq::<Seq<char>>::empty());
    assert(spec_words(lower) =~= Seq::<Seq<char>>::empty());
}

/// An embedding vector in fixed-point representation: exactly
/// [`EMBEDDING_DIMENSION`] coordinates, each a multiple of
/// 1/[`COORD_SCALE`], bounded by [`COORD_LIMIT`].
#[derive(Debug)]
pub struct Embedding {
    pub coords: Vec<i64>,
}

/// Squared Euclidean distance between coordinate sequences, in squared
/// fixed-point units.
pub open spec fn spec_dist_sq(a: Seq<i64>, b: Seq<i64>) -> int
    decreases a.len(),
{
    if a.len() == 0 {
        0
    } else {
        spec_dist_sq(a.drop_last(), b.drop_last()) + (a.last() - b.last()) * (a.last()
            - b.last())
    }
}

proof fn lemma_dist_sq_bound(a: Seq<i64>, b: Seq<i64>)
    requires
        a.len() == b.len(),
        forall|i: int| 0 <= i < a.len() ==> -COORD_LIMIT <= #[trigger] a[i] <= COORD_LIMIT,
        forall|i: int| 0 <= i < b.len() ==> -COORD_LIMIT <= #[trigger] b[i] <= COORD_LIMIT,
    ensures
        0 <= spec_dist_sq(a, b) <= a.len() * 0x4_0000_0000_0000,
    decreases a.len(),
{
    if a.len() > 0 {
        lemma_dist_sq_bound(a.drop_last(), b.drop_last());
        let d = a.last() - b.last();
        assert(-0x8_0000 <= d <= 0x8_0000);
        assert(0 <= d * d <= 0x4_0000_0000_0000) by (nonlinear_arith)
            requires
                -0x8_0000 <= d <= 0x8_0000,
        ;
        assert((a.len() - 1) * 0x4_0000_0000_0000 + 0x4_0000_0000_0000 == a.len()
            * 0x4_0000_0000_0000) by (nonlinear_arith);
    }
}

impl Embedding {
    /// Structural soundness: right dimension, coordinates in range.
    pub open spec fn wf(&self) -> bool {
        &&& self.coords@.len() == EMBEDDING_DIMENSION
        &&& forall|i: int|
            0 <= i < self.coords@.len() ==> -COORD_LIMIT <= #[trigger] self.coords@[i]
                <= COORD_LIMIT
    }

    /// Wrap raw coordinates, rejecting wrong dimensions and out-of-range
    /// values.
    pub fn new(coords: Vec<i64>) -> (r: Option<Embedding>)
        ensures
            match r {
                Some(e) => e.wf() && e.coords@ == coords@,
                None => !(coords@.len() == EMBEDDING_DIMENSION && forall|i: int|
                    0 <= i < coords@.len() ==> -COORD_LIMIT <= #[trigger] coords@[i]
                        <= COORD_LIMIT),
            },
    {
        if coords.len() != EMBEDDING_DIMENSION {
            return None;
        }
        let n: usize = coords.len();
        let mut i: usize = 0;
        while i < n
            invariant
                i <= n,
                n == coords@.len(),
                forall|j: int|
                    0 <= j < i ==> -COORD_LIMIT <= #[trigger] coords@[j] <= COORD_LIMIT,
            decreases n - i,
        {
            let c = coords[i];
            if c < -COORD_LIMIT || c > COORD_LIMIT {
                return None;
            }
            i = i + 1;
        }
        Some(Embedding { coords })
    }

    /// The reserved all-zero vector, standing for "no content to embed".
    pub fn zero() -> (e: Embedding)
        ensures
            e.wf(),
            e.spec_is_zero(),
    {
        let mut coords: Vec<i64> = Vec::new();
        let mut i: usize = 0;
        while i < EMBEDDING_DIMENSION
            invariant
                i <= EMBEDDING_DIMENSION,
                coords@.len() == i,
                forall|j: int| 0 <= j < i ==> coords@[j] == 0i64,
            decreases EMBEDDING_DIMENSION - i,
        {
            coords.push(0);
            i = i + 1;
        }
        Embedding { coords }
    }

    /// Whether every coordinate is zero.
    pub open spec fn spec_is_zero(&self) -> bool {
        forall|i: int| 0 <= i < self.coords@.len() ==> self.coords@[i] == 0i64
    }

    /// Exec test for [`Embedding::spec_is_zero`].
    pub fn is_zero(&self) -> (r: bool)
        ensures
            r == self.spec_is_zero(),
    {
        let n: usize = self.coords.len();
        let mut i: usize = 0;
        while i < n
            invariant
                i <= n,
                n == self.coords@.len(),
                forall|j: int| 0 <= j < i ==> self.coords@[j] == 0i64,
            decreases n - i,
        {
            if self.coords[i] != 0 {
                return false;
            }
            i = i + 1;
        }
        true
    }

    /// A fresh vector with the same coordinates.
    pub fn replica(&self) -> (r: Embedding)
        ensures
            r.coords@ == self.coords@,
    {
        let n: usize = self.coords.len();
        let mut coords: Vec<i64> = Vec::new();
        let mut i: usize = 0;
        while i < n
            invariant
                i <= n,
                n == self.coords@.len(),
                coords@ == self.coords@.take(i as int),
            decreases n - i,
        {
            proof {
                assert(self.coords@.take(i as int + 1) =~= self.coords@.take(i as int).push(
                    self.coords@[i as int],
                ));
            }
            coords.push(self.coords[i]);
            i = i + 1;
        }
        proof {
            assert(self.coords@.take(n as int) =~= self.coords@);
        }
        Embedding { coords }
    }

    /// Squared Euclidean distance to `other` in squared fixed-point units.
    pub fn dist_sq(&self, other: &Embedding) -> (d: u64)
        requires
            self.wf(),
            other.wf(),
        ensures
            d == spec_dist_sq(self.coords@, other.coords@),
    {
        let n: usize = self.coords.len();
        let mut acc: u64 = 0;
        let mut i: usize = 0;
        proof {
            assert(self.coords@.take(0) =~= Seq::<i64>::empty());
        }
        while i < n
            invariant
                i <= n,
                n == self.coords@.len(),
                n == other.coords@.len(),
                self.wf(),
                other.wf(),
                acc == spec_dist_sq(self.coords@.take(i as int), other.coords@.take(i as int)),
                acc <= i * 0x4_0000_0000_0000,
            decreases n - i,
        {
            proof {
                assert(self.coords@.take(i as int + 1).drop_last() =~= self.coords@.take(
                    i as int,
                ));
                assert(other.coords@.take(i as int + 1).drop_last() =~= other.coords@.take(
                    i as int,
                ));
            }
            let diff: i64 = self.coords[i] - other.coords[i];
            proof {
                assert(-0x8_0000 <= diff <= 0x8_0000);
                assert(0 <= diff * diff <= 0x4_0000_0000_0000) by (nonlinear_arith)
                    requires
                        -0x8_0000 <= diff <= 0x8_0000,
                ;
                assert(i * 0x4_0000_0000_0000 + 0x4_0000_0000_0000 == (i + 1)
                    * 0x4_0000_0000_0000) by (nonlinear_arith);
                assert((i + 1) * 0x4_0000_0000_0000 <= 1024 * 0x4_0000_0000_0000)
                    by (nonlinear_arith)
                    requires
                        i + 1 <= 1024,
                ;
            }
            let sq: i64 = diff * diff;
            acc = acc + (sq as u64);
            i = i + 1;
        }
        proof {
            assert(self.coords@.take(n as int) =~= self.coords@);
            assert(other.coords@.take(n as int) =~= other.coords@);
        }
        acc
    }
}

/// The squared fixed-point distance that corresponds to a similarity
/// threshold given in thousandths of the 0-to-1 distance scale; values above
/// one thousand are clamped.
pub open spec fn spec_threshold_sq(milli: int) -> int {
    let m = if milli > 1000 {
        1000int
    } else {
        milli
    };
    let fx = m * COORD_SCALE / 1000;
    fx * fx
}

/// Exec computation of [`spec_threshold_sq`].
pub fn threshold_sq_from_milli(milli: u32) -> (t: u64)
    ensures
        t == spec_threshold_sq(milli as int),
{
    let m: u64 = if milli > 1000 {
        1000
    } else {
        milli as u64
    };
    let fx: u64 = m * 65536 / 1000;
    proof {
        assert(fx <= 65536);
        assert(fx * fx <= 65536 * 65536) by (nonlinear_arith)
            requires
                0 <= fx <= 65536,
        ;
    }
    fx * fx
}

} // verus!
