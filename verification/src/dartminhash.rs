//! DartMinHash: darts are thrown at `k` buckets, again and again over a wider
//! range of ranks, until every bucket has received one.
//!
//! The library decides; the caller throws. A run begins with a search parameter
//! `theta` of one. The caller throws the darts of the vector at the current
//! `theta` and hands them over; the run keeps the dart of least rank in every
//! bucket and either is done, because every bucket received a dart in this round,
//! or asks for another round at a `theta` larger by one half. A vector without
//! weight throws no darts at any `theta`: its run is done from the start, and its
//! sketch holds identity zero at infinite rank in every slot.

use crate::darthash::{
    bucket_of, is_winner, lemma_winner_of, lemma_winner_over_rounds, lemma_winners_unique, low_bits, receives, route,
    routed, DartHash, DartTables,
};
use crate::hash_utils::{
    draw_words32, draw_words64, is_table, lemma_mt_after_add, mt_after, mt_state,
    mt_words64, tab64_at, tab64_table, table64_at,
};
use crate::keys::{is_finite_key, Dart, Weighted, INFINITY_KEY};
use crate::similarity::{collisions, lemma_self_collisions};
use mt19937::MT19937;
use tab_hash::Tab64Simple;
use vstd::prelude::*;

verus! {

/// The engine: the number of buckets, the hasher that routes darts to buckets,
/// and the dart thrower.
pub struct DartMinHash {
    k: u64,
    bucket_hasher: Tab64Simple,
    dart_hash: DartHash,
}

/// The engine as a value.
pub struct MinHashTables {
    /// Number of buckets.
    pub k: u64,
    /// Table of the hasher that routes a dart's identity to its bucket.
    pub buckets: Seq<Seq<u64>>,
    /// The dart thrower.
    pub thrower: DartTables,
}

/// The sketching of one vector in progress.
pub struct SketchRun<'a> {
    dm: &'a DartMinHash,
    slots: Vec<Dart>,
    halves: u64,
    done: bool,
}

/// A run as a value.
pub struct RunState {
    /// The engine.
    pub tables: MinHashTables,
    /// What each bucket holds so far.
    pub slots: Seq<Dart>,
    /// Twice the `theta` at which the darts of the next round are to be thrown.
    pub halves: u64,
    /// No further round is needed.
    pub done: bool,
}

/// Every weight of `x` is zero.
pub open spec fn weightless(x: Seq<Weighted>) -> bool {
    forall|i: int| 0 <= i < x.len() ==> (#[trigger] x[i]).1 == 0
}

/// Every slot holds the placeholder: identity zero at infinite rank.
pub open spec fn all_placeholders(slots: Seq<Dart>) -> bool {
    forall|j: int| 0 <= j < slots.len() ==> #[trigger] slots[j] == (0u64, INFINITY_KEY)
}

/// Every slot holds a dart, whose rank is finite.
pub open spec fn all_darts(slots: Seq<Dart>) -> bool {
    forall|j: int| 0 <= j < slots.len() ==> is_finite_key((#[trigger] slots[j]).1)
}

impl RunState {
    /// The run with which the sketching of `x` begins: every bucket holds the
    /// placeholder, the first round is due at a `theta` of one, and nothing is
    /// left to do if `x` has no weight.
    pub open spec fn initial(tables: MinHashTables, x: Seq<Weighted>) -> RunState {
        RunState {
            tables,
            slots: Seq::new(tables.k as nat, |j: int| (0u64, INFINITY_KEY)),
            halves: 2,
            done: weightless(x),
        }
    }

    /// `next` is this run after the round `darts`. Every bucket holds the winner
    /// among what it held and the darts that fell into it. The run is done if
    /// every bucket received a dart; if not, the next round is due at a `theta`
    /// larger by one half.
    pub open spec fn advanced(self, darts: Seq<Dart>, next: RunState) -> bool {
        let k = self.tables.k;
        let buckets = self.tables.buckets;
        &&& next.tables == self.tables
        &&& next.slots.len() == k
        &&& forall|j: int| 0 <= j < k ==> is_winner(buckets, k, self.slots[j], darts, j, #[trigger] next.slots[j])
        &&& next.done <==> forall|j: int| 0 <= j < k ==> receives(buckets, k, darts, j)
        &&& next.halves == if next.done {
            self.halves as int
        } else {
            self.halves + 1
        }
    }

    /// Every slot holds the placeholder or a dart whose bucket it is.
    pub open spec fn at_home(self) -> bool {
        forall|j: int|
            0 <= j < self.slots.len() ==> #[trigger] self.slots[j] == (0u64, INFINITY_KEY) || bucket_of(
                self.tables.buckets,
                self.tables.k,
                self.slots[j].0,
            ) == j
    }

    /// The run has one slot per bucket, every slot holds the placeholder or a
    /// dart whose bucket it is, and if the run is done it holds a dart in every
    /// slot, or the placeholder in every slot.
    pub open spec fn valid(self) -> bool {
        &&& 0 < self.tables.k <= usize::MAX
        &&& self.slots.len() == self.tables.k
        &&& self.at_home()
        &&& self.done ==> all_placeholders(self.slots) || all_darts(self.slots)
    }
}

impl<'a> View for SketchRun<'a> {
    type V = RunState;

    closed spec fn view(&self) -> RunState {
        RunState { tables: self.dm@, slots: self.slots@, halves: self.halves, done: self.done }
    }
}

impl View for DartMinHash {
    type V = MinHashTables;

    closed spec fn view(&self) -> MinHashTables {
        MinHashTables { k: self.k, buckets: tab64_table(self.bucket_hasher), thrower: self.dart_hash@ }
    }
}

impl DartMinHash {
    #[verifier::type_invariant]
    spec fn wf(&self) -> bool {
        0 < self.k <= usize::MAX
    }

    /// The engine of `k` buckets that routes darts with `bucket_hasher` and
    /// throws them with `dart_hash`.
    pub fn from_parts(k: u64, bucket_hasher: Tab64Simple, dart_hash: DartHash) -> (dm: DartMinHash)
        requires
            0 < k <= usize::MAX,
        ensures
            dm@ == (MinHashTables { k, buckets: tab64_table(bucket_hasher), thrower: dart_hash@ }),
    {
        DartMinHash { k, bucket_hasher, dart_hash }
    }

    /// The engine of `k` buckets whose bucket hasher has the table made of the
    /// 2048 words `bucket_words`, and whose thrower expects `t` darts per unit of
    /// weight and is made of `words32` and `words64` as `DartHash::from_words`
    /// makes it.
    pub fn from_words(k: u64, bucket_words: &Vec<u64>, t: u64, words32: &Vec<u32>, words64: &Vec<u64>) -> (dm:
        DartMinHash)
        requires
            0 < k <= usize::MAX,
            bucket_words@.len() == 2048,
            words32@.len() == 4096,
            words64@.len() == 10240,
        ensures
            dm@ == (MinHashTables {
                k,
                buckets: table64_at(bucket_words@, 0),
                thrower: DartTables::of_words(t, words32@, words64@),
            }),
            is_table(dm@.buckets, 8),
            dm@.thrower.shaped(),
    {
        let bucket_hasher = tab64_at(bucket_words, 0);
        let dart_hash = DartHash::from_words(t, words32, words64);
        DartMinHash::from_parts(k, bucket_hasher, dart_hash)
    }

    /// Builds an engine of `k` buckets whose thrower expects `t` darts per unit
    /// of weight from the next words of `rng`: 2048 of 64 bits for the bucket
    /// hasher, then those of the thrower.
    pub fn new_mt(rng: &mut MT19937, k: u64, t: u64) -> (dm: DartMinHash)
        requires
            0 < k <= usize::MAX,
        ensures
            dm@ == (MinHashTables {
                k,
                buckets: table64_at(mt_words64(mt_state(*old(rng)), 2048), 0),
                thrower: DartTables::drawn(t, mt_after(mt_state(*old(rng)), 4096)),
            }),
            is_table(dm@.buckets, 8),
            dm@.thrower.shaped(),
            mt_state(*final(rng)) == mt_after(mt_state(*old(rng)), 28672),
    {
        let ghost begin = mt_state(*rng);
        let bucket_words = draw_words64(rng, 2048);
        let words32 = draw_words32(rng, 4096);
        let words64 = draw_words64(rng, 10240);
        proof {
            lemma_mt_after_add(begin, 4096, 4096);
            lemma_mt_after_add(begin, 8192, 20480);
            lemma_mt_after_add(mt_after(begin, 4096), 4096, 20480);
        }
        DartMinHash::from_words(k, &bucket_words, t, &words32, &words64)
    }

    /// The number of buckets.
    pub fn k(&self) -> (k: u64)
        ensures
            k == self@.k,
            0 < k <= usize::MAX,
    {
        proof {
            use_type_invariant(self);
        }
        self.k
    }

    /// The dart thrower.
    pub fn dart_hash(&self) -> (dh: &DartHash)
        ensures
            dh@ == self@.thrower,
    {
        &self.dart_hash
    }

    /// Begins the sketching of `x`: every bucket holds the placeholder, the first
    /// round is to be thrown at a `theta` of one, and the run is done at once if
    /// `x` has no weight.
    pub fn sketch<'a>(&'a self, x: &[Weighted]) -> (run: SketchRun<'a>)
        ensures
            run@ == RunState::initial(self@, x@),
            run@.valid(),
    {
        proof {
            use_type_invariant(self);
        }
        let mut slots: Vec<Dart> = Vec::new();
        let mut j: u64 = 0;
        while j < self.k
            invariant
                j <= self.k,
                slots@.len() == j,
                all_placeholders(slots@),
            decreases self.k - j,
        {
            slots.push((0, INFINITY_KEY));
            j += 1;
        }
        let mut done = true;
        let mut i: usize = 0;
        while i < x.len()
            invariant
                i <= x@.len(),
                done <==> forall|a: int| 0 <= a < i ==> (#[trigger] x@[a]).1 == 0,
            decreases x@.len() - i,
        {
            if x[i].1 != 0 {
                done = false;
            }
            i += 1;
        }
        assert(slots@ =~= RunState::initial(self@, x@).slots);
        SketchRun { dm: self, slots, halves: 2, done }
    }

    /// The one-bit form of a sketch: whether the identity in each slot is odd.
    pub fn onebit(&self, sketch: &Vec<Dart>) -> (bits: Vec<bool>)
        ensures
            bits@.len() == sketch@.len(),
            forall|j: int| 0 <= j < sketch@.len() ==> #[trigger] bits@[j] == (sketch@[j].0 % 2 == 1),
    {
        low_bits(sketch)
    }
}

impl<'a> SketchRun<'a> {
    #[verifier::type_invariant]
    spec fn wf(&self) -> bool {
        self@.valid()
    }

    /// Whether no further round is needed.
    pub fn is_done(&self) -> (done: bool)
        ensures
            done == self@.done,
    {
        self.done
    }

    /// Twice the `theta` at which the darts of the next round are to be thrown.
    pub fn theta_halves(&self) -> (halves: u64)
        ensures
            halves == self@.halves,
    {
        self.halves
    }

    /// Takes in the darts thrown at the `theta` that the run asked for. Every
    /// bucket keeps the dart of least rank that it has seen in any round, the
    /// earliest of them on a tie. The run is done when every bucket received a
    /// dart in this round; otherwise it asks for a `theta` larger by one half.
    pub fn advance(self, darts: &[Dart]) -> (next: SketchRun<'a>)
        requires
            !self@.done,
            self@.halves < u64::MAX,
            all_darts(darts@),
        ensures
            self@.advanced(darts@, next@),
            next@.valid(),
            next@.done ==> all_darts(next@.slots),
    {
        proof {
            use_type_invariant(&self);
        }
        let SketchRun { dm, mut slots, halves, done: _ } = self;
        let ghost before = slots@;
        let ghost table = dm@.buckets;
        let k = dm.k;
        let filled = route(&dm.bucket_hasher, k, &mut slots, darts);
        let mut done = true;
        let mut j: usize = 0;
        while j < filled.len()
            invariant
                j <= filled@.len(),
                done <==> forall|a: int| 0 <= a < j ==> #[trigger] filled@[a],
            decreases filled@.len() - j,
        {
            if !filled[j] {
                done = false;
            }
            j += 1;
        }
        proof {
            assert forall|j: int| 0 <= j < k implies is_winner(table, k, before[j], darts@, j, #[trigger] slots@[j]) by {
                lemma_winner_of(table, k, before[j], darts@, j);
            }
            if done {
                assert forall|j: int| 0 <= j < slots@.len() implies is_finite_key((#[trigger] slots@[j]).1) by {
                    assert(filled@[j]);
                    let i = choose|i: int| routed(table, k, darts@, i, j);
                    assert(is_finite_key(darts@[i].1));
                }
            }
            assert forall|j: int| 0 <= j < k implies #[trigger] slots@[j] == (0u64, INFINITY_KEY) || bucket_of(
                table,
                k,
                slots@[j].0,
            ) == j by {
                assert(is_winner(table, k, before[j], darts@, j, slots@[j]));
                assert(before[j] == (0u64, INFINITY_KEY) || bucket_of(table, k, before[j].0) == j);
            }
            assert(done <==> forall|j: int| 0 <= j < k ==> receives(table, k, darts@, j)) by {
                if done {
                    assert forall|j: int| 0 <= j < k implies receives(table, k, darts@, j) by {
                        assert(filled@[j]);
                    }
                }
            }
        }
        if done {
            SketchRun { dm, slots, halves, done }
        } else {
            SketchRun { dm, slots, halves: halves + 1, done }
        }
    }

    /// The sketch of a run that is done: one slot per bucket, each with the dart
    /// that the bucket kept. Either every slot holds a dart, or, for a vector
    /// without weight, every slot holds the placeholder.
    pub fn finish(self) -> (out: Vec<Dart>)
        requires
            self@.done,
        ensures
            out@ == self@.slots,
            out@.len() == self@.tables.k,
            all_placeholders(out@) || all_darts(out@),
            self@.at_home(),
    {
        proof {
            use_type_invariant(&self);
        }
        self.slots
    }
}

/// A round keeps a run valid: it keeps one slot per bucket, and a run that is
/// done after a round of darts holds a dart in every slot.
pub proof fn lemma_advanced_valid(run: RunState, darts: Seq<Dart>, next: RunState)
    requires
        run.valid(),
        run.advanced(darts, next),
        all_darts(darts),
    ensures
        next.valid(),
{
    assert forall|j: int| 0 <= j < next.slots.len() implies #[trigger] next.slots[j] == (0u64, INFINITY_KEY)
        || bucket_of(next.tables.buckets, next.tables.k, next.slots[j].0) == j by {
        assert(is_winner(run.tables.buckets, run.tables.k, run.slots[j], darts, j, next.slots[j]));
        assert(run.slots[j] == (0u64, INFINITY_KEY) || bucket_of(run.tables.buckets, run.tables.k, run.slots[j].0)
            == j);
    }
    if next.done {
        let k = run.tables.k;
        let buckets = run.tables.buckets;
        assert forall|j: int| 0 <= j < next.slots.len() implies is_finite_key((#[trigger] next.slots[j]).1) by {
            assert(receives(buckets, k, darts, j));
            let i = choose|i: int| routed(buckets, k, darts, i, j);
            assert(is_finite_key(darts[i].1));
        }
    }
}

/// A round has one outcome only: the run after it is determined by the run
/// before it and the darts. Two sketches of one vector therefore collide in
/// every slot.
pub proof fn lemma_advanced_deterministic(run: RunState, darts: Seq<Dart>, a: RunState, b: RunState)
    requires
        run.advanced(darts, a),
        run.advanced(darts, b),
    ensures
        a == b,
        collisions(a.slots, b.slots) == run.tables.k,
{
    lemma_winners_unique(run.tables.buckets, run.tables.k, run.slots, darts, a.slots, b.slots);
    lemma_self_collisions(a.slots);
}

/// Rounds add up: after two rounds every bucket holds the winner among what it
/// held before them and the darts of both rounds, so that a bucket keeps the
/// dart of least rank that it has seen in any round.
pub proof fn lemma_rounds_add_up(
    run: RunState,
    first: Seq<Dart>,
    between: RunState,
    second: Seq<Dart>,
    after: RunState,
)
    requires
        run.advanced(first, between),
        between.advanced(second, after),
    ensures
        forall|j: int| 0 <= j < run.tables.k ==> is_winner(
            run.tables.buckets,
            run.tables.k,
            run.slots[j],
            first + second,
            j,
            #[trigger] after.slots[j],
        ),
{
    assert forall|j: int| 0 <= j < run.tables.k implies is_winner(
        run.tables.buckets,
        run.tables.k,
        run.slots[j],
        first + second,
        j,
        #[trigger] after.slots[j],
    ) by {
        lemma_winner_over_rounds(
            run.tables.buckets,
            run.tables.k,
            run.slots[j],
            first,
            second,
            j,
            between.slots[j],
            after.slots[j],
        );
    }
}

/// No identity stands in two slots of a sketch of darts: every dart stands in
/// the slot of its own bucket.
pub proof fn lemma_identities_differ(run: RunState)
    requires
        run.valid(),
        all_darts(run.slots),
    ensures
        forall|i: int, j: int|
            0 <= i < j < run.slots.len() ==> (#[trigger] run.slots[i]).0 != (#[trigger] run.slots[j]).0,
{
    assert forall|i: int, j: int| 0 <= i < j < run.slots.len() implies (#[trigger] run.slots[i]).0 != (
    #[trigger] run.slots[j]).0 by {
        assert(is_finite_key(run.slots[i].1));
        assert(is_finite_key(run.slots[j].1));
    }
}

} // verus!
